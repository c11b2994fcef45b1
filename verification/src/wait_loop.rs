//! The wait loop as a state machine.
//!
//! The loop itself blocks on the USB layer, so it is run by the caller. Here stand its
//! decisions: [`WaitLoop::step`] takes what the outside work brought back and answers
//! with what to do next. A driver starts with [`Action::Enumerate`], performs each
//! action it is given, and hands the result back as an [`Event`], until the answer is
//! one of the final actions.

use crate::device_id::DeviceID;
use crate::presence::{is_connected, present};
use crate::usb::{enumeration_view, Entry, Enumeration, UsbError};
use vstd::prelude::*;

verus! {

/// Where the loop stands.
#[derive(Debug, Clone, Copy, PartialEq, Eq, Structural)]
pub enum Phase {
    /// Nothing has happened yet: the first listing of the devices is awaited.
    Init,
    /// The wanted state was not there at the start: the answer to whether the USB
    /// layer can notify of changes is awaited.
    Probing,
    /// Notifications are possible: the outcome of the registration is awaited.
    Registering,
    /// Registered for notifications: the next change is awaited.
    Polling,
    /// The loop has ended, one way or another.
    Finished,
}

/// Why a wait ended in failure.
#[derive(Debug, Clone, Copy, PartialEq, Eq, Structural)]
pub enum Failure {
    /// The wanted state was not there and the caller asked not to wait.
    NoDevice,
    /// The USB layer refused the registration.
    Usb(UsbError),
    /// The notifying side went away while the loop was waiting.
    Disconnected,
    /// The driver handed in an event that the loop was not waiting for.
    OutOfTurn,
}

/// What the driver does next.
#[derive(Debug, Clone, Copy, PartialEq, Eq)]
pub enum Action {
    /// List the devices and hand the listing back as [`Event::Enumerated`].
    Enumerate,
    /// Ask whether the USB layer can notify of changes: [`Event::HotplugSupport`].
    QueryHotplug,
    /// Register for arrivals and departures, without having the devices that are
    /// already there announced: [`Event::Registered`].
    Register,
    /// Let the USB layer deliver its events, take one notification and list the
    /// devices anew: [`Event::Changed`], or [`Event::Disconnected`].
    Pump,
    /// The wanted state was there from the start: print `found`, if a device was
    /// found, and leave with success. Nothing was registered.
    Done { found: Option<DeviceID> },
    /// A change brought the wanted state: release the registration, print `report`
    /// and leave with success.
    Release { report: DeviceID },
    /// The USB layer cannot notify of changes: say so and leave with success.
    Unsupported,
    /// Leave with this failure.
    Fail(Failure),
}

/// What the outside work brought back.
#[derive(Debug, PartialEq, Eq)]
pub enum Event {
    /// The devices were listed, or the listing failed.
    Enumerated(Enumeration),
    /// Whether the USB layer can notify of changes.
    HotplugSupport(bool),
    /// The registration was made, or refused.
    Registered(Result<(), UsbError>),
    /// A notification came for `device`; `devices` is a listing taken after it.
    Changed { device: DeviceID, devices: Enumeration },
    /// The notifying side went away.
    Disconnected,
}

/// The mathematical value of an event.
pub enum EventView {
    Enumerated(Result<Seq<Entry>, UsbError>),
    HotplugSupport(bool),
    Registered(Result<(), UsbError>),
    Changed { device: DeviceID, devices: Result<Seq<Entry>, UsbError> },
    Disconnected,
}

impl View for Event {
    type V = EventView;

    open spec fn view(&self) -> EventView {
        match *self {
            Event::Enumerated(devices) => EventView::Enumerated(enumeration_view(devices)),
            Event::HotplugSupport(supported) => EventView::HotplugSupport(supported),
            Event::Registered(outcome) => EventView::Registered(outcome),
            Event::Changed { device, devices } => EventView::Changed {
                device,
                devices: enumeration_view(devices),
            },
            Event::Disconnected => EventView::Disconnected,
        }
    }
}

/// The mathematical value of a wait loop: what is waited for, and where the loop stands.
pub struct WaitLoopView {
    /// The wanted devices.
    pub ids: Seq<DeviceID>,
    /// Whether the wait is for the wanted devices to be gone.
    pub detach: bool,
    /// Whether to give up at once when the wanted state is not there.
    pub nowait: bool,
    /// Where the loop stands.
    pub phase: Phase,
}

/// The wanted state: one of the devices is there, when waiting for an attachment; none
/// is, when waiting for a detachment.
pub open spec fn satisfied(found: Option<DeviceID>, detach: bool) -> bool {
    found.is_some() != detach
}

/// What is printed when a change has brought the wanted state: the device that was
/// found, or, when the wanted devices are gone, the device that the notification was
/// about.
pub open spec fn reported(found: Option<DeviceID>, device: DeviceID) -> DeviceID {
    match found {
        Some(id) => id,
        None => device,
    }
}

/// The loop at `state` with its phase replaced.
pub open spec fn at_phase(state: WaitLoopView, phase: Phase) -> WaitLoopView {
    WaitLoopView { phase, ..state }
}

/// One step of the loop: the state after `event`, and the action that answers it.
pub open spec fn transition(state: WaitLoopView, event: EventView) -> (WaitLoopView, Action) {
    match (state.phase, event) {
        (Phase::Init, EventView::Enumerated(devices)) => {
            let found = present(devices, state.ids);
            if satisfied(found, state.detach) {
                (at_phase(state, Phase::Finished), Action::Done { found })
            } else if state.nowait {
                (at_phase(state, Phase::Finished), Action::Fail(Failure::NoDevice))
            } else {
                (at_phase(state, Phase::Probing), Action::QueryHotplug)
            }
        },
        (Phase::Probing, EventView::HotplugSupport(supported)) => {
            if supported {
                (at_phase(state, Phase::Registering), Action::Register)
            } else {
                (at_phase(state, Phase::Finished), Action::Unsupported)
            }
        },
        (Phase::Registering, EventView::Registered(outcome)) => {
            match outcome {
                Ok(_) => (at_phase(state, Phase::Polling), Action::Pump),
                Err(e) => (at_phase(state, Phase::Finished), Action::Fail(Failure::Usb(e))),
            }
        },
        (Phase::Polling, EventView::Changed { device, devices }) => {
            let found = present(devices, state.ids);
            if satisfied(found, state.detach) {
                (
                    at_phase(state, Phase::Finished),
                    Action::Release { report: reported(found, device) },
                )
            } else {
                (state, Action::Pump)
            }
        },
        (Phase::Polling, EventView::Disconnected) => (
            at_phase(state, Phase::Finished),
            Action::Fail(Failure::Disconnected),
        ),
        _ => (at_phase(state, Phase::Finished), Action::Fail(Failure::OutOfTurn)),
    }
}

/// The outside work that a phase waits for; none once the loop has ended.
pub open spec fn awaited(phase: Phase) -> Option<Action> {
    match phase {
        Phase::Init => Some(Action::Enumerate),
        Phase::Probing => Some(Action::QueryHotplug),
        Phase::Registering => Some(Action::Register),
        Phase::Polling => Some(Action::Pump),
        Phase::Finished => None,
    }
}

/// Whether an action ends the wait.
pub open spec fn is_final(action: Action) -> bool {
    action is Done || action is Release || action is Unsupported || action is Fail
}

/// Every answer either ends the wait, and then the loop is finished, or it is the
/// outside work that the new phase waits for.
pub proof fn lemma_answer_is_awaited(state: WaitLoopView, event: EventView)
    ensures
        is_final(transition(state, event).1) <==> transition(state, event).0.phase
            == Phase::Finished,
        !is_final(transition(state, event).1) ==> awaited(transition(state, event).0.phase)
            == Some(transition(state, event).1),
{
}

/// The decisions of one wait: for which devices, for which change, and how far it has
/// come.
#[derive(Debug)]
pub struct WaitLoop {
    ids: Vec<DeviceID>,
    detach: bool,
    nowait: bool,
    phase: Phase,
}

impl View for WaitLoop {
    type V = WaitLoopView;

    closed spec fn view(&self) -> WaitLoopView {
        WaitLoopView { ids: self.ids@, detach: self.detach, nowait: self.nowait, phase: self.phase }
    }
}

impl WaitLoop {
    /// A wait for the devices `ids`: for one of them to be attached, or, with `detach`,
    /// for all of them to be gone. With `nowait` the wait gives up at once when the
    /// wanted state is not there.
    pub fn new(ids: Vec<DeviceID>, detach: bool, nowait: bool) -> (fresh: WaitLoop)
        ensures
            fresh@ == (WaitLoopView { ids: ids@, detach, nowait, phase: Phase::Init }),
    {
        WaitLoop { ids, detach, nowait, phase: Phase::Init }
    }

    /// Where the loop stands.
    pub fn phase(&self) -> (phase: Phase)
        ensures
            phase == self@.phase,
    {
        self.phase
    }

    /// The wanted devices.
    pub fn ids(&self) -> (ids: &Vec<DeviceID>)
        ensures
            ids@ == self@.ids,
    {
        &self.ids
    }

    /// Whether the wait is for the wanted devices to be gone.
    pub fn detach(&self) -> (detach: bool)
        ensures
            detach == self@.detach,
    {
        self.detach
    }

    /// Whether the wait gives up at once when the wanted state is not there.
    pub fn nowait(&self) -> (nowait: bool)
        ensures
            nowait == self@.nowait,
    {
        self.nowait
    }

    /// The outside work that the loop waits for, and `None` once it has ended.
    pub fn pending(&self) -> (action: Option<Action>)
        ensures
            action == awaited(self@.phase),
    {
        match self.phase {
            Phase::Init => Some(Action::Enumerate),
            Phase::Probing => Some(Action::QueryHotplug),
            Phase::Registering => Some(Action::Register),
            Phase::Polling => Some(Action::Pump),
            Phase::Finished => None,
        }
    }

    /// Takes what the outside work brought back and decides how the wait goes on.
    pub fn step(&mut self, event: Event) -> (action: Action)
        ensures
            (final(self)@, action) == transition(old(self)@, event@),
    {
        let phase = self.phase;
        self.phase = Phase::Finished;
        match (phase, event) {
            (Phase::Init, Event::Enumerated(devices)) => {
                let found = is_connected(devices, &self.ids);
                if found.is_some() != self.detach {
                    Action::Done { found }
                } else if self.nowait {
                    Action::Fail(Failure::NoDevice)
                } else {
                    self.phase = Phase::Probing;
                    Action::QueryHotplug
                }
            },
            (Phase::Probing, Event::HotplugSupport(supported)) => {
                if supported {
                    self.phase = Phase::Registering;
                    Action::Register
                } else {
                    Action::Unsupported
                }
            },
            (Phase::Registering, Event::Registered(outcome)) => {
                match outcome {
                    Ok(_) => {
                        self.phase = Phase::Polling;
                        Action::Pump
                    },
                    Err(e) => Action::Fail(Failure::Usb(e)),
                }
            },
            (Phase::Polling, Event::Changed { device, devices }) => {
                let found = is_connected(devices, &self.ids);
                if found.is_some() != self.detach {
                    let report = match found {
                        Some(id) => id,
                        None => device,
                    };
                    Action::Release { report }
                } else {
                    self.phase = Phase::Polling;
                    Action::Pump
                }
            },
            (Phase::Polling, Event::Disconnected) => Action::Fail(Failure::Disconnected),
            _ => Action::Fail(Failure::OutOfTurn),
        }
    }
}

} // verus!
