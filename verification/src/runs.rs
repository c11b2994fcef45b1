//! Whole runs of the wait loop: what holds of the actions that answer any sequence of
//! events.

use crate::device_id::DeviceID;
use crate::presence::present;
use crate::usb::{Entry, UsbError};
use crate::wait_loop::{
    at_phase, reported, satisfied, transition, Action, Event, EventView, Failure, Phase, WaitLoop,
    WaitLoopView,
};
use vstd::prelude::*;

verus! {

/// The actions that answer `events`, one after another, from `state` on.
pub open spec fn run(state: WaitLoopView, events: Seq<EventView>) -> Seq<Action>
    decreases events.len(),
{
    if events.len() == 0 {
        Seq::empty()
    } else {
        let (next, action) = transition(state, events[0]);
        seq![action] + run(next, events.drop_first())
    }
}

/// The state that the loop is in after `events`.
pub open spec fn state_after(state: WaitLoopView, events: Seq<EventView>) -> WaitLoopView
    decreases events.len(),
{
    if events.len() == 0 {
        state
    } else {
        state_after(transition(state, events[0]).0, events.drop_first())
    }
}

/// How often the driver is told to register.
pub open spec fn registrations(actions: Seq<Action>) -> nat
    decreases actions.len(),
{
    if actions.len() == 0 {
        0
    } else {
        (if actions[0] is Register {
            1nat
        } else {
            0nat
        }) + registrations(actions.drop_first())
    }
}

/// How often the driver is told to release the registration.
pub open spec fn releases(actions: Seq<Action>) -> nat
    decreases actions.len(),
{
    if actions.len() == 0 {
        0
    } else {
        (if actions[0] is Release {
            1nat
        } else {
            0nat
        }) + releases(actions.drop_first())
    }
}

/// A change that does not bring the wanted state.
pub open spec fn is_quiet(state: WaitLoopView, event: EventView) -> bool {
    event matches EventView::Changed { devices, .. } && !satisfied(
        present(devices, state.ids),
        state.detach,
    )
}

/// The run on a first event and the rest: the answer to the first event, then the run
/// of the rest from the state that the first event leaves.
pub proof fn lemma_run_first(state: WaitLoopView, event: EventView, rest: Seq<EventView>)
    ensures
        run(state, seq![event] + rest) == seq![transition(state, event).1] + run(
            transition(state, event).0,
            rest,
        ),
        registrations(run(state, seq![event] + rest)) == (if transition(state, event).1
            is Register {
            1nat
        } else {
            0nat
        }) + registrations(run(transition(state, event).0, rest)),
        releases(run(state, seq![event] + rest)) == (if transition(state, event).1 is Release {
            1nat
        } else {
            0nat
        }) + releases(run(transition(state, event).0, rest)),
{
    let events = seq![event] + rest;
    assert(events[0] == event);
    assert(events.drop_first() == rest);
    let tail = run(transition(state, event).0, rest);
    let actions = seq![transition(state, event).1] + tail;
    assert(actions.drop_first() == tail);
}

/// The mathematical values of a list of events.
pub open spec fn event_views(events: Seq<Event>) -> Seq<EventView> {
    Seq::new(events.len(), |i: int| events[i]@)
}

/// The run on some events and one more: the run on the former, then the answer to the
/// latter from the state that the former leave.
pub proof fn lemma_run_last(state: WaitLoopView, events: Seq<EventView>, event: EventView)
    ensures
        run(state, events.push(event)) == run(state, events).push(
            transition(state_after(state, events), event).1,
        ),
        state_after(state, events.push(event)) == transition(
            state_after(state, events),
            event,
        ).0,
    decreases events.len(),
{
    let longer = events.push(event);
    if events.len() == 0 {
        let next = transition(state, event).0;
        let tail = longer.drop_first();
        assert(longer[0] == event);
        assert(tail.len() == 0);
        assert(run(next, tail) == Seq::<Action>::empty());
        assert(state_after(next, tail) == next);
        assert(run(state, events) == Seq::<Action>::empty());
    } else {
        let next = transition(state, events[0]).0;
        assert(longer[0] == events[0]);
        assert(longer.drop_first() == events.drop_first().push(event));
        lemma_run_last(next, events.drop_first(), event);
    }
}

/// Feeds recorded events to the loop, one after another, and gives back every answer.
pub fn replay(wait: &mut WaitLoop, events: Vec<Event>) -> (actions: Vec<Action>)
    ensures
        actions@ == run(old(wait)@, event_views(events@)),
        final(wait)@ == state_after(old(wait)@, event_views(events@)),
{
    let ghost start = wait@;
    let ghost all = event_views(events@);
    let mut actions: Vec<Action> = Vec::new();
    for event in iter: events
        invariant
            all == event_views(events@),
            iter.seq() == events@,
            actions@ == run(start, all.take(iter.index() as int)),
            wait@ == state_after(start, all.take(iter.index() as int)),
    {
        let ghost done = all.take(iter.index() as int);
        proof {
            lemma_run_last(start, done, event@);
            assert(done.push(event@) == all.take(iter.index() + 1));
        }
        let action = wait.step(event);
        actions.push(action);
    }
    assert(all.take(events@.len() as int) == all);
    actions
}

/// Every step keeps what is waited for: only the phase moves.
pub proof fn lemma_step_keeps_goal(state: WaitLoopView, event: EventView)
    ensures
        transition(state, event).0 == at_phase(state, transition(state, event).0.phase),
{
}

/// Once the loop has ended it stays ended: every further event is out of turn, and the
/// driver is told neither to register nor to release.
pub proof fn lemma_finished_is_final(state: WaitLoopView, events: Seq<EventView>)
    requires
        state.phase == Phase::Finished,
    ensures
        run(state, events).len() == events.len(),
        forall|i: int|
            0 <= i < events.len() ==> #[trigger] run(state, events)[i] == Action::Fail(
                Failure::OutOfTurn,
            ),
        registrations(run(state, events)) == 0,
        releases(run(state, events)) == 0,
        state_after(state, events) == state,
    decreases events.len(),
{
    if events.len() > 0 {
        let (next, action) = transition(state, events[0]);
        assert(next == state);
        lemma_finished_is_final(state, events.drop_first());
        let tail = run(state, events.drop_first());
        let actions = seq![action] + tail;
        assert(actions.drop_first() == tail);
        assert forall|i: int| 0 <= i < events.len() implies #[trigger] run(state, events)[i]
            == Action::Fail(Failure::OutOfTurn) by {
            if i > 0 {
                assert(actions[i] == tail[i - 1]);
            }
        }
    }
}

/// In every run, from every state: the driver is told to register at most once, and
/// only before a registration was asked for; it is told to release at most once, and
/// from a loop that has not yet asked to register only after it has asked.
pub proof fn lemma_registration_discipline(state: WaitLoopView, events: Seq<EventView>)
    ensures
        registrations(run(state, events)) <= 1,
        releases(run(state, events)) <= 1,
        state.phase is Init || state.phase is Probing ==> releases(run(state, events))
            <= registrations(run(state, events)),
        state.phase is Registering || state.phase is Polling ==> registrations(
            run(state, events),
        ) == 0,
        state.phase is Finished ==> registrations(run(state, events)) == 0 && releases(
            run(state, events),
        ) == 0,
    decreases events.len(),
{
    if events.len() > 0 {
        let (next, action) = transition(state, events[0]);
        lemma_registration_discipline(next, events.drop_first());
        let tail = run(next, events.drop_first());
        let actions = seq![action] + tail;
        assert(actions.drop_first() == tail);
    }
}

/// A loop that has asked to register never leaves as if nothing had been registered:
/// from then on no answer is `Done` or `Unsupported`, so the only way out with success
/// is `Release`.
pub proof fn lemma_registered_leaves_through_release(
    state: WaitLoopView,
    events: Seq<EventView>,
)
    requires
        state.phase is Registering || state.phase is Polling || state.phase is Finished,
    ensures
        forall|i: int|
            0 <= i < run(state, events).len() ==> !(#[trigger] run(state, events)[i] is Done)
                && !(run(state, events)[i] is Unsupported),
    decreases events.len(),
{
    if events.len() > 0 {
        let (next, action) = transition(state, events[0]);
        lemma_registered_leaves_through_release(next, events.drop_first());
        let tail = run(next, events.drop_first());
        let actions = seq![action] + tail;
        assert forall|i: int| 0 <= i < actions.len() implies !(#[trigger] actions[i] is Done)
            && !(actions[i] is Unsupported) by {
            if i > 0 {
                assert(actions[i] == tail[i - 1]);
            }
        }
    }
}

/// In a run from the start, whatever is answered after `Register` is neither `Done`
/// nor `Unsupported`.
pub proof fn lemma_no_silent_exit_after_register(
    state: WaitLoopView,
    events: Seq<EventView>,
    i: int,
    j: int,
)
    requires
        0 <= i < j < run(state, events).len(),
        run(state, events)[i] is Register,
    ensures
        !(run(state, events)[j] is Done),
        !(run(state, events)[j] is Unsupported),
    decreases events.len(),
{
    let (next, action) = transition(state, events[0]);
    let tail = run(next, events.drop_first());
    let actions = seq![action] + tail;
    assert(actions[j] == tail[j - 1]);
    if i == 0 {
        assert(next.phase is Registering);
        lemma_registered_leaves_through_release(next, events.drop_first());
    } else {
        assert(actions[i] == tail[i - 1]);
        lemma_no_silent_exit_after_register(next, events.drop_first(), i - 1, j - 1);
    }
}

/// Attach mode, a wanted device already there: the first answer ends the wait with
/// that device to print, and the driver is never told to register or to release.
pub proof fn lemma_attach_fast_path(
    state: WaitLoopView,
    devices: Result<Seq<Entry>, UsbError>,
    rest: Seq<EventView>,
)
    requires
        state.phase == Phase::Init,
        !state.detach,
        present(devices, state.ids) is Some,
    ensures
        run(state, seq![EventView::Enumerated(devices)] + rest)[0] == (Action::Done {
            found: present(devices, state.ids),
        }),
        registrations(run(state, seq![EventView::Enumerated(devices)] + rest)) == 0,
        releases(run(state, seq![EventView::Enumerated(devices)] + rest)) == 0,
{
    let event = EventView::Enumerated(devices);
    lemma_run_first(state, event, rest);
    lemma_finished_is_final(transition(state, event).0, rest);
}

/// Detach mode, none of the wanted devices there: the first answer ends the wait with
/// nothing to print, and the driver is never told to register or to release.
pub proof fn lemma_detach_fast_path(
    state: WaitLoopView,
    devices: Result<Seq<Entry>, UsbError>,
    rest: Seq<EventView>,
)
    requires
        state.phase == Phase::Init,
        state.detach,
        present(devices, state.ids) is None,
    ensures
        run(state, seq![EventView::Enumerated(devices)] + rest)[0] == (Action::Done {
            found: None,
        }),
        registrations(run(state, seq![EventView::Enumerated(devices)] + rest)) == 0,
        releases(run(state, seq![EventView::Enumerated(devices)] + rest)) == 0,
{
    let event = EventView::Enumerated(devices);
    lemma_run_first(state, event, rest);
    lemma_finished_is_final(transition(state, event).0, rest);
}

/// Asked not to wait, the wanted state not there: the first answer is the failure
/// `NoDevice`, and the driver is never told to register or to release.
pub proof fn lemma_nowait_gives_up(
    state: WaitLoopView,
    devices: Result<Seq<Entry>, UsbError>,
    rest: Seq<EventView>,
)
    requires
        state.phase == Phase::Init,
        state.nowait,
        !satisfied(present(devices, state.ids), state.detach),
    ensures
        run(state, seq![EventView::Enumerated(devices)] + rest)[0] == Action::Fail(
            Failure::NoDevice,
        ),
        registrations(run(state, seq![EventView::Enumerated(devices)] + rest)) == 0,
        releases(run(state, seq![EventView::Enumerated(devices)] + rest)) == 0,
{
    let event = EventView::Enumerated(devices);
    lemma_run_first(state, event, rest);
    lemma_finished_is_final(transition(state, event).0, rest);
}

/// The wanted state not there and the USB layer unable to notify: the loop asks for
/// the support, then ends with `Unsupported`, and the driver is never told to register
/// or to release.
pub proof fn lemma_unsupported_ends_quietly(
    state: WaitLoopView,
    devices: Result<Seq<Entry>, UsbError>,
    rest: Seq<EventView>,
)
    requires
        state.phase == Phase::Init,
        !state.nowait,
        !satisfied(present(devices, state.ids), state.detach),
    ensures
        ({
            let actions = run(
                state,
                seq![EventView::Enumerated(devices), EventView::HotplugSupport(false)] + rest,
            );
            &&& actions[0] == Action::QueryHotplug
            &&& actions[1] == Action::Unsupported
            &&& registrations(actions) == 0
            &&& releases(actions) == 0
        }),
{
    let first = EventView::Enumerated(devices);
    let second = EventView::HotplugSupport(false);
    let probing = transition(state, first).0;
    assert(seq![first, second] + rest == seq![first] + (seq![second] + rest));
    lemma_run_first(state, first, seq![second] + rest);
    lemma_run_first(probing, second, rest);
    lemma_finished_is_final(transition(probing, second).0, rest);
}

/// A polling loop that sees changes which do not bring the wanted state, and then one
/// that does: it answers each of the former with `Pump` and the latter with `Release`,
/// naming the device to print, and in the whole run, whatever follows, the driver is
/// told to release exactly once and never to register.
pub proof fn lemma_polling_releases_once(
    state: WaitLoopView,
    quiet: Seq<EventView>,
    device: DeviceID,
    devices: Result<Seq<Entry>, UsbError>,
    rest: Seq<EventView>,
)
    requires
        state.phase == Phase::Polling,
        forall|i: int| 0 <= i < quiet.len() ==> is_quiet(state, #[trigger] quiet[i]),
        satisfied(present(devices, state.ids), state.detach),
    ensures
        ({
            let actions = run(
                state,
                quiet + seq![EventView::Changed { device, devices }] + rest,
            );
            &&& actions.len() == quiet.len() + 1 + rest.len()
            &&& forall|i: int| 0 <= i < quiet.len() ==> #[trigger] actions[i] == Action::Pump
            &&& actions[quiet.len() as int] == (Action::Release {
                report: reported(present(devices, state.ids), device),
            })
            &&& registrations(actions) == 0
            &&& releases(actions) == 1
        }),
    decreases quiet.len(),
{
    let last = EventView::Changed { device, devices };
    let events = quiet + seq![last] + rest;
    if quiet.len() == 0 {
        assert(events == seq![last] + rest);
        lemma_run_first(state, last, rest);
        lemma_finished_is_final(transition(state, last).0, rest);
    } else {
        let shorter = quiet.drop_first();
        assert(is_quiet(state, quiet[0]));
        assert(transition(state, quiet[0]) == (state, Action::Pump));
        assert(events == seq![quiet[0]] + (shorter + seq![last] + rest));
        lemma_run_first(state, quiet[0], shorter + seq![last] + rest);
        assert forall|i: int| 0 <= i < shorter.len() implies is_quiet(
            state,
            #[trigger] shorter[i],
        ) by {
            assert(shorter[i] == quiet[i + 1]);
        }
        lemma_polling_releases_once(state, shorter, device, devices, rest);
        let tail = run(state, shorter + seq![last] + rest);
        let actions = run(state, events);
        assert(actions == seq![Action::Pump] + tail);
        assert forall|i: int| 0 <= i < quiet.len() implies #[trigger] actions[i]
            == Action::Pump by {
            if i > 0 {
                assert(actions[i] == tail[i - 1]);
            }
        }
        assert(actions[quiet.len() as int] == tail[quiet.len() - 1]);
    }
}

/// The whole event-driven path from the start: the wanted state not there at first,
/// notifications supported, the registration made, and then changes of which the last
/// one brings the wanted state. The driver is told to register once, to pump after
/// each change that does not help, and to release exactly once, with the device to
/// print.
pub proof fn lemma_event_path(
    state: WaitLoopView,
    initial: Result<Seq<Entry>, UsbError>,
    quiet: Seq<EventView>,
    device: DeviceID,
    devices: Result<Seq<Entry>, UsbError>,
    rest: Seq<EventView>,
)
    requires
        state.phase == Phase::Init,
        !state.nowait,
        !satisfied(present(initial, state.ids), state.detach),
        forall|i: int| 0 <= i < quiet.len() ==> is_quiet(state, #[trigger] quiet[i]),
        satisfied(present(devices, state.ids), state.detach),
    ensures
        ({
            let actions = run(
                state,
                seq![
                    EventView::Enumerated(initial),
                    EventView::HotplugSupport(true),
                    EventView::Registered(Ok(())),
                ] + quiet + seq![EventView::Changed { device, devices }] + rest,
            );
            &&& actions[0] == Action::QueryHotplug
            &&& actions[1] == Action::Register
            &&& actions[2] == Action::Pump
            &&& forall|i: int| 0 <= i < quiet.len() ==> #[trigger] actions[3 + i] == Action::Pump
            &&& actions[3 + quiet.len() as int] == (Action::Release {
                report: reported(present(devices, state.ids), device),
            })
            &&& registrations(actions) == 1
            &&& releases(actions) == 1
        }),
{
    let e0 = EventView::Enumerated(initial);
    let e1 = EventView::HotplugSupport(true);
    let e2 = EventView::Registered(Ok(()));
    let polled = quiet + seq![EventView::Changed { device, devices }] + rest;
    let events = seq![e0, e1, e2] + quiet + seq![EventView::Changed { device, devices }] + rest;
    assert(events == seq![e0] + (seq![e1] + (seq![e2] + polled)));
    let probing = transition(state, e0).0;
    let registering = transition(probing, e1).0;
    let polling = transition(registering, e2).0;
    lemma_run_first(state, e0, seq![e1] + (seq![e2] + polled));
    lemma_run_first(probing, e1, seq![e2] + polled);
    lemma_run_first(registering, e2, polled);
    assert(polling == at_phase(state, Phase::Polling));
    assert forall|i: int| 0 <= i < quiet.len() implies is_quiet(polling, #[trigger] quiet[i]) by {
        assert(is_quiet(state, quiet[i]));
    }
    lemma_polling_releases_once(polling, quiet, device, devices, rest);
    let tail = run(polling, polled);
    let actions = run(state, events);
    assert(actions == seq![Action::QueryHotplug] + (seq![Action::Register] + (seq![Action::Pump]
        + tail)));
    assert forall|i: int| 0 <= i < quiet.len() implies #[trigger] actions[3 + i]
        == Action::Pump by {
        assert(actions[3 + i] == tail[i]);
    }
    assert(actions[3 + quiet.len() as int] == tail[quiet.len() as int]);
}

} // verus!
