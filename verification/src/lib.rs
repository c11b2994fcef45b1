//! Waiting for USB devices, named by vendor and product id, to be attached or detached.
//!
//! The library holds what such a wait decides: how a device id is read and written
//! ([`device_id`], [`hex`]), which wanted device a device listing holds ([`presence`]),
//! and how the wait goes on after each thing that the USB layer reports
//! ([`wait_loop`], [`runs`]). Talking to the USB layer is left to the caller, who hands
//! in what it reported as plain values ([`usb`]).

pub mod device_id;
pub mod hex;
pub mod presence;
pub mod runs;
pub mod text;
pub mod usb;
pub mod wait_loop;

pub use device_id::{parse_device, DeviceID, Error};
pub use presence::is_connected;
pub use text::{iterable_to_str, Printable};
pub use usb::UsbError;
pub use wait_loop::{Action, Event, Failure, Phase, WaitLoop};
