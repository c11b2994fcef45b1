//! Plain values for what the USB layer reports: its errors and its device listings.

use crate::device_id::DeviceID;
use vstd::prelude::*;

verus! {

/// An error reported by the USB layer.
#[derive(Debug, Clone, Copy, PartialEq, Eq, Structural)]
pub enum UsbError {
    /// Input/output error.
    Io,
    /// Invalid parameter.
    InvalidParam,
    /// Access denied.
    Access,
    /// No such device.
    NoDevice,
    /// Entity not found.
    NotFound,
    /// Resource busy.
    Busy,
    /// Operation timed out.
    Timeout,
    /// Overflow.
    Overflow,
    /// Pipe error.
    Pipe,
    /// System call interrupted.
    Interrupted,
    /// Insufficient memory.
    NoMem,
    /// Operation not supported on this platform.
    NotSupported,
    /// The device returned a malformed descriptor.
    BadDescriptor,
    /// Any other error.
    Other,
}

/// One listed device: its identifier, or `None` when its descriptor could not be read.
pub type Entry = Option<DeviceID>;

/// The outcome of one enumeration: the devices in enumeration order, or the error that
/// kept the listing from being made.
pub type Enumeration = Result<Vec<Entry>, UsbError>;

/// The mathematical value of an enumeration.
pub open spec fn enumeration_view(devices: Enumeration) -> Result<Seq<Entry>, UsbError> {
    match devices {
        Ok(list) => Ok(list@),
        Err(e) => Err(e),
    }
}

} // verus!
