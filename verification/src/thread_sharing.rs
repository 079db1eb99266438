//! The messages that the hub's servers and its main loop leave for each
//! other. A UUID is held as its 128-bit value; an action, which the device
//! vocabulary defines, is a type parameter.
use vstd::prelude::*;

verus! {

/// Settings shared with the HTTP server.
#[derive(Debug, Clone, PartialEq)]
pub struct SharedConfig {
    pub verbosity: String,
}

/// A command for a device, left by the HTTP server.
#[derive(Debug, Copy, Clone, PartialEq)]
pub enum SharedGetRequest<A> {
    Command { device_uuid: u128, action: A },
    NoUpdate,
}

/// A command for the hub itself, left by the Bluetooth server.
#[derive(Debug, Copy, Clone, PartialEq, Eq, Structural)]
pub enum SharedBLECommand {
    Restart { node_count: usize },
    NoUpdate,
}

/// A question about a device's target, and its answer.
#[derive(Debug, Copy, Clone, PartialEq, Eq, Structural)]
pub enum SharedBLERead {
    Inquiry { device_uuid: u128 },
    Response { target: usize },
    NoUpdate,
}

/// A command for a device left by the Bluetooth server, or a reply to it.
#[derive(Debug, Copy, Clone, PartialEq)]
pub enum SharedBLEWrite<A> {
    Command { device_uuid: u128, action: A },
    Response { message: u16 },
    NoUpdate,
}

} // verus!
