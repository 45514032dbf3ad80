//! What the device tells the thread that serves its rings.
use vstd::prelude::*;

verus! {

/// Start serving a ring.
#[derive(Clone, Copy, Debug, PartialEq, Eq, Structural)]
pub struct EnableVringMsg {
    /// The index of the ring.
    pub index: usize,
    /// The file descriptor by which the driver signals available requests.
    pub fd: i32,
}

/// Stop serving a ring.
#[derive(Clone, Copy, Debug, PartialEq, Eq, Structural)]
pub struct DisableVringMsg {
    /// The index of the ring.
    pub index: usize,
}

/// A message to the thread that serves the rings.
#[derive(Clone, Copy, Debug, PartialEq, Eq, Structural)]
pub enum VubMessage {
    /// Start serving a ring.
    EnableVring(EnableVringMsg),
    /// Stop serving a ring.
    DisableVring(DisableVringMsg),
}

} // verus!
