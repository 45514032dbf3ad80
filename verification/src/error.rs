//! How requests to the device fail.
use vstd::prelude::*;

verus! {

/// How a vhost-user request fails.
#[derive(Clone, Copy, Debug, PartialEq, Eq, Structural)]
pub enum Error {
    /// A parameter of the request is not acceptable.
    InvalidParam,
    /// The request is not acceptable in the present state.
    InvalidOperation,
    /// The device could not do what was asked.
    OperationFailedInSlave,
}

/// How an operation on a disk image fails.
#[derive(Clone, Copy, Debug, PartialEq, Eq, Structural)]
pub enum BackendError {
    /// The data would reach beyond the end of the image.
    OffsetBeyondEnd,
    /// The sector is beyond the end of the image.
    SectorBeyondEnd,
    /// The host reported an error, with this number.
    Io(i32),
}

} // verus!
