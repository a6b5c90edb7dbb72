//! Status codes that drivers and capsules answer with.

use vstd::prelude::*;

verus! {

/// Outcome of an operation.
#[derive(Clone, Copy, Debug, PartialEq, Eq, Structural)]
pub enum ReturnCode {
    /// The operation succeeded.
    SUCCESS,
    /// The operation failed for a reason that no other code names.
    FAIL,
    /// The device or capsule is busy with another operation.
    EBUSY,
    /// Something that the operation needs was not set up or is in use.
    ERESERVE,
    /// An argument is not valid.
    EINVAL,
    /// An argument has the wrong size.
    ESIZE,
    /// The operation was cancelled.
    ECANCEL,
    /// The operation is not supported.
    ENOSUPPORT,
    /// There is no such device.
    ENODEVICE,
}

} // verus!
