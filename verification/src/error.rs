use vstd::prelude::*;

verus! {

/// Why a transfer stopped before the whole object reached the destination.
#[derive(Clone, Copy, Debug, PartialEq, Eq, Structural)]
pub enum TransferError {
    /// The bucket or the object does not exist.
    NotFound,
    /// The storage service refused the request.
    AccessDenied,
    /// The network or the response stream failed.
    TransientIOError,
    /// The metadata of the object carries no size.
    SizeUnavailable,
    /// The destination file could not be created or written.
    LocalIOError,
}

} // verus!
