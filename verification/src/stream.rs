//! What the driver of a transfer reports of a response stream.

use crate::error::TransferError;
use vstd::prelude::*;

verus! {

/// One step of a response body: the service hands the body out as a finite
/// run of chunks that cannot be read twice.
#[derive(Clone, Copy, Debug)]
pub enum StreamEvent<'a> {
    /// The next chunk of bytes arrived.
    Chunk(&'a [u8]),
    /// The body is exhausted.
    End,
    /// Reading the body failed.
    Failed(TransferError),
}

} // verus!
