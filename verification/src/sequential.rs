//! The sequential strategy: one response body, written to the destination
//! chunk by chunk in the order of arrival.

use crate::error::TransferError;
use crate::stream::StreamEvent;
use vstd::prelude::*;

verus! {

/// What the driver does next for a sequential transfer.
#[derive(Clone, Copy, Debug)]
pub enum StreamAction<'a> {
    /// Write these bytes at the end of the destination, then read on.
    Write(&'a [u8]),
    /// The transfer is done: this many bytes were written.
    Finish(usize),
    /// The transfer is over with this error; what was written stays.
    Abort(TransferError),
}

/// The running state of a sequential transfer: the count of bytes handed to
/// the destination so far.
#[derive(Debug)]
pub struct SequentialStreamer {
    written: usize,
}

impl SequentialStreamer {
    /// The number of bytes handed to the destination so far.
    pub closed spec fn written(&self) -> usize {
        self.written
    }

    /// A transfer of which nothing has been written yet.
    pub fn new() -> (streamer: SequentialStreamer)
        ensures
            streamer.written() == 0,
    {
        SequentialStreamer { written: 0 }
    }

    /// The number of bytes handed to the destination so far.
    pub fn bytes_written(&self) -> (count: usize)
        ensures
            count == self.written(),
    {
        self.written
    }

    /// Takes one event of the response stream and says what to do: a chunk
    /// is written as it is and counted, the end of the body finishes the
    /// transfer with the count, a failure aborts it.
    pub fn on_event<'a>(&mut self, event: StreamEvent<'a>) -> (action: StreamAction<'a>)
        requires
            event matches StreamEvent::Chunk(chunk) ==> old(self).written() + chunk@.len()
                <= usize::MAX,
        ensures
            final(self).written() == old(self).written() + match event {
                StreamEvent::Chunk(chunk) => chunk@.len(),
                _ => 0,
            },
            action == match event {
                StreamEvent::Chunk(chunk) => StreamAction::Write(chunk),
                StreamEvent::End => StreamAction::Finish(old(self).written()),
                StreamEvent::Failed(error) => StreamAction::Abort(error),
            },
    {
        match event {
            StreamEvent::Chunk(chunk) => {
                self.written = self.written + chunk.len();
                StreamAction::Write(chunk)
            },
            StreamEvent::End => StreamAction::Finish(self.written),
            StreamEvent::Failed(error) => StreamAction::Abort(error),
        }
    }
}

/// The count of a transfer that stood at `written` and then took `chunks`,
/// one after the other.
pub open spec fn count_after(written: nat, chunks: Seq<Seq<u8>>) -> nat
    decreases chunks.len(),
{
    if chunks.len() == 0 {
        written
    } else {
        count_after(written, chunks.drop_last()) + chunks.last().len()
    }
}

/// The count of a sequential transfer is the number of bytes that it wrote:
/// the chunks are written as they are and in their order, so the
/// destination holds the chunks joined, and the count is its length.
pub proof fn lemma_count_is_size_of_output(chunks: Seq<Seq<u8>>)
    ensures
        count_after(0, chunks) == chunks.flatten().len(),
    decreases chunks.len(),
{
    if chunks.len() > 0 {
        lemma_count_is_size_of_output(chunks.drop_last());
        assert(chunks =~= chunks.drop_last().push(chunks.last()));
        chunks.drop_last().lemma_flatten_push(chunks.last());
    }
}

} // verus!
