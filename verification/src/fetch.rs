//! Fetching one byte range: the request header, and the buffer that the
//! response body is drained into.

use crate::error::TransferError;
use crate::header::{range_header, range_header_text};
use crate::range::ByteRange;
use crate::stream::StreamEvent;
use vstd::prelude::*;

verus! {

/// The whole content of one fetched range, with the position of the range in
/// the partition.
#[derive(Debug)]
pub struct RangeResult {
    /// Position of the range in the partition, counted from 0.
    pub ordinal: usize,
    /// The bytes that the service sent for the range.
    pub bytes: Vec<u8>,
}

/// A range fetch under way: what has arrived of the body so far.
#[derive(Debug)]
pub struct RangeFetch {
    ordinal: usize,
    range: ByteRange,
    buffer: Vec<u8>,
}

/// Where a range fetch stands after one event of its response stream.
#[derive(Debug)]
pub enum FetchProgress {
    /// More of the body is to come.
    Pending(RangeFetch),
    /// The body is exhausted: the range is fetched.
    Complete(RangeResult),
    /// The stream failed; what had arrived is dropped.
    Failed(TransferError),
}

impl RangeFetch {
    /// Position of the range in the partition.
    pub closed spec fn ordinal(&self) -> usize {
        self.ordinal
    }

    /// The range that is being fetched.
    pub closed spec fn range(&self) -> ByteRange {
        self.range
    }

    /// The bytes that have arrived so far, in the order of arrival.
    pub closed spec fn buffered(&self) -> Seq<u8> {
        self.buffer@
    }

    /// Starts the fetch of `range`, which stands at position `ordinal` of the
    /// partition, with an empty buffer. Room for the whole range is asked
    /// for ahead; the fetch goes on without it where there is none to have.
    pub fn begin(ordinal: usize, range: ByteRange) -> (fetch: RangeFetch)
        ensures
            fetch.ordinal() == ordinal,
            fetch.range() == range,
            fetch.buffered() == Seq::<u8>::empty(),
    {
        let mut buffer: Vec<u8> = Vec::new();
        let _ = buffer.try_reserve(range.buffer_capacity());
        RangeFetch { ordinal, range, buffer }
    }

    /// The value of the `Range` header of the request.
    pub fn header(&self) -> (text: String)
        ensures
            text@ == range_header_text(self.range()),
    {
        range_header(&self.range)
    }

    /// Takes one event of the response stream: a chunk is appended to the
    /// buffer, the end of the body completes the fetch with all that arrived,
    /// and a failure ends it with the error of the stream.
    pub fn on_event(self, event: StreamEvent<'_>) -> (progress: FetchProgress)
        ensures
            match event {
                StreamEvent::Chunk(chunk) => progress matches FetchProgress::Pending(next)
                    && next.ordinal() == self.ordinal() && next.range() == self.range()
                    && next.buffered() == self.buffered() + chunk@,
                StreamEvent::End => progress matches FetchProgress::Complete(result)
                    && result.ordinal == self.ordinal() && result.bytes@ == self.buffered(),
                StreamEvent::Failed(error) => progress == FetchProgress::Failed(error),
            },
    {
        match event {
            StreamEvent::Chunk(chunk) => {
                let mut buffer = self.buffer;
                buffer.extend_from_slice(chunk);
                assert(buffer@ =~= self.buffer@ + chunk@);
                FetchProgress::Pending(
                    RangeFetch { ordinal: self.ordinal, range: self.range, buffer },
                )
            },
            StreamEvent::End => FetchProgress::Complete(
                RangeResult { ordinal: self.ordinal, bytes: self.buffer },
            ),
            StreamEvent::Failed(error) => FetchProgress::Failed(error),
        }
    }
}

} // verus!
