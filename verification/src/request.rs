//! What one transfer is asked to do.

use vstd::prelude::*;

verus! {

/// How the object is fetched.
#[derive(Clone, Copy, Debug, PartialEq, Eq, Structural)]
pub enum Strategy {
    /// One response body, written as it arrives.
    Sequential,
    /// Byte ranges fetched concurrently and written in order.
    Parallel,
}

impl Strategy {
    /// The strategy that the multipart switch selects: parallel if it is
    /// set, sequential if it is not.
    pub fn from_multipart(multipart: bool) -> (strategy: Strategy)
        ensures
            strategy == if multipart {
                Strategy::Parallel
            } else {
                Strategy::Sequential
            },
    {
        if multipart {
            Strategy::Parallel
        } else {
            Strategy::Sequential
        }
    }

    /// Whether the strategy fetches byte ranges.
    pub fn is_parallel(&self) -> (parallel: bool)
        ensures
            parallel == (*self == Strategy::Parallel),
    {
        match self {
            Strategy::Parallel => true,
            Strategy::Sequential => false,
        }
    }
}

/// One transfer as the contracts see it.
pub struct TransferRequestView {
    /// The name of the bucket.
    pub bucket: Seq<char>,
    /// The key of the object in the bucket.
    pub key: Seq<char>,
    /// The path of the destination file.
    pub destination: Seq<char>,
    /// How the object is fetched.
    pub strategy: Strategy,
}

/// One transfer: which object, where to, and how. A request is made once and
/// does not change.
#[derive(Clone, Debug)]
pub struct TransferRequest {
    bucket: String,
    key: String,
    destination: String,
    strategy: Strategy,
}

impl View for TransferRequest {
    type V = TransferRequestView;

    closed spec fn view(&self) -> TransferRequestView {
        TransferRequestView {
            bucket: self.bucket@,
            key: self.key@,
            destination: self.destination@,
            strategy: self.strategy,
        }
    }
}

impl TransferRequest {
    /// The request to bring the object `key` of `bucket` to the file
    /// `destination` by `strategy`.
    pub fn new(bucket: String, key: String, destination: String, strategy: Strategy) -> (request:
        TransferRequest)
        ensures
            request@ == (TransferRequestView {
                bucket: bucket@,
                key: key@,
                destination: destination@,
                strategy,
            }),
    {
        TransferRequest { bucket, key, destination, strategy }
    }

    /// The name of the bucket.
    pub fn bucket(&self) -> (bucket: &str)
        ensures
            bucket@ == self@.bucket,
    {
        self.bucket.as_str()
    }

    /// The key of the object in the bucket.
    pub fn key(&self) -> (key: &str)
        ensures
            key@ == self@.key,
    {
        self.key.as_str()
    }

    /// The path of the destination file.
    pub fn destination(&self) -> (destination: &str)
        ensures
            destination@ == self@.destination,
    {
        self.destination.as_str()
    }

    /// How the object is fetched.
    pub fn strategy(&self) -> (strategy: Strategy)
        ensures
            strategy == self@.strategy,
    {
        self.strategy
    }
}

} // verus!
