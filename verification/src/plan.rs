//! From the metadata of an object to the list of ranges to fetch.

use crate::error::TransferError;
use crate::range::{covers_each_byte_once, partition, partition_of, tiles, ByteRange};
use vstd::prelude::*;

verus! {

/// The size that the metadata of an object reports, as the contracts see it.
/// A length that the service sends as a negative number is read as the
/// unsigned number with the same bits.
pub open spec fn reported_size(content_length: Option<i64>) -> Result<u64, TransferError> {
    match content_length {
        Some(length) => Ok(length as u64),
        None => Err(TransferError::SizeUnavailable),
    }
}

/// The size of the object from the content length of its metadata. Metadata
/// without a content length gives `SizeUnavailable`.
pub fn object_size(content_length: Option<i64>) -> (size: Result<u64, TransferError>)
    ensures
        size == reported_size(content_length),
        content_length matches Some(length) ==> (length >= 0 ==> size is Ok && size->Ok_0
            == length),
{
    match content_length {
        Some(length) => Ok(#[verifier::truncate] (length as u64)),
        None => Err(TransferError::SizeUnavailable),
    }
}

/// The ranges to fetch for an object whose metadata carries
/// `content_length`, in the order of the partition: the partition of the
/// object into ranges of `chunk_size` bytes, or `SizeUnavailable` where the
/// metadata has no content length.
pub fn plan_ranges(content_length: Option<i64>, chunk_size: u64) -> (plan: Result<
    Vec<ByteRange>,
    TransferError,
>)
    requires
        chunk_size > 0,
    ensures
        match reported_size(content_length) {
            Ok(size) => plan matches Ok(ranges) && ranges@ == partition_of(
                size as nat,
                chunk_size as nat,
            ) && tiles(ranges@, size as nat) && covers_each_byte_once(ranges@, size as nat),
            Err(error) => plan == Err::<Vec<ByteRange>, TransferError>(error),
        },
{
    match object_size(content_length) {
        Ok(size) => Ok(partition(size, chunk_size)),
        Err(error) => Err(error),
    }
}

} // verus!
