//! The two strategies against the content of the object: what reaches the
//! destination when the service sends for each request the bytes that the
//! request names.

use crate::order::{arrivals_in_order, each_range_arrives, lemma_release_order_is_partition_order};
use crate::range::{
    lemma_chunks_against_count, lemma_range_at_bounds, partition_of, range_count, ByteRange,
};
use crate::reassembly::{Outcome, ReassemblyState};
use vstd::prelude::*;

verus! {

/// The contents that the fetches of `ranges` bring of an object that holds
/// `data`, by position.
pub open spec fn slices_of(ranges: Seq<ByteRange>, data: Seq<u8>) -> Seq<Seq<u8>> {
    Seq::new(ranges.len(), |i: int| ranges[i].slice_of(data))
}

/// The first `k` ranges of the partition hold the first bytes of the object,
/// up to the start of the range at position `k`.
proof fn lemma_leading_slices(data: Seq<u8>, chunk_size: nat, k: int)
    requires
        chunk_size > 0,
        data.len() <= u64::MAX,
        0 <= k <= range_count(data.len(), chunk_size),
    ensures
        slices_of(partition_of(data.len(), chunk_size), data).take(k).flatten() == data.take(
            if k * chunk_size <= data.len() {
                k * chunk_size
            } else {
                data.len() as int
            },
        ),
    decreases k,
{
    let slices = slices_of(partition_of(data.len(), chunk_size), data);
    if k > 0 {
        lemma_leading_slices(data, chunk_size, k - 1);
        lemma_range_at_bounds(data.len(), chunk_size, k - 1);
        lemma_chunks_against_count(data.len(), chunk_size, k - 1);
        lemma_chunks_against_count(data.len(), chunk_size, k);
        assert(slices.take(k) =~= slices.take(k - 1).push(slices[k - 1]));
        slices.take(k - 1).lemma_flatten_push(slices[k - 1]);
    }
}

/// The slices that the partition cuts out of an object, joined in the order
/// of the partition, are the object.
pub proof fn lemma_partition_slices_join_to_object(data: Seq<u8>, chunk_size: nat)
    requires
        chunk_size > 0,
        data.len() <= u64::MAX,
    ensures
        slices_of(partition_of(data.len(), chunk_size), data).flatten() == data,
{
    let count = range_count(data.len(), chunk_size) as int;
    let slices = slices_of(partition_of(data.len(), chunk_size), data);
    lemma_leading_slices(data, chunk_size, count);
    lemma_chunks_against_count(data.len(), chunk_size, count);
    assert(slices.take(count) =~= slices);
}

/// A parallel transfer brings the object to the destination unchanged. If
/// each range fetch brings the bytes of its range and none fails, then in
/// whatever order the fetches complete, the bytes that are released for
/// writing are those of the object, in their order, and the count that the
/// transfer ends with is the size of the object.
pub proof fn lemma_parallel_transfer_round_trip(data: Seq<u8>, chunk_size: nat, order: Seq<nat>)
    requires
        chunk_size > 0,
        data.len() <= u64::MAX,
        each_range_arrives(order, range_count(data.len(), chunk_size)),
    ensures
        ({
            let slices = slices_of(partition_of(data.len(), chunk_size), data);
            let (end, released) = ReassemblyState::start(range_count(data.len(), chunk_size)).run(
                arrivals_in_order(slices, order),
            );
            &&& released.flatten() == data
            &&& end.written == data.len()
            &&& end.outcome() == Outcome::Complete(end.written as usize)
        }),
{
    let slices = slices_of(partition_of(data.len(), chunk_size), data);
    lemma_release_order_is_partition_order(slices, order);
    lemma_partition_slices_join_to_object(data, chunk_size);
}

/// The two strategies write the same bytes. If the body of the sequential
/// transfer arrives as `chunks` that make up the object, the sequential
/// transfer writes `chunks` in their order, and a parallel transfer of the
/// same object releases the same bytes in the same order.
pub proof fn lemma_strategies_write_the_same(
    data: Seq<u8>,
    chunks: Seq<Seq<u8>>,
    chunk_size: nat,
    order: Seq<nat>,
)
    requires
        chunk_size > 0,
        data.len() <= u64::MAX,
        chunks.flatten() == data,
        each_range_arrives(order, range_count(data.len(), chunk_size)),
    ensures
        ReassemblyState::start(range_count(data.len(), chunk_size)).run(
            arrivals_in_order(slices_of(partition_of(data.len(), chunk_size), data), order),
        ).1.flatten() == chunks.flatten(),
{
    lemma_parallel_transfer_round_trip(data, chunk_size, order);
}

} // verus!
