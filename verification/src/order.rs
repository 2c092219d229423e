//! What holds of a reassembly over whole runs of reports: the order of
//! release does not depend on the order of arrival, the count is that of the
//! released bytes, and a failure ends the transfer.

use crate::reassembly::{lemma_drain, Arrival, Outcome, ReassemblyState};
use vstd::prelude::*;

verus! {

/// The reports of a transfer in which no fetch fails: the ranges complete in
/// the order `order`, and the range at position `k` brings `contents[k]`.
pub open spec fn arrivals_in_order(contents: Seq<Seq<u8>>, order: Seq<nat>) -> Seq<Arrival> {
    Seq::new(
        order.len(),
        |i: int| Arrival::Fetched { ordinal: order[i], bytes: contents[order[i] as int] },
    )
}

/// Every range of a partition of `total` ranges completes at some point of
/// `order`. Every permutation of the positions is such an order.
pub open spec fn each_range_arrives(order: Seq<nat>, total: nat) -> bool {
    forall|k: nat| k < total ==> #[trigger] order.contains(k)
}

/// A run that starts in a well-formed state ends in one, and the count grows
/// by the number of bytes released.
pub proof fn lemma_run_counts_released_bytes(state: ReassemblyState, arrivals: Seq<Arrival>)
    requires
        state.wf(),
    ensures
        ({
            let (end, released) = state.run(arrivals);
            &&& end.wf()
            &&& end.total() == state.total()
            &&& end.written == state.written + released.flatten().len()
            &&& state.failure is Some ==> end.failure == state.failure
        }),
    decreases arrivals.len(),
{
    if arrivals.len() > 0 {
        let (mid, before) = state.run(arrivals.drop_last());
        lemma_run_counts_released_bytes(state, arrivals.drop_last());
        let (end, now) = mid.step(arrivals.last());
        if let Arrival::Fetched { ordinal, bytes } = arrivals.last() {
            lemma_drain(mid.store(ordinal, bytes));
        }
        vstd::seq_lib::lemma_flatten_concat(before, now);
    }
}

/// After a failure nothing is released any more, whatever arrives, and the
/// first error stays the outcome.
pub proof fn lemma_nothing_leaves_after_failure(state: ReassemblyState, arrivals: Seq<Arrival>)
    requires
        state.wf(),
        state.failure is Some,
    ensures
        state.run(arrivals) == (state, Seq::<Seq<u8>>::empty()),
        state.run(arrivals).0.outcome() == Outcome::Failed(state.failure.unwrap()),
    decreases arrivals.len(),
{
    if arrivals.len() > 0 {
        lemma_nothing_leaves_after_failure(state, arrivals.drop_last());
    }
}

/// A run of reports can be cut in two: the second part goes on where the
/// first part ended.
pub proof fn lemma_run_splits(state: ReassemblyState, first: Seq<Arrival>, second: Seq<Arrival>)
    ensures
        state.run(first + second) == ({
            let (mid, before) = state.run(first);
            let (end, after) = mid.run(second);
            (end, before + after)
        }),
    decreases second.len(),
{
    if second.len() > 0 {
        assert((first + second).drop_last() =~= first + second.drop_last());
        lemma_run_splits(state, first, second.drop_last());
    }
}

/// If any fetch of a transfer fails, the transfer fails: the outcome is the
/// error of the first failure that was reported, and nothing is released
/// from that report on.
pub proof fn lemma_one_failure_fails_the_transfer(total: nat, arrivals: Seq<Arrival>, at: int)
    requires
        0 <= at < arrivals.len(),
        arrivals[at] is Failed,
        forall|i: int| 0 <= i < at ==> !(arrivals[i] is Failed),
    ensures
        ReassemblyState::start(total).run(arrivals).0.outcome() == Outcome::Failed(
            arrivals[at]->error,
        ),
        ReassemblyState::start(total).run(arrivals).1 == ReassemblyState::start(total).run(
            arrivals.take(at),
        ).1,
{
    let start = ReassemblyState::start(total);
    let head = arrivals.take(at);
    let tail = arrivals.skip(at + 1);
    lemma_run_counts_released_bytes(start, head);
    lemma_no_failure_without_report(start, head);
    let failed = start.run(head).0.fail(arrivals[at]->error);
    assert(head.push(arrivals[at]).drop_last() =~= head);
    lemma_nothing_leaves_after_failure(failed, tail);
    lemma_run_splits(start, head.push(arrivals[at]), tail);
    assert(head.push(arrivals[at]) + tail =~= arrivals);
}

/// A run without a report of failure leaves the state without one.
pub proof fn lemma_no_failure_without_report(state: ReassemblyState, arrivals: Seq<Arrival>)
    requires
        state.wf(),
        state.failure is None,
        forall|i: int| 0 <= i < arrivals.len() ==> !(arrivals[i] is Failed),
    ensures
        state.run(arrivals).0.failure is None,
    decreases arrivals.len(),
{
    if arrivals.len() > 0 {
        lemma_no_failure_without_report(state, arrivals.drop_last());
        lemma_run_counts_released_bytes(state, arrivals.drop_last());
        if let Arrival::Fetched { ordinal, bytes } = arrivals.last() {
            lemma_drain(state.run(arrivals.drop_last()).0.store(ordinal, bytes));
        }
    }
}

/// Where a run stands after the first `done` completions of `order`: the
/// ranges before the next in turn were released, with their contents in the
/// order of the partition, and a slot holds a content exactly if its range
/// has completed and waits.
pub open spec fn in_step(
    contents: Seq<Seq<u8>>,
    order: Seq<nat>,
    done: int,
    state: ReassemblyState,
    released: Seq<Seq<u8>>,
) -> bool {
    &&& state.wf()
    &&& state.total() == contents.len()
    &&& state.failure is None
    &&& released == contents.take(state.next as int)
    &&& forall|k: int|
        0 <= k < state.next ==> #[trigger] order.take(done).contains(k as nat)
    &&& forall|k: int|
        state.next <= k < contents.len() ==> #[trigger] state.slots[k] == if order.take(
            done,
        ).contains(k as nat) {
            Some(contents[k])
        } else {
            None
        }
}

/// The first `done` completions of a failure-free transfer lead to a state
/// as `in_step` describes it.
pub proof fn lemma_in_step(contents: Seq<Seq<u8>>, order: Seq<nat>, done: int)
    requires
        0 <= done <= order.len(),
    ensures
        ({
            let (state, released) = ReassemblyState::start(contents.len()).run(
                arrivals_in_order(contents, order).take(done),
            );
            in_step(contents, order, done, state, released)
        }),
    decreases done,
{
    let start = ReassemblyState::start(contents.len());
    let arrivals = arrivals_in_order(contents, order);
    let (state, released) = start.run(arrivals.take(done));
    if done == 0 {
        assert(released =~= contents.take(0));
    } else {
        // The state before the last of the completions, then the two halves
        // of its delivery: into the slot, and out of the slots in turn.
        let (mid, before) = start.run(arrivals.take(done - 1));
        lemma_in_step(contents, order, done - 1);
        assert(arrivals.take(done).drop_last() =~= arrivals.take(done - 1));
        let ordinal = order[done - 1];
        let stored = mid.store(ordinal, contents[ordinal as int]);
        let (end, now) = stored.drain();
        lemma_drain(stored);
        let earlier = order.take(done - 1);
        let upto = order.take(done);
        assert forall|k: nat| upto.contains(k) <==> earlier.contains(k) || k == ordinal by {
            if k == ordinal {
                assert(upto[done - 1] == k);
            }
        }
        assert forall|k: int| mid.next <= k < contents.len() implies #[trigger] stored.slots[k]
            == if upto.contains(k as nat) {
            Some(contents[k])
        } else {
            None
        } by {
            assert(mid.slots[k] == if earlier.contains(k as nat) {
                Some(contents[k])
            } else {
                None
            });
        }
        assert forall|k: int| 0 <= k < end.next implies #[trigger] upto.contains(k as nat) by {
            if k >= mid.next {
                assert(stored.slots[k] == Some(now[k - stored.next]));
            }
        }
        assert(released =~= contents.take(end.next as int));
    }
}

/// The order of release is the order of the partition, whatever the order
/// of arrival. If no fetch fails and every range completes, in any order,
/// the contents are released once each, in ascending order of position, and
/// the transfer is complete with the count of all their bytes.
pub proof fn lemma_release_order_is_partition_order(contents: Seq<Seq<u8>>, order: Seq<nat>)
    requires
        each_range_arrives(order, contents.len()),
    ensures
        ({
            let (end, released) = ReassemblyState::start(contents.len()).run(
                arrivals_in_order(contents, order),
            );
            &&& released == contents
            &&& end.written == contents.flatten().len()
            &&& end.outcome() == Outcome::Complete(end.written as usize)
        }),
{
    let start = ReassemblyState::start(contents.len());
    let arrivals = arrivals_in_order(contents, order);
    let (end, released) = start.run(arrivals);
    lemma_in_step(contents, order, order.len() as int);
    assert(arrivals.take(order.len() as int) =~= arrivals);
    assert(order.take(order.len() as int) =~= order);
    // Every range has arrived, and none that could leave is waiting: the
    // next in turn is behind the last.
    assert(end.next == contents.len()) by {
        if end.next < contents.len() {
            assert(order.contains(end.next));
        }
    }
    assert(contents.take(contents.len() as int) =~= contents);
    lemma_run_counts_released_bytes(start, arrivals);
}

/// Two orders of arrival of the same contents release the same bytes in the
/// same order.
pub proof fn lemma_arrival_order_does_not_matter(
    contents: Seq<Seq<u8>>,
    first: Seq<nat>,
    second: Seq<nat>,
)
    requires
        each_range_arrives(first, contents.len()),
        each_range_arrives(second, contents.len()),
    ensures
        ReassemblyState::start(contents.len()).run(arrivals_in_order(contents, first)).1
            == ReassemblyState::start(contents.len()).run(arrivals_in_order(contents, second)).1,
{
    lemma_release_order_is_partition_order(contents, first);
    lemma_release_order_is_partition_order(contents, second);
}

} // verus!
