//! The parallel strategy's reassembly: range results arrive in whatever
//! order the fetches complete, and leave in the order of the partition.

use crate::error::TransferError;
use crate::fetch::RangeResult;
use vstd::prelude::*;

verus! {

/// The bytes that wait in `slots`, all slots together.
pub open spec fn held_bytes(slots: Seq<Option<Seq<u8>>>) -> nat
    decreases slots.len(),
{
    if slots.len() == 0 {
        0
    } else {
        held_bytes(slots.drop_last()) + match slots.last() {
            Some(bytes) => bytes.len(),
            None => 0,
        }
    }
}

/// What the driver reports when one range fetch is over, as the contracts
/// see it.
pub enum Arrival {
    /// The range at position `ordinal` was fetched whole.
    Fetched { ordinal: nat, bytes: Seq<u8> },
    /// A fetch failed.
    Failed { error: TransferError },
}

/// A reassembly as the contracts see it.
pub struct ReassemblyState {
    /// One slot for each range of the partition, by position. A slot holds
    /// the content of a range that is fetched and waits for its turn.
    pub slots: Seq<Option<Seq<u8>>>,
    /// Position of the range that is released next.
    pub next: nat,
    /// The number of bytes released so far.
    pub written: nat,
    /// The first failure that was reported, if any.
    pub failure: Option<TransferError>,
}

/// How a reassembly stands.
#[derive(Clone, Copy, Debug, PartialEq, Eq, Structural)]
pub enum Outcome {
    /// Ranges are still missing.
    Pending,
    /// Every range was released; the count is that of all their bytes.
    Complete(usize),
    /// A fetch failed: the transfer is over.
    Failed(TransferError),
}

impl ReassemblyState {
    /// The state before anything arrived, for a partition of `total` ranges.
    pub open spec fn start(total: nat) -> ReassemblyState {
        ReassemblyState {
            slots: Seq::new(total, |i: int| None::<Seq<u8>>),
            next: 0,
            written: 0,
            failure: None,
        }
    }

    /// The number of ranges of the partition.
    pub open spec fn total(self) -> nat {
        self.slots.len()
    }

    /// The number of bytes that arrived and were kept: those released and
    /// those that wait.
    pub open spec fn received(self) -> nat {
        self.written + held_bytes(self.slots)
    }

    /// Whether the range that is next in turn has arrived and may leave.
    pub open spec fn ready(self) -> bool {
        self.failure is None && self.next < self.total() && self.slots[self.next as int] is Some
    }

    /// What holds between two operations: the released ranges left their
    /// slots, and nothing waits that could leave.
    pub open spec fn wf(self) -> bool {
        &&& self.next <= self.total()
        &&& forall|i: int| 0 <= i < self.next ==> self.slots[i] is None
        &&& !self.ready()
    }

    /// Whether the result of the range at `ordinal` is kept: not after a
    /// failure, only for a range of the partition, and only once.
    pub open spec fn accepts(self, ordinal: nat) -> bool {
        self.failure is None && self.next <= ordinal < self.total() && self.slots[ordinal as int]
            is None
    }

    /// Puts an accepted result into its slot; any other result is dropped.
    pub open spec fn store(self, ordinal: nat, bytes: Seq<u8>) -> ReassemblyState {
        if self.accepts(ordinal) {
            ReassemblyState { slots: self.slots.update(ordinal as int, Some(bytes)), ..self }
        } else {
            self
        }
    }

    /// Releases the range that is next in turn.
    pub open spec fn release(self) -> ReassemblyState {
        ReassemblyState {
            slots: self.slots.update(self.next as int, None),
            next: self.next + 1,
            written: self.written + self.slots[self.next as int].unwrap().len(),
            failure: self.failure,
        }
    }

    /// Releases ranges for as long as the next in turn has arrived: the
    /// state after that, and the released contents in the order of release.
    pub open spec fn drain(self) -> (ReassemblyState, Seq<Seq<u8>>)
        decreases self.total() - self.next,
    {
        if self.ready() {
            let bytes = self.slots[self.next as int].unwrap();
            let (end, rest) = self.release().drain();
            (end, seq![bytes] + rest)
        } else {
            (self, Seq::empty())
        }
    }

    /// The arrival of the result of the range at `ordinal`: it is stored, and
    /// whatever can leave now is released.
    pub open spec fn deliver(self, ordinal: nat, bytes: Seq<u8>) -> (ReassemblyState, Seq<Seq<u8>>) {
        self.store(ordinal, bytes).drain()
    }

    /// The report of a failed fetch. The first failure is the one that counts.
    pub open spec fn fail(self, error: TransferError) -> ReassemblyState {
        if self.failure is None {
            ReassemblyState { failure: Some(error), ..self }
        } else {
            self
        }
    }

    /// One report of the driver: the next state, and the contents to write
    /// now, in the order of writing.
    pub open spec fn step(self, arrival: Arrival) -> (ReassemblyState, Seq<Seq<u8>>) {
        match arrival {
            Arrival::Fetched { ordinal, bytes } => self.deliver(ordinal, bytes),
            Arrival::Failed { error } => (self.fail(error), Seq::empty()),
        }
    }

    /// A run of reports, one after the other: the state at the end, and all
    /// the contents that were released, in the order of release.
    pub open spec fn run(self, arrivals: Seq<Arrival>) -> (ReassemblyState, Seq<Seq<u8>>)
        decreases arrivals.len(),
    {
        if arrivals.len() == 0 {
            (self, Seq::empty())
        } else {
            let (mid, before) = self.run(arrivals.drop_last());
            let (end, now) = mid.step(arrivals.last());
            (end, before + now)
        }
    }

    /// How the reassembly stands.
    pub open spec fn outcome(self) -> Outcome {
        match self.failure {
            Some(error) => Outcome::Failed(error),
            None => if self.next == self.total() {
                Outcome::Complete(self.written as usize)
            } else {
                Outcome::Pending
            },
        }
    }
}

/// No bytes wait in slots that are all empty.
pub proof fn lemma_held_bytes_of_empty_slots(total: nat)
    ensures
        held_bytes(Seq::new(total, |i: int| None::<Seq<u8>>)) == 0,
    decreases total,
{
    if total > 0 {
        let slots = Seq::new(total, |i: int| None::<Seq<u8>>);
        assert(slots.drop_last() =~= Seq::new((total - 1) as nat, |i: int| None::<Seq<u8>>));
        lemma_held_bytes_of_empty_slots((total - 1) as nat);
    }
}

/// The length of what a slot holds.
pub open spec fn slot_len(slot: Option<Seq<u8>>) -> nat {
    match slot {
        Some(bytes) => bytes.len(),
        None => 0,
    }
}

/// A change of one slot changes the waiting bytes by the difference of the
/// two contents.
pub proof fn lemma_held_bytes_update(slots: Seq<Option<Seq<u8>>>, k: int, slot: Option<Seq<u8>>)
    requires
        0 <= k < slots.len(),
    ensures
        held_bytes(slots.update(k, slot)) + slot_len(slots[k]) == held_bytes(slots) + slot_len(
            slot,
        ),
    decreases slots.len(),
{
    let updated = slots.update(k, slot);
    if k == slots.len() - 1 {
        assert(updated.drop_last() =~= slots.drop_last());
    } else {
        assert(updated.drop_last() =~= slots.drop_last().update(k, slot));
        lemma_held_bytes_update(slots.drop_last(), k, slot);
    }
}

/// What draining does: it releases the ranges from the next in turn up to
/// the first that has not arrived, and leaves the other slots alone.
pub proof fn lemma_drain(state: ReassemblyState)
    requires
        state.next <= state.total(),
    ensures
        ({
            let (end, released) = state.drain();
            &&& end.total() == state.total()
            &&& end.failure == state.failure
            &&& state.next <= end.next <= state.total()
            &&& !end.ready()
            &&& released.len() == end.next - state.next
            &&& forall|i: int|
                state.next <= i < end.next ==> state.slots[i] == Some(
                    #[trigger] released[i - state.next],
                )
            &&& forall|i: int|
                state.next <= i < end.next ==> #[trigger] end.slots[i] == None::<Seq<u8>>
            &&& forall|i: int|
                0 <= i < state.total() && !(state.next <= i < end.next) ==> #[trigger] end.slots[i]
                    == state.slots[i]
            &&& end.written == state.written + released.flatten().len()
            &&& end.received() == state.received()
        }),
    decreases state.total() - state.next,
{
    let (end, released) = state.drain();
    if state.ready() {
        let bytes = state.slots[state.next as int].unwrap();
        let after = state.release();
        let rest = after.drain().1;
        lemma_drain(after);
        assert forall|i: int| state.next <= i < end.next implies state.slots[i] == Some(
            #[trigger] released[i - state.next],
        ) by {
            if i > state.next {
                assert(released[i - state.next] == rest[i - after.next]);
            }
        }
        assert(released.flatten() =~= bytes + rest.flatten()) by {
            assert(released.drop_first() =~= rest);
        }
        lemma_held_bytes_update(state.slots, state.next as int, None);
    }
}

/// The contents of the slots of a reassembler, as sequences.
pub open spec fn slots_view(slots: Seq<Option<Vec<u8>>>) -> Seq<Option<Seq<u8>>> {
    Seq::new(
        slots.len(),
        |i: int|
            match slots[i] {
                Some(bytes) => Some(bytes@),
                None => None,
            },
    )
}

/// The contents of released buffers, as sequences.
pub open spec fn buffers_view(buffers: Seq<Vec<u8>>) -> Seq<Seq<u8>> {
    Seq::new(buffers.len(), |i: int| buffers[i]@)
}

/// What the driver reports when one range fetch is over.
#[derive(Debug)]
pub enum Completion {
    /// The range was fetched whole.
    Fetched(RangeResult),
    /// The fetch failed, or its task did not run to the end.
    Failed(TransferError),
}

impl View for Completion {
    type V = Arrival;

    open spec fn view(&self) -> Arrival {
        match *self {
            Completion::Fetched(result) => Arrival::Fetched {
                ordinal: result.ordinal as nat,
                bytes: result.bytes@,
            },
            Completion::Failed(error) => Arrival::Failed { error },
        }
    }
}

/// Collects the results of the range fetches of one transfer and hands their
/// contents out in the order of the partition, whatever the order of arrival.
#[derive(Debug)]
pub struct Reassembler {
    slots: Vec<Option<Vec<u8>>>,
    next: usize,
    written: usize,
    received: usize,
    failure: Option<TransferError>,
}

impl View for Reassembler {
    type V = ReassemblyState;

    closed spec fn view(&self) -> ReassemblyState {
        ReassemblyState {
            slots: slots_view(self.slots@),
            next: self.next as nat,
            written: self.written as nat,
            failure: self.failure,
        }
    }
}

impl Reassembler {
    /// What every reassembler satisfies between two calls.
    pub closed spec fn wf(&self) -> bool {
        &&& self@.wf()
        &&& self.received == self@.received()
    }

    /// A well-formed reassembler shows a well-formed state, and the bytes
    /// that it has kept are no more than the machine can count.
    pub proof fn lemma_wf_shows(&self)
        requires
            self.wf(),
        ensures
            self@.wf(),
            self@.received() <= usize::MAX,
    {
    }

    /// A reassembler for a partition of `total` ranges, of which none has
    /// arrived.
    pub fn new(total: usize) -> (reassembler: Reassembler)
        ensures
            reassembler.wf(),
            reassembler@ == ReassemblyState::start(total as nat),
    {
        let mut slots: Vec<Option<Vec<u8>>> = Vec::new();
        while slots.len() < total
            invariant
                slots@.len() <= total,
                forall|i: int| 0 <= i < slots@.len() ==> slots@[i] is None,
            decreases total - slots@.len(),
        {
            slots.push(None);
        }
        let reassembler = Reassembler { slots, next: 0, written: 0, received: 0, failure: None };
        proof {
            assert(reassembler@.slots =~= Seq::new(total as nat, |i: int| None::<Seq<u8>>));
            lemma_held_bytes_of_empty_slots(total as nat);
        }
        reassembler
    }

    /// The number of ranges of the partition.
    pub fn total(&self) -> (total: usize)
        ensures
            total == self@.total(),
    {
        self.slots.len()
    }

    /// The number of bytes released so far.
    pub fn bytes_written(&self) -> (count: usize)
        ensures
            count == self@.written,
    {
        self.written
    }

    /// The number of bytes that arrived and were kept.
    pub fn bytes_received(&self) -> (count: usize)
        requires
            self.wf(),
        ensures
            count == self@.received(),
    {
        self.received
    }

    /// How the reassembly stands: failed with the first error reported,
    /// complete with the count of all bytes once the last range was
    /// released, or pending.
    pub fn outcome(&self) -> (outcome: Outcome)
        requires
            self.wf(),
        ensures
            outcome == self@.outcome(),
    {
        match self.failure {
            Some(error) => Outcome::Failed(error),
            None => if self.next == self.slots.len() {
                Outcome::Complete(self.written)
            } else {
                Outcome::Pending
            },
        }
    }

    /// Reports a failed fetch. The first failure is kept; from then on no
    /// range is released.
    pub fn fail(&mut self, error: TransferError)
        requires
            old(self).wf(),
        ensures
            final(self).wf(),
            final(self)@ == old(self)@.fail(error),
    {
        if self.failure.is_none() {
            self.failure = Some(error);
        }
    }

    /// Takes the result of one range fetch and returns the contents that can
    /// be written now, in the order in which they are to be written: the
    /// ranges from the next in turn up to the first that has not arrived.
    /// A result that arrives after a failure, for a position outside the
    /// partition, or for a range that was already taken is dropped.
    pub fn deliver(&mut self, result: RangeResult) -> (released: Vec<Vec<u8>>)
        requires
            old(self).wf(),
            old(self)@.received() + result.bytes@.len() <= usize::MAX,
        ensures
            final(self).wf(),
            (final(self)@, buffers_view(released@)) == old(self)@.deliver(
                result.ordinal as nat,
                result.bytes@,
            ),
    {
        let ordinal = result.ordinal;
        let bytes = result.bytes;
        let ghost entry = self@;
        let ghost stored = entry.store(ordinal as nat, bytes@);
        if self.failure.is_none() && self.next <= ordinal && ordinal < self.slots.len()
            && self.slots[ordinal].is_none() {
            proof {
                lemma_held_bytes_update(entry.slots, ordinal as int, Some(bytes@));
            }
            self.received = self.received + bytes.len();
            self.slots.set(ordinal, Some(bytes));
            assert(self@.slots =~= stored.slots);
        }
        let mut released: Vec<Vec<u8>> = Vec::new();
        while self.next < self.slots.len() && self.failure.is_none() && self.slots[self.next].is_some()
            invariant
                self.next <= self.slots@.len(),
                self@.total() == stored.total(),
                forall|i: int| 0 <= i < self.next ==> self@.slots[i] is None,
                self.received == self@.received(),
                stored.drain().0 == self@.drain().0,
                stored.drain().1 == buffers_view(released@) + self@.drain().1,
            decreases self.slots@.len() - self.next,
        {
            let ghost before = self@;
            let mut slot: Option<Vec<u8>> = None;
            self.slots.set_and_swap(self.next, &mut slot);
            let bytes = slot.unwrap();
            proof {
                lemma_held_bytes_update(before.slots, before.next as int, None);
            }
            self.written = self.written + bytes.len();
            self.next = self.next + 1;
            released.push(bytes);
            proof {
                assert(self@.slots =~= before.release().slots);
                assert(buffers_view(released@) =~= buffers_view(released@.drop_last()) + seq![
                    bytes@,
                ]);
            }
        }
        released
    }

    /// Takes one report of the driver and returns the contents to write now,
    /// in the order of writing: those that a fetched range sets free, and
    /// nothing for a failure.
    pub fn on_completion(&mut self, completion: Completion) -> (released: Vec<Vec<u8>>)
        requires
            old(self).wf(),
            completion matches Completion::Fetched(result) ==> old(self)@.received()
                + result.bytes@.len() <= usize::MAX,
        ensures
            final(self).wf(),
            (final(self)@, buffers_view(released@)) == old(self)@.step(completion@),
    {
        match completion {
            Completion::Fetched(result) => self.deliver(result),
            Completion::Failed(error) => {
                self.fail(error);
                Vec::new()
            },
        }
    }
}

} // verus!
