//! Byte ranges and the partition of an object into ranges of a fixed width.
//!
//! A range is closed on both sides: `start` and `end` are the offsets of its
//! first and of its last byte, which is the convention of a `Range` request
//! header. The partitioning and the fetch primitive both go by it.

use vstd::prelude::*;

verus! {

/// Width of one range unless the caller asks for another: 10 MiB.
pub const DEFAULT_CHUNK_SIZE: u64 = 10 * 1024 * 1024;

/// One contiguous slice of an object, both ends inclusive.
#[derive(Clone, Copy, Debug, PartialEq, Eq, Structural)]
pub struct ByteRange {
    /// Offset of the first byte of the slice.
    pub start: u64,
    /// Offset of the last byte of the slice.
    pub end: u64,
}

impl ByteRange {
    /// A range names at least one byte.
    pub open spec fn wf(self) -> bool {
        self.start <= self.end
    }

    /// How many bytes the range names.
    pub open spec fn width(self) -> int {
        self.end - self.start + 1
    }

    /// Whether the byte at `offset` lies in the range.
    pub open spec fn contains(self, offset: int) -> bool {
        self.start <= offset <= self.end
    }

    /// The bytes of `data` that the range names.
    pub open spec fn slice_of(self, data: Seq<u8>) -> Seq<u8> {
        data.subrange(self.start as int, self.end + 1)
    }

    /// The room that a buffer for the whole range asks for: the width of
    /// the range, or nothing where the width is no `usize`.
    pub open spec fn capacity_hint(self) -> usize {
        if self.wf() && self.width() <= usize::MAX {
            self.width() as usize
        } else {
            0
        }
    }

    /// The room to reserve in a buffer that is to take the whole range.
    pub fn buffer_capacity(&self) -> (hint: usize)
        ensures
            hint == self.capacity_hint(),
    {
        if self.start > self.end {
            return 0;
        }
        let span: u64 = self.end - self.start;
        if span >= usize::MAX as u64 {
            0
        } else {
            (span + 1) as usize
        }
    }

    /// The number of bytes in the range.
    pub fn len(&self) -> (n: u64)
        requires
            self.wf(),
            self.width() <= u64::MAX,
        ensures
            n == self.width(),
    {
        self.end - self.start + 1
    }
}

/// The number of ranges of width `chunk_size` that an object of
/// `object_size` bytes falls into: the quotient, rounded up.
pub open spec fn range_count(object_size: nat, chunk_size: nat) -> nat {
    if chunk_size == 0 {
        0
    } else {
        ((object_size + chunk_size - 1) / (chunk_size as int)) as nat
    }
}

/// The range at position `i` of the partition: it starts at `i * chunk_size`
/// and is `chunk_size` wide, except that it never reaches past the last byte
/// of the object.
pub open spec fn range_at(object_size: nat, chunk_size: nat, i: int) -> ByteRange {
    ByteRange {
        start: (i * chunk_size) as u64,
        end: if (i + 1) * chunk_size <= object_size {
            ((i + 1) * chunk_size - 1) as u64
        } else {
            (object_size - 1) as u64
        },
    }
}

/// The partition of `[0, object_size)` into ranges of width `chunk_size`.
pub open spec fn partition_of(object_size: nat, chunk_size: nat) -> Seq<ByteRange> {
    Seq::new(
        range_count(object_size, chunk_size),
        |i: int| range_at(object_size, chunk_size, i),
    )
}

/// `ranges` tile `[0, object_size)`: none is empty, the first starts at
/// offset 0, each of the others starts right behind the one before it, and
/// the last ends at the last byte. There is no range for an empty object.
pub open spec fn tiles(ranges: Seq<ByteRange>, object_size: nat) -> bool {
    &&& object_size == 0 <==> ranges.len() == 0
    &&& forall|i: int| 0 <= i < ranges.len() ==> (#[trigger] ranges[i]).wf()
    &&& ranges.len() > 0 ==> ranges[0].start == 0 && ranges.last().end == object_size - 1
    &&& forall|i: int|
        0 <= i < ranges.len() - 1 ==> (#[trigger] ranges[i + 1]).start == ranges[i].end + 1
}

/// Whether one of `ranges` holds the byte at `offset`.
pub open spec fn is_covered(ranges: Seq<ByteRange>, offset: int) -> bool {
    exists|i: int| 0 <= i < ranges.len() && (#[trigger] ranges[i]).contains(offset)
}

/// Every byte of `[0, object_size)` lies in one of `ranges`, no byte lies in
/// two of them, and none of them holds a byte from outside.
pub open spec fn covers_each_byte_once(ranges: Seq<ByteRange>, object_size: nat) -> bool {
    &&& forall|offset: int| 0 <= offset < object_size ==> #[trigger] is_covered(ranges, offset)
    &&& forall|i: int, j: int, offset: int|
        0 <= i < ranges.len() && 0 <= j < ranges.len() && #[trigger] ranges[i].contains(offset)
            && #[trigger] ranges[j].contains(offset) ==> i == j
    &&& forall|i: int, offset: int|
        0 <= i < ranges.len() && #[trigger] ranges[i].contains(offset) ==> 0 <= offset
            < object_size
}

/// The rounded-up quotient is the least count of chunks that reach the size.
pub proof fn lemma_range_count_bounds(object_size: nat, chunk_size: nat)
    requires
        chunk_size > 0,
    ensures
        (range_count(object_size, chunk_size) - 1) * chunk_size < object_size,
        object_size <= range_count(object_size, chunk_size) * chunk_size,
        object_size > 0 ==> range_count(object_size, chunk_size) > 0,
        object_size == 0 ==> range_count(object_size, chunk_size) == 0,
{
    let c = chunk_size as int;
    let x = object_size + chunk_size - 1;
    let q = x / c;
    assert(x == q * c + x % c && 0 <= x % c < c && (q - 1) * c == q * c - c && (object_size > 0
        ==> q > 0) && (object_size == 0 ==> q == 0)) by (nonlinear_arith)
        requires
            c > 0,
            x == object_size + c - 1,
            q == x / c,
            object_size >= 0,
    ;
}

/// Where a count of chunks stands against the rounded-up quotient.
pub proof fn lemma_chunks_against_count(object_size: nat, chunk_size: nat, k: int)
    requires
        chunk_size > 0,
        0 <= k,
    ensures
        k * chunk_size < object_size <==> k < range_count(object_size, chunk_size),
        (k + 1) * chunk_size == k * chunk_size + chunk_size,
{
    lemma_range_count_bounds(object_size, chunk_size);
    let c = chunk_size as int;
    let q = range_count(object_size, chunk_size) as int;
    let s = object_size as int;
    assert((k * c < s <==> k < q) && (k + 1) * c == k * c + c) by (nonlinear_arith)
        requires
            c > 0,
            0 <= k,
            0 <= q,
            (q - 1) * c < s,
            s <= q * c,
    ;
}

/// Every range of the partition lies inside the object and has the
/// boundaries that its position gives it.
pub proof fn lemma_range_at_bounds(object_size: nat, chunk_size: nat, i: int)
    requires
        chunk_size > 0,
        object_size <= u64::MAX,
        0 <= i < range_count(object_size, chunk_size),
    ensures
        range_at(object_size, chunk_size, i).start == i * chunk_size,
        range_at(object_size, chunk_size, i).end == if (i + 1) * chunk_size <= object_size {
            (i + 1) * chunk_size - 1
        } else {
            object_size - 1
        },
        range_at(object_size, chunk_size, i).wf(),
        range_at(object_size, chunk_size, i).end < object_size,
        1 <= range_at(object_size, chunk_size, i).width() <= chunk_size,
        i + 1 < range_count(object_size, chunk_size) ==> range_at(
            object_size,
            chunk_size,
            i,
        ).width() == chunk_size,
{
    lemma_chunks_against_count(object_size, chunk_size, i);
    lemma_chunks_against_count(object_size, chunk_size, i + 1);
    assert(0 <= i * chunk_size) by (nonlinear_arith)
        requires
            0 <= i,
            chunk_size > 0,
    ;
}

/// Splits `[0, object_size)` into ranges of `chunk_size` bytes, in ascending
/// order. The last range is cut short at the last byte of the object; an
/// empty object has no range.
pub fn partition(object_size: u64, chunk_size: u64) -> (ranges: Vec<ByteRange>)
    requires
        chunk_size > 0,
    ensures
        ranges@ == partition_of(object_size as nat, chunk_size as nat),
        ranges@.len() == range_count(object_size as nat, chunk_size as nat),
        tiles(ranges@, object_size as nat),
        covers_each_byte_once(ranges@, object_size as nat),
{
    let mut ranges: Vec<ByteRange> = Vec::new();
    let mut start: u64 = 0;
    proof {
        lemma_chunks_against_count(object_size as nat, chunk_size as nat, 0);
    }
    while start < object_size
        invariant
            chunk_size > 0,
            start <= object_size,
            ranges@.len() <= range_count(object_size as nat, chunk_size as nat),
            start == if ranges@.len() * chunk_size <= object_size {
                ranges@.len() * chunk_size
            } else {
                object_size as int
            },
            forall|i: int|
                0 <= i < ranges@.len() ==> ranges@[i] == range_at(
                    object_size as nat,
                    chunk_size as nat,
                    i,
                ),
        decreases object_size - start,
    {
        let ghost k = ranges@.len() as int;
        proof {
            lemma_chunks_against_count(object_size as nat, chunk_size as nat, k);
            lemma_chunks_against_count(object_size as nat, chunk_size as nat, k + 1);
        }
        let remaining: u64 = object_size - start;
        let end: u64 = if remaining > chunk_size {
            start + (chunk_size - 1)
        } else {
            object_size - 1
        };
        ranges.push(ByteRange { start, end });
        start = end + 1;
    }
    proof {
        let k = ranges@.len() as int;
        lemma_chunks_against_count(object_size as nat, chunk_size as nat, k);
        lemma_partition_tiles(object_size as nat, chunk_size as nat);
        lemma_partition_covers_each_byte_once(object_size as nat, chunk_size as nat);
    }
    ranges
}

/// The partition tiles the object: no gap, no overlap, and the last range
/// ends at the last byte.
pub proof fn lemma_partition_tiles(object_size: nat, chunk_size: nat)
    requires
        chunk_size > 0,
        object_size <= u64::MAX,
    ensures
        tiles(partition_of(object_size, chunk_size), object_size),
{
    let ranges = partition_of(object_size, chunk_size);
    let n = range_count(object_size, chunk_size) as int;
    lemma_range_count_bounds(object_size, chunk_size);
    assert forall|i: int| 0 <= i < ranges.len() implies (#[trigger] ranges[i]).wf() by {
        lemma_range_at_bounds(object_size, chunk_size, i);
    }
    if n > 0 {
        lemma_range_at_bounds(object_size, chunk_size, 0);
        lemma_range_at_bounds(object_size, chunk_size, n - 1);
        lemma_chunks_against_count(object_size, chunk_size, n);
    }
    assert forall|i: int| 0 <= i < ranges.len() - 1 implies (#[trigger] ranges[i + 1]).start
        == ranges[i].end + 1 by {
        lemma_range_at_bounds(object_size, chunk_size, i);
        lemma_range_at_bounds(object_size, chunk_size, i + 1);
        lemma_chunks_against_count(object_size, chunk_size, i + 1);
    }
}

/// The range at position `i` holds exactly the bytes of the object whose
/// offset, divided by the chunk size, gives `i`.
pub proof fn lemma_range_at_contains(object_size: nat, chunk_size: nat, i: int, offset: int)
    requires
        chunk_size > 0,
        object_size <= u64::MAX,
        0 <= i < range_count(object_size, chunk_size),
    ensures
        range_at(object_size, chunk_size, i).contains(offset) <==> 0 <= offset < object_size
            && offset / (chunk_size as int) == i,
{
    lemma_range_at_bounds(object_size, chunk_size, i);
    let c = chunk_size as int;
    assert(i * c <= offset < (i + 1) * c <==> offset / c == i) by (nonlinear_arith)
        requires
            c > 0,
    ;
}

/// Each byte of the object lies in exactly one range of the partition, and
/// the partition asks for no byte beyond the object.
pub proof fn lemma_partition_covers_each_byte_once(object_size: nat, chunk_size: nat)
    requires
        chunk_size > 0,
        object_size <= u64::MAX,
    ensures
        covers_each_byte_once(partition_of(object_size, chunk_size), object_size),
{
    let ranges = partition_of(object_size, chunk_size);
    let c = chunk_size as int;
    assert forall|offset: int| 0 <= offset < object_size implies #[trigger] is_covered(
        ranges,
        offset,
    ) by {
        let i = offset / c;
        lemma_chunks_against_count(object_size, chunk_size, i);
        assert(0 <= i && i * c <= offset) by (nonlinear_arith)
            requires
                c > 0,
                0 <= offset,
                i == offset / c,
        ;
        lemma_range_at_contains(object_size, chunk_size, i, offset);
        assert(ranges[i].contains(offset));
    }
    assert forall|i: int, j: int, offset: int|
        0 <= i < ranges.len() && 0 <= j < ranges.len() && #[trigger] ranges[i].contains(offset)
            && #[trigger] ranges[j].contains(offset) implies i == j by {
        lemma_range_at_contains(object_size, chunk_size, i, offset);
        lemma_range_at_contains(object_size, chunk_size, j, offset);
    }
    assert forall|i: int, offset: int|
        0 <= i < ranges.len() && #[trigger] ranges[i].contains(offset) implies 0 <= offset
        < object_size by {
        lemma_range_at_contains(object_size, chunk_size, i, offset);
    }
}

} // verus!
