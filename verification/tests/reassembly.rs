use range_fetch::error::TransferError;
use range_fetch::fetch::{FetchProgress, RangeFetch, RangeResult};
use range_fetch::range::{partition, ByteRange};
use range_fetch::reassembly::{Completion, Outcome, Reassembler};
use range_fetch::sequential::{SequentialStreamer, StreamAction};
use range_fetch::stream::StreamEvent;

fn result(ordinal: usize, bytes: &[u8]) -> RangeResult {
    RangeResult { ordinal, bytes: bytes.to_vec() }
}

fn contents(count: usize) -> Vec<Vec<u8>> {
    (0..count).map(|k| vec![k as u8; k + 1]).collect()
}

fn run_in_order(contents: &[Vec<u8>], order: &[usize]) -> (Vec<Vec<u8>>, Outcome) {
    let mut reassembler = Reassembler::new(contents.len());
    let mut released = Vec::new();
    for &ordinal in order {
        released.extend(reassembler.deliver(result(ordinal, &contents[ordinal])));
    }
    (released, reassembler.outcome())
}

fn permutations(items: Vec<usize>) -> Vec<Vec<usize>> {
    if items.len() <= 1 {
        return vec![items];
    }
    let mut all = Vec::new();
    for i in 0..items.len() {
        let mut rest = items.clone();
        let first = rest.remove(i);
        for mut tail in permutations(rest) {
            tail.insert(0, first);
            all.push(tail);
        }
    }
    all
}

#[test]
fn new_reassembler_is_pending() {
    let reassembler = Reassembler::new(3);
    assert_eq!(reassembler.total(), 3);
    assert_eq!(reassembler.bytes_written(), 0);
    assert_eq!(reassembler.bytes_received(), 0);
    assert_eq!(reassembler.outcome(), Outcome::Pending);
}

#[test]
fn transfer_without_ranges_is_complete_at_once() {
    let reassembler = Reassembler::new(0);
    assert_eq!(reassembler.outcome(), Outcome::Complete(0));
}

#[test]
fn results_in_partition_order_leave_one_by_one() {
    let mut reassembler = Reassembler::new(3);
    assert_eq!(reassembler.deliver(result(0, &[1, 2])), vec![vec![1, 2]]);
    assert_eq!(reassembler.bytes_written(), 2);
    assert_eq!(reassembler.outcome(), Outcome::Pending);
    assert_eq!(reassembler.deliver(result(1, &[3])), vec![vec![3]]);
    assert_eq!(reassembler.deliver(result(2, &[4, 5, 6])), vec![vec![4, 5, 6]]);
    assert_eq!(reassembler.bytes_written(), 6);
    assert_eq!(reassembler.outcome(), Outcome::Complete(6));
}

#[test]
fn later_range_waits_for_the_earlier_one() {
    let mut reassembler = Reassembler::new(3);
    assert_eq!(reassembler.deliver(result(2, &[4, 5, 6])), Vec::<Vec<u8>>::new());
    assert_eq!(reassembler.deliver(result(1, &[3])), Vec::<Vec<u8>>::new());
    assert_eq!(reassembler.bytes_written(), 0);
    assert_eq!(reassembler.bytes_received(), 4);
    assert_eq!(reassembler.outcome(), Outcome::Pending);
    assert_eq!(
        reassembler.deliver(result(0, &[1, 2])),
        vec![vec![1, 2], vec![3], vec![4, 5, 6]]
    );
    assert_eq!(reassembler.bytes_written(), 6);
    assert_eq!(reassembler.bytes_received(), 6);
    assert_eq!(reassembler.outcome(), Outcome::Complete(6));
}

#[test]
fn release_stops_at_the_first_missing_range() {
    let mut reassembler = Reassembler::new(4);
    assert_eq!(reassembler.deliver(result(1, &[2])), Vec::<Vec<u8>>::new());
    assert_eq!(reassembler.deliver(result(3, &[4])), Vec::<Vec<u8>>::new());
    assert_eq!(reassembler.deliver(result(0, &[1])), vec![vec![1], vec![2]]);
    assert_eq!(reassembler.outcome(), Outcome::Pending);
    assert_eq!(reassembler.deliver(result(2, &[3])), vec![vec![3], vec![4]]);
    assert_eq!(reassembler.outcome(), Outcome::Complete(4));
}

#[test]
fn every_order_of_arrival_releases_the_partition_order() {
    let contents = contents(5);
    let expected_count: usize = contents.iter().map(|c| c.len()).sum();
    let orders = permutations((0..5).collect());
    assert_eq!(orders.len(), 120);
    for order in orders {
        let (released, outcome) = run_in_order(&contents, &order);
        assert_eq!(released, contents);
        assert_eq!(outcome, Outcome::Complete(expected_count));
    }
}

#[test]
fn result_that_arrives_twice_is_taken_once() {
    let mut reassembler = Reassembler::new(2);
    assert_eq!(reassembler.deliver(result(1, &[7])), Vec::<Vec<u8>>::new());
    assert_eq!(reassembler.deliver(result(1, &[8, 8])), Vec::<Vec<u8>>::new());
    assert_eq!(reassembler.bytes_received(), 1);
    assert_eq!(reassembler.deliver(result(0, &[6])), vec![vec![6], vec![7]]);
    assert_eq!(reassembler.deliver(result(0, &[5])), Vec::<Vec<u8>>::new());
    assert_eq!(reassembler.outcome(), Outcome::Complete(2));
}

#[test]
fn result_outside_the_partition_is_dropped() {
    let mut reassembler = Reassembler::new(2);
    assert_eq!(reassembler.deliver(result(2, &[1])), Vec::<Vec<u8>>::new());
    assert_eq!(reassembler.deliver(result(usize::MAX, &[1])), Vec::<Vec<u8>>::new());
    assert_eq!(reassembler.bytes_received(), 0);
    assert_eq!(reassembler.outcome(), Outcome::Pending);
}

#[test]
fn empty_contents_are_released_too() {
    let mut reassembler = Reassembler::new(2);
    assert_eq!(reassembler.deliver(result(0, &[])), vec![Vec::<u8>::new()]);
    assert_eq!(reassembler.deliver(result(1, &[])), vec![Vec::<u8>::new()]);
    assert_eq!(reassembler.outcome(), Outcome::Complete(0));
}

#[test]
fn failure_fails_the_transfer() {
    for error in [
        TransferError::NotFound,
        TransferError::AccessDenied,
        TransferError::TransientIOError,
        TransferError::SizeUnavailable,
        TransferError::LocalIOError,
    ] {
        let mut reassembler = Reassembler::new(3);
        reassembler.deliver(result(0, &[1]));
        reassembler.fail(error);
        assert_eq!(reassembler.outcome(), Outcome::Failed(error));
    }
}

#[test]
fn nothing_is_released_after_a_failure() {
    let mut reassembler = Reassembler::new(3);
    assert_eq!(reassembler.deliver(result(0, &[1])), vec![vec![1]]);
    assert_eq!(reassembler.deliver(result(2, &[3])), Vec::<Vec<u8>>::new());
    reassembler.fail(TransferError::TransientIOError);
    assert_eq!(reassembler.deliver(result(1, &[2])), Vec::<Vec<u8>>::new());
    assert_eq!(reassembler.bytes_written(), 1);
    assert_eq!(reassembler.outcome(), Outcome::Failed(TransferError::TransientIOError));
}

#[test]
fn first_failure_is_the_one_reported() {
    let mut reassembler = Reassembler::new(3);
    reassembler.fail(TransferError::AccessDenied);
    reassembler.fail(TransferError::NotFound);
    assert_eq!(reassembler.outcome(), Outcome::Failed(TransferError::AccessDenied));
}

#[test]
fn failure_after_the_last_range_still_fails() {
    let mut reassembler = Reassembler::new(1);
    assert_eq!(reassembler.deliver(result(0, &[1])), vec![vec![1]]);
    assert_eq!(reassembler.outcome(), Outcome::Complete(1));
    reassembler.fail(TransferError::LocalIOError);
    assert_eq!(reassembler.outcome(), Outcome::Failed(TransferError::LocalIOError));
}

#[test]
fn one_failed_fetch_among_the_reports_fails_the_transfer() {
    let contents = contents(4);
    for failing in 0..4 {
        for order in permutations((0..4).collect()) {
            let mut reassembler = Reassembler::new(4);
            let mut released = Vec::new();
            for &ordinal in &order {
                let completion = if ordinal == failing {
                    Completion::Failed(TransferError::TransientIOError)
                } else {
                    Completion::Fetched(result(ordinal, &contents[ordinal]))
                };
                released.extend(reassembler.on_completion(completion));
            }
            assert_eq!(reassembler.outcome(), Outcome::Failed(TransferError::TransientIOError));
            assert!(released.len() <= failing);
            assert_eq!(released[..], contents[..released.len()]);
        }
    }
}

#[test]
fn completion_of_a_fetch_releases_like_a_delivery() {
    let mut reassembler = Reassembler::new(2);
    assert_eq!(
        reassembler.on_completion(Completion::Fetched(result(1, &[2]))),
        Vec::<Vec<u8>>::new()
    );
    assert_eq!(
        reassembler.on_completion(Completion::Fetched(result(0, &[1]))),
        vec![vec![1], vec![2]]
    );
    assert_eq!(reassembler.outcome(), Outcome::Complete(2));
}

fn fetch_range(data: &[u8], ordinal: usize, range: ByteRange) -> RangeResult {
    let mut fetch = RangeFetch::begin(ordinal, range);
    let body = &data[range.start as usize..=range.end as usize];
    for chunk in body.chunks(3) {
        fetch = match fetch.on_event(StreamEvent::Chunk(chunk)) {
            FetchProgress::Pending(fetch) => fetch,
            other => panic!("not pending: {:?}", other),
        };
    }
    match fetch.on_event(StreamEvent::End) {
        FetchProgress::Complete(result) => result,
        other => panic!("not complete: {:?}", other),
    }
}

fn parallel_transfer(data: &[u8], chunk_size: u64, reversed: bool) -> (Vec<u8>, Outcome) {
    let ranges = partition(data.len() as u64, chunk_size);
    let mut results: Vec<RangeResult> =
        ranges.iter().enumerate().map(|(k, range)| fetch_range(data, k, *range)).collect();
    if reversed {
        results.reverse();
    }
    let mut reassembler = Reassembler::new(ranges.len());
    let mut destination = Vec::new();
    for result in results {
        for buffer in reassembler.deliver(result) {
            destination.extend_from_slice(&buffer);
        }
    }
    (destination, reassembler.outcome())
}

#[test]
fn parallel_transfer_brings_the_object_unchanged() {
    for size in [0usize, 1, 10, 25, 40] {
        let data: Vec<u8> = (0..size).map(|i| (i * 7) as u8).collect();
        for reversed in [false, true] {
            let (destination, outcome) = parallel_transfer(&data, 10, reversed);
            assert_eq!(destination, data);
            assert_eq!(outcome, Outcome::Complete(size));
        }
    }
}

#[test]
fn both_strategies_write_the_same_bytes() {
    let data: Vec<u8> = (0..53u32).map(|i| (i * 11) as u8).collect();
    let mut streamer = SequentialStreamer::new();
    let mut sequential = Vec::new();
    for chunk in data.chunks(8) {
        if let StreamAction::Write(bytes) = streamer.on_event(StreamEvent::Chunk(chunk)) {
            sequential.extend_from_slice(bytes);
        }
    }
    let count = match streamer.on_event(StreamEvent::End) {
        StreamAction::Finish(count) => count,
        other => panic!("not finished: {:?}", other),
    };
    let (parallel, outcome) = parallel_transfer(&data, 10, true);
    assert_eq!(sequential, parallel);
    assert_eq!(outcome, Outcome::Complete(count));
}
