use range_fetch::error::TransferError;
use range_fetch::fetch::{FetchProgress, RangeFetch};
use range_fetch::header::{push_decimal, range_header};
use range_fetch::range::{partition, ByteRange};
use range_fetch::stream::StreamEvent;

fn decimal(n: u64) -> String {
    let mut text = String::new();
    push_decimal(&mut text, n);
    text
}

#[test]
fn header_names_both_ends() {
    assert_eq!(range_header(&ByteRange { start: 0, end: 10_485_759 }), "bytes=0-10485759");
    assert_eq!(
        range_header(&ByteRange { start: 20_971_520, end: 26_214_399 }),
        "bytes=20971520-26214399"
    );
}

#[test]
fn header_of_a_single_byte() {
    assert_eq!(range_header(&ByteRange { start: 0, end: 0 }), "bytes=0-0");
    assert_eq!(range_header(&ByteRange { start: 7, end: 7 }), "bytes=7-7");
}

#[test]
fn header_of_the_largest_offsets() {
    assert_eq!(
        range_header(&ByteRange { start: u64::MAX - 1, end: u64::MAX }),
        "bytes=18446744073709551614-18446744073709551615"
    );
}

#[test]
fn header_matches_the_formatted_text() {
    for range in partition(1000, 37) {
        assert_eq!(range_header(&range), format!("bytes={}-{}", range.start, range.end));
    }
}

#[test]
fn decimal_has_no_leading_zero() {
    assert_eq!(decimal(0), "0");
    assert_eq!(decimal(9), "9");
    assert_eq!(decimal(10), "10");
    assert_eq!(decimal(100), "100");
    assert_eq!(decimal(1_234_567_890), "1234567890");
    assert_eq!(decimal(u64::MAX), "18446744073709551615");
}

#[test]
fn decimal_is_appended_to_what_is_there() {
    let mut text = String::from("offset ");
    push_decimal(&mut text, 42);
    assert_eq!(text, "offset 42");
}

#[test]
fn decimal_agrees_with_std() {
    for n in (0u64..3000).chain([u64::MAX / 3, u64::MAX - 1]) {
        assert_eq!(decimal(n), n.to_string());
    }
}

#[test]
fn fetch_asks_for_its_range() {
    let fetch = RangeFetch::begin(2, ByteRange { start: 20, end: 29 });
    assert_eq!(fetch.header(), "bytes=20-29");
}

#[test]
fn fetch_joins_the_chunks_in_order_of_arrival() {
    let fetch = RangeFetch::begin(3, ByteRange { start: 30, end: 35 });
    let fetch = match fetch.on_event(StreamEvent::Chunk(&[1, 2, 3])) {
        FetchProgress::Pending(fetch) => fetch,
        other => panic!("not pending: {:?}", other),
    };
    let fetch = match fetch.on_event(StreamEvent::Chunk(&[])) {
        FetchProgress::Pending(fetch) => fetch,
        other => panic!("not pending: {:?}", other),
    };
    let fetch = match fetch.on_event(StreamEvent::Chunk(&[4, 5, 6])) {
        FetchProgress::Pending(fetch) => fetch,
        other => panic!("not pending: {:?}", other),
    };
    match fetch.on_event(StreamEvent::End) {
        FetchProgress::Complete(result) => {
            assert_eq!(result.ordinal, 3);
            assert_eq!(result.bytes, vec![1, 2, 3, 4, 5, 6]);
        }
        other => panic!("not complete: {:?}", other),
    }
}

#[test]
fn fetch_of_an_empty_body_completes_empty() {
    let fetch = RangeFetch::begin(0, ByteRange { start: 0, end: 9 });
    match fetch.on_event(StreamEvent::End) {
        FetchProgress::Complete(result) => {
            assert_eq!(result.ordinal, 0);
            assert!(result.bytes.is_empty());
        }
        other => panic!("not complete: {:?}", other),
    }
}

#[test]
fn fetch_of_the_widest_range_starts_without_room() {
    let fetch = RangeFetch::begin(0, ByteRange { start: 0, end: u64::MAX });
    assert_eq!(fetch.header(), "bytes=0-18446744073709551615");
    match fetch.on_event(StreamEvent::Chunk(&[1])) {
        FetchProgress::Pending(_) => {}
        other => panic!("not pending: {:?}", other),
    }
}

#[test]
fn fetch_hands_the_stream_error_on() {
    for error in [
        TransferError::TransientIOError,
        TransferError::AccessDenied,
        TransferError::NotFound,
    ] {
        let fetch = RangeFetch::begin(1, ByteRange { start: 10, end: 19 });
        let fetch = match fetch.on_event(StreamEvent::Chunk(&[9, 9])) {
            FetchProgress::Pending(fetch) => fetch,
            other => panic!("not pending: {:?}", other),
        };
        match fetch.on_event(StreamEvent::Failed(error)) {
            FetchProgress::Failed(got) => assert_eq!(got, error),
            other => panic!("not failed: {:?}", other),
        }
    }
}
