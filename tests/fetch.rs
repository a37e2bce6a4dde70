use crunchy_mux::reorder::ReorderBuffer;
use crunchy_mux::segments::{
    assign_segments, estimate_stream_data_file_size, len_from_segments, progress_length_after, worker_count,
    FetchError, SegmentWorker, StreamSegment,
};

fn body(i: usize, len: usize) -> Vec<u8> {
    vec![i as u8; len]
}

fn deliver(order: &[usize], sizes: &[usize]) -> (Vec<u8>, ReorderBuffer) {
    let mut buf = ReorderBuffer::new(sizes.len());
    let mut out = vec![];
    for &i in order {
        assert!(buf.can_accept(i));
        out.extend(buf.accept(i, body(i, sizes[i])));
    }
    (out, buf)
}

fn concatenation(sizes: &[usize]) -> Vec<u8> {
    let mut v = vec![];
    for (i, &n) in sizes.iter().enumerate() {
        v.extend(body(i, n));
    }
    v
}

#[test]
fn four_segments_two_workers_written_in_order() {
    let sizes = [100, 200, 300, 400];
    assert_eq!(worker_count(2, 4), 2);
    let shares = assign_segments(4, 2);
    assert_eq!(shares, vec![vec![0, 2], vec![1, 3]]);
    let (out, buf) = deliver(&[1, 3, 0, 2], &sizes);
    assert_eq!(out, concatenation(&sizes));
    assert_eq!(out.len(), 1000);
    assert!(buf.remaining().is_empty());
    assert_eq!(buf.next_index(), 4);
}

#[test]
fn any_arrival_order_gives_the_same_bytes() {
    let sizes = [3, 1, 4, 1, 5, 9];
    let orders: [[usize; 6]; 4] = [[0, 1, 2, 3, 4, 5], [5, 4, 3, 2, 1, 0], [2, 0, 5, 1, 3, 4], [1, 3, 5, 0, 2, 4]];
    for order in orders.iter() {
        let (out, buf) = deliver(order, &sizes);
        assert_eq!(out, concatenation(&sizes));
        assert!(buf.remaining().is_empty());
    }
}

#[test]
fn early_segment_is_held_until_its_turn() {
    let mut buf = ReorderBuffer::new(3);
    assert!(buf.accept(2, vec![2]).is_empty());
    assert!(buf.accept(1, vec![1]).is_empty());
    assert!(!buf.can_accept(1));
    assert_eq!(buf.accept(0, vec![0]), vec![0, 1, 2]);
}

#[test]
fn failed_segment_stops_the_output_before_it() {
    // ten segments; segment 3 never arrives
    let sizes = [10usize; 10];
    let (out, buf) = deliver(&[0, 2, 4, 1, 6, 8, 5, 7, 9], &sizes);
    assert_eq!(out, concatenation(&sizes[..3]));
    assert_eq!(buf.next_index(), 3);
    assert_eq!(buf.remaining(), vec![4, 5, 6, 7, 8, 9]);
}

#[test]
fn round_robin_shares() {
    let shares = assign_segments(10, 2);
    assert_eq!(shares, vec![vec![0, 2, 4, 6, 8], vec![1, 3, 5, 7, 9]]);
    let shares = assign_segments(5, 3);
    assert_eq!(shares, vec![vec![0, 3], vec![1, 4], vec![2]]);
    assert_eq!(assign_segments(0, 2), vec![Vec::<usize>::new(), vec![]]);
    assert_eq!(worker_count(8, 3), 3);
    assert_eq!(worker_count(2, 10), 2);
}

#[test]
fn worker_gives_up_after_six_attempts() {
    let mut w = SegmentWorker::new(vec![1, 3, 5, 7, 9]);
    assert_eq!(w.next_segment(), Some(1));
    w.on_success();
    assert_eq!(w.next_segment(), Some(3));
    for attempt in 1..6u32 {
        assert_eq!(w.attempt(), attempt);
        assert!(w.on_failure().is_none());
        assert_eq!(w.next_segment(), Some(3));
    }
    assert_eq!(w.attempt(), 6);
    match w.on_failure() {
        Some(FetchError::RetryExhausted { index, attempts }) => {
            assert_eq!(index, 3);
            assert_eq!(attempts, 6);
        }
        other => panic!("unexpected {:?}", other),
    }
    assert_eq!(w.next_segment(), None);
}

#[test]
fn retries_reset_after_a_success() {
    let mut w = SegmentWorker::new(vec![0, 2]);
    assert!(w.on_failure().is_none());
    assert!(w.on_failure().is_none());
    w.on_success();
    assert_eq!(w.attempt(), 1);
    assert_eq!(w.next_segment(), Some(2));
    w.on_success();
    assert_eq!(w.next_segment(), None);
}

fn seg(ms: u64) -> StreamSegment {
    StreamSegment { url: format!("https://example.org/{}", ms), length_ms: ms }
}

#[test]
fn size_estimate_uses_whole_seconds() {
    let segments = vec![seg(2500), seg(1500), seg(999)];
    // 8000 bits/s = 1000 bytes/s; 2 + 1 + 0 seconds
    assert_eq!(estimate_stream_data_file_size(8000, &segments), 3000);
    assert_eq!(estimate_stream_data_file_size(7, &segments), 0);
    assert_eq!(estimate_stream_data_file_size(u64::MAX, &vec![seg(u64::MAX)]), u64::MAX);
    assert_eq!(len_from_segments(&segments), 4999);
    assert_eq!(len_from_segments(&vec![]), 0);
}

#[test]
fn progress_length_is_corrected_by_real_sizes() {
    // estimate 10000, segment estimated at 1000 bytes/s * 2 s, really 1500 bytes
    assert_eq!(progress_length_after(10000, 8000, 2000, 1500), 9500);
    assert_eq!(progress_length_after(100, 8000, 2000, 50), 50);
}
