use fuse_engine::error::ErrorCode;
use fuse_engine::error::ErrorKind;
use fuse_engine::error::IoErrorKind;
use fuse_engine::fetch::FetchQueue;
use fuse_engine::fetch::FetchStatus;
use fuse_engine::reader::RangeRead;

fn plan(n: usize) -> Vec<RangeRead> {
    (0..n).map(|i| RangeRead { leaf: 100 + i, offset: 10 * i as u64, length: 10 }).collect()
}

#[test]
fn twelve_leaves_keep_ten_reads_in_flight() {
    let reads = plan(12);
    let mut queue = FetchQueue::new(reads.clone(), 10);
    assert_eq!(queue.fan_out(), 10);
    let mut peak = 0;
    for slot in 0..10 {
        assert_eq!(queue.dispatch(), Some((slot, reads[slot])));
        peak = peak.max(queue.in_flight());
    }
    assert_eq!(queue.in_flight(), 10);
    assert_eq!(queue.dispatch(), None);
    assert_eq!(queue.in_flight(), 10);
    assert!(queue.complete(4, vec![4]));
    assert_eq!(queue.in_flight(), 9);
    assert_eq!(queue.dispatch(), Some((10, reads[10])));
    assert_eq!(queue.dispatch(), None);
    assert!(queue.complete(0, vec![0]));
    assert_eq!(queue.dispatch(), Some((11, reads[11])));
    peak = peak.max(queue.in_flight());
    assert_eq!(queue.dispatch(), None);
    assert_eq!(peak, 10);
    assert_eq!(queue.status(), FetchStatus::Running);
    for slot in [1usize, 2, 3, 5, 6, 7, 8, 9, 10, 11] {
        assert!(queue.complete(slot, vec![slot as u8]));
    }
    assert_eq!(queue.in_flight(), 0);
    assert_eq!(queue.status(), FetchStatus::Fetched);
    let chunks = queue.finish().unwrap().unwrap();
    assert_eq!(chunks.len(), 12);
    for (i, (leaf, data)) in chunks.iter().enumerate() {
        assert_eq!(*leaf, 100 + i);
        assert_eq!(data, &vec![i as u8]);
    }
}

#[test]
fn fewer_leaves_than_the_fan_out_are_all_in_flight() {
    let mut queue = FetchQueue::new(plan(3), 10);
    assert!(queue.dispatch().is_some());
    assert!(queue.dispatch().is_some());
    assert!(queue.dispatch().is_some());
    assert_eq!(queue.in_flight(), 3);
    assert_eq!(queue.dispatch(), None);
}

#[test]
fn zero_fan_out_still_reads_one_at_a_time() {
    let mut queue = FetchQueue::new(plan(2), 0);
    assert_eq!(queue.fan_out(), 1);
    assert!(queue.dispatch().is_some());
    assert_eq!(queue.dispatch(), None);
    assert!(queue.complete(0, vec![]));
    assert!(queue.dispatch().is_some());
}

#[test]
fn empty_plan_is_fetched_at_once() {
    let mut queue = FetchQueue::new(vec![], 10);
    assert_eq!(queue.dispatch(), None);
    assert_eq!(queue.status(), FetchStatus::Fetched);
    assert_eq!(queue.finish(), Some(Ok(vec![])));
}

#[test]
fn chunks_come_out_in_plan_order_whatever_the_completion_order() {
    let mut queue = FetchQueue::new(plan(3), 3);
    for _ in 0..3 {
        queue.dispatch();
    }
    assert!(queue.complete(2, vec![2, 2]));
    assert!(queue.complete(0, vec![0]));
    assert_eq!(queue.status(), FetchStatus::Running);
    assert!(queue.complete(1, vec![1, 1, 1]));
    assert_eq!(
        queue.finish(),
        Some(Ok(vec![(100, vec![0]), (101, vec![1, 1, 1]), (102, vec![2, 2])]))
    );
}

#[test]
fn one_failed_read_fails_the_part_and_stops_dispatch() {
    let mut queue = FetchQueue::new(plan(4), 2);
    queue.dispatch();
    queue.dispatch();
    let not_found = ErrorCode::PermanentIo { cause: IoErrorKind::NotFound };
    assert!(queue.fail(1, not_found));
    assert_eq!(queue.status(), FetchStatus::Failed(not_found));
    assert_eq!(queue.in_flight(), 1);
    assert_eq!(queue.dispatch(), None);
    assert!(queue.complete(0, vec![1, 2, 3]));
    assert_eq!(queue.in_flight(), 0);
    assert_eq!(queue.status(), FetchStatus::Failed(not_found));
    assert_eq!(queue.finish(), Some(Err(not_found)));
}

#[test]
fn the_first_failure_is_the_one_reported() {
    let mut queue = FetchQueue::new(plan(2), 2);
    queue.dispatch();
    queue.dispatch();
    let first = ErrorCode::TaskJoin { leaf: 101 };
    let second = ErrorCode::RetriesExhausted { cause: IoErrorKind::TimedOut, attempts: 5 };
    assert!(queue.fail(1, first));
    assert!(queue.fail(0, second));
    assert_eq!(queue.finish(), Some(Err(first)));
    assert_eq!(first.kind(), ErrorKind::TaskScheduling);
    assert_eq!(second.kind(), ErrorKind::TransientIo);
    assert!(second.is_retryable());
}

#[test]
fn unexpected_reports_change_nothing() {
    let mut queue = FetchQueue::new(plan(2), 1);
    assert!(!queue.complete(0, vec![1]));
    assert!(!queue.fail(7, ErrorCode::TaskJoin { leaf: 0 }));
    queue.dispatch();
    assert!(queue.complete(0, vec![1]));
    assert!(!queue.complete(0, vec![2]));
    assert!(!queue.fail(0, ErrorCode::TaskJoin { leaf: 0 }));
    assert_eq!(queue.status(), FetchStatus::Running);
    assert_eq!(queue.finish(), None);
}
