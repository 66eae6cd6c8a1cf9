use ktann::api::error::Error;
use ktann::api::identifiers::{LogicalIndexId, PartitionKey};
use ktann::observe::labels::FixupAdmission;
use ktann::runtime::queue::{FixupKey, FixupQueue};

fn ok<T>(result: Result<T, Error>) -> T {
    match result {
        Ok(value) => value,
        Err(error) => panic!("{}", error.describe()),
    }
}

const MANIFEST: u64 = 1;

fn key(bucket: u8, partition: u64) -> FixupKey {
    FixupKey {
        index: ok(LogicalIndexId::new(1)),
        tree_key: vec![bucket],
        partition: ok(PartitionKey::new(partition)),
    }
}

#[test]
fn duplicate_offers_coalesce_while_pending() {
    let mut queue = FixupQueue::new(4);
    assert_eq!(queue.offer(key(1, 1), MANIFEST), FixupAdmission::Enqueued);
    assert_eq!(queue.offer(key(1, 1), MANIFEST), FixupAdmission::Duplicate);
    assert_eq!(queue.pending_len(), 1);
    assert_eq!(queue.stats().enqueued, 1);
    assert_eq!(queue.stats().duplicate, 1);
    assert_eq!(queue.offer(key(1, 2), MANIFEST), FixupAdmission::Enqueued);
    assert_eq!(queue.offer(key(2, 1), MANIFEST), FixupAdmission::Enqueued);
    assert_eq!(queue.pending_len(), 3);
}

#[test]
fn saturation_drops_offers_and_running_slots_count() {
    let mut queue = FixupQueue::new(2);
    assert_eq!(queue.offer(key(1, 1), MANIFEST), FixupAdmission::Enqueued);
    assert_eq!(queue.offer(key(1, 2), MANIFEST), FixupAdmission::Enqueued);
    assert_eq!(queue.offer(key(1, 3), MANIFEST), FixupAdmission::Saturated);
    assert_eq!(queue.stats().saturated, 1);

    let first = queue.pop().expect("one pending offer");
    assert_eq!(queue.running(), 1);
    assert_eq!(queue.offer(key(1, 3), MANIFEST), FixupAdmission::Saturated);
    assert_eq!(queue.offer(key(1, 1), MANIFEST), FixupAdmission::Duplicate);

    queue.finish(&first.key);
    assert_eq!(queue.running(), 0);
    assert_eq!(queue.admitted_len(), 1);
    assert_eq!(queue.offer(key(1, 3), MANIFEST), FixupAdmission::Enqueued);
    let second = queue.pop().expect("pending offer");
    assert_eq!(second.key.partition.get(), 2);
    let third = queue.pop().expect("pending offer");
    assert_eq!(third.key.partition.get(), 3);
    queue.finish(&second.key);
    queue.finish(&third.key);
    assert_eq!(queue.admitted_len(), 0);
}

#[test]
fn pop_is_fifo_and_drain_keeps_running() {
    let mut queue = FixupQueue::new(4);
    for partition in 1..=3_u64 {
        assert_eq!(
            queue.offer(key(1, partition), MANIFEST),
            FixupAdmission::Enqueued
        );
    }
    let first = queue.pop().expect("first pending");
    assert_eq!(first.key.partition.get(), 1);
    queue.drain_pending();
    assert_eq!(queue.pending_len(), 0);
    assert_eq!(queue.running(), 1);
    assert_eq!(queue.admitted_len(), 1);
    assert!(queue.pop().is_none());
    queue.finish(&first.key);
    assert_eq!(queue.admitted_len(), 0);
    assert_eq!(queue.running(), 0);
}
