use asterinas::error::Errno;
use asterinas::futex::op::{futex_op_and_flags_from_u32, FutexFlags, FutexOp};
use asterinas::futex::queue::{
    bucket_count, enqueue_if_unchanged, futex_requeue, futex_wait, futex_wait_bitset, futex_wake,
    futex_wake_bitset, FutexBucket, FutexBucketVec, FutexItem, FutexKey,
};

const ANY: u32 = 0xFFFF_FFFF;

fn wait(b: &mut FutexBucketVec, addr: usize, bitset: u32, waiter: u64) {
    enqueue_if_unchanged(b, FutexKey::new(addr), 1, 1, bitset, waiter).unwrap();
}

fn keys(b: &FutexBucketVec, i: usize) -> Vec<(usize, u64)> {
    b.vec[i].queue.iter().map(|item| (item.key.addr(), item.waiter)).collect()
}

#[test]
fn queues_are_counted_in_powers_of_two() {
    assert_eq!(bucket_count(0), 1);
    assert_eq!(bucket_count(1), 256);
    assert_eq!(bucket_count(3), 1024);
    assert_eq!(bucket_count(4), 1024);
}

#[test]
fn queue_of_a_futex() {
    let b = FutexBucketVec::new(4);
    assert_eq!(b.get_bucket(FutexKey::new(0)), 0);
    assert_eq!(b.get_bucket(FutexKey::new(16)), 1);
    assert_eq!(b.get_bucket(FutexKey::new(12)), 0);
    assert_eq!(b.get_bucket(FutexKey::new(64)), 0);
    assert_eq!(b.get_bucket(FutexKey::new(63)), 3);
}

#[test]
fn waiter_is_queued_if_the_value_stays() {
    let mut b = FutexBucketVec::new(4);
    futex_wait(&mut b, 16, 7, |_| 7, |_| 7, 100).unwrap();
    assert_eq!(keys(&b, 1), vec![(16, 100)]);
}

#[test]
fn waiter_is_refused_if_the_value_changed() {
    let mut b = FutexBucketVec::new(4);
    let e = futex_wait(&mut b, 16, 7, |_| 8, |_| panic!("loaded twice"), 100).unwrap_err();
    assert_eq!(e.error(), Errno::EAGAIN);
    let e = futex_wait_bitset(&mut b, 16, 7, |_| 7, |_| 9, 1, 100).unwrap_err();
    assert_eq!(e.error(), Errno::EAGAIN);
    assert!(e.msg.is_none());
    assert_eq!(keys(&b, 1), vec![]);
}

#[test]
fn wake_follows_wait() {
    let mut b = FutexBucketVec::new(4);
    futex_wait(&mut b, 16, 7, |addr| addr as i32 - 9, |_| 7, 100).unwrap();
    let mut woken = vec![1];
    assert_eq!(futex_wake(&mut b, 16, 5, &mut woken).unwrap(), 1);
    assert_eq!(woken, vec![1, 100]);
    assert_eq!(futex_wake(&mut b, 16, 5, &mut woken).unwrap(), 0);
}

#[test]
fn first_come_is_first_woken() {
    let mut b = FutexBucketVec::new(4);
    for (addr, waiter) in [(16, 1), (20, 2), (16, 3), (16, 4)] {
        wait(&mut b, addr, ANY, waiter);
    }
    let mut woken = Vec::new();
    assert_eq!(futex_wake(&mut b, 16, 2, &mut woken).unwrap(), 2);
    assert_eq!(woken, vec![1, 3]);
    assert_eq!(keys(&b, 1), vec![(20, 2), (16, 4)]);
}

#[test]
fn bits_tell_waiters_apart() {
    let mut b = FutexBucketVec::new(4);
    wait(&mut b, 16, 0b01, 1);
    wait(&mut b, 16, 0b10, 2);
    let mut woken = Vec::new();
    assert_eq!(futex_wake_bitset(&mut b, 16, 9, 0b110, &mut woken).unwrap(), 1);
    assert_eq!(woken, vec![2]);
    assert_eq!(futex_wake_bitset(&mut b, 16, 9, 0, &mut woken).unwrap(), 0);
}

#[test]
fn requeue_to_the_same_address_wakes() {
    let mut b = FutexBucketVec::new(4);
    wait(&mut b, 16, ANY, 1);
    wait(&mut b, 16, ANY, 2);
    let mut woken = Vec::new();
    assert_eq!(futex_requeue(&mut b, 16, 1, 5, 16, &mut woken).unwrap(), 1);
    assert_eq!(woken, vec![1]);
    assert_eq!(keys(&b, 1), vec![(16, 2)]);
}

#[test]
fn requeue_within_a_queue_keeps_places() {
    let mut b = FutexBucketVec::new(4);
    for (addr, waiter) in [(16, 1), (16, 2), (20, 3), (16, 4), (16, 5)] {
        wait(&mut b, addr, ANY, waiter);
    }
    let mut woken = Vec::new();
    assert_eq!(futex_requeue(&mut b, 16, 1, 2, 20, &mut woken).unwrap(), 1);
    assert_eq!(woken, vec![1]);
    assert_eq!(keys(&b, 1), vec![(20, 2), (20, 3), (20, 4), (16, 5)]);
}

#[test]
fn requeue_to_another_queue_goes_to_its_end() {
    let mut b = FutexBucketVec::new(4);
    for (addr, waiter) in [(16, 1), (32, 2), (16, 3), (16, 4), (20, 6)] {
        wait(&mut b, addr, ANY, waiter);
    }
    let mut woken = Vec::new();
    assert_eq!(futex_requeue(&mut b, 16, 1, 1, 32, &mut woken).unwrap(), 1);
    assert_eq!(woken, vec![1]);
    assert_eq!(keys(&b, 1), vec![(16, 4), (20, 6)]);
    assert_eq!(keys(&b, 2), vec![(32, 2), (32, 3)]);
    assert_eq!(futex_wake(&mut b, 32, 9, &mut woken).unwrap(), 2);
    assert_eq!(woken, vec![1, 2, 3]);
}

#[test]
fn requeue_to_a_lower_queue() {
    let mut b = FutexBucketVec::new(4);
    wait(&mut b, 48, ANY, 1);
    wait(&mut b, 48, ANY, 2);
    let mut woken = Vec::new();
    assert_eq!(futex_requeue(&mut b, 48, 0, 9, 16, &mut woken).unwrap(), 0);
    assert_eq!(keys(&b, 3), vec![]);
    assert_eq!(keys(&b, 1), vec![(16, 1), (16, 2)]);
}

#[test]
fn bucket_by_itself() {
    let mut bucket = FutexBucket::new();
    let mut item = FutexItem::new(FutexKey::new(8), ANY, 5);
    bucket.enqueue_item(item);
    item.rekey(FutexKey::new(12));
    bucket.enqueue_item(item);
    bucket.update_item_keys(FutexKey::new(8), FutexKey::new(4), 0);
    assert_eq!(bucket.queue[0].key.addr(), 8);
    bucket.update_item_keys(FutexKey::new(8), FutexKey::new(4), 1);
    assert_eq!(bucket.queue[0].key.addr(), 4);
    let mut other = FutexBucket::new();
    bucket.requeue_items_to_another_bucket(FutexKey::new(12), &mut other, FutexKey::new(8), 9);
    assert_eq!(bucket.queue.len(), 1);
    assert_eq!(other.queue[0].key.addr(), 8);
    let mut woken = Vec::new();
    assert_eq!(other.dequeue_and_wake_items(FutexKey::new(8), 0, ANY, &mut woken), 0);
    assert_eq!(other.dequeue_and_wake_items(FutexKey::new(8), 1, ANY, &mut woken), 1);
    assert_eq!(woken, vec![5]);
}

#[test]
fn operations_by_number() {
    assert_eq!(FutexOp::from_u32(0).unwrap(), FutexOp::FUTEX_WAIT);
    assert_eq!(FutexOp::from_u32(3).unwrap(), FutexOp::FUTEX_REQUEUE);
    assert_eq!(FutexOp::from_u32(10).unwrap(), FutexOp::FUTEX_WAKE_BITSET);
    let e = FutexOp::from_u32(11).unwrap_err();
    assert_eq!((e.error(), e.msg), (Errno::EINVAL, Some("Unknown futex op")));
}

#[test]
fn flags_by_bits() {
    assert_eq!(FutexFlags::from_u32(0).unwrap().bits, 0);
    assert_eq!(FutexFlags::from_u32(128 | 256).unwrap().bits, 384);
    let e = FutexFlags::from_u32(512).unwrap_err();
    assert_eq!((e.error(), e.msg), (Errno::EINVAL, Some("unknown futex flags")));
}

#[test]
fn operation_and_flags_are_parted() {
    let (op, flags) = futex_op_and_flags_from_u32(128 | 9).unwrap();
    assert_eq!((op, flags.bits), (FutexOp::FUTEX_WAIT_BITSET, 128));
    let e = futex_op_and_flags_from_u32(512 | 15).unwrap_err();
    assert_eq!(e.msg, Some("Unknown futex op"));
    let e = futex_op_and_flags_from_u32(512 | 1).unwrap_err();
    assert_eq!(e.msg, Some("unknown futex flags"));
}
