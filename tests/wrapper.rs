use std::cell::RefCell;

use freelist::tracker::{next_pow2, recyclable, serve};
use freelist::{Error, FreeList, Tracker};

#[test]
fn wrapper_fallback() {
    let list: FreeList<11> = FreeList::new();
    let mut tracker: Tracker<11> = Tracker::new();
    let calls = RefCell::new(Vec::new());
    let a = tracker.calloc(&list, 1, 1000, |n, s| {
        calls.borrow_mut().push((n, s));
        0x5000
    });
    assert_eq!(a, 0x5000);
    assert_eq!(calls.borrow().clone(), vec![(1, 1024)]);
    let freed = RefCell::new(Vec::new());
    tracker.free(&list, a, |p| freed.borrow_mut().push(p));
    assert!(freed.borrow().is_empty());
    let b = tracker.calloc(&list, 1, 1000, |n, s| {
        calls.borrow_mut().push((n, s));
        0x6000
    });
    assert_eq!(b, 0x5000);
    assert_eq!(calls.borrow().len(), 1);
}

#[test]
fn wrapper_identity_round_trip() {
    let list: FreeList<11> = FreeList::new();
    let mut tracker: Tracker<11> = Tracker::new();
    let a = tracker.calloc(&list, 4, 16, |_, _| 0x7000);
    tracker.free(&list, a, |_| panic!("a recorded block goes back to the freelist"));
    let b = tracker.calloc(&list, 4, 16, |_, _| 0x8000);
    assert_eq!(b, a);
}

#[test]
fn cross_thread_non_reuse() {
    let list: FreeList<11> = FreeList::new();
    let mut thread_a: Tracker<11> = Tracker::new();
    let mut thread_b: Tracker<11> = Tracker::new();
    let a = thread_a.calloc(&list, 1, 64, |_, _| 0x9000);
    let freed = RefCell::new(Vec::new());
    thread_b.free(&list, a, |p| freed.borrow_mut().push(p));
    assert_eq!(freed.into_inner(), vec![0x9000]);
    assert_eq!(list.recycle(64), Err(Error::BucketEmpty));
}

#[test]
fn oversized_request_is_forwarded() {
    let list: FreeList<11> = FreeList::new();
    let mut tracker: Tracker<11> = Tracker::new();
    let calls = RefCell::new(Vec::new());
    let a = tracker.calloc(&list, 3, 1000, |n, s| {
        calls.borrow_mut().push((n, s));
        0xa000
    });
    assert_eq!(a, 0xa000);
    assert_eq!(calls.into_inner(), vec![(3, 1000)]);
    let freed = RefCell::new(Vec::new());
    tracker.free(&list, a, |p| freed.borrow_mut().push(p));
    assert_eq!(freed.into_inner(), vec![0xa000]);
}

#[test]
fn overflowing_request_is_forwarded() {
    let list: FreeList<11> = FreeList::new();
    let mut tracker: Tracker<11> = Tracker::new();
    let calls = RefCell::new(Vec::new());
    let a = tracker.calloc(&list, usize::MAX, 2, |n, s| {
        calls.borrow_mut().push((n, s));
        0
    });
    assert_eq!(a, 0);
    assert_eq!(calls.into_inner(), vec![(usize::MAX, 2)]);
}

#[test]
fn full_bucket_frees_through_host() {
    let list: FreeList<11> = FreeList::new();
    for a in 0..64usize {
        assert_eq!(list.throw(0x100 + a, 32), Ok(()));
    }
    let mut tracker: Tracker<11> = Tracker::new();
    let a = tracker.calloc(&list, 1, 32, |_, _| 0xb000);
    assert_eq!(a, 0x100);
    assert_eq!(list.throw(0xc000, 32), Ok(()));
    let freed = RefCell::new(Vec::new());
    tracker.free(&list, a, |p| freed.borrow_mut().push(p));
    assert_eq!(freed.borrow().clone(), vec![0x100]);
    tracker.free(&list, a, |p| freed.borrow_mut().push(p));
    assert_eq!(freed.into_inner(), vec![0x100, 0x100]);
}

#[test]
fn rounding_up() {
    assert_eq!(next_pow2(0), Some(1));
    assert_eq!(next_pow2(1), Some(1));
    assert_eq!(next_pow2(3), Some(4));
    assert_eq!(next_pow2(1000), Some(1024));
    assert_eq!(next_pow2(1024), Some(1024));
    assert_eq!(next_pow2((1usize << 63) + 1), None);
    assert_eq!(next_pow2(1usize << 63), Some(1usize << 63));
}

#[test]
fn recyclable_sizes() {
    assert_eq!(recyclable(1, 1000, 11), Some(1024));
    assert_eq!(recyclable(0, 8, 11), Some(1));
    assert_eq!(recyclable(3, 1000, 11), None);
    assert_eq!(recyclable(usize::MAX, 2, 11), None);
}

#[test]
fn serve_takes_hit_without_host() {
    let r = serve(Ok(0x1234), 64, |_, _| panic!("a hit asks no host"));
    assert_eq!(r, 0x1234);
}

#[test]
fn serve_asks_host_for_rounded_size_on_miss() {
    let calls = RefCell::new(Vec::new());
    let r = serve(Err(Error::BucketEmpty), 1024, |n, s| {
        calls.borrow_mut().push((n, s));
        0x4400
    });
    assert_eq!(r, 0x4400);
    assert_eq!(calls.into_inner(), vec![(1, 1024)]);
    assert_eq!(serve(Err(Error::BucketEmpty), 8, |_, _| 0), 0);
}

#[test]
fn after_deposit_keeps_record_when_stored() {
    let list: FreeList<11> = FreeList::new();
    let mut tracker: Tracker<11> = Tracker::new();
    let a = tracker.calloc(&list, 1, 8, |_, _| 0xd000);
    tracker.after_deposit(a, Ok(()), |_| panic!("a stored block is not freed"));
    assert_eq!(list.throw(a, 8), Ok(()));
    tracker.free(&list, 0xd000, |_| panic!("still recorded"));
}

#[test]
fn after_deposit_drops_record_when_refused() {
    let list: FreeList<11> = FreeList::new();
    let mut tracker: Tracker<11> = Tracker::new();
    let a = tracker.calloc(&list, 1, 8, |_, _| 0xe000);
    let freed = RefCell::new(Vec::new());
    tracker.after_deposit(a, Err(Error::BucketFull), |p| freed.borrow_mut().push(p));
    assert_eq!(freed.borrow().clone(), vec![0xe000]);
    tracker.free(&list, a, |p| freed.borrow_mut().push(p));
    assert_eq!(freed.into_inner(), vec![0xe000, 0xe000]);
    assert_eq!(list.recycle(8), Err(Error::BucketEmpty));
}
