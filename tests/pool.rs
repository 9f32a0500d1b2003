use std::cell::RefCell;
use std::collections::HashSet;

use freelist::pool::{claim_next, Claim};
use freelist::Dump;

#[test]
fn single_thread_fill_and_empty() {
    let dump = Dump::new();
    for a in 1..=64usize {
        assert_eq!(dump.throw(a), Ok(()));
    }
    assert_eq!(dump.throw(65), Err(65));
    let mut seen = HashSet::new();
    for _ in 0..64 {
        let a = dump.recycle().expect("a held address");
        assert!((1..=64).contains(&a));
        assert!(seen.insert(a));
    }
    assert_eq!(dump.recycle(), None);
}

#[test]
fn take_from_empty_pool() {
    let dump = Dump::new();
    assert_eq!(dump.recycle(), None);
}

#[test]
fn take_hands_out_lowest_slot_first() {
    let dump = Dump::new();
    assert_eq!(dump.throw(10), Ok(()));
    assert_eq!(dump.throw(20), Ok(()));
    assert_eq!(dump.throw(30), Ok(()));
    assert_eq!(dump.recycle(), Some(10));
    assert_eq!(dump.throw(40), Ok(()));
    assert_eq!(dump.recycle(), Some(40));
    assert_eq!(dump.recycle(), Some(20));
    assert_eq!(dump.recycle(), Some(30));
    assert_eq!(dump.recycle(), None);
}

#[test]
fn no_double_hand_out() {
    let dump = Dump::new();
    assert_eq!(dump.throw(7), Ok(()));
    assert_eq!(dump.recycle(), Some(7));
    assert_eq!(dump.recycle(), None);
    assert_eq!(dump.throw(7), Ok(()));
    assert_eq!(dump.recycle(), Some(7));
}

#[test]
fn no_loss_behind_other_addresses() {
    let dump = Dump::new();
    for a in 100..110usize {
        assert_eq!(dump.throw(a), Ok(()));
    }
    let mut taken = Vec::new();
    for _ in 0..10 {
        taken.push(dump.recycle().unwrap());
    }
    assert!(taken.contains(&105));
}

#[test]
fn drain_snapshot() {
    let dump = Dump::new();
    for a in [0xa0usize, 0xb0, 0xc0] {
        assert_eq!(dump.throw(a), Ok(()));
    }
    let seen = RefCell::new(Vec::new());
    dump.clear(|a| seen.borrow_mut().push(a));
    let mut seen = seen.into_inner();
    seen.sort();
    assert_eq!(seen, vec![0xa0, 0xb0, 0xc0]);
    assert_eq!(dump.recycle(), None);
    assert_eq!(dump.throw(0xd0), Ok(()));
    assert_eq!(dump.recycle(), Some(0xd0));
}

#[test]
fn drain_of_full_pool_frees_every_slot() {
    let dump = Dump::new();
    for a in 0..64usize {
        assert_eq!(dump.throw(a), Ok(()));
    }
    let count = RefCell::new(0usize);
    dump.clear(|_| *count.borrow_mut() += 1);
    assert_eq!(count.into_inner(), 64);
    for a in 0..64usize {
        assert_eq!(dump.throw(a), Ok(()));
    }
    assert_eq!(dump.throw(64), Err(64));
}

#[test]
fn drain_of_empty_pool_calls_nothing() {
    let dump = Dump::new();
    let count = RefCell::new(0usize);
    dump.clear(|_| *count.borrow_mut() += 1);
    assert_eq!(count.into_inner(), 0);
}

#[test]
fn claim_steps() {
    assert_eq!(claim_next(Claim::Free, 0), Some(1));
    assert_eq!(claim_next(Claim::Free, 0b1011), Some(0b1111));
    assert_eq!(claim_next(Claim::Free, u64::MAX), None);
    assert_eq!(claim_next(Claim::Readable, 0), None);
    assert_eq!(claim_next(Claim::Readable, 0b1100), Some(0b1000));
    assert_eq!(claim_next(Claim::Readable, u64::MAX), Some(u64::MAX - 1));
}
