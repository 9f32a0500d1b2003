//! The slot pool: a fixed number of address slots shared between threads
//! without locks, coordinated by a writer bitmap and a reader bitmap.
use std::sync::atomic::{AtomicU64, AtomicUsize, Ordering};
use vstd::prelude::*;
use vstd::std_specs::bits::{u64_trailing_ones, u64_trailing_zeros};

use crate::bits::{lowest_clear, lowest_set, positions, single_bit, SLOTS};

verus! {

/// Which bitmap a claim is made on.
#[derive(Clone, Copy, Debug, PartialEq, Eq, Structural)]
pub enum Claim {
    /// Claim the lowest clear bit of the writer bitmap, for an insertion.
    Free,
    /// Claim the lowest set bit of the reader bitmap, for a removal.
    Readable,
}

/// The bitmap that follows a successful claim on `w`, or `None` when there
/// is nothing to claim.
pub open spec fn claim_spec(kind: Claim, w: u64) -> Option<u64> {
    match kind {
        Claim::Free => if w == u64::MAX {
            None
        } else {
            Some(w | (1u64 << u64_trailing_ones(w)))
        },
        Claim::Readable => if w == 0 {
            None
        } else {
            Some(w & !(1u64 << u64_trailing_zeros(w)))
        },
    }
}

/// One claim step: occupy the lowest clear bit, or release the lowest set bit.
pub fn claim_next(kind: Claim, w: u64) -> (r: Option<u64>)
    ensures
        r == claim_spec(kind, w),
{
    match kind {
        Claim::Free => {
            let i = lowest_clear(w);
            if i == SLOTS {
                None
            } else {
                Some(w | single_bit(i))
            }
        },
        Claim::Readable => {
            let i = lowest_set(w);
            if i == SLOTS {
                None
            } else {
                Some(w & !single_bit(i))
            }
        },
    }
}

/// Relies on `AtomicU64::fetch_update`: it retries a compare-exchange until the
/// closure's result is installed, returning `Ok` of the value it replaced, or
/// stops when the closure returns `None`, returning `Err` of the value last read.
#[verifier::external_body]
fn claim_atomically(bitmap: &AtomicU64, kind: Claim, success: Ordering) -> (r: Result<u64, u64>)
    ensures
        match r {
            Ok(prev) => claim_spec(kind, prev) is Some,
            Err(prev) => claim_spec(kind, prev) is None,
        },
{
    bitmap.fetch_update(success, Ordering::Relaxed, |w| claim_next(kind, w))
}

/// A pool of `SLOTS` addresses.
///
/// Bit `i` of the writer bitmap is set while slot `i` is owned by a writer
/// or holds an address; bit `i` of the reader bitmap is set while slot `i`
/// holds a published address that no reader has claimed yet.
pub struct Dump {
    reader_bitmap: AtomicU64,
    writer_bitmap: AtomicU64,
    dump: Vec<AtomicUsize>,
}

impl Dump {
    #[verifier::type_invariant]
    spec fn slots_allocated(self) -> bool {
        self.dump.len() == SLOTS
    }

    /// An empty pool.
    pub fn new() -> (r: Dump) {
        let mut dump: Vec<AtomicUsize> = Vec::new();
        let mut i: u32 = 0;
        while i < SLOTS
            invariant
                i <= SLOTS,
                dump.len() == i,
            decreases SLOTS - i,
        {
            dump.push(AtomicUsize::new(0));
            i = i + 1;
        }
        Dump { reader_bitmap: AtomicU64::new(0), writer_bitmap: AtomicU64::new(0), dump }
    }

    /// Stores `raw` in a free slot. Returns `raw` back when every slot was
    /// owned by a writer at the moment of the claim.
    ///
    /// The lowest free slot is claimed in the writer bitmap, the address is
    /// written into it, and the same bit is then set in the reader bitmap
    /// with release ordering, which publishes the address to readers.
    pub fn throw(&self, raw: usize) -> (r: Result<(), usize>)
        ensures
            r == Ok::<(), usize>(()) || r == Err::<(), usize>(raw),
    {
        proof {
            use_type_invariant(self);
        }
        match claim_atomically(&self.writer_bitmap, Claim::Free, Ordering::Relaxed) {
            Err(_) => Err(raw),
            Ok(prev) => {
                let spot = lowest_clear(prev);
                self.dump[spot as usize].store(raw, Ordering::Relaxed);
                self.reader_bitmap.fetch_or(single_bit(spot), Ordering::Release);
                Ok(())
            },
        }
    }

    /// Takes a published address out of the pool, or `None` when no slot held
    /// one at the moment of the claim.
    ///
    /// The lowest readable slot is claimed in the reader bitmap with acquire
    /// ordering, its address is read, and the slot is then handed back to
    /// writers by clearing its bit in the writer bitmap.
    pub fn recycle(&self) -> (r: Option<usize>) {
        proof {
            use_type_invariant(self);
        }
        match claim_atomically(&self.reader_bitmap, Claim::Readable, Ordering::Acquire) {
            Err(_) => None,
            Ok(prev) => {
                let spot = lowest_set(prev);
                let addr = self.dump[spot as usize].load(Ordering::Relaxed);
                self.writer_bitmap.fetch_and(!single_bit(spot), Ordering::Relaxed);
                Some(addr)
            },
        }
    }

    /// Empties the pool, calling `f` once on each address that was readable
    /// when the reader bitmap was swapped to zero.
    pub fn clear<F: Fn(usize)>(&self, f: F)
        requires
            forall|a: usize| f.requires((a,)),
    {
        proof {
            use_type_invariant(self);
        }
        let snapshot = self.reader_bitmap.swap(0, Ordering::Acquire);
        if snapshot == 0 {
            return ;
        }
        let spots = positions(snapshot);
        let mut k: usize = 0;
        while k < spots.len()
            invariant
                self.dump.len() == SLOTS,
                forall|a: usize| f.requires((a,)),
                forall|j: int| 0 <= j < spots.len() ==> spots[j] < SLOTS,
            decreases spots.len() - k,
        {
            let addr = self.dump[spots[k] as usize].load(Ordering::Relaxed);
            f(addr);
            k = k + 1;
        }
        self.writer_bitmap.fetch_and(!snapshot, Ordering::Relaxed);
    }
}

} // verus!
