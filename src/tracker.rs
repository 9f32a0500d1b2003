//! Allocation wrapper logic: rounds requests to a power of two, serves them
//! from a freelist when it can, and remembers the size of each block it
//! handed out so that a returned address can go back to its bucket.
use std::collections::HashMap;
use vstd::arithmetic::power2::{
    lemma2_to64, lemma_pow2_strictly_increases, lemma_pow2_unfold, pow2,
};
use vstd::prelude::*;

use crate::freelist::{bucket_of, route, Error, FreeList};

verus! {

broadcast use vstd::std_specs::hash::group_hash_axioms;

/// The least `2^j` with `k <= j <= 64` that is at least `x`.
pub open spec fn pow2_at_least(x: int, k: nat) -> nat
    decreases 64 - k,
{
    if k >= 64 || x <= pow2(k) {
        pow2(k)
    } else {
        pow2_at_least(x, k + 1)
    }
}

/// The least power of two that is at least `x` (`2^64` past the last one
/// below it).
pub open spec fn round_up_pow2(x: int) -> nat {
    pow2_at_least(x, 0)
}

proof fn lemma_at_least_grows(x: int, k: nat)
    ensures
        pow2_at_least(x, k) >= pow2(k),
    decreases 64 - k,
{
    if !(k >= 64 || x <= pow2(k)) {
        lemma_at_least_grows(x, k + 1);
        lemma_pow2_strictly_increases(k, k + 1);
    }
}

/// The least power of two that is at least `x`, or `None` when it does not
/// fit in a `usize`. Zero rounds up to one.
pub fn next_pow2(x: usize) -> (r: Option<usize>)
    ensures
        r == if round_up_pow2(x as int) <= usize::MAX {
            Some(round_up_pow2(x as int) as usize)
        } else {
            None::<usize>
        },
{
    let mut p: usize = 1;
    let ghost mut k: nat = 0;
    proof {
        lemma2_to64();
    }
    while p < x
        invariant
            p == pow2(k),
            p >= 1,
            k < 64,
            pow2_at_least(x as int, k) == round_up_pow2(x as int),
        decreases 64 - k,
    {
        proof {
            lemma_pow2_unfold(k + 1);
        }
        if p > usize::MAX / 2 {
            proof {
                lemma_at_least_grows(x as int, k + 1);
            }
            return None;
        }
        p = p * 2;
        proof {
            k = k + 1;
            lemma2_to64();
            if k >= 64 {
                lemma_pow2_strictly_increases(63, k);
            }
        }
    }
    Some(p)
}

/// The size at which a request for `nmemb` blocks of `size` bytes is served
/// from, and returned to, a freelist of `n` buckets: the product rounded up
/// to a power of two, when it has a bucket there.
pub open spec fn recyclable_size(nmemb: usize, size: usize, n: usize) -> Option<usize> {
    let total = nmemb * size;
    let rounded = round_up_pow2(total);
    if total <= usize::MAX && rounded <= usize::MAX && route(rounded as usize, n) is Ok {
        Some(rounded as usize)
    } else {
        None
    }
}

/// The rounded size of a request for `nmemb` blocks of `size` bytes, when
/// it has a bucket among `n`.
pub fn recyclable(nmemb: usize, size: usize, n: usize) -> (r: Option<usize>)
    ensures
        r == recyclable_size(nmemb, size, n),
{
    match nmemb.checked_mul(size) {
        None => None,
        Some(total) => match next_pow2(total) {
            None => None,
            Some(rounded) => match bucket_of(rounded, n) {
                Ok(_) => Some(rounded),
                Err(_) => None,
            },
        },
    }
}

/// The block that serves a request of rounded size `s`, given what its
/// bucket answered: the bucket's block on a hit, else a block of `s` bytes
/// from `underlying(1, s)`.
pub fn serve<F: FnOnce(usize, usize) -> usize>(
    recycled: Result<usize, Error>,
    s: usize,
    underlying: F,
) -> (r: usize)
    requires
        underlying.requires((1usize, s)),
    ensures
        recycled is Ok ==> r == recycled->Ok_0,
        recycled is Err ==> underlying.ensures((1usize, s), r),
{
    match recycled {
        Ok(addr) => addr,
        Err(_) => underlying(1, s),
    }
}

/// The sizes of the blocks one thread has handed out through a freelist of
/// `N` buckets, by address.
pub struct Tracker<const N: usize> {
    sizes: HashMap<usize, usize>,
}

impl<const N: usize> View for Tracker<N> {
    type V = Map<usize, usize>;

    closed spec fn view(&self) -> Map<usize, usize> {
        self.sizes@
    }
}

impl<const N: usize> Tracker<N> {
    /// A tracker that knows no address.
    pub fn new() -> (r: Tracker<N>)
        ensures
            r@ == Map::<usize, usize>::empty(),
    {
        Tracker { sizes: HashMap::new() }
    }

    /// Serves a request for `nmemb` blocks of `size` bytes.
    ///
    /// When the rounded size `s` has a bucket, the block comes from that
    /// bucket, or else from `underlying(1, s)`, and its address is recorded
    /// with size `s`. Otherwise `underlying(nmemb, size)` serves it and
    /// nothing is recorded. `underlying` is expected to allocate exactly
    /// what it is asked for. What the bucket answers depends on other
    /// threads; [`serve`] states the result for each answer.
    pub fn calloc<F: FnOnce(usize, usize) -> usize>(
        &mut self,
        list: &FreeList<N>,
        nmemb: usize,
        size: usize,
        underlying: F,
    ) -> (r: usize)
        requires
            forall|m: usize, s: usize| underlying.requires((m, s)),
        ensures
            match recyclable_size(nmemb, size, N) {
                Some(s) => final(self)@ == old(self)@.insert(r, s),
                None => final(self)@ == old(self)@ && underlying.ensures((nmemb, size), r),
            },
    {
        match recyclable(nmemb, size, N) {
            None => underlying(nmemb, size),
            Some(rounded) => {
                let addr = serve(list.recycle(rounded), rounded, underlying);
                self.record(addr, rounded);
                addr
            },
        }
    }

    fn record(&mut self, addr: usize, size: usize)
        ensures
            final(self)@ == old(self)@.insert(addr, size),
    {
        self.sizes.insert(addr, size);
    }

    /// Returns the block at `ptr`.
    ///
    /// A recorded block goes back to its bucket and stays recorded; when
    /// the bucket is full its record is dropped and `underlying(ptr)` frees
    /// it. A block with no record is freed by `underlying(ptr)`. What the
    /// bucket answers depends on other threads; [`Tracker::after_deposit`]
    /// states the outcome for each answer.
    pub fn free<F: FnOnce(usize)>(&mut self, list: &FreeList<N>, ptr: usize, underlying: F)
        requires
            forall|p: usize| underlying.requires((p,)),
        ensures
            !old(self)@.contains_key(ptr) ==> final(self)@ == old(self)@ && underlying.ensures(
                (ptr,),
                (),
            ),
            old(self)@.contains_key(ptr) ==> final(self)@ == old(self)@ || (final(self)@ == old(
                self,
            )@.remove(ptr) && underlying.ensures((ptr,), ())),
    {
        let size = match self.sizes.get(&ptr) {
            None => {
                underlying(ptr);
                return ;
            },
            Some(s) => *s,
        };
        self.after_deposit(ptr, list.throw(ptr, size), underlying);
    }

    /// Finishes returning the recorded block at `ptr`, given what its bucket
    /// answered: a stored block stays recorded; a refused one loses its
    /// record and is freed by `underlying(ptr)`.
    pub fn after_deposit<F: FnOnce(usize)>(
        &mut self,
        ptr: usize,
        deposited: Result<(), Error>,
        underlying: F,
    )
        requires
            underlying.requires((ptr,)),
        ensures
            deposited is Ok ==> final(self)@ == old(self)@,
            deposited is Err ==> final(self)@ == old(self)@.remove(ptr) && underlying.ensures(
                (ptr,),
                (),
            ),
    {
        match deposited {
            Ok(()) => {},
            Err(_) => {
                self.forget(ptr);
                underlying(ptr);
            },
        }
    }

    fn forget(&mut self, addr: usize)
        ensures
            final(self)@ == old(self)@.remove(addr),
    {
        self.sizes.remove(&addr);
    }
}

} // verus!
