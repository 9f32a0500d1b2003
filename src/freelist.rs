//! A freelist of `N` pools, one per power-of-two block size.
use vstd::prelude::*;
use vstd::std_specs::bits::{axiom_u64_trailing_zeros, u64_trailing_zeros};

use crate::pool::Dump;

verus! {

/// Why a freelist operation could not be served.
#[derive(Clone, Copy, Debug, PartialEq, Eq, Structural)]
pub enum Error {
    /// The bucket for the requested size is full: the block cannot be stored.
    BucketFull,
    /// No bucket exists for the given size.
    BucketNotAvailable,
    /// The bucket for the requested size holds no block right now.
    BucketEmpty,
    /// The size is zero or not a power of two.
    SizeNotPowerOf2,
}

impl Error {
    /// A short description of the error.
    pub fn message(&self) -> (r: &'static str)
        ensures
            *self == Error::BucketFull ==> r@ == "bucket is full"@,
            *self == Error::BucketNotAvailable ==> r@ == "bucket not available"@,
            *self == Error::BucketEmpty ==> r@ == "bucket is empty"@,
            *self == Error::SizeNotPowerOf2 ==> r@ == "given size should be power of 2"@,
    {
        match self {
            Error::BucketFull => "bucket is full",
            Error::BucketNotAvailable => "bucket not available",
            Error::BucketEmpty => "bucket is empty",
            Error::SizeNotPowerOf2 => "given size should be power of 2",
        }
    }
}

/// `x` has exactly one bit set.
pub open spec fn is_pow2(x: u64) -> bool {
    x != 0 && x & vstd::prelude::sub(x, 1u64) == 0
}

/// The bucket that blocks of `size` bytes belong to in a freelist of `n`
/// buckets: bucket `p` holds blocks of `2^p` bytes.
pub open spec fn route(size: usize, n: usize) -> Result<int, Error> {
    if !is_pow2(size as u64) {
        Err(Error::SizeNotPowerOf2)
    } else if u64_trailing_zeros(size as u64) >= n {
        Err(Error::BucketNotAvailable)
    } else {
        Ok(u64_trailing_zeros(size as u64) as int)
    }
}

/// Finds the bucket for `size` among `n` buckets.
pub fn bucket_of(size: usize, n: usize) -> (r: Result<usize, Error>)
    ensures
        match r {
            Ok(p) => route(size, n) == Ok::<int, Error>(p as int),
            Err(e) => route(size, n) == Err::<int, Error>(e),
        },
{
    let s = size as u64;
    if s == 0 || s & (s - 1) != 0 {
        return Err(Error::SizeNotPowerOf2);
    }
    let power = s.trailing_zeros();
    if (power as usize) < n {
        Ok(power as usize)
    } else {
        Err(Error::BucketNotAvailable)
    }
}

/// `2^p` is a `usize` for every `p` below its bit width.
pub proof fn lemma_shift_fits(p: u64)
    requires
        p < usize::BITS,
    ensures
        p < 64,
        (1u64 << p) <= usize::MAX,
{
    if usize::BITS == 32 {
        assert((1u64 << p) <= 0xffff_ffffu64) by (bit_vector)
            requires
                p < 32,
        ;
    } else {
        assert((1u64 << p) <= 0xffff_ffff_ffff_ffffu64) by (bit_vector);
    }
}

/// Blocks of `2^p` bytes go to bucket `p` when it exists.
pub proof fn lemma_route_power(p: u64, n: usize)
    requires
        p < usize::BITS,
    ensures
        (1u64 << p) <= usize::MAX,
        is_pow2(1u64 << p),
        route((1u64 << p) as usize, n) == if p < n {
            Ok::<int, Error>(p as int)
        } else {
            Err::<int, Error>(Error::BucketNotAvailable)
        },
{
    lemma_shift_fits(p);
    let x = 1u64 << p;
    assert(x != 0 && x & vstd::prelude::sub(x, 1u64) == 0) by (bit_vector)
        requires
            x == 1u64 << p,
            p < 64,
    ;
    axiom_u64_trailing_zeros(x);
    let t = u64_trailing_zeros(x) as u64;
    assert(t == p) by {
        if t < p {
            assert((x >> t) & 1u64 == 1u64);
            assert((x >> t) & 1u64 == 0u64) by (bit_vector)
                requires
                    x == 1u64 << p,
                    t < p,
                    p < 64,
            ;
        } else if t > p {
            assert((x >> p) & 1u64 == 0u64);
            assert((x >> p) & 1u64 == 1u64) by (bit_vector)
                requires
                    x == 1u64 << p,
                    p < 64,
            ;
        }
    }
}

/// A freelist with `N` buckets; bucket `p` stores blocks of `2^p` bytes, up
/// to one pool's worth of addresses each.
pub struct FreeList<const N: usize> {
    buckets: Vec<Dump>,
}

impl<const N: usize> FreeList<N> {
    #[verifier::type_invariant]
    spec fn one_pool_per_bucket(self) -> bool {
        self.buckets.len() == N
    }

    /// A freelist with every bucket empty.
    pub fn new() -> (r: FreeList<N>)
        requires
            N <= 64,
    {
        let mut buckets: Vec<Dump> = Vec::new();
        let mut i: usize = 0;
        while i < N
            invariant
                i <= N,
                buckets.len() == i,
            decreases N - i,
        {
            buckets.push(Dump::new());
            i = i + 1;
        }
        FreeList { buckets }
    }

    /// Takes a block of `size` bytes from its bucket.
    ///
    /// Fails with `SizeNotPowerOf2` when `size` is not a power of two, with
    /// `BucketNotAvailable` when no bucket holds that size, and with
    /// `BucketEmpty` when the bucket had no block.
    pub fn recycle(&self, size: usize) -> (r: Result<usize, Error>)
        ensures
            route(size, N) is Err ==> r == Err::<usize, Error>(route(size, N)->Err_0),
            route(size, N) is Ok ==> (r is Ok || r == Err::<usize, Error>(Error::BucketEmpty)),
    {
        proof {
            use_type_invariant(self);
        }
        match bucket_of(size, N) {
            Err(e) => Err(e),
            Ok(power) => match self.buckets[power].recycle() {
                Some(addr) => Ok(addr),
                None => Err(Error::BucketEmpty),
            },
        }
    }

    /// Stores `addr` as a block of `size` bytes in its bucket.
    ///
    /// Fails with `SizeNotPowerOf2` when `size` is not a power of two, with
    /// `BucketNotAvailable` when no bucket holds that size, and with
    /// `BucketFull` when the bucket had no free slot.
    pub fn throw(&self, addr: usize, size: usize) -> (r: Result<(), Error>)
        ensures
            route(size, N) is Err ==> r == Err::<(), Error>(route(size, N)->Err_0),
            route(size, N) is Ok ==> (r is Ok || r == Err::<(), Error>(Error::BucketFull)),
    {
        proof {
            use_type_invariant(self);
        }
        match bucket_of(size, N) {
            Err(e) => Err(e),
            Ok(power) => match self.buckets[power].throw(addr) {
                Ok(()) => Ok(()),
                Err(_) => Err(Error::BucketFull),
            },
        }
    }

    /// Empties every bucket, calling `f(addr, p)` on each block taken out of
    /// bucket `p` (a block of `2^p` bytes).
    pub fn clear<F: Fn(usize, usize)>(&self, f: F)
        requires
            forall|a: usize, p: usize| f.requires((a, p)),
    {
        proof {
            use_type_invariant(self);
        }
        let mut idx: usize = 0;
        while idx < self.buckets.len()
            invariant
                forall|a: usize, p: usize| f.requires((a, p)),
            decreases self.buckets.len() - idx,
        {
            let bucket_idx = idx;
            self.buckets[idx].clear(|addr: usize| f(addr, bucket_idx));
            idx = idx + 1;
        }
    }

    /// Empties the bucket for blocks of `size` bytes, calling `f` on each
    /// block taken out of it.
    pub fn clear_bucket<F: Fn(usize)>(&self, size: usize, f: F) -> (r: Result<(), Error>)
        requires
            forall|a: usize| f.requires((a,)),
        ensures
            route(size, N) is Err ==> r == Err::<(), Error>(route(size, N)->Err_0),
            route(size, N) is Ok ==> r == Ok::<(), Error>(()),
    {
        proof {
            use_type_invariant(self);
        }
        match bucket_of(size, N) {
            Err(e) => Err(e),
            Ok(power) => {
                self.buckets[power].clear(f);
                Ok(())
            },
        }
    }
}

} // verus!
