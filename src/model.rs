//! The slot pool's protocol as a state machine over its two bitmaps and its
//! slots, and the laws it obeys when operations do not overlap.
//!
//! Each transition is written to match one operation of [`Dump`] run to
//! completion with no other operation in flight: the claim is
//! [`claim_spec`], which `Dump` is proved to apply, and the other steps are
//! the `fetch_or`, `fetch_and` and `swap` that `Dump` performs. That match
//! holds by reading the two side by side only: vstd gives std atomics no
//! values, so no contract of `Dump` can refer to this model.
//!
//! [`Dump`]: crate::pool::Dump
use vstd::prelude::*;
use vstd::std_specs::bits::{
    axiom_u64_trailing_ones, axiom_u64_trailing_zeros, u64_trailing_ones, u64_trailing_zeros,
};

use crate::bits::{
    bits_of, has_bit, lemma_bits_bounded, lemma_full_and_empty, lemma_with_bit, lemma_without_bit,
};
use crate::freelist::{is_pow2, lemma_route_power, route, Error};
use crate::pool::{claim_spec, Claim};
use crate::tracker::recyclable_size;

verus! {

/// The bitmaps and slots of one pool.
pub struct PoolState {
    pub reader: u64,
    pub writer: u64,
    pub slots: Seq<usize>,
}

impl PoolState {
    /// A pool with no slot in use.
    pub open spec fn empty() -> PoolState {
        PoolState { reader: 0, writer: 0, slots: Seq::new(64, |i: int| 0usize) }
    }

    /// No operation is in flight: every slot owned by a writer holds a
    /// published address.
    pub open spec fn settled(self) -> bool {
        self.slots.len() == 64 && self.reader == self.writer
    }

    /// The published addresses, by slot.
    pub open spec fn held(self) -> Map<int, usize> {
        Map::new(|i: int| bits_of(self.reader).contains(i), |i: int| self.slots[i])
    }

    /// An insertion: claim the lowest free slot, write `a` into it, publish it.
    pub open spec fn insert(self, a: usize) -> Option<PoolState> {
        match claim_spec(Claim::Free, self.writer) {
            None => None,
            Some(writer) => {
                let i = u64_trailing_ones(self.writer);
                Some(
                    PoolState {
                        reader: self.reader | (1u64 << i),
                        writer,
                        slots: self.slots.update(i as int, a),
                    },
                )
            },
        }
    }

    /// A removal: claim the lowest readable slot, read it, free it for writers.
    pub open spec fn take(self) -> Option<(PoolState, usize)> {
        match claim_spec(Claim::Readable, self.reader) {
            None => None,
            Some(reader) => {
                let i = u64_trailing_zeros(self.reader);
                Some(
                    (
                        PoolState {
                            reader,
                            writer: self.writer & !(1u64 << i),
                            slots: self.slots,
                        },
                        self.slots[i as int],
                    ),
                )
            },
        }
    }

    /// A drain: swap the reader bitmap to zero, then free every slot that it held.
    pub open spec fn drain(self) -> PoolState {
        PoolState { reader: 0, writer: self.writer & !self.reader, slots: self.slots }
    }

    /// The addresses handed out by up to `k` successive removals.
    pub open spec fn takes(self, k: nat) -> Seq<usize>
        decreases k,
    {
        if k == 0 {
            Seq::empty()
        } else {
            match self.take() {
                None => Seq::empty(),
                Some((next, a)) => seq![a].add(next.takes((k - 1) as nat)),
            }
        }
    }
}

/// The empty pool is settled and holds nothing.
pub proof fn lemma_empty()
    ensures
        PoolState::empty().settled(),
        PoolState::empty().held() == Map::<int, usize>::empty(),
{
    lemma_full_and_empty();
    assert(PoolState::empty().held() =~= Map::<int, usize>::empty());
}

/// A settled pool holds at most one address per slot, and an insertion
/// fails exactly when every slot holds one.
pub proof fn lemma_capacity(s: PoolState, a: usize)
    requires
        s.settled(),
    ensures
        s.held().dom().finite(),
        s.held().dom().len() <= 64,
        s.insert(a) is None <==> s.held().dom() == vstd::set_lib::set_int_range(0, 64),
{
    lemma_bits_bounded(s.reader);
    lemma_full_and_empty();
    assert(s.held().dom() =~= bits_of(s.reader));
    axiom_u64_trailing_ones(s.writer);
    if s.writer != u64::MAX {
        let i = u64_trailing_ones(s.writer) as int;
        assert(!has_bit(s.writer, i));
        assert(!s.held().dom().contains(i));
    }
}

/// A successful insertion keeps the pool settled and adds `a` in a slot
/// that held nothing.
pub proof fn lemma_insert(s: PoolState, a: usize)
    requires
        s.settled(),
    ensures
        s.insert(a) matches Some(t) ==> {
            let i = u64_trailing_ones(s.writer) as int;
            &&& t.settled()
            &&& !s.held().dom().contains(i)
            &&& t.held() == s.held().insert(i, a)
        },
{
    axiom_u64_trailing_ones(s.writer);
    if let Some(t) = s.insert(a) {
        let i = u64_trailing_ones(s.writer);
        lemma_with_bit(s.reader, i as u64);
        assert(!has_bit(s.writer, i as int));
        assert(t.held() =~= s.held().insert(i as int, a));
    }
}

/// A removal from a settled pool fails exactly when it holds nothing;
/// otherwise it hands out the address of its lowest held slot and that slot
/// is no longer held.
pub proof fn lemma_take(s: PoolState)
    requires
        s.settled(),
    ensures
        s.take() is None <==> s.held().dom().is_empty(),
        s.take() matches Some((t, a)) ==> {
            let i = u64_trailing_zeros(s.reader) as int;
            &&& t.settled()
            &&& s.held().dom().contains(i)
            &&& a == s.held()[i]
            &&& t.held() == s.held().remove(i)
            &&& forall|j: int| #[trigger] s.held().dom().contains(j) ==> i <= j
        },
{
    axiom_u64_trailing_zeros(s.reader);
    lemma_full_and_empty();
    if s.reader == 0 {
        assert(s.held().dom() =~= Set::<int>::empty());
    } else {
        let i = u64_trailing_zeros(s.reader);
        assert(has_bit(s.reader, i as int));
        assert(s.held().dom().contains(i as int));
        let (t, a) = s.take().unwrap();
        lemma_without_bit(s.reader, i as u64);
        assert(t.held() =~= s.held().remove(i as int));
        assert forall|j: int| #[trigger] s.held().dom().contains(j) implies i <= j by {
            if j < i {
                assert((s.reader >> (j as u64)) & 1u64 == 0u64);
            }
        }
    }
}

/// No double hand-out: once a removal hands out an address that the pool
/// held in one slot only, the pool no longer holds it.
pub proof fn lemma_no_double_hand_out(s: PoolState)
    requires
        s.settled(),
        s.take() is Some,
        forall|i: int, j: int|
            s.held().dom().contains(i) && s.held().dom().contains(j) && s.held()[i] == s.held()[j]
                ==> i == j,
    ensures
        s.take() matches Some((t, a)) ==> !t.held().values().contains(a),
{
    lemma_take(s);
    let (t, a) = s.take().unwrap();
    let i = u64_trailing_zeros(s.reader) as int;
    if t.held().values().contains(a) {
        let j = choose|j: int| t.held().dom().contains(j) && t.held()[j] == a;
        assert(s.held().dom().contains(j) && j != i);
    }
}

/// No loss: an address held in a settled pool is handed out by one of the
/// next `k` removals, for any `k` at least the number of held addresses.
pub proof fn lemma_no_loss(s: PoolState, i: int, k: nat)
    requires
        s.settled(),
        s.held().dom().contains(i),
        k >= s.held().dom().len(),
    ensures
        s.takes(k).contains(s.held()[i]),
    decreases k,
{
    lemma_bits_bounded(s.reader);
    assert(s.held().dom() =~= bits_of(s.reader));
    lemma_take(s);
    let (t, a) = s.take().unwrap();
    let j = u64_trailing_zeros(s.reader) as int;
    if k == 0 {
        vstd::set::axiom_set_contains_len(s.held().dom(), i);
    }
    if j == i {
        assert(s.takes(k)[0] == a);
    } else {
        vstd::set::axiom_set_remove_len(s.held().dom(), j);
        assert(t.held().dom() == s.held().dom().remove(j));
        lemma_no_loss(t, i, (k - 1) as nat);
        let rest = t.takes((k - 1) as nat);
        let w = choose|w: int| 0 <= w < rest.len() && rest[w] == s.held()[i];
        assert(s.takes(k)[w + 1] == s.held()[i]);
    }
}

/// Drain completeness: a drain leaves a settled pool empty, with every slot
/// free for writers; the slots it hands to the callback are exactly those
/// that were held.
pub proof fn lemma_drain(s: PoolState)
    requires
        s.settled(),
    ensures
        s.drain().settled(),
        s.drain().writer == 0,
        s.drain().held() == Map::<int, usize>::empty(),
        s.held().dom() == bits_of(s.reader),
{
    lemma_full_and_empty();
    let w = s.writer;
    assert(w & !w == 0) by (bit_vector);
    assert(s.drain().held() =~= Map::<int, usize>::empty());
    assert(s.held().dom() =~= bits_of(s.reader));
}

/// An address inserted into an empty pool is the next one handed out.
pub proof fn lemma_insert_then_take(a: usize)
    ensures
        PoolState::empty().insert(a) matches Some(t) && t.take() matches Some((u, b)) && b == a
            && u.held() == Map::<int, usize>::empty(),
{
    let s = PoolState::empty();
    lemma_empty();
    lemma_capacity(s, a);
    assert(s.held().dom() =~= Set::<int>::empty());
    assert(!(Set::<int>::empty() == vstd::set_lib::set_int_range(0, 64))) by {
        assert(vstd::set_lib::set_int_range(0, 64).contains(0));
    }
    lemma_insert(s, a);
    let t = s.insert(a).unwrap();
    lemma_take(t);
    let i = u64_trailing_ones(s.writer) as int;
    assert(t.held().dom() =~= set![i]);
    assert(t.held().dom().contains(i));
    let (u, b) = t.take().unwrap();
    assert(u.held() =~= Map::<int, usize>::empty());
}

/// Stores `a` as a block of `size` bytes in a freelist whose buckets are
/// `buckets`, as `FreeList::throw` does.
pub open spec fn deposit(buckets: Seq<PoolState>, a: usize, size: usize) -> Result<
    Seq<PoolState>,
    Error,
> {
    match route(size, buckets.len() as usize) {
        Err(e) => Err(e),
        Ok(p) => match buckets[p].insert(a) {
            None => Err(Error::BucketFull),
            Some(t) => Ok(buckets.update(p, t)),
        },
    }
}

/// Takes a block of `size` bytes from a freelist whose buckets are
/// `buckets`, as `FreeList::recycle` does.
pub open spec fn withdraw(buckets: Seq<PoolState>, size: usize) -> Result<
    (Seq<PoolState>, usize),
    Error,
> {
    match route(size, buckets.len() as usize) {
        Err(e) => Err(e),
        Ok(p) => match buckets[p].take() {
            None => Err(Error::BucketEmpty),
            Some((t, a)) => Ok((buckets.update(p, t), a)),
        },
    }
}

/// Sizes that are zero or not a power of two are refused by both
/// operations.
pub proof fn lemma_power_of_two_discipline(buckets: Seq<PoolState>, a: usize, size: usize)
    requires
        !is_pow2(size as u64),
    ensures
        deposit(buckets, a, size) == Err::<Seq<PoolState>, Error>(Error::SizeNotPowerOf2),
        withdraw(buckets, size) == Err::<(Seq<PoolState>, usize), Error>(Error::SizeNotPowerOf2),
        !is_pow2(0u64),
{
}

/// Size routing: in a freelist of empty buckets, a block deposited as
/// `2^p` bytes is what a request for `2^p` bytes gets back, while a request
/// for any other power of two finds its bucket empty, or no bucket at all.
pub proof fn lemma_size_routing(buckets: Seq<PoolState>, a: usize, p: u64, q: u64)
    requires
        buckets.len() <= usize::BITS,
        forall|i: int| 0 <= i < buckets.len() ==> #[trigger] buckets[i] == PoolState::empty(),
        p < buckets.len(),
        q < usize::BITS,
        q != p,
    ensures
        deposit(buckets, a, (1u64 << p) as usize) matches Ok(b) && {
            &&& withdraw(b, (1u64 << p) as usize) matches Ok((_, x)) && x == a
            &&& withdraw(b, (1u64 << q) as usize) == if q < buckets.len() {
                Err::<(Seq<PoolState>, usize), Error>(Error::BucketEmpty)
            } else {
                Err::<(Seq<PoolState>, usize), Error>(Error::BucketNotAvailable)
            }
        },
{
    let n = buckets.len() as usize;
    lemma_route_power(p, n);
    lemma_route_power(q, n);
    lemma_empty();
    lemma_insert_then_take(a);
    let t = PoolState::empty().insert(a).unwrap();
    let b = buckets.update(p as int, t);
    assert(deposit(buckets, a, (1u64 << p) as usize) == Ok::<Seq<PoolState>, Error>(b));
    if q < n {
        assert(b[q as int] == PoolState::empty());
        lemma_take(PoolState::empty());
        assert(PoolState::empty().held().dom() =~= Set::<int>::empty());
    }
}

/// Wrapper round trip: the size recorded for a request that has a bucket
/// routes the block back to that bucket, and with no other traffic the next
/// request of the same shape gets the same block back.
pub proof fn lemma_wrapper_round_trip(buckets: Seq<PoolState>, a: usize, nmemb: usize, size: usize)
    requires
        buckets.len() <= 64,
        forall|i: int| 0 <= i < buckets.len() ==> #[trigger] buckets[i] == PoolState::empty(),
        recyclable_size(nmemb, size, buckets.len() as usize) is Some,
    ensures
        ({
            let s = recyclable_size(nmemb, size, buckets.len() as usize)->Some_0;
            &&& withdraw(buckets, s) == Err::<(Seq<PoolState>, usize), Error>(Error::BucketEmpty)
            &&& deposit(buckets, a, s) matches Ok(b) && withdraw(b, s) matches Ok((_, x)) && x
                == a
        }),
{
    let s = recyclable_size(nmemb, size, buckets.len() as usize)->Some_0;
    let p = route(s, buckets.len() as usize)->Ok_0;
    assert(buckets[p] == PoolState::empty());
    lemma_empty();
    lemma_take(PoolState::empty());
    assert(PoolState::empty().held().dom() =~= Set::<int>::empty());
    lemma_insert_then_take(a);
}

} // verus!
