//! Single-word bitmaps, viewed as sets of bit positions.
use vstd::prelude::*;
use vstd::std_specs::bits::{
    axiom_u64_trailing_ones, axiom_u64_trailing_zeros, u64_trailing_ones, u64_trailing_zeros,
};

verus! {

/// Number of slots in one pool: the bit width of a bitmap word.
pub const SLOTS: u32 = 64;

/// Whether bit `i` of `w` is set.
pub open spec fn has_bit(w: u64, i: int) -> bool {
    0 <= i < 64 && (w >> (i as u64)) & 1u64 == 1u64
}

/// The positions of the set bits of `w`.
pub open spec fn bits_of(w: u64) -> Set<int> {
    Set::new(|i: int| has_bit(w, i))
}

/// Position of the lowest clear bit of `w`, or 64 when every bit is set.
pub fn lowest_clear(w: u64) -> (r: u32)
    ensures
        r == u64_trailing_ones(w),
        r <= 64,
        r == 64 <==> w == u64::MAX,
        r < 64 ==> !has_bit(w, r as int),
        forall|j: int| 0 <= j < r ==> has_bit(w, j),
{
    proof {
        axiom_u64_trailing_ones(w);
    }
    let r = w.trailing_ones();
    proof {
        assert forall|j: int| 0 <= j < r implies has_bit(w, j) by {
            assert((w >> (j as u64)) & 1u64 == 1u64);
        }
        if r < 64 {
            let b = (w >> (r as u64)) & 1u64;
            assert(b == 0u64);
        }
    }
    r
}


/// Position of the lowest set bit of `w`, or 64 when `w` is zero.
pub fn lowest_set(w: u64) -> (r: u32)
    ensures
        r == u64_trailing_zeros(w),
        r <= 64,
        r == 64 <==> w == 0,
        r < 64 ==> has_bit(w, r as int),
        forall|j: int| 0 <= j < r ==> !has_bit(w, j),
{
    proof {
        axiom_u64_trailing_zeros(w);
    }
    let r = w.trailing_zeros();
    proof {
        assert forall|j: int| 0 <= j < r implies !has_bit(w, j) by {
            assert((w >> (j as u64)) & 1u64 == 0u64);
        }
        if r < 64 {
            let b = (w >> (r as u64)) & 1u64;
            assert(b == 1u64);
        }
    }
    r
}

/// Setting bit `i` adds position `i`.
pub proof fn lemma_with_bit(w: u64, i: u64)
    requires
        i < 64,
    ensures
        bits_of(w | (1u64 << i)) == bits_of(w).insert(i as int),
{
    assert forall|j: int| #[trigger] bits_of(w | (1u64 << i)).contains(j) <==> bits_of(w).insert(
        i as int,
    ).contains(j) by {
        if 0 <= j < 64 {
            let k = j as u64;
            assert(((w | (1u64 << i)) >> k) & 1u64 == 1u64 <==> (k == i || (w >> k) & 1u64
                == 1u64)) by (bit_vector)
                requires
                    i < 64,
                    k < 64,
            ;
        }
    }
    assert(bits_of(w | (1u64 << i)) =~= bits_of(w).insert(i as int));
}

/// Clearing the bits of `m` removes the positions of `m`.
pub proof fn lemma_without_bits(w: u64, m: u64)
    ensures
        bits_of(w & !m) == bits_of(w).difference(bits_of(m)),
{
    assert forall|j: int| #[trigger] bits_of(w & !m).contains(j) <==> bits_of(w).difference(
        bits_of(m),
    ).contains(j) by {
        if 0 <= j < 64 {
            let k = j as u64;
            assert(((w & !m) >> k) & 1u64 == 1u64 <==> ((w >> k) & 1u64 == 1u64 && (m >> k)
                & 1u64 != 1u64)) by (bit_vector)
                requires
                    k < 64,
            ;
        }
    }
    assert(bits_of(w & !m) =~= bits_of(w).difference(bits_of(m)));
}

/// The word `1 << i` holds position `i` alone.
pub proof fn lemma_single_bit(i: u64)
    requires
        i < 64,
    ensures
        bits_of(1u64 << i) == set![i as int],
{
    assert forall|j: int| #[trigger] bits_of(1u64 << i).contains(j) <==> j == i as int by {
        if 0 <= j < 64 {
            let k = j as u64;
            assert(((1u64 << i) >> k) & 1u64 == 1u64 <==> k == i) by (bit_vector)
                requires
                    i < 64,
                    k < 64,
            ;
        }
    }
    assert(bits_of(1u64 << i) =~= set![i as int]);
}

/// Clearing bit `i` removes position `i`.
pub proof fn lemma_without_bit(w: u64, i: u64)
    requires
        i < 64,
    ensures
        bits_of(w & !(1u64 << i)) == bits_of(w).remove(i as int),
{
    lemma_without_bits(w, 1u64 << i);
    lemma_single_bit(i);
    assert(bits_of(w).difference(bits_of(1u64 << i)) =~= bits_of(w).remove(i as int));
}

/// The word with only bit `i` set.
pub fn single_bit(i: u32) -> (r: u64)
    requires
        i < 64,
    ensures
        r == 1u64 << i,
        bits_of(r) == set![i as int],
{
    proof {
        lemma_single_bit(i as u64);
    }
    1u64 << i
}

/// `w` with bit `i` set.
pub fn with_bit(w: u64, i: u32) -> (r: u64)
    requires
        i < 64,
    ensures
        r == w | (1u64 << i),
        bits_of(r) == bits_of(w).insert(i as int),
{
    proof {
        lemma_with_bit(w, i as u64);
    }
    w | (1u64 << i)
}

/// `w` with every bit of `m` cleared.
pub fn without_bits(w: u64, m: u64) -> (r: u64)
    ensures
        r == w & !m,
        bits_of(r) == bits_of(w).difference(bits_of(m)),
{
    proof {
        lemma_without_bits(w, m);
    }
    w & !m
}

/// `w` with bit `i` cleared.
pub fn without_bit(w: u64, i: u32) -> (r: u64)
    requires
        i < 64,
    ensures
        r == w & !(1u64 << i),
        bits_of(r) == bits_of(w).remove(i as int),
{
    proof {
        lemma_without_bit(w, i as u64);
    }
    w & !(1u64 << i)
}

/// The positions of the set bits of `w`, in increasing order.
pub fn positions(w: u64) -> (r: Vec<u32>)
    ensures
        forall|k: int| 0 <= k < r.len() ==> has_bit(w, #[trigger] r[k] as int),
        forall|j: int, k: int| 0 <= j < k < r.len() ==> r[j] < r[k],
        forall|i: int| #[trigger] has_bit(w, i) ==> exists|k: int| 0 <= k < r.len() && r[k] == i,
{
    let mut r: Vec<u32> = Vec::new();
    let mut i: u32 = 0;
    while i < 64
        invariant
            i <= 64,
            forall|k: int| 0 <= k < r.len() ==> has_bit(w, #[trigger] r[k] as int) && r[k] < i,
            forall|j: int, k: int| 0 <= j < k < r.len() ==> r[j] < r[k],
            forall|m: int|
                0 <= m < i && #[trigger] has_bit(w, m) ==> exists|k: int| 0 <= k < r.len() && r[k] == m,
        decreases 64 - i,
    {
        let ghost before = r@;
        if (w >> i) & 1u64 == 1u64 {
            r.push(i);
        }
        proof {
            assert forall|m: int| 0 <= m <= i && #[trigger] has_bit(w, m) implies exists|k: int|
                0 <= k < r.len() && r[k] == m by {
                if m < i {
                    let k = choose|k: int| 0 <= k < before.len() && before[k] == m;
                    assert(r[k] == m);
                } else {
                    assert(r[r.len() - 1] == m);
                }
            }
        }
        i = i + 1;
    }
    r
}

/// Bitmaps hold at most one position per bit of the word.
pub proof fn lemma_bits_bounded(w: u64)
    ensures
        bits_of(w).finite(),
        bits_of(w).len() <= 64,
        bits_of(w) <= vstd::set_lib::set_int_range(0, 64),
{
    assert(bits_of(w) <= vstd::set_lib::set_int_range(0, 64));
    vstd::set_lib::lemma_int_range(0, 64);
    vstd::set_lib::lemma_len_subset(bits_of(w), vstd::set_lib::set_int_range(0, 64));
}

/// The all-ones word holds every position; the zero word holds none.
pub proof fn lemma_full_and_empty()
    ensures
        bits_of(u64::MAX) == vstd::set_lib::set_int_range(0, 64),
        bits_of(0u64) == Set::<int>::empty(),
{
    assert forall|j: int| 0 <= j < 64 implies has_bit(u64::MAX, j) by {
        let k = j as u64;
        assert((0xffff_ffff_ffff_ffffu64 >> k) & 1u64 == 1u64) by (bit_vector)
            requires
                k < 64,
        ;
    }
    assert forall|j: int| 0 <= j < 64 implies !has_bit(0u64, j) by {
        let k = j as u64;
        assert((0u64 >> k) & 1u64 == 0u64) by (bit_vector);
    }
    assert(bits_of(u64::MAX) =~= vstd::set_lib::set_int_range(0, 64));
    assert(bits_of(0u64) =~= Set::<int>::empty());
}

} // verus!
