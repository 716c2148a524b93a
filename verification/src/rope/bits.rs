//! Sets of small numbers held in the bits of an integer.
//!
//! A bit set stands for a predicate on positions. Counting and searching are
//! stated over predicates, so that a contract can speak of the text that a bit
//! set describes rather than of the bits.

use vstd::prelude::*;

verus! {

/// Whether bit `i` of `v` is set.
pub open spec fn bit(v: u128, i: int) -> bool {
    (v >> (i as u128)) & 1u128 == 1u128
}

/// Whether bit `i` of the 64-bit `v` is set.
pub open spec fn bit64(v: u64, i: int) -> bool {
    (v >> (i as u64)) & 1u64 == 1u64
}

/// The positions that are set in `v`, as a predicate.
pub open spec fn bits(v: u128) -> spec_fn(int) -> bool {
    |i: int| 0 <= i < 128 && bit(v, i)
}

/// The positions that are set in the 64-bit `v`, as a predicate.
pub open spec fn bits64(v: u64) -> spec_fn(int) -> bool {
    |i: int| 0 <= i < 64 && bit64(v, i)
}

/// How many positions of `lo..hi` satisfy `p`.
pub open spec fn count(p: spec_fn(int) -> bool, lo: int, hi: int) -> nat
    decreases hi - lo,
{
    if lo >= hi {
        0
    } else {
        count(p, lo, hi - 1) + if p(hi - 1) {
            1nat
        } else {
            0nat
        }
    }
}

/// The first position of `lo..hi` that satisfies `p`, or `hi` if none does.
pub open spec fn first_at(p: spec_fn(int) -> bool, lo: int, hi: int) -> int
    decreases hi - lo,
{
    if lo >= hi {
        hi
    } else if p(lo) {
        lo
    } else {
        first_at(p, lo + 1, hi)
    }
}

/// One past the last position below `hi` that satisfies `p`, or 0 if none does.
pub open spec fn after_last(p: spec_fn(int) -> bool, hi: int) -> int
    decreases hi,
{
    if hi <= 0 {
        0
    } else if p(hi - 1) {
        hi
    } else {
        after_last(p, hi - 1)
    }
}

/// `u128::count_ones` counts the set bits.
pub assume_specification[ u128::count_ones ](v: u128) -> (r: u32)
    ensures
        r == count(bits(v), 0, 128),
;

/// `u128::trailing_zeros` is the lowest set bit, and 128 where no bit is set.
pub assume_specification[ u128::trailing_zeros ](v: u128) -> (r: u32)
    ensures
        r == first_at(bits(v), 0, 128),
;

/// `u128::leading_zeros` counts the unset bits above the highest set one.
pub assume_specification[ u128::leading_zeros ](v: u128) -> (r: u32)
    ensures
        r == 128 - after_last(bits(v), 128),
;

/// `u64::count_ones` counts the set bits.
pub assume_specification[ u64::count_ones ](v: u64) -> (r: u32)
    ensures
        r == count(bits64(v), 0, 64),
;

/// `u64::reverse_bits` puts bit `i` at the place of bit `63 - i`.
pub assume_specification[ u64::reverse_bits ](v: u64) -> (r: u64)
    ensures
        forall|i: int| 0 <= i < 64 ==> #[trigger] bit64(r, i) == bit64(v, 63 - i),
;

// Counting.

pub proof fn lemma_count_bounds(p: spec_fn(int) -> bool, lo: int, hi: int)
    ensures
        lo <= hi ==> count(p, lo, hi) <= hi - lo,
        lo >= hi ==> count(p, lo, hi) == 0,
    decreases hi - lo,
{
    if lo < hi {
        lemma_count_bounds(p, lo, hi - 1);
    }
}

pub proof fn lemma_count_split(p: spec_fn(int) -> bool, lo: int, mid: int, hi: int)
    requires
        lo <= mid <= hi,
    ensures
        count(p, lo, hi) == count(p, lo, mid) + count(p, mid, hi),
    decreases hi - mid,
{
    if mid < hi {
        lemma_count_split(p, lo, mid, hi - 1);
    }
}

/// Predicates that agree up to a shift by `k` have the same counts.
pub proof fn lemma_count_shift(
    p: spec_fn(int) -> bool,
    q: spec_fn(int) -> bool,
    lo: int,
    hi: int,
    k: int,
)
    requires
        forall|i: int| lo <= i < hi ==> #[trigger] p(i) == q(i + k),
    ensures
        count(p, lo, hi) == count(q, lo + k, hi + k),
    decreases hi - lo,
{
    if lo < hi {
        assert(p(hi - 1) == q(hi - 1 + k));
        lemma_count_shift(p, q, lo, hi - 1, k);
    }
}

pub proof fn lemma_count_ext(p: spec_fn(int) -> bool, q: spec_fn(int) -> bool, lo: int, hi: int)
    requires
        forall|i: int| lo <= i < hi ==> #[trigger] p(i) == q(i),
    ensures
        count(p, lo, hi) == count(q, lo, hi),
    decreases hi - lo,
{
    if lo < hi {
        lemma_count_ext(p, q, lo, hi - 1);
    }
}

pub proof fn lemma_count_none(p: spec_fn(int) -> bool, lo: int, hi: int)
    requires
        forall|i: int| lo <= i < hi ==> !#[trigger] p(i),
    ensures
        count(p, lo, hi) == 0,
    decreases hi - lo,
{
    if lo < hi {
        lemma_count_none(p, lo, hi - 1);
    }
}

/// A count of zero means that nothing satisfies the predicate.
pub proof fn lemma_count_zero(p: spec_fn(int) -> bool, lo: int, hi: int, i: int)
    requires
        lo <= i < hi,
        count(p, lo, hi) == 0,
    ensures
        !p(i),
    decreases hi - lo,
{
    if i < hi - 1 {
        lemma_count_zero(p, lo, hi - 1, i);
    }
}

/// A position is determined by how many positions before it satisfy `p`.
pub proof fn lemma_count_unique(p: spec_fn(int) -> bool, lo: int, x: int, y: int)
    requires
        lo <= x,
        lo <= y,
        p(x),
        p(y),
        count(p, lo, x) == count(p, lo, y),
    ensures
        x == y,
{
    if x < y {
        lemma_count_split(p, lo, x, y);
        lemma_count_split(p, x, x + 1, y);
        lemma_count_bounds(p, x, x);
        assert(count(p, x, x + 1) == 1);
    }
    if y < x {
        lemma_count_split(p, lo, y, x);
        lemma_count_split(p, y, y + 1, x);
        lemma_count_bounds(p, y, y);
        assert(count(p, y, y + 1) == 1);
    }
}

// Searching.

pub proof fn lemma_first_at(p: spec_fn(int) -> bool, lo: int, hi: int)
    ensures
        lo <= hi ==> lo <= first_at(p, lo, hi) <= hi,
        lo >= hi ==> first_at(p, lo, hi) == hi,
        forall|i: int| lo <= i < first_at(p, lo, hi) ==> !#[trigger] p(i),
        lo <= hi && first_at(p, lo, hi) < hi ==> p(first_at(p, lo, hi)),
    decreases hi - lo,
{
    if lo < hi && !p(lo) {
        lemma_first_at(p, lo + 1, hi);
    }
}

/// What marks the first position pins it down.
pub proof fn lemma_first_at_is(p: spec_fn(int) -> bool, lo: int, hi: int, r: int)
    requires
        lo <= r <= hi,
        r < hi ==> p(r),
        forall|i: int| lo <= i < r ==> !#[trigger] p(i),
    ensures
        first_at(p, lo, hi) == r,
    decreases hi - lo,
{
    if lo < r {
        lemma_first_at_is(p, lo + 1, hi, r);
    }
}

pub proof fn lemma_after_last(p: spec_fn(int) -> bool, hi: int)
    ensures
        hi >= 0 ==> 0 <= after_last(p, hi) <= hi,
        after_last(p, hi) > 0 ==> p(after_last(p, hi) - 1),
        forall|i: int| 0 <= i && after_last(p, hi) <= i < hi ==> !#[trigger] p(i),
    decreases hi,
{
    if hi > 0 && !p(hi - 1) {
        lemma_after_last(p, hi - 1);
    }
}

pub proof fn lemma_after_last_is(p: spec_fn(int) -> bool, hi: int, r: int)
    requires
        0 <= r <= hi,
        r > 0 ==> p(r - 1),
        forall|i: int| r <= i < hi ==> !#[trigger] p(i),
    ensures
        after_last(p, hi) == r,
    decreases hi,
{
    if r < hi {
        lemma_after_last_is(p, hi - 1, r);
    }
}

// Operations on the bits.

proof fn lemma_bit_ops_bv(a: u128, b: u128, i: u128)
    by (bit_vector)
    requires
        i < 128,
    ensures
        ((a | b) >> i) & 1 == 1 <==> ((a >> i) & 1 == 1 || (b >> i) & 1 == 1),
        ((a & b) >> i) & 1 == 1 <==> ((a >> i) & 1 == 1 && (b >> i) & 1 == 1),
        ((a ^ b) >> i) & 1 == 1 <==> (((a >> i) & 1 == 1) != ((b >> i) & 1 == 1)),
        ((!a) >> i) & 1 == 1 <==> !((a >> i) & 1 == 1),
        (0u128 >> i) & 1 == 0,
        (0xffff_ffff_ffff_ffff_ffff_ffff_ffff_ffffu128 >> i) & 1 == 1,
        (a >> i) & 1 == 1 ==> a != 0,
{
}

/// Bits of a union, an intersection, a difference, a complement and constants.
pub proof fn lemma_bit_ops(a: u128, b: u128, i: int)
    requires
        0 <= i < 128,
    ensures
        bit(a | b, i) == (bit(a, i) || bit(b, i)),
        bit(a & b, i) == (bit(a, i) && bit(b, i)),
        bit(a ^ b, i) == (bit(a, i) != bit(b, i)),
        bit(!a, i) == !bit(a, i),
        !bit(0, i),
        bit(u128::MAX, i),
        bit(a, i) ==> a != 0,
{
    lemma_bit_ops_bv(a, b, i as u128);
}

proof fn lemma_shr_shr_bv(a: u128, k: u128, i: u128)
    by (bit_vector)
    requires
        i < 128,
        k < 128,
    ensures
        i + k < 128 ==> ((a >> k) >> i) & 1 == (a >> ((i + k) as u128)) & 1,
        i + k >= 128 ==> ((a >> k) >> i) & 1 == 0,
{
}

proof fn lemma_shl_shr_bv(a: u128, k: u128, i: u128)
    by (bit_vector)
    requires
        i < 128,
        k < 128,
    ensures
        i >= k ==> ((a << k) >> i) & 1 == (a >> ((i - k) as u128)) & 1,
        i < k ==> ((a << k) >> i) & 1 == 0,
{
}

proof fn lemma_low_mask_bv(k: u128, i: u128)
    by (bit_vector)
    requires
        i < 128,
        k < 128,
    ensures
        (1u128 << k) >= 1,
        (((((1u128 << k) - 1) as u128) >> i) & 1 == 1) <==> i < k,
        ((1u128 << k) >> i) & 1 == 1 <==> i == k,
{
}

/// Bits of a shifted set, of a low mask and of a singleton.
pub proof fn lemma_bit_shift(a: u128, k: int, i: int)
    requires
        0 <= i < 128,
        0 <= k < 128,
    ensures
        bit(a << (k as u128), i) == (i >= k && bit(a, i - k)),
        bit(a >> (k as u128), i) == (i + k < 128 && bit(a, i + k)),
        (1u128 << (k as u128)) >= 1,
        bit(((1u128 << (k as u128)) - 1) as u128, i) == (i < k),
        bit(1u128 << (k as u128), i) == (i == k),
{
    lemma_shr_shr_bv(a, k as u128, i as u128);
    lemma_shl_shr_bv(a, k as u128, i as u128);
    lemma_low_mask_bv(k as u128, i as u128);
}

proof fn lemma_bit_top_bv(v: u128, k: u128)
    by (bit_vector)
    requires
        k < 127,
    ensures
        v >> ((k + 1) as u128) == 0 && (v >> k) & 1 != 1 ==> v >> k == 0,
        (v >> 127) & 1 != 1 ==> v >> 127 == 0,
        v >> 0 == v,
{
}

proof fn lemma_bits_zero_from(v: u128, k: int)
    requires
        0 <= k < 128,
        forall|i: int| 0 <= i < 128 ==> !#[trigger] bit(v, i),
    ensures
        v >> (k as u128) == 0,
    decreases 128 - k,
{
    assert(!bit(v, k));
    if k < 127 {
        lemma_bits_zero_from(v, k + 1);
        lemma_bit_top_bv(v, k as u128);
    } else {
        lemma_bit_top_bv(v, 0);
    }
}

/// Only zero has no bits.
pub proof fn lemma_bits_zero(v: u128)
    requires
        forall|i: int| 0 <= i < 128 ==> !#[trigger] bit(v, i),
    ensures
        v == 0,
{
    lemma_bits_zero_from(v, 0);
    lemma_bit_top_bv(v, 0);
}

proof fn lemma_xor_bv(a: u128, b: u128)
    by (bit_vector)
    ensures
        a ^ b == 0 ==> a == b,
{
}

/// Sets with the same bits are the same.
pub proof fn lemma_same_bits(a: u128, b: u128)
    requires
        bits(a) == bits(b),
    ensures
        a == b,
{
    assert forall|i: int| 0 <= i < 128 implies !#[trigger] bit(a ^ b, i) by {
        lemma_bit_ops(a, b, i);
        assert(bits(a)(i) == bit(a, i));
        assert(bits(b)(i) == bit(b, i));
    }
    lemma_bits_zero(a ^ b);
    lemma_xor_bv(a, b);
}

} // verus!
