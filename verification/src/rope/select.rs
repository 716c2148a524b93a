//! Finding the n-th set bit of an integer.

use vstd::prelude::*;
use crate::rope::bits::{bit, bit64, bits, bits64, count};
use crate::rope::bits::{lemma_count_bounds, lemma_count_shift, lemma_count_split};

verus! {

// Parallel bit counts: each step doubles the width of the fields that hold the
// number of bits set in them.

proof fn lemma_pairs_bv(v: u64, a: u64, s: u64)
    by (bit_vector)
    requires
        a == v - ((v >> 1) & 0x5555_5555_5555_5555u64),
        s <= 62,
        s & 1 == 0,
    ensures
        (a >> s) & 3 == ((v >> s) & 1) + ((v >> ((s + 1) as u64)) & 1),
{
}

proof fn lemma_nibbles_bv(a: u64, b: u64, s: u64)
    by (bit_vector)
    requires
        b == (a & 0x3333_3333_3333_3333u64) + ((a >> 2) & 0x3333_3333_3333_3333u64),
        s <= 60,
        s & 3 == 0,
    ensures
        (b >> s) & 0xf == ((a >> s) & 3) + ((a >> ((s + 2) as u64)) & 3),
        (b >> s) & 7 == (b >> s) & 0xf,
{
}

proof fn lemma_bytes_bv(a: u64, b: u64, c: u64, s: u64)
    by (bit_vector)
    requires
        b == (a & 0x3333_3333_3333_3333u64) + ((a >> 2) & 0x3333_3333_3333_3333u64),
        c == ((b + (b >> 4)) as u64) & 0x0f0f_0f0f_0f0f_0f0fu64,
        s <= 56,
        s & 7 == 0,
    ensures
        (c >> s) & 0xf == ((b >> s) & 0xf) + ((b >> ((s + 4) as u64)) & 0xf),
        (c >> s) & 0xff == (c >> s) & 0xf,
{
}

proof fn lemma_words_bv(c: u64, d: u64, s: u64)
    by (bit_vector)
    requires
        c & 0x0f0f_0f0f_0f0f_0f0fu64 == c,
        d == ((c + (c >> 8)) as u64) & 0x00ff_00ff_00ff_00ffu64,
        s <= 48,
        s & 15 == 0,
    ensures
        (d >> s) & 0xff == ((c >> s) & 0xff) + ((c >> ((s + 8) as u64)) & 0xff),
{
}

proof fn lemma_ranges_bv(v: u64, a: u64, b: u64, c: u64)
    by (bit_vector)
    ensures
        (v >> 1) & 0x5555_5555_5555_5555u64 <= v,
        (a & 0x3333_3333_3333_3333u64) + ((a >> 2) & 0x3333_3333_3333_3333u64)
            <= 0x6666_6666_6666_6666u64,
        b <= 0x6666_6666_6666_6666u64 ==> b + (b >> 4) <= 0xffff_ffff_ffff_ffffu64,
        c & 0x0f0f_0f0f_0f0f_0f0fu64 <= 0x0f0f_0f0f_0f0f_0f0fu64,
        c <= 0x0f0f_0f0f_0f0f_0f0fu64 ==> c + (c >> 8) <= 0xffff_ffff_ffff_ffffu64,
        (c & 0x0f0f_0f0f_0f0f_0f0fu64) & 0x0f0f_0f0f_0f0f_0f0fu64 == c & 0x0f0f_0f0f_0f0f_0f0fu64,
{
}

proof fn lemma_top_half_bv(x: u64, d: u64, x2: u64, x3: u64)
    by (bit_vector)
    requires
        d == x & 0x00ff_00ff_00ff_00ffu64,
        x2 == (d >> 32) & 0xff,
        x3 == (d >> 48) & 0xff,
    ensures
        (d >> 32) + (d >> 48) == x2 + x3 + (x3 << 16),
        (d >> 32) + (d >> 48) <= 0xffff_ffffu64,
{
}

// One step of the selection: `t` holds the count `x` in its low bits (and, in
// the first step, a copy of a part of it higher up), `m` is `t - n` modulo
// 2^64.
proof fn lemma_step_bv(t: u64, x: u64, y: u64, n: u64, m: u64)
    by (bit_vector)
    requires
        n <= 64,
        y <= x,
        x <= 32,
        t == x + (y << 16),
        t >= n ==> m + n == t,
        t < n ==> m + n == t + 0x1_0000_0000_0000_0000,
    ensures
        x >= n ==> m & 256 == 0 && t & (m >> 8) == 0,
        x < n ==> m & 256 == 256 && t & (m >> 8) == x,
{
}

proof fn lemma_step_constants_bv(y: u64)
    by (bit_vector)
    ensures
        256u64 >> 3 == 32,
        256u64 >> 4 == 16,
        256u64 >> 5 == 8,
        256u64 >> 6 == 4,
        256u64 >> 7 == 2,
        256u64 >> 8 == 1,
        0u64 >> 3 == 0,
        0u64 >> 4 == 0,
        0u64 >> 5 == 0,
        0u64 >> 6 == 0,
        0u64 >> 7 == 0,
        0u64 >> 8 == 0,
        0u64 << 16 == 0,
        (y & 1) <= 1,
{
}

proof fn lemma_align_bv(s: u64)
    by (bit_vector)
    ensures
        s % 2 == 0 ==> s & 1 == 0,
        s % 4 == 0 ==> s & 3 == 0,
        s % 8 == 0 ==> s & 7 == 0,
        s % 16 == 0 ==> s & 15 == 0,
{
}

/// What the four counts of `v` hold, field by field.
spec fn counts_of(v: u64, a: u64, b: u64, c: u64, d: u64) -> bool {
    &&& a == v - ((v >> 1) & 0x5555_5555_5555_5555u64)
    &&& b == (a & 0x3333_3333_3333_3333u64) + ((a >> 2) & 0x3333_3333_3333_3333u64)
    &&& c == ((b + (b >> 4)) as u64) & 0x0f0f_0f0f_0f0f_0f0fu64
    &&& d == ((c + (c >> 8)) as u64) & 0x00ff_00ff_00ff_00ffu64
}

proof fn lemma_count1(v: u64, s: int)
    requires
        0 <= s < 64,
    ensures
        (v >> (s as u64)) & 1 == count(bits64(v), s, s + 1),
{
    reveal_with_fuel(count, 2);
    lemma_step_constants_bv(v >> (s as u64));
}

proof fn lemma_count2(v: u64, a: u64, b: u64, c: u64, d: u64, s: int)
    requires
        counts_of(v, a, b, c, d),
        0 <= s <= 62,
        s % 2 == 0,
    ensures
        (a >> (s as u64)) & 3 == count(bits64(v), s, s + 2),
{
    lemma_align_bv(s as u64);
    lemma_pairs_bv(v, a, s as u64);
    lemma_count1(v, s);
    lemma_count1(v, s + 1);
    lemma_count_split(bits64(v), s, s + 1, s + 2);
}

proof fn lemma_count4(v: u64, a: u64, b: u64, c: u64, d: u64, s: int)
    requires
        counts_of(v, a, b, c, d),
        0 <= s <= 60,
        s % 4 == 0,
    ensures
        (b >> (s as u64)) & 0xf == count(bits64(v), s, s + 4),
        (b >> (s as u64)) & 7 == count(bits64(v), s, s + 4),
{
    lemma_align_bv(s as u64);
    lemma_nibbles_bv(a, b, s as u64);
    lemma_count2(v, a, b, c, d, s);
    lemma_count2(v, a, b, c, d, s + 2);
    lemma_count_split(bits64(v), s, s + 2, s + 4);
}

proof fn lemma_count8(v: u64, a: u64, b: u64, c: u64, d: u64, s: int)
    requires
        counts_of(v, a, b, c, d),
        0 <= s <= 56,
        s % 8 == 0,
    ensures
        (c >> (s as u64)) & 0xf == count(bits64(v), s, s + 8),
        (c >> (s as u64)) & 0xff == count(bits64(v), s, s + 8),
{
    lemma_align_bv(s as u64);
    lemma_bytes_bv(a, b, c, s as u64);
    lemma_count4(v, a, b, c, d, s);
    lemma_count4(v, a, b, c, d, s + 4);
    lemma_count_split(bits64(v), s, s + 4, s + 8);
}

proof fn lemma_count16(v: u64, a: u64, b: u64, c: u64, d: u64, s: int)
    requires
        counts_of(v, a, b, c, d),
        0 <= s <= 48,
        s % 16 == 0,
    ensures
        (d >> (s as u64)) & 0xff == count(bits64(v), s, s + 16),
{
    lemma_align_bv(s as u64);
    lemma_ranges_bv(v, a, b, (b + (b >> 4)) as u64);
    lemma_words_bv(c, d, s as u64);
    lemma_count8(v, a, b, c, d, s);
    lemma_count8(v, a, b, c, d, s + 8);
    lemma_count_split(bits64(v), s, s + 8, s + 16);
}

/// Counting below a position and counting above its mirror image agree.
proof fn lemma_count_mirror(v: u64, r: u64, hi: int)
    requires
        0 <= hi <= 64,
        forall|i: int| 0 <= i < 64 ==> #[trigger] bit64(r, i) == bit64(v, 63 - i),
    ensures
        count(bits64(v), 0, hi) == count(bits64(r), 64 - hi, 64),
    decreases hi,
{
    if hi > 0 {
        lemma_count_mirror(v, r, hi - 1);
        lemma_count_split(bits64(r), 64 - hi, 64 - hi + 1, 64);
        reveal_with_fuel(count, 2);
        assert(bit64(r, 64 - hi) == bit64(v, hi - 1));
    }
}

/// The search is in the `w` bits below `s`: above them lie `n0 - n` set bits,
/// and among them at least `n`.
spec fn searching(r: u64, n0: int, n: int, s: int, w: int) -> bool {
    &&& w <= s <= 64
    &&& s % w == 0
    &&& 1 <= n <= count(bits64(r), s - w, s)
    &&& count(bits64(r), s, 64) + n == n0
}

/// Keeping the upper half of the window, or the lower half with the bits of the
/// upper half counted off, keeps the search sound.
proof fn lemma_halve(r: u64, n0: int, n: int, s: int, w: int)
    requires
        w >= 1,
        2 * w <= s <= 64,
        s % w == 0,
        1 <= n <= count(bits64(r), s - 2 * w, s),
        count(bits64(r), s, 64) + n == n0,
    ensures
        ({
            let t: int = count(bits64(r), s - w, s) as int;
            &&& n <= t ==> searching(r, n0, n, s, w)
            &&& n > t ==> searching(r, n0, n - t, s - w, w)
        }),
{
    lemma_count_split(bits64(r), s - 2 * w, s - w, s);
    lemma_count_split(bits64(r), s - w, s, 64);
    assert((s - w) % w == 0) by (nonlinear_arith)
        requires
            s % w == 0,
            w >= 1,
    ;
}

/// One step of the selection narrows the window from `2 * w` to `w` bits.
proof fn lemma_select(r: u64, n0: int, n: u64, s: u64, w: u64, sh: u64, t: u64, y: u64, m: u64)
    requires
        1 <= w <= 32,
        s % w == 0,
        searching(r, n0, n as int, s as int, 2 * w as int),
        256u64 >> sh == w,
        0u64 >> sh == 0,
        y <= count(bits64(r), s - w, s as int),
        t == count(bits64(r), s - w, s as int) + (y << 16),
        t >= n ==> m + n == t,
        t < n ==> m + n == t + 0x1_0000_0000_0000_0000,
    ensures
        (m & 256) >> sh <= s,
        t & (m >> 8) <= n,
        searching(r, n0, n - (t & (m >> 8)), s - ((m & 256) >> sh), w as int),
{
    let x: u64 = count(bits64(r), s - w, s as int) as u64;
    lemma_count_bounds(bits64(r), s - w, s as int);
    lemma_count_bounds(bits64(r), s - 2 * w, s as int);
    lemma_step_bv(t, x, y, n, m);
    lemma_halve(r, n0, n as int, s as int, w as int);
}

/// Finds the `n`-th bit of `v`, from the lowest up, that is set.
pub fn nth_set_bit_u64(v: u64, n: u64) -> (ix: u64)
    requires
        1 <= n <= count(bits64(v), 0, 64),
    ensures
        ix < 64,
        bit64(v, ix as int),
        count(bits64(v), 0, ix as int) == n - 1,
{
    let ghost v0: u64 = v;
    let ghost n0: int = n as int;
    let mut n: u64 = n;
    let v: u64 = v.reverse_bits();
    let mut s: u64 = 64;
    proof {
        lemma_count_mirror(v0, v, 64);
        lemma_count_bounds(bits64(v), 64, 64);
        lemma_step_constants_bv(0);
        lemma_ranges_bv(v, 0, 0, 0);
    }
    // Counts of the set bits in fields of 2, 4, 8 and 16 bits.
    let a: u64 = v - ((v >> 1) & 0x5555_5555_5555_5555u64);
    proof {
        lemma_ranges_bv(v, a, 0, 0);
    }
    let b: u64 = (a & 0x3333_3333_3333_3333u64) + ((a >> 2) & 0x3333_3333_3333_3333u64);
    proof {
        lemma_ranges_bv(v, a, b, 0);
    }
    let c: u64 = (b + (b >> 4)) & 0x0f0f_0f0f_0f0f_0f0fu64;
    proof {
        lemma_ranges_bv(v, a, b, (b + (b >> 4)) as u64);
        lemma_ranges_bv(v, a, b, c);
    }
    let d: u64 = (c + (c >> 8)) & 0x00ff_00ff_00ff_00ffu64;
    assert(counts_of(v, a, b, c, d));

    // Branchless selection from the top of the reversed bits.
    proof {
        let high: u64 = (d >> 48) & 0xff;
        lemma_top_half_bv((c + (c >> 8)) as u64, d, (d >> 32) & 0xff, high);
        lemma_count16(v, a, b, c, d, 32);
        lemma_count16(v, a, b, c, d, 48);
        lemma_count_split(bits64(v), 32, 48, 64);
    }
    let t: u64 = (d >> 32) + (d >> 48);
    let m: u64 = t.wrapping_sub(n);
    proof {
        lemma_select(v, n0, n, s, 32, 3, t, (d >> 48) & 0xff, m);
    }
    s = s - ((m & 256) >> 3);
    n = n - (t & (m >> 8));

    proof {
        lemma_count16(v, a, b, c, d, s - 16);
    }
    let t: u64 = (d >> (s - 16)) & 0xff;
    let m: u64 = t.wrapping_sub(n);
    proof {
        lemma_select(v, n0, n, s, 16, 4, t, 0, m);
    }
    s = s - ((m & 256) >> 4);
    n = n - (t & (m >> 8));

    proof {
        lemma_count8(v, a, b, c, d, s - 8);
    }
    let t: u64 = (c >> (s - 8)) & 0xf;
    let m: u64 = t.wrapping_sub(n);
    proof {
        lemma_select(v, n0, n, s, 8, 5, t, 0, m);
    }
    s = s - ((m & 256) >> 5);
    n = n - (t & (m >> 8));

    proof {
        lemma_count4(v, a, b, c, d, s - 4);
    }
    let t: u64 = (b >> (s - 4)) & 0x7;
    let m: u64 = t.wrapping_sub(n);
    proof {
        lemma_select(v, n0, n, s, 4, 6, t, 0, m);
    }
    s = s - ((m & 256) >> 6);
    n = n - (t & (m >> 8));

    proof {
        lemma_count2(v, a, b, c, d, s - 2);
    }
    let t: u64 = (a >> (s - 2)) & 0x3;
    let m: u64 = t.wrapping_sub(n);
    proof {
        lemma_select(v, n0, n, s, 2, 7, t, 0, m);
    }
    s = s - ((m & 256) >> 7);
    n = n - (t & (m >> 8));

    proof {
        lemma_count1(v, s - 1);
    }
    let t: u64 = (v >> (s - 1)) & 0x1;
    let m: u64 = t.wrapping_sub(n);
    proof {
        lemma_select(v, n0, n, s, 1, 8, t, 0, m);
    }
    s = s - ((m & 256) >> 8);

    proof {
        lemma_count1(v, s - 1);
        lemma_count_bounds(bits64(v), s - 1, s as int);
        assert(bit64(v, s - 1));
        assert(bit64(v, s - 1) == bit64(v0, 63 - (s - 1)));
        lemma_count_mirror(v0, v, 64 - s);
    }
    65 - s - 1
}

proof fn lemma_halves_bv(v: u128, i: u64)
    by (bit_vector)
    requires
        i < 64,
    ensures
        ((v as u64) >> i) & 1 == 1 <==> (v >> (i as u128)) & 1 == 1,
        (((v >> 64) as u64) >> i) & 1 == 1 <==> (v >> ((i + 64) as u128)) & 1 == 1,
{
}

proof fn lemma_halves(v: u128, low: u64, high: u64)
    requires
        low == v as u64,
        high == (v >> 64) as u64,
    ensures
        forall|i: int| 0 <= i < 64 ==> #[trigger] bit64(low, i) == bit(v, i),
        forall|i: int| 0 <= i < 64 ==> #[trigger] bit64(high, i) == bit(v, i + 64),
        forall|hi: int|
            0 <= hi <= 64 ==> #[trigger] count(bits64(low), 0, hi) == count(bits(v), 0, hi),
        forall|hi: int|
            0 <= hi <= 64 ==> #[trigger] count(bits64(high), 0, hi) == count(
                bits(v),
                64,
                hi + 64,
            ),
{
    assert forall|i: int| 0 <= i < 64 implies #[trigger] bit64(low, i) == bit(v, i) by {
        lemma_halves_bv(v, i as u64);
    }
    assert forall|i: int| 0 <= i < 64 implies #[trigger] bit64(high, i) == bit(v, i + 64) by {
        lemma_halves_bv(v, i as u64);
    }
    assert forall|hi: int| 0 <= hi <= 64 implies #[trigger] count(bits64(low), 0, hi) == count(
        bits(v),
        0,
        hi,
    ) by {
        lemma_count_shift(bits64(low), bits(v), 0, hi, 0);
    }
    assert forall|hi: int| 0 <= hi <= 64 implies #[trigger] count(bits64(high), 0, hi) == count(
        bits(v),
        64,
        hi + 64,
    ) by {
        lemma_count_shift(bits64(high), bits(v), 0, hi, 64);
    }
}

/// Finds the `n`-th bit of `v`, from the lowest up, that is set.
pub fn nth_set_bit(v: u128, n: usize) -> (ix: usize)
    requires
        1 <= n <= count(bits(v), 0, 128),
    ensures
        ix < 128,
        bit(v, ix as int),
        count(bits(v), 0, ix as int) == n - 1,
{
    let low: u64 = v as u64;
    let high: u64 = (v >> 64) as u64;
    proof {
        lemma_halves(v, low, high);
        lemma_count_split(bits(v), 0, 64, 128);
        lemma_count_bounds(bits(v), 0, 128);
    }
    let low_count: usize = low.count_ones() as usize;
    if n > low_count {
        let ix: usize = nth_set_bit_u64(high, (n - low_count) as u64) as usize;
        proof {
            lemma_count_split(bits(v), 0, 64, 64 + ix);
        }
        64 + ix
    } else {
        nth_set_bit_u64(low, n as u64) as usize
    }
}

} // verus!
