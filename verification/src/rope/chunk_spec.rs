//! What the positions of a chunk mean, over the UTF-8 bytes of its text.

use vstd::prelude::*;
use vstd::utf8::{is_char_boundary, is_continuation_byte, is_leading_byte_width_4, valid_utf8};
use crate::rope::bits::{after_last, bit, bits, count, first_at};
use crate::rope::bits::{
    lemma_after_last, lemma_after_last_is, lemma_bit_ops, lemma_bit_shift, lemma_count_bounds,
    lemma_count_ext, lemma_count_none, lemma_count_shift, lemma_count_split, lemma_first_at,
    lemma_first_at_is,
};
use crate::rope::position::Point;

verus! {

/// How many bytes a chunk can hold.
pub const MAX_BASE: usize = 128;

/// The bytes at which a character starts.
pub open spec fn char_start(b: Seq<u8>) -> spec_fn(int) -> bool {
    |i: int| 0 <= i < b.len() && !is_continuation_byte(b[i])
}

/// The bytes that stand for a UTF-16 code unit: the first byte of each
/// character, and the second byte of one that takes a surrogate pair.
pub open spec fn utf16_unit(b: Seq<u8>) -> spec_fn(int) -> bool {
    |i: int|
        0 <= i < b.len() && (!is_continuation_byte(b[i]) || (i > 0 && is_leading_byte_width_4(
            b[i - 1],
        )))
}

/// The bytes that are line feeds.
pub open spec fn newline(b: Seq<u8>) -> spec_fn(int) -> bool {
    |i: int| 0 <= i < b.len() && b[i] == 10u8
}

/// The bytes that are tabs.
pub open spec fn tab(b: Seq<u8>) -> spec_fn(int) -> bool {
    |i: int| 0 <= i < b.len() && b[i] == 9u8
}

/// Whether `o` lies between two characters or at an end of the text.
pub open spec fn boundary(b: Seq<u8>, o: int) -> bool {
    o == b.len() || (0 <= o < b.len() && !is_continuation_byte(b[o]))
}

/// The last boundary at or before `o`.
pub open spec fn floor_boundary(b: Seq<u8>, o: int) -> int
    decreases o,
{
    if o <= 0 {
        0
    } else if boundary(b, o) {
        o
    } else {
        floor_boundary(b, o - 1)
    }
}

/// The first boundary at or after `o`.
pub open spec fn ceil_boundary(b: Seq<u8>, o: int) -> int
    decreases b.len() - o,
{
    if o >= b.len() {
        b.len() as int
    } else if boundary(b, o) {
        o
    } else {
        ceil_boundary(b, o + 1)
    }
}

/// The offset at which the row of `o` starts.
pub open spec fn line_start(b: Seq<u8>, o: int) -> int {
    after_last(newline(b), o)
}

/// The index of the last row.
pub open spec fn last_row(b: Seq<u8>) -> nat {
    count(newline(b), 0, b.len() as int)
}

/// The offset at which a row starts.
pub open spec fn row_start(b: Seq<u8>, row: nat) -> int
    decreases row,
{
    if row == 0 {
        0
    } else {
        first_at(newline(b), row_start(b, (row - 1) as nat), b.len() as int) + 1
    }
}

/// The offset at which a row ends: that of its line feed, or the end of the text.
pub open spec fn row_end(b: Seq<u8>, row: nat) -> int {
    first_at(newline(b), row_start(b, row), b.len() as int)
}

/// How many characters are on a row.
pub open spec fn row_chars(b: Seq<u8>, row: nat) -> nat {
    count(char_start(b), row_start(b, row), row_end(b, row))
}

/// The bytes of a row.
pub open spec fn row_text(b: Seq<u8>, row: nat) -> Seq<u8> {
    b.subrange(row_start(b, row), row_end(b, row))
}

/// The length in UTF-16 code units.
pub open spec fn utf16_len(b: Seq<u8>) -> nat {
    count(utf16_unit(b), 0, b.len() as int)
}

/// The offset that follows `n` UTF-16 code units.
pub open spec fn unit_offset(b: Seq<u8>, n: nat) -> int
    decreases n,
{
    if n == 0 {
        0
    } else {
        first_at(utf16_unit(b), unit_offset(b, (n - 1) as nat) + 1, b.len() as int)
    }
}

/// The row and column of an offset.
pub open spec fn point_of(b: Seq<u8>, o: int) -> Point {
    Point {
        row: count(newline(b), 0, o) as u32,
        column: (o - line_start(b, o)) as u32,
    }
}

/// The offset of a point, clipped to its row and to the text.
pub open spec fn offset_of(b: Seq<u8>, point: Point) -> int {
    if point.row > last_row(b) {
        b.len() as int
    } else if point.column > row_end(b, point.row as nat) - row_start(b, point.row as nat) {
        row_end(b, point.row as nat)
    } else {
        row_start(b, point.row as nat) + point.column
    }
}

pub proof fn lemma_boundary(b: Seq<u8>, o: int)
    requires
        valid_utf8(b),
        0 <= o,
    ensures
        is_char_boundary(b, o) == boundary(b, o),
        boundary(b, 0),
{
    vstd::utf8::is_char_boundary_start_end_of_seq(b);
    if b.len() > 0 {
        vstd::utf8::is_char_boundary_iff_not_is_continuation_byte(b, 0);
    }
    if o < b.len() {
        vstd::utf8::is_char_boundary_iff_not_is_continuation_byte(b, o);
    } else if o > b.len() {
        lemma_no_boundary_past_end(b, o);
    }
}

proof fn lemma_no_boundary_past_end(b: Seq<u8>, o: int)
    requires
        valid_utf8(b),
        o > b.len(),
    ensures
        !is_char_boundary(b, o),
{
    reveal_with_fuel(is_char_boundary, 1);
}

pub proof fn lemma_floor_boundary(b: Seq<u8>, o: int)
    requires
        0 <= o <= b.len(),
        boundary(b, 0),
    ensures
        0 <= floor_boundary(b, o) <= o,
        boundary(b, floor_boundary(b, o)),
        forall|i: int| floor_boundary(b, o) < i <= o ==> !boundary(b, i),
    decreases o,
{
    if o > 0 && !boundary(b, o) {
        lemma_floor_boundary(b, o - 1);
    }
}

pub proof fn lemma_ceil_boundary(b: Seq<u8>, o: int)
    requires
        0 <= o <= b.len(),
    ensures
        o <= ceil_boundary(b, o) <= b.len(),
        boundary(b, ceil_boundary(b, o)),
        forall|i: int| o <= i < ceil_boundary(b, o) ==> !boundary(b, i),
    decreases b.len() - o,
{
    if o < b.len() && !boundary(b, o) {
        lemma_ceil_boundary(b, o + 1);
    }
}

/// What is known of the start of a row that exists.
pub proof fn lemma_row_start(b: Seq<u8>, row: nat)
    requires
        row <= last_row(b),
    ensures
        0 <= row_start(b, row) <= b.len(),
        row > 0 ==> newline(b)(row_start(b, row) - 1),
        count(newline(b), 0, row_start(b, row)) == row,
        row_start(b, row) <= row_end(b, row) <= b.len(),
        count(newline(b), row_start(b, row), row_end(b, row)) == 0,
        row_end(b, row) < b.len() <==> row < last_row(b),
        row_end(b, row) < b.len() ==> newline(b)(row_end(b, row)),
    decreases row,
{
    let p = newline(b);
    let n: int = b.len() as int;
    if row > 0 {
        lemma_row_start(b, (row - 1) as nat);
        let s: int = row_start(b, (row - 1) as nat);
        let e: int = first_at(p, s, n);
        lemma_count_split(p, 0, s, e);
        reveal_with_fuel(count, 2);
        assert(count(p, 0, e + 1) == count(p, 0, e) + 1);
    }
    let s: int = row_start(b, row);
    let e: int = first_at(p, s, n);
    lemma_first_at(p, s, n);
    lemma_count_none(p, s, e);
    lemma_count_split(p, 0, s, n);
    lemma_count_split(p, s, e, n);
    if e < n {
        lemma_count_split(p, e, e + 1, n);
        lemma_count_bounds(p, e, e);
        assert(count(p, e, e + 1) == 1);
    } else {
        lemma_count_bounds(p, e, n);
    }
}

/// What is known of the offset that follows `n` code units.
pub proof fn lemma_unit_offset(b: Seq<u8>, n: nat)
    requires
        boundary(b, 0),
        n <= utf16_len(b),
    ensures
        0 <= unit_offset(b, n) <= b.len(),
        count(utf16_unit(b), 0, unit_offset(b, n)) == n,
        unit_offset(b, n) < b.len() ==> utf16_unit(b)(unit_offset(b, n)),
    decreases n,
{
    let p = utf16_unit(b);
    let len: int = b.len() as int;
    if n > 0 {
        lemma_unit_offset(b, (n - 1) as nat);
        let s: int = unit_offset(b, (n - 1) as nat);
        if s >= len {
            assert(false);
        }
        let e: int = first_at(p, s + 1, len);
        lemma_first_at(p, s + 1, len);
        lemma_count_none(p, s + 1, e);
        lemma_count_split(p, 0, s, e);
        lemma_count_split(p, s, s + 1, e);
        lemma_count_bounds(p, s, s);
        assert(count(p, s, s + 1) == 1);
    }
}

/// What marks that offset pins it down.
pub proof fn lemma_unit_offset_is(b: Seq<u8>, n: nat, o: int)
    requires
        boundary(b, 0),
        n <= utf16_len(b),
        0 <= o <= b.len(),
        count(utf16_unit(b), 0, o) == n,
        o < b.len() ==> utf16_unit(b)(o),
    ensures
        o == unit_offset(b, n),
{
    let p = utf16_unit(b);
    lemma_unit_offset(b, n);
    let u: int = unit_offset(b, n);
    if o < u {
        lemma_count_split(p, 0, o, u);
        lemma_count_split(p, o, o + 1, u);
        lemma_count_bounds(p, o, o);
        assert(count(p, o, o + 1) == 1);
    }
    if u < o {
        lemma_count_split(p, 0, u, o);
        lemma_count_split(p, u, u + 1, o);
        lemma_count_bounds(p, u, u);
        assert(count(p, u, u + 1) == 1);
    }
}

/// Cutting a set off at `k`.
pub proof fn lemma_masked(v: u128, mask: u128, k: int)
    requires
        0 <= k <= 128,
        forall|i: int| 0 <= i < 128 ==> #[trigger] bit(mask, i) == (i < k),
    ensures
        forall|i: int| #[trigger] bits(v & mask)(i) == (i < k && bits(v)(i)),
        count(bits(v & mask), 0, 128) == count(bits(v), 0, k),
        after_last(bits(v & mask), 128) == after_last(bits(v), k),
{
    assert forall|i: int| #[trigger] bits(v & mask)(i) == (i < k && bits(v)(i)) by {
        if 0 <= i < 128 {
            lemma_bit_ops(v, mask, i);
            assert(bit(mask, i) == (i < k));
        }
    }
    let q = bits(v & mask);
    lemma_count_split(q, 0, k, 128);
    lemma_count_ext(q, bits(v), 0, k);
    lemma_count_none(q, k, 128);
    lemma_after_last(bits(v), k);
    lemma_after_last_is(q, 128, after_last(bits(v), k));
}

/// Moving a set down by `k`.
pub proof fn lemma_shifted(v: u128, k: int)
    requires
        0 <= k < 128,
    ensures
        forall|i: int| #[trigger] bits(v >> (k as u128))(i) == (i >= 0 && bits(v)(i + k)),
        count(bits(v >> (k as u128)), 0, 128) == count(bits(v), k, 128),
        first_at(bits(v >> (k as u128)), 0, 128) == (if first_at(bits(v), k, 128) < 128 {
            first_at(bits(v), k, 128) - k
        } else {
            128
        }),
{
    let q = bits(v >> (k as u128));
    let p = bits(v);
    assert forall|i: int| #[trigger] q(i) == (i >= 0 && p(i + k)) by {
        if 0 <= i < 128 {
            lemma_bit_shift(v, k, i);
        }
    }
    lemma_count_split(q, 0, 128 - k, 128);
    lemma_count_none(q, 128 - k, 128);
    lemma_count_shift(q, p, 0, 128 - k, k);
    let f: int = first_at(p, k, 128);
    lemma_first_at(p, k, 128);
    if f < 128 {
        assert(q(f - k));
        assert forall|i: int| 0 <= i < f - k implies !#[trigger] q(i) by {
            assert(!p(i + k));
        }
        lemma_first_at_is(q, 0, 128, f - k);
    } else {
        assert forall|i: int| 0 <= i < 128 implies !#[trigger] q(i) by {
            if i + k < 128 {
                assert(!p(i + k));
            }
        }
        lemma_first_at_is(q, 0, 128, 128);
    }
}

/// Looking further than where the set ends changes nothing.
pub proof fn lemma_beyond(p: spec_fn(int) -> bool, lo: int, len: int, hi: int)
    requires
        0 <= lo <= len <= hi,
        forall|i: int| len <= i < hi ==> !#[trigger] p(i),
    ensures
        count(p, lo, hi) == count(p, lo, len),
        after_last(p, hi) == after_last(p, len),
        first_at(p, lo, hi) == (if first_at(p, lo, len) < len {
            first_at(p, lo, len)
        } else {
            hi
        }),
{
    lemma_count_split(p, lo, len, hi);
    lemma_count_none(p, len, hi);
    lemma_after_last(p, len);
    lemma_after_last_is(p, hi, after_last(p, len));
    lemma_first_at(p, lo, len);
    let f: int = first_at(p, lo, len);
    if f < len {
        lemma_first_at_is(p, lo, hi, f);
    } else {
        lemma_first_at_is(p, lo, hi, hi);
    }
}

} // verus!
