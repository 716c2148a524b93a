//! A chunk: a short text with bit sets that mark its characters, UTF-16 code
//! units, line feeds and tabs, so that positions convert without a scan.

use vstd::prelude::*;
use vstd::string::StringSliceAdditionalSpecFns;
use vstd::utf8::{encode_utf8, is_continuation_byte, valid_utf8};
use arrayvec::ArrayString;
use std::ops::Range;
use unicode_segmentation::GraphemeCursor;
use crate::rope::array_string::{
    array_string_as_str, array_string_clone, array_string_new, array_string_push_str, array_string_text,
};
use crate::rope::bits::{after_last, bit, bits, count, first_at};
use crate::rope::bits::{
    lemma_after_last, lemma_after_last_is, lemma_bit_ops, lemma_bit_shift, lemma_bits_zero,
    lemma_count_bounds, lemma_count_ext, lemma_count_none, lemma_count_shift, lemma_count_split,
    lemma_count_zero, lemma_first_at, lemma_first_at_is, lemma_same_bits,
};
use crate::rope::chunk_spec::{
    boundary, ceil_boundary, char_start, floor_boundary, last_row, line_start, newline, offset_of,
    point_of, row_chars, row_end, row_start, row_text, tab, unit_offset, utf16_len, utf16_unit,
    MAX_BASE,
};
use crate::rope::chunk_spec::{
    lemma_beyond, lemma_boundary, lemma_masked, lemma_row_start, lemma_shifted,
    lemma_unit_offset_is,
};
use crate::rope::position::{Bias, OffsetUtf16, Point, PointUtf16, TextSummary, Unclipped};
use crate::rope::select::nth_set_bit;

verus! {

/// Whether four bit sets mark what they should in the bytes of a text.
pub open spec fn indexes(
    b: Seq<u8>,
    chars: u128,
    chars_utf16: u128,
    newlines: u128,
    tabs: u128,
) -> bool {
    &&& b.len() <= MAX_BASE
    &&& valid_utf8(b)
    &&& bits(chars) == char_start(b)
    &&& bits(chars_utf16) == utf16_unit(b)
    &&& bits(newlines) == newline(b)
    &&& bits(tabs) == tab(b)
}

/// A text of at most `MAX_BASE` bytes.
#[derive(Debug)]
pub struct Chunk {
    chars: u128,
    chars_utf16: u128,
    newlines: u128,
    tabs: u128,
    pub text: ArrayString<128>,
}

impl View for Chunk {
    type V = Seq<char>;

    closed spec fn view(&self) -> Seq<char> {
        array_string_text(self.text)
    }
}

impl Clone for Chunk {
    fn clone(&self) -> (copy: Chunk)
        ensures
            copy@ == self@,
            self.wf() ==> copy.wf(),
    {
        Chunk {
            chars: self.chars,
            chars_utf16: self.chars_utf16,
            newlines: self.newlines,
            tabs: self.tabs,
            text: array_string_clone(&self.text),
        }
    }
}

/// A part of a chunk.
#[derive(Clone, Copy, Debug)]
pub struct ChunkSlice<'a> {
    chars: u128,
    chars_utf16: u128,
    newlines: u128,
    tabs: u128,
    text: &'a str,
}

impl<'a> View for ChunkSlice<'a> {
    type V = Seq<char>;

    closed spec fn view(&self) -> Seq<char> {
        self.text@
    }
}

/// The set of the positions below `k`.
fn low_mask(k: usize) -> (mask: u128)
    requires
        k <= MAX_BASE,
    ensures
        forall|i: int| 0 <= i < 128 ==> #[trigger] bit(mask, i) == (i < k),
{
    if k == MAX_BASE {
        proof {
            assert forall|i: int| 0 <= i < 128 implies #[trigger] bit(u128::MAX, i) == (i < k) by {
                lemma_bit_ops(0, 0, i);
            }
        }
        u128::MAX
    } else {
        proof {
            lemma_bit_shift(0, k as int, 0);
            assert forall|i: int| 0 <= i < 128 implies #[trigger] bit(
                ((1u128 << (k as u128)) - 1) as u128,
                i,
            ) == (i < k) by {
                lemma_bit_shift(0, k as int, i);
            }
        }
        (1u128 << (k as u128)) - 1
    }
}

/// Adds position `ix` to a set where `on` says so.
fn with_bit(v: u128, ix: usize, on: bool) -> (r: u128)
    requires
        ix < MAX_BASE,
    ensures
        forall|i: int| #[trigger] bits(r)(i) == (bits(v)(i) || (on && i == ix)),
{
    if on {
        proof {
            assert forall|i: int| #[trigger]
                bits(v | (1u128 << (ix as u128)))(i) == (bits(v)(i) || i == ix) by {
                if 0 <= i < 128 {
                    lemma_bit_ops(v, 1u128 << (ix as u128), i);
                    lemma_bit_shift(0, ix as int, i);
                }
            }
        }
        v | (1u128 << (ix as u128))
    } else {
        v
    }
}

/// The union of a set with another one moved up by `k`.
fn with_shifted(v: u128, w: u128, k: usize) -> (r: u128)
    requires
        k < MAX_BASE,
    ensures
        forall|i: int|
            0 <= i < 128 ==> #[trigger] bits(r)(i) == (bits(v)(i) || (i >= k && bits(w)(i - k))),
{
    proof {
        assert forall|i: int| 0 <= i < 128 implies #[trigger] bits(v | (w << (k as u128)))(i) == (
        bits(v)(i) || (i >= k && bits(w)(i - k))) by {
            lemma_bit_ops(v, w << (k as u128), i);
            lemma_bit_shift(w, k as int, i);
        }
    }
    v | (w << (k as u128))
}

proof fn lemma_encode_concat(a: Seq<char>, b: Seq<char>)
    ensures
        encode_utf8(a + b) == encode_utf8(a) + encode_utf8(b),
    decreases a.len(),
{
    if a.len() == 0 {
        assert(a + b =~= b);
        assert(encode_utf8(a) =~= Seq::<u8>::empty());
    } else {
        assert((a + b).drop_first() =~= a.drop_first() + b);
        assert((a + b)[0] == a[0]);
        lemma_encode_concat(a.drop_first(), b);
        assert(encode_utf8(a + b) =~= encode_utf8(a) + encode_utf8(b));
    }
}

impl Default for Chunk {
    fn default() -> (chunk: Chunk)
        ensures
            chunk.wf(),
            chunk@ == Seq::<char>::empty(),
    {
        let text: ArrayString<128> = array_string_new();
        proof {
            assert(encode_utf8(array_string_text(text)) =~= Seq::<u8>::empty());
            lemma_no_bits(Seq::<u8>::empty());
        }
        Chunk { chars: 0, chars_utf16: 0, newlines: 0, tabs: 0, text }
    }
}

proof fn lemma_no_bits(b: Seq<u8>)
    requires
        b.len() == 0,
    ensures
        indexes(b, 0, 0, 0, 0),
{
    assert forall|i: int| !#[trigger] bits(0)(i) by {
        if 0 <= i < 128 {
            lemma_bit_ops(0, 0, i);
        }
    }
    assert(bits(0) =~= char_start(b));
    assert(bits(0) =~= utf16_unit(b));
    assert(bits(0) =~= newline(b));
    assert(bits(0) =~= tab(b));
}

impl Chunk {
    /// The UTF-8 bytes of the text.
    pub open spec fn bytes(&self) -> Seq<u8> {
        encode_utf8(self@)
    }

    /// The sets that mark characters, UTF-16 code units, line feeds and tabs.
    pub closed spec fn bit_sets(&self) -> (u128, u128, u128, u128) {
        (self.chars, self.chars_utf16, self.newlines, self.tabs)
    }

    /// The bit sets describe the text, which fits.
    pub closed spec fn wf(&self) -> bool {
        indexes(self.bytes(), self.chars, self.chars_utf16, self.newlines, self.tabs)
    }

    /// A chunk with the given text.
    pub fn new(text: &str) -> (chunk: Chunk)
        requires
            text.spec_bytes().len() <= MAX_BASE,
        ensures
            chunk.wf(),
            chunk@ == text@,
    {
        let mut this = Chunk::default();
        proof {
            assert(encode_utf8(this@) =~= Seq::<u8>::empty());
        }
        this.push_str(text);
        assert(this@ =~= text@);
        this
    }

    /// Appends a text.
    pub fn push_str(&mut self, text: &str)
        requires
            old(self).wf(),
            old(self).bytes().len() + text.spec_bytes().len() <= MAX_BASE,
        ensures
            final(self).wf(),
            final(self)@ == old(self)@ + text@,
    {
        let ghost b0: Seq<u8> = self.bytes();
        let ghost t: Seq<u8> = text.spec_bytes();
        let ghost b: Seq<u8> = b0 + t;
        let base: usize = array_string_as_str(&self.text).len();
        let bytes: &[u8] = text.as_bytes();
        let mut chars: u128 = self.chars;
        let mut chars_utf16: u128 = self.chars_utf16;
        let mut newlines: u128 = self.newlines;
        let mut tabs: u128 = self.tabs;
        proof {
            lemma_encode_concat(old(self)@, text@);
            vstd::utf8::encode_utf8_valid_utf8(old(self)@ + text@);
            vstd::utf8::encode_utf8_valid_utf8(text@);
            lemma_boundary(t, 0);
            assert forall|i: int| #[trigger] bits(chars)(i) == (i < base && char_start(b)(i)) by {}
            assert forall|i: int| #[trigger]
                bits(chars_utf16)(i) == (i < base && utf16_unit(b)(i)) by {}
            assert forall|i: int| #[trigger] bits(newlines)(i) == (i < base && newline(b)(i)) by {}
            assert forall|i: int| #[trigger] bits(tabs)(i) == (i < base && tab(b)(i)) by {}
        }
        let mut ix: usize = 0;
        while ix < bytes.len()
            invariant
                ix <= bytes@.len(),
                bytes@ == t,
                base == b0.len(),
                b == b0 + t,
                b.len() <= MAX_BASE,
                t.len() > 0 ==> !is_continuation_byte(t[0]),
                forall|i: int| #[trigger] bits(chars)(i) == (i < base + ix && char_start(b)(i)),
                forall|i: int| #[trigger]
                    bits(chars_utf16)(i) == (i < base + ix && utf16_unit(b)(i)),
                forall|i: int| #[trigger] bits(newlines)(i) == (i < base + ix && newline(b)(i)),
                forall|i: int| #[trigger] bits(tabs)(i) == (i < base + ix && tab(b)(i)),
            decreases bytes.len() - ix,
        {
            let byte: u8 = bytes[ix];
            let starts_char: bool = byte < 0x80 || byte >= 0xc0;
            let second_of_pair: bool = ix > 0 && bytes[ix - 1] >= 0xf0 && bytes[ix - 1] <= 0xf7;
            proof {
                assert(b[base + ix] == byte);
                if ix > 0 {
                    assert(b[base + ix - 1] == bytes@[ix - 1]);
                }
            }
            chars = with_bit(chars, base + ix, starts_char);
            chars_utf16 = with_bit(chars_utf16, base + ix, starts_char || second_of_pair);
            newlines = with_bit(newlines, base + ix, byte == 10);
            tabs = with_bit(tabs, base + ix, byte == 9);
            ix = ix + 1;
        }
        self.chars = chars;
        self.chars_utf16 = chars_utf16;
        self.newlines = newlines;
        self.tabs = tabs;
        array_string_push_str(&mut self.text, text);
        proof {
            assert(self.bytes() == b);
            assert(bits(chars) =~= char_start(b));
            assert(bits(chars_utf16) =~= utf16_unit(b));
            assert(bits(newlines) =~= newline(b));
            assert(bits(tabs) =~= tab(b));
        }
    }

    /// Appends a part of a chunk.
    pub fn append(&mut self, slice: ChunkSlice)
        requires
            old(self).wf(),
            slice.wf(),
            old(self).bytes().len() + slice.bytes().len() <= MAX_BASE,
        ensures
            final(self).wf(),
            final(self)@ == old(self)@ + slice@,
    {
        if slice.is_empty() {
            assert(slice@.len() == 0);
            assert(self@ + slice@ =~= self@);
            return;
        }
        let ghost b0: Seq<u8> = self.bytes();
        let ghost t: Seq<u8> = slice.bytes();
        let ghost b: Seq<u8> = b0 + t;
        let base_ix: usize = array_string_as_str(&self.text).len();
        proof {
            lemma_encode_concat(old(self)@, slice@);
            vstd::utf8::encode_utf8_valid_utf8(old(self)@ + slice@);
            lemma_boundary(t, 0);
            lemma_encode_nonempty(slice@);
        }
        self.chars = with_shifted(self.chars, slice.chars, base_ix);
        self.chars_utf16 = with_shifted(self.chars_utf16, slice.chars_utf16, base_ix);
        self.newlines = with_shifted(self.newlines, slice.newlines, base_ix);
        self.tabs = with_shifted(self.tabs, slice.tabs, base_ix);
        array_string_push_str(&mut self.text, slice.text);
        proof {
            assert(self.bytes() == b);
            assert(bits(self.chars) =~= char_start(b));
            assert(bits(self.chars_utf16) =~= utf16_unit(b));
            assert(bits(self.newlines) =~= newline(b));
            assert(bits(self.tabs) =~= tab(b));
        }
    }

    /// The whole chunk.
    pub fn as_slice(&self) -> (slice: ChunkSlice<'_>)
        requires
            self.wf(),
        ensures
            slice.wf(),
            slice@ == self@,
    {
        ChunkSlice {
            chars: self.chars,
            chars_utf16: self.chars_utf16,
            newlines: self.newlines,
            tabs: self.tabs,
            text: array_string_as_str(&self.text),
        }
    }

    /// The part of the chunk in a range of bytes.
    pub fn slice(&self, range: Range<usize>) -> (slice: ChunkSlice<'_>)
        requires
            self.wf(),
            range.end <= MAX_BASE,
            range.start == MAX_BASE || (range.start <= range.end && boundary(
                self.bytes(),
                range.start as int,
            ) && boundary(self.bytes(), range.end as int)),
        ensures
            slice.wf(),
            slice.bytes() == (if range.start == MAX_BASE {
                Seq::<u8>::empty()
            } else {
                self.bytes().subrange(range.start as int, range.end as int)
            }),
    {
        self.as_slice().slice(range)
    }
}

proof fn lemma_encode_nonempty(s: Seq<char>)
    requires
        s.len() > 0,
    ensures
        encode_utf8(s).len() > 0,
{
    vstd::utf8::encode_utf8_first_scalar(s);
}

impl<'a> ChunkSlice<'a> {
    /// The UTF-8 bytes of the text.
    pub open spec fn bytes(&self) -> Seq<u8> {
        encode_utf8(self@)
    }

    /// The bit sets describe the text, which fits in a chunk.
    pub closed spec fn wf(&self) -> bool {
        indexes(self.bytes(), self.chars, self.chars_utf16, self.newlines, self.tabs)
    }

    /// A chunk with the same text.
    pub fn to_chunk(self) -> (chunk: Chunk)
        requires
            self.wf(),
        ensures
            chunk.wf(),
            chunk@ == self@,
    {
        let mut text: ArrayString<128> = array_string_new();
        proof {
            assert(encode_utf8(array_string_text(text)) =~= Seq::<u8>::empty());
        }
        array_string_push_str(&mut text, self.text);
        assert(array_string_text(text) =~= self@);
        Chunk {
            chars: self.chars,
            chars_utf16: self.chars_utf16,
            newlines: self.newlines,
            tabs: self.tabs,
            text,
        }
    }

    pub fn is_empty(self) -> (r: bool)
        ensures
            r == (self@.len() == 0),
    {
        self.text.is_empty()
    }

    pub fn is_char_boundary(self, offset: usize) -> (r: bool)
        requires
            self.wf(),
        ensures
            r == boundary(self.bytes(), offset as int),
    {
        proof {
            lemma_boundary(self.bytes(), offset as int);
        }
        self.text.is_char_boundary(offset)
    }

    /// Splits the text at an offset.
    pub fn split_at(self, mid: usize) -> (parts: (ChunkSlice<'a>, ChunkSlice<'a>))
        requires
            self.wf(),
            mid == MAX_BASE || boundary(self.bytes(), mid as int),
        ensures
            parts.0.wf(),
            parts.1.wf(),
            mid <= self.bytes().len() ==> parts.0.bytes() == self.bytes().subrange(0, mid as int)
                && parts.1.bytes() == self.bytes().subrange(mid as int, self.bytes().len() as int),
            mid > self.bytes().len() ==> parts.0@ == self@ && parts.1@ == Seq::<char>::empty(),
    {
        let ghost b: Seq<u8> = self.bytes();
        if mid == MAX_BASE {
            let right = ChunkSlice { chars: 0, chars_utf16: 0, newlines: 0, tabs: 0, text: "" };
            proof {
                reveal_strlit("");
                assert(right@ =~= Seq::<char>::empty());
                assert(right.bytes() =~= Seq::<u8>::empty());
                lemma_no_bits(right.bytes());
                assert(b.subrange(0, b.len() as int) =~= b);
            }
            (self, right)
        } else {
            let mask: u128 = low_mask(mid);
            proof {
                lemma_boundary(b, mid as int);
                lemma_boundary(b, b.len() as int);
                vstd::utf8::valid_utf8_split(b, mid as int);
                lemma_masked(self.chars, mask, mid as int);
                lemma_masked(self.chars_utf16, mask, mid as int);
                lemma_masked(self.newlines, mask, mid as int);
                lemma_masked(self.tabs, mask, mid as int);
                lemma_shifted(self.chars, mid as int);
                lemma_shifted(self.chars_utf16, mid as int);
                lemma_shifted(self.newlines, mid as int);
                lemma_shifted(self.tabs, mid as int);
            }
            let (left_text, right_text) = self.text.split_at(mid);
            let left = ChunkSlice {
                chars: self.chars & mask,
                chars_utf16: self.chars_utf16 & mask,
                newlines: self.newlines & mask,
                tabs: self.tabs & mask,
                text: left_text,
            };
            let right = ChunkSlice {
                chars: self.chars >> (mid as u128),
                chars_utf16: self.chars_utf16 >> (mid as u128),
                newlines: self.newlines >> (mid as u128),
                tabs: self.tabs >> (mid as u128),
                text: right_text,
            };
            proof {
                let l: Seq<u8> = left.bytes();
                assert(bits(left.chars) =~= char_start(l));
                assert(bits(left.chars_utf16) =~= utf16_unit(l));
                assert(bits(left.newlines) =~= newline(l));
                assert(bits(left.tabs) =~= tab(l));
                let r: Seq<u8> = right.bytes();
                assert(bits(right.chars) =~= char_start(r));
                assert(bits(right.chars_utf16) =~= utf16_unit(r));
                assert(bits(right.newlines) =~= newline(r));
                assert(bits(right.tabs) =~= tab(r));
            }
            (left, right)
        }
    }

    /// The part of the text in a range of bytes.
    pub fn slice(self, range: Range<usize>) -> (slice: ChunkSlice<'a>)
        requires
            self.wf(),
            range.end <= MAX_BASE,
            range.start == MAX_BASE || (range.start <= range.end && boundary(
                self.bytes(),
                range.start as int,
            ) && boundary(self.bytes(), range.end as int)),
        ensures
            slice.wf(),
            slice.bytes() == (if range.start == MAX_BASE {
                Seq::<u8>::empty()
            } else {
                self.bytes().subrange(range.start as int, range.end as int)
            }),
    {
        let ghost b: Seq<u8> = self.bytes();
        if range.start == MAX_BASE {
            let empty = ChunkSlice { chars: 0, chars_utf16: 0, newlines: 0, tabs: 0, text: "" };
            proof {
                reveal_strlit("");
                assert(empty@ =~= Seq::<char>::empty());
                assert(empty.bytes() =~= Seq::<u8>::empty());
                lemma_no_bits(empty.bytes());
            }
            empty
        } else {
            let (left, _) = self.split_at(range.end);
            proof {
                let l: Seq<u8> = left.bytes();
                assert(l == b.subrange(0, range.end as int));
                assert(boundary(l, range.start as int));
            }
            let (_, middle) = left.split_at(range.start);
            proof {
                assert(middle.bytes() =~= b.subrange(range.start as int, range.end as int));
            }
            middle
        }
    }
}

/// What the bit sets say of the text, in the form that the conversions use.
proof fn lemma_sets_end(b: Seq<u8>)
    requires
        b.len() <= 128,
    ensures
        forall|i: int| b.len() <= i < 128 ==> !#[trigger] char_start(b)(i),
        forall|i: int| b.len() <= i < 128 ==> !#[trigger] utf16_unit(b)(i),
        forall|i: int| b.len() <= i < 128 ==> !#[trigger] newline(b)(i),
        count(char_start(b), 0, 128) == count(char_start(b), 0, b.len() as int),
        count(utf16_unit(b), 0, 128) == utf16_len(b),
        count(newline(b), 0, 128) == last_row(b),
        after_last(newline(b), 128) == line_start(b, b.len() as int),
        last_row(b) <= b.len(),
        utf16_len(b) <= b.len(),
        0 <= line_start(b, b.len() as int) <= b.len(),
{
    lemma_beyond(char_start(b), 0, b.len() as int, 128);
    lemma_beyond(utf16_unit(b), 0, b.len() as int, 128);
    lemma_beyond(newline(b), 0, b.len() as int, 128);
    lemma_count_bounds(newline(b), 0, b.len() as int);
    lemma_count_bounds(utf16_unit(b), 0, b.len() as int);
    lemma_after_last(newline(b), b.len() as int);
}

/// Counting what lies after the last line feed.
proof fn lemma_after_mask(v: u128, newlines: u128, mask: u128, k: int)
    requires
        0 <= k <= 128,
        forall|i: int| 0 <= i < 128 ==> #[trigger] bit(mask, i) == (i >= k),
    ensures
        count(bits(v & mask), 0, 128) == count(bits(v), k, 128),
{
    let q = bits(v & mask);
    assert forall|i: int| 0 <= i < 128 implies #[trigger] q(i) == (i >= k && bits(v)(i)) by {
        lemma_bit_ops(v, mask, i);
        assert(bit(mask, i) == (i >= k));
    }
    lemma_count_split(q, 0, k, 128);
    lemma_count_none(q, 0, k);
    lemma_count_ext(q, bits(v), k, 128);
}

/// The set of the positions after the highest one in `newlines`.
fn mask_after(newlines: u128) -> (mask: u128)
    requires
        newlines != 0,
    ensures
        forall|i: int|
            0 <= i < 128 ==> #[trigger] bit(mask, i) == (i >= after_last(bits(newlines), 128)),
{
    let ghost k: int = after_last(bits(newlines), 128);
    proof {
        lemma_after_last(bits(newlines), 128);
        if k == 0 {
            assert forall|i: int| 0 <= i < 128 implies !#[trigger] bit(newlines, i) by {
                assert(!bits(newlines)(i));
            }
            lemma_bits_zero(newlines);
        }
    }
    let zeros: u32 = newlines.leading_zeros();
    let low: u128 = u128::MAX >> (zeros as u128);
    proof {
        assert forall|i: int| 0 <= i < 128 implies #[trigger] bit(!low, i) == (i >= k) by {
            lemma_bit_ops(low, 0, i);
            lemma_bit_shift(u128::MAX, zeros as int, i);
            if i + zeros < 128 {
                lemma_bit_ops(0, 0, i + zeros);
            }
        }
    }
    !low
}

/// Whether an offset of a text is a boundary between grapheme clusters.
pub uninterp spec fn grapheme_boundary(text: Seq<char>, offset: int) -> bool;

/// `GraphemeCursor::is_boundary`, on a cursor that `GraphemeCursor::new` puts at
/// an offset of a text that is given whole. The two ends of the text are
/// boundaries. An offset inside a character is left out: the text cannot be
/// cut there.
#[verifier::external_body]
fn is_grapheme_boundary(text: &str, offset: usize) -> (r: bool)
    requires
        boundary(encode_utf8(text@), offset as int),
    ensures
        r == grapheme_boundary(text@, offset as int),
        offset == 0 || offset == encode_utf8(text@).len() ==> r,
{
    GraphemeCursor::new(offset, text.len(), true).is_boundary(text, 0).unwrap_or(false)
}

/// Whether a column of a row can hold a cursor: it lies between two characters
/// and between two grapheme clusters.
pub open spec fn cursor_column(text: Seq<char>, o: int) -> bool {
    boundary(encode_utf8(text), o) && (o == 0 || o == encode_utf8(text).len() || grapheme_boundary(
        text,
        o,
    ))
}

/// The last column at or before `o` that can hold a cursor.
pub open spec fn floor_cursor(text: Seq<char>, o: int) -> int
    decreases o,
{
    if o <= 0 {
        0
    } else if cursor_column(text, o) {
        o
    } else {
        floor_cursor(text, o - 1)
    }
}

/// The first column at or after `o` that can hold a cursor.
pub open spec fn ceil_cursor(text: Seq<char>, o: int) -> int
    decreases encode_utf8(text).len() - o,
{
    if o >= encode_utf8(text).len() {
        encode_utf8(text).len() as int
    } else if cursor_column(text, o) {
        o
    } else {
        ceil_cursor(text, o + 1)
    }
}

/// The column that a column of a row is clipped to. Between two ASCII bytes any
/// column will do.
pub open spec fn clipped_column(text: Seq<char>, column: int, bias: Bias) -> int {
    let b = encode_utf8(text);
    if column == 0 {
        0
    } else if column >= b.len() {
        b.len() as int
    } else if b[column - 1] < 128 && b[column] < 128 {
        column
    } else {
        match bias {
            Bias::Left => floor_cursor(text, column),
            Bias::Right => ceil_cursor(text, column),
        }
    }
}

/// The number of code units that a number of code units is clipped to, so that
/// it does not part a surrogate pair.
pub open spec fn clipped_units(b: Seq<u8>, target: nat, bias: Bias) -> nat {
    if target == 0 {
        0
    } else if target >= utf16_len(b) {
        utf16_len(b)
    } else {
        match bias {
            Bias::Left => count(utf16_unit(b), 0, floor_boundary(b, unit_offset(b, target))),
            Bias::Right => count(utf16_unit(b), 0, ceil_boundary(b, unit_offset(b, target))),
        }
    }
}

/// The row and UTF-16 column of an offset.
pub open spec fn point_utf16_of(b: Seq<u8>, o: int) -> PointUtf16 {
    PointUtf16 {
        row: count(newline(b), 0, o) as u32,
        column: count(utf16_unit(b), line_start(b, o), o) as u32,
    }
}

/// The offset of a UTF-16 point. A column past the end of its row gives the
/// length of the row.
pub open spec fn offset_of_utf16(b: Seq<u8>, point: PointUtf16) -> int {
    if point.row > last_row(b) {
        b.len() as int
    } else {
        let line = row_text(b, point.row as nat);
        if point.column > utf16_len(line) {
            line.len() as int
        } else {
            floor_boundary(
                b,
                row_start(b, point.row as nat) + unit_offset(line, point.column as nat),
            )
        }
    }
}

/// The point of a UTF-16 point that need not lie in the text.
pub open spec fn point_of_unclipped(b: Seq<u8>, point: PointUtf16) -> Point {
    if point.row > last_row(b) {
        point_of(b, b.len() as int)
    } else {
        let line = row_text(b, point.row as nat);
        Point {
            row: point.row,
            column: (if point.column >= utf16_len(line) {
                line.len() as int
            } else {
                floor_boundary(line, unit_offset(line, point.column as nat))
            }) as u32,
        }
    }
}

/// What the summary of a text says.
pub open spec fn summary_of(b: Seq<u8>, s: TextSummary) -> bool {
    let n: int = b.len() as int;
    &&& s.len == n
    &&& s.chars == count(char_start(b), 0, n)
    &&& s.len_utf16.0 == utf16_len(b)
    &&& s.lines == point_of(b, n)
    &&& s.first_line_chars == row_chars(b, 0)
    &&& s.last_line_chars == count(char_start(b), line_start(b, n), n)
    &&& s.last_line_len_utf16 == count(utf16_unit(b), line_start(b, n), n)
    &&& is_longest_row(b, s.longest_row as nat, s.longest_row_chars as nat)
}

/// Whether `row` is the first of the rows with the most characters, `chars`.
pub open spec fn is_longest_row(b: Seq<u8>, row: nat, chars: nat) -> bool {
    &&& row <= last_row(b)
    &&& chars == row_chars(b, row)
    &&& forall|r: nat| r <= last_row(b) ==> #[trigger] row_chars(b, r) <= chars
    &&& forall|r: nat| r < row ==> #[trigger] row_chars(b, r) < chars
}

/// Rows start at a boundary and end at one.
pub proof fn lemma_row_boundaries(b: Seq<u8>, row: nat)
    requires
        valid_utf8(b),
        row <= last_row(b),
    ensures
        boundary(b, row_start(b, row)),
        boundary(b, row_end(b, row)),
{
    lemma_row_start(b, row);
    lemma_boundary(b, 0);
    lemma_row_end_is_ascii(b, row);
    let s: int = row_start(b, row);
    if row > 0 && s < b.len() {
        lemma_after_newline(b, s - 1);
    }
}

proof fn lemma_row_end_is_ascii(b: Seq<u8>, row: nat)
    requires
        row <= last_row(b),
    ensures
        row_end(b, row) < b.len() ==> b[row_end(b, row)] == 10,
{
    lemma_row_start(b, row);
}

/// The byte after a line feed starts a character.
proof fn lemma_after_newline(b: Seq<u8>, i: int)
    requires
        valid_utf8(b),
        0 <= i,
        i + 1 < b.len(),
        b[i] == 10,
    ensures
        !is_continuation_byte(b[i + 1]),
{
    lemma_boundary(b, i);
    vstd::utf8::valid_utf8_split(b, i);
    let t: Seq<u8> = b.subrange(i, b.len() as int);
    assert(t[0] == 10);
    assert(vstd::utf8::valid_first_scalar(t));
    let rest: Seq<u8> = vstd::utf8::pop_first_scalar(t);
    assert(valid_utf8(rest));
    assert(rest[0] == b[i + 1]);
    lemma_boundary(rest, 0);
}

impl<'a> ChunkSlice<'a> {
    /// The length in bytes, in characters and in UTF-16 code units, and the
    /// first, last and longest row.
    pub fn text_summary(&self) -> (summary: TextSummary)
        requires
            self.wf(),
        ensures
            summary_of(self.bytes(), summary),
    {
        let mut chars: usize = 0;
        let (longest_row, longest_row_chars) = self.longest_row(&mut chars);
        TextSummary {
            len: self.len(),
            chars,
            len_utf16: self.len_utf16(),
            lines: self.lines(),
            first_line_chars: self.first_line_chars(),
            last_line_chars: self.last_line_chars(),
            last_line_len_utf16: self.last_line_len_utf16(),
            longest_row,
            longest_row_chars,
        }
    }

    /// The length in bytes.
    pub fn len(&self) -> (r: usize)
        requires
            self.wf(),
        ensures
            r == self.bytes().len(),
            r <= MAX_BASE,
    {
        self.text.len()
    }

    /// The length in UTF-16 code units.
    pub fn len_utf16(&self) -> (r: OffsetUtf16)
        requires
            self.wf(),
        ensures
            r.0 == utf16_len(self.bytes()),
    {
        proof {
            lemma_sets_end(self.bytes());
        }
        OffsetUtf16(self.chars_utf16.count_ones() as usize)
    }

    /// The end of the text: how many line feeds it has, and how many bytes follow
    /// the last one.
    pub fn lines(&self) -> (r: Point)
        requires
            self.wf(),
        ensures
            r == point_of(self.bytes(), self.bytes().len() as int),
            r.row == last_row(self.bytes()),
    {
        proof {
            lemma_sets_end(self.bytes());
        }
        let row: u32 = self.newlines.count_ones();
        let column: u32 = self.newlines.leading_zeros() - (128 - self.text.len() as u32);
        Point::new(row, column)
    }

    /// The number of characters on the first row.
    pub fn first_line_chars(&self) -> (r: u32)
        requires
            self.wf(),
        ensures
            r == row_chars(self.bytes(), 0),
    {
        let ghost b: Seq<u8> = self.bytes();
        proof {
            lemma_sets_end(b);
            lemma_first_at(newline(b), 0, b.len() as int);
        }
        if self.newlines == 0 {
            proof {
                assert forall|i: int| 0 <= i < b.len() implies !#[trigger] newline(b)(i) by {
                    lemma_bit_ops(0, 0, i);
                    assert(!bits(self.newlines)(i));
                }
                lemma_first_at_is(newline(b), 0, b.len() as int, b.len() as int);
            }
            self.chars.count_ones()
        } else {
            proof {
                lemma_first_newline(self.newlines, b);
            }
            let end: u32 = self.newlines.trailing_zeros();
            let mask: u128 = low_mask(end as usize);
            proof {
                lemma_masked(self.chars, mask, end as int);
            }
            (self.chars & mask).count_ones()
        }
    }

    /// The number of characters on the last row.
    pub fn last_line_chars(&self) -> (r: u32)
        requires
            self.wf(),
        ensures
            r == count(
                char_start(self.bytes()),
                line_start(self.bytes(), self.bytes().len() as int),
                self.bytes().len() as int,
            ),
    {
        let ghost b: Seq<u8> = self.bytes();
        let ghost n: int = b.len() as int;
        proof {
            lemma_sets_end(b);
            lemma_beyond(char_start(b), line_start(b, n), n, 128);
        }
        if self.newlines == 0 {
            proof {
                lemma_no_newlines(self.newlines, b);
            }
            self.chars.count_ones()
        } else {
            let mask: u128 = mask_after(self.newlines);
            proof {
                lemma_after_mask(self.chars, self.newlines, mask, line_start(b, n));
            }
            (self.chars & mask).count_ones()
        }
    }

    /// The number of UTF-16 code units on the last row.
    pub fn last_line_len_utf16(&self) -> (r: u32)
        requires
            self.wf(),
        ensures
            r == count(
                utf16_unit(self.bytes()),
                line_start(self.bytes(), self.bytes().len() as int),
                self.bytes().len() as int,
            ),
    {
        let ghost b: Seq<u8> = self.bytes();
        let ghost n: int = b.len() as int;
        proof {
            lemma_sets_end(b);
            lemma_beyond(utf16_unit(b), line_start(b, n), n, 128);
        }
        if self.newlines == 0 {
            proof {
                lemma_no_newlines(self.newlines, b);
            }
            self.chars_utf16.count_ones()
        } else {
            let mask: u128 = mask_after(self.newlines);
            proof {
                lemma_after_mask(self.chars_utf16, self.newlines, mask, line_start(b, n));
            }
            (self.chars_utf16 & mask).count_ones()
        }
    }

    /// The first of the rows with the most characters and its length in
    /// characters. Counts the characters of the text along the way.
    pub fn longest_row(&self, total_chars: &mut usize) -> (r: (u32, u32))
        requires
            self.wf(),
        ensures
            is_longest_row(self.bytes(), r.0 as nat, r.1 as nat),
            *final(total_chars) == count(
                char_start(self.bytes()),
                0,
                self.bytes().len() as int,
            ),
    {
        let ghost b: Seq<u8> = self.bytes();
        let ghost n: int = b.len() as int;
        let ghost mut pos: int = 0;
        let mut chars: u128 = self.chars;
        let mut newlines: u128 = self.newlines;
        let mut total: usize = 0;
        let mut row: u32 = 0;
        let mut longest_row: u32 = 0;
        let mut longest_row_chars: u8 = 0;
        proof {
            lemma_sets_end(b);
            lemma_count_bounds(char_start(b), 0, 0);
            lemma_row_start(b, 0);
        }
        while newlines > 0
            invariant
                n == b.len(),
                n <= 128,
                pos == row_start(b, row as nat),
                row <= last_row(b) <= n,
                0 <= pos <= n,
                forall|i: int| #[trigger] bits(chars)(i) == (i >= 0 && char_start(b)(i + pos)),
                forall|i: int| #[trigger] bits(newlines)(i) == (i >= 0 && newline(b)(i + pos)),
                total == count(char_start(b), 0, pos),
                longest_row <= row,
                row == 0 ==> longest_row_chars == 0,
                row > 0 ==> longest_row < row || longest_row_chars == 0,
                longest_row < row ==> longest_row_chars == row_chars(b, longest_row as nat),
                forall|r: nat| r < row ==> #[trigger] row_chars(b, r) <= longest_row_chars,
                forall|r: nat| r < longest_row ==> #[trigger] row_chars(b, r) < longest_row_chars,
                row > 0 ==> longest_row < row,
            decreases last_row(b) - row,
        {
            let ghost e: int = row_end(b, row as nat);
            proof {
                lemma_row_start(b, row as nat);
                lemma_row_found(newlines, b, pos);
            }
            let newline_ix: u32 = newlines.trailing_zeros();
            let mask: u128 = low_mask(newline_ix as usize);
            proof {
                lemma_masked(chars, mask, newline_ix as int);
                lemma_count_shift(bits(chars), char_start(b), 0, newline_ix as int, pos);
                lemma_count_bounds(char_start(b), pos, e);
                lemma_count_bounds(char_start(b), 0, e + 1);
                lemma_count_split(char_start(b), 0, pos, e);
                assert(count(char_start(b), 0, e + 1) == count(char_start(b), 0, e) + 1);
            }
            let row_chars: u8 = (chars & mask).count_ones() as u8;
            total = total + row_chars as usize;
            if row_chars > longest_row_chars {
                longest_row = row;
                longest_row_chars = row_chars;
            }
            proof {
                lemma_shifted(newlines, newline_ix as int);
                lemma_shifted(newlines >> (newline_ix as u128), 1);
                lemma_shifted(chars, newline_ix as int);
                lemma_shifted(chars >> (newline_ix as u128), 1);
            }
            newlines = newlines >> (newline_ix as u128);
            newlines = newlines >> 1u128;
            chars = chars >> (newline_ix as u128);
            chars = chars >> 1u128;
            proof {
                assert(pos + newline_ix == e);
                pos = e + 1;
                lemma_row_start(b, (row + 1) as nat);
            }
            row = row + 1;
            total = total + 1;
        }
        proof {
            lemma_row_start(b, row as nat);
            lemma_last_row_reached(newlines, b, pos, row as nat);
            lemma_count_split(char_start(b), 0, pos, n);
            lemma_count_bounds(char_start(b), 0, n);
            lemma_count_bounds(char_start(b), pos, n);
            lemma_count_split(bits(chars), 0, n - pos, 128);
            lemma_count_none(bits(chars), n - pos, 128);
            lemma_count_shift(bits(chars), char_start(b), 0, n - pos, pos);
        }
        let row_chars: u8 = chars.count_ones() as u8;
        total = total + row_chars as usize;
        *total_chars = total;
        if row_chars > longest_row_chars {
            (row, row_chars as u32)
        } else {
            (longest_row, longest_row_chars as u32)
        }
    }

    /// The row and column of an offset.
    pub fn offset_to_point(&self, offset: usize) -> (r: Point)
        requires
            self.wf(),
            offset <= MAX_BASE,
        ensures
            r == point_of(self.bytes(), offset as int),
    {
        let mask: u128 = low_mask(offset);
        proof {
            lemma_masked(self.newlines, mask, offset as int);
            lemma_after_last(newline(self.bytes()), offset as int);
        }
        let row: u32 = (self.newlines & mask).count_ones();
        let newline_ix: u32 = 128 - (self.newlines & mask).leading_zeros();
        let column: u32 = (offset - newline_ix as usize) as u32;
        Point::new(row, column)
    }

    /// The offset of a point. A row past the end gives the end of the text, a
    /// column past the end of its row gives the end of the row.
    pub fn point_to_offset(&self, point: Point) -> (r: usize)
        requires
            self.wf(),
        ensures
            r == offset_of(self.bytes(), point),
            r <= self.bytes().len(),
    {
        if point.row > self.lines().row {
            return self.len();
        }
        proof {
            lemma_row_start(self.bytes(), point.row as nat);
        }
        let row_offset_range: Range<usize> = self.offset_range_for_row(point.row);
        let row_len: usize = row_offset_range.end - row_offset_range.start;
        if point.column > row_len as u32 {
            row_offset_range.end
        } else {
            row_offset_range.start + point.column as usize
        }
    }

    /// The number of UTF-16 code units before an offset.
    pub fn offset_to_offset_utf16(&self, offset: usize) -> (r: OffsetUtf16)
        requires
            self.wf(),
            offset <= MAX_BASE,
        ensures
            r.0 == count(utf16_unit(self.bytes()), 0, offset as int),
    {
        let mask: u128 = low_mask(offset);
        proof {
            lemma_masked(self.chars_utf16, mask, offset as int);
        }
        OffsetUtf16((self.chars_utf16 & mask).count_ones() as usize)
    }

    /// The offset that follows a number of UTF-16 code units.
    pub fn offset_utf16_to_offset(&self, target: OffsetUtf16) -> (r: usize)
        requires
            self.wf(),
            target.0 <= utf16_len(self.bytes()),
        ensures
            r == unit_offset(self.bytes(), target.0 as nat),
            r <= self.bytes().len(),
    {
        let ghost b: Seq<u8> = self.bytes();
        let ghost p = utf16_unit(b);
        proof {
            lemma_sets_end(b);
            lemma_boundary(b, 0);
        }
        if target.0 == 0 {
            0
        } else {
            let ix: usize = nth_set_bit(self.chars_utf16, target.0) + 1;
            proof {
                assert(bits(self.chars_utf16)(ix - 1));
                assert(p(ix - 1));
                assert(count(p, 0, ix as int) == count(p, 0, ix - 1) + 1);
            }
            if ix == MAX_BASE {
                proof {
                    lemma_unit_offset_is(b, target.0 as nat, ix as int);
                }
                MAX_BASE
            } else {
                proof {
                    lemma_shifted(self.chars_utf16, ix as int);
                    lemma_beyond(p, ix as int, b.len() as int, 128);
                    lemma_first_at(p, ix as int, b.len() as int);
                }
                let zeros: usize = (self.chars_utf16 >> (ix as u128)).trailing_zeros() as usize;
                let rest: usize = self.text.len() - ix;
                let utf8_additional_len: usize = if zeros < rest {
                    zeros
                } else {
                    rest
                };
                proof {
                    let o: int = ix + utf8_additional_len;
                    assert(o == first_at(p, ix as int, b.len() as int));
                    lemma_count_split(p, 0, ix as int, o);
                    lemma_count_none(p, ix as int, o);
                    lemma_unit_offset_is(b, target.0 as nat, o);
                }
                ix + utf8_additional_len
            }
        }
    }

    /// The row and UTF-16 column of an offset.
    pub fn offset_to_point_utf16(&self, offset: usize) -> (r: PointUtf16)
        requires
            self.wf(),
            offset <= MAX_BASE,
        ensures
            r == point_utf16_of(self.bytes(), offset as int),
    {
        let ghost p = utf16_unit(self.bytes());
        let mask: u128 = low_mask(offset);
        proof {
            lemma_masked(self.newlines, mask, offset as int);
            lemma_masked(self.chars_utf16, mask, offset as int);
            lemma_after_last(newline(self.bytes()), offset as int);
        }
        let row: u32 = (self.newlines & mask).count_ones();
        let newline_ix: u32 = 128 - (self.newlines & mask).leading_zeros();
        let column: u32 = if newline_ix as usize == MAX_BASE {
            proof {
                lemma_count_bounds(p, 128, offset as int);
            }
            0
        } else {
            proof {
                let masked: u128 = self.chars_utf16 & mask;
                lemma_shifted(masked, newline_ix as int);
                lemma_count_split(bits(masked), newline_ix as int, offset as int, 128);
                lemma_count_none(bits(masked), offset as int, 128);
                lemma_count_ext(bits(masked), p, newline_ix as int, offset as int);
            }
            ((self.chars_utf16 & mask) >> (newline_ix as u128)).count_ones()
        };
        PointUtf16::new(row, column)
    }

    /// The UTF-16 point of a point.
    pub fn point_to_point_utf16(&self, point: Point) -> (r: PointUtf16)
        requires
            self.wf(),
        ensures
            r == point_utf16_of(self.bytes(), offset_of(self.bytes(), point)),
    {
        self.offset_to_point_utf16(self.point_to_offset(point))
    }

    /// The offset of a UTF-16 point. A row past the end gives the end of the
    /// text, a column past the end of its row gives the length of the row.
    pub fn point_utf16_to_offset(&self, point: PointUtf16) -> (r: usize)
        requires
            self.wf(),
        ensures
            r == offset_of_utf16(self.bytes(), point),
    {
        let ghost b: Seq<u8> = self.bytes();
        let lines: Point = self.lines();
        if point.row > lines.row {
            return self.len();
        }
        proof {
            lemma_row_start(b, point.row as nat);
            lemma_row_boundaries(b, point.row as nat);
            lemma_boundary(b, 0);
        }
        let row_offset_range: Range<usize> = self.offset_range_for_row(point.row);
        let start: usize = row_offset_range.start;
        let line: ChunkSlice<'a> = self.slice(row_offset_range);
        proof {
            assert(line.bytes() =~= row_text(b, point.row as nat));
            lemma_row_has_no_newline(b, point.row as nat);
        }
        if point.column > line.last_line_len_utf16() {
            return line.len();
        }
        let mut offset: usize = start;
        if point.column > 0 {
            let columns: usize = line.offset_utf16_to_offset(OffsetUtf16(point.column as usize));
            offset = offset + columns;
            let ghost target: int = offset as int;
            while !self.is_char_boundary(offset)
                invariant
                    self.wf(),
                    b == self.bytes(),
                    offset <= b.len(),
                    boundary(b, 0),
                    floor_boundary(b, target) == floor_boundary(b, offset as int),
                decreases offset,
            {
                offset = offset - 1;
            }
        }
        offset
    }

    /// The point of a UTF-16 point that need not lie in the text: clipped to its
    /// row and to the text, and moved back where it would part a character.
    pub fn unclipped_point_utf16_to_point(&self, point: Unclipped<PointUtf16>) -> (r: Point)
        requires
            self.wf(),
        ensures
            r == point_of_unclipped(self.bytes(), point.0),
    {
        let ghost b: Seq<u8> = self.bytes();
        let max_point: Point = self.lines();
        if point.0.row > max_point.row {
            return max_point;
        }
        proof {
            lemma_row_start(b, point.0.row as nat);
            lemma_row_boundaries(b, point.0.row as nat);
        }
        let row_offset_range: Range<usize> = self.offset_range_for_row(point.0.row);
        let line: ChunkSlice<'a> = self.slice(row_offset_range);
        let ghost l: Seq<u8> = line.bytes();
        proof {
            assert(l =~= row_text(b, point.0.row as nat));
            lemma_boundary(l, 0);
            lemma_sets_end(l);
            lemma_units_of_nonempty(l);
        }
        if point.0.column == 0 {
            Point::new(point.0.row, 0)
        } else if point.0.column >= line.len_utf16().0 as u32 {
            Point::new(point.0.row, line.len() as u32)
        } else {
            let mut column: usize = line.offset_utf16_to_offset(
                OffsetUtf16(point.0.column as usize),
            );
            let ghost target: int = column as int;
            while !line.is_char_boundary(column)
                invariant
                    line.wf(),
                    l == line.bytes(),
                    column <= l.len(),
                    boundary(l, 0),
                    floor_boundary(l, target) == floor_boundary(l, column as int),
                decreases column,
            {
                column = column - 1;
            }
            Point::new(point.0.row, column as u32)
        }
    }

    /// Clips a point to the text and to a boundary between grapheme clusters.
    pub fn clip_point(&self, point: Point, bias: Bias) -> (r: Point)
        requires
            self.wf(),
        ensures
            point.row > last_row(self.bytes()) ==> r == point_of(
                self.bytes(),
                self.bytes().len() as int,
            ),
            point.row <= last_row(self.bytes()) ==> exists|line: Seq<char>|
                #![trigger encode_utf8(line)]
                encode_utf8(line) == row_text(self.bytes(), point.row as nat) && r == (Point {
                    row: point.row,
                    column: clipped_column(line, point.column as int, bias) as u32,
                }),
    {
        let ghost b: Seq<u8> = self.bytes();
        let max_point: Point = self.lines();
        if point.row > max_point.row {
            return max_point;
        }
        proof {
            lemma_row_start(b, point.row as nat);
            lemma_row_boundaries(b, point.row as nat);
        }
        let line: ChunkSlice<'a> = self.slice(self.offset_range_for_row(point.row));
        let ghost l: Seq<u8> = line.bytes();
        proof {
            assert(l =~= row_text(b, point.row as nat));
            lemma_boundary(l, 0);
            assert(encode_utf8(line@) == l);
        }
        if point.column == 0 {
            point
        } else if point.column >= line.len() as u32 {
            Point::new(point.row, line.len() as u32)
        } else {
            let mut column: usize = point.column as usize;
            let bytes: &[u8] = line.text.as_bytes();
            if bytes[column - 1] < 128 && bytes[column] < 128 {
                return Point::new(point.row, column as u32);
            }
            let ghost target: int = column as int;
            loop
                invariant_except_break
                    line.wf(),
                    l == line.bytes(),
                    0 <= column <= l.len() <= 128,
                    boundary(l, 0),
                    bias == Bias::Left ==> floor_cursor(line@, target) == floor_cursor(
                        line@,
                        column as int,
                    ),
                    bias == Bias::Right ==> ceil_cursor(line@, target) == ceil_cursor(
                        line@,
                        column as int,
                    ),
                ensures
                    0 <= column <= l.len() <= 128,
                    bias == Bias::Left ==> column == floor_cursor(line@, target),
                    bias == Bias::Right ==> column == ceil_cursor(line@, target),
                decreases
                    (match bias {
                        Bias::Left => column as int,
                        Bias::Right => l.len() - column,
                    }),
            {
                if line.is_char_boundary(column) && is_grapheme_boundary(line.text, column) {
                    break;
                }
                match bias {
                    Bias::Left => {
                        column = column - 1;
                    },
                    Bias::Right => {
                        column = column + 1;
                    },
                }
            }
            Point::new(point.row, column as u32)
        }
    }

    /// Clips a UTF-16 point to the text, without parting a surrogate pair.
    pub fn clip_point_utf16(&self, point: Unclipped<PointUtf16>, bias: Bias) -> (r: PointUtf16)
        requires
            self.wf(),
        ensures
            r == (if point.0.row > last_row(self.bytes()) {
                point_utf16_of(self.bytes(), self.bytes().len() as int)
            } else {
                PointUtf16 {
                    row: point.0.row,
                    column: clipped_units(
                        row_text(self.bytes(), point.0.row as nat),
                        point.0.column as nat,
                        bias,
                    ) as u32,
                }
            }),
    {
        let ghost b: Seq<u8> = self.bytes();
        let max_point: Point = self.lines();
        if point.0.row > max_point.row {
            PointUtf16::new(max_point.row, self.last_line_len_utf16())
        } else {
            proof {
                lemma_row_start(b, point.0.row as nat);
                lemma_row_boundaries(b, point.0.row as nat);
            }
            let line: ChunkSlice<'a> = self.slice(self.offset_range_for_row(point.0.row));
            proof {
                assert(line.bytes() =~= row_text(b, point.0.row as nat));
            }
            let column: OffsetUtf16 = line.clip_offset_utf16(
                OffsetUtf16(point.0.column as usize),
                bias,
            );
            PointUtf16::new(point.0.row, column.0 as u32)
        }
    }

    /// Clips a number of UTF-16 code units to the text, without parting a
    /// surrogate pair.
    pub fn clip_offset_utf16(&self, target: OffsetUtf16, bias: Bias) -> (r: OffsetUtf16)
        requires
            self.wf(),
        ensures
            r.0 == clipped_units(self.bytes(), target.0 as nat, bias),
    {
        let ghost b: Seq<u8> = self.bytes();
        proof {
            lemma_boundary(b, 0);
        }
        if target.0 == 0 {
            OffsetUtf16(0)
        } else if target.0 >= self.len_utf16().0 {
            self.len_utf16()
        } else {
            let mut offset: usize = self.offset_utf16_to_offset(target);
            let ghost start: int = offset as int;
            while !self.is_char_boundary(offset)
                invariant
                    self.wf(),
                    b == self.bytes(),
                    offset <= b.len() <= 128,
                    boundary(b, 0),
                    bias == Bias::Left ==> floor_boundary(b, start) == floor_boundary(
                        b,
                        offset as int,
                    ),
                    bias == Bias::Right ==> ceil_boundary(b, start) == ceil_boundary(
                        b,
                        offset as int,
                    ),
                decreases
                    (match bias {
                        Bias::Left => offset as int,
                        Bias::Right => b.len() - offset,
                    }),
            {
                if bias == Bias::Left {
                    offset = offset - 1;
                } else {
                    offset = offset + 1;
                }
            }
            self.offset_to_offset_utf16(offset)
        }
    }

    /// The bytes of a row, without its line feed.
    pub fn offset_range_for_row(&self, row: u32) -> (r: Range<usize>)
        requires
            self.wf(),
            row <= last_row(self.bytes()),
        ensures
            r.start == row_start(self.bytes(), row as nat),
            r.end == row_end(self.bytes(), row as nat),
            r.start <= r.end <= self.bytes().len(),
    {
        let ghost b: Seq<u8> = self.bytes();
        let ghost p = newline(b);
        proof {
            lemma_sets_end(b);
            lemma_row_start(b, row as nat);
        }
        let row_start: usize = if row > 0 {
            let ix: usize = nth_set_bit(self.newlines, row as usize);
            proof {
                assert(bits(self.newlines)(ix as int));
                let s: int = row_start(b, row as nat);
                assert(count(p, 0, s) == count(p, 0, s - 1) + 1);
                crate::rope::bits::lemma_count_unique(p, 0, ix as int, s - 1);
            }
            ix + 1
        } else {
            0
        };
        let row_len: u32 = if row_start == MAX_BASE {
            0
        } else {
            proof {
                lemma_shifted(self.newlines, row_start as int);
                lemma_beyond(p, row_start as int, b.len() as int, 128);
                lemma_first_at(p, row_start as int, b.len() as int);
            }
            let zeros: u32 = (self.newlines >> (row_start as u128)).trailing_zeros();
            let rest: u32 = (self.text.len() - row_start) as u32;
            if zeros < rest {
                zeros
            } else {
                rest
            }
        };
        row_start..row_start + row_len as usize
    }

    /// The tabs of the text.
    pub fn tabs(&self) -> (r: Tabs)
        requires
            self.wf(),
        ensures
            r.wf(),
            r.remaining() == tab(self.bytes()),
            r.char_starts() == char_start(self.bytes()),
    {
        Tabs { tabs: self.tabs, chars: self.chars }
    }
}

/// The tabs of a text that have not been handed out yet.
pub struct Tabs {
    tabs: u128,
    chars: u128,
}

/// Where a tab stands.
#[derive(Debug, PartialEq, Eq, Structural)]
pub struct TabPosition {
    pub byte_offset: usize,
    pub char_offset: usize,
}

impl Tabs {
    /// The tabs that are left.
    pub closed spec fn remaining(&self) -> spec_fn(int) -> bool {
        bits(self.tabs)
    }

    /// The bytes of the text at which a character starts.
    pub closed spec fn char_starts(&self) -> spec_fn(int) -> bool {
        bits(self.chars)
    }

    /// Every tab lies in a chunk.
    pub open spec fn wf(&self) -> bool {
        forall|i: int| #[trigger] self.remaining()(i) ==> 0 <= i < MAX_BASE
    }

    /// The next tab of the text: its byte and its character.
    pub fn next(&mut self) -> (r: Option<TabPosition>)
        ensures
            final(self).wf(),
            final(self).char_starts() == old(self).char_starts(),
            match r {
                None => final(self).remaining() == old(self).remaining() && forall|i: int|
                    0 <= i < MAX_BASE ==> !#[trigger] old(self).remaining()(i),
                Some(position) => {
                    &&& position.byte_offset < MAX_BASE
                    &&& position.byte_offset == first_at(old(self).remaining(), 0, 128)
                    &&& position.char_offset == count(
                        old(self).char_starts(),
                        0,
                        position.byte_offset as int,
                    )
                    &&& forall|i: int| #[trigger]
                        final(self).remaining()(i) == (old(self).remaining()(i) && i
                            != position.byte_offset)
                },
            },
    {
        if self.tabs == 0 {
            proof {
                assert forall|i: int| 0 <= i < MAX_BASE implies !#[trigger] self.remaining()(i) by {
                    lemma_bit_ops(0, 0, i);
                }
            }
            return None;
        }
        proof {
            lemma_first_at(bits(self.tabs), 0, 128);
            if first_at(bits(self.tabs), 0, 128) == 128 {
                assert forall|i: int| 0 <= i < 128 implies !#[trigger] bit(self.tabs, i) by {
                    assert(!bits(self.tabs)(i));
                }
                lemma_bits_zero(self.tabs);
            }
        }
        let tab_offset: usize = self.tabs.trailing_zeros() as usize;
        let chars_mask: u128 = low_mask(tab_offset);
        proof {
            lemma_masked(self.chars, chars_mask, tab_offset as int);
        }
        let char_offset: usize = (self.chars & chars_mask).count_ones() as usize;
        // A tab is one byte long, so its offset is that of its byte.
        let position = TabPosition { byte_offset: tab_offset, char_offset };
        proof {
            assert forall|i: int| #[trigger]
                bits(self.tabs ^ (1u128 << (tab_offset as u128)))(i) == (bits(self.tabs)(i) && i
                    != tab_offset) by {
                if 0 <= i < 128 {
                    lemma_bit_ops(self.tabs, 1u128 << (tab_offset as u128), i);
                    lemma_bit_shift(0, tab_offset as int, i);
                }
            }
        }
        // Remove the tab that was found.
        self.tabs = self.tabs ^ (1u128 << (tab_offset as u128));
        Some(position)
    }
}

proof fn lemma_no_newlines(newlines: u128, b: Seq<u8>)
    requires
        bits(newlines) == newline(b),
        newlines == 0,
        b.len() <= 128,
    ensures
        line_start(b, b.len() as int) == 0,
        last_row(b) == 0,
{
    assert forall|i: int| 0 <= i < b.len() implies !#[trigger] newline(b)(i) by {
        lemma_bit_ops(0, 0, i);
        assert(!bits(newlines)(i));
    }
    lemma_after_last_is(newline(b), b.len() as int, 0);
    lemma_count_none(newline(b), 0, b.len() as int);
}

proof fn lemma_first_newline(newlines: u128, b: Seq<u8>)
    requires
        bits(newlines) == newline(b),
        newlines != 0,
        b.len() <= 128,
    ensures
        first_at(bits(newlines), 0, 128) == first_at(newline(b), 0, b.len() as int),
        first_at(bits(newlines), 0, 128) < b.len(),
{
    lemma_beyond(newline(b), 0, b.len() as int, 128);
    lemma_first_at(newline(b), 0, b.len() as int);
    if first_at(newline(b), 0, b.len() as int) == b.len() {
        assert forall|i: int| 0 <= i < 128 implies !#[trigger] bit(newlines, i) by {
            assert(!bits(newlines)(i));
        }
        lemma_bits_zero(newlines);
    }
}

/// A set of line feeds that is not empty holds the end of the current row.
proof fn lemma_row_found(newlines: u128, b: Seq<u8>, pos: int)
    requires
        newlines != 0,
        b.len() <= 128,
        0 <= pos <= b.len(),
        forall|i: int| #[trigger] bits(newlines)(i) == (i >= 0 && newline(b)(i + pos)),
    ensures
        first_at(bits(newlines), 0, 128) + pos == first_at(newline(b), pos, b.len() as int),
        first_at(newline(b), pos, b.len() as int) < b.len(),
{
    let q = bits(newlines);
    let p = newline(b);
    let f: int = first_at(p, pos, b.len() as int);
    lemma_first_at(p, pos, b.len() as int);
    if f == b.len() {
        assert forall|i: int| 0 <= i < 128 implies !#[trigger] bit(newlines, i) by {
            assert(q(i) == p(i + pos));
            if i + pos < b.len() {
                assert(!p(i + pos));
            }
        }
        lemma_bits_zero(newlines);
    } else {
        assert(q(f - pos));
        assert forall|i: int| 0 <= i < f - pos implies !#[trigger] q(i) by {
            assert(!p(i + pos));
        }
        lemma_first_at_is(q, 0, 128, f - pos);
    }
}

/// An empty set of line feeds means that the last row has been reached.
proof fn lemma_last_row_reached(newlines: u128, b: Seq<u8>, pos: int, row: nat)
    requires
        newlines == 0,
        b.len() <= 128,
        row <= last_row(b),
        pos == row_start(b, row),
        forall|i: int| #[trigger] bits(newlines)(i) == (i >= 0 && newline(b)(i + pos)),
    ensures
        row == last_row(b),
        row_end(b, row) == b.len(),
{
    lemma_row_start(b, row);
    let e: int = row_end(b, row);
    if e < b.len() {
        assert(bits(newlines)(e - pos));
        lemma_bit_ops(0, 0, e - pos);
    }
}

/// A row has no line feed, so it is its own last row.
proof fn lemma_row_has_no_newline(b: Seq<u8>, row: nat)
    requires
        row <= last_row(b),
    ensures
        line_start(row_text(b, row), row_text(b, row).len() as int) == 0,
{
    lemma_row_start(b, row);
    let l: Seq<u8> = row_text(b, row);
    assert forall|i: int| 0 <= i < l.len() implies !#[trigger] newline(l)(i) by {
        lemma_count_zero(newline(b), row_start(b, row), row_end(b, row), i + row_start(b, row));
        assert(!newline(b)(i + row_start(b, row)));
    }
    lemma_after_last_is(newline(l), l.len() as int, 0);
}

/// A text that is not empty has a code unit, and none lies before its start.
proof fn lemma_units_of_nonempty(b: Seq<u8>)
    requires
        boundary(b, 0),
    ensures
        utf16_len(b) == 0 ==> b.len() == 0,
        unit_offset(b, 0) == 0,
        floor_boundary(b, 0) == 0,
{
    if utf16_len(b) == 0 && b.len() > 0 {
        lemma_count_zero(utf16_unit(b), 0, b.len() as int, 0);
    }
}

/// The text of a chunk fixes its bit sets: chunks with the same text have the same
/// ones.
pub proof fn law_text_fixes_the_bit_sets(a: Chunk, b: Chunk)
    requires
        a.wf(),
        b.wf(),
        a@ == b@,
    ensures
        a.bit_sets() == b.bit_sets(),
{
    lemma_same_bits(a.chars, b.chars);
    lemma_same_bits(a.chars_utf16, b.chars_utf16);
    lemma_same_bits(a.newlines, b.newlines);
    lemma_same_bits(a.tabs, b.tabs);
}

} // verus!
