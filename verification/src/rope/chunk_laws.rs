//! How the conversions between positions undo one another.

use vstd::prelude::*;
use vstd::utf8::{encode_utf8, is_continuation_byte, is_leading_byte_width_4, valid_utf8};
use crate::rope::bits::{count, first_at};
use crate::rope::bits::{
    lemma_after_last, lemma_count_bounds, lemma_count_ext, lemma_count_none, lemma_count_shift, lemma_count_split,
    lemma_count_unique, lemma_first_at,
};
use crate::rope::chunk::{
    ceil_cursor, clipped_column, clipped_units, cursor_column, floor_cursor, offset_of_utf16,
    point_utf16_of, ChunkSlice,
};
use crate::rope::chunk_spec::{
    boundary, ceil_boundary, char_start, floor_boundary, last_row, line_start, newline, offset_of,
    point_of, row_chars, row_end, row_start, row_text, unit_offset, utf16_len, utf16_unit, MAX_BASE,
};
use crate::rope::chunk_spec::{
    lemma_boundary, lemma_ceil_boundary, lemma_floor_boundary, lemma_row_start, lemma_unit_offset,
    lemma_unit_offset_is,
};
use crate::rope::position::{Bias, OffsetUtf16, Point, PointUtf16, TextSummary, Unclipped};

verus! {

/// The row of an offset starts at the start of its line and does not end before it.
proof fn lemma_row_of(b: Seq<u8>, o: int)
    requires
        0 <= o <= b.len(),
    ensures
        count(newline(b), 0, o) <= last_row(b),
        row_start(b, count(newline(b), 0, o)) == line_start(b, o),
        row_end(b, count(newline(b), 0, o)) >= o,
{
    let p = newline(b);
    let n: int = b.len() as int;
    let ls: int = line_start(b, o);
    let row: nat = count(p, 0, o);
    lemma_count_split(p, 0, o, n);
    lemma_after_last(p, o);
    lemma_count_none(p, ls, o);
    lemma_count_split(p, 0, ls, o);
    lemma_row_start(b, row);
    lemma_count_bounds(p, 0, 0);
    let rs: int = row_start(b, row);
    if ls > 0 {
        assert(count(p, 0, ls) == count(p, 0, ls - 1) + 1);
        assert(rs > 0);
        assert(count(p, 0, rs) == count(p, 0, rs - 1) + 1);
        lemma_count_unique(p, 0, ls - 1, rs - 1);
    }
    lemma_first_at(p, ls, n);
    let e: int = first_at(p, ls, n);
    if e < o {
        assert(p(e));
        assert(!p(e));
    }
}

/// The offset of the point of an offset is that offset.
pub proof fn law_point_round_trip(b: Seq<u8>, o: int)
    requires
        b.len() <= MAX_BASE,
        0 <= o <= b.len(),
    ensures
        offset_of(b, point_of(b, o)) == o,
{
    lemma_row_of(b, o);
    lemma_count_bounds(newline(b), 0, o);
    lemma_after_last(newline(b), o);
}

/// The point of the offset of a point inside the text is that point.
pub proof fn law_offset_round_trip(b: Seq<u8>, row: u32, column: u32)
    requires
        b.len() <= MAX_BASE,
        row <= last_row(b),
        column <= row_end(b, row as nat) - row_start(b, row as nat),
    ensures
        point_of(b, row_start(b, row as nat) + column).row == row,
        point_of(b, row_start(b, row as nat) + column).column == column,
{
    let p = newline(b);
    let rs: int = row_start(b, row as nat);
    let o: int = rs + column;
    lemma_row_start(b, row as nat);
    lemma_first_at(p, rs, b.len() as int);
    lemma_count_none(p, rs, o);
    lemma_count_split(p, 0, rs, o);
    crate::rope::bits::lemma_after_last_is(p, o, rs);
}

/// Counting the UTF-16 code units before a character boundary and going past
/// that many gives back the boundary.
pub proof fn law_utf16_offset_round_trip(b: Seq<u8>, o: int)
    requires
        valid_utf8(b),
        0 <= o <= b.len(),
        boundary(b, o),
    ensures
        count(utf16_unit(b), 0, o) <= utf16_len(b),
        unit_offset(b, count(utf16_unit(b), 0, o)) == o,
{
    lemma_boundary(b, 0);
    lemma_count_split(utf16_unit(b), 0, o, b.len() as int);
    lemma_unit_offset_is(b, count(utf16_unit(b), 0, o), o);
}

/// Going past a number of UTF-16 code units goes past that many.
pub proof fn law_utf16_units_round_trip(b: Seq<u8>, n: nat)
    requires
        valid_utf8(b),
        n <= utf16_len(b),
    ensures
        count(utf16_unit(b), 0, unit_offset(b, n)) == n,
{
    lemma_boundary(b, 0);
    lemma_unit_offset(b, n);
}

/// The offset of the UTF-16 point of a character boundary is that boundary.
pub proof fn law_point_utf16_round_trip(b: Seq<u8>, o: int)
    requires
        valid_utf8(b),
        b.len() <= MAX_BASE,
        0 <= o <= b.len(),
        boundary(b, o),
    ensures
        offset_of_utf16(b, point_utf16_of(b, o)) == o,
{
    let row: nat = count(newline(b), 0, o);
    let ls: int = line_start(b, o);
    let line: Seq<u8> = row_text(b, row);
    lemma_row_of(b, o);
    lemma_row_start(b, row);
    lemma_boundary(b, 0);
    lemma_count_bounds(newline(b), 0, o);
    lemma_count_bounds(utf16_unit(b), ls, o);
    lemma_after_last(newline(b), o);
    if ls > 0 && ls < b.len() {
        lemma_line_starts_char(b, row);
    }
    assert forall|i: int| 0 <= i < o - ls implies #[trigger] utf16_unit(line)(i) == utf16_unit(b)(
        i + ls,
    ) by {
        assert(line[i] == b[i + ls]);
        if i > 0 {
            assert(line[i - 1] == b[i + ls - 1]);
        }
    }
    lemma_count_shift(utf16_unit(line), utf16_unit(b), 0, o - ls, ls);
    let n: nat = count(utf16_unit(line), 0, o - ls);
    lemma_count_split(utf16_unit(line), 0, o - ls, line.len() as int);
    assert(boundary(line, 0));
    if o - ls < line.len() {
        assert(line[o - ls] == b[o]);
    }
    lemma_unit_offset_is(line, n, o - ls);
}

proof fn lemma_line_starts_char(b: Seq<u8>, row: nat)
    requires
        valid_utf8(b),
        row <= last_row(b),
        0 < row_start(b, row) < b.len(),
    ensures
        boundary(b, row_start(b, row)),
{
    crate::rope::chunk::lemma_row_boundaries(b, row);
}

/// Clipping code units a second time, to either side, changes nothing.
pub proof fn law_clipped_units_idempotent(b: Seq<u8>, target: nat, first: Bias, second: Bias)
    requires
        valid_utf8(b),
    ensures
        clipped_units(b, clipped_units(b, target, first), second) == clipped_units(
            b,
            target,
            first,
        ),
        clipped_units(b, target, first) <= utf16_len(b),
{
    lemma_boundary(b, 0);
    lemma_count_bounds(utf16_unit(b), 0, 0);
    if 0 < target < utf16_len(b) {
        let o: int = unit_offset(b, target);
        lemma_unit_offset(b, target);
        lemma_floor_boundary(b, o);
        lemma_ceil_boundary(b, o);
        let c: int = match first {
            Bias::Left => floor_boundary(b, o),
            Bias::Right => ceil_boundary(b, o),
        };
        let n: nat = clipped_units(b, target, first);
        law_utf16_offset_round_trip(b, c);
        if 0 < n < utf16_len(b) {
            assert(floor_boundary(b, c) == c);
            assert(ceil_boundary(b, c) == c);
        }
    }
}

/// The point of an offset: as many line feeds as its row come before it, and as many bytes as
/// its column lie between it and the last of them.
pub proof fn law_point_of_an_offset(slice: ChunkSlice, offset: usize, r: Point)
    requires
        slice.bytes().len() <= MAX_BASE,
        offset <= slice.bytes().len(),
        call_ensures(ChunkSlice::offset_to_point, (&slice, offset), r),
    ensures
        r.column <= offset,
        r.row == count(|i: int| slice.bytes()[i] == 10u8, 0, offset as int),
        r.column < offset ==> slice.bytes()[offset - r.column - 1] == 10u8,
        forall|i: int|
            offset - r.column <= i < offset ==> #[trigger] slice.bytes()[i] != 10u8,
{
    let b = slice.bytes();
    let p = newline(b);
    let o: int = offset as int;
    let raw = |i: int| b[i] == 10u8;
    lemma_count_ext(p, raw, 0, o);
    lemma_count_bounds(p, 0, o);
    lemma_after_last(p, o);
    assert forall|i: int| offset - r.column <= i < offset implies #[trigger] b[i] != 10u8 by {
        assert(!p(i));
    }
    if r.column < offset {
        assert(p(line_start(b, o) - 1));
    }
}

/// A row is the bytes between two line feeds: it holds none, one comes right before it unless
/// it is the first, and one right behind it unless it is the last. A point in it stands for
/// the byte at its column, and one beyond it for its end.
pub proof fn law_rows_lie_between_line_feeds(
    slice: ChunkSlice,
    row: u32,
    column: u32,
    r: core::ops::Range<usize>,
    at: usize,
)
    requires
        slice.bytes().len() <= MAX_BASE,
        row <= last_row(slice.bytes()),
        call_ensures(ChunkSlice::offset_range_for_row, (&slice, row), r),
        call_ensures(ChunkSlice::point_to_offset, (&slice, Point { row, column }), at),
    ensures
        r.start <= r.end <= slice.bytes().len(),
        forall|i: int| r.start <= i < r.end ==> #[trigger] slice.bytes()[i] != 10u8,
        r.start == 0 || slice.bytes()[r.start - 1] == 10u8,
        r.end == slice.bytes().len() || slice.bytes()[r.end as int] == 10u8,
        count(|i: int| slice.bytes()[i] == 10u8, 0, r.start as int) == row,
        r.start + column <= r.end ==> at == r.start + column,
        r.start + column > r.end ==> at == r.end,
{
    let b = slice.bytes();
    let p = newline(b);
    let n: int = b.len() as int;
    lemma_row_start(b, row as nat);
    lemma_count_ext(p, |i: int| b[i] == 10u8, 0, r.start as int);
    lemma_first_at(p, row_start(b, row as nat), n);
    assert forall|i: int| r.start <= i < r.end implies #[trigger] b[i] != 10u8 by {
        assert(!p(i));
    }
    if row == 0 {
        assert(r.start == 0);
    } else {
        assert(p(r.start - 1));
    }
    if r.end < n {
        assert(p(r.end as int));
    }
}

/// A point below the last row stands for the end of the text.
pub proof fn law_points_below_stand_for_the_end(slice: ChunkSlice, point: Point, r: usize)
    requires
        slice.bytes().len() <= MAX_BASE,
        point.row > count(
            |i: int| slice.bytes()[i] == 10u8,
            0,
            slice.bytes().len() as int,
        ),
        call_ensures(ChunkSlice::point_to_offset, (&slice, point), r),
    ensures
        r == slice.bytes().len(),
{
    let b = slice.bytes();
    lemma_count_ext(newline(b), |i: int| b[i] == 10u8, 0, b.len() as int);
}

proof fn lemma_floor_cursor(text: Seq<char>, o: int)
    requires
        0 <= o <= encode_utf8(text).len(),
        boundary(encode_utf8(text), 0),
    ensures
        0 <= floor_cursor(text, o) <= o,
        boundary(encode_utf8(text), floor_cursor(text, o)),
    decreases o,
{
    if o > 0 && !cursor_column(text, o) {
        lemma_floor_cursor(text, o - 1);
    }
}

proof fn lemma_ceil_cursor(text: Seq<char>, o: int)
    requires
        0 <= o <= encode_utf8(text).len(),
    ensures
        o <= ceil_cursor(text, o) <= encode_utf8(text).len(),
        boundary(encode_utf8(text), ceil_cursor(text, o)),
    decreases encode_utf8(text).len() - o,
{
    if o < encode_utf8(text).len() && !cursor_column(text, o) {
        lemma_ceil_cursor(text, o + 1);
    }
}

/// A point is clipped in its row: to the left it moves no farther right and to the right no
/// farther left, and neither way beyond the end of the row.
pub proof fn law_clipped_points_stay_in_their_row(
    slice: ChunkSlice,
    point: Point,
    left: Point,
    right: Point,
    row: core::ops::Range<usize>,
)
    requires
        slice.bytes().len() <= MAX_BASE,
        point.row <= last_row(slice.bytes()),
        call_ensures(ChunkSlice::clip_point, (&slice, point, Bias::Left), left),
        call_ensures(ChunkSlice::clip_point, (&slice, point, Bias::Right), right),
        call_ensures(ChunkSlice::offset_range_for_row, (&slice, point.row), row),
    ensures
        left.row == point.row && right.row == point.row,
        left.column <= point.column,
        point.column <= row.end - row.start ==> point.column <= right.column && right.column
            <= row.end - row.start,
        point.column > row.end - row.start ==> left.column == row.end - row.start && right.column
            == row.end - row.start,
        point.column == 0 ==> left.column == 0 && right.column == 0,
{
    let b = slice.bytes();
    lemma_row_start(b, point.row as nat);
    let text = row_text(b, point.row as nat);
    assert(text.len() == row.end - row.start);
    let line = choose|line: Seq<char>|
        #![trigger encode_utf8(line)]
        encode_utf8(line) == text && left == (Point {
            row: point.row,
            column: clipped_column(line, point.column as int, Bias::Left) as u32,
        });
    let other = choose|line: Seq<char>|
        #![trigger encode_utf8(line)]
        encode_utf8(line) == text && right == (Point {
            row: point.row,
            column: clipped_column(line, point.column as int, Bias::Right) as u32,
        });
    let c: int = point.column as int;
    vstd::utf8::encode_utf8_valid_utf8(line);
    lemma_boundary(text, 0);
    if c < text.len() {
        lemma_floor_cursor(line, c);
        lemma_ceil_cursor(other, c);
    }
}

/// A count of code units is clipped to whole characters: to the left it does not grow and to
/// the right it does not shrink, and neither way beyond the end of the text.
pub proof fn law_clipped_units_stay_in_the_text(
    slice: ChunkSlice,
    target: OffsetUtf16,
    left: OffsetUtf16,
    right: OffsetUtf16,
    all: OffsetUtf16,
)
    requires
        valid_utf8(slice.bytes()),
        call_ensures(ChunkSlice::clip_offset_utf16, (&slice, target, Bias::Left), left),
        call_ensures(ChunkSlice::clip_offset_utf16, (&slice, target, Bias::Right), right),
        call_ensures(ChunkSlice::len_utf16, (&slice,), all),
    ensures
        target.0 <= all.0 ==> left.0 <= target.0 && target.0 <= right.0 && right.0 <= all.0,
        target.0 > all.0 ==> left.0 == all.0 && right.0 == all.0,
{
    let b = slice.bytes();
    let p = utf16_unit(b);
    let n: int = b.len() as int;
    lemma_boundary(b, 0);
    if target.0 <= all.0 {
        let t: nat = target.0 as nat;
        lemma_unit_offset(b, t);
        let o: int = unit_offset(b, t);
        lemma_floor_boundary(b, o);
        lemma_ceil_boundary(b, o);
        lemma_count_split(p, 0, floor_boundary(b, o), o);
        lemma_count_split(p, 0, o, ceil_boundary(b, o));
        lemma_count_split(p, 0, ceil_boundary(b, o), n);
    }
}

/// The summary of a text says of it what each of its parts says, and no row is longer than the
/// one that it names.
pub proof fn law_summary_is_that_of_the_text(
    slice: ChunkSlice,
    summary: TextSummary,
    len: usize,
    units: OffsetUtf16,
    lines: Point,
    first: u32,
    last: u32,
)
    requires
        slice.bytes().len() <= MAX_BASE,
        call_ensures(ChunkSlice::text_summary, (&slice,), summary),
        call_ensures(ChunkSlice::len, (&slice,), len),
        call_ensures(ChunkSlice::len_utf16, (&slice,), units),
        call_ensures(ChunkSlice::lines, (&slice,), lines),
        call_ensures(ChunkSlice::first_line_chars, (&slice,), first),
        call_ensures(ChunkSlice::last_line_chars, (&slice,), last),
    ensures
        summary.len == len && summary.len_utf16 == units && summary.lines == lines,
        summary.first_line_chars == first && summary.last_line_chars == last,
        summary.longest_row <= summary.lines.row,
        summary.longest_row_chars >= first,
        summary.chars <= len,
{
    let b = slice.bytes();
    lemma_count_bounds(char_start(b), 0, b.len() as int);
    assert(row_chars(b, 0) <= summary.longest_row_chars);
}

/// The UTF-16 point of an offset has the row of its point. Its column counts the code units
/// between the start of the row and the offset: one for every character, and two for those of
/// four bytes.
pub proof fn law_utf16_point_of_an_offset(
    slice: ChunkSlice,
    offset: usize,
    point: Point,
    r: PointUtf16,
    same: PointUtf16,
)
    requires
        slice.bytes().len() <= MAX_BASE,
        offset <= slice.bytes().len(),
        point.row <= last_row(slice.bytes()),
        call_ensures(ChunkSlice::offset_to_point, (&slice, offset), point),
        call_ensures(ChunkSlice::offset_to_point_utf16, (&slice, offset), r),
        call_ensures(ChunkSlice::point_to_point_utf16, (&slice, point), same),
    ensures
        r.row == point.row,
        r.column == count(
            |i: int|
                0 <= i < slice.bytes().len() && (!(0x80u8 <= slice.bytes()[i] <= 0xbfu8) || (i > 0
                    && 0xf0u8 <= slice.bytes()[i - 1] <= 0xf7u8)),
            offset - point.column,
            offset as int,
        ),
        same == r,
{
    let b = slice.bytes();
    let o: int = offset as int;
    lemma_after_last(newline(b), o);
    lemma_count_bounds(newline(b), 0, o);
    let raw = |i: int|
        0 <= i < b.len() && (!(0x80u8 <= b[i] <= 0xbfu8) || (i > 0 && 0xf0u8 <= b[i - 1]
            <= 0xf7u8));
    assert forall|i: int| #[trigger] raw(i) == utf16_unit(b)(i) by {
        if 0 <= i < b.len() {
            lemma_byte_kinds(b[i]);
            if i > 0 {
                lemma_byte_kinds(b[i - 1]);
            }
        }
    }
    lemma_count_ext(utf16_unit(b), raw, line_start(b, o), o);
    lemma_count_bounds(utf16_unit(b), line_start(b, o), o);
    law_point_round_trip(b, o);
}

proof fn lemma_byte_kinds(byte: u8)
    ensures
        is_continuation_byte(byte) <==> 0x80u8 <= byte <= 0xbfu8,
        is_leading_byte_width_4(byte) <==> 0xf0u8 <= byte <= 0xf7u8,
{
    assert((byte & 0xc0u8 == 0x80u8) <==> (0x80u8 <= byte && byte <= 0xbfu8)) by (bit_vector);
    assert((byte & 0xf8u8 == 0xf0u8) <==> (0xf0u8 <= byte && byte <= 0xf7u8)) by (bit_vector);
}

/// The point of the UTF-16 point of a character boundary is that of the boundary. Below the
/// last row it is the end of the text.
pub proof fn law_utf16_points_become_points(
    slice: ChunkSlice,
    offset: usize,
    point: Point,
    units: PointUtf16,
    r: Point,
    below: PointUtf16,
    end: Point,
    last: Point,
    at: usize,
)
    requires
        valid_utf8(slice.bytes()),
        slice.bytes().len() <= MAX_BASE,
        offset <= slice.bytes().len(),
        boundary(slice.bytes(), offset as int),
        call_ensures(ChunkSlice::offset_to_point, (&slice, offset), point),
        call_ensures(ChunkSlice::offset_to_point_utf16, (&slice, offset), units),
        call_ensures(ChunkSlice::unclipped_point_utf16_to_point, (&slice, Unclipped(units)), r),
        below.row > last_row(slice.bytes()),
        call_ensures(ChunkSlice::unclipped_point_utf16_to_point, (&slice, Unclipped(below)), end),
        call_ensures(ChunkSlice::point_utf16_to_offset, (&slice, below), at),
        slice.bytes().len() <= usize::MAX,
        call_ensures(ChunkSlice::offset_to_point, (&slice, slice.bytes().len() as usize), last),
    ensures
        r == point,
        end == last,
        at == slice.bytes().len(),
{
    let b = slice.bytes();
    let o: int = offset as int;
    let row: nat = count(newline(b), 0, o);
    let ls: int = line_start(b, o);
    let line: Seq<u8> = row_text(b, row);
    lemma_row_of(b, o);
    lemma_row_start(b, row);
    lemma_boundary(b, 0);
    lemma_count_bounds(newline(b), 0, o);
    lemma_count_bounds(utf16_unit(b), ls, o);
    lemma_after_last(newline(b), o);
    if ls > 0 && ls < b.len() {
        lemma_line_starts_char(b, row);
    }
    assert forall|i: int| 0 <= i < o - ls implies #[trigger] utf16_unit(line)(i) == utf16_unit(b)(
        i + ls,
    ) by {
        assert(line[i] == b[i + ls]);
        if i > 0 {
            assert(line[i - 1] == b[i + ls - 1]);
        }
    }
    lemma_count_shift(utf16_unit(line), utf16_unit(b), 0, o - ls, ls);
    let n: nat = count(utf16_unit(line), 0, o - ls);
    lemma_count_split(utf16_unit(line), 0, o - ls, line.len() as int);
    assert(boundary(line, 0));
    if o - ls < line.len() {
        assert(line[o - ls] == b[o]);
        assert(boundary(line, o - ls));
    }
    lemma_unit_offset_is(line, n, o - ls);
    if units.column >= utf16_len(line) {
        lemma_unit_offset_is(line, utf16_len(line), line.len() as int);
    }
}

} // verus!
