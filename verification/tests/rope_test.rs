use zed_core::rope::chunk::{Chunk, TabPosition};
use zed_core::rope::position::{Bias, OffsetUtf16, Point, PointUtf16, TextSummary, Unclipped};
use zed_core::rope::select::{nth_set_bit, nth_set_bit_u64};

const TEXTS: [&str; 8] = [
    "",
    "a",
    "one\ntwo\n\nfour",
    "\n\n",
    "caf\u{e9} \u{20ac}5\n\u{1f600}x\u{1f601}\nend",
    "\t\tif\tx {\n\t}\n",
    "line that is longer than the others\nshort",
    "0123456789012345678901234567890123456789012345678901234567890123456789012345678901234567890123456789012345678901234567890123456\n",
];

fn point_of(text: &str, offset: usize) -> Point {
    let before = &text.as_bytes()[..offset];
    let row = before.iter().filter(|byte| **byte == b'\n').count();
    let start = before
        .iter()
        .rposition(|byte| *byte == b'\n')
        .map_or(0, |ix| ix + 1);
    Point::new(row as u32, (offset - start) as u32)
}

#[test]
fn chunk_holds_its_text() {
    for text in TEXTS {
        let chunk = Chunk::new(text);
        assert_eq!(chunk.text.as_str(), text);
        let slice = chunk.as_slice();
        assert_eq!(slice.len(), text.len());
        assert_eq!(slice.is_empty(), text.is_empty());
        assert_eq!(slice.len_utf16(), OffsetUtf16(text.encode_utf16().count()));
        assert_eq!(slice.lines(), point_of(text, text.len()));
        assert_eq!(slice.to_chunk().text.as_str(), text);
    }
}

#[test]
fn summary_counts_rows_and_characters() {
    let chunk = Chunk::new("caf\u{e9}\n\u{1f600}ab\u{20ac}c\nxy");
    assert_eq!(
        chunk.as_slice().text_summary(),
        TextSummary {
            len: 5 + 1 + 4 + 2 + 3 + 1 + 1 + 2,
            chars: 4 + 1 + 5 + 1 + 2,
            len_utf16: OffsetUtf16(4 + 1 + 6 + 1 + 2),
            lines: Point::new(2, 2),
            first_line_chars: 4,
            last_line_chars: 2,
            last_line_len_utf16: 2,
            longest_row: 1,
            longest_row_chars: 5,
        }
    );
    for text in TEXTS {
        let summary = Chunk::new(text).as_slice().text_summary();
        let rows: Vec<&str> = text.split('\n').collect();
        assert_eq!(summary.chars, text.chars().count());
        assert_eq!(summary.first_line_chars, rows[0].chars().count() as u32);
        let last = rows[rows.len() - 1];
        assert_eq!(summary.last_line_chars, last.chars().count() as u32);
        assert_eq!(summary.last_line_len_utf16, last.encode_utf16().count() as u32);
        let longest = rows.iter().map(|row| row.chars().count()).max().unwrap();
        let ix = rows
            .iter()
            .position(|row| row.chars().count() == longest)
            .unwrap();
        assert_eq!((summary.longest_row, summary.longest_row_chars), (ix as u32, longest as u32));
    }
}

#[test]
fn offsets_and_points_lead_to_each_other() {
    for text in TEXTS {
        let chunk = Chunk::new(text);
        let slice = chunk.as_slice();
        for offset in 0..=text.len() {
            assert_eq!(slice.is_char_boundary(offset), text.is_char_boundary(offset));
            if !text.is_char_boundary(offset) {
                continue;
            }
            let point = slice.offset_to_point(offset);
            assert_eq!(point, point_of(text, offset));
            assert_eq!(slice.point_to_offset(point), offset);
            let units = text[..offset].encode_utf16().count();
            assert_eq!(slice.offset_to_offset_utf16(offset), OffsetUtf16(units));
            assert_eq!(slice.offset_utf16_to_offset(OffsetUtf16(units)), offset);
            let start = offset - point.column as usize;
            let column = text[start..offset].encode_utf16().count() as u32;
            assert_eq!(slice.offset_to_point_utf16(offset), PointUtf16::new(point.row, column));
            assert_eq!(slice.point_to_point_utf16(point), PointUtf16::new(point.row, column));
            assert_eq!(slice.point_utf16_to_offset(PointUtf16::new(point.row, column)), offset);
            assert_eq!(
                slice.unclipped_point_utf16_to_point(Unclipped(PointUtf16::new(point.row, column))),
                point
            );
        }
    }
}

#[test]
fn positions_outside_the_text_are_clipped() {
    let text = "ab\n\u{1f600}c\n";
    let chunk = Chunk::new(text);
    let slice = chunk.as_slice();
    assert_eq!(slice.point_to_offset(Point::new(9, 0)), text.len());
    assert_eq!(slice.point_to_offset(Point::new(0, 9)), 2);
    assert_eq!(slice.clip_point(Point::new(9, 9), Bias::Left), Point::new(2, 0));
    assert_eq!(slice.clip_point(Point::new(0, 9), Bias::Left), Point::new(0, 2));
    assert_eq!(slice.clip_point(Point::new(1, 2), Bias::Left), Point::new(1, 0));
    assert_eq!(slice.clip_point(Point::new(1, 2), Bias::Right), Point::new(1, 4));
    assert_eq!(
        slice.clip_point_utf16(Unclipped(PointUtf16::new(1, 1)), Bias::Left),
        PointUtf16::new(1, 0)
    );
    assert_eq!(
        slice.clip_point_utf16(Unclipped(PointUtf16::new(1, 1)), Bias::Right),
        PointUtf16::new(1, 2)
    );
    assert_eq!(
        slice.clip_point_utf16(Unclipped(PointUtf16::new(8, 1)), Bias::Right),
        PointUtf16::new(2, 0)
    );
    assert_eq!(slice.clip_offset_utf16(OffsetUtf16(4), Bias::Left), OffsetUtf16(3));
    assert_eq!(slice.clip_offset_utf16(OffsetUtf16(4), Bias::Right), OffsetUtf16(5));
    assert_eq!(slice.clip_offset_utf16(OffsetUtf16(99), Bias::Left), OffsetUtf16(7));
}

#[test]
fn clipped_units_stay() {
    for text in TEXTS {
        let chunk = Chunk::new(text);
        let slice = chunk.as_slice();
        for target in 0..text.encode_utf16().count() + 2 {
            for bias in [Bias::Left, Bias::Right] {
                let clipped = slice.clip_offset_utf16(OffsetUtf16(target), bias);
                assert_eq!(slice.clip_offset_utf16(clipped, bias.invert()), clipped);
                assert_eq!(bias.invert().invert(), bias);
            }
        }
    }
}

#[test]
fn points_are_clipped_to_graphemes() {
    // An e with a combining accent is one grapheme of three bytes.
    let chunk = Chunk::new("xe\u{301}y");
    let slice = chunk.as_slice();
    assert_eq!(slice.clip_point(Point::new(0, 2), Bias::Left), Point::new(0, 1));
    assert_eq!(slice.clip_point(Point::new(0, 2), Bias::Right), Point::new(0, 4));
    assert_eq!(slice.clip_point(Point::new(0, 4), Bias::Left), Point::new(0, 4));
    // A flag is one grapheme of two characters.
    let chunk = Chunk::new("\u{1f1e9}\u{1f1ea}!");
    let slice = chunk.as_slice();
    assert_eq!(slice.clip_point(Point::new(0, 4), Bias::Left), Point::new(0, 0));
    assert_eq!(slice.clip_point(Point::new(0, 4), Bias::Right), Point::new(0, 8));
}

#[test]
fn chunks_are_split_sliced_and_appended() {
    let text = "caf\u{e9} \u{20ac}5\n\u{1f600}x\ttab";
    let chunk = Chunk::new(text);
    for mid in 0..=text.len() {
        if !text.is_char_boundary(mid) {
            continue;
        }
        let (left, right) = chunk.as_slice().split_at(mid);
        let mut whole = left.to_chunk();
        assert_eq!(whole.text.as_str(), &text[..mid]);
        assert_eq!(right.to_chunk().text.as_str(), &text[mid..]);
        whole.append(right);
        assert_eq!(whole.text.as_str(), text);
        assert_eq!(whole.as_slice().text_summary(), chunk.as_slice().text_summary());
        let tail = chunk.slice(mid..text.len());
        assert_eq!(tail.text_summary(), Chunk::new(&text[mid..]).as_slice().text_summary());
    }
    let mut grown = Chunk::new("caf\u{e9}");
    grown.push_str(" \u{20ac}5\n\u{1f600}x\ttab");
    assert_eq!(grown.as_slice().text_summary(), chunk.as_slice().text_summary());
    assert_eq!(grown.clone().text.as_str(), text);
    assert_eq!(chunk.slice(128..128).len(), 0);
}

#[test]
fn tabs_are_found() {
    let chunk = Chunk::new("\u{e9}\tx\t");
    let mut tabs = chunk.as_slice().tabs();
    assert_eq!(
        tabs.next(),
        Some(TabPosition {
            byte_offset: 2,
            char_offset: 1
        })
    );
    assert_eq!(
        tabs.next(),
        Some(TabPosition {
            byte_offset: 4,
            char_offset: 3
        })
    );
    assert_eq!(tabs.next(), None);
}

#[test]
fn rows_have_ranges() {
    let chunk = Chunk::new("ab\n\ncde");
    let slice = chunk.as_slice();
    assert_eq!(slice.offset_range_for_row(0), 0..2);
    assert_eq!(slice.offset_range_for_row(1), 3..3);
    assert_eq!(slice.offset_range_for_row(2), 4..7);
}

#[test]
fn set_bits_are_selected() {
    assert_eq!(nth_set_bit_u64(0b1011, 1), 0);
    assert_eq!(nth_set_bit_u64(0b1011, 2), 1);
    assert_eq!(nth_set_bit_u64(0b1011, 3), 3);
    assert_eq!(nth_set_bit_u64(1 << 63, 1), 63);
    let mut v: u128 = 0;
    let mut places: Vec<usize> = Vec::new();
    for ix in (0..128).filter(|ix| ix % 7 == 3 || ix % 11 == 0) {
        v |= 1u128 << ix;
        places.push(ix);
    }
    for (n, ix) in places.iter().enumerate() {
        assert_eq!(nth_set_bit(v, n + 1), *ix);
    }
}
