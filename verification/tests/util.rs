use cicaklang::error::{LexError, SpannedError};
use cicaklang::text::char_len_utf8;
use cicaklang::util::{PeekableWithPoint, PointInfo, PointLength};

fn point_after(content: &str, index: u32) -> PointInfo {
    PointLength { content, index }.to_point_info()
}

#[test]
fn position_starts_at_line_one_column_zero() {
    assert_eq!(point_after("abc", 0), PointInfo { line: 1, column: 0 });
    assert_eq!(point_after("", 0), PointInfo { line: 1, column: 0 });
}

#[test]
fn each_character_is_one_column() {
    assert_eq!(point_after("abc", 2), PointInfo { line: 1, column: 2 });
    assert_eq!(point_after("abc", 3), PointInfo { line: 1, column: 3 });
}

#[test]
fn wide_character_is_one_column() {
    assert_eq!(
        point_after("\u{e9}\u{1F600}x", 2),
        PointInfo { line: 1, column: 2 }
    );
}

#[test]
fn tab_is_four_columns() {
    assert_eq!(point_after("\t", 1), PointInfo { line: 1, column: 4 });
    assert_eq!(point_after("a\tb", 3), PointInfo { line: 1, column: 6 });
}

#[test]
fn line_feed_starts_a_line() {
    assert_eq!(point_after("ab\n", 3), PointInfo { line: 2, column: 0 });
    assert_eq!(point_after("ab\ncd", 5), PointInfo { line: 2, column: 2 });
    assert_eq!(point_after("\n\n\n", 3), PointInfo { line: 4, column: 0 });
}

#[test]
fn line_never_goes_back() {
    let text = "a\nbc\n\td";
    let mut last = 1;
    for index in 0..=7 {
        let point = point_after(text, index);
        assert!(point.line >= last);
        last = point.line;
    }
    assert_eq!(last, 3);
}

#[test]
fn index_past_the_end_counts_the_whole_text() {
    assert_eq!(point_after("a\nb", 99), PointInfo { line: 2, column: 1 });
}

#[test]
fn try_to_point_info_agrees_with_to_point_info() {
    let point = PointLength { content: "a\n\tb", index: 4 };
    assert_eq!(point.try_to_point_info().ok(), Some(point.to_point_info()));
    assert_eq!(point.to_point_info(), PointInfo { line: 2, column: 5 });
}

#[test]
fn new_point_length_has_read_nothing() {
    let point = PointLength::new("abc");
    assert_eq!(point.content, "abc");
    assert_eq!(point.index, 0);
}

#[test]
fn increment_adds_one() {
    let mut point = PointLength::new("abc");
    point.increment();
    point.increment();
    assert_eq!(point.index, 2);
    assert_eq!(point.content, "abc");
}

#[test]
fn peek_does_not_read() {
    let chars = PeekableWithPoint::new("xy");
    assert_eq!(chars.peek(), Some(&'x'));
    assert_eq!(chars.peek(), Some(&'x'));
    assert_eq!(chars.index(), 0);
    assert_eq!(chars.point.index, 0);
}

#[test]
fn next_reads_one_character_at_a_time() {
    let mut chars = PeekableWithPoint::new("x\u{1F600}y");
    assert_eq!(chars.next(), Some('x'));
    assert_eq!(chars.point.index, 1);
    assert_eq!(chars.next(), Some('\u{1F600}'));
    assert_eq!(chars.point.index, 2);
    assert_eq!(chars.peek(), Some(&'y'));
    assert_eq!(chars.next(), Some('y'));
    assert_eq!(chars.point.index, 3);
    assert_eq!(chars.next(), None);
    assert_eq!(chars.next(), None);
    assert_eq!(chars.point.index, 3);
    assert_eq!(chars.peek(), None);
}

#[test]
fn empty_cursor_has_nothing_to_read() {
    let mut chars = PeekableWithPoint::new("");
    assert_eq!(chars.peek(), None);
    assert_eq!(chars.next(), None);
    assert_eq!(chars.index(), 0);
}

#[test]
fn offsets_count_bytes() {
    let mut chars = PeekableWithPoint::new("a\u{e9}\u{20AC}\u{1F600}z");
    assert_eq!(chars.offset(), 0);
    chars.next();
    assert_eq!(chars.offset(), 1);
    chars.next();
    assert_eq!(chars.offset(), 3);
    assert_eq!(chars.previous_offset(), 1);
    chars.next();
    assert_eq!(chars.offset(), 6);
    chars.next();
    assert_eq!(chars.offset(), 10);
    assert_eq!(chars.previous_offset(), 6);
    chars.next();
    assert_eq!(chars.offset(), 11);
}

#[test]
fn text_since_cuts_by_characters() {
    let mut chars = PeekableWithPoint::new("a\u{e9}\u{20AC}\u{1F600}z");
    chars.next();
    let from = chars.index();
    let from_byte = chars.offset();
    assert_eq!(chars.text_since(from, from_byte), "");
    chars.next();
    chars.next();
    assert_eq!(chars.text_since(from, from_byte), "\u{e9}\u{20AC}");
    chars.next();
    chars.next();
    assert_eq!(chars.text_since(from, from_byte), "\u{e9}\u{20AC}\u{1F600}z");
    assert_eq!(chars.text_since(0, 0), "a\u{e9}\u{20AC}\u{1F600}z");
}

#[test]
fn char_len_utf8_is_the_width_of_the_encoding() {
    for c in ['\0', 'a', '\x7f', '\u{80}', '\u{7ff}', '\u{800}', '\u{d7ff}', '\u{e000}',
        '\u{ffff}', '\u{10000}', '\u{10ffff}']
    {
        assert_eq!(char_len_utf8(c), c.len_utf8());
    }
    assert_eq!(char_len_utf8('a'), 1);
    assert_eq!(char_len_utf8('\u{e9}'), 2);
    assert_eq!(char_len_utf8('\u{20AC}'), 3);
    assert_eq!(char_len_utf8('\u{1F600}'), 4);
}

#[test]
fn as_spanned_error_carries_the_position_reached() {
    let mut chars = PeekableWithPoint::new("a\n\tb");
    assert_eq!(
        chars.as_spanned_error(LexError::UnexpectedEof),
        SpannedError::new(LexError::UnexpectedEof, PointInfo { line: 1, column: 0 })
    );
    chars.next();
    chars.next();
    chars.next();
    assert_eq!(
        chars.as_spanned_error(7u8),
        SpannedError::new(7u8, PointInfo { line: 2, column: 4 })
    );
}

#[test]
fn num_into_usize_keeps_the_number() {
    let chars = PeekableWithPoint::new("");
    assert_eq!(chars.num_into_usize(0u32), 0usize);
    assert_eq!(chars.num_into_usize(41u32), 41usize);
    assert_eq!(chars.num_into_usize(65535u16), 65535usize);
    assert_eq!(chars.num_into_usize(7i64), 7usize);
}

#[test]
fn ordinary_text_is_scannable() {
    assert!(PeekableWithPoint::new("").is_scannable());
    assert!(PeekableWithPoint::new("a\tb\n\"c\"").is_scannable());
}

#[test]
fn positions_are_ordered_by_line_then_column() {
    assert!(PointInfo { line: 1, column: 9 } < PointInfo { line: 2, column: 0 });
    assert!(PointInfo { line: 2, column: 1 } > PointInfo { line: 2, column: 0 });
    assert_eq!(PointInfo { line: 2, column: 1 }, PointInfo { line: 2, column: 1 });
}
