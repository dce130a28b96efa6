use neorg::buffer::{offset_to_position, position_to_offset};
use neorg::span::{Position, Range, Span, Spanned};
use ropey::Rope;

#[test]
fn offsets_become_lines_and_columns() {
    let rope = Rope::from_str("ab\ncé\n");
    assert_eq!(offset_to_position(0, &rope), Some(Position::new(0, 0)));
    assert_eq!(offset_to_position(2, &rope), Some(Position::new(0, 2)));
    assert_eq!(offset_to_position(3, &rope), Some(Position::new(1, 0)));
    assert_eq!(offset_to_position(5, &rope), Some(Position::new(1, 2)));
    assert_eq!(offset_to_position(6, &rope), Some(Position::new(2, 0)));
    assert_eq!(offset_to_position(7, &rope), None);
}

#[test]
fn lines_and_columns_become_offsets() {
    let rope = Rope::from_str("ab\ncé\n");
    assert_eq!(position_to_offset(Position::new(0, 0), &rope), Some(0));
    assert_eq!(position_to_offset(Position::new(1, 1), &rope), Some(4));
    assert_eq!(position_to_offset(Position::new(2, 0), &rope), Some(6));
    assert_eq!(position_to_offset(Position::new(3, 0), &rope), Some(6));
    assert_eq!(position_to_offset(Position::new(3, 1), &rope), None);
    assert_eq!(position_to_offset(Position::new(4, 0), &rope), None);
    assert_eq!(position_to_offset(Position::new(0, 5), &rope), Some(5));
    assert_eq!(position_to_offset(Position::new(0, 7), &rope), None);
}

#[test]
fn every_offset_comes_back_from_its_place() {
    for text in ["", "a", "\n", "ab\ncé\n", "\n\nx\n", "a\r\nb", "日本語\nテキスト"] {
        let rope = Rope::from_str(text);
        for offset in 0..=text.chars().count() {
            let position = offset_to_position(offset, &rope).unwrap();
            assert_eq!(position_to_offset(position, &rope), Some(offset));
        }
    }
}

#[test]
fn only_the_line_feed_ends_a_line() {
    let rope = Rope::from_str("a\r\nb\u{2028}c\u{b}d");
    assert_eq!(offset_to_position(2, &rope), Some(Position::new(0, 2)));
    assert_eq!(offset_to_position(3, &rope), Some(Position::new(1, 0)));
    assert_eq!(offset_to_position(8, &rope), Some(Position::new(1, 5)));
}

#[test]
fn an_empty_text_has_one_place() {
    let rope = Rope::from_str("");
    assert_eq!(offset_to_position(0, &rope), Some(Position::new(0, 0)));
    assert_eq!(offset_to_position(1, &rope), None);
    assert_eq!(position_to_offset(Position::new(0, 0), &rope), Some(0));
    assert_eq!(position_to_offset(Position::new(1, 0), &rope), Some(0));
    assert_eq!(position_to_offset(Position::new(0, 1), &rope), None);
}

#[test]
fn a_span_is_its_four_parts() {
    let span = Span::new(3, 9, 2, 4);
    assert_eq!(span.start, 3);
    assert_eq!(span.end, 9);
    assert_eq!(span.range(), 3..9);
    assert_eq!(span.line_column(), (2, 4));
    assert!(!span.is_detached());
}

#[test]
fn the_detached_span_is_all_ones() {
    let span = Span::detached();
    assert_eq!(span, Span::new(1, 1, 1, 1));
    assert!(span.is_detached());
    assert_eq!(
        Range::detached(),
        Range::new(Position::new(1, 1), Position::new(1, 1))
    );
}

#[test]
fn a_spanned_value_keeps_its_span() {
    let spanned = Spanned::new(21, Span::new(0, 2, 1, 1));
    assert_eq!(*spanned.as_ref().v, 21);
    assert_eq!(spanned.as_ref().span, Span::new(0, 2, 1, 1));
    let doubled = spanned.map(|v| v * 2);
    assert_eq!(doubled.v, 42);
    assert_eq!(doubled.span, Span::new(0, 2, 1, 1));
}
