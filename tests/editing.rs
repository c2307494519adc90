use editor_core::buffer::Buffer;
use editor_core::cursor::{Cursor, Sticky};
use editor_core::row::Row;
use editor_core::{EditError, TAB_STOP};

fn buffer(text: &str) -> Buffer {
    Buffer::new(text.as_bytes()).unwrap()
}

fn raws(b: &Buffer) -> Vec<String> {
    (0..b.line_count()).map(|i| b.line(i).unwrap().raw.clone()).collect()
}

#[test]
fn render_equals_raw_without_tabs() {
    let row = Row::new(String::from("hello, wörld y\u{306}"));
    assert_eq!(row.render, row.raw);
}

#[test]
fn single_tab_renders_one_tab_stop() {
    let row = Row::new(String::from("\t"));
    assert_eq!(row.render.chars().count(), TAB_STOP);
    assert_eq!(row.render, "        ");
    assert_eq!(row.widths, vec![8]);
}

#[test]
fn tab_after_text_reaches_next_stop() {
    let row = Row::new(String::from("ab\tc\t"));
    assert_eq!(row.render, "ab      c       ");
    assert_eq!(row.widths, vec![1, 1, 6, 1, 7]);
}

#[test]
fn length_counts_grapheme_clusters() {
    let family = Row::new(String::from("👨‍👩‍👧"));
    assert_eq!(family.len(), 1);
    assert!(family.raw.len() > 1);
    let accented = Row::new(String::from("e\u{301}x"));
    assert_eq!(accented.len(), 2);
    assert_eq!(accented.clusters, vec![String::from("e\u{301}"), String::from("x")]);
    assert!(Row::empty().is_empty());
}

#[test]
fn visual_distance_is_symmetric() {
    let row = Row::new(String::from("a\tb"));
    assert_eq!(row.visual_distance(0, 3), 9);
    assert_eq!(row.visual_distance(3, 0), 9);
    assert_eq!(row.visual_distance(1, 2), row.visual_distance(2, 1));
    assert_eq!(row.visual_distance(2, 2), 0);
}

#[test]
fn insert_then_remove_restores_text() {
    for i in 0..=5 {
        let mut row = Row::new(String::from("héllo"));
        row.insert_char(i, 'X');
        assert_eq!(row.len(), 6);
        row.remove_char(i).unwrap();
        assert_eq!(row.raw, "héllo");
    }
}

#[test]
fn insert_char_places_character() {
    let mut row = Row::new(String::from("ac"));
    row.insert_char(1, 'b');
    assert_eq!(row.raw, "abc");
    row.insert_char(3, '\t');
    assert_eq!(row.raw, "abc\t");
    assert_eq!(row.render, "abc     ");
}

#[test]
fn remove_char_errors() {
    let mut empty = Row::empty();
    assert_eq!(empty.remove_char(0), Err(EditError::EmptyLine));
    let mut row = Row::new(String::from("ab"));
    assert_eq!(row.remove_char(2), Err(EditError::OutOfBounds));
    assert_eq!(row.raw, "ab");
    assert_eq!(row.remove_char(0), Ok(()));
    assert_eq!(row.raw, "b");
}

#[test]
fn grapheme_at_index() {
    let row = Row::new(String::from("ae\u{301}"));
    assert_eq!(row.grapheme_at(1), Ok(String::from("e\u{301}")));
    assert_eq!(row.grapheme_at(2), Err(EditError::OutOfBounds));
}

#[test]
fn sticky_column_across_short_line() {
    let mut b = buffer("0123456789\nab\n0123456789");
    b.move_right(8);
    assert_eq!(b.cursor().column, 8);
    b.move_down(1, 24);
    assert_eq!(b.cursor(), Cursor { column: 1, row: 1, sticky: Sticky::Pinned(8) });
    b.move_down(1, 24);
    assert_eq!(b.cursor(), Cursor { column: 8, row: 2, sticky: Sticky::Free });
    b.move_up(2);
    assert_eq!(b.cursor(), Cursor { column: 8, row: 0, sticky: Sticky::Free });
}

#[test]
fn preserve_x_transitions() {
    let mut c = Cursor { column: 5, row: 0, sticky: Sticky::Free };
    c.preserve_x(2);
    assert_eq!(c, Cursor { column: 2, row: 0, sticky: Sticky::Pinned(5) });
    c.preserve_x(3);
    assert_eq!(c, Cursor { column: 3, row: 0, sticky: Sticky::Pinned(5) });
    c.preserve_x(9);
    assert_eq!(c, Cursor { column: 5, row: 0, sticky: Sticky::Free });
    c.preserve_x(7);
    assert_eq!(c, Cursor { column: 5, row: 0, sticky: Sticky::Free });
}

#[test]
fn horizontal_moves_stop_at_ends_and_forget_column() {
    let mut b = buffer("abcdefghij\nab");
    assert_eq!(b.move_left(1), 0);
    assert_eq!(b.cursor().column, 0);
    assert_eq!(b.move_right(20), 9);
    assert_eq!(b.cursor().column, 9);
    assert_eq!(b.move_right(1), 0);
    assert_eq!(b.cursor().column, 9);
    b.move_down(1, 24);
    assert_eq!(b.cursor().sticky, Sticky::Pinned(9));
    b.move_right(1);
    assert_eq!(b.cursor(), Cursor { column: 1, row: 1, sticky: Sticky::Free });
    b.move_down(1, 24);
    b.move_up(1);
    assert_eq!(b.cursor().column, 1);
    b.move_down(1, 24);
    assert_eq!(b.cursor().sticky, Sticky::Free);
    b.move_up(1);
    b.move_right(5);
    b.move_down(1, 24);
    assert_eq!(b.cursor().sticky, Sticky::Pinned(6));
    b.move_left(1);
    assert_eq!(b.cursor(), Cursor { column: 0, row: 1, sticky: Sticky::Free });
}

#[test]
fn moves_report_screen_columns() {
    let mut b = buffer("a\tbc");
    assert_eq!(b.move_right(2), 8);
    assert_eq!(b.visual_column(), 8);
    assert_eq!(b.move_end_of_line(), 1);
    assert_eq!(b.move_start_of_line(), 9);
    assert_eq!(b.move_right_forced(10), 10);
    assert_eq!(b.cursor().column, 4);
}

#[test]
fn first_char_skips_blanks() {
    let mut b = buffer("  \tx y\n   ");
    b.move_to_first_char();
    assert_eq!(b.cursor().column, 3);
    b.move_down(1, 24);
    b.move_to_first_char();
    assert_eq!(b.cursor().column, 0);
}

#[test]
fn delete_on_empty_line_signals() {
    let mut b = buffer("");
    assert_eq!(b.remove_char(), Err(EditError::EmptyLine));
    assert_eq!(raws(&b), vec![String::new()]);
    assert_eq!(b.cursor(), Cursor { column: 0, row: 0, sticky: Sticky::Free });
}

#[test]
fn delete_at_cursor() {
    let mut b = buffer("abc");
    b.move_right(2);
    assert_eq!(b.remove_char(), Ok(()));
    assert_eq!(raws(&b), vec![String::from("ab")]);
    assert_eq!(b.cursor().column, 1);
    b.move_start_of_line();
    assert_eq!(b.remove_char(), Ok(()));
    assert_eq!(raws(&b), vec![String::from("b")]);
    assert_eq!(b.cursor().column, 0);
}

#[test]
fn insert_and_backspace() {
    let mut b = buffer("ac");
    b.move_right(1);
    b.insert_char('b');
    assert_eq!(raws(&b), vec![String::from("abc")]);
    assert_eq!(b.cursor().column, 2);
    b.move_end_of_line();
    b.move_right_forced(1);
    b.insert_char('d');
    assert_eq!(raws(&b), vec![String::from("abcd")]);
    assert_eq!(b.cursor().column, 4);
    b.remove_char_before_cursor();
    assert_eq!(raws(&b), vec![String::from("abc")]);
    assert_eq!(b.cursor().column, 3);
    b.move_start_of_line();
    b.remove_char_before_cursor();
    assert_eq!(raws(&b), vec![String::from("abc")]);
}

#[test]
fn open_lines_after_and_before() {
    let mut b = buffer("one\ntwo");
    b.move_right(2);
    b.new_line_after_cursor(24);
    assert_eq!(raws(&b), vec![String::from("one"), String::new(), String::from("two")]);
    assert_eq!(b.cursor().row, 1);
    assert_eq!(b.cursor().column, 0);
    b.insert_char('x');
    b.new_line_before_cursor();
    assert_eq!(
        raws(&b),
        vec![String::from("one"), String::new(), String::from("x"), String::from("two")]
    );
    assert_eq!(b.cursor(), Cursor { column: 0, row: 1, sticky: Sticky::Free });
}

#[test]
fn viewport_pads_with_filler() {
    let b = buffer("a\tb\nc");
    assert_eq!(
        b.render_viewport(4),
        vec![String::from("a       b"), String::from("c"), String::from("~"), String::from("~")]
    );
    assert_eq!(b.render_viewport(1), vec![String::from("a       b")]);
    assert!(b.render_viewport(0).is_empty());
}

#[test]
fn scrolling_moves_viewport() {
    let mut b = buffer("0\n1\n2\n3\n4");
    b.move_down(1, 2);
    assert_eq!((b.offset(), b.cursor().row), (0, 1));
    b.move_down(1, 2);
    assert_eq!((b.offset(), b.cursor().row), (1, 1));
    assert_eq!(b.render_viewport(2), vec![String::from("1"), String::from("2")]);
    b.move_down(10, 2);
    assert_eq!(b.offset() + b.cursor().row, 4);
    b.move_up(10);
    assert_eq!((b.offset(), b.cursor().row), (0, 0));
    b.move_up(1);
    assert_eq!((b.offset(), b.cursor().row), (0, 0));
}

#[test]
fn lines_split_on_line_feeds() {
    assert_eq!(raws(&buffer("a\r\nb\n")), vec![String::from("a"), String::from("b")]);
    assert_eq!(raws(&buffer("\n\nx\r")), vec![String::new(), String::new(), String::from("x\r")]);
    assert_eq!(raws(&buffer("")), vec![String::new()]);
    assert_eq!(raws(&buffer("\n")), vec![String::new()]);
}

#[test]
fn malformed_content_is_rejected() {
    assert!(matches!(Buffer::new(&[b'a', b'\n', 0xff]), Err(EditError::Malformed)));
    assert!(Buffer::new("äöü\n❤".as_bytes()).is_ok());
}

#[test]
fn render_clusters_expands_tabs_by_column() {
    let clusters = vec![String::from("a"), String::from("\t"), String::from("e\u{301}"), String::from("\t")];
    let (render, widths) = editor_core::row::render_clusters(&clusters);
    assert_eq!(render, "a       e\u{301}       ");
    assert_eq!(widths, vec![1, 7, 1, 7]);
    let (render, widths) = editor_core::row::render_clusters(&Vec::new());
    assert_eq!(render, "");
    assert!(widths.is_empty());
}

#[test]
fn forced_move_on_empty_line_keeps_sticky_column() {
    let mut b = buffer("0123456789\n\n0123456789");
    b.move_right(6);
    b.move_down(1, 24);
    assert_eq!(b.cursor(), Cursor { column: 0, row: 1, sticky: Sticky::Pinned(6) });
    assert_eq!(b.move_right_forced(1), 0);
    assert_eq!(b.cursor(), Cursor { column: 0, row: 1, sticky: Sticky::Pinned(6) });
    b.move_down(1, 24);
    assert_eq!(b.cursor(), Cursor { column: 6, row: 2, sticky: Sticky::Free });
}
