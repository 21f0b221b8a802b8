use mimic::document::Document;
use mimic::geometry::{Pos, Region, Size};

#[test]
fn delete_region() {
    let text = "abcdefg
1234567
abcdefg
1234567
abcdefg";
    let mut doc = Document::new(text);

    let region = Region::new(Pos::new(1, 1), Size::new(2, 3));
    doc.delete(region);

    let expected = "abcdefg
14567
adefg
14567
abcdefg";

    let actual = doc.text();
    assert_eq!(expected, actual);
}

#[test]
fn insert_offsets_marker() {
    let newlines: usize = 4;
    let text = "// @zero
hello
// @one
world
// @two
!
";
    let mut doc = Document::new(text);

    let row = doc.lookup_marker("one").map(|m| m.row as i32).unwrap();
    doc.insert_str(Pos::new(0, row as usize), &"\n".repeat(newlines));

    let zero = doc.lookup_marker("zero").map(|m| m.row as i32).unwrap();
    let one = doc.lookup_marker("one").map(|m| m.row as i32).unwrap() as usize;
    let two = doc.lookup_marker("two").map(|m| m.row as i32).unwrap() as usize;

    assert_eq!(zero, 0);
    assert_eq!(one, 1 + newlines);
    assert_eq!(two, 2 + newlines);
}

#[test]
fn marker_lines_leave_the_text() {
    let doc = Document::new("// @top\nfn main() {}\n");
    assert_eq!(doc.text(), "fn main() {}\n");
    assert_eq!(doc.lookup_marker("top").map(|m| m.row), Some(0));
    assert!(doc.lookup_marker("bottom").is_none());
}

#[test]
fn offsets_follow_display_width() {
    let doc = Document::new("a\u{4e16}b\nxy");
    // 'a' is one column wide, the ideograph two
    assert_eq!(doc.char_offset(Pos::new(0, 0)), 0);
    assert_eq!(doc.char_offset(Pos::new(1, 0)), 1);
    assert_eq!(doc.char_offset(Pos::new(3, 0)), 2);
    assert_eq!(doc.char_offset(Pos::new(4, 0)), 3);
    assert_eq!(doc.char_offset(Pos::new(0, 1)), 4);
    assert_eq!(doc.char_offset(Pos::new(1, 1)), 5);
    // past the end of a row: the row's end
    assert_eq!(doc.char_offset(Pos::new(9, 0)), 3);
    // past the last row: the end of the text
    assert_eq!(doc.char_offset(Pos::new(0, 7)), 6);
}

#[test]
fn insert_on_a_wide_row() {
    let mut doc = Document::new("a\u{4e16}b");
    doc.insert_str(Pos::new(3, 0), "-");
    assert_eq!(doc.text(), "a\u{4e16}-b");
}

#[test]
fn insert_above_a_marker_moves_it() {
    let mut doc = Document::new("x\n// @m\ny\n");
    assert_eq!(doc.lookup_marker("m").map(|m| m.row), Some(1));
    doc.insert_str(Pos::new(0, 0), "a\nb\n");
    assert_eq!(doc.lookup_marker("m").map(|m| m.row), Some(3));
    doc.insert_str(Pos::new(0, 4), "c\n");
    assert_eq!(doc.lookup_marker("m").map(|m| m.row), Some(3));
}

#[test]
fn find_stays_on_its_row() {
    let doc = Document::new("foo bar foo\nbaz foo");
    assert_eq!(doc.find(Pos::new(0, 0), "foo", 1), Some(0));
    assert_eq!(doc.find(Pos::new(0, 0), "foo", 2), Some(8));
    assert_eq!(doc.find(Pos::new(1, 0), "foo", 1), Some(8));
    assert_eq!(doc.find(Pos::new(0, 0), "foo", 3), None);
    assert_eq!(doc.find(Pos::new(0, 0), "baz", 1), None);
    assert_eq!(doc.find(Pos::new(0, 0), "foo\nbaz", 1), None);
    assert_eq!(doc.find(Pos::new(0, 1), "baz", 1), Some(0));
}

#[test]
fn find_reports_display_columns() {
    let doc = Document::new("\u{4e16}\u{4e16}x");
    assert_eq!(doc.find(Pos::new(0, 0), "x", 1), Some(4));
}

#[test]
fn delete_stops_at_row_end() {
    let mut doc = Document::new("ab\ncd");
    doc.delete(Region::new(Pos::new(1, 0), Size::new(5, 1)));
    assert_eq!(doc.text(), "a\ncd");
}

#[test]
fn delete_keeps_a_wide_character_wider_than_the_region() {
    let mut doc = Document::new("\u{4e16}a");
    doc.delete(Region::new(Pos::new(0, 0), Size::new(1, 1)));
    assert_eq!(doc.text(), "\u{4e16}a");
    doc.delete(Region::new(Pos::new(0, 0), Size::new(2, 1)));
    assert_eq!(doc.text(), "a");
}

#[test]
fn clear_drops_text_and_markers() {
    let mut doc = Document::new("// @m\nabc");
    doc.clear();
    assert_eq!(doc.text(), "");
    assert!(doc.lookup_marker("m").is_none());
}

#[test]
fn span_bounds_follow_width() {
    let doc = Document::new("ab\u{4e16}cd\nxyz");
    assert_eq!(doc.char_span(Pos::new(1, 0), 3), (1, 3));
    assert_eq!(doc.char_span(Pos::new(1, 0), 2), (1, 2));
    assert_eq!(doc.char_span(Pos::new(0, 0), 99), (0, 5));
    assert_eq!(doc.char_span(Pos::new(1, 1), 1), (7, 8));
}
