use noter::TextBuffer;

#[test]
fn round_trip_empty() {
    assert_eq!(TextBuffer::from_text("").to_text(), "");
}

#[test]
fn round_trip_plain() {
    assert_eq!(TextBuffer::from_text("hello").to_text(), "hello");
}

#[test]
fn round_trip_two_lines() {
    assert_eq!(TextBuffer::from_text("a\nb").to_text(), "a\nb");
}

#[test]
fn round_trip_trailing_newline() {
    assert_eq!(TextBuffer::from_text("a\n").to_text(), "a\n");
}

#[test]
fn round_trip_only_newline() {
    assert_eq!(TextBuffer::from_text("\n").to_text(), "\n");
}

#[test]
fn round_trip_blank_middle_line() {
    assert_eq!(TextBuffer::from_text("a\n\nb").to_text(), "a\n\nb");
}

#[test]
fn empty_text_is_one_empty_line() {
    let b = TextBuffer::from_text("");
    assert_eq!(b.line_count(), 1);
    assert_eq!(b.line_length(0), 0);
}

#[test]
fn from_text_splits_lines() {
    let b = TextBuffer::from_text("foo\nbar\n");
    assert_eq!(b.line_count(), 3);
    assert_eq!(b.line_text(0), "foo");
    assert_eq!(b.line_text(1), "bar");
    assert_eq!(b.line_text(2), "");
}

#[test]
fn char_at_reads_characters() {
    let b = TextBuffer::from_text("ab\ncd");
    assert_eq!(b.char_at(0, 1), 'b');
    assert_eq!(b.char_at(1, 0), 'c');
}

#[test]
fn insert_char_shifts_right() {
    let mut b = TextBuffer::from_text("ac");
    b.insert_char(0, 1, 'b');
    assert_eq!(b.to_text(), "abc");
}

#[test]
fn insert_char_at_line_end() {
    let mut b = TextBuffer::from_text("ab");
    b.insert_char(0, 2, 'c');
    assert_eq!(b.to_text(), "abc");
}

#[test]
fn delete_char_before_removes_left_neighbour() {
    let mut b = TextBuffer::from_text("abc");
    b.delete_char_before(0, 2);
    assert_eq!(b.to_text(), "ac");
}

#[test]
fn delete_char_before_at_column_zero_is_noop() {
    let mut b = TextBuffer::from_text("abc\nd");
    b.delete_char_before(0, 0);
    assert_eq!(b.to_text(), "abc\nd");
    b.delete_char_before(1, 0);
    assert_eq!(b.to_text(), "abc\nd");
}

#[test]
fn split_line_in_middle() {
    let mut b = TextBuffer::from_text("hello");
    b.split_line(0, 2);
    assert_eq!(b.line_count(), 2);
    assert_eq!(b.line_text(0), "he");
    assert_eq!(b.line_text(1), "llo");
}

#[test]
fn split_line_at_end_makes_blank_line() {
    let mut b = TextBuffer::from_text("hello");
    b.split_line(0, 5);
    assert_eq!(b.line_text(0), "hello");
    assert_eq!(b.line_text(1), "");
}

#[test]
fn split_line_beyond_end_makes_blank_line() {
    let mut b = TextBuffer::from_text("hi");
    b.split_line(0, 99);
    assert_eq!(b.line_text(0), "hi");
    assert_eq!(b.line_text(1), "");
}

#[test]
fn join_line_appends_onto_previous() {
    let mut b = TextBuffer::from_text("foo\nbar");
    let seam = b.join_line_with_previous(1);
    assert_eq!(seam, 3);
    assert_eq!(b.line_count(), 1);
    assert_eq!(b.to_text(), "foobar");
}

#[test]
fn split_then_join_restores_line() {
    let mut b = TextBuffer::from_text("alpha beta\ngamma");
    b.split_line(0, 5);
    let seam = b.join_line_with_previous(1);
    assert_eq!(seam, 5);
    assert_eq!(b.to_text(), "alpha beta\ngamma");
}
