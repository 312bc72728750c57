use noter::{Cursor, TextBuffer};

#[test]
fn move_left_at_zero_stays() {
    let mut c = Cursor::origin();
    c.move_left();
    assert_eq!(c.col, 0);
    assert_eq!(c.row, 0);
}

#[test]
fn move_left_steps_back() {
    let mut c = Cursor { row: 0, col: 3 };
    c.move_left();
    assert_eq!(c.col, 2);
}

#[test]
fn move_right_clamps_at_line_end() {
    let b = TextBuffer::from_text("ab");
    let mut c = Cursor { row: 0, col: 2 };
    c.move_right(&b);
    assert_eq!(c.col, 2);
}

#[test]
fn move_right_steps_forward() {
    let b = TextBuffer::from_text("ab");
    let mut c = Cursor::origin();
    c.move_right(&b);
    assert_eq!(c.col, 1);
}

#[test]
fn move_up_at_top_stays() {
    let b = TextBuffer::from_text("a\nb");
    let mut c = Cursor { row: 0, col: 1 };
    c.move_up(&b);
    assert_eq!(c.row, 0);
    assert_eq!(c.col, 1);
}

#[test]
fn move_up_resets_column() {
    let b = TextBuffer::from_text("a\nb");
    let mut c = Cursor { row: 1, col: 1 };
    c.move_up(&b);
    assert_eq!(c.row, 0);
    assert_eq!(c.col, 0);
}

#[test]
fn move_down_shrinks_column() {
    let b = TextBuffer::from_text("long line\nab");
    let mut c = Cursor { row: 0, col: 9 };
    c.move_down(&b);
    assert_eq!(c.row, 1);
    assert_eq!(c.col, 2);
}

#[test]
fn move_down_keeps_short_column() {
    let b = TextBuffer::from_text("ab\nlong line");
    let mut c = Cursor { row: 0, col: 1 };
    c.move_down(&b);
    assert_eq!(c.row, 1);
    assert_eq!(c.col, 1);
}

#[test]
fn move_down_at_bottom_stays() {
    let b = TextBuffer::from_text("a\nb");
    let mut c = Cursor { row: 1, col: 0 };
    c.move_down(&b);
    assert_eq!(c.row, 1);
}

#[test]
fn move_home_and_end() {
    let b = TextBuffer::from_text("hello");
    let mut c = Cursor { row: 0, col: 3 };
    c.move_end(&b);
    assert_eq!(c.col, 5);
    c.move_home();
    assert_eq!(c.col, 0);
}

#[test]
fn word_forward_lands_after_next_space() {
    let b = TextBuffer::from_text("the quick fox");
    let mut c = Cursor::origin();
    c.move_word_forward(&b);
    assert_eq!(c.col, 4);
}

#[test]
fn word_forward_from_word_start() {
    let b = TextBuffer::from_text("the quick fox");
    let mut c = Cursor { row: 0, col: 4 };
    c.move_word_forward(&b);
    assert_eq!(c.col, 10);
}

#[test]
fn word_forward_without_space_goes_to_line_end() {
    let b = TextBuffer::from_text("the quick fox");
    let mut c = Cursor { row: 0, col: 10 };
    c.move_word_forward(&b);
    assert_eq!(c.col, 13);
}

#[test]
fn word_forward_at_line_end_stays() {
    let b = TextBuffer::from_text("ab cd");
    let mut c = Cursor { row: 0, col: 5 };
    c.move_word_forward(&b);
    assert_eq!(c.col, 5);
}

#[test]
fn word_backward_lands_on_previous_space() {
    let b = TextBuffer::from_text("ab cd ef");
    let mut c = Cursor { row: 0, col: 7 };
    c.move_word_backward(&b);
    assert_eq!(c.col, 5);
}

#[test]
fn word_backward_without_space_goes_to_start() {
    let b = TextBuffer::from_text("abcdef");
    let mut c = Cursor { row: 0, col: 4 };
    c.move_word_backward(&b);
    assert_eq!(c.col, 0);
}

#[test]
fn word_backward_at_start_stays() {
    let b = TextBuffer::from_text("ab cd");
    let mut c = Cursor::origin();
    c.move_word_backward(&b);
    assert_eq!(c.col, 0);
}
