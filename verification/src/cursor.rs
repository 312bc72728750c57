//! The cursor: a row and column into the buffer, moved by clamped
//! commands that never fail.
//!
//! Every movement saturates at the nearest legal position: the row stays
//! below the line count and the column never passes the end of the line
//! it sits on (it may equal the line length, the position after the last
//! character).

use vstd::prelude::*;
use crate::buffer::TextBuffer;

verus! {

/// A position in a buffer: a row index and a column index.
pub struct Cursor {
    pub row: usize,
    pub col: usize,
}

/// The cursor's bounds invariant against a buffer: the row addresses a
/// line and the column is at most that line's length.
pub open spec fn cursor_in_bounds(row: int, col: int, lines: Seq<Seq<char>>) -> bool {
    &&& 0 <= row < lines.len()
    &&& 0 <= col <= lines[row].len()
}

/// Where a word-forward jump lands: the index of the first space strictly
/// past the start, or the line length if there is none.
pub open spec fn first_space_from(line: Seq<char>, i: int) -> int
    decreases line.len() - i,
{
    if i < 0 || i >= line.len() {
        line.len() as int
    } else if line[i] == ' ' {
        i
    } else {
        first_space_from(line, i + 1)
    }
}

/// Where a word-backward jump lands: the index of the last space strictly
/// before the given index, or -1 if there is none.
pub open spec fn last_space_before(line: Seq<char>, i: int) -> int
    decreases i,
{
    if i <= 0 || i > line.len() {
        -1
    } else if line[i - 1] == ' ' {
        i - 1
    } else {
        last_space_before(line, i - 1)
    }
}

/// The column a word-forward command moves to: just past the next space
/// after the cursor, or the line end if no space follows; a cursor at or
/// past the line end does not move.
pub open spec fn word_forward_col(line: Seq<char>, col: int) -> int {
    if col >= line.len() {
        col
    } else {
        let i = first_space_from(line, col + 1);
        if i < line.len() {
            i + 1
        } else {
            line.len() as int
        }
    }
}

/// The column a word-backward command moves to: the last space before the
/// character just left of the cursor, or column zero if no space precedes;
/// a cursor at column zero does not move.
pub open spec fn word_backward_col(line: Seq<char>, col: int) -> int {
    if col <= 0 {
        col
    } else {
        let i = last_space_before(line, col - 1);
        if i >= 0 {
            i
        } else {
            0
        }
    }
}

proof fn lemma_first_space_from_bounds(line: Seq<char>, i: int)
    requires
        0 <= i <= line.len(),
    ensures
        i <= first_space_from(line, i) <= line.len(),
        first_space_from(line, i) < line.len() ==> line[first_space_from(line, i)] == ' ',
    decreases line.len() - i,
{
    if i < line.len() && line[i] != ' ' {
        lemma_first_space_from_bounds(line, i + 1);
    }
}

proof fn lemma_last_space_before_bounds(line: Seq<char>, i: int)
    requires
        0 <= i <= line.len(),
    ensures
        -1 <= last_space_before(line, i) < i,
        last_space_before(line, i) >= 0 ==> line[last_space_before(line, i)] == ' ',
    decreases i,
{
    if i > 0 && line[i - 1] != ' ' {
        lemma_last_space_before_bounds(line, i - 1);
    }
}

impl Cursor {
    /// A fresh cursor at the origin.
    pub fn origin() -> (c: Cursor)
        ensures
            c.row == 0,
            c.col == 0,
    {
        Cursor { row: 0, col: 0 }
    }

    /// Moves one column left, stopping at column zero; at column zero the
    /// cursor is left unchanged.
    pub fn move_left(&mut self)
        ensures
            final(self).row == old(self).row,
            final(self).col == if old(self).col > 0 {
                old(self).col - 1
            } else {
                0
            },
    {
        if self.col > 0 {
            self.col = self.col - 1;
        }
    }

    /// Moves one column right, stopping at the end of the current line.
    pub fn move_right(&mut self, buf: &TextBuffer)
        requires
            cursor_in_bounds(old(self).row as int, old(self).col as int, buf@),
        ensures
            final(self).row == old(self).row,
            final(self).col == if old(self).col < buf@[old(self).row as int].len() {
                old(self).col + 1
            } else {
                old(self).col as int
            },
            cursor_in_bounds(final(self).row as int, final(self).col as int, buf@),
    {
        if self.col < buf.line_length(self.row) {
            self.col = self.col + 1;
        }
    }

    /// Moves one row up and resets the column to zero; at the top row the
    /// cursor is left unchanged.
    pub fn move_up(&mut self, buf: &TextBuffer)
        requires
            cursor_in_bounds(old(self).row as int, old(self).col as int, buf@),
        ensures
            old(self).row > 0 ==> final(self).row == old(self).row - 1 && final(self).col == 0,
            old(self).row == 0 ==> *final(self) == *old(self),
            cursor_in_bounds(final(self).row as int, final(self).col as int, buf@),
    {
        if self.row > 0 {
            self.row = self.row - 1;
            self.col = 0;
        }
    }

    /// Moves one row down, shrinking the column to the destination line's
    /// length if it would otherwise pass it; at the bottom row the cursor
    /// is left unchanged.
    pub fn move_down(&mut self, buf: &TextBuffer)
        requires
            cursor_in_bounds(old(self).row as int, old(self).col as int, buf@),
        ensures
            old(self).row + 1 < buf@.len() ==> {
                &&& final(self).row == old(self).row + 1
                &&& final(self).col == if old(self).col <= buf@[old(self).row + 1].len() {
                    old(self).col as int
                } else {
                    buf@[old(self).row + 1].len() as int
                }
            },
            old(self).row + 1 >= buf@.len() ==> *final(self) == *old(self),
            cursor_in_bounds(final(self).row as int, final(self).col as int, buf@),
    {
        let n = buf.line_count();
        if self.row < n - 1 {
            let dest_len = buf.line_length(self.row + 1);
            if self.col > dest_len {
                self.col = dest_len;
            }
            self.row = self.row + 1;
        }
    }

    /// Moves the column to the start of the line.
    pub fn move_home(&mut self)
        ensures
            final(self).row == old(self).row,
            final(self).col == 0,
    {
        self.col = 0;
    }

    /// Moves the column to the end of the line.
    pub fn move_end(&mut self, buf: &TextBuffer)
        requires
            old(self).row < buf@.len(),
        ensures
            final(self).row == old(self).row,
            final(self).col == buf@[old(self).row as int].len(),
            cursor_in_bounds(final(self).row as int, final(self).col as int, buf@),
    {
        self.col = buf.line_length(self.row);
    }

    /// Jumps forward past the next space in the current line, or to the
    /// line end if no space follows.
    pub fn move_word_forward(&mut self, buf: &TextBuffer)
        requires
            cursor_in_bounds(old(self).row as int, old(self).col as int, buf@),
        ensures
            final(self).row == old(self).row,
            final(self).col == word_forward_col(buf@[old(self).row as int], old(self).col as int),
            cursor_in_bounds(final(self).row as int, final(self).col as int, buf@),
    {
        let ghost line = buf@[self.row as int];
        let len = buf.line_length(self.row);
        if self.col < len {
            let mut i = self.col + 1;
            while i < len && buf.char_at(self.row, i) != ' '
                invariant
                    old(self).col < i <= len,
                    len == line.len(),
                    self.row == old(self).row,
                    self.row < buf@.len(),
                    line == buf@[self.row as int],
                    first_space_from(line, old(self).col + 1) == first_space_from(line, i as int),
                decreases len - i,
            {
                i = i + 1;
            }
            if i < len {
                self.col = i + 1;
            } else {
                self.col = len;
            }
            proof {
                lemma_first_space_from_bounds(line, old(self).col + 1);
            }
        }
    }

    /// Jumps backward to the previous space before the cursor, or to
    /// column zero if no space precedes it.
    pub fn move_word_backward(&mut self, buf: &TextBuffer)
        requires
            cursor_in_bounds(old(self).row as int, old(self).col as int, buf@),
        ensures
            final(self).row == old(self).row,
            final(self).col == word_backward_col(buf@[old(self).row as int], old(self).col as int),
            cursor_in_bounds(final(self).row as int, final(self).col as int, buf@),
    {
        let ghost line = buf@[self.row as int];
        if self.col > 0 {
            let mut i = self.col - 1;
            while i > 0 && buf.char_at(self.row, i - 1) != ' '
                invariant
                    0 <= i <= old(self).col - 1,
                    self.row == old(self).row,
                    self.row < buf@.len(),
                    i <= line.len(),
                    line == buf@[self.row as int],
                    last_space_before(line, old(self).col - 1) == last_space_before(line, i as int),
                decreases i,
            {
                i = i - 1;
            }
            if i > 0 {
                self.col = i - 1;
            } else {
                self.col = 0;
            }
            proof {
                lemma_last_space_before_bounds(line, old(self).col - 1);
            }
        }
    }
}

} // verus!
