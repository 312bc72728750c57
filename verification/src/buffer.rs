//! The text buffer: a note's text as an ordered sequence of lines.
//!
//! A buffer always holds at least one line; the empty text is one empty
//! line, never zero lines. Lines are addressed by row and column, a column
//! may equal the line length (the position after the last character), and
//! the edit operations — insert, delete, split, join — keep that shape.

use vstd::prelude::*;
use crate::strutil::{chars_to_string, str_to_chars};

verus! {

/// The lines that a raw text denotes: the text split on newline.
///
/// Splitting the empty text yields one empty line, and every text yields
/// at least one line.
pub open spec fn split_text(s: Seq<char>) -> Seq<Seq<char>>
    decreases s.len(),
{
    if s.len() == 0 {
        seq![Seq::<char>::empty()]
    } else if s[0] == '\n' {
        seq![Seq::<char>::empty()] + split_text(s.drop_first())
    } else {
        let rest = split_text(s.drop_first());
        seq![seq![s[0]] + rest[0]] + rest.drop_first()
    }
}

/// The raw text that a sequence of lines denotes: the lines joined by newline.
pub open spec fn join_text(lines: Seq<Seq<char>>) -> Seq<char>
    decreases lines.len(),
{
    if lines.len() == 0 {
        Seq::empty()
    } else if lines.len() == 1 {
        lines[0]
    } else {
        lines[0] + seq!['\n'] + join_text(lines.drop_first())
    }
}

/// A single line is flat when it contains no newline character.
pub open spec fn line_flat(l: Seq<char>) -> bool {
    forall|j: int| 0 <= j < l.len() ==> l[j] != '\n'
}

/// A buffer is flat when none of its lines contains a newline.
pub open spec fn lines_flat(lines: Seq<Seq<char>>) -> bool {
    forall|i: int| 0 <= i < lines.len() ==> line_flat(#[trigger] lines[i])
}

/// Splitting any text yields at least one line.
pub proof fn lemma_split_text_len(s: Seq<char>)
    ensures
        split_text(s).len() >= 1,
    decreases s.len(),
{
    if s.len() == 0 {
    } else {
        lemma_split_text_len(s.drop_first());
    }
}

/// Splitting puts no newline inside any line.
pub proof fn lemma_split_text_flat(s: Seq<char>)
    ensures
        lines_flat(split_text(s)),
    decreases s.len(),
{
    if s.len() == 0 {
    } else if s[0] == '\n' {
        lemma_split_text_flat(s.drop_first());
        let r = split_text(s);
        let rest = split_text(s.drop_first());
        assert forall|i: int| 0 <= i < r.len() implies line_flat(#[trigger] r[i]) by {
            if i > 0 {
                assert(r[i] == rest[i - 1]);
            }
        }
    } else {
        lemma_split_text_flat(s.drop_first());
        lemma_split_text_len(s.drop_first());
        let r = split_text(s);
        let rest = split_text(s.drop_first());
        assert forall|i: int| 0 <= i < r.len() implies line_flat(#[trigger] r[i]) by {
            if i == 0 {
                assert(line_flat(rest[0]));
                assert(r[0] == seq![s[0]] + rest[0]);
                assert forall|j: int| 0 <= j < r[0].len() implies r[0][j] != '\n' by {
                    if j == 0 {
                        assert(r[0][0] == s[0]);
                    } else {
                        assert(r[0][j] == rest[0][j - 1]);
                    }
                }
            } else {
                assert(r[i] == rest.drop_first()[i - 1]);
                assert(rest.drop_first()[i - 1] == rest[i]);
            }
        }
    }
}

/// Round-trip law: joining the lines that a text splits into gives the
/// text back, for every text.
pub proof fn lemma_join_split_text(s: Seq<char>)
    ensures
        join_text(split_text(s)) == s,
    decreases s.len(),
{
    if s.len() == 0 {
        assert(join_text(split_text(s)) =~= s);
    } else if s[0] == '\n' {
        lemma_join_split_text(s.drop_first());
        lemma_split_text_len(s.drop_first());
        let rest = split_text(s.drop_first());
        let r = split_text(s);
        assert(r.len() >= 2);
        assert(r.drop_first() =~= rest);
        assert(join_text(r) == r[0] + seq!['\n'] + join_text(rest));
        assert(join_text(r) =~= s);
    } else {
        lemma_join_split_text(s.drop_first());
        lemma_split_text_len(s.drop_first());
        let rest = split_text(s.drop_first());
        let r = split_text(s);
        if rest.len() == 1 {
            assert(r.len() == 1);
            assert(join_text(r) == seq![s[0]] + rest[0]);
            assert(join_text(rest) == rest[0]);
            assert(join_text(r) =~= s);
        } else {
            assert(r.len() >= 2);
            assert(r.drop_first() =~= rest.drop_first());
            assert(join_text(r) == (seq![s[0]] + rest[0]) + seq!['\n'] + join_text(rest.drop_first()));
            assert(join_text(rest) == rest[0] + seq!['\n'] + join_text(rest.drop_first()));
            assert(join_text(r) =~= seq![s[0]] + join_text(rest));
            assert(join_text(r) =~= s);
        }
    }
}

/// Splitting a flat line yields exactly that line alone.
pub proof fn lemma_split_flat_line(l: Seq<char>)
    requires
        line_flat(l),
    ensures
        split_text(l) == seq![l],
    decreases l.len(),
{
    if l.len() == 0 {
        assert(split_text(l) =~~= seq![l]);
    } else {
        assert(line_flat(l.drop_first())) by {
            assert forall|j: int| 0 <= j < l.drop_first().len() implies l.drop_first()[j] != '\n' by {
                assert(l.drop_first()[j] == l[j + 1]);
            }
        }
        lemma_split_flat_line(l.drop_first());
        assert(split_text(l) =~~= seq![l]);
    }
}

/// Splitting a flat line, a newline, and a remainder yields the line
/// followed by the split of the remainder.
pub proof fn lemma_split_text_prepend_line(l: Seq<char>, s: Seq<char>)
    requires
        line_flat(l),
    ensures
        split_text(l + seq!['\n'] + s) == seq![l] + split_text(s),
    decreases l.len(),
{
    let whole = l + seq!['\n'] + s;
    if l.len() == 0 {
        assert(whole[0] == '\n');
        assert(whole.drop_first() =~= s);
        assert(split_text(whole) =~~= seq![l] + split_text(s));
    } else {
        assert(line_flat(l.drop_first())) by {
            assert forall|j: int| 0 <= j < l.drop_first().len() implies l.drop_first()[j] != '\n' by {
                assert(l.drop_first()[j] == l[j + 1]);
            }
        }
        lemma_split_text_prepend_line(l.drop_first(), s);
        lemma_split_text_len(s);
        assert(whole[0] == l[0]);
        assert(whole[0] != '\n');
        assert(whole.drop_first() =~= l.drop_first() + seq!['\n'] + s);
        let rest = split_text(whole.drop_first());
        assert(rest == seq![l.drop_first()] + split_text(s));
        assert(rest[0] == l.drop_first());
        assert(seq![l[0]] + rest[0] =~= l);
        assert(rest.drop_first() =~= split_text(s));
        assert(split_text(whole) =~~= seq![l] + split_text(s));
    }
}

/// Round-trip law, buffer direction: splitting the text that a flat,
/// non-empty sequence of lines joins into gives the lines back.
pub proof fn lemma_split_join_text(lines: Seq<Seq<char>>)
    requires
        lines.len() >= 1,
        lines_flat(lines),
    ensures
        split_text(join_text(lines)) == lines,
    decreases lines.len(),
{
    if lines.len() == 1 {
        lemma_split_flat_line(lines[0]);
        assert(split_text(join_text(lines)) =~~= lines);
    } else {
        assert(lines_flat(lines.drop_first())) by {
            assert forall|i: int| 0 <= i < lines.drop_first().len()
                implies line_flat(#[trigger] lines.drop_first()[i]) by {
                assert(lines.drop_first()[i] == lines[i + 1]);
            }
        }
        lemma_split_join_text(lines.drop_first());
        lemma_split_text_prepend_line(lines[0], join_text(lines.drop_first()));
        assert(split_text(join_text(lines)) =~~= lines);
    }
}

/// Appending one more line to a non-empty sequence extends the joined text
/// by a newline and that line.
pub proof fn lemma_join_text_push(lines: Seq<Seq<char>>, l: Seq<char>)
    requires
        lines.len() >= 1,
    ensures
        join_text(lines.push(l)) == join_text(lines) + seq!['\n'] + l,
    decreases lines.len(),
{
    if lines.len() == 1 {
        assert(lines.push(l).drop_first() =~= seq![l]);
        assert(join_text(lines.push(l)) == lines[0] + seq!['\n'] + join_text(seq![l]));
        assert(join_text(lines.push(l)) =~= join_text(lines) + seq!['\n'] + l);
    } else {
        lemma_join_text_push(lines.drop_first(), l);
        assert(lines.push(l).drop_first() =~= lines.drop_first().push(l));
        assert(join_text(lines.push(l)) == lines[0] + seq!['\n'] + join_text(lines.drop_first().push(l)));
        assert(join_text(lines.push(l)) =~= join_text(lines) + seq!['\n'] + l);
    }
}

/// The buffer after a line is cut at a column: the prefix stays on its row
/// and the suffix becomes a new row just below. A column at or beyond the
/// line end leaves an empty new row.
pub open spec fn split_line_spec(lines: Seq<Seq<char>>, row: int, col: int) -> Seq<Seq<char>> {
    let cut = if col <= lines[row].len() {
        col
    } else {
        lines[row].len() as int
    };
    lines.update(row, lines[row].take(cut)).insert(row + 1, lines[row].skip(cut))
}

/// The buffer after a row is appended onto the row above it and removed.
pub open spec fn join_line_spec(lines: Seq<Seq<char>>, row: int) -> Seq<Seq<char>> {
    lines.update(row - 1, lines[row - 1] + lines[row]).remove(row)
}

/// Splitting a line and immediately joining at the seam restores the
/// buffer exactly, whatever the column.
pub proof fn lemma_split_then_join_line(lines: Seq<Seq<char>>, row: int, col: int)
    requires
        0 <= row < lines.len(),
        0 <= col,
    ensures
        join_line_spec(split_line_spec(lines, row, col), row + 1) == lines,
{
    let cut = if col <= lines[row].len() {
        col
    } else {
        lines[row].len() as int
    };
    let after_split = split_line_spec(lines, row, col);
    assert(after_split[row] == lines[row].take(cut));
    assert(after_split[row + 1] == lines[row].skip(cut));
    assert(lines[row].take(cut) + lines[row].skip(cut) =~= lines[row]);
    assert(join_line_spec(after_split, row + 1) =~~= lines);
}

/// Inserting a character other than newline into a flat line keeps it
/// flat.
pub proof fn lemma_line_insert_flat(l: Seq<char>, i: int, c: char)
    requires
        line_flat(l),
        0 <= i <= l.len(),
        c != '\n',
    ensures
        line_flat(l.insert(i, c)),
{
    let r = l.insert(i, c);
    assert forall|j: int| 0 <= j < r.len() implies r[j] != '\n' by {
        if j < i {
            assert(r[j] == l[j]);
        } else if j == i {
            assert(r[j] == c);
        } else {
            assert(r[j] == l[j - 1]);
        }
    }
}

/// Removing a character from a flat line keeps it flat.
pub proof fn lemma_line_remove_flat(l: Seq<char>, i: int)
    requires
        line_flat(l),
        0 <= i < l.len(),
    ensures
        line_flat(l.remove(i)),
{
    let r = l.remove(i);
    assert forall|j: int| 0 <= j < r.len() implies r[j] != '\n' by {
        if j < i {
            assert(r[j] == l[j]);
        } else {
            assert(r[j] == l[j + 1]);
        }
    }
}

/// Splitting a line of a flat buffer keeps every line flat.
pub proof fn lemma_split_line_flat(lines: Seq<Seq<char>>, row: int, col: int)
    requires
        0 <= row < lines.len(),
        0 <= col,
        lines_flat(lines),
    ensures
        lines_flat(split_line_spec(lines, row, col)),
{
    let cut = if col <= lines[row].len() {
        col
    } else {
        lines[row].len() as int
    };
    let r = split_line_spec(lines, row, col);
    assert forall|i: int| 0 <= i < r.len() implies line_flat(#[trigger] r[i]) by {
        if i < row {
            assert(r[i] == lines[i]);
        } else if i == row {
            assert(r[i] == lines[row].take(cut));
            assert forall|j: int| 0 <= j < r[i].len() implies r[i][j] != '\n' by {
                assert(r[i][j] == lines[row][j]);
            }
        } else if i == row + 1 {
            assert(r[i] == lines[row].skip(cut));
            assert forall|j: int| 0 <= j < r[i].len() implies r[i][j] != '\n' by {
                assert(r[i][j] == lines[row][j + cut]);
            }
        } else {
            assert(r[i] == lines[i - 1]);
        }
    }
}

/// Joining a line of a flat buffer onto the line above keeps every line
/// flat.
pub proof fn lemma_join_line_flat(lines: Seq<Seq<char>>, row: int)
    requires
        0 < row < lines.len(),
        lines_flat(lines),
    ensures
        lines_flat(join_line_spec(lines, row)),
{
    let r = join_line_spec(lines, row);
    assert forall|i: int| 0 <= i < r.len() implies line_flat(#[trigger] r[i]) by {
        if i < row - 1 {
            assert(r[i] == lines[i]);
        } else if i == row - 1 {
            assert(r[i] == lines[row - 1] + lines[row]);
            assert forall|j: int| 0 <= j < r[i].len() implies r[i][j] != '\n' by {
                if j < lines[row - 1].len() {
                    assert(r[i][j] == lines[row - 1][j]);
                } else {
                    assert(r[i][j] == lines[row][j - lines[row - 1].len()]);
                }
            }
        } else {
            assert(r[i] == lines[i + 1]);
        }
    }
}

/// A note's text as an ordered sequence of lines of characters.
pub struct TextBuffer {
    lines: Vec<Vec<char>>,
}

impl View for TextBuffer {
    type V = Seq<Seq<char>>;

    closed spec fn view(&self) -> Seq<Seq<char>> {
        Seq::new(self.lines@.len() as nat, |i: int| self.lines@[i]@)
    }
}

impl TextBuffer {
    /// A buffer is well-formed when it holds at least one line.
    pub open spec fn wf(&self) -> bool {
        self@.len() >= 1
    }

    /// Builds a buffer from raw text by splitting on newline.
    pub fn from_text(s: &str) -> (b: TextBuffer)
        ensures
            b@ == split_text(s@),
            b.wf(),
            lines_flat(b@),
    {
        let chars = str_to_chars(s);
        let n = chars.len();
        let mut lines: Vec<Vec<char>> = Vec::new();
        lines.push(Vec::new());
        proof {
            assert(Seq::new(lines@.len() as nat, |k: int| lines@[k]@)
                =~~= split_text(chars@.skip(n as int)));
        }
        let mut i: usize = n;
        while i > 0
            invariant
                i <= n,
                n == chars@.len(),
                chars@ == s@,
                lines@.len() >= 1,
                Seq::new(lines@.len() as nat, |k: int| lines@[k]@)
                    == split_text(chars@.skip(i as int)),
            decreases i,
        {
            let ghost old_lines = Seq::new(lines@.len() as nat, |k: int| lines@[k]@);
            let c = chars[i - 1];
            proof {
                assert(chars@.skip(i - 1).drop_first() =~= chars@.skip(i as int));
                assert(chars@.skip(i - 1)[0] == chars@[i - 1]);
            }
            if c == '\n' {
                lines.insert(0, Vec::new());
                proof {
                    assert(Seq::new(lines@.len() as nat, |k: int| lines@[k]@)
                        =~~= split_text(chars@.skip(i - 1)));
                }
            } else {
                let mut first = lines.remove(0);
                first.insert(0, c);
                lines.insert(0, first);
                proof {
                    lemma_split_text_len(chars@.skip(i as int));
                    assert(seq![c] + old_lines[0] =~= old_lines[0].insert(0, c));
                    assert(Seq::new(lines@.len() as nat, |k: int| lines@[k]@)
                        =~~= split_text(chars@.skip(i - 1)));
                }
            }
            i = i - 1;
        }
        proof {
            assert(chars@.skip(0) =~= s@);
            lemma_split_text_len(s@);
            lemma_split_text_flat(s@);
        }
        TextBuffer { lines }
    }

    /// Serializes the buffer back to raw text by joining the lines with
    /// newline.
    pub fn to_text(&self) -> (s: String)
        requires
            self.wf(),
        ensures
            s@ == join_text(self@),
    {
        let mut s = chars_to_string(&self.lines[0]);
        let mut i: usize = 1;
        while i < self.lines.len()
            invariant
                1 <= i <= self.lines@.len(),
                self@ == Seq::new(self.lines@.len() as nat, |k: int| self.lines@[k]@),
                s@ == join_text(self@.take(i as int)),
            decreases self.lines@.len() - i,
        {
            crate::strutil::push_char(&mut s, '\n');
            let line = chars_to_string(&self.lines[i]);
            s.append(line.as_str());
            proof {
                lemma_join_text_push(self@.take(i as int), self@[i as int]);
                assert(self@.take(i + 1) =~= self@.take(i as int).push(self@[i as int]));
                assert(s@ =~= join_text(self@.take(i + 1)));
            }
            i = i + 1;
        }
        proof {
            assert(self@.take(self@.len() as int) =~= self@);
        }
        s
    }

    /// The number of lines.
    pub fn line_count(&self) -> (n: usize)
        ensures
            n == self@.len(),
    {
        self.lines.len()
    }

    /// The length in characters of the line at the given row.
    pub fn line_length(&self, row: usize) -> (n: usize)
        requires
            row < self@.len(),
        ensures
            n == self@[row as int].len(),
    {
        self.lines[row].len()
    }

    /// The character at the given row and column.
    pub fn char_at(&self, row: usize, col: usize) -> (c: char)
        requires
            row < self@.len(),
            col < self@[row as int].len(),
        ensures
            c == self@[row as int][col as int],
    {
        self.lines[row][col]
    }

    /// The line at the given row, as a string.
    pub fn line_text(&self, row: usize) -> (s: String)
        requires
            row < self@.len(),
        ensures
            s@ == self@[row as int],
    {
        chars_to_string(&self.lines[row])
    }

    /// Inserts a character at the given column, shifting the rest of the
    /// line right.
    pub fn insert_char(&mut self, row: usize, col: usize, ch: char)
        requires
            row < old(self)@.len(),
            col <= old(self)@[row as int].len(),
        ensures
            final(self)@ == old(self)@.update(row as int, old(self)@[row as int].insert(col as int, ch)),
    {
        let mut line = self.lines.remove(row);
        line.insert(col, ch);
        self.lines.insert(row, line);
        proof {
            assert(final(self)@ =~~= old(self)@.update(
                row as int,
                old(self)@[row as int].insert(col as int, ch),
            ));
        }
    }

    /// Removes the character just before the given column; at column zero
    /// there is nothing to delete and the buffer is left unchanged.
    pub fn delete_char_before(&mut self, row: usize, col: usize)
        requires
            row < old(self)@.len(),
            col <= old(self)@[row as int].len(),
        ensures
            col == 0 ==> final(self)@ == old(self)@,
            col > 0 ==> final(self)@ == old(self)@.update(row as int, old(self)@[row as int].remove(col - 1)),
    {
        if col > 0 {
            let mut line = self.lines.remove(row);
            line.remove(col - 1);
            self.lines.insert(row, line);
            proof {
                assert(final(self)@ =~~= old(self)@.update(
                    row as int,
                    old(self)@[row as int].remove(col - 1),
                ));
            }
        } else {
            proof {
                assert(final(self)@ =~~= old(self)@);
            }
        }
    }

    /// Cuts the line at the given column: the prefix stays at its row and
    /// the suffix becomes a new line just below. A column at or beyond the
    /// line end produces a blank new line.
    pub fn split_line(&mut self, row: usize, col: usize)
        requires
            row < old(self)@.len(),
        ensures
            final(self)@ == split_line_spec(old(self)@, row as int, col as int),
            final(self)@.len() == old(self)@.len() + 1,
    {
        let n = self.lines.len();
        let mut line = self.lines.remove(row);
        let cut = if col <= line.len() {
            col
        } else {
            line.len()
        };
        let suffix = line.split_off(cut);
        self.lines.insert(row, line);
        assert(row < n);
        self.lines.insert(row + 1, suffix);
        proof {
            assert(old(self)@[row as int].take(cut as int) =~= old(self)@[row as int].subrange(0, cut as int));
            assert(old(self)@[row as int].skip(cut as int)
                =~= old(self)@[row as int].subrange(cut as int, old(self)@[row as int].len() as int));
            assert(final(self)@ =~~= split_line_spec(old(self)@, row as int, col as int));
        }
    }

    /// Appends the line at the given row onto the end of the line above it
    /// and removes it; returns the original length of the line above, the
    /// seam where the cursor lands.
    pub fn join_line_with_previous(&mut self, row: usize) -> (prev_len: usize)
        requires
            0 < row < old(self)@.len(),
        ensures
            final(self)@ == join_line_spec(old(self)@, row as int),
            prev_len == old(self)@[row - 1].len(),
    {
        let mut moved = self.lines.remove(row);
        let mut prev = self.lines.remove(row - 1);
        let prev_len = prev.len();
        prev.append(&mut moved);
        self.lines.insert(row - 1, prev);
        proof {
            assert(final(self)@ =~~= join_line_spec(old(self)@, row as int));
        }
        prev_len
    }
}

} // verus!
