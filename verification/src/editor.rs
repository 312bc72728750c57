//! The edit-command processor: one keystroke, one state change.
//!
//! A `NoteEditor` holds the buffer, the cursor, the active mode, and the
//! title under edit. `handle_key` interprets a keystroke against the mode
//! and mutates the state exactly as the transition function `step` says;
//! whatever must leave the editor — saving, renaming, quitting — comes
//! back as a `KeyOutcome` for the caller to carry out. A save or a title
//! commit is confirmed afterwards, so a failed write never clears the
//! edited flag or commits the mode transition.

use vstd::prelude::*;
use crate::buffer::{
    join_line_spec, join_text, lemma_join_line_flat, lemma_line_insert_flat,
    lemma_line_remove_flat, lemma_split_line_flat, lines_flat, split_line_spec, split_text,
    TextBuffer,
};
use crate::cursor::{word_backward_col, word_forward_col, Cursor};
use crate::strutil::chars_to_string;

verus! {

/// The editing mode of a note: exactly one is active at a time, and it
/// governs how each keystroke is interpreted.
#[derive(Debug, Clone, Copy, PartialEq, Eq, Structural)]
pub enum InputMode {
    Normal,
    Insert,
    EditTitle,
}

/// A key-press event handed to the editor: a printable character or a
/// named key.
#[derive(Debug, Clone, Copy, PartialEq, Eq, Structural)]
pub enum Key {
    Char(char),
    Enter,
    Backspace,
    Left,
    Right,
    Up,
    Down,
    Home,
    End,
    Esc,
    Tab,
}

/// A persistence request the editor hands to its caller.
pub enum PersistAction {
    /// Write the note's text under the given title.
    Persist { title: String, text: String },
    /// Remove the note previously persisted under the given title.
    Remove { title: String },
}

/// The mathematical value of a persistence request.
pub ghost enum ActionModel {
    Persist { title: Seq<char>, text: Seq<char> },
    Remove { title: Seq<char> },
}

impl View for PersistAction {
    type V = ActionModel;

    open spec fn view(&self) -> ActionModel {
        match self {
            PersistAction::Persist { title, text } => ActionModel::Persist {
                title: title@,
                text: text@,
            },
            PersistAction::Remove { title } => ActionModel::Remove { title: title@ },
        }
    }
}

/// What a keystroke asks of the caller, beyond the state change itself.
pub enum KeyOutcome {
    /// Nothing: the state change, if any, was the whole effect.
    Handled,
    /// Leave the application.
    Quit,
    /// Leave the note and return to the note list.
    ExitToList,
    /// Open the tag search over this note's tags.
    SearchTags,
    /// Run the actions in order; on success call `confirm_saved`.
    Save(Vec<PersistAction>),
    /// Run the actions in order; on success call `confirm_title_commit`.
    /// A new note (no previous title) is also to be registered in the
    /// note collection.
    CommitTitle { actions: Vec<PersistAction>, is_new: bool },
}

/// The mathematical value of a keystroke's outcome.
pub ghost enum OutcomeModel {
    Handled,
    Quit,
    ExitToList,
    SearchTags,
    Save(Seq<ActionModel>),
    CommitTitle { actions: Seq<ActionModel>, is_new: bool },
}

impl View for KeyOutcome {
    type V = OutcomeModel;

    open spec fn view(&self) -> OutcomeModel {
        match self {
            KeyOutcome::Handled => OutcomeModel::Handled,
            KeyOutcome::Quit => OutcomeModel::Quit,
            KeyOutcome::ExitToList => OutcomeModel::ExitToList,
            KeyOutcome::SearchTags => OutcomeModel::SearchTags,
            KeyOutcome::Save(v) => OutcomeModel::Save(Seq::new(v@.len() as nat, |k: int| v@[k]@)),
            KeyOutcome::CommitTitle { actions, is_new } => OutcomeModel::CommitTitle {
                actions: Seq::new(actions@.len() as nat, |k: int| actions@[k]@),
                is_new: *is_new,
            },
        }
    }
}

/// The mathematical value of an editor: lines, cursor, mode, title and
/// flags.
pub ghost struct EditorModel {
    pub lines: Seq<Seq<char>>,
    pub row: int,
    pub col: int,
    pub mode: InputMode,
    pub title: Seq<char>,
    pub old_title: Option<Seq<char>>,
    pub edited: bool,
}

/// The editor's bounds invariant: at least one flat line, the row inside
/// the buffer, and the column at most the length of what it addresses —
/// the title while it is being edited, the current line otherwise.
pub open spec fn editor_inv(m: EditorModel) -> bool {
    &&& m.lines.len() >= 1
    &&& lines_flat(m.lines)
    &&& 0 <= m.row < m.lines.len()
    &&& 0 <= m.col
    &&& (m.mode == InputMode::EditTitle ==> m.col <= m.title.len())
    &&& (m.mode != InputMode::EditTitle ==> m.col <= m.lines[m.row].len())
}

/// Whether a committed title names a brand-new note: no previous title
/// was ever snapshotted, or it was empty.
pub open spec fn commit_is_new(m: EditorModel) -> bool {
    match m.old_title {
        None => true,
        Some(t) => t.len() == 0,
    }
}

/// The persistence actions a title commit requires, in order: a rename
/// first removes the old file, then writes under the new title; a new
/// note only writes.
pub open spec fn commit_actions(m: EditorModel) -> Seq<ActionModel> {
    if commit_is_new(m) {
        seq![ActionModel::Persist { title: m.title, text: join_text(m.lines) }]
    } else {
        seq![
            ActionModel::Remove { title: m.old_title.unwrap() },
            ActionModel::Persist { title: m.title, text: join_text(m.lines) },
        ]
    }
}

/// The state after a keystroke in normal mode.
pub open spec fn step_normal(m: EditorModel, key: Key) -> EditorModel {
    match key {
        Key::Char(c) => if c == 'i' {
            EditorModel { mode: InputMode::Insert, ..m }
        } else if c == 't' {
            EditorModel { mode: InputMode::EditTitle, old_title: Some(m.title), col: 0, ..m }
        } else if c == 'w' {
            EditorModel { col: word_forward_col(m.lines[m.row], m.col), ..m }
        } else if c == 'b' {
            EditorModel { col: word_backward_col(m.lines[m.row], m.col), ..m }
        } else {
            m
        },
        Key::Left => EditorModel { col: if m.col > 0 { m.col - 1 } else { 0 }, ..m },
        Key::Right => EditorModel {
            col: if m.col < m.lines[m.row].len() { m.col + 1 } else { m.col },
            ..m
        },
        Key::Up => if m.row > 0 {
            EditorModel { row: m.row - 1, col: 0, ..m }
        } else {
            m
        },
        Key::Down => if m.row + 1 < m.lines.len() {
            EditorModel {
                row: m.row + 1,
                col: if m.col <= m.lines[m.row + 1].len() { m.col } else { m.lines[m.row + 1].len() as int },
                ..m
            }
        } else {
            m
        },
        Key::Home => EditorModel { col: 0, ..m },
        Key::End => EditorModel { col: m.lines[m.row].len() as int, ..m },
        _ => m,
    }
}

/// The state after a keystroke in insert mode.
pub open spec fn step_insert(m: EditorModel, key: Key) -> EditorModel {
    match key {
        Key::Esc => EditorModel { mode: InputMode::Normal, ..m },
        Key::Char(c) => if c == '\n' {
            m
        } else {
            EditorModel {
                lines: m.lines.update(m.row, m.lines[m.row].insert(m.col, c)),
                col: m.col + 1,
                edited: true,
                ..m
            }
        },
        Key::Enter => EditorModel {
            lines: split_line_spec(m.lines, m.row, m.col),
            row: m.row + 1,
            col: 0,
            edited: true,
            ..m
        },
        Key::Backspace => if m.col == 0 {
            if m.row == 0 {
                m
            } else {
                EditorModel {
                    lines: join_line_spec(m.lines, m.row),
                    row: m.row - 1,
                    col: m.lines[m.row - 1].len() as int,
                    edited: true,
                    ..m
                }
            }
        } else {
            EditorModel {
                lines: m.lines.update(m.row, m.lines[m.row].remove(m.col - 1)),
                col: m.col - 1,
                edited: true,
                ..m
            }
        },
        Key::Left => EditorModel { col: if m.col > 0 { m.col - 1 } else { 0 }, ..m },
        Key::Right => EditorModel {
            col: if m.col < m.lines[m.row].len() { m.col + 1 } else { m.col },
            ..m
        },
        Key::Up => if m.row > 0 {
            EditorModel { row: m.row - 1, col: 0, ..m }
        } else {
            m
        },
        Key::Down => if m.row + 1 < m.lines.len() {
            EditorModel {
                row: m.row + 1,
                col: if m.col <= m.lines[m.row + 1].len() { m.col } else { m.lines[m.row + 1].len() as int },
                ..m
            }
        } else {
            m
        },
        Key::Home => EditorModel { col: 0, ..m },
        Key::End => EditorModel { col: m.lines[m.row].len() as int, ..m },
        _ => m,
    }
}

/// The state after a keystroke while the title is being edited. The
/// commit itself (Enter) changes no state here: it is confirmed only
/// after its persistence actions succeed.
pub open spec fn step_edit_title(m: EditorModel, key: Key) -> EditorModel {
    match key {
        Key::Char(c) => if c == '\n' {
            m
        } else {
            EditorModel { title: m.title.insert(m.col, c), col: m.col + 1, edited: true, ..m }
        },
        Key::Backspace => if m.col == 0 {
            m
        } else {
            EditorModel { title: m.title.remove(m.col - 1), col: m.col - 1, edited: true, ..m }
        },
        Key::Left => EditorModel { col: if m.col > 0 { m.col - 1 } else { 0 }, ..m },
        Key::Right => EditorModel {
            col: if m.col < m.title.len() { m.col + 1 } else { m.col },
            ..m
        },
        _ => m,
    }
}

/// The transition function: the state after one keystroke, whatever the
/// mode.
pub open spec fn step(m: EditorModel, key: Key) -> EditorModel {
    match m.mode {
        InputMode::Normal => step_normal(m, key),
        InputMode::Insert => step_insert(m, key),
        InputMode::EditTitle => step_edit_title(m, key),
    }
}

/// What one keystroke asks of the caller: quit, exit, search, or a
/// persistence request; everything else is handled inside.
pub open spec fn step_outcome(m: EditorModel, key: Key) -> OutcomeModel {
    match m.mode {
        InputMode::Normal => match key {
            Key::Char(c) => if c == 'q' {
                OutcomeModel::Quit
            } else if c == 's' {
                if m.edited {
                    OutcomeModel::Save(
                        seq![ActionModel::Persist { title: m.title, text: join_text(m.lines) }],
                    )
                } else {
                    OutcomeModel::Handled
                }
            } else if c == 'T' {
                OutcomeModel::SearchTags
            } else {
                OutcomeModel::Handled
            },
            Key::Esc => OutcomeModel::ExitToList,
            _ => OutcomeModel::Handled,
        },
        InputMode::Insert => OutcomeModel::Handled,
        InputMode::EditTitle => match key {
            Key::Enter => OutcomeModel::CommitTitle {
                actions: commit_actions(m),
                is_new: commit_is_new(m),
            },
            _ => OutcomeModel::Handled,
        },
    }
}

/// Splitting a line with Enter and immediately joining it back with
/// Backspace restores the buffer exactly, and the cursor returns to the
/// very position it split at.
pub proof fn lemma_enter_then_backspace(m: EditorModel)
    requires
        editor_inv(m),
        m.mode == InputMode::Insert,
    ensures
        step(step(m, Key::Enter), Key::Backspace).lines == m.lines,
        step(step(m, Key::Enter), Key::Backspace).row == m.row,
        step(step(m, Key::Enter), Key::Backspace).col == m.col,
{
    let m1 = step(m, Key::Enter);
    assert(m1.lines == split_line_spec(m.lines, m.row, m.col));
    assert(m1.lines[m.row] == m.lines[m.row].take(m.col));
    crate::buffer::lemma_split_then_join_line(m.lines, m.row, m.col);
}

/// One note's editing session: the buffer, the cursor, the mode, and the
/// title under edit.
pub struct NoteEditor {
    pub buffer: TextBuffer,
    pub cursor: Cursor,
    pub mode: InputMode,
    pub title: Vec<char>,
    pub old_title: Option<Vec<char>>,
    pub edited: bool,
}

impl View for NoteEditor {
    type V = EditorModel;

    open spec fn view(&self) -> EditorModel {
        EditorModel {
            lines: self.buffer@,
            row: self.cursor.row as int,
            col: self.cursor.col as int,
            mode: self.mode,
            title: self.title@,
            old_title: match self.old_title {
                None => None,
                Some(t) => Some(t@),
            },
            edited: self.edited,
        }
    }
}

impl NoteEditor {
    /// The editor's bounds invariant, kept by every operation.
    pub open spec fn wf(&self) -> bool {
        editor_inv(self@)
    }

    /// Opens an editing session on a note's title and text: the text is
    /// split into lines, the cursor sits at the origin, the mode is
    /// normal, and nothing is edited yet.
    pub fn open(title: &str, text: &str) -> (ed: NoteEditor)
        ensures
            ed@.lines == split_text(text@),
            ed@.row == 0,
            ed@.col == 0,
            ed@.mode == InputMode::Normal,
            ed@.title == title@,
            ed@.old_title is None,
            !ed@.edited,
            ed.wf(),
    {
        let buffer = TextBuffer::from_text(text);
        NoteEditor {
            buffer,
            cursor: Cursor::origin(),
            mode: InputMode::Normal,
            title: crate::strutil::str_to_chars(title),
            old_title: None,
            edited: false,
        }
    }

    /// The title under edit, as a string.
    pub fn title_string(&self) -> (s: String)
        ensures
            s@ == self@.title,
    {
        chars_to_string(&self.title)
    }

    /// Handles one keystroke: the state changes exactly as `step` says,
    /// and whatever must happen outside the editor comes back as the
    /// outcome.
    pub fn handle_key(&mut self, key: Key) -> (outcome: KeyOutcome)
        requires
            old(self).wf(),
        ensures
            final(self)@ == step(old(self)@, key),
            outcome@ == step_outcome(old(self)@, key),
            final(self).wf(),
    {
        match self.mode {
            InputMode::Normal => self.handle_key_normal(key),
            InputMode::Insert => self.handle_key_insert(key),
            InputMode::EditTitle => self.handle_key_edit_title(key),
        }
    }

    /// Marks a requested save as performed: the edited flag is cleared
    /// and nothing else changes.
    pub fn confirm_saved(&mut self)
        requires
            old(self).wf(),
        ensures
            final(self)@ == (EditorModel { edited: false, ..old(self)@ }),
            final(self).wf(),
    {
        self.edited = false;
    }

    /// Marks a requested title commit as performed: back to normal mode,
    /// the column reset to zero, the edited flag cleared.
    pub fn confirm_title_commit(&mut self)
        requires
            old(self).wf(),
        ensures
            final(self)@ == (EditorModel {
                mode: InputMode::Normal,
                col: 0,
                edited: false,
                ..old(self)@
            }),
            final(self).wf(),
    {
        self.mode = InputMode::Normal;
        self.cursor.col = 0;
        self.edited = false;
    }

    fn handle_key_normal(&mut self, key: Key) -> (outcome: KeyOutcome)
        requires
            old(self).wf(),
            old(self)@.mode == InputMode::Normal,
        ensures
            final(self)@ == step_normal(old(self)@, key),
            outcome@ == step_outcome(old(self)@, key),
            final(self).wf(),
    {
        match key {
            Key::Char(c) => {
                if c == 'q' {
                    KeyOutcome::Quit
                } else if c == 'i' {
                    self.mode = InputMode::Insert;
                    KeyOutcome::Handled
                } else if c == 's' {
                    if self.edited {
                        let title = chars_to_string(&self.title);
                        let text = self.buffer.to_text();
                        let mut actions: Vec<PersistAction> = Vec::new();
                        actions.push(PersistAction::Persist { title, text });
                        let outcome = KeyOutcome::Save(actions);
                        proof {
                            assert(outcome@->Save_0 =~= step_outcome(old(self)@, key)->Save_0);
                        }
                        outcome
                    } else {
                        KeyOutcome::Handled
                    }
                } else if c == 't' {
                    self.old_title = Some(self.title.clone());
                    self.mode = InputMode::EditTitle;
                    self.cursor.col = 0;
                    proof {
                        assert(old(self).title@ =~= self.title@);
                    }
                    KeyOutcome::Handled
                } else if c == 'T' {
                    KeyOutcome::SearchTags
                } else if c == 'w' {
                    self.cursor.move_word_forward(&self.buffer);
                    KeyOutcome::Handled
                } else if c == 'b' {
                    self.cursor.move_word_backward(&self.buffer);
                    KeyOutcome::Handled
                } else {
                    KeyOutcome::Handled
                }
            },
            Key::Left => {
                self.cursor.move_left();
                KeyOutcome::Handled
            },
            Key::Right => {
                self.cursor.move_right(&self.buffer);
                KeyOutcome::Handled
            },
            Key::Up => {
                self.cursor.move_up(&self.buffer);
                KeyOutcome::Handled
            },
            Key::Down => {
                self.cursor.move_down(&self.buffer);
                KeyOutcome::Handled
            },
            Key::Home => {
                self.cursor.move_home();
                KeyOutcome::Handled
            },
            Key::End => {
                self.cursor.move_end(&self.buffer);
                KeyOutcome::Handled
            },
            Key::Esc => KeyOutcome::ExitToList,
            _ => KeyOutcome::Handled,
        }
    }

    fn handle_key_insert(&mut self, key: Key) -> (outcome: KeyOutcome)
        requires
            old(self).wf(),
            old(self)@.mode == InputMode::Insert,
        ensures
            final(self)@ == step_insert(old(self)@, key),
            outcome@ == step_outcome(old(self)@, key),
            final(self).wf(),
    {
        match key {
            Key::Esc => {
                self.mode = InputMode::Normal;
                KeyOutcome::Handled
            },
            Key::Char(c) => {
                if c != '\n' {
                    proof {
                        lemma_line_insert_flat(
                            self@.lines[self@.row],
                            self@.col,
                            c,
                        );
                    }
                    self.buffer.insert_char(self.cursor.row, self.cursor.col, c);
                    let len_after = self.buffer.line_length(self.cursor.row);
                    assert(self.cursor.col < len_after);
                    self.cursor.col = self.cursor.col + 1;
                    self.edited = true;
                }
                KeyOutcome::Handled
            },
            Key::Enter => {
                proof {
                    lemma_split_line_flat(self@.lines, self@.row, self@.col);
                }
                self.buffer.split_line(self.cursor.row, self.cursor.col);
                let count_after = self.buffer.line_count();
                assert(self.cursor.row + 1 < count_after);
                self.cursor.row = self.cursor.row + 1;
                self.cursor.col = 0;
                self.edited = true;
                KeyOutcome::Handled
            },
            Key::Backspace => {
                if self.cursor.col == 0 {
                    if self.cursor.row > 0 {
                        proof {
                            lemma_join_line_flat(self@.lines, self@.row);
                        }
                        let seam = self.buffer.join_line_with_previous(self.cursor.row);
                        self.cursor.row = self.cursor.row - 1;
                        self.cursor.col = seam;
                        self.edited = true;
                    }
                } else {
                    proof {
                        lemma_line_remove_flat(self@.lines[self@.row], self@.col - 1);
                    }
                    self.buffer.delete_char_before(self.cursor.row, self.cursor.col);
                    self.cursor.col = self.cursor.col - 1;
                    self.edited = true;
                }
                KeyOutcome::Handled
            },
            Key::Left => {
                self.cursor.move_left();
                KeyOutcome::Handled
            },
            Key::Right => {
                self.cursor.move_right(&self.buffer);
                KeyOutcome::Handled
            },
            Key::Up => {
                self.cursor.move_up(&self.buffer);
                KeyOutcome::Handled
            },
            Key::Down => {
                self.cursor.move_down(&self.buffer);
                KeyOutcome::Handled
            },
            Key::Home => {
                self.cursor.move_home();
                KeyOutcome::Handled
            },
            Key::End => {
                self.cursor.move_end(&self.buffer);
                KeyOutcome::Handled
            },
            _ => KeyOutcome::Handled,
        }
    }

    fn handle_key_edit_title(&mut self, key: Key) -> (outcome: KeyOutcome)
        requires
            old(self).wf(),
            old(self)@.mode == InputMode::EditTitle,
        ensures
            final(self)@ == step_edit_title(old(self)@, key),
            outcome@ == step_outcome(old(self)@, key),
            final(self).wf(),
    {
        match key {
            Key::Char(c) => {
                if c != '\n' {
                    self.title.insert(self.cursor.col, c);
                    let len_after = self.title.len();
                    assert(self.cursor.col < len_after);
                    self.cursor.col = self.cursor.col + 1;
                    self.edited = true;
                }
                KeyOutcome::Handled
            },
            Key::Backspace => {
                if self.cursor.col > 0 {
                    self.title.remove(self.cursor.col - 1);
                    self.cursor.col = self.cursor.col - 1;
                    self.edited = true;
                }
                KeyOutcome::Handled
            },
            Key::Left => {
                if self.cursor.col > 0 {
                    self.cursor.col = self.cursor.col - 1;
                }
                KeyOutcome::Handled
            },
            Key::Right => {
                if self.cursor.col < self.title.len() {
                    self.cursor.col = self.cursor.col + 1;
                }
                KeyOutcome::Handled
            },
            Key::Enter => {
                let is_new = match &self.old_title {
                    None => true,
                    Some(t) => t.len() == 0,
                };
                let mut actions: Vec<PersistAction> = Vec::new();
                if !is_new {
                    let old_name = match &self.old_title {
                        None => String::new(),
                        Some(t) => chars_to_string(t),
                    };
                    actions.push(PersistAction::Remove { title: old_name });
                }
                let title = chars_to_string(&self.title);
                let text = self.buffer.to_text();
                actions.push(PersistAction::Persist { title, text });
                let outcome = KeyOutcome::CommitTitle { actions, is_new };
                proof {
                    assert(outcome@->CommitTitle_actions
                        =~= step_outcome(old(self)@, key)->CommitTitle_actions);
                }
                outcome
            },
            _ => KeyOutcome::Handled,
        }
    }
}

} // verus!
