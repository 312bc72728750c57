//! A terminal note editor's core: a line/column-addressed text buffer,
//! a clamped cursor, and the keystroke-driven edit commands that tie
//! them together.

mod buffer;
mod cursor;
mod editor;
mod list;
mod note;
mod strutil;
mod utils;

pub use buffer::TextBuffer;
pub use cursor::Cursor;
pub use editor::{ActionModel, EditorModel, InputMode, Key, KeyOutcome, NoteEditor, OutcomeModel, PersistAction};
pub use list::{ListOutcome, MyList};
pub use note::{parse_note, tokenize, Link, Note, Tag};
pub use utils::{rc_rc, RcRc};
