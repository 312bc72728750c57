//! The note list: browsing, tag search, and filtering.
//!
//! The list owns the notes and an index into whatever is currently shown —
//! all notes, or those matching the tag search. Keystrokes move the index
//! with wrap-around, edit the search text, or ask the caller to open a
//! note, reload the collection, or quit. Filtering never loses the list:
//! an empty search and a search nobody matches both show every note.

use vstd::prelude::*;
use vstd::string::StrSliceExecFns;
use crate::editor::Key;
use crate::note::{tokenize, tokens_of, Note, Tag};
use crate::strutil::{chars_to_string, str_to_chars};

verus! {

/// The search tags a search text denotes: each whitespace-separated token
/// with a hash prepended.
pub open spec fn search_tag_seqs(s: Seq<char>) -> Seq<Seq<char>> {
    tokens_of(s).map_values(|t: Seq<char>| seq!['#'] + t)
}

/// Whether a note carries every one of the searched tags.
pub open spec fn note_matches_all(tags: Seq<Seq<char>>, search: Seq<Seq<char>>) -> bool {
    forall|i: int| 0 <= i < search.len() ==> tags.contains(#[trigger] search[i])
}

/// Whether a note carries at least one of the searched tags.
pub open spec fn note_matches_any(tags: Seq<Seq<char>>, search: Seq<Seq<char>>) -> bool {
    exists|i: int| 0 <= i < tags.len() && search.contains(#[trigger] tags[i])
}

/// Whether a note matches the search: a note without a tag list never
/// matches; otherwise it must carry every searched tag, or any one of
/// them, as the flag says.
pub open spec fn note_matches(note: Note, search: Seq<Seq<char>>, all: bool) -> bool {
    match note.tags {
        None => false,
        Some(_) => if all {
            note_matches_all(note.tag_views(), search)
        } else {
            note_matches_any(note.tag_views(), search)
        },
    }
}

/// The indices of the notes that match the search, in order.
pub open spec fn matching_indices(notes: Seq<Note>, search: Seq<Seq<char>>, all: bool) -> Seq<int>
    decreases notes.len(),
{
    if notes.len() == 0 {
        Seq::empty()
    } else {
        let prefix = matching_indices(notes.drop_last(), search, all);
        if note_matches(notes.last(), search, all) {
            prefix.push(notes.len() - 1)
        } else {
            prefix
        }
    }
}

/// Every index from zero up to the count, in order.
pub open spec fn all_indices(n: int) -> Seq<int> {
    Seq::new(n as nat, |i: int| i)
}

/// The view of a possibly absent search text.
pub open spec fn opt_str_view(s: Option<String>) -> Option<Seq<char>> {
    match s {
        None => None,
        Some(x) => Some(x@),
    }
}

/// What the list shows under a search: without a search text, or with one
/// holding no token, every note; otherwise the matching notes — and if
/// none matches, every note again rather than an empty list.
pub open spec fn filter_list_spec(
    notes: Seq<Note>,
    search: Option<Seq<char>>,
    all: bool,
) -> Seq<int> {
    match search {
        None => all_indices(notes.len() as int),
        Some(s) => {
            let st = search_tag_seqs(s);
            if st.len() == 0 {
                all_indices(notes.len() as int)
            } else {
                let m = matching_indices(notes, st, all);
                if m.len() == 0 {
                    all_indices(notes.len() as int)
                } else {
                    m
                }
            }
        },
    }
}

/// Matching indices address the notes and there are at most as many of
/// them as notes.
proof fn lemma_matching_indices_bounds(notes: Seq<Note>, search: Seq<Seq<char>>, all: bool)
    ensures
        matching_indices(notes, search, all).len() <= notes.len(),
        forall|k: int| 0 <= k < matching_indices(notes, search, all).len()
            ==> 0 <= #[trigger] matching_indices(notes, search, all)[k] < notes.len(),
    decreases notes.len(),
{
    if notes.len() > 0 {
        lemma_matching_indices_bounds(notes.drop_last(), search, all);
        let prefix = matching_indices(notes.drop_last(), search, all);
        assert forall|k: int| 0 <= k < matching_indices(notes, search, all).len()
            implies 0 <= #[trigger] matching_indices(notes, search, all)[k] < notes.len() by {
            if k < prefix.len() {
                assert(matching_indices(notes, search, all)[k] == prefix[k]);
            }
        }
    }
}

/// What the list shows is never empty while there are notes, addresses
/// the notes, and is never longer than the notes.
pub proof fn lemma_filter_list_spec_bounds(
    notes: Seq<Note>,
    search: Option<Seq<char>>,
    all: bool,
)
    ensures
        filter_list_spec(notes, search, all).len() <= notes.len(),
        notes.len() > 0 ==> filter_list_spec(notes, search, all).len() > 0,
        forall|k: int| 0 <= k < filter_list_spec(notes, search, all).len()
            ==> 0 <= #[trigger] filter_list_spec(notes, search, all)[k] < notes.len(),
{
    match search {
        None => {},
        Some(s) => {
            lemma_matching_indices_bounds(notes, search_tag_seqs(s), all);
        },
    }
}

/// What one list keystroke asks of the caller.
pub enum ListOutcome {
    /// Nothing: the state change, if any, was the whole effect.
    Handled,
    /// Leave the application.
    Quit,
    /// Create a blank note and switch to editing it.
    NewNote,
    /// The list switched between the main and the local collection:
    /// reload the notes and hand them back through `set_notes`.
    ReloadNotes,
    /// Open the note at this index in the collection for editing.
    OpenNote(usize),
}

/// The mathematical value of a list keystroke's outcome.
pub ghost enum ListOutcomeModel {
    Handled,
    Quit,
    NewNote,
    ReloadNotes,
    OpenNote(int),
}

impl View for ListOutcome {
    type V = ListOutcomeModel;

    open spec fn view(&self) -> ListOutcomeModel {
        match self {
            ListOutcome::Handled => ListOutcomeModel::Handled,
            ListOutcome::Quit => ListOutcomeModel::Quit,
            ListOutcome::NewNote => ListOutcomeModel::NewNote,
            ListOutcome::ReloadNotes => ListOutcomeModel::ReloadNotes,
            ListOutcome::OpenNote(i) => ListOutcomeModel::OpenNote(*i as int),
        }
    }
}

/// The mathematical value of the list: the notes, the index into what is
/// shown, the search state, and the flags.
pub ghost struct ListModel {
    pub notes: Seq<Note>,
    pub index: int,
    pub is_active: bool,
    pub is_search: bool,
    pub search: Option<Seq<char>>,
    pub tag_all: bool,
    pub local_list: bool,
    pub col: int,
}

/// The indices the list currently shows.
pub open spec fn shown_indices(m: ListModel) -> Seq<int> {
    if m.is_search {
        filter_list_spec(m.notes, m.search, m.tag_all)
    } else {
        all_indices(m.notes.len() as int)
    }
}

/// The length of the search text, zero when there is none.
pub open spec fn search_len(m: ListModel) -> int {
    match m.search {
        None => 0,
        Some(s) => s.len() as int,
    }
}

/// The list's invariant: the index addresses what is shown, and the
/// search cursor stays within the search text.
pub open spec fn list_inv(m: ListModel) -> bool {
    &&& 0 <= m.index
    &&& m.notes.len() > 0 ==> m.index < shown_indices(m).len()
    &&& m.notes.len() == 0 ==> m.index == 0
    &&& 0 <= m.col <= search_len(m)
}

/// The list state after one keystroke.
pub open spec fn list_step(m: ListModel, key: Key) -> ListModel {
    if !m.is_search {
        match key {
            Key::Char(c) => if c == 'n' {
                ListModel { is_active: false, ..m }
            } else if c == 's' {
                ListModel { is_search: true, col: 0, index: 0, ..m }
            } else {
                m
            },
            Key::Tab => ListModel { local_list: !m.local_list, index: 0, ..m },
            Key::Up => if m.notes.len() == 0 {
                m
            } else if m.index == 0 {
                ListModel { index: m.notes.len() - 1, ..m }
            } else {
                ListModel { index: m.index - 1, ..m }
            },
            Key::Down => if m.notes.len() == 0 {
                m
            } else if m.index == m.notes.len() - 1 {
                ListModel { index: 0, ..m }
            } else {
                ListModel { index: m.index + 1, ..m }
            },
            Key::Enter => if m.notes.len() == 0 {
                m
            } else {
                ListModel { is_active: false, ..m }
            },
            _ => m,
        }
    } else {
        match key {
            Key::Backspace => if m.col == 0 {
                m
            } else {
                ListModel {
                    search: Some(m.search.unwrap().remove(m.col - 1)),
                    col: m.col - 1,
                    index: 0,
                    ..m
                }
            },
            Key::Char(c) => match m.search {
                None => ListModel { search: Some(seq![c]), col: m.col + 1, index: 0, ..m },
                Some(s) => ListModel { search: Some(s.insert(m.col, c)), col: m.col + 1, index: 0, ..m },
            },
            Key::Left => ListModel { col: if m.col > 0 { m.col - 1 } else { 0 }, ..m },
            Key::Right => ListModel {
                col: if m.col < search_len(m) { m.col + 1 } else { m.col },
                ..m
            },
            Key::Esc => ListModel { is_search: false, ..m },
            Key::Tab => ListModel { tag_all: !m.tag_all, index: 0, ..m },
            Key::Up => if m.notes.len() == 0 {
                m
            } else if m.index == 0 {
                ListModel { index: shown_indices(m).len() - 1, ..m }
            } else {
                ListModel { index: m.index - 1, ..m }
            },
            Key::Down => if m.notes.len() == 0 {
                m
            } else if m.index + 1 == shown_indices(m).len() {
                ListModel { index: 0, ..m }
            } else {
                ListModel { index: m.index + 1, ..m }
            },
            Key::Enter => if m.notes.len() == 0 {
                m
            } else {
                ListModel { is_active: false, ..m }
            },
            _ => m,
        }
    }
}

/// What one keystroke asks of the caller: quit, a new or an opened note,
/// a reload after switching collections — or nothing beyond the state
/// change.
pub open spec fn list_step_outcome(m: ListModel, key: Key) -> ListOutcomeModel {
    if !m.is_search {
        match key {
            Key::Char(c) => if c == 'q' {
                ListOutcomeModel::Quit
            } else if c == 'n' {
                ListOutcomeModel::NewNote
            } else {
                ListOutcomeModel::Handled
            },
            Key::Tab => ListOutcomeModel::ReloadNotes,
            Key::Enter => if m.notes.len() == 0 {
                ListOutcomeModel::Handled
            } else {
                ListOutcomeModel::OpenNote(m.index)
            },
            _ => ListOutcomeModel::Handled,
        }
    } else {
        match key {
            Key::Enter => if m.notes.len() == 0 {
                ListOutcomeModel::Handled
            } else {
                ListOutcomeModel::OpenNote(shown_indices(m)[m.index])
            },
            _ => ListOutcomeModel::Handled,
        }
    }
}

/// The note list and its browsing state.
pub struct MyList {
    pub notes: Vec<Note>,
    pub index: usize,
    pub is_active: bool,
    pub is_search: bool,
    pub search: Option<String>,
    pub tag_all: bool,
    pub local_list: bool,
    pub col: usize,
}

impl View for MyList {
    type V = ListModel;

    open spec fn view(&self) -> ListModel {
        ListModel {
            notes: self.notes@,
            index: self.index as int,
            is_active: self.is_active,
            is_search: self.is_search,
            search: opt_str_view(self.search),
            tag_all: self.tag_all,
            local_list: self.local_list,
            col: self.col as int,
        }
    }
}

impl MyList {
    /// The list's invariant, kept by every operation.
    pub open spec fn wf(&self) -> bool {
        list_inv(self@)
    }

    /// A fresh list over the given notes: active, unsearched, index at
    /// the top.
    pub fn with_notes(notes: Vec<Note>, local_list: bool) -> (list: MyList)
        ensures
            list@.notes == notes@,
            list@.index == 0,
            list@.is_active,
            !list@.is_search,
            list@.search is None,
            !list@.tag_all,
            list@.local_list == local_list,
            list@.col == 0,
            list.wf(),
    {
        let list = MyList {
            notes,
            index: 0,
            is_active: true,
            is_search: false,
            search: None,
            tag_all: false,
            local_list,
            col: 0,
        };
        proof {
            lemma_filter_list_spec_bounds(list@.notes, list@.search, list@.tag_all);
        }
        list
    }

    /// Replaces the notes after a reload, moving the index back to the
    /// top; nothing else changes.
    pub fn set_notes(&mut self, notes: Vec<Note>)
        requires
            old(self).wf(),
        ensures
            final(self)@ == (ListModel { notes: notes@, index: 0, ..old(self)@ }),
            final(self).wf(),
    {
        self.notes = notes;
        self.index = 0;
        proof {
            lemma_filter_list_spec_bounds(self@.notes, self@.search, self@.tag_all);
        }
    }

    /// The positions of the notes the search shows: every note without a
    /// search text or a searched tag, the matching notes otherwise — and
    /// every note again when nothing matches.
    pub fn filter_list(&self, search: &Option<String>) -> (r: Vec<usize>)
        ensures
            Seq::new(r@.len() as nat, |k: int| r@[k] as int)
                == filter_list_spec(self.notes@, opt_str_view(*search), self.tag_all),
            forall|k: int| 0 <= k < r@.len() ==> #[trigger] r@[k] < self.notes@.len(),
    {
        proof {
            lemma_filter_list_spec_bounds(self.notes@, opt_str_view(*search), self.tag_all);
        }
        let search_str = match search {
            None => {
                return self.all_indices_exec();
            },
            Some(s) => s,
        };
        let stags = build_search_tags(search_str.as_str());
        if stags.len() == 0 {
            return self.all_indices_exec();
        }
        let ghost st = search_tag_seqs(search_str@);
        let mut m: Vec<usize> = Vec::new();
        proof {
            assert(Seq::new(m@.len() as nat, |k: int| m@[k] as int)
                =~= matching_indices(self.notes@.take(0), st, self.tag_all));
        }
        let mut i: usize = 0;
        while i < self.notes.len()
            invariant
                i <= self.notes@.len(),
                st == search_tag_seqs(search_str@),
                Seq::new(stags@.len() as nat, |k: int| stags@[k]@) == st,
                st.len() > 0,
                Seq::new(m@.len() as nat, |k: int| m@[k] as int)
                    == matching_indices(self.notes@.take(i as int), st, self.tag_all),
                forall|k: int| 0 <= k < m@.len() ==> #[trigger] m@[k] < self.notes@.len(),
            decreases self.notes@.len() - i,
        {
            proof {
                assert(self.notes@.take(i + 1).drop_last() =~= self.notes@.take(i as int));
                assert(self.notes@.take(i + 1).last() == self.notes@[i as int]);
            }
            let ghost m0 = Seq::new(m@.len() as nat, |k: int| m@[k] as int);
            if note_matches_exec(&self.notes[i], &stags, self.tag_all) {
                m.push(i);
                proof {
                    assert(Seq::new(m@.len() as nat, |k: int| m@[k] as int) =~= m0.push(i as int));
                    assert(matching_indices(self.notes@.take(i + 1), st, self.tag_all)
                        == m0.push(i as int));
                }
            } else {
                proof {
                    assert(matching_indices(self.notes@.take(i + 1), st, self.tag_all) == m0);
                }
            }
            i = i + 1;
        }
        proof {
            assert(self.notes@.take(self.notes@.len() as int) =~= self.notes@);
        }
        if m.len() == 0 {
            self.all_indices_exec()
        } else {
            m
        }
    }

    /// Every index of the collection, in order.
    fn all_indices_exec(&self) -> (r: Vec<usize>)
        ensures
            Seq::new(r@.len() as nat, |k: int| r@[k] as int) == all_indices(self.notes@.len() as int),
            forall|k: int| 0 <= k < r@.len() ==> #[trigger] r@[k] < self.notes@.len(),
    {
        let mut r: Vec<usize> = Vec::new();
        proof {
            assert(Seq::new(r@.len() as nat, |k: int| r@[k] as int) =~= all_indices(0));
        }
        let mut i: usize = 0;
        while i < self.notes.len()
            invariant
                i <= self.notes@.len(),
                Seq::new(r@.len() as nat, |k: int| r@[k] as int) == all_indices(i as int),
            decreases self.notes@.len() - i,
        {
            let ghost r0 = Seq::new(r@.len() as nat, |k: int| r@[k] as int);
            r.push(i);
            proof {
                assert(Seq::new(r@.len() as nat, |k: int| r@[k] as int) =~= r0.push(i as int));
                assert(all_indices(i + 1) =~= all_indices(i as int).push(i as int));
            }
            i = i + 1;
        }
        proof {
            assert forall|k: int| 0 <= k < r@.len() implies #[trigger] r@[k] < self.notes@.len() by {
                assert(Seq::new(r@.len() as nat, |j: int| r@[j] as int)[k] == k);
            }
        }
        r
    }

    /// Handles one keystroke over the list: the state changes exactly as
    /// `list_step` says, and whatever must happen outside comes back as
    /// the outcome.
    pub fn handle_key(&mut self, key: Key) -> (outcome: ListOutcome)
        requires
            old(self).wf(),
        ensures
            final(self)@ == list_step(old(self)@, key),
            outcome@ == list_step_outcome(old(self)@, key),
            final(self).wf(),
    {
        proof {
            lemma_filter_list_spec_bounds(old(self)@.notes, old(self)@.search, old(self)@.tag_all);
        }
        if !self.is_search {
            match key {
                Key::Char(c) => {
                    if c == 'q' {
                        ListOutcome::Quit
                    } else if c == 'n' {
                        self.is_active = false;
                        ListOutcome::NewNote
                    } else if c == 's' {
                        self.is_search = true;
                        self.col = 0;
                        self.index = 0;
                        proof {
                            lemma_filter_list_spec_bounds(
                                self@.notes,
                                self@.search,
                                self@.tag_all,
                            );
                        }
                        ListOutcome::Handled
                    } else {
                        ListOutcome::Handled
                    }
                },
                Key::Tab => {
                    self.local_list = !self.local_list;
                    self.index = 0;
                    ListOutcome::ReloadNotes
                },
                Key::Up => {
                    let n = self.notes.len();
                    if n > 0 {
                        if self.index == 0 {
                            self.index = n - 1;
                        } else {
                            self.index = self.index - 1;
                        }
                    }
                    ListOutcome::Handled
                },
                Key::Down => {
                    let n = self.notes.len();
                    if n > 0 {
                        if self.index == n - 1 {
                            self.index = 0;
                        } else {
                            self.index = self.index + 1;
                        }
                    }
                    ListOutcome::Handled
                },
                Key::Enter => {
                    if self.notes.len() == 0 {
                        ListOutcome::Handled
                    } else {
                        self.is_active = false;
                        ListOutcome::OpenNote(self.index)
                    }
                },
                _ => ListOutcome::Handled,
            }
        } else {
            match key {
                Key::Backspace => {
                    if self.col > 0 {
                        match &mut self.search {
                            None => {
                                proof {
                                    assert(false);
                                }
                            },
                            Some(s) => {
                                let mut cv = str_to_chars(s.as_str());
                                cv.remove(self.col - 1);
                                *s = chars_to_string(&cv);
                            },
                        }
                        self.col = self.col - 1;
                        self.index = 0;
                        proof {
                            lemma_filter_list_spec_bounds(
                                self@.notes,
                                self@.search,
                                self@.tag_all,
                            );
                        }
                    }
                    ListOutcome::Handled
                },
                Key::Char(c) => {
                    match &mut self.search {
                        None => {
                            let mut cv: Vec<char> = Vec::new();
                            cv.push(c);
                            self.search = Some(chars_to_string(&cv));
                        },
                        Some(s) => {
                            let mut cv = str_to_chars(s.as_str());
                            cv.insert(self.col, c);
                            *s = chars_to_string(&cv);
                        },
                    }
                    let len_after = match &self.search {
                        None => 0,
                        Some(s) => s.as_str().unicode_len(),
                    };
                    assert(self.col < len_after);
                    self.col = self.col + 1;
                    self.index = 0;
                    proof {
                        lemma_filter_list_spec_bounds(self@.notes, self@.search, self@.tag_all);
                    }
                    ListOutcome::Handled
                },
                Key::Left => {
                    if self.col > 0 {
                        self.col = self.col - 1;
                    }
                    ListOutcome::Handled
                },
                Key::Right => {
                    let len = match &self.search {
                        None => 0,
                        Some(s) => s.as_str().unicode_len(),
                    };
                    if self.col < len {
                        self.col = self.col + 1;
                    }
                    ListOutcome::Handled
                },
                Key::Esc => {
                    self.is_search = false;
                    ListOutcome::Handled
                },
                Key::Tab => {
                    self.tag_all = !self.tag_all;
                    self.index = 0;
                    proof {
                        lemma_filter_list_spec_bounds(self@.notes, self@.search, self@.tag_all);
                    }
                    ListOutcome::Handled
                },
                Key::Up => {
                    if self.notes.len() > 0 {
                        if self.index == 0 {
                            let shown = self.filter_list(&self.search);
                            self.index = shown.len() - 1;
                        } else {
                            self.index = self.index - 1;
                        }
                    }
                    ListOutcome::Handled
                },
                Key::Down => {
                    if self.notes.len() > 0 {
                        let shown = self.filter_list(&self.search);
                        if self.index + 1 == shown.len() {
                            self.index = 0;
                        } else {
                            self.index = self.index + 1;
                        }
                    }
                    ListOutcome::Handled
                },
                Key::Enter => {
                    if self.notes.len() == 0 {
                        ListOutcome::Handled
                    } else {
                        let shown = self.filter_list(&self.search);
                        self.is_active = false;
                        ListOutcome::OpenNote(shown[self.index])
                    }
                },
                _ => ListOutcome::Handled,
            }
        }
    }
}

/// Each whitespace-separated token of the search text, with a hash
/// prepended, as a string.
fn build_search_tags(search: &str) -> (r: Vec<String>)
    ensures
        Seq::new(r@.len() as nat, |k: int| r@[k]@) == search_tag_seqs(search@),
{
    let chars = str_to_chars(search);
    let toks = tokenize(&chars);
    let ghost tok_seqs = Seq::new(toks@.len() as nat, |k: int| toks@[k]@);
    let mut r: Vec<String> = Vec::new();
    proof {
        assert(Seq::new(r@.len() as nat, |k: int| r@[k]@)
            =~= tok_seqs.take(0).map_values(|t: Seq<char>| seq!['#'] + t));
    }
    let mut i: usize = 0;
    while i < toks.len()
        invariant
            i <= toks@.len(),
            tok_seqs == Seq::new(toks@.len() as nat, |k: int| toks@[k]@),
            tok_seqs == tokens_of(search@),
            Seq::new(r@.len() as nat, |k: int| r@[k]@)
                == tok_seqs.take(i as int).map_values(|t: Seq<char>| seq!['#'] + t),
        decreases toks@.len() - i,
    {
        let tok = &toks[i];
        let mut cv: Vec<char> = Vec::new();
        cv.push('#');
        let mut j: usize = 0;
        while j < tok.len()
            invariant
                j <= tok@.len(),
                cv@ == seq!['#'] + tok@.take(j as int),
            decreases tok@.len() - j,
        {
            cv.push(tok[j]);
            proof {
                assert(cv@ =~= seq!['#'] + tok@.take(j + 1));
            }
            j = j + 1;
        }
        proof {
            assert(tok@.take(tok@.len() as int) =~= tok@);
        }
        let ghost r0 = Seq::new(r@.len() as nat, |k: int| r@[k]@);
        r.push(chars_to_string(&cv));
        proof {
            assert(Seq::new(r@.len() as nat, |k: int| r@[k]@) =~= r0.push(seq!['#'] + tok@));
            assert(tok_seqs.take(i + 1).map_values(|t: Seq<char>| seq!['#'] + t)
                =~= tok_seqs.take(i as int).map_values(|t: Seq<char>| seq!['#'] + t).push(
                seq!['#'] + tok_seqs[i as int]));
            assert(tok_seqs[i as int] == tok@);
        }
        i = i + 1;
    }
    proof {
        assert(tok_seqs.take(tok_seqs.len() as int) =~= tok_seqs);
        assert(Seq::new(r@.len() as nat, |k: int| r@[k]@) =~= search_tag_seqs(search@));
    }
    r
}

/// Whether the tag list holds the given tag text.
fn tags_contain(tags: &Vec<Tag>, t: &String) -> (r: bool)
    ensures
        r == Seq::new(tags@.len() as nat, |k: int| tags@[k].0@).contains(t@),
{
    let ghost views = Seq::new(tags@.len() as nat, |k: int| tags@[k].0@);
    let mut i: usize = 0;
    while i < tags.len()
        invariant
            i <= tags@.len(),
            views == Seq::new(tags@.len() as nat, |k: int| tags@[k].0@),
            forall|k: int| 0 <= k < i ==> #[trigger] views[k] != t@,
        decreases tags@.len() - i,
    {
        if tags[i].0 == *t {
            proof {
                assert(views[i as int] == t@);
            }
            return true;
        }
        i = i + 1;
    }
    proof {
        assert(!views.contains(t@));
    }
    false
}

/// Whether the search list holds the given tag text.
fn search_contains(search: &Vec<String>, t: &String) -> (r: bool)
    ensures
        r == Seq::new(search@.len() as nat, |k: int| search@[k]@).contains(t@),
{
    let ghost views = Seq::new(search@.len() as nat, |k: int| search@[k]@);
    let mut i: usize = 0;
    while i < search.len()
        invariant
            i <= search@.len(),
            views == Seq::new(search@.len() as nat, |k: int| search@[k]@),
            forall|k: int| 0 <= k < i ==> #[trigger] views[k] != t@,
        decreases search@.len() - i,
    {
        if search[i] == *t {
            proof {
                assert(views[i as int] == t@);
            }
            return true;
        }
        i = i + 1;
    }
    proof {
        assert(!views.contains(t@));
    }
    false
}

/// Whether a note matches the searched tags, under the all-or-any flag.
fn note_matches_exec(note: &Note, search: &Vec<String>, all: bool) -> (r: bool)
    ensures
        r == note_matches(*note, Seq::new(search@.len() as nat, |k: int| search@[k]@), all),
{
    let ghost sviews = Seq::new(search@.len() as nat, |k: int| search@[k]@);
    let tags = match &note.tags {
        None => {
            return false;
        },
        Some(tags) => tags,
    };
    let ghost tviews = Seq::new(tags@.len() as nat, |k: int| tags@[k].0@);
    proof {
        assert(note.tag_views() =~~= tviews);
    }
    if all {
        let mut i: usize = 0;
        while i < search.len()
            invariant
                i <= search@.len(),
                sviews == Seq::new(search@.len() as nat, |k: int| search@[k]@),
                tviews == Seq::new(tags@.len() as nat, |k: int| tags@[k].0@),
                all,
                note.tags is Some,
                note.tag_views() == tviews,
                forall|k: int| 0 <= k < i ==> tviews.contains(#[trigger] sviews[k]),
            decreases search@.len() - i,
        {
            if !tags_contain(tags, &search[i]) {
                proof {
                    assert(!tviews.contains(sviews[i as int]));
                    assert(!note_matches_all(tviews, sviews));
                    assert(!note_matches(*note, sviews, all));
                }
                return false;
            }
            i = i + 1;
        }
        proof {
            assert(note_matches_all(tviews, sviews));
            assert(note_matches(*note, sviews, all));
        }
        true
    } else {
        let mut i: usize = 0;
        while i < tags.len()
            invariant
                i <= tags@.len(),
                sviews == Seq::new(search@.len() as nat, |k: int| search@[k]@),
                tviews == Seq::new(tags@.len() as nat, |k: int| tags@[k].0@),
                !all,
                note.tags is Some,
                note.tag_views() == tviews,
                forall|k: int| 0 <= k < i ==> !sviews.contains(#[trigger] tviews[k]),
            decreases tags@.len() - i,
        {
            if search_contains(search, &tags[i].0) {
                proof {
                    assert(sviews.contains(tviews[i as int]));
                    assert(note_matches_any(tviews, sviews));
                    assert(note_matches(*note, sviews, all));
                }
                return true;
            }
            i = i + 1;
        }
        proof {
            assert(!note_matches_any(tviews, sviews));
            assert(!note_matches(*note, sviews, all));
        }
        false
    }
}

} // verus!
