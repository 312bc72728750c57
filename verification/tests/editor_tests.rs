use noter::{InputMode, Key, KeyOutcome, NoteEditor, PersistAction};

fn press(ed: &mut NoteEditor, keys: &[Key]) {
    for k in keys {
        ed.handle_key(*k);
    }
}

#[test]
fn insert_then_split_scenario() {
    let mut ed = NoteEditor::open("t", "hello");
    press(&mut ed, &[Key::Char('i'), Key::End]);
    assert_eq!(ed.cursor.col, 5);
    ed.handle_key(Key::Enter);
    assert_eq!(ed.buffer.line_count(), 2);
    assert_eq!(ed.buffer.line_text(0), "hello");
    assert_eq!(ed.buffer.line_text(1), "");
    assert_eq!(ed.cursor.row, 1);
    assert_eq!(ed.cursor.col, 0);
    assert!(ed.edited);
}

#[test]
fn backspace_join_scenario() {
    let mut ed = NoteEditor::open("t", "foo\nbar");
    press(&mut ed, &[Key::Char('i'), Key::Down]);
    assert_eq!(ed.cursor.row, 1);
    assert_eq!(ed.cursor.col, 0);
    ed.handle_key(Key::Backspace);
    assert_eq!(ed.buffer.line_count(), 1);
    assert_eq!(ed.buffer.to_text(), "foobar");
    assert_eq!(ed.cursor.row, 0);
    assert_eq!(ed.cursor.col, 3);
}

#[test]
fn backspace_at_origin_is_noop() {
    let mut ed = NoteEditor::open("t", "abc");
    ed.handle_key(Key::Char('i'));
    ed.handle_key(Key::Backspace);
    assert_eq!(ed.buffer.to_text(), "abc");
    assert_eq!(ed.cursor.row, 0);
    assert_eq!(ed.cursor.col, 0);
    assert!(!ed.edited);
}

#[test]
fn backspace_deletes_in_line() {
    let mut ed = NoteEditor::open("t", "abc");
    press(&mut ed, &[Key::Char('i'), Key::Right, Key::Right]);
    ed.handle_key(Key::Backspace);
    assert_eq!(ed.buffer.to_text(), "ac");
    assert_eq!(ed.cursor.col, 1);
}

#[test]
fn typing_inserts_and_advances() {
    let mut ed = NoteEditor::open("t", "");
    press(&mut ed, &[Key::Char('i'), Key::Char('h'), Key::Char('i')]);
    assert_eq!(ed.buffer.to_text(), "hi");
    assert_eq!(ed.cursor.col, 2);
    assert!(ed.edited);
}

#[test]
fn esc_leaves_insert_mode() {
    let mut ed = NoteEditor::open("t", "");
    ed.handle_key(Key::Char('i'));
    assert_eq!(ed.mode, InputMode::Insert);
    ed.handle_key(Key::Esc);
    assert_eq!(ed.mode, InputMode::Normal);
}

#[test]
fn esc_in_normal_exits_to_list() {
    let mut ed = NoteEditor::open("t", "");
    let out = ed.handle_key(Key::Esc);
    assert!(matches!(out, KeyOutcome::ExitToList));
}

#[test]
fn q_in_normal_quits() {
    let mut ed = NoteEditor::open("t", "");
    let out = ed.handle_key(Key::Char('q'));
    assert!(matches!(out, KeyOutcome::Quit));
}

#[test]
fn capital_t_searches_tags() {
    let mut ed = NoteEditor::open("t", "");
    let out = ed.handle_key(Key::Char('T'));
    assert!(matches!(out, KeyOutcome::SearchTags));
}

#[test]
fn word_jump_keys_in_normal_mode() {
    let mut ed = NoteEditor::open("t", "the quick fox");
    ed.handle_key(Key::Char('w'));
    assert_eq!(ed.cursor.col, 4);
    ed.handle_key(Key::Char('b'));
    assert_eq!(ed.cursor.col, 0);
}

#[test]
fn save_when_unedited_does_nothing() {
    let mut ed = NoteEditor::open("t", "x");
    let out = ed.handle_key(Key::Char('s'));
    assert!(matches!(out, KeyOutcome::Handled));
}

#[test]
fn save_when_edited_persists_then_confirms() {
    let mut ed = NoteEditor::open("t", "x");
    press(&mut ed, &[Key::Char('i'), Key::Char('a'), Key::Esc]);
    let out = ed.handle_key(Key::Char('s'));
    match out {
        KeyOutcome::Save(actions) => {
            assert_eq!(actions.len(), 1);
            match &actions[0] {
                PersistAction::Persist { title, text } => {
                    assert_eq!(title, "t");
                    assert_eq!(text, "ax");
                }
                _ => panic!("expected a persist action"),
            }
        }
        _ => panic!("expected a save request"),
    }
    assert!(ed.edited);
    ed.confirm_saved();
    assert!(!ed.edited);
    let out = ed.handle_key(Key::Char('s'));
    assert!(matches!(out, KeyOutcome::Handled));
}

#[test]
fn entering_title_edit_snapshots_old_title() {
    let mut ed = NoteEditor::open("draft", "body");
    ed.handle_key(Key::Char('t'));
    assert_eq!(ed.mode, InputMode::EditTitle);
    assert_eq!(ed.cursor.col, 0);
    let old: String = ed.old_title.as_ref().unwrap().iter().collect();
    assert_eq!(old, "draft");
}

#[test]
fn title_editing_inserts_and_deletes() {
    let mut ed = NoteEditor::open("ab", "body");
    ed.handle_key(Key::Char('t'));
    press(&mut ed, &[Key::Right, Key::Right, Key::Char('c')]);
    assert_eq!(ed.title_string(), "abc");
    ed.handle_key(Key::Backspace);
    assert_eq!(ed.title_string(), "ab");
    assert_eq!(ed.cursor.col, 2);
}

#[test]
fn title_commit_rename_removes_then_persists() {
    let mut ed = NoteEditor::open("draft", "body");
    ed.handle_key(Key::Char('t'));
    press(
        &mut ed,
        &[Key::Right, Key::Right, Key::Right, Key::Right, Key::Right],
    );
    press(
        &mut ed,
        &[
            Key::Backspace,
            Key::Backspace,
            Key::Backspace,
            Key::Backspace,
            Key::Backspace,
        ],
    );
    press(
        &mut ed,
        &[
            Key::Char('f'),
            Key::Char('i'),
            Key::Char('n'),
            Key::Char('a'),
            Key::Char('l'),
        ],
    );
    assert_eq!(ed.title_string(), "final");
    let out = ed.handle_key(Key::Enter);
    match out {
        KeyOutcome::CommitTitle { actions, is_new } => {
            assert!(!is_new);
            assert_eq!(actions.len(), 2);
            match &actions[0] {
                PersistAction::Remove { title } => assert_eq!(title, "draft"),
                _ => panic!("first action must remove the old title"),
            }
            match &actions[1] {
                PersistAction::Persist { title, text } => {
                    assert_eq!(title, "final");
                    assert_eq!(text, "body");
                }
                _ => panic!("second action must persist the new title"),
            }
        }
        _ => panic!("expected a title commit"),
    }
    assert_eq!(ed.mode, InputMode::EditTitle);
    ed.confirm_title_commit();
    assert_eq!(ed.mode, InputMode::Normal);
    assert_eq!(ed.cursor.col, 0);
    assert!(!ed.edited);
}

#[test]
fn title_commit_of_new_note_only_persists() {
    let mut ed = NoteEditor::open("", "text");
    ed.handle_key(Key::Char('t'));
    press(&mut ed, &[Key::Char('n'), Key::Char('n')]);
    let out = ed.handle_key(Key::Enter);
    match out {
        KeyOutcome::CommitTitle { actions, is_new } => {
            assert!(is_new);
            assert_eq!(actions.len(), 1);
            match &actions[0] {
                PersistAction::Persist { title, text } => {
                    assert_eq!(title, "nn");
                    assert_eq!(text, "text");
                }
                _ => panic!("expected a persist action"),
            }
        }
        _ => panic!("expected a title commit"),
    }
}

#[test]
fn enter_then_backspace_restores_line() {
    let mut ed = NoteEditor::open("t", "alpha beta");
    press(&mut ed, &[Key::Char('i'), Key::Right, Key::Right, Key::Right]);
    ed.handle_key(Key::Enter);
    ed.handle_key(Key::Backspace);
    assert_eq!(ed.buffer.to_text(), "alpha beta");
    assert_eq!(ed.cursor.row, 0);
    assert_eq!(ed.cursor.col, 3);
}

#[test]
fn cursor_stays_in_bounds_through_edits() {
    let mut ed = NoteEditor::open("t", "ab\ncdef");
    let keys = [
        Key::Char('i'),
        Key::Down,
        Key::End,
        Key::Enter,
        Key::Up,
        Key::Backspace,
        Key::Char('x'),
        Key::Down,
        Key::Down,
        Key::Right,
        Key::Left,
        Key::Backspace,
        Key::Esc,
        Key::Char('w'),
        Key::Char('b'),
    ];
    for k in keys {
        ed.handle_key(k);
        assert!((ed.cursor.row as usize) < ed.buffer.line_count());
        assert!(ed.cursor.col <= ed.buffer.line_length(ed.cursor.row));
    }
}
