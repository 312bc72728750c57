use noter::{parse_note, rc_rc, Key, ListOutcome, MyList, Note};

fn sample_notes() -> Vec<Note> {
    vec![
        parse_note("a".to_string(), "#rust #verus code".to_string()),
        parse_note("b".to_string(), "#rust notes".to_string()),
        parse_note("c".to_string(), "plain".to_string()),
    ]
}

#[test]
fn filter_without_search_shows_all() {
    let list = MyList::with_notes(sample_notes(), false);
    assert_eq!(list.filter_list(&None), vec![0, 1, 2]);
}

#[test]
fn filter_with_empty_search_shows_all() {
    let list = MyList::with_notes(sample_notes(), false);
    assert_eq!(list.filter_list(&Some("   ".to_string())), vec![0, 1, 2]);
}

#[test]
fn filter_any_keeps_notes_with_some_tag() {
    let list = MyList::with_notes(sample_notes(), false);
    assert_eq!(list.filter_list(&Some("rust".to_string())), vec![0, 1]);
    assert_eq!(list.filter_list(&Some("verus".to_string())), vec![0]);
    assert_eq!(list.filter_list(&Some("verus rust".to_string())), vec![0, 1]);
}

#[test]
fn filter_all_requires_every_tag() {
    let mut list = MyList::with_notes(sample_notes(), false);
    list.tag_all = true;
    assert_eq!(list.filter_list(&Some("rust verus".to_string())), vec![0]);
    assert_eq!(list.filter_list(&Some("rust".to_string())), vec![0, 1]);
}

#[test]
fn filter_with_no_match_shows_all() {
    let list = MyList::with_notes(sample_notes(), false);
    assert_eq!(list.filter_list(&Some("nothing".to_string())), vec![0, 1, 2]);
}

#[test]
fn navigation_wraps_around() {
    let mut list = MyList::with_notes(sample_notes(), false);
    assert_eq!(list.index, 0);
    list.handle_key(Key::Up);
    assert_eq!(list.index, 2);
    list.handle_key(Key::Down);
    assert_eq!(list.index, 0);
    list.handle_key(Key::Down);
    assert_eq!(list.index, 1);
}

#[test]
fn navigation_on_empty_list_is_noop() {
    let mut list = MyList::with_notes(Vec::new(), false);
    list.handle_key(Key::Up);
    assert_eq!(list.index, 0);
    list.handle_key(Key::Down);
    assert_eq!(list.index, 0);
    let out = list.handle_key(Key::Enter);
    assert!(matches!(out, ListOutcome::Handled));
}

#[test]
fn enter_opens_selected_note() {
    let mut list = MyList::with_notes(sample_notes(), false);
    list.handle_key(Key::Down);
    let out = list.handle_key(Key::Enter);
    assert!(matches!(out, ListOutcome::OpenNote(1)));
    assert!(!list.is_active);
}

#[test]
fn q_quits_and_n_creates() {
    let mut list = MyList::with_notes(sample_notes(), false);
    assert!(matches!(list.handle_key(Key::Char('q')), ListOutcome::Quit));
    assert!(matches!(list.handle_key(Key::Char('n')), ListOutcome::NewNote));
    assert!(!list.is_active);
}

#[test]
fn tab_toggles_collection_and_reloads() {
    let mut list = MyList::with_notes(sample_notes(), false);
    let out = list.handle_key(Key::Tab);
    assert!(matches!(out, ListOutcome::ReloadNotes));
    assert!(list.local_list);
    assert_eq!(list.index, 0);
    let replacement = vec![parse_note("only".to_string(), "#x".to_string())];
    list.set_notes(replacement);
    assert_eq!(list.notes.len(), 1);
    assert_eq!(list.index, 0);
}

#[test]
fn search_mode_edits_and_filters() {
    let mut list = MyList::with_notes(sample_notes(), false);
    list.handle_key(Key::Char('s'));
    assert!(list.is_search);
    assert_eq!(list.col, 0);
    list.handle_key(Key::Char('r'));
    list.handle_key(Key::Char('u'));
    list.handle_key(Key::Char('s'));
    list.handle_key(Key::Char('t'));
    assert_eq!(list.search.as_deref(), Some("rust"));
    assert_eq!(list.col, 4);
    let out = list.handle_key(Key::Enter);
    assert!(matches!(out, ListOutcome::OpenNote(0)));
}

#[test]
fn search_backspace_deletes_before_cursor() {
    let mut list = MyList::with_notes(sample_notes(), false);
    list.handle_key(Key::Char('s'));
    for c in "abc".chars() {
        list.handle_key(Key::Char(c));
    }
    list.handle_key(Key::Left);
    list.handle_key(Key::Backspace);
    assert_eq!(list.search.as_deref(), Some("ac"));
    assert_eq!(list.col, 1);
    assert_eq!(list.index, 0);
}

#[test]
fn search_backspace_at_start_is_noop() {
    let mut list = MyList::with_notes(sample_notes(), false);
    list.handle_key(Key::Char('s'));
    list.handle_key(Key::Char('x'));
    list.handle_key(Key::Left);
    list.handle_key(Key::Backspace);
    assert_eq!(list.search.as_deref(), Some("x"));
}

#[test]
fn search_cursor_clamps_to_text() {
    let mut list = MyList::with_notes(sample_notes(), false);
    list.handle_key(Key::Char('s'));
    list.handle_key(Key::Right);
    assert_eq!(list.col, 0);
    list.handle_key(Key::Char('a'));
    list.handle_key(Key::Right);
    assert_eq!(list.col, 1);
}

#[test]
fn search_navigation_wraps_over_filtered() {
    let mut list = MyList::with_notes(sample_notes(), false);
    list.handle_key(Key::Char('s'));
    for c in "rust".chars() {
        list.handle_key(Key::Char(c));
    }
    list.handle_key(Key::Up);
    assert_eq!(list.index, 1);
    list.handle_key(Key::Down);
    assert_eq!(list.index, 0);
    list.handle_key(Key::Down);
    assert_eq!(list.index, 1);
    let out = list.handle_key(Key::Enter);
    assert!(matches!(out, ListOutcome::OpenNote(1)));
}

#[test]
fn search_tab_toggles_match_mode() {
    let mut list = MyList::with_notes(sample_notes(), false);
    list.handle_key(Key::Char('s'));
    assert!(!list.tag_all);
    list.handle_key(Key::Tab);
    assert!(list.tag_all);
    assert_eq!(list.index, 0);
}

#[test]
fn esc_leaves_search_mode() {
    let mut list = MyList::with_notes(sample_notes(), false);
    list.handle_key(Key::Char('s'));
    list.handle_key(Key::Esc);
    assert!(!list.is_search);
}

#[test]
fn rc_rc_wraps_a_value() {
    let cell = rc_rc(41);
    *cell.borrow_mut() += 1;
    assert_eq!(*cell.borrow(), 42);
}
