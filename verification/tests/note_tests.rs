use noter::{parse_note, tokenize, InputMode, Note, Tag};

#[test]
fn tokenize_splits_on_whitespace() {
    let chars: Vec<char> = "a  bb\tc\nd".chars().collect();
    let toks = tokenize(&chars);
    let words: Vec<String> = toks.iter().map(|t| t.iter().collect()).collect();
    assert_eq!(words, vec!["a", "bb", "c", "d"]);
}

#[test]
fn tokenize_empty_text_has_no_tokens() {
    let chars: Vec<char> = Vec::new();
    assert_eq!(tokenize(&chars).len(), 0);
}

#[test]
fn tokenize_only_spaces_has_no_tokens() {
    let chars: Vec<char> = "   ".chars().collect();
    assert_eq!(tokenize(&chars).len(), 0);
}

#[test]
fn parse_note_extracts_tags() {
    let note = parse_note("t".to_string(), "#rust code #verus here".to_string());
    let tags = note.tags.expect("tags expected");
    assert_eq!(tags, vec![Tag("#rust".to_string()), Tag("#verus".to_string())]);
}

#[test]
fn parse_note_without_tags_has_none() {
    let note = parse_note("t".to_string(), "plain text".to_string());
    assert!(note.tags.is_none());
}

#[test]
fn parse_note_extracts_link_target() {
    let note = parse_note("t".to_string(), "see [label](target)".to_string());
    let links = note.links.expect("links expected");
    assert_eq!(links.len(), 1);
    assert_eq!(links[0].0, "target");
}

#[test]
fn parse_note_link_extraction_is_greedy() {
    let note = parse_note("t".to_string(), "[a](x) [b](y)".to_string());
    let links = note.links.expect("links expected");
    assert_eq!(links.len(), 1);
    assert_eq!(links[0].0, "x) [b](y");
}

#[test]
fn parse_note_without_links_has_none() {
    let note = parse_note("t".to_string(), "no links here".to_string());
    assert!(note.links.is_none());
}

#[test]
fn parse_note_keeps_title_and_text() {
    let note = parse_note("my note".to_string(), "#a body".to_string());
    assert_eq!(note.title, "my note");
    assert_eq!(note.text, "#a body");
    assert!(matches!(note.mode, InputMode::Normal));
    assert!(!note.edited);
    assert!(!note.is_active);
    assert!(note.old_title.is_none());
}

#[test]
fn tags_to_string_strips_hashes() {
    let note = parse_note("t".to_string(), "#rust #verus".to_string());
    assert_eq!(note.tags_to_string(), Some("rust verus".to_string()));
}

#[test]
fn tags_to_string_without_tags_is_none() {
    let note = parse_note("t".to_string(), "plain".to_string());
    assert_eq!(note.tags_to_string(), None);
}

#[test]
fn new_note_has_placeholders() {
    let note = Note::new();
    assert_eq!(note.title, "Enter Title");
    assert_eq!(note.text, "Text Here");
    assert!(note.is_active);
}

#[test]
fn create_note_is_blank() {
    let note = Note::create_note();
    assert_eq!(note.title, "");
    assert_eq!(note.text, "");
    assert!(!note.is_active);
    assert!(note.tags.is_none());
    assert!(note.links.is_none());
}
