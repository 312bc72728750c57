//! Notes and what is derived from their text: `#tag` tokens and
//! `[label](link)` targets.
//!
//! A note's tags are the whitespace-separated tokens of its text that
//! start with `#`. Its links are the targets that a fixed regular
//! expression extracts; that extraction is the one piece taken on trust
//! from the regex crate.

use vstd::prelude::*;
use crate::editor::InputMode;
use crate::strutil::{chars_to_string, push_char, str_to_chars};

verus! {

/// A `#tag` token, stored with its leading hash.
#[derive(Debug, PartialEq, Eq, PartialOrd, Ord, Clone)]
pub struct Tag(pub String);

/// A link target extracted from the text.
#[derive(Debug, Clone)]
pub struct Link(pub String);

/// The whitespace that separates tokens.
pub open spec fn is_space_char(c: char) -> bool {
    c == ' ' || c == '\n' || c == '\t' || c == '\r'
}

/// The whitespace-separated tokens of a text: its maximal runs of
/// non-whitespace characters, in order.
pub open spec fn tokens_of(s: Seq<char>) -> Seq<Seq<char>>
    decreases s.len(),
{
    if s.len() == 0 {
        Seq::empty()
    } else {
        let rest = tokens_of(s.drop_first());
        if is_space_char(s[0]) {
            rest
        } else if s.len() == 1 || is_space_char(s[1]) {
            seq![seq![s[0]]] + rest
        } else {
            seq![seq![s[0]] + rest[0]] + rest.drop_first()
        }
    }
}

/// A token that names a tag: non-empty and starting with `#`.
pub open spec fn is_tag_token(t: Seq<char>) -> bool {
    t.len() > 0 && t[0] == '#'
}

/// The tag tokens among a sequence of tokens, in order.
pub open spec fn filter_tags(toks: Seq<Seq<char>>) -> Seq<Seq<char>>
    decreases toks.len(),
{
    if toks.len() == 0 {
        Seq::empty()
    } else {
        let rest = filter_tags(toks.drop_first());
        if is_tag_token(toks[0]) {
            seq![toks[0]] + rest
        } else {
            rest
        }
    }
}

/// The tags of a text: its tokens that start with `#`.
pub open spec fn tags_of(s: Seq<char>) -> Seq<Seq<char>> {
    filter_tags(tokens_of(s))
}

/// A text that starts with a non-space character has a first token, and
/// that token starts with the same character.
proof fn lemma_tokens_head(s: Seq<char>)
    requires
        s.len() > 0,
        !is_space_char(s[0]),
    ensures
        tokens_of(s).len() >= 1,
        tokens_of(s)[0].len() >= 1,
        tokens_of(s)[0][0] == s[0],
    decreases s.len(),
{
    if s.len() == 1 || is_space_char(s[1]) {
    } else {
        lemma_tokens_head(s.drop_first());
    }
}

/// The names a fixed link pattern extracts from a text, in order; what the
/// regex engine returns depends on the text alone.
pub uninterp spec fn link_captures(s: Seq<char>) -> Seq<Seq<char>>;

/// Relies on `regex::Regex::captures_iter` over the fixed pattern
/// `]\((.+)\)`: it yields the first capture group of each non-overlapping
/// match, in order, and depends on the text alone.
#[verifier::external_body]
fn find_links(text: &str) -> (r: Vec<String>)
    ensures
        Seq::new(r@.len() as nat, |k: int| r@[k]@) == link_captures(text@),
{
    let re = regex::Regex::new(r"]\((.+)\)").unwrap();
    re.captures_iter(text).map(|c| c[1].to_string()).collect()
}

/// Splits a text into its whitespace-separated tokens.
pub fn tokenize(chars: &Vec<char>) -> (toks: Vec<Vec<char>>)
    ensures
        Seq::new(toks@.len() as nat, |k: int| toks@[k]@) == tokens_of(chars@),
{
    let n = chars.len();
    let mut toks: Vec<Vec<char>> = Vec::new();
    proof {
        assert(Seq::new(toks@.len() as nat, |k: int| toks@[k]@) =~~= tokens_of(chars@.skip(n as int)));
    }
    let mut i: usize = n;
    while i > 0
        invariant
            i <= n,
            n == chars@.len(),
            Seq::new(toks@.len() as nat, |k: int| toks@[k]@) == tokens_of(chars@.skip(i as int)),
        decreases i,
    {
        let ghost old_toks = Seq::new(toks@.len() as nat, |k: int| toks@[k]@);
        let ghost suffix = chars@.skip(i - 1);
        let c = chars[i - 1];
        proof {
            assert(suffix.drop_first() =~= chars@.skip(i as int));
            assert(suffix[0] == chars@[i - 1]);
        }
        if is_space(c) {
            proof {
                assert(Seq::new(toks@.len() as nat, |k: int| toks@[k]@)
                    =~~= tokens_of(suffix));
            }
        } else if i == n || is_space(chars[i]) {
            let mut first: Vec<char> = Vec::new();
            first.push(c);
            toks.insert(0, first);
            proof {
                assert(suffix.len() == 1 || is_space_char(suffix[1]));
                assert(Seq::new(toks@.len() as nat, |k: int| toks@[k]@)
                    =~~= tokens_of(suffix));
            }
        } else {
            proof {
                lemma_tokens_head(chars@.skip(i as int));
            }
            let mut first = toks.remove(0);
            first.insert(0, c);
            toks.insert(0, first);
            proof {
                assert(!(suffix.len() == 1 || is_space_char(suffix[1])));
                assert(seq![c] + old_toks[0] =~= old_toks[0].insert(0, c));
                assert(Seq::new(toks@.len() as nat, |k: int| toks@[k]@)
                    =~~= tokens_of(suffix));
            }
        }
        i = i - 1;
    }
    proof {
        assert(chars@.skip(0) =~= chars@);
    }
    toks
}

/// Keeps the tag tokens, converting each to a `Tag` string.
fn collect_tags(toks: &Vec<Vec<char>>) -> (tags: Vec<Tag>)
    ensures
        Seq::new(tags@.len() as nat, |k: int| tags@[k].0@)
            == filter_tags(Seq::new(toks@.len() as nat, |k: int| toks@[k]@)),
{
    let ghost all = Seq::new(toks@.len() as nat, |k: int| toks@[k]@);
    let n = toks.len();
    let mut tags: Vec<Tag> = Vec::new();
    proof {
        assert(Seq::new(tags@.len() as nat, |k: int| tags@[k].0@)
            =~~= filter_tags(all.skip(n as int)));
    }
    let mut i: usize = n;
    while i > 0
        invariant
            i <= n,
            n == toks@.len(),
            all == Seq::new(toks@.len() as nat, |k: int| toks@[k]@),
            Seq::new(tags@.len() as nat, |k: int| tags@[k].0@) == filter_tags(all.skip(i as int)),
        decreases i,
    {
        let ghost suffix = all.skip(i - 1);
        proof {
            assert(suffix.drop_first() =~= all.skip(i as int));
            assert(suffix[0] == all[i - 1]);
        }
        let tok = &toks[i - 1];
        if tok.len() > 0 && tok[0] == '#' {
            let t = Tag(chars_to_string(tok));
            tags.insert(0, t);
            proof {
                assert(is_tag_token(suffix[0]));
                assert(Seq::new(tags@.len() as nat, |k: int| tags@[k].0@)
                    =~~= filter_tags(suffix));
            }
        } else {
            proof {
                assert(!is_tag_token(suffix[0]));
                assert(Seq::new(tags@.len() as nat, |k: int| tags@[k].0@)
                    =~~= filter_tags(suffix));
            }
        }
        i = i - 1;
    }
    proof {
        assert(all.skip(0) =~= all);
    }
    tags
}

/// Whether a character separates tokens.
fn is_space(c: char) -> (r: bool)
    ensures
        r == is_space_char(c),
{
    c == ' ' || c == '\n' || c == '\t' || c == '\r'
}

/// A note: a title, raw text, and what the text derives — tags, links —
/// together with its editing flags.
#[derive(Debug, Clone)]
pub struct Note {
    pub title: String,
    pub text: String,
    pub links: Option<Vec<Link>>,
    pub tags: Option<Vec<Tag>>,
    pub mode: InputMode,
    pub edited: bool,
    pub is_active: bool,
    pub old_title: Option<String>,
}

/// A tag with its leading hash removed; an empty tag is left as it is.
pub open spec fn strip_leading_hash(t: Seq<char>) -> Seq<char> {
    if t.len() > 0 {
        t.drop_first()
    } else {
        t
    }
}

/// Items joined with a single space between them.
pub open spec fn join_spaced(items: Seq<Seq<char>>) -> Seq<char>
    decreases items.len(),
{
    if items.len() == 0 {
        Seq::empty()
    } else if items.len() == 1 {
        items[0]
    } else {
        items[0] + seq![' '] + join_spaced(items.drop_first())
    }
}

/// Appending one more item extends the joined text by a space and that
/// item.
proof fn lemma_join_spaced_push(items: Seq<Seq<char>>, l: Seq<char>)
    requires
        items.len() >= 1,
    ensures
        join_spaced(items.push(l)) == join_spaced(items) + seq![' '] + l,
    decreases items.len(),
{
    if items.len() == 1 {
        assert(items.push(l).drop_first() =~= seq![l]);
        assert(join_spaced(items.push(l)) == items[0] + seq![' '] + join_spaced(seq![l]));
        assert(join_spaced(items.push(l)) =~= join_spaced(items) + seq![' '] + l);
    } else {
        lemma_join_spaced_push(items.drop_first(), l);
        assert(items.push(l).drop_first() =~= items.drop_first().push(l));
        assert(join_spaced(items.push(l))
            == items[0] + seq![' '] + join_spaced(items.drop_first().push(l)));
        assert(join_spaced(items.push(l)) =~= join_spaced(items) + seq![' '] + l);
    }
}

impl Note {
    /// The note's tags as character sequences; none when the note has no
    /// tag list.
    pub open spec fn tag_views(&self) -> Seq<Seq<char>> {
        match self.tags {
            None => Seq::empty(),
            Some(v) => Seq::new(v@.len() as nat, |k: int| v@[k].0@),
        }
    }

    /// A fresh note with placeholder title and text, active and in normal
    /// mode.
    pub fn new() -> (note: Note)
        ensures
            note.title@ == "Enter Title"@,
            note.text@ == "Text Here"@,
            note.links is None,
            note.tags is None,
            note.mode == InputMode::Normal,
            !note.edited,
            note.is_active,
            note.old_title is None,
    {
        Note {
            title: "Enter Title".to_owned(),
            text: "Text Here".to_owned(),
            links: None,
            tags: None,
            mode: InputMode::Normal,
            edited: false,
            is_active: true,
            old_title: None,
        }
    }

    /// A blank note: empty title and text, inactive, in normal mode.
    pub fn create_note() -> (note: Note)
        ensures
            note.title@ == Seq::<char>::empty(),
            note.text@ == Seq::<char>::empty(),
            note.links is None,
            note.tags is None,
            note.mode == InputMode::Normal,
            !note.edited,
            !note.is_active,
            note.old_title is None,
    {
        Note {
            title: String::new(),
            text: String::new(),
            links: None,
            tags: None,
            mode: InputMode::Normal,
            edited: false,
            is_active: false,
            old_title: None,
        }
    }

    /// The note's tags with their hashes stripped, joined by single
    /// spaces; `None` when the note has no tag list at all.
    pub fn tags_to_string(&self) -> (r: Option<String>)
        ensures
            match self.tags {
                None => r is None,
                Some(tags) => match r {
                    Some(s) => s@ == join_spaced(
                        Seq::new(tags@.len() as nat, |k: int| strip_leading_hash(tags@[k].0@)),
                    ),
                    None => false,
                },
            },
    {
        let tags = match &self.tags {
            None => {
                return None;
            },
            Some(tags) => tags,
        };
        let ghost stripped = Seq::new(tags@.len() as nat, |k: int| strip_leading_hash(tags@[k].0@));
        if tags.len() == 0 {
            proof {
                assert(stripped =~~= Seq::<Seq<char>>::empty());
            }
            return Some(String::new());
        }
        let mut s = strip_tag(&tags[0]);
        proof {
            assert(s@ =~= join_spaced(stripped.take(1)));
        }
        let mut i: usize = 1;
        while i < tags.len()
            invariant
                1 <= i <= tags@.len(),
                stripped == Seq::new(tags@.len() as nat, |k: int| strip_leading_hash(tags@[k].0@)),
                s@ == join_spaced(stripped.take(i as int)),
            decreases tags@.len() - i,
        {
            push_char(&mut s, ' ');
            let part = strip_tag(&tags[i]);
            s.append(part.as_str());
            proof {
                lemma_join_spaced_push(stripped.take(i as int), stripped[i as int]);
                assert(stripped.take(i + 1) =~= stripped.take(i as int).push(stripped[i as int]));
                assert(s@ =~= join_spaced(stripped.take(i + 1)));
            }
            i = i + 1;
        }
        proof {
            assert(stripped.take(stripped.len() as int) =~= stripped);
        }
        Some(s)
    }
}

/// One tag's text without its leading hash.
fn strip_tag(tag: &Tag) -> (s: String)
    ensures
        s@ == strip_leading_hash(tag.0@),
{
    let mut chars = str_to_chars(tag.0.as_str());
    if chars.len() > 0 {
        chars.remove(0);
        proof {
            assert(chars@ =~= tag.0@.drop_first());
        }
    }
    chars_to_string(&chars)
}

/// Builds a note from a title and raw text, deriving its tags and links
/// from the text; the note starts unedited, inactive and in normal mode.
pub fn parse_note(title: String, text: String) -> (note: Note)
    ensures
        note.title@ == title@,
        note.text@ == text@,
        match note.tags {
            None => tags_of(text@).len() == 0,
            Some(v) => tags_of(text@).len() > 0 && Seq::new(v@.len() as nat, |k: int| v@[k].0@)
                == tags_of(text@),
        },
        match note.links {
            None => link_captures(text@).len() == 0,
            Some(v) => link_captures(text@).len() > 0 && Seq::new(v@.len() as nat, |k: int| v@[k].0@)
                == link_captures(text@),
        },
        note.mode == InputMode::Normal,
        !note.edited,
        !note.is_active,
        note.old_title is None,
{
    let chars = str_to_chars(text.as_str());
    let toks = tokenize(&chars);
    let tags = collect_tags(&toks);
    let link_strings = find_links(text.as_str());
    let mut links: Vec<Link> = Vec::new();
    let mut i: usize = 0;
    while i < link_strings.len()
        invariant
            i <= link_strings@.len(),
            Seq::new(links@.len() as nat, |k: int| links@[k].0@)
                == Seq::new(link_strings@.len() as nat, |k: int| link_strings@[k]@).take(i as int),
        decreases link_strings@.len() - i,
    {
        let l = Link(link_strings[i].clone());
        links.push(l);
        proof {
            let all = Seq::new(link_strings@.len() as nat, |k: int| link_strings@[k]@);
            assert(all.take(i + 1) =~= all.take(i as int).push(all[i as int]));
            assert(Seq::new(links@.len() as nat, |k: int| links@[k].0@) =~= all.take(i + 1));
        }
        i = i + 1;
    }
    proof {
        let all = Seq::new(link_strings@.len() as nat, |k: int| link_strings@[k]@);
        assert(all.take(all.len() as int) =~= all);
    }
    let tags = if tags.len() == 0 {
        None
    } else {
        Some(tags)
    };
    let links = if links.len() == 0 {
        None
    } else {
        Some(links)
    };
    Note {
        title,
        text,
        links,
        tags,
        mode: InputMode::Normal,
        edited: false,
        is_active: false,
        old_title: None,
    }
}

} // verus!
