//! The form of a title that serves as a file name and in links.

use crate::text::{
    from_chars, is_space, lemma_trim_end_is_prefix, lemma_trim_start_is_suffix,
    lemma_trimmed_is_stretch, to_chars, trim, trim_start, trimmed,
};
use vstd::prelude::*;

verus! {

/// The punctuation that a path does not keep.
pub open spec fn is_dropped(c: char) -> bool {
    c == '~' || c == '!' || c == '@' || c == '#' || c == '$' || c == '%' || c == '^' || c == '&'
        || c == '*' || c == '(' || c == ')' || c == '{' || c == '}' || c == '|' || c == ':' || c
        == '"' || c == '<' || c == '>' || c == '?' || c == '[' || c == ']' || c == '\\' || c == ';'
        || c == '\'' || c == ',' || c == '.' || c == '/' || c == '='
}

/// What a path holds for `c`: nothing for punctuation, the small letter for
/// a capital from `A` to `Z`, a dash for a space, and `c` itself otherwise.
pub open spec fn path_char(c: char) -> Option<char> {
    if is_dropped(c) {
        None
    } else if 'A' <= c <= 'Z' {
        Some((c as u8 + 32) as char)
    } else if c == ' ' {
        Some('-')
    } else {
        Some(c)
    }
}

/// What a path holds for the characters of `s`.
pub open spec fn path_chars(s: Seq<char>) -> Seq<char>
    decreases s.len(),
{
    if s.len() == 0 {
        s
    } else {
        match path_char(s[0]) {
            Some(c) => seq![c] + path_chars(s.drop_first()),
            None => path_chars(s.drop_first()),
        }
    }
}

/// The path form of a title: the title without the white space around it,
/// character by character.
pub open spec fn slug(title: Seq<char>) -> Seq<char> {
    path_chars(trimmed(title))
}

/// What a path holds for `c`.
fn path_char_of(c: char) -> (r: Option<char>)
    ensures
        r == path_char(c),
{
    if c == '~' || c == '!' || c == '@' || c == '#' || c == '$' || c == '%' || c == '^' || c == '&'
        || c == '*' || c == '(' || c == ')' || c == '{' || c == '}' || c == '|' || c == ':' || c
        == '"' || c == '<' || c == '>' || c == '?' || c == '[' || c == ']' || c == '\\' || c == ';'
        || c == '\'' || c == ',' || c == '.' || c == '/' || c == '=' {
        None
    } else if 'A' <= c && c <= 'Z' {
        Some((c as u8 + 32) as char)
    } else if c == ' ' {
        Some('-')
    } else {
        Some(c)
    }
}

/// The path form of the title `title`.
pub fn path_of(title: &[char]) -> (path: Vec<char>)
    ensures
        path@ == slug(title@),
{
    let s = trim(title);
    let mut out: Vec<char> = Vec::new();
    let mut i: usize = 0;
    assert(s@.skip(0) == s@);
    while i < s.len()
        invariant
            i <= s.len(),
            path_chars(s@) == out@ + path_chars(s@.skip(i as int)),
        decreases s.len() - i,
    {
        let ghost before = out@;
        let ghost rest = path_chars(s@.skip(i + 1));
        assert(s@.skip(i as int).drop_first() == s@.skip(i + 1));
        match path_char_of(s[i]) {
            Some(c) => {
                out.push(c);
                assert(before + (seq![c] + rest) == out@ + rest);
            },
            None => {},
        }
        i += 1;
    }
    assert(out@ + Seq::<char>::empty() == out@);
    out
}

/// The path form of a title, for the name of a file and for checking a
/// title against the name of its file.
pub fn path_title(title: &str) -> (path: String)
    ensures
        path@ == slug(title@),
{
    let chars = to_chars(title);
    let out = path_of(chars.as_slice());
    from_chars(out.as_slice())
}

/// A character that a path holds for itself.
pub open spec fn is_kept(c: char) -> bool {
    path_char(c) == Some(c)
}

/// `s` holds only characters that a path holds for themselves.
pub open spec fn all_kept(s: Seq<char>) -> bool {
    forall|i: int| 0 <= i < s.len() ==> is_kept(#[trigger] s[i])
}

/// A path holds only characters that stand for themselves.
pub proof fn lemma_path_chars_kept(s: Seq<char>)
    ensures
        all_kept(path_chars(s)),
    decreases s.len(),
{
    if s.len() > 0 {
        lemma_path_chars_kept(s.drop_first());
    }
}

/// Text of characters that stand for themselves is its own path.
pub proof fn lemma_path_chars_of_kept(s: Seq<char>)
    requires
        all_kept(s),
    ensures
        path_chars(s) == s,
    decreases s.len(),
{
    if s.len() > 0 {
        assert(is_kept(s[0]));
        assert forall|i: int| 0 <= i < s.drop_first().len() implies is_kept(
            #[trigger] s.drop_first()[i],
        ) by {
            assert(s.drop_first()[i] == s[i + 1]);
        }
        lemma_path_chars_of_kept(s.drop_first());
        assert(seq![s[0]] + s.drop_first() == s);
    }
}

/// The path form of a path is that path without the white space around it.
pub proof fn lemma_slug_of_slug(title: Seq<char>)
    ensures
        slug(slug(title)) == trimmed(slug(title)),
{
    let path = slug(title);
    lemma_path_chars_kept(trimmed(title));
    let (a, b) = lemma_trimmed_is_stretch(path);
    assert forall|i: int| 0 <= i < trimmed(path).len() implies is_kept(
        #[trigger] trimmed(path)[i],
    ) by {
        assert(trimmed(path)[i] == path[a + i]);
    }
    lemma_path_chars_of_kept(trimmed(path));
}

/// Text that neither begins nor ends with white space.
pub open spec fn is_trim(s: Seq<char>) -> bool {
    s.len() > 0 ==> !is_space(s[0]) && !is_space(s.last())
}

/// Taking the path form twice gives what taking it once gives, for every
/// title whose path form neither begins nor ends with white space; for any
/// other title it does not.
pub proof fn lemma_slug_idempotent(title: Seq<char>)
    ensures
        is_trim(slug(title)) <==> slug(slug(title)) == slug(title),
{
    let path = slug(title);
    lemma_slug_of_slug(title);
    if path.len() > 0 {
        if is_space(path[0]) {
            let a = lemma_trim_start_is_suffix(path.drop_first());
            let b = lemma_trim_end_is_prefix(trim_start(path));
            assert(trimmed(path).len() < path.len());
        } else if is_space(path.last()) {
            let b = lemma_trim_end_is_prefix(path.drop_last());
            assert(trimmed(path).len() < path.len());
        }
    }
}

} // verus!
