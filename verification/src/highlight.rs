//! Colours for the code of a code block, by the crate syntect.

use crate::escape::{unescape_chars, unescaped};
use crate::text::{find, find_from, from_chars, lemma_find_from, same_chars, texts, to_chars};
use syntect::easy::HighlightLines;
use syntect::highlighting::ThemeSet;
use syntect::html::{append_highlighted_html_for_styled_line, IncludeBackground};
use syntect::parsing::SyntaxSet;
use vstd::prelude::*;
use vstd::slice::slice_subrange;

verus! {

/// The file extension by which the syntax of the language `lang` is found.
pub open spec fn lang_ext(lang: Seq<char>) -> Seq<char> {
    if lang == "cpp"@ || lang == "c++"@ || lang == "cxx"@ {
        "cpp"@
    } else if lang == "rust"@ {
        "rs"@
    } else if lang == "pascal"@ {
        "pas"@
    } else if lang == "ebnf"@ || lang == ""@ {
        "txt"@
    } else {
        lang
    }
}

/// Whether `s` is the text `word`.
fn is_text(s: &[char], word: &str) -> (eq: bool)
    ensures
        eq == (s@ == word@),
{
    let w = to_chars(word);
    same_chars(s, w.as_slice())
}

/// The file extension for the language that a code block names.
pub fn lang2ext(lang: &str) -> (ext: &str)
    ensures
        ext@ == lang_ext(lang@),
{
    let l = to_chars(lang);
    let l = l.as_slice();
    if is_text(l, "cpp") || is_text(l, "c++") || is_text(l, "cxx") {
        "cpp"
    } else if is_text(l, "rust") {
        "rs"
    } else if is_text(l, "pascal") {
        "pas"
    } else if is_text(l, "ebnf") || is_text(l, "") {
        "txt"
    } else {
        lang
    }
}

/// The lines of `s` from index `start` on, each with the line feed that
/// ends it. Text behind the last line feed is a line too.
pub open spec fn lines_from(s: Seq<char>, start: int) -> Seq<Seq<char>>
    decreases s.len() - start,
{
    if start < 0 || start >= s.len() {
        Seq::empty()
    } else {
        match find_from(s, start, seq!['\n']) {
            Some(j) => {
                proof {
                    lemma_find_from(s, start, seq!['\n']);
                }
                seq![s.subrange(start, j + 1)] + lines_from(s, j + 1)
            },
            None => seq![s.subrange(start, s.len() as int)],
        }
    }
}

/// The lines of `s`, each with its ending.
pub open spec fn lines_with_endings(s: Seq<char>) -> Seq<Seq<char>> {
    lines_from(s, 0)
}

/// Splits `s` into its lines, each with its ending.
pub fn split_lines(s: &[char]) -> (lines: Vec<String>)
    ensures
        texts(lines@) == lines_with_endings(s@),
{
    let mut feed: Vec<char> = Vec::new();
    feed.push('\n');
    assert(feed@ == seq!['\n']);
    let mut lines: Vec<String> = Vec::new();
    let mut start: usize = 0;
    assert(texts(lines@) == Seq::<Seq<char>>::empty());
    while start < s.len()
        invariant
            start <= s.len(),
            feed@ == seq!['\n'],
            lines_with_endings(s@) == texts(lines@) + lines_from(s@, start as int),
        decreases s.len() - start,
    {
        let ghost before = texts(lines@);
        proof {
            lemma_find_from(s@, start as int, seq!['\n']);
        }
        let end = match find(s, start, feed.as_slice()) {
            Some(j) => j + 1,
            None => s.len(),
        };
        let ghost rest = lines_from(s@, end as int);
        let ghost line = s@.subrange(start as int, end as int);
        lines.push(from_chars(slice_subrange(s, start, end)));
        assert(texts(lines@) == before.push(line));
        assert(before + (seq![line] + rest) == texts(lines@) + rest);
        start = end;
    }
    assert(texts(lines@) + Seq::<Seq<char>>::empty() == texts(lines@));
    lines
}

/// The HTML that syntect gives for `lines`, highlighted in turn as the lines
/// of one text, in the syntax that its default set has for the file
/// extension `extension` and the colours of its default theme named
/// `theme`, without background colours; `None` where it has no such syntax
/// or no such theme.
pub uninterp spec fn syntect_html(
    extension: Seq<char>,
    theme: Seq<char>,
    lines: Seq<Seq<char>>,
) -> Option<Seq<char>>;

/// Calls syntect: `SyntaxSet::load_defaults_newlines` and
/// `find_syntax_by_extension`, `ThemeSet::load_defaults`, and for each line
/// `HighlightLines::highlight` and `append_highlighted_html_for_styled_line`.
/// Not proved: that the result is the same for the same extension, theme and
/// lines, which is all that the contract claims.
#[verifier::external_body]
fn highlight_lines(extension: &str, theme: &str, lines: &Vec<String>) -> (html: Option<String>)
    ensures
        match html {
            Some(h) => syntect_html(extension@, theme@, texts(lines@)) == Some(h@),
            None => syntect_html(extension@, theme@, texts(lines@)) is None,
        },
{
    let set = SyntaxSet::load_defaults_newlines();
    let themes = ThemeSet::load_defaults();
    let syntax = set.find_syntax_by_extension(extension)?;
    let mut highlighter = HighlightLines::new(syntax, themes.themes.get(theme)?);
    let mut html = String::new();
    for line in lines {
        let regions = highlighter.highlight(line, &set);
        append_highlighted_html_for_styled_line(&regions, IncludeBackground::No, &mut html);
    }
    Some(html)
}

/// The highlighted HTML of the code `code` of a code block in the language
/// `lang`: the code is unescaped and highlighted line by line, in the
/// colours of the theme `base16-ocean.light`. `None` where no syntax is
/// known for the language.
pub open spec fn highlighted(lang: Seq<char>, code: Seq<char>) -> Option<Seq<char>> {
    syntect_html(lang_ext(lang), "base16-ocean.light"@, lines_with_endings(unescaped(code)))
}

/// Highlights the code of a code block, which is escaped for HTML.
pub fn highlight_code(lang: &str, code: &str) -> (html: Option<String>)
    ensures
        match html {
            Some(h) => highlighted(lang@, code@) == Some(h@),
            None => highlighted(lang@, code@) is None,
        },
{
    let escaped = to_chars(code);
    let plain = unescape_chars(escaped.as_slice());
    let lines = split_lines(plain.as_slice());
    highlight_lines(lang2ext(lang), "base16-ocean.light", &lines)
}

} // verus!
