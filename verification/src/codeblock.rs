//! The code blocks of a page. They are found by a regular expression, by the
//! crate regex, which gives their places as offsets in bytes; here the
//! offsets become indices of characters, and the page is put together again
//! with the highlighted code in it.

use crate::text::{from_chars, push_all, texts, to_chars};
use regex::Regex;
use vstd::prelude::*;
use vstd::slice::slice_subrange;

verus! {

/// The places of a match: for the whole match and then for each group of
/// the expression its first and last offset, or `None` for a group that
/// took no part.
pub type Spans = Vec<Option<(usize, usize)>>;

/// What the vectors of `v` hold, one for one.
pub open spec fn span_rows(v: Seq<Spans>) -> Seq<Seq<Option<(usize, usize)>>> {
    Seq::new(v.len(), |i: int| v[i]@)
}

/// The matches of the regular expression `pattern` in `text` that the
/// crate regex finds, from left to right, each by its places in bytes of the
/// UTF-8 form of `text`; `None` where it does not take `pattern` for an
/// expression.
pub uninterp spec fn regex_captures(pattern: Seq<char>, text: Seq<char>) -> Option<
    Seq<Seq<Option<(usize, usize)>>>,
>;

/// The type `regex::Error`, of which nothing is known here.
#[verifier::external_type_specification]
#[verifier::external_body]
pub struct ExRegexError(regex::Error);

/// Calls `regex::Regex::new` and `Regex::captures_iter`. Not proved: that
/// the result is the same for the same expression and text, which is all
/// that the contract claims.
#[verifier::external_body]
fn captures(pattern: &str, text: &str) -> (found: Result<Vec<Spans>, regex::Error>)
    ensures
        match found {
            Ok(v) => regex_captures(pattern@, text@) == Some(span_rows(v@)),
            Err(_) => regex_captures(pattern@, text@) is None,
        },
{
    let expression = Regex::new(pattern)?;
    let places = expression.captures_iter(text).map(
        |c| c.iter().map(|group| group.map(|m| (m.start(), m.end()))).collect(),
    );
    Ok(places.collect())
}

/// The number of bytes that stand for `c` in UTF-8.
pub open spec fn utf8_len(c: char) -> int {
    let n = c as u32;
    if n < 0x80 {
        1
    } else if n < 0x800 {
        2
    } else if n < 0x10000 {
        3
    } else {
        4
    }
}

/// The index of the character of `s` that begins at the byte `offset`,
/// where the character at index `k` begins at the byte `at`. The end of `s`
/// counts as the beginning of a character.
pub open spec fn char_index_from(s: Seq<char>, k: int, at: int, offset: int) -> Option<int>
    decreases s.len() - k,
{
    if at == offset {
        Some(k)
    } else if k < 0 || k >= s.len() || at > offset {
        None
    } else {
        char_index_from(s, k + 1, at + utf8_len(s[k]), offset)
    }
}

/// The index of the character of `s` that begins at the byte `offset` of
/// its UTF-8 form.
pub open spec fn char_index(s: Seq<char>, offset: int) -> Option<int> {
    char_index_from(s, 0, 0, offset)
}

/// The index of the character of `s` that begins at the byte `offset`.
pub fn char_index_of(s: &[char], offset: usize) -> (index: Option<usize>)
    ensures
        match index {
            Some(i) => char_index(s@, offset as int) == Some(i as int) && i <= s.len(),
            None => char_index(s@, offset as int) is None,
        },
{
    let mut k: usize = 0;
    let mut at: usize = 0;
    while at != offset
        invariant
            k <= s.len(),
            at <= offset,
            char_index(s@, offset as int) == char_index_from(s@, k as int, at as int, offset as int),
        decreases s.len() - k,
    {
        if k >= s.len() {
            return None;
        }
        let n = s[k] as u32;
        let width: usize = if n < 0x80 {
            1
        } else if n < 0x800 {
            2
        } else if n < 0x10000 {
            3
        } else {
            4
        };
        assert(width == utf8_len(s@[k as int]));
        if width > offset - at {
            assert(char_index_from(s@, k + 1, at + width, offset as int) is None);
            return None;
        }
        at += width;
        k += 1;
    }
    Some(k)
}

/// The stretch of characters of `s` that the bytes of `span` are, if they
/// are one.
pub open spec fn stretch_of(s: Seq<char>, span: (usize, usize)) -> Option<(int, int)> {
    match (char_index(s, span.0 as int), char_index(s, span.1 as int)) {
        (Some(a), Some(b)) => if a <= b {
            Some((a, b))
        } else {
            None
        },
        _ => None,
    }
}

/// The stretch of characters of `s` that the bytes of `span` are.
fn stretch(s: &[char], span: (usize, usize)) -> (r: Option<(usize, usize)>)
    ensures
        match r {
            Some((a, b)) => stretch_of(s@, span) == Some((a as int, b as int)) && a <= b
                <= s.len(),
            None => stretch_of(s@, span) is None,
        },
{
    let a = match char_index_of(s, span.0) {
        Some(a) => a,
        None => {
            return None;
        },
    };
    let b = match char_index_of(s, span.1) {
        Some(b) => b,
        None => {
            return None;
        },
    };
    if a <= b {
        Some((a, b))
    } else {
        None
    }
}

/// A code block of a page: where it begins and ends, and its language and
/// code as the page has them.
pub struct CodeBlock {
    pub start: int,
    pub end: int,
    pub lang: Seq<char>,
    pub code: Seq<char>,
}

/// A code block, as characters.
pub struct CodeSpan {
    pub start: usize,
    pub end: usize,
    pub lang: Vec<char>,
    pub code: Vec<char>,
}

impl View for CodeSpan {
    type V = CodeBlock;

    open spec fn view(&self) -> CodeBlock {
        CodeBlock {
            start: self.start as int,
            end: self.end as int,
            lang: self.lang@,
            code: self.code@,
        }
    }
}

/// What the code blocks of `v` stand for, one for one.
pub open spec fn blocks(v: Seq<CodeSpan>) -> Seq<CodeBlock> {
    Seq::new(v.len(), |i: int| v[i]@)
}

/// The code block that the match `m` of the page `s` is: its whole match is
/// the block, its first group the language and its second the code. `None`
/// where a place is missing, is no stretch of `s`, or begins before `floor`.
pub open spec fn block_of(s: Seq<char>, m: Seq<Option<(usize, usize)>>, floor: int) -> Option<
    CodeBlock,
> {
    if m.len() < 3 {
        None
    } else {
        match (m[0], m[1], m[2]) {
            (Some(whole), Some(lang), Some(code)) => match (
                stretch_of(s, whole),
                stretch_of(s, lang),
                stretch_of(s, code),
            ) {
                (Some(w), Some(l), Some(c)) => if floor <= w.0 {
                    Some(
                        CodeBlock {
                            start: w.0,
                            end: w.1,
                            lang: s.subrange(l.0, l.1),
                            code: s.subrange(c.0, c.1),
                        },
                    )
                } else {
                    None
                },
                _ => None,
            },
            _ => None,
        }
    }
}

/// Where the text behind the blocks `found` begins.
pub open spec fn floor_of(found: Seq<CodeBlock>) -> int {
    if found.len() == 0 {
        0
    } else {
        found.last().end
    }
}

/// The code blocks that the matches `matches` of the page `s` are; `None`
/// unless each is one and they follow each other.
pub open spec fn blocks_of(s: Seq<char>, matches: Seq<Seq<Option<(usize, usize)>>>) -> Option<
    Seq<CodeBlock>,
>
    decreases matches.len(),
{
    if matches.len() == 0 {
        Some(Seq::empty())
    } else {
        match blocks_of(s, matches.drop_last()) {
            Some(found) => match block_of(s, matches.last(), floor_of(found)) {
                Some(b) => Some(found.push(b)),
                None => None,
            },
            None => None,
        }
    }
}

/// Code blocks that lie in a page of `len` characters, one behind the other.
pub open spec fn blocks_fit(found: Seq<CodeBlock>, len: int) -> bool {
    &&& forall|i: int| 0 <= i < found.len() ==> 0 <= (#[trigger] found[i]).start <= found[i].end <= len
    &&& forall|i: int| 0 < i < found.len() ==> found[i - 1].end <= (#[trigger] found[i]).start
}

/// The code block that the match `m` of the page `s` is.
fn block_in(s: &[char], m: &Spans, floor: usize) -> (r: Option<CodeSpan>)
    ensures
        match r {
            Some(b) => block_of(s@, m@, floor as int) == Some(b@) && floor <= b.start <= b.end
                <= s.len(),
            None => block_of(s@, m@, floor as int) is None,
        },
{
    if m.len() < 3 {
        return None;
    }
    match (m[0], m[1], m[2]) {
        (Some(whole), Some(lang), Some(code)) => {
            match (stretch(s, whole), stretch(s, lang), stretch(s, code)) {
                (Some(w), Some(l), Some(c)) => if floor <= w.0 {
                    let mut lang_text: Vec<char> = Vec::new();
                    push_all(&mut lang_text, slice_subrange(s, l.0, l.1));
                    let mut code_text: Vec<char> = Vec::new();
                    push_all(&mut code_text, slice_subrange(s, c.0, c.1));
                    Some(CodeSpan { start: w.0, end: w.1, lang: lang_text, code: code_text })
                } else {
                    None
                },
                _ => None,
            }
        },
        _ => None,
    }
}

/// The code blocks that the matches `matches` of the page `s` are.
pub fn code_blocks_in(s: &[char], matches: &Vec<Spans>) -> (r: Option<Vec<CodeSpan>>)
    ensures
        match r {
            Some(found) => blocks_of(s@, span_rows(matches@)) == Some(blocks(found@))
                && blocks_fit(blocks(found@), s.len() as int),
            None => blocks_of(s@, span_rows(matches@)) is None,
        },
{
    let mut found: Vec<CodeSpan> = Vec::new();
    let mut floor: usize = 0;
    let mut i: usize = 0;
    let ghost all = span_rows(matches@);
    assert(all.take(0) == Seq::<Seq<Option<(usize, usize)>>>::empty());
    assert(blocks(found@) == Seq::<CodeBlock>::empty());
    while i < matches.len()
        invariant
            i <= matches.len(),
            all == span_rows(matches@),
            blocks_of(s@, all.take(i as int)) == Some(blocks(found@)),
            floor == floor_of(blocks(found@)),
            floor <= s.len(),
            blocks_fit(blocks(found@), s.len() as int),
        decreases matches.len() - i,
    {
        let ghost before = blocks(found@);
        assert(all.take(i + 1).drop_last() == all.take(i as int));
        assert(all.take(i + 1).last() == matches@[i as int]@);
        match block_in(s, &matches[i], floor) {
            Some(b) => {
                floor = b.end;
                let ghost added = b@;
                found.push(b);
                assert(blocks(found@) == before.push(added));
                assert forall|k: int| 0 < k < blocks(found@).len() implies blocks(found@)[k
                    - 1].end <= (#[trigger] blocks(found@)[k]).start by {
                    if k < before.len() {
                        assert(blocks(found@)[k] == before[k]);
                        assert(blocks(found@)[k - 1] == before[k - 1]);
                    } else {
                        assert(blocks(found@)[k - 1] == before.last());
                    }
                }
            },
            None => {
                proof {
                    lemma_blocks_of_none(s@, all, i + 1);
                }
                return None;
            },
        }
        i += 1;
    }
    assert(all.take(matches.len() as int) == all);
    Some(found)
}

/// Where the first `n` matches are no code blocks, all of them are none.
proof fn lemma_blocks_of_none(s: Seq<char>, matches: Seq<Seq<Option<(usize, usize)>>>, n: int)
    requires
        0 <= n <= matches.len(),
        blocks_of(s, matches.take(n)) is None,
    ensures
        blocks_of(s, matches) is None,
    decreases matches.len() - n,
{
    if n < matches.len() {
        assert(matches.take(n + 1).drop_last() == matches.take(n));
        lemma_blocks_of_none(s, matches, n + 1);
    } else {
        assert(matches.take(n) == matches);
    }
}

/// The expression that finds a code block as the Markdown step writes it.
pub open spec fn code_block_pattern() -> Seq<char> {
    "<pre lang=\"([^\"]*)\"><code>([^<]*)</code></pre>"@
}

/// The code blocks of the page `s`, or `None` where the search did not give
/// code blocks of `s`.
pub open spec fn code_blocks(s: Seq<char>) -> Option<Seq<CodeBlock>> {
    match regex_captures(code_block_pattern(), s) {
        Some(matches) => blocks_of(s, matches),
        None => None,
    }
}

/// Searches the page `s` for its code blocks.
pub fn find_code_blocks(s: &[char]) -> (r: Option<Vec<CodeSpan>>)
    ensures
        match r {
            Some(found) => code_blocks(s@) == Some(blocks(found@)) && blocks_fit(
                blocks(found@),
                s.len() as int,
            ),
            None => code_blocks(s@) is None,
        },
{
    let text = from_chars(s);
    match captures("<pre lang=\"([^\"]*)\"><code>([^<]*)</code></pre>", text.as_str()) {
        Ok(matches) => code_blocks_in(s, &matches),
        Err(_) => None,
    }
}

/// The HTML of a code block in the language `lang` whose code, highlighted,
/// is `code`.
pub open spec fn code_html(lang: Seq<char>, code: Seq<char>) -> Seq<char> {
    "<pre lang=\""@ + lang + "\"><code>"@ + code + "</code></pre>"@
}

/// The page `s` up to the end of the last of the blocks `found`, with the
/// `i`-th of `codes` as the code of the `i`-th block.
pub open spec fn page_upto(s: Seq<char>, found: Seq<CodeBlock>, codes: Seq<Seq<char>>) -> Seq<char>
    decreases found.len(),
{
    if found.len() == 0 {
        Seq::empty()
    } else {
        page_upto(s, found.drop_last(), codes) + s.subrange(
            floor_of(found.drop_last()),
            found.last().start,
        ) + code_html(found.last().lang, codes[found.len() - 1])
    }
}

/// The page `s` with the `i`-th of `codes` as the code of the `i`-th of its
/// blocks `found`, and the text between the blocks as it is.
pub open spec fn with_codes(s: Seq<char>, found: Seq<CodeBlock>, codes: Seq<Seq<char>>) -> Seq<
    char,
> {
    page_upto(s, found, codes) + s.subrange(floor_of(found), s.len() as int)
}

/// Puts the page together; `None` unless the blocks fit the page and there
/// is a code for each.
pub fn put_codes(s: &[char], found: &Vec<CodeSpan>, codes: &Vec<String>) -> (page: Option<Vec<char>>)
    ensures
        match page {
            Some(p) => blocks_fit(blocks(found@), s.len() as int) && codes.len() == found.len()
                && p@ == with_codes(s@, blocks(found@), texts(codes@)),
            None => !blocks_fit(blocks(found@), s.len() as int) || codes.len() != found.len(),
        },
{
    if codes.len() != found.len() {
        return None;
    }
    let open = to_chars("<pre lang=\"");
    let middle = to_chars("\"><code>");
    let close = to_chars("</code></pre>");
    let ghost all = blocks(found@);
    let mut page: Vec<char> = Vec::new();
    let mut floor: usize = 0;
    let mut i: usize = 0;
    assert(all.take(0) == Seq::<CodeBlock>::empty());
    while i < found.len()
        invariant
            i <= found.len(),
            codes.len() == found.len(),
            all == blocks(found@),
            blocks_fit(all.take(i as int), s.len() as int),
            open@ == "<pre lang=\""@,
            middle@ == "\"><code>"@,
            close@ == "</code></pre>"@,
            floor == floor_of(all.take(i as int)),
            floor <= s.len(),
            page@ == page_upto(s@, all.take(i as int), texts(codes@)),
        decreases found.len() - i,
    {
        let ghost before = page@;
        let block = &found[i];
        assert(all.take(i + 1).drop_last() == all.take(i as int));
        assert(all.take(i + 1).last() == block@);
        assert(all[i as int] == block@);
        if i > 0 {
            assert(all.take(i as int).last() == all[i - 1]);
        }
        if block.start < floor || block.end < block.start || s.len() < block.end {
            return None;
        }
        let code = to_chars(codes[i].as_str());
        assert(code@ == texts(codes@)[i as int]);
        push_all(&mut page, slice_subrange(s, floor, block.start));
        push_all(&mut page, open.as_slice());
        push_all(&mut page, block.lang.as_slice());
        push_all(&mut page, middle.as_slice());
        push_all(&mut page, code.as_slice());
        push_all(&mut page, close.as_slice());
        assert(page@ == before + s@.subrange(floor as int, block.start as int) + code_html(
            block.lang@,
            code@,
        ));
        assert(blocks_fit(all.take(i + 1), s.len() as int)) by {
            let next = all.take(i + 1);
            assert forall|k: int| 0 <= k < next.len() implies 0 <= (#[trigger] next[k]).start
                <= next[k].end <= s.len() by {
                if k < i {
                    assert(next[k] == all.take(i as int)[k]);
                }
            }
            assert forall|k: int| 0 < k < next.len() implies next[k - 1].end <= (
            #[trigger] next[k]).start by {
                if k < i {
                    assert(next[k] == all.take(i as int)[k]);
                    assert(next[k - 1] == all.take(i as int)[k - 1]);
                }
            }
        }
        floor = block.end;
        i += 1;
    }
    assert(all.take(found.len() as int) == all);
    push_all(&mut page, slice_subrange(s, floor, s.len()));
    Some(page)
}

} // verus!
