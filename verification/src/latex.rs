//! Formulas in an article. Before the Markdown is converted, each formula is
//! taken out and a mark is left in its place; in the finished HTML each mark
//! gives way to its formula again.

use crate::escape::{escape_into, escaped};
use crate::text::{from_chars, has_at, occurs_at, push_all, texts, to_chars};
use vstd::prelude::*;
use vstd::slice::slice_subrange;

verus! {

/// The mark that stands for a formula.
pub open spec fn latex_mark() -> Seq<char> {
    "lAtExhERE"@
}

/// Where the scan for formulas stands between two characters.
#[derive(Clone, Copy)]
pub enum LatexState {
    /// In ordinary text.
    Text,
    /// Behind one `$`.
    Opened,
    /// In a formula within a line, `$...$`.
    Inline,
    /// Behind `$$`, in a formula that may span lines.
    Block,
    /// In a block, behind a `$` that may begin its end.
    Closing,
    /// In a block, behind a `$` that did not end it.
    Resumed,
}

/// A carriage return or a line feed.
pub open spec fn is_line_break(c: char) -> bool {
    c == '\r' || c == '\n'
}

/// Whether `c`, read in `state`, completes a formula.
pub open spec fn completes(state: LatexState, c: char) -> bool {
    c == '$' && (state is Inline || state is Closing)
}

/// The state behind `c`, read in `state`. A line break gives up a formula
/// behind its first `$`, within a line, and behind a `$` that may end a
/// block; elsewhere in a block it is a character like any other.
pub open spec fn next_state(state: LatexState, c: char) -> LatexState {
    match state {
        LatexState::Text => if c == '$' {
            LatexState::Opened
        } else {
            LatexState::Text
        },
        LatexState::Opened => if c == '$' {
            LatexState::Block
        } else if is_line_break(c) {
            LatexState::Text
        } else {
            LatexState::Inline
        },
        LatexState::Inline => if c == '$' || is_line_break(c) {
            LatexState::Text
        } else {
            LatexState::Inline
        },
        LatexState::Block => if c == '$' {
            LatexState::Closing
        } else {
            LatexState::Block
        },
        LatexState::Closing => if c == '$' || is_line_break(c) {
            LatexState::Text
        } else {
            LatexState::Resumed
        },
        LatexState::Resumed => if c == '$' {
            LatexState::Closing
        } else {
            LatexState::Resumed
        },
    }
}

/// A text with marks for its formulas, and the formulas in their order.
pub struct Extraction {
    pub text: Seq<char>,
    pub latexes: Seq<Seq<char>>,
}

/// What the scan gives from index `i` on, where it stands in `state` and the
/// characters from `held` on have not been given out yet. A `$` in ordinary
/// text gives out what is held and begins a formula; the `$` that completes
/// one gives out a mark and the formula with its dollars; what is held at the
/// end is given out as it is.
pub open spec fn extract_from(s: Seq<char>, i: int, state: LatexState, held: int) -> Extraction
    decreases s.len() - i,
{
    if i < 0 || i >= s.len() {
        Extraction { text: s.subrange(held, s.len() as int), latexes: Seq::empty() }
    } else if state is Text && s[i] == '$' {
        let rest = extract_from(s, i + 1, LatexState::Opened, i);
        Extraction { text: s.subrange(held, i) + rest.text, latexes: rest.latexes }
    } else if completes(state, s[i]) {
        let rest = extract_from(s, i + 1, LatexState::Text, i + 1);
        Extraction {
            text: latex_mark() + rest.text,
            latexes: seq![s.subrange(held, i + 1)] + rest.latexes,
        }
    } else {
        extract_from(s, i + 1, next_state(state, s[i]), held)
    }
}

/// The text of `s` with a mark for each formula, and the formulas.
pub open spec fn extracted(s: Seq<char>) -> Extraction {
    extract_from(s, 0, LatexState::Text, 0)
}

/// The state behind `c`.
fn step(state: LatexState, c: char) -> (next: LatexState)
    ensures
        next == next_state(state, c),
{
    let line_break = c == '\r' || c == '\n';
    match state {
        LatexState::Text => if c == '$' {
            LatexState::Opened
        } else {
            LatexState::Text
        },
        LatexState::Opened => if c == '$' {
            LatexState::Block
        } else if line_break {
            LatexState::Text
        } else {
            LatexState::Inline
        },
        LatexState::Inline => if c == '$' || line_break {
            LatexState::Text
        } else {
            LatexState::Inline
        },
        LatexState::Block => if c == '$' {
            LatexState::Closing
        } else {
            LatexState::Block
        },
        LatexState::Closing => if c == '$' || line_break {
            LatexState::Text
        } else {
            LatexState::Resumed
        },
        LatexState::Resumed => if c == '$' {
            LatexState::Closing
        } else {
            LatexState::Resumed
        },
    }
}

/// Takes the formulas out of the Markdown text `s` and leaves a mark for
/// each.
pub fn extract_latex(s: &str) -> (r: (String, Vec<String>))
    ensures
        r.0@ == extracted(s@).text,
        texts(r.1@) == extracted(s@).latexes,
{
    let chars = to_chars(s);
    let src = chars.as_slice();
    let mark = to_chars("lAtExhERE");
    let mut out: Vec<char> = Vec::new();
    let mut latexes: Vec<String> = Vec::new();
    let mut state = LatexState::Text;
    let mut held: usize = 0;
    let mut i: usize = 0;
    assert(texts(latexes@) == Seq::<Seq<char>>::empty());
    while i < src.len()
        invariant
            src@ == s@,
            mark@ == latex_mark(),
            held <= i <= src.len(),
            extracted(src@).text == out@ + extract_from(src@, i as int, state, held as int).text,
            extracted(src@).latexes == texts(latexes@) + extract_from(
                src@,
                i as int,
                state,
                held as int,
            ).latexes,
        decreases src.len() - i,
    {
        let c = src[i];
        let ghost out_before = out@;
        let ghost found_before = texts(latexes@);
        let in_text = match state {
            LatexState::Text => true,
            _ => false,
        };
        let in_formula = match state {
            LatexState::Inline | LatexState::Closing => true,
            _ => false,
        };
        if in_text && c == '$' {
            let ghost rest = extract_from(src@, i + 1, LatexState::Opened, i as int);
            push_all(&mut out, slice_subrange(src, held, i));
            assert(out_before + (src@.subrange(held as int, i as int) + rest.text) == out@
                + rest.text);
            held = i;
            state = LatexState::Opened;
        } else if in_formula && c == '$' {
            let ghost rest = extract_from(src@, i + 1, LatexState::Text, i + 1);
            let ghost latex = src@.subrange(held as int, i + 1);
            push_all(&mut out, mark.as_slice());
            latexes.push(from_chars(slice_subrange(src, held, i + 1)));
            assert(out_before + (latex_mark() + rest.text) == out@ + rest.text);
            assert(texts(latexes@) == found_before.push(latex));
            assert(found_before + (seq![latex] + rest.latexes) == texts(latexes@)
                + rest.latexes);
            held = i + 1;
            state = LatexState::Text;
        } else {
            state = step(state, c);
        }
        i += 1;
    }
    push_all(&mut out, slice_subrange(src, held, src.len()));
    assert(texts(latexes@) + Seq::<Seq<char>>::empty() == texts(latexes@));
    (from_chars(out.as_slice()), latexes)
}

/// The HTML that shows the formula `latex`.
pub open spec fn latex_html(latex: Seq<char>) -> Seq<char> {
    "<div class=\"latex\">"@ + escaped(latex) + "</div>"@
}

/// The number of marks in `s` from index `i` on, counted from left to right.
pub open spec fn marks_from(s: Seq<char>, i: int) -> nat
    decreases s.len() - i,
{
    if i < 0 || i >= s.len() {
        0
    } else if occurs_at(s, i, latex_mark()) {
        proof {
            reveal_strlit("lAtExhERE");
        }
        1 + marks_from(s, i + latex_mark().len())
    } else {
        marks_from(s, i + 1)
    }
}

/// `s` from index `i` on, where the marks give way, from left to right, to
/// the formulas of `latexes` from the `k`-th on. Marks for which no formula
/// is left stay.
pub open spec fn insert_from(s: Seq<char>, i: int, latexes: Seq<Seq<char>>, k: int) -> Seq<char>
    decreases s.len() - i,
{
    if i < 0 || i >= s.len() || k < 0 || k >= latexes.len() {
        s.subrange(i, s.len() as int)
    } else if occurs_at(s, i, latex_mark()) {
        proof {
            reveal_strlit("lAtExhERE");
        }
        latex_html(latexes[k]) + insert_from(s, i + latex_mark().len(), latexes, k + 1)
    } else {
        seq![s[i]] + insert_from(s, i + 1, latexes, k)
    }
}

/// `s` with its marks replaced by the formulas of `latexes`, in their order;
/// `None` where `s` has fewer marks than there are formulas.
pub open spec fn inserted(s: Seq<char>, latexes: Seq<Seq<char>>) -> Option<Seq<char>> {
    if latexes.len() <= marks_from(s, 0) {
        Some(insert_from(s, 0, latexes, 0))
    } else {
        None
    }
}

/// Sets the formulas `latexes` in for the marks of the page `s`.
pub fn insert_latex(s: &str, latexes: &Vec<String>) -> (r: Option<String>)
    ensures
        match r {
            Some(html) => inserted(s@, texts(latexes@)) == Some(html@),
            None => inserted(s@, texts(latexes@)) is None,
        },
{
    let chars = to_chars(s);
    let src = chars.as_slice();
    let mark = to_chars("lAtExhERE");
    let open = to_chars("<div class=\"latex\">");
    let close = to_chars("</div>");
    let mut out: Vec<char> = Vec::new();
    let mut k: usize = 0;
    let mut i: usize = 0;
    proof {
        reveal_strlit("lAtExhERE");
    }
    while i < src.len() && k < latexes.len()
        invariant
            src@ == s@,
            mark@ == latex_mark(),
            mark@.len() == 9,
            open@ == "<div class=\"latex\">"@,
            close@ == "</div>"@,
            i <= src.len(),
            k <= latexes.len(),
            marks_from(src@, 0) == k + marks_from(src@, i as int),
            insert_from(src@, 0, texts(latexes@), 0) == out@ + insert_from(
                src@,
                i as int,
                texts(latexes@),
                k as int,
            ),
        decreases src.len() - i,
    {
        let ghost before = out@;
        if has_at(src, i, mark.as_slice()) {
            let ghost rest = insert_from(src@, i + 9, texts(latexes@), k + 1);
            let latex = to_chars(latexes[k].as_str());
            push_all(&mut out, open.as_slice());
            escape_into(&mut out, latex.as_slice());
            push_all(&mut out, close.as_slice());
            assert(out@ == before + latex_html(texts(latexes@)[k as int]));
            assert(before + (latex_html(texts(latexes@)[k as int]) + rest) == out@ + rest);
            k += 1;
            i += 9;
        } else {
            let ghost rest = insert_from(src@, i + 1, texts(latexes@), k as int);
            out.push(src[i]);
            assert(before + (seq![src@[i as int]] + rest) == out@ + rest);
            i += 1;
        }
    }
    if k < latexes.len() {
        None
    } else {
        push_all(&mut out, slice_subrange(src, i, src.len()));
        Some(from_chars(out.as_slice()))
    }
}

} // verus!
