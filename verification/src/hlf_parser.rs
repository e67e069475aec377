//! The template grammar. A template is HTML in which comments mark
//! productions: `<!--symbol-->name<!--symbol-->` names one, and
//! `<!--content-->...<!--content-->` holds its right-hand side, in which a
//! further pair of symbol markers refers to another production by name.

use crate::text::{find_from, from_chars, has_at, occurs_at, same_chars, to_chars, trim, trimmed};
use vstd::prelude::*;
use vstd::slice::slice_subrange;

verus! {

/// An atom of a right-hand side.
#[derive(Debug, Clone, Hash, PartialEq, Eq)]
pub enum Symbol {
    /// A reference to another production, by its name.
    N(String),
    /// Literal text.
    T(String),
}

/// The name of a production.
pub type HlfLhs = String;

/// The right-hand side of a production.
pub type HlfRhs = Vec<Symbol>;

/// A production: a name and the atoms that it stands for.
#[derive(Debug, Clone, Hash, PartialEq, Eq)]
pub struct HLF {
    pub lhs: HlfLhs,
    pub rhs: HlfRhs,
}

/// The two kinds of marker.
#[derive(Debug, Clone, Copy, PartialEq, Eq)]
pub enum HlfType {
    Symbol,
    Content,
}

/// What a `Symbol` stands for.
pub enum Atom {
    N(Seq<char>),
    T(Seq<char>),
}

/// What an `HLF` stands for.
pub struct Production {
    pub lhs: Seq<char>,
    pub rhs: Seq<Atom>,
}

impl View for Symbol {
    type V = Atom;

    open spec fn view(&self) -> Atom {
        match self {
            Symbol::N(name) => Atom::N(name@),
            Symbol::T(text) => Atom::T(text@),
        }
    }
}

impl View for HLF {
    type V = Production;

    open spec fn view(&self) -> Production {
        Production { lhs: self.lhs@, rhs: atoms(self.rhs@) }
    }
}

/// The atoms that a right-hand side stands for.
pub open spec fn atoms(rhs: Seq<Symbol>) -> Seq<Atom> {
    Seq::new(rhs.len(), |i: int| rhs[i]@)
}

/// The productions that a parsed template stands for.
pub open spec fn productions(hlfs: Seq<HLF>) -> Seq<Production> {
    Seq::new(hlfs.len(), |i: int| hlfs[i]@)
}

impl HLF {
    /// A production without a name and without atoms.
    pub fn new() -> (hlf: Self)
        ensures
            hlf@ == (Production { lhs: Seq::empty(), rhs: Seq::empty() }),
    {
        let hlf = HLF { lhs: String::new(), rhs: Vec::new() };
        assert(atoms(hlf.rhs@) =~= Seq::empty());
        hlf
    }
}

/// Tells whether `pattern` stands in `input` at `start`, and if so where it ends.
pub fn match_str(input: &[char], start: usize, pattern: &[char]) -> (end: Option<usize>)
    ensures
        end is Some <==> occurs_at(input@, start as int, pattern@),
        end is Some ==> end->0 == start + pattern.len(),
{
    if has_at(input, start, pattern) {
        assert(start + pattern.len() <= input.len());
        Some(start + pattern.len())
    } else {
        None
    }
}

/// Matches the opening of a comment, `<!--`.
pub fn match_type_begin(input: &[char], start: usize) -> (end: Option<usize>)
    ensures
        end is Some <==> occurs_at(input@, start as int, "<!--"@),
        end is Some ==> end->0 == start + "<!--"@.len(),
{
    let pattern = to_chars("<!--");
    match_str(input, start, pattern.as_slice())
}

/// Matches the closing of a comment, `-->`.
pub fn match_type_end(input: &[char], start: usize) -> (end: Option<usize>)
    ensures
        end is Some <==> occurs_at(input@, start as int, "-->"@),
        end is Some ==> end->0 == start + "-->"@.len(),
{
    let pattern = to_chars("-->");
    match_str(input, start, pattern.as_slice())
}

/// The marker that stands in `s` at `i`, with the index just behind it: a
/// comment whose text, up to the first `-->` and without the white space
/// around it, is `symbol` or `content`.
pub open spec fn marker_at(s: Seq<char>, i: int) -> Option<(int, HlfType)> {
    if !occurs_at(s, i, "<!--"@) {
        None
    } else {
        match find_from(s, i + "<!--"@.len(), "-->"@) {
            None => None,
            Some(j) => {
                let word = trimmed(s.subrange(i + "<!--"@.len(), j));
                if word == "symbol"@ {
                    Some((j + "-->"@.len(), HlfType::Symbol))
                } else if word == "content"@ {
                    Some((j + "-->"@.len(), HlfType::Content))
                } else {
                    None
                }
            },
        }
    }
}

/// Reads the marker that stands in `input` at `start`.
pub fn match_type(input: &[char], start: usize) -> (found: Option<(usize, HlfType)>)
    ensures
        match found {
            Some((end, typ)) => marker_at(input@, start as int) == Some((end as int, typ)),
            None => marker_at(input@, start as int) is None,
        },
{
    let word_start = match match_type_begin(input, start) {
        Some(p) => p,
        None => {
            return None;
        },
    };
    let mut word_end = word_start;
    loop
        invariant
            word_start <= word_end <= input.len(),
            occurs_at(input@, start as int, "<!--"@),
            word_start == start + "<!--"@.len(),
            find_from(input@, word_start as int, "-->"@) == find_from(
                input@,
                word_end as int,
                "-->"@,
            ),
        decreases input.len() - word_end,
    {
        match match_type_end(input, word_end) {
            Some(end) => {
                let word = trim(slice_subrange(input, word_start, word_end));
                let symbol = to_chars("symbol");
                let content = to_chars("content");
                return if same_chars(word, symbol.as_slice()) {
                    Some((end, HlfType::Symbol))
                } else if same_chars(word, content.as_slice()) {
                    Some((end, HlfType::Content))
                } else {
                    None
                };
            },
            None => {
                if word_end >= input.len() {
                    proof {
                        reveal_strlit("-->");
                    }
                    return None;
                }
                word_end += 1;
            },
        }
    }
}

/// A marker is not empty: the index behind it lies further on, within `s`.
pub proof fn lemma_marker_at(s: Seq<char>, i: int)
    ensures
        match marker_at(s, i) {
            Some((j, _)) => i < j <= s.len(),
            None => true,
        },
{
    reveal_strlit("<!--");
    reveal_strlit("-->");
    if occurs_at(s, i, "<!--"@) {
        crate::text::lemma_find_from(s, i + "<!--"@.len(), "-->"@);
    }
}

/// Where the parser stands between two characters.
pub enum ParseState {
    /// Between productions: text is skipped.
    Outside,
    /// In the name of a production.
    InName,
    /// Behind the name, before the content opens: text is skipped.
    AwaitContent,
    /// In the content, in literal text.
    InContent,
    /// In the content, in the name of a reference.
    InReference,
}

/// What the parser has gathered so far.
pub struct Progress {
    pub state: ParseState,
    /// The characters of the name or text that is being read.
    pub pending: Seq<char>,
    /// The name of the production that is being read.
    pub lhs: Seq<char>,
    /// The atoms of the production that is being read.
    pub rhs: Seq<Atom>,
    /// The productions that are complete.
    pub done: Seq<Production>,
}

/// The parser before the first character.
pub open spec fn start_progress() -> Progress {
    Progress {
        state: ParseState::Outside,
        pending: Seq::empty(),
        lhs: Seq::empty(),
        rhs: Seq::empty(),
        done: Seq::empty(),
    }
}

/// The parser after a symbol marker, or `None` where no symbol marker may stand.
pub open spec fn after_symbol(p: Progress) -> Option<Progress> {
    match p.state {
        ParseState::Outside => Some(Progress { state: ParseState::InName, ..p }),
        ParseState::InName => Some(
            Progress {
                state: ParseState::AwaitContent,
                lhs: trimmed(p.pending),
                pending: Seq::empty(),
                ..p
            },
        ),
        ParseState::AwaitContent => None,
        ParseState::InContent => Some(
            Progress {
                state: ParseState::InReference,
                rhs: p.rhs.push(Atom::T(p.pending)),
                pending: Seq::empty(),
                ..p
            },
        ),
        ParseState::InReference => Some(
            Progress {
                state: ParseState::InContent,
                rhs: p.rhs.push(Atom::N(trimmed(p.pending))),
                pending: Seq::empty(),
                ..p
            },
        ),
    }
}

/// The parser after a content marker, or `None` where no content marker may stand.
pub open spec fn after_content(p: Progress) -> Option<Progress> {
    match p.state {
        ParseState::AwaitContent => Some(Progress { state: ParseState::InContent, ..p }),
        ParseState::InContent => Some(
            Progress {
                state: ParseState::Outside,
                pending: Seq::empty(),
                lhs: Seq::empty(),
                rhs: Seq::empty(),
                done: p.done.push(
                    Production { lhs: p.lhs, rhs: p.rhs.push(Atom::T(p.pending)) },
                ),
            },
        ),
        _ => None,
    }
}

/// The parser after the character `c` that begins no marker.
pub open spec fn after_char(p: Progress, c: char) -> Progress {
    match p.state {
        ParseState::Outside | ParseState::AwaitContent => p,
        _ => Progress { pending: p.pending.push(c), ..p },
    }
}

/// The productions of `s`, read from index `i` on by a parser that stands at
/// `p`; `None` where a marker stands where it may not, or where `s` ends
/// within a production.
pub open spec fn parse_from(s: Seq<char>, i: int, p: Progress) -> Option<Seq<Production>>
    decreases s.len() - i,
{
    if i < 0 || i >= s.len() {
        if p.state is Outside {
            Some(p.done)
        } else {
            None
        }
    } else {
        proof {
            lemma_marker_at(s, i);
        }
        match marker_at(s, i) {
            Some((j, HlfType::Symbol)) => match after_symbol(p) {
                Some(q) => parse_from(s, j, q),
                None => None,
            },
            Some((j, HlfType::Content)) => match after_content(p) {
                Some(q) => parse_from(s, j, q),
                None => None,
            },
            None => parse_from(s, i + 1, after_char(p, s[i])),
        }
    }
}

/// The productions that the template `s` holds, in their order.
pub open spec fn parsed(s: Seq<char>) -> Option<Seq<Production>> {
    parse_from(s, 0, start_progress())
}

/// Reads the productions of a template.
pub fn parse(input: &str) -> (result: Option<Vec<HLF>>)
    ensures
        match result {
            Some(hlfs) => parsed(input@) == Some(productions(hlfs@)),
            None => parsed(input@) is None,
        },
{
    let chars = to_chars(input);
    let s = chars.as_slice();
    let mut result: Vec<HLF> = Vec::new();
    let mut state = ParseState::Outside;
    let mut pending: Vec<char> = Vec::new();
    let mut lhs: String = String::new();
    let mut rhs: Vec<Symbol> = Vec::new();
    let mut i: usize = 0;
    assert(atoms(rhs@) =~= Seq::empty());
    assert(productions(result@) =~= Seq::empty());
    while i < s.len()
        invariant
            s@ == input@,
            i <= s.len(),
            parsed(s@) == parse_from(
                s@,
                i as int,
                Progress {
                    state,
                    pending: pending@,
                    lhs: lhs@,
                    rhs: atoms(rhs@),
                    done: productions(result@),
                },
            ),
        decreases s.len() - i,
    {
        proof {
            lemma_marker_at(s@, i as int);
        }
        match match_type(s, i) {
            Some((end, HlfType::Symbol)) => {
                match state {
                    ParseState::Outside => {
                        state = ParseState::InName;
                    },
                    ParseState::InName => {
                        lhs = from_chars(trim(pending.as_slice()));
                        pending = Vec::new();
                        state = ParseState::AwaitContent;
                    },
                    ParseState::AwaitContent => {
                        return None;
                    },
                    ParseState::InContent => {
                        let ghost before = atoms(rhs@);
                        let text = Symbol::T(from_chars(pending.as_slice()));
                        rhs.push(text);
                        assert(atoms(rhs@) =~= before.push(Atom::T(pending@)));
                        pending = Vec::new();
                        state = ParseState::InReference;
                    },
                    ParseState::InReference => {
                        let ghost before = atoms(rhs@);
                        let name = Symbol::N(from_chars(trim(pending.as_slice())));
                        rhs.push(name);
                        assert(atoms(rhs@) =~= before.push(Atom::N(trimmed(pending@))));
                        pending = Vec::new();
                        state = ParseState::InContent;
                    },
                }
                i = end;
            },
            Some((end, HlfType::Content)) => {
                match state {
                    ParseState::AwaitContent => {
                        state = ParseState::InContent;
                    },
                    ParseState::InContent => {
                        let ghost atoms_before = atoms(rhs@);
                        let ghost done_before = productions(result@);
                        let ghost name = lhs@;
                        let text = Symbol::T(from_chars(pending.as_slice()));
                        rhs.push(text);
                        assert(atoms(rhs@) =~= atoms_before.push(Atom::T(pending@)));
                        let hlf = HLF { lhs, rhs };
                        result.push(hlf);
                        assert(productions(result@) =~= done_before.push(
                            Production { lhs: name, rhs: atoms_before.push(Atom::T(pending@)) },
                        ));
                        lhs = String::new();
                        rhs = Vec::new();
                        assert(atoms(rhs@) =~= Seq::empty());
                        pending = Vec::new();
                        state = ParseState::Outside;
                    },
                    _ => {
                        return None;
                    },
                }
                i = end;
            },
            None => {
                match state {
                    ParseState::Outside | ParseState::AwaitContent => {},
                    _ => {
                        pending.push(s[i]);
                    },
                }
                i += 1;
            },
        }
    }
    match state {
        ParseState::Outside => Some(result),
        _ => None,
    }
}

} // verus!
