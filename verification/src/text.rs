//! Text as sequences of characters: the conversions between strings and
//! character vectors, and the searching, trimming, splitting and number
//! formats that the rest of the library is built on.

use vstd::prelude::*;
use vstd::slice::slice_subrange;

verus! {

/// `String::push` of the standard library appends the character to the
/// string, as its documentation says; the contract claims no more.
pub assume_specification[ String::push ](s: &mut String, ch: char)
    ensures
        final(s)@ == old(s)@.push(ch),
;

/// The characters of `s`, one element each.
pub fn to_chars(s: &str) -> (v: Vec<char>)
    ensures
        v@ == s@,
{
    let mut v: Vec<char> = Vec::new();
    for c in it: s.chars()
        invariant
            it.seq() == s@,
            v@ == it.seq().take(it.index()),
    {
        v.push(c);
    }
    v
}

/// The string made of the characters of `v`.
pub fn from_chars(v: &[char]) -> (s: String)
    ensures
        s@ == v@,
{
    let mut s = String::new();
    let mut i: usize = 0;
    while i < v.len()
        invariant
            i <= v.len(),
            s@ == v@.take(i as int),
        decreases v.len() - i,
    {
        s.push(v[i]);
        i += 1;
    }
    s
}

/// What the strings of `v` hold, one for one.
pub open spec fn texts(v: Seq<String>) -> Seq<Seq<char>> {
    Seq::new(v.len(), |i: int| v[i]@)
}

/// Appends the characters of `part` to `out`.
pub fn push_all(out: &mut Vec<char>, part: &[char])
    ensures
        final(out)@ == old(out)@ + part@,
{
    let mut i: usize = 0;
    while i < part.len()
        invariant
            i <= part.len(),
            out@ == old(out)@ + part@.take(i as int),
        decreases part.len() - i,
    {
        out.push(part[i]);
        i += 1;
    }
}

/// Whether `a` and `b` hold the same characters.
pub fn same_chars(a: &[char], b: &[char]) -> (eq: bool)
    ensures
        eq == (a@ == b@),
{
    if a.len() != b.len() {
        return false;
    }
    let mut i: usize = 0;
    while i < a.len()
        invariant
            a.len() == b.len(),
            i <= a.len(),
            a@.take(i as int) == b@.take(i as int),
        decreases a.len() - i,
    {
        if a[i] != b[i] {
            return false;
        }
        assert(a@.take(i + 1) == a@.take(i as int).push(a@[i as int]));
        assert(b@.take(i + 1) == b@.take(i as int).push(b@[i as int]));
        i += 1;
    }
    assert(a@ == a@.take(a.len() as int));
    assert(b@ == b@.take(b.len() as int));
    true
}

/// Whether `pat` stands in `s` at index `i`.
pub open spec fn occurs_at(s: Seq<char>, i: int, pat: Seq<char>) -> bool {
    0 <= i && i + pat.len() <= s.len() && s.subrange(i, i + pat.len()) == pat
}

/// Tells whether `pat` stands in `s` at index `i`.
pub fn has_at(s: &[char], i: usize, pat: &[char]) -> (found: bool)
    ensures
        found == occurs_at(s@, i as int, pat@),
{
    if i > s.len() || pat.len() > s.len() - i {
        return false;
    }
    let mut k: usize = 0;
    while k < pat.len()
        invariant
            i + pat.len() <= s.len(),
            k <= pat.len(),
            s@.subrange(i as int, i + k) == pat@.take(k as int),
        decreases pat.len() - k,
    {
        if s[i + k] != pat[k] {
            assert(s@.subrange(i as int, i + pat.len())[k as int] != pat@[k as int]);
            return false;
        }
        assert(s@.subrange(i as int, i + k + 1) == s@.subrange(i as int, i + k).push(
            s@[i + k],
        ));
        assert(pat@.take(k + 1) == pat@.take(k as int).push(pat@[k as int]));
        k += 1;
    }
    assert(pat@ == pat@.take(pat.len() as int));
    true
}

/// The first index from `i` on at which `pat` stands in `s`.
pub open spec fn find_from(s: Seq<char>, i: int, pat: Seq<char>) -> Option<int>
    decreases s.len() + 1 - i,
{
    if i < 0 || i + pat.len() > s.len() {
        None
    } else if occurs_at(s, i, pat) {
        Some(i)
    } else {
        find_from(s, i + 1, pat)
    }
}

/// What `find_from` finds is an occurrence, and the first one from `i` on.
pub proof fn lemma_find_from(s: Seq<char>, i: int, pat: Seq<char>)
    ensures
        match find_from(s, i, pat) {
            Some(j) => i <= j && occurs_at(s, j, pat) && forall|k: int|
                i <= k < j ==> !occurs_at(s, k, pat),
            None => forall|k: int| 0 <= i <= k ==> !occurs_at(s, k, pat),
        },
    decreases s.len() + 1 - i,
{
    if i < 0 || i + pat.len() > s.len() {
    } else if occurs_at(s, i, pat) {
    } else {
        lemma_find_from(s, i + 1, pat);
    }
}

/// Searches `s` from index `i` on for `pat`.
pub fn find(s: &[char], i: usize, pat: &[char]) -> (at: Option<usize>)
    ensures
        match at {
            Some(j) => find_from(s@, i as int, pat@) == Some(j as int),
            None => find_from(s@, i as int, pat@) is None,
        },
{
    if i > s.len() || pat.len() > s.len() - i {
        return None;
    }
    if pat.len() == 0 {
        assert(s@.subrange(i as int, i as int) == pat@);
        return Some(i);
    }
    let mut j: usize = i;
    while j <= s.len() - pat.len()
        invariant
            i <= j,
            0 < pat.len() <= s.len(),
            find_from(s@, i as int, pat@) == find_from(s@, j as int, pat@),
        decreases s.len() - j,
    {
        if has_at(s, j, pat) {
            return Some(j);
        }
        j += 1;
    }
    None
}

/// The characters that Unicode gives the property White_Space.
pub open spec fn is_space(c: char) -> bool {
    let n = c as u32;
    (0x09 <= n <= 0x0d) || n == 0x20 || n == 0x85 || n == 0xa0 || n == 0x1680 || (0x2000 <= n
        <= 0x200a) || n == 0x2028 || n == 0x2029 || n == 0x202f || n == 0x205f || n == 0x3000
}

/// Whether `c` is white space.
#[verifier::when_used_as_spec(is_space)]
pub fn is_whitespace(c: char) -> (b: bool)
    ensures
        b == is_space(c),
{
    let n = c as u32;
    (0x09 <= n && n <= 0x0d) || n == 0x20 || n == 0x85 || n == 0xa0 || n == 0x1680 || (0x2000 <= n
        && n <= 0x200a) || n == 0x2028 || n == 0x2029 || n == 0x202f || n == 0x205f || n == 0x3000
}

/// `s` without its leading white space.
pub open spec fn trim_start(s: Seq<char>) -> Seq<char>
    decreases s.len(),
{
    if s.len() > 0 && is_space(s[0]) {
        trim_start(s.drop_first())
    } else {
        s
    }
}

/// `s` without its trailing white space.
pub open spec fn trim_end(s: Seq<char>) -> Seq<char>
    decreases s.len(),
{
    if s.len() > 0 && is_space(s.last()) {
        trim_end(s.drop_last())
    } else {
        s
    }
}

/// `s` without its leading and trailing white space.
pub open spec fn trimmed(s: Seq<char>) -> Seq<char> {
    trim_end(trim_start(s))
}

/// Trimming leaves a stretch of the text.
pub proof fn lemma_trimmed_is_stretch(s: Seq<char>) -> (r: (int, int))
    ensures
        0 <= r.0 <= r.1 <= s.len(),
        trimmed(s) == s.subrange(r.0, r.1),
{
    let a = lemma_trim_start_is_suffix(s);
    let t = s.skip(a);
    let b = lemma_trim_end_is_prefix(t);
    assert(t.take(b) == s.subrange(a, a + b));
    (a, a + b)
}

/// Trimming at the front leaves the text from some index on.
pub proof fn lemma_trim_start_is_suffix(s: Seq<char>) -> (a: int)
    ensures
        0 <= a <= s.len(),
        trim_start(s) == s.skip(a),
    decreases s.len(),
{
    if s.len() > 0 && is_space(s[0]) {
        let a = lemma_trim_start_is_suffix(s.drop_first());
        assert(s.drop_first().skip(a) == s.skip(a + 1));
        a + 1
    } else {
        assert(s.skip(0) == s);
        0
    }
}

/// Trimming at the back leaves the text up to some index.
pub proof fn lemma_trim_end_is_prefix(s: Seq<char>) -> (b: int)
    ensures
        0 <= b <= s.len(),
        trim_end(s) == s.take(b),
    decreases s.len(),
{
    if s.len() > 0 && is_space(s.last()) {
        let b = lemma_trim_end_is_prefix(s.drop_last());
        assert(s.drop_last().take(b) == s.take(b));
        b
    } else {
        assert(s.take(s.len() as int) == s);
        s.len() as int
    }
}

/// The stretch of `s` without the white space around it.
pub fn trim(s: &[char]) -> (t: &[char])
    ensures
        t@ == trimmed(s@),
{
    let mut a: usize = 0;
    assert(s@.skip(0) == s@);
    while a < s.len() && is_whitespace(s[a])
        invariant
            a <= s.len(),
            trim_start(s@) == trim_start(s@.skip(a as int)),
        decreases s.len() - a,
    {
        assert(s@.skip(a as int).drop_first() == s@.skip(a + 1));
        a += 1;
    }
    assert(trim_start(s@) == s@.skip(a as int));
    let mut b: usize = s.len();
    assert(s@.skip(a as int) == s@.subrange(a as int, b as int));
    while b > a && is_whitespace(s[b - 1])
        invariant
            a <= b <= s.len(),
            trimmed(s@) == trim_end(s@.subrange(a as int, b as int)),
        decreases b,
    {
        assert(s@.subrange(a as int, b as int).drop_last() == s@.subrange(a as int, b - 1));
        b -= 1;
    }
    slice_subrange(s, a, b)
}

/// What the vectors of `v` hold, one for one.
pub open spec fn rows(v: Seq<Vec<char>>) -> Seq<Seq<char>> {
    Seq::new(v.len(), |i: int| v[i]@)
}

/// The pieces of `s` from index `start` on that lie between the occurrences
/// of `sep`, found from left to right. There is always a last piece, which
/// may be empty. An empty `sep` separates nothing.
pub open spec fn split_from(s: Seq<char>, start: int, sep: Seq<char>) -> Seq<Seq<char>>
    decreases s.len() - start,
{
    match find_from(s, start, sep) {
        Some(j) => if sep.len() > 0 {
            proof {
                lemma_find_from(s, start, sep);
            }
            seq![s.subrange(start, j)] + split_from(s, j + sep.len(), sep)
        } else {
            seq![s.subrange(start, s.len() as int)]
        },
        None => seq![s.subrange(start, s.len() as int)],
    }
}

/// The pieces of `s` between the occurrences of `sep`.
pub open spec fn split(s: Seq<char>, sep: Seq<char>) -> Seq<Seq<char>> {
    split_from(s, 0, sep)
}

/// Splits `s` at the occurrences of `sep`.
pub fn split_chars(s: &[char], sep: &[char]) -> (pieces: Vec<Vec<char>>)
    ensures
        rows(pieces@) == split(s@, sep@),
{
    let mut pieces: Vec<Vec<char>> = Vec::new();
    let mut start: usize = 0;
    assert(rows(pieces@) == Seq::<Seq<char>>::empty());
    if sep.len() > 0 {
        loop
            invariant_except_break
                start <= s.len(),
                sep.len() > 0,
                split(s@, sep@) == rows(pieces@) + split_from(s@, start as int, sep@),
            ensures
                start <= s.len(),
                split(s@, sep@) == rows(pieces@) + seq![s@.subrange(start as int, s.len() as int)],
            decreases s.len() - start,
        {
            let ghost before = rows(pieces@);
            proof {
                lemma_find_from(s@, start as int, sep@);
            }
            match find(s, start, sep) {
                Some(j) => {
                    let ghost rest = split_from(s@, j + sep.len(), sep@);
                    let mut piece: Vec<char> = Vec::new();
                    push_all(&mut piece, slice_subrange(s, start, j));
                    assert(piece@ == s@.subrange(start as int, j as int));
                    pieces.push(piece);
                    assert(rows(pieces@) == before.push(s@.subrange(start as int, j as int)));
                    assert(before + (seq![s@.subrange(start as int, j as int)] + rest) == rows(
                        pieces@,
                    ) + rest);
                    start = j + sep.len();
                },
                None => {
                    break ;
                },
            }
        }
    }
    let ghost before = rows(pieces@);
    let mut piece: Vec<char> = Vec::new();
    push_all(&mut piece, slice_subrange(s, start, s.len()));
    assert(piece@ == s@.subrange(start as int, s.len() as int));
    pieces.push(piece);
    assert(rows(pieces@) == before.push(s@.subrange(start as int, s.len() as int)));
    pieces
}

/// `s` from index `i` on, with each occurrence of `pat`, found from left to
/// right, replaced by `with`. An empty `pat` occurs nowhere.
pub open spec fn replace_from(s: Seq<char>, i: int, pat: Seq<char>, with: Seq<char>) -> Seq<char>
    decreases s.len() - i,
{
    if i < 0 || i >= s.len() {
        Seq::empty()
    } else if pat.len() > 0 && occurs_at(s, i, pat) {
        with + replace_from(s, i + pat.len(), pat, with)
    } else {
        seq![s[i]] + replace_from(s, i + 1, pat, with)
    }
}

/// `s` with each occurrence of `pat` replaced by `with`.
pub open spec fn replaced(s: Seq<char>, pat: Seq<char>, with: Seq<char>) -> Seq<char> {
    replace_from(s, 0, pat, with)
}

/// Replaces each occurrence of `pat` in `s` by `with`.
pub fn replace(s: &[char], pat: &[char], with: &[char]) -> (out: Vec<char>)
    ensures
        out@ == replaced(s@, pat@, with@),
{
    let mut out: Vec<char> = Vec::new();
    let mut i: usize = 0;
    while i < s.len()
        invariant
            i <= s.len(),
            replaced(s@, pat@, with@) == out@ + replace_from(s@, i as int, pat@, with@),
        decreases s.len() - i,
    {
        let ghost before = out@;
        if pat.len() > 0 && has_at(s, i, pat) {
            let ghost rest = replace_from(s@, i + pat.len(), pat@, with@);
            push_all(&mut out, with);
            assert(before + (with@ + rest) == out@ + rest);
            i += pat.len();
        } else {
            let ghost rest = replace_from(s@, i + 1, pat@, with@);
            out.push(s[i]);
            assert(before + (seq![s@[i as int]] + rest) == out@ + rest);
            i += 1;
        }
    }
    assert(out@ + Seq::<char>::empty() == out@);
    out
}

/// Each of `lines` without the white space around it, but for those of
/// which nothing is left.
pub open spec fn nonblank(lines: Seq<Seq<char>>) -> Seq<Seq<char>>
    decreases lines.len(),
{
    if lines.len() == 0 {
        lines
    } else if trimmed(lines.last()).len() == 0 {
        nonblank(lines.drop_last())
    } else {
        nonblank(lines.drop_last()).push(trimmed(lines.last()))
    }
}

/// The lines of `s` that hold more than white space, each without the white
/// space around it. Lines end at a line feed; a carriage return is white
/// space.
pub open spec fn nonblank_lines(s: Seq<char>) -> Seq<Seq<char>> {
    nonblank(split(s, seq!['\n']))
}

/// The lines of `s` that hold more than white space.
pub fn nonblank_lines_of(s: &[char]) -> (lines: Vec<Vec<char>>)
    ensures
        rows(lines@) == nonblank_lines(s@),
{
    let mut sep: Vec<char> = Vec::new();
    sep.push('\n');
    assert(sep@ == seq!['\n']);
    let all = split_chars(s, sep.as_slice());
    let mut lines: Vec<Vec<char>> = Vec::new();
    let mut i: usize = 0;
    assert(rows(all@).take(0) == Seq::<Seq<char>>::empty());
    assert(rows(lines@) == Seq::<Seq<char>>::empty());
    while i < all.len()
        invariant
            i <= all.len(),
            rows(lines@) == nonblank(rows(all@).take(i as int)),
        decreases all.len() - i,
    {
        let ghost before = rows(lines@);
        assert(rows(all@).take(i + 1).drop_last() == rows(all@).take(i as int));
        assert(rows(all@).take(i + 1).last() == all@[i as int]@);
        let line = trim(all[i].as_slice());
        if line.len() > 0 {
            let mut kept: Vec<char> = Vec::new();
            push_all(&mut kept, line);
            assert(kept@ == line@);
            lines.push(kept);
            assert(rows(lines@) == before.push(line@));
        }
        i += 1;
    }
    assert(rows(all@).take(all.len() as int) == rows(all@));
    lines
}

} // verus!
