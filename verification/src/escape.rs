//! Escaping of the five characters that HTML reserves, and its inverse.

use crate::text::{from_chars, has_at, occurs_at, push_all, to_chars};
use vstd::prelude::*;

verus! {

/// What stands for `c` in escaped text: an entity for each of `"`, `&`, `'`,
/// `<` and `>`, and every other character for itself.
pub open spec fn escape_char(c: char) -> Seq<char> {
    if c == '"' {
        "&quot;"@
    } else if c == '&' {
        "&amp;"@
    } else if c == '\'' {
        "&#39;"@
    } else if c == '<' {
        "&lt;"@
    } else if c == '>' {
        "&gt;"@
    } else {
        seq![c]
    }
}

/// `s` with each character escaped.
pub open spec fn escaped(s: Seq<char>) -> Seq<char>
    decreases s.len(),
{
    if s.len() == 0 {
        s
    } else {
        escape_char(s[0]) + escaped(s.drop_first())
    }
}

/// The entity that `s` begins with, as the character it stands for and its
/// length. The entities are tried in the order `&quot;`, `&amp;`, `&#39;`,
/// `&lt;`, `&gt;`.
pub open spec fn leading_entity(s: Seq<char>) -> Option<(char, int)> {
    if occurs_at(s, 0, "&quot;"@) {
        Some(('"', 6))
    } else if occurs_at(s, 0, "&amp;"@) {
        Some(('&', 5))
    } else if occurs_at(s, 0, "&#39;"@) {
        Some(('\'', 5))
    } else if occurs_at(s, 0, "&lt;"@) {
        Some(('<', 4))
    } else if occurs_at(s, 0, "&gt;"@) {
        Some(('>', 4))
    } else {
        None
    }
}

/// An entity is not empty and lies within `s`.
pub proof fn lemma_leading_entity(s: Seq<char>)
    ensures
        match leading_entity(s) {
            Some((_, n)) => 0 < n <= s.len(),
            None => true,
        },
{
    reveal_strlit("&quot;");
    reveal_strlit("&amp;");
    reveal_strlit("&#39;");
    reveal_strlit("&lt;");
    reveal_strlit("&gt;");
}

/// `s` with each entity, from left to right, replaced by its character. An
/// `&` that begins no entity stays.
pub open spec fn unescaped(s: Seq<char>) -> Seq<char>
    decreases s.len(),
{
    if s.len() == 0 {
        s
    } else {
        proof {
            lemma_leading_entity(s);
        }
        match leading_entity(s) {
            Some((c, n)) => seq![c] + unescaped(s.skip(n)),
            None => seq![s[0]] + unescaped(s.skip(1)),
        }
    }
}

/// Unescaping undoes escaping, whatever the text.
pub proof fn lemma_unescape_escape(s: Seq<char>)
    ensures
        unescaped(escaped(s)) == s,
    decreases s.len(),
{
    reveal_strlit("&quot;");
    reveal_strlit("&amp;");
    reveal_strlit("&#39;");
    reveal_strlit("&lt;");
    reveal_strlit("&gt;");
    if s.len() > 0 {
        let c = s[0];
        let rest = s.drop_first();
        let head = escape_char(c);
        let t = escaped(s);
        lemma_unescape_escape(rest);
        assert(t == head + escaped(rest));
        assert(t.skip(head.len() as int) == escaped(rest));
        assert(t.subrange(0, head.len() as int) == head);
        assert(s == seq![c] + rest);
        if c == '"' || c == '&' || c == '\'' || c == '<' || c == '>' {
            assert(t[1] == head[1]);
            assert(t[2] == head[2]);
            if occurs_at(t, 0, "&quot;"@) {
                assert(t.subrange(0, 6)[1] == 'q');
            }
            if occurs_at(t, 0, "&amp;"@) {
                assert(t.subrange(0, 5)[1] == 'a');
            }
            if occurs_at(t, 0, "&#39;"@) {
                assert(t.subrange(0, 5)[1] == '#');
            }
            if occurs_at(t, 0, "&lt;"@) {
                assert(t.subrange(0, 4)[1] == 'l');
            }
            if occurs_at(t, 0, "&gt;"@) {
                assert(t.subrange(0, 4)[1] == 'g');
            }
            assert(leading_entity(t) == Some((c, head.len() as int)));
        } else {
            assert(t[0] == c);
            if occurs_at(t, 0, "&quot;"@) {
                assert(t.subrange(0, 6)[0] == '&');
            }
            if occurs_at(t, 0, "&amp;"@) {
                assert(t.subrange(0, 5)[0] == '&');
            }
            if occurs_at(t, 0, "&#39;"@) {
                assert(t.subrange(0, 5)[0] == '&');
            }
            if occurs_at(t, 0, "&lt;"@) {
                assert(t.subrange(0, 4)[0] == '&');
            }
            if occurs_at(t, 0, "&gt;"@) {
                assert(t.subrange(0, 4)[0] == '&');
            }
            assert(leading_entity(t) is None);
        }
    }
}

/// Appends what stands for `c` in escaped text.
fn push_escaped(out: &mut Vec<char>, c: char)
    ensures
        final(out)@ == old(out)@ + escape_char(c),
{
    if c == '"' {
        push_all(out, to_chars("&quot;").as_slice());
    } else if c == '&' {
        push_all(out, to_chars("&amp;").as_slice());
    } else if c == '\'' {
        push_all(out, to_chars("&#39;").as_slice());
    } else if c == '<' {
        push_all(out, to_chars("&lt;").as_slice());
    } else if c == '>' {
        push_all(out, to_chars("&gt;").as_slice());
    } else {
        out.push(c);
        assert(out@ == old(out)@ + seq![c]);
    }
}

/// Escapes the characters of `s` into `out`.
pub fn escape_into(out: &mut Vec<char>, s: &[char])
    ensures
        final(out)@ == old(out)@ + escaped(s@),
{
    let mut i: usize = 0;
    assert(s@.skip(0) == s@);
    while i < s.len()
        invariant
            i <= s.len(),
            old(out)@ + escaped(s@) == out@ + escaped(s@.skip(i as int)),
        decreases s.len() - i,
    {
        assert(s@.skip(i as int).drop_first() == s@.skip(i + 1));
        let ghost before = out@;
        push_escaped(out, s[i]);
        assert(before + (escape_char(s@[i as int]) + escaped(s@.skip(i + 1))) == (before
            + escape_char(s@[i as int])) + escaped(s@.skip(i + 1)));
        i += 1;
    }
    assert(out@ + Seq::<char>::empty() == out@);
}

/// Escapes `s` for HTML.
pub fn html_escape(s: &str) -> (r: String)
    ensures
        r@ == escaped(s@),
{
    let chars = to_chars(s);
    let mut out: Vec<char> = Vec::new();
    escape_into(&mut out, chars.as_slice());
    assert(Seq::<char>::empty() + escaped(s@) == escaped(s@));
    from_chars(out.as_slice())
}

/// The entity that stands in `s` at `i`.
fn entity_at(s: &[char], i: usize) -> (found: Option<(char, usize)>)
    requires
        i < s.len(),
    ensures
        match found {
            Some((c, n)) => leading_entity(s@.skip(i as int)) == Some((c, n as int)) && 0 < n
                && i + n <= s.len(),
            None => leading_entity(s@.skip(i as int)) is None,
        },
{
    let quot = to_chars("&quot;");
    let amp = to_chars("&amp;");
    let apos = to_chars("&#39;");
    let lt = to_chars("&lt;");
    let gt = to_chars("&gt;");
    proof {
        reveal_strlit("&quot;");
        reveal_strlit("&amp;");
        reveal_strlit("&#39;");
        reveal_strlit("&lt;");
        reveal_strlit("&gt;");
        let t = s@.skip(i as int);
        assert forall|pat: Seq<char>| occurs_at(t, 0, pat) == occurs_at(s@, i as int, pat) by {
            if i + pat.len() <= s@.len() {
                assert(t.subrange(0, pat.len() as int) == s@.subrange(
                    i as int,
                    i + pat.len(),
                ));
            }
        }
    }
    if has_at(s, i, quot.as_slice()) {
        Some(('"', 6))
    } else if has_at(s, i, amp.as_slice()) {
        Some(('&', 5))
    } else if has_at(s, i, apos.as_slice()) {
        Some(('\'', 5))
    } else if has_at(s, i, lt.as_slice()) {
        Some(('<', 4))
    } else if has_at(s, i, gt.as_slice()) {
        Some(('>', 4))
    } else {
        None
    }
}

/// The characters of `s`, unescaped.
pub fn unescape_chars(s: &[char]) -> (out: Vec<char>)
    ensures
        out@ == unescaped(s@),
{
    let mut out: Vec<char> = Vec::new();
    let mut i: usize = 0;
    assert(s@.skip(0) == s@);
    while i < s.len()
        invariant
            i <= s.len(),
            unescaped(s@) == out@ + unescaped(s@.skip(i as int)),
        decreases s.len() - i,
    {
        let ghost before = out@;
        let ghost t = s@.skip(i as int);
        match entity_at(s, i) {
            Some((c, n)) => {
                out.push(c);
                assert(t.skip(n as int) == s@.skip(i + n));
                assert(before + (seq![c] + unescaped(t.skip(n as int))) == before.push(c)
                    + unescaped(t.skip(n as int)));
                i += n;
            },
            None => {
                out.push(s[i]);
                assert(t.skip(1) == s@.skip(i + 1));
                assert(before + (seq![t[0]] + unescaped(t.skip(1))) == before.push(t[0])
                    + unescaped(t.skip(1)));
                i += 1;
            },
        }
    }
    assert(out@ + Seq::<char>::empty() == out@);
    out
}

/// Takes the escaping of `html_escape` back.
pub fn html_unescape(s: &str) -> (r: String)
    ensures
        r@ == unescaped(s@),
{
    let chars = to_chars(s);
    let out = unescape_chars(chars.as_slice());
    from_chars(out.as_slice())
}

} // verus!
