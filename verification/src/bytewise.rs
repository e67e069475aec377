//! Escaping seen byte by byte. A text is stored in UTF-8, and the five
//! characters that are escaped are single bytes there which occur in no
//! longer character: so escaping the characters of a text and escaping the
//! bytes of its UTF-8 form come to the same.

use crate::escape::{escape_char, escaped, leading_entity, lemma_leading_entity, unescaped};
use crate::text::occurs_at;
use vstd::prelude::*;
use vstd::utf8::*;

verus! {

/// What stands for the byte `b` in escaped text.
pub open spec fn escape_byte(b: u8) -> Seq<u8> {
    if b == 0x22 {
        encode_utf8("&quot;"@)
    } else if b == 0x26 {
        encode_utf8("&amp;"@)
    } else if b == 0x27 {
        encode_utf8("&#39;"@)
    } else if b == 0x3c {
        encode_utf8("&lt;"@)
    } else if b == 0x3e {
        encode_utf8("&gt;"@)
    } else {
        seq![b]
    }
}

/// `bytes` with each byte escaped.
pub open spec fn escaped_bytes(bytes: Seq<u8>) -> Seq<u8>
    decreases bytes.len(),
{
    if bytes.len() == 0 {
        bytes
    } else {
        escape_byte(bytes[0]) + escaped_bytes(bytes.drop_first())
    }
}

/// The UTF-8 form of two texts in a row is their UTF-8 forms in a row.
pub proof fn lemma_encode_concat(a: Seq<char>, b: Seq<char>)
    ensures
        encode_utf8(a + b) == encode_utf8(a) + encode_utf8(b),
    decreases a.len(),
{
    if a.len() == 0 {
        assert(a + b == b);
        assert(encode_utf8(a) + encode_utf8(b) == encode_utf8(b));
    } else {
        assert((a + b).drop_first() == a.drop_first() + b);
        lemma_encode_concat(a.drop_first(), b);
        assert(encode_utf8(a + b) == encode_scalar(a[0] as u32) + (encode_utf8(a.drop_first())
            + encode_utf8(b)));
    }
}

/// Escaping two stretches of bytes in a row escapes each.
pub proof fn lemma_escaped_bytes_concat(a: Seq<u8>, b: Seq<u8>)
    ensures
        escaped_bytes(a + b) == escaped_bytes(a) + escaped_bytes(b),
    decreases a.len(),
{
    if a.len() == 0 {
        assert(a + b == b);
        assert(escaped_bytes(a) + escaped_bytes(b) == escaped_bytes(b));
    } else {
        assert((a + b).drop_first() == a.drop_first() + b);
        lemma_escaped_bytes_concat(a.drop_first(), b);
        assert(escaped_bytes(a + b) == escape_byte(a[0]) + (escaped_bytes(a.drop_first())
            + escaped_bytes(b)));
    }
}

/// Each of `bytes` is 0x80 or more, as the bytes of the characters beyond
/// ASCII are.
pub open spec fn all_high(bytes: Seq<u8>) -> bool {
    forall|i: int| 0 <= i < bytes.len() ==> #[trigger] bytes[i] >= 0x80
}

/// Bytes from 0x80 on stay as they are.
pub proof fn lemma_high_bytes_stay(bytes: Seq<u8>)
    requires
        all_high(bytes),
    ensures
        escaped_bytes(bytes) == bytes,
    decreases bytes.len(),
{
    if bytes.len() > 0 {
        assert(bytes[0] >= 0x80);
        assert forall|i: int| 0 <= i < bytes.drop_first().len() implies #[trigger] bytes.drop_first()[i]
            >= 0x80 by {
            assert(bytes.drop_first()[i] == bytes[i + 1]);
        }
        lemma_high_bytes_stay(bytes.drop_first());
        assert(seq![bytes[0]] + bytes.drop_first() == bytes);
    }
}

/// A character below 0x80 is one byte, itself; of any other character all
/// bytes are 0x80 or more.
pub proof fn lemma_bytes_of_char(c: char)
    ensures
        (c as u32) < 0x80 ==> encode_scalar(c as u32) == seq![c as u8],
        (c as u32) >= 0x80 ==> all_high(encode_scalar(c as u32)),
{
    let s = c as u32;
    assert(s < 0x80 ==> (s & 0x7F) as u8 == s as u8) by (bit_vector);
    assert((0xC0 | ((s >> 6) & 0x1F) as u8) >= 0x80) by (bit_vector);
    assert((0xE0 | ((s >> 12) & 0x0F) as u8) >= 0x80) by (bit_vector);
    assert((0xF0 | ((s >> 18) & 0x7) as u8) >= 0x80) by (bit_vector);
    assert((0x80 | (s & 0x3F) as u8) >= 0x80) by (bit_vector);
    assert((0x80 | ((s >> 6) & 0x3F) as u8) >= 0x80) by (bit_vector);
    assert((0x80 | ((s >> 12) & 0x3F) as u8) >= 0x80) by (bit_vector);
}

/// Escaping one character is escaping its bytes.
pub proof fn lemma_escape_char_is_bytewise(c: char)
    ensures
        encode_utf8(escape_char(c)) == escaped_bytes(encode_scalar(c as u32)),
{
    let bytes = encode_scalar(c as u32);
    lemma_bytes_of_char(c);
    assert(escaped_bytes(Seq::<u8>::empty()) == Seq::<u8>::empty());
    assert(encode_utf8(Seq::<char>::empty()) == Seq::<u8>::empty());
    assert(seq![c][0] == c);
    if (c as u32) < 0x80 {
        assert(bytes[0] == c as u8);
        assert(bytes.drop_first() == Seq::<u8>::empty());
        assert(escaped_bytes(bytes) == escape_byte(c as u8) + Seq::<u8>::empty());
        assert(escape_byte(c as u8) + Seq::<u8>::empty() == escape_byte(c as u8));
        if c == '"' || c == '&' || c == '\'' || c == '<' || c == '>' {
        } else {
            assert(seq![c].drop_first() == Seq::<char>::empty());
            assert(encode_utf8(seq![c]) == bytes + Seq::<u8>::empty());
        }
    } else {
        lemma_high_bytes_stay(bytes);
        assert(seq![c].drop_first() == Seq::<char>::empty());
        assert(encode_utf8(seq![c]) == bytes + Seq::<u8>::empty());
        assert(bytes + Seq::<u8>::empty() == bytes);
    }
}

/// The UTF-8 form of an escaped text is the UTF-8 form of the text, escaped
/// byte by byte.
pub proof fn lemma_escape_is_bytewise(s: Seq<char>)
    ensures
        encode_utf8(escaped(s)) == escaped_bytes(encode_utf8(s)),
    decreases s.len(),
{
    if s.len() > 0 {
        let rest = s.drop_first();
        lemma_escape_is_bytewise(rest);
        lemma_escape_char_is_bytewise(s[0]);
        lemma_encode_concat(escape_char(s[0]), escaped(rest));
        lemma_escaped_bytes_concat(encode_scalar(s[0] as u32), encode_utf8(rest));
    }
}

/// Whether `bytes` begins with `pat`.
pub open spec fn begins_with(bytes: Seq<u8>, pat: Seq<u8>) -> bool {
    pat.len() <= bytes.len() && bytes.subrange(0, pat.len() as int) == pat
}

/// The entity that `bytes` begins with, as the byte it stands for and its
/// length, the entities tried in their order.
pub open spec fn leading_entity_bytes(bytes: Seq<u8>) -> Option<(u8, int)> {
    if begins_with(bytes, encode_utf8("&quot;"@)) {
        Some((0x22, 6))
    } else if begins_with(bytes, encode_utf8("&amp;"@)) {
        Some((0x26, 5))
    } else if begins_with(bytes, encode_utf8("&#39;"@)) {
        Some((0x27, 5))
    } else if begins_with(bytes, encode_utf8("&lt;"@)) {
        Some((0x3c, 4))
    } else if begins_with(bytes, encode_utf8("&gt;"@)) {
        Some((0x3e, 4))
    } else {
        None
    }
}

/// The entities are ASCII: in UTF-8 each is as long as it has characters,
/// and begins with the byte of `&`.
pub proof fn lemma_entity_bytes()
    ensures
        encode_utf8("&quot;"@).len() == 6 && encode_utf8("&quot;"@)[0] == 0x26,
        encode_utf8("&amp;"@).len() == 5 && encode_utf8("&amp;"@)[0] == 0x26,
        encode_utf8("&#39;"@).len() == 5 && encode_utf8("&#39;"@)[0] == 0x26,
        encode_utf8("&lt;"@).len() == 4 && encode_utf8("&lt;"@)[0] == 0x26,
        encode_utf8("&gt;"@).len() == 4 && encode_utf8("&gt;"@)[0] == 0x26,
        is_ascii_chars("&quot;"@),
        is_ascii_chars("&amp;"@),
        is_ascii_chars("&#39;"@),
        is_ascii_chars("&lt;"@),
        is_ascii_chars("&gt;"@),
{
    reveal_strlit("&quot;");
    reveal_strlit("&amp;");
    reveal_strlit("&#39;");
    reveal_strlit("&lt;");
    reveal_strlit("&gt;");
    is_ascii_chars_encode_utf8("&quot;"@);
    is_ascii_chars_encode_utf8("&amp;"@);
    is_ascii_chars_encode_utf8("&#39;"@);
    is_ascii_chars_encode_utf8("&lt;"@);
    is_ascii_chars_encode_utf8("&gt;"@);
    assert("&quot;"@[0] as u8 == encode_utf8("&quot;"@)[0]);
    assert("&amp;"@[0] as u8 == encode_utf8("&amp;"@)[0]);
    assert("&#39;"@[0] as u8 == encode_utf8("&#39;"@)[0]);
    assert("&lt;"@[0] as u8 == encode_utf8("&lt;"@)[0]);
    assert("&gt;"@[0] as u8 == encode_utf8("&gt;"@)[0]);
}

/// `bytes` with each entity, from left to right, replaced by its byte.
pub open spec fn unescaped_bytes(bytes: Seq<u8>) -> Seq<u8>
    decreases bytes.len(),
{
    if bytes.len() == 0 {
        bytes
    } else {
        proof {
            lemma_entity_bytes();
        }
        match leading_entity_bytes(bytes) {
            Some((b, n)) => seq![b] + unescaped_bytes(bytes.skip(n)),
            None => seq![bytes[0]] + unescaped_bytes(bytes.skip(1)),
        }
    }
}

/// A text begins with an ASCII pattern where its UTF-8 form begins with
/// that of the pattern, and nowhere else.
pub proof fn lemma_begins_with_ascii(s: Seq<char>, pat: Seq<char>)
    requires
        is_ascii_chars(pat),
    ensures
        begins_with(encode_utf8(s), encode_utf8(pat)) <==> occurs_at(s, 0, pat),
    decreases pat.len(),
{
    let bytes = encode_utf8(s);
    let pat_bytes = encode_utf8(pat);
    is_ascii_chars_encode_utf8(pat);
    if pat.len() == 0 {
        assert(s.subrange(0, 0) == pat);
        assert(bytes.subrange(0, 0) == pat_bytes);
    } else if s.len() == 0 {
    } else {
        let c = s[0];
        let p = pat[0];
        lemma_bytes_of_char(c);
        lemma_bytes_of_char(p);
        assert(p as u32 <= 0x7f);
        assert forall|i: int| 0 <= i < pat.drop_first().len() implies '\0'
            <= #[trigger] pat.drop_first()[i] <= '\u{7f}' by {
            assert(pat.drop_first()[i] == pat[i + 1]);
        }
        lemma_begins_with_ascii(s.drop_first(), pat.drop_first());
        let rest = encode_utf8(s.drop_first());
        let pat_rest = encode_utf8(pat.drop_first());
        assert(bytes == encode_scalar(c as u32) + rest);
        assert(pat_bytes == seq![p as u8] + pat_rest);
        if occurs_at(s, 0, pat) {
            assert(s.subrange(0, pat.len() as int)[0] == p);
            assert(s.drop_first().subrange(0, pat.len() - 1) == pat.drop_first()) by {
                assert forall|i: int| 0 <= i < pat.len() - 1 implies s.drop_first().subrange(
                    0,
                    pat.len() - 1,
                )[i] == pat.drop_first()[i] by {
                    assert(s.subrange(0, pat.len() as int)[i + 1] == pat[i + 1]);
                }
            }
            assert(bytes.subrange(0, pat_bytes.len() as int) == pat_bytes) by {
                assert forall|i: int| 0 <= i < pat_bytes.len() implies bytes.subrange(
                    0,
                    pat_bytes.len() as int,
                )[i] == pat_bytes[i] by {
                    if i > 0 {
                        assert(rest.subrange(0, pat_rest.len() as int)[i - 1] == pat_rest[i - 1]);
                    }
                }
            }
        }
        if begins_with(bytes, pat_bytes) {
            assert(bytes.subrange(0, pat_bytes.len() as int)[0] == pat_bytes[0]);
            assert(bytes[0] < 0x80);
            if (c as u32) >= 0x80 {
                assert(encode_scalar(c as u32)[0] >= 0x80);
            }
            assert(bytes[0] == c as u8);
            assert(pat_bytes[0] == p as u8);
            assert((c as u32) < 0x80);
            assert(c as u8 == p as u8);
            lemma_same_ascii(c, p);
            assert(rest.subrange(0, pat_rest.len() as int) == pat_rest) by {
                assert forall|i: int| 0 <= i < pat_rest.len() implies rest.subrange(
                    0,
                    pat_rest.len() as int,
                )[i] == pat_rest[i] by {
                    assert(bytes.subrange(0, pat_bytes.len() as int)[i + 1] == pat_bytes[i + 1]);
                }
            }
            assert(s.subrange(0, pat.len() as int) == pat) by {
                assert forall|i: int| 0 <= i < pat.len() implies s.subrange(
                    0,
                    pat.len() as int,
                )[i] == pat[i] by {
                    if i > 0 {
                        assert(s.drop_first().subrange(0, pat.len() - 1)[i - 1]
                            == pat.drop_first()[i - 1]);
                    }
                }
            }
        }
    }
}

/// Two ASCII characters of one byte are one character.
proof fn lemma_same_ascii(c: char, p: char)
    requires
        (c as u32) < 0x80,
        (p as u32) < 0x80,
        c as u8 == p as u8,
    ensures
        c == p,
{
    char_u32_cast(c, c as u32);
    char_u32_cast(p, p as u32);
}

/// The entity that a text begins with is the one that its UTF-8 form
/// begins with.
pub proof fn lemma_leading_entity_is_bytewise(s: Seq<char>)
    ensures
        match leading_entity(s) {
            Some((c, n)) => leading_entity_bytes(encode_utf8(s)) == Some((c as u8, n)),
            None => leading_entity_bytes(encode_utf8(s)) is None,
        },
{
    lemma_entity_bytes();
    lemma_begins_with_ascii(s, "&quot;"@);
    lemma_begins_with_ascii(s, "&amp;"@);
    lemma_begins_with_ascii(s, "&#39;"@);
    lemma_begins_with_ascii(s, "&lt;"@);
    lemma_begins_with_ascii(s, "&gt;"@);
}

/// Bytes from 0x80 on begin no entity and stay as they are.
pub proof fn lemma_high_bytes_pass(high: Seq<u8>, tail: Seq<u8>)
    requires
        all_high(high),
    ensures
        unescaped_bytes(high + tail) == high + unescaped_bytes(tail),
    decreases high.len(),
{
    if high.len() == 0 {
        assert(high + tail == tail);
        assert(high + unescaped_bytes(tail) == unescaped_bytes(tail));
    } else {
        let all = high + tail;
        lemma_entity_bytes();
        assert(all[0] == high[0]);
        assert(high[0] >= 0x80);
        assert forall|pat: Seq<u8>| pat.len() > 0 && pat[0] == 0x26 implies !begins_with(
            all,
            pat,
        ) by {
            if begins_with(all, pat) {
                assert(all.subrange(0, pat.len() as int)[0] == pat[0]);
            }
        }
        assert(leading_entity_bytes(all) is None);
        assert(all.skip(1) == high.drop_first() + tail);
        assert forall|i: int| 0 <= i < high.drop_first().len() implies #[trigger] high.drop_first()[i]
            >= 0x80 by {
            assert(high.drop_first()[i] == high[i + 1]);
        }
        lemma_high_bytes_pass(high.drop_first(), tail);
        assert(seq![high[0]] + (high.drop_first() + unescaped_bytes(tail)) == high
            + unescaped_bytes(tail));
    }
}

/// The UTF-8 form of an unescaped text is the UTF-8 form of the text,
/// unescaped byte by byte.
pub proof fn lemma_unescape_is_bytewise(s: Seq<char>)
    ensures
        encode_utf8(unescaped(s)) == unescaped_bytes(encode_utf8(s)),
    decreases s.len(),
{
    let bytes = encode_utf8(s);
    if s.len() > 0 {
        lemma_leading_entity(s);
        lemma_leading_entity_is_bytewise(s);
        lemma_entity_bytes();
        match leading_entity(s) {
            Some((c, n)) => {
                let entity = s.subrange(0, n);
                let rest = s.skip(n);
                assert(s == entity + rest);
                lemma_encode_concat(entity, rest);
                assert(encode_utf8(entity).len() == n) by {
                    reveal_strlit("&quot;");
                    reveal_strlit("&amp;");
                    reveal_strlit("&#39;");
                    reveal_strlit("&lt;");
                    reveal_strlit("&gt;");
                    if occurs_at(s, 0, "&quot;"@) {
                        assert(entity == "&quot;"@);
                    } else if occurs_at(s, 0, "&amp;"@) {
                        assert(entity == "&amp;"@);
                    } else if occurs_at(s, 0, "&#39;"@) {
                        assert(entity == "&#39;"@);
                    } else if occurs_at(s, 0, "&lt;"@) {
                        assert(entity == "&lt;"@);
                    } else {
                        assert(entity == "&gt;"@);
                    }
                }
                assert(bytes.skip(n) == encode_utf8(rest));
                lemma_unescape_is_bytewise(rest);
                lemma_encode_concat(seq![c], unescaped(rest));
                lemma_bytes_of_char(c);
                assert(seq![c].drop_first() == Seq::<char>::empty());
                assert(encode_utf8(Seq::<char>::empty()) == Seq::<u8>::empty());
                assert(encode_utf8(seq![c]) == seq![c as u8] + Seq::<u8>::empty());
                assert(seq![c as u8] + Seq::<u8>::empty() == seq![c as u8]);
            },
            None => {
                let c = s[0];
                let rest = s.skip(1);
                assert(rest == s.drop_first());
                lemma_unescape_is_bytewise(rest);
                lemma_encode_concat(seq![c], unescaped(rest));
                lemma_bytes_of_char(c);
                assert(seq![c].drop_first() == Seq::<char>::empty());
                assert(encode_utf8(Seq::<char>::empty()) == Seq::<u8>::empty());
                assert(encode_utf8(seq![c]) == encode_scalar(c as u32) + Seq::<u8>::empty());
                assert(encode_scalar(c as u32) + Seq::<u8>::empty() == encode_scalar(c as u32));
                if (c as u32) < 0x80 {
                    assert(bytes[0] == c as u8);
                    assert(bytes.skip(1) == encode_utf8(rest));
                } else {
                    lemma_high_bytes_pass(encode_scalar(c as u32), encode_utf8(rest));
                }
            },
        }
    } else {
        assert(unescaped(s) == s);
    }
}

} // verus!
