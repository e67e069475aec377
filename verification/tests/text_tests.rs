use blog_builder::escape::{html_escape, html_unescape};
use blog_builder::hlf_parser::{match_str, match_type, parse, HlfType, Symbol, HLF};
use blog_builder::latex::{extract_latex, insert_latex};
use blog_builder::number::{parse_i64, to_decimal};
use blog_builder::shared::path_title;
use blog_builder::text::{
    find, from_chars, has_at, is_whitespace, nonblank_lines_of, replace, same_chars, split_chars,
    to_chars, trim,
};

fn strings(v: Vec<Vec<char>>) -> Vec<String> {
    v.iter().map(|x| from_chars(x)).collect()
}

#[test]
fn characters_and_strings_convert() {
    assert_eq!(to_chars("a\u{4e2d}b"), vec!['a', '\u{4e2d}', 'b']);
    assert_eq!(from_chars(&['a', '\u{1f600}']), "a\u{1f600}");
    assert_eq!(from_chars(&to_chars("")), "");
    assert!(same_chars(&to_chars("ab"), &to_chars("ab")));
    assert!(!same_chars(&to_chars("ab"), &to_chars("abc")));
    assert!(!same_chars(&to_chars("ab"), &to_chars("ac")));
}

#[test]
fn white_space_is_what_unicode_says() {
    let mut n: u32 = 0;
    while n <= 0x10ffff {
        if let Some(c) = char::from_u32(n) {
            assert_eq!(is_whitespace(c), c.is_whitespace());
        }
        n += 1;
    }
}

#[test]
fn trim_takes_white_space_from_both_ends() {
    assert_eq!(from_chars(trim(&to_chars(" \t a b \r\n"))), "a b");
    assert_eq!(from_chars(trim(&to_chars("\u{3000}x\u{a0}"))), "x");
    assert_eq!(from_chars(trim(&to_chars("  \n "))), "");
    assert_eq!(from_chars(trim(&to_chars(""))), "");
    assert_eq!(from_chars(trim(&to_chars("x"))), "x");
}

#[test]
fn search_finds_the_first_occurrence() {
    let s = to_chars("abcabc");
    assert!(has_at(&s, 3, &to_chars("abc")));
    assert!(!has_at(&s, 4, &to_chars("abc")));
    assert!(!has_at(&s, 7, &to_chars("")));
    assert!(has_at(&s, 6, &to_chars("")));
    assert_eq!(find(&s, 0, &to_chars("bc")), Some(1));
    assert_eq!(find(&s, 2, &to_chars("bc")), Some(4));
    assert_eq!(find(&s, 5, &to_chars("bc")), None);
    assert_eq!(find(&s, 6, &to_chars("")), Some(6));
    assert_eq!(find(&s, 7, &to_chars("")), None);
    assert_eq!(match_str(&s, 3, &to_chars("abc")), Some(6));
    assert_eq!(match_str(&s, 2, &to_chars("abc")), None);
}

#[test]
fn split_gives_the_pieces_between_separators() {
    let parts = |s: &str, sep: &str| strings(split_chars(&to_chars(s), &to_chars(sep)));
    assert_eq!(parts("a---b---c", "---"), "a---b---c".split("---").collect::<Vec<_>>());
    assert_eq!(parts("a----b", "---"), vec!["a", "-b"]);
    assert_eq!(parts("", "/"), vec![""]);
    assert_eq!(parts("/", "/"), vec!["", ""]);
    assert_eq!(parts("a/", "/"), vec!["a", ""]);
    assert_eq!(parts("2000/9/27", "/"), vec!["2000", "9", "27"]);
    assert_eq!(parts("abc", ""), vec!["abc"]);
    assert_eq!(
        strings(nonblank_lines_of(&to_chars(" a \r\n\n\t\nb\n  "))),
        vec!["a", "b"]
    );
    assert_eq!(strings(nonblank_lines_of(&to_chars(""))), Vec::<String>::new());
}

#[test]
fn replace_takes_occurrences_from_the_left() {
    let r = |s: &str, p: &str, w: &str| from_chars(&replace(&to_chars(s), &to_chars(p), &to_chars(w)));
    assert_eq!(r("aaa", "aa", "b"), "aaa".replace("aa", "b"));
    assert_eq!(r("x_slot_y_slot_", "_slot_", "!"), "x!y!");
    assert_eq!(r("abc", "d", "e"), "abc");
    assert_eq!(r("", "d", "e"), "");
    assert_eq!(r("ab", "ab", ""), "");
    assert_eq!(r("ab", "b", "bb"), "abb");
}

#[test]
fn numbers_are_written_in_decimal() {
    assert_eq!(from_chars(&to_decimal(0)), "0");
    assert_eq!(from_chars(&to_decimal(9)), "9");
    assert_eq!(from_chars(&to_decimal(10)), "10");
    assert_eq!(from_chars(&to_decimal(2200)), "2200");
    assert_eq!(from_chars(&to_decimal(u64::MAX)), u64::MAX.to_string());
}

#[test]
fn numbers_are_read_as_the_standard_library_reads_them() {
    for s in [
        "0", "7", "007", "+5", "-5", "-0", "+", "-", "", " 1", "1 ", "1_0", "12a", "--1", "+-1",
        "9223372036854775807", "9223372036854775808", "-9223372036854775808",
        "-9223372036854775809", "99999999999999999999", "-99999999999999999999",
        "18446744073709551616", "0x10", "\u{0661}",
    ] {
        assert_eq!(parse_i64(&to_chars(s)), s.parse::<i64>().ok(), "{}", s);
    }
    assert_eq!(parse_i64(&to_chars("2000")), Some(2000));
    assert_eq!(parse_i64(&to_chars("-12")), Some(-12));
}

#[test]
fn escape_replaces_the_five_characters() {
    assert_eq!(html_escape("<\"\">"), "&lt;&quot;&quot;&gt;");
    assert_eq!(html_escape("a&b'c"), "a&amp;b&#39;c");
    assert_eq!(html_escape("\u{4e2d}\u{1f600}"), "\u{4e2d}\u{1f600}");
    assert_eq!(html_escape(""), "");
    assert_eq!(html_unescape("&amp;lt;"), "&lt;");
    assert_eq!(html_unescape("&&amp;&"), "&&&");
    assert_eq!(html_unescape("\u{4e2d}&gt;\u{1f600}"), "\u{4e2d}>\u{1f600}");
    for s in ["", "&", "&amp;", "&amp;amp;", "<<'\"&>>", "&#39;&quot", "a\u{e9}&lt\u{4e2d};"] {
        assert_eq!(html_unescape(&html_escape(s)), s);
    }
}

#[test]
fn path_form_twice_is_path_form_once_without_outer_white_space() {
    for s in ["This iS The tiTle", " a b ", "", "!!", "\u{4e2d} \u{1f600}", "a\tb", "A.B/C=D"] {
        let once = path_title(s);
        assert_eq!(path_title(&once), once);
    }
    assert_eq!(path_title("*!@#...T<>?iTle"), "title");
    assert_eq!(path_title("~{}|:\"[]\\;'=$%^&()"), "");
    assert_eq!(path_title("a  b"), "a--b");
    assert_eq!(path_title("\u{c9}COLE \u{4e2d}\u{1f600}"), "\u{c9}cole-\u{4e2d}\u{1f600}");
    assert_eq!(path_title("a-b_c`d"), "a-b_c`d");
    let bared = path_title("!\ta");
    assert_eq!(bared, "\ta");
    assert_eq!(path_title(&bared), "a");
}

#[test]
fn formulas_are_taken_out() {
    let (text, latexes) = extract_latex("hi $A$ bob\nhi $B$ $unclosed");
    assert_eq!(latexes, vec!["$A$", "$B$"]);
    assert_eq!(text, "hi lAtExhERE bob\nhi lAtExhERE $unclosed");
    assert_eq!(extract_latex("no formula"), ("no formula".to_string(), vec![]));
    assert_eq!(extract_latex(""), (String::new(), vec![]));
    assert_eq!(extract_latex("$$"), ("$$".to_string(), vec![]));
    assert_eq!(extract_latex("$\n$x$"), ("$\nlAtExhERE".to_string(), vec!["$x$".to_string()]));
    assert_eq!(extract_latex("$x\r$"), ("$x\r$".to_string(), vec![]));
    assert_eq!(
        extract_latex("a$$x\ny$$b"),
        ("alAtExhEREb".to_string(), vec!["$$x\ny$$".to_string()])
    );
    assert_eq!(extract_latex("$$x$\ny$$"), ("$$x$\ny$$".to_string(), vec![]));
    assert_eq!(
        extract_latex("$$a$b$$c"),
        ("lAtExhEREc".to_string(), vec!["$$a$b$$".to_string()])
    );
    assert_eq!(
        extract_latex("$$a$b\nc$$d"),
        ("lAtExhEREd".to_string(), vec!["$$a$b\nc$$".to_string()])
    );
    assert_eq!(extract_latex("$$$$"), ("lAtExhERE".to_string(), vec!["$$$$".to_string()]));
    assert_eq!(
        extract_latex("\u{4e2d}$\u{e9}$\u{1f600}"),
        ("\u{4e2d}lAtExhERE\u{1f600}".to_string(), vec!["$\u{e9}$".to_string()])
    );
}

#[test]
fn formulas_are_set_back_in() {
    let l = |v: &[&str]| v.iter().map(|s| s.to_string()).collect::<Vec<String>>();
    assert_eq!(
        insert_latex("alAtExhEREblAtExhEREc", &l(&["$X$", "$Y$"])),
        Some("a<div class=\"latex\">$X$</div>b<div class=\"latex\">$Y$</div>c".to_string())
    );
    assert_eq!(
        insert_latex("lAtExhERE", &l(&["$a<b$"])),
        Some("<div class=\"latex\">$a&lt;b$</div>".to_string())
    );
    assert_eq!(insert_latex("alAtExhERE", &l(&["$X$", "$Y$"])), None);
    assert_eq!(insert_latex("", &l(&["$X$"])), None);
    assert_eq!(insert_latex("short", &l(&[])), Some("short".to_string()));
    assert_eq!(
        insert_latex("lAtExhERElAtExhERE", &l(&["1"])),
        Some("<div class=\"latex\">1</div>lAtExhERE".to_string())
    );
    assert_eq!(insert_latex("lAtExhERE", &l(&[])), Some("lAtExhERE".to_string()));
    assert_eq!(
        insert_latex("lAtExhElAtExhEREx", &l(&["1"])),
        Some("lAtExhE<div class=\"latex\">1</div>x".to_string())
    );
}

#[test]
fn markers_are_comments_with_one_of_two_words() {
    let at = |s: &str, i: usize| match_type(&to_chars(s), i);
    assert_eq!(at("<!--symbol-->", 0), Some((13, HlfType::Symbol)));
    assert_eq!(at("ab<!-- \n content\t-->cd", 2), Some((20, HlfType::Content)));
    assert_eq!(at("<!--symbol--", 0), None);
    assert_eq!(at("<!--sym bol-->", 0), None);
    assert_eq!(at("<!--x-->symbol-->", 0), None);
    assert_eq!(at("<!--symbol-->", 1), None);
    assert_eq!(at("<!--symbol-->", 99), None);
    assert_eq!(at("<!---->", 0), None);
}

#[test]
fn parser_follows_its_states() {
    let s = "<!--symbol-->";
    let c = "<!--content-->";
    let p = |parts: &[&str]| parse(&parts.concat());
    assert_eq!(p(&[]), Some(vec![]));
    assert_eq!(p(&["just text <!-- a comment -->"]), Some(vec![]));
    assert_eq!(p(&[c]), None);
    assert_eq!(p(&[s]), None);
    assert_eq!(p(&[s, "a"]), None);
    assert_eq!(p(&[s, "a", c]), None);
    assert_eq!(p(&[s, "a", s]), None);
    assert_eq!(p(&[s, "a", s, "x", s]), None);
    assert_eq!(p(&[s, "a", s, "x", c]), None);
    assert_eq!(p(&[s, "a", s, "x", c, "t", s]), None);
    assert_eq!(p(&[s, "a", s, "x", c, "t", s, "n", c]), None);
    assert_eq!(p(&[s, "a", s, "x", c, "t", s, "n", s]), None);
    assert_eq!(
        p(&["..", s, " a ", s, "skipped", c, " t1 ", s, " n ", s, "", s, "m", s, " t2", c, ".."]),
        Some(vec![HLF {
            lhs: "a".to_string(),
            rhs: vec![
                Symbol::T(" t1 ".to_string()),
                Symbol::N("n".to_string()),
                Symbol::T("".to_string()),
                Symbol::N("m".to_string()),
                Symbol::T(" t2".to_string()),
            ],
        }])
    );
    assert_eq!(
        p(&[s, s, c, c]),
        Some(vec![HLF { lhs: String::new(), rhs: vec![Symbol::T(String::new())] }])
    );
    let empty = HLF::new();
    assert_eq!(empty.lhs, "");
    assert!(empty.rhs.is_empty());
}
