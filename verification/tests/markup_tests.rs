use blog_builder::escape::{html_escape, html_unescape};
use blog_builder::latex::{extract_latex, insert_latex};

#[test]
fn template_test_html_unescape() {
    assert_eq!(html_unescape("emm"), "emm");

    assert_eq!(html_unescape("&quot;"), "\"");
    assert_eq!(html_unescape("&amp;"), "&");
    assert_eq!(html_unescape("&#39;"), "\'");
    assert_eq!(html_unescape("&lt;"), "<");
    assert_eq!(html_unescape("&gt;"), ">");

    assert_eq!(html_unescape("&emm"), "&emm");
    assert_eq!(html_unescape("&quot"), "&quot");
    assert_eq!(html_unescape("&qu&lt;"), "&qu<");
    assert_eq!(html_unescape("&qu&lt"), "&qu&lt");
    assert_eq!(html_unescape("&quot;&lt;"), "\"<");
    assert_eq!(html_unescape("&quot;&lt"), "\"&lt");
    assert_eq!(html_unescape("&lt;&quot;&quot;&gt;"), "<\"\">");
}

#[test]
fn template_blog_test_html_unescape() {
    assert_eq!(html_unescape("emm"), "emm");

    assert_eq!(html_unescape("&quot;"), "\"");
    assert_eq!(html_unescape("&amp;"), "&");
    assert_eq!(html_unescape("&#39;"), "\'");
    assert_eq!(html_unescape("&lt;"), "<");
    assert_eq!(html_unescape("&gt;"), ">");

    assert_eq!(html_unescape("&emm"), "&emm");
    assert_eq!(html_unescape("&quot"), "&quot");
    assert_eq!(html_unescape("&qu&lt;"), "&qu<");
    assert_eq!(html_unescape("&qu&lt"), "&qu&lt");
    assert_eq!(html_unescape("&quot;&lt;"), "\"<");
    assert_eq!(html_unescape("&quot;&lt"), "\"&lt");
    assert_eq!(html_unescape("&lt;&quot;&quot;&gt;"), "<\"\">");
}

#[test]
fn test_html_escape() {
    assert_eq!(html_escape("emm"), "emm");
    assert_eq!("&quot;", html_escape("\""));
    assert_eq!("&amp;", html_escape("&"));
    assert_eq!("&#39;", html_escape("\'"));
    assert_eq!("&lt;", html_escape("<"));
    assert_eq!("&gt;", html_escape(">"));

    assert_eq!("&amp;emm", html_escape("&emm"));
    assert_eq!("&amp;quot", html_escape("&quot"));
    assert_eq!("&amp;qu&lt;", html_escape("&qu<"));
    assert_eq!("&amp;qu&amp;lt", html_escape("&qu&lt"));
    assert_eq!("&quot;&lt;", html_escape("\"<"));
    assert_eq!("&quot;&amp;lt", html_escape("\"&lt"));
    assert_eq!("&lt;&quot;&quot;&gt;", html_escape("<\"\">"));
}

#[test]
fn test_html_escape_and_unescape() {
    let chaos = r#"
        $%^Y&UIafjnh%^&*(OGFTY^&*IOL<KO{}?L:"KJYT<><<<>>"""KK'''
        'L';'''"''"'""<><><>GFDER$%^&*()*&^%$%YH^T&*UIOJHVYFT^&Y
        *IOUYTE@#!@#$%^&*((~!@#$%^&*()(*^%~`1234567897^%$#@!@#$%
        ^&*148964865}"?>:{}"?><LP{}"?><KJHGBNL;oijk,./'][p;.,mnb
        vcxsrtyjkghmnabsdjf])))
        "#;

    assert_eq!(html_unescape(&html_escape(&chaos)), chaos);
}

#[test]
fn test_inline_latex_extraction() {
    let s = "
            hi $I'm latex0$ alice
            hi $I'm latex1$ bob
            hi $I'm not latex
            hi $I'm latex2$ $I'm not latex
            hi $I'm latex3$ alice hi $I'm latex4$ bob
        ";
    let (_, latexes) = extract_latex(s);
    assert_eq!(
        latexes,
        [
            "$I'm latex0$",
            "$I'm latex1$",
            "$I'm latex2$",
            "$I'm latex3$",
            "$I'm latex4$",
        ]
    );
}

#[test]
fn test_block_latex_extraction() {
    let s = "
            hi $$I'm latex0$$ alice
            hi $$I'm latex1 bob
            hahah$$
            hi $$I'm a failed latex$
            hi $$I'm latex2$$ $I'm not latex
            hi $$I'm latex3$$ alice hi $$I'm latex4$$ bob
        ";
    let (_, latexes) = extract_latex(s);
    assert_eq!(
        latexes,
        [
            "$$I'm latex0$$",
            "$$I'm latex1 bob
            hahah$$",
            "$$I'm latex2$$",
            "$$I'm latex3$$",
            "$$I'm latex4$$",
        ]
    );
}

#[test]
fn test_inline_latex_insertion() {
    let mark: &str = "lAtExhERE";
    let begin: &str = r#"<div class="latex">"#;
    let end: &str = "</div>";
    let s = ["a", mark, "b", mark, "c"].join("");
    let latexes = vec![String::from("$Alice$"), String::from("$Bob$")];
    let s = insert_latex(&s, &latexes);
    assert_eq!(
        s,
        Some(
            [
                "a",
                begin,
                &latexes[0],
                end,
                "b",
                begin,
                &latexes[1],
                end,
                "c"
            ]
            .join("")
        )
    );
}

#[test]
fn test_block_latex_insertion() {
    let mark: &str = "lAtExhERE";
    let begin: &str = r#"<div class="latex">"#;
    let end: &str = "</div>";
    let s = ["a", mark, "b", mark, "c"].join("");
    let latexes = vec![String::from("$$Ali\nce$$"), String::from("$$Bob$$")];
    let s = insert_latex(&s, &latexes);
    assert_eq!(
        s,
        Some(
            [
                "a",
                begin,
                &latexes[0],
                end,
                "b",
                begin,
                &latexes[1],
                end,
                "c"
            ]
            .join("")
        )
    );
}

