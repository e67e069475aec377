//! Markdown to HTML, by the crate comrak.

use comrak::{markdown_to_html, ComrakExtensionOptions, ComrakOptions, ComrakRenderOptions};
use vstd::prelude::*;

verus! {

/// The HTML that comrak gives for the Markdown text `md` with the four
/// options set as given and every other option at its default.
pub uninterp spec fn markdown_html(
    md: Seq<char>,
    strikethrough: bool,
    table: bool,
    tasklist: bool,
    github_pre_lang: bool,
) -> Seq<char>;

/// Calls `comrak::markdown_to_html`. Not proved: that the result is the same
/// for the same text and options, which is all that the contract claims.
#[verifier::external_body]
fn comrak_html(
    md: &str,
    strikethrough: bool,
    table: bool,
    tasklist: bool,
    github_pre_lang: bool,
) -> (html: String)
    ensures
        html@ == markdown_html(md@, strikethrough, table, tasklist, github_pre_lang),
{
    let options = ComrakOptions {
        extension: ComrakExtensionOptions { strikethrough, table, tasklist, ..Default::default() },
        render: ComrakRenderOptions { github_pre_lang, ..Default::default() },
        ..Default::default()
    };
    markdown_to_html(md, &options)
}

/// The HTML of an article's text: GitHub-flavoured Markdown with
/// strikethrough, tables and task lists, and with the language of a code
/// block in the attribute `lang` of its `pre` element.
pub open spec fn article_html(md: Seq<char>) -> Seq<char> {
    markdown_html(md, true, true, true, true)
}

/// Converts the text of an article to HTML.
pub fn render_markdown(md: &str) -> (html: String)
    ensures
        html@ == article_html(md@),
{
    comrak_html(md, true, true, true, true)
}

} // verus!
