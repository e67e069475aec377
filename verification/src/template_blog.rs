//! The page of an article: its text from Markdown, with its formulas set
//! back in and its code blocks highlighted, and the list of its tags.

use crate::blog::{Article, Blog};
use crate::blog_clusters::{articles, files, tag_views, BlogClusters, Cluster};
use crate::codeblock::{
    blocks, code_blocks, find_code_blocks, put_codes, with_codes, CodeBlock, CodeSpan,
};
use crate::highlight::{highlight_code, highlighted};
use crate::hlf_parser::{productions, Production, HLF};
use crate::latex::{extract_latex, extracted, insert_latex, inserted};
use crate::markdown::{article_html, render_markdown};
use crate::number::{decimal, to_decimal};
use crate::shared::{path_of, slug};
use crate::tag::TagView;
use crate::template::{
    find_frame, find_leaf, frame_of, leaf_of, load_hlfs, push_tag_items, tag_items, Frame,
    HTMLTemplate, RenderError,
};
use crate::text::{from_chars, push_all, replace, replaced, texts, to_chars};
use vstd::prelude::*;

verus! {

/// The template of the pages of the articles.
pub struct BlogTemplate {
    hlfs: Vec<HLF>,
}

/// The productions that the page of an article is made of: `main` frames
/// the list of the tags, which frames the item of one tag.
pub struct BlogShape {
    pub main: Frame,
    pub list: Frame,
    pub item: Seq<char>,
}

/// The shape of an article's page in the productions `p`, if they have it.
pub open spec fn blog_shape(p: Seq<Production>) -> Option<BlogShape> {
    match frame_of(p, "main"@) {
        Some(main) => match frame_of(p, main.inner) {
            Some(list) => match leaf_of(p, list.inner) {
                Some(item) => Some(BlogShape { main, list, item }),
                None => None,
            },
            None => None,
        },
        None => None,
    }
}

/// The text `head` with the title, the day, the month, the year, the
/// preview and the content of the article `a` in their slots, filled in
/// this order; the numbers in decimal, the content as `content`.
pub open spec fn blog_head(head: Seq<char>, a: Article, content: Seq<char>) -> Seq<char> {
    replaced(
        replaced(
            replaced(
                replaced(
                    replaced(
                        replaced(head, "_slot_of_blog_title"@, a.title),
                        "_slot_of_blog_day"@,
                        decimal(a.day as nat),
                    ),
                    "_slot_of_blog_month"@,
                    decimal(a.month as nat),
                ),
                "_slot_of_blog_year"@,
                decimal(a.year as nat),
            ),
            "_slot_of_blog_preview"@,
            a.preview,
        ),
        "_slot_of_blog_content"@,
        content,
    )
}

/// The highlighted code of each of the blocks `found`; `None` where the
/// language of one of them is not known.
pub open spec fn highlighted_all(found: Seq<CodeBlock>) -> Option<Seq<Seq<char>>>
    decreases found.len(),
{
    if found.len() == 0 {
        Some(Seq::empty())
    } else {
        match (highlighted_all(found.drop_last()), highlighted(found.last().lang, found.last().code)) {
            (Some(init), Some(code)) => Some(init.push(code)),
            _ => None,
        }
    }
}

/// The page `page` with the code of its code blocks highlighted.
pub open spec fn with_highlights(page: Seq<char>) -> Result<Seq<char>, RenderError> {
    match code_blocks(page) {
        None => Err(RenderError::CodeBlock),
        Some(found) => match highlighted_all(found) {
            None => Err(RenderError::UnknownLanguage),
            Some(codes) => Ok(with_codes(page, found, codes)),
        },
    }
}

/// The upper part of the page of the article `a`, from the text `head`. The
/// formulas are taken out of the content, the content goes from Markdown to
/// HTML, the slots of `head` are filled, the formulas are set in for their
/// marks, and the code blocks are highlighted.
pub open spec fn blog_body(head: Seq<char>, a: Article) -> Result<Seq<char>, RenderError> {
    let taken = extracted(a.content);
    let raw = blog_head(head, a, article_html(taken.text));
    match inserted(raw, taken.latexes) {
        None => Err(RenderError::LatexMismatch),
        Some(page) => with_highlights(page),
    }
}

/// The page of the article `a`.
pub open spec fn blog_page(shape: BlogShape, a: Article, tags: Seq<TagView>) -> Result<
    Seq<char>,
    RenderError,
> {
    match blog_body(shape.main.head, a) {
        Ok(body) => Ok(
            body + shape.list.head + tag_items(shape.item, a.tags, tags) + shape.list.tail
                + shape.main.tail,
        ),
        Err(e) => Err(e),
    }
}

/// The pages of the articles `blogs`, in their order, each as the name of
/// its file and its text; or the first reason why one of them has no page.
pub open spec fn blog_pages(shape: BlogShape, blogs: Seq<Article>, tags: Seq<TagView>) -> Result<
    Seq<(Seq<char>, Seq<char>)>,
    RenderError,
>
    decreases blogs.len(),
{
    if blogs.len() == 0 {
        Ok(Seq::empty())
    } else {
        match blog_pages(shape, blogs.drop_last(), tags) {
            Err(e) => Err(e),
            Ok(init) => match blog_page(shape, blogs.last(), tags) {
                Err(e) => Err(e),
                Ok(page) => Ok(init.push((slug(blogs.last().title) + ".html"@, page))),
            },
        }
    }
}

/// `head` with the slots of an article's page filled for `blog`.
fn fill_blog_head(head: &[char], blog: &Blog, content: &[char]) -> (out: Vec<char>)
    ensures
        out@ == blog_head(head@, blog@, content@),
{
    let title = to_chars(blog.title.as_str());
    let preview = to_chars(blog.preview.as_str());
    let day = to_decimal(blog.day as u64);
    let month = to_decimal(blog.month as u64);
    let year = to_decimal(blog.year as u64);
    let out = replace(head, to_chars("_slot_of_blog_title").as_slice(), title.as_slice());
    let out = replace(out.as_slice(), to_chars("_slot_of_blog_day").as_slice(), day.as_slice());
    let out = replace(out.as_slice(), to_chars("_slot_of_blog_month").as_slice(), month.as_slice());
    let out = replace(out.as_slice(), to_chars("_slot_of_blog_year").as_slice(), year.as_slice());
    let out = replace(
        out.as_slice(),
        to_chars("_slot_of_blog_preview").as_slice(),
        preview.as_slice(),
    );
    replace(out.as_slice(), to_chars("_slot_of_blog_content").as_slice(), content)
}

/// The highlighted code of each of the blocks `found`.
fn highlight_all(found: &Vec<CodeSpan>) -> (r: Option<Vec<String>>)
    ensures
        match r {
            Some(codes) => highlighted_all(blocks(found@)) == Some(texts(codes@)) && codes.len()
                == found.len(),
            None => highlighted_all(blocks(found@)) is None,
        },
{
    let ghost all = blocks(found@);
    let mut codes: Vec<String> = Vec::new();
    let mut i: usize = 0;
    assert(all.take(0) == Seq::<CodeBlock>::empty());
    assert(texts(codes@) == Seq::<Seq<char>>::empty());
    while i < found.len()
        invariant
            i <= found.len(),
            codes.len() == i,
            all == blocks(found@),
            highlighted_all(all.take(i as int)) == Some(texts(codes@)),
        decreases found.len() - i,
    {
        let ghost before = texts(codes@);
        assert(all.take(i + 1).drop_last() == all.take(i as int));
        assert(all.take(i + 1).last() == found@[i as int]@);
        let lang = from_chars(found[i].lang.as_slice());
        let code = from_chars(found[i].code.as_slice());
        match highlight_code(lang.as_str(), code.as_str()) {
            Some(html) => {
                codes.push(html);
                assert(texts(codes@) == before.push(codes@[i as int]@));
            },
            None => {
                proof {
                    lemma_highlighted_none(all, i + 1);
                }
                return None;
            },
        }
        i += 1;
    }
    assert(all.take(found.len() as int) == all);
    Some(codes)
}

/// Where the language of one of the first `n` blocks is not known, that of
/// one of all blocks is not.
proof fn lemma_highlighted_none(found: Seq<CodeBlock>, n: int)
    requires
        0 <= n <= found.len(),
        highlighted_all(found.take(n)) is None,
    ensures
        highlighted_all(found) is None,
    decreases found.len() - n,
{
    if n < found.len() {
        assert(found.take(n + 1).drop_last() == found.take(n));
        lemma_highlighted_none(found, n + 1);
    } else {
        assert(found.take(n) == found);
    }
}

/// Highlights the code of the code blocks of the page `page`.
pub fn highlight_page(page: &str) -> (r: Result<Vec<char>, RenderError>)
    ensures
        match r {
            Ok(out) => with_highlights(page@) == Ok::<Seq<char>, RenderError>(out@),
            Err(e) => with_highlights(page@) == Err::<Seq<char>, RenderError>(e),
        },
{
    let chars = to_chars(page);
    let found = match find_code_blocks(chars.as_slice()) {
        Some(f) => f,
        None => {
            return Err(RenderError::CodeBlock);
        },
    };
    let codes = match highlight_all(&found) {
        Some(c) => c,
        None => {
            return Err(RenderError::UnknownLanguage);
        },
    };
    match put_codes(chars.as_slice(), &found, &codes) {
        Some(out) => Ok(out),
        None => Err(RenderError::CodeBlock),
    }
}

/// The upper part of the page of `blog`, from the text `head`.
pub fn render_body(head: &[char], blog: &Blog) -> (r: Result<Vec<char>, RenderError>)
    ensures
        match r {
            Ok(out) => blog_body(head@, blog@) == Ok::<Seq<char>, RenderError>(out@),
            Err(e) => blog_body(head@, blog@) == Err::<Seq<char>, RenderError>(e),
        },
{
    let (text, latexes) = extract_latex(blog.content.as_str());
    let content = render_markdown(text.as_str());
    let content = to_chars(content.as_str());
    let raw = fill_blog_head(head, blog, content.as_slice());
    let raw = from_chars(raw.as_slice());
    match insert_latex(raw.as_str(), &latexes) {
        Some(page) => highlight_page(page.as_str()),
        None => Err(RenderError::LatexMismatch),
    }
}

impl HTMLTemplate for BlogTemplate {
    closed spec fn template(&self) -> Seq<Production> {
        productions(self.hlfs@)
    }

    fn load(template_raw: &str) -> (r: Result<Self, String>) {
        match load_hlfs(template_raw) {
            Ok(hlfs) => Ok(BlogTemplate { hlfs }),
            Err(msg) => Err(msg),
        }
    }

    /// For each article its page, in the order of the articles, in a file
    /// named by the path form of its title.
    open spec fn pages(&self, c: Cluster) -> Result<Seq<(Seq<char>, Seq<char>)>, RenderError> {
        match blog_shape(self.template()) {
            Some(shape) => blog_pages(shape, c.blogs, c.tags),
            None => Err(RenderError::TemplateShape),
        }
    }

    fn fill(&self, blog_clusters: &BlogClusters) -> (r: Result<Vec<(String, String)>, RenderError>) {
        let main = match find_frame(&self.hlfs, to_chars("main").as_slice()) {
            Some(f) => f,
            None => {
                return Err(RenderError::TemplateShape);
            },
        };
        let list = match find_frame(&self.hlfs, main.inner.as_slice()) {
            Some(f) => f,
            None => {
                return Err(RenderError::TemplateShape);
            },
        };
        let item = match find_leaf(&self.hlfs, list.inner.as_slice()) {
            Some(t) => t,
            None => {
                return Err(RenderError::TemplateShape);
            },
        };
        let ghost shape = BlogShape { main: main@, list: list@, item: item@ };
        let blogs = blog_clusters.get_blogs();
        let tags = blog_clusters.get_tags();
        let ghost all = articles(blogs@);
        let mut pages: Vec<(String, String)> = Vec::new();
        let mut i: usize = 0;
        assert(all.take(0) == Seq::<Article>::empty());
        assert(files(pages@) == Seq::<(Seq<char>, Seq<char>)>::empty());
        while i < blogs.len()
            invariant
                i <= blogs.len(),
                blog_clusters.wf(),
                all == articles(blogs@),
                all == blog_clusters@.blogs,
                tag_views(tags@) == blog_clusters@.tags,
                shape == (BlogShape { main: main@, list: list@, item: item@ }),
                blog_shape(self.template()) == Some(shape),
                blog_pages(shape, all.take(i as int), tag_views(tags@)) == Ok::<
                    Seq<(Seq<char>, Seq<char>)>,
                    RenderError,
                >(files(pages@)),
            decreases blogs.len() - i,
        {
            let ghost before = files(pages@);
            let blog = &blogs[i];
            assert(all.take(i + 1).drop_last() == all.take(i as int));
            assert(all.take(i + 1).last() == blog@);
            assert(blog_clusters@.blogs[i as int] == blog@);
            assert forall|k: int| 0 <= k < blog.tags.len() implies (#[trigger] blog.tags@[k])
                < tags.len() by {
                assert(blog_clusters@.blogs[i as int].tags[k] < blog_clusters@.tags.len());
            }
            let mut out = match render_body(main.head.as_slice(), blog) {
                Ok(body) => body,
                Err(e) => {
                    proof {
                        lemma_blog_pages_err(shape, all, tag_views(tags@), i + 1);
                    }
                    return Err(e);
                },
            };
            push_all(&mut out, list.head.as_slice());
            push_tag_items(&mut out, item.as_slice(), &blog.tags, tags);
            push_all(&mut out, list.tail.as_slice());
            push_all(&mut out, main.tail.as_slice());
            let title = to_chars(blog.title.as_str());
            let mut name = path_of(title.as_slice());
            push_all(&mut name, to_chars(".html").as_slice());
            let ghost page = (name@, out@);
            pages.push((from_chars(name.as_slice()), from_chars(out.as_slice())));
            assert(files(pages@) == before.push(page));
            i += 1;
        }
        assert(all.take(blogs.len() as int) == all);
        Ok(pages)
    }
}

/// Where one of the first `n` articles has no page, the articles have no
/// pages, for the same reason.
proof fn lemma_blog_pages_err(shape: BlogShape, blogs: Seq<Article>, tags: Seq<TagView>, n: int)
    requires
        0 <= n <= blogs.len(),
        blog_pages(shape, blogs.take(n), tags) is Err,
    ensures
        blog_pages(shape, blogs, tags) == blog_pages(shape, blogs.take(n), tags),
    decreases blogs.len() - n,
{
    if n < blogs.len() {
        assert(blogs.take(n + 1).drop_last() == blogs.take(n));
        lemma_blog_pages_err(shape, blogs, tags, n + 1);
    } else {
        assert(blogs.take(n) == blogs);
    }
}

} // verus!
