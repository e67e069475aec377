//! The homepage: one block for each article, the newest first.

use crate::blog::{Article, Blog};
use crate::blog_clusters::{articles, files, tag_views, BlogClusters, Cluster};
use crate::hlf_parser::{productions, Production, HLF};
use crate::shared::{path_of, slug};
use crate::tag::TagView;
use crate::template::{
    find_frame, find_leaf, frame_of, leaf_of, load_hlfs, push_tag_items, tag_items, Frame,
    HTMLTemplate, RenderError,
};
use crate::text::{from_chars, push_all, replace, replaced, to_chars};
use vstd::prelude::*;

verus! {

/// The template of the homepage.
pub struct HomepageTemplate {
    hlfs: Vec<HLF>,
}

/// The productions that the homepage is made of: `main` frames the block
/// of an article, which frames the list of its tags, which frames the item
/// of one tag.
pub struct HomepageShape {
    pub main: Frame,
    pub block: Frame,
    pub list: Frame,
    pub item: Seq<char>,
}

/// The shape of the homepage in the productions `p`, if they have it.
pub open spec fn homepage_shape(p: Seq<Production>) -> Option<HomepageShape> {
    match frame_of(p, "main"@) {
        Some(main) => match frame_of(p, main.inner) {
            Some(block) => match frame_of(p, block.inner) {
                Some(list) => match leaf_of(p, list.inner) {
                    Some(item) => Some(HomepageShape { main, block, list, item }),
                    None => None,
                },
                None => None,
            },
            None => None,
        },
        None => None,
    }
}

/// The text `head` with the path, the title and the preview of the article
/// `a` in their slots, filled in this order.
pub open spec fn homepage_head(head: Seq<char>, a: Article) -> Seq<char> {
    replaced(
        replaced(
            replaced(head, "_slot_of_blog_path"@, slug(a.title) + ".html"@),
            "_slot_of_blog_title"@,
            a.title,
        ),
        "_slot_of_blog_preview"@,
        a.preview,
    )
}

/// The block of the article `a`.
pub open spec fn homepage_block(shape: HomepageShape, a: Article, tags: Seq<TagView>) -> Seq<char> {
    homepage_head(shape.block.head, a) + shape.list.head + tag_items(shape.item, a.tags, tags)
        + shape.list.tail + shape.block.tail
}

/// The blocks of the articles `blogs`, in their order.
pub open spec fn homepage_blocks(
    shape: HomepageShape,
    blogs: Seq<Article>,
    tags: Seq<TagView>,
) -> Seq<char>
    decreases blogs.len(),
{
    if blogs.len() == 0 {
        Seq::empty()
    } else {
        homepage_blocks(shape, blogs.drop_last(), tags) + homepage_block(shape, blogs.last(), tags)
    }
}

/// The homepage of the cluster `c`.
pub open spec fn homepage_html(shape: HomepageShape, c: Cluster) -> Seq<char> {
    shape.main.head + homepage_blocks(shape, c.blogs, c.tags) + shape.main.tail
}

/// Appends `head` with the slots of the homepage filled for `blog`.
fn push_homepage_head(out: &mut Vec<char>, head: &[char], blog: &Blog)
    ensures
        final(out)@ == old(out)@ + homepage_head(head@, blog@),
{
    let path_slot = to_chars("_slot_of_blog_path");
    let title_slot = to_chars("_slot_of_blog_title");
    let preview_slot = to_chars("_slot_of_blog_preview");
    let title = to_chars(blog.title.as_str());
    let preview = to_chars(blog.preview.as_str());
    let mut path = path_of(title.as_slice());
    push_all(&mut path, to_chars(".html").as_slice());
    let with_path = replace(head, path_slot.as_slice(), path.as_slice());
    let with_title = replace(with_path.as_slice(), title_slot.as_slice(), title.as_slice());
    let filled = replace(with_title.as_slice(), preview_slot.as_slice(), preview.as_slice());
    push_all(out, filled.as_slice());
}

impl HomepageTemplate {
    /// The text of the homepage.
    pub fn render(&self, cluster: &BlogClusters) -> (r: Result<String, RenderError>)
        requires
            cluster.wf(),
        ensures
            match r {
                Ok(html) => match homepage_shape(self.template()) {
                    Some(shape) => html@ == homepage_html(shape, cluster@),
                    None => false,
                },
                Err(e) => e == RenderError::TemplateShape && homepage_shape(self.template())
                    is None,
            },
    {
        let main = match find_frame(&self.hlfs, to_chars("main").as_slice()) {
            Some(f) => f,
            None => {
                return Err(RenderError::TemplateShape);
            },
        };
        let block = match find_frame(&self.hlfs, main.inner.as_slice()) {
            Some(f) => f,
            None => {
                return Err(RenderError::TemplateShape);
            },
        };
        let list = match find_frame(&self.hlfs, block.inner.as_slice()) {
            Some(f) => f,
            None => {
                return Err(RenderError::TemplateShape);
            },
        };
        let item = match find_leaf(&self.hlfs, list.inner.as_slice()) {
            Some(t) => t,
            None => {
                return Err(RenderError::TemplateShape);
            },
        };
        let ghost shape = HomepageShape { main: main@, block: block@, list: list@, item: item@ };
        let blogs = cluster.get_blogs();
        let tags = cluster.get_tags();
        let mut out: Vec<char> = Vec::new();
        push_all(&mut out, main.head.as_slice());
        let mut i: usize = 0;
        assert(articles(blogs@).take(0) == Seq::<Article>::empty());
        assert(out@ == shape.main.head + Seq::<char>::empty());
        while i < blogs.len()
            invariant
                i <= blogs.len(),
                cluster.wf(),
                articles(blogs@) == cluster@.blogs,
                tag_views(tags@) == cluster@.tags,
                shape == (HomepageShape { main: main@, block: block@, list: list@, item: item@ }),
                out@ == shape.main.head + homepage_blocks(
                    shape,
                    articles(blogs@).take(i as int),
                    tag_views(tags@),
                ),
            decreases blogs.len() - i,
        {
            let ghost done = homepage_blocks(shape, articles(blogs@).take(i as int), tag_views(tags@));
            let ghost before = out@;
            let blog = &blogs[i];
            assert(articles(blogs@).take(i + 1).drop_last() == articles(blogs@).take(i as int));
            assert(articles(blogs@).take(i + 1).last() == blog@);
            assert(cluster@.blogs[i as int] == blog@);
            assert forall|k: int| 0 <= k < blog.tags.len() implies (#[trigger] blog.tags@[k])
                < tags.len() by {
                assert(cluster@.blogs[i as int].tags[k] < cluster@.tags.len());
            }
            push_homepage_head(&mut out, block.head.as_slice(), blog);
            push_all(&mut out, list.head.as_slice());
            push_tag_items(&mut out, item.as_slice(), &blog.tags, tags);
            push_all(&mut out, list.tail.as_slice());
            push_all(&mut out, block.tail.as_slice());
            assert(out@ == before + homepage_block(shape, blog@, tag_views(tags@)));
            assert((shape.main.head + done) + homepage_block(shape, blog@, tag_views(tags@))
                == shape.main.head + (done + homepage_block(shape, blog@, tag_views(tags@))));
            i += 1;
        }
        assert(articles(blogs@).take(blogs.len() as int) == articles(blogs@));
        push_all(&mut out, main.tail.as_slice());
        Ok(from_chars(out.as_slice()))
    }
}

impl HTMLTemplate for HomepageTemplate {
    closed spec fn template(&self) -> Seq<Production> {
        productions(self.hlfs@)
    }

    fn load(template_raw: &str) -> (r: Result<Self, String>) {
        match load_hlfs(template_raw) {
            Ok(hlfs) => Ok(HomepageTemplate { hlfs }),
            Err(msg) => Err(msg),
        }
    }

    /// The homepage, as the one file `index.html`.
    open spec fn pages(&self, c: Cluster) -> Result<Seq<(Seq<char>, Seq<char>)>, RenderError> {
        match homepage_shape(self.template()) {
            Some(shape) => Ok(seq![("index.html"@, homepage_html(shape, c))]),
            None => Err(RenderError::TemplateShape),
        }
    }

    fn fill(&self, blog_clusters: &BlogClusters) -> (r: Result<Vec<(String, String)>, RenderError>) {
        let html = match self.render(blog_clusters) {
            Ok(h) => h,
            Err(e) => {
                return Err(e);
            },
        };
        let ghost text = html@;
        let mut made: Vec<(String, String)> = Vec::new();
        made.push(("index.html".to_owned(), html));
        assert(files(made@) == seq![("index.html"@, text)]);
        Ok(made)
    }
}

} // verus!
