//! What the page kinds share: how a template is loaded and filled, and the
//! shapes of the productions that the renderers walk.

use crate::blog_clusters::{files, tag_views, BlogClusters, Cluster, TagHandle};
use crate::hlf_parser::{atoms, parsed, productions, Atom, Production, Symbol, HLF};
use crate::tag::{Tag, TagView};
use crate::text::{push_all, replace, replaced, same_chars, to_chars};
use vstd::prelude::*;

verus! {

/// Why a page could not be made.
#[derive(Debug, Clone, Copy, PartialEq, Eq, Structural)]
pub enum RenderError {
    /// A production is missing or has another shape than the page needs.
    TemplateShape,
    /// The page has fewer marks than the article has formulas.
    LatexMismatch,
    /// The search for code blocks did not give ranges of the page.
    CodeBlock,
    /// No syntax is known for the language of a code block.
    UnknownLanguage,
}

/// A template of one kind of page.
pub trait HTMLTemplate: Sized {
    /// The productions of the template.
    spec fn template(&self) -> Seq<Production>;

    /// Loads a template from its text.
    fn load(template_raw: &str) -> (r: Result<Self, String>)
        ensures
            match r {
                Ok(t) => parsed(template_raw@) == Some(t.template()),
                Err(msg) => parsed(template_raw@) is None && msg@ == "template parse failed"@,
            },
    ;

    /// The pages that the template gives for the cluster `c`, each as the
    /// name of its file and its text; or the reason why it gives none.
    spec fn pages(&self, c: Cluster) -> Result<Seq<(Seq<char>, Seq<char>)>, RenderError>;

    /// Makes the pages of a cluster.
    fn fill(&self, blog_clusters: &BlogClusters) -> (r: Result<Vec<(String, String)>, RenderError>)
        requires
            blog_clusters.wf(),
        ensures
            match r {
                Ok(made) => self.pages(blog_clusters@) == Ok::<
                    Seq<(Seq<char>, Seq<char>)>,
                    RenderError,
                >(files(made@)),
                Err(e) => self.pages(blog_clusters@) == Err::<
                    Seq<(Seq<char>, Seq<char>)>,
                    RenderError,
                >(e),
            },
    ;
}

/// The productions of the template `template_raw`.
pub fn load_hlfs(template_raw: &str) -> (r: Result<Vec<HLF>, String>)
    ensures
        match r {
            Ok(hlfs) => parsed(template_raw@) == Some(productions(hlfs@)),
            Err(msg) => parsed(template_raw@) is None && msg@ == "template parse failed"@,
        },
{
    match crate::hlf_parser::parse(template_raw) {
        Some(hlfs) => Ok(hlfs),
        None => Err("template parse failed".to_owned()),
    }
}

/// The right-hand side of the first production named `name`.
pub open spec fn rhs_of(p: Seq<Production>, name: Seq<char>) -> Option<Seq<Atom>>
    decreases p.len(),
{
    if p.len() == 0 {
        None
    } else if p[0].lhs == name {
        Some(p[0].rhs)
    } else {
        rhs_of(p.drop_first(), name)
    }
}

/// Looks up the right-hand side of the first production named `name`.
pub fn find_rhs<'a>(hlfs: &'a Vec<HLF>, name: &[char]) -> (rhs: Option<&'a Vec<Symbol>>)
    ensures
        match rhs {
            Some(r) => rhs_of(productions(hlfs@), name@) == Some(atoms(r@)),
            None => rhs_of(productions(hlfs@), name@) is None,
        },
{
    let ghost p = productions(hlfs@);
    let mut i: usize = 0;
    assert(p.skip(0) == p);
    while i < hlfs.len()
        invariant
            i <= hlfs.len(),
            p == productions(hlfs@),
            rhs_of(p, name@) == rhs_of(p.skip(i as int), name@),
        decreases hlfs.len() - i,
    {
        let lhs = to_chars(hlfs[i].lhs.as_str());
        if same_chars(lhs.as_slice(), name) {
            return Some(&hlfs[i].rhs);
        }
        assert(p.skip(i as int).drop_first() == p.skip(i + 1));
        i += 1;
    }
    None
}

/// A production that frames another: text, a reference, and text.
pub struct Frame {
    pub head: Seq<char>,
    pub inner: Seq<char>,
    pub tail: Seq<char>,
}

/// The frame that the first production named `name` is, if it is one.
pub open spec fn frame_of(p: Seq<Production>, name: Seq<char>) -> Option<Frame> {
    match rhs_of(p, name) {
        Some(rhs) => if rhs.len() == 3 {
            match (rhs[0], rhs[1], rhs[2]) {
                (Atom::T(head), Atom::N(inner), Atom::T(tail)) => Some(Frame { head, inner, tail }),
                _ => None,
            }
        } else {
            None
        },
        None => None,
    }
}

/// The text that the first production named `name` holds, if it holds text
/// and nothing else.
pub open spec fn leaf_of(p: Seq<Production>, name: Seq<char>) -> Option<Seq<char>> {
    match rhs_of(p, name) {
        Some(rhs) => if rhs.len() == 1 {
            match rhs[0] {
                Atom::T(text) => Some(text),
                _ => None,
            }
        } else {
            None
        },
        None => None,
    }
}

/// A frame, as characters.
pub struct FrameText {
    pub head: Vec<char>,
    pub inner: Vec<char>,
    pub tail: Vec<char>,
}

impl View for FrameText {
    type V = Frame;

    open spec fn view(&self) -> Frame {
        Frame { head: self.head@, inner: self.inner@, tail: self.tail@ }
    }
}

/// Looks up the production named `name`, which is to be a frame.
pub fn find_frame(hlfs: &Vec<HLF>, name: &[char]) -> (frame: Option<FrameText>)
    ensures
        match frame {
            Some(f) => frame_of(productions(hlfs@), name@) == Some(f@),
            None => frame_of(productions(hlfs@), name@) is None,
        },
{
    let rhs = match find_rhs(hlfs, name) {
        Some(r) => r,
        None => {
            return None;
        },
    };
    if rhs.len() != 3 {
        return None;
    }
    assert(atoms(rhs@)[0] == rhs@[0]@);
    assert(atoms(rhs@)[1] == rhs@[1]@);
    assert(atoms(rhs@)[2] == rhs@[2]@);
    match (&rhs[0], &rhs[1], &rhs[2]) {
        (Symbol::T(head), Symbol::N(inner), Symbol::T(tail)) => Some(
            FrameText {
                head: to_chars(head.as_str()),
                inner: to_chars(inner.as_str()),
                tail: to_chars(tail.as_str()),
            },
        ),
        _ => None,
    }
}

/// Looks up the production named `name`, which is to hold text only.
pub fn find_leaf(hlfs: &Vec<HLF>, name: &[char]) -> (leaf: Option<Vec<char>>)
    ensures
        match leaf {
            Some(text) => leaf_of(productions(hlfs@), name@) == Some(text@),
            None => leaf_of(productions(hlfs@), name@) is None,
        },
{
    let rhs = match find_rhs(hlfs, name) {
        Some(r) => r,
        None => {
            return None;
        },
    };
    if rhs.len() != 1 {
        return None;
    }
    assert(atoms(rhs@)[0] == rhs@[0]@);
    match &rhs[0] {
        Symbol::T(text) => Some(to_chars(text.as_str())),
        _ => None,
    }
}

/// The items of the tags `handles`: for each, `item` with the name of the
/// tag in its slot.
pub open spec fn tag_items(item: Seq<char>, handles: Seq<TagHandle>, tags: Seq<TagView>) -> Seq<
    char,
>
    decreases handles.len(),
{
    if handles.len() == 0 {
        Seq::empty()
    } else {
        tag_items(item, handles.drop_last(), tags) + replaced(
            item,
            "_slot_of_tag_name"@,
            tags[handles.last() as int].name,
        )
    }
}

/// Appends the items of the tags `handles`.
pub(crate) fn push_tag_items(out: &mut Vec<char>, item: &[char], handles: &Vec<TagHandle>, tags: &Vec<Tag>)
    requires
        forall|k: int| 0 <= k < handles.len() ==> (#[trigger] handles@[k]) < tags.len(),
    ensures
        final(out)@ == old(out)@ + tag_items(item@, handles@, tag_views(tags@)),
{
    let slot = to_chars("_slot_of_tag_name");
    let mut k: usize = 0;
    assert(handles@.take(0) == Seq::<TagHandle>::empty());
    assert(out@ + Seq::<char>::empty() == out@);
    while k < handles.len()
        invariant
            k <= handles.len(),
            slot@ == "_slot_of_tag_name"@,
            forall|j: int| 0 <= j < handles.len() ==> (#[trigger] handles@[j]) < tags.len(),
            out@ == old(out)@ + tag_items(item@, handles@.take(k as int), tag_views(tags@)),
        decreases handles.len() - k,
    {
        let ghost done = tag_items(item@, handles@.take(k as int), tag_views(tags@));
        assert(handles@.take(k + 1).drop_last() == handles@.take(k as int));
        assert(handles@[k as int] < tags.len());
        let name = to_chars(tags[handles[k]].name.as_str());
        let filled = replace(item, slot.as_slice(), name.as_slice());
        push_all(out, filled.as_slice());
        assert((old(out)@ + done) + filled@ == old(out)@ + (done + filled@));
        k += 1;
    }
    assert(handles@.take(handles.len() as int) == handles@);
}

} // verus!
