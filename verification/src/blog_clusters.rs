//! The cluster: the tags and the articles of a site, with the index from
//! each tag to its articles.

use crate::blog::{is_valid_date, Article, Blog};
use crate::tag::{Tag, TagView};
use crate::loader::{article_of, find_tag, handle_of, handles_of, lemma_handle_of, load_article};
use crate::text::{from_chars, nonblank_lines, nonblank_lines_of, rows, to_chars};
use vstd::prelude::*;

verus! {

/// An article, by its place among the articles of a cluster.
pub type BlogHandle = usize;

/// A tag, by its place among the tags of a cluster.
pub type TagHandle = usize;

/// A date as one number, by which dates are ordered.
pub open spec fn packed_date(year: int, month: int, day: int) -> int {
    year * 1024 + month * 64 + day
}

/// Packs a date into one number.
pub fn time_squash(year: u64, month: u64, day: u64) -> (packed: u64)
    requires
        packed_date(year as int, month as int, day as int) <= u64::MAX,
    ensures
        packed == packed_date(year as int, month as int, day as int),
{
    year * 1024 + month * 64 + day
}

/// The packed dates of two days with a month up to 12 and a day up to 31
/// stand in the order in which the days follow each other.
pub proof fn lemma_packed_date_order(y1: int, m1: int, d1: int, y2: int, m2: int, d2: int)
    requires
        1 <= m1 <= 12,
        1 <= d1 <= 31,
        1 <= m2 <= 12,
        1 <= d2 <= 31,
    ensures
        packed_date(y1, m1, d1) < packed_date(y2, m2, d2) <==> (y1 < y2 || (y1 == y2 && (m1 < m2
            || (m1 == m2 && d1 < d2)))),
{
}

/// The number by which the article `a` is ordered.
pub open spec fn date_of(a: Article) -> int {
    packed_date(a.year, a.month, a.day)
}

/// What a `BlogClusters` stands for.
pub struct Cluster {
    /// The tags, in the order in which they were added.
    pub tags: Seq<TagView>,
    /// The articles, the newest first.
    pub blogs: Seq<Article>,
    /// For each tag, the articles that carry it.
    pub tag_blogs: Seq<Seq<BlogHandle>>,
}

/// What the tags of `tags` stand for, one for one.
pub open spec fn tag_views(tags: Seq<Tag>) -> Seq<TagView> {
    Seq::new(tags.len(), |i: int| tags[i]@)
}

/// What the articles of `blogs` stand for, one for one.
pub open spec fn articles(blogs: Seq<Blog>) -> Seq<Article> {
    Seq::new(blogs.len(), |i: int| blogs[i]@)
}

/// What the rows of `index` hold, one for one.
pub open spec fn handle_rows(index: Seq<Vec<BlogHandle>>) -> Seq<Seq<BlogHandle>> {
    Seq::new(index.len(), |i: int| index[i]@)
}

/// Whether one of `tags` has the name `name`.
pub open spec fn has_name(tags: Seq<TagView>, name: Seq<char>) -> bool {
    exists|i: int| 0 <= i < tags.len() && #[trigger] tags[i].name == name
}

/// No two of `tags` have one name.
pub open spec fn distinct_names(tags: Seq<TagView>) -> bool {
    forall|i: int, j: int| 0 <= i < j < tags.len() ==> tags[i].name != tags[j].name
}

/// The handle `b`, once for each time that `t` stands among `tags`.
pub open spec fn mentions(tags: Seq<TagHandle>, t: TagHandle, b: BlogHandle) -> Seq<BlogHandle>
    decreases tags.len(),
{
    if tags.len() == 0 {
        Seq::empty()
    } else if tags.last() == t {
        mentions(tags.drop_last(), t, b).push(b)
    } else {
        mentions(tags.drop_last(), t, b)
    }
}

/// The handles of the articles among `blogs` that carry the tag `t`, in the
/// order of the articles.
pub open spec fn referrers(blogs: Seq<Article>, t: TagHandle) -> Seq<BlogHandle>
    decreases blogs.len(),
{
    if blogs.len() == 0 {
        Seq::empty()
    } else {
        referrers(blogs.drop_last(), t) + mentions(
            blogs.last().tags,
            t,
            (blogs.len() - 1) as usize,
        )
    }
}

/// The articles stand from the newest to the oldest.
pub open spec fn newest_first(blogs: Seq<Article>) -> bool {
    forall|i: int, j: int| 0 <= i < j < blogs.len() ==> date_of(blogs[i]) >= date_of(blogs[j])
}

/// What holds of every cluster: the names of its tags differ; each article
/// has a date that exists and carries tags of the cluster only; the articles
/// stand from the newest to the oldest; and the index lists for each tag the
/// articles that carry it.
pub open spec fn cluster_wf(c: Cluster) -> bool {
    &&& distinct_names(c.tags)
    &&& blogs_wf(c.blogs, c.tags.len())
    &&& c.tag_blogs.len() == c.tags.len()
    &&& forall|t: int|
        0 <= t < c.tags.len() ==> #[trigger] c.tag_blogs[t] == referrers(c.blogs, t as usize)
}

/// What holds of the articles of a cluster with `n` tags.
pub open spec fn blogs_wf(blogs: Seq<Article>, n: nat) -> bool {
    &&& forall|b: int|
        0 <= b < blogs.len() ==> is_valid_date(
            (#[trigger] blogs[b]).year,
            blogs[b].month,
            blogs[b].day,
        )
    &&& forall|b: int, k: int|
        0 <= b < blogs.len() && 0 <= k < blogs[b].tags.len() ==> (#[trigger] blogs[b].tags[k]) < n
    &&& newest_first(blogs)
}

/// Where the first `n` files hold no articles, all of them hold none, for
/// the same reason.
proof fn lemma_articles_of_err(tags: Seq<TagView>, files: Seq<(Seq<char>, Seq<char>)>, n: int)
    requires
        0 <= n <= files.len(),
        articles_of(tags, files.take(n)) is Err,
    ensures
        articles_of(tags, files) == articles_of(tags, files.take(n)),
    decreases files.len() - n,
{
    if n < files.len() {
        assert(files.take(n + 1).drop_last() == files.take(n));
        lemma_articles_of_err(tags, files, n + 1);
    } else {
        assert(files.take(n) == files);
    }
}

/// A tag that no article carries has no referrers.
pub proof fn lemma_no_referrers(blogs: Seq<Article>, t: TagHandle)
    requires
        forall|b: int, k: int|
            0 <= b < blogs.len() && 0 <= k < blogs[b].tags.len() ==> (#[trigger] blogs[b].tags[k])
                != t,
    ensures
        referrers(blogs, t) == Seq::<BlogHandle>::empty(),
    decreases blogs.len(),
{
    if blogs.len() > 0 {
        let init = blogs.drop_last();
        assert forall|b: int, k: int| 0 <= b < init.len() && 0 <= k < init[b].tags.len() implies (
        #[trigger] init[b].tags[k]) != t by {
            assert(init[b] == blogs[b]);
        }
        lemma_no_referrers(init, t);
        lemma_no_mentions(blogs.last().tags, t, (blogs.len() - 1) as usize);
    }
}

/// A tag that is not among `tags` is not mentioned.
proof fn lemma_no_mentions(tags: Seq<TagHandle>, t: TagHandle, b: BlogHandle)
    requires
        forall|k: int| 0 <= k < tags.len() ==> tags[k] != t,
    ensures
        mentions(tags, t, b) == Seq::<BlogHandle>::empty(),
    decreases tags.len(),
{
    if tags.len() > 0 {
        lemma_no_mentions(tags.drop_last(), t, b);
    }
}

/// Why a tag file or an article was turned down.
#[derive(Debug, Clone, Copy, PartialEq, Eq, Structural)]
pub enum ClusterError {
    /// Two tags have one name.
    DuplicateTag,
    /// The article has fewer than three lines of text.
    MissingHeader,
    /// The title in the article and the name of its file differ in their path form.
    TitleMismatch,
    /// The second line is not three integers with `/` between them.
    InvalidTime,
    /// The third line names a tag that the cluster does not have.
    UnknownTag,
    /// The article lacks its preview or its content.
    MissingBody,
    /// The date does not exist, or lies outside the years 2000 to 2200.
    InvalidDate,
}

/// The tags that the lines of a tag file give: a name and a description in
/// turn. A name without a description at the end gives none.
pub open spec fn tag_pairs(lines: Seq<Seq<char>>) -> Seq<TagView> {
    Seq::new(
        (lines.len() / 2) as nat,
        |k: int| TagView { name: lines[2 * k], description: lines[2 * k + 1] },
    )
}

/// The tags of the tag file `raw`.
pub open spec fn tags_in(raw: Seq<char>) -> Seq<TagView> {
    tag_pairs(nonblank_lines(raw))
}

/// The place of the article `a` among `blogs`: behind the articles that are
/// not older than it, counted from the front.
pub open spec fn slot_of(blogs: Seq<Article>, a: Article) -> int
    decreases blogs.len(),
{
    if blogs.len() == 0 || date_of(blogs[0]) < date_of(a) {
        0
    } else {
        1 + slot_of(blogs.drop_first(), a)
    }
}

/// `blogs` with the article `a` at its place.
pub open spec fn with_article(blogs: Seq<Article>, a: Article) -> Seq<Article> {
    blogs.insert(slot_of(blogs, a), a)
}

/// `blogs` with the articles of `added`, each set at its place in turn.
pub open spec fn with_articles(blogs: Seq<Article>, added: Seq<Article>) -> Seq<Article>
    decreases added.len(),
{
    if added.len() == 0 {
        blogs
    } else {
        with_article(with_articles(blogs, added.drop_last()), added.last())
    }
}

/// Before its place stand the articles that are not older than `a`, and at
/// its place one that is older, if any is left.
pub proof fn lemma_slot_of(blogs: Seq<Article>, a: Article)
    ensures
        0 <= slot_of(blogs, a) <= blogs.len(),
        forall|i: int| 0 <= i < slot_of(blogs, a) ==> date_of(#[trigger] blogs[i]) >= date_of(a),
        slot_of(blogs, a) < blogs.len() ==> date_of(blogs[slot_of(blogs, a)]) < date_of(a),
    decreases blogs.len(),
{
    if blogs.len() == 0 || date_of(blogs[0]) < date_of(a) {
    } else {
        let rest = blogs.drop_first();
        lemma_slot_of(rest, a);
        assert forall|i: int| 0 <= i < slot_of(blogs, a) implies date_of(#[trigger] blogs[i])
            >= date_of(a) by {
            if i > 0 {
                assert(blogs[i] == rest[i - 1]);
            }
        }
        if slot_of(blogs, a) < blogs.len() {
            assert(blogs[slot_of(blogs, a)] == rest[slot_of(rest, a)]);
        }
    }
}

/// An article set at its place leaves the articles in their order, the
/// newest first, and stands behind those of its own date.
pub proof fn lemma_with_article(blogs: Seq<Article>, a: Article)
    requires
        newest_first(blogs),
    ensures
        newest_first(with_article(blogs, a)),
        with_article(blogs, a).len() == blogs.len() + 1,
        with_article(blogs, a)[slot_of(blogs, a)] == a,
        forall|i: int|
            0 <= i < slot_of(blogs, a) ==> (#[trigger] with_article(blogs, a)[i]) == blogs[i]
                && date_of(blogs[i]) >= date_of(a),
        forall|i: int|
            slot_of(blogs, a) <= i < blogs.len() ==> (#[trigger] with_article(blogs, a)[i + 1])
                == blogs[i] && date_of(blogs[i]) < date_of(a),
{
    let p = slot_of(blogs, a);
    let out = with_article(blogs, a);
    lemma_slot_of(blogs, a);
    blogs.insert_ensures(p, a);
    assert forall|i: int| p <= i < blogs.len() implies (#[trigger] out[i + 1]) == blogs[i]
        && date_of(blogs[i]) < date_of(a) by {
        assert(date_of(blogs[p]) >= date_of(blogs[i]) || i == p);
    }
    assert forall|i: int, j: int| 0 <= i < j < out.len() implies date_of(out[i]) >= date_of(
        out[j],
    ) by {
        if j < p {
            assert(out[i] == blogs[i] && out[j] == blogs[j]);
        } else if j == p {
            assert(out[i] == blogs[i]);
        } else if i < p {
            assert(out[i] == blogs[i] && out[j] == blogs[j - 1]);
        } else if i == p {
            assert(out[j] == blogs[j - 1]);
        } else {
            assert(out[i] == blogs[i - 1] && out[j] == blogs[j - 1]);
        }
    }
}

/// Articles that are set at their places in turn leave the articles in
/// their order, the newest first, and none is lost.
pub proof fn lemma_with_articles(blogs: Seq<Article>, added: Seq<Article>)
    requires
        newest_first(blogs),
    ensures
        newest_first(with_articles(blogs, added)),
        with_articles(blogs, added).len() == blogs.len() + added.len(),
    decreases added.len(),
{
    if added.len() > 0 {
        lemma_with_articles(blogs, added.drop_last());
        lemma_with_article(with_articles(blogs, added.drop_last()), added.last());
    }
}

/// A file of an article, by the name of the file and its text.
pub open spec fn files(mds: Seq<(String, String)>) -> Seq<(Seq<char>, Seq<char>)> {
    Seq::new(mds.len(), |i: int| (mds[i].0@, mds[i].1@))
}

/// The articles of `files`, in their order; or the first reason why one of
/// them holds none.
pub open spec fn articles_of(tags: Seq<TagView>, files: Seq<(Seq<char>, Seq<char>)>) -> Result<
    Seq<Article>,
    ClusterError,
>
    decreases files.len(),
{
    if files.len() == 0 {
        Ok(Seq::empty())
    } else {
        match articles_of(tags, files.drop_last()) {
            Err(e) => Err(e),
            Ok(init) => match article_of(tags, files.last().0, files.last().1) {
                Err(e) => Err(e),
                Ok(a) => Ok(init.push(a)),
            },
        }
    }
}

/// An article that was read has a date that exists and carries tags of the
/// cluster only.
pub proof fn lemma_article_of(tags: Seq<TagView>, stem: Seq<char>, md: Seq<char>)
    requires
        tags.len() <= usize::MAX,
    ensures
        match article_of(tags, stem, md) {
            Ok(a) => is_valid_date(a.year, a.month, a.day) && forall|k: int|
                0 <= k < a.tags.len() ==> (#[trigger] a.tags[k]) < tags.len(),
            Err(_) => true,
        },
{
    let lines = nonblank_lines(md);
    if lines.len() >= 3 {
        lemma_handles_of(crate::text::split(lines[2], seq!['|']), tags);
    }
}

/// Handles that were found are handles of `tags`.
proof fn lemma_handles_of(pieces: Seq<Seq<char>>, tags: Seq<TagView>)
    requires
        tags.len() <= usize::MAX,
    ensures
        match handles_of(pieces, tags) {
            Some(handles) => forall|k: int|
                0 <= k < handles.len() ==> (#[trigger] handles[k]) < tags.len(),
            None => true,
        },
    decreases pieces.len(),
{
    if pieces.len() > 0 {
        lemma_handles_of(pieces.drop_last(), tags);
        lemma_handle_of(tags, crate::text::trimmed(pieces.last()));
    }
}

/// The articles of `blogs` that carry the tag `t`.
fn referrers_of(blogs: &Vec<Blog>, t: TagHandle) -> (row: Vec<BlogHandle>)
    ensures
        row@ == referrers(articles(blogs@), t),
{
    let mut row: Vec<BlogHandle> = Vec::new();
    let mut b: usize = 0;
    assert(articles(blogs@).take(0) == Seq::<Article>::empty());
    while b < blogs.len()
        invariant
            b <= blogs.len(),
            row@ == referrers(articles(blogs@).take(b as int), t),
        decreases blogs.len() - b,
    {
        let ghost done = row@;
        let tags = &blogs[b].tags;
        let mut k: usize = 0;
        assert(tags@.take(0) == Seq::<TagHandle>::empty());
        while k < tags.len()
            invariant
                k <= tags.len(),
                row@ == done + mentions(tags@.take(k as int), t, b),
            decreases tags.len() - k,
        {
            assert(tags@.take(k + 1).drop_last() == tags@.take(k as int));
            if tags[k] == t {
                row.push(b);
            }
            k += 1;
        }
        assert(tags@.take(tags.len() as int) == tags@);
        assert(articles(blogs@).take(b + 1).drop_last() == articles(blogs@).take(b as int));
        assert(articles(blogs@).take(b + 1).last().tags == tags@);
        b += 1;
    }
    assert(articles(blogs@).take(blogs.len() as int) == articles(blogs@));
    row
}

/// For each of `n` tags, the articles of `blogs` that carry it.
fn index_of(blogs: &Vec<Blog>, n: usize) -> (index: Vec<Vec<BlogHandle>>)
    ensures
        index.len() == n,
        forall|t: int|
            0 <= t < n ==> (#[trigger] index@[t])@ == referrers(articles(blogs@), t as usize),
{
    let mut index: Vec<Vec<BlogHandle>> = Vec::new();
    let mut t: usize = 0;
    while t < n
        invariant
            t <= n,
            index.len() == t,
            forall|u: int|
                0 <= u < t ==> (#[trigger] index@[u])@ == referrers(articles(blogs@), u as usize),
        decreases n - t,
    {
        index.push(referrers_of(blogs, t));
        t += 1;
    }
    index
}

/// Sets `blog` at its place among `blogs`.
fn insert_by_date(blogs: &mut Vec<Blog>, blog: Blog)
    ensures
        articles(final(blogs)@) == with_article(articles(old(blogs)@), blog@),
{
    let ghost before = articles(blogs@);
    let date = time_squash(blog.year as u64, blog.month as u64, blog.day as u64);
    let mut p: usize = 0;
    assert(before.skip(0) == before);
    while p < blogs.len() && time_squash(
        blogs[p].year as u64,
        blogs[p].month as u64,
        blogs[p].day as u64,
    ) >= date
        invariant
            p <= blogs.len(),
            before == articles(blogs@),
            date == date_of(blog@),
            slot_of(before, blog@) == p + slot_of(before.skip(p as int), blog@),
        decreases blogs.len() - p,
    {
        assert(before.skip(p as int).drop_first() == before.skip(p + 1));
        p += 1;
    }
    let ghost a = blog@;
    blogs.insert(p, blog);
    assert(articles(blogs@) == before.insert(p as int, a));
}

/// The tags and the articles of a site. It owns both and hands out
/// handles: the place of a tag among the tags, of an article among the
/// articles.
pub struct BlogClusters {
    tags: Vec<Tag>,
    blogs: Vec<Blog>,
    tag_blog_map: Vec<Vec<BlogHandle>>,
}

impl View for BlogClusters {
    type V = Cluster;

    closed spec fn view(&self) -> Cluster {
        Cluster {
            tags: tag_views(self.tags@),
            blogs: articles(self.blogs@),
            tag_blogs: handle_rows(self.tag_blog_map@),
        }
    }
}

impl BlogClusters {
    /// The cluster is as `cluster_wf` asks.
    pub open spec fn wf(&self) -> bool {
        cluster_wf(self@)
    }

    /// A cluster without tags and articles.
    pub fn new() -> (clusters: BlogClusters)
        ensures
            clusters.wf(),
            clusters@.tags.len() == 0,
            clusters@.blogs.len() == 0,
    {
        BlogClusters { tags: Vec::new(), blogs: Vec::new(), tag_blog_map: Vec::new() }
    }

    /// Adds a tag, unless one of its name is there.
    pub fn add_tag(&mut self, tag_name: String, tag_desc: String) -> (handle: Option<TagHandle>)
        requires
            old(self).wf(),
        ensures
            final(self).wf(),
            final(self)@.blogs == old(self)@.blogs,
            match handle {
                Some(h) => !has_name(old(self)@.tags, tag_name@) && h == old(self)@.tags.len()
                    && final(self)@.tags == old(self)@.tags.push(
                    TagView { name: tag_name@, description: tag_desc@ },
                ),
                None => has_name(old(self)@.tags, tag_name@) && final(self)@ == old(self)@,
            },
    {
        if self.get_tag_handle(tag_name.as_str()).is_some() {
            return None;
        }
        let tag_handle = self.tags.len();
        let ghost added = TagView { name: tag_name@, description: tag_desc@ };
        self.tags.push(Tag::new(tag_name, tag_desc));
        self.tag_blog_map.push(Vec::new());
        proof {
            let before = old(self)@;
            let after = self@;
            assert(after.tags == before.tags.push(added));
            assert(after.blogs == before.blogs);
            assert(after.tag_blogs == before.tag_blogs.push(Seq::empty()));
            assert forall|i: int, j: int| 0 <= i < j < after.tags.len() implies after.tags[i].name
                != after.tags[j].name by {
                if j == before.tags.len() {
                    assert(before.tags[i].name != tag_name@);
                }
            }
            lemma_no_referrers(after.blogs, tag_handle);
        }
        Some(tag_handle)
    }

    /// Adds the tags of a tag file, in their order. Where two tags would have
    /// one name, none is added.
    pub fn add_tags(&mut self, tags_raw: &str) -> (r: Result<(), ClusterError>)
        requires
            old(self).wf(),
        ensures
            final(self).wf(),
            final(self)@.blogs == old(self)@.blogs,
            match r {
                Ok(_) => distinct_names(old(self)@.tags + tags_in(tags_raw@)) && final(self)@.tags
                    == old(self)@.tags + tags_in(tags_raw@),
                Err(e) => e == ClusterError::DuplicateTag && !distinct_names(
                    old(self)@.tags + tags_in(tags_raw@),
                ) && final(self)@ == old(self)@,
            },
    {
        let raw = to_chars(tags_raw);
        let lines = nonblank_lines_of(raw.as_slice());
        let pairs = lines.len() / 2;
        let before = self.tags.len();
        let ghost added = tags_in(tags_raw@);
        let mut k: usize = 0;
        assert(self@.tags == old(self)@.tags + added.take(0));
        while k < pairs
            invariant
                k <= pairs,
                pairs == lines.len() / 2,
                rows(lines@) == nonblank_lines(tags_raw@),
                added == tags_in(tags_raw@),
                self.wf(),
                old(self).wf(),
                before == old(self)@.tags.len(),
                self@.blogs == old(self)@.blogs,
                self@.tags == old(self)@.tags + added.take(k as int),
            decreases pairs - k,
        {
            let name = from_chars(lines[2 * k].as_slice());
            let description = from_chars(lines[2 * k + 1].as_slice());
            assert(added[k as int] == (TagView { name: name@, description: description@ }));
            let ghost so_far = self@.tags;
            match self.add_tag(name, description) {
                Some(_) => {
                    assert(added.take(k + 1) == added.take(k as int).push(added[k as int]));
                    assert(self@.tags == old(self)@.tags + added.take(k + 1));
                },
                None => {
                    proof {
                        let all = old(self)@.tags + added;
                        let i = choose|i: int|
                            0 <= i < so_far.len() && #[trigger] so_far[i].name == name@;
                        assert(all[i] == so_far[i]);
                        assert(all[before + k] == added[k as int]);
                        assert(all[i].name == all[before + k].name);
                    }
                    let ghost full = self@;
                    self.tags.truncate(before);
                    self.tag_blog_map.truncate(before);
                    proof {
                        assert(full.tags == so_far);
                        assert forall|i: int| 0 <= i < before implies self@.tags[i] == old(
                            self,
                        )@.tags[i] by {
                            assert(self@.tags[i] == full.tags[i]);
                        }
                        assert(self@.tags =~= old(self)@.tags);
                        assert forall|t: int| 0 <= t < before implies self@.tag_blogs[t] == old(
                            self,
                        )@.tag_blogs[t] by {
                            assert(self@.tag_blogs[t] == full.tag_blogs[t]);
                            assert(full.tag_blogs[t] == referrers(full.blogs, t as usize));
                            assert(old(self)@.tag_blogs[t] == referrers(
                                old(self)@.blogs,
                                t as usize,
                            ));
                        }
                        assert(self@.tag_blogs =~= old(self)@.tag_blogs);
                    }
                    return Err(ClusterError::DuplicateTag);
                },
            }
            k += 1;
        }
        assert(added.take(pairs as int) == added);
        Ok(())
    }

    /// Reads the articles of `blog_mds`, files by name and text, and sets each
    /// at its place by its date, behind the articles of the same date. Where
    /// one of the files holds no article, none is added.
    pub fn add_blogs(&mut self, blog_mds: &[(String, String)]) -> (r: Result<(), ClusterError>)
        requires
            old(self).wf(),
        ensures
            final(self).wf(),
            final(self)@.tags == old(self)@.tags,
            match r {
                Ok(_) => match articles_of(old(self)@.tags, files(blog_mds@)) {
                    Ok(added) => final(self)@.blogs == with_articles(old(self)@.blogs, added),
                    Err(_) => false,
                },
                Err(e) => articles_of(old(self)@.tags, files(blog_mds@)) == Err::<
                    Seq<Article>,
                    ClusterError,
                >(e) && final(self)@ == old(self)@,
            },
    {
        let ghost tags = self@.tags;
        let ghost all = files(blog_mds@);
        let mut loaded: Vec<Blog> = Vec::new();
        let mut i: usize = 0;
        assert(tags.len() == self.tags.len());
        assert(all.take(0) == Seq::<(Seq<char>, Seq<char>)>::empty());
        assert(articles(loaded@) == Seq::<Article>::empty());
        while i < blog_mds.len()
            invariant
                i <= blog_mds.len(),
                loaded.len() == i,
                self@ == old(self)@,
                old(self).wf(),
                tags == tag_views(self.tags@),
                tags.len() <= usize::MAX,
                all == files(blog_mds@),
                articles_of(tags, all.take(i as int)) == Ok::<Seq<Article>, ClusterError>(
                    articles(loaded@),
                ),
                forall|b: int|
                    0 <= b < loaded.len() ==> is_valid_date(
                        (#[trigger] loaded@[b])@.year,
                        loaded@[b]@.month,
                        loaded@[b]@.day,
                    ),
                forall|b: int, k: int|
                    0 <= b < loaded.len() && 0 <= k < loaded@[b]@.tags.len() ==> (
                    #[trigger] loaded@[b]@.tags[k]) < tags.len(),
            decreases blog_mds.len() - i,
        {
            let ghost so_far = articles(loaded@);
            assert(all.take(i + 1).drop_last() == all.take(i as int));
            assert(all.take(i + 1).last() == all[i as int]);
            proof {
                lemma_article_of(tags, all[i as int].0, all[i as int].1);
            }
            match load_article(&self.tags, blog_mds[i].0.as_str(), blog_mds[i].1.as_str()) {
                Ok(blog) => {
                    loaded.push(blog);
                    assert(articles(loaded@) == so_far.push(loaded@[i as int]@));
                },
                Err(e) => {
                    proof {
                        lemma_articles_of_err(tags, all, i + 1);
                    }
                    return Err(e);
                },
            }
            i += 1;
        }
        assert(all.take(blog_mds.len() as int) == all);
        let ghost added = articles(loaded@);
        let count = loaded.len();
        let mut j: usize = 0;
        assert(added.take(0) == Seq::<Article>::empty());
        for blog in it: loaded
            invariant
                count == it.seq().len(),
                added == articles(it.seq()),
                tags == tag_views(self.tags@),
                forall|b: int|
                    0 <= b < it.seq().len() ==> is_valid_date(
                        (#[trigger] it.seq()[b])@.year,
                        it.seq()[b]@.month,
                        it.seq()[b]@.day,
                    ),
                forall|b: int, k: int|
                    0 <= b < it.seq().len() && 0 <= k < it.seq()[b]@.tags.len() ==> (
                    #[trigger] it.seq()[b]@.tags[k]) < tags.len(),
                articles(self.blogs@) == with_articles(
                    old(self)@.blogs,
                    added.take(it.index() as int),
                ),
                blogs_wf(articles(self.blogs@), tags.len()),
        {
            let ghost before = articles(self.blogs@);
            let ghost a = blog@;
            assert(added.take(it.index() + 1).drop_last() == added.take(it.index() as int));
            assert(added.take(it.index() + 1).last() == a);
            proof {
                lemma_with_article(before, a);
                lemma_slot_of(before, a);
            }
            insert_by_date(&mut self.blogs, blog);
            proof {
                let after = articles(self.blogs@);
                let p = slot_of(before, a);
                assert forall|b: int| 0 <= b < after.len() implies is_valid_date(
                    (#[trigger] after[b]).year,
                    after[b].month,
                    after[b].day,
                ) && forall|k: int|
                    0 <= k < after[b].tags.len() ==> (#[trigger] after[b].tags[k]) < tags.len() by {
                    if b < p {
                        assert(after[b] == before[b]);
                    } else if b == p {
                        assert(after[b] == a);
                    } else {
                        assert(after[(b - 1) + 1] == before[b - 1]);
                    }
                }
            }
        }
        assert(added.take(count as int) == added);
        self.tag_blog_map = index_of(&self.blogs, self.tags.len());
        Ok(())
    }

    /// The handle of the tag named `tag_name`.
    pub fn get_tag_handle(&self, tag_name: &str) -> (handle: Option<TagHandle>)
        ensures
            handle == handle_of(self@.tags, tag_name@),
            match handle {
                Some(h) => h < self@.tags.len() && self@.tags[h as int].name == tag_name@,
                None => !has_name(self@.tags, tag_name@),
            },
    {
        let name = to_chars(tag_name);
        proof {
            assert(self@.tags.len() == self.tags.len());
            lemma_handle_of(self@.tags, tag_name@);
        }
        find_tag(&self.tags, name.as_slice())
    }

    /// The tag with the handle `tag_handle`.
    pub fn get_tag(&self, tag_handle: TagHandle) -> (tag: Option<&Tag>)
        ensures
            match tag {
                Some(t) => tag_handle < self@.tags.len() && t@ == self@.tags[tag_handle as int],
                None => tag_handle >= self@.tags.len(),
            },
    {
        if tag_handle < self.tags.len() {
            Some(&self.tags[tag_handle])
        } else {
            None
        }
    }

    /// The handles of the articles that carry the tag `tag_handle`, in the
    /// order of the articles.
    pub fn get_tag_blogs(&self, tag_handle: TagHandle) -> (blogs: Option<&Vec<BlogHandle>>)
        requires
            self.wf(),
        ensures
            match blogs {
                Some(row) => tag_handle < self@.tags.len() && row@ == referrers(
                    self@.blogs,
                    tag_handle,
                ),
                None => tag_handle >= self@.tags.len(),
            },
    {
        if tag_handle < self.tag_blog_map.len() {
            assert(self@.tag_blogs[tag_handle as int] == self.tag_blog_map@[tag_handle as int]@);
            Some(&self.tag_blog_map[tag_handle])
        } else {
            None
        }
    }

    /// The tags, in the order of their handles.
    pub fn get_tags(&self) -> (tags: &Vec<Tag>)
        ensures
            tag_views(tags@) == self@.tags,
    {
        &self.tags
    }

    /// The articles, the newest first.
    pub fn get_blogs(&self) -> (blogs: &Vec<Blog>)
        ensures
            articles(blogs@) == self@.blogs,
    {
        &self.blogs
    }

    /// The number of articles.
    pub fn num_blog(&self) -> (n: usize)
        ensures
            n == self@.blogs.len(),
    {
        self.blogs.len()
    }

    /// The number of tags.
    pub fn num_tag(&self) -> (n: usize)
        ensures
            n == self@.tags.len(),
    {
        self.tags.len()
    }
}

} // verus!
