//! Reading an article from its file: three lines of header (title, date,
//! tags), and behind a line `---` each the preview and the content.

use crate::blog::{is_valid_date, valid_date, Article, Blog};
use crate::blog_clusters::{tag_views, ClusterError, TagHandle};
use crate::number::{i64_of, parse_i64};
use crate::shared::{path_of, slug};
use crate::tag::{Tag, TagView};
use crate::text::{
    from_chars, nonblank_lines, nonblank_lines_of, rows, same_chars, split, split_chars, to_chars,
    trim, trimmed,
};
use vstd::prelude::*;

verus! {

/// The handle of the first of `tags` that has the name `name`.
pub open spec fn handle_of(tags: Seq<TagView>, name: Seq<char>) -> Option<TagHandle>
    decreases tags.len(),
{
    if tags.len() == 0 {
        None
    } else {
        match handle_of(tags.drop_last(), name) {
            Some(h) => Some(h),
            None => if tags.last().name == name {
                Some((tags.len() - 1) as usize)
            } else {
                None
            },
        }
    }
}

/// `handle_of` gives the first tag of that name, and none where there is none.
pub proof fn lemma_handle_of(tags: Seq<TagView>, name: Seq<char>)
    requires
        tags.len() <= usize::MAX,
    ensures
        match handle_of(tags, name) {
            Some(h) => h < tags.len() && tags[h as int].name == name && forall|k: int|
                0 <= k < h ==> (#[trigger] tags[k]).name != name,
            None => forall|k: int| 0 <= k < tags.len() ==> (#[trigger] tags[k]).name != name,
        },
    decreases tags.len(),
{
    if tags.len() > 0 {
        let init = tags.drop_last();
        lemma_handle_of(init, name);
        match handle_of(init, name) {
            Some(h) => {
                assert(init[h as int] == tags[h as int]);
                assert forall|k: int| 0 <= k < h implies (#[trigger] tags[k]).name != name by {
                    assert(init[k] == tags[k]);
                }
            },
            None => {
                assert forall|k: int| 0 <= k < tags.len() - 1 implies (#[trigger] tags[k]).name
                    != name by {
                    assert(init[k] == tags[k]);
                }
            },
        }
    }
}

/// Looks the tag named `name` up among `tags`.
pub fn find_tag(tags: &Vec<Tag>, name: &[char]) -> (handle: Option<TagHandle>)
    ensures
        handle == handle_of(tag_views(tags@), name@),
{
    let mut i: usize = 0;
    assert(tag_views(tags@).take(0) == Seq::<TagView>::empty());
    while i < tags.len()
        invariant
            i <= tags.len(),
            handle_of(tag_views(tags@).take(i as int), name@) is None,
        decreases tags.len() - i,
    {
        assert(tag_views(tags@).take(i + 1).drop_last() == tag_views(tags@).take(i as int));
        let tag_name = to_chars(tags[i].name.as_str());
        if same_chars(tag_name.as_slice(), name) {
            proof {
                lemma_handle_later(tag_views(tags@), i + 1, name@);
            }
            return Some(i);
        }
        i += 1;
    }
    assert(tag_views(tags@).take(tags.len() as int) == tag_views(tags@));
    None
}

/// A tag that is found among the first `n` tags is found among all.
proof fn lemma_handle_later(tags: Seq<TagView>, n: int, name: Seq<char>)
    requires
        0 <= n <= tags.len(),
        handle_of(tags.take(n), name) is Some,
    ensures
        handle_of(tags, name) == handle_of(tags.take(n), name),
    decreases tags.len() - n,
{
    if n < tags.len() {
        assert(tags.take(n + 1).drop_last() == tags.take(n));
        lemma_handle_later(tags, n + 1, name);
    } else {
        assert(tags.take(n) == tags);
    }
}

/// The integers that `pieces` stand for, each without the white space around
/// it; `None` where one of them stands for none.
pub open spec fn numbers_of(pieces: Seq<Seq<char>>) -> Option<Seq<i64>>
    decreases pieces.len(),
{
    if pieces.len() == 0 {
        Some(Seq::empty())
    } else {
        match (numbers_of(pieces.drop_last()), i64_of(trimmed(pieces.last()))) {
            (Some(init), Some(n)) => Some(init.push(n)),
            _ => None,
        }
    }
}

/// The handles of the tags that `pieces` name, each without the white space
/// around it; `None` where one of them names no tag.
pub open spec fn handles_of(pieces: Seq<Seq<char>>, tags: Seq<TagView>) -> Option<Seq<TagHandle>>
    decreases pieces.len(),
{
    if pieces.len() == 0 {
        Some(Seq::empty())
    } else {
        match (handles_of(pieces.drop_last(), tags), handle_of(tags, trimmed(pieces.last()))) {
            (Some(init), Some(h)) => Some(init.push(h)),
            _ => None,
        }
    }
}

/// The article that the file named `stem` holds, whose text is `md`, for a
/// cluster with the tags `tags`; or the first reason, in the order of the
/// file, why it holds none.
pub open spec fn article_of(tags: Seq<TagView>, stem: Seq<char>, md: Seq<char>) -> Result<
    Article,
    ClusterError,
> {
    let lines = nonblank_lines(md);
    let parts = split(md, "---"@);
    if lines.len() < 1 {
        Err(ClusterError::MissingHeader)
    } else if slug(lines[0]) != slug(stem) {
        Err(ClusterError::TitleMismatch)
    } else if lines.len() < 2 {
        Err(ClusterError::MissingHeader)
    } else {
        match numbers_of(split(lines[1], seq!['/'])) {
            None => Err(ClusterError::InvalidTime),
            Some(date) => if date.len() != 3 {
                Err(ClusterError::InvalidTime)
            } else if lines.len() < 3 {
                Err(ClusterError::MissingHeader)
            } else {
                match handles_of(split(lines[2], seq!['|']), tags) {
                    None => Err(ClusterError::UnknownTag),
                    Some(handles) => if parts.len() < 3 {
                        Err(ClusterError::MissingBody)
                    } else if !is_valid_date(date[0] as int, date[1] as int, date[2] as int) {
                        Err(ClusterError::InvalidDate)
                    } else {
                        Ok(
                            Article {
                                year: date[0] as int,
                                month: date[1] as int,
                                day: date[2] as int,
                                title: lines[0],
                                tags: handles,
                                preview: trimmed(parts[1]),
                                content: trimmed(parts[2]),
                            },
                        )
                    },
                }
            },
        }
    }
}

/// Reads the line of the date.
fn parse_numbers(line: &[char]) -> (r: Option<Vec<i64>>)
    ensures
        match r {
            Some(v) => numbers_of(split(line@, seq!['/'])) == Some(v@),
            None => numbers_of(split(line@, seq!['/'])) is None,
        },
{
    let mut sep: Vec<char> = Vec::new();
    sep.push('/');
    assert(sep@ == seq!['/']);
    let pieces = split_chars(line, sep.as_slice());
    let mut out: Vec<i64> = Vec::new();
    let mut i: usize = 0;
    assert(rows(pieces@).take(0) == Seq::<Seq<char>>::empty());
    while i < pieces.len()
        invariant
            i <= pieces.len(),
            rows(pieces@) == split(line@, seq!['/']),
            numbers_of(rows(pieces@).take(i as int)) == Some(out@),
        decreases pieces.len() - i,
    {
        assert(rows(pieces@).take(i + 1).drop_last() == rows(pieces@).take(i as int));
        assert(rows(pieces@).take(i + 1).last() == pieces@[i as int]@);
        match parse_i64(trim(pieces[i].as_slice())) {
            Some(n) => {
                out.push(n);
            },
            None => {
                proof {
                    lemma_numbers_none(rows(pieces@), i + 1);
                }
                return None;
            },
        }
        i += 1;
    }
    assert(rows(pieces@).take(pieces.len() as int) == rows(pieces@));
    Some(out)
}

/// Where the first `n` pieces stand for no numbers, all of them stand for none.
proof fn lemma_numbers_none(pieces: Seq<Seq<char>>, n: int)
    requires
        0 <= n <= pieces.len(),
        numbers_of(pieces.take(n)) is None,
    ensures
        numbers_of(pieces) is None,
    decreases pieces.len() - n,
{
    if n < pieces.len() {
        assert(pieces.take(n + 1).drop_last() == pieces.take(n));
        lemma_numbers_none(pieces, n + 1);
    } else {
        assert(pieces.take(n) == pieces);
    }
}

/// Reads the line of the tags.
fn parse_handles(line: &[char], tags: &Vec<Tag>) -> (r: Option<Vec<TagHandle>>)
    ensures
        match r {
            Some(v) => handles_of(split(line@, seq!['|']), tag_views(tags@)) == Some(v@),
            None => handles_of(split(line@, seq!['|']), tag_views(tags@)) is None,
        },
{
    let mut sep: Vec<char> = Vec::new();
    sep.push('|');
    assert(sep@ == seq!['|']);
    let pieces = split_chars(line, sep.as_slice());
    let mut out: Vec<TagHandle> = Vec::new();
    let mut i: usize = 0;
    assert(rows(pieces@).take(0) == Seq::<Seq<char>>::empty());
    while i < pieces.len()
        invariant
            i <= pieces.len(),
            rows(pieces@) == split(line@, seq!['|']),
            handles_of(rows(pieces@).take(i as int), tag_views(tags@)) == Some(out@),
        decreases pieces.len() - i,
    {
        assert(rows(pieces@).take(i + 1).drop_last() == rows(pieces@).take(i as int));
        assert(rows(pieces@).take(i + 1).last() == pieces@[i as int]@);
        match find_tag(tags, trim(pieces[i].as_slice())) {
            Some(h) => {
                out.push(h);
            },
            None => {
                proof {
                    lemma_handles_none(rows(pieces@), i + 1, tag_views(tags@));
                }
                return None;
            },
        }
        i += 1;
    }
    assert(rows(pieces@).take(pieces.len() as int) == rows(pieces@));
    Some(out)
}

/// Where the first `n` pieces name a tag that is not there, all of them do.
proof fn lemma_handles_none(pieces: Seq<Seq<char>>, n: int, tags: Seq<TagView>)
    requires
        0 <= n <= pieces.len(),
        handles_of(pieces.take(n), tags) is None,
    ensures
        handles_of(pieces, tags) is None,
    decreases pieces.len() - n,
{
    if n < pieces.len() {
        assert(pieces.take(n + 1).drop_last() == pieces.take(n));
        lemma_handles_none(pieces, n + 1, tags);
    } else {
        assert(pieces.take(n) == pieces);
    }
}

/// Reads the article of the file named `stem`, whose text is `md`.
pub fn load_article(tags: &Vec<Tag>, stem: &str, md: &str) -> (r: Result<Blog, ClusterError>)
    ensures
        match r {
            Ok(blog) => article_of(tag_views(tags@), stem@, md@) == Ok::<Article, ClusterError>(
                blog@,
            ),
            Err(e) => article_of(tag_views(tags@), stem@, md@) == Err::<Article, ClusterError>(e),
        },
{
    let text = to_chars(md);
    let lines = nonblank_lines_of(text.as_slice());
    if lines.len() < 1 {
        return Err(ClusterError::MissingHeader);
    }
    let title = lines[0].as_slice();
    let stem_chars = to_chars(stem);
    let title_path = path_of(title);
    let stem_path = path_of(stem_chars.as_slice());
    if !same_chars(title_path.as_slice(), stem_path.as_slice()) {
        return Err(ClusterError::TitleMismatch);
    }
    if lines.len() < 2 {
        return Err(ClusterError::MissingHeader);
    }
    let date = match parse_numbers(lines[1].as_slice()) {
        Some(d) => d,
        None => {
            return Err(ClusterError::InvalidTime);
        },
    };
    if date.len() != 3 {
        return Err(ClusterError::InvalidTime);
    }
    if lines.len() < 3 {
        return Err(ClusterError::MissingHeader);
    }
    let handles = match parse_handles(lines[2].as_slice(), tags) {
        Some(h) => h,
        None => {
            return Err(ClusterError::UnknownTag);
        },
    };
    let rule = to_chars("---");
    let parts = split_chars(text.as_slice(), rule.as_slice());
    if parts.len() < 3 {
        return Err(ClusterError::MissingBody);
    }
    if !valid_date(date[0], date[1], date[2]) {
        return Err(ClusterError::InvalidDate);
    }
    let title = from_chars(title);
    let preview = from_chars(trim(parts[1].as_slice()));
    let content = from_chars(trim(parts[2].as_slice()));
    Ok(
        Blog::new(
            date[0],
            date[1],
            date[2],
            title.as_str(),
            &handles,
            preview.as_str(),
            content.as_str(),
        ),
    )
}

} // verus!
