use vstd::prelude::*;

verus! {

/// A tag: its name, which no other tag of a cluster has, and what it is about.
#[derive(Clone, Debug, Hash, PartialEq, Eq)]
pub struct Tag {
    pub name: String,
    pub description: String,
}

/// What a `Tag` stands for.
pub struct TagView {
    pub name: Seq<char>,
    pub description: Seq<char>,
}

impl View for Tag {
    type V = TagView;

    open spec fn view(&self) -> TagView {
        TagView { name: self.name@, description: self.description@ }
    }
}

impl Tag {
    /// A tag named `name`.
    pub fn new(name: String, description: String) -> (tag: Tag)
        ensures
            tag@ == (TagView { name: name@, description: description@ }),
    {
        Tag { name: name, description: description }
    }
}

} // verus!
