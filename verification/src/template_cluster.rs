//! The page of the clusters. It has a file of its own and, so far, no text.

use crate::blog_clusters::{files, BlogClusters, Cluster};
use crate::hlf_parser::{productions, Production, HLF};
use crate::template::{load_hlfs, HTMLTemplate, RenderError};
use vstd::prelude::*;

verus! {

/// The template of the page of the clusters.
pub struct ClusterTemplate {
    hlfs: Vec<HLF>,
}

impl HTMLTemplate for ClusterTemplate {
    closed spec fn template(&self) -> Seq<Production> {
        productions(self.hlfs@)
    }

    fn load(template_raw: &str) -> (r: Result<Self, String>) {
        match load_hlfs(template_raw) {
            Ok(hlfs) => Ok(ClusterTemplate { hlfs }),
            Err(msg) => Err(msg),
        }
    }

    /// The one file `clusters.html`, which is empty.
    open spec fn pages(&self, c: Cluster) -> Result<Seq<(Seq<char>, Seq<char>)>, RenderError> {
        Ok(seq![("clusters.html"@, Seq::<char>::empty())])
    }

    fn fill(&self, blog_clusters: &BlogClusters) -> (r: Result<Vec<(String, String)>, RenderError>) {
        let mut made: Vec<(String, String)> = Vec::new();
        made.push(("clusters.html".to_owned(), String::new()));
        assert(files(made@) == seq![("clusters.html"@, Seq::<char>::empty())]);
        Ok(made)
    }
}

} // verus!
