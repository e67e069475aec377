//! A static blog generator's content pipeline: template grammar, article and tag
//! model, page renderers and the text utilities they rely on.

pub mod blog;
pub mod blog_clusters;
pub mod bytewise;
pub mod codeblock;
pub mod escape;
pub mod highlight;
pub mod hlf_parser;
pub mod latex;
pub mod loader;
pub mod markdown;
pub mod number;
pub mod shared;
pub mod tag;
pub mod template;
pub mod template_blog;
pub mod template_cluster;
pub mod template_homepage;
pub mod text;
