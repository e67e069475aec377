use blog_builder::blog_clusters::BlogClusters;
use blog_builder::codeblock::{char_index_of, code_blocks_in, find_code_blocks, put_codes};
use blog_builder::highlight::{highlight_code, lang2ext, split_lines};
use blog_builder::markdown::render_markdown;
use blog_builder::template::{HTMLTemplate, RenderError};
use blog_builder::template_blog::{highlight_page, BlogTemplate};
use blog_builder::template_cluster::ClusterTemplate;
use blog_builder::template_homepage::HomepageTemplate;
use blog_builder::text::{from_chars, to_chars};

const HOMEPAGE: &str = "<!--symbol-->main<!--symbol--><!--content--><html><!--symbol-->blog<!--symbol--></html><!--content-->
<!--symbol-->blog<!--symbol--><!--content--><a href=\"_slot_of_blog_path\">_slot_of_blog_title</a><p>_slot_of_blog_preview</p><!--symbol-->tags<!--symbol--><hr><!--content-->
<!--symbol-->tags<!--symbol--><!--content--><ul><!--symbol-->tag<!--symbol--></ul><!--content-->
<!--symbol-->tag<!--symbol--><!--content--><li>_slot_of_tag_name</li><!--content-->";

const BLOG: &str = "<!--symbol-->main<!--symbol--><!--content--><h1>_slot_of_blog_title</h1><i>_slot_of_blog_year-_slot_of_blog_month-_slot_of_blog_day</i><p>_slot_of_blog_preview</p>_slot_of_blog_content<!--symbol-->tags<!--symbol--><end><!--content-->
<!--symbol-->tags<!--symbol--><!--content--><ul><!--symbol-->tag<!--symbol--></ul><!--content-->
<!--symbol-->tag<!--symbol--><!--content--><li>_slot_of_tag_name</li><!--content-->";

fn two_articles() -> BlogClusters {
    let mut clusters = BlogClusters::new();
    clusters.add_tags("life\nabout life\n\nwork\nabout work\n").unwrap();
    clusters
        .add_blogs(&vec![
            (
                "old-one".to_string(),
                "Old One\n2000/12/31\nlife\n---\nold preview\n---\nold content\n".to_string(),
            ),
            (
                "new-one".to_string(),
                "New One\n2001/1/1\nwork | life\n---\nnew preview\n---\nnew content\n".to_string(),
            ),
        ])
        .unwrap();
    clusters
}

#[test]
fn homepage_lists_newest_article_first() {
    let clusters = two_articles();
    let template: HomepageTemplate = HTMLTemplate::load(HOMEPAGE).unwrap();
    let pages = template.fill(&clusters).unwrap();
    assert_eq!(pages.len(), 1);
    assert_eq!(pages[0].0, "index.html");
    assert_eq!(
        pages[0].1,
        "<html><a href=\"new-one.html\">New One</a><p>new preview</p><ul><li>work</li><li>life</li></ul><hr>\
         <a href=\"old-one.html\">Old One</a><p>old preview</p><ul><li>life</li></ul><hr></html>"
    );
}

#[test]
fn homepage_of_empty_cluster_is_prefix_and_suffix() {
    let clusters = BlogClusters::new();
    let template: HomepageTemplate = HTMLTemplate::load(HOMEPAGE).unwrap();
    let pages = template.fill(&clusters).unwrap();
    assert_eq!(pages[0].1, "<html></html>");
}

#[test]
fn homepage_needs_its_shape() {
    let clusters = two_articles();
    let no_main = "<!--symbol-->other<!--symbol--><!--content-->x<!--content-->";
    let template: HomepageTemplate = HTMLTemplate::load(no_main).unwrap();
    assert_eq!(template.fill(&clusters), Err(RenderError::TemplateShape));
    let short = "<!--symbol-->main<!--symbol--><!--content-->only text<!--content-->";
    let template: HomepageTemplate = HTMLTemplate::load(short).unwrap();
    assert_eq!(template.fill(&clusters), Err(RenderError::TemplateShape));
    let dangling = "<!--symbol-->main<!--symbol--><!--content-->a<!--symbol-->gone<!--symbol-->b<!--content-->";
    let template: HomepageTemplate = HTMLTemplate::load(dangling).unwrap();
    assert_eq!(template.fill(&clusters), Err(RenderError::TemplateShape));
}

#[test]
fn first_production_of_a_name_wins() {
    let twice = "<!--symbol-->main<!--symbol--><!--content-->A<!--symbol-->b<!--symbol-->Z<!--content-->\
                 <!--symbol-->main<!--symbol--><!--content-->second<!--content-->\
                 <!--symbol-->b<!--symbol--><!--content-->[<!--symbol-->l<!--symbol-->]<!--content-->\
                 <!--symbol-->l<!--symbol--><!--content-->(<!--symbol-->t<!--symbol-->)<!--content-->\
                 <!--symbol-->t<!--symbol--><!--content-->_slot_of_tag_name<!--content-->";
    let template: HomepageTemplate = HTMLTemplate::load(twice).unwrap();
    let pages = template.fill(&two_articles()).unwrap();
    assert_eq!(pages[0].1, "A[(worklife)][(life)]Z");
}

#[test]
fn load_rejects_a_broken_template() {
    let broken = "<!--symbol--> the symbol <!--symbol-->";
    let homepage: Result<HomepageTemplate, String> = HTMLTemplate::load(broken);
    assert_eq!(homepage.err(), Some("template parse failed".to_string()));
    let blog: Result<BlogTemplate, String> = HTMLTemplate::load(broken);
    assert_eq!(blog.err(), Some("template parse failed".to_string()));
    let cluster: Result<ClusterTemplate, String> = HTMLTemplate::load(broken);
    assert_eq!(cluster.err(), Some("template parse failed".to_string()));
}

#[test]
fn cluster_page_is_one_empty_file() {
    let template: ClusterTemplate = HTMLTemplate::load(HOMEPAGE).unwrap();
    let pages = template.fill(&two_articles()).unwrap();
    assert_eq!(pages, vec![("clusters.html".to_string(), String::new())]);
}

#[test]
fn blog_pages_follow_the_articles() {
    let clusters = two_articles();
    let template: BlogTemplate = HTMLTemplate::load(BLOG).unwrap();
    let pages = template.fill(&clusters).unwrap();
    assert_eq!(pages.len(), 2);
    assert_eq!(pages[0].0, "new-one.html");
    assert_eq!(
        pages[0].1,
        "<h1>New One</h1><i>2001-1-1</i><p>new preview</p><p>new content</p>\n<ul><li>work</li><li>life</li></ul><end>"
    );
    assert_eq!(pages[1].0, "old-one.html");
    assert_eq!(
        pages[1].1,
        "<h1>Old One</h1><i>2000-12-31</i><p>old preview</p><p>old content</p>\n<ul><li>life</li></ul><end>"
    );
}

#[test]
fn blog_page_sets_formulas_back_in() {
    let mut clusters = BlogClusters::new();
    clusters.add_tags("life\nabout life\n").unwrap();
    clusters
        .add_blogs(&vec![(
            "m".to_string(),
            "M\n2020/2/29\nlife\n---\np\n---\nsee $a<b$ here\n".to_string(),
        )])
        .unwrap();
    let template: BlogTemplate = HTMLTemplate::load(BLOG).unwrap();
    let pages = template.fill(&clusters).unwrap();
    assert_eq!(
        pages[0].1,
        "<h1>M</h1><i>2020-2-29</i><p>p</p><p>see <div class=\"latex\">$a&lt;b$</div> here</p>\n<ul><li>life</li></ul><end>"
    );
}

#[test]
fn blog_page_fails_on_a_mark_that_is_lost() {
    let mut clusters = BlogClusters::new();
    clusters.add_tags("life\nabout life\n").unwrap();
    clusters
        .add_blogs(&vec![(
            "m".to_string(),
            "M\n2020/2/29\nlife\n---\np\n---\nsee $a$ here\n".to_string(),
        )])
        .unwrap();
    let no_content_slot = "<!--symbol-->main<!--symbol--><!--content-->x<!--symbol-->tags<!--symbol-->y<!--content-->
<!--symbol-->tags<!--symbol--><!--content-->(<!--symbol-->tag<!--symbol-->)<!--content-->
<!--symbol-->tag<!--symbol--><!--content-->t<!--content-->";
    let template: BlogTemplate = HTMLTemplate::load(no_content_slot).unwrap();
    assert_eq!(template.fill(&clusters), Err(RenderError::LatexMismatch));
}

#[test]
fn blog_page_fails_on_an_unknown_language() {
    let mut clusters = BlogClusters::new();
    clusters.add_tags("life\nabout life\n").unwrap();
    clusters
        .add_blogs(&vec![(
            "m".to_string(),
            "M\n2020/2/29\nlife\n---\np\n---\n```nosuchlanguage\nx\n```\n".to_string(),
        )])
        .unwrap();
    let template: BlogTemplate = HTMLTemplate::load(BLOG).unwrap();
    assert_eq!(template.fill(&clusters), Err(RenderError::UnknownLanguage));
}

#[test]
fn blog_template_needs_its_shape() {
    let template: BlogTemplate = HTMLTemplate::load(HOMEPAGE).unwrap();
    assert_eq!(template.fill(&BlogClusters::new()), Err(RenderError::TemplateShape));
}

#[test]
fn markdown_becomes_html() {
    assert_eq!(render_markdown("# hi"), "<h1>hi</h1>\n");
    assert_eq!(render_markdown("~~gone~~"), "<p><del>gone</del></p>\n");
    assert_eq!(
        render_markdown("```rust\nlet a = 1;\n```\n"),
        "<pre lang=\"rust\"><code>let a = 1;\n</code></pre>\n"
    );
}

#[test]
fn languages_map_to_extensions() {
    assert_eq!(lang2ext("cpp"), "cpp");
    assert_eq!(lang2ext("c++"), "cpp");
    assert_eq!(lang2ext("cxx"), "cpp");
    assert_eq!(lang2ext("rust"), "rs");
    assert_eq!(lang2ext("pascal"), "pas");
    assert_eq!(lang2ext("ebnf"), "txt");
    assert_eq!(lang2ext(""), "txt");
    assert_eq!(lang2ext("py"), "py");
}

#[test]
fn lines_keep_their_endings() {
    assert_eq!(split_lines(&to_chars("foo\nbar\nbaz")), vec!["foo\n", "bar\n", "baz"]);
    assert_eq!(split_lines(&to_chars("a\n\n")), vec!["a\n", "\n"]);
    assert_eq!(split_lines(&to_chars("")), Vec::<String>::new());
}

#[test]
fn code_is_highlighted() {
    let html = highlight_code("txt", "a &lt; b").unwrap();
    assert!(html.starts_with("<span style=\""));
    assert!(html.ends_with("a &lt; b</span>"));
    let rust = highlight_code("rust", "let a = 1;\n").unwrap();
    assert!(rust.contains("<span"));
    assert!(rust.contains("let"));
    assert_ne!(rust, "let a = 1;\n");
    assert_eq!(highlight_code("nosuchlanguage", "x"), None);
}

#[test]
fn bytes_become_character_indices() {
    let s = to_chars("a\u{e9}\u{4e2d}\u{1f600}z");
    assert_eq!(char_index_of(&s, 0), Some(0));
    assert_eq!(char_index_of(&s, 1), Some(1));
    assert_eq!(char_index_of(&s, 2), None);
    assert_eq!(char_index_of(&s, 3), Some(2));
    assert_eq!(char_index_of(&s, 6), Some(3));
    assert_eq!(char_index_of(&s, 10), Some(4));
    assert_eq!(char_index_of(&s, 11), Some(5));
    assert_eq!(char_index_of(&s, 12), None);
}

#[test]
fn code_blocks_are_found_behind_wide_characters() {
    let page = to_chars("\u{4e2d}<pre lang=\"rs\"><code>x</code></pre>!");
    let found = find_code_blocks(&page).unwrap();
    assert_eq!(found.len(), 1);
    assert_eq!(found[0].start, 1);
    assert_eq!(found[0].end, 36);
    assert_eq!(from_chars(&found[0].lang), "rs");
    assert_eq!(from_chars(&found[0].code), "x");
    let out = put_codes(&page, &found, &vec!["X".to_string()]).unwrap();
    assert_eq!(from_chars(&out), "\u{4e2d}<pre lang=\"rs\"><code>X</code></pre>!");
    assert_eq!(put_codes(&page, &found, &vec![]), None);
    assert_eq!(put_codes(&to_chars("short"), &found, &vec!["X".to_string()]), None);
}

#[test]
fn matches_that_are_no_blocks_are_turned_down() {
    let page = to_chars("0123456789");
    let good = vec![vec![Some((0, 4)), Some((1, 2)), Some((2, 3))]];
    assert_eq!(code_blocks_in(&page, &good).unwrap().len(), 1);
    let short = vec![vec![Some((0, 4)), Some((1, 2))]];
    assert!(code_blocks_in(&page, &short).is_none());
    let missing = vec![vec![Some((0, 4)), None, Some((2, 3))]];
    assert!(code_blocks_in(&page, &missing).is_none());
    let beyond = vec![vec![Some((0, 11)), Some((1, 2)), Some((2, 3))]];
    assert!(code_blocks_in(&page, &beyond).is_none());
    let backwards = vec![vec![Some((4, 0)), Some((1, 2)), Some((2, 3))]];
    assert!(code_blocks_in(&page, &backwards).is_none());
    let overlapping = vec![
        vec![Some((0, 4)), Some((1, 2)), Some((2, 3))],
        vec![Some((3, 6)), Some((4, 5)), Some((5, 6))],
    ];
    assert!(code_blocks_in(&page, &overlapping).is_none());
}

#[test]
fn page_keeps_the_text_between_code_blocks() {
    let page = "a<pre lang=\"\"><code>1 &lt; 2</code></pre>b<pre lang=\"txt\"><code>c</code></pre>d";
    let out = from_chars(&highlight_page(page).unwrap());
    assert!(out.starts_with("a<pre lang=\"\"><code><span style=\""));
    assert!(out.contains("1 &lt; 2</span></code></pre>b<pre lang=\"txt\"><code><span style=\""));
    assert!(out.ends_with("c</span></code></pre>d"));
    assert_eq!(from_chars(&highlight_page("no code").unwrap()), "no code");
    assert_eq!(
        highlight_page("<pre lang=\"nosuchlanguage\"><code>c</code></pre>"),
        Err(RenderError::UnknownLanguage)
    );
}
