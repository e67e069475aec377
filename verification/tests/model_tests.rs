use blog_builder::blog::{valid_date, Blog};
use blog_builder::blog_clusters::{time_squash, BlogClusters, ClusterError};
use blog_builder::loader::{find_tag, load_article};
use blog_builder::tag::Tag;
use blog_builder::text::to_chars;

fn tags() -> Vec<Tag> {
    vec![
        Tag::new("life".to_string(), "about life".to_string()),
        Tag::new("work".to_string(), "about work".to_string()),
    ]
}

fn cluster() -> BlogClusters {
    let mut clusters = BlogClusters::new();
    clusters.add_tags("life\nabout life\nwork\nabout work\n").unwrap();
    clusters
}

fn file(stem: &str, md: &str) -> (String, String) {
    (stem.to_string(), md.to_string())
}

#[test]
fn february_29_exists_in_leap_years_only() {
    let mut year = 2000;
    while year <= 2200 {
        let leap = (year % 4 == 0 && year % 100 != 0) || year % 400 == 0;
        assert_eq!(valid_date(year, 2, 29), leap);
        assert!(valid_date(year, 2, 28));
        assert!(!valid_date(year, 2, 30));
        assert!(!valid_date(year, 4, 31));
        assert!(!valid_date(year, 0, 1));
        assert!(!valid_date(year, 1, 0));
        assert!(!valid_date(year, 13, 1));
        year += 1;
    }
    assert!(valid_date(2100, 2, 28));
    assert!(!valid_date(2100, 2, 29));
    assert!(valid_date(2200, 12, 31));
    assert!(!valid_date(2201, 1, 1));
    assert!(!valid_date(2000, 1, -1));
}

#[test]
fn packed_date_is_year_month_day() {
    assert_eq!(time_squash(2000, 9, 27), 2000 * 1024 + 9 * 64 + 27);
    assert_eq!(time_squash(0, 0, 0), 0);
    assert!(time_squash(2000, 12, 31) < time_squash(2001, 1, 1));
    assert!(time_squash(2001, 1, 31) < time_squash(2001, 2, 1));
    assert!(time_squash(2001, 2, 1) < time_squash(2001, 2, 2));
}

#[test]
fn blog_holds_what_it_was_given() {
    let blog = Blog::new(2004, 2, 29, "T", &vec![1, 0], "p", "c");
    assert_eq!(blog.year, 2004);
    assert_eq!(blog.month, 2);
    assert_eq!(blog.day, 29);
    assert_eq!(blog.title, "T");
    assert_eq!(blog.tags, vec![1, 0]);
    assert_eq!(blog.preview, "p");
    assert_eq!(blog.content, "c");
}

#[test]
fn tags_get_handles_in_their_order() {
    let mut clusters = BlogClusters::new();
    assert_eq!(clusters.num_tag(), 0);
    assert_eq!(clusters.num_blog(), 0);
    clusters.add_tags("  a \r\n d1 \n\n\n b\nd2\nlone").unwrap();
    assert_eq!(clusters.num_tag(), 2);
    assert_eq!(clusters.get_tags()[0], Tag::new("a".to_string(), "d1".to_string()));
    assert_eq!(clusters.get_tag(1), Some(&Tag::new("b".to_string(), "d2".to_string())));
    assert_eq!(clusters.get_tag(2), None);
    assert_eq!(clusters.get_tag_handle("a"), Some(0));
    assert_eq!(clusters.get_tag_handle("b"), Some(1));
    assert_eq!(clusters.get_tag_handle("lone"), None);
    assert_eq!(clusters.add_tag("c".to_string(), "d3".to_string()), Some(2));
    assert_eq!(clusters.add_tag("a".to_string(), "again".to_string()), None);
    assert_eq!(clusters.num_tag(), 3);
    assert_eq!(clusters.get_tag(0).unwrap().description, "d1");
}

#[test]
fn duplicate_tags_add_nothing() {
    let mut clusters = cluster();
    assert_eq!(clusters.add_tags("fun\ngames\nlife\nagain\n"), Err(ClusterError::DuplicateTag));
    assert_eq!(clusters.num_tag(), 2);
    assert_eq!(clusters.add_tags("x\n1\nx\n2\n"), Err(ClusterError::DuplicateTag));
    assert_eq!(clusters.num_tag(), 2);
    assert_eq!(clusters.get_tag_blogs(2), None);
    assert_eq!(clusters.add_tags("fun\ngames\n"), Ok(()));
    assert_eq!(clusters.num_tag(), 3);
    assert_eq!(clusters.get_tag_blogs(2), Some(&vec![]));
}

#[test]
fn article_is_read_from_its_file() {
    let blog = load_article(
        &tags(),
        "my-title",
        "\n\n  My Title!  \n 2001 / 2 / 28 \n work|life \n---\n the preview \n---\n the\ncontent \n---\nignored",
    )
    .unwrap();
    assert_eq!(blog.title, "My Title!");
    assert_eq!((blog.year, blog.month, blog.day), (2001, 2, 28));
    assert_eq!(blog.tags, vec![1, 0]);
    assert_eq!(blog.preview, "the preview");
    assert_eq!(blog.content, "the\ncontent");
}

#[test]
fn article_errors_come_in_the_order_of_the_file() {
    let t = tags();
    let e = |stem: &str, md: &str| load_article(&t, stem, md).err();
    assert_eq!(e("a", ""), Some(ClusterError::MissingHeader));
    assert_eq!(e("a", " \n\t\n"), Some(ClusterError::MissingHeader));
    assert_eq!(e("a", "B\n2000/1/1\nlife\n---\np\n---\nc"), Some(ClusterError::TitleMismatch));
    assert_eq!(e("a", "B"), Some(ClusterError::TitleMismatch));
    assert_eq!(e("a", "A"), Some(ClusterError::MissingHeader));
    assert_eq!(e("a", "A\n2000/x/1\nnone"), Some(ClusterError::InvalidTime));
    assert_eq!(e("a", "A\n2000/1\nlife\n---\np\n---\nc"), Some(ClusterError::InvalidTime));
    assert_eq!(e("a", "A\n2000/1/1/1\nlife\n---\np\n---\nc"), Some(ClusterError::InvalidTime));
    assert_eq!(e("a", "A\n2000/1/\nlife\n---\np\n---\nc"), Some(ClusterError::InvalidTime));
    assert_eq!(
        e("a", "A\n99999999999999999999/1/1\nlife\n---\np\n---\nc"),
        Some(ClusterError::InvalidTime)
    );
    assert_eq!(e("a", "A\n2000/1/1"), Some(ClusterError::MissingHeader));
    assert_eq!(e("a", "A\n2000/1/1\nlife|fun\n---\np\n---\nc"), Some(ClusterError::UnknownTag));
    assert_eq!(e("a", "A\n2000/1/1\nlife|\n---\np\n---\nc"), Some(ClusterError::UnknownTag));
    assert_eq!(e("a", "A\n2000/13/1\nnone\n---\np\n---\nc"), Some(ClusterError::UnknownTag));
    assert_eq!(e("a", "A\n2000/1/1\nlife\n---\np"), Some(ClusterError::MissingBody));
    assert_eq!(e("a", "A\n2000/1/1\nlife"), Some(ClusterError::MissingBody));
    assert_eq!(e("a", "A\n2001/2/29\nlife\n---\np\n---\nc"), Some(ClusterError::InvalidDate));
    assert_eq!(e("a", "A\n1999/1/1\nlife\n---\np\n---\nc"), Some(ClusterError::InvalidDate));
    assert_eq!(e("a", "A\n+2000/-1/1\nlife\n---\np\n---\nc"), Some(ClusterError::InvalidDate));
    assert_eq!(e("a", "A\n+2000/01/1\nlife\n---\np\n---\nc"), None);
}

#[test]
fn tag_is_found_by_its_name() {
    let t = tags();
    assert_eq!(find_tag(&t, &to_chars("work")), Some(1));
    assert_eq!(find_tag(&t, &to_chars("life")), Some(0));
    assert_eq!(find_tag(&t, &to_chars("Life")), None);
    assert_eq!(find_tag(&Vec::new(), &to_chars("life")), None);
}

#[test]
fn articles_stand_newest_first_and_behind_their_equals() {
    let mut clusters = cluster();
    clusters
        .add_blogs(&vec![
            file("b", "B\n2010/5/5\nlife\n---\np\n---\nc"),
            file("a", "A\n2010/5/6\nwork\n---\np\n---\nc"),
            file("c", "C\n2010/5/5\nwork|work\n---\np\n---\nc"),
        ])
        .unwrap();
    let titles: Vec<String> = clusters.get_blogs().iter().map(|b| b.title.clone()).collect();
    assert_eq!(titles, vec!["A", "B", "C"]);
    clusters
        .add_blogs(&vec![
            file("d", "D\n2010/5/5\nlife\n---\np\n---\nc"),
            file("e", "E\n2011/1/1\nlife\n---\np\n---\nc"),
            file("f", "F\n2000/1/1\nlife\n---\np\n---\nc"),
        ])
        .unwrap();
    let titles: Vec<String> = clusters.get_blogs().iter().map(|b| b.title.clone()).collect();
    assert_eq!(titles, vec!["E", "A", "B", "C", "D", "F"]);
    assert_eq!(clusters.num_blog(), 6);
    assert_eq!(clusters.get_tag_blogs(0), Some(&vec![0, 2, 4, 5]));
    assert_eq!(clusters.get_tag_blogs(1), Some(&vec![1, 3, 3]));
    assert_eq!(clusters.get_tag_blogs(2), None);
}

#[test]
fn a_file_that_is_no_article_adds_none() {
    let mut clusters = cluster();
    clusters.add_blogs(&vec![file("a", "A\n2010/5/6\nwork\n---\np\n---\nc")]).unwrap();
    let r = clusters.add_blogs(&vec![
        file("b", "B\n2010/5/5\nlife\n---\np\n---\nc"),
        file("c", "C\n2010/5/5\nfun\n---\np\n---\nc"),
        file("d", "nope"),
    ]);
    assert_eq!(r, Err(ClusterError::UnknownTag));
    assert_eq!(clusters.num_blog(), 1);
    assert_eq!(clusters.get_tag_blogs(0), Some(&vec![]));
    assert_eq!(clusters.get_tag_blogs(1), Some(&vec![0]));
    assert_eq!(clusters.add_blogs(&vec![]), Ok(()));
    assert_eq!(clusters.num_blog(), 1);
}
