use blog_builder::shared::path_title;

#[test]
fn test_path_title() {
    assert_eq!("this-is-the-title", path_title("This iS The tiTle"));
    assert_eq!(
        "this-is-the-title",
        path_title("\n    This iS The tiTle  \n")
    );
    assert_eq!("this-is-the-title666", path_title("This iS The tiTle666"));
    assert_eq!(
        "this-is-the-title",
        path_title("\n   *!@#$%^&*()This iS The <>?,./;'[]\\tiTle  \n")
    );
    assert_eq!("ä¸­æ–‡æµ‹è¯•", path_title("ä¸­æ–‡æµ‹è¯•"));
    assert_eq!("çƒ«çƒ«çƒ«", path_title("çƒ«çƒ«çƒ«"));
    assert_eq!("-ðŸ˜„-", path_title("-ðŸ˜„-"));
}
