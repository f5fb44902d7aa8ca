use gh_templates::comment::extract_comment;

#[test]
fn html_comment_of_markdown() {
    assert_eq!(extract_comment("<!-- Bug report -->", "md"), Some("Bug report".to_string()));
    assert_eq!(extract_comment("no comment", "md"), None);
}

#[test]
fn hash_comment_of_yaml() {
    assert_eq!(extract_comment("# Feature request", "yml"), Some("Feature request".to_string()));
}

#[test]
fn c_like_block_then_line_comment() {
    assert_eq!(extract_comment("/* block */", "rs"), Some("block".to_string()));
    assert_eq!(extract_comment("let x = 1; // line", "js"), Some("line".to_string()));
    assert_eq!(extract_comment("/*/ odd", "c"), None);
}

#[test]
fn unknown_extension_has_no_comment() {
    assert_eq!(extract_comment("# x", "txt"), None);
}
