use gh_templates::pattern::{filter_by_wildcard, matches_wildcard};

#[test]
fn star_suffix_matches_whole_name() {
    assert!(matches_wildcard("*.rs", "main.rs"));
    assert!(!matches_wildcard("*.rs", "main.rs.bak"));
}

#[test]
fn question_mark_takes_exactly_one_char() {
    assert!(matches_wildcard("a?c", "abc"));
    assert!(!matches_wildcard("a?c", "ac"));
}

#[test]
fn lone_star_matches_anything() {
    assert!(matches_wildcard("*", ""));
    assert!(matches_wildcard("*", "anything at all"));
}

#[test]
fn literal_pattern_is_case_sensitive() {
    assert!(matches_wildcard("mit", "mit"));
    assert!(!matches_wildcard("mit", "MIT"));
    assert!(!matches_wildcard("", "x"));
    assert!(matches_wildcard("", ""));
}

#[test]
fn star_backtracks_over_split_points() {
    assert!(matches_wildcard("a*b*c", "axxbyybzc"));
    assert!(!matches_wildcard("a*b*c", "axxbyyb"));
    assert!(matches_wildcard("*-2.0", "apache-2.0"));
}

#[test]
fn filter_keeps_matching_items_in_order() {
    let items: Vec<String> = vec!["hello.txt", "world.rs", "test.py", "hello.rs"]
        .into_iter()
        .map(String::from)
        .collect();
    assert_eq!(filter_by_wildcard("*.rs", &items), vec!["world.rs", "hello.rs"]);
    assert_eq!(filter_by_wildcard("zzz", &items), Vec::<String>::new());
}
