use gh_templates::manifest::{ManifestError, ManifestNavigator};

const BASE: &str = "https://example.com/templates";

#[test]
fn directories_first_then_by_name() {
    let nav = ManifestNavigator::new(&format!("{}/manifest.yml", BASE)).unwrap();
    let content = "type: issue\ntemplates:\n  - b.md\n  - a.md\n  sub: sub/\n";
    let entries = nav.list_entries(content).unwrap();
    let names: Vec<&str> = entries.iter().map(|e| e.name.as_str()).collect();
    assert_eq!(names, vec!["sub", "a.md", "b.md"]);
    assert!(entries[0].is_directory);
    assert!(!entries[1].is_directory);
    assert_eq!(entries[0].full_url, format!("{}/sub", BASE));
    assert_eq!(entries[2].full_url, format!("{}/b.md", BASE));
}

#[test]
fn new_accepts_manifest_urls_only() {
    let nav = ManifestNavigator::new("https://x.org/a/manifest.yml/").unwrap();
    assert_eq!(nav.base_url(), "https://x.org/a");
    assert_eq!(nav.url(), "https://x.org/a/manifest.yml");
    let bare = ManifestNavigator::new("https://x.org/a/xmanifest.yml").unwrap();
    assert_eq!(bare.base_url(), "https://x.org/a/x");
    match ManifestNavigator::new("https://x.org/a/index.yml") {
        Err(ManifestError::InvalidPath(_)) => {}
        other => panic!("unexpected: {:?}", other),
    }
}

#[test]
fn parse_reads_sections_and_quotes() {
    let nav = ManifestNavigator::new("https://x.org/manifest.yml").unwrap();
    let content = "# comment\ntype: \"issue\"\r\ntemplates:\n  build:\n    - 'ci.yml'\n  bug: bug.yml\n  python: python/\n";
    let m = nav.parse_manifest(content).unwrap();
    let get = |k: &str| m.iter().find(|p| p.0 == k).map(|p| p.1.clone());
    assert_eq!(get("type"), Some("issue".to_string()));
    assert_eq!(get("build/ci.yml"), Some(String::new()));
    assert_eq!(get("bug"), Some(String::new()));
    assert_eq!(get("python/"), Some("python/".to_string()));
    assert_eq!(m.len(), 4);
}

#[test]
fn manifest_without_entries_is_a_parse_error() {
    let nav = ManifestNavigator::new("https://x.org/manifest.yml").unwrap();
    match nav.parse_manifest("# nothing\n\n") {
        Err(ManifestError::ParseError(_)) => {}
        other => panic!("unexpected: {:?}", other),
    }
    let e = ManifestError::NotFound("x".to_string());
    assert_eq!(e.message(), "Not Found: x");
}

#[test]
fn repeated_key_replaces_value() {
    let nav = ManifestNavigator::new("https://x.org/manifest.yml").unwrap();
    let m = nav.parse_manifest("a: 1\na: 2\n").unwrap();
    assert_eq!(m, vec![("a".to_string(), "2".to_string())]);
}
