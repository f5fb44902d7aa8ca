use gh_templates::cache::Cache;
use gh_templates::gitignore::{
    determine_category, filter_templates, find_template_in_cache, TemplateError,
};

fn cache() -> Cache<String> {
    let mut c: Cache<String> = Cache::new("1");
    c.insert("rust".to_string(), "Rust.gitignore".to_string());
    c.insert("windows".to_string(), "Global/Windows.gitignore".to_string());
    c.insert("python".to_string(), "Python.gitignore".to_string());
    c.insert("godot".to_string(), "community/Godot.gitignore".to_string());
    c
}

#[test]
fn category_from_path() {
    assert_eq!(determine_category("Global/Windows.gitignore"), "global");
    assert_eq!(determine_category("community/Godot.gitignore"), "community");
    assert_eq!(determine_category("Rust.gitignore"), "popular");
}

#[test]
fn popular_is_the_default_group() {
    let names: Vec<String> = filter_templates(&cache(), false, false, false)
        .into_iter()
        .map(|t| t.name)
        .collect();
    assert_eq!(names, vec!["python", "rust"]);
}

#[test]
fn groups_asked_for_are_shown_by_name() {
    let t = filter_templates(&cache(), false, true, true);
    let names: Vec<&str> = t.iter().map(|t| t.name.as_str()).collect();
    assert_eq!(names, vec!["godot", "windows"]);
    assert_eq!(t[1].category, "global");
}

#[test]
fn template_found_case_insensitively() {
    assert_eq!(find_template_in_cache("Rust", &cache()), Ok("Rust.gitignore".to_string()));
    assert_eq!(find_template_in_cache("zig", &cache()), Err(TemplateError::NotFound));
}

#[test]
fn cache_key_of_template_path() {
    assert_eq!(gh_templates::gitignore::template_key("Global/Windows.gitignore"), Some("global/windows".to_string()));
    assert_eq!(gh_templates::gitignore::template_key("Rust.gitignore"), Some("rust".to_string()));
    assert_eq!(gh_templates::gitignore::template_key("README.md"), None);
}

#[test]
fn section_frames_template_text() {
    assert_eq!(
        gh_templates::gitignore::section("Rust.gitignore", "target/"),
        "# ===== Rust.gitignore =====\ntarget/\n\n"
    );
}

#[test]
fn plan_add_one_file_per_output_name() {
    let names = vec!["rust".to_string(), "python".to_string()];
    let outputs = vec!["a".to_string(), "b".to_string()];
    let w = gh_templates::gitignore::plan_add(&cache(), &names, &outputs, "d", false, false, true).unwrap();
    assert_eq!(w.len(), 2);
    assert_eq!(w[0].dest, "d/a");
    assert_eq!(
        w[1].sections,
        vec![(
            "python.gitignore".to_string(),
            format!("{}/Python.gitignore", gh_templates::gitignore::GITHUB_RAW_BASE)
        )]
    );
    assert!(w[0].force && !w[0].append);
}

#[test]
fn plan_add_merges_into_single_output() {
    let names = vec!["rust".to_string(), "windows".to_string()];
    let outputs = vec![".gitignore".to_string()];
    let w = gh_templates::gitignore::plan_add(&cache(), &names, &outputs, ".", false, true, false).unwrap();
    assert_eq!(w.len(), 1);
    assert_eq!(w[0].dest, "./.gitignore");
    assert_eq!(w[0].sections.len(), 2);
    assert_eq!(w[0].sections[1].0, "windows.gitignore");
    assert!(w[0].append);
}

#[test]
fn plan_add_with_remote_names() {
    let names = vec!["windows".to_string()];
    let w = gh_templates::gitignore::plan_add(&cache(), &names, &vec![], "d", true, false, false).unwrap();
    assert_eq!(w[0].dest, "d/Windows.gitignore");
    assert_eq!(w[0].sections[0].0, "Windows.gitignore");
}

#[test]
fn plan_add_refusals() {
    let two = vec!["rust".to_string(), "python".to_string()];
    let three = vec!["a".to_string(), "b".to_string(), "c".to_string()];
    assert_eq!(
        gh_templates::gitignore::plan_add(&cache(), &two, &three, "d", false, false, false).unwrap_err(),
        gh_templates::gitignore::PlanError::OutputCount
    );
    let missing = vec!["rust".to_string(), "zig".to_string()];
    assert_eq!(
        gh_templates::gitignore::plan_add(&cache(), &missing, &vec![], "d", true, false, false).unwrap_err(),
        gh_templates::gitignore::PlanError::NotFound(1)
    );
    assert_eq!(
        gh_templates::gitignore::plan_add(&cache(), &vec![], &vec![], "d", true, false, false).unwrap_err(),
        gh_templates::gitignore::PlanError::NoTemplate
    );
}

#[test]
fn plan_all_merges_in_cache_order() {
    let w = gh_templates::gitignore::plan_all(&cache(), "d", false, false).unwrap();
    assert_eq!(w.len(), 1);
    assert_eq!(w[0].dest, "d/.gitignore");
    let labels: Vec<&str> = w[0].sections.iter().map(|s| s.0.as_str()).collect();
    assert_eq!(labels, vec!["rust.gitignore", "windows.gitignore", "python.gitignore", "godot.gitignore"]);
    assert!(w[0].append);
    let each = gh_templates::gitignore::plan_all(&cache(), "d", true, true).unwrap();
    assert_eq!(each.len(), 4);
    assert_eq!(each[3].dest, "d/Godot.gitignore");
    assert!(each[3].force && !each[3].append);
}

#[test]
fn output_count_is_refused_before_lookups() {
    let names = vec!["zig".to_string(), "rust".to_string()];
    let three = vec!["a".to_string(), "b".to_string(), "c".to_string()];
    assert_eq!(
        gh_templates::gitignore::plan_add(&cache(), &names, &three, "d", false, false, false).unwrap_err(),
        gh_templates::gitignore::PlanError::OutputCount
    );
}

#[test]
fn path_without_file_name_is_refused() {
    let mut c: Cache<String> = Cache::new("1");
    c.insert("odd".to_string(), "dir/..".to_string());
    let names = vec!["odd".to_string()];
    assert_eq!(
        gh_templates::gitignore::plan_add(&c, &names, &vec![], "d", true, false, false).unwrap_err(),
        gh_templates::gitignore::PlanError::InvalidPath(0)
    );
    assert_eq!(
        gh_templates::gitignore::plan_all(&c, "d", true, false).unwrap_err(),
        gh_templates::gitignore::PlanError::InvalidPath(0)
    );
    assert!(gh_templates::gitignore::plan_all(&c, "d", false, false).is_ok());
}
