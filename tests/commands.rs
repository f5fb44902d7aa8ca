use gh_templates::commands::{issue, pr, CommandError, Plan};

fn names(v: &[&str]) -> Vec<String> {
    v.iter().map(|s| s.to_string()).collect()
}

fn downloads(p: Plan) -> Vec<(String, String, bool)> {
    match p {
        Plan::Fetch(ds) => ds.into_iter().map(|d| (d.url, d.dest, d.force)).collect(),
        other => panic!("unexpected plan: {:?}", other),
    }
}

#[test]
fn issue_add_goes_to_issue_template_dir() {
    let cmd = issue::Command::Add(issue::AddArgs {
        templates: names(&["bug"]),
        dir: None,
        force: false,
        all: false,
        output: vec![],
    });
    let d = downloads(cmd.execute().unwrap());
    assert_eq!(
        d,
        vec![(
            format!("{}/issue-templates/bug.yml", issue::GITHUB_RAW_BASE),
            ".github/ISSUE_TEMPLATE/bug.yml".to_string(),
            false
        )]
    );
}

#[test]
fn issue_add_with_outputs_adds_extension_when_missing() {
    let cmd = issue::Command::Add(issue::AddArgs {
        templates: names(&["bug", "feature"]),
        dir: Some("custom_dir".to_string()),
        force: true,
        all: false,
        output: names(&["report", "idea.yaml"]),
    });
    let d = downloads(cmd.execute().unwrap());
    assert_eq!(d[0].1, "custom_dir/report.yml");
    assert_eq!(d[1].1, "custom_dir/idea.yaml");
    assert!(d[1].2);
}

#[test]
fn issue_add_refuses_missing_or_mismatched_names() {
    let none = issue::Command::Add(issue::AddArgs {
        templates: vec![],
        dir: None,
        force: false,
        all: false,
        output: vec![],
    });
    assert_eq!(none.execute().unwrap_err(), CommandError::NoTemplate);
    let mismatch = issue::Command::Add(issue::AddArgs {
        templates: names(&["a", "b"]),
        dir: None,
        force: false,
        all: false,
        output: names(&["x"]),
    });
    assert_eq!(mismatch.execute().unwrap_err(), CommandError::OutputCountMismatch);
}

#[test]
fn issue_add_all_reads_the_manifest() {
    let cmd = issue::Command::Add(issue::AddArgs {
        templates: vec![],
        dir: None,
        force: true,
        all: true,
        output: vec![],
    });
    match cmd.execute().unwrap() {
        Plan::FetchAll { manifest_url, dir, force } => {
            assert_eq!(manifest_url, format!("{}/issue-templates/manifest.yml", issue::GITHUB_RAW_BASE));
            assert_eq!(dir, None);
            assert!(force);
        }
        other => panic!("unexpected plan: {:?}", other),
    }
}

#[test]
fn pr_default_goes_to_github_dir() {
    let cmd = pr::Command::Add(pr::AddArgs {
        templates: names(&["default", "feature"]),
        dir: None,
        force: false,
        all: false,
        output: vec![],
    });
    let d = downloads(cmd.execute().unwrap());
    assert_eq!(d[0].1, ".github/pull_request_template.md");
    assert_eq!(d[1].1, ".github/PULL_REQUEST_TEMPLATE/feature.md");
    assert_eq!(d[0].0, format!("{}/pr-templates/default.md", pr::GITHUB_RAW_BASE));
}

#[test]
fn pr_default_with_dir_keeps_github_file_name() {
    let cmd = pr::Command::Add(pr::AddArgs {
        templates: names(&["default"]),
        dir: Some(".".to_string()),
        force: false,
        all: false,
        output: vec![],
    });
    let d = downloads(cmd.execute().unwrap());
    assert_eq!(d[0].1, "./pull_request_template.md");
}

#[test]
fn preview_lists_urls_or_refuses_nothing() {
    let cmd = pr::Command::Preview(pr::PreviewArgs { templates: names(&["default"]) });
    match cmd.execute().unwrap() {
        Plan::Preview(urls) => {
            assert_eq!(urls, vec![format!("{}/pr-templates/default.md", pr::GITHUB_RAW_BASE)])
        }
        other => panic!("unexpected plan: {:?}", other),
    }
    let empty = issue::Command::Preview(issue::PreviewArgs { templates: vec![] });
    assert_eq!(empty.execute().unwrap_err(), CommandError::NoTemplate);
    assert!(matches!(issue::Command::List(issue::ListArgs {}).execute(), Ok(Plan::List)));
}

#[test]
fn template_stem_drops_last_extension() {
    assert_eq!(gh_templates::commands::template_stem("bug.yml"), "bug");
    assert_eq!(gh_templates::commands::template_stem("a.b.md"), "a.b");
    assert_eq!(gh_templates::commands::template_stem("default"), "default");
}

#[test]
fn command_error_messages() {
    assert_eq!(
        CommandError::OutputCountMismatch.message(),
        "The number of templates and output file names must match."
    );
    assert_eq!(
        CommandError::NoTemplate.message(),
        "No template specified. Use `--all` or pass template names."
    );
}
