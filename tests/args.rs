use gh_templates::args::{parse_template_args, ArgsError};

fn arg_list(v: &[&str]) -> Vec<String> {
    v.iter().map(|s| s.to_string()).collect()
}

#[test]
fn splits_names_and_switches() {
    let a = parse_template_args(&arg_list(&["bug", "--dir", "out", "-f", "feature", "--all"])).unwrap();
    assert_eq!(a.names, vec!["bug", "feature"]);
    assert_eq!(a.dir, Some("out".to_string()));
    assert!(a.all);
    assert!(a.force);
}

#[test]
fn empty_arguments_give_defaults() {
    let a = parse_template_args(&[]).unwrap();
    assert!(a.names.is_empty() && a.dir.is_none() && !a.all && !a.force);
}

#[test]
fn dir_without_path_is_refused() {
    let e = parse_template_args(&arg_list(&["bug", "--dir"])).unwrap_err();
    assert_eq!(e, ArgsError::MissingDirectory);
    assert_eq!(e.message(), "Expected a directory path after `--dir`");
}

#[test]
fn dir_takes_next_token_whatever_it_is() {
    let a = parse_template_args(&arg_list(&["--dir", "--force"])).unwrap();
    assert_eq!(a.dir, Some("--force".to_string()));
    assert!(!a.force);
}
