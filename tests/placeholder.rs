use gh_templates::placeholder::{fill_placeholders, normalize_placeholder_key};

fn pairs(v: &[(&str, &str)]) -> Vec<(String, String)> {
    v.iter().map(|(k, v)| (k.to_string(), v.to_string())).collect()
}

#[test]
fn unfilled_placeholder_is_kept_and_reported() {
    let r = fill_placeholders("Copyright [year] [fullname]", &pairs(&[("year", "2024")]), &vec![]);
    assert!(r.text.contains("2024"));
    assert!(r.text.contains("[fullname]"));
    assert_eq!(r.text, "Copyright 2024 [fullname]");
    assert_eq!(r.unfilled, vec!["fullname"]);
    assert_eq!(r.found, vec!["year", "fullname"]);
    assert!(r.unused.is_empty());
}

#[test]
fn same_params_give_same_text_twice() {
    let text = "Copyright (c) [year] <copyright holders> and [Copyright Holders]";
    let params = pairs(&[("year", "2024"), ("copyright-holders", "Jane [year] Doe")]);
    let once = fill_placeholders(text, &params, &vec![]);
    let twice = fill_placeholders(text, &params, &vec![]);
    assert_eq!(once.text, twice.text);
    assert_eq!(once.text, "Copyright (c) 2024 Jane [year] Doe and Jane [year] Doe");
    assert!(once.unfilled.is_empty());
}

#[test]
fn values_are_not_scanned_again() {
    let r = fill_placeholders("[a] [b]", &pairs(&[("a", "[b]"), ("b", "x")]), &vec![]);
    assert_eq!(r.text, "[b] x");
}

#[test]
fn no_placeholders_leaves_text_and_reports_params_unused() {
    let r = fill_placeholders("plain text", &pairs(&[("year", "2024")]), &vec![]);
    assert_eq!(r.text, "plain text");
    assert!(r.found.is_empty());
    assert_eq!(r.unused, vec!["year"]);
}

#[test]
fn empty_brackets_are_a_placeholder() {
    let r = fill_placeholders("a [] b", &pairs(&[("", "X")]), &vec![]);
    assert_eq!(r.text, "a X b");
    assert_eq!(r.found, vec![""]);
}

#[test]
fn answers_fill_what_params_leave() {
    let r = fill_placeholders(
        "[year] [fullname]",
        &pairs(&[("year", "2024")]),
        &pairs(&[("fullname", "John Doe"), ("year", "1999")]),
    );
    assert_eq!(r.text, "2024 John Doe");
    assert!(r.unfilled.is_empty());
}

#[test]
fn later_param_wins() {
    let r = fill_placeholders("[year]", &pairs(&[("year", "1"), ("YEAR", "2")]), &vec![]);
    assert_eq!(r.text, "2");
}

#[test]
fn unclosed_bracket_is_text() {
    let r = fill_placeholders("a [b <c> d", &pairs(&[("c", "C")]), &vec![]);
    assert_eq!(r.text, "a [b C d");
}

#[test]
fn key_normalisation_trims_lowers_and_hyphenates() {
    assert_eq!(normalize_placeholder_key("  Full Name "), "full-name");
    assert_eq!(normalize_placeholder_key("YEAR"), "year");
    assert_eq!(normalize_placeholder_key("ÉTÉ X"), "été-x");
}

#[test]
fn second_fill_changes_nothing_without_bracketed_values() {
    let params = pairs(&[("year", "2024"), ("name", "Jane")]);
    let text = "(c) [year] <name> [other] <unclosed and [odd <x]";
    let once = fill_placeholders(text, &params, &vec![]).text;
    let twice = fill_placeholders(&once, &params, &vec![]).text;
    assert_eq!(once, twice);
    assert_eq!(once, "(c) 2024 Jane [other] <unclosed and [odd <x]");
}

#[test]
fn bracketed_value_can_form_a_new_placeholder() {
    let params = pairs(&[("a", "["), ("b", "Z")]);
    let once = fill_placeholders("[a]b]", &params, &vec![]).text;
    assert_eq!(once, "[b]");
    assert_eq!(fill_placeholders(&once, &params, &vec![]).text, "Z");
}
