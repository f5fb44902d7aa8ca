use gh_templates::cache::Cache;
use gh_templates::license::{
    find_key_ignoring_case, format_condition, format_limitation, format_permission,
    license_file_name, normalize_license_id, parse_param, parse_params, select_licenses,
    LicenseQuery, ParamError, SpdxLicense,
};

fn lic(id: &str, name: &str, deprecated: bool, osi: bool, fsf: bool) -> SpdxLicense {
    SpdxLicense {
        id: id.to_string(),
        name: name.to_string(),
        deprecated,
        osi_approved: osi,
        fsf_libre: fsf,
    }
}

fn query(search: Option<&str>) -> LicenseQuery {
    LicenseQuery {
        search: search.map(String::from),
        include_deprecated: false,
        osi_approved: false,
        fsf_libre: false,
    }
}

#[test]
fn labels_of_known_and_unknown_tags() {
    assert_eq!(format_permission("commercial-use"), "Commercial use");
    assert_eq!(format_permission("modifications"), "Modify");
    assert_eq!(format_permission("some-new-thing"), "some new thing");
    assert_eq!(format_limitation("trademark-use"), "Trademark use");
    assert_eq!(format_condition("include-copyright"), "License and copyright notice");
    assert_eq!(format_condition("network-use-disclose"), "network use disclose");
}

#[test]
fn license_ids_are_trimmed_and_lowered() {
    assert_eq!(normalize_license_id("  MIT "), "mit");
    assert_eq!(license_file_name("MIT"), "LICENSE.MIT");
}

#[test]
fn cache_key_found_whatever_the_case() {
    let mut c: Cache<u32> = Cache::new("1");
    c.insert("Apache-2.0".to_string(), 1);
    c.insert("MIT".to_string(), 2);
    assert_eq!(find_key_ignoring_case(&c, "mit"), Some("MIT".to_string()));
    assert_eq!(find_key_ignoring_case(&c, "gpl"), None);
}

#[test]
fn params_split_at_first_equals() {
    assert_eq!(
        parse_param(" Copyright-Holders = John = Doe "),
        Ok(("copyright-holders".to_string(), "John = Doe".to_string()))
    );
    assert_eq!(parse_param("novalue"), Err(ParamError::MissingEquals));
    let all = parse_params(&vec!["year=2024".to_string(), "a=b".to_string()]).unwrap();
    assert_eq!(all[0], ("year".to_string(), "2024".to_string()));
    assert!(parse_params(&vec!["year=2024".to_string(), "bad".to_string()]).is_err());
}

#[test]
fn listing_filters_and_sorts_by_id() {
    let list = vec![
        lic("MIT", "MIT License", false, true, true),
        lic("GPL-2.0", "GNU General Public License v2.0 only", true, true, true),
        lic("Apache-2.0", "Apache License 2.0", false, true, true),
        lic("CC0-1.0", "Creative Commons Zero v1.0 Universal", false, false, true),
    ];
    let ids = |v: Vec<SpdxLicense>| v.into_iter().map(|l| l.id).collect::<Vec<_>>();
    let r = select_licenses(list, &query(None));
    assert_eq!(ids(r), vec!["Apache-2.0", "CC0-1.0", "MIT"]);
}

#[test]
fn listing_search_is_case_insensitive_prefix() {
    let list = vec![
        lic("MIT", "MIT License", false, true, true),
        lic("MIT-0", "MIT No Attribution", false, true, false),
        lic("Apache-2.0", "Apache License 2.0", false, true, true),
    ];
    let r = select_licenses(list, &query(Some("mit")));
    let ids: Vec<String> = r.into_iter().map(|l| l.id).collect();
    assert_eq!(ids, vec!["MIT", "MIT-0"]);
}

#[test]
fn listing_honours_flags() {
    let list = vec![
        lic("A", "a", true, true, true),
        lic("B", "b", false, false, true),
        lic("C", "c", false, true, false),
    ];
    let q = LicenseQuery {
        search: None,
        include_deprecated: true,
        osi_approved: true,
        fsf_libre: false,
    };
    let ids: Vec<String> = select_licenses(list, &q).into_iter().map(|l| l.id).collect();
    assert_eq!(ids, vec!["A", "C"]);
}

#[test]
fn front_matter_between_first_two_markers() {
    let txt = "---\ntitle: MIT License\nspdx-id: MIT\n---\n\nMIT License body";
    assert_eq!(gh_templates::license::front_matter(txt), Some("title: MIT License\nspdx-id: MIT".to_string()));
    assert_eq!(gh_templates::license::front_matter("--- only one"), None);
}

#[test]
fn popular_search_matches_id_or_name() {
    let entries = vec![
        ("mit".to_string(), Some("MIT License".to_string())),
        ("apache-2.0".to_string(), Some("Apache License 2.0".to_string())),
        ("unlicense".to_string(), None),
    ];
    assert_eq!(gh_templates::license::select_popular(&entries, &Some("*License*".to_string())), vec![0, 1]);
    assert_eq!(gh_templates::license::select_popular(&entries, &Some("un*".to_string())), vec![2]);
    assert_eq!(gh_templates::license::select_popular(&entries, &None), vec![0, 1, 2]);
    assert!(gh_templates::license::select_popular(&entries, &Some("gpl".to_string())).is_empty());
}

#[test]
fn equal_ids_keep_their_order() {
    let list = vec![
        lic("X", "second", false, true, true),
        lic("A", "a", false, true, true),
        lic("X", "first", false, true, true),
    ];
    let r = select_licenses(list, &query(None));
    let names: Vec<String> = r.into_iter().map(|l| l.name).collect();
    assert_eq!(names, vec!["a", "second", "first"]);
}
