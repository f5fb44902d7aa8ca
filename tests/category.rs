use gh_templates::commands::gitignore as gi;
use gh_templates::commands::license as lic;
use gh_templates::commands::{issue, CategoryCommand, CategoryError, CategoryTask, CommandError, Plan};

fn words(v: &[&str]) -> Vec<String> {
    v.iter().map(|s| s.to_string()).collect()
}

fn license_add(licenses: &[&str], all: bool, params: &[&str]) -> lic::Command {
    lic::Command::Add(lic::AddArgs {
        licenses: words(licenses),
        dir: None,
        force: false,
        all,
        interactive: false,
        update_cache: false,
        params: words(params),
    })
}

fn license_list(popular: bool, non_software: bool, args: &[&str]) -> lic::Command {
    lic::Command::List(lic::ListArgs {
        popular,
        non_software,
        search: Some("mit".to_string()),
        include_deprecated: true,
        update_cache: false,
        args: words(args),
        osi_approved: false,
        fsf_libre: true,
    })
}

#[test]
fn license_add_parses_params() {
    match license_add(&["mit"], false, &["year=2024", "Copyright Holders = John Doe"]).execute() {
        Ok(lic::LicenseTask::Add { ids, all, params }) => {
            assert_eq!(ids, vec!["mit"]);
            assert!(!all);
            assert_eq!(params[1], ("copyright holders".to_string(), "John Doe".to_string()));
        }
        other => panic!("unexpected: {:?}", other),
    }
}

#[test]
fn license_add_refusals() {
    assert_eq!(
        license_add(&["mit"], false, &["year=2024", "oops"]).execute().unwrap_err(),
        lic::LicenseCommandError::InvalidParam(1)
    );
    assert_eq!(
        license_add(&[], false, &[]).execute().unwrap_err(),
        lic::LicenseCommandError::NoLicense
    );
    assert!(license_add(&[], true, &[]).execute().is_ok());
}

#[test]
fn license_list_modes() {
    assert_eq!(
        license_list(false, false, &["--bogus"]).execute().unwrap_err(),
        lic::LicenseCommandError::UnknownArgument
    );
    assert!(matches!(
        license_list(true, true, &[]).execute(),
        Ok(lic::LicenseTask::ListPopular { search: Some(_) })
    ));
    assert!(matches!(license_list(false, true, &[]).execute(), Ok(lic::LicenseTask::ListNonSoftware)));
    match license_list(false, false, &[]).execute() {
        Ok(lic::LicenseTask::ListAll(q)) => {
            assert_eq!(q.search, Some("mit".to_string()));
            assert!(q.include_deprecated && q.fsf_libre && !q.osi_approved);
        }
        other => panic!("unexpected: {:?}", other),
    }
}

#[test]
fn license_preview_sections() {
    let preview = |description: bool, details: bool| {
        lic::Command::Preview(lic::PreviewArgs {
            id: " MIT ".to_string(),
            description,
            permissions: false,
            limitations: false,
            conditions: false,
            details,
            update_cache: false,
        })
    };
    match preview(false, false).execute() {
        Ok(lic::LicenseTask::Preview { id, sections }) => {
            assert_eq!(id, "mit");
            assert!(sections.text && !sections.description && !sections.metadata);
        }
        other => panic!("unexpected: {:?}", other),
    }
    match preview(false, true).execute() {
        Ok(lic::LicenseTask::Preview { sections, .. }) => {
            assert!(!sections.text && sections.description && sections.permissions);
            assert!(sections.limitations && sections.conditions && sections.metadata);
        }
        other => panic!("unexpected: {:?}", other),
    }
}

#[test]
fn gitignore_commands() {
    let add = |templates: &[&str], all: bool| {
        gi::Command::Add(gi::AddArgs {
            templates: words(templates),
            dir: None,
            force: false,
            all,
            append: false,
            update_cache: false,
            use_remote_name: false,
            output: words(&[".gitignore"]),
        })
    };
    assert_eq!(add(&[], false).execute().unwrap_err(), gi::GitignoreCommandError::NoTemplate);
    assert!(matches!(add(&[], true).execute(), Ok(gi::GitignoreTask::Add)));
    let preview = gi::Command::Preview(gi::PreviewArgs {
        args: words(&["Rust.gitignore", "python"]),
        update_cache: false,
    });
    match preview.execute() {
        Ok(gi::GitignoreTask::Preview(names)) => assert_eq!(names, vec!["Rust", "python"]),
        other => panic!("unexpected: {:?}", other),
    }
}

#[test]
fn category_command_delegates() {
    let none = CategoryCommand::Issue(issue::Command::Preview(issue::PreviewArgs { templates: vec![] }));
    assert_eq!(none.execute().unwrap_err(), CategoryError::Template(CommandError::NoTemplate));
    let list = CategoryCommand::Issue(issue::Command::List(issue::ListArgs {}));
    assert!(matches!(list.execute(), Ok(CategoryTask::Template(Plan::List))));
    let lic = CategoryCommand::License(license_add(&[], false, &[]));
    assert_eq!(
        lic.execute().unwrap_err(),
        CategoryError::License(lic::LicenseCommandError::NoLicense)
    );
}
