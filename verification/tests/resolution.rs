use workspace_audit::manifest::AuditError;
use workspace_audit::manifest::CargoToml;
use workspace_audit::manifest::Dependency;
use workspace_audit::manifest::Package;
use workspace_audit::manifest::Workspace;
use workspace_audit::resolve::DirEntry;
use workspace_audit::resolve::MemberSource;
use workspace_audit::resolve::is_wildcard_pattern;
use workspace_audit::resolve::wildcard_folder;

fn package_manifest(name: &str, deps: Vec<(String, Dependency)>) -> CargoToml {
    CargoToml {
        workspace: None,
        package: Some(Package {
            name: name.to_string(),
        }),
        dependencies: Some(deps),
    }
}

fn dir_entry(name: &str, manifest: Option<CargoToml>) -> DirEntry {
    DirEntry {
        name: name.to_string(),
        is_file: false,
        is_symlink: false,
        is_dir: true,
        manifest,
    }
}

#[test]
fn wildcard_records_members_under_package_names() {
    let ws = Workspace {
        members: vec!["crates/*".to_string()],
        dependencies: None,
    };
    let entries = vec![
        dir_entry(
            "one",
            Some(package_manifest(
                "pkg_one",
                vec![("rand".to_string(), Dependency::Simple("0.8".to_string()))],
            )),
        ),
        dir_entry(
            "two",
            Some(package_manifest(
                "pkg_two",
                vec![("rand".to_string(), Dependency::Simple("0.8".to_string()))],
            )),
        ),
    ];
    let sources = vec![MemberSource::Wildcard { entries }];
    let members = ws.get_member_dependencies(sources).unwrap();
    let mut ids: Vec<String> = members.iter().map(|m| m.0.clone()).collect();
    ids.sort();
    assert_eq!(ids, vec!["pkg_one".to_string(), "pkg_two".to_string()]);

    let entries = vec![
        dir_entry(
            "one",
            Some(package_manifest(
                "pkg_one",
                vec![("rand".to_string(), Dependency::Simple("0.8".to_string()))],
            )),
        ),
        dir_entry(
            "two",
            Some(package_manifest(
                "pkg_two",
                vec![("rand".to_string(), Dependency::Simple("0.8".to_string()))],
            )),
        ),
    ];
    let dups = ws
        .find_duplicate_dependencies(vec![MemberSource::Wildcard { entries }])
        .unwrap();
    assert_eq!(dups, vec!["rand".to_string()]);
}

#[test]
fn wildcard_skips_files_symlinks_and_bare_directories() {
    let ws = Workspace {
        members: vec!["crates/*".to_string()],
        dependencies: None,
    };
    let entries = vec![
        DirEntry {
            name: "notes.txt".to_string(),
            is_file: true,
            is_symlink: false,
            is_dir: false,
            manifest: None,
        },
        DirEntry {
            name: "link".to_string(),
            is_file: false,
            is_symlink: true,
            is_dir: true,
            manifest: Some(package_manifest(
                "linked",
                vec![("rand".to_string(), Dependency::Simple("0.8".to_string()))],
            )),
        },
        dir_entry("empty_dir", None),
    ];
    let members = ws
        .get_member_dependencies(vec![MemberSource::Wildcard { entries }])
        .unwrap();
    assert!(members.is_empty());
}

#[test]
fn wildcard_manifest_without_package_name_fails() {
    let ws = Workspace {
        members: vec!["crates/*".to_string()],
        dependencies: None,
    };
    let nameless = CargoToml {
        workspace: None,
        package: None,
        dependencies: Some(vec![(
            "rand".to_string(),
            Dependency::Simple("0.8".to_string()),
        )]),
    };
    let entries = vec![dir_entry("anon", Some(nameless))];
    match ws.get_member_dependencies(vec![MemberSource::Wildcard { entries }]) {
        Err(AuditError::MissingRequiredField(name)) => assert_eq!(name, "anon"),
        other => panic!("expected a missing-field error, got {other:?}"),
    }
}

#[test]
fn wildcard_manifest_without_dependencies_is_skipped() {
    let ws = Workspace {
        members: vec!["crates/*".to_string()],
        dependencies: None,
    };
    let no_deps = CargoToml {
        workspace: None,
        package: Some(Package {
            name: "quiet".to_string(),
        }),
        dependencies: None,
    };
    let entries = vec![dir_entry("quiet", Some(no_deps))];
    let members = ws
        .get_member_dependencies(vec![MemberSource::Wildcard { entries }])
        .unwrap();
    assert!(members.is_empty());
}

#[test]
fn later_member_table_replaces_earlier_one_with_same_identifier() {
    let ws = Workspace {
        members: vec!["crates/*".to_string(), "crates/*".to_string()],
        dependencies: None,
    };
    let first = vec![dir_entry(
        "one",
        Some(package_manifest(
            "pkg",
            vec![("rand".to_string(), Dependency::Simple("0.8".to_string()))],
        )),
    )];
    let second = vec![dir_entry(
        "one",
        Some(package_manifest(
            "pkg",
            vec![("toml".to_string(), Dependency::Simple("0.9".to_string()))],
        )),
    )];
    let members = ws
        .get_member_dependencies(vec![
            MemberSource::Wildcard { entries: first },
            MemberSource::Wildcard { entries: second },
        ])
        .unwrap();
    assert_eq!(members.len(), 1);
    assert_eq!(members[0].0, "pkg");
    assert_eq!(members[0].1[0].0, "toml");
}

#[test]
fn wildcard_pattern_detection() {
    assert!(is_wildcard_pattern(&"crates/*".to_string()));
    assert!(is_wildcard_pattern(&"deep/nested/*".to_string()));
    assert!(!is_wildcard_pattern(&"crates".to_string()));
    assert!(!is_wildcard_pattern(&"*".to_string()));
    assert!(!is_wildcard_pattern(&"".to_string()));
}

#[test]
fn wildcard_folder_strips_suffix() {
    assert_eq!(wildcard_folder(&"crates/*".to_string()), "crates");
    assert_eq!(wildcard_folder(&"deep/nested/*".to_string()), "deep/nested");
}
