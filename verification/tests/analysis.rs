use workspace_audit::manifest::AuditError;
use workspace_audit::manifest::CargoToml;
use workspace_audit::manifest::Dependency;
use workspace_audit::manifest::Workspace;
use workspace_audit::resolve::MemberSource;

fn simple(version: &str) -> Dependency {
    Dependency::Simple(version.to_string())
}

fn detailed(keys: &[&str]) -> Dependency {
    Dependency::Detailed(keys.iter().map(|k| k.to_string()).collect())
}

fn member_with_deps(deps: Vec<(String, Dependency)>) -> MemberSource {
    MemberSource::Literal {
        manifest: Some(CargoToml {
            workspace: None,
            package: None,
            dependencies: Some(deps),
        }),
    }
}

#[test]
fn empty_member_list_reports_nothing() {
    let ws = Workspace {
        members: vec![],
        dependencies: Some(vec![
            ("serde".to_string(), simple("1.0")),
            ("toml".to_string(), simple("0.8")),
        ]),
    };
    let dups = ws.find_duplicate_dependencies(vec![]).unwrap();
    assert!(dups.is_empty());
}

#[test]
fn workspace_inherited_everywhere_reports_nothing() {
    let ws = Workspace {
        members: vec!["a".to_string(), "b".to_string()],
        dependencies: Some(vec![("serde".to_string(), simple("1.0"))]),
    };
    let sources = vec![
        member_with_deps(vec![("serde".to_string(), detailed(&["workspace"]))]),
        member_with_deps(vec![("serde".to_string(), detailed(&["workspace"]))]),
    ];
    let dups = ws.find_duplicate_dependencies(sources).unwrap();
    assert!(dups.is_empty());
}

#[test]
fn two_independent_member_pins_reported_once() {
    let ws = Workspace {
        members: vec!["a".to_string(), "b".to_string()],
        dependencies: None,
    };
    let sources = vec![
        member_with_deps(vec![("rand".to_string(), simple("0.8"))]),
        member_with_deps(vec![("rand".to_string(), simple("0.7"))]),
    ];
    let dups = ws.find_duplicate_dependencies(sources).unwrap();
    assert_eq!(dups, vec!["rand".to_string()]);
}

#[test]
fn path_only_references_never_reported() {
    let ws = Workspace {
        members: vec!["a".to_string(), "b".to_string(), "c".to_string()],
        dependencies: None,
    };
    let sources = vec![
        member_with_deps(vec![("util".to_string(), detailed(&["path"]))]),
        member_with_deps(vec![("util".to_string(), detailed(&["path"]))]),
        member_with_deps(vec![("util".to_string(), detailed(&["path", "features"]))]),
    ];
    let dups = ws.find_duplicate_dependencies(sources).unwrap();
    assert!(dups.is_empty());
}

#[test]
fn central_seed_plus_one_independent_pin_reported() {
    // Root declares workspace.members = ["a", "b"] and a central serde;
    // member a inherits it, member b pins it independently.
    let ws = Workspace {
        members: vec!["a".to_string(), "b".to_string()],
        dependencies: Some(vec![("serde".to_string(), simple("1.0"))]),
    };
    let sources = vec![
        member_with_deps(vec![("serde".to_string(), detailed(&["workspace"]))]),
        member_with_deps(vec![("serde".to_string(), simple("1.0"))]),
    ];
    let dups = ws.find_duplicate_dependencies(sources).unwrap();
    assert_eq!(dups, vec!["serde".to_string()]);
}

#[test]
fn central_seed_with_both_members_inheriting_reports_nothing() {
    // Same as above, but member b also inherits through the marker.
    let ws = Workspace {
        members: vec!["a".to_string(), "b".to_string()],
        dependencies: Some(vec![("serde".to_string(), simple("1.0"))]),
    };
    let sources = vec![
        member_with_deps(vec![("serde".to_string(), detailed(&["workspace"]))]),
        member_with_deps(vec![("serde".to_string(), detailed(&["workspace"]))]),
    ];
    let dups = ws.find_duplicate_dependencies(sources).unwrap();
    assert!(dups.is_empty());
}

#[test]
fn detailed_table_without_markers_counts_as_independent() {
    // A detailed table with only a version and features is still an
    // independent pin.
    let ws = Workspace {
        members: vec!["a".to_string()],
        dependencies: Some(vec![("serde".to_string(), simple("1.0"))]),
    };
    let sources = vec![member_with_deps(vec![(
        "serde".to_string(),
        detailed(&["version", "features"]),
    )])];
    let dups = ws.find_duplicate_dependencies(sources).unwrap();
    assert_eq!(dups, vec!["serde".to_string()]);
}

#[test]
fn missing_literal_manifest_is_io_error() {
    let ws = Workspace {
        members: vec!["a".to_string()],
        dependencies: None,
    };
    let sources = vec![MemberSource::Literal { manifest: None }];
    match ws.find_duplicate_dependencies(sources) {
        Err(AuditError::IoError(p)) => assert_eq!(p, "a"),
        other => panic!("expected an io error, got {other:?}"),
    }
}

#[test]
fn member_without_dependencies_contributes_nothing() {
    let ws = Workspace {
        members: vec!["a".to_string(), "b".to_string()],
        dependencies: Some(vec![("serde".to_string(), simple("1.0"))]),
    };
    let sources = vec![
        MemberSource::Literal {
            manifest: Some(CargoToml {
                workspace: None,
                package: None,
                dependencies: None,
            }),
        },
        member_with_deps(vec![("serde".to_string(), simple("1.0"))]),
    ];
    let dups = ws.find_duplicate_dependencies(sources).unwrap();
    assert_eq!(dups, vec!["serde".to_string()]);
}

#[test]
fn get_workspace_dependency_names_lists_each_once() {
    let ws = Workspace {
        members: vec![],
        dependencies: Some(vec![
            ("serde".to_string(), simple("1.0")),
            ("toml".to_string(), detailed(&["version"])),
        ]),
    };
    let mut names = ws.get_workspace_dependency_names();
    names.sort();
    assert_eq!(names, vec!["serde".to_string(), "toml".to_string()]);
}

#[test]
fn get_workspace_dependency_names_empty_without_table() {
    let ws = Workspace {
        members: vec!["a".to_string()],
        dependencies: None,
    };
    assert!(ws.get_workspace_dependency_names().is_empty());
}

#[test]
fn get_member_dependencies_records_literal_under_pattern() {
    let ws = Workspace {
        members: vec!["crates/app".to_string()],
        dependencies: None,
    };
    let sources = vec![member_with_deps(vec![("serde".to_string(), simple("1.0"))])];
    let members = ws.get_member_dependencies(sources).unwrap();
    assert_eq!(members.len(), 1);
    assert_eq!(members[0].0, "crates/app");
    assert_eq!(members[0].1.len(), 1);
    assert_eq!(members[0].1[0].0, "serde");
    assert!(matches!(members[0].1[0].1, Dependency::Simple(ref v) if v == "1.0"));
}
