use workspace_audit::manifest::AuditError;
use workspace_audit::manifest::CargoToml;
use workspace_audit::manifest::Dependency;
use workspace_audit::manifest::Workspace;
use workspace_audit::parse::decode_dep;
use workspace_audit::parse::parse_cargo_toml;
use workspace_audit::resolve::MemberSource;
use workspace_audit::toml_doc::TomlDoc;

#[test]
fn parses_workspace_manifest() {
    let text = r#"
[workspace]
members = ["a", "b"]

[workspace.dependencies]
serde = "1.0"
"#;
    let manifest = parse_cargo_toml(text).unwrap();
    let ws = manifest.workspace.expect("workspace section");
    assert_eq!(ws.members, vec!["a".to_string(), "b".to_string()]);
    let deps = ws.dependencies.expect("central table");
    assert_eq!(deps.len(), 1);
    assert_eq!(deps[0].0, "serde");
    assert!(matches!(deps[0].1, Dependency::Simple(ref v) if v == "1.0"));
}

#[test]
fn bare_string_decodes_to_simple() {
    let text = "[dependencies]\nserde = \"1.0.196\"\n";
    let manifest = parse_cargo_toml(text).unwrap();
    let deps = manifest.dependencies.unwrap();
    assert!(matches!(deps[0].1, Dependency::Simple(ref v) if v == "1.0.196"));
}

#[test]
fn table_decodes_to_detailed_with_its_keys() {
    let text = "[dependencies]\nserde = { version = \"1.0\", features = [\"derive\"] }\n";
    let manifest = parse_cargo_toml(text).unwrap();
    let deps = manifest.dependencies.unwrap();
    match &deps[0].1 {
        Dependency::Detailed(keys) => {
            let mut keys = keys.clone();
            keys.sort();
            assert_eq!(keys, vec!["features".to_string(), "version".to_string()]);
        }
        other => panic!("expected a detailed table, got {other:?}"),
    }
}

#[test]
fn workspace_marker_key_survives_parsing() {
    let text = "[dependencies]\nserde = { workspace = true }\n";
    let manifest = parse_cargo_toml(text).unwrap();
    let deps = manifest.dependencies.unwrap();
    match &deps[0].1 {
        Dependency::Detailed(keys) => assert_eq!(keys, &vec!["workspace".to_string()]),
        other => panic!("expected a detailed table, got {other:?}"),
    }
}

#[test]
fn package_section_yields_name() {
    let text = "[package]\nname = \"demo\"\nversion = \"0.1.0\"\n";
    let manifest = parse_cargo_toml(text).unwrap();
    assert_eq!(manifest.package.unwrap().name, "demo");
}

#[test]
fn decode_dep_is_positional() {
    match decode_dep(&TomlDoc::Str("1.0".to_string())) {
        Ok(Dependency::Simple(v)) => assert_eq!(v, "1.0"),
        other => panic!("expected a bare pin, got {other:?}"),
    }
    let table = TomlDoc::Table(vec![(
        "path".to_string(),
        TomlDoc::Str("../x".to_string()),
    )]);
    match decode_dep(&table) {
        Ok(Dependency::Detailed(keys)) => assert_eq!(keys, vec!["path".to_string()]),
        other => panic!("expected a detailed table, got {other:?}"),
    }
    assert!(matches!(
        decode_dep(&TomlDoc::Other),
        Err(AuditError::ParseError(_))
    ));
    assert!(matches!(
        decode_dep(&TomlDoc::Arr(vec![])),
        Err(AuditError::ParseError(_))
    ));
}

#[test]
fn malformed_text_is_parse_error() {
    let text = "this is [ not toml";
    assert!(matches!(
        parse_cargo_toml(text),
        Err(AuditError::ParseError(_))
    ));
}

#[test]
fn dependency_of_wrong_type_is_parse_error() {
    let text = "[dependencies]\nserde = 5\n";
    assert!(matches!(
        parse_cargo_toml(text),
        Err(AuditError::ParseError(_))
    ));
}

#[test]
fn workspace_without_members_is_parse_error() {
    let text = "[workspace.dependencies]\nserde = \"1.0\"\n";
    assert!(matches!(
        parse_cargo_toml(text),
        Err(AuditError::ParseError(_))
    ));
}

#[test]
fn member_pattern_of_wrong_type_is_parse_error() {
    let text = "[workspace]\nmembers = [1, 2]\n";
    assert!(matches!(
        parse_cargo_toml(text),
        Err(AuditError::ParseError(_))
    ));
}

#[test]
fn package_without_name_is_parse_error() {
    let text = "[package]\nversion = \"0.1.0\"\n";
    assert!(matches!(
        parse_cargo_toml(text),
        Err(AuditError::ParseError(_))
    ));
}

#[test]
fn unknown_top_level_keys_are_ignored() {
    let text = "[profile.release]\nlto = true\n\n[dependencies]\nserde = \"1.0\"\n";
    let manifest = parse_cargo_toml(text).unwrap();
    assert!(manifest.workspace.is_none());
    assert!(manifest.package.is_none());
    assert_eq!(manifest.dependencies.unwrap().len(), 1);
}

#[test]
fn parsed_and_directly_built_path_tables_classify_identically() {
    // A {path = "../x"} table decoded from manifest text and the same
    // table built directly are classified the same way by the analysis.
    let text = "[dependencies]\nutil = { path = \"../x\" }\n";
    let direct = || CargoToml {
        workspace: None,
        package: None,
        dependencies: Some(vec![(
            "util".to_string(),
            Dependency::Detailed(vec!["path".to_string()]),
        )]),
    };
    let ws = Workspace {
        members: vec!["a".to_string(), "b".to_string()],
        dependencies: None,
    };
    let via_text = ws
        .find_duplicate_dependencies(vec![
            MemberSource::Literal {
                manifest: Some(parse_cargo_toml(text).unwrap()),
            },
            MemberSource::Literal {
                manifest: Some(parse_cargo_toml(text).unwrap()),
            },
        ])
        .unwrap();
    let via_direct = ws
        .find_duplicate_dependencies(vec![
            MemberSource::Literal {
                manifest: Some(direct()),
            },
            MemberSource::Literal {
                manifest: Some(direct()),
            },
        ])
        .unwrap();
    assert_eq!(via_text, via_direct);
    assert!(via_text.is_empty());
}

#[test]
fn end_to_end_from_manifest_text() {
    // The root declares two literal members and a central serde; member a
    // inherits it, member b pins it on its own.
    let root_text = r#"
[workspace]
members = ["a", "b"]

[workspace.dependencies]
serde = "1.0"
"#;
    let a_text = "[package]\nname = \"a\"\n\n[dependencies]\nserde = { workspace = true }\n";
    let b_text = "[package]\nname = \"b\"\n\n[dependencies]\nserde = \"1.0\"\n";

    let root = parse_cargo_toml(root_text).unwrap();
    let ws = root.workspace.unwrap();
    let sources = vec![
        MemberSource::Literal {
            manifest: Some(parse_cargo_toml(a_text).unwrap()),
        },
        MemberSource::Literal {
            manifest: Some(parse_cargo_toml(b_text).unwrap()),
        },
    ];
    let dups = ws.find_duplicate_dependencies(sources).unwrap();
    assert_eq!(dups, vec!["serde".to_string()]);
}

#[test]
fn end_to_end_fully_centralized_from_manifest_text() {
    // Same as above, but member b also uses the inheritance marker.
    let root_text = r#"
[workspace]
members = ["a", "b"]

[workspace.dependencies]
serde = "1.0"
"#;
    let a_text = "[package]\nname = \"a\"\n\n[dependencies]\nserde = { workspace = true }\n";
    let b_text = "[package]\nname = \"b\"\n\n[dependencies]\nserde = { workspace = true }\n";

    let root = parse_cargo_toml(root_text).unwrap();
    let ws = root.workspace.unwrap();
    let sources = vec![
        MemberSource::Literal {
            manifest: Some(parse_cargo_toml(a_text).unwrap()),
        },
        MemberSource::Literal {
            manifest: Some(parse_cargo_toml(b_text).unwrap()),
        },
    ];
    let dups = ws.find_duplicate_dependencies(sources).unwrap();
    assert!(dups.is_empty());
}
