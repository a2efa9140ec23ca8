use bump::toml_doc::manifest_facts_from_str;
use bump::workspace::{check_workspace_independent_versions, MemberManifest};

/// The member manifests a directory tree would yield: each declared member
/// path with its manifest's contents, or nothing where the manifest file is
/// missing.
fn members_of(entries: &[(&str, Option<&str>)]) -> Vec<MemberManifest> {
    entries
        .iter()
        .map(|(path, content)| MemberManifest {
            path: path.to_string(),
            facts: content.map(|c| manifest_facts_from_str(c).unwrap()),
        })
        .collect()
}

#[test]
fn test_check_independent_versions_not_a_workspace() {
    let root = manifest_facts_from_str(
        r#"
[package]
name = "my-app"
version = "1.0.0"
"#,
    )
    .unwrap();
    // not a workspace: no members to inspect
    assert!(root.members.is_none());
    let result = check_workspace_independent_versions(&members_of(&[]));
    assert!(result.is_empty(), "Non-workspace should return empty vec");
}

#[test]
fn test_check_independent_versions_workspace_no_members() {
    let root = manifest_facts_from_str(
        r#"
[workspace]

[workspace.package]
version = "1.0.0"
"#,
    )
    .unwrap();
    assert!(root.members.is_none());
    let result = check_workspace_independent_versions(&members_of(&[]));
    assert!(
        result.is_empty(),
        "Workspace with no members should return empty vec"
    );
}

#[test]
fn test_check_independent_versions_all_use_workspace_version() {
    let result = check_workspace_independent_versions(&members_of(&[
        (
            "crate-a",
            Some(
                r#"
[package]
name = "crate-a"
version.workspace = true
"#,
            ),
        ),
        (
            "crate-b",
            Some(
                r#"
[package]
name = "crate-b"
version.workspace = true
"#,
            ),
        ),
    ]));
    assert!(
        result.is_empty(),
        "All members using workspace version should return empty vec"
    );
}

#[test]
fn test_check_independent_versions_some_independent() {
    let result = check_workspace_independent_versions(&members_of(&[
        (
            "crate-a",
            Some(
                r#"
[package]
name = "crate-a"
version.workspace = true
"#,
            ),
        ),
        (
            "crate-b",
            Some(
                r#"
[package]
name = "crate-b"
version = "2.0.0"
"#,
            ),
        ),
        (
            "crate-c",
            Some(
                r#"
[package]
name = "crate-c"
version = "3.5.0"
"#,
            ),
        ),
    ]));
    assert_eq!(result.len(), 2, "Should detect 2 members with independent versions");

    let names: Vec<&str> = result.iter().map(|m| m.name.as_str()).collect();
    assert!(names.contains(&"crate-b"), "Should detect crate-b");
    assert!(names.contains(&"crate-c"), "Should detect crate-c");

    let crate_b = result.iter().find(|m| m.name == "crate-b").unwrap();
    assert_eq!(crate_b.version, "2.0.0");
    assert_eq!(crate_b.path, "crate-b");

    let crate_c = result.iter().find(|m| m.name == "crate-c").unwrap();
    assert_eq!(crate_c.version, "3.5.0");
    assert_eq!(crate_c.path, "crate-c");
}

#[test]
fn test_check_independent_versions_all_independent() {
    let result = check_workspace_independent_versions(&members_of(&[
        (
            "crate-a",
            Some(
                r#"
[package]
name = "crate-a"
version = "1.0.0"
"#,
            ),
        ),
        (
            "crate-b",
            Some(
                r#"
[package]
name = "crate-b"
version = "2.0.0"
"#,
            ),
        ),
    ]));
    assert_eq!(
        result.len(),
        2,
        "Should detect both members with independent versions"
    );
}

#[test]
fn test_check_independent_versions_member_missing_cargo_toml() {
    // crate-missing has no manifest and is silently skipped
    let result = check_workspace_independent_versions(&members_of(&[
        (
            "crate-a",
            Some(
                r#"
[package]
name = "crate-a"
version = "1.0.0"
"#,
            ),
        ),
        ("crate-missing", None),
    ]));
    assert_eq!(result.len(), 1, "Should only detect existing member");
    assert_eq!(result[0].name, "crate-a");
}

#[test]
fn test_check_independent_versions_member_no_version_field() {
    let result = check_workspace_independent_versions(&members_of(&[(
        "crate-a",
        Some(
            r#"
[package]
name = "crate-a"
"#,
        ),
    )]));
    assert!(
        result.is_empty(),
        "Member with no version field should not be flagged"
    );
}

#[test]
fn test_check_independent_versions_nested_path() {
    let result = check_workspace_independent_versions(&members_of(&[
        (
            "crates/core",
            Some(
                r#"
[package]
name = "my-core"
version = "0.5.0"
"#,
            ),
        ),
        (
            "crates/cli",
            Some(
                r#"
[package]
name = "my-cli"
version.workspace = true
"#,
            ),
        ),
    ]));
    assert_eq!(result.len(), 1);
    assert_eq!(result[0].name, "my-core");
    assert_eq!(result[0].path, "crates/core");
    assert_eq!(result[0].version, "0.5.0");
}

#[test]
fn test_check_independent_versions_single_divergent_member() {
    // one inheriting member and one independent member: exactly the
    // independent one is reported
    let result = check_workspace_independent_versions(&members_of(&[
        (
            "crate-a",
            Some(
                r#"
[package]
name = "crate-a"
version.workspace = true
"#,
            ),
        ),
        (
            "crate-b",
            Some(
                r#"
[package]
name = "crate-b"
version = "2.0.0"
"#,
            ),
        ),
    ]));
    assert_eq!(result.len(), 1);
    assert_eq!(result[0].name, "crate-b");
    assert_eq!(result[0].version, "2.0.0");
}

#[test]
fn test_member_without_name_uses_path() {
    let result = check_workspace_independent_versions(&members_of(&[(
        "crates/anon",
        Some("[package]\nversion = \"0.3.0\""),
    )]));
    assert_eq!(result.len(), 1);
    assert_eq!(result[0].name, "crates/anon");
}
