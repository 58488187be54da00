use cargo_release::manifest::{set_package_version, set_workspace_version, upgrade_dependency_req};
use cargo_release::requirement::{DependentVersion, Version};

const SIMPLE: &str = "\
[package]
name = \"simple\"
version = \"0.1.0\"
authors = []
edition = \"2018\"

# a retained comment
[dependencies]
";

#[test]
fn succeeds() {
    let updated = set_package_version(SIMPLE, "2.0.0").unwrap();
    let doc: toml_edit::DocumentMut = updated.parse().unwrap();
    assert_eq!(doc["package"]["version"].as_str(), Some("2.0.0"));
}

#[test]
fn round_trip_touches_only_the_version() {
    let updated = set_package_version(SIMPLE, "2.0.0").unwrap();
    // Re-reading yields exactly the requested version.
    let doc: toml_edit::DocumentMut = updated.parse().unwrap();
    assert_eq!(doc["package"]["version"].as_str(), Some("2.0.0"));
    // Every line but the touched field is byte-identical.
    let before: Vec<&str> = SIMPLE.lines().collect();
    let after: Vec<&str> = updated.lines().collect();
    assert_eq!(before.len(), after.len());
    for (b, a) in before.iter().zip(after.iter()) {
        if b.starts_with("version =") {
            assert_eq!(*a, "version = \"2.0.0\"");
        } else {
            assert_eq!(b, a);
        }
    }
}

#[test]
fn workspace_version_is_set() {
    let text = "[workspace]\nmembers = [\"a\"]\n\n[workspace.package]\nversion = \"0.1.0\"\n";
    let updated = set_workspace_version(text, "2.0.0").unwrap();
    let doc: toml_edit::DocumentMut = updated.parse().unwrap();
    assert_eq!(
        doc["workspace"]["package"]["version"].as_str(),
        Some("2.0.0")
    );
}

#[test]
fn non_table_item_is_refused_without_panic() {
    // `package` is already a plain value: the assignment cannot apply, so
    // the edit is refused rather than attempted.
    assert!(set_package_version("package = 1\n", "2.0.0").is_none());
    assert!(set_workspace_version("workspace = 1\n", "2.0.0").is_none());
    assert!(set_workspace_version("workspace.package = \"x\"\n", "2.0.0").is_none());
}

#[test]
fn unparseable_manifest_is_refused() {
    assert!(set_package_version("not = = toml", "1.0.0").is_none());
    assert!(upgrade_dependency_req(
        "not = = toml",
        ".",
        "/",
        &Version { major: 1, minor: 0, patch: 0, pre: String::new() },
        DependentVersion::Upgrade,
    )
    .is_none());
}

#[test]
fn dependency_requirement_is_upgraded() {
    // The dependency's path points at the current directory, which is also
    // handed in as the released crate's root, so the entry is eligible.
    let root = dunce::canonicalize(std::path::Path::new("."))
        .unwrap()
        .to_str()
        .unwrap()
        .to_owned();
    let text = "\
[package]
name = \"dependent\"
version = \"0.1.0\"

[dependencies]
demo = { version = \"1.0\", path = \".\" }
other = \"1.0\"
foreign = { version = \"1.0\", path = \"no-such-subdir\" }
";
    let v = Version { major: 2, minor: 0, patch: 0, pre: String::new() };
    let (updated, events) =
        upgrade_dependency_req(text, ".", &root, &v, DependentVersion::Upgrade).unwrap();
    // Both path dependencies are examined; only the matching one is rewritten.
    assert_eq!(events.len(), 2);
    assert_eq!(events[0].name, "demo");
    assert_eq!(events[0].old_req, "1.0");
    assert_eq!(events[0].dep_path, ".");
    assert_eq!(events[0].canon.as_deref(), Some(root.as_str()));
    assert_eq!(events[0].new_req.as_deref(), Some("2.0"));
    assert_eq!(events[1].name, "foreign");
    assert!(events[1].canon.is_none());
    assert!(events[1].new_req.is_none());
    let doc: toml_edit::DocumentMut = updated.parse().unwrap();
    assert_eq!(doc["dependencies"]["demo"]["version"].as_str(), Some("2.0"));
    // An entry without a matching path is left alone.
    assert_eq!(doc["dependencies"]["other"].as_str(), Some("1.0"));
    assert_eq!(doc["dependencies"]["foreign"]["version"].as_str(), Some("1.0"));
}

#[test]
fn dev_and_target_tables_are_reached() {
    let root = dunce::canonicalize(std::path::Path::new("."))
        .unwrap()
        .to_str()
        .unwrap()
        .to_owned();
    let text = "\
[dev-dependencies]
demo = { version = \"1.0\", path = \".\" }

[target.'cfg(unix)'.build-dependencies]
demo = { version = \"^1.0\", path = \".\" }
";
    let v = Version { major: 1, minor: 5, patch: 0, pre: String::new() };
    let (updated, events) =
        upgrade_dependency_req(text, ".", &root, &v, DependentVersion::Upgrade).unwrap();
    assert_eq!(events.len(), 2);
    let doc: toml_edit::DocumentMut = updated.parse().unwrap();
    assert_eq!(
        doc["dev-dependencies"]["demo"]["version"].as_str(),
        Some("1.5")
    );
    assert_eq!(
        doc["target"]["cfg(unix)"]["build-dependencies"]["demo"]["version"].as_str(),
        Some("^1.5")
    );
}

#[test]
fn fix_policy_leaves_matching_entries() {
    let root = dunce::canonicalize(std::path::Path::new("."))
        .unwrap()
        .to_str()
        .unwrap()
        .to_owned();
    let text = "[dependencies]\ndemo = { version = \"^1.0\", path = \".\" }\n";
    let v = Version { major: 1, minor: 2, patch: 0, pre: String::new() };
    let (updated, events) =
        upgrade_dependency_req(text, ".", &root, &v, DependentVersion::Fix).unwrap();
    // The entry is examined but the matching requirement stays.
    assert_eq!(events.len(), 1);
    assert!(events[0].new_req.is_none());
    assert_eq!(updated, text);
}

#[test]
fn fix_twice_makes_no_second_change() {
    let root = dunce::canonicalize(std::path::Path::new("."))
        .unwrap()
        .to_str()
        .unwrap()
        .to_owned();
    let text = "[dependencies]\ndemo = { version = \"^1.0\", path = \".\" }\n";
    let v = Version { major: 2, minor: 0, patch: 0, pre: String::new() };
    let (once, first) =
        upgrade_dependency_req(text, ".", &root, &v, DependentVersion::Fix).unwrap();
    assert_eq!(first.len(), 1);
    assert!(first[0].new_req.is_some());
    let (twice, second) =
        upgrade_dependency_req(&once, ".", &root, &v, DependentVersion::Fix).unwrap();
    assert_eq!(second.len(), 1);
    assert!(second[0].new_req.is_none());
    assert_eq!(twice, once);
}
