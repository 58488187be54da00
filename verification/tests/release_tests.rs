use cargo_release::owners::{ensure_owners, missing_owners, OwnerRequest};
use cargo_release::release::{is_published, package_content_paths, publish, Features};
use cargo_release::verbosity::{Level, Verbosity};

#[test]
fn publish_builds_the_full_command() {
    let args = publish(
        true,
        false,
        &"ws/Cargo.toml".to_owned(),
        &vec!["a".to_owned(), "b".to_owned()],
        &vec![
            Features::NoDefault,
            Features::Selective(vec!["one".to_owned(), "two".to_owned()]),
            Features::All,
        ],
        &Some("alt".to_owned()),
        &Some("x86_64-unknown-linux-gnu".to_owned()),
    )
    .unwrap();
    assert_eq!(
        args,
        vec![
            "publish",
            "--manifest-path",
            "ws/Cargo.toml",
            "-Zpackage-workspace",
            "--package",
            "a",
            "--package",
            "b",
            "--registry",
            "alt",
            "--dry-run",
            "--allow-dirty",
            "--no-verify",
            "--target",
            "x86_64-unknown-linux-gnu",
            "--no-default-features",
            "--all-features",
            "--features",
            "one,two",
        ]
    );
}

#[test]
fn publish_with_nothing_to_do() {
    let args = publish(
        false,
        true,
        &"Cargo.toml".to_owned(),
        &vec![],
        &vec![],
        &None,
        &None,
    );
    assert!(args.is_none());
}

#[test]
fn publish_minimal() {
    let args = publish(
        false,
        true,
        &"Cargo.toml".to_owned(),
        &vec!["only".to_owned()],
        &vec![],
        &None,
        &None,
    )
    .unwrap();
    assert_eq!(
        args,
        vec!["publish", "--manifest-path", "Cargo.toml", "--package", "only"]
    );
}

#[test]
fn is_published_only_on_a_definite_yes() {
    assert!(is_published(Ok(Some(true))));
    assert!(!is_published(Ok(Some(false))));
    assert!(!is_published(Ok(None)));
    assert!(!is_published(Err("registry unreachable".to_owned())));
}

#[test]
fn log_level_balances_quiet_and_verbose() {
    let level = |quiet, verbose| Verbosity { quiet, verbose }.log_level();
    assert_eq!(level(0, 0), Level::Info);
    assert_eq!(level(1, 0), Level::Warn);
    assert_eq!(level(2, 0), Level::Error);
    assert_eq!(level(5, 0), Level::Error);
    assert_eq!(level(0, 1), Level::Debug);
    assert_eq!(level(0, 2), Level::Trace);
    assert_eq!(level(1, 1), Level::Info);
}

#[test]
fn package_paths_resolve_against_the_package_directory() {
    let paths = package_content_paths(
        "/ws/pkg",
        &vec!["src/lib.rs".to_owned(), "/abs/file".to_owned()],
    );
    assert_eq!(paths, vec!["/ws/pkg/src/lib.rs", "/abs/file"]);
    let bare = package_content_paths("", &vec!["src/lib.rs".to_owned()]);
    assert_eq!(bare, vec!["src/lib.rs"]);
}

#[test]
fn owner_tasks_skip_disabled_packages() {
    let pkgs = vec![
        OwnerRequest {
            name: "a".to_owned(),
            publish: true,
            ensure_owners: true,
            owners: vec!["alice".to_owned()],
            registry: None,
        },
        OwnerRequest {
            name: "b".to_owned(),
            publish: false,
            ensure_owners: true,
            owners: vec!["bob".to_owned()],
            registry: None,
        },
        OwnerRequest {
            name: "c".to_owned(),
            publish: true,
            ensure_owners: false,
            owners: vec![],
            registry: Some("alt".to_owned()),
        },
    ];
    let tasks = ensure_owners(&pkgs);
    assert_eq!(tasks.len(), 1);
    assert_eq!(tasks[0].name, "a");
    assert_eq!(tasks[0].owners, vec!["alice"]);
}

#[test]
fn missing_owners_is_the_sorted_difference() {
    let expected = vec![
        "carol".to_owned(),
        "alice".to_owned(),
        "bob".to_owned(),
        "alice".to_owned(),
    ];
    let current = vec!["bob".to_owned()];
    assert_eq!(missing_owners(&expected, &current), vec!["alice", "carol"]);
    let nobody: Vec<String> = vec![];
    assert_eq!(
        missing_owners(&expected, &nobody),
        vec!["alice", "bob", "carol"]
    );
}
