use cargo_release::gate::{gate, MutationAction};
use cargo_release::replace::{
    apply_rules, do_file_replacements, group_by_file, FileInput, Replace, ReplaceError,
};
use cargo_release::template::Template;

fn rule(file: &str, search: &str, replace: &str) -> Replace {
    Replace {
        file: file.to_owned(),
        search: search.to_owned(),
        replace: replace.to_owned(),
        min: None,
        max: None,
        exactly: None,
        prerelease: false,
    }
}

#[test]
fn exactly_one_match_replaces_only_that_span() {
    let mut r = rule("CHANGES.md", "Unreleased", "{{version}}");
    r.exactly = Some(1);
    let mut t = Template::new();
    t.version = Some("1.2.0".to_owned());
    let content = "# Log\n## Unreleased\nolder text\n".to_owned();
    let out = apply_rules(
        &"CHANGES.md".to_owned(),
        &content,
        &vec![r],
        &t,
        false,
    )
    .unwrap();
    assert_eq!(out, "# Log\n## 1.2.0\nolder text\n");
}

#[test]
fn zero_matches_violates_the_bound() {
    let mut r = rule("CHANGES.md", "Unreleased", "x");
    r.exactly = Some(1);
    let t = Template::new();
    let err = apply_rules(
        &"CHANGES.md".to_owned(),
        &"nothing here\n".to_owned(),
        &vec![r],
        &t,
        false,
    )
    .unwrap_err();
    match err {
        ReplaceError::TooFewMatches { min, actual, .. } => {
            assert_eq!(min, 1);
            assert_eq!(actual, 0);
        }
        _ => panic!("expected a lower-bound violation"),
    }
}

#[test]
fn two_matches_violate_the_bound() {
    let mut r = rule("CHANGES.md", "Unreleased", "x");
    r.exactly = Some(1);
    let t = Template::new();
    let err = apply_rules(
        &"CHANGES.md".to_owned(),
        &"Unreleased and Unreleased\n".to_owned(),
        &vec![r],
        &t,
        false,
    )
    .unwrap_err();
    match err {
        ReplaceError::TooManyMatches { max, actual, .. } => {
            assert_eq!(max, 1);
            assert_eq!(actual, 2);
        }
        _ => panic!("expected an upper-bound violation"),
    }
}

#[test]
fn invalid_pattern_is_a_hard_error() {
    let r = rule("f", "(unclosed", "x");
    let t = Template::new();
    let err = apply_rules(&"f".to_owned(), &"text".to_owned(), &vec![r], &t, false).unwrap_err();
    assert!(matches!(err, ReplaceError::InvalidPattern { .. }));
}

#[test]
fn later_rules_see_earlier_output() {
    let r1 = rule("f", "aaa", "bbb");
    let r2 = rule("f", "bbb", "ccc");
    let t = Template::new();
    let out = apply_rules(&"f".to_owned(), &"aaa".to_owned(), &vec![r1, r2], &t, false).unwrap();
    assert_eq!(out, "ccc");
}

#[test]
fn prerelease_skips_ineligible_rules() {
    let mut r = rule("f", "old", "new");
    r.prerelease = false;
    let t = Template::new();
    let out = apply_rules(&"f".to_owned(), &"old".to_owned(), &vec![r], &t, true).unwrap();
    assert_eq!(out, "old");

    let mut r2 = rule("f", "old", "new");
    r2.prerelease = true;
    let out2 = apply_rules(&"f".to_owned(), &"old".to_owned(), &vec![r2], &t, true).unwrap();
    assert_eq!(out2, "new");
}

#[test]
fn missing_file_fails_that_file() {
    let groups = vec![FileInput {
        file: "absent.md".to_owned(),
        content: None,
        rules: vec![rule("absent.md", "a", "b")],
    }];
    let t = Template::new();
    let reports = do_file_replacements(&groups, &t, false);
    assert_eq!(reports.len(), 1);
    assert!(matches!(
        reports[0],
        Err(ReplaceError::FileMissing { .. })
    ));
}

#[test]
fn one_failing_file_leaves_the_others_processed() {
    // A bound violation in the first file must not abort the second.
    let mut failing = rule("a.md", "absent", "x");
    failing.exactly = Some(1);
    let groups = vec![
        FileInput {
            file: "a.md".to_owned(),
            content: Some("nothing matches".to_owned()),
            rules: vec![failing],
        },
        FileInput {
            file: "b.md".to_owned(),
            content: Some("old".to_owned()),
            rules: vec![rule("b.md", "old", "new")],
        },
    ];
    let t = Template::new();
    let reports = do_file_replacements(&groups, &t, false);
    assert_eq!(reports.len(), 2);
    assert!(matches!(
        reports[0],
        Err(ReplaceError::TooFewMatches { .. })
    ));
    let ok = reports[1].as_ref().unwrap();
    assert_eq!(ok.replaced, "new");
    assert!(ok.changed);
}

#[test]
fn unchanged_content_is_reported_unchanged() {
    let groups = vec![FileInput {
        file: "f".to_owned(),
        content: Some("text".to_owned()),
        rules: vec![],
    }];
    let t = Template::new();
    let reports = do_file_replacements(&groups, &t, false);
    assert_eq!(reports.len(), 1);
    let out = reports[0].as_ref().unwrap();
    assert!(!out.changed);
    assert_eq!(out.replaced, "text");
}

#[test]
fn groups_are_sorted_by_file() {
    let rules = vec![
        rule("b.md", "x", "y"),
        rule("a.md", "p", "q"),
        rule("b.md", "z", "w"),
    ];
    let groups = group_by_file(&rules);
    assert_eq!(groups.len(), 2);
    assert_eq!(groups[0].0, "a.md");
    assert_eq!(groups[1].0, "b.md");
    assert_eq!(groups[1].1.len(), 2);
    assert_eq!(groups[1].1[0].search, "x");
    assert_eq!(groups[1].1[1].search, "z");
}

#[test]
fn gate_separates_dry_run_from_execution() {
    let original = "old".to_owned();
    assert!(matches!(
        gate(&original, "old".to_owned(), true),
        MutationAction::NoChange
    ));
    match gate(&original, "new".to_owned(), true) {
        MutationAction::ShowDiff { before, after } => {
            assert_eq!(before, "old");
            assert_eq!(after, "new");
        }
        _ => panic!("a dry run surfaces a diff"),
    }
    match gate(&original, "new".to_owned(), false) {
        MutationAction::Write { content } => assert_eq!(content, "new"),
        _ => panic!("execution writes the proposed content"),
    }
}

#[test]
fn replacement_text_is_literal() {
    // A dollar sign in the replacement is not a capture-group reference.
    let r = rule("f", "v([0-9]+)", "version $1");
    let t = Template::new();
    let out = apply_rules(&"f".to_owned(), &"v42".to_owned(), &vec![r], &t, false).unwrap();
    assert_eq!(out, "version $1");
}
