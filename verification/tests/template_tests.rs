use cargo_release::template::Template;

#[test]
fn renders_version_and_date() {
    let mut t = Template::new();
    t.version = Some("2.0.0".to_owned());
    t.date = Some("2024-01-01".to_owned());
    let out = t.render("Released {{version}} on {{date}}");
    assert_eq!(out, "Released 2.0.0 on 2024-01-01");
}

#[test]
fn unrecognized_token_passes_through() {
    let mut t = Template::new();
    t.version = Some("1.0.0".to_owned());
    let out = t.render("{{unknown}} stays, {{version}} goes");
    assert_eq!(out, "{{unknown}} stays, 1.0.0 goes");
}

#[test]
fn absent_value_leaves_token() {
    let t = Template::new();
    let out = t.render("still {{version}} here");
    assert_eq!(out, "still {{version}} here");
}

#[test]
fn replaces_every_occurrence() {
    let mut t = Template::new();
    t.crate_name = Some("pkg".to_owned());
    let out = t.render("{{crate_name}}/{{crate_name}}");
    assert_eq!(out, "pkg/pkg");
}

#[test]
fn all_tokens() {
    let t = Template {
        prev_version: Some("1.0.0".to_owned()),
        prev_metadata: Some("m0".to_owned()),
        version: Some("1.1.0".to_owned()),
        metadata: Some("m1".to_owned()),
        crate_name: Some("demo".to_owned()),
        date: Some("2024-06-30".to_owned()),
        prefix: Some("v".to_owned()),
        tag_name: Some("v1.1.0".to_owned()),
    };
    let out = t.render(
        "{{prev_version}}+{{prev_metadata}} -> {{version}}+{{metadata}} {{crate_name}} {{date}} {{prefix}} {{tag_name}}",
    );
    assert_eq!(out, "1.0.0+m0 -> 1.1.0+m1 demo 2024-06-30 v v1.1.0");
}
