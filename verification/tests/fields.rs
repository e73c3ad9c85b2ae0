use kanidm_profiles::client::{
    from_document, get_field_value, set_field_value, FieldError, KanidmClientConfig,
};
use kanidm_profiles::doc::{pointer_get, pointer_replace, DocValue};
use kanidm_profiles::profiles::KanidmProfiles;

fn profile(text: &str) -> KanidmClientConfig {
    let store = KanidmProfiles::default()
        .parse_config_profiles(Ok(text.to_string()))
        .unwrap();
    store.profiles.into_iter().next().unwrap()
}

fn example() -> KanidmClientConfig {
    profile(
        r#"
[[profiles]]
name = "example"
uri = "https://idm.example.com"
username = "admin"

[[profiles.radius_clients]]
name = "lan"
ipaddr = "10.0.0.0/8"
secret = "SECRET-REDACTED"
"#,
    )
}

#[test]
fn get_uri_returns_the_string() {
    let p = example();
    assert_eq!(get_field_value(&p, "/uri").unwrap(), "https://idm.example.com");
}

#[test]
fn get_nonexistent_fails() {
    let p = example();
    assert_eq!(get_field_value(&p, "/nonexistent"), Err(FieldError::NotFound));
}

#[test]
fn get_name_fails_because_name_is_not_in_the_document() {
    let p = example();
    assert_eq!(get_field_value(&p, "/name"), Err(FieldError::NotFound));
}

#[test]
fn get_nested_path_reaches_radius_clients() {
    let p = example();
    assert_eq!(
        get_field_value(&p, "/radius_clients/0/secret").unwrap(),
        "SECRET-REDACTED"
    );
    assert_eq!(
        get_field_value(&p, "/radius_clients/1/secret"),
        Err(FieldError::NotFound)
    );
}

#[test]
fn get_non_text_leaf_is_not_rendered() {
    let p = example();
    assert_eq!(get_field_value(&p, "/radius_clients"), Err(FieldError::NotText));
    assert_eq!(get_field_value(&p, "/password"), Err(FieldError::NotText));
}

#[test]
fn empty_path_selects_whole_document() {
    let p = example();
    assert_eq!(get_field_value(&p, ""), Err(FieldError::NotText));
}

#[test]
fn path_without_leading_slash_fails() {
    let p = example();
    assert_eq!(get_field_value(&p, "uri"), Err(FieldError::NotFound));
}

#[test]
fn set_then_get_returns_new_value() {
    let p = example();
    let (prev, doc) = set_field_value(&p, "/uri", "https://new.example.com".to_string()).unwrap();
    match prev {
        DocValue::Str(s) => assert_eq!(s, "https://idm.example.com"),
        _ => panic!("the replaced node must be the old text"),
    }
    match pointer_get(&doc, "/uri") {
        Some(DocValue::Str(s)) => assert_eq!(s, "https://new.example.com"),
        other => panic!("unexpected node: {:?}", other.is_some()),
    }
    // The profile itself is untouched.
    assert_eq!(p.default.uri.as_deref(), Some("https://idm.example.com"));
}

#[test]
fn set_replaces_a_numeric_node_with_text() {
    let p = profile(
        r#"
[[profiles]]
name = "radius"

[[profiles.radius_groups]]
spn = "net-users"
vlan = 10
"#,
    );
    let (prev, doc) =
        set_field_value(&p, "/radius_groups/0/vlan", "5".to_string()).unwrap();
    match prev {
        DocValue::Int(i) => assert_eq!(i, 10),
        _ => panic!("the replaced node must be the old integer"),
    }
    match pointer_get(&doc, "/radius_groups/0/vlan") {
        Some(DocValue::Str(s)) => assert_eq!(s, "5"),
        _ => panic!("the node must now be text"),
    }
    // A vlan that is no longer an integer has left the record shape.
    assert!(from_document(&doc, "radius").is_none());
}

#[test]
fn set_replaces_a_null_node_with_text() {
    let p = example();
    let (prev, doc) = set_field_value(&p, "/password", "hunter".to_string()).unwrap();
    assert!(matches!(prev, DocValue::Null));
    match pointer_get(&doc, "/password") {
        Some(DocValue::Str(s)) => assert_eq!(s, "hunter"),
        _ => panic!("the node must now be text"),
    }
    let q = from_document(&doc, "example").unwrap();
    assert_eq!(q.password.as_deref(), Some("hunter"));
}

#[test]
fn set_missing_path_fails() {
    let p = example();
    assert!(matches!(
        set_field_value(&p, "/nope", "x".to_string()),
        Err(FieldError::NotFound)
    ));
}

#[test]
fn set_document_re_decodes_into_a_record() {
    let p = example();
    let (_, doc) = set_field_value(&p, "/uri", "https://new.example.com".to_string()).unwrap();
    let q = from_document(&doc, "example").unwrap();
    assert_eq!(q.name, "example");
    assert_eq!(q.default.uri.as_deref(), Some("https://new.example.com"));
    assert_eq!(q.username.as_deref(), Some("admin"));
}

#[test]
fn escaped_segments_follow_json_pointer_rules() {
    let p = profile(
        r#"
[[profiles]]
name = "esc"

[profiles."a/b"]
uri = "https://slash.example.com"
"#,
    );
    assert_eq!(
        get_field_value(&p, "/a~1b/uri").unwrap(),
        "https://slash.example.com"
    );
    assert_eq!(get_field_value(&p, "/a/b/uri"), Err(FieldError::NotFound));
}

#[test]
fn array_indices_reject_leading_zeros() {
    let p = example();
    assert_eq!(
        get_field_value(&p, "/radius_clients/00/secret"),
        Err(FieldError::NotFound)
    );
}

#[test]
fn pointer_replace_keeps_document_on_failure() {
    let p = example();
    let doc = p.to_document();
    match pointer_replace(doc, "/missing/path", DocValue::Str("x".to_string())) {
        Err(original) => match pointer_get(&original, "/uri") {
            Some(DocValue::Str(s)) => assert_eq!(s, "https://idm.example.com"),
            _ => panic!("document was altered"),
        },
        Ok(_) => panic!("replacement must fail"),
    }
}
