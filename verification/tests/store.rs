use kanidm_profiles::client::KanidmClientConfig;
use kanidm_profiles::profiles::{
    render_active_config, select_by_name, IoFailure, KanidmProfiles, ProfileError,
};

fn load(text: &str) -> Result<KanidmProfiles, ProfileError> {
    KanidmProfiles::default().parse_config_profiles(Ok(text.to_string()))
}

#[test]
fn load_store_keeps_count_and_order() {
    let text = r#"
[[profiles]]
name = "alpha"
uri = "https://a.example.com"

[[profiles]]
name = "beta"
uri = "https://b.example.com"
username = "admin"

[[profiles]]
name = "gamma"
"#;
    let store = load(text).unwrap();
    assert_eq!(store.profiles.len(), 3);
    assert_eq!(store.profiles[0].name, "alpha");
    assert_eq!(store.profiles[1].name, "beta");
    assert_eq!(store.profiles[2].name, "gamma");
    assert_eq!(
        store.profiles[0].default.uri.as_deref(),
        Some("https://a.example.com")
    );
    assert_eq!(store.profiles[1].username.as_deref(), Some("admin"));
    assert_eq!(store.profiles[2].default.uri, None);
}

#[test]
fn load_missing_file_is_file_not_found() {
    let r = KanidmProfiles::default().parse_config_profiles(Err(IoFailure::NotFound));
    assert_eq!(r.err(), Some(ProfileError::FileNotFound));
}

#[test]
fn load_permission_denied_is_kept() {
    let r = KanidmProfiles::default().parse_config_profiles(Err(IoFailure::PermissionDenied));
    assert_eq!(r.err(), Some(ProfileError::PermissionDenied));
}

#[test]
fn load_other_io_error_is_kept() {
    let r = KanidmProfiles::default().parse_config_profiles(Err(IoFailure::Other));
    assert_eq!(r.err(), Some(ProfileError::OtherIoError));
}

#[test]
fn load_empty_profiles_array_is_empty_store() {
    let store = load("profiles = []\n").unwrap();
    assert_eq!(store.profiles.len(), 0);
}

#[test]
fn load_invalid_toml_is_parse_error() {
    assert_eq!(load("this is [[[ not toml").err(), Some(ProfileError::ParseError));
}

#[test]
fn load_missing_profiles_key_is_parse_error() {
    assert_eq!(load("other = 1\n").err(), Some(ProfileError::ParseError));
}

#[test]
fn load_profiles_of_wrong_type_is_parse_error() {
    assert_eq!(load("profiles = 3\n").err(), Some(ProfileError::ParseError));
}

#[test]
fn load_profile_without_name_is_parse_error() {
    let text = "[[profiles]]\nuri = \"https://a\"\n";
    assert_eq!(load(text).err(), Some(ProfileError::ParseError));
}

#[test]
fn load_profile_with_numeric_uri_is_parse_error() {
    let text = "[[profiles]]\nname = \"a\"\nuri = 5\n";
    assert_eq!(load(text).err(), Some(ProfileError::ParseError));
}

#[test]
fn load_profile_with_out_of_range_vlan_is_parse_error() {
    let text = "[[profiles]]\nname = \"a\"\n[[profiles.radius_groups]]\nspn = \"g\"\nvlan = 70000\n";
    assert_eq!(load(text).err(), Some(ProfileError::ParseError));
}

#[test]
fn load_radius_metadata() {
    let text = r#"
[[profiles]]
name = "radius"
uri = "https://idm.example.com"
radius_required_groups = ["net-admins", "net-users"]

[[profiles.radius_groups]]
spn = "net-users@idm.example.com"
vlan = 10

[[profiles.radius_clients]]
name = "lan"
ipaddr = "10.0.0.0/8"
secret = "SECRET-REDACTED"
"#;
    let store = load(text).unwrap();
    let p = &store.profiles[0];
    let rrg = p.radius_required_groups.as_ref().unwrap();
    assert_eq!(rrg, &vec!["net-admins".to_string(), "net-users".to_string()]);
    let groups = p.radius_groups.as_ref().unwrap();
    assert_eq!(groups.len(), 1);
    assert_eq!(groups[0].spn, "net-users@idm.example.com");
    assert_eq!(groups[0].vlan, 10);
    let clients = p.radius_clients.as_ref().unwrap();
    assert_eq!(clients[0].name, "lan");
    assert_eq!(clients[0].ipaddr, "10.0.0.0/8");
    assert_eq!(clients[0].secret, "SECRET-REDACTED");
}

#[test]
fn load_sub_instances() {
    let text = r#"
[[profiles]]
name = "multi"
uri = "https://main.example.com"

[profiles.work]
uri = "https://work.example.com"
verify_ca = true
"#;
    let store = load(text).unwrap();
    let p = &store.profiles[0];
    assert_eq!(p.instances.len(), 1);
    assert_eq!(p.instances[0].0, "work");
    assert_eq!(p.instances[0].1.uri.as_deref(), Some("https://work.example.com"));
    assert_eq!(p.instances[0].1.verify_ca, Some(true));
}

fn named(name: &str) -> KanidmClientConfig {
    let store = load(&format!("[[profiles]]\nname = \"{}\"\n", name)).unwrap();
    store.profiles.into_iter().next().unwrap()
}

#[test]
fn selector_returns_first_match() {
    let profiles = vec![named("a"), named("b"), named("a")];
    assert_eq!(select_by_name(&profiles, "a"), Some(0));
    assert_eq!(select_by_name(&profiles, "b"), Some(1));
    assert_eq!(select_by_name(&profiles, "c"), None);
}

#[test]
fn selector_is_case_sensitive() {
    let profiles = vec![named("Home")];
    assert_eq!(select_by_name(&profiles, "home"), None);
    assert_eq!(select_by_name(&profiles, "Home"), Some(0));
}

#[test]
fn toml_round_trip_keeps_fields_except_name() {
    let text = r#"
[[profiles]]
name = "home"
uri = "https://idm.home.arpa"
verify_ca = false
username = "me"
radius_required_groups = ["g1"]
"#;
    let store = load(text).unwrap();
    let p = &store.profiles[0];
    let rendered = render_active_config(p).unwrap();
    assert!(!rendered.lines().any(|l| l.trim_start().starts_with("name")));
    let again = load(&format!("[[profiles]]\nname = \"other\"\n{}", rendered)).unwrap();
    let q = &again.profiles[0];
    assert_eq!(q.name, "other");
    assert_eq!(q.default.uri, p.default.uri);
    assert_eq!(q.default.verify_ca, p.default.verify_ca);
    assert_eq!(q.default.verify_hostnames, p.default.verify_hostnames);
    assert_eq!(q.default.ca_path, p.default.ca_path);
    assert_eq!(q.username, p.username);
    assert_eq!(q.password, p.password);
    assert_eq!(q.radius_required_groups, p.radius_required_groups);
}

#[test]
fn apply_flow_writes_uri_and_no_name() {
    let text = "[[profiles]]\nname = \"home\"\nuri = \"https://idm.home.arpa\"\n";
    let store = load(text).unwrap();
    assert!(!store.profiles.is_empty());
    let chosen = &store.profiles[0];
    let rendered = render_active_config(chosen).unwrap();
    assert!(rendered.contains("uri = \"https://idm.home.arpa\""));
    assert!(!rendered.contains("name"));
    assert!(rendered.as_bytes().len() > 0);
}

#[test]
fn display_lists_name_uri_and_instances() {
    let text = r#"
[[profiles]]
name = "multi"
uri = "https://main.example.com"

[profiles.work]
uri = "https://work.example.com"
"#;
    let store = load(text).unwrap();
    let shown = store.profiles[0].display_string();
    assert!(shown.starts_with("multi (https://main.example.com)"));
    assert!(shown.contains("sub-instances:"));
    assert!(shown.contains(" - instance uri: work (https://work.example.com)"));
    let bare = named("plain");
    assert_eq!(bare.display_string(), "plain (<unset>)");
}
