use jab::config::JabConfig;
use jab::config::ProjectConfig;

fn cfg(name: &str, db_uri: &str) -> ProjectConfig {
    ProjectConfig { name: String::from(name), db_uri: String::from(db_uri) }
}

#[test]
fn empty_config_str_is_canonical() {
    assert_eq!(JabConfig::empty_config_str(), "{\n  \"projects\": {}\n}");
}

#[test]
fn to_json_of_empty_registry_matches_empty_config_str() {
    assert_eq!(JabConfig::new().to_json(), JabConfig::empty_config_str());
}

#[test]
fn to_json_renders_one_entry_pretty() {
    let mut c = JabConfig::new();
    c.register_project_config(cfg("shop", "postgres://localhost/shop"));
    let expected = "{\n  \"projects\": {\n    \"shop\": {\n      \"name\": \"shop\",\n      \"db_uri\": \"postgres://localhost/shop\"\n    }\n  }\n}";
    assert_eq!(c.to_json(), expected);
}

#[test]
fn round_trip_reproduces_the_mapping() {
    let mut c = JabConfig::new();
    c.register_project_config(cfg("shop", "postgres://localhost/shop"));
    c.register_project_config(cfg("blog", "postgres://localhost/blog"));
    let text = c.to_json();
    let back = JabConfig::from_json(&text).unwrap();
    assert_eq!(back.projects.len(), 2);
    assert_eq!(back.projects[0].name, "shop");
    assert_eq!(back.projects[0].db_uri, "postgres://localhost/shop");
    assert_eq!(back.projects[1].name, "blog");
    assert_eq!(back.projects[1].db_uri, "postgres://localhost/blog");
}

#[test]
fn round_trip_of_empty_registry() {
    let back = JabConfig::from_json(&JabConfig::new().to_json()).unwrap();
    assert_eq!(back.projects.len(), 0);
}

#[test]
fn round_trip_escapes_quotes_and_backslashes() {
    let mut c = JabConfig::new();
    c.register_project_config(cfg("a\"b\\c", "uri with \"quotes\" and \\slashes\\"));
    let text = c.to_json();
    assert!(text.contains("\\\""));
    assert!(text.contains("\\\\"));
    let back = JabConfig::from_json(&text).unwrap();
    assert_eq!(back.projects.len(), 1);
    assert_eq!(back.projects[0].name, "a\"b\\c");
    assert_eq!(back.projects[0].db_uri, "uri with \"quotes\" and \\slashes\\");
}

#[test]
fn save_then_load_then_save_is_stable() {
    let mut c = JabConfig::new();
    c.register_project_config(cfg("shop", "postgres://localhost/shop"));
    let text = c.to_json();
    let back = JabConfig::from_json(&text).unwrap();
    assert_eq!(back.to_json(), text);
}

#[test]
fn from_json_rejects_garbage() {
    assert!(JabConfig::from_json("not a registry").is_err());
    assert!(JabConfig::from_json("").is_err());
    assert!(JabConfig::from_json("{\"projects\": {}").is_err());
    assert!(JabConfig::from_json("{\"projects\": {}} trailing").is_err());
    assert!(JabConfig::from_json("{\"records\": {}}").is_err());
}

#[test]
fn from_json_accepts_whitespace_variants() {
    let compact = JabConfig::from_json("{\"projects\":{}}").unwrap();
    assert_eq!(compact.projects.len(), 0);
    let expanded = JabConfig::from_json("{\n  \"projects\": {\n  }\n}").unwrap();
    assert_eq!(expanded.projects.len(), 0);
    let padded = JabConfig::from_json("  \t{ \"projects\" :\n{} }\r\n").unwrap();
    assert_eq!(padded.projects.len(), 0);
    let one = JabConfig::from_json(
        "{\"projects\":{\"a\":{\"name\":\"a\",\"db_uri\":\"u\"}}}",
    )
    .unwrap();
    assert_eq!(one.projects.len(), 1);
    assert_eq!(one.projects[0].name, "a");
    assert_eq!(one.projects[0].db_uri, "u");
}

#[test]
fn from_json_accepts_members_in_either_order() {
    let swapped = JabConfig::from_json(
        "{\"projects\":{\"a\":{\"db_uri\":\"u\",\"name\":\"a\"}}}",
    )
    .unwrap();
    assert_eq!(swapped.projects[0].name, "a");
    assert_eq!(swapped.projects[0].db_uri, "u");
}

#[test]
fn from_json_accepts_full_escape_set() {
    let doc = "{\"projects\":{\"a\\u0041\":{\"name\":\"a\\u0041\",\"db_uri\":\"l1\\nl2\\t\\/\\\"q\\\"\\u00e9\\uD83D\\uDE00\"}}}";
    let back = JabConfig::from_json(doc).unwrap();
    assert_eq!(back.projects[0].name, "aA");
    assert_eq!(back.projects[0].db_uri, "l1\nl2\t/\"q\"\u{e9}\u{1F600}");
}

#[test]
fn from_json_rejects_bad_strings() {
    // a raw control character inside a string literal
    assert!(
        JabConfig::from_json("{\"projects\":{\"a\u{1}b\":{\"name\":\"a\u{1}b\",\"db_uri\":\"u\"}}}")
            .is_err()
    );
    // an unpaired surrogate escape
    assert!(
        JabConfig::from_json("{\"projects\":{\"\\uD800\":{\"name\":\"\\uD800\",\"db_uri\":\"u\"}}}")
            .is_err()
    );
    // an unknown escape
    assert!(
        JabConfig::from_json("{\"projects\":{\"\\x\":{\"name\":\"\\x\",\"db_uri\":\"u\"}}}")
            .is_err()
    );
}

#[test]
fn round_trip_escapes_control_characters() {
    let mut c = JabConfig::new();
    c.register_project_config(cfg("line\nfeed\ttab", "bell\u{7}end"));
    let text = c.to_json();
    assert!(text.contains("\\n"));
    assert!(text.contains("\\t"));
    assert!(text.contains("\\u0007"));
    let back = JabConfig::from_json(&text).unwrap();
    assert_eq!(back.projects[0].name, "line\nfeed\ttab");
    assert_eq!(back.projects[0].db_uri, "bell\u{7}end");
}

#[test]
fn from_json_rejects_key_that_contradicts_name() {
    let text = "{\n  \"projects\": {\n    \"shop\": {\n      \"name\": \"blog\",\n      \"db_uri\": \"u\"\n    }\n  }\n}";
    assert!(JabConfig::from_json(text).is_err());
}

#[test]
fn from_json_rejects_duplicate_names() {
    let text = "{\n  \"projects\": {\n    \"shop\": {\n      \"name\": \"shop\",\n      \"db_uri\": \"u1\"\n    },\n    \"shop\": {\n      \"name\": \"shop\",\n      \"db_uri\": \"u2\"\n    }\n  }\n}";
    assert!(JabConfig::from_json(text).is_err());
}

#[test]
fn from_json_accepts_two_entry_document() {
    let text = "{\n  \"projects\": {\n    \"shop\": {\n      \"name\": \"shop\",\n      \"db_uri\": \"u1\"\n    },\n    \"blog\": {\n      \"name\": \"blog\",\n      \"db_uri\": \"u2\"\n    }\n  }\n}";
    let back = JabConfig::from_json(text).unwrap();
    assert_eq!(back.projects.len(), 2);
    assert_eq!(back.projects[0].name, "shop");
    assert_eq!(back.projects[1].db_uri, "u2");
}
