use jab::config::JabConfig;
use jab::config::ProjectConfig;
use jab::config::ProjectConfigError;

fn cfg(name: &str, db_uri: &str) -> ProjectConfig {
    ProjectConfig { name: String::from(name), db_uri: String::from(db_uri) }
}

#[test]
fn register_then_lookup() {
    let mut c = JabConfig::new();
    c.register_project_config(cfg("shop", "postgres://localhost/shop"));
    let got = c.project_config("shop").unwrap();
    assert_eq!(got.name, "shop");
    assert_eq!(got.db_uri, "postgres://localhost/shop");
}

#[test]
fn register_same_name_overwrites_and_keeps_size() {
    let mut c = JabConfig::new();
    c.register_project_config(cfg("shop", "postgres://localhost/one"));
    c.register_project_config(cfg("blog", "postgres://localhost/blog"));
    assert_eq!(c.projects.len(), 2);
    c.register_project_config(cfg("shop", "postgres://localhost/two"));
    assert_eq!(c.projects.len(), 2);
    let got = c.project_config("shop").unwrap();
    assert_eq!(got.db_uri, "postgres://localhost/two");
    let other = c.project_config("blog").unwrap();
    assert_eq!(other.db_uri, "postgres://localhost/blog");
}

#[test]
fn lookup_unregistered_name_fails_with_name() {
    let mut c = JabConfig::new();
    c.register_project_config(cfg("shop", "postgres://localhost/shop"));
    let err = c.project_config("warehouse").unwrap_err();
    let ProjectConfigError::ProjectConfigDoesNotExist { name } = err;
    assert_eq!(name, "warehouse");
}

#[test]
fn lookup_error_message_names_the_project() {
    let c = JabConfig::new();
    let err = c.project_config("shop").unwrap_err();
    assert_eq!(
        err.message(),
        "Project config shop does not exist, please check config or create it"
    );
}

#[test]
fn get_path_joins_base_dir_and_config() {
    assert_eq!(JabConfig::get_path("/home/u/.jab"), "/home/u/.jab/config");
}
