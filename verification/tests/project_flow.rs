use jab::config::JabConfig;
use jab::config::ProjectConfig;
use jab::project::CreateInput;
use jab::project::OpenInput;
use jab::project::Project;
use jab::revstore::RevisionStoreError;

fn shop_input<'a>() -> CreateInput<'a> {
    CreateInput {
        project_name: "shop",
        project_dir: "/tmp/projects",
        db_uri: "postgres://localhost/shop",
    }
}

#[test]
fn create_binds_paths_and_uri() {
    let p = Project::create(&shop_input()).unwrap();
    assert_eq!(p.name(), "shop");
    assert_eq!(p.project_dir(), "/tmp/projects");
    assert_eq!(p.repo_path(), "/tmp/projects/shop");
    assert_eq!(p.sql_path(), "dump.sql");
    assert_eq!(p.absolute_sql_path(), "/tmp/projects/shop/dump.sql");
    assert_eq!(p.db_uri(), "postgres://localhost/shop");
}

#[test]
fn open_binds_like_create() {
    let p = Project::open(&OpenInput {
        project_dir: "/tmp/projects",
        project_name: "shop",
        db_uri: "postgres://localhost/shop",
    })
    .unwrap();
    assert_eq!(p.repo_path(), "/tmp/projects/shop");
    assert_eq!(p.sql_path(), "dump.sql");
}

#[test]
fn create_twice_is_idempotent() {
    let p1 = Project::create(&shop_input()).unwrap();
    let p2 = Project::create(&shop_input()).unwrap();
    assert_eq!(p1.repo_path(), p2.repo_path());
    assert_eq!(p1.name(), p2.name());
    assert_eq!(p1.db_uri(), p2.db_uri());
}

#[test]
fn latest_dump_returns_committed_bytes() {
    let mut p = Project::create(&shop_input()).unwrap();
    p.commit_dump("init", b"bytes-a".to_vec()).unwrap();
    assert_eq!(p.get_latest_dump().unwrap(), b"bytes-a".to_vec());
}

#[test]
fn second_commit_wins_and_history_keeps_first() {
    let mut p = Project::create(&shop_input()).unwrap();
    p.commit_dump("m1", b"dump-a".to_vec()).unwrap();
    p.commit_dump("m2", b"dump-b".to_vec()).unwrap();
    assert_eq!(p.get_latest_dump().unwrap(), b"dump-b".to_vec());
    let revs = p.commit_iterator().unwrap();
    let first_commit_id = revs[revs.len() - 1].id;
    assert_eq!(p.get_dump_at_commit(first_commit_id).unwrap(), b"dump-a".to_vec());
}

#[test]
fn latest_dump_on_zero_commits_fails_with_no_revisions() {
    let p = Project::create(&shop_input()).unwrap();
    assert_eq!(p.get_latest_dump().unwrap_err(), RevisionStoreError::NoRevisions);
}

#[test]
fn dump_at_unknown_revision_fails_with_its_id() {
    let mut p = Project::create(&shop_input()).unwrap();
    p.commit_dump("init", b"x".to_vec()).unwrap();
    assert_eq!(
        p.get_dump_at_commit(7).unwrap_err(),
        RevisionStoreError::RevisionNotFound { id: 7 }
    );
}

#[test]
fn sync_dump_alone_records_no_revision() {
    let mut p = Project::create(&shop_input()).unwrap();
    p.sync_dump(b"unrecorded".to_vec()).unwrap();
    assert_eq!(p.get_latest_dump().unwrap_err(), RevisionStoreError::NoRevisions);
    assert_eq!(p.commit_iterator().unwrap().len(), 0);
}

#[test]
fn shop_scenario_end_to_end() {
    let mut registry = JabConfig::new();
    registry.register_project_config(ProjectConfig {
        name: String::from("shop"),
        db_uri: String::from("postgres://localhost/shop"),
    });
    let found = registry.project_config("shop").unwrap();
    assert_eq!(found.db_uri, "postgres://localhost/shop");

    let mut p = Project::create(&CreateInput {
        project_name: "shop",
        project_dir: "/tmp/projects",
        db_uri: &found.db_uri,
    })
    .unwrap();
    p.commit_dump("init", b"v1".to_vec()).unwrap();
    p.commit_dump("update", b"v2".to_vec()).unwrap();

    assert_eq!(p.get_latest_dump().unwrap(), b"v2".to_vec());

    let revs = p.commit_iterator().unwrap();
    assert_eq!(revs.len(), 2);
    assert_eq!(revs[0].message, "update");
    assert_eq!(revs[0].content, b"v2".to_vec());
    assert_eq!(revs[1].message, "init");
    assert_eq!(revs[1].content, b"v1".to_vec());

    let older = revs[1].id;
    assert_eq!(p.get_dump_at_commit(older).unwrap(), b"v1".to_vec());
}
