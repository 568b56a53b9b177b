use cli_state::{name_from, random_name, CliState, CliStateError, StoredRecords, StoredState, VaultConfig};

#[test]
fn layout_paths_under_the_root() {
    let state = CliState::new("/home/u/.ockam");
    assert_eq!(state.database_path(), "/home/u/.ockam/database.sqlite3");
    assert_eq!(state.node_dir("n1"), "/home/u/.ockam/nodes/n1");
    assert_eq!(state.node_stdout_log("n1"), "/home/u/.ockam/nodes/n1/stdout.log");
    assert_eq!(state.node_stderr_log("n1"), "/home/u/.ockam/nodes/n1/stderr.log");
    assert_eq!(CliState::defaults_dir("/home/u/.ockam/"), "/home/u/.ockam/defaults");
}

#[test]
fn default_dir_prefers_the_override() {
    assert_eq!(CliState::default_dir(Some("/srv/state"), Some("/home/u")).unwrap(), "/srv/state");
    assert_eq!(CliState::default_dir(None, Some("/home/u")).unwrap(), "/home/u/.ockam");
    assert_eq!(
        CliState::default_dir(None, None).unwrap_err(),
        CliStateError::InvalidPath("$HOME".to_string())
    );
}

#[test]
fn backup_dir_is_a_sibling() {
    assert_eq!(CliState::backup_dir("/home/u/.ockam").unwrap(), "/home/u/.ockam.bak");
    assert_eq!(CliState::backup_dir("/state").unwrap(), "/state.bak");
    assert_eq!(CliState::backup_dir("state").unwrap(), "state.bak");
    assert_eq!(CliState::backup_dir("/home/u/.ockam/").unwrap(), "/home/u/.ockam.bak");
    assert_eq!(CliState::backup_dir("/home/u/.ockam/.").unwrap(), "/home/u/.ockam.bak");
    assert_eq!(
        CliState::backup_dir("/"),
        Err(CliStateError::InvalidOperation("The $OCKAM_HOME directory does not have a valid name".to_string()))
    );
    assert_eq!(
        CliState::backup_default_dir(None, None),
        Err(CliStateError::InvalidPath("$HOME".to_string()))
    );
    assert!(matches!(CliState::backup_dir("/a/.."), Err(CliStateError::InvalidOperation(_))));
    assert_eq!(CliState::backup_default_dir(None, Some("/home/u")).unwrap(), "/home/u/.ockam.bak");
}

#[test]
fn delete_at_lists_every_category() {
    let targets = CliState::delete_at("/r");
    let expected: Vec<String> = [
        "/r/vaults",
        "/r/spaces",
        "/r/projects",
        "/r/credentials",
        "/r/trust_contexts",
        "/r/users_info",
        "/r/defaults",
        "/r/database.sqlite3",
        "/r/config.json",
    ]
    .iter()
    .map(|s| s.to_string())
    .collect();
    assert_eq!(targets, expected);
    assert_eq!(CliState::new("/r").delete(), expected);
}

#[test]
fn reset_yields_an_empty_state_at_the_same_root() {
    let mut state = CliState::initialize(None, Some("/home/u"), empty_stored()).unwrap();
    state.vaults.create("v", VaultConfig::default()).unwrap();
    state.spaces.create("s", "{}".to_string()).unwrap();
    state.projects.create("p", "{}".to_string()).unwrap();
    state.users_info.create("a@b.c", "{}".to_string()).unwrap();
    let fresh = state.reset();
    assert_eq!(fresh.dir, "/home/u/.ockam");
    assert_eq!(fresh.vaults.len(), 0);
    assert_eq!(fresh.spaces.len(), 0);
    assert_eq!(fresh.projects.len(), 0);
    assert_eq!(fresh.credentials.len(), 0);
    assert_eq!(fresh.trust_contexts.len(), 0);
    assert_eq!(fresh.users_info.len(), 0);
}

#[test]
fn is_enrolled_checks_in_order() {
    let mut state = CliState::new("/r");
    assert_eq!(state.is_enrolled(false), Ok(false));
    assert_eq!(
        state.is_enrolled(true),
        Err(CliStateError::InvalidOperation(
            "There should be a default space set for the current user. Please re-enroll".to_string()
        ))
    );
    state.spaces.create("s", "{}".to_string()).unwrap();
    assert_eq!(
        state.is_enrolled(true),
        Err(CliStateError::InvalidOperation(
            "There should be a default project set for the current user. Please re-enroll".to_string()
        ))
    );
    assert_eq!(state.is_enrolled(false), Ok(false));
    state.projects.create("p", "{}".to_string()).unwrap();
    assert_eq!(state.is_enrolled(true), Ok(true));
}

#[test]
fn create_vault_state_falls_back_in_three_tiers() {
    let mut state = CliState::new("/r");
    // no name and no default: a new vault is created and becomes the default
    let created = state.create_vault_state_named(None, "fresh").unwrap();
    assert_eq!(created.name, "fresh");
    assert!(created.is_default);
    assert_eq!(created.config, VaultConfig { is_aws_kms: false });
    // no name: the default
    state.vaults.create("other", VaultConfig { is_aws_kms: true }).unwrap();
    assert_eq!(state.create_vault_state_named(None, "unused").unwrap().name, "fresh");
    assert_eq!(state.vaults.len(), 2);
    // a name: that vault
    assert_eq!(state.create_vault_state(Some("other")).unwrap().config, VaultConfig { is_aws_kms: true });
    assert!(matches!(state.create_vault_state(Some("nope")), Err(CliStateError::ResourceNotFound { .. })));
}

#[test]
fn create_vault_state_with_a_random_name() {
    let mut state = CliState::new("/r");
    let v = state.create_vault_state(None).unwrap();
    assert!(!v.name.is_empty());
    assert!(v.is_default);
    assert_eq!(state.get_default_vault_name().unwrap(), v.name);
}

#[test]
fn random_names_are_not_empty() {
    assert!(!random_name().is_empty());
}

#[test]
fn test_state_lives_under_home() {
    assert_eq!(CliState::test_dir(Some("/home/u"), "x-y").unwrap(), "/home/u/.ockam/.tests/x-y");
    assert!(CliState::test_dir(None, "x").is_err());
    let state = CliState::test(Some("/home/u")).unwrap();
    assert!(state.dir.starts_with("/home/u/.ockam/.tests/"));
    assert!(CliState::test(None).is_err());
}

fn empty_stored() -> StoredState {
    StoredState {
        vaults: StoredRecords { records: vec![], default: None },
        spaces: StoredRecords { records: vec![], default: None },
        projects: StoredRecords { records: vec![], default: None },
        credentials: StoredRecords { records: vec![], default: None },
        trust_contexts: StoredRecords { records: vec![], default: None },
        users_info: StoredRecords { records: vec![], default: None },
    }
}

#[test]
fn initialize_keeps_what_the_directory_holds() {
    let mut stored = empty_stored();
    stored.vaults = StoredRecords {
        records: vec![
            ("v1".to_string(), VaultConfig { is_aws_kms: false }),
            ("v2".to_string(), VaultConfig { is_aws_kms: true }),
        ],
        default: Some("v2".to_string()),
    };
    stored.spaces = StoredRecords { records: vec![("s".to_string(), "{}".to_string())], default: Some("gone".to_string()) };
    let state = CliState::initialize(Some("/srv/state"), None, stored).unwrap();
    assert_eq!(state.dir, "/srv/state");
    assert_eq!(state.vaults.len(), 2);
    assert_eq!(state.get_default_vault_name().unwrap(), "v2");
    assert!(!state.get_vault("v1").unwrap().is_default);
    assert_eq!(state.spaces.get("s").unwrap().config, "{}");
    // a marker naming no record is ignored
    assert!(state.spaces.get_default().is_err());
    assert_eq!(
        CliState::initialize(None, None, empty_stored()).err(),
        Some(CliStateError::InvalidPath("$HOME".to_string()))
    );
}

#[test]
fn name_from_prefers_the_words() {
    assert_eq!(name_from(Some("calm-otter".to_string()), [0xde, 0xad, 0xbe, 0xef]), "calm-otter");
    assert_eq!(name_from(None, [0xde, 0xad, 0xbe, 0x0f]), "deadbe0f");
}

#[test]
fn missing_named_vault_is_not_found() {
    let mut state = CliState::new("/r");
    assert_eq!(
        state.create_vault_state(Some("nope")).unwrap_err(),
        CliStateError::ResourceNotFound { resource: "vault".to_string(), name: "nope".to_string() }
    );
    assert_eq!(state.vaults.len(), 0);
}

fn stored_vaults() -> StoredState {
    let mut stored = empty_stored();
    stored.vaults = StoredRecords {
        records: vec![
            ("a".to_string(), VaultConfig { is_aws_kms: false }),
            ("b".to_string(), VaultConfig { is_aws_kms: false }),
            ("a".to_string(), VaultConfig { is_aws_kms: true }),
        ],
        default: Some("a".to_string()),
    };
    stored
}

#[test]
fn initialize_keeps_the_last_record_of_a_name_and_is_repeatable() {
    let first = CliState::initialize(Some("/r"), None, stored_vaults()).unwrap();
    let second = CliState::initialize(Some("/r"), None, stored_vaults()).unwrap();
    assert_eq!(first.vaults.list(), second.vaults.list());
    let names: Vec<String> = first.vaults.list().iter().map(|v| v.name.clone()).collect();
    assert_eq!(names, vec!["a".to_string(), "b".to_string()]);
    assert_eq!(first.get_vault("a").unwrap().config, VaultConfig { is_aws_kms: true });
    assert!(first.get_vault("a").unwrap().is_default);
}
