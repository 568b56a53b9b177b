use cli_state::{CliState, CliStateError, NamedEntities, VaultConfig};

fn names(r: &NamedEntities<String>) -> Vec<String> {
    r.list().iter().map(|e| e.name.clone()).collect()
}

fn defaults(r: &NamedEntities<String>) -> usize {
    r.list().iter().filter(|e| e.is_default).count()
}

#[test]
fn first_created_entity_becomes_default() {
    let mut r: NamedEntities<String> = NamedEntities::new("space");
    r.create("a", "{}".to_string()).unwrap();
    r.create("b", "{}".to_string()).unwrap();
    assert_eq!(r.get_default().unwrap().name, "a");
    assert!(!r.get("b").unwrap().is_default);
    assert_eq!(r.get_default_name().unwrap(), "a");
}

#[test]
fn create_with_taken_name_fails() {
    let mut r: NamedEntities<String> = NamedEntities::new("space");
    r.create("a", "one".to_string()).unwrap();
    let e = r.create("a", "two".to_string()).unwrap_err();
    assert_eq!(e, CliStateError::AlreadyExists { resource: "space".to_string(), name: "a".to_string() });
    assert_eq!(r.get("a").unwrap().config, "one");
    assert_eq!(r.len(), 1);
}

#[test]
fn lookups_of_missing_names_fail() {
    let r: NamedEntities<String> = NamedEntities::new("project");
    assert_eq!(
        r.get("x").unwrap_err(),
        CliStateError::ResourceNotFound { resource: "project".to_string(), name: "x".to_string() }
    );
    assert!(matches!(r.get_default(), Err(CliStateError::ResourceNotFound { .. })));
    assert!(matches!(r.get_default_name(), Err(CliStateError::ResourceNotFound { .. })));
}

#[test]
fn set_as_default_moves_the_single_default() {
    let mut r: NamedEntities<String> = NamedEntities::new("space");
    for n in ["a", "b", "c"] {
        r.create(n, String::new()).unwrap();
    }
    r.set_as_default_by_name("b").unwrap();
    assert_eq!(r.get_default().unwrap().name, "b");
    r.set_as_default_by_name("c").unwrap();
    assert_eq!(r.get_default().unwrap().name, "c");
    assert!(!r.is_default("b"));
    assert_eq!(defaults(&r), 1);
}

#[test]
fn set_as_default_of_missing_name_changes_nothing() {
    let mut r: NamedEntities<String> = NamedEntities::new("space");
    r.create("a", String::new()).unwrap();
    assert!(matches!(r.set_as_default_by_name("z"), Err(CliStateError::ResourceNotFound { .. })));
    assert_eq!(r.get_default().unwrap().name, "a");
}

#[test]
fn deleting_the_default_elects_no_other() {
    let mut r: NamedEntities<String> = NamedEntities::new("space");
    r.create("a", String::new()).unwrap();
    r.create("b", String::new()).unwrap();
    r.delete("a").unwrap();
    assert!(r.get_default().is_err());
    assert_eq!(names(&r), vec!["b".to_string()]);
    assert!(matches!(r.delete("a"), Err(CliStateError::ResourceNotFound { .. })));
    // with no default left, the next creation becomes the default
    r.create("c", String::new()).unwrap();
    assert_eq!(r.get_default().unwrap().name, "c");
}

#[test]
fn list_reflects_surviving_names() {
    let mut r: NamedEntities<String> = NamedEntities::new("space");
    r.create("a", String::new()).unwrap();
    r.create("b", String::new()).unwrap();
    r.create("c", String::new()).unwrap();
    r.delete("b").unwrap();
    r.create("d", String::new()).unwrap();
    assert!(r.create("a", String::new()).is_err());
    r.delete("a").unwrap();
    assert_eq!(names(&r), vec!["c".to_string(), "d".to_string()]);
    assert!(defaults(&r) <= 1);
}

#[test]
fn put_replaces_the_record_and_keeps_the_flag() {
    let mut r: NamedEntities<String> = NamedEntities::new("space");
    r.create("a", "old".to_string()).unwrap();
    r.put("a", "new".to_string());
    r.put("b", "other".to_string());
    assert_eq!(r.get("a").unwrap().config, "new");
    assert!(r.get("a").unwrap().is_default);
    assert!(!r.get("b").unwrap().is_default);
    assert_eq!(names(&r), vec!["a".to_string(), "b".to_string()]);
}

#[test]
fn vault_default_scenario() {
    let mut state = CliState::new("/tmp/state");
    state.vaults.create("v1", VaultConfig { is_aws_kms: false }).unwrap();
    assert_eq!(state.get_default_vault().unwrap().name, "v1");
    state.vaults.create("v2", VaultConfig { is_aws_kms: true }).unwrap();
    state.vaults.set_as_default_by_name("v2").unwrap();
    let default = state.get_default_vault().unwrap();
    assert_eq!(default.name, "v2");
    assert_eq!(default.config, VaultConfig { is_aws_kms: true });
    let v1 = state.get_vault("v1").unwrap();
    assert_eq!(v1.config, VaultConfig { is_aws_kms: false });
    assert!(!v1.is_default);
    assert_eq!(state.get_default_vault_name().unwrap(), "v2");
}
