use cli_state::{
    AttributesEntry, ChangeHistory, ChangeHistorySqlxDatabase, CliStateError, Identifier, Identities,
    IdentitiesSqlxDatabase, IdentityAttributesSqlxDatabase, Identity, TimestampInSeconds,
};

const HISTORY1: &str = "81a201583ba20101025835a4028201815820530d1c2e9822433b679a66a60b9c2ed47c370cd0ce51cbe1a7ad847b5835a96303f4041a64dd4060051a77a94360028201815840042fff8f6c80603fb1cec4a3cf1ff169ee36889d3ed76184fe1dfbd4b692b02892df9525c61c2f1286b829586d13d5abf7d18973141f734d71c1840520d40a0e";
const HISTORY2: &str = "81a201583ba20101025835a4028201815820afbca9cf5d440147450f9f0d0a038a337b3fe5c17086163f2c54509558b62ef403f4041a64dd404a051a77a9434a0282018158407754214545cda6e7ff49136f67c9c7973ec309ca4087360a9f844aac961f8afe3f579a72c0c9530f3ff210f02b7c5f56e96ce12ee256b01d7628519800723805";

fn identity1() -> Identity {
    let id = Identifier::from_str("Ie92f183eb4c324804ef4d62962dea94cf095a265").unwrap();
    Identity::new(id, ChangeHistory::import(&hex::decode(HISTORY1).unwrap()))
}

fn identity2() -> Identity {
    let id = Identifier::from_str("I124ed0b2e5a2be82e267ead6b3279f683616b66d").unwrap();
    Identity::new(id, ChangeHistory::import(&hex::decode(HISTORY2).unwrap()))
}

fn attributes_entry() -> AttributesEntry {
    AttributesEntry::new(
        vec![
            (b"name".to_vec(), b"alice".to_vec()),
            (b"age".to_vec(), b"20".to_vec()),
        ],
        TimestampInSeconds(1000),
        Some(TimestampInSeconds(2000)),
        Some(identity1().identifier().copy()),
    )
}

#[test]
fn test_identities_repository() {
    let identity1 = identity1();
    let identity2 = identity2();
    let mut repository = ChangeHistorySqlxDatabase::create();

    // store and retrieve or get an identity
    repository.store_identity(&identity1).unwrap();

    // the change history can be retrieved as an Option
    let result = repository.get_change_history_optional(identity1.identifier());
    assert_eq!(result, Some(identity1.change_history().clone()));

    // trying to retrieve a missing identity returns None
    let result = repository.get_change_history_optional(identity2.identifier());
    assert_eq!(result, None);

    // get returns an error if an identity is not found
    let result = repository.get_change_history(identity1.identifier()).unwrap();
    assert_eq!(result, identity1.change_history().clone());

    let result = repository.get_change_history(identity2.identifier());
    assert!(result.is_err());
}

#[test]
fn missing_change_history_is_resource_not_found() {
    let repository = ChangeHistorySqlxDatabase::create();
    let id = identity2();
    assert_eq!(
        repository.get_change_history(id.identifier()).unwrap_err(),
        CliStateError::ResourceNotFound {
            resource: "identity".to_string(),
            name: "I124ed0b2e5a2be82e267ead6b3279f683616b66d".to_string(),
        }
    );
    assert_eq!(repository.get_change_history_optional(id.identifier()), None);
}

#[test]
fn storing_an_identity_twice_fails() {
    let mut repository = ChangeHistorySqlxDatabase::create();
    repository.store_identity(&identity1()).unwrap();
    assert_eq!(
        repository.store_identity(&identity1()).unwrap_err(),
        CliStateError::AlreadyExists {
            resource: "identity".to_string(),
            name: "Ie92f183eb4c324804ef4d62962dea94cf095a265".to_string(),
        }
    );
}

#[test]
fn update_replaces_the_change_history() {
    let mut repository = ChangeHistorySqlxDatabase::create();
    let first = identity1();
    repository.store_identity(&first).unwrap();
    let longer = Identity::new(first.identifier().copy(), ChangeHistory::import(&[1, 2, 3]));
    repository.update_identity(&longer);
    assert_eq!(repository.get_change_history(first.identifier()).unwrap().export(), vec![1, 2, 3]);
    // an identity without a row stays absent
    repository.update_identity(&identity2());
    assert_eq!(repository.get_change_history_optional(identity2().identifier()), None);
}

#[test]
fn test_identities_attributes_repository() {
    let identity1 = identity1();
    let attributes = attributes_entry();
    let mut repository = IdentityAttributesSqlxDatabase::create();

    // store and retrieve attributes by identity
    repository.put_attributes(identity1.identifier(), attributes.copy());

    let result = repository.list();
    assert_eq!(result.len(), 1);
    assert_eq!(result[0].0, identity1.identifier().clone());
    assert_eq!(result[0].1, attributes);

    let result = repository.get_attributes(identity1.identifier());
    assert_eq!(result, Some(attributes));

    // delete attributes
    repository.delete(identity1.identifier());
    let result = repository.get_attributes(identity1.identifier());
    assert_eq!(result, None);

    // store just one attribute name / value
    let before_adding = TimestampInSeconds(5000);
    repository.put_attribute_value(identity1.identifier(), b"name".to_vec(), b"value".to_vec(), TimestampInSeconds(5000));

    let result = repository.get_attributes(identity1.identifier()).unwrap();
    // the name/value pair is present
    assert_eq!(result.get(b"name"), Some(&b"value".to_vec()));
    // there is a timestamp showing when the attributes have been added
    assert!(result.added().0 >= before_adding.0);

    // the attributes are self-attested
    assert_eq!(result.attested_by(), Some(identity1.identifier().clone()));

    // store one more attribute name / value, one second later
    repository.put_attribute_value(identity1.identifier(), b"name2".to_vec(), b"value2".to_vec(), TimestampInSeconds(5001));

    let result2 = repository.get_attributes(identity1.identifier()).unwrap();

    // both the new and the old name/value pairs are present
    assert_eq!(result2.get(b"name"), Some(&b"value".to_vec()));
    assert_eq!(result2.get(b"name2"), Some(&b"value2".to_vec()));
    // The original timestamp has been updated
    assert!(result2.added().0 > result.added().0);

    // the attributes are still self-attested
    assert_eq!(result2.attested_by(), Some(identity1.identifier().clone()));
}

#[test]
fn put_attribute_value_overwrites_one_name_and_drops_expiry() {
    let identity1 = identity1();
    let mut repository = IdentityAttributesSqlxDatabase::create();
    repository.put_attributes(identity1.identifier(), attributes_entry());
    repository.put_attribute_value(identity1.identifier(), b"age".to_vec(), b"21".to_vec(), TimestampInSeconds(3000));
    let entry = repository.get_attributes(identity1.identifier()).unwrap();
    assert_eq!(entry.get(b"age"), Some(&b"21".to_vec()));
    assert_eq!(entry.get(b"name"), Some(&b"alice".to_vec()));
    assert_eq!(entry.attrs().len(), 2);
    assert_eq!(entry.added(), TimestampInSeconds(3000));
    assert_eq!(entry.expires(), None);
}

#[test]
fn later_pairs_override_earlier_ones() {
    let entry = AttributesEntry::new(
        vec![(b"k".to_vec(), b"1".to_vec()), (b"k".to_vec(), b"2".to_vec())],
        TimestampInSeconds(1),
        None,
        None,
    );
    assert_eq!(entry.get(b"k"), Some(&b"2".to_vec()));
    assert_eq!(entry.get(b"missing"), None);
}

#[test]
fn delete_identity_removes_history_and_attributes() {
    let identity1 = identity1();
    let identity2 = identity2();
    let mut histories = ChangeHistorySqlxDatabase::create();
    histories.store_identity(&identity1).unwrap();
    histories.store_identity(&identity2).unwrap();
    let mut attributes = IdentityAttributesSqlxDatabase::new(histories.database);
    attributes.put_attributes(identity1.identifier(), attributes_entry());
    attributes.put_attributes(identity2.identifier(), attributes_entry());
    let mut histories = ChangeHistorySqlxDatabase::new(attributes.database);
    histories.delete_identity(identity1.identifier());
    assert_eq!(histories.get_change_history_optional(identity1.identifier()), None);
    assert!(histories.get_change_history_optional(identity2.identifier()).is_some());
    let attributes = IdentityAttributesSqlxDatabase::new(histories.database);
    assert_eq!(attributes.get_attributes(identity1.identifier()), None);
    assert!(attributes.get_attributes(identity2.identifier()).is_some());
}

#[test]
fn export_then_import_reproduces_the_identity() {
    let identity1 = identity1();
    let mut histories = ChangeHistorySqlxDatabase::create();
    histories.store_identity(&identity1).unwrap();
    let source = Identities::builder().with_database(histories.database).build();
    let bytes = source.export_identity(identity1.identifier()).unwrap();
    assert_eq!(bytes, hex::decode(HISTORY1).unwrap());

    let mut target = Identities::builder().build();
    let imported = target.import_identity(identity1.identifier(), &bytes).unwrap();
    assert_eq!(imported, identity1);
    assert_eq!(target.get_identity(identity1.identifier()).unwrap(), identity1);
    assert!(matches!(
        target.import_identity(identity1.identifier(), &bytes),
        Err(CliStateError::AlreadyExists { .. })
    ));
    assert!(matches!(
        target.get_identity(identity2().identifier()),
        Err(CliStateError::ResourceNotFound { .. })
    ));
}

#[test]
fn named_identities_keep_one_default() {
    let id1 = Identifier::from_str("Ie92f183eb4c324804ef4d62962dea94cf095a265").unwrap();
    let id2 = Identifier::from_str("I124ed0b2e5a2be82e267ead6b3279f683616b66d").unwrap();
    let mut repository = IdentitiesSqlxDatabase::create();

    // A name can be associated to an identity
    repository.name_identity(&id1, "name").unwrap();
    assert_eq!(repository.get_identifier_by_name("name"), Some(id1.clone()));
    assert_eq!(repository.get_default_identifier(), None);

    // An identity without a name cannot be made the default
    assert!(matches!(repository.set_as_default(&id2), Err(CliStateError::ResourceNotFound { .. })));

    repository.name_identity(&id2, "other").unwrap();
    repository.set_as_default(&id2).unwrap();
    assert_eq!(repository.get_default_identifier(), Some(id2.clone()));
    assert_eq!(repository.get_default_identity_name(), Some("other".to_string()));
    repository.set_as_default_by_name("name").unwrap();
    assert_eq!(repository.get_default_identifier(), Some(id1.clone()));
    assert!(repository.is_default_identity_by_name("name"));
    assert!(!repository.is_default_identity_by_name("other"));
    assert_eq!(repository.get_named_identities().iter().filter(|n| n.is_default).count(), 1);
    assert_eq!(repository.get_named_identity("other").unwrap().config, id2);
    assert_eq!(repository.get_default_named_identity().unwrap().name, "name");

    assert_eq!(repository.delete_identity_by_name("name"), Some(id1));
    assert_eq!(repository.delete_identity_by_name("name"), None);
    assert_eq!(repository.get_default_identifier(), None);
}

#[test]
fn naming_a_taken_name_fails_and_changes_nothing() {
    let id1 = Identifier::from_str("Ie92f183eb4c324804ef4d62962dea94cf095a265").unwrap();
    let id2 = Identifier::from_str("I124ed0b2e5a2be82e267ead6b3279f683616b66d").unwrap();
    let mut repository = IdentitiesSqlxDatabase::create();
    repository.name_identity(&id1, "name").unwrap();
    assert_eq!(
        repository.name_identity(&id2, "name").unwrap_err(),
        CliStateError::AlreadyExists { resource: "identity".to_string(), name: "name".to_string() }
    );
    assert_eq!(repository.get_identifier_by_name("name"), Some(id1));
    assert_eq!(repository.get_named_identities().len(), 1);
    // naming an identity does not make it the default
    assert_eq!(repository.get_default_identifier(), None);
}

#[test]
fn attribute_names_stay_unique() {
    let entry = AttributesEntry::new(
        vec![(b"k".to_vec(), b"1".to_vec()), (b"j".to_vec(), b"0".to_vec()), (b"k".to_vec(), b"2".to_vec())],
        TimestampInSeconds(1),
        None,
        None,
    );
    assert_eq!(entry.attrs().len(), 2);
    assert_eq!(entry.get(b"k"), Some(&b"2".to_vec()));
    assert_eq!(entry.get(b"j"), Some(&b"0".to_vec()));
}

#[test]
fn identities_share_one_store() {
    let identity1 = identity1();
    let mut identities = Identities::builder().build();
    identities.import_identity(identity1.identifier(), &hex::decode(HISTORY1).unwrap()).unwrap();
    identities.put_attribute_value(identity1.identifier(), b"k".to_vec(), b"v".to_vec(), TimestampInSeconds(9));
    assert_eq!(identities.get_attributes(identity1.identifier()).unwrap().get(b"k"), Some(&b"v".to_vec()));
    // deleting the identity removes its attributes from the same store
    identities.delete_identity(identity1.identifier());
    assert!(identities.get_identity(identity1.identifier()).is_err());
    assert_eq!(identities.get_attributes(identity1.identifier()), None);
}
