use cli_state::rows::{ChangeHistoryRow, IdentityAttributesRow, NamedIdentityRow};
use cli_state::{
    AttributesEntry, ChangeHistory, ChangeHistorySqlxDatabase, CliStateError, Database, Identifier,
    IdentitiesSqlxDatabase, IdentityAttributesSqlxDatabase, Identity, TimestampInSeconds,
};

const ID1: &str = "Ie92f183eb4c324804ef4d62962dea94cf095a265";
const ID2: &str = "I124ed0b2e5a2be82e267ead6b3279f683616b66d";

fn entry() -> AttributesEntry {
    AttributesEntry::new(
        vec![(b"name".to_vec(), b"alice".to_vec()), (b"age".to_vec(), b"20".to_vec())],
        TimestampInSeconds(1000),
        Some(TimestampInSeconds(2000)),
        Some(Identifier::from_str(ID2).unwrap()),
    )
}

#[test]
fn attributes_row_round_trip() {
    let subject = Identifier::from_str(ID1).unwrap();
    let row = IdentityAttributesRow::new(&subject, &entry());
    assert_eq!(row.identifier, ID1);
    assert_eq!(row.added, 1000);
    assert_eq!(row.expires, Some(2000));
    assert_eq!(row.attested_by, Some(ID2.to_string()));
    // the pairs are CBOR-encoded as a map of two entries
    assert_eq!(row.attributes[0], 0xa2);
    assert_ne!(row.attributes, b"namealiceage20".to_vec());
    let back = row.attributes().unwrap();
    assert_eq!(back.get(b"name"), Some(&b"alice".to_vec()));
    assert_eq!(back.get(b"age"), Some(&b"20".to_vec()));
    assert_eq!(back.attrs().len(), 2);
    assert_eq!(back.added(), TimestampInSeconds(1000));
    assert_eq!(back.expires(), Some(TimestampInSeconds(2000)));
    assert_eq!(back.attested_by(), Some(Identifier::from_str(ID2).unwrap()));
    assert!(row.identifier().unwrap().same(&subject));
}

#[test]
fn malformed_attribute_rows_are_rejected() {
    let subject = Identifier::from_str(ID1).unwrap();
    let good = IdentityAttributesRow::new(&subject, &entry());
    let mut garbage = good.clone();
    garbage.attributes = vec![0xff, 0x00];
    assert!(matches!(garbage.attributes(), Err(CliStateError::Serde(_))));
    let mut bad_attester = good;
    bad_attester.attested_by = Some("nobody".to_string());
    assert!(matches!(bad_attester.attributes(), Err(CliStateError::InvalidData(_))));
}

#[test]
fn timestamps_keep_their_bits_in_the_column() {
    let subject = Identifier::from_str(ID1).unwrap();
    let e = AttributesEntry::new(vec![], TimestampInSeconds(u64::MAX), Some(TimestampInSeconds(1 << 63)), None);
    let row = IdentityAttributesRow::new(&subject, &e);
    assert_eq!(row.added, -1);
    assert_eq!(row.expires, Some(i64::MIN));
    let back = row.attributes().unwrap();
    assert_eq!(back.added(), TimestampInSeconds(u64::MAX));
    assert_eq!(back.expires(), Some(TimestampInSeconds(1 << 63)));
    let mut negative = row.clone();
    negative.added = -2;
    assert_eq!(negative.attributes().unwrap().added(), TimestampInSeconds(u64::MAX - 1));
}

#[test]
fn attributes_are_stored_as_a_cbor_map() {
    let subject = Identifier::from_str(ID1).unwrap();
    let e = AttributesEntry::new(vec![(b"k".to_vec(), b"v".to_vec())], TimestampInSeconds(7), None, None);
    let row = IdentityAttributesRow::new(&subject, &e);
    // a map of one entry; each byte vector is an array of one integer
    assert_eq!(row.attributes, vec![0xa1, 0x81, 0x18, 0x6b, 0x81, 0x18, 0x76]);
    let back = row.attributes().unwrap();
    assert_eq!(back.get(b"k"), Some(&b"v".to_vec()));
}

#[test]
fn database_rows_round_trip() {
    let id1 = Identifier::from_str(ID1).unwrap();
    let id2 = Identifier::from_str(ID2).unwrap();
    let mut histories = ChangeHistorySqlxDatabase::create();
    histories
        .store_identity(&Identity::new(id1.clone(), ChangeHistory::import(&[1, 2, 3])))
        .unwrap();
    let mut attributes = IdentityAttributesSqlxDatabase::new(histories.database);
    attributes.put_attributes(&id1, entry());
    let mut names = IdentitiesSqlxDatabase::new(attributes.database);
    names.name_identity(&id1, "alice").unwrap();
    names.name_identity(&id2, "bob").unwrap();
    names.set_as_default_by_name("bob").unwrap();
    let db = names.database;

    let loaded = Database::load(
        &db.change_history_rows(),
        &db.attribute_rows(),
        &db.named_identity_rows(),
    )
    .unwrap();
    assert_eq!(loaded.change_history_rows(), db.change_history_rows());
    assert_eq!(loaded.attribute_rows(), db.attribute_rows());
    assert_eq!(loaded.named_identity_rows(), db.named_identity_rows());
    let names = IdentitiesSqlxDatabase::new(loaded);
    assert_eq!(names.get_default_identity_name(), Some("bob".to_string()));
    assert_eq!(names.get_identifier_by_name("alice"), Some(id1));
}

#[test]
fn load_keeps_one_default_and_rejects_bad_rows() {
    let names = vec![
        NamedIdentityRow { identifier: ID1.to_string(), name: "a".to_string(), is_default: true },
        NamedIdentityRow { identifier: ID2.to_string(), name: "b".to_string(), is_default: true },
    ];
    let db = Database::load(&vec![], &vec![], &names).unwrap();
    let rows = db.named_identity_rows();
    assert_eq!(rows.iter().filter(|r| r.is_default).count(), 1);
    assert!(rows[0].is_default);

    let bad = vec![ChangeHistoryRow { identifier: "I00".to_string(), change_history: vec![] }];
    assert!(matches!(Database::load(&bad, &vec![], &vec![]), Err(CliStateError::InvalidData(_))));
}

#[test]
fn load_keeps_the_identifier_of_each_name() {
    let names = vec![
        NamedIdentityRow { identifier: ID1.to_string(), name: "a".to_string(), is_default: false },
        NamedIdentityRow { identifier: ID2.to_string(), name: "b".to_string(), is_default: true },
    ];
    let db = Database::load(&vec![], &vec![], &names).unwrap();
    let repository = IdentitiesSqlxDatabase::new(db);
    assert_eq!(repository.get_identifier_by_name("a"), Some(Identifier::from_str(ID1).unwrap()));
    assert_eq!(repository.get_identifier_by_name("b"), Some(Identifier::from_str(ID2).unwrap()));
    assert_eq!(repository.get_default_identity_name(), Some("b".to_string()));
}
