use cli_state::{file_stem, CliStateError, Identifier};

const TEXT: &str = "Ie92f183eb4c324804ef4d62962dea94cf095a265";

#[test]
fn identifier_parses_its_hex_digits() {
    let id = Identifier::from_str(TEXT).unwrap();
    let bytes = id.as_bytes();
    assert_eq!(bytes.len(), 20);
    assert_eq!(bytes[0], 0xe9);
    assert_eq!(bytes[1], 0x2f);
    assert_eq!(bytes[19], 0x65);
}

#[test]
fn identifier_text_round_trip() {
    let id = Identifier::from_str(TEXT).unwrap();
    assert_eq!(id.to_string(), TEXT);
    let again = Identifier::from_str(&id.to_string()).unwrap();
    assert!(again.same(&id));
}

#[test]
fn identifier_accepts_uppercase_and_prints_lowercase() {
    let id = Identifier::from_str("IE92F183EB4C324804EF4D62962DEA94CF095A265").unwrap();
    assert_eq!(id.to_string(), TEXT);
}

#[test]
fn identifier_rejects_malformed_text() {
    for bad in [
        "",
        "I",
        "Xe92f183eb4c324804ef4d62962dea94cf095a265",
        "Ie92f183eb4c324804ef4d62962dea94cf095a26",
        "Ie92f183eb4c324804ef4d62962dea94cf095a2650",
        "Ie92f183eb4c324804ef4d62962dea94cf095a26g",
    ] {
        assert!(matches!(Identifier::from_str(bad), Err(CliStateError::InvalidData(_))), "{bad}");
    }
}

#[test]
fn identifier_from_bytes_needs_twenty() {
    let id = Identifier::from_bytes(vec![1u8; 20]).unwrap();
    assert_eq!(id.to_string(), format!("I{}", "01".repeat(20)));
    assert!(Identifier::from_bytes(vec![1u8; 19]).is_err());
}

#[test]
fn file_stem_strips_the_last_extension() {
    assert_eq!(file_stem("/a/b/vault.json").unwrap(), "vault");
    assert_eq!(file_stem("archive.tar.gz").unwrap(), "archive.tar");
    assert_eq!(file_stem("/a/.hidden").unwrap(), ".hidden");
    assert_eq!(file_stem("/a/noext").unwrap(), "noext");
    assert_eq!(file_stem("name.").unwrap(), "name");
    assert_eq!(file_stem("/a/b/").unwrap(), "b");
    assert_eq!(file_stem("/").unwrap_err(), CliStateError::InvalidPath("/".to_string()));
    assert!(matches!(file_stem("/a/.."), Err(CliStateError::InvalidPath(_))));
    assert!(matches!(file_stem(""), Err(CliStateError::InvalidPath(_))));
}
