use cli_state::CliStateError;

#[test]
fn error_messages_name_the_resource() {
    let e = CliStateError::AlreadyExists { resource: "vault".to_string(), name: "v1".to_string() };
    assert_eq!(e.message(), "A vault named v1 already exists");
    let e = CliStateError::ResourceNotFound { resource: "space".to_string(), name: "s".to_string() };
    assert_eq!(e.message(), "Unable to find space named s");
    assert_eq!(CliStateError::InvalidPath("$HOME".to_string()).message(), "The path $HOME is invalid");
    assert_eq!(CliStateError::EmptyPath.message(), "The path is empty");
    assert_eq!(CliStateError::InvalidVersion("7".to_string()).message(), "Invalid configuration version '7'");
    assert_eq!(CliStateError::InvalidOperation("stop".to_string()).message(), "stop");
}

#[test]
fn error_constructors_fill_the_fields() {
    assert_eq!(
        CliStateError::not_found("node", "n"),
        CliStateError::ResourceNotFound { resource: "node".to_string(), name: "n".to_string() }
    );
    assert_eq!(
        CliStateError::already_exists("node", "n"),
        CliStateError::AlreadyExists { resource: "node".to_string(), name: "n".to_string() }
    );
    assert_eq!(CliStateError::from_message("m"), CliStateError::InvalidOperation("m".to_string()));
}
