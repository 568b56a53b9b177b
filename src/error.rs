use vstd::prelude::*;

verus! {

/// The kinds of failure of the trust-state store.
#[derive(Debug, Clone, PartialEq, Eq)]
pub enum CliStateError {
    /// An underlying I/O failure, passed through with its message.
    Io(String),
    /// A failure to read or write a serialized record, with its message.
    Serde(String),
    /// A uniqueness violation on creation.
    AlreadyExists { resource: String, name: String },
    /// A lookup miss where absence is an error.
    ResourceNotFound { resource: String, name: String },
    /// A malformed root or derived path.
    InvalidPath(String),
    /// An empty path.
    EmptyPath,
    /// Inconsistent stored data.
    InvalidData(String),
    /// An operation that the current state does not allow.
    InvalidOperation(String),
    /// An on-disk version that this build does not recognise.
    InvalidVersion(String),
}

/// `Err(AlreadyExists { .. })` with the given resource kind and name.
pub open spec fn is_already_exists<T>(r: Result<T, CliStateError>, resource: Seq<char>, name: Seq<char>) -> bool {
    match r {
        Err(CliStateError::AlreadyExists { resource: res, name: n }) => res@ == resource && n@ == name,
        _ => false,
    }
}

/// `Err(ResourceNotFound { .. })` with the given resource kind and name.
pub open spec fn is_not_found<T>(r: Result<T, CliStateError>, resource: Seq<char>, name: Seq<char>) -> bool {
    match r {
        Err(CliStateError::ResourceNotFound { resource: res, name: n }) => res@ == resource && n@ == name,
        _ => false,
    }
}

/// The human-readable message of an error.
pub open spec fn message_of(e: CliStateError) -> Seq<char> {
    match e {
        CliStateError::Io(m) => m@,
        CliStateError::Serde(m) => m@,
        CliStateError::AlreadyExists { resource, name } => "A "@ + resource@ + " named "@ + name@ + " already exists"@,
        CliStateError::ResourceNotFound { resource, name } => "Unable to find "@ + resource@ + " named "@ + name@,
        CliStateError::InvalidPath(p) => "The path "@ + p@ + " is invalid"@,
        CliStateError::EmptyPath => "The path is empty"@,
        CliStateError::InvalidData(m) => m@,
        CliStateError::InvalidOperation(m) => m@,
        CliStateError::InvalidVersion(v) => "Invalid configuration version '"@ + v@ + "'"@,
    }
}

impl CliStateError {
    /// The human-readable message of the error.
    pub fn message(&self) -> (r: String)
        ensures
            r@ == message_of(*self),
    {
        match self {
            CliStateError::Io(m) => m.clone(),
            CliStateError::Serde(m) => m.clone(),
            CliStateError::AlreadyExists { resource, name } => {
                let r = "A ".to_string().concat(resource.as_str()).concat(" named ").concat(name.as_str()).concat(
                    " already exists",
                );
                r
            },
            CliStateError::ResourceNotFound { resource, name } => {
                "Unable to find ".to_string().concat(resource.as_str()).concat(" named ").concat(name.as_str())
            },
            CliStateError::InvalidPath(p) => "The path ".to_string().concat(p.as_str()).concat(" is invalid"),
            CliStateError::EmptyPath => "The path is empty".to_string(),
            CliStateError::InvalidData(m) => m.clone(),
            CliStateError::InvalidOperation(m) => m.clone(),
            CliStateError::InvalidVersion(v) => "Invalid configuration version '".to_string().concat(v.as_str()).concat(
                "'",
            ),
        }
    }

    /// A `ResourceNotFound` error for `resource` named `name`.
    pub fn not_found(resource: &str, name: &str) -> (r: CliStateError)
        ensures
            is_not_found::<()>(Err(r), resource@, name@),
    {
        CliStateError::ResourceNotFound { resource: resource.to_string(), name: name.to_string() }
    }

    /// An `AlreadyExists` error for `resource` named `name`.
    pub fn already_exists(resource: &str, name: &str) -> (r: CliStateError)
        ensures
            is_already_exists::<()>(Err(r), resource@, name@),
    {
        CliStateError::AlreadyExists { resource: resource.to_string(), name: name.to_string() }
    }

    /// An `InvalidOperation` error carrying `message`.
    pub fn from_message(message: &str) -> (r: CliStateError)
        ensures
            r matches CliStateError::InvalidOperation(m) && m@ == message@,
    {
        CliStateError::InvalidOperation(message.to_string())
    }
}

} // verus!
