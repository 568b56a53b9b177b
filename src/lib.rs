//! Local trust-state store: named-entity registries with a single default,
//! identity change histories, attested identity attributes and the layout and
//! lifecycle decisions of the trust-state directory.

pub mod cli_state;
pub mod error;
pub mod identifier;
pub mod identities;
pub mod identity;
pub mod paths;
pub mod registry;
pub mod rows;
pub mod store;
pub mod table;

pub use crate::cli_state::{name_from, random_name, CliState, NamedVault, StoredState, VaultConfig};
pub use crate::error::CliStateError;
pub use crate::identifier::Identifier;
pub use crate::identities::{Identities, IdentitiesBuilder, IdentitiesSqlxDatabase, NamedIdentity};
pub use crate::identity::{AttributesEntry, ChangeHistory, Identity, TimestampInSeconds};
pub use crate::paths::file_stem;
pub use crate::registry::{NamedEntities, NamedEntity, StoredRecords};
pub use crate::store::{ChangeHistorySqlxDatabase, Database, IdentityAttributesSqlxDatabase};
