//! The trust-state orchestrator: the directory layout, the registries of every
//! category, and the lifecycle decisions (initialize, reset, backup, delete).
use vstd::prelude::*;

use crate::error::{is_already_exists, is_not_found, CliStateError};
use crate::identifier::{hex_encode, hex_of};
use crate::paths::{join, join_path, path_file_name, path_parent, std_file_name, std_parent};
use crate::registry::{default_row, has_default, has_name, loaded_from, row_named, NamedEntities, NamedEntity, StoredRecords};

verus! {

/// How a vault keeps its keys.
#[derive(Debug, Clone, Copy, PartialEq, Eq, Structural)]
pub struct VaultConfig {
    /// Whether the keys are held by AWS KMS rather than locally.
    pub is_aws_kms: bool,
}

impl Default for VaultConfig {
    /// A local vault.
    fn default() -> (r: VaultConfig)
        ensures
            !r.is_aws_kms,
    {
        VaultConfig { is_aws_kms: false }
    }
}

/// A named vault, and whether it is the default.
pub type NamedVault = NamedEntity<VaultConfig>;

/// The directory that holds one category of records.
pub open spec fn category_dirs() -> Seq<Seq<char>> {
    seq![
        "vaults"@,
        "spaces"@,
        "projects"@,
        "credentials"@,
        "trust_contexts"@,
        "users_info"@,
        "defaults"@,
    ]
}

/// What `delete_at` removes under `root`: the directory of each category,
/// the defaults directory, the relational store file and the root
/// configuration file.
pub open spec fn deletion_targets(root: Seq<char>) -> Seq<Seq<char>> {
    category_dirs().map_values(|d: Seq<char>| join(root, d)).push(join(root, "database.sqlite3"@)).push(
        join(root, "config.json"@),
    )
}

/// The trust-state directory resolved from the override `ockam_home` and the
/// home directory `home`.
pub open spec fn resolved_dir(ockam_home: Option<Seq<char>>, home: Option<Seq<char>>) -> Option<Seq<char>> {
    match ockam_home {
        Some(d) => Some(d),
        None => match home {
            Some(h) => Some(join(h, ".ockam"@)),
            None => None,
        },
    }
}

/// The backup directory of `dir`: under its parent, named like it with
/// `.bak` appended; none when `dir` has no last component or no parent.
pub open spec fn backup_of(dir: Seq<char>) -> Option<Seq<char>> {
    match (path_file_name(dir), path_parent(dir)) {
        (Some(name), Some(parent)) => Some(join(parent, name + ".bak"@)),
        _ => None,
    }
}

/// The message of the error for a root directory without a name.
pub open spec fn no_name_message() -> Seq<char> {
    "The $OCKAM_HOME directory does not have a valid name"@
}

/// The message of the error for a root directory without a parent.
pub open spec fn no_parent_message() -> Seq<char> {
    "The $OCKAM_HOME directory does not have a valid parent directory"@
}

/// The view of an optional string.
pub open spec fn opt_view(s: Option<&str>) -> Option<Seq<char>> {
    match s {
        Some(v) => Some(v@),
        None => None,
    }
}

/// Relies on petname::petname: a random name of two words joined by `-`;
/// it returns a name only when the name is not empty.
#[verifier::external_body]
fn petname_two_words() -> (r: Option<String>)
    ensures
        r matches Some(n) ==> n@.len() > 0,
{
    petname::petname(2, "-")
}

/// Relies on rand::random: four random bytes.
#[verifier::external_body]
fn random_bytes() -> (r: [u8; 4]) {
    rand::random::<[u8; 4]>()
}

/// The name made of a drawn two-word name, or, when there is none, of
/// drawn bytes written in hex.
pub fn name_from(words: Option<String>, bytes: [u8; 4]) -> (r: String)
    ensures
        words matches Some(w) ==> r@ == w@,
        words is None ==> r@ == hex_of(bytes@),
{
    match words {
        Some(w) => w,
        None => hex_encode(&bytes),
    }
}

/// A random name: two words joined by `-`, or else eight random hex digits.
pub fn random_name() -> (r: String)
    ensures
        r@.len() > 0,
{
    let words = petname_two_words();
    let bytes = random_bytes();
    name_from(words, bytes)
}

/// What the trust-state directory holds for each file-backed category.
pub struct StoredState {
    pub vaults: StoredRecords<VaultConfig>,
    pub spaces: StoredRecords<String>,
    pub projects: StoredRecords<String>,
    pub credentials: StoredRecords<String>,
    pub trust_contexts: StoredRecords<String>,
    pub users_info: StoredRecords<String>,
}

/// The local trust state: its root directory and the registries of every
/// file-backed category.
pub struct CliState {
    pub vaults: NamedEntities<VaultConfig>,
    pub spaces: NamedEntities<String>,
    pub projects: NamedEntities<String>,
    pub credentials: NamedEntities<String>,
    pub trust_contexts: NamedEntities<String>,
    pub users_info: NamedEntities<String>,
    pub dir: String,
}

impl CliState {
    /// Every registry keeps its invariant and names its own category.
    pub open spec fn wf(&self) -> bool {
        &&& self.vaults.wf() && self.vaults.resource() == "vault"@
        &&& self.spaces.wf() && self.spaces.resource() == "space"@
        &&& self.projects.wf() && self.projects.resource() == "project"@
        &&& self.credentials.wf() && self.credentials.resource() == "credential"@
        &&& self.trust_contexts.wf() && self.trust_contexts.resource() == "trust context"@
        &&& self.users_info.wf() && self.users_info.resource() == "user info"@
    }

    /// No registry holds any entity.
    pub open spec fn is_empty(&self) -> bool {
        &&& self.vaults.rows().len() == 0
        &&& self.spaces.rows().len() == 0
        &&& self.projects.rows().len() == 0
        &&& self.credentials.rows().len() == 0
        &&& self.trust_contexts.rows().len() == 0
        &&& self.users_info.rows().len() == 0
    }

    /// A fresh state rooted at `dir`, with every registry empty.
    pub fn new(dir: &str) -> (r: CliState)
        ensures
            r.wf(),
            r.is_empty(),
            r.dir@ == dir@,
    {
        proof {
            reveal_strlit("vault");
            reveal_strlit("space");
            reveal_strlit("project");
            reveal_strlit("credential");
            reveal_strlit("trust context");
            reveal_strlit("user info");
        }
        CliState {
            vaults: NamedEntities::new("vault"),
            spaces: NamedEntities::new("space"),
            projects: NamedEntities::new("project"),
            credentials: NamedEntities::new("credential"),
            trust_contexts: NamedEntities::new("trust context"),
            users_info: NamedEntities::new("user info"),
            dir: dir.to_string(),
        }
    }

    /// The root directory: the override `ockam_home` when given, else
    /// `.ockam` under the home directory. `InvalidPath` when neither is known.
    pub fn default_dir(ockam_home: Option<&str>, home: Option<&str>) -> (r: Result<String, CliStateError>)
        ensures
            r is Ok <==> resolved_dir(opt_view(ockam_home), opt_view(home)) is Some,
            r matches Ok(d) ==> Some(d@) == resolved_dir(opt_view(ockam_home), opt_view(home)),
            r is Err ==> (r matches Err(CliStateError::InvalidPath(p)) && p@ == "$HOME"@),
    {
        proof { reveal_strlit("$HOME"); }
        match ockam_home {
            Some(d) => Ok(d.to_string()),
            None => match home {
                Some(h) => {
                    proof { reveal_strlit(".ockam"); }
                    Ok(join_path(h, ".ockam"))
                },
                None => Err(CliStateError::InvalidPath("$HOME".to_string())),
            },
        }
    }

    /// The state at the resolved root directory, holding what the directory
    /// already holds: every stored record of every category, and the default
    /// that each defaults marker names. `InvalidPath` when no root directory
    /// is known.
    pub fn initialize(ockam_home: Option<&str>, home: Option<&str>, stored: StoredState) -> (r: Result<
        CliState,
        CliStateError,
    >)
        ensures
            r is Ok <==> resolved_dir(opt_view(ockam_home), opt_view(home)) is Some,
            r is Err ==> (r matches Err(CliStateError::InvalidPath(p)) && p@ == "$HOME"@),
            r matches Ok(s) ==> {
                &&& s.wf()
                &&& Some(s.dir@) == resolved_dir(opt_view(ockam_home), opt_view(home))
                &&& loaded_from(s.vaults.rows(), stored.vaults.records@, stored.vaults.default)
                &&& loaded_from(s.spaces.rows(), stored.spaces.records@, stored.spaces.default)
                &&& loaded_from(s.projects.rows(), stored.projects.records@, stored.projects.default)
                &&& loaded_from(s.credentials.rows(), stored.credentials.records@, stored.credentials.default)
                &&& loaded_from(s.trust_contexts.rows(), stored.trust_contexts.records@, stored.trust_contexts.default)
                &&& loaded_from(s.users_info.rows(), stored.users_info.records@, stored.users_info.default)
            },
    {
        let dir = match Self::default_dir(ockam_home, home) {
            Ok(d) => d,
            Err(e) => { return Err(e); },
        };
        proof {
            reveal_strlit("vault");
            reveal_strlit("space");
            reveal_strlit("project");
            reveal_strlit("credential");
            reveal_strlit("trust context");
            reveal_strlit("user info");
        }
        let StoredState { vaults, spaces, projects, credentials, trust_contexts, users_info } = stored;
        Ok(CliState {
            vaults: NamedEntities::load("vault", vaults),
            spaces: NamedEntities::load("space", spaces),
            projects: NamedEntities::load("project", projects),
            credentials: NamedEntities::load("credential", credentials),
            trust_contexts: NamedEntities::load("trust context", trust_contexts),
            users_info: NamedEntities::load("user info", users_info),
            dir,
        })
    }

    /// The backup directory of `dir`: under its parent, named like it with
    /// `.bak` appended. `InvalidOperation` when `dir` has no last component
    /// or no parent.
    pub fn backup_dir(dir: &str) -> (r: Result<String, CliStateError>)
        ensures
            r is Ok <==> backup_of(dir@) is Some,
            r matches Ok(b) ==> b@ == backup_of(dir@)->0,
            r is Err ==> (r matches Err(CliStateError::InvalidOperation(m)) && m@ == (if path_file_name(dir@) is None {
                no_name_message()
            } else {
                no_parent_message()
            })),
    {
        proof {
            reveal_strlit(".bak");
            reveal_strlit("The $OCKAM_HOME directory does not have a valid name");
            reveal_strlit("The $OCKAM_HOME directory does not have a valid parent directory");
        }
        let name = match std_file_name(dir) {
            Some(n) => n,
            None => {
                return Err(CliStateError::InvalidOperation("The $OCKAM_HOME directory does not have a valid name".to_string()));
            },
        };
        let parent = match std_parent(dir) {
            Some(p) => p,
            None => {
                return Err(
                    CliStateError::InvalidOperation("The $OCKAM_HOME directory does not have a valid parent directory".to_string()),
                );
            },
        };
        let backup_name = name.concat(".bak");
        Ok(join_path(parent.as_str(), backup_name.as_str()))
    }

    /// The backup directory of the resolved root directory; the error of
    /// `default_dir` or of `backup_dir` otherwise.
    pub fn backup_default_dir(ockam_home: Option<&str>, home: Option<&str>) -> (r: Result<String, CliStateError>)
        ensures
            resolved_dir(opt_view(ockam_home), opt_view(home)) is None ==> (r matches Err(CliStateError::InvalidPath(p))
                && p@ == "$HOME"@),
            resolved_dir(opt_view(ockam_home), opt_view(home)) matches Some(d) ==> {
                &&& (r is Ok <==> backup_of(d) is Some)
                &&& (r matches Ok(b) ==> b@ == backup_of(d)->0)
                &&& (r is Err ==> (r matches Err(CliStateError::InvalidOperation(m)) && m@ == (if path_file_name(d) is None {
                    no_name_message()
                } else {
                    no_parent_message()
                })))
            },
    {
        match Self::default_dir(ockam_home, home) {
            Ok(d) => Self::backup_dir(d.as_str()),
            Err(e) => Err(e),
        }
    }

    /// The directory that holds the default marker of each category.
    pub fn defaults_dir(dir: &str) -> (r: String)
        ensures
            r@ == join(dir@, "defaults"@),
    {
        join_path(dir, "defaults")
    }

    /// The paths that deleting the state rooted at `root` removes, in order:
    /// the directory of each category, the defaults directory, the relational
    /// store file and the root configuration file. Removing them is best effort: one that is missing
    /// or locked does not stop the others.
    pub fn delete_at(root: &str) -> (r: Vec<String>)
        ensures
            r@.len() == deletion_targets(root@).len(),
            forall|i: int| 0 <= i < r@.len() ==> (#[trigger] r@[i])@ == deletion_targets(root@)[i],
    {
        proof {
            reveal_strlit("vaults");
            reveal_strlit("spaces");
            reveal_strlit("projects");
            reveal_strlit("credentials");
            reveal_strlit("trust_contexts");
            reveal_strlit("users_info");
            reveal_strlit("defaults");
            reveal_strlit("database.sqlite3");
            reveal_strlit("config.json");
        }
        let mut r: Vec<String> = Vec::new();
        r.push(join_path(root, "vaults"));
        r.push(join_path(root, "spaces"));
        r.push(join_path(root, "projects"));
        r.push(join_path(root, "credentials"));
        r.push(join_path(root, "trust_contexts"));
        r.push(join_path(root, "users_info"));
        r.push(join_path(root, "defaults"));
        r.push(join_path(root, "database.sqlite3"));
        r.push(join_path(root, "config.json"));
        proof {
            let t = deletion_targets(root@);
            assert(t.len() == 9);
            assert forall|i: int| 0 <= i < r@.len() implies (#[trigger] r@[i])@ == t[i] by {
                assert(t[i] == (if i < 7 {
                    join(root@, category_dirs()[i])
                } else if i == 7 {
                    join(root@, "database.sqlite3"@)
                } else {
                    join(root@, "config.json"@)
                }));
            }
        }
        r
    }

    /// Ends this state: the paths to remove, as `delete_at` gives them for
    /// the root directory.
    pub fn delete(self) -> (r: Vec<String>)
        ensures
            r@.len() == deletion_targets(self.dir@).len(),
            forall|i: int| 0 <= i < r@.len() ==> (#[trigger] r@[i])@ == deletion_targets(self.dir@)[i],
    {
        Self::delete_at(self.dir.as_str())
    }

    /// The state once every category has been removed: a fresh, empty state
    /// at the same root directory.
    pub fn reset(&self) -> (r: CliState)
        ensures
            r.wf(),
            r.is_empty(),
            r.dir@ == self.dir@,
    {
        CliState::new(self.dir.as_str())
    }

    /// The path of the relational store file.
    pub fn database_path(&self) -> (r: String)
        ensures
            r@ == join(self.dir@, "database.sqlite3"@),
    {
        join_path(self.dir.as_str(), "database.sqlite3")
    }

    /// The directory of the node `node_name`.
    pub fn node_dir(&self, node_name: &str) -> (r: String)
        ensures
            r@ == join(join(self.dir@, "nodes"@), node_name@),
    {
        let nodes = join_path(self.dir.as_str(), "nodes");
        join_path(nodes.as_str(), node_name)
    }

    /// The standard output log of the node `node_name`.
    pub fn node_stdout_log(&self, node_name: &str) -> (r: String)
        ensures
            r@ == join(join(join(self.dir@, "nodes"@), node_name@), "stdout.log"@),
    {
        let dir = self.node_dir(node_name);
        join_path(dir.as_str(), "stdout.log")
    }

    /// The standard error log of the node `node_name`.
    pub fn node_stderr_log(&self, node_name: &str) -> (r: String)
        ensures
            r@ == join(join(join(self.dir@, "nodes"@), node_name@), "stderr.log"@),
    {
        let dir = self.node_dir(node_name);
        join_path(dir.as_str(), "stderr.log")
    }

    /// The vault named `vault_name`; `ResourceNotFound` when there is none.
    pub fn get_vault(&self, vault_name: &str) -> (r: Result<&NamedVault, CliStateError>)
        requires
            self.wf(),
        ensures
            r is Ok <==> has_name(self.vaults.rows(), vault_name@),
            r matches Ok(v) ==> *v == row_named(self.vaults.rows(), vault_name@),
            r is Err ==> is_not_found(r, "vault"@, vault_name@),
    {
        self.vaults.get(vault_name)
    }

    /// The default vault; `ResourceNotFound` when no default is set.
    pub fn get_default_vault(&self) -> (r: Result<&NamedVault, CliStateError>)
        requires
            self.wf(),
        ensures
            r is Ok <==> has_default(self.vaults.rows()),
            r matches Ok(v) ==> *v == default_row(self.vaults.rows()),
            r is Err ==> is_not_found(r, "vault"@, "default"@),
    {
        self.vaults.get_default()
    }

    /// The name of the default vault; `ResourceNotFound` when no default is set.
    pub fn get_default_vault_name(&self) -> (r: Result<String, CliStateError>)
        requires
            self.wf(),
        ensures
            r is Ok <==> has_default(self.vaults.rows()),
            r matches Ok(n) ==> n@ == default_row(self.vaults.rows()).name@,
            r is Err ==> is_not_found(r, "vault"@, "default"@),
    {
        self.vaults.get_default_name()
    }

    /// The vault to use: the one named `vault_name` when a name is given,
    /// else the default vault, else a new local vault named `new_name`, which
    /// becomes the default.
    pub fn create_vault_state_named(&mut self, vault_name: Option<&str>, new_name: &str) -> (r: Result<NamedVault, CliStateError>)
        requires
            old(self).wf(),
        ensures
            final(self).wf(),
            final(self).dir == old(self).dir,
            vault_name is Some ==> {
                let n = vault_name->0@;
                &&& final(self).vaults.rows() == old(self).vaults.rows()
                &&& (r is Ok <==> has_name(old(self).vaults.rows(), n))
                &&& (r matches Ok(v) ==> v == row_named(old(self).vaults.rows(), n))
                &&& (r is Err ==> is_not_found(r, "vault"@, n))
            },
            vault_name is None && has_default(old(self).vaults.rows()) ==> {
                &&& final(self).vaults.rows() == old(self).vaults.rows()
                &&& (r matches Ok(v) && v == default_row(old(self).vaults.rows()))
            },
            vault_name is None && !has_default(old(self).vaults.rows()) ==> {
                &&& (r is Ok <==> !has_name(old(self).vaults.rows(), new_name@))
                &&& (r matches Ok(v) ==> v.name@ == new_name@ && !v.config.is_aws_kms && v.is_default
                    && final(self).vaults.rows() == old(self).vaults.rows().push(v))
                &&& (r is Err ==> is_already_exists(r, "vault"@, new_name@)
                    && final(self).vaults.rows() == old(self).vaults.rows())
            },
    {
        match vault_name {
            Some(v) => match self.vaults.get(v) {
                Ok(e) => Ok(NamedEntity { name: e.name.clone(), config: e.config, is_default: e.is_default }),
                Err(e) => Err(e),
            },
            None => match self.vaults.get_default() {
                Ok(e) => Ok(NamedEntity { name: e.name.clone(), config: e.config, is_default: e.is_default }),
                Err(_) => {
                    let config = VaultConfig::default();
                    match self.vaults.create(new_name, config) {
                        Ok(()) => {
                            proof {
                                let rows = self.vaults.rows();
                                assert(rows.last() == rows[rows.len() - 1]);
                                crate::registry::lemma_row_named(rows, rows.len() - 1);
                            }
                            match self.vaults.get(new_name) {
                                Ok(e) => {
                                    let v = NamedEntity { name: e.name.clone(), config: e.config, is_default: e.is_default };
                                    proof {
                                        let rows = self.vaults.rows();
                                        assert(rows =~= old(self).vaults.rows().push(v));
                                    }
                                    Ok(v)
                                },
                                Err(e) => Err(e),
                            }
                        },
                        Err(e) => Err(e),
                    }
                },
            },
        }
    }

    /// The vault to use: the one named `vault_name` when a name is given,
    /// else the default vault, else a new local vault under a random name,
    /// which becomes the default.
    pub fn create_vault_state(&mut self, vault_name: Option<&str>) -> (r: Result<NamedVault, CliStateError>)
        requires
            old(self).wf(),
        ensures
            final(self).wf(),
            final(self).dir == old(self).dir,
            vault_name is Some ==> {
                let n = vault_name->0@;
                &&& final(self).vaults.rows() == old(self).vaults.rows()
                &&& (r is Ok <==> has_name(old(self).vaults.rows(), n))
                &&& (r matches Ok(v) ==> v == row_named(old(self).vaults.rows(), n))
                &&& (r is Err ==> is_not_found(r, "vault"@, n))
            },
            vault_name is None && has_default(old(self).vaults.rows()) ==> {
                &&& final(self).vaults.rows() == old(self).vaults.rows()
                &&& (r matches Ok(v) && v == default_row(old(self).vaults.rows()))
            },
            vault_name is None && !has_default(old(self).vaults.rows()) ==> {
                &&& (r matches Ok(v) ==> !v.config.is_aws_kms && v.is_default && v.name@.len() > 0
                    && !has_name(old(self).vaults.rows(), v.name@)
                    && final(self).vaults.rows() == old(self).vaults.rows().push(v))
                &&& (r is Err ==> final(self).vaults.rows() == old(self).vaults.rows())
                &&& (r is Err ==> exists|n: Seq<char>| #[trigger] is_already_exists(r, "vault"@, n)
                    && has_name(old(self).vaults.rows(), n))
            },
    {
        if vault_name.is_none() && self.vaults.get_default().is_err() {
            let name = random_name();
            let r = self.create_vault_state_named(None, name.as_str());
            proof {
                if r is Err {
                    assert(is_already_exists(r, "vault"@, name@));
                }
            }
            r
        } else {
            // a name is given or a default exists: no vault is created
            self.create_vault_state_named(vault_name, "")
        }
    }

    /// Whether the user is enrolled, given whether the default identity is
    /// enrolled: `false` when it is not; an error naming the missing piece
    /// when it is but there is no default space or no default project;
    /// `true` otherwise.
    pub fn is_enrolled(&self, default_identity_enrolled: bool) -> (r: Result<bool, CliStateError>)
        requires
            self.wf(),
        ensures
            !default_identity_enrolled ==> r == Ok::<bool, CliStateError>(false),
            default_identity_enrolled && !has_default(self.spaces.rows()) ==> (r matches Err(
                CliStateError::InvalidOperation(m),
            ) && m@ == "There should be a default space set for the current user. Please re-enroll"@),
            default_identity_enrolled && has_default(self.spaces.rows()) && !has_default(self.projects.rows())
                ==> (r matches Err(CliStateError::InvalidOperation(m))
                && m@ == "There should be a default project set for the current user. Please re-enroll"@),
            default_identity_enrolled && has_default(self.spaces.rows()) && has_default(self.projects.rows())
                ==> r == Ok::<bool, CliStateError>(true),
    {
        if !default_identity_enrolled {
            return Ok(false);
        }
        if self.spaces.get_default().is_err() {
            let message = "There should be a default space set for the current user. Please re-enroll";
            return Err(CliStateError::from_message(message));
        }
        if self.projects.get_default().is_err() {
            let message = "There should be a default project set for the current user. Please re-enroll";
            return Err(CliStateError::from_message(message));
        }
        Ok(true)
    }

    /// A test root directory: `.ockam/.tests/<name>` under the home directory.
    /// `InvalidPath` when the home directory is not known.
    pub fn test_dir(home: Option<&str>, name: &str) -> (r: Result<String, CliStateError>)
        ensures
            r is Ok <==> home is Some,
            r is Err ==> (r matches Err(CliStateError::InvalidPath(p)) && p@ == "$HOME"@),
            r matches Ok(d) ==> d@ == join(join(join(home->0@, ".ockam"@), ".tests"@), name@),
    {
        proof {
            reveal_strlit("$HOME");
            reveal_strlit(".ockam");
            reveal_strlit(".tests");
        }
        match home {
            Some(h) => {
                let ockam = join_path(h, ".ockam");
                let tests = join_path(ockam.as_str(), ".tests");
                Ok(join_path(tests.as_str(), name))
            },
            None => Err(CliStateError::InvalidPath("$HOME".to_string())),
        }
    }

    /// A fresh state in a test directory with a random name under the home
    /// directory. `InvalidPath` when the home directory is not known.
    pub fn test(home: Option<&str>) -> (r: Result<CliState, CliStateError>)
        ensures
            r is Ok <==> home is Some,
            r matches Ok(s) ==> s.wf() && s.is_empty() && exists|name: Seq<char>|
                name.len() > 0 && s.dir@ == #[trigger] join(join(join(home->0@, ".ockam"@), ".tests"@), name),
            r is Err ==> (r matches Err(CliStateError::InvalidPath(p)) && p@ == "$HOME"@),
    {
        let name = random_name();
        match Self::test_dir(home, name.as_str()) {
            Ok(d) => Ok(CliState::new(d.as_str())),
            Err(e) => Err(e),
        }
    }
}

/// Resetting removes, under the root, the directory of every file-backed
/// category, the defaults directory and the relational store file (so the
/// identities, their histories and attributes go with it); the state that
/// follows has every registry empty at the same root, and a fresh store
/// holds no identity.
pub proof fn lemma_reset_removes_everything(root: Seq<char>)
    ensures
        forall|i: int| 0 <= i < category_dirs().len() ==> deletion_targets(root).contains(
            #[trigger] join(root, category_dirs()[i]),
        ),
        deletion_targets(root).contains(join(root, "defaults"@)),
        deletion_targets(root).contains(join(root, "database.sqlite3"@)),
{
    let t = deletion_targets(root);
    assert forall|i: int| 0 <= i < category_dirs().len() implies t.contains(#[trigger] join(root, category_dirs()[i])) by {
        assert(t[i] == join(root, category_dirs()[i]));
    }
    assert(t[6] == join(root, category_dirs()[6]));
    reveal_strlit("defaults");
    assert(category_dirs()[6] == "defaults"@);
    assert(t[7] == join(root, "database.sqlite3"@));
}

} // verus!
