//! Named identities and the identities facade.
use vstd::prelude::*;

use crate::error::{is_already_exists, is_not_found, CliStateError};
use crate::identifier::{identifier_text, Identifier};
use crate::identity::{AttributesEntry, AttributesEntryView, ChangeHistory, Identity, TimestampInSeconds};
use crate::registry::{default_moved, default_row, has_default, has_name, row_named, rows_wf, NamedEntity};
use crate::store::{attributes, entry_with_value, histories, ChangeHistorySqlxDatabase, Database, IdentityAttributesSqlxDatabase};

verus! {

/// A name given to an identity, and whether it is the default identity.
pub type NamedIdentity = NamedEntity<Identifier>;

/// The rows of the named-identity table of `db`.
pub open spec fn named_rows(db: &Database) -> Seq<NamedIdentity> {
    db.named_identity.rows()
}

/// The first row of `rows` that names the identifier `id`.
pub open spec fn is_first_naming(rows: Seq<NamedIdentity>, id: Seq<u8>, i: int) -> bool {
    0 <= i < rows.len() && rows[i].config@ == id && forall|j: int| 0 <= j < i ==> (#[trigger] rows[j]).config@ != id
}

/// The named-identity repository: human-chosen names for identifiers, with
/// at most one default, held in the `named_identity` table of a store.
pub struct IdentitiesSqlxDatabase {
    pub database: Database,
}

impl IdentitiesSqlxDatabase {
    /// A repository over `database`.
    pub fn new(database: Database) -> (r: Self)
        ensures
            r.database == database,
    {
        IdentitiesSqlxDatabase { database }
    }

    /// A repository over a fresh in-memory database.
    pub fn create() -> (r: Self)
        ensures
            r.database.wf(),
            named_rows(&r.database).len() == 0,
    {
        IdentitiesSqlxDatabase { database: Database::in_memory() }
    }

    /// Gives `identifier` the name `name`, as a name that is not the default.
    /// `AlreadyExists` when the name is taken, which changes nothing.
    pub fn name_identity(&mut self, identifier: &Identifier, name: &str) -> (r: Result<(), CliStateError>)
        requires
            old(self).database.wf(),
        ensures
            final(self).database.wf(),
            r is Ok <==> !has_name(named_rows(&old(self).database), name@),
            r is Err ==> is_already_exists(r, "identity"@, name@)
                && named_rows(&final(self).database) == named_rows(&old(self).database),
            r is Ok ==> {
                let rows = named_rows(&final(self).database);
                &&& rows.len() == named_rows(&old(self).database).len() + 1
                &&& rows.drop_last() == named_rows(&old(self).database)
                &&& rows.last().name@ == name@
                &&& rows.last().config@ == identifier@
                &&& !rows.last().is_default
            },
            name_step(named_rows(&old(self).database), named_rows(&final(self).database), true, name@, identifier@),
            histories(&final(self).database) == histories(&old(self).database),
    {
        proof { reveal_strlit("identity"); }
        self.database.named_identity.add(name, identifier.copy())
    }

    /// Makes the first identity row naming `identifier` the one default.
    /// `ResourceNotFound` when no row names it, which changes nothing.
    pub fn set_as_default(&mut self, identifier: &Identifier) -> (r: Result<(), CliStateError>)
        requires
            old(self).database.wf(),
        ensures
            final(self).database.wf(),
            r is Ok <==> exists|i: int| is_first_naming(named_rows(&old(self).database), identifier@, i),
            r is Ok ==> exists|i: int| #[trigger]
                is_first_naming(named_rows(&old(self).database), identifier@, i) && default_moved(
                    named_rows(&old(self).database),
                    named_rows(&final(self).database),
                    named_rows(&old(self).database)[i].name@,
                ),
            r is Err ==> is_not_found(r, "identity"@, identifier_text(identifier@))
                && named_rows(&final(self).database) == named_rows(&old(self).database),
            histories(&final(self).database) == histories(&old(self).database),
    {
        let rows = self.database.named_identity.list();
        let mut i: usize = 0;
        while i < rows.len()
            invariant
                i <= rows@.len(),
                *self == *old(self),
                self.database.wf(),
                rows@ == named_rows(&self.database),
                forall|j: int| 0 <= j < i ==> (#[trigger] rows@[j]).config@ != identifier@,
            decreases rows@.len() - i,
        {
            if rows[i].config.same(identifier) {
                let name = rows[i].name.clone();
                proof {
                    assert(is_first_naming(rows@, identifier@, i as int));
                    crate::registry::lemma_row_named(rows@, i as int);
                    reveal_strlit("identity");
                }
                let r = self.database.named_identity.set_as_default_by_name(name.as_str());
                return r;
            }
            i = i + 1;
        }
        let text = identifier.to_string();
        proof { reveal_strlit("identity"); }
        Err(CliStateError::not_found("identity", text.as_str()))
    }

    /// Makes the identity named `name` the one default. `ResourceNotFound`
    /// when there is no such name, which changes nothing.
    pub fn set_as_default_by_name(&mut self, name: &str) -> (r: Result<(), CliStateError>)
        requires
            old(self).database.wf(),
        ensures
            final(self).database.wf(),
            r is Ok <==> has_name(named_rows(&old(self).database), name@),
            r is Ok ==> default_moved(named_rows(&old(self).database), named_rows(&final(self).database), name@),
            r is Err ==> is_not_found(r, "identity"@, name@)
                && named_rows(&final(self).database) == named_rows(&old(self).database),
            histories(&final(self).database) == histories(&old(self).database),
    {
        proof { reveal_strlit("identity"); }
        self.database.named_identity.set_as_default_by_name(name)
    }

    /// Removes the name `name` and returns the identifier it named, if any.
    pub fn delete_identity_by_name(&mut self, name: &str) -> (r: Option<Identifier>)
        requires
            old(self).database.wf(),
        ensures
            final(self).database.wf(),
            r is Some <==> has_name(named_rows(&old(self).database), name@),
            r matches Some(id) ==> id@ == row_named(named_rows(&old(self).database), name@).config@,
            !has_name(named_rows(&old(self).database), name@) ==> named_rows(&final(self).database)
                == named_rows(&old(self).database),
            forall|i: int|
                0 <= i < named_rows(&old(self).database).len() && (#[trigger] named_rows(&old(self).database)[i]).name@
                    == name@ ==> named_rows(&final(self).database) == named_rows(&old(self).database).remove(i),
            !has_name(named_rows(&final(self).database), name@),
            name_step(named_rows(&old(self).database), named_rows(&final(self).database), false, name@, Seq::empty()),
            forall|n: Seq<char>| n != name@ ==> (has_name(named_rows(&final(self).database), n)
                <==> #[trigger] has_name(named_rows(&old(self).database), n)),
            histories(&final(self).database) == histories(&old(self).database),
    {
        let identifier = self.get_identifier_by_name(name);
        let _ = self.database.named_identity.delete(name);
        proof {
            let before = named_rows(&old(self).database);
            let after = named_rows(&self.database);
            if has_name(before, name@) {
                let i = choose|i: int| 0 <= i < before.len() && (#[trigger] before[i]).name@ == name@;
                assert(after == before.remove(i));
                assert forall|n: Seq<char>| n != name@ implies (has_name(after, n) <==> #[trigger] has_name(before, n)) by {
                    if has_name(after, n) {
                        let k = choose|k: int| 0 <= k < after.len() && (#[trigger] after[k]).name@ == n;
                        let k1 = if k < i { k } else { k + 1 };
                        assert(after[k] == before[k1]);
                    }
                    if has_name(before, n) {
                        let k = choose|k: int| 0 <= k < before.len() && (#[trigger] before[k]).name@ == n;
                        assert(k != i);
                        let k0 = if k < i { k } else { k - 1 };
                        assert(after[k0] == before[k]);
                    }
                }
                if has_name(after, name@) {
                    let k = choose|k: int| 0 <= k < after.len() && (#[trigger] after[k]).name@ == name@;
                    let k1 = if k < i { k } else { k + 1 };
                    assert(after[k] == before[k1]);
                }
            }
        }
        identifier
    }

    /// The identifier named `name`, if any.
    pub fn get_identifier_by_name(&self, name: &str) -> (r: Option<Identifier>)
        requires
            self.database.wf(),
        ensures
            r is Some <==> has_name(named_rows(&self.database), name@),
            r matches Some(id) ==> id@ == row_named(named_rows(&self.database), name@).config@,
    {
        match self.database.named_identity.get(name) {
            Ok(e) => Some(e.config.copy()),
            Err(_) => None,
        }
    }

    /// The default identifier, if a default is set.
    pub fn get_default_identifier(&self) -> (r: Option<Identifier>)
        requires
            self.database.wf(),
        ensures
            r is Some <==> has_default(named_rows(&self.database)),
            r matches Some(id) ==> id@ == default_row(named_rows(&self.database)).config@,
    {
        match self.database.named_identity.get_default() {
            Ok(e) => Some(e.config.copy()),
            Err(_) => None,
        }
    }

    /// Every named identity.
    pub fn get_named_identities(&self) -> (r: &Vec<NamedIdentity>)
        requires
            self.database.wf(),
        ensures
            r@ == named_rows(&self.database),
            rows_wf(r@),
    {
        self.database.named_identity.list()
    }

    /// The named identity called `name`, if any.
    pub fn get_named_identity(&self, name: &str) -> (r: Option<&NamedIdentity>)
        requires
            self.database.wf(),
        ensures
            r is Some <==> has_name(named_rows(&self.database), name@),
            r matches Some(e) ==> *e == row_named(named_rows(&self.database), name@),
    {
        match self.database.named_identity.get(name) {
            Ok(e) => Some(e),
            Err(_) => None,
        }
    }

    /// The default named identity, if a default is set.
    pub fn get_default_named_identity(&self) -> (r: Option<&NamedIdentity>)
        requires
            self.database.wf(),
        ensures
            r is Some <==> has_default(named_rows(&self.database)),
            r matches Some(e) ==> *e == default_row(named_rows(&self.database)),
    {
        match self.database.named_identity.get_default() {
            Ok(e) => Some(e),
            Err(_) => None,
        }
    }

    /// The name of the default identity, if a default is set.
    pub fn get_default_identity_name(&self) -> (r: Option<String>)
        requires
            self.database.wf(),
        ensures
            r is Some <==> has_default(named_rows(&self.database)),
            r matches Some(n) ==> n@ == default_row(named_rows(&self.database)).name@,
    {
        match self.database.named_identity.get_default_name() {
            Ok(n) => Some(n),
            Err(_) => None,
        }
    }

    /// Whether the identity named `name` exists and is the default.
    pub fn is_default_identity_by_name(&self, name: &str) -> (r: bool)
        requires
            self.database.wf(),
        ensures
            r == (has_name(named_rows(&self.database), name@) && row_named(named_rows(&self.database), name@).is_default),
    {
        self.database.named_identity.is_default(name)
    }
}

/// The services around identities, over one store that the change-history
/// and attributes repositories share.
pub struct Identities {
    store: Database,
}

impl Identities {
    /// The store in use.
    pub closed spec fn store(&self) -> Database {
        self.store
    }

    /// The store keeps its invariant.
    pub open spec fn wf(&self) -> bool {
        self.store().wf()
    }

    /// The change histories known to the services, as bytes.
    pub open spec fn known(&self) -> Map<Seq<u8>, Seq<u8>> {
        histories(&self.store())
    }

    /// The attribute entries known to the services.
    pub open spec fn known_attributes(&self) -> Map<Seq<u8>, AttributesEntryView> {
        attributes(&self.store())
    }

    /// The services over `store`.
    pub fn new(store: Database) -> (r: Identities)
        ensures
            r.store() == store,
    {
        Identities { store }
    }

    /// A builder whose store is a fresh in-memory database.
    pub fn builder() -> (r: IdentitiesBuilder)
        ensures
            r.store.wf(),
            histories(&r.store) == Map::<Seq<u8>, Seq<u8>>::empty(),
            attributes(&r.store) == Map::<Seq<u8>, AttributesEntryView>::empty(),
    {
        IdentitiesBuilder { store: Database::in_memory() }
    }

    /// The store.
    pub fn database(&self) -> (r: &Database)
        ensures
            *r == self.store(),
    {
        &self.store
    }

    /// The store, given back.
    pub fn into_database(self) -> (r: Database)
        ensures
            r == self.store(),
    {
        self.store
    }

    /// The store taken out, a fresh one left in its place.
    fn take_store(&mut self) -> (r: Database)
        ensures
            r == old(self).store(),
            final(self).wf(),
    {
        let mut store = Database::in_memory();
        std::mem::swap(&mut store, &mut self.store);
        store
    }

    /// The identity `identifier`, rebuilt from its stored change history.
    /// `ResourceNotFound` when it has none.
    pub fn get_identity(&self, identifier: &Identifier) -> (r: Result<Identity, CliStateError>)
        requires
            self.wf(),
        ensures
            r is Ok <==> self.known().contains_key(identifier@),
            r matches Ok(identity) ==> identity@ == (identifier@, self.known()[identifier@]),
            r is Err ==> is_not_found(r, "identity"@, identifier_text(identifier@)),
    {
        match self.store.identity.get(identifier) {
            Some(change_history) => Ok(Identity::new(identifier.copy(), change_history.copy())),
            None => {
                let name = identifier.to_string();
                proof { reveal_strlit("identity"); }
                Err(CliStateError::not_found("identity", name.as_str()))
            },
        }
    }

    /// The exported bytes of the identity `identifier`: its change history.
    /// `ResourceNotFound` when it has none.
    pub fn export_identity(&self, identifier: &Identifier) -> (r: Result<Vec<u8>, CliStateError>)
        requires
            self.wf(),
        ensures
            r is Ok <==> self.known().contains_key(identifier@),
            r matches Ok(bytes) ==> bytes@ == self.known()[identifier@],
            r is Err ==> is_not_found(r, "identity"@, identifier_text(identifier@)),
    {
        match self.get_identity(identifier) {
            Ok(identity) => Ok(identity.export()),
            Err(e) => Err(e),
        }
    }

    /// Imports the identity `identifier` from its exported bytes and stores
    /// it. The identifier is the one the verifying vault derived from the
    /// history; deriving it is that vault's work, not this library's.
    /// `AlreadyExists` when it is already stored.
    pub fn import_identity(&mut self, identifier: &Identifier, data: &[u8]) -> (r: Result<Identity, CliStateError>)
        requires
            old(self).wf(),
        ensures
            final(self).wf(),
            r is Ok <==> !old(self).known().contains_key(identifier@),
            r matches Ok(identity) ==> identity@ == (identifier@, data@)
                && final(self).known() == old(self).known().insert(identifier@, data@),
            r is Err ==> final(self).known() == old(self).known(),
            final(self).known_attributes() == old(self).known_attributes(),
    {
        let identity = Identity::new(identifier.copy(), ChangeHistory::import(data));
        let mut repository = ChangeHistorySqlxDatabase::new(self.take_store());
        let r = repository.store_identity(&identity);
        self.store = repository.database;
        match r {
            Ok(()) => Ok(identity),
            Err(e) => Err(e),
        }
    }

    /// Removes the identity and, in the same step of the same store, its
    /// attributes.
    pub fn delete_identity(&mut self, identifier: &Identifier)
        requires
            old(self).wf(),
        ensures
            final(self).wf(),
            final(self).known() == old(self).known().remove(identifier@),
            final(self).known_attributes() == old(self).known_attributes().remove(identifier@),
    {
        let mut repository = ChangeHistorySqlxDatabase::new(self.take_store());
        repository.delete_identity(identifier);
        self.store = repository.database;
    }

    /// The attribute entry of `identifier`, if it has one.
    pub fn get_attributes(&self, identifier: &Identifier) -> (r: Option<AttributesEntry>)
        requires
            self.wf(),
        ensures
            r is Some <==> self.known_attributes().contains_key(identifier@),
            r matches Some(e) ==> e@ == self.known_attributes()[identifier@],
    {
        match self.store.identity_attributes.get(identifier) {
            Some(e) => Some(e.copy()),
            None => None,
        }
    }

    /// Sets one attribute of `subject`, as the attributes repository does.
    pub fn put_attribute_value(
        &mut self,
        subject: &Identifier,
        attribute_name: Vec<u8>,
        attribute_value: Vec<u8>,
        now: TimestampInSeconds,
    )
        requires
            old(self).wf(),
        ensures
            final(self).wf(),
            final(self).known_attributes() == old(self).known_attributes().insert(
                subject@,
                entry_with_value(old(self).known_attributes(), subject@, attribute_name@, attribute_value@, now.0),
            ),
            final(self).known() == old(self).known(),
    {
        let mut repository = IdentityAttributesSqlxDatabase::new(self.take_store());
        repository.put_attribute_value(subject, attribute_name, attribute_value, now);
        self.store = repository.database;
    }
}

/// Collects the store of an `Identities`.
pub struct IdentitiesBuilder {
    pub store: Database,
}

impl IdentitiesBuilder {
    /// Uses `store` for change histories and attributes alike.
    pub fn with_database(self, store: Database) -> (r: IdentitiesBuilder)
        ensures
            r.store == store,
    {
        IdentitiesBuilder { store }
    }

    /// The services over the collected store.
    pub fn build(self) -> (r: Identities)
        ensures
            r.store() == self.store,
    {
        Identities::new(self.store)
    }
}

/// Exporting an identity from one set of services and importing the bytes
/// into another that lacks it gives an identity with the same identifier and
/// the same change history, and the second services then hold it.
pub proof fn lemma_export_import_round_trip(
    source: Map<Seq<u8>, Seq<u8>>,
    target: Map<Seq<u8>, Seq<u8>>,
    id: Seq<u8>,
    exported: Seq<u8>,
    imported: (Seq<u8>, Seq<u8>),
    target_after: Map<Seq<u8>, Seq<u8>>,
)
    requires
        source.contains_key(id),
        !target.contains_key(id),
        exported == source[id],
        imported == (id, exported),
        target_after == target.insert(id, exported),
    ensures
        imported.0 == id,
        imported.1 == source[id],
        target_after.contains_key(id),
        target_after[id] == source[id],
{
}

/// What one call of `name_identity` (when `add` is true) or
/// `delete_identity_by_name` (otherwise) with `name` and `id` does to the
/// rows, on success or failure.
pub open spec fn name_step(
    before: Seq<NamedIdentity>,
    after: Seq<NamedIdentity>,
    add: bool,
    name: Seq<char>,
    id: Seq<u8>,
) -> bool {
    if add {
        ||| has_name(before, name) && after == before
        ||| {
            &&& !has_name(before, name)
            &&& after.len() == before.len() + 1
            &&& after.drop_last() == before
            &&& after.last().name@ == name
            &&& after.last().config@ == id
            &&& !after.last().is_default
        }
    } else {
        ||| !has_name(before, name) && after == before
        ||| exists|i: int| 0 <= i < before.len() && (#[trigger] before[i]).name@ == name && after == before.remove(i)
    }
}

/// The names, with their identifiers, that survive the steps from an empty
/// registry: a name is added with its identifier unless it is taken, and
/// deleted when asked.
pub open spec fn surviving_ids(steps: Seq<(bool, Seq<char>, Seq<u8>)>) -> Map<Seq<char>, Seq<u8>>
    decreases steps.len(),
{
    if steps.len() == 0 {
        Map::empty()
    } else {
        let prev = surviving_ids(steps.drop_last());
        let (add, name, id) = steps.last();
        if add {
            if prev.contains_key(name) { prev } else { prev.insert(name, id) }
        } else {
            prev.remove(name)
        }
    }
}

/// The rows hold exactly the names of `m`, each with its identifier, and no
/// default.
pub open spec fn rows_match(rows: Seq<NamedIdentity>, m: Map<Seq<char>, Seq<u8>>) -> bool {
    &&& rows_wf(rows)
    &&& !has_default(rows)
    &&& forall|n: Seq<char>| #[trigger] has_name(rows, n) <==> m.contains_key(n)
    &&& forall|n: Seq<char>| #[trigger] has_name(rows, n) ==> row_named(rows, n).config@ == m[n]
}

proof fn lemma_name_step(
    before: Seq<NamedIdentity>,
    after: Seq<NamedIdentity>,
    add: bool,
    name: Seq<char>,
    id: Seq<u8>,
    m: Map<Seq<char>, Seq<u8>>,
)
    requires
        rows_match(before, m),
        name_step(before, after, add, name, id),
    ensures
        rows_match(after, if add {
            if m.contains_key(name) { m } else { m.insert(name, id) }
        } else {
            m.remove(name)
        }),
{
    let m2 = if add {
        if m.contains_key(name) { m } else { m.insert(name, id) }
    } else {
        m.remove(name)
    };
    if after == before {
        if add {
            assert(m2 == m);
        } else {
            assert(m2 =~= m);
        }
    } else if add {
        let n = before.len() as int;
        assert forall|j: int| 0 <= j < n implies (#[trigger] after[j]) == before[j] by {
            assert(after.drop_last()[j] == after[j]);
        }
        assert(after[n] == after.last());
        assert forall|a: int, b: int|
            0 <= a < after.len() && 0 <= b < after.len() && a != b implies (#[trigger] after[a]).name@
                != (#[trigger] after[b]).name@ by {
            if a == n {
                assert(before[b] == after[b]);
            } else if b == n {
                assert(before[a] == after[a]);
            }
        }
        assert forall|a: int| 0 <= a < after.len() implies !(#[trigger] after[a]).is_default by {
            if a < n {
                assert(before[a] == after[a]);
            }
        }
        assert forall|x: Seq<char>| #[trigger] has_name(after, x) <==> m2.contains_key(x) by {
            if has_name(after, x) {
                let k = choose|k: int| 0 <= k < after.len() && (#[trigger] after[k]).name@ == x;
                if k < n {
                    assert(before[k] == after[k]);
                }
            }
            if has_name(before, x) {
                let k = choose|k: int| 0 <= k < before.len() && (#[trigger] before[k]).name@ == x;
                assert(after[k] == before[k]);
            }
            if x == name {
                assert(after[n].name@ == x);
            }
        }
        assert forall|x: Seq<char>| #[trigger] has_name(after, x) implies row_named(after, x).config@ == m2[x] by {
            if x == name {
                crate::registry::lemma_row_named(after, n);
            } else {
                let k = choose|k: int| 0 <= k < after.len() && (#[trigger] after[k]).name@ == x;
                assert(k < n);
                assert(before[k] == after[k]);
                crate::registry::lemma_row_named(after, k);
                crate::registry::lemma_row_named(before, k);
            }
        }
    } else {
        let i = choose|i: int| 0 <= i < before.len() && (#[trigger] before[i]).name@ == name && after == before.remove(i);
        crate::registry::lemma_delete_step(before, after, name);
        assert forall|j: int| 0 <= j < after.len() implies (#[trigger] after[j]) == before[if j < i { j } else { j + 1 }] by {}
        assert forall|a: int| 0 <= a < after.len() implies !(#[trigger] after[a]).is_default by {
            let a1 = if a < i { a } else { a + 1 };
            assert(after[a] == before[a1]);
        }
        assert forall|x: Seq<char>| #[trigger] has_name(after, x) <==> m2.contains_key(x) by {
            assert(crate::registry::name_set(after).contains(x) == crate::registry::name_set(before).remove(name).contains(x));
        }
        assert forall|x: Seq<char>| #[trigger] has_name(after, x) implies row_named(after, x).config@ == m2[x] by {
            let k = choose|k: int| 0 <= k < after.len() && (#[trigger] after[k]).name@ == x;
            let k1 = if k < i { k } else { k + 1 };
            assert(after[k] == before[k1]);
            crate::registry::lemma_row_named(after, k);
            crate::registry::lemma_row_named(before, k1);
        }
    }
}

/// Over any run of `name_identity` and `delete_identity_by_name` calls from an
/// empty registry, every state holds exactly the names that survive the
/// calls made so far, each with the identifier it was added with, names
/// unique, and no default.
pub proof fn lemma_named_identity_run(states: Seq<Seq<NamedIdentity>>, steps: Seq<(bool, Seq<char>, Seq<u8>)>)
    requires
        states.len() == steps.len() + 1,
        states[0].len() == 0,
        forall|k: int| 0 <= k < steps.len() ==> name_step(#[trigger] states[k], states[k + 1], steps[k].0, steps[k].1, steps[k].2),
    ensures
        forall|k: int| 0 <= k < states.len() ==> rows_match(#[trigger] states[k], surviving_ids(steps.take(k))),
    decreases steps.len(),
{
    if steps.len() == 0 {
        assert(steps.take(0) =~= steps);
        assert(rows_match(states[0], Map::empty())) by {
            assert forall|x: Seq<char>| #[trigger] has_name(states[0], x) <==> Map::<Seq<char>, Seq<u8>>::empty().contains_key(x) by {}
        }
    } else {
        let n = steps.len() - 1;
        lemma_named_identity_run(states.drop_last(), steps.drop_last());
        assert forall|k: int| 0 <= k < states.len() implies rows_match(#[trigger] states[k], surviving_ids(steps.take(k))) by {
            if k < states.len() - 1 {
                assert(states.drop_last()[k] == states[k]);
                assert(steps.drop_last().take(k) =~= steps.take(k));
            } else {
                assert(states.drop_last()[n] == states[n]);
                assert(steps.drop_last().take(n) =~= steps.take(n));
                assert(steps.take(k).drop_last() =~= steps.take(n));
                assert(steps.take(k).last() == steps[n]);
                assert(name_step(states[n], states[n + 1], steps[n].0, steps[n].1, steps[n].2));
                lemma_name_step(states[n], states[n + 1], steps[n].0, steps[n].1, steps[n].2, surviving_ids(steps.take(n)));
            }
        }
    }
}

} // verus!
