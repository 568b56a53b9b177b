//! The relational store of identities: the change-history table, the
//! attributes table and the named-identity table, and the repositories over it.
use vstd::prelude::*;

use crate::error::{is_already_exists, is_not_found, CliStateError};
use crate::identifier::{identifier_text, Identifier};
use crate::identity::{AttributesEntry, AttributesEntryView, ChangeHistory, Identity, TimestampInSeconds};
use crate::registry::NamedEntities;
use crate::table::Table;

verus! {

/// The tables of one trust-state store.
pub struct Database {
    /// identifier -> change history
    pub identity: Table<ChangeHistory>,
    /// identifier -> attested attributes
    pub identity_attributes: Table<AttributesEntry>,
    /// name -> identifier, with at most one default
    pub named_identity: NamedEntities<Identifier>,
}

/// The change histories of a store, as bytes.
pub open spec fn histories(db: &Database) -> Map<Seq<u8>, Seq<u8>> {
    db.identity.map().map_values(|c: ChangeHistory| c@)
}

/// The attribute entries of a store.
pub open spec fn attributes(db: &Database) -> Map<Seq<u8>, AttributesEntryView> {
    db.identity_attributes.map().map_values(|e: AttributesEntry| e@)
}

impl Database {
    /// Every table keeps its invariant.
    pub open spec fn wf(&self) -> bool {
        &&& self.identity.wf()
        &&& self.identity_attributes.wf()
        &&& self.named_identity.wf()
        &&& self.named_identity.resource() == "identity"@
    }

    /// An empty store, as a fresh in-memory database is.
    pub fn in_memory() -> (r: Database)
        ensures
            r.wf(),
            histories(&r) == Map::<Seq<u8>, Seq<u8>>::empty(),
            attributes(&r) == Map::<Seq<u8>, AttributesEntryView>::empty(),
            r.named_identity.rows().len() == 0,
    {
        proof { reveal_strlit("identity"); }
        let r = Database {
            identity: Table::new(),
            identity_attributes: Table::new(),
            named_identity: NamedEntities::new("identity"),
        };
        assert(histories(&r) =~= Map::<Seq<u8>, Seq<u8>>::empty());
        assert(attributes(&r) =~= Map::<Seq<u8>, AttributesEntryView>::empty());
        r
    }
}

/// The change-history repository: the ordered key-rotation chain of each
/// identity, held in the `identity` table of a store. The store's rows are
/// read from and written to the sqlite file outside this library.
pub struct ChangeHistorySqlxDatabase {
    pub database: Database,
}

impl ChangeHistorySqlxDatabase {
    /// A repository over `database`.
    pub fn new(database: Database) -> (r: Self)
        ensures
            r.database == database,
    {
        ChangeHistorySqlxDatabase { database }
    }

    /// A repository over a fresh in-memory database.
    pub fn create() -> (r: Self)
        ensures
            r.database.wf(),
            histories(&r.database) == Map::<Seq<u8>, Seq<u8>>::empty(),
            attributes(&r.database) == Map::<Seq<u8>, AttributesEntryView>::empty(),
    {
        ChangeHistorySqlxDatabase { database: Database::in_memory() }
    }

    /// Stores a new identity. `AlreadyExists` when its identifier has a row.
    pub fn store_identity(&mut self, identity: &Identity) -> (r: Result<(), CliStateError>)
        requires
            old(self).database.wf(),
        ensures
            final(self).database.wf(),
            r is Ok <==> !histories(&old(self).database).contains_key(identity@.0),
            r is Ok ==> histories(&final(self).database) == histories(&old(self).database).insert(identity@.0, identity@.1),
            r is Err ==> is_already_exists(r, "identity"@, identifier_text(identity@.0))
                && histories(&final(self).database) == histories(&old(self).database),
            attributes(&final(self).database) == attributes(&old(self).database),
            final(self).database.named_identity == old(self).database.named_identity,
    {
        let id = identity.identifier();
        if self.database.identity.contains(id) {
            let name = id.to_string();
            proof { reveal_strlit("identity"); }
            return Err(CliStateError::already_exists("identity", name.as_str()));
        }
        self.database.identity.put(id.copy(), identity.change_history().copy());
        assert(histories(&self.database) =~= histories(&old(self).database).insert(identity@.0, identity@.1));
        Ok(())
    }

    /// Replaces the change history of an identity that has a row; an identity
    /// without a row is left absent.
    pub fn update_identity(&mut self, identity: &Identity)
        requires
            old(self).database.wf(),
        ensures
            final(self).database.wf(),
            histories(&old(self).database).contains_key(identity@.0) ==> histories(&final(self).database)
                == histories(&old(self).database).insert(identity@.0, identity@.1),
            !histories(&old(self).database).contains_key(identity@.0) ==> histories(&final(self).database)
                == histories(&old(self).database),
            attributes(&final(self).database) == attributes(&old(self).database),
            final(self).database.named_identity == old(self).database.named_identity,
    {
        let id = identity.identifier();
        if self.database.identity.contains(id) {
            self.database.identity.put(id.copy(), identity.change_history().copy());
            assert(histories(&self.database) =~= histories(&old(self).database).insert(identity@.0, identity@.1));
        }
    }

    /// Removes the identity and, in the same step, its attributes.
    pub fn delete_identity(&mut self, identifier: &Identifier)
        requires
            old(self).database.wf(),
        ensures
            final(self).database.wf(),
            histories(&final(self).database) == histories(&old(self).database).remove(identifier@),
            attributes(&final(self).database) == attributes(&old(self).database).remove(identifier@),
            final(self).database.named_identity == old(self).database.named_identity,
    {
        let _ = self.database.identity.remove(identifier);
        let _ = self.database.identity_attributes.remove(identifier);
        assert(histories(&self.database) =~= histories(&old(self).database).remove(identifier@));
        assert(attributes(&self.database) =~= attributes(&old(self).database).remove(identifier@));
    }

    /// The change history of `identifier`, if it has a row.
    pub fn get_change_history_optional(&self, identifier: &Identifier) -> (r: Option<ChangeHistory>)
        requires
            self.database.wf(),
        ensures
            r is Some <==> histories(&self.database).contains_key(identifier@),
            r matches Some(c) ==> c@ == histories(&self.database)[identifier@],
    {
        match self.database.identity.get(identifier) {
            Some(c) => Some(c.copy()),
            None => None,
        }
    }

    /// The change history of `identifier`; `ResourceNotFound` when it has no row.
    pub fn get_change_history(&self, identifier: &Identifier) -> (r: Result<ChangeHistory, CliStateError>)
        requires
            self.database.wf(),
        ensures
            r is Ok <==> histories(&self.database).contains_key(identifier@),
            r matches Ok(c) ==> c@ == histories(&self.database)[identifier@],
            r is Err ==> is_not_found(r, "identity"@, identifier_text(identifier@)),
    {
        match self.get_change_history_optional(identifier) {
            Some(c) => Ok(c),
            None => {
                let name = identifier.to_string();
                proof { reveal_strlit("identity"); }
                Err(CliStateError::not_found("identity", name.as_str()))
            },
        }
    }
}

/// The entry that `put_attribute_value` writes: the stored pairs (none when
/// there is no entry) with `name` set to `value`, added at `now`, no expiry,
/// attested by the subject itself.
pub open spec fn entry_with_value(
    before: Map<Seq<u8>, AttributesEntryView>,
    subject: Seq<u8>,
    name: Seq<u8>,
    value: Seq<u8>,
    now: u64,
) -> AttributesEntryView {
    AttributesEntryView {
        attrs: if before.contains_key(subject) {
            before[subject].attrs.insert(name, value)
        } else {
            Map::empty().insert(name, value)
        },
        added: now,
        expires: None,
        attested_by: Some(subject),
    }
}

/// The attributes repository: one attested entry per subject identifier,
/// held in the `identity_attributes` table of a store.
pub struct IdentityAttributesSqlxDatabase {
    pub database: Database,
}

impl IdentityAttributesSqlxDatabase {
    /// A repository over `database`.
    pub fn new(database: Database) -> (r: Self)
        ensures
            r.database == database,
    {
        IdentityAttributesSqlxDatabase { database }
    }

    /// A repository over a fresh in-memory database.
    pub fn create() -> (r: Self)
        ensures
            r.database.wf(),
            histories(&r.database) == Map::<Seq<u8>, Seq<u8>>::empty(),
            attributes(&r.database) == Map::<Seq<u8>, AttributesEntryView>::empty(),
    {
        IdentityAttributesSqlxDatabase { database: Database::in_memory() }
    }

    /// The entry of `identity`, if it has one.
    pub fn get_attributes(&self, identity: &Identifier) -> (r: Option<AttributesEntry>)
        requires
            self.database.wf(),
        ensures
            r is Some <==> attributes(&self.database).contains_key(identity@),
            r matches Some(e) ==> e@ == attributes(&self.database)[identity@],
    {
        match self.database.identity_attributes.get(identity) {
            Some(e) => Some(e.copy()),
            None => None,
        }
    }

    /// Every (identifier, entry) pair, one per subject, in no significant order.
    pub fn list(&self) -> (r: &Vec<(Identifier, AttributesEntry)>)
        requires
            self.database.wf(),
        ensures
            forall|i: int| 0 <= i < r@.len() ==> attributes(&self.database).contains_key((#[trigger] r@[i]).0@)
                && attributes(&self.database)[r@[i].0@] == r@[i].1@,
            forall|k: Seq<u8>| #[trigger] attributes(&self.database).contains_key(k) ==> exists|i: int|
                0 <= i < r@.len() && (#[trigger] r@[i]).0@ == k,
            forall|i: int, j: int|
                0 <= i < r@.len() && 0 <= j < r@.len() && i != j ==> (#[trigger] r@[i]).0@ != (#[trigger] r@[j]).0@,
    {
        self.database.identity_attributes.rows()
    }

    /// Stores `entry` for `sender`, replacing any entry it had.
    pub fn put_attributes(&mut self, sender: &Identifier, entry: AttributesEntry)
        requires
            old(self).database.wf(),
        ensures
            final(self).database.wf(),
            attributes(&final(self).database) == attributes(&old(self).database).insert(sender@, entry@),
            histories(&final(self).database) == histories(&old(self).database),
            final(self).database.named_identity == old(self).database.named_identity,
    {
        let ghost e = entry@;
        self.database.identity_attributes.put(sender.copy(), entry);
        assert(attributes(&self.database) =~= attributes(&old(self).database).insert(sender@, e));
    }

    /// Sets one attribute of `subject` in one step: the other attributes are
    /// kept, the entry is marked as added at `now` and attested by `subject`.
    pub fn put_attribute_value(
        &mut self,
        subject: &Identifier,
        attribute_name: Vec<u8>,
        attribute_value: Vec<u8>,
        now: TimestampInSeconds,
    )
        requires
            old(self).database.wf(),
        ensures
            final(self).database.wf(),
            attributes(&final(self).database) == attributes(&old(self).database).insert(
                subject@,
                entry_with_value(attributes(&old(self).database), subject@, attribute_name@, attribute_value@, now.0),
            ),
            histories(&final(self).database) == histories(&old(self).database),
            final(self).database.named_identity == old(self).database.named_identity,
    {
        let ghost before = attributes(&self.database);
        let entry = match self.database.identity_attributes.get(subject) {
            Some(e) => e.with_attribute(attribute_name, attribute_value, now, subject),
            None => {
                let empty = AttributesEntry::new(Vec::new(), now, None, None);
                assert(empty@.attrs =~= Map::<Seq<u8>, Seq<u8>>::empty());
                empty.with_attribute(attribute_name, attribute_value, now, subject)
            },
        };
        proof {
            let expected = entry_with_value(before, subject@, attribute_name@, attribute_value@, now.0);
            assert(entry@.attrs =~= expected.attrs);
        }
        self.put_attributes(subject, entry);
    }

    /// Removes the entry of `identity`; nothing happens when it has none.
    pub fn delete(&mut self, identity: &Identifier)
        requires
            old(self).database.wf(),
        ensures
            final(self).database.wf(),
            attributes(&final(self).database) == attributes(&old(self).database).remove(identity@),
            histories(&final(self).database) == histories(&old(self).database),
            final(self).database.named_identity == old(self).database.named_identity,
    {
        let _ = self.database.identity_attributes.remove(identity);
        assert(attributes(&self.database) =~= attributes(&old(self).database).remove(identity@));
    }
}

/// Two single-attribute writes on one subject keep both attributes, and the
/// entry is marked as added no earlier than after the first write when the
/// clock did not go back between them.
pub proof fn lemma_two_attribute_values(
    before: Map<Seq<u8>, AttributesEntryView>,
    subject: Seq<u8>,
    name1: Seq<u8>,
    value1: Seq<u8>,
    now1: u64,
    name2: Seq<u8>,
    value2: Seq<u8>,
    now2: u64,
)
    requires
        name1 != name2,
        now1 <= now2,
    ensures
        ({
            let after1 = before.insert(subject, entry_with_value(before, subject, name1, value1, now1));
            let after2 = after1.insert(subject, entry_with_value(after1, subject, name2, value2, now2));
            &&& after2.contains_key(subject)
            &&& after2[subject].attrs.contains_key(name1)
            &&& after2[subject].attrs[name1] == value1
            &&& after2[subject].attrs.contains_key(name2)
            &&& after2[subject].attrs[name2] == value2
            &&& after2[subject].added >= after1[subject].added
            &&& after2[subject].attested_by == Some(subject)
        }),
{
}

/// Deleting an identity leaves neither a change history nor attributes for it.
pub proof fn lemma_delete_identity_removes_both(
    histories_before: Map<Seq<u8>, Seq<u8>>,
    attributes_before: Map<Seq<u8>, AttributesEntryView>,
    id: Seq<u8>,
)
    ensures
        !histories_before.remove(id).contains_key(id),
        !attributes_before.remove(id).contains_key(id),
{
}

} // verus!
