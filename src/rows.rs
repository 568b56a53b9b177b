//! The rows of the relational schema, as plain column values, and their
//! conversion to and from the library's types.
use vstd::prelude::*;

use crate::error::CliStateError;
use crate::identifier::{identifier_bytes, identifier_text, is_identifier_text, Identifier};
use crate::identity::{keys_unique, pairs_map, AttributesEntry, AttributesEntryView, ChangeHistory};
use crate::registry::{loaded_from, NamedEntities, NamedEntity, StoredRecords};
use crate::store::{attributes, histories, Database};

verus! {

/// Name/value pairs as byte strings.
pub open spec fn pairs_view(pairs: Seq<(Vec<u8>, Vec<u8>)>) -> Seq<(Seq<u8>, Seq<u8>)> {
    pairs.map_values(|p: (Vec<u8>, Vec<u8>)| (p.0@, p.1@))
}

/// The CBOR encoding of a list of name/value pairs with distinct names, as a
/// map from name to value.
pub uninterp spec fn cbor_of_pairs(pairs: Seq<(Seq<u8>, Seq<u8>)>) -> Seq<u8>;

/// The name/value pairs of the map that some CBOR bytes decode to, if they do.
pub uninterp spec fn pairs_of_cbor(bytes: Seq<u8>) -> Option<Seq<(Seq<u8>, Seq<u8>)>>;

/// Relies on minicbor::to_vec: the CBOR encoding of the pairs as a map from
/// name to value, which depends on the pairs alone. It writes into a `Vec`,
/// whose error type is `Infallible`, and the encoders of maps and byte
/// vectors raise no error of their own, so it always succeeds.
#[verifier::external_body]
fn encode_pairs(pairs: &Vec<(Vec<u8>, Vec<u8>)>) -> (r: Option<Vec<u8>>)
    requires
        keys_unique(pairs@),
    ensures
        r is Some,
        r matches Some(b) ==> b@ == cbor_of_pairs(pairs_view(pairs@)),
{
    let map: std::collections::BTreeMap<Vec<u8>, Vec<u8>> = pairs.iter().cloned().collect();
    minicbor::to_vec(&map).ok()
}

/// Relies on minicbor::decode: the map from name to value that the bytes
/// decode to, which depends on the bytes alone; an error for bytes that do
/// not decode to such a map.
#[verifier::external_body]
fn decode_pairs(bytes: &[u8]) -> (r: Option<Vec<(Vec<u8>, Vec<u8>)>>)
    ensures
        r is Some <==> pairs_of_cbor(bytes@) is Some,
        r matches Some(p) ==> pairs_view(p@) == pairs_of_cbor(bytes@)->0,
{
    minicbor::decode::<std::collections::BTreeMap<Vec<u8>, Vec<u8>>>(bytes).ok().map(|m| m.into_iter().collect())
}

/// The integer column that holds a timestamp: the same 64 bits, read as a
/// two's-complement signed integer.
pub open spec fn column_of(t: u64) -> i64 {
    if t <= i64::MAX {
        t as i64
    } else {
        (t - 0x1_0000_0000_0000_0000) as i64
    }
}

/// The timestamp that an integer column holds: the same 64 bits, read as an
/// unsigned integer.
pub open spec fn timestamp_of(column: i64) -> u64 {
    if column >= 0 {
        column as u64
    } else {
        (column + 0x1_0000_0000_0000_0000) as u64
    }
}

/// An optional timestamp column.
pub open spec fn optional_timestamp_of(column: Option<i64>) -> Option<u64> {
    match column {
        None => None,
        Some(c) => Some(timestamp_of(c)),
    }
}

/// A timestamp column read back gives the timestamp written.
pub proof fn lemma_timestamp_column_round_trip(t: u64)
    ensures
        timestamp_of(column_of(t)) == t,
{
}

/// An optional identifier column.
pub open spec fn optional_identifier_of(column: Option<Seq<char>>) -> Option<Option<Seq<u8>>> {
    match column {
        None => Some(None),
        Some(t) => if is_identifier_text(t) {
            Some(Some(identifier_bytes(t)))
        } else {
            None
        },
    }
}

/// The view of an optional string column.
pub open spec fn text_view(column: Option<String>) -> Option<Seq<char>> {
    match column {
        Some(s) => Some(s@),
        None => None,
    }
}

/// The attribute entry that a row of `identity_attributes` stands for, if
/// its columns are well formed.
pub open spec fn entry_of_row(row: IdentityAttributesRow) -> Option<AttributesEntryView> {
    match (pairs_of_cbor(row.attributes@), optional_identifier_of(text_view(row.attested_by))) {
        (Some(pairs), Some(attested_by)) => Some(
            AttributesEntryView {
                attrs: pairs_seq_map(pairs),
                added: timestamp_of(row.added),
                expires: optional_timestamp_of(row.expires),
                attested_by,
            },
        ),
        _ => None,
    }
}

/// The attribute map of a list of byte-string pairs: a later pair for a name
/// overrides an earlier one.
pub open spec fn pairs_seq_map(pairs: Seq<(Seq<u8>, Seq<u8>)>) -> Map<Seq<u8>, Seq<u8>>
    decreases pairs.len(),
{
    if pairs.len() == 0 {
        Map::empty()
    } else {
        pairs_seq_map(pairs.drop_last()).insert(pairs.last().0, pairs.last().1)
    }
}

proof fn lemma_pairs_seq_map(pairs: Seq<(Vec<u8>, Vec<u8>)>)
    ensures
        pairs_seq_map(pairs_view(pairs)) == pairs_map(pairs),
    decreases pairs.len(),
{
    if pairs.len() > 0 {
        lemma_pairs_seq_map(pairs.drop_last());
        assert(pairs_view(pairs).drop_last() =~= pairs_view(pairs.drop_last()));
    }
}

/// A row of the `identity` table: an identifier and its change history.
#[derive(Debug, Clone, PartialEq, Eq)]
pub struct ChangeHistoryRow {
    pub identifier: String,
    pub change_history: Vec<u8>,
}

impl ChangeHistoryRow {
    /// The row of `identifier` with `change_history`.
    pub fn new(identifier: &Identifier, change_history: &ChangeHistory) -> (r: ChangeHistoryRow)
        ensures
            r.identifier@ == identifier_text(identifier@),
            r.change_history@ == change_history@,
    {
        ChangeHistoryRow { identifier: identifier.to_string(), change_history: change_history.export() }
    }

    /// The identifier of the row; `InvalidData` when the column is malformed.
    pub fn identifier(&self) -> (r: Result<Identifier, CliStateError>)
        ensures
            r is Ok <==> is_identifier_text(self.identifier@),
            r matches Ok(id) ==> id@ == identifier_bytes(self.identifier@),
    {
        Identifier::from_str(self.identifier.as_str())
    }

    /// The change history of the row.
    pub fn change_history(&self) -> (r: ChangeHistory)
        ensures
            r@ == self.change_history@,
    {
        ChangeHistory::import(self.change_history.as_slice())
    }
}

/// A row of the `identity_attributes` table.
#[derive(Debug, Clone, PartialEq, Eq)]
pub struct IdentityAttributesRow {
    pub identifier: String,
    /// The name/value pairs, CBOR-encoded.
    pub attributes: Vec<u8>,
    pub added: i64,
    pub expires: Option<i64>,
    pub attested_by: Option<String>,
}

/// `row` stores `entry` for the subject `subject`.
pub open spec fn row_stores(row: IdentityAttributesRow, subject: Seq<u8>, entry: AttributesEntry) -> bool {
    &&& row.identifier@ == identifier_text(subject)
    &&& row.attributes@ == cbor_of_pairs(pairs_view(entry.attrs_view()))
    &&& row.added == column_of(entry@.added)
    &&& row.expires == (match entry@.expires {
        Some(t) => Some(column_of(t)),
        None => None::<i64>,
    })
    &&& text_view(row.attested_by) == (match entry@.attested_by {
        Some(a) => Some(identifier_text(a)),
        None => None::<Seq<char>>,
    })
}

fn timestamp_column(t: u64) -> (r: i64)
    ensures
        r == column_of(t),
{
    if t <= i64::MAX as u64 {
        t as i64
    } else {
        ((t - 0x8000_0000_0000_0000) as i64) - i64::MAX - 1
    }
}

fn timestamp_from_column(c: i64) -> (r: u64)
    ensures
        r == timestamp_of(c),
{
    if c >= 0 {
        c as u64
    } else {
        ((c + i64::MAX + 1) as u64) + 0x8000_0000_0000_0000
    }
}

impl IdentityAttributesRow {
    /// The row that stores `entry` for `subject`.
    pub fn new(subject: &Identifier, entry: &AttributesEntry) -> (r: IdentityAttributesRow)
        ensures
            row_stores(r, subject@, *entry),
    {
        let attributes = match encode_pairs(entry.attrs()) {
            Some(b) => b,
            None => {
                assert(false);
                Vec::new()
            },
        };
        let added = timestamp_column(entry.added().0);
        let expires = match entry.expires() {
            Some(t) => Some(timestamp_column(t.0)),
            None => None,
        };
        let attested_by = match entry.attested_by() {
            Some(a) => Some(a.to_string()),
            None => None,
        };
        IdentityAttributesRow { identifier: subject.to_string(), attributes, added, expires, attested_by }
    }

    /// The subject of the row; `InvalidData` when the column is malformed.
    pub fn identifier(&self) -> (r: Result<Identifier, CliStateError>)
        ensures
            r is Ok <==> is_identifier_text(self.identifier@),
            r matches Ok(id) ==> id@ == identifier_bytes(self.identifier@),
    {
        Identifier::from_str(self.identifier.as_str())
    }

    /// The entry of the row; an error when a column is malformed.
    pub fn attributes(&self) -> (r: Result<AttributesEntry, CliStateError>)
        ensures
            r is Ok <==> entry_of_row(*self) is Some,
            r matches Ok(e) ==> Some(e@) == entry_of_row(*self),
    {
        let pairs = match decode_pairs(self.attributes.as_slice()) {
            Some(p) => p,
            None => { return Err(CliStateError::Serde("the attributes do not decode".to_string())); },
        };
        let added = timestamp_from_column(self.added);
        let expires = match self.expires {
            Some(c) => Some(crate::identity::TimestampInSeconds(timestamp_from_column(c))),
            None => None,
        };
        let attested_by = match &self.attested_by {
            Some(t) => Some(Identifier::from_str(t.as_str())?),
            None => None,
        };
        proof { lemma_pairs_seq_map(pairs@); }
        Ok(AttributesEntry::new(pairs, crate::identity::TimestampInSeconds(added), expires, attested_by))
    }
}

/// A row of the `named_identity` table.
#[derive(Debug, Clone, PartialEq, Eq)]
pub struct NamedIdentityRow {
    pub identifier: String,
    pub name: String,
    pub is_default: bool,
}

impl NamedIdentityRow {
    /// The row for a named identity.
    pub fn new(named: &NamedEntity<Identifier>) -> (r: NamedIdentityRow)
        ensures
            r.identifier@ == identifier_text(named.config@),
            r.name@ == named.name@,
            r.is_default == named.is_default,
    {
        NamedIdentityRow { identifier: named.config.to_string(), name: named.name.clone(), is_default: named.is_default }
    }

    /// The identifier of the row; `InvalidData` when the column is malformed.
    pub fn identifier(&self) -> (r: Result<Identifier, CliStateError>)
        ensures
            r is Ok <==> is_identifier_text(self.identifier@),
            r matches Ok(id) ==> id@ == identifier_bytes(self.identifier@),
    {
        Identifier::from_str(self.identifier.as_str())
    }

    /// The named identity of the row; `InvalidData` when the identifier is malformed.
    pub fn named_identity(&self) -> (r: Result<NamedEntity<Identifier>, CliStateError>)
        ensures
            r is Ok <==> is_identifier_text(self.identifier@),
            r matches Ok(n) ==> n.config@ == identifier_bytes(self.identifier@) && n.name@ == self.name@
                && n.is_default == self.is_default,
    {
        let identifier = self.identifier()?;
        Ok(NamedEntity { name: self.name.clone(), config: identifier, is_default: self.is_default })
    }
}

/// The change histories that rows of `identity` stand for, a later row for
/// an identifier overriding an earlier one.
pub open spec fn histories_of_rows(rows: Seq<ChangeHistoryRow>) -> Map<Seq<u8>, Seq<u8>>
    decreases rows.len(),
{
    if rows.len() == 0 {
        Map::empty()
    } else {
        histories_of_rows(rows.drop_last()).insert(identifier_bytes(rows.last().identifier@), rows.last().change_history@)
    }
}

/// The attribute entries that well-formed rows of `identity_attributes`
/// stand for, a later row for an identifier overriding an earlier one.
pub open spec fn attributes_of_rows(rows: Seq<IdentityAttributesRow>) -> Map<Seq<u8>, AttributesEntryView>
    decreases rows.len(),
{
    if rows.len() == 0 {
        Map::empty()
    } else {
        attributes_of_rows(rows.drop_last()).insert(
            identifier_bytes(rows.last().identifier@),
            entry_of_row(rows.last())->0,
        )
    }
}

/// Every row of `identity` has a well-formed identifier.
pub open spec fn history_rows_ok(rows: Seq<ChangeHistoryRow>) -> bool {
    forall|i: int| 0 <= i < rows.len() ==> is_identifier_text((#[trigger] rows[i]).identifier@)
}

/// Every row of `identity_attributes` is well formed.
pub open spec fn attribute_rows_ok(rows: Seq<IdentityAttributesRow>) -> bool {
    forall|i: int| 0 <= i < rows.len() ==> is_identifier_text((#[trigger] rows[i]).identifier@)
        && entry_of_row(rows[i]) is Some
}

/// Every row of `named_identity` has a well-formed identifier.
pub open spec fn name_rows_ok(rows: Seq<NamedIdentityRow>) -> bool {
    forall|i: int| 0 <= i < rows.len() ==> is_identifier_text((#[trigger] rows[i]).identifier@)
}

/// `row` is the `identity` row of the identifier `k` of `m`.
pub open spec fn history_row(row: ChangeHistoryRow, k: Seq<u8>, m: Map<Seq<u8>, Seq<u8>>) -> bool {
    m.contains_key(k) && row.identifier@ == identifier_text(k) && row.change_history@ == m[k]
}

/// `row` is the `identity_attributes` row of the identifier `k` of `m`.
pub open spec fn attribute_row(row: IdentityAttributesRow, k: Seq<u8>, m: Map<Seq<u8>, AttributesEntry>) -> bool {
    m.contains_key(k) && row_stores(row, k, m[k])
}

/// `row` is the `identity` row of some identifier of `m`.
pub open spec fn is_history_row(row: ChangeHistoryRow, m: Map<Seq<u8>, Seq<u8>>) -> bool {
    exists|k: Seq<u8>| #[trigger] history_row(row, k, m)
}

/// `row` is the `identity_attributes` row of some identifier of `m`.
pub open spec fn is_attribute_row(row: IdentityAttributesRow, m: Map<Seq<u8>, AttributesEntry>) -> bool {
    exists|k: Seq<u8>| #[trigger] attribute_row(row, k, m)
}

/// `rows` hold one row for each entry of `m`, and no other.
pub open spec fn rows_hold_attributes(rows: Seq<IdentityAttributesRow>, m: Map<Seq<u8>, AttributesEntry>) -> bool {
    &&& forall|i: int| 0 <= i < rows.len() ==> is_attribute_row(#[trigger] rows[i], m)
    &&& forall|k: Seq<u8>| #[trigger] m.contains_key(k) ==> exists|i: int| 0 <= i < rows.len()
        && #[trigger] attribute_row(rows[i], k, m)
}

/// `records` are the names of the rows `names`, each with the identifier
/// its row carries.
pub open spec fn names_loaded(records: Seq<(String, Identifier)>, names: Seq<NamedIdentityRow>) -> bool {
    records.len() == names.len() && forall|m: int| 0 <= m < names.len() ==> (#[trigger] records[m]).0 == names[m].name
        && records[m].1@ == identifier_bytes(names[m].identifier@)
}

/// The name of the first row marked as default, if any is.
pub open spec fn first_default_name(names: Seq<NamedIdentityRow>) -> Option<String> {
    if exists|i: int| #[trigger] is_first_default(names, i) {
        Some(names[choose|i: int| #[trigger] is_first_default(names, i)].name)
    } else {
        None
    }
}

proof fn lemma_first_default_unique(names: Seq<NamedIdentityRow>, f: int)
    requires
        is_first_default(names, f),
    ensures
        first_default_name(names) == Some(names[f].name),
{
    let g = choose|i: int| #[trigger] is_first_default(names, i);
    if g < f {
        assert(!names[g].is_default);
    } else if g > f {
        assert(!names[f].is_default);
    }
}

/// The row at `i` is the first one marked as default.
pub open spec fn is_first_default(names: Seq<NamedIdentityRow>, i: int) -> bool {
    0 <= i < names.len() && names[i].is_default && forall|j: int| 0 <= j < i ==> !(#[trigger] names[j]).is_default
}

impl Database {
    /// The store that the rows of its three tables stand for. Names keep the
    /// record of their last row; the first row marked as default becomes the
    /// one default. An error when a row is malformed.
    pub fn load(
        identities: &Vec<ChangeHistoryRow>,
        attribute_rows: &Vec<IdentityAttributesRow>,
        names: &Vec<NamedIdentityRow>,
    ) -> (r: Result<Database, CliStateError>)
        ensures
            r is Ok <==> history_rows_ok(identities@) && attribute_rows_ok(attribute_rows@) && name_rows_ok(names@),
            r matches Ok(db) ==> {
                &&& db.wf()
                &&& histories(&db) == histories_of_rows(identities@)
                &&& attributes(&db) == attributes_of_rows(attribute_rows@)
                &&& exists|records: Seq<(String, Identifier)>| #[trigger] names_loaded(records, names@)
                    && loaded_from(db.named_identity.rows(), records, first_default_name(names@))
            },
    {
        let mut db = Database::in_memory();
        let mut i: usize = 0;
        while i < identities.len()
            invariant
                i <= identities@.len(),
                db.wf(),
                histories(&db) == histories_of_rows(identities@.take(i as int)),
                attributes(&db) == Map::<Seq<u8>, AttributesEntryView>::empty(),
                db.named_identity.rows().len() == 0,
                forall|k: int| 0 <= k < i ==> is_identifier_text((#[trigger] identities@[k]).identifier@),
            decreases identities@.len() - i,
        {
            let row = &identities[i];
            let id = row.identifier()?;
            db.identity.put(id, row.change_history());
            proof {
                assert(identities@.take(i + 1).drop_last() =~= identities@.take(i as int));
                assert(histories(&db) =~= histories_of_rows(identities@.take(i + 1)));
            }
            i = i + 1;
        }
        assert(identities@.take(identities@.len() as int) =~= identities@);
        let mut j: usize = 0;
        while j < attribute_rows.len()
            invariant
                j <= attribute_rows@.len(),
                db.wf(),
                histories(&db) == histories_of_rows(identities@),
                history_rows_ok(identities@),
                attributes(&db) == attributes_of_rows(attribute_rows@.take(j as int)),
                db.named_identity.rows().len() == 0,
                forall|k: int| 0 <= k < j ==> is_identifier_text((#[trigger] attribute_rows@[k]).identifier@)
                    && entry_of_row(attribute_rows@[k]) is Some,
            decreases attribute_rows@.len() - j,
        {
            let row = &attribute_rows[j];
            let id = row.identifier()?;
            let entry = row.attributes()?;
            db.identity_attributes.put(id, entry);
            proof {
                assert(attribute_rows@.take(j + 1).drop_last() =~= attribute_rows@.take(j as int));
                assert(attributes(&db) =~= attributes_of_rows(attribute_rows@.take(j + 1)));
            }
            j = j + 1;
        }
        assert(attribute_rows@.take(attribute_rows@.len() as int) =~= attribute_rows@);
        let mut records: Vec<(String, Identifier)> = Vec::new();
        let mut default: Option<String> = None;
        let mut k: usize = 0;
        while k < names.len()
            invariant
                k <= names@.len(),
                db.wf(),
                histories(&db) == histories_of_rows(identities@),
                attributes(&db) == attributes_of_rows(attribute_rows@),
                history_rows_ok(identities@),
                attribute_rows_ok(attribute_rows@),
                records@.len() == k,
                forall|m: int| 0 <= m < k ==> is_identifier_text((#[trigger] names@[m]).identifier@),
                forall|m: int| 0 <= m < k ==> (#[trigger] records@[m]).0 == names@[m].name
                    && records@[m].1@ == identifier_bytes(names@[m].identifier@),
                default matches Some(d) ==> exists|f: int| 0 <= f < k && #[trigger] is_first_default(names@, f)
                    && d == names@[f].name,
                default is None ==> forall|m: int| 0 <= m < k ==> !(#[trigger] names@[m]).is_default,
            decreases names@.len() - k,
        {
            let row = &names[k];
            let identifier = row.identifier()?;
            if default.is_none() && row.is_default {
                default = Some(row.name.clone());
                proof { assert(is_first_default(names@, k as int)); }
            }
            records.push((row.name.clone(), identifier));
            k = k + 1;
        }
        proof {
            assert(names_loaded(records@, names@));
            if default is Some {
                let f = choose|f: int| 0 <= f < k && #[trigger] is_first_default(names@, f) && default->0 == names@[f].name;
                lemma_first_default_unique(names@, f);
            } else {
                assert(!exists|f: int| #[trigger] is_first_default(names@, f));
            }
        }
        let ghost stored = records@;
        let ghost marker = default;
        db.named_identity = NamedEntities::load("identity", StoredRecords { records, default });
        proof {
            reveal_strlit("identity");
            assert(names_loaded(stored, names@) && loaded_from(db.named_identity.rows(), stored, first_default_name(names@)));
        }
        Ok(db)
    }

    /// The rows of the `identity` table: one per stored identity.
    pub fn change_history_rows(&self) -> (r: Vec<ChangeHistoryRow>)
        requires
            self.wf(),
        ensures
            forall|i: int| 0 <= i < r@.len() ==> is_history_row(#[trigger] r@[i], histories(self)),
            forall|k: Seq<u8>| #[trigger] histories(self).contains_key(k) ==> exists|i: int| 0 <= i < r@.len()
                && #[trigger] history_row(r@[i], k, histories(self)),
    {
        let rows = self.identity.rows();
        let mut r: Vec<ChangeHistoryRow> = Vec::new();
        let mut i: usize = 0;
        while i < rows.len()
            invariant
                i <= rows@.len(),
                r@.len() == i,
                forall|j: int| 0 <= j < rows@.len() ==> self.identity.map().contains_key((#[trigger] rows@[j]).0@)
                    && self.identity.map()[rows@[j].0@] == rows@[j].1,
                forall|j: int| 0 <= j < i ==> (#[trigger] r@[j]).identifier@ == identifier_text(rows@[j].0@)
                    && r@[j].change_history@ == rows@[j].1@,
            decreases rows@.len() - i,
        {
            r.push(ChangeHistoryRow::new(&rows[i].0, &rows[i].1));
            i = i + 1;
        }
        proof {
            assert forall|j: int| 0 <= j < r@.len() implies is_history_row(#[trigger] r@[j], histories(self)) by {
                let k = rows@[j].0@;
                assert(history_row(r@[j], k, histories(self)));
            }
            assert forall|k: Seq<u8>| #[trigger] histories(self).contains_key(k) implies exists|j: int| 0 <= j < r@.len()
                && #[trigger] history_row(r@[j], k, histories(self)) by {
                assert(self.identity.map().contains_key(k));
                let j = choose|j: int| 0 <= j < rows@.len() && (#[trigger] rows@[j]).0@ == k;
                assert(history_row(r@[j], k, histories(self)));
            }
        }
        r
    }

    /// The rows of the `identity_attributes` table: one per subject.
    pub fn attribute_rows(&self) -> (r: Vec<IdentityAttributesRow>)
        requires
            self.wf(),
        ensures
            rows_hold_attributes(r@, self.identity_attributes.map()),
    {
        let rows = self.identity_attributes.rows();
        let mut r: Vec<IdentityAttributesRow> = Vec::new();
        let mut i: usize = 0;
        while i < rows.len()
            invariant
                i <= rows@.len(),
                r@.len() == i,
                forall|j: int| 0 <= j < rows@.len() ==> self.identity_attributes.map().contains_key((#[trigger] rows@[j]).0@)
                    && self.identity_attributes.map()[rows@[j].0@] == rows@[j].1,
                forall|j: int| 0 <= j < i ==> row_stores(#[trigger] r@[j], rows@[j].0@, rows@[j].1),
            decreases rows@.len() - i,
        {
            let row = IdentityAttributesRow::new(&rows[i].0, &rows[i].1);
            r.push(row);
            i = i + 1;
        }
        proof {
            let m = self.identity_attributes.map();
            assert forall|j: int| 0 <= j < r@.len() implies is_attribute_row(#[trigger] r@[j], m) by {
                let k = rows@[j].0@;
                assert(attribute_row(r@[j], k, m));
            }
            assert forall|k: Seq<u8>| #[trigger] m.contains_key(k) implies exists|j: int| 0 <= j < r@.len()
                && #[trigger] attribute_row(r@[j], k, m) by {
                let j = choose|j: int| 0 <= j < rows@.len() && (#[trigger] rows@[j]).0@ == k;
                assert(attribute_row(r@[j], k, m));
            }
            assert(rows_hold_attributes(r@, m));
        }
        r
    }

    /// The rows of the `named_identity` table, in order.
    pub fn named_identity_rows(&self) -> (r: Vec<NamedIdentityRow>)
        requires
            self.wf(),
        ensures
            r@.len() == self.named_identity.rows().len(),
            forall|i: int| 0 <= i < r@.len() ==> (#[trigger] r@[i]).identifier@ == identifier_text(
                self.named_identity.rows()[i].config@,
            ) && r@[i].name@ == self.named_identity.rows()[i].name@ && r@[i].is_default
                == self.named_identity.rows()[i].is_default,
    {
        let rows = self.named_identity.list();
        let mut r: Vec<NamedIdentityRow> = Vec::new();
        let mut i: usize = 0;
        while i < rows.len()
            invariant
                i <= rows@.len(),
                rows@ == self.named_identity.rows(),
                r@.len() == i,
                forall|j: int| 0 <= j < i ==> (#[trigger] r@[j]).identifier@ == identifier_text(rows@[j].config@)
                    && r@[j].name@ == rows@[j].name@ && r@[j].is_default == rows@[j].is_default,
            decreases rows@.len() - i,
        {
            r.push(NamedIdentityRow::new(&rows[i]));
            i = i + 1;
        }
        r
    }
}

} // verus!
