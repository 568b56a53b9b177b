//! Identities, their change histories, and attested attribute entries.
use vstd::prelude::*;

use crate::identifier::Identifier;

verus! {

/// The signed key-rotation chain of an identity, held as the bytes it is
/// exported to and imported from.
#[derive(Debug, Clone, PartialEq, Eq)]
pub struct ChangeHistory {
    data: Vec<u8>,
}

impl View for ChangeHistory {
    type V = Seq<u8>;

    closed spec fn view(&self) -> Seq<u8> {
        self.data@
    }
}

impl ChangeHistory {
    /// The change history held by `data`, bit for bit.
    pub fn import(data: &[u8]) -> (r: ChangeHistory)
        ensures
            r@ == data@,
    {
        ChangeHistory { data: vstd::slice::slice_to_vec(data) }
    }

    /// The bytes of the change history, bit for bit.
    pub fn export(&self) -> (r: Vec<u8>)
        ensures
            r@ == self@,
    {
        self.data.clone()
    }

    /// A copy of the change history.
    pub fn copy(&self) -> (r: ChangeHistory)
        ensures
            r@ == self@,
    {
        ChangeHistory { data: self.data.clone() }
    }
}

/// An identity: its identifier and the change history that defines its keys.
#[derive(Debug, Clone, PartialEq, Eq)]
pub struct Identity {
    identifier: Identifier,
    change_history: ChangeHistory,
}

impl View for Identity {
    type V = (Seq<u8>, Seq<u8>);

    closed spec fn view(&self) -> (Seq<u8>, Seq<u8>) {
        (self.identifier@, self.change_history@)
    }
}

impl Identity {
    /// The identity with `identifier` whose chain is `change_history`.
    pub fn new(identifier: Identifier, change_history: ChangeHistory) -> (r: Identity)
        ensures
            r@ == (identifier@, change_history@),
    {
        Identity { identifier, change_history }
    }

    /// The identifier.
    pub fn identifier(&self) -> (r: &Identifier)
        ensures
            r@ == self@.0,
    {
        &self.identifier
    }

    /// The change history.
    pub fn change_history(&self) -> (r: &ChangeHistory)
        ensures
            r@ == self@.1,
    {
        &self.change_history
    }

    /// The bytes of the change history, from which the identity can be imported again.
    pub fn export(&self) -> (r: Vec<u8>)
        ensures
            r@ == self@.1,
    {
        self.change_history.export()
    }
}

/// A point in time, in seconds since the Unix epoch.
#[derive(Debug, Clone, Copy, PartialEq, Eq, Structural)]
pub struct TimestampInSeconds(pub u64);

/// The attribute map that a list of name/value pairs stands for: a later pair
/// for a name overrides an earlier one.
pub open spec fn pairs_map(pairs: Seq<(Vec<u8>, Vec<u8>)>) -> Map<Seq<u8>, Seq<u8>>
    decreases pairs.len(),
{
    if pairs.len() == 0 {
        Map::empty()
    } else {
        pairs_map(pairs.drop_last()).insert(pairs.last().0@, pairs.last().1@)
    }
}

/// The mathematical content of an attribute entry.
pub struct AttributesEntryView {
    pub attrs: Map<Seq<u8>, Seq<u8>>,
    pub added: u64,
    pub expires: Option<u64>,
    pub attested_by: Option<Seq<u8>>,
}

/// The attested attributes of one subject: name/value pairs, when they were
/// added, when they expire, and who attested them. No two pairs share a name.
#[derive(Debug, PartialEq, Eq)]
pub struct AttributesEntry {
    attrs: Vec<(Vec<u8>, Vec<u8>)>,
    added: TimestampInSeconds,
    expires: Option<TimestampInSeconds>,
    attested_by: Option<Identifier>,
}

/// No two pairs share a name.
pub open spec fn keys_unique(pairs: Seq<(Vec<u8>, Vec<u8>)>) -> bool {
    forall|i: int, j: int|
        0 <= i < pairs.len() && 0 <= j < pairs.len() && i != j ==> (#[trigger] pairs[i]).0@ != (#[trigger] pairs[j]).0@
}

/// `pairs` with `name` set to `value`: the pair for `name`, if any, is
/// dropped and the new pair is appended.
fn with_pair(pairs: &Vec<(Vec<u8>, Vec<u8>)>, name: Vec<u8>, value: Vec<u8>) -> (r: Vec<(Vec<u8>, Vec<u8>)>)
    requires
        keys_unique(pairs@),
    ensures
        keys_unique(r@),
        pairs_map(r@) == pairs_map(pairs@).insert(name@, value@),
{
    let mut attrs: Vec<(Vec<u8>, Vec<u8>)> = Vec::new();
    let mut i: usize = 0;
    while i < pairs.len()
        invariant
            i <= pairs@.len(),
            keys_unique(pairs@),
            keys_unique(attrs@),
            pairs_map(attrs@) == pairs_map(pairs@.take(i as int)).remove(name@),
            forall|j: int| 0 <= j < attrs@.len() ==> (#[trigger] attrs@[j]).0@ != name@ && exists|m: int|
                0 <= m < i && attrs@[j].0@ == (#[trigger] pairs@[m]).0@,
        decreases pairs@.len() - i,
    {
        let ghost before = attrs@;
        assert(pairs@.take(i + 1).drop_last() =~= pairs@.take(i as int));
        if !bytes_equal(pairs[i].0.as_slice(), name.as_slice()) {
            attrs.push((pairs[i].0.clone(), pairs[i].1.clone()));
            assert(attrs@.drop_last() =~= before);
            assert(pairs_map(attrs@) =~= pairs_map(pairs@.take(i + 1)).remove(name@));
            proof {
                let n: int = attrs@.len() - 1;
                assert forall|a: int, b: int|
                    0 <= a < attrs@.len() && 0 <= b < attrs@.len() && a != b implies (#[trigger] attrs@[a]).0@
                        != (#[trigger] attrs@[b]).0@ by {
                    if a == n && b != n {
                        assert(attrs@[b] == before[b]);
                        let m = choose|m: int| 0 <= m < i && before[b].0@ == (#[trigger] pairs@[m]).0@;
                        assert(pairs@[m].0@ != pairs@[i as int].0@);
                    } else if b == n && a != n {
                        assert(attrs@[a] == before[a]);
                        let m = choose|m: int| 0 <= m < i && before[a].0@ == (#[trigger] pairs@[m]).0@;
                        assert(pairs@[m].0@ != pairs@[i as int].0@);
                    } else if a != n && b != n {
                        assert(attrs@[a] == before[a] && attrs@[b] == before[b]);
                    }
                }
                assert forall|j: int| 0 <= j < attrs@.len() implies (#[trigger] attrs@[j]).0@ != name@ && exists|m: int|
                    0 <= m < i + 1 && attrs@[j].0@ == (#[trigger] pairs@[m]).0@ by {
                    if j < n {
                        assert(attrs@[j] == before[j]);
                        let m = choose|m: int| 0 <= m < i && before[j].0@ == (#[trigger] pairs@[m]).0@;
                        assert(attrs@[j].0@ == pairs@[m].0@);
                    } else {
                        assert(attrs@[j].0@ == pairs@[i as int].0@);
                    }
                }
            }
        } else {
            assert(pairs_map(attrs@) =~= pairs_map(pairs@.take(i + 1)).remove(name@));
            assert forall|j: int| 0 <= j < attrs@.len() implies (#[trigger] attrs@[j]).0@ != name@ && exists|m: int|
                0 <= m < i + 1 && attrs@[j].0@ == (#[trigger] pairs@[m]).0@ by {
                let m = choose|m: int| 0 <= m < i && attrs@[j].0@ == (#[trigger] pairs@[m]).0@;
                assert(attrs@[j].0@ == pairs@[m].0@);
            }
        }
        i = i + 1;
    }
    assert(pairs@.take(pairs@.len() as int) =~= pairs@);
    let ghost before = attrs@;
    attrs.push((name, value));
    assert(attrs@.drop_last() =~= before);
    assert(pairs_map(attrs@) =~= pairs_map(pairs@).insert(name@, value@));
    proof {
        let n: int = attrs@.len() - 1;
        assert forall|a: int, b: int|
            0 <= a < attrs@.len() && 0 <= b < attrs@.len() && a != b implies (#[trigger] attrs@[a]).0@
                != (#[trigger] attrs@[b]).0@ by {
            if a != n {
                assert(attrs@[a] == before[a]);
            }
            if b != n {
                assert(attrs@[b] == before[b]);
            }
        }
    }
    attrs
}

impl View for AttributesEntry {
    type V = AttributesEntryView;

    closed spec fn view(&self) -> AttributesEntryView {
        AttributesEntryView {
            attrs: pairs_map(self.attrs@),
            added: self.added.0,
            expires: match self.expires {
                Some(t) => Some(t.0),
                None => None,
            },
            attested_by: match self.attested_by {
                Some(i) => Some(i@),
                None => None,
            },
        }
    }
}

impl AttributesEntry {
    #[verifier::type_invariant]
    spec fn inv(&self) -> bool {
        keys_unique(self.attrs@)
    }

    /// An entry with the pairs `attrs` (a later pair for a name overrides an
    /// earlier one), added at `added`, expiring at `expires`, attested by
    /// `attested_by`.
    pub fn new(
        attrs: Vec<(Vec<u8>, Vec<u8>)>,
        added: TimestampInSeconds,
        expires: Option<TimestampInSeconds>,
        attested_by: Option<Identifier>,
    ) -> (r: AttributesEntry)
        ensures
            r@.attrs == pairs_map(attrs@),
            r@.added == added.0,
            r@.expires == (match expires {
                Some(t) => Some(t.0),
                None => None::<u64>,
            }),
            r@.attested_by == (match attested_by {
                Some(i) => Some(i@),
                None => None::<Seq<u8>>,
            }),
    {
        let mut pairs: Vec<(Vec<u8>, Vec<u8>)> = Vec::new();
        let mut i: usize = 0;
        while i < attrs.len()
            invariant
                i <= attrs@.len(),
                keys_unique(pairs@),
                pairs_map(pairs@) == pairs_map(attrs@.take(i as int)),
            decreases attrs@.len() - i,
        {
            assert(attrs@.take(i + 1).drop_last() =~= attrs@.take(i as int));
            pairs = with_pair(&pairs, attrs[i].0.clone(), attrs[i].1.clone());
            i = i + 1;
        }
        assert(attrs@.take(attrs@.len() as int) =~= attrs@);
        AttributesEntry { attrs: pairs, added, expires, attested_by }
    }

    /// A copy of the entry.
    pub fn copy(&self) -> (r: AttributesEntry)
        ensures
            r@ == self@,
    {
        proof { use_type_invariant(self); }
        let mut attrs: Vec<(Vec<u8>, Vec<u8>)> = Vec::new();
        let mut i: usize = 0;
        while i < self.attrs.len()
            invariant
                i <= self.attrs@.len(),
                keys_unique(self.attrs@),
                attrs@.len() == i,
                forall|j: int| 0 <= j < i ==> (#[trigger] attrs@[j]).0@ == self.attrs@[j].0@,
                pairs_map(attrs@) == pairs_map(self.attrs@.take(i as int)),
            decreases self.attrs@.len() - i,
        {
            let ghost before = attrs@;
            assert(self.attrs@.take(i + 1).drop_last() =~= self.attrs@.take(i as int));
            attrs.push((self.attrs[i].0.clone(), self.attrs[i].1.clone()));
            assert(attrs@.drop_last() =~= before);
            i = i + 1;
        }
        assert(self.attrs@.take(self.attrs@.len() as int) =~= self.attrs@);
        assert(keys_unique(attrs@)) by {
            assert forall|a: int, b: int|
                0 <= a < attrs@.len() && 0 <= b < attrs@.len() && a != b implies (#[trigger] attrs@[a]).0@
                    != (#[trigger] attrs@[b]).0@ by {
                assert(self.attrs@[a].0@ != self.attrs@[b].0@);
            }
        }
        let attested_by = match &self.attested_by {
            Some(id) => Some(id.copy()),
            None => None,
        };
        AttributesEntry { attrs, added: self.added, expires: self.expires, attested_by }
    }

    /// The name/value pairs as they are held, in order.
    pub closed spec fn attrs_view(&self) -> Seq<(Vec<u8>, Vec<u8>)> {
        self.attrs@
    }

    /// The name/value pairs.
    pub fn attrs(&self) -> (r: &Vec<(Vec<u8>, Vec<u8>)>)
        ensures
            r@ == self.attrs_view(),
            pairs_map(r@) == self@.attrs,
            keys_unique(r@),
    {
        proof { use_type_invariant(self); }
        &self.attrs
    }

    /// When the attributes were added.
    pub fn added(&self) -> (r: TimestampInSeconds)
        ensures
            r.0 == self@.added,
    {
        self.added
    }

    /// When the attributes expire, if they do.
    pub fn expires(&self) -> (r: Option<TimestampInSeconds>)
        ensures
            r matches Some(t) ==> self@.expires == Some(t.0),
            r is None ==> self@.expires is None,
    {
        self.expires
    }

    /// Who attested the attributes, if anyone did.
    pub fn attested_by(&self) -> (r: Option<Identifier>)
        ensures
            r matches Some(i) ==> self@.attested_by == Some(i@),
            r is None ==> self@.attested_by is None,
    {
        match &self.attested_by {
            Some(i) => Some(i.copy()),
            None => None,
        }
    }

    /// The value of the attribute `name`, if the entry has one.
    pub fn get(&self, name: &[u8]) -> (r: Option<&Vec<u8>>)
        ensures
            r is Some <==> self@.attrs.contains_key(name@),
            r matches Some(v) ==> v@ == self@.attrs[name@],
    {
        let mut i: usize = self.attrs.len();
        while i > 0
            invariant
                i <= self.attrs@.len(),
                forall|k: int| i <= k < self.attrs@.len() ==> (#[trigger] self.attrs@[k]).0@ != name@,
            decreases i,
        {
            if bytes_equal(self.attrs[i - 1].0.as_slice(), name) {
                proof {
                    lemma_pairs_map_suffix(self.attrs@, i as int, name@);
                    assert(self.attrs@.take(i as int).drop_last() =~= self.attrs@.take(i - 1));
                }
                return Some(&self.attrs[i - 1].1);
            }
            i = i - 1;
        }
        proof {
            lemma_pairs_map_suffix(self.attrs@, 0, name@);
            assert(self.attrs@.take(0) =~= Seq::<(Vec<u8>, Vec<u8>)>::empty());
        }
        None
    }

    /// The entry with `name` set to `value`, added at `now` and attested by
    /// `subject`, the rest of the attributes kept.
    pub fn with_attribute(&self, name: Vec<u8>, value: Vec<u8>, now: TimestampInSeconds, subject: &Identifier) -> (r: AttributesEntry)
        ensures
            r@.attrs == self@.attrs.insert(name@, value@),
            r@.added == now.0,
            r@.expires is None,
            r@.attested_by == Some(subject@),
    {
        proof { use_type_invariant(self); }
        let attrs = with_pair(&self.attrs, name, value);
        AttributesEntry {
            attrs,
            added: now,
            expires: None,
            attested_by: Some(subject.copy()),
        }
    }
}

/// When no pair from `i` on names `name`, the pairs before `i` alone decide
/// the value of `name`.
proof fn lemma_pairs_map_suffix(pairs: Seq<(Vec<u8>, Vec<u8>)>, i: int, name: Seq<u8>)
    requires
        0 <= i <= pairs.len(),
        forall|k: int| i <= k < pairs.len() ==> (#[trigger] pairs[k]).0@ != name,
    ensures
        pairs_map(pairs).contains_key(name) == pairs_map(pairs.take(i)).contains_key(name),
        pairs_map(pairs).contains_key(name) ==> pairs_map(pairs)[name] == pairs_map(pairs.take(i))[name],
    decreases pairs.len(),
{
    if i == pairs.len() {
        assert(pairs.take(i) =~= pairs);
    } else {
        let rest = pairs.drop_last();
        assert(pairs.last() == pairs[pairs.len() - 1]);
        assert forall|k: int| i <= k < rest.len() implies (#[trigger] rest[k]).0@ != name by {
            assert(rest[k] == pairs[k]);
        }
        lemma_pairs_map_suffix(rest, i, name);
        assert(rest.take(i) =~= pairs.take(i));
    }
}

/// Whether two byte strings are equal.
pub fn bytes_equal(a: &[u8], b: &[u8]) -> (r: bool)
    ensures
        r == (a@ == b@),
{
    if a.len() != b.len() {
        return false;
    }
    let mut i: usize = 0;
    while i < a.len()
        invariant
            a@.len() == b@.len(),
            i <= a@.len(),
            forall|k: int| 0 <= k < i ==> a@[k] == b@[k],
        decreases a@.len() - i,
    {
        if a[i] != b[i] {
            return false;
        }
        i = i + 1;
    }
    assert(a@ =~= b@);
    true
}

} // verus!
