//! A table of rows keyed by identifier, at most one row per identifier.
use vstd::prelude::*;

use crate::identifier::Identifier;

verus! {

/// Rows keyed by identifier; its content is a map from identifier bytes to values.
pub struct Table<V> {
    rows: Vec<(Identifier, V)>,
    content: Ghost<Map<Seq<u8>, V>>,
}

impl<V> Table<V> {
    /// The content of the table.
    pub closed spec fn map(&self) -> Map<Seq<u8>, V> {
        self.content@
    }

    /// The rows hold exactly the content, one row per identifier.
    pub closed spec fn wf(&self) -> bool {
        &&& forall|i: int, j: int|
            0 <= i < self.rows@.len() && 0 <= j < self.rows@.len() && i != j ==> (#[trigger] self.rows@[i]).0@
                != (#[trigger] self.rows@[j]).0@
        &&& forall|i: int|
            0 <= i < self.rows@.len() ==> self.content@.contains_key((#[trigger] self.rows@[i]).0@)
                && self.content@[self.rows@[i].0@] == self.rows@[i].1
        &&& forall|k: Seq<u8>|
            #[trigger] self.content@.contains_key(k) ==> exists|i: int|
                0 <= i < self.rows@.len() && (#[trigger] self.rows@[i]).0@ == k
    }

    /// An empty table.
    pub fn new() -> (r: Self)
        ensures
            r.wf(),
            r.map() == Map::<Seq<u8>, V>::empty(),
    {
        Table { rows: Vec::new(), content: Ghost(Map::empty()) }
    }

    fn position(&self, id: &Identifier) -> (r: Option<usize>)
        requires
            self.wf(),
        ensures
            r is None <==> !self.map().contains_key(id@),
            r matches Some(i) ==> i < self.rows@.len() && self.rows@[i as int].0@ == id@,
    {
        let mut i: usize = 0;
        while i < self.rows.len()
            invariant
                self.wf(),
                i <= self.rows@.len(),
                forall|k: int| 0 <= k < i ==> (#[trigger] self.rows@[k]).0@ != id@,
            decreases self.rows@.len() - i,
        {
            if self.rows[i].0.same(id) {
                return Some(i);
            }
            i = i + 1;
        }
        None
    }

    /// The value stored for `id`, if any.
    pub fn get(&self, id: &Identifier) -> (r: Option<&V>)
        requires
            self.wf(),
        ensures
            r is Some <==> self.map().contains_key(id@),
            r matches Some(v) ==> *v == self.map()[id@],
    {
        match self.position(id) {
            Some(i) => Some(&self.rows[i].1),
            None => None,
        }
    }

    /// Whether a value is stored for `id`.
    pub fn contains(&self, id: &Identifier) -> (r: bool)
        requires
            self.wf(),
        ensures
            r == self.map().contains_key(id@),
    {
        self.position(id).is_some()
    }

    /// Stores `value` for `id`, replacing any value stored before.
    pub fn put(&mut self, id: Identifier, value: V)
        requires
            old(self).wf(),
        ensures
            final(self).wf(),
            final(self).map() == old(self).map().insert(id@, value),
    {
        let ghost key = id@;
        let ghost new_content = self.content@.insert(key, value);
        match self.position(&id) {
            Some(i) => {
                self.rows.set(i, (id, value));
                self.content = Ghost(new_content);
                assert forall|k: Seq<u8>| #[trigger] self.content@.contains_key(k) implies exists|j: int|
                    0 <= j < self.rows@.len() && (#[trigger] self.rows@[j]).0@ == k by {
                    if k != key {
                        let j = choose|j: int| 0 <= j < old(self).rows@.len() && (#[trigger] old(self).rows@[j]).0@ == k;
                        assert(self.rows@[j] == old(self).rows@[j]);
                    } else {
                        assert(self.rows@[i as int].0@ == k);
                    }
                }
            },
            None => {
                self.rows.push((id, value));
                self.content = Ghost(new_content);
                let ghost n: int = self.rows@.len() - 1;
                assert forall|k: Seq<u8>| #[trigger] self.content@.contains_key(k) implies exists|j: int|
                    0 <= j < self.rows@.len() && (#[trigger] self.rows@[j]).0@ == k by {
                    if k != key {
                        let j = choose|j: int| 0 <= j < old(self).rows@.len() && (#[trigger] old(self).rows@[j]).0@ == k;
                        assert(self.rows@[j] == old(self).rows@[j]);
                    } else {
                        assert(self.rows@[n].0@ == k);
                    }
                }
                assert forall|a: int, b: int|
                    0 <= a < self.rows@.len() && 0 <= b < self.rows@.len() && a != b implies (#[trigger] self.rows@[a]).0@
                        != (#[trigger] self.rows@[b]).0@ by {
                    if a == n {
                        assert(old(self).content@.contains_key(self.rows@[b].0@));
                    } else if b == n {
                        assert(old(self).content@.contains_key(self.rows@[a].0@));
                    }
                }
            },
        }
    }

    /// Removes the value stored for `id`, if any, and returns it.
    pub fn remove(&mut self, id: &Identifier) -> (r: Option<V>)
        requires
            old(self).wf(),
        ensures
            final(self).wf(),
            final(self).map() == old(self).map().remove(id@),
            r is Some <==> old(self).map().contains_key(id@),
            r matches Some(v) ==> v == old(self).map()[id@],
    {
        match self.position(id) {
            Some(i) => {
                let (_key, value) = self.rows.remove(i);
                self.content = Ghost(self.content@.remove(id@));
                assert forall|j: int| 0 <= j < self.rows@.len() implies (#[trigger] self.rows@[j]) == old(self).rows@[if j < i { j } else { j + 1 }] by {}
                assert forall|a: int, b: int|
                    0 <= a < self.rows@.len() && 0 <= b < self.rows@.len() && a != b implies (#[trigger] self.rows@[a]).0@
                        != (#[trigger] self.rows@[b]).0@ by {
                    let a1 = if a < i { a } else { a + 1 };
                    let b1 = if b < i { b } else { b + 1 };
                    assert(self.rows@[a] == old(self).rows@[a1] && self.rows@[b] == old(self).rows@[b1]);
                }
                assert forall|j: int| 0 <= j < self.rows@.len() implies self.content@.contains_key((#[trigger] self.rows@[j]).0@)
                    && self.content@[self.rows@[j].0@] == self.rows@[j].1 by {
                    let j1 = if j < i { j } else { j + 1 };
                    assert(self.rows@[j] == old(self).rows@[j1]);
                    assert(j1 != i);
                }
                assert forall|k: Seq<u8>| #[trigger] self.content@.contains_key(k) implies exists|j: int|
                    0 <= j < self.rows@.len() && (#[trigger] self.rows@[j]).0@ == k by {
                    let j = choose|j: int| 0 <= j < old(self).rows@.len() && (#[trigger] old(self).rows@[j]).0@ == k;
                    assert(j != i);
                    let j0 = if j < i { j } else { j - 1 };
                    assert(self.rows@[j0] == old(self).rows@[j]);
                }
                Some(value)
            },
            None => {
                assert(self.content@.remove(id@) =~= self.content@);
                None
            },
        }
    }

    /// The rows, one per stored identifier.
    pub fn rows(&self) -> (r: &Vec<(Identifier, V)>)
        requires
            self.wf(),
        ensures
            forall|i: int| 0 <= i < r@.len() ==> self.map().contains_key((#[trigger] r@[i]).0@)
                && self.map()[r@[i].0@] == r@[i].1,
            forall|k: Seq<u8>| #[trigger] self.map().contains_key(k) ==> exists|i: int|
                0 <= i < r@.len() && (#[trigger] r@[i]).0@ == k,
            forall|i: int, j: int|
                0 <= i < r@.len() && 0 <= j < r@.len() && i != j ==> (#[trigger] r@[i]).0@ != (#[trigger] r@[j]).0@,
    {
        &self.rows
    }
}

} // verus!
