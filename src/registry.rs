//! A registry of named entities of one category, with at most one default.
use vstd::prelude::*;

use crate::error::{is_already_exists, is_not_found, CliStateError};

verus! {

/// One row of a registry: a unique name, its record, and whether it is the default.
#[derive(Debug, Clone, PartialEq, Eq)]
pub struct NamedEntity<T> {
    pub name: String,
    pub config: T,
    pub is_default: bool,
}

/// Some row of `rows` carries the name `name`.
pub open spec fn has_name<T>(rows: Seq<NamedEntity<T>>, name: Seq<char>) -> bool {
    exists|i: int| 0 <= i < rows.len() && (#[trigger] rows[i]).name@ == name
}

/// Some row of `rows` is marked as the default.
pub open spec fn has_default<T>(rows: Seq<NamedEntity<T>>) -> bool {
    exists|i: int| 0 <= i < rows.len() && (#[trigger] rows[i]).is_default
}

/// No two rows share a name.
pub open spec fn unique_names<T>(rows: Seq<NamedEntity<T>>) -> bool {
    forall|i: int, j: int|
        0 <= i < rows.len() && 0 <= j < rows.len() && i != j ==> (#[trigger] rows[i]).name@
            != (#[trigger] rows[j]).name@
}

/// At most one row is marked as the default.
pub open spec fn at_most_one_default<T>(rows: Seq<NamedEntity<T>>) -> bool {
    forall|i: int, j: int|
        0 <= i < rows.len() && 0 <= j < rows.len() && (#[trigger] rows[i]).is_default
            && (#[trigger] rows[j]).is_default ==> i == j
}

/// The registry invariant: unique names and at most one default.
pub open spec fn rows_wf<T>(rows: Seq<NamedEntity<T>>) -> bool {
    unique_names(rows) && at_most_one_default(rows)
}

/// The set of names held by `rows`.
pub open spec fn name_set<T>(rows: Seq<NamedEntity<T>>) -> Set<Seq<char>> {
    Set::new(|n: Seq<char>| has_name(rows, n))
}

/// The rows after creating `name` with `config`: appended at the end, and the
/// default exactly when no default existed before.
pub open spec fn created_rows<T>(rows: Seq<NamedEntity<T>>, new_row: NamedEntity<T>, name: Seq<char>, config: T) -> bool {
    new_row.name@ == name && new_row.config == config && new_row.is_default == !has_default(rows)
}

/// `after` is `before` with the default flag moved to exactly the row named `name`.
pub open spec fn default_moved<T>(before: Seq<NamedEntity<T>>, after: Seq<NamedEntity<T>>, name: Seq<char>) -> bool {
    &&& after.len() == before.len()
    &&& forall|i: int|
        0 <= i < before.len() ==> (#[trigger] after[i]).name == before[i].name && after[i].config
            == before[i].config && after[i].is_default == (before[i].name@ == name)
}

/// The row named `name`, given that one exists.
pub open spec fn row_named<T>(rows: Seq<NamedEntity<T>>, name: Seq<char>) -> NamedEntity<T>
    recommends
        has_name(rows, name),
{
    rows[choose|i: int| 0 <= i < rows.len() && (#[trigger] rows[i]).name@ == name]
}

/// The default row, given that one exists.
pub open spec fn default_row<T>(rows: Seq<NamedEntity<T>>) -> NamedEntity<T>
    recommends
        has_default(rows),
{
    rows[choose|i: int| 0 <= i < rows.len() && (#[trigger] rows[i]).is_default]
}

/// In rows with unique names, the row at `i` is the one named by its name.
pub proof fn lemma_row_named<T>(rows: Seq<NamedEntity<T>>, i: int)
    requires
        unique_names(rows),
        0 <= i < rows.len(),
    ensures
        has_name(rows, rows[i].name@),
        row_named(rows, rows[i].name@) == rows[i],
{
    assert(rows[i].name@ == rows[i].name@);
    let j = choose|j: int| 0 <= j < rows.len() && (#[trigger] rows[j]).name@ == rows[i].name@;
    assert(i == j);
}

/// In rows with at most one default, the default row at `i` is the default row.
pub proof fn lemma_default_row<T>(rows: Seq<NamedEntity<T>>, i: int)
    requires
        at_most_one_default(rows),
        0 <= i < rows.len(),
        rows[i].is_default,
    ensures
        has_default(rows),
        default_row(rows) == rows[i],
{
    let j = choose|j: int| 0 <= j < rows.len() && (#[trigger] rows[j]).is_default;
    assert(i == j);
}

/// What one call of `create` (when `create` is true) or `delete` (otherwise)
/// with `name` does to the rows, as their contracts state it, on success or
/// failure.
pub open spec fn step_holds<T>(before: Seq<NamedEntity<T>>, after: Seq<NamedEntity<T>>, create: bool, name: Seq<char>) -> bool {
    if create {
        ||| has_name(before, name) && after == before
        ||| {
            &&& !has_name(before, name)
            &&& after.len() == before.len() + 1
            &&& after.drop_last() == before
            &&& after.last().name@ == name
            &&& after.last().is_default == !has_default(before)
        }
    } else {
        ||| !has_name(before, name) && after == before
        ||| exists|i: int| 0 <= i < before.len() && (#[trigger] before[i]).name@ == name && after == before.remove(i)
    }
}

/// The names that survive the steps `steps` (creations and deletions) from `names`.
pub open spec fn surviving(names: Set<Seq<char>>, steps: Seq<(bool, Seq<char>)>) -> Set<Seq<char>>
    decreases steps.len(),
{
    if steps.len() == 0 {
        names
    } else {
        let prev = surviving(names, steps.drop_last());
        let (create, name) = steps.last();
        if create { prev.insert(name) } else { prev.remove(name) }
    }
}

proof fn lemma_create_step<T>(before: Seq<NamedEntity<T>>, after: Seq<NamedEntity<T>>, name: Seq<char>)
    requires
        rows_wf(before),
        step_holds(before, after, true, name),
    ensures
        rows_wf(after),
        name_set(after) == name_set(before).insert(name),
{
    if !has_name(before, name) {
        let n = before.len() as int;
        assert forall|i: int| 0 <= i < n implies (#[trigger] after[i]) == before[i] by {
            assert(after.drop_last()[i] == after[i]);
        }
        assert forall|i: int, j: int|
            0 <= i < after.len() && 0 <= j < after.len() && i != j implies (#[trigger] after[i]).name@
                != (#[trigger] after[j]).name@ by {
            if i == n {
                assert(before[j] == after[j]);
            } else if j == n {
                assert(before[i] == after[i]);
            }
        }
        assert forall|i: int, j: int|
            0 <= i < after.len() && 0 <= j < after.len() && (#[trigger] after[i]).is_default
                && (#[trigger] after[j]).is_default implies i == j by {
            if i == n && j != n {
                assert(before[j] == after[j]);
            } else if j == n && i != n {
                assert(before[i] == after[i]);
            }
        }
        assert forall|m: Seq<char>| #[trigger] has_name(after, m) <==> has_name(before, m) || m == name by {
            if has_name(after, m) {
                let k = choose|k: int| 0 <= k < after.len() && (#[trigger] after[k]).name@ == m;
                if k < n {
                    assert(before[k] == after[k]);
                }
            }
            if has_name(before, m) {
                let k = choose|k: int| 0 <= k < before.len() && (#[trigger] before[k]).name@ == m;
                assert(after[k] == before[k]);
            }
            if m == name {
                assert(after[n].name@ == m);
            }
        }
        assert(name_set(after) =~= name_set(before).insert(name));
    } else {
        assert(name_set(after) =~= name_set(before).insert(name));
    }
}

pub proof fn lemma_delete_step<T>(before: Seq<NamedEntity<T>>, after: Seq<NamedEntity<T>>, name: Seq<char>)
    requires
        rows_wf(before),
        step_holds(before, after, false, name),
    ensures
        rows_wf(after),
        name_set(after) == name_set(before).remove(name),
{
    if has_name(before, name) && after != before {
        let i = choose|i: int| 0 <= i < before.len() && (#[trigger] before[i]).name@ == name && after == before.remove(i);
        assert forall|k: int| 0 <= k < after.len() implies (#[trigger] after[k]) == before[if k < i { k } else { k + 1 }] by {}
        assert forall|a: int, b: int|
            0 <= a < after.len() && 0 <= b < after.len() && a != b implies (#[trigger] after[a]).name@
                != (#[trigger] after[b]).name@ by {
            let a1 = if a < i { a } else { a + 1 };
            let b1 = if b < i { b } else { b + 1 };
            assert(after[a] == before[a1] && after[b] == before[b1]);
        }
        assert forall|a: int, b: int|
            0 <= a < after.len() && 0 <= b < after.len() && (#[trigger] after[a]).is_default
                && (#[trigger] after[b]).is_default implies a == b by {
            let a1 = if a < i { a } else { a + 1 };
            let b1 = if b < i { b } else { b + 1 };
            assert(after[a] == before[a1] && after[b] == before[b1]);
        }
        assert forall|m: Seq<char>| #[trigger] has_name(after, m) <==> has_name(before, m) && m != name by {
            if has_name(after, m) {
                let k = choose|k: int| 0 <= k < after.len() && (#[trigger] after[k]).name@ == m;
                let k1 = if k < i { k } else { k + 1 };
                assert(after[k] == before[k1]);
                assert(k1 != i);
            }
            if has_name(before, m) && m != name {
                let k = choose|k: int| 0 <= k < before.len() && (#[trigger] before[k]).name@ == m;
                assert(k != i);
                let k0 = if k < i { k } else { k - 1 };
                assert(after[k0] == before[k]);
            }
        }
        assert(name_set(after) =~= name_set(before).remove(name));
    } else if has_name(before, name) {
        let i = choose|i: int| 0 <= i < before.len() && (#[trigger] before[i]).name@ == name && after == before.remove(i);
        assert(after.len() == before.len() - 1);
    } else {
        assert(name_set(after) =~= name_set(before).remove(name));
    }
}

/// Over any run of `create` and `delete` calls on a registry, every state
/// holds exactly the names that survive the calls made so far, with names
/// unique and at most one default.
pub proof fn lemma_registry_run<T>(states: Seq<Seq<NamedEntity<T>>>, steps: Seq<(bool, Seq<char>)>)
    requires
        states.len() == steps.len() + 1,
        rows_wf(states[0]),
        forall|k: int| 0 <= k < steps.len() ==> step_holds(#[trigger] states[k], states[k + 1], steps[k].0, steps[k].1),
    ensures
        forall|k: int| 0 <= k < states.len() ==> rows_wf(#[trigger] states[k])
            && name_set(states[k]) == surviving(name_set(states[0]), steps.take(k)),
    decreases steps.len(),
{
    if steps.len() == 0 {
        assert(steps.take(0) =~= steps);
    } else {
        let n = steps.len() - 1;
        lemma_registry_run(states.drop_last(), steps.drop_last());
        assert forall|k: int| 0 <= k < states.len() implies rows_wf(#[trigger] states[k])
            && name_set(states[k]) == surviving(name_set(states[0]), steps.take(k)) by {
            if k < states.len() - 1 {
                assert(states.drop_last()[k] == states[k]);
                assert(steps.drop_last().take(k) =~= steps.take(k));
            } else {
                assert(states.drop_last()[n] == states[n]);
                assert(steps.drop_last().take(n) =~= steps.take(n));
                assert(steps.take(k).drop_last() =~= steps.take(n));
                assert(step_holds(states[n], states[n + 1], steps[n].0, steps[n].1));
                if steps[n].0 {
                    lemma_create_step(states[n], states[n + 1], steps[n].1);
                } else {
                    lemma_delete_step(states[n], states[n + 1], steps[n].1);
                }
            }
        }
    }
}

/// After the default flag moves to `name` (by `set_as_default_by_name`), the
/// default entity is the one named `name`; a second move to another name `other`
/// leaves `other` as the default and `name` no longer.
pub proof fn lemma_set_default_then_get<T>(
    rows: Seq<NamedEntity<T>>,
    after: Seq<NamedEntity<T>>,
    name: Seq<char>,
    after_other: Seq<NamedEntity<T>>,
    other: Seq<char>,
)
    requires
        rows_wf(rows),
        has_name(rows, name),
        default_moved(rows, after, name),
        has_name(after, other),
        default_moved(after, after_other, other),
    ensures
        rows_wf(after),
        has_default(after),
        default_row(after).name@ == name,
        has_default(after_other),
        default_row(after_other).name@ == other,
        other != name ==> !row_named(after_other, name).is_default,
{
    lemma_default_moved_wf(rows, after, name);
    lemma_default_moved_wf(after, after_other, other);
    if other != name {
        let i = choose|i: int| 0 <= i < rows.len() && (#[trigger] rows[i]).name@ == name;
        assert(after[i].name == rows[i].name);
        assert(after_other[i].name == after[i].name);
        lemma_row_named(after_other, i);
    }
}

/// Moving the default flag to an existing name keeps the invariant, and the
/// row named `name` is then the default.
pub proof fn lemma_default_moved_wf<T>(rows: Seq<NamedEntity<T>>, after: Seq<NamedEntity<T>>, name: Seq<char>)
    requires
        rows_wf(rows),
        has_name(rows, name),
        default_moved(rows, after, name),
    ensures
        rows_wf(after),
        has_default(after),
        default_row(after).name@ == name,
        name_set(after) == name_set(rows),
{
    let i = choose|i: int| 0 <= i < rows.len() && (#[trigger] rows[i]).name@ == name;
    assert(after[i].is_default);
    assert forall|a: int, b: int|
        0 <= a < after.len() && 0 <= b < after.len() && a != b implies (#[trigger] after[a]).name@
            != (#[trigger] after[b]).name@ by {
        assert(after[a].name == rows[a].name && after[b].name == rows[b].name);
    }
    assert forall|a: int, b: int|
        0 <= a < after.len() && 0 <= b < after.len() && (#[trigger] after[a]).is_default
            && (#[trigger] after[b]).is_default implies a == b by {
        assert(after[a].name == rows[a].name && after[b].name == rows[b].name);
    }
    lemma_default_row(after, i);
    assert forall|m: Seq<char>| #[trigger] has_name(after, m) <==> has_name(rows, m) by {
        if has_name(after, m) {
            let k = choose|k: int| 0 <= k < after.len() && (#[trigger] after[k]).name@ == m;
            assert(after[k].name == rows[k].name);
        }
        if has_name(rows, m) {
            let k = choose|k: int| 0 <= k < rows.len() && (#[trigger] rows[k]).name@ == m;
            assert(after[k].name == rows[k].name);
        }
    }
    assert(name_set(after) =~= name_set(rows));
}

/// The records of one category found in the trust-state directory: each
/// name with its record, and the name that the defaults marker holds.
pub struct StoredRecords<T> {
    pub records: Vec<(String, T)>,
    pub default: Option<String>,
}

/// A row as its name, its record and its default flag.
pub open spec fn entry_view<T>(e: NamedEntity<T>) -> (Seq<char>, T, bool) {
    (e.name@, e.config, e.is_default)
}

/// The rows as names, records and default flags, in order.
pub open spec fn rows_view<T>(rows: Seq<NamedEntity<T>>) -> Seq<(Seq<char>, T, bool)> {
    rows.map_values(|e: NamedEntity<T>| entry_view(e))
}

/// Some row of a viewed registry carries the name `n`.
pub open spec fn view_has_name<T>(v: Seq<(Seq<char>, T, bool)>, n: Seq<char>) -> bool {
    exists|i: int| 0 <= i < v.len() && (#[trigger] v[i]).0 == n
}

/// `put` on a viewed registry: the row named `n` takes the record `c` and
/// keeps its place and flag; a new name is appended, not as the default.
pub open spec fn put_view<T>(v: Seq<(Seq<char>, T, bool)>, n: Seq<char>, c: T) -> Seq<(Seq<char>, T, bool)> {
    if view_has_name(v, n) {
        let i = choose|i: int| 0 <= i < v.len() && (#[trigger] v[i]).0 == n;
        v.update(i, (n, c, v[i].2))
    } else {
        v.push((n, c, false))
    }
}

/// The viewed registry that `put` of each record in turn builds from empty.
pub open spec fn records_view<T>(records: Seq<(String, T)>) -> Seq<(Seq<char>, T, bool)>
    decreases records.len(),
{
    if records.len() == 0 {
        Seq::empty()
    } else {
        put_view(records_view(records.drop_last()), records.last().0@, records.last().1)
    }
}

/// The viewed registry with the default moved to the row named by the
/// marker, when a row carries that name; unchanged otherwise.
pub open spec fn with_default<T>(v: Seq<(Seq<char>, T, bool)>, default: Option<String>) -> Seq<(Seq<char>, T, bool)> {
    match default {
        Some(d) => if view_has_name(v, d@) {
            v.map_values(|e: (Seq<char>, T, bool)| (e.0, e.1, e.0 == d@))
        } else {
            v
        },
        None => v,
    }
}

/// The record at `m` is the last one stored for its name.
pub open spec fn is_last_record<T>(records: Seq<(String, T)>, m: int) -> bool {
    0 <= m < records.len() && forall|k: int| m < k < records.len() ==> (#[trigger] records[k]).0@ != records[m].0@
}

/// `rows` are what loading `records` and the marker `default` gives: each
/// stored name once, in order of first storing, with the last record stored
/// for it; the default is the name of the marker when a record carries it,
/// else there is none.
pub open spec fn loaded_from<T>(rows: Seq<NamedEntity<T>>, records: Seq<(String, T)>, default: Option<String>) -> bool {
    &&& rows_wf(rows)
    &&& rows_view(rows) == with_default(records_view(records), default)
    &&& forall|n: Seq<char>| #[trigger] has_name(rows, n) <==> exists|m: int|
        0 <= m < records.len() && (#[trigger] records[m]).0@ == n
    &&& forall|m: int| #[trigger] is_last_record(records, m) ==> has_name(rows, records[m].0@)
        && row_named(rows, records[m].0@).config == records[m].1
    &&& match default {
        Some(d) => if has_name(rows, d@) {
            has_default(rows) && default_row(rows).name@ == d@
        } else {
            !has_default(rows)
        },
        None => !has_default(rows),
    }
}

/// What `put` states of the rows before and after it, viewed.
proof fn lemma_put_view<T>(before: Seq<NamedEntity<T>>, after: Seq<NamedEntity<T>>, name: Seq<char>, config: T)
    requires
        rows_wf(before),
        has_name(before, name) ==> {
            &&& after.len() == before.len()
            &&& forall|i: int|
                0 <= i < before.len() ==> (#[trigger] after[i]).name == before[i].name && after[i].is_default
                    == before[i].is_default && after[i].config == (if before[i].name@ == name {
                    config
                } else {
                    before[i].config
                })
        },
        !has_name(before, name) ==> {
            &&& after.len() == before.len() + 1
            &&& after.drop_last() == before
            &&& after.last().name@ == name
            &&& after.last().config == config
            &&& !after.last().is_default
        },
    ensures
        rows_view(after) == put_view(rows_view(before), name, config),
{
    let v = rows_view(before);
    if has_name(before, name) {
        let k = choose|k: int| 0 <= k < before.len() && (#[trigger] before[k]).name@ == name;
        assert(v[k].0 == name);
        assert(view_has_name(v, name));
        let i = choose|i: int| 0 <= i < v.len() && (#[trigger] v[i]).0 == name;
        assert(before[i].name@ == name);
        assert forall|j: int| 0 <= j < after.len() implies (#[trigger] rows_view(after)[j]) == v.update(i, (name, config, v[i].2))[j] by {
            if j != i {
                assert(before[j].name@ != before[i].name@);
            }
        }
        assert(rows_view(after) =~= v.update(i, (name, config, v[i].2)));
    } else {
        assert(!view_has_name(v, name)) by {
            if view_has_name(v, name) {
                let i = choose|i: int| 0 <= i < v.len() && (#[trigger] v[i]).0 == name;
                assert(before[i].name@ == name);
            }
        }
        assert forall|j: int| 0 <= j < before.len() implies (#[trigger] after[j]) == before[j] by {
            assert(after.drop_last()[j] == after[j]);
        }
        assert(rows_view(after) =~= v.push((name, config, false)));
    }
}

/// The names of a viewed registry are those of its rows.
proof fn lemma_view_names<T>(rows: Seq<NamedEntity<T>>, n: Seq<char>)
    ensures
        view_has_name(rows_view(rows), n) == has_name(rows, n),
{
    if has_name(rows, n) {
        let k = choose|k: int| 0 <= k < rows.len() && (#[trigger] rows[k]).name@ == n;
        assert(rows_view(rows)[k].0 == n);
    }
    if view_has_name(rows_view(rows), n) {
        let k = choose|k: int| 0 <= k < rows_view(rows).len() && (#[trigger] rows_view(rows)[k]).0 == n;
        assert(rows[k].name@ == n);
    }
}

/// In the view that loading builds, the last record of each name stands in
/// the row of that name.
proof fn lemma_records_view_last<T>(records: Seq<(String, T)>, m: int)
    requires
        is_last_record(records, m),
    ensures
        exists|i: int| 0 <= i < records_view(records).len() && (#[trigger] records_view(records)[i]).0
            == records[m].0@ && records_view(records)[i].1 == records[m].1,
    decreases records.len(),
{
    let prev = records.drop_last();
    let v = records_view(prev);
    let last = records.len() - 1;
    assert(records.last() == records[last]);
    if m == last {
        if view_has_name(v, records[m].0@) {
            let i = choose|i: int| 0 <= i < v.len() && (#[trigger] v[i]).0 == records[m].0@;
            assert(records_view(records)[i].0 == records[m].0@);
        } else {
            assert(records_view(records)[v.len() as int].0 == records[m].0@);
        }
    } else {
        assert forall|k: int| m < k < prev.len() implies (#[trigger] prev[k]).0@ != prev[m].0@ by {
            assert(prev[k] == records[k]);
        }
        assert(prev[m] == records[m]);
        lemma_records_view_last(prev, m);
        let i = choose|i: int| 0 <= i < v.len() && (#[trigger] v[i]).0 == records[m].0@ && v[i].1 == records[m].1;
        assert(records[last].0@ != records[m].0@);
        if view_has_name(v, records[last].0@) {
            let j = choose|j: int| 0 <= j < v.len() && (#[trigger] v[j]).0 == records[last].0@;
            assert(j != i);
            assert(records_view(records)[i] == v[i]);
        } else {
            assert(records_view(records)[i] == v[i]);
        }
    }
}

impl<T> NamedEntities<T> {
    /// The registry of the category `resource` holding the stored records; a
    /// later record for a name replaces an earlier one, and a marker naming
    /// no record is ignored.
    pub fn load(resource: &str, stored: StoredRecords<T>) -> (r: Self)
        ensures
            r.wf(),
            r.resource() == resource@,
            loaded_from(r.rows(), stored.records@, stored.default),
    {
        let StoredRecords { records, default } = stored;
        let ghost all = records@;
        let mut records = records;
        let mut r = NamedEntities::new(resource);
        let mut i: usize = 0;
        let total: usize = records.len();
        assert(all.len() == total);
        assert(all.skip(0) =~= all);
        assert(rows_view(r.rows()) =~= records_view(all.take(0)));
        while records.len() > 0
            invariant
                r.wf(),
                r.resource() == resource@,
                records@ == all.skip(i as int),
                i <= all.len() <= usize::MAX,
                !has_default(r.rows()),
                rows_view(r.rows()) == records_view(all.take(i as int)),
                forall|n: Seq<char>| #[trigger] has_name(r.rows(), n) <==> exists|m: int|
                    0 <= m < i && (#[trigger] all[m]).0@ == n,
            decreases records@.len(),
        {
            let (name, config) = records.remove(0);
            proof { assert(all[i as int] == all.skip(i as int)[0]); }
            let ghost before = r.rows();
            r.put(name.as_str(), config);
            proof {
                lemma_put_view(before, r.rows(), name@, config);
                assert(all.take(i + 1).drop_last() =~= all.take(i as int));
                assert(all.take(i + 1).last() == all[i as int]);
                assert(records@ =~= all.skip(i + 1));
                assert forall|n: Seq<char>| #[trigger] has_name(r.rows(), n) <==> exists|m: int|
                    0 <= m < i + 1 && (#[trigger] all[m]).0@ == n by {
                    if n == name@ {
                        assert(all[i as int].0@ == n);
                    }
                }
            }
            i = i + 1;
        }
        proof {
            assert(i == all.len());
            assert(all.take(i as int) =~= all);
        }
        let ghost loaded = r.rows();
        match default {
            Some(d) => {
                let result = r.set_as_default_by_name(d.as_str());
                proof {
                    lemma_view_names(loaded, d@);
                    if result is Ok {
                        lemma_default_moved_wf(loaded, r.rows(), d@);
                        assert forall|n: Seq<char>| #[trigger] has_name(r.rows(), n) <==> has_name(loaded, n) by {
                            assert(name_set(r.rows()).contains(n) == name_set(loaded).contains(n));
                        }
                        assert(rows_view(r.rows()) =~= rows_view(loaded).map_values(
                            |e: (Seq<char>, T, bool)| (e.0, e.1, e.0 == d@),
                        ));
                    }
                }
            },
            None => {},
        }
        proof {
            let rows = r.rows();
            assert forall|m: int| #[trigger] is_last_record(all, m) implies has_name(rows, all[m].0@)
                && row_named(rows, all[m].0@).config == all[m].1 by {
                lemma_records_view_last(all, m);
                let v = with_default(records_view(all), default);
                let i = choose|i: int| 0 <= i < records_view(all).len() && (#[trigger] records_view(all)[i]).0
                    == all[m].0@ && records_view(all)[i].1 == all[m].1;
                assert(v[i].0 == all[m].0@ && v[i].1 == all[m].1);
                assert(rows_view(rows)[i] == v[i]);
                assert(rows[i].name@ == all[m].0@);
                lemma_row_named(rows, i);
            }
        }
        r
    }
}

/// A registry of named entities of one category (vaults, spaces, projects, ...).
/// Names are unique and at most one entity is the default.
pub struct NamedEntities<T> {
    resource: String,
    entities: Vec<NamedEntity<T>>,
}

impl<T> NamedEntities<T> {
    /// The registry invariant, which every operation preserves.
    pub open spec fn wf(&self) -> bool {
        rows_wf(self.rows())
    }

    /// The rows, in order of creation.
    pub closed spec fn rows(&self) -> Seq<NamedEntity<T>> {
        self.entities@
    }

    /// The category named in errors ("vault", "space", ...).
    pub closed spec fn resource(&self) -> Seq<char> {
        self.resource@
    }

    /// An empty registry for the category `resource`.
    pub fn new(resource: &str) -> (r: Self)
        ensures
            r.rows() == Seq::<NamedEntity<T>>::empty(),
            r.resource() == resource@,
            rows_wf(r.rows()),
    {
        NamedEntities { resource: resource.to_string(), entities: Vec::new() }
    }

    /// The position of the row named `name`, if any.
    fn position(&self, name: &str) -> (r: Option<usize>)
        ensures
            r is None <==> !has_name(self.rows(), name@),
            r matches Some(i) ==> i < self.rows().len() && self.rows()[i as int].name@ == name@,
    {
        let target = name.to_string();
        let mut i: usize = 0;
        while i < self.entities.len()
            invariant
                i <= self.entities@.len(),
                target@ == name@,
                forall|k: int| 0 <= k < i ==> (#[trigger] self.entities@[k]).name@ != name@,
            decreases self.entities@.len() - i,
        {
            if self.entities[i].name == target {
                return Some(i);
            }
            i = i + 1;
        }
        None
    }

    /// The position of the default row, if any.
    fn default_position(&self) -> (r: Option<usize>)
        ensures
            r is None <==> !has_default(self.rows()),
            r matches Some(i) ==> i < self.rows().len() && self.rows()[i as int].is_default,
    {
        let mut i: usize = 0;
        while i < self.entities.len()
            invariant
                i <= self.entities@.len(),
                forall|k: int| 0 <= k < i ==> !(#[trigger] self.entities@[k]).is_default,
            decreases self.entities@.len() - i,
        {
            if self.entities[i].is_default {
                return Some(i);
            }
            i = i + 1;
        }
        None
    }
    /// Adds `name` with `config`. The new entity becomes the default when no
    /// default exists yet. Fails with `AlreadyExists` when the name is taken.
    pub fn create(&mut self, name: &str, config: T) -> (r: Result<(), CliStateError>)
        requires
            old(self).wf(),
        ensures
            rows_wf(final(self).rows()),
            final(self).resource() == old(self).resource(),
            r is Ok <==> !has_name(old(self).rows(), name@),
            r is Err ==> is_already_exists(r, old(self).resource(), name@)
                && final(self).rows() == old(self).rows(),
            r is Ok ==> {
                &&& final(self).rows().len() == old(self).rows().len() + 1
                &&& final(self).rows().drop_last() == old(self).rows()
                &&& created_rows(old(self).rows(), final(self).rows().last(), name@, config)
            },
            step_holds(old(self).rows(), final(self).rows(), true, name@),
    {
        if self.position(name).is_some() {
            return Err(CliStateError::already_exists(self.resource.as_str(), name));
        }
        let is_default = self.default_position().is_none();
        let row = NamedEntity { name: name.to_string(), config, is_default };
        self.entities.push(row);
        proof {
            let rows = self.entities@;
            assert(rows.drop_last() =~= old(self).entities@);
        }
        Ok(())
    }

    /// Adds `name` with `config` as an entity that is not the default.
    /// Fails with `AlreadyExists`, changing nothing, when the name is taken.
    pub fn add(&mut self, name: &str, config: T) -> (r: Result<(), CliStateError>)
        requires
            old(self).wf(),
        ensures
            rows_wf(final(self).rows()),
            final(self).resource() == old(self).resource(),
            r is Ok <==> !has_name(old(self).rows(), name@),
            r is Err ==> is_already_exists(r, old(self).resource(), name@)
                && final(self).rows() == old(self).rows(),
            r is Ok ==> {
                &&& final(self).rows().len() == old(self).rows().len() + 1
                &&& final(self).rows().drop_last() == old(self).rows()
                &&& final(self).rows().last().name@ == name@
                &&& final(self).rows().last().config == config
                &&& !final(self).rows().last().is_default
            },
    {
        if self.position(name).is_some() {
            return Err(CliStateError::already_exists(self.resource.as_str(), name));
        }
        self.entities.push(NamedEntity { name: name.to_string(), config, is_default: false });
        assert(self.entities@.drop_last() =~= old(self).entities@);
        Ok(())
    }

    /// Associates `name` with `config`: an existing entity keeps its place and
    /// its default flag and takes the new record; a new name is added at the
    /// end, not as the default.
    pub fn put(&mut self, name: &str, config: T)
        requires
            old(self).wf(),
        ensures
            rows_wf(final(self).rows()),
            final(self).resource() == old(self).resource(),
            has_name(old(self).rows(), name@) ==> {
                &&& final(self).rows().len() == old(self).rows().len()
                &&& forall|i: int|
                    0 <= i < old(self).rows().len() ==> (#[trigger] final(self).rows()[i]).name
                        == old(self).rows()[i].name && final(self).rows()[i].is_default
                        == old(self).rows()[i].is_default && final(self).rows()[i].config == (
                    if old(self).rows()[i].name@ == name@ {
                        config
                    } else {
                        old(self).rows()[i].config
                    })
            },
            !has_name(old(self).rows(), name@) ==> {
                &&& final(self).rows().len() == old(self).rows().len() + 1
                &&& final(self).rows().drop_last() == old(self).rows()
                &&& final(self).rows().last().name@ == name@
                &&& final(self).rows().last().config == config
                &&& !final(self).rows().last().is_default
            },
            forall|n: Seq<char>| #[trigger] has_name(final(self).rows(), n) <==> has_name(old(self).rows(), n) || n == name@,
            has_default(final(self).rows()) == has_default(old(self).rows()),
    {
        match self.position(name) {
            Some(i) => {
                let is_default = self.entities[i].is_default;
                let row_name = self.entities[i].name.clone();
                self.entities.set(i, NamedEntity { name: row_name, config, is_default });
                assert forall|k: int| 0 <= k < old(self).entities@.len() && k != i implies
                    (#[trigger] old(self).entities@[k]).name@ != name@ by {}
                assert forall|n: Seq<char>| #[trigger] has_name(self.entities@, n) <==> has_name(old(self).entities@, n) || n == name@ by {
                    if has_name(self.entities@, n) {
                        let a = choose|a: int| 0 <= a < self.entities@.len() && (#[trigger] self.entities@[a]).name@ == n;
                        assert(old(self).entities@[a].name == self.entities@[a].name);
                    }
                    if has_name(old(self).entities@, n) {
                        let a = choose|a: int| 0 <= a < old(self).entities@.len() && (#[trigger] old(self).entities@[a]).name@ == n;
                        assert(old(self).entities@[a].name == self.entities@[a].name);
                    }
                    if n == name@ {
                        assert(self.entities@[i as int].name@ == n);
                    }
                }
                assert(has_default(self.entities@) == has_default(old(self).entities@)) by {
                    if has_default(self.entities@) {
                        let a = choose|a: int| 0 <= a < self.entities@.len() && (#[trigger] self.entities@[a]).is_default;
                        assert(old(self).entities@[a].is_default);
                    }
                    if has_default(old(self).entities@) {
                        let a = choose|a: int| 0 <= a < old(self).entities@.len() && (#[trigger] old(self).entities@[a]).is_default;
                        assert(self.entities@[a].is_default);
                    }
                }
            },
            None => {
                self.entities.push(NamedEntity { name: name.to_string(), config, is_default: false });
                assert(self.entities@.drop_last() =~= old(self).entities@);
                let ghost last: int = self.entities@.len() - 1;
                assert forall|n: Seq<char>| #[trigger] has_name(self.entities@, n) <==> has_name(old(self).entities@, n) || n == name@ by {
                    if has_name(self.entities@, n) {
                        let a = choose|a: int| 0 <= a < self.entities@.len() && (#[trigger] self.entities@[a]).name@ == n;
                        if a < last {
                            assert(old(self).entities@[a] == self.entities@[a]);
                        }
                    }
                    if has_name(old(self).entities@, n) {
                        let a = choose|a: int| 0 <= a < old(self).entities@.len() && (#[trigger] old(self).entities@[a]).name@ == n;
                        assert(old(self).entities@[a] == self.entities@[a]);
                    }
                    if n == name@ {
                        assert(self.entities@[last].name@ == n);
                    }
                }
                assert(has_default(self.entities@) == has_default(old(self).entities@)) by {
                    if has_default(self.entities@) {
                        let a = choose|a: int| 0 <= a < self.entities@.len() && (#[trigger] self.entities@[a]).is_default;
                        assert(a != last);
                        assert(old(self).entities@[a] == self.entities@[a]);
                    }
                    if has_default(old(self).entities@) {
                        let a = choose|a: int| 0 <= a < old(self).entities@.len() && (#[trigger] old(self).entities@[a]).is_default;
                        assert(old(self).entities@[a] == self.entities@[a]);
                    }
                }
            },
        }
    }

    /// The entity named `name`; `ResourceNotFound` when there is none.
    pub fn get(&self, name: &str) -> (r: Result<&NamedEntity<T>, CliStateError>)
        requires
            self.wf(),
        ensures
            rows_wf(self.rows()),
            r is Ok <==> has_name(self.rows(), name@),
            r matches Ok(e) ==> *e == row_named(self.rows(), name@),
            r is Err ==> is_not_found(r, self.resource(), name@),
    {
        match self.position(name) {
            Some(i) => {
                proof { lemma_row_named(self.entities@, i as int); }
                Ok(&self.entities[i])
            },
            None => Err(CliStateError::not_found(self.resource.as_str(), name)),
        }
    }

    /// The default entity; `ResourceNotFound` when no default is set.
    pub fn get_default(&self) -> (r: Result<&NamedEntity<T>, CliStateError>)
        requires
            self.wf(),
        ensures
            rows_wf(self.rows()),
            r is Ok <==> has_default(self.rows()),
            r matches Ok(e) ==> *e == default_row(self.rows()) && e.is_default,
            r is Err ==> is_not_found(r, self.resource(), "default"@),
    {
        match self.default_position() {
            Some(i) => {
                proof { lemma_default_row(self.entities@, i as int); }
                Ok(&self.entities[i])
            },
            None => Err(CliStateError::not_found(self.resource.as_str(), "default")),
        }
    }

    /// The name of the default entity; `ResourceNotFound` when no default is set.
    pub fn get_default_name(&self) -> (r: Result<String, CliStateError>)
        requires
            self.wf(),
        ensures
            r is Ok <==> has_default(self.rows()),
            r matches Ok(n) ==> n@ == default_row(self.rows()).name@,
            r is Err ==> is_not_found(r, self.resource(), "default"@),
    {
        match self.get_default() {
            Ok(e) => Ok(e.name.clone()),
            Err(e) => Err(e),
        }
    }

    /// Whether the entity named `name` exists and is the default.
    pub fn is_default(&self, name: &str) -> (r: bool)
        requires
            self.wf(),
        ensures
            r == (has_name(self.rows(), name@) && row_named(self.rows(), name@).is_default),
    {
        match self.get(name) {
            Ok(e) => e.is_default,
            Err(_) => false,
        }
    }

    /// Makes the entity named `name` the one default, and every other entity
    /// not a default, in one step. `ResourceNotFound` when there is no such
    /// entity, which leaves the registry unchanged.
    pub fn set_as_default_by_name(&mut self, name: &str) -> (r: Result<(), CliStateError>)
        requires
            old(self).wf(),
        ensures
            rows_wf(final(self).rows()),
            final(self).resource() == old(self).resource(),
            r is Ok <==> has_name(old(self).rows(), name@),
            r is Ok ==> default_moved(old(self).rows(), final(self).rows(), name@),
            r is Err ==> is_not_found(r, old(self).resource(), name@)
                && final(self).rows() == old(self).rows(),
    {
        let target = match self.position(name) {
            Some(t) => t,
            None => { return Err(CliStateError::not_found(self.resource.as_str(), name)); },
        };
        let ghost before = self.entities@;
        let ghost resource = self.resource@;
        let mut i: usize = 0;
        while i < self.entities.len()
            invariant
                self.entities@.len() == before.len(),
                self.resource@ == resource,
                0 <= target < before.len(),
                before[target as int].name@ == name@,
                unique_names(before),
                i <= self.entities@.len(),
                forall|k: int|
                    0 <= k < self.entities@.len() ==> (#[trigger] self.entities@[k]).name == before[k].name
                        && self.entities@[k].config == before[k].config,
                forall|k: int| 0 <= k < i ==> (#[trigger] self.entities@[k]).is_default == (k == target),
                forall|k: int| i <= k < self.entities@.len() ==> (#[trigger] self.entities@[k]).is_default == before[k].is_default,
            decreases self.entities@.len() - i,
        {
            self.entities[i].is_default = i == target;
            i = i + 1;
        }
        proof {
            assert forall|k: int| 0 <= k < self.entities@.len() implies (#[trigger] self.entities@[k]).is_default
                == (before[k].name@ == name@) by {
                if k != target {
                    assert(before[k].name@ != before[target as int].name@);
                }
            }
        }
        Ok(())
    }

    /// Removes the entity named `name`. Removing the default leaves the
    /// registry without one. `ResourceNotFound` when there is no such entity.
    pub fn delete(&mut self, name: &str) -> (r: Result<(), CliStateError>)
        requires
            old(self).wf(),
        ensures
            rows_wf(final(self).rows()),
            final(self).resource() == old(self).resource(),
            r is Ok <==> has_name(old(self).rows(), name@),
            r is Ok ==> forall|i: int|
                0 <= i < old(self).rows().len() && (#[trigger] old(self).rows()[i]).name@ == name@
                    ==> final(self).rows() == old(self).rows().remove(i),
            r is Err ==> is_not_found(r, old(self).resource(), name@)
                && final(self).rows() == old(self).rows(),
            step_holds(old(self).rows(), final(self).rows(), false, name@),
    {
        match self.position(name) {
            Some(i) => {
                let _removed = self.entities.remove(i);
                proof {
                    assert forall|j: int|
                        0 <= j < old(self).entities@.len() && (#[trigger] old(self).entities@[j]).name@ == name@
                        implies j == i as int by {}
                }
                Ok(())
            },
            None => Err(CliStateError::not_found(self.resource.as_str(), name)),
        }
    }

    /// All entities, in order of creation.
    pub fn list(&self) -> (r: &Vec<NamedEntity<T>>)
        requires
            self.wf(),
        ensures
            r@ == self.rows(),
            rows_wf(self.rows()),
    {
        &self.entities
    }

    /// The number of entities.
    pub fn len(&self) -> (r: usize)
        ensures
            r == self.rows().len(),
    {
        self.entities.len()
    }
}

} // verus!
