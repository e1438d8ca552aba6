//! Sequences of entries with names.
use crate::text::{
    lemma_precedes_irreflexive, lemma_precedes_total, lemma_precedes_transitive, precedes,
};
use vstd::prelude::*;

verus! {

/// The first place from `i` on whose name does not come before `name`.
pub open spec fn entry_place<V>(m: Seq<(Seq<char>, V)>, name: Seq<char>, i: nat) -> nat
    decreases m.len() - i,
{
    if i < m.len() && precedes(m[i as int].0, name) {
        entry_place(m, name, i + 1)
    } else {
        i
    }
}

/// Entries with one more, in its place; an entry with the same name there gives
/// way to it.
pub open spec fn entry_insert<V>(m: Seq<(Seq<char>, V)>, name: Seq<char>, v: V) -> Seq<
    (Seq<char>, V),
> {
    let i = entry_place(m, name, 0) as int;
    if i < m.len() && m[i].0 == name {
        m.update(i, (name, v))
    } else {
        m.insert(i, (name, v))
    }
}

/// The value of the first entry from `i` on with a name.
pub open spec fn entry_find<V>(m: Seq<(Seq<char>, V)>, name: Seq<char>, i: nat) -> Option<V>
    decreases m.len() - i,
{
    if i >= m.len() {
        None
    } else if m[i as int].0 == name {
        Some(m[i as int].1)
    } else {
        entry_find(m, name, i + 1)
    }
}

/// The place of the first entry from `i` on with a name.
pub open spec fn entry_index<V>(m: Seq<(Seq<char>, V)>, name: Seq<char>, i: nat) -> Option<nat>
    decreases m.len() - i,
{
    if i >= m.len() {
        None
    } else if m[i as int].0 == name {
        Some(i)
    } else {
        entry_index(m, name, i + 1)
    }
}

/// Entries without the first that has a name.
pub open spec fn entry_remove<V>(m: Seq<(Seq<char>, V)>, name: Seq<char>) -> Seq<(Seq<char>, V)> {
    match entry_index(m, name, 0) {
        Some(i) => m.remove(i as int),
        None => m,
    }
}

/// Whether no name occurs twice.
pub open spec fn distinct_names<V>(m: Seq<(Seq<char>, V)>) -> bool {
    forall|i: int, j: int| 0 <= i < j < m.len() ==> (#[trigger] m[i]).0 != (#[trigger] m[j]).0
}

pub proof fn lemma_entry_index<V>(m: Seq<(Seq<char>, V)>, name: Seq<char>, i: nat)
    ensures
        match entry_index(m, name, i) {
            Some(k) => i <= k < m.len() && m[k as int].0 == name && entry_find(m, name, i) == Some(
                m[k as int].1,
            ) && forall|j: int| i <= j < k ==> (#[trigger] m[j]).0 != name,
            None => entry_find(m, name, i) is None && forall|j: int|
                i <= j < m.len() ==> (#[trigger] m[j]).0 != name,
        },
    decreases m.len() - i,
{
    if i < m.len() && m[i as int].0 != name {
        lemma_entry_index(m, name, i + 1);
    }
}

/// No entry is found where none has the name.
pub proof fn lemma_not_found<V>(m: Seq<(Seq<char>, V)>, name: Seq<char>, i: nat)
    requires
        forall|j: int| i <= j < m.len() ==> (#[trigger] m[j]).0 != name,
    ensures
        entry_find(m, name, i) is None,
    decreases m.len() - i,
{
    if i < m.len() {
        lemma_not_found(m, name, i + 1);
    }
}

/// An entry is found where it is the first with the name.
pub proof fn lemma_found_at<V>(m: Seq<(Seq<char>, V)>, name: Seq<char>, i: nat, k: nat)
    requires
        i <= k < m.len(),
        m[k as int].0 == name,
        forall|j: int| i <= j < k ==> (#[trigger] m[j]).0 != name,
    ensures
        entry_find(m, name, i) == Some(m[k as int].1),
    decreases k - i,
{
    if i < k {
        lemma_found_at(m, name, i + 1, k);
    }
}

/// An entry that is added under a new name is found there; all others stay.
pub proof fn lemma_entry_push<V>(m: Seq<(Seq<char>, V)>, name: Seq<char>, v: V, other: Seq<char>)
    requires
        entry_find(m, name, 0) is None,
    ensures
        entry_find(m.push((name, v)), name, 0) == Some(v),
        other != name ==> entry_find(m.push((name, v)), other, 0) == entry_find(m, other, 0),
        distinct_names(m) ==> distinct_names(m.push((name, v))),
{
    let r = m.push((name, v));
    lemma_entry_index(m, name, 0);
    lemma_found_at(r, name, 0, m.len());
    lemma_entry_index(m, other, 0);
    match entry_index(m, other, 0) {
        Some(k) => {
            lemma_found_at(r, other, 0, k);
        },
        None => {
            if other != name {
                lemma_not_found(r, other, 0);
            }
        },
    }
}

/// An entry that is removed is gone; all others stay.
pub proof fn lemma_entry_remove<V>(m: Seq<(Seq<char>, V)>, name: Seq<char>, other: Seq<char>)
    requires
        distinct_names(m),
    ensures
        entry_find(entry_remove(m, name), name, 0) is None,
        other != name ==> entry_find(entry_remove(m, name), other, 0) == entry_find(m, other, 0),
        distinct_names(entry_remove(m, name)),
{
    let r = entry_remove(m, name);
    lemma_entry_index(m, name, 0);
    lemma_entry_index(m, other, 0);
    match entry_index(m, name, 0) {
        None => {},
        Some(i) => {
            assert forall|j: int| 0 <= j < r.len() implies (#[trigger] r[j]).0 != name by {
                if j < i {
                    assert(r[j] == m[j]);
                } else {
                    assert(r[j] == m[j + 1]);
                }
            }
            lemma_not_found(r, name, 0);
            if other != name {
                match entry_index(m, other, 0) {
                    Some(k) => {
                        let at: nat = if k < i { k } else { (k - 1) as nat };
                        assert forall|j: int| 0 <= j < at implies (#[trigger] r[j]).0 != other by {
                            if j < i {
                                assert(r[j] == m[j]);
                            } else {
                                assert(r[j] == m[j + 1]);
                            }
                        }
                        lemma_found_at(r, other, 0, at);
                    },
                    None => {
                        assert forall|j: int| 0 <= j < r.len() implies (#[trigger] r[j]).0
                            != other by {
                            if j < i {
                                assert(r[j] == m[j]);
                            } else {
                                assert(r[j] == m[j + 1]);
                            }
                        }
                        lemma_not_found(r, other, 0);
                    },
                }
            }
        },
    }
}

/// What a value was put under gives it back; what is under other names stays.
pub proof fn lemma_entry_insert<V>(m: Seq<(Seq<char>, V)>, name: Seq<char>, v: V, other: Seq<char>)
    ensures
        entry_find(entry_insert(m, name, v), name, 0) == Some(v),
        other != name ==> entry_find(entry_insert(m, name, v), other, 0) == entry_find(m, other, 0),
{
    let at = entry_place(m, name, 0);
    lemma_entry_place(m, name, 0);
    lemma_find_inserted(m, name, v, 0);
    if other != name {
        lemma_find_other(m, name, v, other, 0);
    }
}

pub proof fn lemma_entry_place<V>(m: Seq<(Seq<char>, V)>, name: Seq<char>, i: nat)
    requires
        i <= m.len(),
    ensures
        i <= entry_place(m, name, i) <= m.len(),
        forall|j: int| i <= j < entry_place(m, name, i) ==> precedes((#[trigger] m[j]).0, name),
        entry_place(m, name, i) < m.len() ==> !precedes(
            m[entry_place(m, name, i) as int].0,
            name,
        ),
    decreases m.len() - i,
{
    if i < m.len() && precedes(m[i as int].0, name) {
        lemma_entry_place(m, name, i + 1);
    }
}

proof fn lemma_find_inserted<V>(m: Seq<(Seq<char>, V)>, name: Seq<char>, v: V, i: nat)
    requires
        i <= entry_place(m, name, 0),
    ensures
        entry_find(entry_insert(m, name, v), name, i) == Some(v),
    decreases entry_place(m, name, 0) - i,
{
    lemma_entry_place(m, name, 0);
    let at = entry_place(m, name, 0);
    if i < at {
        lemma_precedes_irreflexive(name);
        assert(precedes(m[i as int].0, name));
        lemma_find_inserted(m, name, v, i + 1);
    }
}

proof fn lemma_find_other<V>(
    m: Seq<(Seq<char>, V)>,
    name: Seq<char>,
    v: V,
    other: Seq<char>,
    i: nat,
)
    requires
        other != name,
        i <= m.len(),
    ensures
        ({
            let at = entry_place(m, name, 0);
            let r = entry_insert(m, name, v);
            let grown = r.len() > m.len();
            entry_find(r, other, if grown && i > at { (i + 1) as nat } else { i }) == entry_find(
                m,
                other,
                i,
            )
        }),
    decreases m.len() - i,
{
    lemma_entry_place(m, name, 0);
    let at = entry_place(m, name, 0);
    let r = entry_insert(m, name, v);
    reveal_with_fuel(entry_find, 3);
    if i < m.len() {
        lemma_find_other(m, name, v, other, i + 1);
        if r.len() > m.len() && i == at {
            assert(r[i as int].0 == name);
            assert(r[i as int + 1] == m[i as int]);
        }
    } else if r.len() > m.len() && i == at {
        assert(r[i as int].0 == name);
    }
}

/// Whether each name precedes those behind it.
pub open spec fn names_ascend<V>(m: Seq<(Seq<char>, V)>) -> bool {
    forall|i: int, j: int|
        0 <= i < j < m.len() ==> precedes((#[trigger] m[i]).0, (#[trigger] m[j]).0)
}

/// Entries stay in the order of their names when one is put in its place.
pub proof fn lemma_insert_ascends<V>(m: Seq<(Seq<char>, V)>, name: Seq<char>, v: V)
    requires
        names_ascend(m),
    ensures
        names_ascend(entry_insert(m, name, v)),
{
    let at = entry_place(m, name, 0) as int;
    let r = entry_insert(m, name, v);
    lemma_entry_place(m, name, 0);
    if at < m.len() {
        lemma_precedes_total(m[at].0, name);
    }
    assert forall|i: int, j: int| 0 <= i < j < r.len() implies precedes(
        (#[trigger] r[i]).0,
        (#[trigger] r[j]).0,
    ) by {
        if r.len() == m.len() {
            assert(r[i].0 == m[i].0 && r[j].0 == m[j].0);
        } else {
            let x: int = if i < at { i } else { i - 1 };
            let y: int = if j < at { j } else { j - 1 };
            if i == at {
                if y > at {
                    assert(precedes(m[at].0, m[y].0));
                    lemma_precedes_transitive(name, m[at].0, m[y].0);
                }
            } else if j == at {
                assert(precedes(m[i].0, name));
            } else {
                assert(r[i] == m[x] && r[j] == m[y]);
            }
        }
    }
}

/// An entry whose name all others precede is put behind them.
pub proof fn lemma_insert_last<V>(m: Seq<(Seq<char>, V)>, name: Seq<char>, v: V)
    requires
        forall|i: int| 0 <= i < m.len() ==> precedes((#[trigger] m[i]).0, name),
    ensures
        entry_insert(m, name, v) == m.push((name, v)),
{
    lemma_place_last(m, name, 0);
    assert(m.insert(m.len() as int, (name, v)) =~= m.push((name, v)));
}

proof fn lemma_place_last<V>(m: Seq<(Seq<char>, V)>, name: Seq<char>, i: nat)
    requires
        i <= m.len(),
        forall|j: int| 0 <= j < m.len() ==> precedes((#[trigger] m[j]).0, name),
    ensures
        entry_place(m, name, i) == m.len(),
    decreases m.len() - i,
{
    if i < m.len() {
        lemma_place_last(m, name, i + 1);
    }
}

} // verus!
