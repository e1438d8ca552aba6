//! Laws of the state of queries.
use crate::engine::accumulator::{fresh, AccumulatorView};
use crate::engine::state::{
    buffered, distinct_keys, expired, group_index, group_place, in_time_order, key_index,
    lemma_buffered_in_order, lemma_key_index, lemma_time_place, rows_between, rows_since,
    same_window, table_row, time_place, upserted, windows_where, with_group, without_key,
    WindowKeyView, WindowView,
};
use crate::plan::AggregateFunction;
use crate::time::Timestamp;
use crate::types::RowView;
use crate::value::laws::{lemma_equal_symmetric, lemma_equal_transitive};
use crate::value::{all_equal, equal, ValueView};
use vstd::prelude::*;

verus! {

/// Equal keys are found in the same place.
proof fn lemma_same_place(t: Seq<(ValueView, RowView)>, a: ValueView, b: ValueView, i: nat)
    requires
        equal(a, b),
    ensures
        key_index(t, a, i) == key_index(t, b, i),
    decreases t.len() - i,
{
    if i < t.len() {
        let k = t[i as int].0;
        lemma_equal_symmetric(a, b);
        if equal(k, a) {
            lemma_equal_transitive(k, a, b);
        }
        if equal(k, b) {
            lemma_equal_transitive(k, b, a);
        }
        lemma_same_place(t, a, b, i + 1);
    }
}

/// A table with a row put under a key gives that row for the key and all that equal
/// it, and for any other key what it gave before. A key that does not equal itself
/// is never found.
pub proof fn lemma_upsert(
    t: Seq<(ValueView, RowView)>,
    key: ValueView,
    row: RowView,
    other: ValueView,
)
    ensures
        equal(key, other) ==> table_row(upserted(t, key, row), other) == Some(row),
        !equal(key, other) ==> table_row(upserted(t, key, row), other) == table_row(t, other),
{
    let u = upserted(t, key, row);
    lemma_key_index(t, key, 0);
    lemma_key_index(t, other, 0);
    lemma_key_index(u, other, 0);
    if equal(key, other) {
        lemma_same_place(t, key, other, 0);
    } else {
        match key_index(t, key, 0) {
            Some(i) => {
                let k = t[i as int].0;
                if equal(k, other) {
                    lemma_equal_symmetric(k, key);
                    lemma_equal_transitive(key, k, other);
                }
            },
            None => {},
        }
    }
    match key_index(u, other, 0) {
        Some(k) => {
            assert(equal(u[k as int].0, other));
            assert(forall|j: int| 0 <= j < t.len() ==> u[j].0 == (#[trigger] t[j]).0);
            match key_index(t, other, 0) {
                Some(h) => {
                    assert(u[h as int].0 == t[h as int].0);
                    assert(k == h);
                },
                None => {},
            }
        },
        None => {
            assert(forall|j: int| 0 <= j < t.len() ==> (#[trigger] u[j]).0 == t[j].0);
            match key_index(t, other, 0) {
                Some(h) => {
                    assert(equal(u[h as int].0, other));
                },
                None => {
                    if equal(key, other) {
                        assert(equal(u[t.len() as int].0, other));
                    }
                },
            }
        },
    }
}

/// A table without a key gives nothing for the key and all that equal it, and for
/// any other key what it gave before.
pub proof fn lemma_without_key(t: Seq<(ValueView, RowView)>, key: ValueView, other: ValueView)
    requires
        distinct_keys(t),
    ensures
        equal(key, other) ==> table_row(without_key(t, key), other) is None,
        !equal(key, other) ==> table_row(without_key(t, key), other) == table_row(t, other),
{
    let u = without_key(t, key);
    lemma_key_index(t, key, 0);
    lemma_key_index(t, other, 0);
    lemma_key_index(u, other, 0);
    if equal(key, other) {
        lemma_same_place(t, key, other, 0);
    }
    if let Some(i) = key_index(t, key, 0) {
        let k = t[i as int].0;
        if !equal(key, other) && equal(k, other) {
            lemma_equal_symmetric(k, key);
            lemma_equal_transitive(key, k, other);
        }
        assert(forall|j: int| 0 <= j < i ==> (#[trigger] u[j]) == t[j]);
        assert(forall|j: int| i <= j < u.len() ==> (#[trigger] u[j]) == t[j + 1]);
        match key_index(u, other, 0) {
            Some(n) => {
                let m: int = if n < i { n as int } else { n as int + 1 };
                assert(equal(t[m].0, other));
                if equal(key, other) {
                    lemma_equal_symmetric(t[m].0, other);
                    lemma_equal_transitive(k, key, other);
                    lemma_equal_transitive(k, other, t[m].0);
                    assert(i < m);
                    assert(!equal(t[i as int].0, t[m].0));
                } else if let Some(h) = key_index(t, other, 0) {
                    let g: int = if h < i { h as int } else { h - 1 };
                    assert(h != i);
                    assert(u[g] == t[h as int]);
                    assert(n == g);
                }
            },
            None => {
                if !equal(key, other) {
                    if let Some(h) = key_index(t, other, 0) {
                        let g: int = if h < i { h as int } else { h - 1 };
                        assert(h != i);
                        assert(u[g] == t[h as int]);
                    }
                }
            },
        }
    }
}

/// Whether one instant lies between two others, both of them allowed.
pub open spec fn lies_between(t: Timestamp, from: Timestamp, to: Timestamp) -> bool {
    !t.before(from) && !to.before(t)
}

/// The rows between two times are those of the buffer whose time lies between them.
pub proof fn lemma_rows_between(
    b: Seq<(Timestamp, RowView)>,
    from: Timestamp,
    to: Timestamp,
    n: nat,
    row: RowView,
)
    requires
        n <= b.len(),
    ensures
        rows_between(b, from, to, n).contains(row) <==> exists|i: int|
            0 <= i < n && (#[trigger] b[i]).1 == row && lies_between(b[i].0, from, to),
    decreases n,
{
    let all = rows_between(b, from, to, n);
    if n > 0 {
        let before = rows_between(b, from, to, (n - 1) as nat);
        lemma_rows_between(b, from, to, (n - 1) as nat, row);
        if lies_between(b[n - 1].0, from, to) {
            assert(all == before.push(b[n - 1].1));
            assert(all.last() == b[n - 1].1);
            if before.contains(row) {
                let k = choose|k: int| 0 <= k < before.len() && before[k] == row;
                assert(all[k] == row);
            }
            if all.contains(row) {
                let k = choose|k: int| 0 <= k < all.len() && all[k] == row;
                if k < before.len() {
                    assert(before[k] == row);
                }
            }
            if b[n - 1].1 == row {
                assert(all[before.len() as int] == row);
            }
        }
        if exists|i: int| 0 <= i < n && (#[trigger] b[i]).1 == row && lies_between(b[i].0, from, to) {
            let i = choose|i: int|
                0 <= i < n && (#[trigger] b[i]).1 == row && lies_between(b[i].0, from, to);
            if i < n - 1 {
                assert(before.contains(row));
            }
        }
    }
}

/// A buffer stays in the order of time when a row is put into it, and keeps all its
/// rows.
pub proof fn lemma_buffered(b: Seq<(Timestamp, RowView)>, t: Timestamp, row: RowView)
    requires
        in_time_order(b),
    ensures
        in_time_order(buffered(b, t, row)),
        buffered(b, t, row).to_multiset() == b.to_multiset().insert((t, row)),
{
    lemma_buffered_in_order(b, t, row);
    lemma_time_place(b, t, 0);
    vstd::seq_lib::to_multiset_insert(b, time_place(b, t, 0) as int, (t, row));
}

/// What is kept since a time is exactly what is not before it.
pub proof fn lemma_rows_since(
    b: Seq<(Timestamp, RowView)>,
    cutoff: Timestamp,
    n: nat,
    e: (Timestamp, RowView),
)
    requires
        n <= b.len(),
    ensures
        rows_since(b, cutoff, n).contains(e) <==> b.take(n as int).contains(e) && !e.0.before(
            cutoff,
        ),
    decreases n,
{
    let all = rows_since(b, cutoff, n);
    let t = b.take(n as int);
    if n > 0 {
        let before = rows_since(b, cutoff, (n - 1) as nat);
        let s = b.take(n - 1);
        lemma_rows_since(b, cutoff, (n - 1) as nat, e);
        assert(t =~= s.push(b[n - 1]));
        lemma_push_contains(s, b[n - 1], e);
        lemma_push_contains(before, b[n - 1], e);
    }
}

/// An element is added at the end, and those before it stay.
pub proof fn lemma_push_contains<T>(s: Seq<T>, last: T, e: T)
    ensures
        s.push(last).contains(e) <==> s.contains(e) || e == last,
{
    let r = s.push(last);
    if s.contains(e) {
        let k = choose|k: int| 0 <= k < s.len() && s[k] == e;
        assert(r[k] == e);
    }
    if e == last {
        assert(r[s.len() as int] == e);
    }
    if r.contains(e) {
        let k = choose|k: int| 0 <= k < r.len() && r[k] == e;
        if k < s.len() {
            assert(s[k] == e);
        }
    }
}

/// The windows that have ended are taken out, and all others stay.
pub proof fn lemma_windows_where(
    w: Seq<WindowView>,
    cutoff: Timestamp,
    ended: bool,
    n: nat,
    e: WindowView,
)
    requires
        n <= w.len(),
    ensures
        windows_where(w, cutoff, ended, n).contains(e) <==> w.take(n as int).contains(e)
            && expired(e, cutoff) == ended,
    decreases n,
{
    let t = w.take(n as int);
    if n > 0 {
        let before = windows_where(w, cutoff, ended, (n - 1) as nat);
        let s = w.take(n - 1);
        lemma_windows_where(w, cutoff, ended, (n - 1) as nat, e);
        assert(t =~= s.push(w[n - 1]));
        lemma_push_contains(s, w[n - 1], e);
        lemma_push_contains(before, w[n - 1], e);
    }
}

/// A window is found again under the same start and values of the group that are equal,
/// one by one; under no other.
pub proof fn lemma_window_keys(a: WindowKeyView, b: WindowKeyView)
    ensures
        same_window(a, b) <==> a.window_start == b.window_start && a.group.len() == b.group.len()
            && forall|i: int|
            0 <= i < a.group.len() ==> equal(#[trigger] a.group[i], b.group[i]),
{
}

/// A window has ended at its end, and at all later times. One with a key that does not
/// equal itself never ends.
pub proof fn lemma_ended(w: WindowView, cutoff: Timestamp)
    ensures
        expired(w, cutoff) <==> !cutoff.before(w.end) && forall|i: int|
            0 <= i < w.key.group.len() ==> equal(#[trigger] w.key.group[i], w.key.group[i]),
{
}

/// A group is found where the values of a key are equal to its own, one by one. Where there
/// is none, one is put behind the others, with functions that have seen nothing.
pub proof fn lemma_group_kept(
    g: Seq<(Seq<ValueView>, Seq<AccumulatorView>)>,
    key: Seq<ValueView>,
    functions: Seq<(AggregateFunction, bool)>,
)
    ensures
        ({
            let all = with_group(g, key, functions);
            let k = group_place(g, key);
            let there = exists|i: int| 0 <= i < g.len() && #[trigger] all_equal(g[i].0, key);
            &&& 0 <= k < all.len()
            &&& there ==> all == g && all_equal(g[k].0, key)
            &&& !there ==> all == g.push(
                (
                    key,
                    functions.map_values(
                        |f: (AggregateFunction, bool)| fresh(f.0, f.1),
                    ),
                ),
            ) && k == g.len()
        }),
{
    lemma_group_found_at(g, key, 0);
}

proof fn lemma_group_found_at(
    g: Seq<(Seq<ValueView>, Seq<AccumulatorView>)>,
    key: Seq<ValueView>,
    i: nat,
)
    ensures
        match group_index(g, key, i) {
            Some(k) => i <= k < g.len() && all_equal(g[k as int].0, key),
            None => forall|j: int| i <= j < g.len() ==> !#[trigger] all_equal(g[j].0, key),
        },
    decreases g.len() - i,
{
    if i < g.len() && !all_equal(g[i as int].0, key) {
        lemma_group_found_at(g, key, i + 1);
    }
}

} // verus!
