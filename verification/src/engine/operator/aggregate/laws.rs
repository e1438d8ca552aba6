//! Laws of aggregation.
use crate::engine::accumulator::laws::accumulated_all;
use crate::engine::accumulator::{
    accumulated, aggregate_value, counted, fresh, AccumulatorView,
};
use crate::engine::operator::aggregate::{
    aggregate_step, functions_of, group_row, grouped, groups_out, is_put_out, row_taken,
    AggregateOpView,
};
use crate::engine::state::{fresh_all, group_index, group_place, group_set, with_group};
use crate::expr::eval::{value_of, values_of};
use crate::expr::ExprView;
use crate::plan::AggregateView;
use crate::types::{ColumnView, RowView};
use crate::value::laws::{
    lemma_equal_reflexive, lemma_equal_symmetric, lemma_equal_transitive, numbers_only,
};
use crate::value::{all_equal, equal, ValueView};
use vstd::prelude::*;

verus! {

// === Batches ===

proof fn lemma_grouped_shift(
    a: AggregateOpView,
    groups: Seq<(Seq<ValueView>, Seq<AccumulatorView>)>,
    first: Seq<RowView>,
    second: Seq<RowView>,
    i: nat,
)
    requires
        i <= second.len(),
    ensures
        grouped(a, groups, first + second, first.len() + i) == grouped(a, groups, second, i),
    decreases second.len() - i,
{
    let all = first + second;
    if i < second.len() {
        let row = second[i as int];
        assert(all[(first.len() + i) as int] == row);
        if let Ok(key) = values_of(a.group_by, row, a.input_schema, 0) {
            let with = with_group(groups, key, functions_of(a.aggregates));
            let place = group_place(groups, key);
            let (accumulators, error) = row_taken(
                with[place].1,
                a.aggregates,
                row,
                a.input_schema,
                0,
            );
            let after = group_set(with, place, accumulators);
            if error is None {
                lemma_grouped_shift(a, after, first, second, i + 1);
            }
        }
    }
}

proof fn lemma_grouped_split(
    a: AggregateOpView,
    groups: Seq<(Seq<ValueView>, Seq<AccumulatorView>)>,
    first: Seq<RowView>,
    second: Seq<RowView>,
    i: nat,
)
    requires
        i <= first.len(),
    ensures
        grouped(a, groups, first + second, i) == match grouped(a, groups, first, i) {
            (after, None) => grouped(a, after, second, 0),
            failed => failed,
        },
    decreases first.len() - i,
{
    let all = first + second;
    if i < first.len() {
        let row = first[i as int];
        assert(all[i as int] == row);
        if let Ok(key) = values_of(a.group_by, row, a.input_schema, 0) {
            let with = with_group(groups, key, functions_of(a.aggregates));
            let place = group_place(groups, key);
            let (accumulators, error) = row_taken(
                with[place].1,
                a.aggregates,
                row,
                a.input_schema,
                0,
            );
            let after = group_set(with, place, accumulators);
            if error is None {
                lemma_grouped_split(a, after, first, second, i + 1);
            }
        }
    } else {
        lemma_grouped_shift(a, groups, first, second, 0);
    }
}

/// It does not matter how rows are cut into batches: two batches leave behind the
/// groups that one batch with the rows of both does.
pub proof fn lemma_batches(
    a: AggregateOpView,
    groups: Seq<(Seq<ValueView>, Seq<AccumulatorView>)>,
    first: Seq<RowView>,
    second: Seq<RowView>,
)
    ensures
        grouped(a, groups, first + second, 0) == match grouped(a, groups, first, 0) {
            (after, None) => grouped(a, after, second, 0),
            failed => failed,
        },
{
    lemma_grouped_split(a, groups, first, second, 0);
}

/// How rows are grouped does not hang on the groups that an aggregation keeps, but on
/// those it starts with.
proof fn lemma_grouped_alike(
    a: AggregateOpView,
    b: AggregateOpView,
    groups: Seq<(Seq<ValueView>, Seq<AccumulatorView>)>,
    rows: Seq<RowView>,
    i: nat,
)
    requires
        b == (AggregateOpView { groups: b.groups, ..a }),
    ensures
        grouped(a, groups, rows, i) == grouped(b, groups, rows, i),
    decreases rows.len() - i,
{
    if i < rows.len() {
        if let Ok(key) = values_of(a.group_by, rows[i as int], a.input_schema, 0) {
            let all = with_group(groups, key, functions_of(a.aggregates));
            let place = group_place(groups, key);
            let (accumulators, error) = row_taken(
                all[place].1,
                a.aggregates,
                rows[i as int],
                a.input_schema,
                0,
            );
            lemma_grouped_alike(a, b, group_set(all, place, accumulators), rows, i + 1);
        }
    }
}

/// Two batches put out, in the end, the rows that one batch with the rows of both does,
/// and leave the same behind: all groups are put out again after each batch.
pub proof fn lemma_batch_rows(a: AggregateOpView, first: Seq<RowView>, second: Seq<RowView>)
    requires
        aggregate_step(a, first).0 is Ok,
    ensures
        aggregate_step(aggregate_step(a, first).1, second) == aggregate_step(a, first + second),
{
    let b = aggregate_step(a, first).1;
    lemma_batches(a, a.groups, first, second);
    lemma_grouped_alike(a, b, b.groups, second, 0);
}

/// The rows that are put out are one for each group on which the condition holds, in the
/// order of the groups: the values of its key, then one value for each function.
pub proof fn lemma_groups_out(
    groups: Seq<(Seq<ValueView>, Seq<AccumulatorView>)>,
    having: Option<ExprView>,
    schema: Seq<ColumnView>,
)
    ensures
        groups_out(groups, having, schema, 0) matches Ok(rows) ==> rows == groups.map_values(
            |g: (Seq<ValueView>, Seq<AccumulatorView>)| group_row(g),
        ).filter(|r: RowView| is_put_out(having, r, schema) == Ok::<bool, Seq<char>>(true)),
{
    lemma_groups_out_from(groups, having, schema, 0);
    let all = groups.map_values(|g: (Seq<ValueView>, Seq<AccumulatorView>)| group_row(g));
    assert(all.skip(0) =~= all);
}

proof fn lemma_groups_out_from(
    groups: Seq<(Seq<ValueView>, Seq<AccumulatorView>)>,
    having: Option<ExprView>,
    schema: Seq<ColumnView>,
    i: nat,
)
    requires
        i <= groups.len(),
    ensures
        groups_out(groups, having, schema, i) matches Ok(rows) ==> rows == groups.map_values(
            |g: (Seq<ValueView>, Seq<AccumulatorView>)| group_row(g),
        ).skip(i as int).filter(
            |r: RowView| is_put_out(having, r, schema) == Ok::<bool, Seq<char>>(true),
        ),
    decreases groups.len() - i,
{
    let all = groups.map_values(|g: (Seq<ValueView>, Seq<AccumulatorView>)| group_row(g));
    let p = |r: RowView| is_put_out(having, r, schema) == Ok::<bool, Seq<char>>(true);
    if i < groups.len() {
        lemma_groups_out_from(groups, having, schema, i + 1);
        let one = seq![all[i as int]];
        let rest = all.skip((i + 1) as int);
        assert(all.skip(i as int) =~= one + rest);
        rest.lemma_filter_prepend(all[i as int], p);
        assert(Seq::empty() + rest.filter(p) =~= rest.filter(p));
    } else {
        reveal(Seq::filter);
        assert(all.skip(i as int) =~= Seq::empty());
    }
}

// === Keys ===

/// Whether two keys are the same: their values are equal.
#[verifier::opaque]
pub open spec fn same_key(x: Seq<ValueView>, y: Seq<ValueView>) -> bool {
    all_equal(x, y)
}

/// It does not matter which of two keys is asked first.
pub proof fn lemma_keys_symmetric(x: Seq<ValueView>, y: Seq<ValueView>)
    ensures
        same_key(x, y) == same_key(y, x),
{
    reveal(same_key);
    if all_equal(x, y) {
        assert forall|i: int| 0 <= i < y.len() implies equal(#[trigger] y[i], x[i]) by {
            assert(equal(x[i], y[i]));
            lemma_equal_symmetric(x[i], y[i]);
        }
    }
    if all_equal(y, x) {
        assert forall|i: int| 0 <= i < x.len() implies equal(#[trigger] x[i], y[i]) by {
            assert(equal(y[i], x[i]));
            lemma_equal_symmetric(x[i], y[i]);
        }
    }
}

/// Keys that are the same as a third are the same.
pub proof fn lemma_keys_transitive(x: Seq<ValueView>, y: Seq<ValueView>, z: Seq<ValueView>)
    requires
        same_key(x, y),
        same_key(y, z),
    ensures
        same_key(x, z),
{
    reveal(same_key);
    assert forall|i: int| 0 <= i < x.len() implies equal(#[trigger] x[i], z[i]) by {
        assert(equal(x[i], y[i]));
        assert(equal(y[i], z[i]));
        lemma_equal_transitive(x[i], y[i], z[i]);
    }
}

/// Whether no value of a key holds what is not a number, so that it equals itself.
pub open spec fn is_key(k: Seq<ValueView>) -> bool {
    forall|i: int| 0 <= i < k.len() ==> numbers_only(#[trigger] k[i])
}

/// A key is the same as itself.
pub proof fn lemma_key_reflexive(k: Seq<ValueView>)
    requires
        is_key(k),
    ensures
        same_key(k, k),
{
    reveal(same_key);
    assert forall|i: int| 0 <= i < k.len() implies equal(#[trigger] k[i], k[i]) by {
        assert(numbers_only(k[i]));
        lemma_equal_reflexive(k[i]);
    }
}

proof fn lemma_group_index(
    g: Seq<(Seq<ValueView>, Seq<AccumulatorView>)>,
    key: Seq<ValueView>,
    i: nat,
)
    ensures
        match group_index(g, key, i) {
            Some(k) => i <= k < g.len() && same_key(g[k as int].0, key),
            None => forall|j: int| i <= j < g.len() ==> !same_key((#[trigger] g[j]).0, key),
        },
    decreases g.len() - i,
{
    reveal(same_key);
    if i < g.len() && !all_equal(g[i as int].0, key) {
        lemma_group_index(g, key, i + 1);
    }
}

// === Groups ===

/// The key of a row.
pub open spec fn row_key(a: AggregateOpView, row: RowView) -> Result<Seq<ValueView>, Seq<char>> {
    values_of(a.group_by, row, a.input_schema, 0)
}

/// Whether a row belongs to the group of a key.
pub open spec fn belongs(a: AggregateOpView, key: Seq<ValueView>, row: RowView) -> bool {
    row_key(a, row) matches Ok(k) && same_key(key, k)
}

/// What the accumulators of a key hold after those of the first `n` rows that belong
/// to its group were taken in, one by one.
pub open spec fn group_taken(
    a: AggregateOpView,
    key: Seq<ValueView>,
    rows: Seq<RowView>,
    n: nat,
) -> Seq<AccumulatorView>
    decreases n,
{
    if n == 0 {
        fresh_all(functions_of(a.aggregates))
    } else {
        let before = group_taken(a, key, rows, (n - 1) as nat);
        if belongs(a, key, rows[n - 1]) {
            row_taken(before, a.aggregates, rows[n - 1], a.input_schema, 0).0
        } else {
            before
        }
    }
}

/// Whether no two groups have the same key.
pub open spec fn distinct_groups(groups: Seq<(Seq<ValueView>, Seq<AccumulatorView>)>) -> bool {
    forall|i: int, j: int|
        0 <= i < j < groups.len() ==> !same_key((#[trigger] groups[i]).0, (#[trigger] groups[j]).0)
}

/// Whether a row belongs to one of the groups.
pub open spec fn has_group(
    a: AggregateOpView,
    groups: Seq<(Seq<ValueView>, Seq<AccumulatorView>)>,
    row: RowView,
) -> bool {
    exists|g: int| 0 <= g < groups.len() && belongs(a, (#[trigger] groups[g]).0, row)
}

/// Whether a key is that of one of the first `n` rows.
pub open spec fn has_row(a: AggregateOpView, key: Seq<ValueView>, rows: Seq<RowView>, n: nat) -> bool {
    exists|i: int|
        0 <= i < n && row_key(a, #[trigger] rows[i]) == Ok::<Seq<ValueView>, Seq<char>>(key)
}

/// Whether groups are those of the first `n` rows: no two have the same key, each row
/// has a group, each group has the key of a row, and its accumulators have taken in
/// the rows that belong to it and no other.
pub open spec fn groups_of(
    a: AggregateOpView,
    groups: Seq<(Seq<ValueView>, Seq<AccumulatorView>)>,
    rows: Seq<RowView>,
    n: nat,
) -> bool {
    &&& distinct_groups(groups)
    &&& forall|i: int| 0 <= i < n ==> has_group(a, groups, #[trigger] rows[i])
    &&& forall|g: int|
        0 <= g < groups.len() ==> has_row(a, (#[trigger] groups[g]).0, rows, n) && groups[g].1
            == group_taken(a, groups[g].0, rows, n)
}

proof fn lemma_nothing_taken(a: AggregateOpView, key: Seq<ValueView>, rows: Seq<RowView>, n: nat)
    requires
        forall|i: int| 0 <= i < n ==> !belongs(a, key, #[trigger] rows[i]),
    ensures
        group_taken(a, key, rows, n) == fresh_all(functions_of(a.aggregates)),
    decreases n,
{
    if n > 0 {
        lemma_nothing_taken(a, key, rows, (n - 1) as nat);
    }
}

/// Whether groups follow from others in that the group of a key, which is made where
/// there is none, has taken in a row.
spec fn follows(
    a: AggregateOpView,
    groups: Seq<(Seq<ValueView>, Seq<AccumulatorView>)>,
    after: Seq<(Seq<ValueView>, Seq<AccumulatorView>)>,
    place: int,
    key: Seq<ValueView>,
    row: RowView,
) -> bool {
    let prior = if place < groups.len() {
        groups[place]
    } else {
        (key, fresh_all(functions_of(a.aggregates)))
    };
    &&& 0 <= place < after.len()
    &&& if place < groups.len() {
        after.len() == groups.len()
    } else {
        after.len() == groups.len() + 1
    }
    &&& forall|g: int| 0 <= g < after.len() && g != place ==> #[trigger] after[g] == groups[g]
    &&& after[place].0 == prior.0
    &&& after[place].1 == row_taken(prior.1, a.aggregates, row, a.input_schema, 0).0
    &&& same_key(prior.0, key)
    &&& place == groups.len() ==> forall|g: int|
        0 <= g < groups.len() ==> !same_key((#[trigger] groups[g]).0, key)
}

proof fn lemma_follows(
    a: AggregateOpView,
    groups: Seq<(Seq<ValueView>, Seq<AccumulatorView>)>,
    key: Seq<ValueView>,
    row: RowView,
)
    requires
        is_key(key),
    ensures
        ({
            let with = with_group(groups, key, functions_of(a.aggregates));
            let place = group_place(groups, key);
            let taken = row_taken(with[place].1, a.aggregates, row, a.input_schema, 0).0;
            follows(a, groups, group_set(with, place, taken), place, key, row)
        }),
{
    lemma_group_index(groups, key, 0);
    lemma_key_reflexive(key);
}

/// No group but the one in place has the key.
proof fn lemma_no_other(
    a: AggregateOpView,
    groups: Seq<(Seq<ValueView>, Seq<AccumulatorView>)>,
    after: Seq<(Seq<ValueView>, Seq<AccumulatorView>)>,
    place: int,
    key: Seq<ValueView>,
    row: RowView,
    g: int,
)
    requires
        distinct_groups(groups),
        follows(a, groups, after, place, key, row),
        0 <= g < after.len(),
        g != place,
    ensures
        !same_key(after[g].0, key),
{
    assert(after[g] == groups[g]);
    if same_key(groups[g].0, key) && place < groups.len() {
        lemma_keys_symmetric(groups[place].0, key);
        lemma_keys_transitive(groups[g].0, key, groups[place].0);
        lemma_keys_symmetric(groups[g].0, groups[place].0);
        assert(!same_key(groups[g].0, groups[place].0));
    }
}

proof fn lemma_still_distinct(
    a: AggregateOpView,
    groups: Seq<(Seq<ValueView>, Seq<AccumulatorView>)>,
    after: Seq<(Seq<ValueView>, Seq<AccumulatorView>)>,
    place: int,
    key: Seq<ValueView>,
    row: RowView,
)
    requires
        distinct_groups(groups),
        follows(a, groups, after, place, key, row),
    ensures
        distinct_groups(after),
{
    assert forall|x: int, y: int| 0 <= x < y < after.len() implies !same_key(
        (#[trigger] after[x]).0,
        (#[trigger] after[y]).0,
    ) by {
        if x < groups.len() && y < groups.len() {
            assert(after[x].0 == groups[x].0);
            assert(after[y].0 == groups[y].0);
        } else {
            assert(after[x] == groups[x]);
        }
    }
}

/// What each group has taken in, once it follows from others.
proof fn lemma_taken_step(
    a: AggregateOpView,
    groups: Seq<(Seq<ValueView>, Seq<AccumulatorView>)>,
    after: Seq<(Seq<ValueView>, Seq<AccumulatorView>)>,
    place: int,
    key: Seq<ValueView>,
    rows: Seq<RowView>,
    i: nat,
    g: int,
)
    requires
        i < rows.len(),
        groups_of(a, groups, rows, i),
        row_key(a, rows[i as int]) == Ok::<Seq<ValueView>, Seq<char>>(key),
        follows(a, groups, after, place, key, rows[i as int]),
        0 <= g < after.len(),
    ensures
        has_row(a, after[g].0, rows, i + 1),
        after[g].1 == group_taken(a, after[g].0, rows, i + 1),
{
    let row = rows[i as int];
    if g < groups.len() {
        assert(after[g].0 == groups[g].0);
        assert(has_row(a, groups[g].0, rows, i));
        let k = choose|k: int|
            0 <= k < i && row_key(a, #[trigger] rows[k]) == Ok::<Seq<ValueView>, Seq<char>>(
                groups[g].0,
            );
        assert(row_key(a, rows[k]) == Ok::<Seq<ValueView>, Seq<char>>(after[g].0));
        if g != place {
            lemma_no_other(a, groups, after, place, key, row, g);
            assert(!belongs(a, after[g].0, row));
        } else {
            assert(belongs(a, after[g].0, row));
        }
    } else {
        assert(row_key(a, rows[i as int]) == Ok::<Seq<ValueView>, Seq<char>>(after[g].0));
        assert forall|k: int| 0 <= k < i implies !belongs(a, key, #[trigger] rows[k]) by {
            if belongs(a, key, rows[k]) {
                assert(has_group(a, groups, rows[k]));
                let h = choose|h: int|
                    0 <= h < groups.len() && belongs(a, (#[trigger] groups[h]).0, rows[k]);
                let other = row_key(a, rows[k])->Ok_0;
                lemma_keys_symmetric(key, other);
                lemma_keys_transitive(groups[h].0, other, key);
            }
        }
        lemma_nothing_taken(a, key, rows, i);
        assert(belongs(a, key, row));
    }
}

/// Where a row is taken in without an error, groups of the rows before it become
/// groups of the rows with it.
proof fn lemma_groups_step(
    a: AggregateOpView,
    groups: Seq<(Seq<ValueView>, Seq<AccumulatorView>)>,
    after: Seq<(Seq<ValueView>, Seq<AccumulatorView>)>,
    place: int,
    key: Seq<ValueView>,
    rows: Seq<RowView>,
    i: nat,
)
    requires
        i < rows.len(),
        groups_of(a, groups, rows, i),
        row_key(a, rows[i as int]) == Ok::<Seq<ValueView>, Seq<char>>(key),
        follows(a, groups, after, place, key, rows[i as int]),
    ensures
        groups_of(a, after, rows, i + 1),
{
    lemma_still_distinct(a, groups, after, place, key, rows[i as int]);
    assert forall|k: int| 0 <= k < i + 1 implies has_group(a, after, #[trigger] rows[k]) by {
        if k == i {
            assert(belongs(a, after[place].0, rows[k]));
        } else {
            assert(has_group(a, groups, rows[k]));
            let g = choose|g: int|
                0 <= g < groups.len() && belongs(a, (#[trigger] groups[g]).0, rows[k]);
            assert(after[g].0 == groups[g].0);
            assert(belongs(a, after[g].0, rows[k]));
        }
    }
    assert forall|g: int| 0 <= g < after.len() implies has_row(
        a,
        (#[trigger] after[g]).0,
        rows,
        i + 1,
    ) && after[g].1 == group_taken(a, after[g].0, rows, i + 1) by {
        lemma_taken_step(a, groups, after, place, key, rows, i, g);
    }
}

/// Whether the rows from a place on have keys that equal themselves.
pub open spec fn keys_hold(a: AggregateOpView, rows: Seq<RowView>, i: nat) -> bool {
    forall|k: int|
        i <= k < rows.len() ==> (row_key(a, #[trigger] rows[k]) matches Ok(key) ==> is_key(key))
}

proof fn lemma_groups_from(
    a: AggregateOpView,
    groups: Seq<(Seq<ValueView>, Seq<AccumulatorView>)>,
    rows: Seq<RowView>,
    i: nat,
)
    requires
        i <= rows.len(),
        keys_hold(a, rows, i),
        groups_of(a, groups, rows, i),
        grouped(a, groups, rows, i).1 is None,
    ensures
        groups_of(a, grouped(a, groups, rows, i).0, rows, rows.len()),
    decreases rows.len() - i,
{
    if i < rows.len() {
        let row = rows[i as int];
        let key = row_key(a, row)->Ok_0;
        let with = with_group(groups, key, functions_of(a.aggregates));
        let place = group_place(groups, key);
        let taken = row_taken(with[place].1, a.aggregates, row, a.input_schema, 0).0;
        let after = group_set(with, place, taken);
        lemma_follows(a, groups, key, row);
        lemma_groups_step(a, groups, after, place, key, rows, i);
        lemma_groups_from(a, after, rows, i + 1);
    }
}

/// An aggregation that has taken in rows keeps one group for each of their keys, and
/// each group has taken in just the rows that have its key.
pub proof fn lemma_groups(a: AggregateOpView, rows: Seq<RowView>)
    requires
        keys_hold(a, rows, 0),
        grouped(a, Seq::empty(), rows, 0).1 is None,
    ensures
        groups_of(a, grouped(a, Seq::empty(), rows, 0).0, rows, rows.len()),
{
    lemma_groups_from(a, Seq::empty(), rows, 0);
}

// === Functions ===

/// What each function of an aggregation makes of a row that is taken in.
#[verifier::spinoff_prover]
#[verifier::rlimit(40)]
pub proof fn lemma_row_taken(
    accumulators: Seq<AccumulatorView>,
    aggregates: Seq<AggregateView>,
    row: RowView,
    schema: Seq<ColumnView>,
    i: nat,
)
    requires
        accumulators.len() == aggregates.len(),
        i <= aggregates.len(),
        row_taken(accumulators, aggregates, row, schema, i).1 is None,
    ensures
        ({
            let after = row_taken(accumulators, aggregates, row, schema, i).0;
            &&& after.len() == accumulators.len()
            &&& forall|x: int| 0 <= x < i ==> #[trigger] after[x] == accumulators[x]
            &&& forall|x: int|
                i <= x < after.len() ==> #[trigger] after[x] == if aggregates[x].expr is Wildcard {
                    counted(accumulators[x])
                } else {
                    accumulated(
                        accumulators[x],
                        value_of(aggregates[x].expr, row, schema)->Ok_0,
                    )
                }
        }),
    decreases aggregates.len() - i,
{
    if i < aggregates.len() {
        let next = if aggregates[i as int].expr is Wildcard {
            counted(accumulators[i as int])
        } else {
            accumulated(
                accumulators[i as int],
                value_of(aggregates[i as int].expr, row, schema)->Ok_0,
            )
        };
        lemma_row_taken(accumulators.update(i as int, next), aggregates, row, schema, i + 1);
    }
}

/// Whether the functions from a place on have values to take in from a row.
pub open spec fn evaluates(
    aggregates: Seq<AggregateView>,
    row: RowView,
    schema: Seq<ColumnView>,
    i: nat,
) -> bool {
    forall|x: int|
        i <= x < aggregates.len() ==> (#[trigger] aggregates[x]).expr is Wildcard || value_of(
            aggregates[x].expr,
            row,
            schema,
        ) is Ok
}

/// A row is taken in without an error exactly where all functions have a value to
/// take in.
#[verifier::spinoff_prover]
#[verifier::rlimit(60)]
pub proof fn lemma_taken_in(
    accumulators: Seq<AccumulatorView>,
    aggregates: Seq<AggregateView>,
    row: RowView,
    schema: Seq<ColumnView>,
    i: nat,
)
    requires
        accumulators.len() == aggregates.len(),
        i <= aggregates.len(),
    ensures
        row_taken(accumulators, aggregates, row, schema, i).0.len() == accumulators.len(),
        row_taken(accumulators, aggregates, row, schema, i).1 is None <==> evaluates(
            aggregates,
            row,
            schema,
            i,
        ),
    decreases aggregates.len() - i,
{
    if i < aggregates.len() {
        let e = aggregates[i as int].expr;
        if e is Wildcard || value_of(e, row, schema) is Ok {
            let next = if e is Wildcard {
                counted(accumulators[i as int])
            } else {
                accumulated(accumulators[i as int], value_of(e, row, schema)->Ok_0)
            };
            lemma_taken_in(accumulators.update(i as int, next), aggregates, row, schema, i + 1);
            assert(evaluates(aggregates, row, schema, i) <==> evaluates(
                aggregates,
                row,
                schema,
                i + 1,
            ));
        } else {
            assert(!evaluates(aggregates, row, schema, i));
        }
    }
}

proof fn lemma_group_taken_len(a: AggregateOpView, key: Seq<ValueView>, rows: Seq<RowView>, n: nat)
    ensures
        group_taken(a, key, rows, n).len() == a.aggregates.len(),
    decreases n,
{
    if n > 0 {
        lemma_group_taken_len(a, key, rows, (n - 1) as nat);
        lemma_taken_in(
            group_taken(a, key, rows, (n - 1) as nat),
            a.aggregates,
            rows[n - 1],
            a.input_schema,
            0,
        );
    }
}

/// The values that a function takes in from those of the first `n` rows that belong to
/// the group of a key, in their order.
pub open spec fn group_values(
    a: AggregateOpView,
    key: Seq<ValueView>,
    x: int,
    rows: Seq<RowView>,
    n: nat,
) -> Seq<ValueView>
    decreases n,
{
    if n == 0 {
        Seq::empty()
    } else {
        let before = group_values(a, key, x, rows, (n - 1) as nat);
        if belongs(a, key, rows[n - 1]) {
            before.push(value_of(a.aggregates[x].expr, rows[n - 1], a.input_schema)->Ok_0)
        } else {
            before
        }
    }
}

/// How many of the first `n` rows belong to the group of a key.
pub open spec fn group_size(
    a: AggregateOpView,
    key: Seq<ValueView>,
    rows: Seq<RowView>,
    n: nat,
) -> nat
    decreases n,
{
    if n == 0 {
        0
    } else if belongs(a, key, rows[n - 1]) {
        group_size(a, key, rows, (n - 1) as nat) + 1
    } else {
        group_size(a, key, rows, (n - 1) as nat)
    }
}

proof fn lemma_accumulated_grows(
    f: AccumulatorView,
    s: Seq<ValueView>,
    v: ValueView,
    n: nat,
)
    requires
        n <= s.len(),
    ensures
        accumulated_all(f, s.push(v), n) == accumulated_all(f, s, n),
    decreases n,
{
    if n > 0 {
        lemma_accumulated_grows(f, s, v, (n - 1) as nat);
    }
}

/// What a function holds after one value more.
proof fn lemma_one_more(f: AccumulatorView, s: Seq<ValueView>, v: ValueView)
    ensures
        accumulated_all(f, s.push(v), s.len() + 1) == accumulated(
            accumulated_all(f, s, s.len()),
            v,
        ),
{
    lemma_accumulated_grows(f, s, v, s.len());
    assert(s.push(v)[s.len() as int] == v);
}

/// How a row of a group changes what one of its functions holds.
proof fn lemma_function_step(
    a: AggregateOpView,
    key: Seq<ValueView>,
    rows: Seq<RowView>,
    n: nat,
    x: int,
)
    requires
        0 < n <= rows.len(),
        0 <= x < a.aggregates.len(),
        evaluates(a.aggregates, rows[n - 1], a.input_schema, 0),
        belongs(a, key, rows[n - 1]),
    ensures
        group_taken(a, key, rows, n)[x] == if a.aggregates[x].expr is Wildcard {
            counted(group_taken(a, key, rows, (n - 1) as nat)[x])
        } else {
            accumulated(
                group_taken(a, key, rows, (n - 1) as nat)[x],
                value_of(a.aggregates[x].expr, rows[n - 1], a.input_schema)->Ok_0,
            )
        },
{
    let before = group_taken(a, key, rows, (n - 1) as nat);
    lemma_group_taken_len(a, key, rows, (n - 1) as nat);
    lemma_taken_in(before, a.aggregates, rows[n - 1], a.input_schema, 0);
    lemma_row_taken(before, a.aggregates, rows[n - 1], a.input_schema, 0);
}

/// A function starts afresh.
proof fn lemma_function_start(a: AggregateOpView, key: Seq<ValueView>, rows: Seq<RowView>, x: int)
    requires
        0 <= x < a.aggregates.len(),
    ensures
        group_taken(a, key, rows, 0)[x] == fresh(
            a.aggregates[x].function,
            a.aggregates[x].distinct,
        ),
{
    let f = a.aggregates[x];
    assert(functions_of(a.aggregates)[x] == (f.function, f.distinct));
}

/// A function for a group has taken in the values that the rows of the group have for
/// it, one after the other.
pub proof fn lemma_group_function(
    a: AggregateOpView,
    key: Seq<ValueView>,
    rows: Seq<RowView>,
    n: nat,
    x: int,
)
    requires
        n <= rows.len(),
        0 <= x < a.aggregates.len(),
        !(a.aggregates[x].expr is Wildcard),
        forall|i: int| 0 <= i < n ==> evaluates(a.aggregates, #[trigger] rows[i], a.input_schema, 0),
    ensures
        group_taken(a, key, rows, n)[x] == accumulated_all(
            fresh(a.aggregates[x].function, a.aggregates[x].distinct),
            group_values(a, key, x, rows, n),
            group_values(a, key, x, rows, n).len(),
        ),
    decreases n,
{
    let f = a.aggregates[x];
    let start = fresh(f.function, f.distinct);
    if n > 0 {
        let row = rows[n - 1];
        lemma_group_function(a, key, rows, (n - 1) as nat, x);
        if belongs(a, key, row) {
            let before = group_values(a, key, x, rows, (n - 1) as nat);
            let v = value_of(f.expr, row, a.input_schema)->Ok_0;
            lemma_function_step(a, key, rows, n, x);
            lemma_one_more(start, before, v);
        }
    } else {
        lemma_function_start(a, key, rows, x);
    }
}

/// Counting rows counts the rows of the group.
#[verifier::spinoff_prover]
#[verifier::rlimit(60)]
pub proof fn lemma_group_count(
    a: AggregateOpView,
    key: Seq<ValueView>,
    rows: Seq<RowView>,
    n: nat,
    x: int,
)
    requires
        n <= rows.len() <= i64::MAX,
        0 <= x < a.aggregates.len(),
        a.aggregates[x].expr is Wildcard,
        forall|i: int| 0 <= i < n ==> evaluates(a.aggregates, #[trigger] rows[i], a.input_schema, 0),
    ensures
        group_size(a, key, rows, n) <= n,
        group_taken(a, key, rows, n)[x] == (AccumulatorView {
            count: group_size(a, key, rows, n) as i64,
            ..fresh(a.aggregates[x].function, a.aggregates[x].distinct)
        }),
    decreases n,
{
    if n > 0 {
        lemma_group_count(a, key, rows, (n - 1) as nat, x);
        if belongs(a, key, rows[n - 1]) {
            lemma_function_step(a, key, rows, n, x);
        }
    } else {
        lemma_function_start(a, key, rows, x);
    }
}

/// Where rows are taken in without an error, each has a key, and a value for each function.
pub proof fn lemma_grouped_ok(
    a: AggregateOpView,
    groups: Seq<(Seq<ValueView>, Seq<AccumulatorView>)>,
    rows: Seq<RowView>,
    i: nat,
)
    requires
        i <= rows.len(),
        forall|g: int| 0 <= g < groups.len() ==> (#[trigger] groups[g]).1.len() == a.aggregates.len(),
        grouped(a, groups, rows, i).1 is None,
    ensures
        forall|k: int|
            i <= k < rows.len() ==> row_key(a, #[trigger] rows[k]) is Ok && evaluates(
                a.aggregates,
                rows[k],
                a.input_schema,
                0,
            ),
    decreases rows.len() - i,
{
    if i < rows.len() {
        let row = rows[i as int];
        let key = row_key(a, row)->Ok_0;
        let with = with_group(groups, key, functions_of(a.aggregates));
        let place = group_place(groups, key);
        lemma_group_index(groups, key, 0);
        lemma_taken_in(with[place].1, a.aggregates, row, a.input_schema, 0);
        let taken = row_taken(with[place].1, a.aggregates, row, a.input_schema, 0).0;
        lemma_grouped_ok(a, group_set(with, place, taken), rows, i + 1);
    }
}

/// The row that an aggregation puts out for a group holds the key of a row, and the
/// values of the functions on just the rows with that key.
pub proof fn lemma_group_row(a: AggregateOpView, rows: Seq<RowView>, g: int)
    requires
        rows.len() <= i64::MAX,
        keys_hold(a, rows, 0),
        grouped(a, Seq::empty(), rows, 0).1 is None,
        0 <= g < grouped(a, Seq::empty(), rows, 0).0.len(),
    ensures
        ({
            let group = grouped(a, Seq::empty(), rows, 0).0[g];
            let n = rows.len();
            &&& has_row(a, group.0, rows, n)
            &&& group_row(group).values.len() == group.0.len() + a.aggregates.len()
            &&& group_row(group).values.take(group.0.len() as int) == group.0
            &&& forall|x: int|
                0 <= x < a.aggregates.len() ==> #[trigger] group_row(group).values[group.0.len() + x]
                    == function_value(a, group.0, rows, x)
        }),
{
    let group = grouped(a, Seq::empty(), rows, 0).0[g];
    lemma_groups(a, rows);
    lemma_grouped_ok(a, Seq::empty(), rows, 0);
    assert(has_row(a, group.0, rows, rows.len()));
    assert(group.1 == group_taken(a, group.0, rows, rows.len()));
    lemma_group_taken_len(a, group.0, rows, rows.len());
    assert(group_row(group).values.take(group.0.len() as int) =~= group.0);
    assert forall|x: int| 0 <= x < a.aggregates.len() implies #[trigger] group_row(
        group,
    ).values[group.0.len() + x] == function_value(a, group.0, rows, x) by {
        if a.aggregates[x].expr is Wildcard {
            lemma_group_count(a, group.0, rows, rows.len(), x);
        } else {
            lemma_group_function(a, group.0, rows, rows.len(), x);
        }
    }
}

/// The value of a function for the group of a key.
pub open spec fn function_value(
    a: AggregateOpView,
    key: Seq<ValueView>,
    rows: Seq<RowView>,
    x: int,
) -> ValueView {
    let f = a.aggregates[x];
    let values = group_values(a, key, x, rows, rows.len());
    if f.expr is Wildcard {
        aggregate_value(
            AccumulatorView {
                count: group_size(a, key, rows, rows.len()) as i64,
                ..fresh(f.function, f.distinct)
            },
        )
    } else {
        aggregate_value(accumulated_all(fresh(f.function, f.distinct), values, values.len()))
    }
}

} // verus!
