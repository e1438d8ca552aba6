//! Laws of the rows that aggregations put out.
use crate::engine::accumulator::laws::accumulated_all;
use crate::engine::accumulator::{
    accumulated, aggregate_value, counted, fresh, AccumulatorView,
};
use crate::engine::operator::aggregate::laws::{
    belongs, evaluates, group_taken, has_group, has_row, keys_hold, lemma_grouped_ok, lemma_groups,
    lemma_keys_symmetric, lemma_keys_transitive, lemma_row_taken, lemma_taken_in, row_key,
    same_key,
};
use crate::engine::operator::aggregate::{
    aggregate_step, functions_of, groups_out, row_taken, AggregateOpView,
};
use crate::engine::state::fresh_all;
use crate::expr::eval::{value_of, values_of, wrapped};
use crate::expr::ExprView;
use crate::plan::AggregateView;
use crate::types::{ColumnView, RowMetadataView, RowView};
use crate::value::laws::kinds::{lemma_equal_lists, lemma_keys_differ};
use crate::value::{equal, truthy, ValueView};
use vstd::prelude::*;

verus! {

/// A row of values alone, of which nothing else is known.
pub open spec fn bare_row(values: Seq<ValueView>) -> RowView {
    RowView {
        values,
        metadata: RowMetadataView {
            topic: None,
            partition: None,
            offset: None,
            timestamp: None,
            key: None,
            window_start: None,
            window_end: None,
        },
    }
}

/// Whether a condition counts as true on a row; without one all rows pass.
pub open spec fn passes(having: Option<ExprView>, row: RowView, schema: Seq<ColumnView>) -> bool {
    match having {
        Some(h) => value_of(h, row, schema) matches Ok(v) && truthy(v),
        None => true,
    }
}

/// An aggregation puts out one row for each group on which HAVING counts as true, in the
/// order of the groups: the values of the group's key, then those of the functions. A
/// group on which HAVING is false or null is held back, and where it has no value at all
/// on some group the aggregation fails.
pub proof fn lemma_groups_pass(a: AggregateOpView, rows: Seq<RowView>)
    ensures
        ({
            let after = aggregate_step(a, rows).1.groups;
            let all = after.map_values(
                |g: (Seq<ValueView>, Seq<AccumulatorView>)|
                    bare_row(g.0 + g.1.map_values(|x: AccumulatorView| aggregate_value(x))),
            );
            aggregate_step(a, rows).0 matches Ok(out) ==> {
                &&& out == all.filter(|r: RowView| passes(a.having, r, a.output_schema))
                &&& a.having matches Some(h) ==> forall|i: int|
                    0 <= i < all.len() ==> value_of(h, #[trigger] all[i], a.output_schema) is Ok
            }
        }),
{
    let after = aggregate_step(a, rows).1.groups;
    if aggregate_step(a, rows).0 is Ok {
        lemma_groups_pass_from(after, a.having, a.output_schema, 0);
        let all = after.map_values(
            |g: (Seq<ValueView>, Seq<AccumulatorView>)|
                bare_row(g.0 + g.1.map_values(|x: AccumulatorView| aggregate_value(x))),
        );
        assert(all.skip(0) =~= all);
    }
}

proof fn lemma_groups_pass_from(
    groups: Seq<(Seq<ValueView>, Seq<AccumulatorView>)>,
    having: Option<ExprView>,
    schema: Seq<ColumnView>,
    i: nat,
)
    requires
        i <= groups.len(),
    ensures
        ({
            let all = groups.map_values(
                |g: (Seq<ValueView>, Seq<AccumulatorView>)|
                    bare_row(g.0 + g.1.map_values(|x: AccumulatorView| aggregate_value(x))),
            );
            groups_out(groups, having, schema, i) matches Ok(out) ==> {
                &&& out == all.skip(i as int).filter(|r: RowView| passes(having, r, schema))
                &&& having matches Some(h) ==> forall|k: int|
                    i <= k < all.len() ==> value_of(h, #[trigger] all[k], schema) is Ok
            }
        }),
    decreases groups.len() - i,
{
    let all = groups.map_values(
        |g: (Seq<ValueView>, Seq<AccumulatorView>)|
            bare_row(g.0 + g.1.map_values(|x: AccumulatorView| aggregate_value(x))),
    );
    let p = |r: RowView| passes(having, r, schema);
    if i < groups.len() {
        lemma_groups_pass_from(groups, having, schema, i + 1);
        let rest = all.skip((i + 1) as int);
        assert(all.skip(i as int) =~= seq![all[i as int]] + rest);
        rest.lemma_filter_prepend(all[i as int], p);
        assert(Seq::empty() + rest.filter(p) =~= rest.filter(p));
    } else {
        reveal(Seq::filter);
        assert(all.skip(i as int) =~= Seq::empty());
    }
}

/// Whether a row has a key: each of the expressions that rows are grouped by has a value
/// on it that equals the key's.
#[verifier::opaque]
pub open spec fn has_key(
    group_by: Seq<ExprView>,
    schema: Seq<ColumnView>,
    key: Seq<ValueView>,
    row: RowView,
) -> bool {
    values_of(group_by, row, schema, 0) matches Ok(k) && k.len() == key.len() && forall|q: int|
        0 <= q < k.len() ==> equal(#[trigger] key[q], k[q])
}

/// A row has a key where its own is the same.
pub proof fn lemma_has_key(
    group_by: Seq<ExprView>,
    schema: Seq<ColumnView>,
    key: Seq<ValueView>,
    row: RowView,
)
    ensures
        has_key(group_by, schema, key, row) <==> (values_of(group_by, row, schema, 0) matches Ok(k)
            && same_key(key, k)),
{
    reveal(same_key);
    reveal(has_key);
    if let Ok(k) = values_of(group_by, row, schema, 0) {
        lemma_equal_lists(key, k);
    }
}

/// What accumulators hold that have taken in rows, one after the other.
#[verifier::opaque]
pub open spec fn rows_taken(
    aggregates: Seq<AggregateView>,
    schema: Seq<ColumnView>,
    rows: Seq<RowView>,
) -> Seq<AccumulatorView>
    decreases rows.len(),
{
    if rows.len() == 0 {
        fresh_all(functions_of(aggregates))
    } else {
        row_taken(
            rows_taken(aggregates, schema, rows.drop_last()),
            aggregates,
            rows.last(),
            schema,
            0,
        ).0
    }
}

/// The values of an expression on rows.
pub open spec fn values_on(e: ExprView, rows: Seq<RowView>, schema: Seq<ColumnView>) -> Seq<
    ValueView,
> {
    rows.map_values(|r: RowView| value_of(e, r, schema)->Ok_0)
}

proof fn lemma_same_start(f: AccumulatorView, s: Seq<ValueView>, t: Seq<ValueView>, n: nat)
    requires
        n <= s.len(),
        n <= t.len(),
        forall|i: int| 0 <= i < n ==> s[i] == t[i],
    ensures
        accumulated_all(f, s, n) == accumulated_all(f, t, n),
    decreases n,
{
    if n > 0 {
        lemma_same_start(f, s, t, (n - 1) as nat);
    }
}

#[verifier::spinoff_prover]
#[verifier::rlimit(40)]
proof fn lemma_function_step(
    held: Seq<AccumulatorView>,
    aggregates: Seq<AggregateView>,
    row: RowView,
    schema: Seq<ColumnView>,
    x: int,
)
    requires
        held.len() == aggregates.len(),
        0 <= x < aggregates.len(),
        evaluates(aggregates, row, schema, 0),
    ensures
        row_taken(held, aggregates, row, schema, 0).0.len() == aggregates.len(),
        row_taken(held, aggregates, row, schema, 0).0[x] == if aggregates[x].expr is Wildcard {
            counted(held[x])
        } else {
            accumulated(held[x], value_of(aggregates[x].expr, row, schema)->Ok_0)
        },
{
    lemma_taken_in(held, aggregates, row, schema, 0);
    lemma_row_taken(held, aggregates, row, schema, 0);
}

proof fn lemma_rows_step(
    aggregates: Seq<AggregateView>,
    schema: Seq<ColumnView>,
    rows: Seq<RowView>,
    x: int,
)
    requires
        rows.len() > 0,
        rows_taken(aggregates, schema, rows.drop_last()).len() == aggregates.len(),
        0 <= x < aggregates.len(),
        evaluates(aggregates, rows.last(), schema, 0),
    ensures
        rows_taken(aggregates, schema, rows).len() == aggregates.len(),
        ({
            let held = rows_taken(aggregates, schema, rows.drop_last())[x];
            rows_taken(aggregates, schema, rows)[x] == if aggregates[x].expr is Wildcard {
                counted(held)
            } else {
                accumulated(held, value_of(aggregates[x].expr, rows.last(), schema)->Ok_0)
            }
        }),
{
    reveal(rows_taken);
    let held = rows_taken(aggregates, schema, rows.drop_last());
    lemma_function_step(held, aggregates, rows.last(), schema, x);
}

proof fn lemma_rows_start(aggregates: Seq<AggregateView>, schema: Seq<ColumnView>, x: int)
    requires
        0 <= x < aggregates.len(),
    ensures
        rows_taken(aggregates, schema, Seq::empty()).len() == aggregates.len(),
        rows_taken(aggregates, schema, Seq::empty())[x] == fresh(
            aggregates[x].function,
            aggregates[x].distinct,
        ),
{
    reveal(rows_taken);
    let f = aggregates[x];
    assert(functions_of(aggregates)[x] == (f.function, f.distinct));
}

/// What one of the functions holds: it has taken in its values on the rows, or counted
/// the rows.
pub proof fn lemma_function_taken(
    aggregates: Seq<AggregateView>,
    schema: Seq<ColumnView>,
    rows: Seq<RowView>,
    x: int,
)
    requires
        rows.len() <= i64::MAX,
        0 <= x < aggregates.len(),
        forall|i: int| 0 <= i < rows.len() ==> evaluates(aggregates, #[trigger] rows[i], schema, 0),
    ensures
        ({
            let f = aggregates[x];
            let start = fresh(f.function, f.distinct);
            let values = values_on(f.expr, rows, schema);
            &&& rows_taken(aggregates, schema, rows).len() == aggregates.len()
            &&& rows_taken(aggregates, schema, rows)[x] == if f.expr is Wildcard {
                AccumulatorView { count: rows.len() as i64, ..start }
            } else {
                accumulated_all(start, values, values.len())
            }
        }),
    decreases rows.len(),
{
    let f = aggregates[x];
    let start = fresh(f.function, f.distinct);
    let values = values_on(f.expr, rows, schema);
    if rows.len() == 0 {
        assert(rows =~= Seq::empty());
        lemma_rows_start(aggregates, schema, x);
    } else {
        let before = rows.drop_last();
        assert forall|i: int| 0 <= i < before.len() implies evaluates(
            aggregates,
            #[trigger] before[i],
            schema,
            0,
        ) by {
            assert(before[i] == rows[i]);
        }
        lemma_function_taken(aggregates, schema, before, x);
        assert(rows.last() == rows[rows.len() - 1]);
        lemma_rows_step(aggregates, schema, rows, x);
        if f.expr is Wildcard {
            assert(wrapped((before.len() + 1) as int) == rows.len());
        } else {
            let earlier = values_on(f.expr, before, schema);
            lemma_same_start(start, earlier, values, earlier.len());
        }
    }
}

proof fn lemma_group_rows_taken(
    a: AggregateOpView,
    key: Seq<ValueView>,
    rows: Seq<RowView>,
    n: nat,
)
    requires
        n <= rows.len(),
    ensures
        group_taken(a, key, rows, n) == rows_taken(
            a.aggregates,
            a.input_schema,
            rows.take(n as int).filter(
                |r: RowView| has_key(a.group_by, a.input_schema, key, r),
            ),
        ),
    decreases n,
{
    let p = |r: RowView| has_key(a.group_by, a.input_schema, key, r);
    reveal(Seq::filter);
    reveal(rows_taken);
    if n > 0 {
        lemma_group_rows_taken(a, key, rows, (n - 1) as nat);
        let some = rows.take(n as int);
        assert(some.drop_last() =~= rows.take(n - 1));
        assert(some.last() == rows[n - 1]);
        lemma_has_key(a.group_by, a.input_schema, key, rows[n - 1]);
        let before = rows.take(n - 1).filter(p);
        assert(before.push(rows[n - 1]).drop_last() =~= before);
    } else {
        assert(rows.take(0) =~= Seq::empty());
    }
}

/// What a function gives for the rows with a key, among some rows: it is computed from
/// its values on just these rows, in their order. COUNT(*) is how many they are.
pub open spec fn is_function_of(
    value: ValueView,
    f: AggregateView,
    rows: Seq<RowView>,
    schema: Seq<ColumnView>,
) -> bool {
    let values = rows.map_values(|r: RowView| value_of(f.expr, r, schema)->Ok_0);
    if f.expr is Wildcard {
        f.function is Count ==> value == ValueView::Integer(rows.len() as i64)
    } else {
        value == aggregate_value(
            accumulated_all(fresh(f.function, f.distinct), values, values.len()),
        )
    }
}

proof fn lemma_row_has_group(a: AggregateOpView, rows: Seq<RowView>, i: int) -> (g: int)
    requires
        a.groups.len() == 0,
        keys_hold(a, rows, 0),
        aggregate_step(a, rows).0 is Ok,
        0 <= i < rows.len(),
    ensures
        0 <= g < aggregate_step(a, rows).1.groups.len(),
        has_key(a.group_by, a.input_schema, aggregate_step(a, rows).1.groups[g].0, rows[i]),
{
    let groups = aggregate_step(a, rows).1.groups;
    assert(a.groups =~= Seq::empty());
    lemma_groups(a, rows);
    assert(has_group(a, groups, rows[i]));
    let g = choose|g: int| 0 <= g < groups.len() && belongs(a, (#[trigger] groups[g]).0, rows[i]);
    lemma_has_key(a.group_by, a.input_schema, groups[g].0, rows[i]);
    g
}

proof fn lemma_row_has_one_group(
    a: AggregateOpView,
    rows: Seq<RowView>,
    i: int,
    g: int,
    h: int,
)
    requires
        a.groups.len() == 0,
        keys_hold(a, rows, 0),
        aggregate_step(a, rows).0 is Ok,
        0 <= i < rows.len(),
        0 <= g < aggregate_step(a, rows).1.groups.len(),
        0 <= h < aggregate_step(a, rows).1.groups.len(),
        has_key(a.group_by, a.input_schema, aggregate_step(a, rows).1.groups[g].0, rows[i]),
        has_key(a.group_by, a.input_schema, aggregate_step(a, rows).1.groups[h].0, rows[i]),
    ensures
        g == h,
{
    let groups = aggregate_step(a, rows).1.groups;
    assert(a.groups =~= Seq::empty());
    lemma_groups(a, rows);
    lemma_has_key(a.group_by, a.input_schema, groups[g].0, rows[i]);
    lemma_has_key(a.group_by, a.input_schema, groups[h].0, rows[i]);
    let k = row_key(a, rows[i])->Ok_0;
    lemma_keys_symmetric(groups[h].0, k);
    lemma_keys_transitive(groups[g].0, k, groups[h].0);
    lemma_keys_symmetric(groups[g].0, groups[h].0);
}

proof fn lemma_group_has_row(a: AggregateOpView, rows: Seq<RowView>, g: int) -> (i: int)
    requires
        a.groups.len() == 0,
        keys_hold(a, rows, 0),
        aggregate_step(a, rows).0 is Ok,
        0 <= g < aggregate_step(a, rows).1.groups.len(),
    ensures
        0 <= i < rows.len(),
        values_of(a.group_by, rows[i], a.input_schema, 0) == Ok::<Seq<ValueView>, Seq<char>>(
            aggregate_step(a, rows).1.groups[g].0,
        ),
        aggregate_step(a, rows).1.groups[g].1 == group_taken(
            a,
            aggregate_step(a, rows).1.groups[g].0,
            rows,
            rows.len(),
        ),
{
    let groups = aggregate_step(a, rows).1.groups;
    assert(a.groups =~= Seq::empty());
    lemma_groups(a, rows);
    assert(has_row(a, groups[g].0, rows, rows.len()));
    choose|i: int|
        0 <= i < rows.len() && row_key(a, #[trigger] rows[i]) == Ok::<Seq<ValueView>, Seq<char>>(
            groups[g].0,
        )
}

proof fn lemma_group_functions(a: AggregateOpView, rows: Seq<RowView>, g: int, x: int)
    requires
        a.groups.len() == 0,
        rows.len() <= i64::MAX,
        keys_hold(a, rows, 0),
        aggregate_step(a, rows).0 is Ok,
        0 <= g < aggregate_step(a, rows).1.groups.len(),
        0 <= x < a.aggregates.len(),
    ensures
        ({
            let group = aggregate_step(a, rows).1.groups[g];
            group.1.len() == a.aggregates.len() && is_function_of(
                aggregate_value(group.1[x]),
                a.aggregates[x],
                rows.filter(|r: RowView| has_key(a.group_by, a.input_schema, group.0, r)),
                a.input_schema,
            )
        }),
{
    let group = aggregate_step(a, rows).1.groups[g];
    let p = |r: RowView| has_key(a.group_by, a.input_schema, group.0, r);
    let mine = rows.filter(p);
    let i = lemma_group_has_row(a, rows, g);
    assert(a.groups =~= Seq::empty());
    lemma_grouped_ok(a, Seq::empty(), rows, 0);
    lemma_group_rows_taken(a, group.0, rows, rows.len());
    assert(rows.take(rows.len() as int) =~= rows);
    rows.lemma_filter_len(p);
    assert forall|i: int| 0 <= i < mine.len() implies evaluates(
        a.aggregates,
        #[trigger] mine[i],
        a.input_schema,
        0,
    ) by {
        assert(mine.contains(mine[i]));
        rows.lemma_filter_contains_rev(p, mine[i]);
        let k = choose|k: int| 0 <= k < rows.len() && rows[k] == mine[i];
        assert(row_key(a, rows[k]) is Ok);
    }
    lemma_function_taken(a.aggregates, a.input_schema, mine, x);
}

/// An aggregation that has taken in rows has one group for each key of them: each row has
/// the key of just one group, and each group has the key of a row. The value of each
/// function for a group comes from just the rows that have its key.
pub proof fn lemma_grouped_rows(
    a: AggregateOpView,
    rows: Seq<RowView>,
    i: int,
    g: int,
    h: int,
    x: int,
)
    requires
        a.groups.len() == 0,
        rows.len() <= i64::MAX,
        keys_hold(a, rows, 0),
        aggregate_step(a, rows).0 is Ok,
        0 <= i < rows.len(),
        0 <= g < aggregate_step(a, rows).1.groups.len(),
        0 <= h < aggregate_step(a, rows).1.groups.len(),
        0 <= x < a.aggregates.len(),
    ensures
        ({
            let groups = aggregate_step(a, rows).1.groups;
            &&& exists|f: int|
                0 <= f < groups.len() && has_key(
                    a.group_by,
                    a.input_schema,
                    (#[trigger] groups[f]).0,
                    rows[i],
                )
            &&& has_key(a.group_by, a.input_schema, groups[g].0, rows[i]) && has_key(
                a.group_by,
                a.input_schema,
                groups[h].0,
                rows[i],
            ) ==> g == h
            &&& exists|k: int|
                0 <= k < rows.len() && values_of(a.group_by, #[trigger] rows[k], a.input_schema, 0)
                    == Ok::<Seq<ValueView>, Seq<char>>(groups[g].0)
            &&& groups[g].1.len() == a.aggregates.len()
            &&& is_function_of(
                aggregate_value(groups[g].1[x]),
                a.aggregates[x],
                rows.filter(|r: RowView| has_key(a.group_by, a.input_schema, groups[g].0, r)),
                a.input_schema,
            )
        }),
{
    let groups = aggregate_step(a, rows).1.groups;
    let f = lemma_row_has_group(a, rows, i);
    assert(has_key(a.group_by, a.input_schema, groups[f].0, rows[i]));
    if has_key(a.group_by, a.input_schema, groups[g].0, rows[i]) && has_key(
        a.group_by,
        a.input_schema,
        groups[h].0,
        rows[i],
    ) {
        lemma_row_has_one_group(a, rows, i, g, h);
    }
    let k = lemma_group_has_row(a, rows, g);
    assert(values_of(a.group_by, rows[k], a.input_schema, 0) is Ok);
    lemma_group_functions(a, rows, g, x);
}

/// Rows whose keys differ at one place, in integers or texts, say, are taken in by two
/// groups: no group has the key of both.
pub proof fn lemma_groups_apart(
    a: AggregateOpView,
    rows: Seq<RowView>,
    i: int,
    j: int,
    x: Seq<ValueView>,
    y: Seq<ValueView>,
    q: int,
)
    requires
        a.groups.len() == 0,
        rows.len() <= i64::MAX,
        keys_hold(a, rows, 0),
        aggregate_step(a, rows).0 is Ok,
        0 <= i < rows.len(),
        0 <= j < rows.len(),
        values_of(a.group_by, rows[i], a.input_schema, 0) == Ok::<Seq<ValueView>, Seq<char>>(x),
        values_of(a.group_by, rows[j], a.input_schema, 0) == Ok::<Seq<ValueView>, Seq<char>>(y),
        0 <= q < x.len(),
        q < y.len(),
        x[q] != y[q],
        x[q] is Integer || x[q] is String || x[q] is Boolean || x[q] is Null || x[q] is Timestamp,
    ensures
        ({
            let groups = aggregate_step(a, rows).1.groups;
            exists|g: int, h: int|
                0 <= g < groups.len() && 0 <= h < groups.len() && g != h && has_key(
                    a.group_by,
                    a.input_schema,
                    (#[trigger] groups[g]).0,
                    rows[i],
                ) && has_key(a.group_by, a.input_schema, (#[trigger] groups[h]).0, rows[j])
        }),
{
    let groups = aggregate_step(a, rows).1.groups;
    let g = lemma_row_has_group(a, rows, i);
    let h = lemma_row_has_group(a, rows, j);
    if g == h {
        lemma_has_key(a.group_by, a.input_schema, groups[g].0, rows[i]);
        lemma_has_key(a.group_by, a.input_schema, groups[g].0, rows[j]);
        lemma_keys_symmetric(groups[g].0, x);
        lemma_keys_transitive(x, groups[g].0, y);
        reveal(same_key);
        lemma_keys_differ(x, y, q);
    }
}

} // verus!
