//! Laws of the operators.
use crate::engine::operator::join::{
    joined_tables, keeps_left, keeps_right, left_matches, left_out, matches_of, right_has_match,
    right_out, span_around, stream_table_row, stream_table_rows, StreamStreamView, StreamTableView,
    TableTableView,
};
use crate::engine::operator::rows::{combined, nulls, projection_schema};
use crate::engine::operator::simple::{
    deserialized, filtered, projected, projected_row, projected_values, stored, FilterView,
    ProjectView,
};
use crate::engine::operator::window::row_time;
use crate::engine::state::laws::{
    lemma_push_contains, lemma_rows_between, lemma_upsert, lies_between,
};
use crate::engine::state::{rows_between, table_row};
use crate::expr::eval::value_of;
use crate::expr::ExprView;
use crate::json::{json_parsed, parsed_fields};
use crate::time::Timestamp;
use crate::types::{field, no_metadata, ColumnView, RowView};
use crate::value::{equal, truthy, ValueView};
use vstd::prelude::*;

pub mod columns;
pub mod groups;
pub mod joins;
pub mod windows;

verus! {

// === Reading ===

/// A row that holds a text alone.
pub open spec fn text_row(text: Seq<char>) -> RowView {
    RowView { values: seq![ValueView::String(text)], metadata: no_metadata() }
}

/// A text of which the fields of a row are read is read as just that row.
pub proof fn lemma_text_read(text: Seq<char>, values: Seq<ValueView>, schema: Seq<ColumnView>)
    requires
        parsed_fields(json_parsed(text), schema) == Some(values),
    ensures
        deserialized(seq![text_row(text)], schema, 1) == seq![
            RowView { values, metadata: no_metadata() },
        ],
{
    let rows = seq![text_row(text)];
    assert(rows[0] == text_row(text));
    assert(deserialized(rows, schema, 0) =~= Seq::empty());
    assert(deserialized(rows, schema, 1) =~= seq![
        RowView { values, metadata: no_metadata() },
    ]);
}

// === Filters ===

/// Whether the predicate of a filter holds on a row.
pub open spec fn holds_on(f: FilterView, row: RowView) -> bool {
    value_of(f.predicate, row, f.schema) matches Ok(v) && truthy(v)
}

/// A filter keeps just the rows on which its predicate holds, in their order. It
/// fails exactly where the predicate has no value on some row.
pub proof fn lemma_filter(f: FilterView, rows: Seq<RowView>, i: nat)
    requires
        i <= rows.len(),
    ensures
        filtered(f, rows, i) is Ok <==> (forall|j: int|
            i <= j < rows.len() ==> value_of(f.predicate, #[trigger] rows[j], f.schema) is Ok),
        filtered(f, rows, i) matches Ok(out) ==> out == rows.skip(i as int).filter(
            |row: RowView| holds_on(f, row),
        ),
    decreases rows.len() - i,
{
    let p = |row: RowView| holds_on(f, row);
    reveal(Seq::filter);
    if i < rows.len() {
        let row = rows[i as int];
        let rest = rows.skip(i as int + 1);
        lemma_filter(f, rows, i + 1);
        assert(rows.skip(i as int) =~= seq![row] + rest);
        Seq::filter_distributes_over_add(seq![row], rest, p);
        let one = seq![row];
        assert(one.drop_last() =~= Seq::<RowView>::empty());
        assert(one.drop_last().filter(p) =~= Seq::<RowView>::empty());
        assert(one.filter(p) =~= if p(row) {
            one
        } else {
            Seq::<RowView>::empty()
        });
        if let Ok(out) = filtered(f, rows, i) {
            assert(filtered(f, rows, i + 1) is Ok);
            let later = filtered(f, rows, i + 1)->Ok_0;
            if p(row) {
                assert(out =~= one + later);
            } else {
                assert(Seq::<RowView>::empty() + later =~= later);
            }
        }
    } else {
        assert(rows.skip(i as int) =~= Seq::<RowView>::empty());
    }
}

/// Where all elements pass, a filter changes nothing.
proof fn lemma_filter_all(s: Seq<RowView>, p: spec_fn(RowView) -> bool)
    requires
        forall|i: int| 0 <= i < s.len() ==> p(#[trigger] s[i]),
    ensures
        s.filter(p) == s,
    decreases s.len(),
{
    reveal(Seq::filter);
    if s.len() > 0 {
        lemma_filter_all(s.drop_last(), p);
        assert(s.drop_last().push(s.last()) =~= s);
    }
}

/// What a filter has kept it keeps again.
pub proof fn lemma_filter_twice(f: FilterView, rows: Seq<RowView>)
    ensures
        filtered(f, rows, 0) matches Ok(out) ==> filtered(f, out, 0) == Ok::<
            Seq<RowView>,
            Seq<char>,
        >(out),
{
    let p = |row: RowView| holds_on(f, row);
    lemma_filter(f, rows, 0);
    if let Ok(out) = filtered(f, rows, 0) {
        let all = rows.skip(0);
        assert(out == all.filter(p));
        assert forall|j: int| 0 <= j < out.len() implies p(#[trigger] out[j]) by {
            all.lemma_filter_pred(p, j);
        }
        lemma_filter(f, out, 0);
        assert(out.skip(0) =~= out);
        lemma_filter_all(out, p);
        assert(forall|j: int| 0 <= j < out.len() ==> holds_on(f, #[trigger] out[j]));
    }
}

// === Projections ===

/// A projection makes one row of each, in their order, and keeps what is known of
/// its origin. It fails exactly where it fails on some row.
#[verifier::spinoff_prover]
#[verifier::rlimit(40)]
pub proof fn lemma_project(p: ProjectView, rows: Seq<RowView>, i: nat)
    requires
        i <= rows.len(),
    ensures
        projected(p, rows, i) is Ok <==> (forall|j: int|
            i <= j < rows.len() ==> projected_row(p, #[trigger] rows[j]) is Ok),
        projected(p, rows, i) matches Ok(out) ==> {
            &&& out.len() == rows.len() - i
            &&& forall|j: int|
                0 <= j < out.len() ==> projected_row(p, rows[i + j]) == Ok::<RowView, Seq<char>>(
                    #[trigger] out[j],
                ) && out[j].metadata == rows[i + j].metadata
        },
    decreases rows.len() - i,
{
    if i < rows.len() {
        lemma_project(p, rows, i + 1);
        if let Ok(out) = projected(p, rows, i) {
            let later = projected(p, rows, i + 1)->Ok_0;
            let row = projected_row(p, rows[i as int])->Ok_0;
            assert(out == seq![row] + later);
            assert forall|j: int| 0 <= j < out.len() implies projected_row(p, rows[i + j]) == Ok::<
                RowView,
                Seq<char>,
            >(#[trigger] out[j]) && out[j].metadata == rows[i + j].metadata by {
                if j > 0 {
                    assert(out[j] == later[j - 1]);
                    assert(rows[(i + 1) + (j - 1)] == rows[i + j]);
                }
            }
            assert(forall|j: int|
                i <= j < rows.len() ==> projected_row(p, #[trigger] rows[j]) is Ok);
        }
        if forall|j: int| i <= j < rows.len() ==> projected_row(p, #[trigger] rows[j]) is Ok {
            assert(projected_row(p, rows[i as int]) is Ok);
        }
    }
}

proof fn lemma_projected_width(
    expressions: Seq<ExprView>,
    row: RowView,
    schema: Seq<ColumnView>,
    i: nat,
)
    requires
        row.values.len() == schema.len(),
        i <= expressions.len(),
    ensures
        projected_values(expressions, row, schema, i) matches Ok(values) ==> projection_schema(
            expressions,
            schema,
            i,
        ).len() + values.len() == projection_schema(expressions, schema, expressions.len()).len(),
    decreases expressions.len() - i,
{
    if i < expressions.len() {
        lemma_projected_width(expressions, row, schema, i + 1);
    }
}

/// The rows of a projection have a value for each of its columns.
pub proof fn lemma_projection_fits(p: ProjectView, row: RowView)
    requires
        row.values.len() == p.input_schema.len(),
        p.output_schema == projection_schema(p.expressions, p.input_schema, p.expressions.len()),
    ensures
        projected_row(p, row) matches Ok(out) ==> out.values.len() == p.output_schema.len(),
{
    lemma_projected_width(p.expressions, row, p.input_schema, 0);
    if p.expressions.len() == 1 && p.expressions[0] is Wildcard {
        reveal_with_fuel(projection_schema, 2);
        assert(projection_schema(p.expressions, p.input_schema, 1) =~= p.input_schema);
    }
}

// === Joins ===

/// A join of a stream with a table makes at most one row of each row of the stream, in
/// their order.
pub proof fn lemma_stream_table(j: StreamTableView, rows: Seq<RowView>, n: nat)
    requires
        n <= rows.len(),
    ensures
        stream_table_rows(j, rows, n) == rows.take(n as int).filter_map(
            |row: RowView| stream_table_row(j, row),
        ),
    decreases n,
{
    let f = |row: RowView| stream_table_row(j, row);
    let s = rows.take(n as int);
    if n > 0 {
        lemma_stream_table(j, rows, (n - 1) as nat);
        assert(s.drop_last() =~= rows.take(n - 1));
        assert(s.last() == rows[n - 1]);
        if let Some(row) = stream_table_row(j, rows[n - 1]) {
            let before = stream_table_rows(j, rows, (n - 1) as nat);
            assert(before.push(row) =~= before + seq![row]);
        }
    }
}

/// A join that keeps rows without a match makes exactly one row of each row of the
/// stream; that row starts with the values of the stream's row.
pub proof fn lemma_left_join_keeps_all(j: StreamTableView, rows: Seq<RowView>, n: nat)
    requires
        keeps_left(j.join_type),
        n <= rows.len(),
    ensures
        stream_table_rows(j, rows, n).len() == n,
        forall|i: int|
            0 <= i < n ==> (#[trigger] stream_table_rows(j, rows, n)[i]).metadata
                == rows[i].metadata && stream_table_row(j, rows[i]) == Some(
                stream_table_rows(j, rows, n)[i],
            ) && stream_table_rows(j, rows, n)[i].values.take(rows[i].values.len() as int)
                == rows[i].values,
    decreases n,
{
    if n > 0 {
        lemma_left_join_keeps_all(j, rows, (n - 1) as nat);
        let row = rows[n - 1];
        let out = stream_table_row(j, row)->0;
        assert(out.values.take(row.values.len() as int) =~= row.values);
        let before = stream_table_rows(j, rows, (n - 1) as nat);
        let all = stream_table_rows(j, rows, n);
        assert forall|i: int| 0 <= i < n implies (#[trigger] all[i]).metadata == rows[i].metadata
            && stream_table_row(j, rows[i]) == Some(all[i]) && all[i].values.take(
            rows[i].values.len() as int,
        ) == rows[i].values by {
            if i < n - 1 {
                assert(all[i] == before[i]);
            }
        }
    }
}

/// A row of the right stream that matches a row of the left one is kept by the join,
/// lies within the span around it, and has the same key.
pub open spec fn is_match(j: StreamStreamView, row: RowView, now: Timestamp, other: int) -> bool {
    &&& 0 <= other < j.right.len()
    &&& span_around(row_time(row, now), j.within) matches Some((from, to)) && lies_between(
        j.right[other].0,
        from,
        to,
    )
    &&& equal(
        field(row.values, j.left_key_index),
        field(j.right[other].1.values, j.right_key_index),
    )
}

proof fn lemma_matches_of(
    row: RowView,
    key: ValueView,
    candidates: Seq<RowView>,
    key_index: int,
    n: nat,
    out: RowView,
)
    requires
        n <= candidates.len(),
    ensures
        matches_of(row, key, candidates, key_index, true, n).contains(out) <==> exists|i: int|
            0 <= i < n && equal(key, field((#[trigger] candidates[i]).values, key_index)) && out
                == combined(row, candidates[i]),
    decreases n,
{
    let all = matches_of(row, key, candidates, key_index, true, n);
    if n > 0 {
        let before = matches_of(row, key, candidates, key_index, true, (n - 1) as nat);
        let other = candidates[n - 1];
        lemma_matches_of(row, key, candidates, key_index, (n - 1) as nat, out);
        if equal(key, field(other.values, key_index)) {
            let made = combined(row, other);
            assert(all == before.push(made));
            if before.contains(out) {
                let k = choose|k: int| 0 <= k < before.len() && before[k] == out;
                assert(all[k] == out);
            }
            if out == made {
                assert(all[before.len() as int] == out);
            }
            if all.contains(out) {
                let k = choose|k: int| 0 <= k < all.len() && all[k] == out;
                if k < before.len() {
                    assert(before[k] == out);
                }
            }
        }
        if exists|i: int|
            0 <= i < n && equal(key, field((#[trigger] candidates[i]).values, key_index)) && out
                == combined(row, candidates[i]) {
            let i = choose|i: int|
                0 <= i < n && equal(key, field((#[trigger] candidates[i]).values, key_index))
                    && out == combined(row, candidates[i]);
            if i < n - 1 {
                assert(before.contains(out));
            }
        }
    }
}

/// A join of two streams joins a row of the left one with every row of the right one
/// that has its key and lies within the span around it, and with no other. A join
/// that keeps rows without a match fills in nulls where there is none.
pub proof fn lemma_stream_stream(
    j: StreamStreamView,
    row: RowView,
    now: Timestamp,
    out: RowView,
)
    ensures
        left_matches(j, row, now) is Some <==> span_around(row_time(row, now), j.within) is Some,
        left_matches(j, row, now) matches Some(found) ==> (found.contains(out) <==> (exists|i: int|
            #[trigger] is_match(j, row, now, i) && out == combined(row, j.right[i].1)) || (
        keeps_left(j.join_type) && out == combined(row, nulls(j.right_schema)) && (forall|i: int|
            !#[trigger] is_match(j, row, now, i)))),
{
    if let Some((from, to)) = span_around(row_time(row, now), j.within) {
        let key = field(row.values, j.left_key_index);
        let candidates = rows_between(j.right, from, to, j.right.len());
        let n = candidates.len();
        let found = matches_of(row, key, candidates, j.right_key_index, true, n);
        lemma_matches_of(row, key, candidates, j.right_key_index, n, out);
        if found.contains(out) {
            let i = choose|i: int|
                0 <= i < n && equal(
                    key,
                    field((#[trigger] candidates[i]).values, j.right_key_index),
                ) && out == combined(row, candidates[i]);
            lemma_rows_between(j.right, from, to, j.right.len(), candidates[i]);
            assert(candidates.contains(candidates[i]));
            let k = choose|k: int|
                0 <= k < j.right.len() && (#[trigger] j.right[k]).1 == candidates[i]
                    && lies_between(j.right[k].0, from, to);
            assert(is_match(j, row, now, k));
        }
        assert forall|k: int| #[trigger] is_match(j, row, now, k) implies found.contains(
            combined(row, j.right[k].1),
        ) by {
            let other = j.right[k].1;
            lemma_rows_between(j.right, from, to, j.right.len(), other);
            assert(candidates.contains(other));
            let i = choose|i: int| 0 <= i < candidates.len() && candidates[i] == other;
            lemma_matches_of(row, key, candidates, j.right_key_index, n, combined(row, other));
            assert(equal(key, field(candidates[i].values, j.right_key_index)));
        }
        if found.len() == 0 {
            assert forall|i: int| !#[trigger] is_match(j, row, now, i) by {
                if is_match(j, row, now, i) {
                    assert(found.contains(combined(row, j.right[i].1)));
                }
            }
            let filled = combined(row, nulls(j.right_schema));
            if keeps_left(j.join_type) {
                assert(seq![filled][0] == filled);
            }
        } else {
            let first = found[0];
            lemma_matches_of(row, key, candidates, j.right_key_index, n, first);
            assert(found.contains(first));
            let i = choose|i: int|
                0 <= i < n && equal(
                    key,
                    field((#[trigger] candidates[i]).values, j.right_key_index),
                ) && first == combined(row, candidates[i]);
            lemma_rows_between(j.right, from, to, j.right.len(), candidates[i]);
            assert(candidates.contains(candidates[i]));
            let k = choose|k: int|
                0 <= k < j.right.len() && (#[trigger] j.right[k]).1 == candidates[i]
                    && lies_between(j.right[k].0, from, to);
            assert(is_match(j, row, now, k));
        }
    }
}

/// Whether a row is what a join of two tables makes of a row of the left one.
pub open spec fn from_left(j: TableTableView, i: int, out: RowView) -> bool {
    &&& 0 <= i < j.left.len()
    &&& match table_row(j.right, j.left[i].0) {
        Some(right) => out == combined(j.left[i].1, right),
        None => keeps_left(j.join_type) && out == combined(j.left[i].1, nulls(j.right_schema)),
    }
}

/// Whether a row is what a join of two tables makes of a row of the right one that
/// has no match.
pub open spec fn from_right(j: TableTableView, i: int, out: RowView) -> bool {
    &&& 0 <= i < j.right.len()
    &&& keeps_right(j.join_type)
    &&& !right_has_match(j, j.right[i].0)
    &&& out == combined(nulls(j.left_schema), j.right[i].1)
}

proof fn lemma_left_out(j: TableTableView, n: nat, out: RowView)
    requires
        n <= j.left.len(),
    ensures
        left_out(j, n).contains(out) <==> exists|i: int|
            0 <= i < n && #[trigger] from_left(j, i, out),
    decreases n,
{
    if n > 0 {
        let all = left_out(j, n);
        let before = left_out(j, (n - 1) as nat);
        lemma_left_out(j, (n - 1) as nat, out);
        if all.len() > before.len() {
            lemma_push_contains(before, all.last(), out);
            assert(all == before.push(all.last()));
        }
        if from_left(j, n - 1, out) {
            assert(all.contains(out));
        }
        if exists|i: int| 0 <= i < n && #[trigger] from_left(j, i, out) {
            let i = choose|i: int| 0 <= i < n && #[trigger] from_left(j, i, out);
            assert(i == n - 1 || before.contains(out));
        }
        if all.contains(out) && !before.contains(out) {
            assert(from_left(j, n - 1, out));
        }
    }
}

proof fn lemma_right_out(j: TableTableView, n: nat, out: RowView)
    requires
        n <= j.right.len(),
        keeps_right(j.join_type),
    ensures
        right_out(j, n).contains(out) <==> exists|i: int|
            0 <= i < n && #[trigger] from_right(j, i, out),
    decreases n,
{
    if n > 0 {
        let all = right_out(j, n);
        let before = right_out(j, (n - 1) as nat);
        lemma_right_out(j, (n - 1) as nat, out);
        if all.len() > before.len() {
            lemma_push_contains(before, all.last(), out);
            assert(all == before.push(all.last()));
        }
        if from_right(j, n - 1, out) {
            assert(all.contains(out));
        }
        if exists|i: int| 0 <= i < n && #[trigger] from_right(j, i, out) {
            let i = choose|i: int| 0 <= i < n && #[trigger] from_right(j, i, out);
            assert(i == n - 1 || before.contains(out));
        }
        if all.contains(out) && !before.contains(out) {
            assert(from_right(j, n - 1, out));
        }
    }
}

/// A join of two tables makes a row of each pair of rows with the same key, of each
/// row without a match on a side that it keeps, and no other.
pub proof fn lemma_tables(j: TableTableView, out: RowView)
    ensures
        joined_tables(j).contains(out) <==> (exists|i: int| #[trigger] from_left(j, i, out)) || (
        exists|i: int| #[trigger] from_right(j, i, out)),
{
    let left = left_out(j, j.left.len());
    lemma_left_out(j, j.left.len(), out);
    if keeps_right(j.join_type) {
        let right = right_out(j, j.right.len());
        lemma_right_out(j, j.right.len(), out);
        let all = left + right;
        if all.contains(out) {
            let k = choose|k: int| 0 <= k < all.len() && all[k] == out;
            if k < left.len() {
                assert(left[k] == out);
            } else {
                assert(right[k - left.len()] == out);
            }
        }
        if left.contains(out) {
            let k = choose|k: int| 0 <= k < left.len() && left[k] == out;
            assert(all[k] == out);
        }
        if right.contains(out) {
            let k = choose|k: int| 0 <= k < right.len() && right[k] == out;
            assert(all[left.len() + k] == out);
        }
    }
}

/// The table holds, for each key, the last of the rows stored under it.
pub proof fn lemma_stored(
    table: Seq<(ValueView, RowView)>,
    rows: Seq<RowView>,
    key_index: int,
    n: nat,
    key: ValueView,
)
    requires
        n <= rows.len(),
    ensures
        (forall|i: int|
            0 <= i < n ==> !equal(field((#[trigger] rows[i]).values, key_index), key)) ==> table_row(
            stored(table, rows, key_index, n),
            key,
        ) == table_row(table, key),
        forall|i: int|
            #![trigger rows[i]]
            0 <= i < n && equal(field(rows[i].values, key_index), key) && (forall|k: int|
                i < k < n ==> !equal(field((#[trigger] rows[k]).values, key_index), key))
                ==> table_row(stored(table, rows, key_index, n), key) == Some(rows[i]),
    decreases n,
{
    if n > 0 {
        let before = stored(table, rows, key_index, (n - 1) as nat);
        let last = rows[n - 1];
        lemma_stored(table, rows, key_index, (n - 1) as nat, key);
        lemma_upsert(before, field(last.values, key_index), last, key);
        assert forall|i: int|
            #![trigger rows[i]]
            0 <= i < n && equal(field(rows[i].values, key_index), key) && (forall|k: int|
                i < k < n ==> !equal(
                    field((#[trigger] rows[k]).values, key_index),
                    key,
                )) implies table_row(stored(table, rows, key_index, n), key) == Some(rows[i]) by {
            if i < n - 1 {
                assert(!equal(field(rows[n - 1].values, key_index), key));
            }
        }
    }
}

} // verus!
