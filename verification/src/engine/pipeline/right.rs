//! Laws of the right side of a join: what is put into it is what later batches are
//! joined to.
use crate::engine::operator::join::laws::{is_near, lemma_left_meets};
use crate::engine::operator::join::{
    left_step, right_kept, span_around, stream_table_row, stream_table_rows, StreamStreamView,
    StreamTableView,
};
use crate::engine::operator::laws::lemma_stored;
use crate::engine::operator::rows::combined;
use crate::engine::operator::window::row_time;
use crate::engine::operator::{step, OperatorView};
use crate::engine::pipeline::{join_in_place, joined_right, run, PipelineView};
use crate::engine::state::{buffered, lemma_time_place, time_place};
use crate::time::Timestamp;
use crate::types::{field, RowView};
use crate::value::equal;
use vstd::prelude::*;

verus! {

/// Operators after the first `n` of batches went through them, each at its time.
pub open spec fn after_runs(
    ops: Seq<OperatorView>,
    batches: Seq<(Seq<RowView>, Timestamp)>,
    n: nat,
) -> Seq<OperatorView>
    decreases n,
{
    if n == 0 {
        ops
    } else {
        let before = after_runs(ops, batches, (n - 1) as nat);
        run(before, batches[n - 1].0, batches[n - 1].1, 0).1
    }
}

/// The rows that come to an operator when a batch goes through those from a place on, if
/// any do.
pub open spec fn rows_at(
    ops: Seq<OperatorView>,
    rows: Seq<RowView>,
    now: Timestamp,
    i: nat,
    place: nat,
) -> Option<Seq<RowView>>
    decreases place - i,
{
    if i >= place {
        Some(rows)
    } else {
        match step(ops[i as int], rows, now).0 {
            Some(Ok(output)) => if output.len() == 0 {
                None
            } else {
                rows_at(ops, output, now, i + 1, place)
            },
            _ => None,
        }
    }
}

/// Whether two joins have the same right side, and match rows in the same way.
pub open spec fn same_right(a: OperatorView, b: OperatorView) -> bool {
    match (a, b) {
        (OperatorView::StreamTable(x), OperatorView::StreamTable(y)) => x == y,
        (OperatorView::StreamStream(x), OperatorView::StreamStream(y)) => y == (
        StreamStreamView { left: y.left, ..x }),
        _ => !(a is StreamTable) && !(a is StreamStream),
    }
}

proof fn lemma_left_step_keeps_right(
    j: StreamStreamView,
    rows: Seq<RowView>,
    now: Timestamp,
    i: nat,
)
    ensures
        left_step(j, rows, now, i).1 == (StreamStreamView {
            left: left_step(j, rows, now, i).1.left,
            ..j
        }),
    decreases rows.len() - i,
{
    if i < rows.len() {
        let row = rows[i as int];
        let kept = StreamStreamView { left: buffered(j.left, row_time(row, now), row), ..j };
        lemma_left_step_keeps_right(kept, rows, now, i + 1);
    }
}

proof fn lemma_run_keeps_right(
    ops: Seq<OperatorView>,
    rows: Seq<RowView>,
    now: Timestamp,
    i: nat,
)
    ensures
        run(ops, rows, now, i).1.len() == ops.len(),
        forall|k: int|
            0 <= k < ops.len() ==> same_right(ops[k], #[trigger] run(ops, rows, now, i).1[k]),
    decreases ops.len() - i,
{
    if i < ops.len() {
        let (r, next) = step(ops[i as int], rows, now);
        let after = ops.update(i as int, next);
        if let OperatorView::StreamStream(j) = ops[i as int] {
            lemma_left_step_keeps_right(j, rows, now, 0);
        }
        assert(same_right(ops[i as int], next));
        if let Some(Ok(output)) = r {
            if output.len() > 0 {
                lemma_run_keeps_right(after, output, now, i + 1);
                assert forall|k: int| 0 <= k < ops.len() implies same_right(
                    ops[k],
                    #[trigger] run(ops, rows, now, i).1[k],
                ) by {
                    assert(same_right(after[k], run(after, output, now, i + 1).1[k]));
                }
            }
        }
    }
}

/// However many batches go through operators, nothing of it comes to the right side of a
/// join.
pub proof fn lemma_runs_keep_right(
    ops: Seq<OperatorView>,
    batches: Seq<(Seq<RowView>, Timestamp)>,
    n: nat,
)
    requires
        n <= batches.len(),
    ensures
        after_runs(ops, batches, n).len() == ops.len(),
        forall|k: int|
            0 <= k < ops.len() ==> same_right(ops[k], #[trigger] after_runs(ops, batches, n)[k]),
    decreases n,
{
    if n > 0 {
        let before = after_runs(ops, batches, (n - 1) as nat);
        lemma_runs_keep_right(ops, batches, (n - 1) as nat);
        lemma_run_keeps_right(before, batches[n - 1].0, batches[n - 1].1, 0);
        assert forall|k: int| 0 <= k < ops.len() implies same_right(
            ops[k],
            #[trigger] after_runs(ops, batches, n)[k],
        ) by {
            assert(same_right(ops[k], before[k]));
        }
    }
}

proof fn lemma_run_alike(
    a: Seq<OperatorView>,
    b: Seq<OperatorView>,
    rows: Seq<RowView>,
    now: Timestamp,
    i: nat,
)
    requires
        a.len() == b.len(),
        forall|k: int| i <= k < a.len() ==> #[trigger] a[k] == b[k],
    ensures
        run(a, rows, now, i).0 == run(b, rows, now, i).0,
    decreases a.len() - i,
{
    if i < a.len() {
        let (r, next) = step(a[i as int], rows, now);
        if let Some(Ok(output)) = r {
            lemma_run_alike(
                a.update(i as int, next),
                b.update(i as int, next),
                output,
                now,
                i + 1,
            );
        }
    }
}

/// What comes out of operators is what those from a place on make of the rows that come
/// there.
pub proof fn lemma_run_from(
    ops: Seq<OperatorView>,
    rows: Seq<RowView>,
    now: Timestamp,
    i: nat,
    place: nat,
)
    requires
        i <= place < ops.len(),
    ensures
        rows_at(ops, rows, now, i, place) matches Some(there) ==> run(ops, rows, now, i).0 == run(
            ops,
            there,
            now,
            place,
        ).0,
    decreases place - i,
{
    if i < place {
        let (r, next) = step(ops[i as int], rows, now);
        if let Some(Ok(output)) = r {
            lemma_run_from(ops, output, now, i + 1, place);
            lemma_run_alike(ops.update(i as int, next), ops, output, now, i + 1);
        }
    }
}

proof fn lemma_table_row_put_out(j: StreamTableView, rows: Seq<RowView>, n: nat, x: int)
    requires
        0 <= x < n <= rows.len(),
        stream_table_row(j, rows[x]) is Some,
    ensures
        stream_table_rows(j, rows, n).contains(stream_table_row(j, rows[x])->0),
    decreases n,
{
    let row = stream_table_row(j, rows[x])->0;
    let before = stream_table_rows(j, rows, (n - 1) as nat);
    let all = stream_table_rows(j, rows, n);
    if x == n - 1 {
        assert(all[all.len() - 1] == row);
    } else {
        lemma_table_row_put_out(j, rows, (n - 1) as nat, x);
        let k = choose|k: int| 0 <= k < before.len() && before[k] == row;
        assert(all[k] == row);
    }
}

proof fn lemma_loaded_is_kept(
    b: Seq<(Timestamp, RowView)>,
    rows: Seq<RowView>,
    now: Timestamp,
    n: nat,
    m: int,
)
    requires
        0 <= m < n <= rows.len(),
    ensures
        right_kept(b, rows, now, n).contains((row_time(rows[m], now), rows[m])),
    decreases n,
{
    let before = right_kept(b, rows, now, (n - 1) as nat);
    let after = right_kept(b, rows, now, n);
    let t = row_time(rows[n - 1], now);
    lemma_time_place(before, t, 0);
    let p = time_place(before, t, 0) as int;
    if m == n - 1 {
        assert(after[p] == (t, rows[m]));
    } else {
        lemma_loaded_is_kept(b, rows, now, (n - 1) as nat, m);
        let e = (row_time(rows[m], now), rows[m]);
        let k = choose|k: int| 0 <= k < before.len() && before[k] == e;
        assert(after[if k < p { k } else { k + 1 }] == e);
    }
}

/// Whether rows are matched: a row that came to a join, and one that was put into its
/// right side at a time. To a join with a table they are where they have the same key and
/// no row behind the one in the table has it; to a join of streams where they have the
/// same key and the one on the right lies within the span around the other.
pub open spec fn matched(
    op: OperatorView,
    key_index: int,
    right: Seq<RowView>,
    loaded: Timestamp,
    m: int,
    row: RowView,
    now: Timestamp,
) -> bool {
    match op {
        OperatorView::StreamTable(j) => {
            let key = field(row.values, j.left_key_index);
            &&& equal(field(right[m].values, key_index), key)
            &&& forall|k: int|
                m < k < right.len() ==> !equal(field((#[trigger] right[k]).values, key_index), key)
        },
        OperatorView::StreamStream(j) => {
            &&& span_around(row_time(row, now), j.within) matches Some((from, to))
            &&& is_near(
                (row_time(right[m], loaded), right[m]),
                from,
                to,
                field(row.values, j.left_key_index),
                j.right_key_index,
            )
        },
        _ => false,
    }
}

/// What is put into the right side of a pipeline's join is what later batches are joined
/// to. However many batches went through the pipeline since: of a row that comes to the
/// join and is matched to one that was put there, the join makes the two combined. What
/// comes out of the pipeline is what the join and the operators behind it make of the rows
/// that come there; where there are none behind it, it is what the join makes. A join of
/// streams has no answer where a time that it needs is out of range; any other has one.
pub proof fn lemma_right_rows_joined(
    p: PipelineView,
    right: Seq<RowView>,
    loaded: Timestamp,
    batches: Seq<(Seq<RowView>, Timestamp)>,
    rows: Seq<RowView>,
    now: Timestamp,
    x: int,
    m: int,
)
    requires
        join_in_place(p),
        p.join.join_op_index is Some,
        p.join.right_key_index is Some,
        0 <= m < right.len(),
        ({
            let index = p.join.join_op_index->0 as nat;
            let ops = after_runs(joined_right(p, right, loaded).operators, batches, batches.len());
            rows_at(ops, rows, now, 0, index) matches Some(there) && 0 <= x < there.len()
                && matched(
                p.operators[index as int],
                p.join.right_key_index->0 as int,
                right,
                loaded,
                m,
                there[x],
                now,
            )
        }),
    ensures
        ({
            let index = p.join.join_op_index->0 as nat;
            let ops = after_runs(joined_right(p, right, loaded).operators, batches, batches.len());
            let there = rows_at(ops, rows, now, 0, index)->0;
            let made = step(ops[index as int], there, now).0;
            &&& p.operators[index as int] is StreamTable ==> made is Some
            &&& made matches Some(out) ==> out is Ok && out->Ok_0.contains(
                combined(there[x], right[m]),
            )
            &&& run(ops, rows, now, 0).0 == run(ops, there, now, index).0
            &&& index == ops.len() - 1 ==> run(ops, rows, now, 0).0 == made
        }),
{
    let index = p.join.join_op_index->0 as nat;
    let key_index = p.join.right_key_index->0 as int;
    let start = joined_right(p, right, loaded).operators;
    let ops = after_runs(start, batches, batches.len());
    let there = rows_at(ops, rows, now, 0, index)->0;
    lemma_runs_keep_right(start, batches, batches.len());
    assert(same_right(start[index as int], ops[index as int]));
    lemma_run_from(ops, rows, now, 0, index);
    match p.operators[index as int] {
        OperatorView::StreamTable(j) => {
            let full = ops[index as int]->StreamTable_0;
            let key = field(there[x].values, j.left_key_index);
            lemma_stored(j.right, right, key_index, right.len(), key);
            assert(stream_table_row(full, there[x]) == Some(combined(there[x], right[m])));
            lemma_table_row_put_out(full, there, there.len(), x);
        },
        OperatorView::StreamStream(j) => {
            let full = ops[index as int]->StreamStream_0;
            lemma_loaded_is_kept(j.right, right, loaded, right.len(), m);
            lemma_left_meets(full, there, now, x, (row_time(right[m], loaded), right[m]));
        },
        _ => {},
    }
    let (made, next) = step(ops[index as int], there, now);
    if index == ops.len() - 1 {
        if let Some(Ok(output)) = made {
            assert(run(ops.update(index as int, next), output, now, index + 1).0 == made);
        }
    }
}

/// Where a pipeline has no join, putting rows into its right side changes nothing.
pub proof fn lemma_no_right_side(p: PipelineView, rows: Seq<RowView>, now: Timestamp)
    requires
        p.join.join_op_index is None || p.join.right_key_index is None,
    ensures
        joined_right(p, rows, now) == p,
{
}

} // verus!
