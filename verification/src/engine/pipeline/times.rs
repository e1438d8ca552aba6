//! Laws of time: where rows carry a time of their own, it does not matter when they are
//! taken in.
use crate::engine::operator::join::laws::{
    all_left_listed, carry_times, left_listed, lemma_left_batch, lemma_left_step_any_time,
    lemma_loaded_any_time, near,
};
use crate::engine::operator::join::{
    span_around, stream_table_row, stream_table_rows, StreamStreamView, StreamTableView,
};
use crate::engine::operator::laws::lemma_project;
use crate::engine::operator::simple::{deserialized, filtered, FilterView};
use crate::engine::operator::window::{
    in_windows, row_in_windows, row_time, windows_for, WindowedView,
};
use crate::engine::operator::{right_loaded, step, OperatorView};
use crate::engine::pipeline::{compiled, joined_right, run, PipelineView};
use crate::engine::state::WindowView;
use crate::expr::eval::{value_of, values_of};
use crate::plan::PlanView;
use crate::schema::SourceView;
use crate::time::Timestamp;
use crate::types::{field, ColumnView, RowView};
use crate::value::truthy;
use vstd::prelude::*;

verus! {

/// Whether an operator asks for the times of rows.
pub open spec fn asks_times(op: OperatorView) -> bool {
    op is Windowed || op is StreamStream
}

/// Whether the rows that an operator makes carry the times of the rows they are made of.
pub open spec fn keeps_times(op: OperatorView) -> bool {
    !(op is Aggregate || op is Windowed || op is TableTable)
}

/// Whether, of the operators from a place on, none that asks for times stands behind one
/// that does not keep them.
pub open spec fn own_times(ops: Seq<OperatorView>, i: nat) -> bool {
    forall|k: int, m: int|
        i <= k < m < ops.len() && asks_times(#[trigger] ops[m]) ==> keeps_times(#[trigger] ops[k])
}

/// Whether one of the operators from a place on asks for times.
pub open spec fn some_asks(ops: Seq<OperatorView>, i: nat) -> bool {
    exists|m: int| i <= m < ops.len() && asks_times(#[trigger] ops[m])
}

proof fn lemma_windows_any_time(
    w: WindowedView,
    windows: Seq<WindowView>,
    rows: Seq<RowView>,
    now: Timestamp,
    later: Timestamp,
    i: nat,
)
    requires
        carry_times(rows),
    ensures
        in_windows(w, windows, rows, now, i) == in_windows(w, windows, rows, later, i),
    decreases rows.len() - i,
{
    if i < rows.len() {
        let row = rows[i as int];
        assert(row.metadata.timestamp is Some);
        if let Ok(group) = values_of(w.group_by, row, w.input_schema, 0) {
            if let Some(bounds) = windows_for(w.window_spec, row_time(row, now)) {
                let (after, error) = row_in_windows(w, windows, bounds, group, row, 0);
                lemma_windows_any_time(w, after, rows, now, later, i + 1);
            }
        }
    }
}

/// An operator makes the same of rows at any time, where it does not ask for times or
/// the rows carry theirs.
pub proof fn lemma_step_any_time(
    op: OperatorView,
    rows: Seq<RowView>,
    now: Timestamp,
    later: Timestamp,
)
    requires
        asks_times(op) ==> carry_times(rows),
    ensures
        step(op, rows, now) == step(op, rows, later),
{
    match op {
        OperatorView::Windowed(w) => {
            lemma_windows_any_time(w, w.windows, rows, now, later, 0);
        },
        OperatorView::StreamStream(j) => {
            lemma_left_step_any_time(j, rows, now, later, 0);
        },
        _ => {},
    }
}

/// Rows that are read carry the times that their texts carried.
pub proof fn lemma_deserialized_carry(rows: Seq<RowView>, schema: Seq<ColumnView>, n: nat)
    requires
        carry_times(rows),
        n <= rows.len(),
    ensures
        carry_times(deserialized(rows, schema, n)),
    decreases n,
{
    if n > 0 {
        lemma_deserialized_carry(rows, schema, (n - 1) as nat);
        assert(rows[n - 1].metadata.timestamp is Some);
    }
}

proof fn lemma_filtered_carry(f: FilterView, rows: Seq<RowView>, i: nat)
    requires
        carry_times(rows),
    ensures
        filtered(f, rows, i) matches Ok(out) ==> carry_times(out),
    decreases rows.len() - i,
{
    if i < rows.len() {
        lemma_filtered_carry(f, rows, i + 1);
        if let Ok(out) = filtered(f, rows, i) {
            let rest = filtered(f, rows, i + 1)->Ok_0;
            assert forall|k: int| 0 <= k < out.len() implies (
            #[trigger] out[k]).metadata.timestamp is Some by {
                if value_of(f.predicate, rows[i as int], f.schema) matches Ok(v) && truthy(v) {
                    if k == 0 {
                        assert(out[k] == rows[i as int]);
                    } else {
                        assert(out[k] == rest[k - 1]);
                    }
                } else {
                    assert(out[k] == rest[k]);
                }
            }
        }
    }
}

proof fn lemma_stream_table_carry(j: StreamTableView, rows: Seq<RowView>, n: nat)
    requires
        carry_times(rows),
        n <= rows.len(),
    ensures
        carry_times(stream_table_rows(j, rows, n)),
    decreases n,
{
    if n > 0 {
        lemma_stream_table_carry(j, rows, (n - 1) as nat);
        assert(rows[n - 1].metadata.timestamp is Some);
        if let Some(row) = stream_table_row(j, rows[n - 1]) {
            assert(row.metadata == rows[n - 1].metadata);
        }
    }
}

proof fn lemma_streams_carry(j: StreamStreamView, rows: Seq<RowView>, now: Timestamp, i: nat)
    requires
        carry_times(rows),
    ensures
        carry_times(all_left_listed(j, rows, now, i)),
    decreases rows.len() - i,
{
    if i < rows.len() {
        lemma_streams_carry(j, rows, now, i + 1);
        let row = rows[i as int];
        let first = left_listed(j, row, now);
        let rest = all_left_listed(j, rows, now, i + 1);
        let span = span_around(row_time(row, now), j.within)->0;
        let found = near(j.right, span, field(row.values, j.left_key_index), j.right_key_index);
        assert forall|k: int| 0 <= k < first.len() implies (#[trigger] first[k]).metadata
            == row.metadata by {}
        let all = first + rest;
        assert forall|k: int| 0 <= k < all.len() implies (
        #[trigger] all[k]).metadata.timestamp is Some by {
            if k < first.len() {
                assert(all[k] == first[k]);
                assert(rows[i as int].metadata.timestamp is Some);
            } else {
                assert(all[k] == rest[k - first.len()]);
            }
        }
    }
}

/// The rows that come out of an operator that keeps times carry theirs, where those that
/// went in did.
pub proof fn lemma_step_carries(op: OperatorView, rows: Seq<RowView>, now: Timestamp)
    requires
        carry_times(rows),
        keeps_times(op),
    ensures
        step(op, rows, now).0 matches Some(Ok(out)) ==> carry_times(out),
{
    match op {
        OperatorView::Deserialize(schema) => lemma_deserialized_carry(rows, schema, rows.len()),
        OperatorView::Filter(f) => lemma_filtered_carry(f, rows, 0),
        OperatorView::Project(p) => {
            lemma_project(p, rows, 0);
            if let Some(Ok(out)) = step(op, rows, now).0 {
                assert forall|k: int| 0 <= k < out.len() implies (
                #[trigger] out[k]).metadata.timestamp is Some by {
                    assert(out[k].metadata == rows[0 + k].metadata);
                    assert(rows[k].metadata.timestamp is Some);
                }
            }
        },
        OperatorView::StreamTable(j) => lemma_stream_table_carry(j, rows, rows.len()),
        OperatorView::StreamStream(j) => {
            lemma_left_batch(j, rows, now, 0);
            lemma_streams_carry(j, rows, now, 0);
        },
        _ => {},
    }
}

/// A batch goes through operators in the same way at any time, where none that asks for
/// times stands behind one that does not keep them, and the rows carry theirs.
pub proof fn lemma_run_any_time(
    ops: Seq<OperatorView>,
    rows: Seq<RowView>,
    now: Timestamp,
    later: Timestamp,
    i: nat,
)
    requires
        own_times(ops, i),
        some_asks(ops, i) ==> carry_times(rows),
    ensures
        run(ops, rows, now, i) == run(ops, rows, later, i),
    decreases ops.len() - i,
{
    if i < ops.len() {
        let op = ops[i as int];
        if asks_times(op) {
            assert(some_asks(ops, i));
        }
        lemma_step_any_time(op, rows, now, later);
        let (r, next) = step(op, rows, now);
        let after = ops.update(i as int, next);
        if let Some(Ok(output)) = r {
            assert(own_times(after, i + 1));
            if some_asks(after, i + 1) {
                let m = choose|m: int| i + 1 <= m < after.len() && asks_times(#[trigger] after[m]);
                assert(after[m] == ops[m]);
                assert(some_asks(ops, i));
                assert(keeps_times(op));
                lemma_step_carries(op, rows, now);
            }
            lemma_run_any_time(after, output, now, later, i + 1);
        }
    }
}

/// Whether the rows of a plan carry the times of the records that they are made of.
pub open spec fn plan_keeps_times(p: PlanView) -> bool
    decreases p,
{
    match p {
        PlanView::Scan { .. } => true,
        PlanView::Filter { input, .. } => plan_keeps_times(*input),
        PlanView::Project { input, .. } => plan_keeps_times(*input),
        PlanView::Aggregate { .. } => false,
        PlanView::Join { left, .. } => plan_keeps_times(*left),
        PlanView::Sink { input, .. } => plan_keeps_times(*input),
    }
}

/// Whether a plan looks at the times of records alone: its windows, and its joins within
/// a span, are over rows that carry them.
pub open spec fn plan_has_own_times(p: PlanView) -> bool
    decreases p,
{
    match p {
        PlanView::Scan { .. } => true,
        PlanView::Filter { input, .. } => plan_has_own_times(*input),
        PlanView::Project { input, .. } => plan_has_own_times(*input),
        PlanView::Aggregate { input, window, .. } => plan_has_own_times(*input) && (window is Some
            ==> plan_keeps_times(*input)),
        PlanView::Join { left, within, .. } => plan_has_own_times(*left) && (within is Some
            ==> plan_keeps_times(*left)),
        PlanView::Sink { input, .. } => plan_has_own_times(*input),
    }
}

/// The operators of a plan that looks at the times of records alone have them where they
/// ask for them.
pub proof fn lemma_compiled_times(p: PlanView, sources: Seq<(Seq<char>, SourceView)>)
    ensures
        compiled(p, sources) matches Ok(x) ==> {
            &&& plan_keeps_times(p) ==> forall|k: int|
                0 <= k < x.0.len() ==> keeps_times(#[trigger] x.0[k])
            &&& plan_has_own_times(p) ==> own_times(x.0, 0)
        },
    decreases p,
{
    match p {
        PlanView::Scan { .. } => {},
        PlanView::Filter { input, .. } => lemma_compiled_times(*input, sources),
        PlanView::Project { input, .. } => lemma_compiled_times(*input, sources),
        PlanView::Aggregate { input, .. } => lemma_compiled_times(*input, sources),
        PlanView::Join { left, .. } => lemma_compiled_times(*left, sources),
        PlanView::Sink { input, .. } => lemma_compiled_times(*input, sources),
    }
}

/// Rows that carry their times are put into the right side of a join in the same way at
/// any time.
pub proof fn lemma_load_any_time(
    op: OperatorView,
    rows: Seq<RowView>,
    key_index: int,
    now: Timestamp,
    later: Timestamp,
)
    requires
        carry_times(rows),
    ensures
        right_loaded(op, rows, key_index, now) == right_loaded(op, rows, key_index, later),
{
    if let OperatorView::StreamStream(j) = op {
        lemma_loaded_any_time(j.right, rows, now, later, rows.len());
    }
}

/// The right side of a join is read in the same way at any time, where the rows carry
/// theirs, and the operators then still have the times that they ask for.
pub proof fn lemma_right_any_time(
    p: PipelineView,
    rows: Seq<RowView>,
    now: Timestamp,
    later: Timestamp,
)
    requires
        carry_times(rows),
        p.join.join_op_index matches Some(index) ==> index < p.operators.len(),
    ensures
        joined_right(p, rows, now) == joined_right(p, rows, later),
        own_times(p.operators, 0) ==> own_times(joined_right(p, rows, now).operators, 0),
{
    if let (Some(index), Some(key_index)) = (p.join.join_op_index, p.join.right_key_index) {
        let op = p.operators[index as int];
        lemma_load_any_time(op, rows, key_index as int, now, later);
        let loaded = right_loaded(op, rows, key_index as int, now);
        let after = p.operators.update(index as int, loaded);
        if own_times(p.operators, 0) {
            assert forall|k: int, m: int|
                0 <= k < m < after.len() && asks_times(#[trigger] after[m]) implies keeps_times(
                #[trigger] after[k],
            ) by {
                assert(asks_times(p.operators[m]));
                assert(keeps_times(p.operators[k]));
            }
        }
    }
}

} // verus!
