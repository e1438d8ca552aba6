//! Laws of pipelines: the rows that come out fit the schema.
use crate::engine::accumulator::AccumulatorView;
use crate::engine::operator::aggregate::laws::lemma_taken_in;
use crate::engine::operator::aggregate::{
    functions_of, group_row, grouped, groups_out, row_taken, AggregateOpView,
};
use crate::engine::operator::join::{
    left_matches, left_out, left_step, matches_of, right_kept, right_out, span_around,
    stream_table_rows, StreamStreamView, StreamTableView, TableTableView,
};
use crate::engine::operator::laws::{lemma_project, lemma_projection_fits};
use crate::engine::operator::rows::projection_schema;
use crate::engine::operator::simple::{
    deserialized, filtered, projected, stored, FilterView, ProjectView,
};
use crate::engine::operator::window::{
    in_windows, row_in_windows, row_time, window_row, windows_for, windows_out, WindowedView,
};
use crate::engine::operator::{right_loaded, schema_of, step, OperatorView};
use crate::engine::pipeline::{compiled, joined_right, pipeline_of, run, PipelineView};
use crate::engine::state::{
    buffered, group_index, group_place, group_set, key_index, lemma_key_index, lemma_time_place,
    rows_between, table_row, time_place, window_index, window_place, window_set, with_group,
    with_window, WindowKeyView, WindowView,
};
use crate::expr::eval::values_of;
use crate::expr::ExprView;
use crate::plan::PlanView;
use crate::schema::SourceView;
use crate::time::Timestamp;
use crate::types::{field, ColumnView, RowView};
use crate::value::ValueView;
use vstd::prelude::*;

verus! {

/// Whether all rows have so many values.
pub open spec fn wide(rows: Seq<RowView>, n: nat) -> bool {
    forall|i: int| 0 <= i < rows.len() ==> (#[trigger] rows[i]).values.len() == n
}

/// Whether all rows of a table have so many values.
pub open spec fn table_wide(t: Seq<(ValueView, RowView)>, n: nat) -> bool {
    forall|i: int| 0 <= i < t.len() ==> (#[trigger] t[i]).1.values.len() == n
}

/// Whether all rows of a buffer have so many values.
pub open spec fn buffer_wide(b: Seq<(Timestamp, RowView)>, n: nat) -> bool {
    forall|i: int| 0 <= i < b.len() ==> (#[trigger] b[i]).1.values.len() == n
}

/// Whether all groups have a key of so many values and so many accumulators.
pub open spec fn groups_wide(
    groups: Seq<(Seq<ValueView>, Seq<AccumulatorView>)>,
    keys: nat,
    functions: nat,
) -> bool {
    forall|i: int|
        0 <= i < groups.len() ==> (#[trigger] groups[i]).0.len() == keys && groups[i].1.len()
            == functions
}

/// Whether all windows have a group of so many values and so many accumulators.
pub open spec fn windows_wide(windows: Seq<WindowView>, keys: nat, functions: nat) -> bool {
    forall|i: int|
        0 <= i < windows.len() ==> (#[trigger] windows[i]).key.group.len() == keys
            && windows[i].accumulators.len() == functions
}

/// Whether what an operator holds goes with its schemas.
pub open spec fn fits(op: OperatorView) -> bool {
    match op {
        OperatorView::Project(p) => p.output_schema == projection_schema(
            p.expressions,
            p.input_schema,
            p.expressions.len(),
        ),
        OperatorView::Aggregate(a) => a.output_schema.len() == a.group_by.len() + a.aggregates.len()
            && groups_wide(a.groups, a.group_by.len(), a.aggregates.len()),
        OperatorView::Windowed(w) => w.output_schema.len() == w.group_by.len() + w.aggregates.len()
            && windows_wide(w.windows, w.group_by.len(), w.aggregates.len()),
        OperatorView::StreamTable(j) => j.output_schema.len() >= j.right_schema.len() && table_wide(
            j.right,
            j.right_schema.len(),
        ),
        OperatorView::StreamStream(j) => j.output_schema.len() == j.left_schema.len()
            + j.right_schema.len() && buffer_wide(j.right, j.right_schema.len()),
        OperatorView::TableTable(j) => j.output_schema.len() == j.left_schema.len()
            + j.right_schema.len() && table_wide(j.left, j.left_schema.len()) && table_wide(
            j.right,
            j.right_schema.len(),
        ),
        _ => true,
    }
}

/// How many values the rows must have that an operator takes in. One that reads JSON
/// texts takes any.
pub open spec fn takes(op: OperatorView) -> Option<nat> {
    match op {
        OperatorView::Deserialize(_) => None,
        OperatorView::Filter(f) => Some(f.schema.len()),
        OperatorView::Project(p) => Some(p.input_schema.len()),
        OperatorView::Aggregate(a) => Some(a.input_schema.len()),
        OperatorView::TableSink(t) => Some(t.schema.len()),
        OperatorView::Windowed(w) => Some(w.input_schema.len()),
        OperatorView::StreamTable(j) => Some(
            (j.output_schema.len() - j.right_schema.len()) as nat,
        ),
        OperatorView::StreamStream(j) => Some(j.left_schema.len()),
        OperatorView::TableTable(j) => Some(j.left_schema.len()),
    }
}

/// Whether an operator can take in rows.
pub open spec fn takes_in(op: OperatorView, rows: Seq<RowView>) -> bool {
    takes(op) matches Some(n) ==> wide(rows, n)
}

proof fn lemma_deserialized_wide(rows: Seq<RowView>, schema: Seq<ColumnView>, n: nat)
    requires
        n <= rows.len(),
    ensures
        wide(deserialized(rows, schema, n), schema.len()),
    decreases n,
{
    if n > 0 {
        lemma_deserialized_wide(rows, schema, (n - 1) as nat);
    }
}

proof fn lemma_filtered_wide(f: FilterView, rows: Seq<RowView>, i: nat, n: nat)
    requires
        wide(rows, n),
    ensures
        filtered(f, rows, i) matches Ok(out) ==> wide(out, n),
    decreases rows.len() - i,
{
    if i < rows.len() {
        lemma_filtered_wide(f, rows, i + 1, n);
    }
}

proof fn lemma_projected_wide(p: ProjectView, rows: Seq<RowView>)
    requires
        wide(rows, p.input_schema.len()),
        p.output_schema == projection_schema(p.expressions, p.input_schema, p.expressions.len()),
    ensures
        projected(p, rows, 0) matches Ok(out) ==> wide(out, p.output_schema.len()),
{
    lemma_project(p, rows, 0);
    if let Ok(out) = projected(p, rows, 0) {
        assert forall|i: int| 0 <= i < out.len() implies (#[trigger] out[i]).values.len()
            == p.output_schema.len() by {
            lemma_projection_fits(p, rows[0 + i]);
        }
    }
}

proof fn lemma_values_len(e: Seq<ExprView>, row: RowView, schema: Seq<ColumnView>, i: nat)
    requires
        i <= e.len(),
    ensures
        values_of(e, row, schema, i) matches Ok(values) ==> values.len() == e.len() - i,
    decreases e.len() - i,
{
    if i < e.len() {
        lemma_values_len(e, row, schema, i + 1);
    }
}

proof fn lemma_grouped_wide(
    a: AggregateOpView,
    groups: Seq<(Seq<ValueView>, Seq<AccumulatorView>)>,
    rows: Seq<RowView>,
    i: nat,
)
    requires
        groups_wide(groups, a.group_by.len(), a.aggregates.len()),
    ensures
        groups_wide(grouped(a, groups, rows, i).0, a.group_by.len(), a.aggregates.len()),
    decreases rows.len() - i,
{
    if i < rows.len() {
        let row = rows[i as int];
        lemma_values_len(a.group_by, row, a.input_schema, 0);
        if let Ok(key) = values_of(a.group_by, row, a.input_schema, 0) {
            let with = with_group(groups, key, functions_of(a.aggregates));
            let place = group_place(groups, key);
            lemma_group_place(groups, key, 0);
            lemma_taken_in(with[place].1, a.aggregates, row, a.input_schema, 0);
            let taken = row_taken(with[place].1, a.aggregates, row, a.input_schema, 0).0;
            let after = group_set(with, place, taken);
            assert(groups_wide(after, a.group_by.len(), a.aggregates.len()));
            lemma_grouped_wide(a, after, rows, i + 1);
        }
    }
}

proof fn lemma_group_place(
    g: Seq<(Seq<ValueView>, Seq<AccumulatorView>)>,
    key: Seq<ValueView>,
    i: nat,
)
    ensures
        group_index(g, key, i) matches Some(k) ==> k < g.len(),
    decreases g.len() - i,
{
    if i < g.len() {
        lemma_group_place(g, key, i + 1);
    }
}

proof fn lemma_groups_out_wide(
    groups: Seq<(Seq<ValueView>, Seq<AccumulatorView>)>,
    having: Option<ExprView>,
    schema: Seq<ColumnView>,
    i: nat,
    keys: nat,
    functions: nat,
)
    requires
        groups_wide(groups, keys, functions),
    ensures
        groups_out(groups, having, schema, i) matches Ok(out) ==> wide(out, keys + functions),
    decreases groups.len() - i,
{
    if i < groups.len() {
        assert(group_row(groups[i as int]).values.len() == keys + functions);
        lemma_groups_out_wide(groups, having, schema, i + 1, keys, functions);
    }
}

proof fn lemma_window_place(w: Seq<WindowView>, key: WindowKeyView, i: nat)
    ensures
        window_index(w, key, i) matches Some(k) ==> k < w.len(),
    decreases w.len() - i,
{
    if i < w.len() {
        lemma_window_place(w, key, i + 1);
    }
}

proof fn lemma_row_in_windows_wide(
    w: WindowedView,
    windows: Seq<WindowView>,
    bounds: Seq<(Timestamp, Timestamp)>,
    group: Seq<ValueView>,
    row: RowView,
    i: nat,
)
    requires
        windows_wide(windows, w.group_by.len(), w.aggregates.len()),
        group.len() == w.group_by.len(),
    ensures
        windows_wide(
            row_in_windows(w, windows, bounds, group, row, i).0,
            w.group_by.len(),
            w.aggregates.len(),
        ),
    decreases bounds.len() - i,
{
    if i < bounds.len() {
        let key = WindowKeyView { group, window_start: bounds[i as int].0 };
        let all = with_window(windows, key, bounds[i as int].1, functions_of(w.aggregates));
        let place = window_place(windows, key);
        lemma_window_place(windows, key, 0);
        lemma_taken_in(all[place].accumulators, w.aggregates, row, w.input_schema, 0);
        let taken = row_taken(all[place].accumulators, w.aggregates, row, w.input_schema, 0).0;
        let after = window_set(all, place, taken, all[place].start, all[place].end);
        assert(windows_wide(after, w.group_by.len(), w.aggregates.len()));
        lemma_row_in_windows_wide(w, after, bounds, group, row, i + 1);
    }
}

proof fn lemma_in_windows_wide(
    w: WindowedView,
    windows: Seq<WindowView>,
    rows: Seq<RowView>,
    now: Timestamp,
    i: nat,
)
    requires
        windows_wide(windows, w.group_by.len(), w.aggregates.len()),
    ensures
        windows_wide(
            in_windows(w, windows, rows, now, i).0,
            w.group_by.len(),
            w.aggregates.len(),
        ),
    decreases rows.len() - i,
{
    if i < rows.len() {
        let row = rows[i as int];
        lemma_values_len(w.group_by, row, w.input_schema, 0);
        if let Ok(group) = values_of(w.group_by, row, w.input_schema, 0) {
            if let Some(bounds) = windows_for(w.window_spec, row_time(row, now)) {
                lemma_row_in_windows_wide(w, windows, bounds, group, row, 0);
                let after = row_in_windows(w, windows, bounds, group, row, 0).0;
                lemma_in_windows_wide(w, after, rows, now, i + 1);
            }
        }
    }
}

proof fn lemma_windows_out_wide(
    windows: Seq<WindowView>,
    having: Option<ExprView>,
    schema: Seq<ColumnView>,
    i: nat,
    keys: nat,
    functions: nat,
)
    requires
        windows_wide(windows, keys, functions),
    ensures
        windows_out(windows, having, schema, i) matches Ok(out) ==> wide(out, keys + functions),
    decreases windows.len() - i,
{
    if i < windows.len() {
        assert(window_row(windows[i as int]).values.len() == keys + functions);
        lemma_windows_out_wide(windows, having, schema, i + 1, keys, functions);
    }
}

proof fn lemma_table_row_wide(t: Seq<(ValueView, RowView)>, key: ValueView, n: nat)
    requires
        table_wide(t, n),
    ensures
        table_row(t, key) matches Some(row) ==> row.values.len() == n,
{
    lemma_key_index(t, key, 0);
}

proof fn lemma_stored_wide(
    t: Seq<(ValueView, RowView)>,
    rows: Seq<RowView>,
    at: int,
    k: nat,
    n: nat,
)
    requires
        table_wide(t, n),
        wide(rows, n),
        k <= rows.len(),
    ensures
        table_wide(stored(t, rows, at, k), n),
    decreases k,
{
    if k > 0 {
        lemma_stored_wide(t, rows, at, (k - 1) as nat, n);
        let before = stored(t, rows, at, (k - 1) as nat);
        lemma_key_index(before, field(rows[k - 1].values, at), 0);
    }
}

proof fn lemma_stream_table_wide(j: StreamTableView, rows: Seq<RowView>, k: nat, n: nat)
    requires
        wide(rows, n),
        table_wide(j.right, j.right_schema.len()),
        k <= rows.len(),
    ensures
        wide(stream_table_rows(j, rows, k), n + j.right_schema.len()),
    decreases k,
{
    if k > 0 {
        lemma_stream_table_wide(j, rows, (k - 1) as nat, n);
        lemma_table_row_wide(
            j.right,
            field(rows[k - 1].values, j.left_key_index),
            j.right_schema.len(),
        );
    }
}

proof fn lemma_between_wide(
    b: Seq<(Timestamp, RowView)>,
    from: Timestamp,
    to: Timestamp,
    k: nat,
    n: nat,
)
    requires
        buffer_wide(b, n),
        k <= b.len(),
    ensures
        wide(rows_between(b, from, to, k), n),
    decreases k,
{
    if k > 0 {
        lemma_between_wide(b, from, to, (k - 1) as nat, n);
    }
}

proof fn lemma_matches_wide(
    row: RowView,
    key: ValueView,
    candidates: Seq<RowView>,
    at: int,
    k: nat,
    n: nat,
)
    requires
        wide(candidates, n),
        k <= candidates.len(),
    ensures
        wide(matches_of(row, key, candidates, at, true, k), row.values.len() + n),
    decreases k,
{
    if k > 0 {
        lemma_matches_wide(row, key, candidates, at, (k - 1) as nat, n);
    }
}

proof fn lemma_left_matches_wide(j: StreamStreamView, row: RowView, now: Timestamp)
    requires
        buffer_wide(j.right, j.right_schema.len()),
    ensures
        left_matches(j, row, now) matches Some(out) ==> wide(
            out,
            row.values.len() + j.right_schema.len(),
        ),
{
    if let Some((from, to)) = span_around(row_time(row, now), j.within) {
        let candidates = rows_between(j.right, from, to, j.right.len());
        lemma_between_wide(j.right, from, to, j.right.len(), j.right_schema.len());
        lemma_matches_wide(
            row,
            field(row.values, j.left_key_index),
            candidates,
            j.right_key_index,
            candidates.len(),
            j.right_schema.len(),
        );
    }
}

proof fn lemma_left_step_wide(
    j: StreamStreamView,
    rows: Seq<RowView>,
    now: Timestamp,
    i: nat,
    n: nat,
)
    requires
        wide(rows, n),
        buffer_wide(j.right, j.right_schema.len()),
    ensures
        left_step(j, rows, now, i).0 matches Some(out) ==> wide(out, n + j.right_schema.len()),
        ({
            let after = left_step(j, rows, now, i).1;
            after == StreamStreamView { left: after.left, ..j }
        }),
    decreases rows.len() - i,
{
    if i < rows.len() {
        let row = rows[i as int];
        lemma_left_matches_wide(j, row, now);
        let kept = StreamStreamView { left: buffered(j.left, row_time(row, now), row), ..j };
        lemma_left_step_wide(kept, rows, now, i + 1, n);
    }
}

proof fn lemma_joined_wide(j: TableTableView, k: nat)
    requires
        table_wide(j.left, j.left_schema.len()),
        table_wide(j.right, j.right_schema.len()),
    ensures
        k <= j.left.len() ==> wide(left_out(j, k), j.left_schema.len() + j.right_schema.len()),
        k <= j.right.len() ==> wide(right_out(j, k), j.left_schema.len() + j.right_schema.len()),
    decreases k,
{
    if k > 0 {
        lemma_joined_wide(j, (k - 1) as nat);
        if k <= j.left.len() {
            lemma_table_row_wide(j.right, j.left[k - 1].0, j.right_schema.len());
        }
    }
}

/// An operator whose contents go with its schemas makes rows with a value for each
/// column of its schema, and its contents go with its schemas afterwards.
pub proof fn lemma_step_fits(op: OperatorView, rows: Seq<RowView>, now: Timestamp)
    requires
        fits(op),
        takes_in(op, rows),
    ensures
        step(op, rows, now).0 matches Some(Ok(out)) ==> wide(out, schema_of(op).len()),
        fits(step(op, rows, now).1),
        takes(step(op, rows, now).1) == takes(op),
        schema_of(step(op, rows, now).1) == schema_of(op),
{
    match op {
        OperatorView::Deserialize(schema) => {
            lemma_deserialized_wide(rows, schema, rows.len());
        },
        OperatorView::Filter(f) => {
            lemma_filtered_wide(f, rows, 0, f.schema.len());
        },
        OperatorView::Project(p) => {
            lemma_projected_wide(p, rows);
        },
        OperatorView::Aggregate(a) => {
            lemma_grouped_wide(a, a.groups, rows, 0);
            lemma_groups_out_wide(
                grouped(a, a.groups, rows, 0).0,
                a.having,
                a.output_schema,
                0,
                a.group_by.len(),
                a.aggregates.len(),
            );
        },
        OperatorView::TableSink(_) => {},
        OperatorView::Windowed(w) => {
            lemma_in_windows_wide(w, w.windows, rows, now, 0);
            lemma_windows_out_wide(
                in_windows(w, w.windows, rows, now, 0).0,
                w.having,
                w.output_schema,
                0,
                w.group_by.len(),
                w.aggregates.len(),
            );
        },
        OperatorView::StreamTable(j) => {
            lemma_stream_table_wide(
                j,
                rows,
                rows.len(),
                (j.output_schema.len() - j.right_schema.len()) as nat,
            );
        },
        OperatorView::StreamStream(j) => {
            lemma_left_step_wide(j, rows, now, 0, j.left_schema.len());
        },
        OperatorView::TableTable(j) => {
            lemma_stored_wide(j.left, rows, j.left_key_index, rows.len(), j.left_schema.len());
            let next = TableTableView {
                left: stored(j.left, rows, j.left_key_index, rows.len()),
                ..j
            };
            lemma_joined_wide(next, next.left.len());
            lemma_joined_wide(next, next.right.len());
        },
    }
}

/// Whether the contents of all operators go with their schemas, and each takes in what
/// the one before it makes.
pub open spec fn chained(ops: Seq<OperatorView>) -> bool {
    &&& forall|i: int| 0 <= i < ops.len() ==> fits(#[trigger] ops[i])
    &&& forall|i: int|
        0 < i < ops.len() ==> takes(#[trigger] ops[i]) == Some(schema_of(ops[i - 1]).len())
}

/// Whether operators take in and make what others do.
pub open spec fn alike(a: Seq<OperatorView>, b: Seq<OperatorView>) -> bool {
    &&& a.len() == b.len()
    &&& forall|i: int|
        0 <= i < a.len() ==> takes(#[trigger] a[i]) == takes(b[i]) && schema_of(a[i]) == schema_of(
            b[i],
        )
}

proof fn lemma_run_fits(ops: Seq<OperatorView>, rows: Seq<RowView>, now: Timestamp, i: nat)
    requires
        chained(ops),
        i <= ops.len(),
        0 < ops.len(),
        i < ops.len() ==> takes_in(ops[i as int], rows),
        i == ops.len() ==> wide(rows, schema_of(ops.last()).len()),
    ensures
        run(ops, rows, now, i).0 matches Some(Ok(out)) ==> wide(out, schema_of(ops.last()).len()),
        chained(run(ops, rows, now, i).1),
        alike(run(ops, rows, now, i).1, ops),
    decreases ops.len() - i,
{
    if i < ops.len() {
        let (r, next) = step(ops[i as int], rows, now);
        let after = ops.update(i as int, next);
        lemma_step_fits(ops[i as int], rows, now);
        assert(alike(after, ops));
        assert forall|k: int| 0 < k < after.len() implies takes(#[trigger] after[k]) == Some(
            schema_of(after[k - 1]).len(),
        ) by {
            assert(takes(ops[k]) == Some(schema_of(ops[k - 1]).len()));
            assert(schema_of(after[k - 1]) == schema_of(ops[k - 1]));
        }
        assert(chained(after));
        if let Some(Ok(output)) = r {
            if output.len() > 0 {
                if i + 1 < ops.len() {
                    assert(takes(after[i as int + 1]) == Some(schema_of(after[i as int]).len()));
                } else {
                    assert(after.last() == next);
                }
                lemma_run_fits(after, output, now, i + 1);
                let last = run(after, output, now, i + 1).1;
                assert forall|k: int| 0 <= k < last.len() implies takes(#[trigger] last[k])
                    == takes(ops[k]) && schema_of(last[k]) == schema_of(ops[k]) by {
                    assert(takes(last[k]) == takes(after[k]));
                }
            }
        }
    }
}

/// Whether a pipeline reads rows, each operator takes in what the one before it makes,
/// and the last makes rows of the pipeline's schema.
pub open spec fn pipeline_fits(x: PipelineView) -> bool {
    &&& x.operators.len() > 0
    &&& takes(x.operators[0]) is None
    &&& chained(x.operators)
    &&& x.output_schema.len() == schema_of(x.operators.last()).len()
}

proof fn lemma_compiled_chained(p: PlanView, sources: Seq<(Seq<char>, SourceView)>)
    ensures
        compiled(p, sources) matches Ok(x) ==> {
            &&& x.0.len() > 0
            &&& takes(x.0[0]) is None
            &&& chained(x.0)
            &&& x.1.len() == schema_of(x.0.last()).len()
        },
    decreases p,
{
    match p {
        PlanView::Scan { .. } => {},
        PlanView::Filter { input, .. } => {
            lemma_compiled_chained(*input, sources);
            lemma_chain_grows(p, *input, sources);
        },
        PlanView::Project { input, .. } => {
            lemma_compiled_chained(*input, sources);
            lemma_chain_grows(p, *input, sources);
        },
        PlanView::Aggregate { input, .. } => {
            lemma_compiled_chained(*input, sources);
            lemma_chain_grows(p, *input, sources);
        },
        PlanView::Join { left, .. } => {
            lemma_compiled_chained(*left, sources);
            lemma_chain_grows(p, *left, sources);
        },
        PlanView::Sink { input, .. } => {
            lemma_compiled_chained(*input, sources);
        },
    }
}

/// One operator behind a chain that takes in what the chain makes is part of it.
proof fn lemma_chain_grows(
    p: PlanView,
    input: PlanView,
    sources: Seq<(Seq<char>, SourceView)>,
)
    requires
        match p {
            PlanView::Filter { input: i, .. } => *i == input,
            PlanView::Project { input: i, .. } => *i == input,
            PlanView::Aggregate { input: i, .. } => *i == input,
            PlanView::Join { left: i, .. } => *i == input,
            _ => false,
        },
        compiled(input, sources) matches Ok(x) ==> {
            &&& x.0.len() > 0
            &&& takes(x.0[0]) is None
            &&& chained(x.0)
            &&& x.1.len() == schema_of(x.0.last()).len()
        },
    ensures
        compiled(p, sources) matches Ok(x) ==> {
            &&& x.0.len() > 0
            &&& takes(x.0[0]) is None
            &&& chained(x.0)
            &&& x.1.len() == schema_of(x.0.last()).len()
        },
{
    if let Ok((ops, schema)) = compiled(p, sources) {
        let (before, width) = compiled(input, sources)->Ok_0;
        assert(ops == before.push(ops.last()));
        assert(fits(ops.last()));
        assert(takes(ops.last()) == Some(width.len()));
        assert(ops[0] == before[0]);
        assert forall|i: int| 0 <= i < ops.len() implies fits(#[trigger] ops[i]) by {
            if i < before.len() {
                assert(ops[i] == before[i]);
            }
        }
        assert forall|i: int| 0 < i < ops.len() implies takes(#[trigger] ops[i]) == Some(
            schema_of(ops[i - 1]).len(),
        ) by {
            assert(ops[i - 1] == before[i - 1]);
            if i < before.len() {
                assert(ops[i] == before[i]);
            }
        }
    }
}

/// What a plan is compiled to fits together.
pub proof fn lemma_compiled_fits(p: PlanView, sources: Seq<(Seq<char>, SourceView)>)
    ensures
        pipeline_of(p, sources) matches Ok(x) ==> pipeline_fits(x),
{
    lemma_compiled_chained(p, sources);
}

/// Every row that comes out of a pipeline has a value for each column of its schema,
/// however many batches went through it before.
pub proof fn lemma_pipeline_fits(x: PipelineView, rows: Seq<RowView>, now: Timestamp)
    requires
        pipeline_fits(x),
    ensures
        run(x.operators, rows, now, 0).0 matches Some(Ok(out)) ==> wide(out, x.output_schema.len()),
        pipeline_fits(PipelineView { operators: run(x.operators, rows, now, 0).1, ..x }),
{
    lemma_run_fits(x.operators, rows, now, 0);
    let after = run(x.operators, rows, now, 0).1;
    assert(takes(after[0]) == takes(x.operators[0]));
    assert(schema_of(after[after.len() - 1]) == schema_of(x.operators[after.len() - 1]));
}

/// A buffer stays as wide as its rows when wide rows are put into it.
proof fn lemma_kept_wide(
    b: Seq<(Timestamp, RowView)>,
    rows: Seq<RowView>,
    now: Timestamp,
    n: nat,
    width: nat,
)
    requires
        buffer_wide(b, width),
        wide(rows, width),
        n <= rows.len(),
    ensures
        buffer_wide(right_kept(b, rows, now, n), width),
    decreases n,
{
    if n > 0 {
        lemma_kept_wide(b, rows, now, (n - 1) as nat, width);
        let before = right_kept(b, rows, now, (n - 1) as nat);
        let t = row_time(rows[n - 1], now);
        lemma_time_place(before, t, 0);
        let at = time_place(before, t, 0) as int;
        let r = right_kept(b, rows, now, n);
        assert forall|i: int| 0 <= i < r.len() implies (#[trigger] r[i]).1.values.len() == width by {
            if i < at {
                assert(r[i] == before[i]);
            } else if i == at {
                assert(r[i].1 == rows[n - 1]);
            } else {
                assert(r[i] == before[i - 1]);
            }
        }
    }
}

/// How many columns the right side of a join has.
pub open spec fn right_width(op: OperatorView) -> Option<nat> {
    match op {
        OperatorView::StreamTable(j) => Some(j.right_schema.len()),
        OperatorView::TableTable(j) => Some(j.right_schema.len()),
        OperatorView::StreamStream(j) => Some(j.right_schema.len()),
        _ => None,
    }
}

/// A pipeline still fits together once the right side of its join was read, where its
/// rows have a value for each column of that side.
pub proof fn lemma_right_fits(x: PipelineView, rows: Seq<RowView>, now: Timestamp)
    requires
        pipeline_fits(x),
        x.join.join_op_index matches Some(i) ==> i < x.operators.len() && (right_width(
            x.operators[i as int],
        ) matches Some(n) ==> wide(rows, n)),
    ensures
        pipeline_fits(joined_right(x, rows, now)),
{
    if let (Some(index), Some(key_index)) = (x.join.join_op_index, x.join.right_key_index) {
        let op = x.operators[index as int];
        let loaded = right_loaded(op, rows, key_index as int, now);
        let after = x.operators.update(index as int, loaded);
        match op {
            OperatorView::StreamTable(j) => {
                lemma_stored_wide(
                    j.right,
                    rows,
                    key_index as int,
                    rows.len(),
                    j.right_schema.len(),
                );
            },
            OperatorView::TableTable(j) => {
                lemma_stored_wide(
                    j.right,
                    rows,
                    key_index as int,
                    rows.len(),
                    j.right_schema.len(),
                );
            },
            OperatorView::StreamStream(j) => {
                lemma_kept_wide(j.right, rows, now, rows.len(), j.right_schema.len());
            },
            _ => {},
        }
        assert(fits(op));
        assert(fits(loaded));
        assert forall|k: int| 0 < k < after.len() implies takes(#[trigger] after[k]) == Some(
            schema_of(after[k - 1]).len(),
        ) by {
            assert(takes(x.operators[k]) == Some(schema_of(x.operators[k - 1]).len()));
        }
    }
}

/// Where no record is read, no row comes out.
pub proof fn lemma_nothing_from_nothing(x: PipelineView, now: Timestamp)
    requires
        pipeline_fits(x),
    ensures
        run(x.operators, Seq::empty(), now, 0).0 == Some(
            Ok::<Seq<RowView>, Seq<char>>(Seq::empty()),
        ),
{
}

} // verus!
