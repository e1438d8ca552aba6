//! Laws of what plans make of rows.
use crate::engine::operator::aggregate::{aggregate_step, AggregateOpView};
use crate::engine::operator::laws::joins::{is_first_named, lemma_join_on};
use crate::engine::operator::laws::{holds_on, lemma_filter, lemma_project};
use crate::engine::operator::simple::{
    deserialized, projected_row, projected_values, FilterView,
};
use crate::engine::operator::window::{windowed_step, WindowedView};
use crate::engine::operator::{step, OperatorView};
use crate::engine::pipeline::{compiled, pipeline_of, run, source_of, topics_of};
use crate::expr::eval::{value_of, values_of};
use crate::expr::laws::between_two;
use crate::expr::laws::forms::lemma_values;
use crate::expr::{BinaryOp, ExprView};
use crate::json::{json_parsed, member_value, JsonView};
use crate::plan::{plan_sources, AggregateView, JoinType, PlanView, WindowSpec};
use crate::schema::SourceView;
use crate::time::{Duration, Timestamp};
use crate::types::{ColumnView, RowView};
use crate::value::{truthy, ValueView};
use vstd::prelude::*;

verus! {

/// What a plan makes of a batch at a time, as it is compiled.
pub open spec fn made_by(
    p: PlanView,
    sources: Seq<(Seq<char>, SourceView)>,
    rows: Seq<RowView>,
    now: Timestamp,
) -> Option<Result<Seq<RowView>, Seq<char>>> {
    run(compiled(p, sources)->Ok_0.0, rows, now, 0).0
}

/// The columns of what a plan makes.
pub open spec fn columns_of(p: PlanView, sources: Seq<(Seq<char>, SourceView)>) -> Seq<ColumnView> {
    compiled(p, sources)->Ok_0.1
}

proof fn lemma_run_push(
    ops: Seq<OperatorView>,
    op: OperatorView,
    rows: Seq<RowView>,
    now: Timestamp,
    i: nat,
)
    requires
        i <= ops.len(),
    ensures
        run(ops.push(op), rows, now, i).0 == match run(ops, rows, now, i).0 {
            Some(Ok(out)) => if out.len() == 0 && i < ops.len() {
                Some(Ok(out))
            } else {
                step(op, out, now).0
            },
            other => other,
        },
    decreases ops.len() - i,
{
    let all = ops.push(op);
    if i < ops.len() {
        assert(all[i as int] == ops[i as int]);
        let (r, next) = step(ops[i as int], rows, now);
        assert(all.update(i as int, next) =~= ops.update(i as int, next).push(op));
        if let Some(Ok(output)) = r {
            if output.len() > 0 {
                lemma_run_push(ops.update(i as int, next), op, output, now, i + 1);
            }
        }
    } else {
        assert(all[i as int] == op);
        let (r, next) = step(op, rows, now);
        if let Some(Ok(output)) = r {
            assert(run(all.update(i as int, next), output, now, i + 1).0 == r);
        }
    }
}

/// The row that is read in a row that holds a JSON text: the members of its object, for
/// each column the one with its name, with what is known of the row. There is none where
/// the row holds no text, or the text is no object.
pub open spec fn row_read(row: RowView, schema: Seq<ColumnView>) -> Option<RowView> {
    if row.values.len() > 0 && row.values[0] is String {
        match json_parsed(row.values[0]->String_0) {
            Some(JsonView::Object(m)) => Some(
                RowView {
                    values: schema.map_values(|c: ColumnView| member_value(m, c.name)),
                    metadata: row.metadata,
                },
            ),
            _ => None,
        }
    } else {
        None
    }
}

proof fn lemma_read(rows: Seq<RowView>, schema: Seq<ColumnView>, n: nat)
    requires
        n <= rows.len(),
    ensures
        deserialized(rows, schema, n) == rows.take(n as int).filter_map(
            |r: RowView| row_read(r, schema),
        ),
    decreases n,
{
    let f = |r: RowView| row_read(r, schema);
    let s = rows.take(n as int);
    if n > 0 {
        lemma_read(rows, schema, (n - 1) as nat);
        assert(s.drop_last() =~= rows.take(n - 1));
        assert(s.last() == rows[n - 1]);
        if let Some(row) = row_read(rows[n - 1], schema) {
            let before = deserialized(rows, schema, (n - 1) as nat);
            assert(before.push(row) =~= before + seq![row]);
        }
    }
}

/// The rows that are read are those that can be, in their order.
pub proof fn lemma_rows_read(rows: Seq<RowView>, schema: Seq<ColumnView>)
    ensures
        deserialized(rows, schema, rows.len()) == rows.filter_map(
            |r: RowView| row_read(r, schema),
        ),
{
    lemma_read(rows, schema, rows.len());
    assert(rows.take(rows.len() as int) =~= rows);
}

/// A plan that reads a source makes the rows that are read in its records, in their order,
/// with the columns of the source. Records that cannot be read are left out.
pub proof fn lemma_scan(
    source: Seq<char>,
    sources: Seq<(Seq<char>, SourceView)>,
    rows: Seq<RowView>,
    now: Timestamp,
)
    requires
        source_of(sources, source) is Some,
    ensures
        ({
            let p = PlanView::Scan { source };
            let schema = source_of(sources, source)->0.schema;
            &&& compiled(p, sources) is Ok
            &&& columns_of(p, sources) == schema
            &&& made_by(p, sources, rows, now) == Some(
                Ok::<Seq<RowView>, Seq<char>>(
                    rows.filter_map(|r: RowView| row_read(r, schema)),
                ),
            )
        }),
{
    let p = PlanView::Scan { source };
    let schema = source_of(sources, source)->0.schema;
    let op = OperatorView::Deserialize(schema);
    let none = Seq::<OperatorView>::empty();
    assert(none.push(op) =~= seq![op]);
    lemma_run_push(none, op, rows, now, 0);
    lemma_read(rows, schema, rows.len());
    assert(rows.take(rows.len() as int) =~= rows);
}

proof fn lemma_has_operators(p: PlanView, sources: Seq<(Seq<char>, SourceView)>)
    ensures
        compiled(p, sources) matches Ok(x) ==> x.0.len() > 0,
    decreases p,
{
    if let PlanView::Sink { input, .. } = p {
        lemma_has_operators(*input, sources);
    }
}

/// A plan with a filter makes those of the rows that are under it on which the condition
/// counts as true, in their order, with the same columns. It fails where the condition has
/// no value on one of them.
pub proof fn lemma_filter_plan(
    input: PlanView,
    predicate: ExprView,
    sources: Seq<(Seq<char>, SourceView)>,
    rows: Seq<RowView>,
    now: Timestamp,
)
    requires
        compiled(input, sources) is Ok,
    ensures
        ({
            let p = PlanView::Filter { input: Box::new(input), predicate };
            let schema = columns_of(input, sources);
            &&& compiled(p, sources) is Ok
            &&& columns_of(p, sources) == schema
            &&& match made_by(input, sources, rows, now) {
                Some(Ok(out)) => if forall|i: int|
                    0 <= i < out.len() ==> value_of(predicate, #[trigger] out[i], schema) is Ok {
                    made_by(p, sources, rows, now) == Some(
                        Ok::<Seq<RowView>, Seq<char>>(
                            out.filter(
                                |r: RowView|
                                    value_of(predicate, r, schema) matches Ok(v) && truthy(v),
                            ),
                        ),
                    )
                } else {
                    made_by(p, sources, rows, now) matches Some(Err(_))
                },
                other => made_by(p, sources, rows, now) == other,
            }
        }),
{
    let p = PlanView::Filter { input: Box::new(input), predicate };
    let (ops, schema) = compiled(input, sources)->Ok_0;
    let f = FilterView { predicate, schema };
    lemma_has_operators(input, sources);
    lemma_run_push(ops, OperatorView::Filter(f), rows, now, 0);
    if let Some(Ok(out)) = made_by(input, sources, rows, now) {
        lemma_filter(f, out, 0);
        assert(out.skip(0) =~= out);
        let a = |r: RowView| value_of(predicate, r, schema) matches Ok(v) && truthy(v);
        let b = |r: RowView| holds_on(f, r);
        assert(a =~= b);
        if out.len() == 0 {
            reveal(Seq::filter);
            assert(out.filter(a) =~= out);
        }
    }
}

/// A plan that computes expressions, none of them a star, makes one row of each that is
/// under it, in their order: with one value for each expression, in their order, and with
/// what is known of the row it is made of.
pub proof fn lemma_project_plan(
    input: PlanView,
    expressions: Seq<ExprView>,
    sources: Seq<(Seq<char>, SourceView)>,
    rows: Seq<RowView>,
    now: Timestamp,
)
    requires
        compiled(input, sources) is Ok,
        forall|k: int| 0 <= k < expressions.len() ==> !((#[trigger] expressions[k]) is Wildcard),
    ensures
        ({
            let p = PlanView::Project { input: Box::new(input), expressions };
            let schema = columns_of(input, sources);
            &&& compiled(p, sources) is Ok
            &&& match made_by(input, sources, rows, now) {
                Some(Ok(out)) => match made_by(p, sources, rows, now) {
                    Some(Ok(made)) => made.len() == out.len() && forall|i: int|
                        0 <= i < made.len() ==> (#[trigger] made[i]).metadata == out[i].metadata
                            && made[i].values.len() == expressions.len() && forall|k: int|
                            0 <= k < expressions.len() ==> value_of(
                                #[trigger] expressions[k],
                                out[i],
                                schema,
                            ) == Ok::<ValueView, Seq<char>>(made[i].values[k]),
                    Some(Err(_)) => exists|i: int, k: int|
                        0 <= i < out.len() && 0 <= k < expressions.len() && value_of(
                            #[trigger] expressions[k],
                            #[trigger] out[i],
                            schema,
                        ) is Err,
                    None => false,
                },
                other => made_by(p, sources, rows, now) == other,
            }
        }),
{
    let p = PlanView::Project { input: Box::new(input), expressions };
    let (ops, schema) = compiled(input, sources)->Ok_0;
    let op = compiled(p, sources)->Ok_0.0.last();
    let v = op->Project_0;
    lemma_has_operators(input, sources);
    lemma_run_push(ops, op, rows, now, 0);
    if let Some(Ok(out)) = made_by(input, sources, rows, now) {
        lemma_project(v, out, 0);
        assert forall|i: int| 0 <= i < out.len() implies (match projected_row(
            v,
            #[trigger] out[i],
        ) {
            Ok(row) => row.metadata == out[i].metadata && values_of(
                expressions,
                out[i],
                schema,
                0,
            ) == Ok::<Seq<ValueView>, Seq<char>>(row.values),
            Err(e) => values_of(expressions, out[i], schema, 0) == Err::<Seq<ValueView>, Seq<char>>(
                e,
            ),
        }) by {
            lemma_plain_projection(expressions, out[i], schema, 0);
        }
        match made_by(p, sources, rows, now) {
            Some(Ok(made)) => {
                assert forall|i: int| 0 <= i < made.len() implies (#[trigger] made[i]).metadata
                    == out[i].metadata && made[i].values.len() == expressions.len() && forall|k: int|
                    0 <= k < expressions.len() ==> value_of(
                        #[trigger] expressions[k],
                        out[i],
                        schema,
                    ) == Ok::<ValueView, Seq<char>>(made[i].values[k]) by {
                    assert(out[0 + i] == out[i]);
                    assert(projected_row(v, out[i]) == Ok::<RowView, Seq<char>>(made[i]));
                    lemma_values(expressions, out[i], schema);
                }
            },
            _ => {
                let i = choose|i: int|
                    0 <= i < out.len() && projected_row(v, #[trigger] out[i]) is Err;
                lemma_values(expressions, out[i], schema);
            },
        }
    }
}

proof fn lemma_plain_projection(
    expressions: Seq<ExprView>,
    row: RowView,
    schema: Seq<ColumnView>,
    i: nat,
)
    requires
        i <= expressions.len(),
        forall|k: int| 0 <= k < expressions.len() ==> !((#[trigger] expressions[k]) is Wildcard),
    ensures
        projected_values(expressions, row, schema, i) == values_of(
            expressions,
            row,
            schema,
            i,
        ),
    decreases expressions.len() - i,
{
    if i < expressions.len() {
        assert(!(expressions[i as int] is Wildcard));
        lemma_plain_projection(expressions, row, schema, i + 1);
    }
}

/// A plan that aggregates makes of the rows that are under it what an aggregation with its
/// expressions, functions and condition does that has seen nothing yet.
pub proof fn lemma_aggregate_plan(
    input: PlanView,
    group_by: Seq<ExprView>,
    aggregates: Seq<AggregateView>,
    having: Option<ExprView>,
    sources: Seq<(Seq<char>, SourceView)>,
    rows: Seq<RowView>,
    now: Timestamp,
)
    requires
        compiled(input, sources) is Ok,
    ensures
        ({
            let p = PlanView::Aggregate {
                input: Box::new(input),
                group_by,
                aggregates,
                window: None,
                having,
            };
            let a = AggregateOpView {
                group_by,
                aggregates,
                having,
                input_schema: columns_of(input, sources),
                output_schema: columns_of(p, sources),
                groups: Seq::empty(),
            };
            &&& compiled(p, sources) is Ok
            &&& made_by(p, sources, rows, now) == match made_by(input, sources, rows, now) {
                Some(Ok(out)) => Some(aggregate_step(a, out).0),
                other => other,
            }
        }),
{
    let p = PlanView::Aggregate {
        input: Box::new(input),
        group_by,
        aggregates,
        window: None,
        having,
    };
    let (ops, schema) = compiled(input, sources)->Ok_0;
    let op = compiled(p, sources)->Ok_0.0.last();
    lemma_has_operators(input, sources);
    lemma_run_push(ops, op, rows, now, 0);
    if let Some(Ok(out)) = made_by(input, sources, rows, now) {
        if out.len() == 0 {
            assert(aggregate_step(op->Aggregate_0, out).0->Ok_0 =~= out);
        }
    }
}

/// A plan that aggregates over windows makes of the rows that are under it what an
/// aggregation over these windows does that has seen nothing yet.
pub proof fn lemma_window_plan(
    input: PlanView,
    group_by: Seq<ExprView>,
    aggregates: Seq<AggregateView>,
    window_spec: WindowSpec,
    having: Option<ExprView>,
    sources: Seq<(Seq<char>, SourceView)>,
    rows: Seq<RowView>,
    now: Timestamp,
)
    requires
        compiled(input, sources) is Ok,
    ensures
        ({
            let p = PlanView::Aggregate {
                input: Box::new(input),
                group_by,
                aggregates,
                window: Some(window_spec),
                having,
            };
            let w = WindowedView {
                group_by,
                aggregates,
                having,
                window_spec,
                input_schema: columns_of(input, sources),
                output_schema: columns_of(p, sources),
                windows: Seq::empty(),
            };
            &&& compiled(p, sources) is Ok
            &&& made_by(p, sources, rows, now) == match made_by(input, sources, rows, now) {
                Some(Ok(out)) => windowed_step(w, out, now).0,
                other => other,
            }
        }),
{
    let p = PlanView::Aggregate {
        input: Box::new(input),
        group_by,
        aggregates,
        window: Some(window_spec),
        having,
    };
    let (ops, schema) = compiled(input, sources)->Ok_0;
    let op = compiled(p, sources)->Ok_0.0.last();
    lemma_has_operators(input, sources);
    lemma_run_push(ops, op, rows, now, 0);
    if let Some(Ok(out)) = made_by(input, sources, rows, now) {
        if out.len() == 0 {
            assert(windowed_step(op->Windowed_0, out, now).0->0->Ok_0 =~= out);
        }
    }
}

/// A plan that joins two sources on the equality of a column of the left one with a column
/// of the right one is compiled to a join of their rows that matches them by these
/// columns: with a table, or within the span that it is given. What is read of the right
/// source is put there under the column of the right.
pub proof fn lemma_join_plan(
    l: Seq<char>,
    r: Seq<char>,
    join_type: JoinType,
    a: Seq<char>,
    b: Seq<char>,
    within: Option<Duration>,
    sources: Seq<(Seq<char>, SourceView)>,
    i: int,
    j: int,
)
    requires
        source_of(sources, l) matches Some(x) && is_first_named(x.schema, a, i),
        source_of(sources, r) matches Some(y) && is_first_named(y.schema, b, j),
        j <= usize::MAX,
    ensures
        ({
            let left = source_of(sources, l)->0;
            let right = source_of(sources, r)->0;
            let p = PlanView::Join {
                left: Box::new(PlanView::Scan { source: l }),
                right: Box::new(PlanView::Scan { source: r }),
                join_type,
                on: between_two(ExprView::Column(a), BinaryOp::Eq, ExprView::Column(b)),
                within,
            };
            &&& pipeline_of(p, sources) matches Ok(x) && {
                &&& x.source_topics == seq![left.topic, right.topic]
                &&& x.output_schema == left.schema + right.schema
                &&& x.operators.len() == 2
                &&& x.operators[0] == OperatorView::Deserialize(left.schema)
                &&& x.join.join_op_index == Some(1usize)
                &&& x.join.right_source_topic == Some(right.topic)
                &&& x.join.right_schema == Some(right.schema)
                &&& x.join.right_key_index == Some(j as usize)
                &&& match within {
                    None => x.operators[1] matches OperatorView::StreamTable(t) && t.join_type
                        == join_type && t.left_key_index == i && t.right.len() == 0
                        && t.right_schema == right.schema,
                    Some(span) => x.operators[1] matches OperatorView::StreamStream(t)
                        && t.join_type == join_type && t.within == span && t.left_key_index == i
                        && t.right_key_index == j && t.left.len() == 0 && t.right.len() == 0
                        && t.left_schema == left.schema && t.right_schema == right.schema,
                }
            }
        }),
{
    let left = source_of(sources, l)->0;
    let right = source_of(sources, r)->0;
    lemma_join_on(a, b, left.schema, right.schema, i, j);
    let p = PlanView::Join {
        left: Box::new(PlanView::Scan { source: l }),
        right: Box::new(PlanView::Scan { source: r }),
        join_type,
        on: between_two(ExprView::Column(a), BinaryOp::Eq, ExprView::Column(b)),
        within,
    };
    let names = plan_sources(p);
    reveal_with_fuel(plan_sources, 3);
    assert(names =~= seq![l, r]);
    reveal_with_fuel(topics_of, 3);
    reveal_with_fuel(compiled, 3);
    assert(topics_of(names, sources, 0)->Ok_0 =~= seq![
        left.topic,
        right.topic,
    ]);
}

/// Where results are written to, nothing else is made of rows.
pub proof fn lemma_sink_plan(
    p: PlanView,
    sources: Seq<(Seq<char>, SourceView)>,
    rows: Seq<RowView>,
    now: Timestamp,
)
    ensures
        p matches PlanView::Sink { input, .. } ==> made_by(p, sources, rows, now) == made_by(
            *input,
            sources,
            rows,
            now,
        ) && columns_of(p, sources) == columns_of(*input, sources),
{
}

} // verus!
