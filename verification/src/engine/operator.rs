//! Operators: each makes a batch of rows out of another.
use crate::engine::operator::aggregate::{aggregate_step, AggregateOpView};
use crate::engine::operator::join::laws::carry_times;
use crate::engine::operator::join::{
    joined_tables, left_step, right_kept, stream_table_rows, StreamStreamView, StreamTableView,
    TableTableView,
};
use crate::engine::operator::rows::rows_outcome;
use crate::engine::operator::simple::{
    deserialized, filtered, projected, stored, FilterView, ProjectView, TableSinkView,
};
use crate::engine::operator::window::{windowed_step, WindowedView};
use crate::engine::pipeline::times::{asks_times, lemma_load_any_time, lemma_step_any_time};
use crate::error::Error;
use crate::time::Timestamp;
use crate::types::{ColumnView, Row, RowView, Schema};
use crate::value::views;
use vstd::prelude::*;

pub mod aggregate;
pub mod join;
pub mod laws;
pub mod rows;
pub mod simple;
pub mod window;

pub use aggregate::AggregateOp;
pub use join::{StreamStreamJoinOp, StreamTableJoinOp, TableTableJoinOp};
pub use simple::{DeserializeOp, FilterOp, ProjectOp, TableSinkOp};
pub use window::WindowedAggregateOp;

verus! {

/// What an operator holds.
pub enum OperatorView {
    Deserialize(Seq<ColumnView>),
    Filter(FilterView),
    Project(ProjectView),
    Aggregate(AggregateOpView),
    TableSink(TableSinkView),
    Windowed(WindowedView),
    StreamTable(StreamTableView),
    StreamStream(StreamStreamView),
    TableTable(TableTableView),
}

/// What an operator makes of a batch at a time, and what it holds then. There is no
/// answer where a time that it needs is out of range.
pub open spec fn step(op: OperatorView, rows: Seq<RowView>, now: Timestamp) -> (
    Option<Result<Seq<RowView>, Seq<char>>>,
    OperatorView,
) {
    match op {
        OperatorView::Deserialize(schema) => (
            Some(Ok(deserialized(rows, schema, rows.len()))),
            op,
        ),
        OperatorView::Filter(f) => (Some(filtered(f, rows, 0)), op),
        OperatorView::Project(p) => (Some(projected(p, rows, 0)), op),
        OperatorView::Aggregate(a) => {
            let (r, next) = aggregate_step(a, rows);
            (Some(r), OperatorView::Aggregate(next))
        },
        OperatorView::TableSink(t) => (
            Some(Ok(rows)),
            OperatorView::TableSink(
                TableSinkView { table: stored(t.table, rows, t.key_index, rows.len()), ..t },
            ),
        ),
        OperatorView::Windowed(w) => {
            let (r, next) = windowed_step(w, rows, now);
            (r, OperatorView::Windowed(next))
        },
        OperatorView::StreamTable(j) => (
            Some(Ok(stream_table_rows(j, rows, rows.len()))),
            op,
        ),
        OperatorView::StreamStream(j) => {
            let (r, next) = left_step(j, rows, now, 0);
            (
                match r {
                    Some(output) => Some(Ok(output)),
                    None => None,
                },
                OperatorView::StreamStream(next),
            )
        },
        OperatorView::TableTable(j) => {
            let next = TableTableView {
                left: stored(j.left, rows, j.left_key_index, rows.len()),
                ..j
            };
            (Some(Ok(joined_tables(next))), OperatorView::TableTable(next))
        },
    }
}

/// The schema of the rows that an operator makes.
pub open spec fn schema_of(op: OperatorView) -> Seq<ColumnView> {
    match op {
        OperatorView::Deserialize(schema) => schema,
        OperatorView::Filter(f) => f.schema,
        OperatorView::Project(p) => p.output_schema,
        OperatorView::Aggregate(a) => a.output_schema,
        OperatorView::TableSink(t) => t.schema,
        OperatorView::Windowed(w) => w.output_schema,
        OperatorView::StreamTable(j) => j.output_schema,
        OperatorView::StreamStream(j) => j.output_schema,
        OperatorView::TableTable(j) => j.output_schema,
    }
}

/// What an operator holds once rows were put into the right side of its join, at a time
/// that stands for the present. Operators that are no joins stay as they are.
pub open spec fn right_loaded(
    op: OperatorView,
    rows: Seq<RowView>,
    key_index: int,
    now: Timestamp,
) -> OperatorView {
    match op {
        OperatorView::StreamTable(j) => OperatorView::StreamTable(
            StreamTableView { right: stored(j.right, rows, key_index, rows.len()), ..j },
        ),
        OperatorView::TableTable(j) => OperatorView::TableTable(
            TableTableView { right: stored(j.right, rows, key_index, rows.len()), ..j },
        ),
        OperatorView::StreamStream(j) => OperatorView::StreamStream(
            StreamStreamView { right: right_kept(j.right, rows, now, rows.len()), ..j },
        ),
        _ => op,
    }
}

/// What an optional result of rows holds.
pub open spec fn step_view(r: Option<Result<Vec<Row>, Error>>) -> Option<
    Result<Seq<RowView>, Seq<char>>,
> {
    match r {
        Some(x) => Some(rows_outcome(x)),
        None => None,
    }
}

/// Makes a batch of rows out of another.
pub trait Operator: Send {
    /// What the operator holds.
    spec fn model(&self) -> OperatorView;

    /// Takes in a batch at a time. There is no answer where a time that the operator
    /// needs is out of range.
    fn try_process(&mut self, rows: Vec<Row>, now: Timestamp) -> (r: Option<
        Result<Vec<Row>, Error>,
    >)
        ensures
            step_view(r) == step(old(self).model(), views(rows@), now).0,
            final(self).model() == step(old(self).model(), views(rows@), now).1,
    ;

    /// Takes in a batch at a time that has an answer.
    fn process_at(&mut self, rows: Vec<Row>, now: Timestamp) -> (r: Result<Vec<Row>, Error>)
        requires
            step(old(self).model(), views(rows@), now).0 is Some,
        ensures
            Some(rows_outcome(r)) == step(old(self).model(), views(rows@), now).0,
            final(self).model() == step(old(self).model(), views(rows@), now).1,
    {
        match self.try_process(rows, now) {
            Some(r) => r,
            None => Ok(Vec::new()),
        }
    }

    /// Takes in a batch. Rows without a time of their own are taken to be of the
    /// present.
    fn process(&mut self, rows: Vec<Row>) -> (r: Result<Vec<Row>, Error>)
        requires
            forall|now: Timestamp|
                (#[trigger] step(old(self).model(), views(rows@), now)).0 is Some,
        ensures
            exists|now: Timestamp|
                now.of_clock() && #[trigger] step(old(self).model(), views(rows@), now) == (
                    Some(rows_outcome(r)),
                    final(self).model(),
                ),
            (asks_times(old(self).model()) ==> carry_times(views(rows@))) ==> forall|now: Timestamp|
                #[trigger] step(old(self).model(), views(rows@), now) == (
                    Some(rows_outcome(r)),
                    final(self).model(),
                ),
    {
        let now = Timestamp::now();
        proof {
            if asks_times(self.model()) ==> carry_times(views(rows@)) {
                assert forall|later: Timestamp| #[trigger]
                    step(self.model(), views(rows@), later) == step(
                    self.model(),
                    views(rows@),
                    now,
                ) by {
                    lemma_step_any_time(self.model(), views(rows@), later, now);
                }
            }
        }
        self.process_at(rows, now)
    }

    /// Puts out what is held back. No operator holds rows back.
    fn flush(&mut self) -> (r: Result<Vec<Row>, Error>)
        ensures
            rows_outcome(r) == Ok::<Seq<RowView>, Seq<char>>(Seq::empty()),
            final(self).model() == old(self).model(),
    {
        let none: Vec<Row> = Vec::new();
        proof {
            assert(views(none@) =~= Seq::<RowView>::empty());
        }
        Ok(none)
    }

    /// The schema of the rows that the operator makes.
    fn output_schema(&self) -> (r: &Schema)
        ensures
            r@ == schema_of(self.model()),
    ;

    /// Puts rows into the right side of a join, at a time that stands for the present.
    /// Other operators stay as they are.
    fn load_right_at(&mut self, rows: Vec<Row>, key_index: usize, now: Timestamp)
        ensures
            final(self).model() == right_loaded(
                old(self).model(),
                views(rows@),
                key_index as int,
                now,
            ),
    ;

    /// Puts rows into the right side of a join. Other operators stay as they are. Rows
    /// without a time of their own are taken to be of the present.
    fn load_right(&mut self, rows: Vec<Row>, key_index: usize)
        ensures
            exists|now: Timestamp|
                now.of_clock() && final(self).model() == #[trigger] right_loaded(
                    old(self).model(),
                    views(rows@),
                    key_index as int,
                    now,
                ),
            carry_times(views(rows@)) ==> forall|now: Timestamp|
                final(self).model() == #[trigger] right_loaded(
                    old(self).model(),
                    views(rows@),
                    key_index as int,
                    now,
                ),
    {
        let now = Timestamp::now();
        proof {
            if carry_times(views(rows@)) {
                assert forall|later: Timestamp| #[trigger]
                    right_loaded(self.model(), views(rows@), key_index as int, later)
                    == right_loaded(self.model(), views(rows@), key_index as int, now) by {
                    lemma_load_any_time(self.model(), views(rows@), key_index as int, later, now);
                }
            }
        }
        self.load_right_at(rows, key_index, now)
    }
}

impl Operator for DeserializeOp {
    open spec fn model(&self) -> OperatorView {
        OperatorView::Deserialize(self@)
    }

    fn try_process(&mut self, rows: Vec<Row>, now: Timestamp) -> (r: Option<
        Result<Vec<Row>, Error>,
    >) {
        Some(Ok(self.read(&rows)))
    }

    fn output_schema(&self) -> (r: &Schema) {
        self.schema()
    }

    fn load_right_at(&mut self, rows: Vec<Row>, key_index: usize, now: Timestamp) {
    }
}

impl Operator for FilterOp {
    open spec fn model(&self) -> OperatorView {
        OperatorView::Filter(self@)
    }

    fn try_process(&mut self, rows: Vec<Row>, now: Timestamp) -> (r: Option<
        Result<Vec<Row>, Error>,
    >) {
        Some(self.keep(&rows))
    }

    fn output_schema(&self) -> (r: &Schema) {
        self.schema()
    }

    fn load_right_at(&mut self, rows: Vec<Row>, key_index: usize, now: Timestamp) {
    }
}

impl Operator for ProjectOp {
    open spec fn model(&self) -> OperatorView {
        OperatorView::Project(self@)
    }

    fn try_process(&mut self, rows: Vec<Row>, now: Timestamp) -> (r: Option<
        Result<Vec<Row>, Error>,
    >) {
        Some(self.project(&rows))
    }

    fn output_schema(&self) -> (r: &Schema) {
        self.schema()
    }

    fn load_right_at(&mut self, rows: Vec<Row>, key_index: usize, now: Timestamp) {
    }
}

impl Operator for AggregateOp {
    open spec fn model(&self) -> OperatorView {
        OperatorView::Aggregate(self@)
    }

    fn try_process(&mut self, rows: Vec<Row>, now: Timestamp) -> (r: Option<
        Result<Vec<Row>, Error>,
    >) {
        Some(self.aggregate(&rows))
    }

    fn output_schema(&self) -> (r: &Schema) {
        self.schema()
    }

    fn load_right_at(&mut self, rows: Vec<Row>, key_index: usize, now: Timestamp) {
    }
}

impl Operator for TableSinkOp {
    open spec fn model(&self) -> OperatorView {
        OperatorView::TableSink(self@)
    }

    fn try_process(&mut self, rows: Vec<Row>, now: Timestamp) -> (r: Option<
        Result<Vec<Row>, Error>,
    >) {
        self.store(&rows);
        Some(Ok(rows))
    }

    fn output_schema(&self) -> (r: &Schema) {
        self.schema()
    }

    fn load_right_at(&mut self, rows: Vec<Row>, key_index: usize, now: Timestamp) {
    }
}

impl Operator for WindowedAggregateOp {
    open spec fn model(&self) -> OperatorView {
        OperatorView::Windowed(self@)
    }

    fn try_process(&mut self, rows: Vec<Row>, now: Timestamp) -> (r: Option<
        Result<Vec<Row>, Error>,
    >) {
        self.aggregate(&rows, now)
    }

    fn output_schema(&self) -> (r: &Schema) {
        self.schema()
    }

    fn load_right_at(&mut self, rows: Vec<Row>, key_index: usize, now: Timestamp) {
    }
}

impl Operator for StreamTableJoinOp {
    open spec fn model(&self) -> OperatorView {
        OperatorView::StreamTable(self@)
    }

    fn try_process(&mut self, rows: Vec<Row>, now: Timestamp) -> (r: Option<
        Result<Vec<Row>, Error>,
    >) {
        Some(Ok(self.join(&rows)))
    }

    fn output_schema(&self) -> (r: &Schema) {
        self.schema()
    }

    fn load_right_at(&mut self, rows: Vec<Row>, key_index: usize, now: Timestamp) {
        StreamTableJoinOp::load_right(self, rows, key_index);
    }
}

impl Operator for StreamStreamJoinOp {
    open spec fn model(&self) -> OperatorView {
        OperatorView::StreamStream(self@)
    }

    fn try_process(&mut self, rows: Vec<Row>, now: Timestamp) -> (r: Option<
        Result<Vec<Row>, Error>,
    >) {
        match self.join_left(&rows, now) {
            Some(output) => Some(Ok(output)),
            None => None,
        }
    }

    fn output_schema(&self) -> (r: &Schema) {
        self.schema()
    }

    fn load_right_at(&mut self, rows: Vec<Row>, key_index: usize, now: Timestamp) {
        self.keep_right(&rows, now);
    }
}

impl Operator for TableTableJoinOp {
    open spec fn model(&self) -> OperatorView {
        OperatorView::TableTable(self@)
    }

    fn try_process(&mut self, rows: Vec<Row>, now: Timestamp) -> (r: Option<
        Result<Vec<Row>, Error>,
    >) {
        self.load_left(rows);
        Some(Ok(self.join_all()))
    }

    fn output_schema(&self) -> (r: &Schema) {
        self.schema()
    }

    fn load_right_at(&mut self, rows: Vec<Row>, key_index: usize, now: Timestamp) {
        TableTableJoinOp::load_right(self, rows, key_index);
    }
}

/// Any of the operators.
#[derive(Debug)]
pub enum AnyOperator {
    Deserialize(DeserializeOp),
    Filter(FilterOp),
    Project(ProjectOp),
    Aggregate(AggregateOp),
    TableSink(TableSinkOp),
    Windowed(WindowedAggregateOp),
    StreamTable(StreamTableJoinOp),
    StreamStream(StreamStreamJoinOp),
    TableTable(TableTableJoinOp),
}

impl Operator for AnyOperator {
    open spec fn model(&self) -> OperatorView {
        match self {
            AnyOperator::Deserialize(op) => op.model(),
            AnyOperator::Filter(op) => op.model(),
            AnyOperator::Project(op) => op.model(),
            AnyOperator::Aggregate(op) => op.model(),
            AnyOperator::TableSink(op) => op.model(),
            AnyOperator::Windowed(op) => op.model(),
            AnyOperator::StreamTable(op) => op.model(),
            AnyOperator::StreamStream(op) => op.model(),
            AnyOperator::TableTable(op) => op.model(),
        }
    }

    fn try_process(&mut self, rows: Vec<Row>, now: Timestamp) -> (r: Option<
        Result<Vec<Row>, Error>,
    >) {
        match self {
            AnyOperator::Deserialize(op) => op.try_process(rows, now),
            AnyOperator::Filter(op) => op.try_process(rows, now),
            AnyOperator::Project(op) => op.try_process(rows, now),
            AnyOperator::Aggregate(op) => op.try_process(rows, now),
            AnyOperator::TableSink(op) => op.try_process(rows, now),
            AnyOperator::Windowed(op) => op.try_process(rows, now),
            AnyOperator::StreamTable(op) => op.try_process(rows, now),
            AnyOperator::StreamStream(op) => op.try_process(rows, now),
            AnyOperator::TableTable(op) => op.try_process(rows, now),
        }
    }

    fn output_schema(&self) -> (r: &Schema) {
        match self {
            AnyOperator::Deserialize(op) => op.output_schema(),
            AnyOperator::Filter(op) => op.output_schema(),
            AnyOperator::Project(op) => op.output_schema(),
            AnyOperator::Aggregate(op) => op.output_schema(),
            AnyOperator::TableSink(op) => op.output_schema(),
            AnyOperator::Windowed(op) => op.output_schema(),
            AnyOperator::StreamTable(op) => op.output_schema(),
            AnyOperator::StreamStream(op) => op.output_schema(),
            AnyOperator::TableTable(op) => op.output_schema(),
        }
    }

    fn load_right_at(&mut self, rows: Vec<Row>, key_index: usize, now: Timestamp) {
        match self {
            AnyOperator::Deserialize(op) => Operator::load_right_at(op, rows, key_index, now),
            AnyOperator::Filter(op) => Operator::load_right_at(op, rows, key_index, now),
            AnyOperator::Project(op) => Operator::load_right_at(op, rows, key_index, now),
            AnyOperator::Aggregate(op) => Operator::load_right_at(op, rows, key_index, now),
            AnyOperator::TableSink(op) => Operator::load_right_at(op, rows, key_index, now),
            AnyOperator::Windowed(op) => Operator::load_right_at(op, rows, key_index, now),
            AnyOperator::StreamTable(op) => Operator::load_right_at(op, rows, key_index, now),
            AnyOperator::StreamStream(op) => Operator::load_right_at(op, rows, key_index, now),
            AnyOperator::TableTable(op) => Operator::load_right_at(op, rows, key_index, now),
        }
    }
}

} // verus!
