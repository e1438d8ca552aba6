//! Pipelines: chains of operators that plans are compiled to.
use crate::engine::operator::aggregate::{AggregateOp, AggregateOpView};
use crate::engine::operator::join::laws::carry_times;
use crate::engine::operator::join::{
    StreamStreamJoinOp, StreamStreamView, StreamTableJoinOp, StreamTableView,
};
use crate::engine::operator::rows::{
    aggregate_schema, join_keys_or_first, key_indices_or_first, projection_schema, rows_outcome,
};
use crate::engine::operator::simple::{
    DeserializeOp, FilterOp, FilterView, ProjectOp, ProjectView,
};
use crate::engine::operator::window::{WindowedAggregateOp, WindowedView};
use crate::engine::operator::{
    right_loaded, schema_of, step, step_view, AnyOperator, Operator, OperatorView,
};
use crate::engine::pipeline::times::{lemma_load_any_time, lemma_run_any_time, own_times};
use crate::entries::entry_find;
use crate::error::{fail2, Error};
use crate::expr::clone_exprs;
use crate::plan::{
    clone_aggregates, clone_having, lemma_plan_has_source, plan_sources, PlanView, QueryPlan,
};
use crate::schema::{SchemaRegistry, SourceView};
use crate::text::upper;
use crate::time::Timestamp;
use crate::types::{text_view, ColumnView, Row, RowView, Schema};
use crate::value::views;
use vstd::prelude::*;

pub mod laws;
pub mod plans;
pub mod right;
pub mod times;

verus! {

/// A chain of operators, the topics that it reads, and what it needs to know of a
/// join.
#[derive(Debug)]
pub struct Pipeline {
    pub source_topics: Vec<String>,
    pub operators: Vec<AnyOperator>,
    pub output_schema: Schema,
    /// The topic of the right side of a join.
    pub right_source_topic: Option<String>,
    /// The schema of the right side of a join.
    pub right_schema: Option<Schema>,
    /// The place of the join among the operators.
    pub join_op_index: Option<usize>,
    /// The place of the key column on the right side of a join.
    pub right_key_index: Option<usize>,
}

/// What operators hold.
pub open spec fn models(s: Seq<AnyOperator>) -> Seq<OperatorView> {
    s.map_values(|o: AnyOperator| o.model())
}

/// What an optional schema holds.
pub open spec fn schema_view(s: Option<Schema>) -> Option<Seq<ColumnView>> {
    match s {
        Some(s) => Some(s@),
        None => None,
    }
}

/// What is known of the right side of a join.
pub struct JoinView {
    pub right_source_topic: Option<Seq<char>>,
    pub right_schema: Option<Seq<ColumnView>>,
    pub join_op_index: Option<usize>,
    pub right_key_index: Option<usize>,
}

/// What a `Pipeline` holds.
pub struct PipelineView {
    pub source_topics: Seq<Seq<char>>,
    pub operators: Seq<OperatorView>,
    pub output_schema: Seq<ColumnView>,
    pub join: JoinView,
}

impl View for Pipeline {
    type V = PipelineView;

    open spec fn view(&self) -> PipelineView {
        PipelineView {
            source_topics: views(self.source_topics@),
            operators: models(self.operators@),
            output_schema: self.output_schema@,
            join: JoinView {
                right_source_topic: text_view(self.right_source_topic),
                right_schema: schema_view(self.right_schema),
                join_op_index: self.join_op_index,
                right_key_index: self.right_key_index,
            },
        }
    }
}

/// What the operators from a place on make of a batch at a time, and what all
/// operators hold then. An empty batch goes no further.
pub open spec fn run(ops: Seq<OperatorView>, rows: Seq<RowView>, now: Timestamp, i: nat) -> (
    Option<Result<Seq<RowView>, Seq<char>>>,
    Seq<OperatorView>,
)
    decreases ops.len() - i,
{
    if i >= ops.len() {
        (Some(Ok(rows)), ops)
    } else {
        let (r, next) = step(ops[i as int], rows, now);
        let after = ops.update(i as int, next);
        match r {
            Some(Ok(output)) => if output.len() == 0 {
                (r, after)
            } else {
                run(after, output, now, i + 1)
            },
            _ => (r, after),
        }
    }
}

impl Pipeline {
    /// Takes a batch at a time through all operators. There is no answer where a time
    /// that an operator needs is out of range.
    pub fn try_process(&mut self, rows: Vec<Row>, now: Timestamp) -> (r: Option<
        Result<Vec<Row>, Error>,
    >)
        ensures
            step_view(r) == run(old(self)@.operators, views(rows@), now, 0).0,
            final(self)@ == (PipelineView {
                operators: run(old(self)@.operators, views(rows@), now, 0).1,
                ..old(self)@
            }),
    {
        let ghost first = self@;
        let ghost start = views(rows@);
        let ghost expected = run(first.operators, start, now, 0);
        let mut batch = rows;
        let mut i: usize = 0;
        while i < self.operators.len()
            invariant
                i <= self.operators.len(),
                first == old(self)@,
                start == views(rows@),
                expected == run(first.operators, start, now, 0),
                self@ == (PipelineView { operators: self@.operators, ..first }),
                expected == run(self@.operators, views(batch@), now, i as nat),
            decreases self.operators.len() - i,
        {
            let ghost before = self@.operators;
            let ghost input = views(batch@);
            let r = self.operators[i].try_process(batch, now);
            proof {
                assert(self@.operators =~= before.update(
                    i as int,
                    step(before[i as int], input, now).1,
                ));
            }
            match r {
                Some(Ok(output)) => {
                    if output.len() == 0 {
                        return Some(Ok(output));
                    }
                    batch = output;
                },
                Some(Err(e)) => {
                    return Some(Err(e));
                },
                None => {
                    return None;
                },
            }
            i = i + 1;
        }
        Some(Ok(batch))
    }

    /// Takes a batch at a time that has an answer through all operators.
    pub fn process_at(&mut self, rows: Vec<Row>, now: Timestamp) -> (r: Result<Vec<Row>, Error>)
        requires
            run(old(self)@.operators, views(rows@), now, 0).0 is Some,
        ensures
            Some(rows_outcome(r)) == run(old(self)@.operators, views(rows@), now, 0).0,
            final(self)@ == (PipelineView {
                operators: run(old(self)@.operators, views(rows@), now, 0).1,
                ..old(self)@
            }),
    {
        match self.try_process(rows, now) {
            Some(r) => r,
            None => Ok(Vec::new()),
        }
    }

    /// Takes a batch through all operators. Rows without a time of their own are
    /// taken to be of the present.
    pub fn process(&mut self, rows: Vec<Row>) -> (r: Result<Vec<Row>, Error>)
        requires
            forall|now: Timestamp|
                (#[trigger] run(old(self)@.operators, views(rows@), now, 0)).0 is Some,
        ensures
            exists|now: Timestamp|
                {
                    let end = #[trigger] run(old(self)@.operators, views(rows@), now, 0);
                    now.of_clock() && Some(rows_outcome(r)) == end.0 && final(self)@ == (
                    PipelineView { operators: end.1, ..old(self)@ })
                },
            own_times(old(self)@.operators, 0) && carry_times(views(rows@)) ==> forall|
                now: Timestamp,
            |
                {
                    let end = #[trigger] run(old(self)@.operators, views(rows@), now, 0);
                    Some(rows_outcome(r)) == end.0 && final(self)@ == (PipelineView {
                        operators: end.1,
                        ..old(self)@
                    })
                },
    {
        let now = Timestamp::now();
        proof {
            let ops = self@.operators;
            if own_times(ops, 0) && carry_times(views(rows@)) {
                assert forall|later: Timestamp| #[trigger]
                    run(ops, views(rows@), later, 0) == run(ops, views(rows@), now, 0) by {
                    lemma_run_any_time(ops, views(rows@), later, now, 0);
                }
            }
        }
        self.process_at(rows, now)
    }

    /// Puts rows into the right side of the join, if there is one. Rows without a time
    /// of their own are taken to be of the present.
    pub fn load_join_right(&mut self, rows: Vec<Row>)
        requires
            old(self).join_op_index is Some && old(self).right_key_index is Some ==> old(
                self,
            ).join_op_index->0 < old(self)@.operators.len(),
        ensures
            exists|now: Timestamp|
                now.of_clock() && final(self)@ == #[trigger] joined_right(
                    old(self)@,
                    views(rows@),
                    now,
                ),
            carry_times(views(rows@)) ==> forall|now: Timestamp|
                final(self)@ == #[trigger] joined_right(old(self)@, views(rows@), now),
    {
        let now = Timestamp::now();
        proof {
            if carry_times(views(rows@)) {
                assert forall|later: Timestamp| #[trigger]
                    joined_right(self@, views(rows@), later) == joined_right(
                    self@,
                    views(rows@),
                    now,
                ) by {
                    if let (Some(index), Some(key)) = (self.join_op_index, self.right_key_index) {
                        let op = self@.operators[index as int];
                        lemma_load_any_time(op, views(rows@), key as int, later, now);
                    }
                }
            }
        }
        self.load_join_right_at(rows, now)
    }

    /// Puts rows into the right side of the join, if there is one, at a time that stands
    /// for the present.
    pub fn load_join_right_at(&mut self, rows: Vec<Row>, now: Timestamp)
        requires
            old(self).join_op_index is Some && old(self).right_key_index is Some ==> old(
                self,
            ).join_op_index->0 < old(self)@.operators.len(),
        ensures
            final(self)@ == joined_right(old(self)@, views(rows@), now),
    {
        let ghost before = self@.operators;
        let ghost all = views(rows@);
        if let (Some(index), Some(key_index)) = (self.join_op_index, self.right_key_index) {
            self.operators[index].load_right_at(rows, key_index, now);
            proof {
                assert(self@.operators =~= before.update(
                    index as int,
                    right_loaded(before[index as int], all, key_index as int, now),
                ));
            }
        }
    }

    /// Puts out what is held back. No operator holds rows back.
    pub fn flush(&mut self) -> (r: Result<Vec<Row>, Error>)
        ensures
            rows_outcome(r) == Ok::<Seq<RowView>, Seq<char>>(Seq::empty()),
            final(self)@ == old(self)@,
    {
        let mut result: Vec<Row> = Vec::new();
        let mut i: usize = 0;
        proof {
            assert(views(result@) =~= Seq::<RowView>::empty());
        }
        while i < self.operators.len()
            invariant
                i <= self.operators.len(),
                self@ == old(self)@,
                views(result@) == Seq::<RowView>::empty(),
            decreases self.operators.len() - i,
        {
            let ghost before = self@;
            match self.operators[i].flush() {
                Ok(mut flushed) => {
                    proof {
                        assert(self@.operators =~= before.operators);
                        assert(views(flushed@).len() == 0);
                    }
                    result.append(&mut flushed);
                    proof {
                        assert(views(result@) =~= Seq::<RowView>::empty());
                    }
                },
                Err(e) => {
                    return Err(e);
                },
            }
            i = i + 1;
        }
        Ok(result)
    }
}

/// A pipeline once rows were put into the right table of its join.
pub open spec fn joined_right(
    p: PipelineView,
    rows: Seq<RowView>,
    now: Timestamp,
) -> PipelineView {
    match (p.join.join_op_index, p.join.right_key_index) {
        (Some(index), Some(key_index)) => PipelineView {
            operators: p.operators.update(
                index as int,
                right_loaded(p.operators[index as int], rows, key_index as int, now),
            ),
            ..p
        },
        _ => p,
    }
}

/// The source with a name, whatever the case of its letters.
pub open spec fn source_of(sources: Seq<(Seq<char>, SourceView)>, name: Seq<char>) -> Option<
    SourceView,
> {
    entry_find(sources, upper(name), 0)
}

/// The message about a source that is not known.
pub open spec fn unknown_source(name: Seq<char>) -> Seq<char> {
    "Unknown source: "@ + name
}

/// The topics of the sources from a place on, or the error about the first that is
/// not known.
pub open spec fn topics_of(
    names: Seq<Seq<char>>,
    sources: Seq<(Seq<char>, SourceView)>,
    i: nat,
) -> Result<Seq<Seq<char>>, Seq<char>>
    decreases names.len() - i,
{
    if i >= names.len() {
        Ok(Seq::empty())
    } else {
        match source_of(sources, names[i as int]) {
            None => Err(unknown_source(names[i as int])),
            Some(info) => match topics_of(names, sources, i + 1) {
                Ok(rest) => Ok(seq![info.topic] + rest),
                Err(e) => Err(e),
            },
        }
    }
}

/// The operators that a plan is compiled to, and the schema of the rows that they
/// make. A join is compiled into the chain of its left side.
pub open spec fn compiled(p: PlanView, sources: Seq<(Seq<char>, SourceView)>) -> Result<
    (Seq<OperatorView>, Seq<ColumnView>),
    Seq<char>,
>
    decreases p,
{
    match p {
        PlanView::Scan { source } => match source_of(sources, source) {
            Some(info) => Ok((seq![OperatorView::Deserialize(info.schema)], info.schema)),
            None => Err(unknown_source(source)),
        },
        PlanView::Filter { input, predicate } => match compiled(*input, sources) {
            Err(e) => Err(e),
            Ok((ops, schema)) => Ok(
                (ops.push(OperatorView::Filter(FilterView { predicate, schema })), schema),
            ),
        },
        PlanView::Project { input, expressions } => match compiled(*input, sources) {
            Err(e) => Err(e),
            Ok((ops, schema)) => {
                let output_schema = projection_schema(expressions, schema, expressions.len());
                Ok(
                    (
                        ops.push(
                            OperatorView::Project(
                                ProjectView { expressions, input_schema: schema, output_schema },
                            ),
                        ),
                        output_schema,
                    ),
                )
            },
        },
        PlanView::Aggregate { input, group_by, aggregates, window, having } => match compiled(
            *input,
            sources,
        ) {
            Err(e) => Err(e),
            Ok((ops, schema)) => {
                let output_schema = aggregate_schema(group_by, aggregates, schema);
                let op = match window {
                    None => OperatorView::Aggregate(
                        AggregateOpView {
                            group_by,
                            aggregates,
                            having,
                            input_schema: schema,
                            output_schema,
                            groups: Seq::empty(),
                        },
                    ),
                    Some(window_spec) => OperatorView::Windowed(
                        WindowedView {
                            group_by,
                            aggregates,
                            having,
                            window_spec,
                            input_schema: schema,
                            output_schema,
                            windows: Seq::empty(),
                        },
                    ),
                };
                Ok((ops.push(op), output_schema))
            },
        },
        PlanView::Join { left, right, join_type, on, within } => match compiled(*left, sources) {
            Err(e) => Err(e),
            Ok((ops, left_schema)) => match compiled(*right, sources) {
                Err(e) => Err(e),
                Ok((_, right_schema)) => {
                    let keys = join_keys_or_first(on, left_schema, right_schema);
                    let output_schema = left_schema + right_schema;
                    let op = match within {
                        Some(within) => OperatorView::StreamStream(
                            StreamStreamView {
                                join_type,
                                within,
                                left_schema,
                                right_schema,
                                output_schema,
                                left: Seq::empty(),
                                right: Seq::empty(),
                                left_key_index: keys.0 as int,
                                right_key_index: keys.1 as int,
                            },
                        ),
                        None => OperatorView::StreamTable(
                            StreamTableView {
                                join_type,
                                right_schema,
                                output_schema,
                                right: Seq::empty(),
                                left_key_index: keys.0 as int,
                            },
                        ),
                    };
                    Ok((ops.push(op), output_schema))
                },
            },
        },
        PlanView::Sink { input, .. } => compiled(*input, sources),
    }
}

/// How many operators a plan is compiled to.
pub open spec fn operator_count(p: PlanView) -> nat
    decreases p,
{
    match p {
        PlanView::Scan { .. } => 1,
        PlanView::Filter { input, .. } => operator_count(*input) + 1,
        PlanView::Project { input, .. } => operator_count(*input) + 1,
        PlanView::Aggregate { input, .. } => operator_count(*input) + 1,
        PlanView::Join { left, .. } => operator_count(*left) + 1,
        PlanView::Sink { input, .. } => operator_count(*input),
    }
}

/// Nothing is known of a join.
pub open spec fn no_join() -> JoinView {
    JoinView {
        right_source_topic: None,
        right_schema: None,
        join_op_index: None,
        right_key_index: None,
    }
}

/// What is known of the outermost join of a plan: the first source of its right
/// side, the place of its operator, and the place of its key column there.
pub open spec fn join_of(p: PlanView, sources: Seq<(Seq<char>, SourceView)>) -> JoinView
    decreases p,
{
    match p {
        PlanView::Join { left, right, on, .. } => match source_of(
            sources,
            plan_sources(*right)[0],
        ) {
            Some(info) => {
                let left_schema = match source_of(sources, plan_sources(*left)[0]) {
                    Some(l) => l.schema,
                    None => Seq::empty(),
                };
                JoinView {
                    right_source_topic: Some(info.topic),
                    right_schema: Some(info.schema),
                    join_op_index: Some(operator_count(*left) as usize),
                    right_key_index: Some(
                        join_keys_or_first(on, left_schema, info.schema).1 as usize,
                    ),
                }
            },
            None => no_join(),
        },
        PlanView::Filter { input, .. } => join_of(*input, sources),
        PlanView::Project { input, .. } => join_of(*input, sources),
        PlanView::Aggregate { input, .. } => join_of(*input, sources),
        PlanView::Sink { input, .. } => join_of(*input, sources),
        PlanView::Scan { .. } => no_join(),
    }
}

/// The pipeline that a plan is compiled to.
pub open spec fn pipeline_of(p: PlanView, sources: Seq<(Seq<char>, SourceView)>) -> Result<
    PipelineView,
    Seq<char>,
> {
    match topics_of(plan_sources(p), sources, 0) {
        Err(e) => Err(e),
        Ok(source_topics) => match compiled(p, sources) {
            Err(e) => Err(e),
            Ok((operators, output_schema)) => Ok(
                PipelineView {
                    source_topics,
                    operators,
                    output_schema,
                    join: join_of(p, sources),
                },
            ),
        },
    }
}

/// A plan that is compiled has as many operators as are counted.
pub proof fn lemma_operator_count(p: PlanView, sources: Seq<(Seq<char>, SourceView)>)
    ensures
        compiled(p, sources) matches Ok(r) ==> r.0.len() == operator_count(p),
        operator_count(p) > 0,
    decreases p,
{
    match p {
        PlanView::Scan { .. } => {},
        PlanView::Filter { input, .. } => lemma_operator_count(*input, sources),
        PlanView::Project { input, .. } => lemma_operator_count(*input, sources),
        PlanView::Aggregate { input, .. } => lemma_operator_count(*input, sources),
        PlanView::Join { left, .. } => lemma_operator_count(*left, sources),
        PlanView::Sink { input, .. } => lemma_operator_count(*input, sources),
    }
}

/// Whether the place of the join, where there is one, is that of a join operator.
pub open spec fn join_in_place(p: PipelineView) -> bool {
    match p.join.join_op_index {
        Some(index) => index < p.operators.len() && (p.operators[index as int] is StreamTable
            || p.operators[index as int] is StreamStream),
        None => true,
    }
}

/// A plan that can be compiled has its join in place.
pub proof fn lemma_join_in_place(p: PlanView, sources: Seq<(Seq<char>, SourceView)>)
    requires
        operator_count(p) <= usize::MAX,
    ensures
        pipeline_of(p, sources) matches Ok(x) ==> join_in_place(x),
{
    if compiled(p, sources) is Ok {
        lemma_join_operator(p, sources);
    }
}

proof fn lemma_join_operator(p: PlanView, sources: Seq<(Seq<char>, SourceView)>)
    requires
        operator_count(p) <= usize::MAX,
        compiled(p, sources) is Ok,
    ensures
        join_of(p, sources).join_op_index matches Some(index) ==> {
            let ops = compiled(p, sources)->Ok_0.0;
            &&& index < ops.len()
            &&& ops[index as int] is StreamTable || ops[index as int] is StreamStream
        },
    decreases p,
{
    match p {
        PlanView::Scan { .. } => {},
        PlanView::Filter { input, .. } => lemma_join_operator(*input, sources),
        PlanView::Project { input, .. } => lemma_join_operator(*input, sources),
        PlanView::Aggregate { input, .. } => lemma_join_operator(*input, sources),
        PlanView::Join { left, .. } => lemma_operator_count(*left, sources),
        PlanView::Sink { input, .. } => lemma_join_operator(*input, sources),
    }
}

/// The outermost join of a plan.
pub open spec fn plan_join(p: PlanView) -> Option<PlanView>
    decreases p,
{
    match p {
        PlanView::Join { .. } => Some(p),
        PlanView::Filter { input, .. } => plan_join(*input),
        PlanView::Project { input, .. } => plan_join(*input),
        PlanView::Aggregate { input, .. } => plan_join(*input),
        PlanView::Sink { input, .. } => plan_join(*input),
        PlanView::Scan { .. } => None,
    }
}

/// What is known of the join of a plan: nothing where there is none, or where the first
/// source of its right side is not known; else the topic and the schema of that source,
/// the place of the key column there, and the place of the operator that the join itself
/// is compiled to.
pub proof fn lemma_join_known(p: PlanView, sources: Seq<(Seq<char>, SourceView)>)
    requires
        operator_count(p) <= usize::MAX,
    ensures
        plan_join(p) is None ==> join_of(p, sources) == no_join(),
        plan_join(p) matches Some(j) ==> {
            &&& j is Join
            &&& match source_of(sources, plan_sources(*j->Join_right)[0]) {
                None => join_of(p, sources) == no_join(),
                Some(info) => {
                    let known = join_of(p, sources);
                    let left_schema = match source_of(sources, plan_sources(*j->Join_left)[0]) {
                        Some(l) => l.schema,
                        None => Seq::empty(),
                    };
                    &&& known.right_source_topic == Some(info.topic)
                    &&& known.right_schema == Some(info.schema)
                    &&& known.right_key_index == Some(
                        join_keys_or_first(j->on, left_schema, info.schema).1 as usize,
                    )
                    &&& known.join_op_index matches Some(index) && (compiled(p, sources) matches Ok(
                        x,
                    ) ==> (compiled(j, sources) matches Ok(y) && index < x.0.len() && index
                        == y.0.len() - 1 && x.0[index as int] == y.0[index as int]))
                },
            }
        },
    decreases p,
{
    match p {
        PlanView::Scan { .. } => {},
        PlanView::Filter { input, .. } => lemma_join_known(*input, sources),
        PlanView::Project { input, .. } => lemma_join_known(*input, sources),
        PlanView::Aggregate { input, .. } => lemma_join_known(*input, sources),
        PlanView::Join { left, .. } => lemma_operator_count(*left, sources),
        PlanView::Sink { input, .. } => lemma_join_known(*input, sources),
    }
}

/// Whether two operators are both joins with a table, or both joins of streams, or
/// neither.
pub open spec fn same_join(a: OperatorView, b: OperatorView) -> bool {
    (a is StreamTable <==> b is StreamTable) && (a is StreamStream <==> b is StreamStream)
}

/// However many batches go through operators, joins stay joins.
pub proof fn lemma_run_keeps_joins(
    ops: Seq<OperatorView>,
    rows: Seq<RowView>,
    now: Timestamp,
    i: nat,
)
    ensures
        run(ops, rows, now, i).1.len() == ops.len(),
        forall|j: int|
            0 <= j < ops.len() ==> same_join(#[trigger] run(ops, rows, now, i).1[j], ops[j]),
    decreases ops.len() - i,
{
    if i < ops.len() {
        let (r, next) = step(ops[i as int], rows, now);
        let after = ops.update(i as int, next);
        assert(same_join(next, ops[i as int]));
        if let Some(Ok(output)) = r {
            lemma_run_keeps_joins(after, output, now, i + 1);
        }
    }
}

/// Whether all sources are known.
pub open spec fn all_known(names: Seq<Seq<char>>, sources: Seq<(Seq<char>, SourceView)>) -> bool {
    forall|i: int| 0 <= i < names.len() ==> source_of(sources, #[trigger] names[i]) is Some
}

proof fn lemma_topics_known(
    names: Seq<Seq<char>>,
    sources: Seq<(Seq<char>, SourceView)>,
    i: nat,
)
    requires
        i <= names.len(),
    ensures
        topics_of(names, sources, i) is Ok <==> (forall|j: int|
            i <= j < names.len() ==> source_of(sources, #[trigger] names[j]) is Some),
        topics_of(names, sources, i) matches Ok(topics) ==> {
            &&& topics.len() == names.len() - i
            &&& forall|j: int|
                0 <= j < topics.len() ==> #[trigger] topics[j] == source_of(
                    sources,
                    names[i + j],
                )->0.topic
        },
    decreases names.len() - i,
{
    if i < names.len() {
        lemma_topics_known(names, sources, i + 1);
        if topics_of(names, sources, i) is Ok {
            let topics = topics_of(names, sources, i)->Ok_0;
            let rest = topics_of(names, sources, i + 1)->Ok_0;
            assert forall|j: int| 0 <= j < topics.len() implies #[trigger] topics[j] == source_of(
                sources,
                names[i + j],
            )->0.topic by {
                if j > 0 {
                    assert(topics[j] == rest[j - 1]);
                }
            }
        }
    }
}

proof fn lemma_compiled_known(p: PlanView, sources: Seq<(Seq<char>, SourceView)>)
    requires
        all_known(plan_sources(p), sources),
    ensures
        compiled(p, sources) is Ok,
    decreases p,
{
    match p {
        PlanView::Scan { source } => {
            assert(plan_sources(p)[0] == source);
        },
        PlanView::Filter { input, .. } => lemma_compiled_known(*input, sources),
        PlanView::Project { input, .. } => lemma_compiled_known(*input, sources),
        PlanView::Aggregate { input, .. } => lemma_compiled_known(*input, sources),
        PlanView::Join { left, right, .. } => {
            let all = plan_sources(p);
            let a = plan_sources(*left);
            let b = plan_sources(*right);
            assert forall|i: int| 0 <= i < a.len() implies source_of(
                sources,
                #[trigger] a[i],
            ) is Some by {
                assert(all[i] == a[i]);
            }
            assert forall|i: int| 0 <= i < b.len() implies source_of(
                sources,
                #[trigger] b[i],
            ) is Some by {
                assert(all[a.len() + i] == b[i]);
            }
            lemma_compiled_known(*left, sources);
            lemma_compiled_known(*right, sources);
        },
        PlanView::Sink { input, .. } => lemma_compiled_known(*input, sources),
    }
}

/// Whether a name is the first of some names whose source is not known.
pub open spec fn is_first_unknown(
    names: Seq<Seq<char>>,
    sources: Seq<(Seq<char>, SourceView)>,
    i: int,
) -> bool {
    &&& 0 <= i < names.len()
    &&& source_of(sources, names[i]) is None
    &&& forall|j: int| 0 <= j < i ==> source_of(sources, #[trigger] names[j]) is Some
}

/// A plan is compiled to operators exactly where all sources that it reads are known.
/// Else the error names the first that is not. There is at least one operator; the last
/// of them makes rows of the schema.
pub proof fn lemma_compiled(p: PlanView, sources: Seq<(Seq<char>, SourceView)>)
    ensures
        compiled(p, sources) is Ok <==> all_known(plan_sources(p), sources),
        compiled(p, sources) matches Ok(x) ==> x.0.len() > 0 && x.1 == schema_of(x.0.last()),
        compiled(p, sources) matches Err(e) ==> exists|i: int| #[trigger]
            is_first_unknown(plan_sources(p), sources, i) && e == unknown_source(
                plan_sources(p)[i],
            ),
    decreases p,
{
    lemma_output_schema(p, sources);
    if all_known(plan_sources(p), sources) {
        lemma_compiled_known(p, sources);
    }
    match p {
        PlanView::Scan { source } => {
            assert(plan_sources(p)[0] == source);
            if source_of(sources, source) is None {
                assert(is_first_unknown(plan_sources(p), sources, 0));
            }
        },
        PlanView::Filter { input, .. } => lemma_compiled(*input, sources),
        PlanView::Project { input, .. } => lemma_compiled(*input, sources),
        PlanView::Aggregate { input, .. } => lemma_compiled(*input, sources),
        PlanView::Sink { input, .. } => lemma_compiled(*input, sources),
        PlanView::Join { left, right, .. } => {
            lemma_compiled(*left, sources);
            lemma_compiled(*right, sources);
            let all = plan_sources(p);
            let a = plan_sources(*left);
            let b = plan_sources(*right);
            assert(all =~= a + b);
            if compiled(*left, sources) is Err {
                let i = choose|i: int| #[trigger]
                    is_first_unknown(a, sources, i) && compiled(*left, sources)->Err_0
                        == unknown_source(a[i]);
                assert(is_first_unknown(all, sources, i)) by {
                    assert(all[i] == a[i]);
                    assert forall|j: int| 0 <= j < i implies source_of(
                        sources,
                        #[trigger] all[j],
                    ) is Some by {
                        assert(all[j] == a[j]);
                    }
                }
            } else if compiled(*right, sources) is Err {
                let i = choose|i: int| #[trigger]
                    is_first_unknown(b, sources, i) && compiled(*right, sources)->Err_0
                        == unknown_source(b[i]);
                let k = a.len() + i;
                assert(is_first_unknown(all, sources, k)) by {
                    assert(all[k] == b[i]);
                    assert forall|j: int| 0 <= j < k implies source_of(
                        sources,
                        #[trigger] all[j],
                    ) is Some by {
                        if j < a.len() {
                            assert(all[j] == a[j]);
                        } else {
                            assert(all[j] == b[j - a.len()]);
                        }
                    }
                }
            } else {
                assert forall|j: int| 0 <= j < all.len() implies source_of(
                    sources,
                    #[trigger] all[j],
                ) is Some by {
                    if j < a.len() {
                        assert(all[j] == a[j]);
                    } else {
                        assert(all[j] == b[j - a.len()]);
                    }
                }
            }
        },
    }
}

/// What becomes of schemas and operators: a filter keeps the schema of its input, a join
/// has the columns of its left side, then those of its right side, and where results are
/// written to adds nothing at all.
pub proof fn lemma_compiled_schemas(p: PlanView, sources: Seq<(Seq<char>, SourceView)>)
    ensures
        compiled(p, sources) matches Ok(x) ==> match p {
            PlanView::Filter { input, .. } => compiled(*input, sources) matches Ok(y) && x.1 == y.1,
            PlanView::Join { left, right, .. } => compiled(*left, sources) matches Ok(l) && (
            compiled(*right, sources) matches Ok(r) && x.1 == l.1 + r.1),
            PlanView::Sink { input, .. } => compiled(*input, sources) == compiled(p, sources),
            _ => true,
        },
{
}

/// A plan can be compiled exactly where all sources that it reads are known. The
/// pipeline reads their topics, in their order.
pub proof fn lemma_compiles(p: PlanView, sources: Seq<(Seq<char>, SourceView)>)
    ensures
        pipeline_of(p, sources) is Ok <==> all_known(plan_sources(p), sources),
        pipeline_of(p, sources) matches Ok(x) ==> {
            &&& x.source_topics.len() == plan_sources(p).len()
            &&& forall|i: int|
                0 <= i < x.source_topics.len() ==> #[trigger] x.source_topics[i] == source_of(
                    sources,
                    plan_sources(p)[i],
                )->0.topic
        },
{
    let names = plan_sources(p);
    lemma_topics_known(names, sources, 0);
    if all_known(names, sources) {
        lemma_compiled_known(p, sources);
    }
}

/// The schema that a plan is compiled to is that of the last operator.
pub proof fn lemma_output_schema(p: PlanView, sources: Seq<(Seq<char>, SourceView)>)
    ensures
        compiled(p, sources) matches Ok(x) ==> x.0.len() > 0 && x.1 == schema_of(x.0.last()),
    decreases p,
{
    match p {
        PlanView::Sink { input, .. } => lemma_output_schema(*input, sources),
        PlanView::Filter { input, .. } => lemma_output_schema(*input, sources),
        _ => {},
    }
}

/// Where results are written to does not change the pipeline.
pub proof fn lemma_sink_compiles(p: PlanView, sources: Seq<(Seq<char>, SourceView)>)
    ensures
        p matches PlanView::Sink { input, .. } ==> pipeline_of(p, sources) == pipeline_of(
            *input,
            sources,
        ),
{
}

/// Resolves the names of sources to topics.
fn resolve_source_topics(names: &Vec<String>, registry: &SchemaRegistry) -> (r: Result<
    Vec<String>,
    Error,
>)
    ensures
        match r {
            Ok(topics) => topics_of(views(names@), registry@, 0) == Ok::<
                Seq<Seq<char>>,
                Seq<char>,
            >(views(topics@)),
            Err(e) => topics_of(views(names@), registry@, 0) == Err::<Seq<Seq<char>>, Seq<char>>(
                e@,
            ),
        },
{
    let ghost all = views(names@);
    let ghost expected = topics_of(all, registry@, 0);
    let mut topics: Vec<String> = Vec::new();
    let mut i: usize = 0;
    proof {
        if expected is Ok {
            assert(views(topics@) + expected->Ok_0 =~= expected->Ok_0);
        }
    }
    while i < names.len()
        invariant
            i <= names.len(),
            all == views(names@),
            expected == topics_of(all, registry@, 0),
            match topics_of(all, registry@, i as nat) {
                Ok(rest) => expected == Ok::<Seq<Seq<char>>, Seq<char>>(views(topics@) + rest),
                Err(e) => expected == Err::<Seq<Seq<char>>, Seq<char>>(e),
            },
        decreases names.len() - i,
    {
        let ghost before = views(topics@);
        proof {
            assert(all[i as int] == names@[i as int]@);
        }
        match registry.get(names[i].as_str()) {
            Some(info) => {
                topics.push(info.topic.clone());
                proof {
                    let rest = topics_of(all, registry@, (i + 1) as nat);
                    assert(views(topics@) =~= before + seq![info@.topic]);
                    if rest is Ok {
                        assert(before + (seq![info@.topic] + rest->Ok_0) =~= views(topics@)
                            + rest->Ok_0);
                    }
                }
            },
            None => {
                return Err(fail2("Unknown source: ", names[i].as_str()));
            },
        }
        i = i + 1;
    }
    proof {
        assert(views(topics@) + Seq::<Seq<char>>::empty() =~= views(topics@));
    }
    Ok(topics)
}

/// Compiles a plan to operators.
pub fn compile_plan(plan: &QueryPlan, registry: &SchemaRegistry) -> (r: Result<
    (Vec<AnyOperator>, Schema),
    Error,
>)
    ensures
        match r {
            Ok((ops, schema)) => compiled(plan@, registry@) == Ok::<
                (Seq<OperatorView>, Seq<ColumnView>),
                Seq<char>,
            >((models(ops@), schema@)),
            Err(e) => compiled(plan@, registry@) == Err::<
                (Seq<OperatorView>, Seq<ColumnView>),
                Seq<char>,
            >(e@),
        },
        r is Ok <==> all_known(plan_sources(plan@), registry@),
        r matches Ok((ops, schema)) ==> ops@.len() > 0 && ops@.len() == operator_count(plan@)
            && schema@ == schema_of(ops@.last().model()),
    decreases plan,
{
    proof {
        lemma_compiled(plan@, registry@);
        lemma_operator_count(plan@, registry@);
    }
    match plan {
        QueryPlan::Scan { source } => match registry.get(source.as_str()) {
            Some(info) => {
                let mut operators: Vec<AnyOperator> = Vec::new();
                operators.push(AnyOperator::Deserialize(DeserializeOp::new(info.schema.clone())));
                proof {
                    assert(models(operators@) =~= seq![OperatorView::Deserialize(info@.schema)]);
                }
                Ok((operators, info.schema.clone()))
            },
            None => Err(fail2("Unknown source: ", source.as_str())),
        },
        QueryPlan::Filter { input, predicate } => {
            let (mut operators, schema) = match compile_plan(&**input, registry) {
                Ok(x) => x,
                Err(e) => {
                    return Err(e);
                },
            };
            let filter = FilterOp::new(predicate.clone(), schema.clone());
            push_operator(&mut operators, AnyOperator::Filter(filter));
            Ok((operators, schema))
        },
        QueryPlan::Project { input, expressions } => {
            let (mut operators, schema) = match compile_plan(&**input, registry) {
                Ok(x) => x,
                Err(e) => {
                    return Err(e);
                },
            };
            let project = ProjectOp::new(clone_exprs(expressions), schema);
            let output_schema = project.schema().clone();
            push_operator(&mut operators, AnyOperator::Project(project));
            Ok((operators, output_schema))
        },
        QueryPlan::Aggregate { input, group_by, aggregates, window, having } => {
            let (mut operators, schema) = match compile_plan(&**input, registry) {
                Ok(x) => x,
                Err(e) => {
                    return Err(e);
                },
            };
            match window {
                None => {
                    let op = AggregateOp::new(
                        clone_exprs(group_by),
                        clone_aggregates(aggregates),
                        clone_having(having),
                        schema,
                    );
                    let output_schema = op.schema().clone();
                    push_operator(&mut operators, AnyOperator::Aggregate(op));
                    Ok((operators, output_schema))
                },
                Some(window_spec) => {
                    let op = WindowedAggregateOp::new(
                        clone_exprs(group_by),
                        clone_aggregates(aggregates),
                        clone_having(having),
                        *window_spec,
                        schema,
                    );
                    let output_schema = op.schema().clone();
                    push_operator(&mut operators, AnyOperator::Windowed(op));
                    Ok((operators, output_schema))
                },
            }
        },
        QueryPlan::Join { left, right, join_type, on, within } => {
            let (mut operators, left_schema) = match compile_plan(&**left, registry) {
                Ok(x) => x,
                Err(e) => {
                    return Err(e);
                },
            };
            let (_right_operators, right_schema) = match compile_plan(&**right, registry) {
                Ok(x) => x,
                Err(e) => {
                    return Err(e);
                },
            };
            match within {
                Some(within) => {
                    let op = StreamStreamJoinOp::new(
                        *join_type,
                        on.clone(),
                        *within,
                        left_schema,
                        right_schema,
                    );
                    let output_schema = op.schema().clone();
                    push_operator(&mut operators, AnyOperator::StreamStream(op));
                    Ok((operators, output_schema))
                },
                None => {
                    let op = StreamTableJoinOp::new(
                        *join_type,
                        on.clone(),
                        left_schema,
                        right_schema,
                    );
                    let output_schema = op.schema().clone();
                    push_operator(&mut operators, AnyOperator::StreamTable(op));
                    Ok((operators, output_schema))
                },
            }
        },
        QueryPlan::Sink { input, .. } => compile_plan(&**input, registry),
    }
}

fn push_operator(operators: &mut Vec<AnyOperator>, op: AnyOperator)
    ensures
        models(final(operators)@) == models(old(operators)@).push(op.model()),
{
    let ghost before = models(operators@);
    let ghost model = op.model();
    operators.push(op);
    proof {
        assert(models(operators@) =~= before.push(model));
    }
}

/// Counts the operators that a plan is compiled to.
pub fn count_operators(plan: &QueryPlan) -> (r: usize)
    requires
        operator_count(plan@) <= usize::MAX,
    ensures
        r == operator_count(plan@),
        forall|sources: Seq<(Seq<char>, SourceView)>|
            (#[trigger] compiled(plan@, sources)) matches Ok(x) ==> x.0.len() == r,
    decreases plan,
{
    proof {
        assert forall|sources: Seq<(Seq<char>, SourceView)>|
            (#[trigger] compiled(plan@, sources)) matches Ok(x) ==> x.0.len() == operator_count(
                plan@,
            ) by {
            lemma_operator_count(plan@, sources);
        }
    }
    match plan {
        QueryPlan::Scan { .. } => 1,
        QueryPlan::Filter { input, .. } => count_operators(&**input) + 1,
        QueryPlan::Project { input, .. } => count_operators(&**input) + 1,
        QueryPlan::Aggregate { input, .. } => count_operators(&**input) + 1,
        QueryPlan::Join { left, .. } => count_operators(&**left) + 1,
        QueryPlan::Sink { input, .. } => count_operators(&**input),
    }
}

/// What is known of a join.
pub struct JoinInfo {
    pub right_source_topic: Option<String>,
    pub right_schema: Option<Schema>,
    pub join_op_index: Option<usize>,
    pub right_key_index: Option<usize>,
}

/// What a `JoinInfo` holds.
pub open spec fn join_view(j: JoinInfo) -> JoinView {
    JoinView {
        right_source_topic: text_view(j.right_source_topic),
        right_schema: schema_view(j.right_schema),
        join_op_index: j.join_op_index,
        right_key_index: j.right_key_index,
    }
}

/// Finds out what is known of the outermost join of a plan.
pub fn extract_join_metadata(plan: &QueryPlan, registry: &SchemaRegistry) -> (r: JoinInfo)
    requires
        operator_count(plan@) <= usize::MAX,
    ensures
        join_view(r) == join_of(plan@, registry@),
    decreases plan,
{
    match plan {
        QueryPlan::Join { left, right, on, .. } => {
            let right_names = (**right).source_names();
            let left_names = (**left).source_names();
            proof {
                lemma_plan_has_source((**right)@);
                lemma_plan_has_source((**left)@);
                assert(views(right_names@)[0] == right_names@[0]@);
                assert(views(left_names@)[0] == left_names@[0]@);
            }
            match registry.get(right_names[0].as_str()) {
                Some(info) => {
                    let left_schema = match registry.get(left_names[0].as_str()) {
                        Some(l) => l.schema.clone(),
                        None => Schema::empty(),
                    };
                    let (_left_key, right_key) = key_indices_or_first(
                        on,
                        &left_schema,
                        &info.schema,
                    );
                    JoinInfo {
                        right_source_topic: Some(info.topic.clone()),
                        right_schema: Some(info.schema.clone()),
                        join_op_index: Some(count_operators(&**left)),
                        right_key_index: Some(right_key),
                    }
                },
                None => JoinInfo {
                    right_source_topic: None,
                    right_schema: None,
                    join_op_index: None,
                    right_key_index: None,
                },
            }
        },
        QueryPlan::Filter { input, .. } => extract_join_metadata(&**input, registry),
        QueryPlan::Project { input, .. } => extract_join_metadata(&**input, registry),
        QueryPlan::Aggregate { input, .. } => extract_join_metadata(&**input, registry),
        QueryPlan::Sink { input, .. } => extract_join_metadata(&**input, registry),
        QueryPlan::Scan { .. } => JoinInfo {
            right_source_topic: None,
            right_schema: None,
            join_op_index: None,
            right_key_index: None,
        },
    }
}

/// What a result of a pipeline holds.
pub open spec fn pipeline_outcome(r: Result<Pipeline, Error>) -> Result<PipelineView, Seq<char>> {
    match r {
        Ok(p) => Ok(p@),
        Err(e) => Err(e@),
    }
}

/// Compiles a plan to a pipeline.
pub fn compile(plan: &QueryPlan, registry: &SchemaRegistry) -> (r: Result<Pipeline, Error>)
    ensures
        pipeline_outcome(r) == pipeline_of(plan@, registry@),
        r matches Ok(p) ==> join_in_place(p@),
{
    let names = plan.source_names();
    let source_topics = match resolve_source_topics(&names, registry) {
        Ok(topics) => topics,
        Err(e) => {
            return Err(e);
        },
    };
    let (operators, output_schema) = match compile_plan(plan, registry) {
        Ok(x) => x,
        Err(e) => {
            return Err(e);
        },
    };
    proof {
        lemma_operator_count(plan@, registry@);
        assert(models(operators@).len() == operators.len());
        lemma_join_in_place(plan@, registry@);
    }
    let join = extract_join_metadata(plan, registry);
    Ok(
        Pipeline {
            source_topics,
            operators,
            output_schema,
            right_source_topic: join.right_source_topic,
            right_schema: join.right_schema,
            join_op_index: join.join_op_index,
            right_key_index: join.right_key_index,
        },
    )
}

} // verus!
