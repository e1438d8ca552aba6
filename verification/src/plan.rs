//! Query plans.
use crate::expr::{clone_exprs, Expr, ExprView};
use crate::time::Duration;
use crate::value::views;
use vstd::prelude::*;

verus! {

/// A function that takes the values of many rows together.
#[derive(Clone, Copy, Debug, PartialEq, Eq, Structural)]
pub enum AggregateFunction {
    Count,
    Sum,
    Avg,
    Min,
    Max,
    CollectList,
    CollectSet,
    TopK(usize),
}

/// A function, what it is applied to, and the name of its result.
#[derive(Debug, PartialEq)]
pub struct AggregateExpr {
    pub function: AggregateFunction,
    pub expr: Expr,
    pub alias: String,
    pub distinct: bool,
}

/// What an `AggregateExpr` holds.
pub struct AggregateView {
    pub function: AggregateFunction,
    pub expr: ExprView,
    pub alias: Seq<char>,
    pub distinct: bool,
}

impl View for AggregateExpr {
    type V = AggregateView;

    open spec fn view(&self) -> AggregateView {
        AggregateView {
            function: self.function,
            expr: self.expr@,
            alias: self.alias@,
            distinct: self.distinct,
        }
    }
}

impl Clone for AggregateExpr {
    fn clone(&self) -> (r: AggregateExpr)
        ensures
            r@ == self@,
    {
        AggregateExpr {
            function: self.function,
            expr: self.expr.clone(),
            alias: self.alias.clone(),
            distinct: self.distinct,
        }
    }
}

/// Copies aggregates.
pub fn clone_aggregates(v: &Vec<AggregateExpr>) -> (r: Vec<AggregateExpr>)
    ensures
        views(r@) == views(v@),
{
    let mut r: Vec<AggregateExpr> = Vec::new();
    let mut i: usize = 0;
    while i < v.len()
        invariant
            i <= v.len(),
            r.len() == i,
            forall|j: int| 0 <= j < i ==> r@[j]@ == v@[j]@,
        decreases v.len() - i,
    {
        r.push(v[i].clone());
        i = i + 1;
    }
    proof {
        assert(views(r@) =~= views(v@));
    }
    r
}

/// How rows are put into windows of time.
#[derive(Clone, Copy, Debug, PartialEq, Eq)]
pub enum WindowSpec {
    Tumbling { size: Duration, grace: Option<Duration> },
    Hopping { size: Duration, advance: Duration, grace: Option<Duration> },
    Session { gap: Duration, grace: Option<Duration> },
}

/// Which rows a join keeps.
#[derive(Clone, Copy, Debug, PartialEq, Eq, Structural)]
pub enum JoinType {
    Inner,
    Left,
    Right,
    FullOuter,
}

/// Whether results are written as a stream or as a table.
#[derive(Clone, Copy, Debug, PartialEq, Eq, Structural)]
pub enum SinkType {
    Stream,
    Table,
}

/// What a query does. Outer nodes work on the rows of inner ones.
#[derive(Debug, PartialEq)]
pub enum QueryPlan {
    /// Read a source, by its name.
    Scan { source: String },
    /// Keep the rows on which a predicate holds.
    Filter { input: Box<QueryPlan>, predicate: Expr },
    /// Compute expressions.
    Project { input: Box<QueryPlan>, expressions: Vec<Expr> },
    /// Group rows and aggregate each group.
    Aggregate {
        input: Box<QueryPlan>,
        group_by: Vec<Expr>,
        aggregates: Vec<AggregateExpr>,
        window: Option<WindowSpec>,
        having: Option<Expr>,
    },
    /// Join two sources.
    Join {
        left: Box<QueryPlan>,
        right: Box<QueryPlan>,
        join_type: JoinType,
        on: Expr,
        within: Option<Duration>,
    },
    /// Write results to a topic.
    Sink { input: Box<QueryPlan>, name: String, topic: String, sink_type: SinkType },
}

/// What a `QueryPlan` holds.
pub enum PlanView {
    Scan { source: Seq<char> },
    Filter { input: Box<PlanView>, predicate: ExprView },
    Project { input: Box<PlanView>, expressions: Seq<ExprView> },
    Aggregate {
        input: Box<PlanView>,
        group_by: Seq<ExprView>,
        aggregates: Seq<AggregateView>,
        window: Option<WindowSpec>,
        having: Option<ExprView>,
    },
    Join {
        left: Box<PlanView>,
        right: Box<PlanView>,
        join_type: JoinType,
        on: ExprView,
        within: Option<Duration>,
    },
    Sink { input: Box<PlanView>, name: Seq<char>, topic: Seq<char>, sink_type: SinkType },
}

/// What an optional expression holds.
pub open spec fn having_view(e: Option<Expr>) -> Option<ExprView> {
    match e {
        Some(e) => Some(e@),
        None => None,
    }
}

/// Copies an optional expression.
pub fn clone_having(e: &Option<Expr>) -> (r: Option<Expr>)
    ensures
        having_view(r) == having_view(*e),
{
    match e {
        Some(e) => Some(e.clone()),
        None => None,
    }
}

/// What a plan holds.
pub open spec fn plan_view(p: QueryPlan) -> PlanView
    decreases p,
{
    match p {
        QueryPlan::Scan { source } => PlanView::Scan { source: source@ },
        QueryPlan::Filter { input, predicate } => PlanView::Filter {
            input: Box::new(plan_view(*input)),
            predicate: predicate@,
        },
        QueryPlan::Project { input, expressions } => PlanView::Project {
            input: Box::new(plan_view(*input)),
            expressions: views(expressions@),
        },
        QueryPlan::Aggregate { input, group_by, aggregates, window, having } => PlanView::Aggregate {
            input: Box::new(plan_view(*input)),
            group_by: views(group_by@),
            aggregates: views(aggregates@),
            window,
            having: having_view(having),
        },
        QueryPlan::Join { left, right, join_type, on, within } => PlanView::Join {
            left: Box::new(plan_view(*left)),
            right: Box::new(plan_view(*right)),
            join_type,
            on: on@,
            within,
        },
        QueryPlan::Sink { input, name, topic, sink_type } => PlanView::Sink {
            input: Box::new(plan_view(*input)),
            name: name@,
            topic: topic@,
            sink_type,
        },
    }
}

impl View for QueryPlan {
    type V = PlanView;

    open spec fn view(&self) -> PlanView {
        plan_view(*self)
    }
}

impl Clone for QueryPlan {
    fn clone(&self) -> (r: QueryPlan)
        ensures
            r@ == self@,
        decreases self,
    {
        match self {
            QueryPlan::Scan { source } => QueryPlan::Scan { source: source.clone() },
            QueryPlan::Filter { input, predicate } => QueryPlan::Filter {
                input: Box::new((**input).clone()),
                predicate: predicate.clone(),
            },
            QueryPlan::Project { input, expressions } => QueryPlan::Project {
                input: Box::new((**input).clone()),
                expressions: clone_exprs(expressions),
            },
            QueryPlan::Aggregate { input, group_by, aggregates, window, having } => QueryPlan::Aggregate {
                input: Box::new((**input).clone()),
                group_by: clone_exprs(group_by),
                aggregates: clone_aggregates(aggregates),
                window: *window,
                having: clone_having(having),
            },
            QueryPlan::Join { left, right, join_type, on, within } => QueryPlan::Join {
                left: Box::new((**left).clone()),
                right: Box::new((**right).clone()),
                join_type: *join_type,
                on: on.clone(),
                within: *within,
            },
            QueryPlan::Sink { input, name, topic, sink_type } => QueryPlan::Sink {
                input: Box::new((**input).clone()),
                name: name.clone(),
                topic: topic.clone(),
                sink_type: *sink_type,
            },
        }
    }
}

/// The names of the sources that a plan reads, from left to right.
pub open spec fn plan_sources(p: PlanView) -> Seq<Seq<char>>
    decreases p,
{
    match p {
        PlanView::Scan { source } => seq![source],
        PlanView::Filter { input, .. } => plan_sources(*input),
        PlanView::Project { input, .. } => plan_sources(*input),
        PlanView::Aggregate { input, .. } => plan_sources(*input),
        PlanView::Join { left, right, .. } => plan_sources(*left) + plan_sources(*right),
        PlanView::Sink { input, .. } => plan_sources(*input),
    }
}

impl QueryPlan {
    /// The names of the sources that the plan reads, from left to right.
    pub fn source_names(&self) -> (r: Vec<String>)
        ensures
            views(r@) == plan_sources(self@),
        decreases self,
    {
        match self {
            QueryPlan::Scan { source } => {
                let mut r: Vec<String> = Vec::new();
                r.push(source.clone());
                proof {
                    assert(views(r@) =~= seq![source@]);
                }
                r
            },
            QueryPlan::Filter { input, .. } => (**input).source_names(),
            QueryPlan::Project { input, .. } => (**input).source_names(),
            QueryPlan::Aggregate { input, .. } => (**input).source_names(),
            QueryPlan::Join { left, right, .. } => {
                let mut r = (**left).source_names();
                let mut s = (**right).source_names();
                let ghost a = r@;
                let ghost b = s@;
                r.append(&mut s);
                proof {
                    assert(views(r@) =~= views(a) + views(b));
                }
                r
            },
            QueryPlan::Sink { input, .. } => (**input).source_names(),
        }
    }
}

/// Every plan reads at least one source.
pub proof fn lemma_plan_has_source(p: PlanView)
    ensures
        plan_sources(p).len() > 0,
    decreases p,
{
    match p {
        PlanView::Scan { source } => {},
        PlanView::Filter { input, .. } => lemma_plan_has_source(*input),
        PlanView::Project { input, .. } => lemma_plan_has_source(*input),
        PlanView::Aggregate { input, .. } => lemma_plan_has_source(*input),
        PlanView::Join { left, right, .. } => lemma_plan_has_source(*left),
        PlanView::Sink { input, .. } => lemma_plan_has_source(*input),
    }
}

} // verus!
