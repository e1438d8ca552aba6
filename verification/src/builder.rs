//! Builds query plans step by step.
use crate::expr::{Expr, ExprView};
use crate::plan::{
    having_view, AggregateExpr, AggregateFunction, AggregateView, JoinType, PlanView, QueryPlan,
    SinkType, WindowSpec,
};
use crate::time::Duration;
use crate::value::views;
use vstd::prelude::*;

pub use crate::expr::{col, lit_bool, lit_f64, lit_i64, lit_null, lit_str, ExprExt};

pub mod laws;

verus! {

/// Copies expressions.
fn copy_exprs(exprs: &[Expr]) -> (r: Vec<Expr>)
    ensures
        views(r@) == views(exprs@),
{
    let mut r: Vec<Expr> = Vec::new();
    let mut i: usize = 0;
    while i < exprs.len()
        invariant
            i <= exprs.len(),
            r.len() == i,
            forall|j: int| 0 <= j < i ==> r@[j]@ == exprs@[j]@,
        decreases exprs.len() - i,
    {
        r.push(exprs[i].clone());
        i = i + 1;
    }
    proof {
        assert(views(r@) =~= views(exprs@));
    }
    r
}

/// A plan that is being built.
pub struct QueryBuilder {
    plan: QueryPlan,
}

impl View for QueryBuilder {
    type V = PlanView;

    closed spec fn view(&self) -> PlanView {
        self.plan@
    }
}

impl QueryBuilder {
    /// Starts with reading a source.
    pub fn from_source(name: &str) -> (r: QueryBuilder)
        ensures
            r@ == (PlanView::Scan { source: name@ }),
    {
        QueryBuilder { plan: QueryPlan::Scan { source: name.to_owned() } }
    }

    /// Keeps the rows on which a predicate holds.
    pub fn filter(self, predicate: Expr) -> (r: QueryBuilder)
        ensures
            r@ == (PlanView::Filter { input: Box::new(self@), predicate: predicate@ }),
    {
        let ghost input = self.plan@;
        QueryBuilder { plan: QueryPlan::Filter { input: Box::new(self.plan), predicate } }
    }

    /// Computes expressions.
    pub fn select(self, expressions: &[Expr]) -> (r: QueryBuilder)
        ensures
            r@ == (PlanView::Project {
                input: Box::new(self@),
                expressions: views(expressions@),
            }),
    {
        let ghost input = self.plan@;
        QueryBuilder {
            plan: QueryPlan::Project {
                input: Box::new(self.plan),
                expressions: copy_exprs(expressions),
            },
        }
    }

    /// Groups rows, to aggregate them.
    pub fn group_by(self, keys: &[Expr]) -> (r: AggregateBuilder)
        ensures
            r@ == (AggregateBuilderView {
                input: self@,
                group_by: views(keys@),
                aggregates: Seq::empty(),
                window: None,
                having: None,
            }),
    {
        let aggregates: Vec<AggregateExpr> = Vec::new();
        proof {
            assert(views(aggregates@) =~= Seq::<AggregateView>::empty());
        }
        AggregateBuilder {
            input: self.plan,
            group_by: copy_exprs(keys),
            aggregates,
            window: None,
            having: None,
        }
    }

    /// Joins another source.
    pub fn join(self, right_source: &str, join_type: JoinType, on: Expr) -> (r: JoinBuilder)
        ensures
            r@ == (PlanView::Join {
                left: Box::new(self@),
                right: Box::new(PlanView::Scan { source: right_source@ }),
                join_type,
                on: on@,
                within: None,
            }),
    {
        let right = QueryPlan::Scan { source: right_source.to_owned() };
        assert(right@ == (PlanView::Scan { source: right_source@ }));
        JoinBuilder { left: self.plan, right, join_type, on, within: None }
    }

    /// Writes results as a stream.
    pub fn as_stream(self, name: &str, topic: &str) -> (r: SinkBuilder)
        ensures
            r@ == sink_plan(self@, name@, topic@, SinkType::Stream),
    {
        SinkBuilder::over(self.plan, name, topic, SinkType::Stream)
    }

    /// Writes results as a table.
    pub fn as_table(self, name: &str, topic: &str) -> (r: SinkBuilder)
        ensures
            r@ == sink_plan(self@, name@, topic@, SinkType::Table),
    {
        SinkBuilder::over(self.plan, name, topic, SinkType::Table)
    }

    /// The plan, which writes results nowhere.
    pub fn build(self) -> (r: QueryPlan)
        ensures
            r@ == self@,
    {
        self.plan
    }
}

/// A plan that aggregates, and is being built.
pub struct AggregateBuilder {
    input: QueryPlan,
    group_by: Vec<Expr>,
    aggregates: Vec<AggregateExpr>,
    window: Option<WindowSpec>,
    having: Option<Expr>,
}

/// What an `AggregateBuilder` holds.
pub struct AggregateBuilderView {
    pub input: PlanView,
    pub group_by: Seq<ExprView>,
    pub aggregates: Seq<AggregateView>,
    pub window: Option<WindowSpec>,
    pub having: Option<ExprView>,
}

impl View for AggregateBuilder {
    type V = AggregateBuilderView;

    closed spec fn view(&self) -> AggregateBuilderView {
        AggregateBuilderView {
            input: self.input@,
            group_by: views(self.group_by@),
            aggregates: views(self.aggregates@),
            window: self.window,
            having: having_view(self.having),
        }
    }
}

/// A builder with one aggregate more.
pub open spec fn with_aggregate(b: AggregateBuilderView, a: AggregateView) -> AggregateBuilderView {
    AggregateBuilderView { aggregates: b.aggregates.push(a), ..b }
}

/// A builder with a window.
pub open spec fn with_window(b: AggregateBuilderView, w: WindowSpec) -> AggregateBuilderView {
    AggregateBuilderView { window: Some(w), ..b }
}

/// The plan that a builder of aggregates stands for.
pub open spec fn aggregate_plan(b: AggregateBuilderView) -> PlanView {
    PlanView::Aggregate {
        input: Box::new(b.input),
        group_by: b.group_by,
        aggregates: b.aggregates,
        window: b.window,
        having: b.having,
    }
}

impl AggregateBuilder {
    /// Adds an aggregate.
    pub fn aggregate(self, agg: AggregateExpr) -> (r: AggregateBuilder)
        ensures
            r@ == with_aggregate(self@, agg@),
    {
        let mut b = self;
        let ghost before = views(b.aggregates@);
        let ghost held = agg@;
        b.aggregates.push(agg);
        proof {
            assert(views(b.aggregates@) =~= before.push(held));
        }
        b
    }

    fn add_function(self, function: AggregateFunction, expr: Expr, alias: &str, distinct: bool) -> (r:
        AggregateBuilder)
        ensures
            r@ == with_aggregate(
                self@,
                AggregateView { function, expr: expr@, alias: alias@, distinct },
            ),
    {
        self.aggregate(AggregateExpr { function, expr, alias: alias.to_owned(), distinct })
    }

    /// Adds a COUNT of all rows.
    pub fn count_star(self, alias: &str) -> (r: AggregateBuilder)
        ensures
            r@ == with_aggregate(
                self@,
                AggregateView {
                    function: AggregateFunction::Count,
                    expr: ExprView::Wildcard,
                    alias: alias@,
                    distinct: false,
                },
            ),
    {
        self.add_function(AggregateFunction::Count, Expr::Wildcard, alias, false)
    }

    /// Adds a COUNT of an expression.
    pub fn count(self, expr: Expr, alias: &str) -> (r: AggregateBuilder)
        ensures
            r@ == with_aggregate(
                self@,
                AggregateView {
                    function: AggregateFunction::Count,
                    expr: expr@,
                    alias: alias@,
                    distinct: false,
                },
            ),
    {
        self.add_function(AggregateFunction::Count, expr, alias, false)
    }

    /// Adds a COUNT of the different values of an expression.
    pub fn count_distinct(self, expr: Expr, alias: &str) -> (r: AggregateBuilder)
        ensures
            r@ == with_aggregate(
                self@,
                AggregateView {
                    function: AggregateFunction::Count,
                    expr: expr@,
                    alias: alias@,
                    distinct: true,
                },
            ),
    {
        self.add_function(AggregateFunction::Count, expr, alias, true)
    }

    /// Adds a SUM of an expression.
    pub fn sum(self, expr: Expr, alias: &str) -> (r: AggregateBuilder)
        ensures
            r@ == with_aggregate(
                self@,
                AggregateView {
                    function: AggregateFunction::Sum,
                    expr: expr@,
                    alias: alias@,
                    distinct: false,
                },
            ),
    {
        self.add_function(AggregateFunction::Sum, expr, alias, false)
    }

    /// Adds a AVG of an expression.
    pub fn avg(self, expr: Expr, alias: &str) -> (r: AggregateBuilder)
        ensures
            r@ == with_aggregate(
                self@,
                AggregateView {
                    function: AggregateFunction::Avg,
                    expr: expr@,
                    alias: alias@,
                    distinct: false,
                },
            ),
    {
        self.add_function(AggregateFunction::Avg, expr, alias, false)
    }

    /// Adds a MIN of an expression.
    pub fn min(self, expr: Expr, alias: &str) -> (r: AggregateBuilder)
        ensures
            r@ == with_aggregate(
                self@,
                AggregateView {
                    function: AggregateFunction::Min,
                    expr: expr@,
                    alias: alias@,
                    distinct: false,
                },
            ),
    {
        self.add_function(AggregateFunction::Min, expr, alias, false)
    }

    /// Adds a MAX of an expression.
    pub fn max(self, expr: Expr, alias: &str) -> (r: AggregateBuilder)
        ensures
            r@ == with_aggregate(
                self@,
                AggregateView {
                    function: AggregateFunction::Max,
                    expr: expr@,
                    alias: alias@,
                    distinct: false,
                },
            ),
    {
        self.add_function(AggregateFunction::Max, expr, alias, false)
    }

    /// Adds a COLLECT_LIST of an expression.
    pub fn collect_list(self, expr: Expr, alias: &str) -> (r: AggregateBuilder)
        ensures
            r@ == with_aggregate(
                self@,
                AggregateView {
                    function: AggregateFunction::CollectList,
                    expr: expr@,
                    alias: alias@,
                    distinct: false,
                },
            ),
    {
        self.add_function(AggregateFunction::CollectList, expr, alias, false)
    }

    /// Adds a COLLECT_SET of an expression.
    pub fn collect_set(self, expr: Expr, alias: &str) -> (r: AggregateBuilder)
        ensures
            r@ == with_aggregate(
                self@,
                AggregateView {
                    function: AggregateFunction::CollectSet,
                    expr: expr@,
                    alias: alias@,
                    distinct: false,
                },
            ),
    {
        self.add_function(AggregateFunction::CollectSet, expr, alias, false)
    }

    /// Adds a TOPK: the `k` greatest values of an expression.
    pub fn topk(self, k: usize, expr: Expr, alias: &str) -> (r: AggregateBuilder)
        ensures
            r@ == with_aggregate(
                self@,
                AggregateView {
                    function: AggregateFunction::TopK(k),
                    expr: expr@,
                    alias: alias@,
                    distinct: false,
                },
            ),
    {
        self.add_function(AggregateFunction::TopK(k), expr, alias, false)
    }

    /// Takes windows of a size, one behind the other.
    pub fn tumbling(self, size: Duration) -> (r: AggregateBuilder)
        ensures
            r@ == with_window(self@, (WindowSpec::Tumbling { size, grace: None })),
    {
        let mut b = self;
        b.window = Some(WindowSpec::Tumbling { size, grace: None });
        b
    }

    /// Takes windows of a size, one behind the other, with a time of grace.
    pub fn tumbling_with_grace(self, size: Duration, grace: Duration) -> (r: AggregateBuilder)
        ensures
            r@ == with_window(self@, (WindowSpec::Tumbling { size, grace: Some(grace) })),
    {
        let mut b = self;
        b.window = Some(WindowSpec::Tumbling { size, grace: Some(grace) });
        b
    }

    /// Takes windows of a size that start at every multiple of an advance.
    pub fn hopping(self, size: Duration, advance: Duration) -> (r: AggregateBuilder)
        ensures
            r@ == with_window(self@, (WindowSpec::Hopping { size, advance, grace: None })),
    {
        let mut b = self;
        b.window = Some(WindowSpec::Hopping { size, advance, grace: None });
        b
    }

    /// Takes windows of a size that start at every multiple of an advance, with a time of
    /// grace.
    pub fn hopping_with_grace(
        self,
        size: Duration,
        advance: Duration,
        grace: Duration,
    ) -> (r: AggregateBuilder)
        ensures
            r@ == with_window(self@, (WindowSpec::Hopping { size, advance, grace: Some(grace) })),
    {
        let mut b = self;
        b.window = Some(WindowSpec::Hopping { size, advance, grace: Some(grace) });
        b
    }

    /// Takes sessions that end where nothing happens for a time.
    pub fn session(self, gap: Duration) -> (r: AggregateBuilder)
        ensures
            r@ == with_window(self@, (WindowSpec::Session { gap, grace: None })),
    {
        let mut b = self;
        b.window = Some(WindowSpec::Session { gap, grace: None });
        b
    }

    /// Takes sessions that end where nothing happens for a time, with a time of grace.
    pub fn session_with_grace(self, gap: Duration, grace: Duration) -> (r: AggregateBuilder)
        ensures
            r@ == with_window(self@, (WindowSpec::Session { gap, grace: Some(grace) })),
    {
        let mut b = self;
        b.window = Some(WindowSpec::Session { gap, grace: Some(grace) });
        b
    }

    /// Keeps the groups on which a predicate holds.
    pub fn having(self, predicate: Expr) -> (r: AggregateBuilder)
        ensures
            r@ == (AggregateBuilderView { having: Some(predicate@), ..self@ }),
    {
        let mut b = self;
        b.having = Some(predicate);
        b
    }

    /// Writes results as a stream.
    pub fn as_stream(self, name: &str, topic: &str) -> (r: SinkBuilder)
        ensures
            r@ == sink_plan(aggregate_plan(self@), name@, topic@, SinkType::Stream),
    {
        SinkBuilder::over(self.build(), name, topic, SinkType::Stream)
    }

    /// Writes results as a table.
    pub fn as_table(self, name: &str, topic: &str) -> (r: SinkBuilder)
        ensures
            r@ == sink_plan(aggregate_plan(self@), name@, topic@, SinkType::Table),
    {
        SinkBuilder::over(self.build(), name, topic, SinkType::Table)
    }

    /// The plan, which writes results nowhere.
    pub fn build(self) -> (r: QueryPlan)
        ensures
            r@ == aggregate_plan(self@),
    {
        let ghost input = self.input@;
        QueryPlan::Aggregate {
            input: Box::new(self.input),
            group_by: self.group_by,
            aggregates: self.aggregates,
            window: self.window,
            having: self.having,
        }
    }
}

/// A plan that joins, and is being built.
pub struct JoinBuilder {
    left: QueryPlan,
    right: QueryPlan,
    join_type: JoinType,
    on: Expr,
    within: Option<Duration>,
}

impl View for JoinBuilder {
    type V = PlanView;

    closed spec fn view(&self) -> PlanView {
        PlanView::Join {
            left: Box::new(self.left@),
            right: Box::new(self.right@),
            join_type: self.join_type,
            on: self.on@,
            within: self.within,
        }
    }
}

/// A join of rows that are within a time of each other.
pub open spec fn join_within(p: PlanView, duration: Duration) -> PlanView {
    match p {
        PlanView::Join { left, right, join_type, on, .. } => PlanView::Join {
            left,
            right,
            join_type,
            on,
            within: Some(duration),
        },
        _ => p,
    }
}

impl JoinBuilder {
    /// Joins rows of two streams that are within a time of each other.
    pub fn within(self, duration: Duration) -> (r: JoinBuilder)
        ensures
            r@ == join_within(self@, duration),
    {
        let mut b = self;
        b.within = Some(duration);
        b
    }

    /// Computes expressions.
    pub fn select(self, expressions: &[Expr]) -> (r: QueryBuilder)
        ensures
            r@ == (PlanView::Project {
                input: Box::new(self@),
                expressions: views(expressions@),
            }),
    {
        QueryBuilder { plan: self.build() }.select(expressions)
    }

    /// Keeps the rows on which a predicate holds.
    pub fn filter(self, predicate: Expr) -> (r: QueryBuilder)
        ensures
            r@ == (PlanView::Filter { input: Box::new(self@), predicate: predicate@ }),
    {
        QueryBuilder { plan: self.build() }.filter(predicate)
    }

    /// Writes results as a stream.
    pub fn as_stream(self, name: &str, topic: &str) -> (r: SinkBuilder)
        ensures
            r@ == sink_plan(self@, name@, topic@, SinkType::Stream),
    {
        SinkBuilder::over(self.build(), name, topic, SinkType::Stream)
    }

    /// The plan, which writes results nowhere.
    pub fn build(self) -> (r: QueryPlan)
        ensures
            r@ == self@,
    {
        let ghost sides = (self.left@, self.right@);
        QueryPlan::Join {
            left: Box::new(self.left),
            right: Box::new(self.right),
            join_type: self.join_type,
            on: self.on,
            within: self.within,
        }
    }
}

/// A plan that writes results.
pub struct SinkBuilder {
    input: QueryPlan,
    name: String,
    topic: String,
    sink_type: SinkType,
}

/// A plan that writes results.
pub open spec fn sink_plan(
    input: PlanView,
    name: Seq<char>,
    topic: Seq<char>,
    sink_type: SinkType,
) -> PlanView {
    PlanView::Sink { input: Box::new(input), name, topic, sink_type }
}

impl View for SinkBuilder {
    type V = PlanView;

    closed spec fn view(&self) -> PlanView {
        sink_plan(self.input@, self.name@, self.topic@, self.sink_type)
    }
}

impl SinkBuilder {
    fn over(input: QueryPlan, name: &str, topic: &str, sink_type: SinkType) -> (r: SinkBuilder)
        ensures
            r@ == sink_plan(input@, name@, topic@, sink_type),
    {
        SinkBuilder { input, name: name.to_owned(), topic: topic.to_owned(), sink_type }
    }

    /// The plan.
    pub fn build(self) -> (r: QueryPlan)
        ensures
            r@ == self@,
    {
        let ghost input = self.input@;
        QueryPlan::Sink {
            input: Box::new(self.input),
            name: self.name,
            topic: self.topic,
            sink_type: self.sink_type,
        }
    }
}

} // verus!
