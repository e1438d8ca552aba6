//! Queries over streams and tables of JSON records: SQL and a builder make plans, plans
//! are compiled to pipelines of operators, and pipelines are run over the records of
//! topics.
//!
//! The library decides; it does not touch topics itself. A query is run in steps, and
//! each step says what is to be read or written next.
pub mod builder;
pub mod decimal;
pub mod double;
pub mod engine;
pub mod entries;
pub mod error;
pub mod expr;
pub mod json;
pub mod natural;
pub mod plan;
pub mod runtime;
pub mod schema;
pub mod shortest;
pub mod sql;
pub mod text;
pub mod time;
pub mod types;
pub mod value;

pub use builder::{AggregateBuilder, JoinBuilder, QueryBuilder, SinkBuilder};
pub use double::Double;
pub use engine::operator::Operator;
pub use engine::pipeline::{compile, Pipeline};
pub use error::Error;
pub use expr::{
    col, lit_bool, lit_f64, lit_i64, lit_null, lit_str, BinaryOp, Expr, ExprExt, UnaryOp,
};
pub use plan::{AggregateExpr, AggregateFunction, JoinType, QueryPlan, SinkType, WindowSpec};
pub use runtime::persistent::QueryStatus;
pub use runtime::registry::QueryRegistry;
pub use schema::{SchemaRegistry, SourceInfo, SourceType};
pub use sql::parser::{SqlEngine, SqlResult};
pub use types::{Column, DataType, Row, RowMetadata, Schema};
pub use value::Value;

use plan::PlanView;
use runtime::persistent::{LoopView, QueryLoop};
use runtime::pull::{pull_of, PullQuery, PullView};
use runtime::registry::{ids_in_order, query_started, RegistryView};
use schema::SourceView;
use sql::node::sql_statements;
use sql::parser::{executed, SqlResultView};
use vstd::prelude::*;

verus! {

/// The sources that are known, and the queries that were started.
#[derive(Debug)]
pub struct MerkSql {
    pub schemas: SchemaRegistry,
    pub queries: QueryRegistry,
}

/// What a statement leads to.
#[derive(Debug)]
pub enum Execution {
    /// A source was registered.
    SourceCreated { name: String },
    /// What is there is to be read, once.
    Pull { query: PullQuery },
    /// A query was started, and is to be run.
    Started { id: String, run: QueryLoop },
}

/// What an `Execution` holds.
pub enum ExecutionView {
    SourceCreated { name: Seq<char> },
    Pull { query: PullView },
    Started { id: Seq<char>, run: LoopView },
}

impl View for Execution {
    type V = ExecutionView;

    open spec fn view(&self) -> ExecutionView {
        match self {
            Execution::SourceCreated { name } => ExecutionView::SourceCreated { name: name@ },
            Execution::Pull { query } => ExecutionView::Pull { query: query@ },
            Execution::Started { id, run } => ExecutionView::Started { id: id@, run: run@ },
        }
    }
}

/// What an execution, or the error of one, holds.
pub open spec fn execution_outcome(r: Result<Execution, Error>) -> Result<
    ExecutionView,
    Seq<char>,
> {
    match r {
        Ok(x) => Ok(x@),
        Err(e) => Err(e@),
    }
}

/// What a plan leads to, and the queries then: a plan that writes results is started,
/// any other is to read what is there.
pub open spec fn plan_executed(
    sources: Seq<(Seq<char>, SourceView)>,
    queries: RegistryView,
    plan: PlanView,
) -> (Result<ExecutionView, Seq<char>>, RegistryView) {
    match plan {
        PlanView::Sink { topic, .. } => {
            let (r, after) = query_started(queries, plan, topic, sources);
            (
                match r {
                    Ok((id, run)) => Ok(ExecutionView::Started { id, run }),
                    Err(e) => Err(e),
                },
                after,
            )
        },
        _ => (
            match pull_of(plan, sources) {
                Ok(query) => Ok(ExecutionView::Pull { query }),
                Err(e) => Err(e),
            },
            queries,
        ),
    }
}

/// What SQL leads to, given what it stands for and the sources after it, and the
/// queries then.
pub open spec fn sql_executed(
    result: (Result<SqlResultView, Seq<char>>, Seq<(Seq<char>, SourceView)>),
    queries: RegistryView,
) -> (Result<ExecutionView, Seq<char>>, RegistryView) {
    match result.0 {
        Ok(SqlResultView::SourceCreated { name }) => (
            Ok(ExecutionView::SourceCreated { name }),
            queries,
        ),
        Ok(SqlResultView::Query { plan }) => plan_executed(result.1, queries, plan),
        Err(e) => (Err(e), queries),
    }
}

impl Default for MerkSql {
    fn default() -> (r: MerkSql)
        ensures
            r.schemas@ == Seq::<(Seq<char>, SourceView)>::empty(),
            r.queries@ == (RegistryView { queries: Seq::empty(), next_id: 1 }),
    {
        MerkSql { schemas: SchemaRegistry::new(), queries: QueryRegistry::new() }
    }
}

impl MerkSql {
    pub fn new() -> (r: MerkSql)
        ensures
            r.schemas@ == Seq::<(Seq<char>, SourceView)>::empty(),
            r.queries@ == (RegistryView { queries: Seq::empty(), next_id: 1 }),
    {
        MerkSql::default()
    }

    /// Carries out SQL.
    pub fn execute(&mut self, sql: &str) -> (r: Result<Execution, Error>)
        requires
            old(self).queries@.next_id < u64::MAX,
        ensures
            final(self).schemas@ == executed(sql_statements(sql@), old(self).schemas@).1,
            (execution_outcome(r), final(self).queries@) == sql_executed(
                executed(sql_statements(sql@), old(self).schemas@),
                old(self).queries@,
            ),
    {
        let result = SqlEngine::parse(sql, &mut self.schemas);
        match result {
            Ok(result) => self.carry_out(result),
            Err(e) => Err(e),
        }
    }

    /// Carries out what SQL stands for.
    pub fn carry_out(&mut self, result: SqlResult) -> (r: Result<Execution, Error>)
        requires
            old(self).queries@.next_id < u64::MAX,
        ensures
            final(self).schemas@ == old(self).schemas@,
            (execution_outcome(r), final(self).queries@) == sql_executed(
                (Ok(result@), old(self).schemas@),
                old(self).queries@,
            ),
    {
        match result {
            SqlResult::SourceCreated { name } => Ok(Execution::SourceCreated { name }),
            SqlResult::Query { plan } => self.query(plan),
        }
    }

    /// Carries out a plan.
    pub fn query(&mut self, plan: QueryPlan) -> (r: Result<Execution, Error>)
        requires
            old(self).queries@.next_id < u64::MAX,
        ensures
            final(self).schemas@ == old(self).schemas@,
            (execution_outcome(r), final(self).queries@) == plan_executed(
                old(self).schemas@,
                old(self).queries@,
                plan@,
            ),
    {
        let sink_topic = match &plan {
            QueryPlan::Sink { topic, .. } => Some(topic.clone()),
            _ => None,
        };
        match sink_topic {
            Some(topic) => match self.queries.start_query(plan, topic, &self.schemas) {
                Ok((id, run)) => Ok(Execution::Started { id, run }),
                Err(e) => Err(e),
            },
            None => match PullQuery::start(&plan, &self.schemas) {
                Ok(query) => Ok(Execution::Pull { query }),
                Err(e) => Err(e),
            },
        }
    }
}

/// A plan that writes results, and whose sources are known, is started under the id
/// that comes next, and is then running. The id was never given before.
pub proof fn lemma_sink_is_started(
    sources: Seq<(Seq<char>, SourceView)>,
    queries: RegistryView,
    plan: PlanView,
)
    requires
        ids_in_order(queries),
        plan is Sink,
        engine::pipeline::all_known(plan::plan_sources(plan), sources),
    ensures
        ({
            let id = runtime::registry::query_id(queries.next_id);
            let (r, after) = plan_executed(sources, queries, plan);
            &&& r matches Ok(x) && x is Started && x->id == id
            &&& runtime::registry::status_of(queries, id) is None
            &&& runtime::registry::status_of(after, id) == Some(QueryStatus::Running)
        }),
{
    engine::pipeline::lemma_compiles(plan, sources);
    if let PlanView::Sink { topic, .. } = plan {
        runtime::registry::lemma_started_is_found(queries, plan, topic, sources, Seq::empty());
    }
}

/// A plan that writes no results starts nothing.
pub proof fn lemma_pull_starts_nothing(
    sources: Seq<(Seq<char>, SourceView)>,
    queries: RegistryView,
    plan: PlanView,
)
    requires
        !(plan is Sink),
    ensures
        plan_executed(sources, queries, plan).1 == queries,
        plan_executed(sources, queries, plan).0 is Ok <==> engine::pipeline::all_known(
            plan::plan_sources(plan),
            sources,
        ),
{
    engine::pipeline::lemma_compiles(plan, sources);
}

/// What SQL leads to: the name of a source where it has registered one; for a query that
/// writes nothing a pull of its plan; for one that writes results a run of its plan that
/// writes them to its topic, under the id that comes next. What fails starts nothing.
pub proof fn lemma_execution(
    result: Result<SqlResultView, Seq<char>>,
    sources: Seq<(Seq<char>, SourceView)>,
    queries: RegistryView,
)
    ensures
        ({
            let (r, after) = sql_executed((result, sources), queries);
            match result {
                Err(e) => r == Err::<ExecutionView, Seq<char>>(e) && after == queries,
                Ok(SqlResultView::SourceCreated { name }) => r == Ok::<ExecutionView, Seq<char>>(
                    ExecutionView::SourceCreated { name },
                ) && after == queries,
                Ok(SqlResultView::Query { plan }) => match engine::pipeline::pipeline_of(
                    plan,
                    sources,
                ) {
                    Err(e) => r == Err::<ExecutionView, Seq<char>>(e) && after.queries
                        == queries.queries,
                    Ok(p) => if let PlanView::Sink { topic, .. } = plan {
                        &&& r matches Ok(ExecutionView::Started { id, run })
                        &&& id == runtime::registry::query_id(queries.next_id)
                        &&& run.pipeline == p
                        &&& run.sink_topic == topic
                        &&& after.next_id == queries.next_id + 1
                        &&& after.queries.len() == queries.queries.len() + 1
                        &&& after.queries.drop_last() == queries.queries
                        &&& after.queries.last().id == id
                        &&& after.queries.last().plan == plan
                        &&& after.queries.last().sink_topic == topic
                        &&& after.queries.last().status == QueryStatus::Running
                    } else {
                        &&& r matches Ok(ExecutionView::Pull { query })
                        &&& query.pipeline == p
                        &&& after == queries
                    },
                },
            }
        }),
{
    let (r, after) = sql_executed((result, sources), queries);
    if after.queries.len() > queries.queries.len() {
        assert(after.queries.drop_last() =~= queries.queries);
    }
}

} // verus!
