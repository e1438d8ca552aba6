//! Translates statements.
use crate::error::{fail2, join2, join3, outcome, Error};
use crate::expr::debug::expr_debug;
use crate::expr::{Expr, ExprView};
use crate::plan::{
    AggregateExpr, AggregateFunction, AggregateView, JoinType, PlanView, QueryPlan, SinkType,
};
use crate::schema::{
    registered, registration, stream_source, table_source, SchemaRegistry, SourceView,
};
use crate::sql::ast::{
    lemma_sql_arguments_view, lemma_sql_expr_view, optional, options_view, SqlArgument,
    SqlArgumentView, SqlArguments, SqlArgumentsView, SqlColumn, SqlColumnView, SqlCreateTable,
    SqlCreateTableView, SqlExpr, SqlExprView, SqlGroupBy, SqlGroupByView, SqlItem, SqlItemView,
    SqlJoin, SqlJoinKind, SqlJoinView, SqlProperty, SqlPropertyView, SqlQuery, SqlQueryView,
    SqlRelation, SqlRelationView, SqlSelect, SqlSelectView, SqlStatement, SqlStatementView,
    SqlTable, SqlTableView, SqlValue, SqlValueView,
};
use crate::sql::node::sql_statements;
use crate::sql::read::read_sql;
use crate::sql::translate::{
    before_all, exprs_outcome, lemma_before_all, lemma_before_nothing, name_text,
    object_name_to_string, translate_data_type, translate_expr, translated, translated_type,
};
use crate::text::{equal_ignoring_case, lower, same_letters, same_text, to_lower, to_upper, upper};
use crate::types::{text_view, Column, ColumnView, Schema};
use crate::value::views;
use vstd::prelude::*;

verus! {

/// What a statement leads to.
#[derive(Debug)]
pub enum SqlResult {
    /// A source was registered.
    SourceCreated { name: String },
    /// A plan was made.
    Query { plan: QueryPlan },
}

/// What a `SqlResult` holds.
pub enum SqlResultView {
    SourceCreated { name: Seq<char> },
    Query { plan: PlanView },
}

impl View for SqlResult {
    type V = SqlResultView;

    open spec fn view(&self) -> SqlResultView {
        match self {
            SqlResult::SourceCreated { name } => SqlResultView::SourceCreated { name: name@ },
            SqlResult::Query { plan } => SqlResultView::Query { plan: plan@ },
        }
    }
}

/// The aggregate function with a name in upper case.
pub open spec fn aggregate_named(name: Seq<char>) -> Option<AggregateFunction> {
    if name == "COUNT"@ {
        Some(AggregateFunction::Count)
    } else if name == "SUM"@ {
        Some(AggregateFunction::Sum)
    } else if name == "AVG"@ {
        Some(AggregateFunction::Avg)
    } else if name == "MIN"@ {
        Some(AggregateFunction::Min)
    } else if name == "MAX"@ {
        Some(AggregateFunction::Max)
    } else if name == "COLLECT_LIST"@ {
        Some(AggregateFunction::CollectList)
    } else if name == "COLLECT_SET"@ {
        Some(AggregateFunction::CollectSet)
    } else {
        None
    }
}

/// The aggregate function with a name in upper case.
pub fn find_aggregate(name: &str) -> (r: Option<AggregateFunction>)
    ensures
        r == aggregate_named(name@),
{
    if same_text(name, "COUNT") {
        Some(AggregateFunction::Count)
    } else if same_text(name, "SUM") {
        Some(AggregateFunction::Sum)
    } else if same_text(name, "AVG") {
        Some(AggregateFunction::Avg)
    } else if same_text(name, "MIN") {
        Some(AggregateFunction::Min)
    } else if same_text(name, "MAX") {
        Some(AggregateFunction::Max)
    } else if same_text(name, "COLLECT_LIST") {
        Some(AggregateFunction::CollectList)
    } else if same_text(name, "COLLECT_SET") {
        Some(AggregateFunction::CollectSet)
    } else {
        None
    }
}

/// What an aggregate is applied to: its first argument, or all columns where that is
/// a `*` or missing.
pub open spec fn aggregate_argument(args: Seq<SqlArgumentView>) -> Result<ExprView, Seq<char>> {
    if args.len() == 0 {
        Ok(ExprView::Wildcard)
    } else {
        match args[0] {
            SqlArgumentView::Wildcard => Ok(ExprView::Wildcard),
            SqlArgumentView::Expr(e) => translated(e),
            SqlArgumentView::Other => Err("Unsupported aggregate argument"@),
        }
    }
}

/// The name of an aggregate that is given none.
pub open spec fn default_alias(function: Seq<char>, e: ExprView) -> Seq<char> {
    function + "_"@ + (if e is Wildcard {
        "star"@
    } else {
        expr_debug(e)
    })
}

/// An aggregate, given its function, and the name of the function in lower case.
pub open spec fn aggregate_with(
    function: AggregateFunction,
    name: Seq<char>,
    args: SqlArgumentsView,
    alias: Option<Seq<char>>,
) -> Result<AggregateView, Seq<char>> {
    match args {
        SqlArgumentsView::List { args, distinct } => match aggregate_argument(args) {
            Ok(expr) => Ok(
                AggregateView {
                    function,
                    expr,
                    alias: match alias {
                        Some(alias) => alias,
                        None => default_alias(name, expr),
                    },
                    distinct,
                },
            ),
            Err(e) => Err(e),
        },
        _ => Err("Unsupported function argument format"@),
    }
}

/// The aggregate that an expression is, if it is one.
pub open spec fn aggregate_of(e: SqlExprView, alias: Option<Seq<char>>) -> Result<
    Option<AggregateView>,
    Seq<char>,
> {
    match e {
        SqlExprView::Function { name, args } => {
            let name = upper(name_text(name));
            match aggregate_named(name) {
                Some(function) => match aggregate_with(function, lower(name), args, alias) {
                    Ok(a) => Ok(Some(a)),
                    Err(e) => Err(e),
                },
                None => Ok(None),
            }
        },
        _ => Ok(None),
    }
}

/// What the search for an aggregate holds.
pub open spec fn aggregate_outcome(r: Result<Option<AggregateExpr>, Error>) -> Result<
    Option<AggregateView>,
    Seq<char>,
> {
    match r {
        Ok(Some(a)) => Ok(Some(a@)),
        Ok(None) => Ok(None),
        Err(e) => Err(e@),
    }
}

/// Makes an aggregate, given its function, and the name of the function in lower
/// case.
pub fn make_aggregate(
    function: AggregateFunction,
    name: &str,
    args: &SqlArguments,
    alias: Option<&String>,
) -> (r: Result<AggregateExpr, Error>)
    ensures
        outcome(r) == aggregate_with(
            function,
            name@,
            args@,
            match alias {
                Some(a) => Some(a@),
                None => None,
            },
        ),
{
    broadcast use lemma_sql_arguments_view;

    match args {
        SqlArguments::List { args, distinct } => {
            let expr = if args.len() == 0 {
                Expr::Wildcard
            } else {
                assert(views(args@)[0] == args@[0]@);
                match &args[0] {
                    SqlArgument::Wildcard => Expr::Wildcard,
                    SqlArgument::Expr(e) => match translate_expr(e) {
                        Ok(x) => x,
                        Err(e) => {
                            return Err(e);
                        },
                    },
                    SqlArgument::Other => {
                        return Err(Error::new("Unsupported aggregate argument"));
                    },
                }
            };
            let alias = match alias {
                Some(alias) => alias.clone(),
                None => {
                    let text = match &expr {
                        Expr::Wildcard => "star".to_owned(),
                        _ => expr.to_debug(),
                    };
                    join3(name, "_", text.as_str())
                },
            };
            Ok(AggregateExpr { function, expr, alias, distinct: *distinct })
        },
        _ => Err(Error::new("Unsupported function argument format")),
    }
}

/// What an item of a SELECT with GROUP BY stands for.
pub open spec fn item_aggregate(item: SqlItemView) -> Result<Option<AggregateView>, Seq<char>> {
    match item {
        SqlItemView::Expr(e) => aggregate_or_checked(e, None),
        SqlItemView::Alias { expr, alias } => aggregate_or_checked(expr, Some(alias)),
        SqlItemView::Wildcard => Ok(None),
    }
}

/// The aggregate that an expression is, if it is one. Any other must be one that can
/// be translated.
pub open spec fn aggregate_or_checked(e: SqlExprView, alias: Option<Seq<char>>) -> Result<
    Option<AggregateView>,
    Seq<char>,
> {
    match aggregate_of(e, alias) {
        Ok(Some(a)) => Ok(Some(a)),
        Ok(None) => match translated(e) {
            Ok(_) => Ok(None),
            Err(e) => Err(e),
        },
        Err(e) => Err(e),
    }
}

/// The aggregates among the items from `i` on.
pub open spec fn aggregates_of(items: Seq<SqlItemView>, i: nat) -> Result<
    Seq<AggregateView>,
    Seq<char>,
>
    decreases items.len() - i,
{
    if i >= items.len() {
        Ok(Seq::empty())
    } else {
        match item_aggregate(items[i as int]) {
            Ok(Some(a)) => before_all(seq![a], aggregates_of(items, i + 1)),
            Ok(None) => aggregates_of(items, i + 1),
            Err(e) => Err(e),
        }
    }
}

/// What the items from `i` on stand for.
pub open spec fn projection_of(items: Seq<SqlItemView>, i: nat) -> Result<Seq<ExprView>, Seq<char>>
    decreases items.len() - i,
{
    if i >= items.len() {
        Ok(Seq::empty())
    } else {
        let item = match items[i as int] {
            SqlItemView::Expr(e) => translated(e),
            SqlItemView::Alias { expr, alias } => match translated(expr) {
                Ok(x) => Ok(ExprView::Alias { expr: Box::new(x), name: alias }),
                Err(e) => Err(e),
            },
            SqlItemView::Wildcard => Ok(ExprView::Wildcard),
        };
        match item {
            Ok(x) => before_all(seq![x], projection_of(items, i + 1)),
            Err(e) => Err(e),
        }
    }
}

/// What the expressions from `i` on stand for.
pub open spec fn translated_list(exprs: Seq<SqlExprView>, i: nat) -> Result<Seq<ExprView>, Seq<char>>
    decreases exprs.len() - i,
{
    if i >= exprs.len() {
        Ok(Seq::empty())
    } else {
        match translated(exprs[i as int]) {
            Ok(x) => before_all(seq![x], translated_list(exprs, i + 1)),
            Err(e) => Err(e),
        }
    }
}

/// What an optional expression stands for.
pub open spec fn translated_optional(e: Option<SqlExprView>) -> Result<
    Option<ExprView>,
    Seq<char>,
> {
    match e {
        Some(e) => match translated(e) {
            Ok(x) => Ok(Some(x)),
            Err(e) => Err(e),
        },
        None => Ok(None),
    }
}

/// The plan that reads a relation.
pub open spec fn relation_plan(r: SqlRelationView) -> Result<PlanView, Seq<char>> {
    match r {
        SqlRelationView::Table(name) => Ok(PlanView::Scan { source: name_text(name) }),
        SqlRelationView::Other(text) => Err("Unsupported FROM clause: "@ + text),
    }
}

/// The type of a join, by its kind.
pub open spec fn join_type_of(kind: SqlJoinKind) -> Option<JoinType> {
    match kind {
        SqlJoinKind::Inner => Some(JoinType::Inner),
        SqlJoinKind::Left => Some(JoinType::Left),
        SqlJoinKind::LeftOuter => Some(JoinType::Left),
        SqlJoinKind::Right => Some(JoinType::Right),
        SqlJoinKind::RightOuter => Some(JoinType::Right),
        SqlJoinKind::FullOuter => Some(JoinType::FullOuter),
        SqlJoinKind::Other => None,
    }
}

/// The condition of a join.
pub open spec fn join_condition(on: Option<SqlExprView>) -> Result<ExprView, Seq<char>> {
    match on {
        Some(e) => translated(e),
        None => Err("Only ON join constraint is supported"@),
    }
}

/// A plan with one join more.
pub open spec fn join_plan(left: PlanView, join: SqlJoinView) -> Result<PlanView, Seq<char>> {
    match relation_plan(join.relation) {
        Ok(right) => match join_type_of(join.kind) {
            Some(join_type) => match join_condition(join.on) {
                Ok(on) => Ok(
                    PlanView::Join {
                        left: Box::new(left),
                        right: Box::new(right),
                        join_type,
                        on,
                        within: None,
                    },
                ),
                Err(e) => Err(e),
            },
            None => Err("Unsupported join type"@),
        },
        Err(e) => Err(e),
    }
}

/// A plan with the joins from `i` on.
pub open spec fn joins_plan(left: PlanView, joins: Seq<SqlJoinView>, i: nat) -> Result<
    PlanView,
    Seq<char>,
>
    decreases joins.len() - i,
{
    if i >= joins.len() {
        Ok(left)
    } else {
        match join_plan(left, joins[i as int]) {
            Ok(plan) => joins_plan(plan, joins, i + 1),
            Err(e) => Err(e),
        }
    }
}

/// The plan of a FROM clause.
pub open spec fn from_plan(from: Seq<SqlTableView>) -> Result<PlanView, Seq<char>> {
    if from.len() == 0 {
        Err("SELECT requires a FROM clause"@)
    } else if from.len() > 1 {
        Err("Multiple FROM tables not supported; use explicit JOIN"@)
    } else {
        match relation_plan(from[0].relation) {
            Ok(left) => joins_plan(left, from[0].joins, 0),
            Err(e) => Err(e),
        }
    }
}

/// A plan under a filter, where there is one.
pub open spec fn filter_plan(plan: PlanView, selection: Option<SqlExprView>) -> Result<
    PlanView,
    Seq<char>,
> {
    match selection {
        Some(e) => match translated(e) {
            Ok(predicate) => Ok(PlanView::Filter { input: Box::new(plan), predicate }),
            Err(e) => Err(e),
        },
        None => Ok(plan),
    }
}

/// The expressions of a GROUP BY clause.
pub open spec fn group_exprs(g: SqlGroupByView) -> Result<Seq<ExprView>, Seq<char>> {
    match g {
        SqlGroupByView::Expressions(e) => translated_list(e, 0),
        SqlGroupByView::All => Ok(Seq::empty()),
    }
}

/// Whether a GROUP BY clause groups.
pub open spec fn groups(g: SqlGroupByView) -> bool {
    match g {
        SqlGroupByView::Expressions(e) => e.len() > 0,
        SqlGroupByView::All => true,
    }
}

/// The plan that groups and aggregates.
pub open spec fn group_plan(plan: PlanView, s: SqlSelectView) -> Result<PlanView, Seq<char>> {
    match group_exprs(s.group_by) {
        Ok(group_by) => match aggregates_of(s.projection, 0) {
            Ok(aggregates) => match translated_optional(s.having) {
                Ok(having) => Ok(
                    PlanView::Aggregate {
                        input: Box::new(plan),
                        group_by,
                        aggregates,
                        window: None,
                        having,
                    },
                ),
                Err(e) => Err(e),
            },
            Err(e) => Err(e),
        },
        Err(e) => Err(e),
    }
}

/// Whether expressions are just all columns.
pub open spec fn all_columns(exprs: Seq<ExprView>) -> bool {
    exprs.len() == 1 && exprs[0] is Wildcard
}

/// The plan that computes the items of a SELECT.
pub open spec fn project_plan(plan: PlanView, items: Seq<SqlItemView>) -> Result<
    PlanView,
    Seq<char>,
> {
    match projection_of(items, 0) {
        Ok(expressions) => if all_columns(expressions) {
            Ok(plan)
        } else {
            Ok(PlanView::Project { input: Box::new(plan), expressions })
        },
        Err(e) => Err(e),
    }
}

/// The plan of a SELECT.
pub open spec fn select_plan(s: SqlSelectView) -> Result<PlanView, Seq<char>> {
    match from_plan(s.from) {
        Ok(plan) => match filter_plan(plan, s.selection) {
            Ok(plan) => if groups(s.group_by) {
                group_plan(plan, s)
            } else {
                project_plan(plan, s.projection)
            },
            Err(e) => Err(e),
        },
        Err(e) => Err(e),
    }
}

/// The plan of a query.
pub open spec fn query_plan(q: SqlQueryView) -> Result<PlanView, Seq<char>> {
    match q {
        SqlQueryView::Select(s) => select_plan(s),
        SqlQueryView::Other(text) => Err("Unsupported query type: "@ + text),
    }
}

/// The value of a property: what a text or a number holds, else the text of the
/// expression.
pub open spec fn property_value(p: SqlPropertyView) -> Seq<char> {
    match p.value {
        SqlExprView::Value(SqlValueView::SingleQuotedString(s)) => s,
        SqlExprView::Value(SqlValueView::DoubleQuotedString(s)) => s,
        SqlExprView::Value(SqlValueView::Number(n)) => n,
        _ => p.text,
    }
}

/// What pairs of texts hold.
pub open spec fn text_pairs(s: Seq<(String, String)>) -> Seq<(Seq<char>, Seq<char>)> {
    s.map_values(|p: (String, String)| (p.0@, p.1@))
}

/// The properties among the first `n` options.
pub open spec fn properties(options: Seq<Option<SqlPropertyView>>, n: nat) -> Seq<
    (Seq<char>, Seq<char>),
>
    decreases n,
{
    if n == 0 || n > options.len() {
        Seq::empty()
    } else {
        let before = properties(options, (n - 1) as nat);
        match options[n - 1] {
            Some(p) => before.push((p.key, property_value(p))),
            None => before,
        }
    }
}

/// The first property from `i` on with a name, whatever the case of its letters.
pub open spec fn find_property(p: Seq<(Seq<char>, Seq<char>)>, name: Seq<char>, i: nat) -> Option<
    Seq<char>,
>
    decreases p.len() - i,
{
    if i >= p.len() {
        None
    } else if same_letters(p[i as int].0, name) {
        Some(p[i as int].1)
    } else {
        find_property(p, name, i + 1)
    }
}

/// The columns from `i` on.
pub open spec fn columns_from(columns: Seq<SqlColumnView>, i: nat) -> Result<
    Seq<ColumnView>,
    Seq<char>,
>
    decreases columns.len() - i,
{
    if i >= columns.len() {
        Ok(Seq::empty())
    } else {
        match translated_type(columns[i as int].data_type) {
            Ok(data_type) => before_all(
                seq![ColumnView { name: columns[i as int].name, data_type }],
                columns_from(columns, i + 1),
            ),
            Err(e) => Err(e),
        }
    }
}

/// The topic that results are written to where none is given.
pub open spec fn default_topic(lower_name: Seq<char>) -> Seq<char> {
    lower_name + "_topic"@
}

/// What a CREATE ... AS SELECT leads to.
pub open spec fn create_as(
    name: Seq<char>,
    properties: Seq<(Seq<char>, Seq<char>)>,
    query: SqlQueryView,
) -> Result<SqlResultView, Seq<char>> {
    match query_plan(query) {
        Ok(input) => Ok(
            SqlResultView::Query {
                plan: PlanView::Sink {
                    input: Box::new(input),
                    name,
                    topic: match find_property(properties, "KAFKA_TOPIC"@, 0) {
                        Some(topic) => topic,
                        None => default_topic(lower(name)),
                    },
                    sink_type: if find_property(properties, "KEY"@, 0) is Some {
                        SinkType::Table
                    } else {
                        SinkType::Stream
                    },
                },
            },
        ),
        Err(e) => Err(e),
    }
}

/// The source that a CREATE without a query declares: a table where a key is given,
/// else a stream.
pub open spec fn declared_source(
    name: Seq<char>,
    properties: Seq<(Seq<char>, Seq<char>)>,
    columns: Seq<SqlColumnView>,
) -> Result<SourceView, Seq<char>> {
    match columns_from(columns, 0) {
        Ok(schema) => match find_property(properties, "KAFKA_TOPIC"@, 0) {
            Some(topic) => Ok(
                match find_property(properties, "KEY"@, 0) {
                    Some(key) => table_source(name, schema, topic, key),
                    None => stream_source(name, schema, topic),
                },
            ),
            None => Err("Missing KAFKA_TOPIC in WITH clause"@),
        },
        Err(e) => Err(e),
    }
}

/// What a CREATE leads to, and the sources after it.
pub open spec fn created(c: SqlCreateTableView, sources: Seq<(Seq<char>, SourceView)>) -> (
    Result<SqlResultView, Seq<char>>,
    Seq<(Seq<char>, SourceView)>,
) {
    let name = name_text(c.name);
    let properties = properties(c.options, c.options.len());
    match c.query {
        Some(query) => (create_as(name, properties, query), sources),
        None => match declared_source(name, properties, c.columns) {
            Ok(info) => (
                match registration(sources, upper(name), name) {
                    Ok(_) => Ok(SqlResultView::SourceCreated { name }),
                    Err(e) => Err(e),
                },
                registered(sources, upper(name), info),
            ),
            Err(e) => (Err(e), sources),
        },
    }
}

/// What statements lead to, and the sources after them. There must be just one.
pub open spec fn carried_out(
    statements: Seq<SqlStatementView>,
    sources: Seq<(Seq<char>, SourceView)>,
) -> (Result<SqlResultView, Seq<char>>, Seq<(Seq<char>, SourceView)>) {
    if statements.len() == 0 {
        (Err("Empty SQL statement"@), sources)
    } else if statements.len() > 1 {
        (Err("Multiple statements not supported"@), sources)
    } else {
        match statements[0] {
            SqlStatementView::CreateTable(c) => created(c, sources),
            SqlStatementView::Query(q) => (
                match query_plan(q) {
                    Ok(plan) => Ok(SqlResultView::Query { plan }),
                    Err(e) => Err(e),
                },
                sources,
            ),
            SqlStatementView::Other(text) => (Err("Unsupported SQL statement: "@ + text), sources),
            SqlStatementView::Hidden => (
                Err("Unsupported SQL statement: an external table must have a location"@),
                sources,
            ),
        }
    }
}

/// What a text leads to, given what is read in it, and the sources after it.
pub open spec fn executed(
    read: Result<Seq<SqlStatementView>, Seq<char>>,
    sources: Seq<(Seq<char>, SourceView)>,
) -> (Result<SqlResultView, Seq<char>>, Seq<(Seq<char>, SourceView)>) {
    match read {
        Ok(statements) => carried_out(statements, sources),
        Err(e) => (Err(e), sources),
    }
}

/// Translates SQL to query plans.
#[derive(Debug)]
pub struct SqlEngine;

impl SqlEngine {
    /// Parses and translates a text. A source that it declares is registered.
    pub fn parse(sql: &str, registry: &mut SchemaRegistry) -> (r: Result<SqlResult, Error>)
        ensures
            (outcome(r), final(registry)@) == executed(sql_statements(sql@), old(registry)@),
    {
        match read_sql(sql) {
            Ok(statements) => SqlEngine::carry_out(&statements, registry),
            Err(e) => Err(e),
        }
    }

    /// Translates what was read in a text.
    pub fn carry_out(statements: &Vec<SqlStatement>, registry: &mut SchemaRegistry) -> (r: Result<
        SqlResult,
        Error,
    >)
        ensures
            (outcome(r), final(registry)@) == carried_out(views(statements@), old(registry)@),
    {
        if statements.len() == 0 {
            return Err(Error::new("Empty SQL statement"));
        }
        if statements.len() > 1 {
            return Err(Error::new("Multiple statements not supported"));
        }
        assert(views(statements@)[0] == statements@[0]@);
        match &statements[0] {
            SqlStatement::CreateTable(c) => SqlEngine::handle_create_table(c, registry),
            SqlStatement::Query(q) => match SqlEngine::translate_query(q) {
                Ok(plan) => Ok(SqlResult::Query { plan }),
                Err(e) => Err(e),
            },
            SqlStatement::Other(text) => Err(fail2("Unsupported SQL statement: ", text.as_str())),
            SqlStatement::Hidden => Err(
                Error::new("Unsupported SQL statement: an external table must have a location"),
            ),
        }
    }

    /// Carries out a CREATE.
    pub fn handle_create_table(c: &SqlCreateTable, registry: &mut SchemaRegistry) -> (r: Result<
        SqlResult,
        Error,
    >)
        ensures
            (outcome(r), final(registry)@) == created(c@, old(registry)@),
    {
        let name = object_name_to_string(&c.name);
        let properties = SqlEngine::extract_with_properties(&c.options);
        let key = SqlEngine::property(&properties, "KEY");
        let topic = SqlEngine::property(&properties, "KAFKA_TOPIC");
        if let Some(query) = &c.query {
            let input = match SqlEngine::translate_query(query) {
                Ok(plan) => plan,
                Err(e) => {
                    return Err(e);
                },
            };
            let topic = match topic {
                Some(topic) => topic,
                None => {
                    let lower_name = to_lower(name.as_str());
                    join2(lower_name.as_str(), "_topic")
                },
            };
            let sink_type = if key.is_some() {
                SinkType::Table
            } else {
                SinkType::Stream
            };
            let plan = QueryPlan::Sink { input: Box::new(input), name, topic, sink_type };
            return Ok(SqlResult::Query { plan });
        }
        let columns = match SqlEngine::translate_columns(&c.columns) {
            Ok(columns) => columns,
            Err(e) => {
                return Err(e);
            },
        };
        let schema = Schema::new(columns);
        let topic = match topic {
            Some(topic) => topic,
            None => {
                return Err(Error::new("Missing KAFKA_TOPIC in WITH clause"));
            },
        };
        let done = match key {
            Some(key) => registry.register_table(
                name.as_str(),
                schema,
                topic.as_str(),
                key.as_str(),
            ),
            None => registry.register_stream(name.as_str(), schema, topic.as_str()),
        };
        match done {
            Ok(()) => Ok(SqlResult::SourceCreated { name }),
            Err(e) => Err(e),
        }
    }

    /// The names and values of the properties among options.
    pub fn extract_with_properties(options: &Vec<Option<SqlProperty>>) -> (r: Vec<(String, String)>)
        ensures
            text_pairs(r@) == properties(options_view(options@), options@.len()),
    {
        let ghost o = options_view(options@);
        let mut r: Vec<(String, String)> = Vec::new();
        let mut i: usize = 0;
        proof {
            assert(text_pairs(r@) =~= Seq::<(Seq<char>, Seq<char>)>::empty());
        }
        while i < options.len()
            invariant
                i <= options.len(),
                o == options_view(options@),
                text_pairs(r@) == properties(o, i as nat),
            decreases options.len() - i,
        {
            let ghost before = text_pairs(r@);
            if let Some(p) = &options[i] {
                let value = match &p.value {
                    SqlExpr::Value(v) => match v {
                        SqlValue::SingleQuotedString(s) => s.clone(),
                        SqlValue::DoubleQuotedString(s) => s.clone(),
                        SqlValue::Number(n) => n.clone(),
                        _ => p.text.clone(),
                    },
                    _ => p.text.clone(),
                };
                let ghost held = (p.key@, value@);
                r.push((p.key.clone(), value));
                proof {
                    assert(o[i as int] == Some(p@));
                    assert(text_pairs(r@) =~= before.push(held));
                }
            }
            i = i + 1;
        }
        r
    }

    /// The first property with a name, whatever the case of its letters.
    pub fn property(properties: &Vec<(String, String)>, name: &str) -> (r: Option<String>)
        ensures
            text_view(r) == find_property(text_pairs(properties@), name@, 0),
    {
        let ghost p = text_pairs(properties@);
        let mut i: usize = 0;
        while i < properties.len()
            invariant
                i <= properties.len(),
                p == text_pairs(properties@),
                find_property(p, name@, 0) == find_property(p, name@, i as nat),
            decreases properties.len() - i,
        {
            if equal_ignoring_case(properties[i].0.as_str(), name) {
                return Some(properties[i].1.clone());
            }
            i = i + 1;
        }
        None
    }

    /// Translates columns.
    pub fn translate_columns(columns: &Vec<SqlColumn>) -> (r: Result<Vec<Column>, Error>)
        ensures
            match r {
                Ok(c) => columns_from(views(columns@), 0) == Ok::<Seq<ColumnView>, Seq<char>>(
                    views(c@),
                ),
                Err(e) => columns_from(views(columns@), 0) == Err::<Seq<ColumnView>, Seq<char>>(e@),
            },
    {
        let ghost c = views(columns@);
        let mut r: Vec<Column> = Vec::new();
        let mut i: usize = 0;
        proof {
            assert(views(r@) =~= Seq::<ColumnView>::empty());
            lemma_before_nothing(views(r@), columns_from(c, 0));
        }
        while i < columns.len()
            invariant
                i <= columns.len(),
                c == views(columns@),
                columns_from(c, 0) == before_all(views(r@), columns_from(c, i as nat)),
            decreases columns.len() - i,
        {
            let ghost before = views(r@);
            assert(c[i as int] == columns@[i as int]@);
            match translate_data_type(&columns[i].data_type) {
                Ok(data_type) => {
                    let column = Column::new(columns[i].name.as_str(), data_type);
                    let ghost held = column@;
                    r.push(column);
                    proof {
                        assert(views(r@) =~= before.push(held));
                        lemma_before_all(before, held, columns_from(c, (i + 1) as nat));
                    }
                },
                Err(e) => {
                    return Err(e);
                },
            }
            i = i + 1;
        }
        proof {
            lemma_before_nothing(views(r@), columns_from(c, 0));
        }
        Ok(r)
    }

    /// Translates a query.
    pub fn translate_query(query: &SqlQuery) -> (r: Result<QueryPlan, Error>)
        ensures
            outcome(r) == query_plan(query@),
    {
        match query {
            SqlQuery::Select(select) => SqlEngine::translate_select(select),
            SqlQuery::Other(text) => Err(fail2("Unsupported query type: ", text.as_str())),
        }
    }

    /// Translates a SELECT.
    pub fn translate_select(select: &SqlSelect) -> (r: Result<QueryPlan, Error>)
        ensures
            outcome(r) == select_plan(select@),
    {
        let plan = match SqlEngine::translate_from(&select.from) {
            Ok(plan) => plan,
            Err(e) => {
                return Err(e);
            },
        };
        let ghost read = plan@;
        let plan = match &select.selection {
            Some(selection) => match translate_expr(selection) {
                Ok(predicate) => QueryPlan::Filter { input: Box::new(plan), predicate },
                Err(e) => {
                    return Err(e);
                },
            },
            None => plan,
        };
        assert(filter_plan(read, select@.selection) == Ok::<PlanView, Seq<char>>(plan@));
        let has_group_by = match &select.group_by {
            SqlGroupBy::Expressions(exprs) => exprs.len() > 0,
            SqlGroupBy::All => true,
        };
        if has_group_by {
            let group_by = match &select.group_by {
                SqlGroupBy::Expressions(exprs) => match SqlEngine::translate_exprs(exprs) {
                    Ok(exprs) => exprs,
                    Err(e) => {
                        return Err(e);
                    },
                },
                SqlGroupBy::All => {
                    let none: Vec<Expr> = Vec::new();
                    assert(views(none@) =~= Seq::<ExprView>::empty());
                    none
                },
            };
            let aggregates = match SqlEngine::extract_aggregates(&select.projection) {
                Ok(aggregates) => aggregates,
                Err(e) => {
                    return Err(e);
                },
            };
            let having = match &select.having {
                Some(having) => match translate_expr(having) {
                    Ok(having) => Some(having),
                    Err(e) => {
                        return Err(e);
                    },
                },
                None => None,
            };
            Ok(
                QueryPlan::Aggregate {
                    input: Box::new(plan),
                    group_by,
                    aggregates,
                    window: None,
                    having,
                },
            )
        } else {
            match SqlEngine::translate_projection(&select.projection) {
                Ok(expressions) => {
                    if SqlEngine::is_select_star(&expressions) {
                        Ok(plan)
                    } else {
                        Ok(QueryPlan::Project { input: Box::new(plan), expressions })
                    }
                },
                Err(e) => Err(e),
            }
        }
    }

    /// Translates a FROM clause.
    pub fn translate_from(from: &Vec<SqlTable>) -> (r: Result<QueryPlan, Error>)
        ensures
            outcome(r) == from_plan(views(from@)),
    {
        if from.len() == 0 {
            return Err(Error::new("SELECT requires a FROM clause"));
        }
        if from.len() > 1 {
            return Err(Error::new("Multiple FROM tables not supported; use explicit JOIN"));
        }
        let table = &from[0];
        assert(views(from@)[0] == table@);
        let mut plan = match SqlEngine::translate_table_factor(&table.relation) {
            Ok(plan) => plan,
            Err(e) => {
                return Err(e);
            },
        };
        let ghost whole = joins_plan(plan@, views(table.joins@), 0);
        let mut i: usize = 0;
        while i < table.joins.len()
            invariant
                i <= table.joins.len(),
                whole == joins_plan(plan@, views(table.joins@), i as nat),
                whole == from_plan(views(from@)),
            decreases table.joins.len() - i,
        {
            let join = &table.joins[i];
            assert(views(table.joins@)[i as int] == join@);
            let right = match SqlEngine::translate_table_factor(&join.relation) {
                Ok(right) => right,
                Err(e) => {
                    return Err(e);
                },
            };
            let (join_type, on) = match SqlEngine::translate_join_constraint(join) {
                Ok(pair) => pair,
                Err(e) => {
                    return Err(e);
                },
            };
            plan = QueryPlan::Join {
                left: Box::new(plan),
                right: Box::new(right),
                join_type,
                on,
                within: None,
            };
            i = i + 1;
        }
        Ok(plan)
    }

    /// Translates a relation.
    pub fn translate_table_factor(relation: &SqlRelation) -> (r: Result<QueryPlan, Error>)
        ensures
            outcome(r) == relation_plan(relation@),
    {
        match relation {
            SqlRelation::Table(name) => Ok(QueryPlan::Scan { source: object_name_to_string(name) }),
            SqlRelation::Other(text) => Err(fail2("Unsupported FROM clause: ", text.as_str())),
        }
    }

    /// The type and the condition of a join.
    pub fn translate_join_constraint(join: &SqlJoin) -> (r: Result<(JoinType, Expr), Error>)
        ensures
            match r {
                Ok((join_type, on)) => join_type_of(join.kind) == Some(join_type)
                    && join_condition(join@.on) == Ok::<ExprView, Seq<char>>(on@),
                Err(e) => if join_type_of(join.kind) is Some {
                    join_condition(join@.on) == Err::<ExprView, Seq<char>>(e@)
                } else {
                    e@ == "Unsupported join type"@
                },
            },
    {
        let join_type = match join.kind {
            SqlJoinKind::Inner => JoinType::Inner,
            SqlJoinKind::Left => JoinType::Left,
            SqlJoinKind::LeftOuter => JoinType::Left,
            SqlJoinKind::Right => JoinType::Right,
            SqlJoinKind::RightOuter => JoinType::Right,
            SqlJoinKind::FullOuter => JoinType::FullOuter,
            SqlJoinKind::Other => {
                return Err(Error::new("Unsupported join type"));
            },
        };
        match SqlEngine::extract_join_on(&join.on) {
            Ok(on) => Ok((join_type, on)),
            Err(e) => Err(e),
        }
    }

    /// Translates the condition of a join.
    pub fn extract_join_on(on: &Option<SqlExpr>) -> (r: Result<Expr, Error>)
        ensures
            outcome(r) == join_condition(optional(*on)),
    {
        match on {
            Some(e) => translate_expr(e),
            None => Err(Error::new("Only ON join constraint is supported")),
        }
    }

    /// Translates expressions.
    pub fn translate_exprs(exprs: &Vec<SqlExpr>) -> (r: Result<Vec<Expr>, Error>)
        ensures
            exprs_outcome(r) == translated_list(views(exprs@), 0),
    {
        let ghost c = views(exprs@);
        let mut r: Vec<Expr> = Vec::new();
        let mut i: usize = 0;
        proof {
            assert(views(r@) =~= Seq::<ExprView>::empty());
            lemma_before_nothing(views(r@), translated_list(c, 0));
        }
        while i < exprs.len()
            invariant
                i <= exprs.len(),
                c == views(exprs@),
                translated_list(c, 0) == before_all(views(r@), translated_list(c, i as nat)),
            decreases exprs.len() - i,
        {
            let ghost before = views(r@);
            assert(c[i as int] == exprs@[i as int]@);
            match translate_expr(&exprs[i]) {
                Ok(x) => {
                    let ghost held = x@;
                    r.push(x);
                    proof {
                        assert(views(r@) =~= before.push(held));
                        lemma_before_all(before, held, translated_list(c, (i + 1) as nat));
                    }
                },
                Err(e) => {
                    return Err(e);
                },
            }
            i = i + 1;
        }
        proof {
            lemma_before_nothing(views(r@), translated_list(c, 0));
        }
        Ok(r)
    }

    /// Translates the items of a SELECT.
    pub fn translate_projection(items: &Vec<SqlItem>) -> (r: Result<Vec<Expr>, Error>)
        ensures
            exprs_outcome(r) == projection_of(views(items@), 0),
    {
        let ghost c = views(items@);
        let mut r: Vec<Expr> = Vec::new();
        let mut i: usize = 0;
        proof {
            assert(views(r@) =~= Seq::<ExprView>::empty());
            lemma_before_nothing(views(r@), projection_of(c, 0));
        }
        while i < items.len()
            invariant
                i <= items.len(),
                c == views(items@),
                projection_of(c, 0) == before_all(views(r@), projection_of(c, i as nat)),
            decreases items.len() - i,
        {
            let ghost before = views(r@);
            assert(c[i as int] == items@[i as int]@);
            let x = match &items[i] {
                SqlItem::Expr(e) => match translate_expr(e) {
                    Ok(x) => x,
                    Err(e) => {
                        return Err(e);
                    },
                },
                SqlItem::Alias { expr, alias } => match translate_expr(expr) {
                    Ok(x) => Expr::Alias { expr: Box::new(x), name: alias.clone() },
                    Err(e) => {
                        return Err(e);
                    },
                },
                SqlItem::Wildcard => Expr::Wildcard,
            };
            let ghost held = x@;
            r.push(x);
            proof {
                assert(views(r@) =~= before.push(held));
                lemma_before_all(before, held, projection_of(c, (i + 1) as nat));
            }
            i = i + 1;
        }
        proof {
            lemma_before_nothing(views(r@), projection_of(c, 0));
        }
        Ok(r)
    }

    /// The aggregates among the items of a SELECT. The other items must be ones that
    /// can be translated.
    pub fn extract_aggregates(items: &Vec<SqlItem>) -> (r: Result<Vec<AggregateExpr>, Error>)
        ensures
            match r {
                Ok(a) => aggregates_of(views(items@), 0) == Ok::<Seq<AggregateView>, Seq<char>>(
                    views(a@),
                ),
                Err(e) => aggregates_of(views(items@), 0) == Err::<Seq<AggregateView>, Seq<char>>(
                    e@,
                ),
            },
    {
        let ghost c = views(items@);
        let mut r: Vec<AggregateExpr> = Vec::new();
        let mut i: usize = 0;
        proof {
            assert(views(r@) =~= Seq::<AggregateView>::empty());
            lemma_before_nothing(views(r@), aggregates_of(c, 0));
        }
        while i < items.len()
            invariant
                i <= items.len(),
                c == views(items@),
                aggregates_of(c, 0) == before_all(views(r@), aggregates_of(c, i as nat)),
            decreases items.len() - i,
        {
            let ghost before = views(r@);
            assert(c[i as int] == items@[i as int]@);
            let found = match &items[i] {
                SqlItem::Expr(e) => Some((e, None)),
                SqlItem::Alias { expr, alias } => Some((expr, Some(alias))),
                SqlItem::Wildcard => None,
            };
            if let Some((expr, alias)) = found {
                match SqlEngine::try_extract_aggregate(expr, alias) {
                    Ok(Some(a)) => {
                        let ghost held = a@;
                        r.push(a);
                        proof {
                            assert(views(r@) =~= before.push(held));
                            lemma_before_all(before, held, aggregates_of(c, (i + 1) as nat));
                        }
                    },
                    Ok(None) => {
                        if let Err(e) = translate_expr(expr) {
                            return Err(e);
                        }
                    },
                    Err(e) => {
                        return Err(e);
                    },
                }
            }
            i = i + 1;
        }
        proof {
            lemma_before_nothing(views(r@), aggregates_of(c, 0));
        }
        Ok(r)
    }

    /// The aggregate that an expression is, if it is one.
    pub fn try_extract_aggregate(expr: &SqlExpr, alias: Option<&String>) -> (r: Result<
        Option<AggregateExpr>,
        Error,
    >)
        ensures
            aggregate_outcome(r) == aggregate_of(
                expr@,
                match alias {
                    Some(a) => Some(a@),
                    None => None,
                },
            ),
    {
        broadcast use lemma_sql_expr_view;

        match expr {
            SqlExpr::Function { name, args } => {
                let text = object_name_to_string(name);
                let name = to_upper(text.as_str());
                match find_aggregate(name.as_str()) {
                    Some(function) => {
                        let lower_name = to_lower(name.as_str());
                        match make_aggregate(function, lower_name.as_str(), args, alias) {
                            Ok(a) => Ok(Some(a)),
                            Err(e) => Err(e),
                        }
                    },
                    None => Ok(None),
                }
            },
            _ => Ok(None),
        }
    }

    /// Whether expressions are just all columns.
    pub fn is_select_star(expressions: &Vec<Expr>) -> (r: bool)
        ensures
            r == all_columns(views(expressions@)),
    {
        expressions.len() == 1 && match &expressions[0] {
            Expr::Wildcard => true,
            _ => false,
        }
    }
}

} // verus!
