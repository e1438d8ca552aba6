//! The parts of SQL statements that are translated.
//!
//! What a statement can hold beside these parts is kept as text, for messages.
use crate::value::views;
use vstd::prelude::*;

verus! {

/// The parts of a name that are separated by dots. A part that is not an
/// identifier has no text.
pub type NameParts = Vec<Option<String>>;

/// What the parts of a name hold.
pub open spec fn parts_view(s: Seq<Option<String>>) -> Seq<Option<Seq<char>>> {
    s.map_values(
        |p: Option<String>|
            match p {
                Some(t) => Some(t@),
                None => None::<Seq<char>>,
            },
    )
}

/// A literal.
#[derive(Debug)]
pub enum SqlValue {
    Number(String),
    SingleQuotedString(String),
    DoubleQuotedString(String),
    Boolean(bool),
    Null,
    /// Any other, by its debug text.
    Other(String),
}

/// What a `SqlValue` holds.
pub enum SqlValueView {
    Number(Seq<char>),
    SingleQuotedString(Seq<char>),
    DoubleQuotedString(Seq<char>),
    Boolean(bool),
    Null,
    Other(Seq<char>),
}

impl View for SqlValue {
    type V = SqlValueView;

    open spec fn view(&self) -> SqlValueView {
        match self {
            SqlValue::Number(s) => SqlValueView::Number(s@),
            SqlValue::SingleQuotedString(s) => SqlValueView::SingleQuotedString(s@),
            SqlValue::DoubleQuotedString(s) => SqlValueView::DoubleQuotedString(s@),
            SqlValue::Boolean(b) => SqlValueView::Boolean(*b),
            SqlValue::Null => SqlValueView::Null,
            SqlValue::Other(s) => SqlValueView::Other(s@),
        }
    }
}

/// A type.
#[derive(Debug)]
pub enum SqlType {
    Boolean,
    Int,
    Integer,
    BigInt,
    Float,
    Double,
    DoublePrecision,
    Varchar,
    Text,
    String,
    Timestamp,
    /// An array, with the type of its elements where that is given.
    Array(Option<Box<SqlType>>),
    /// Any other, by its debug text.
    Other(String),
}

/// What a `SqlType` holds.
pub enum SqlTypeView {
    Boolean,
    Int,
    Integer,
    BigInt,
    Float,
    Double,
    DoublePrecision,
    Varchar,
    Text,
    String,
    Timestamp,
    Array(Option<Box<SqlTypeView>>),
    Other(Seq<char>),
}

/// What a type holds.
pub open spec fn sql_type_view(t: SqlType) -> SqlTypeView
    decreases t,
{
    match t {
        SqlType::Boolean => SqlTypeView::Boolean,
        SqlType::Int => SqlTypeView::Int,
        SqlType::Integer => SqlTypeView::Integer,
        SqlType::BigInt => SqlTypeView::BigInt,
        SqlType::Float => SqlTypeView::Float,
        SqlType::Double => SqlTypeView::Double,
        SqlType::DoublePrecision => SqlTypeView::DoublePrecision,
        SqlType::Varchar => SqlTypeView::Varchar,
        SqlType::Text => SqlTypeView::Text,
        SqlType::String => SqlTypeView::String,
        SqlType::Timestamp => SqlTypeView::Timestamp,
        SqlType::Array(inner) => SqlTypeView::Array(
            match inner {
                Some(t) => Some(Box::new(sql_type_view(*t))),
                None => None,
            },
        ),
        SqlType::Other(s) => SqlTypeView::Other(s@),
    }
}

impl View for SqlType {
    type V = SqlTypeView;

    open spec fn view(&self) -> SqlTypeView {
        sql_type_view(*self)
    }
}

/// An expression.
#[allow(inconsistent_fields)]
#[derive(Debug)]
pub enum SqlExpr {
    Identifier(String),
    CompoundIdentifier(Vec<String>),
    Value(SqlValue),
    /// An operator, by its debug text, between two operands.
    BinaryOp { left: Box<SqlExpr>, op: String, right: Box<SqlExpr> },
    /// An operator, by its debug text, in front of an operand.
    UnaryOp { op: String, expr: Box<SqlExpr> },
    Function { name: NameParts, args: SqlArguments },
    IsNull(Box<SqlExpr>),
    IsNotNull(Box<SqlExpr>),
    Like { negated: bool, expr: Box<SqlExpr>, pattern: Box<SqlExpr> },
    Between { expr: Box<SqlExpr>, negated: bool, low: Box<SqlExpr>, high: Box<SqlExpr> },
    Case {
        operand: Option<Box<SqlExpr>>,
        conditions: Vec<(SqlExpr, SqlExpr)>,
        else_result: Option<Box<SqlExpr>>,
    },
    Cast { expr: Box<SqlExpr>, data_type: SqlType },
    Nested(Box<SqlExpr>),
    /// Any other, by its debug text.
    Other(String),
}

/// The arguments of a call. A name that is called without brackets has none.
#[derive(Debug)]
pub enum SqlArguments {
    Absent,
    List { args: Vec<SqlArgument>, distinct: bool },
    /// Any other.
    Other,
}

/// An argument of a call.
#[derive(Debug)]
pub enum SqlArgument {
    Expr(SqlExpr),
    Wildcard,
    /// Any other.
    Other,
}

/// What a `SqlExpr` holds.
#[allow(inconsistent_fields)]
pub enum SqlExprView {
    Identifier(Seq<char>),
    CompoundIdentifier(Seq<Seq<char>>),
    Value(SqlValueView),
    BinaryOp { left: Box<SqlExprView>, op: Seq<char>, right: Box<SqlExprView> },
    UnaryOp { op: Seq<char>, expr: Box<SqlExprView> },
    Function { name: Seq<Option<Seq<char>>>, args: SqlArgumentsView },
    IsNull(Box<SqlExprView>),
    IsNotNull(Box<SqlExprView>),
    Like { negated: bool, expr: Box<SqlExprView>, pattern: Box<SqlExprView> },
    Between {
        expr: Box<SqlExprView>,
        negated: bool,
        low: Box<SqlExprView>,
        high: Box<SqlExprView>,
    },
    Case {
        operand: Option<Box<SqlExprView>>,
        conditions: Seq<(SqlExprView, SqlExprView)>,
        else_result: Option<Box<SqlExprView>>,
    },
    Cast { expr: Box<SqlExprView>, data_type: SqlTypeView },
    Nested(Box<SqlExprView>),
    Other(Seq<char>),
}

/// What a `SqlArguments` holds.
pub enum SqlArgumentsView {
    Absent,
    List { args: Seq<SqlArgumentView>, distinct: bool },
    Other,
}

/// What a `SqlArgument` holds.
pub enum SqlArgumentView {
    Expr(SqlExprView),
    Wildcard,
    Other,
}

/// What an expression holds.
pub open spec fn sql_expr_view(e: SqlExpr) -> SqlExprView
    decreases e,
{
    match e {
        SqlExpr::Identifier(s) => SqlExprView::Identifier(s@),
        SqlExpr::CompoundIdentifier(parts) => SqlExprView::CompoundIdentifier(views(parts@)),
        SqlExpr::Value(v) => SqlExprView::Value(v@),
        SqlExpr::BinaryOp { left, op, right } => SqlExprView::BinaryOp {
            left: Box::new(sql_expr_view(*left)),
            op: op@,
            right: Box::new(sql_expr_view(*right)),
        },
        SqlExpr::UnaryOp { op, expr } => SqlExprView::UnaryOp {
            op: op@,
            expr: Box::new(sql_expr_view(*expr)),
        },
        SqlExpr::Function { name, args } => SqlExprView::Function {
            name: parts_view(name@),
            args: sql_arguments_view(args),
        },
        SqlExpr::IsNull(e) => SqlExprView::IsNull(Box::new(sql_expr_view(*e))),
        SqlExpr::IsNotNull(e) => SqlExprView::IsNotNull(Box::new(sql_expr_view(*e))),
        SqlExpr::Like { negated, expr, pattern } => SqlExprView::Like {
            negated,
            expr: Box::new(sql_expr_view(*expr)),
            pattern: Box::new(sql_expr_view(*pattern)),
        },
        SqlExpr::Between { expr, negated, low, high } => SqlExprView::Between {
            expr: Box::new(sql_expr_view(*expr)),
            negated,
            low: Box::new(sql_expr_view(*low)),
            high: Box::new(sql_expr_view(*high)),
        },
        SqlExpr::Case { operand, conditions, else_result } => SqlExprView::Case {
            operand: match operand {
                Some(e) => Some(Box::new(sql_expr_view(*e))),
                None => None,
            },
            conditions: sql_branches_view(conditions@),
            else_result: match else_result {
                Some(e) => Some(Box::new(sql_expr_view(*e))),
                None => None,
            },
        },
        SqlExpr::Cast { expr, data_type } => SqlExprView::Cast {
            expr: Box::new(sql_expr_view(*expr)),
            data_type: data_type@,
        },
        SqlExpr::Nested(e) => SqlExprView::Nested(Box::new(sql_expr_view(*e))),
        SqlExpr::Other(s) => SqlExprView::Other(s@),
    }
}

/// What the arguments of a call hold.
pub open spec fn sql_arguments_view(a: SqlArguments) -> SqlArgumentsView
    decreases a,
{
    match a {
        SqlArguments::Absent => SqlArgumentsView::Absent,
        SqlArguments::List { args, distinct } => SqlArgumentsView::List {
            args: sql_argument_list_view(args@),
            distinct,
        },
        SqlArguments::Other => SqlArgumentsView::Other,
    }
}

/// What a list of arguments holds.
pub open spec fn sql_argument_list_view(s: Seq<SqlArgument>) -> Seq<SqlArgumentView>
    decreases s,
{
    Seq::new(
        s.len(),
        |i: int|
            if 0 <= i < s.len() {
                sql_argument_view(s[i])
            } else {
                SqlArgumentView::Other
            },
    )
}

/// What an argument of a call holds.
pub open spec fn sql_argument_view(a: SqlArgument) -> SqlArgumentView
    decreases a,
{
    match a {
        SqlArgument::Expr(e) => SqlArgumentView::Expr(sql_expr_view(e)),
        SqlArgument::Wildcard => SqlArgumentView::Wildcard,
        SqlArgument::Other => SqlArgumentView::Other,
    }
}

/// What the branches of a CASE hold.
pub open spec fn sql_branches_view(s: Seq<(SqlExpr, SqlExpr)>) -> Seq<(SqlExprView, SqlExprView)>
    decreases s,
{
    Seq::new(
        s.len(),
        |i: int|
            if 0 <= i < s.len() {
                (sql_expr_view(s[i].0), sql_expr_view(s[i].1))
            } else {
                (SqlExprView::Identifier(Seq::empty()), SqlExprView::Identifier(Seq::empty()))
            },
    )
}

impl View for SqlExpr {
    type V = SqlExprView;

    open spec fn view(&self) -> SqlExprView {
        sql_expr_view(*self)
    }
}

impl View for SqlArguments {
    type V = SqlArgumentsView;

    open spec fn view(&self) -> SqlArgumentsView {
        sql_arguments_view(*self)
    }
}

impl View for SqlArgument {
    type V = SqlArgumentView;

    open spec fn view(&self) -> SqlArgumentView {
        sql_argument_view(*self)
    }
}

/// What branches hold, one by one.
pub open spec fn branch_pairs(s: Seq<(SqlExpr, SqlExpr)>) -> Seq<(SqlExprView, SqlExprView)> {
    s.map_values(|b: (SqlExpr, SqlExpr)| (b.0@, b.1@))
}

/// What an optional expression holds.
pub open spec fn option_sql(e: Option<Box<SqlExpr>>) -> Option<Box<SqlExprView>> {
    match e {
        Some(e) => Some(Box::new((*e)@)),
        None => None,
    }
}

/// A list of arguments holds what its arguments hold.
pub broadcast proof fn lemma_sql_arguments_view(a: SqlArguments)
    ensures
        #![trigger a@]
        a is List ==> a@ == (SqlArgumentsView::List {
            args: views(a->args@),
            distinct: a->distinct,
        }),
{
    if a is List {
        assert(sql_argument_list_view(a->args@) =~= views(a->args@));
    }
}

/// A call and a CASE hold what is in them.
pub broadcast proof fn lemma_sql_expr_view(e: SqlExpr)
    ensures
        #![trigger e@]
        e is Function ==> e@ == (SqlExprView::Function {
            name: parts_view(e->name@),
            args: (e->args)@,
        }),
        e is Case ==> e@ == (SqlExprView::Case {
            operand: option_sql(e->operand),
            conditions: branch_pairs(e->conditions@),
            else_result: option_sql(e->else_result),
        }),
{
    if e is Case {
        assert(sql_branches_view(e->conditions@) =~= branch_pairs(e->conditions@));
    }
}

/// An item of a SELECT.
#[derive(Debug)]
pub enum SqlItem {
    Expr(SqlExpr),
    Alias { expr: SqlExpr, alias: String },
    /// All columns, of all sources or of one.
    Wildcard,
}

/// What a `SqlItem` holds.
pub enum SqlItemView {
    Expr(SqlExprView),
    Alias { expr: SqlExprView, alias: Seq<char> },
    Wildcard,
}

impl View for SqlItem {
    type V = SqlItemView;

    open spec fn view(&self) -> SqlItemView {
        match self {
            SqlItem::Expr(e) => SqlItemView::Expr(e@),
            SqlItem::Alias { expr, alias } => SqlItemView::Alias { expr: expr@, alias: alias@ },
            SqlItem::Wildcard => SqlItemView::Wildcard,
        }
    }
}

/// What is read in a FROM clause: a table by its name, or anything else by its
/// debug text.
#[derive(Debug)]
pub enum SqlRelation {
    Table(NameParts),
    Other(String),
}

/// What a `SqlRelation` holds.
pub enum SqlRelationView {
    Table(Seq<Option<Seq<char>>>),
    Other(Seq<char>),
}

impl View for SqlRelation {
    type V = SqlRelationView;

    open spec fn view(&self) -> SqlRelationView {
        match self {
            SqlRelation::Table(name) => SqlRelationView::Table(parts_view(name@)),
            SqlRelation::Other(s) => SqlRelationView::Other(s@),
        }
    }
}

/// The kind of a join, by the words that it is written with.
#[derive(Clone, Copy, Debug, PartialEq, Eq, Structural)]
pub enum SqlJoinKind {
    Inner,
    Left,
    LeftOuter,
    Right,
    RightOuter,
    FullOuter,
    /// Any other.
    Other,
}

/// A join of what is before it.
#[derive(Debug)]
pub struct SqlJoin {
    pub relation: SqlRelation,
    pub kind: SqlJoinKind,
    /// The condition, where it is given by ON.
    pub on: Option<SqlExpr>,
}

/// What a `SqlJoin` holds.
pub struct SqlJoinView {
    pub relation: SqlRelationView,
    pub kind: SqlJoinKind,
    pub on: Option<SqlExprView>,
}

/// What an optional expression holds.
pub open spec fn optional(e: Option<SqlExpr>) -> Option<SqlExprView> {
    match e {
        Some(e) => Some(e@),
        None => None,
    }
}

impl View for SqlJoin {
    type V = SqlJoinView;

    open spec fn view(&self) -> SqlJoinView {
        SqlJoinView { relation: self.relation@, kind: self.kind, on: optional(self.on) }
    }
}

/// A relation and the joins behind it.
#[derive(Debug)]
pub struct SqlTable {
    pub relation: SqlRelation,
    pub joins: Vec<SqlJoin>,
}

/// What a `SqlTable` holds.
pub struct SqlTableView {
    pub relation: SqlRelationView,
    pub joins: Seq<SqlJoinView>,
}

impl View for SqlTable {
    type V = SqlTableView;

    open spec fn view(&self) -> SqlTableView {
        SqlTableView { relation: self.relation@, joins: views(self.joins@) }
    }
}

/// A GROUP BY clause.
#[derive(Debug)]
pub enum SqlGroupBy {
    Expressions(Vec<SqlExpr>),
    All,
}

/// What a `SqlGroupBy` holds.
pub enum SqlGroupByView {
    Expressions(Seq<SqlExprView>),
    All,
}

impl View for SqlGroupBy {
    type V = SqlGroupByView;

    open spec fn view(&self) -> SqlGroupByView {
        match self {
            SqlGroupBy::Expressions(e) => SqlGroupByView::Expressions(views(e@)),
            SqlGroupBy::All => SqlGroupByView::All,
        }
    }
}

/// A SELECT.
#[derive(Debug)]
pub struct SqlSelect {
    pub from: Vec<SqlTable>,
    pub selection: Option<SqlExpr>,
    pub group_by: SqlGroupBy,
    pub projection: Vec<SqlItem>,
    pub having: Option<SqlExpr>,
}

/// What a `SqlSelect` holds.
pub struct SqlSelectView {
    pub from: Seq<SqlTableView>,
    pub selection: Option<SqlExprView>,
    pub group_by: SqlGroupByView,
    pub projection: Seq<SqlItemView>,
    pub having: Option<SqlExprView>,
}

impl View for SqlSelect {
    type V = SqlSelectView;

    open spec fn view(&self) -> SqlSelectView {
        SqlSelectView {
            from: views(self.from@),
            selection: optional(self.selection),
            group_by: self.group_by@,
            projection: views(self.projection@),
            having: optional(self.having),
        }
    }
}

/// A query: a SELECT, or anything else by the debug text of its body.
#[derive(Debug)]
pub enum SqlQuery {
    Select(SqlSelect),
    Other(String),
}

/// What a `SqlQuery` holds.
pub enum SqlQueryView {
    Select(SqlSelectView),
    Other(Seq<char>),
}

impl View for SqlQuery {
    type V = SqlQueryView;

    open spec fn view(&self) -> SqlQueryView {
        match self {
            SqlQuery::Select(s) => SqlQueryView::Select(s@),
            SqlQuery::Other(s) => SqlQueryView::Other(s@),
        }
    }
}

/// A property in a WITH clause: its name, its value, and the text of the value.
#[derive(Debug)]
pub struct SqlProperty {
    pub key: String,
    pub value: SqlExpr,
    pub text: String,
}

/// What a `SqlProperty` holds.
pub struct SqlPropertyView {
    pub key: Seq<char>,
    pub value: SqlExprView,
    pub text: Seq<char>,
}

impl View for SqlProperty {
    type V = SqlPropertyView;

    open spec fn view(&self) -> SqlPropertyView {
        SqlPropertyView { key: self.key@, value: self.value@, text: self.text@ }
    }
}

/// A column of a CREATE TABLE.
#[derive(Debug)]
pub struct SqlColumn {
    pub name: String,
    pub data_type: SqlType,
}

/// What a `SqlColumn` holds.
pub struct SqlColumnView {
    pub name: Seq<char>,
    pub data_type: SqlTypeView,
}

impl View for SqlColumn {
    type V = SqlColumnView;

    open spec fn view(&self) -> SqlColumnView {
        SqlColumnView { name: self.name@, data_type: self.data_type@ }
    }
}

/// A CREATE TABLE. An option that is not a property is left out by `None`.
#[derive(Debug)]
pub struct SqlCreateTable {
    pub name: NameParts,
    pub options: Vec<Option<SqlProperty>>,
    pub columns: Vec<SqlColumn>,
    pub query: Option<SqlQuery>,
    /// Whether the table is an external one.
    pub external: bool,
    /// Whether it has a location.
    pub located: bool,
}

/// What a `SqlCreateTable` holds.
pub struct SqlCreateTableView {
    pub name: Seq<Option<Seq<char>>>,
    pub options: Seq<Option<SqlPropertyView>>,
    pub columns: Seq<SqlColumnView>,
    pub query: Option<SqlQueryView>,
    pub external: bool,
    pub located: bool,
}

/// What options hold.
pub open spec fn options_view(s: Seq<Option<SqlProperty>>) -> Seq<Option<SqlPropertyView>> {
    s.map_values(
        |o: Option<SqlProperty>|
            match o {
                Some(p) => Some(p@),
                None => None::<SqlPropertyView>,
            },
    )
}

/// What an optional query holds.
pub open spec fn optional_query(q: Option<SqlQuery>) -> Option<SqlQueryView> {
    match q {
        Some(q) => Some(q@),
        None => None,
    }
}

impl View for SqlCreateTable {
    type V = SqlCreateTableView;

    open spec fn view(&self) -> SqlCreateTableView {
        SqlCreateTableView {
            name: parts_view(self.name@),
            options: options_view(self.options@),
            columns: views(self.columns@),
            query: optional_query(self.query),
            external: self.external,
            located: self.located,
        }
    }
}

/// A statement: one that can be translated, or any other by its text.
#[derive(Debug)]
pub enum SqlStatement {
    CreateTable(SqlCreateTable),
    Query(SqlQuery),
    /// Any other, by its text.
    Other(String),
    /// Any other that cannot be shown.
    Hidden,
}

/// What a `SqlStatement` holds.
pub enum SqlStatementView {
    CreateTable(SqlCreateTableView),
    Query(SqlQueryView),
    Other(Seq<char>),
    Hidden,
}

impl View for SqlStatement {
    type V = SqlStatementView;

    open spec fn view(&self) -> SqlStatementView {
        match self {
            SqlStatement::CreateTable(c) => SqlStatementView::CreateTable(c@),
            SqlStatement::Query(q) => SqlStatementView::Query(q@),
            SqlStatement::Other(s) => SqlStatementView::Other(s@),
            SqlStatement::Hidden => SqlStatementView::Hidden,
        }
    }
}

} // verus!
