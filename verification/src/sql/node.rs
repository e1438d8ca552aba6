//! The syntax trees of `sqlparser`, one level at a time.
//!
//! A tree is opaque here. What it holds is named, and a function for each kind of
//! node tells the node's own parts apart.
use crate::sql::ast::{
    parts_view, NameParts, SqlArgumentView, SqlArgumentsView, SqlColumnView, SqlCreateTableView,
    SqlExprView, SqlGroupByView, SqlItemView, SqlJoinKind, SqlJoinView, SqlPropertyView,
    SqlQueryView, SqlRelationView, SqlSelectView, SqlStatementView, SqlTableView, SqlType,
    SqlTypeView, SqlValue, SqlValueView,
};
use crate::sql::dialect::KsqlDialect;
use crate::sql::tokens::{SqlToken, SqlTokenView};
use crate::value::views;
use sqlparser::ast::{
    ArrayElemTypeDef, ColumnDef, CreateTable, CreateTableOptions, DataType as AstType,
    DuplicateTreatment, Expr as AstExpr, Function, FunctionArg, FunctionArgExpr,
    FunctionArguments, GroupByExpr, Join, JoinConstraint, JoinOperator, ObjectName, Query,
    visit_statements, SelectItem, SetExpr, SqlOption, Statement, TableFactor, TableWithJoins,
    Value as AstValue, ValueWithSpan,
};
use sqlparser::parser::{Parser, ParserError};
use sqlparser::tokenizer::Token;
use std::ops::ControlFlow;
use vstd::prelude::*;

verus! {

/// A name of `sqlparser`.
#[verifier::external_type_specification]
#[verifier::external_body]
pub struct ExObjectName(ObjectName);

/// A literal of `sqlparser`.
#[verifier::external_type_specification]
#[verifier::external_body]
pub struct ExValueWithSpan(ValueWithSpan);

/// A type of `sqlparser`.
#[verifier::external_type_specification]
#[verifier::external_body]
pub struct ExAstType(AstType);

/// An expression of `sqlparser`.
#[verifier::external_type_specification]
#[verifier::external_body]
pub struct ExAstExpr(AstExpr);

/// A call of `sqlparser`.
#[verifier::external_type_specification]
#[verifier::external_body]
pub struct ExFunction(Function);

/// An argument of `sqlparser`.
#[verifier::external_type_specification]
#[verifier::external_body]
pub struct ExFunctionArg(FunctionArg);

/// An item of a SELECT of `sqlparser`.
#[verifier::external_type_specification]
#[verifier::external_body]
pub struct ExSelectItem(SelectItem);

/// A relation of `sqlparser`.
#[verifier::external_type_specification]
#[verifier::external_body]
pub struct ExTableFactor(TableFactor);

/// A join of `sqlparser`.
#[verifier::external_type_specification]
#[verifier::external_body]
pub struct ExJoin(Join);

/// A relation with joins of `sqlparser`.
#[verifier::external_type_specification]
#[verifier::external_body]
pub struct ExTableWithJoins(TableWithJoins);

/// A query of `sqlparser`.
#[verifier::external_type_specification]
#[verifier::external_body]
pub struct ExQuery(Query);

/// An option of `sqlparser`.
#[verifier::external_type_specification]
#[verifier::external_body]
pub struct ExSqlOption(SqlOption);

/// A column of a CREATE TABLE of `sqlparser`.
#[verifier::external_type_specification]
#[verifier::external_body]
pub struct ExColumnDef(ColumnDef);

/// A CREATE TABLE of `sqlparser`.
#[verifier::external_type_specification]
#[verifier::external_body]
pub struct ExCreateTable(CreateTable);

/// A statement of `sqlparser`.
#[verifier::external_type_specification]
#[verifier::external_body]
pub struct ExStatement(Statement);

/// A parser of `sqlparser`.
#[verifier::external_type_specification]
#[verifier::external_body]
pub struct ExParser<'a>(Parser<'a>);

/// An error of `sqlparser`.
#[verifier::external_type_specification]
#[verifier::external_body]
pub struct ExParserError(ParserError);

/// A token of `sqlparser`.
#[verifier::external_type_specification]
#[verifier::external_body]
pub struct ExToken(Token);

/// The parts of a name: the text of each that is an identifier.
pub uninterp spec fn name_contents(n: ObjectName) -> Seq<Option<Seq<char>>>;

/// What a literal holds.
pub uninterp spec fn value_contents(v: ValueWithSpan) -> SqlValueView;

/// What a type holds.
pub uninterp spec fn type_contents(t: AstType) -> SqlTypeView;

/// What an expression holds.
pub uninterp spec fn expr_contents(e: AstExpr) -> SqlExprView;

/// The arguments of a call.
pub uninterp spec fn function_contents(f: Function) -> SqlArgumentsView;

/// What an argument holds.
pub uninterp spec fn argument_contents(a: FunctionArg) -> SqlArgumentView;

/// What an item of a SELECT holds.
pub uninterp spec fn item_contents(i: SelectItem) -> SqlItemView;

/// What a relation holds.
pub uninterp spec fn relation_contents(r: TableFactor) -> SqlRelationView;

/// What a join holds.
pub uninterp spec fn join_contents(j: Join) -> SqlJoinView;

/// What a relation with joins holds.
pub uninterp spec fn table_contents(t: TableWithJoins) -> SqlTableView;

/// What a query holds.
pub uninterp spec fn query_contents(q: Query) -> SqlQueryView;

/// What an option holds, if it is a property.
pub uninterp spec fn option_contents(o: SqlOption) -> Option<SqlPropertyView>;

/// What a column holds.
pub uninterp spec fn column_contents(c: ColumnDef) -> SqlColumnView;

/// What a CREATE TABLE holds.
pub uninterp spec fn create_contents(c: CreateTable) -> SqlCreateTableView;

/// What a statement holds. One that is neither a CREATE TABLE nor a query is told by its
/// `Display`, but for those in which an external table without a location is created,
/// whose `Display` does not return: these are hidden.
pub uninterp spec fn statement_contents(s: Statement) -> SqlStatementView;

/// What a token holds.
pub uninterp spec fn token_contents(t: Token) -> SqlTokenView;

/// The tokens that a parser reads next, without white space and comments.
pub uninterp spec fn upcoming(p: Parser) -> Seq<SqlTokenView>;

/// What an error says.
pub uninterp spec fn error_contents(e: ParserError) -> Seq<char>;

/// What tokens hold.
pub open spec fn token_list(s: Seq<Token>) -> Seq<SqlTokenView> {
    s.map_values(|t: Token| token_contents(t))
}

/// `Parser::peek_tokens`: the next five tokens, with the end of the text for those that
/// are not there. They are named.
#[verifier::external_body]
pub(crate) fn peek_tokens(parser: &Parser) -> (r: Vec<Token>)
    ensures
        token_list(r@) == upcoming(*parser),
        r@.len() == 5,
{
    parser.peek_tokens::<5>().to_vec()
}

/// The variant `ParserError` of `ParserError`, which holds a message.
#[verifier::external_body]
pub(crate) fn parser_error(message: &str) -> (r: ParserError)
    ensures
        error_contents(r) == message@,
{
    ParserError::ParserError(message.to_owned())
}

/// The variants of `Token`: a word by the `Debug` of its keyword, which is `NoKeyword`
/// where it has none.
#[verifier::external_body]
pub(crate) fn token_node(t: &Token) -> (r: SqlToken)
    ensures
        r@ == token_contents(*t),
{
    match t {
        Token::Word(w) => SqlToken::Word(format!("{:?}", w.keyword)),
        Token::SingleQuotedString(_) => SqlToken::Text,
        Token::DoubleQuotedString(_) => SqlToken::Text,
        Token::Colon => SqlToken::Colon,
        _ => SqlToken::Other,
    }
}

/// The statements that `sqlparser` reads in a text with this dialect, or the message
/// of its error.
pub uninterp spec fn sql_statements(sql: Seq<char>) -> Result<Seq<SqlStatementView>, Seq<char>>;

/// What statements hold.
pub open spec fn statement_list(s: Seq<Statement>) -> Seq<SqlStatementView> {
    s.map_values(|x: Statement| statement_contents(x))
}

/// What expressions hold.
pub open spec fn expr_list(s: Seq<&AstExpr>) -> Seq<SqlExprView> {
    s.map_values(|x: &AstExpr| expr_contents(*x))
}

/// What an optional expression holds.
pub open spec fn expr_option(e: Option<&AstExpr>) -> Option<SqlExprView> {
    match e {
        Some(e) => Some(expr_contents(*e)),
        None => None,
    }
}

/// What an optional expression holds, in a box.
pub open spec fn expr_box(e: Option<&AstExpr>) -> Option<Box<SqlExprView>> {
    match e {
        Some(e) => Some(Box::new(expr_contents(*e))),
        None => None,
    }
}

/// What the branches of a CASE hold.
pub open spec fn branch_list(s: Seq<(&AstExpr, &AstExpr)>) -> Seq<(SqlExprView, SqlExprView)> {
    s.map_values(|b: (&AstExpr, &AstExpr)| (expr_contents(*b.0), expr_contents(*b.1)))
}

/// What arguments hold.
pub open spec fn argument_list(s: Seq<&FunctionArg>) -> Seq<SqlArgumentView> {
    s.map_values(|x: &FunctionArg| argument_contents(*x))
}

/// What items of a SELECT hold.
pub open spec fn item_list(s: Seq<&SelectItem>) -> Seq<SqlItemView> {
    s.map_values(|x: &SelectItem| item_contents(*x))
}

/// What joins hold.
pub open spec fn join_list(s: Seq<&Join>) -> Seq<SqlJoinView> {
    s.map_values(|x: &Join| join_contents(*x))
}

/// What relations with joins hold.
pub open spec fn table_list(s: Seq<&TableWithJoins>) -> Seq<SqlTableView> {
    s.map_values(|x: &TableWithJoins| table_contents(*x))
}

/// What options hold.
pub open spec fn option_list(s: Seq<&SqlOption>) -> Seq<Option<SqlPropertyView>> {
    s.map_values(|x: &SqlOption| option_contents(*x))
}

/// What columns hold.
pub open spec fn column_list(s: Seq<&ColumnDef>) -> Seq<SqlColumnView> {
    s.map_values(|x: &ColumnDef| column_contents(*x))
}

/// `Parser::parse_sql` with the dialect. What is read is named; an error is told by
/// its `Display`. The one place where the parser does not return, a SET of an
/// AUTHORIZATION without a scope, is not reached: the dialect answers for such a
/// statement.
#[verifier::external_body]
pub(crate) fn parse_sql(sql: &str) -> (r: Result<Vec<Statement>, String>)
    ensures
        sql_statements(sql@) == (match r {
            Ok(s) => Ok(statement_list(s@)),
            Err(e) => Err(e@),
        }),
{
    Parser::parse_sql(&KsqlDialect, sql).map_err(|e| e.to_string())
}

/// One level of a statement.
pub enum StatementNode<'a> {
    CreateTable(&'a CreateTable),
    Query(&'a Query),
    Other,
}

/// The variants `CreateTable` and `Query` of `Statement`, and any other.
#[verifier::external_body]
pub(crate) fn statement_node(s: &Statement) -> (r: StatementNode<'_>)
    ensures
        match r {
            StatementNode::CreateTable(c) => statement_contents(*s)
                == SqlStatementView::CreateTable(create_contents(*c)),
            StatementNode::Query(q) => statement_contents(*s) == SqlStatementView::Query(
                query_contents(*q),
            ),
            StatementNode::Other => statement_contents(*s) is Other || statement_contents(
                *s,
            ) is Hidden,
        },
{
    match s {
        Statement::CreateTable(c) => StatementNode::CreateTable(c),
        Statement::Query(q) => StatementNode::Query(q),
        _ => StatementNode::Other,
    }
}

/// Whether a statement creates an external table without a location.
pub open spec fn lacks_location(s: SqlStatementView) -> bool {
    s matches SqlStatementView::CreateTable(c) && c.external && !c.located
}

/// Looks at a statement, and goes on to the next unless it creates an external table
/// without a location.
pub fn look_at(s: &Statement) -> (r: ControlFlow<()>)
    ensures
        r is Break <==> lacks_location(statement_contents(*s)),
{
    match statement_node(s) {
        StatementNode::CreateTable(c) => {
            let table = create_table_node(c);
            if table.external && !table.located {
                ControlFlow::Break(())
            } else {
                ControlFlow::Continue(())
            }
        },
        _ => ControlFlow::Continue(()),
    }
}

/// `visit_statements` on a statement and all that stand in it. It breaks off at the
/// first that creates an external table without a location.
#[verifier::external_body]
pub(crate) fn can_be_shown(s: &Statement) -> (r: bool)
    ensures
        r ==> !(statement_contents(*s) is Hidden),
        !r ==> !(statement_contents(*s) is Other),
{
    visit_statements(s, |n| look_at(n)).is_continue()
}

/// The `Display` of a `Statement` that is neither a CREATE TABLE nor a query, and in
/// which no external table without a location is created.
#[verifier::external_body]
pub(crate) fn statement_text(s: &Statement) -> (r: String)
    requires
        statement_contents(*s) is Other,
    ensures
        statement_contents(*s) == SqlStatementView::Other(r@),
{
    s.to_string()
}

/// One level of a CREATE TABLE.
pub struct CreateTableNode<'a> {
    pub name: &'a ObjectName,
    pub options: Vec<&'a SqlOption>,
    pub columns: Vec<&'a ColumnDef>,
    pub query: Option<&'a Query>,
    pub external: bool,
    pub located: bool,
}

/// What one level of a CREATE TABLE holds.
pub open spec fn create_node_view(n: CreateTableNode) -> SqlCreateTableView {
    SqlCreateTableView {
        name: name_contents(*n.name),
        options: option_list(n.options@),
        columns: column_list(n.columns@),
        query: match n.query {
            Some(q) => Some(query_contents(*q)),
            None => None,
        },
        external: n.external,
        located: n.located,
    }
}

/// The fields `name`, `table_options`, `columns`, `query` and `external` of
/// `CreateTable`, and whether it has a `location`. The options are those of any variant
/// of `CreateTableOptions`.
#[verifier::external_body]
pub(crate) fn create_table_node(c: &CreateTable) -> (r: CreateTableNode<'_>)
    ensures
        create_node_view(r) == create_contents(*c),
{
    let options = match &c.table_options {
        CreateTableOptions::With(o) => o.iter().collect(),
        CreateTableOptions::Options(o) => o.iter().collect(),
        CreateTableOptions::Plain(o) => o.iter().collect(),
        CreateTableOptions::TableProperties(o) => o.iter().collect(),
        CreateTableOptions::None => Vec::new(),
    };
    let columns = c.columns.iter().collect();
    let query = c.query.as_deref();
    let located = c.location.is_some();
    CreateTableNode { name: &c.name, options, columns, query, external: c.external, located }
}

/// The variant `KeyValue` of `SqlOption`, with the `Display` of its value.
#[verifier::external_body]
pub(crate) fn option_node(o: &SqlOption) -> (r: Option<(String, &AstExpr, String)>)
    ensures
        option_contents(*o) == (match r {
            Some((key, value, text)) => Some(
                SqlPropertyView { key: key@, value: expr_contents(*value), text: text@ },
            ),
            None => None,
        }),
{
    match o {
        SqlOption::KeyValue { key, value } => Some((key.value.clone(), value, value.to_string())),
        _ => None,
    }
}

/// The fields `name` and `data_type` of `ColumnDef`.
#[verifier::external_body]
pub(crate) fn column_node(c: &ColumnDef) -> (r: (String, &AstType))
    ensures
        column_contents(*c) == (SqlColumnView { name: r.0@, data_type: type_contents(*r.1) }),
{
    (c.name.value.clone(), &c.data_type)
}

/// The parts of an `ObjectName`, by `ObjectNamePart::as_ident`.
#[verifier::external_body]
pub(crate) fn name_node(n: &ObjectName) -> (r: NameParts)
    ensures
        parts_view(r@) == name_contents(*n),
{
    n.0.iter().map(|p| p.as_ident().map(|i| i.value.clone())).collect()
}

/// Whether a type has no type within it that matters here.
pub open spec fn is_scalar(t: SqlTypeView) -> bool {
    !(t is Array) && !(t is Other)
}

/// The variants of `DataType` that stand for a type without another in it. Lengths
/// and precisions are left out.
#[verifier::external_body]
pub(crate) fn scalar_type_node(t: &AstType) -> (r: Option<SqlType>)
    ensures
        match r {
            Some(s) => is_scalar(s@) && type_contents(*t) == s@,
            None => !is_scalar(type_contents(*t)),
        },
{
    match t {
        AstType::Boolean => Some(SqlType::Boolean),
        AstType::Int(_) => Some(SqlType::Int),
        AstType::Integer(_) => Some(SqlType::Integer),
        AstType::BigInt(_) => Some(SqlType::BigInt),
        AstType::Float(_) => Some(SqlType::Float),
        AstType::Double(_) => Some(SqlType::Double),
        AstType::DoublePrecision => Some(SqlType::DoublePrecision),
        AstType::Varchar(_) => Some(SqlType::Varchar),
        AstType::Text => Some(SqlType::Text),
        AstType::String(_) => Some(SqlType::String),
        AstType::Timestamp(_, _) => Some(SqlType::Timestamp),
        _ => None,
    }
}

/// The variant `Array` of `DataType`, with the type of the elements where one is
/// given.
#[verifier::external_body]
pub(crate) fn array_type_node(t: &AstType) -> (r: Option<Option<&AstType>>)
    ensures
        match r {
            Some(Some(inner)) => type_contents(*t) == SqlTypeView::Array(
                Some(Box::new(type_contents(*inner))),
            ),
            Some(None) => type_contents(*t) == SqlTypeView::Array(None),
            None => !(type_contents(*t) is Array),
        },
{
    match t {
        AstType::Array(ArrayElemTypeDef::AngleBracket(inner)) => Some(Some(inner)),
        AstType::Array(ArrayElemTypeDef::SquareBracket(inner, _)) => Some(Some(inner)),
        AstType::Array(ArrayElemTypeDef::Parenthesis(inner)) => Some(Some(inner)),
        AstType::Array(ArrayElemTypeDef::None) => Some(None),
        _ => None,
    }
}

/// The `Debug` text of a `DataType`, by which one of another variant is told.
#[verifier::external_body]
pub(crate) fn type_text(t: &AstType) -> (r: String)
    ensures
        type_contents(*t) is Other ==> type_contents(*t) == SqlTypeView::Other(r@),
{
    format!("{t:?}")
}

/// One level of a SELECT. A GROUP BY ALL has no expressions.
pub struct SelectNode<'a> {
    pub from: Vec<&'a TableWithJoins>,
    pub selection: Option<&'a AstExpr>,
    pub group_by: Option<Vec<&'a AstExpr>>,
    pub projection: Vec<&'a SelectItem>,
    pub having: Option<&'a AstExpr>,
}

/// What one level of a SELECT holds.
pub open spec fn select_node_view(n: SelectNode) -> SqlSelectView {
    SqlSelectView {
        from: table_list(n.from@),
        selection: expr_option(n.selection),
        group_by: match n.group_by {
            Some(e) => SqlGroupByView::Expressions(expr_list(e@)),
            None => SqlGroupByView::All,
        },
        projection: item_list(n.projection@),
        having: expr_option(n.having),
    }
}

/// The body of a `Query`: of a `Select` the fields `from`, `selection`, `group_by`,
/// `projection` and `having`, of any other its `Debug` text.
#[verifier::external_body]
pub(crate) fn query_node(q: &Query) -> (r: Result<SelectNode<'_>, String>)
    ensures
        query_contents(*q) == (match r {
            Ok(n) => SqlQueryView::Select(select_node_view(n)),
            Err(text) => SqlQueryView::Other(text@),
        }),
{
    match q.body.as_ref() {
        SetExpr::Select(s) => Ok(SelectNode {
            from: s.from.iter().collect(),
            selection: s.selection.as_ref(),
            group_by: match &s.group_by {
                GroupByExpr::Expressions(e, _) => Some(e.iter().collect()),
                GroupByExpr::All(_) => None,
            },
            projection: s.projection.iter().collect(),
            having: s.having.as_ref(),
        }),
        body => Err(format!("{body:?}")),
    }
}

/// The fields of `TableWithJoins`.
#[verifier::external_body]
pub(crate) fn table_node(t: &TableWithJoins) -> (r: (&TableFactor, Vec<&Join>))
    ensures
        table_contents(*t) == (SqlTableView {
            relation: relation_contents(*r.0),
            joins: join_list(r.1@),
        }),
{
    (&t.relation, t.joins.iter().collect())
}

/// The name in the variant `Table` of `TableFactor`, and the `Debug` text of any
/// other.
#[verifier::external_body]
pub(crate) fn relation_node(f: &TableFactor) -> (r: Result<&ObjectName, String>)
    ensures
        relation_contents(*f) == (match r {
            Ok(name) => SqlRelationView::Table(name_contents(*name)),
            Err(text) => SqlRelationView::Other(text@),
        }),
{
    match f {
        TableFactor::Table { name, .. } => Ok(name),
        _ => Err(format!("{f:?}")),
    }
}

/// One level of a join.
pub struct JoinNode<'a> {
    pub relation: &'a TableFactor,
    pub kind: SqlJoinKind,
    pub on: Option<&'a AstExpr>,
}

/// The fields `relation` and `join_operator` of `Join`: the kind of the operator and
/// the expression of its constraint, where that is an `On`. The constraint of a kind
/// that is not told apart is left out.
#[verifier::external_body]
pub(crate) fn join_node(j: &Join) -> (r: JoinNode<'_>)
    ensures
        join_contents(*j) == (SqlJoinView {
            relation: relation_contents(*r.relation),
            kind: r.kind,
            on: expr_option(r.on),
        }),
{
    let (kind, constraint) = match &j.join_operator {
        JoinOperator::Inner(c) => (SqlJoinKind::Inner, c),
        JoinOperator::Left(c) => (SqlJoinKind::Left, c),
        JoinOperator::LeftOuter(c) => (SqlJoinKind::LeftOuter, c),
        JoinOperator::Right(c) => (SqlJoinKind::Right, c),
        JoinOperator::RightOuter(c) => (SqlJoinKind::RightOuter, c),
        JoinOperator::FullOuter(c) => (SqlJoinKind::FullOuter, c),
        _ => (SqlJoinKind::Other, &JoinConstraint::None),
    };
    let on = match constraint {
        JoinConstraint::On(e) => Some(e),
        _ => None,
    };
    JoinNode { relation: &j.relation, kind, on }
}

/// One level of an item of a SELECT.
pub enum ItemNode<'a> {
    Expr(&'a AstExpr),
    Alias(&'a AstExpr, String),
    Wildcard,
}

/// What one level of an item holds.
pub open spec fn item_node_view(n: ItemNode) -> SqlItemView {
    match n {
        ItemNode::Expr(e) => SqlItemView::Expr(expr_contents(*e)),
        ItemNode::Alias(e, alias) => SqlItemView::Alias { expr: expr_contents(*e), alias: alias@ },
        ItemNode::Wildcard => SqlItemView::Wildcard,
    }
}

/// The variant of a `SelectItem`.
#[verifier::external_body]
pub(crate) fn item_node(i: &SelectItem) -> (r: ItemNode<'_>)
    ensures
        item_node_view(r) == item_contents(*i),
{
    match i {
        SelectItem::UnnamedExpr(e) => ItemNode::Expr(e),
        SelectItem::ExprWithAlias { expr, alias } => ItemNode::Alias(expr, alias.value.clone()),
        SelectItem::QualifiedWildcard(_, _) => ItemNode::Wildcard,
        SelectItem::Wildcard(_) => ItemNode::Wildcard,
    }
}

/// The value of a `ValueWithSpan`: a number and a text by what they hold, a literal
/// of another variant by the `Debug` text of the whole.
#[verifier::external_body]
pub(crate) fn value_node(v: &ValueWithSpan) -> (r: SqlValue)
    ensures
        r@ == value_contents(*v),
{
    match &v.value {
        AstValue::Number(n, _) => SqlValue::Number(n.clone()),
        AstValue::SingleQuotedString(s) => SqlValue::SingleQuotedString(s.clone()),
        AstValue::DoubleQuotedString(s) => SqlValue::DoubleQuotedString(s.clone()),
        AstValue::Boolean(b) => SqlValue::Boolean(*b),
        AstValue::Null => SqlValue::Null,
        _ => SqlValue::Other(format!("{v:?}")),
    }
}

/// One level of the arguments of a call.
pub enum ArgumentsNode<'a> {
    Absent,
    List(Vec<&'a FunctionArg>, bool),
    Other,
}

/// What one level of the arguments of a call holds.
pub open spec fn arguments_node_view(n: ArgumentsNode) -> SqlArgumentsView {
    match n {
        ArgumentsNode::Absent => SqlArgumentsView::Absent,
        ArgumentsNode::List(args, distinct) => SqlArgumentsView::List {
            args: argument_list(args@),
            distinct,
        },
        ArgumentsNode::Other => SqlArgumentsView::Other,
    }
}

/// The variant of the field `args` of `Function`: of a list the arguments, and
/// whether its `duplicate_treatment` is `Distinct`.
#[verifier::external_body]
pub(crate) fn arguments_node(f: &Function) -> (r: ArgumentsNode<'_>)
    ensures
        arguments_node_view(r) == function_contents(*f),
{
    match &f.args {
        FunctionArguments::None => ArgumentsNode::Absent,
        FunctionArguments::List(l) => ArgumentsNode::List(
            l.args.iter().collect(),
            matches!(l.duplicate_treatment, Some(DuplicateTreatment::Distinct)),
        ),
        FunctionArguments::Subquery(_) => ArgumentsNode::Other,
    }
}

/// One level of an argument.
pub enum ArgumentNode<'a> {
    Expr(&'a AstExpr),
    Wildcard,
    Other,
}

/// What one level of an argument holds.
pub open spec fn argument_node_view(n: ArgumentNode) -> SqlArgumentView {
    match n {
        ArgumentNode::Expr(e) => SqlArgumentView::Expr(expr_contents(*e)),
        ArgumentNode::Wildcard => SqlArgumentView::Wildcard,
        ArgumentNode::Other => SqlArgumentView::Other,
    }
}

/// The variants of `FunctionArg`: an expression or a `*` without a name, and any
/// other.
#[verifier::external_body]
pub(crate) fn argument_node(a: &FunctionArg) -> (r: ArgumentNode<'_>)
    ensures
        argument_node_view(r) == argument_contents(*a),
{
    match a {
        FunctionArg::Unnamed(FunctionArgExpr::Expr(e)) => ArgumentNode::Expr(e),
        FunctionArg::Unnamed(FunctionArgExpr::Wildcard) => ArgumentNode::Wildcard,
        _ => ArgumentNode::Other,
    }
}

/// One level of an expression. An operator is told by its `Debug` text.
pub enum ExprNode<'a> {
    Identifier(String),
    CompoundIdentifier(Vec<String>),
    Value(&'a ValueWithSpan),
    UnaryOp(String, &'a AstExpr),
    Nested(&'a AstExpr),
    IsNull(&'a AstExpr),
    IsNotNull(&'a AstExpr),
    BinaryOp(&'a AstExpr, String, &'a AstExpr),
    Like(bool, &'a AstExpr, &'a AstExpr),
    Between(&'a AstExpr, bool, &'a AstExpr, &'a AstExpr),
    Cast(&'a AstExpr, &'a AstType),
    Case(Option<&'a AstExpr>, Vec<(&'a AstExpr, &'a AstExpr)>, Option<&'a AstExpr>),
    Function(&'a ObjectName, &'a Function),
}

/// What one level of an expression holds.
pub open spec fn expr_node_view(n: ExprNode) -> SqlExprView {
    match n {
        ExprNode::Identifier(s) => SqlExprView::Identifier(s@),
        ExprNode::CompoundIdentifier(parts) => SqlExprView::CompoundIdentifier(views(parts@)),
        ExprNode::Value(v) => SqlExprView::Value(value_contents(*v)),
        ExprNode::UnaryOp(op, e) => SqlExprView::UnaryOp {
            op: op@,
            expr: Box::new(expr_contents(*e)),
        },
        ExprNode::Nested(e) => SqlExprView::Nested(Box::new(expr_contents(*e))),
        ExprNode::IsNull(e) => SqlExprView::IsNull(Box::new(expr_contents(*e))),
        ExprNode::IsNotNull(e) => SqlExprView::IsNotNull(Box::new(expr_contents(*e))),
        ExprNode::BinaryOp(left, op, right) => SqlExprView::BinaryOp {
            left: Box::new(expr_contents(*left)),
            op: op@,
            right: Box::new(expr_contents(*right)),
        },
        ExprNode::Like(negated, e, pattern) => SqlExprView::Like {
            negated,
            expr: Box::new(expr_contents(*e)),
            pattern: Box::new(expr_contents(*pattern)),
        },
        ExprNode::Between(e, negated, low, high) => SqlExprView::Between {
            expr: Box::new(expr_contents(*e)),
            negated,
            low: Box::new(expr_contents(*low)),
            high: Box::new(expr_contents(*high)),
        },
        ExprNode::Cast(e, t) => SqlExprView::Cast {
            expr: Box::new(expr_contents(*e)),
            data_type: type_contents(*t),
        },
        ExprNode::Case(operand, branches, otherwise) => SqlExprView::Case {
            operand: expr_box(operand),
            conditions: branch_list(branches@),
            else_result: expr_box(otherwise),
        },
        ExprNode::Function(name, f) => SqlExprView::Function {
            name: name_contents(*name),
            args: function_contents(*f),
        },
    }
}

/// Whether an expression is a name, a literal or has one operand.
pub open spec fn is_simple(e: SqlExprView) -> bool {
    e is Identifier || e is CompoundIdentifier || e is Value || e is UnaryOp || e is Nested
        || e is IsNull || e is IsNotNull
}

/// The variants `Identifier`, `CompoundIdentifier`, `Value`, `UnaryOp`, `Nested`,
/// `IsNull` and `IsNotNull` of `Expr`, if it is one of them.
#[verifier::external_body]
pub(crate) fn simple_node(e: &AstExpr) -> (r: Option<ExprNode<'_>>)
    ensures
        match r {
            Some(n) => expr_contents(*e) == expr_node_view(n),
            None => !is_simple(expr_contents(*e)),
        },
{
    match e {
        AstExpr::Identifier(i) => Some(ExprNode::Identifier(i.value.clone())),
        AstExpr::CompoundIdentifier(parts) => Some(ExprNode::CompoundIdentifier(
            parts.iter().map(|i| i.value.clone()).collect(),
        )),
        AstExpr::Value(v) => Some(ExprNode::Value(v)),
        AstExpr::UnaryOp { op, expr } => Some(ExprNode::UnaryOp(format!("{op:?}"), expr)),
        AstExpr::Nested(e) => Some(ExprNode::Nested(e)),
        AstExpr::IsNull(e) => Some(ExprNode::IsNull(e)),
        AstExpr::IsNotNull(e) => Some(ExprNode::IsNotNull(e)),
        _ => None,
    }
}

/// Whether an expression has two or three operands, or an operand and a type.
pub open spec fn is_compound(e: SqlExprView) -> bool {
    e is BinaryOp || e is Like || e is Between || e is Cast
}

/// The variants `BinaryOp`, `Like`, `Between` and `Cast` of `Expr`, if it is one of
/// them.
#[verifier::external_body]
pub(crate) fn compound_node(e: &AstExpr) -> (r: Option<ExprNode<'_>>)
    ensures
        match r {
            Some(n) => expr_contents(*e) == expr_node_view(n),
            None => !is_compound(expr_contents(*e)),
        },
{
    match e {
        AstExpr::BinaryOp { left, op, right } => {
            Some(ExprNode::BinaryOp(left, format!("{op:?}"), right))
        },
        AstExpr::Like { negated, expr, pattern, .. } => {
            Some(ExprNode::Like(*negated, expr, pattern))
        },
        AstExpr::Between { expr, negated, low, high } => {
            Some(ExprNode::Between(expr, *negated, low, high))
        },
        AstExpr::Cast { expr, data_type, .. } => Some(ExprNode::Cast(expr, data_type)),
        _ => None,
    }
}

/// The variants `Case` and `Function` of `Expr`, if it is one of them.
#[verifier::external_body]
pub(crate) fn list_node(e: &AstExpr) -> (r: Option<ExprNode<'_>>)
    ensures
        match r {
            Some(n) => expr_contents(*e) == expr_node_view(n),
            None => !(expr_contents(*e) is Case) && !(expr_contents(*e) is Function),
        },
{
    match e {
        AstExpr::Case { operand, conditions, else_result, .. } => Some(ExprNode::Case(
            operand.as_deref(),
            conditions.iter().map(|c| (&c.condition, &c.result)).collect(),
            else_result.as_deref(),
        )),
        AstExpr::Function(f) => Some(ExprNode::Function(&f.name, f)),
        _ => None,
    }
}

/// The `Debug` text of an `Expr`, by which one of another variant is told.
#[verifier::external_body]
pub(crate) fn expr_text(e: &AstExpr) -> (r: String)
    ensures
        expr_contents(*e) is Other ==> expr_contents(*e) == SqlExprView::Other(r@),
{
    format!("{e:?}")
}

} // verus!
