//! Reads the syntax trees of `sqlparser`.
use crate::error::Error;
use crate::sql::ast::{
    branch_pairs, lemma_sql_arguments_view, lemma_sql_expr_view, option_sql, optional, options_view,
    SqlArgument, SqlArguments, SqlColumn, SqlCreateTable, SqlExpr, SqlExprView, SqlGroupBy, SqlItem,
    SqlJoin, SqlProperty, SqlQuery, SqlRelation, SqlSelect, SqlStatement, SqlStatementView,
    SqlTable, SqlType, SqlTypeView,
};
use crate::sql::node::{
    argument_contents, argument_list, argument_node, arguments_node, array_type_node, branch_list,
    can_be_shown, column_contents, column_list, column_node, compound_node, create_contents,
    create_table_node, expr_box, expr_contents, expr_list, expr_node_view, expr_option, expr_text,
    function_contents, item_contents, item_list, item_node, join_contents, join_list, join_node,
    list_node, name_node, option_contents, option_list, option_node, parse_sql, query_contents,
    query_node, relation_contents, relation_node, scalar_type_node, simple_node, sql_statements,
    statement_contents, statement_list, statement_node, statement_text, table_contents, table_list,
    table_node, type_contents, type_text, value_node, ArgumentNode, ArgumentsNode, ExprNode,
    ItemNode, StatementNode,
};
use crate::value::views;
use sqlparser::ast::{
    ColumnDef, CreateTable, DataType as AstType, Expr as AstExpr, Function, FunctionArg, Join,
    Query, SelectItem, SqlOption, Statement, TableFactor, TableWithJoins,
};
use vstd::prelude::*;

verus! {

/// What is within a type is smaller than the type.
proof fn lemma_inner_type(t: SqlTypeView)
    ensures
        match t {
            SqlTypeView::Array(Some(inner)) => decreases_to!(t => *inner),
            _ => true,
        },
{
    if let SqlTypeView::Array(Some(inner)) = t {
        assert(decreases_to!(t => t->Array_0));
        assert(decreases_to!(t->Array_0 => t->Array_0->0));
    }
}

/// What is within an expression is smaller than the expression.
proof fn lemma_inner_expr(e: SqlExprView)
    ensures
        match e {
            SqlExprView::BinaryOp { left, right, .. } => decreases_to!(e => *left)
                && decreases_to!(e => *right),
            SqlExprView::UnaryOp { expr, .. } => decreases_to!(e => *expr),
            SqlExprView::Function { args, .. } => decreases_to!(e => args),
            SqlExprView::IsNull(x) => decreases_to!(e => *x),
            SqlExprView::IsNotNull(x) => decreases_to!(e => *x),
            SqlExprView::Like { expr, pattern, .. } => decreases_to!(e => *expr)
                && decreases_to!(e => *pattern),
            SqlExprView::Between { expr, low, high, .. } => decreases_to!(e => *expr)
                && decreases_to!(e => *low) && decreases_to!(e => *high),
            SqlExprView::Case { operand, conditions, else_result } => decreases_to!(e => operand)
                && decreases_to!(e => conditions) && decreases_to!(e => else_result),
            SqlExprView::Cast { expr, .. } => decreases_to!(e => *expr),
            SqlExprView::Nested(x) => decreases_to!(e => *x),
            _ => true,
        },
{
    match e {
        SqlExprView::BinaryOp { .. } => {
            assert(decreases_to!(e => e->left));
            assert(decreases_to!(e => e->right));
        },
        SqlExprView::UnaryOp { .. } => {
            assert(decreases_to!(e => e->UnaryOp_expr));
        },
        SqlExprView::Function { .. } => {
            assert(decreases_to!(e => e->args));
        },
        SqlExprView::IsNull(_) => {
            assert(decreases_to!(e => e->IsNull_0));
        },
        SqlExprView::IsNotNull(_) => {
            assert(decreases_to!(e => e->IsNotNull_0));
        },
        SqlExprView::Like { .. } => {
            assert(decreases_to!(e => e->Like_expr));
            assert(decreases_to!(e => e->pattern));
        },
        SqlExprView::Between { .. } => {
            assert(decreases_to!(e => e->Between_expr));
            assert(decreases_to!(e => e->low));
            assert(decreases_to!(e => e->high));
        },
        SqlExprView::Case { .. } => {
            assert(decreases_to!(e => e->operand));
            assert(decreases_to!(e => e->conditions));
            assert(decreases_to!(e => e->else_result));
        },
        SqlExprView::Cast { .. } => {
            assert(decreases_to!(e => e->Cast_expr));
        },
        SqlExprView::Nested(_) => {
            assert(decreases_to!(e => e->Nested_0));
        },
        _ => {},
    }
}

fn read_type(t: &AstType) -> (r: SqlType)
    ensures
        r@ == type_contents(*t),
    decreases type_contents(*t),
{
    if let Some(s) = scalar_type_node(t) {
        return s;
    }
    proof {
        lemma_inner_type(type_contents(*t));
    }
    match array_type_node(t) {
        Some(Some(inner)) => SqlType::Array(Some(Box::new(read_type(inner)))),
        Some(None) => SqlType::Array(None),
        None => SqlType::Other(type_text(t)),
    }
}

fn read_argument(a: &FunctionArg) -> (r: SqlArgument)
    ensures
        r@ == argument_contents(*a),
    decreases argument_contents(*a), 0int,
{
    let ghost c = argument_contents(*a);
    proof {
        if c is Expr {
            assert(decreases_to!(c => c->Expr_0));
        }
    }
    match argument_node(a) {
        ArgumentNode::Expr(e) => SqlArgument::Expr(read_expr(e)),
        ArgumentNode::Wildcard => SqlArgument::Wildcard,
        ArgumentNode::Other => SqlArgument::Other,
    }
}

fn read_arguments(f: &Function) -> (r: SqlArguments)
    ensures
        r@ == function_contents(*f),
    decreases function_contents(*f), 0int,
{
    broadcast use lemma_sql_arguments_view;

    match arguments_node(f) {
        ArgumentsNode::Absent => SqlArguments::Absent,
        ArgumentsNode::List(list, distinct) => {
            let ghost c = argument_list(list@);
            let mut args: Vec<SqlArgument> = Vec::new();
            let mut i: usize = 0;
            while i < list.len()
                invariant
                    i <= list.len(),
                    c == argument_list(list@),
                    function_contents(*f) is List,
                    function_contents(*f)->args == c,
                    args.len() == i,
                    forall|j: int| 0 <= j < i ==> args@[j]@ == c[j],
                decreases list.len() - i,
            {
                proof {
                    assert(c[i as int] == argument_contents(*list@[i as int]));
                    assert(decreases_to!(function_contents(*f) => function_contents(*f)->args));
                    assert(decreases_to!(c => c[i as int]));
                }
                args.push(read_argument(list[i]));
                i = i + 1;
            }
            proof {
                assert(views(args@) =~= c);
            }
            SqlArguments::List { args, distinct }
        },
        ArgumentsNode::Other => SqlArguments::Other,
    }
}

fn read_option(e: Option<&AstExpr>) -> (r: Option<Box<SqlExpr>>)
    ensures
        option_sql(r) == expr_box(e),
    decreases expr_box(e), 0int,
{
    let ghost c = expr_box(e);
    proof {
        if c is Some {
            assert(decreases_to!(c => c->0));
        }
    }
    match e {
        Some(e) => Some(Box::new(read_expr(e))),
        None => None,
    }
}

/// Reads an expression, given one level of it.
fn read_node(e: &AstExpr, n: ExprNode<'_>) -> (r: SqlExpr)
    requires
        expr_contents(*e) == expr_node_view(n),
    ensures
        r@ == expr_contents(*e),
    decreases expr_contents(*e), 0int,
{
    broadcast use lemma_sql_expr_view;

    proof {
        lemma_inner_expr(expr_contents(*e));
    }
    match n {
        ExprNode::Identifier(name) => SqlExpr::Identifier(name),
        ExprNode::CompoundIdentifier(parts) => SqlExpr::CompoundIdentifier(parts),
        ExprNode::Value(v) => SqlExpr::Value(value_node(v)),
        ExprNode::UnaryOp(op, x) => SqlExpr::UnaryOp { op, expr: Box::new(read_expr(x)) },
        ExprNode::Nested(x) => SqlExpr::Nested(Box::new(read_expr(x))),
        ExprNode::IsNull(x) => SqlExpr::IsNull(Box::new(read_expr(x))),
        ExprNode::IsNotNull(x) => SqlExpr::IsNotNull(Box::new(read_expr(x))),
        ExprNode::BinaryOp(left, op, right) => SqlExpr::BinaryOp {
            left: Box::new(read_expr(left)),
            op,
            right: Box::new(read_expr(right)),
        },
        ExprNode::Like(negated, x, pattern) => SqlExpr::Like {
            negated,
            expr: Box::new(read_expr(x)),
            pattern: Box::new(read_expr(pattern)),
        },
        ExprNode::Between(x, negated, low, high) => SqlExpr::Between {
            expr: Box::new(read_expr(x)),
            negated,
            low: Box::new(read_expr(low)),
            high: Box::new(read_expr(high)),
        },
        ExprNode::Cast(x, t) => SqlExpr::Cast {
            expr: Box::new(read_expr(x)),
            data_type: read_type(t),
        },
        ExprNode::Case(operand, branches, otherwise) => {
            let ghost c = branch_list(branches@);
            let operand = read_option(operand);
            let mut conditions: Vec<(SqlExpr, SqlExpr)> = Vec::new();
            let mut i: usize = 0;
            while i < branches.len()
                invariant
                    i <= branches.len(),
                    c == branch_list(branches@),
                    expr_contents(*e) is Case,
                    expr_contents(*e)->conditions == c,
                    conditions.len() == i,
                    forall|j: int|
                        0 <= j < i ==> (#[trigger] conditions@[j].0@, conditions@[j].1@) == c[j],
                decreases branches.len() - i,
            {
                proof {
                    let b = branches@[i as int];
                    assert(c[i as int] == (expr_contents(*b.0), expr_contents(*b.1)));
                    assert(decreases_to!(expr_contents(*e) => expr_contents(*e)->conditions));
                    assert(decreases_to!(c => c[i as int]));
                    assert(decreases_to!(c[i as int] => c[i as int].0));
                    assert(decreases_to!(c[i as int] => c[i as int].1));
                }
                let condition = read_expr(branches[i].0);
                let result = read_expr(branches[i].1);
                conditions.push((condition, result));
                i = i + 1;
            }
            let else_result = read_option(otherwise);
            proof {
                assert(branch_pairs(conditions@) =~= c);
            }
            SqlExpr::Case { operand, conditions, else_result }
        },
        ExprNode::Function(name, f) => SqlExpr::Function {
            name: name_node(name),
            args: read_arguments(f),
        },
    }
}

fn read_expr(e: &AstExpr) -> (r: SqlExpr)
    ensures
        r@ == expr_contents(*e),
    decreases expr_contents(*e), 1int,
{
    if let Some(n) = simple_node(e) {
        return read_node(e, n);
    }
    if let Some(n) = compound_node(e) {
        return read_node(e, n);
    }
    if let Some(n) = list_node(e) {
        return read_node(e, n);
    }
    SqlExpr::Other(expr_text(e))
}

fn read_optional(e: Option<&AstExpr>) -> (r: Option<SqlExpr>)
    ensures
        optional(r) == expr_option(e),
{
    match e {
        Some(e) => Some(read_expr(e)),
        None => None,
    }
}

fn read_exprs(list: &Vec<&AstExpr>) -> (r: Vec<SqlExpr>)
    ensures
        views(r@) == expr_list(list@),
{
    let ghost c = expr_list(list@);
    let mut r: Vec<SqlExpr> = Vec::new();
    let mut i: usize = 0;
    while i < list.len()
        invariant
            i <= list.len(),
            c == expr_list(list@),
            r.len() == i,
            forall|j: int| 0 <= j < i ==> r@[j]@ == c[j],
        decreases list.len() - i,
    {
        proof {
            assert(c[i as int] == expr_contents(*list@[i as int]));
        }
        r.push(read_expr(list[i]));
        i = i + 1;
    }
    proof {
        assert(views(r@) =~= c);
    }
    r
}

fn read_item(i: &SelectItem) -> (r: SqlItem)
    ensures
        r@ == item_contents(*i),
{
    match item_node(i) {
        ItemNode::Expr(e) => SqlItem::Expr(read_expr(e)),
        ItemNode::Alias(e, alias) => SqlItem::Alias { expr: read_expr(e), alias },
        ItemNode::Wildcard => SqlItem::Wildcard,
    }
}

fn read_items(list: &Vec<&SelectItem>) -> (r: Vec<SqlItem>)
    ensures
        views(r@) == item_list(list@),
{
    let ghost c = item_list(list@);
    let mut r: Vec<SqlItem> = Vec::new();
    let mut i: usize = 0;
    while i < list.len()
        invariant
            i <= list.len(),
            c == item_list(list@),
            r.len() == i,
            forall|j: int| 0 <= j < i ==> r@[j]@ == c[j],
        decreases list.len() - i,
    {
        proof {
            assert(c[i as int] == item_contents(*list@[i as int]));
        }
        r.push(read_item(list[i]));
        i = i + 1;
    }
    proof {
        assert(views(r@) =~= c);
    }
    r
}

fn read_relation(f: &TableFactor) -> (r: SqlRelation)
    ensures
        r@ == relation_contents(*f),
{
    match relation_node(f) {
        Ok(name) => SqlRelation::Table(name_node(name)),
        Err(text) => SqlRelation::Other(text),
    }
}

fn read_join(j: &Join) -> (r: SqlJoin)
    ensures
        r@ == join_contents(*j),
{
    let n = join_node(j);
    SqlJoin { relation: read_relation(n.relation), kind: n.kind, on: read_optional(n.on) }
}

fn read_joins(list: &Vec<&Join>) -> (r: Vec<SqlJoin>)
    ensures
        views(r@) == join_list(list@),
{
    let ghost c = join_list(list@);
    let mut r: Vec<SqlJoin> = Vec::new();
    let mut i: usize = 0;
    while i < list.len()
        invariant
            i <= list.len(),
            c == join_list(list@),
            r.len() == i,
            forall|j: int| 0 <= j < i ==> r@[j]@ == c[j],
        decreases list.len() - i,
    {
        proof {
            assert(c[i as int] == join_contents(*list@[i as int]));
        }
        r.push(read_join(list[i]));
        i = i + 1;
    }
    proof {
        assert(views(r@) =~= c);
    }
    r
}

fn read_table(t: &TableWithJoins) -> (r: SqlTable)
    ensures
        r@ == table_contents(*t),
{
    let (relation, joins) = table_node(t);
    SqlTable { relation: read_relation(relation), joins: read_joins(&joins) }
}

fn read_tables(list: &Vec<&TableWithJoins>) -> (r: Vec<SqlTable>)
    ensures
        views(r@) == table_list(list@),
{
    let ghost c = table_list(list@);
    let mut r: Vec<SqlTable> = Vec::new();
    let mut i: usize = 0;
    while i < list.len()
        invariant
            i <= list.len(),
            c == table_list(list@),
            r.len() == i,
            forall|j: int| 0 <= j < i ==> r@[j]@ == c[j],
        decreases list.len() - i,
    {
        proof {
            assert(c[i as int] == table_contents(*list@[i as int]));
        }
        r.push(read_table(list[i]));
        i = i + 1;
    }
    proof {
        assert(views(r@) =~= c);
    }
    r
}

fn read_query(q: &Query) -> (r: SqlQuery)
    ensures
        r@ == query_contents(*q),
{
    match query_node(q) {
        Ok(n) => SqlQuery::Select(
            SqlSelect {
                from: read_tables(&n.from),
                selection: read_optional(n.selection),
                group_by: match &n.group_by {
                    Some(list) => SqlGroupBy::Expressions(read_exprs(list)),
                    None => SqlGroupBy::All,
                },
                projection: read_items(&n.projection),
                having: read_optional(n.having),
            },
        ),
        Err(text) => SqlQuery::Other(text),
    }
}

fn read_column(c: &ColumnDef) -> (r: SqlColumn)
    ensures
        r@ == column_contents(*c),
{
    let (name, data_type) = column_node(c);
    SqlColumn { name, data_type: read_type(data_type) }
}

fn read_columns(list: &Vec<&ColumnDef>) -> (r: Vec<SqlColumn>)
    ensures
        views(r@) == column_list(list@),
{
    let ghost c = column_list(list@);
    let mut r: Vec<SqlColumn> = Vec::new();
    let mut i: usize = 0;
    while i < list.len()
        invariant
            i <= list.len(),
            c == column_list(list@),
            r.len() == i,
            forall|j: int| 0 <= j < i ==> r@[j]@ == c[j],
        decreases list.len() - i,
    {
        proof {
            assert(c[i as int] == column_contents(*list@[i as int]));
        }
        r.push(read_column(list[i]));
        i = i + 1;
    }
    proof {
        assert(views(r@) =~= c);
    }
    r
}

fn read_options(list: &Vec<&SqlOption>) -> (r: Vec<Option<SqlProperty>>)
    ensures
        options_view(r@) == option_list(list@),
{
    let ghost c = option_list(list@);
    let mut r: Vec<Option<SqlProperty>> = Vec::new();
    let mut i: usize = 0;
    while i < list.len()
        invariant
            i <= list.len(),
            c == option_list(list@),
            r.len() == i,
            options_view(r@) == c.take(i as int),
        decreases list.len() - i,
    {
        let ghost before = r@;
        proof {
            assert(c[i as int] == option_contents(*list@[i as int]));
        }
        match option_node(list[i]) {
            Some((key, value, text)) => {
                r.push(Some(SqlProperty { key, value: read_expr(value), text }));
            },
            None => {
                r.push(None);
            },
        }
        proof {
            assert(options_view(r@) =~= options_view(before).push(c[i as int]));
            assert(c.take(i as int).push(c[i as int]) =~= c.take(i + 1));
        }
        i = i + 1;
    }
    proof {
        assert(c.take(i as int) =~= c);
    }
    r
}

fn read_create_table(c: &CreateTable) -> (r: SqlCreateTable)
    ensures
        r@ == create_contents(*c),
{
    let n = create_table_node(c);
    SqlCreateTable {
        name: name_node(n.name),
        options: read_options(&n.options),
        columns: read_columns(&n.columns),
        query: match n.query {
            Some(q) => Some(read_query(q)),
            None => None,
        },
        external: n.external,
        located: n.located,
    }
}

fn read_statement(s: &Statement) -> (r: SqlStatement)
    ensures
        r@ == statement_contents(*s),
{
    match statement_node(s) {
        StatementNode::CreateTable(c) => SqlStatement::CreateTable(read_create_table(c)),
        StatementNode::Query(q) => SqlStatement::Query(read_query(q)),
        StatementNode::Other => if can_be_shown(s) {
            SqlStatement::Other(statement_text(s))
        } else {
            SqlStatement::Hidden
        },
    }
}

/// Reads the statements in a text.
pub fn read_sql(sql: &str) -> (r: Result<Vec<SqlStatement>, Error>)
    ensures
        match r {
            Ok(s) => sql_statements(sql@) == Ok::<Seq<SqlStatementView>, Seq<char>>(views(s@)),
            Err(e) => sql_statements(sql@) == Err::<Seq<SqlStatementView>, Seq<char>>(e@),
        },
{
    match parse_sql(sql) {
        Ok(statements) => {
            let ghost c = statement_list(statements@);
            let mut r: Vec<SqlStatement> = Vec::new();
            let mut i: usize = 0;
            while i < statements.len()
                invariant
                    i <= statements.len(),
                    c == statement_list(statements@),
                    r.len() == i,
                    forall|j: int| 0 <= j < i ==> r@[j]@ == c[j],
                decreases statements.len() - i,
            {
                proof {
                    assert(c[i as int] == statement_contents(statements@[i as int]));
                }
                r.push(read_statement(&statements[i]));
                i = i + 1;
            }
            proof {
                assert(views(r@) =~= c);
            }
            Ok(r)
        },
        Err(e) => Err(Error::from_text(e)),
    }
}

} // verus!
