//! Laws of why SQL is refused.
use crate::expr::ExprView;
use crate::schema::SourceView;
use crate::sql::ast::{
    SqlExprView, SqlQueryView, SqlStatementView, SqlTableView, SqlTypeView, SqlValueView,
};
use crate::sql::parser::{carried_out, from_plan, query_plan};
use crate::sql::translate::{translated, translated_type};
use vstd::prelude::*;

verus! {

/// What is said of parts of expressions and of types that are not known.
pub proof fn lemma_why_not_translated(text: Seq<char>)
    ensures
        translated(SqlExprView::Other(text)) == Err::<ExprView, Seq<char>>(
            "Unsupported expression: "@ + text,
        ),
        translated(SqlExprView::Value(SqlValueView::Other(text))) == Err::<ExprView, Seq<char>>(
            "Unsupported value: "@ + text,
        ),
        translated_type(SqlTypeView::Other(text)) matches Err(e) && e == "Unsupported data type: "@
            + text,
        query_plan(SqlQueryView::Other(text)) matches Err(e) && e == "Unsupported query type: "@
            + text,
{
}

/// What is said of a SELECT without a source, and of one with several.
pub proof fn lemma_why_not_read(from: Seq<SqlTableView>)
    ensures
        from.len() == 0 ==> (from_plan(from) matches Err(e) && e
            == "SELECT requires a FROM clause"@),
        from.len() > 1 ==> (from_plan(from) matches Err(e) && e
            == "Multiple FROM tables not supported; use explicit JOIN"@),
        from.len() == 1 && from[0].relation is Other ==> (from_plan(from) matches Err(e) && e
            == "Unsupported FROM clause: "@ + from[0].relation->Other_0),
{
}

/// What is said where there is no statement, or more than one, or one of another kind.
pub proof fn lemma_why_not_carried_out(
    statements: Seq<SqlStatementView>,
    sources: Seq<(Seq<char>, SourceView)>,
)
    ensures
        statements.len() == 0 ==> (carried_out(statements, sources).0 matches Err(e) && e
            == "Empty SQL statement"@),
        statements.len() > 1 ==> (carried_out(statements, sources).0 matches Err(e) && e
            == "Multiple statements not supported"@),
        statements.len() == 1 && statements[0] is Other ==> (carried_out(
            statements,
            sources,
        ).0 matches Err(e) && e == "Unsupported SQL statement: "@ + statements[0]->Other_0),
{
}

} // verus!
