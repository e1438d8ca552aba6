//! Laws of SQL statements.
use crate::engine::pipeline::source_of;
use crate::entries::{distinct_names, lemma_entry_push};
use crate::plan::PlanView;
use crate::schema::{already_registered, SourceView};
use crate::sql::ast::{SqlCreateTableView, SqlStatementView};
use crate::sql::parser::{created, executed, query_plan, SqlResultView};
use crate::text::upper;
use vstd::prelude::*;

pub mod exprs;
pub mod messages;
pub mod queries;
pub mod sources;

verus! {

/// SQL that fails, or that is a query, leaves the sources as they are.
pub proof fn lemma_sources_stay(
    read: Result<Seq<SqlStatementView>, Seq<char>>,
    sources: Seq<(Seq<char>, SourceView)>,
)
    ensures
        executed(read, sources).0 is Err ==> executed(read, sources).1 == sources,
        executed(read, sources).0 matches Ok(SqlResultView::Query { .. }) ==> executed(
            read,
            sources,
        ).1 == sources,
{
}

/// A source that SQL creates is found under its name, which was not taken before, and
/// all other sources stay as they are.
pub proof fn lemma_created_is_found(
    read: Result<Seq<SqlStatementView>, Seq<char>>,
    sources: Seq<(Seq<char>, SourceView)>,
    other: Seq<char>,
)
    requires
        distinct_names(sources),
    ensures
        executed(read, sources).0 matches Ok(SqlResultView::SourceCreated { name }) ==> {
            let after = executed(read, sources).1;
            &&& source_of(sources, name) is None
            &&& source_of(after, name) matches Some(info) && info.name == name
            &&& upper(other) != upper(name) ==> source_of(after, other) == source_of(
                sources,
                other,
            )
            &&& distinct_names(after)
        },
{
    if let Ok(SqlResultView::SourceCreated { name }) = executed(read, sources).0 {
        let after = executed(read, sources).1;
        let info = after.last().1;
        lemma_entry_push(sources, upper(name), info, upper(other));
        assert(after == sources.push((upper(name), info)));
    }
}

/// The same statement cannot create a source twice.
pub proof fn lemma_created_once(
    read: Result<Seq<SqlStatementView>, Seq<char>>,
    sources: Seq<(Seq<char>, SourceView)>,
)
    requires
        distinct_names(sources),
    ensures
        executed(read, sources).0 matches Ok(SqlResultView::SourceCreated { name }) ==> executed(
            read,
            executed(read, sources).1,
        ).0 == Err::<SqlResultView, Seq<char>>(already_registered(name)),
{
    if let Ok(SqlResultView::SourceCreated { name }) = executed(read, sources).0 {
        lemma_created_is_found(read, sources, name);
    }
}

/// A CREATE with a query is a plan that writes the results of that query.
pub proof fn lemma_create_as(c: SqlCreateTableView, sources: Seq<(Seq<char>, SourceView)>)
    requires
        c.query is Some,
    ensures
        match query_plan(c.query->0) {
            Ok(input) => created(c, sources).0 matches Ok(SqlResultView::Query { plan }) && (plan
                matches PlanView::Sink { input: i, .. } && *i == input),
            Err(e) => created(c, sources).0 == Err::<SqlResultView, Seq<char>>(e),
        },
{
}

} // verus!
