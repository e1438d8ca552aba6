//! Laws of what CREATE statements declare.
use crate::engine::pipeline::source_of;
use crate::entries::{distinct_names, lemma_entry_push};
use crate::plan::SinkType;
use crate::schema::{SourceType, SourceView};
use crate::sql::ast::{
    SqlColumnView, SqlCreateTableView, SqlExprView, SqlPropertyView, SqlStatementView,
    SqlValueView,
};
use crate::sql::parser::{
    carried_out, columns_from, created, find_property, properties, property_value, query_plan,
    SqlResultView,
};
use crate::sql::translate::{name_text, translated_type};
use crate::text::laws::{differ_in_case, lemma_same_letters};
use crate::text::{lower, upper};
use crate::types::{ColumnView, DataTypeView};
use vstd::prelude::*;

verus! {

/// Whether an option is a property with a name, in any case.
pub open spec fn is_named(option: Option<SqlPropertyView>, name: Seq<char>) -> bool {
    option matches Some(p) && differ_in_case(p.key, name)
}

/// What a property says: the text or the number that it is given, and of anything else how
/// it is written.
pub open spec fn says(p: SqlPropertyView) -> Seq<char> {
    match p.value {
        SqlExprView::Value(SqlValueView::SingleQuotedString(s)) => s,
        SqlExprView::Value(SqlValueView::DoubleQuotedString(s)) => s,
        SqlExprView::Value(SqlValueView::Number(n)) => n,
        _ => p.text,
    }
}

/// What the options say under a name: what the first property with that name says, in any
/// case, if there is one.
pub open spec fn is_said(
    options: Seq<Option<SqlPropertyView>>,
    name: Seq<char>,
    answer: Option<Seq<char>>,
) -> bool {
    match answer {
        Some(text) => exists|k: int|
            0 <= k < options.len() && is_named(#[trigger] options[k], name) && says(options[k]->0)
                == text && forall|j: int| 0 <= j < k ==> !is_named(#[trigger] options[j], name),
        None => forall|j: int| 0 <= j < options.len() ==> !is_named(#[trigger] options[j], name),
    }
}

proof fn lemma_found_skip(
    p: Seq<(Seq<char>, Seq<char>)>,
    x: (Seq<char>, Seq<char>),
    name: Seq<char>,
    i: nat,
)
    requires
        i <= p.len(),
    ensures
        find_property(p.push(x), name, i) == match find_property(p, name, i) {
            Some(v) => Some(v),
            None => if differ_in_case(x.0, name) {
                Some(x.1)
            } else {
                None
            },
        },
    decreases p.len() - i,
{
    let all = p.push(x);
    if i < p.len() {
        assert(all[i as int] == p[i as int]);
        lemma_found_skip(p, x, name, i + 1);
    } else {
        assert(all[i as int] == x);
        lemma_same_letters(x.0, name);
        reveal_with_fuel(find_property, 2);
    }
}

proof fn lemma_said(options: Seq<Option<SqlPropertyView>>, name: Seq<char>, n: nat)
    requires
        n <= options.len(),
    ensures
        is_said(options.take(n as int), name, find_property(properties(options, n), name, 0)),
    decreases n,
{
    let some = options.take(n as int);
    if n > 0 {
        lemma_said(options, name, (n - 1) as nat);
        let fewer = options.take(n - 1);
        let before = properties(options, (n - 1) as nat);
        assert forall|j: int| 0 <= j < n - 1 implies #[trigger] some[j] == fewer[j] by {}
        assert(some[n - 1] == options[n - 1]);
        let found = find_property(before, name, 0);
        if let Some(p) = options[n - 1] {
            lemma_found_skip(before, (p.key, property_value(p)), name, 0);
        }
        if let Some(text) = found {
            let k = choose|k: int|
                0 <= k < fewer.len() && is_named(#[trigger] fewer[k], name) && says(fewer[k]->0)
                    == text && forall|j: int|
                    0 <= j < k ==> !is_named(#[trigger] fewer[j], name);
            assert(is_named(some[k], name));
            assert forall|j: int| 0 <= j < k implies !is_named(#[trigger] some[j], name) by {
                assert(!is_named(fewer[j], name));
            }
        } else {
            assert forall|j: int| 0 <= j < n - 1 implies !is_named(#[trigger] some[j], name) by {
                assert(!is_named(fewer[j], name));
            }
            if is_named(some[n - 1], name) {
                assert(is_named(some[n - 1], name));
            }
        }
    }
}

/// A property is found under its name in any case, and the first of two counts.
pub proof fn lemma_property(options: Seq<Option<SqlPropertyView>>, name: Seq<char>)
    ensures
        is_said(options, name, find_property(properties(options, options.len()), name, 0)),
{
    lemma_said(options, name, options.len());
    assert(options.take(options.len() as int) =~= options);
}

/// Whether columns are those that are declared: each with its name, and of the type that
/// it is given, in their order.
pub open spec fn are_columns(declared: Seq<SqlColumnView>, schema: Seq<ColumnView>) -> bool {
    schema.len() == declared.len() && forall|k: int|
        0 <= k < schema.len() ==> (#[trigger] schema[k]).name == declared[k].name
            && translated_type(declared[k].data_type) == Ok::<DataTypeView, Seq<char>>(
            schema[k].data_type,
        )
}

proof fn lemma_columns_from(declared: Seq<SqlColumnView>, i: nat)
    requires
        i <= declared.len(),
    ensures
        columns_from(declared, i) matches Ok(schema) ==> are_columns(
            declared.skip(i as int),
            schema,
        ),
        columns_from(declared, i) is Ok <==> forall|k: int|
            i <= k < declared.len() ==> translated_type((#[trigger] declared[k]).data_type) is Ok,
    decreases declared.len() - i,
{
    if i < declared.len() {
        lemma_columns_from(declared, i + 1);
        if let Ok(schema) = columns_from(declared, i) {
            let rest = columns_from(declared, i + 1)->Ok_0;
            assert(schema =~= seq![schema[0]] + rest);
            let d = declared.skip(i as int);
            let e = declared.skip(i as int + 1);
            assert forall|k: int| 0 <= k < schema.len() implies (#[trigger] schema[k]).name
                == d[k].name && translated_type(d[k].data_type) == Ok::<DataTypeView, Seq<char>>(
                schema[k].data_type,
            ) by {
                if k > 0 {
                    assert(schema[k] == rest[k - 1]);
                    assert(d[k] == e[k - 1]);
                }
            }
        }
    }
}

/// A CREATE without a query declares a source under its name: with its columns, over the
/// topic that it is given, and as a table with a key where it is given one, else as a
/// stream. It fails where it is given no topic, where a column has a type that is not
/// supported, and where the name is taken, and only there.
pub proof fn lemma_create_source(c: SqlCreateTableView, sources: Seq<(Seq<char>, SourceView)>)
    requires
        c.query is None,
        distinct_names(sources),
    ensures
        ({
            let name = name_text(c.name);
            let after = created(c, sources).1;
            match created(c, sources).0 {
                Ok(r) => {
                    &&& r == (SqlResultView::SourceCreated { name })
                    &&& source_of(sources, name) is None
                    &&& source_of(after, name) matches Some(info) && {
                        &&& info.name == name
                        &&& are_columns(c.columns, info.schema)
                        &&& is_said(c.options, "KAFKA_TOPIC"@, Some(info.topic))
                        &&& is_said(c.options, "KEY"@, info.key_column)
                        &&& info.source_type == SourceType::Table <==> info.key_column is Some
                    }
                },
                Err(_) => after == sources && (is_said(c.options, "KAFKA_TOPIC"@, None) || source_of(
                    sources,
                    name,
                ) is Some || exists|k: int|
                    0 <= k < c.columns.len() && translated_type(
                        (#[trigger] c.columns[k]).data_type,
                    ) is Err),
            }
        }),
{
    let name = name_text(c.name);
    lemma_property(c.options, "KAFKA_TOPIC"@);
    lemma_property(c.options, "KEY"@);
    lemma_columns_from(c.columns, 0);
    assert(c.columns.skip(0) =~= c.columns);
    if created(c, sources).0 is Ok {
        let after = created(c, sources).1;
        let info = after.last().1;
        lemma_entry_push(sources, upper(name), info, upper(name));
        assert(after == sources.push((upper(name), info)));
    }
}

/// A CREATE with a query writes the results of that query under its name: to the topic
/// that it is given, else to one named after it, as a table where it is given a key, else
/// as a stream.
pub proof fn lemma_create_sink(c: SqlCreateTableView, sources: Seq<(Seq<char>, SourceView)>)
    requires
        c.query is Some,
    ensures
        match query_plan(c.query->0) {
            Ok(input) => created(c, sources).0 matches Ok(SqlResultView::Query { plan }) && {
                &&& plan is Sink
                &&& *plan->Sink_input == input
                &&& plan->name == name_text(c.name)
                &&& is_said(c.options, "KAFKA_TOPIC"@, Some(plan->topic)) || (is_said(
                    c.options,
                    "KAFKA_TOPIC"@,
                    None,
                ) && plan->topic == lower(name_text(c.name)) + "_topic"@)
                &&& plan->sink_type == SinkType::Stream <==> is_said(c.options, "KEY"@, None)
            },
            Err(e) => created(c, sources).0 is Err,
        },
        created(c, sources).1 == sources,
{
    lemma_property(c.options, "KAFKA_TOPIC"@);
    lemma_property(c.options, "KEY"@);
}

/// Just one statement can be carried out at a time, and of these a CREATE or a query; any
/// other fails, and changes nothing.
pub proof fn lemma_one_statement(
    statements: Seq<SqlStatementView>,
    sources: Seq<(Seq<char>, SourceView)>,
)
    ensures
        statements.len() != 1 ==> carried_out(statements, sources).0 is Err && carried_out(
            statements,
            sources,
        ).1 == sources,
        statements.len() == 1 ==> match statements[0] {
            SqlStatementView::CreateTable(c) => carried_out(statements, sources) == created(
                c,
                sources,
            ),
            SqlStatementView::Query(q) => carried_out(statements, sources).1 == sources && match (
                query_plan(q),
                carried_out(statements, sources).0,
            ) {
                (Ok(plan), Ok(SqlResultView::Query { plan: made })) => made == plan,
                (Err(e), Err(f)) => e == f,
                _ => false,
            },
            _ => carried_out(statements, sources).0 is Err && carried_out(statements, sources).1
                == sources,
        },
{
}

} // verus!
