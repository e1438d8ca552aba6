//! Laws of the columns, and of the values, that projections and aggregations make.
use crate::engine::operator::laws::joins::{is_first_named, lemma_column_found};
use crate::engine::operator::rows::{
    aggregate_schema, aggregate_type, projection_columns, projection_schema,
};
use crate::engine::operator::simple::{projected_row, projected_values, ProjectView};
use crate::expr::eval::value_of;
use crate::expr::ExprView;
use crate::plan::AggregateView;
use crate::text::laws::differ_in_case;
use crate::types::{find_column, ColumnView, RowView};
use crate::value::ValueView;
use vstd::prelude::*;

verus! {

/// What a star in a projection stands for is all values of the row, where it stands; any
/// other expression stands for its value. A lone star leaves the row as it is.
pub proof fn lemma_projected_star(
    before: Seq<ExprView>,
    e: ExprView,
    row: RowView,
    schema: Seq<ColumnView>,
    output: Seq<ColumnView>,
)
    ensures
        projected_values(before.push(e), row, schema, 0) == (match projected_values(
            before,
            row,
            schema,
            0,
        ) {
            Ok(values) => if e is Wildcard {
                Ok(values + row.values)
            } else {
                match value_of(e, row, schema) {
                    Ok(v) => Ok(values.push(v)),
                    Err(x) => Err(x),
                }
            },
            Err(x) => Err(x),
        }),
        projected_values(Seq::empty(), row, schema, 0) == Ok::<Seq<ValueView>, Seq<char>>(
            Seq::empty(),
        ),
        ({
            let p = ProjectView {
                expressions: before.push(e),
                input_schema: schema,
                output_schema: output,
            };
            if before.len() == 0 && e is Wildcard {
                projected_row(p, row) == Ok::<RowView, Seq<char>>(row)
            } else {
                match projected_values(before.push(e), row, schema, 0) {
                    Ok(values) => projected_row(p, row) == Ok::<RowView, Seq<char>>(
                        RowView { values, metadata: row.metadata },
                    ),
                    Err(x) => projected_row(p, row) == Err::<RowView, Seq<char>>(x),
                }
            }
        }),
{
    lemma_projected_push(before, e, row, schema, 0);
}

proof fn lemma_projected_push(
    before: Seq<ExprView>,
    e: ExprView,
    row: RowView,
    schema: Seq<ColumnView>,
    i: nat,
)
    requires
        i <= before.len(),
    ensures
        projected_values(before.push(e), row, schema, i) == (match projected_values(
            before,
            row,
            schema,
            i,
        ) {
            Ok(values) => if e is Wildcard {
                Ok(values + row.values)
            } else {
                match value_of(e, row, schema) {
                    Ok(v) => Ok(values.push(v)),
                    Err(x) => Err(x),
                }
            },
            Err(x) => Err(x),
        }),
    decreases before.len() - i,
{
    let all = before.push(e);
    if i < before.len() {
        assert(all[i as int] == before[i as int]);
        lemma_projected_push(before, e, row, schema, i + 1);
        if let Ok(rest) = projected_values(before, row, schema, i + 1) {
            let first = if before[i as int] is Wildcard {
                row.values
            } else {
                seq![value_of(before[i as int], row, schema)->Ok_0]
            };
            assert(first + (rest + row.values) =~= (first + rest) + row.values);
            if let Ok(v) = value_of(e, row, schema) {
                assert(first + rest.push(v) =~= (first + rest).push(v));
            }
        }
    } else {
        assert(all[i as int] == e);
        reveal_with_fuel(projected_values, 2);
        let none = Seq::<ValueView>::empty();
        assert(row.values + none =~= none + row.values);
        if let Ok(v) = value_of(e, row, schema) {
            assert(seq![v] + none =~= none.push(v));
        }
    }
}

/// Whether a column is that of an expression: an alias names it, a column stays what it
/// is, and any other has the name that is given then. What is not known is a text.
pub open spec fn is_column_of(
    c: ColumnView,
    e: ExprView,
    schema: Seq<ColumnView>,
    other: Seq<char>,
) -> bool {
    match e {
        ExprView::Alias { name, .. } => c.name == name && c.data_type is String,
        ExprView::Column(name) => (forall|k: int|
            is_first_named(schema, name, k) ==> c == #[trigger] schema[k]) && ((forall|k: int|
            0 <= k < schema.len() ==> !differ_in_case((#[trigger] schema[k]).name, name))
            ==> c.name == name && c.data_type is String),
        _ => c.name == other && c.data_type is String,
    }
}

/// A projection has, for each of its expressions, in their order, the column of that
/// expression, and for a star all columns.
pub proof fn lemma_projection_columns(
    before: Seq<ExprView>,
    e: ExprView,
    schema: Seq<ColumnView>,
)
    ensures
        projection_schema(Seq::empty(), schema, 0).len() == 0,
        e is Wildcard ==> projection_schema(before.push(e), schema, before.len() + 1)
            == projection_schema(before, schema, before.len()) + schema,
        !(e is Wildcard) ==> {
            let all = projection_schema(before.push(e), schema, before.len() + 1);
            all.len() > 0 && all.drop_last() == projection_schema(before, schema, before.len())
                && is_column_of(all.last(), e, schema, "_expr"@)
        },
{
    let all = before.push(e);
    lemma_same_columns(before, all, schema, before.len());
    assert(all[before.len() as int] == e);
    let earlier = projection_schema(before, schema, before.len());
    let mine = projection_columns(e, schema);
    if !(e is Wildcard) {
        assert(mine.len() == 1);
        assert((earlier + mine).drop_last() =~= earlier);
        assert((earlier + mine).last() == mine[0]);
        if let ExprView::Column(name) = e {
            lemma_named(schema, name);
        }
    }
}

proof fn lemma_named(schema: Seq<ColumnView>, name: Seq<char>)
    ensures
        forall|k: int| #[trigger]
            is_first_named(schema, name, k) ==> find_column(schema, name, 0) == Some(
                k as nat,
            ),
        (forall|k: int|
            0 <= k < schema.len() ==> !differ_in_case((#[trigger] schema[k]).name, name))
            ==> find_column(schema, name, 0) is None,
{
    assert forall|k: int| #[trigger]
        is_first_named(schema, name, k) implies find_column(schema, name, 0) == Some(
        k as nat,
    ) by {
        lemma_column_found(schema, name, k);
    }
    lemma_column_found(schema, name, -1);
}

proof fn lemma_same_columns(
    a: Seq<ExprView>,
    b: Seq<ExprView>,
    schema: Seq<ColumnView>,
    n: nat,
)
    requires
        n <= a.len(),
        n <= b.len(),
        forall|i: int| 0 <= i < n ==> a[i] == b[i],
    ensures
        projection_schema(a, schema, n) == projection_schema(b, schema, n),
    decreases n,
{
    if n > 0 {
        lemma_same_columns(a, b, schema, (n - 1) as nat);
    }
}

/// An aggregation has a column for each expression that it groups by, then one for each
/// function, under its alias: of integers for COUNT, of doubles for SUM and AVG, and of
/// lists for the functions that collect. MIN and MAX of a column are of its type.
pub proof fn lemma_aggregate_columns(
    group_by: Seq<ExprView>,
    aggregates: Seq<AggregateView>,
    schema: Seq<ColumnView>,
)
    ensures
        ({
            let all = aggregate_schema(group_by, aggregates, schema);
            &&& all.len() == group_by.len() + aggregates.len()
            &&& forall|i: int|
                0 <= i < group_by.len() ==> is_column_of(
                    all[i],
                    #[trigger] group_by[i],
                    schema,
                    "_group"@,
                )
            &&& forall|x: int|
                0 <= x < aggregates.len() ==> {
                    let c = all[group_by.len() + x];
                    let a = #[trigger] aggregates[x];
                    &&& c.name == a.alias
                    &&& a.function is Count ==> c.data_type is Integer
                    &&& a.function is Sum || a.function is Avg ==> c.data_type is Double
                    &&& a.function is CollectList || a.function is CollectSet || a.function is TopK
                        ==> c.data_type is Array
                    &&& a.function is Min || a.function is Max ==> match a.expr {
                        ExprView::Column(name) => forall|k: int|
                            is_first_named(schema, name, k) ==> c.data_type == (
                            #[trigger] schema[k]).data_type,
                        _ => c.data_type is Double,
                    }
                }
        }),
{
    let all = aggregate_schema(group_by, aggregates, schema);
    assert forall|i: int| 0 <= i < group_by.len() implies is_column_of(
        all[i],
        #[trigger] group_by[i],
        schema,
        "_group"@,
    ) by {
        if let ExprView::Column(name) = group_by[i] {
            lemma_named(schema, name);
        }
    }
    assert forall|x: int| 0 <= x < aggregates.len() implies {
        let c = all[group_by.len() + x];
        let a = #[trigger] aggregates[x];
        &&& c.name == a.alias
        &&& a.function is Count ==> c.data_type is Integer
        &&& a.function is Sum || a.function is Avg ==> c.data_type is Double
        &&& a.function is CollectList || a.function is CollectSet || a.function is TopK
            ==> c.data_type is Array
        &&& a.function is Min || a.function is Max ==> match a.expr {
            ExprView::Column(name) => forall|k: int|
                is_first_named(schema, name, k) ==> c.data_type == (#[trigger] schema[k]).data_type,
            _ => c.data_type is Double,
        }
    } by {
        let a = aggregates[x];
        assert(all[group_by.len() + x] == (ColumnView {
            name: a.alias,
            data_type: aggregate_type(a, schema),
        }));
        if let ExprView::Column(name) = a.expr {
            lemma_named(schema, name);
        }
    }
}

} // verus!
