//! Batches of rows, and the schemas of what operators make of them.
use crate::error::Error;
use crate::expr::{BinaryOp, Expr, ExprView};
use crate::plan::{AggregateExpr, AggregateFunction, AggregateView};
use crate::types::{
    clone_columns, find_column, no_metadata, Column, ColumnView, DataType, DataTypeView, Row,
    RowView, Schema,
};
use crate::value::{clone_values, views, Value, ValueView};
use vstd::prelude::*;

verus! {

/// What a result of rows holds.
pub open spec fn rows_outcome(r: Result<Vec<Row>, Error>) -> Result<Seq<RowView>, Seq<char>> {
    match r {
        Ok(rows) => Ok(views(rows@)),
        Err(e) => Err(e@),
    }
}

/// Puts rows before those of a result, or keeps its error.
pub open spec fn prepend_rows(
    before: Seq<RowView>,
    r: Result<Seq<RowView>, Seq<char>>,
) -> Result<Seq<RowView>, Seq<char>> {
    match r {
        Ok(rest) => Ok(before + rest),
        Err(e) => Err(e),
    }
}

/// The fields of two rows, the left ones first, with what is known of the left
/// row.
pub open spec fn combined(left: RowView, right: RowView) -> RowView {
    RowView { values: left.values + right.values, metadata: left.metadata }
}

/// Adds values at the end.
pub fn extend_values(values: &mut Vec<Value>, more: &Vec<Value>)
    ensures
        views(final(values)@) == views(old(values)@) + views(more@),
{
    let mut copies = clone_values(more);
    let ghost before = values@;
    let ghost c = copies@;
    values.append(&mut copies);
    proof {
        assert(views(values@) =~= views(before) + views(c));
    }
}

pub fn combine_rows(left: &Row, right: &Row) -> (r: Row)
    ensures
        r@ == combined(left@, right@),
{
    let mut values = clone_values(&left.values);
    extend_values(&mut values, &right.values);
    Row::with_metadata(values, left.metadata.clone())
}

/// A row of nulls for each column.
pub open spec fn nulls(schema: Seq<ColumnView>) -> RowView {
    RowView { values: schema.map_values(|c: ColumnView| ValueView::Null), metadata: no_metadata() }
}

pub fn null_row(schema: &Schema) -> (r: Row)
    ensures
        r@ == nulls(schema@),
{
    let mut values: Vec<Value> = Vec::new();
    let mut i: usize = 0;
    while i < schema.len()
        invariant
            i <= schema@.len(),
            values.len() == i,
            forall|j: int| 0 <= j < i ==> values@[j]@ == ValueView::Null,
        decreases schema@.len() - i,
    {
        values.push(Value::Null);
        i = i + 1;
    }
    proof {
        assert(views(values@) =~= nulls(schema@).values);
    }
    Row::new(values)
}

/// Adds columns at the end.
fn extend_columns(columns: &mut Vec<Column>, more: &Vec<Column>)
    ensures
        views(final(columns)@) == views(old(columns)@) + views(more@),
{
    let mut copies = clone_columns(more);
    let ghost before = columns@;
    let ghost c = copies@;
    columns.append(&mut copies);
    proof {
        assert(views(columns@) =~= views(before) + views(c));
    }
}

pub fn combine_schemas(left: &Schema, right: &Schema) -> (r: Schema)
    ensures
        r@ == left@ + right@,
{
    let mut columns = clone_columns(&left.columns);
    extend_columns(&mut columns, &right.columns);
    Schema::new(columns)
}

/// The column with a name, or a column of texts where there is none.
pub open spec fn column_or_text(schema: Seq<ColumnView>, name: Seq<char>) -> ColumnView {
    match find_column(schema, name, 0) {
        Some(i) => schema[i as int],
        None => ColumnView { name, data_type: DataTypeView::String },
    }
}

/// A column of texts.
pub open spec fn text_column(name: Seq<char>) -> ColumnView {
    ColumnView { name, data_type: DataTypeView::String }
}

/// The columns of one expression of a projection.
pub open spec fn projection_columns(e: ExprView, schema: Seq<ColumnView>) -> Seq<ColumnView> {
    match e {
        ExprView::Wildcard => schema,
        ExprView::Alias { name, .. } => seq![text_column(name)],
        ExprView::Column(name) => seq![column_or_text(schema, name)],
        _ => seq![text_column("_expr"@)],
    }
}

/// The columns of the first `n` expressions of a projection.
pub open spec fn projection_schema(
    expressions: Seq<ExprView>,
    schema: Seq<ColumnView>,
    n: nat,
) -> Seq<ColumnView>
    decreases n,
{
    if n == 0 {
        Seq::empty()
    } else {
        projection_schema(expressions, schema, (n - 1) as nat) + projection_columns(
            expressions[n - 1],
            schema,
        )
    }
}

fn find_or_text(schema: &Schema, name: &str) -> (r: Column)
    ensures
        r@ == column_or_text(schema@, name@),
{
    match schema.column(name) {
        Some(c) => c.clone(),
        None => Column::new(name, DataType::String),
    }
}

/// Computes the schema of a projection.
pub fn compute_projection_schema(expressions: &Vec<Expr>, input_schema: &Schema) -> (r: Schema)
    ensures
        r@ == projection_schema(views(expressions@), input_schema@, expressions@.len()),
{
    let mut columns: Vec<Column> = Vec::new();
    let mut i: usize = 0;
    proof {
        assert(views(columns@) =~= Seq::<ColumnView>::empty());
    }
    while i < expressions.len()
        invariant
            i <= expressions.len(),
            views(columns@) == projection_schema(
                views(expressions@),
                input_schema@,
                i as nat,
            ),
        decreases expressions.len() - i,
    {
        let ghost before = columns@;
        match &expressions[i] {
            Expr::Wildcard => {
                extend_columns(&mut columns, &input_schema.columns);
            },
            Expr::Alias { name, .. } => {
                columns.push(Column::new(name.as_str(), DataType::String));
            },
            Expr::Column(name) => {
                columns.push(find_or_text(input_schema, name.as_str()));
            },
            _ => {
                columns.push(Column::new("_expr", DataType::String));
            },
        }
        proof {
            assert(views(columns@) =~= views(before) + projection_columns(
                expressions@[i as int]@,
                input_schema@,
            ));
        }
        i = i + 1;
    }
    Schema::new(columns)
}

/// The column of one expression that rows are grouped by.
pub open spec fn group_column(e: ExprView, schema: Seq<ColumnView>) -> ColumnView {
    match e {
        ExprView::Column(name) => column_or_text(schema, name),
        ExprView::Alias { name, .. } => text_column(name),
        _ => text_column("_group"@),
    }
}

/// The type of the results of an aggregate function. The least and the greatest
/// value of a column are of its type.
pub open spec fn aggregate_type(a: AggregateView, schema: Seq<ColumnView>) -> DataTypeView {
    match a.function {
        AggregateFunction::Count => DataTypeView::Integer,
        AggregateFunction::Sum | AggregateFunction::Avg => DataTypeView::Double,
        AggregateFunction::Min | AggregateFunction::Max => match a.expr {
            ExprView::Column(name) => match find_column(schema, name, 0) {
                Some(i) => schema[i as int].data_type,
                None => DataTypeView::Double,
            },
            _ => DataTypeView::Double,
        },
        _ => DataTypeView::Array(Box::new(DataTypeView::String)),
    }
}

/// The columns of an aggregation: those it groups by, and one for each function.
pub open spec fn aggregate_schema(
    group_by: Seq<ExprView>,
    aggregates: Seq<AggregateView>,
    schema: Seq<ColumnView>,
) -> Seq<ColumnView> {
    group_by.map_values(|e: ExprView| group_column(e, schema)) + aggregates.map_values(
        |a: AggregateView| ColumnView { name: a.alias, data_type: aggregate_type(a, schema) },
    )
}

/// The type of lists of texts.
fn list_of_texts() -> (r: DataType)
    ensures
        r@ == DataTypeView::Array(Box::new(DataTypeView::String)),
{
    let inner = DataType::String;
    proof {
        assert(inner@ == DataTypeView::String);
    }
    DataType::Array(Box::new(inner))
}

/// Computes the schema of an aggregation.
pub fn compute_aggregate_schema(
    group_by: &Vec<Expr>,
    aggregates: &Vec<AggregateExpr>,
    input_schema: &Schema,
) -> (r: Schema)
    ensures
        r@ == aggregate_schema(views(group_by@), views(aggregates@), input_schema@),
{
    let ghost all = aggregate_schema(views(group_by@), views(aggregates@), input_schema@);
    let mut columns: Vec<Column> = Vec::new();
    let mut i: usize = 0;
    while i < group_by.len()
        invariant
            i <= group_by.len(),
            columns.len() == i,
            all == aggregate_schema(views(group_by@), views(aggregates@), input_schema@),
            forall|j: int| 0 <= j < i ==> columns@[j]@ == all[j],
        decreases group_by.len() - i,
    {
        match &group_by[i] {
            Expr::Column(name) => {
                columns.push(find_or_text(input_schema, name.as_str()));
            },
            Expr::Alias { name, .. } => {
                columns.push(Column::new(name.as_str(), DataType::String));
            },
            _ => {
                columns.push(Column::new("_group", DataType::String));
            },
        }
        i = i + 1;
    }
    let mut k: usize = 0;
    while k < aggregates.len()
        invariant
            k <= aggregates.len(),
            columns.len() == group_by.len() + k,
            all == aggregate_schema(views(group_by@), views(aggregates@), input_schema@),
            forall|j: int| 0 <= j < columns.len() ==> columns@[j]@ == all[j],
        decreases aggregates.len() - k,
    {
        let data_type = match aggregates[k].function {
            AggregateFunction::Count => DataType::Integer,
            AggregateFunction::Sum | AggregateFunction::Avg => DataType::Double,
            AggregateFunction::Min | AggregateFunction::Max => match &aggregates[k].expr {
                Expr::Column(name) => match input_schema.data_type(name.as_str()) {
                    Some(t) => t.clone(),
                    None => DataType::Double,
                },
                _ => DataType::Double,
            },
            _ => list_of_texts(),
        };
        columns.push(Column::new(aggregates[k].alias.as_str(), data_type));
        k = k + 1;
    }
    proof {
        assert(views(columns@) =~= all);
    }
    Schema::new(columns)
}

/// The places of the key columns in a condition that says that a column on the
/// left equals one on the right.
pub open spec fn join_keys(on: ExprView, left: Seq<ColumnView>, right: Seq<ColumnView>) -> Option<
    (nat, nat),
> {
    match on {
        ExprView::BinaryOp { left: l, op, right: r } => match (op, *l, *r) {
            (BinaryOp::Eq, ExprView::Column(a), ExprView::Column(b)) => match (
                find_column(left, a, 0),
                find_column(right, b, 0),
            ) {
                (Some(i), Some(j)) => Some((i, j)),
                _ => None,
            },
            _ => None,
        },
        _ => None,
    }
}

/// The places of the key columns of a join; the first columns where its condition
/// does not tell.
pub open spec fn join_keys_or_first(
    on: ExprView,
    left: Seq<ColumnView>,
    right: Seq<ColumnView>,
) -> (nat, nat) {
    match join_keys(on, left, right) {
        Some(k) => k,
        None => (0, 0),
    }
}

/// Finds the places of the key columns of a join.
pub fn extract_join_key_indices(on: &Expr, left_schema: &Schema, right_schema: &Schema) -> (r: Option<
    (usize, usize),
>)
    ensures
        match r {
            Some((i, j)) => join_keys(on@, left_schema@, right_schema@) == Some(
                (i as nat, j as nat),
            ),
            None => join_keys(on@, left_schema@, right_schema@) is None,
        },
{
    if let Expr::BinaryOp { left, op: BinaryOp::Eq, right } = on {
        let ghost l = (**left)@;
        let ghost r = (**right)@;
        if let (Expr::Column(left_col), Expr::Column(right_col)) = (&**left, &**right) {
            let li = left_schema.index_of(left_col.as_str());
            let ri = right_schema.index_of(right_col.as_str());
            if let (Some(li), Some(ri)) = (li, ri) {
                return Some((li, ri));
            }
        }
    }
    None
}

/// Finds the places of the key columns of a join, or takes the first columns.
pub fn key_indices_or_first(on: &Expr, left_schema: &Schema, right_schema: &Schema) -> (r: (
    usize,
    usize,
))
    ensures
        (r.0 as nat, r.1 as nat) == join_keys_or_first(on@, left_schema@, right_schema@),
{
    match extract_join_key_indices(on, left_schema, right_schema) {
        Some(k) => k,
        None => (0, 0),
    }
}

} // verus!
