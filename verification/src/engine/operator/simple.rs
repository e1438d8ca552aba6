//! Operators that look at one row at a time.
use crate::engine::operator::rows::{
    compute_projection_schema, extend_values, prepend_rows, projection_schema, rows_outcome,
};
use crate::engine::state::{upserted, TableState};
use crate::error::Error;
use crate::expr::eval::{eval, prepend, value_of, values_outcome};
use crate::expr::{Expr, ExprView};
use crate::json::{json_parsed, parsed_fields, read_fields};
use crate::types::{field, ColumnView, Row, RowView, Schema};
use crate::value::{truthy, views, Value, ValueView};
use vstd::prelude::*;

verus! {

/// Reads rows from the JSON texts in their first fields.
#[derive(Debug)]
pub struct DeserializeOp {
    schema: Schema,
}

impl View for DeserializeOp {
    type V = Seq<ColumnView>;

    closed spec fn view(&self) -> Seq<ColumnView> {
        self.schema@
    }
}

/// The row that is read from another, if it can be.
pub open spec fn deserialized_row(row: RowView, schema: Seq<ColumnView>) -> Option<RowView> {
    match field(row.values, 0) {
        ValueView::String(s) => match parsed_fields(json_parsed(s), schema) {
            Some(values) => Some(RowView { values, metadata: row.metadata }),
            None => None,
        },
        _ => None,
    }
}

/// The rows that are read from the first `n` rows. Rows that cannot be read are
/// left out.
pub open spec fn deserialized(rows: Seq<RowView>, schema: Seq<ColumnView>, n: nat) -> Seq<RowView>
    decreases n,
{
    if n == 0 {
        Seq::empty()
    } else {
        let before = deserialized(rows, schema, (n - 1) as nat);
        match deserialized_row(rows[n - 1], schema) {
            Some(row) => before.push(row),
            None => before,
        }
    }
}

impl DeserializeOp {
    pub fn new(schema: Schema) -> (r: DeserializeOp)
        ensures
            r@ == schema@,
    {
        DeserializeOp { schema }
    }

    pub fn schema(&self) -> (r: &Schema)
        ensures
            r@ == self@,
    {
        &self.schema
    }

    /// Reads rows.
    pub fn read(&self, rows: &Vec<Row>) -> (r: Vec<Row>)
        ensures
            views(r@) == deserialized(views(rows@), self@, rows@.len()),
    {
        let ghost all = views(rows@);
        let mut output: Vec<Row> = Vec::new();
        let mut i: usize = 0;
        proof {
            assert(views(output@) =~= Seq::<RowView>::empty());
        }
        while i < rows.len()
            invariant
                i <= rows.len(),
                all == views(rows@),
                views(output@) == deserialized(all, self@, i as nat),
            decreases rows.len() - i,
        {
            let ghost before = output@;
            if let Value::String(s) = rows[i].get(0) {
                if let Some(values) = read_fields(s.as_str(), &self.schema) {
                    let row = Row::with_metadata(values, rows[i].metadata.clone());
                    let ghost held = row@;
                    output.push(row);
                    proof {
                        assert(views(output@) =~= views(before).push(held));
                    }
                }
            }
            i = i + 1;
        }
        output
    }
}

/// Keeps the rows on which a predicate holds.
#[derive(Debug)]
pub struct FilterOp {
    predicate: Expr,
    schema: Schema,
}

/// What a `FilterOp` holds.
pub struct FilterView {
    pub predicate: ExprView,
    pub schema: Seq<ColumnView>,
}

impl View for FilterOp {
    type V = FilterView;

    closed spec fn view(&self) -> FilterView {
        FilterView { predicate: self.predicate@, schema: self.schema@ }
    }
}

/// The rows from a place on, on which a predicate holds, or the first error.
pub open spec fn filtered(f: FilterView, rows: Seq<RowView>, i: nat) -> Result<
    Seq<RowView>,
    Seq<char>,
>
    decreases rows.len() - i,
{
    if i >= rows.len() {
        Ok(Seq::empty())
    } else {
        match value_of(f.predicate, rows[i as int], f.schema) {
            Err(e) => Err(e),
            Ok(v) => if truthy(v) {
                prepend_rows(seq![rows[i as int]], filtered(f, rows, i + 1))
            } else {
                filtered(f, rows, i + 1)
            },
        }
    }
}

impl FilterOp {
    pub fn new(predicate: Expr, schema: Schema) -> (r: FilterOp)
        ensures
            r@ == (FilterView { predicate: predicate@, schema: schema@ }),
    {
        FilterOp { predicate, schema }
    }

    pub fn schema(&self) -> (r: &Schema)
        ensures
            r@ == self@.schema,
    {
        &self.schema
    }

    /// Filters rows.
    pub fn keep(&self, rows: &Vec<Row>) -> (r: Result<Vec<Row>, Error>)
        ensures
            rows_outcome(r) == filtered(self@, views(rows@), 0),
    {
        let ghost all = views(rows@);
        let mut output: Vec<Row> = Vec::new();
        let mut i: usize = 0;
        proof {
            lemma_prepend_none(views(output@), filtered(self@, all, 0));
        }
        while i < rows.len()
            invariant
                i <= rows.len(),
                all == views(rows@),
                filtered(self@, all, 0) == prepend_rows(
                    views(output@),
                    filtered(self@, all, i as nat),
                ),
            decreases rows.len() - i,
        {
            let ghost before = views(output@);
            match eval(&self.predicate, &rows[i], &self.schema) {
                Ok(v) => {
                    if v.is_truthy() {
                        output.push(rows[i].clone());
                        proof {
                            assert(views(output@) =~= before.push(all[i as int]));
                            lemma_prepend_one(
                                before,
                                views(output@),
                                all[i as int],
                                filtered(self@, all, (i + 1) as nat),
                            );
                        }
                    }
                },
                Err(e) => {
                    return Err(e);
                },
            }
            i = i + 1;
        }
        proof {
            lemma_prepend_to_none(views(output@));
        }
        Ok(output)
    }
}

/// Nothing before rows changes nothing.
pub proof fn lemma_prepend_none(before: Seq<RowView>, r: Result<Seq<RowView>, Seq<char>>)
    requires
        before.len() == 0,
    ensures
        prepend_rows(before, r) == r,
{
    if r is Ok {
        assert(before + r->Ok_0 =~= r->Ok_0);
    }
}

/// Rows before none are those rows.
pub proof fn lemma_prepend_to_none(before: Seq<RowView>)
    ensures
        prepend_rows(before, Ok(Seq::empty())) == Ok::<Seq<RowView>, Seq<char>>(before),
{
    assert(before + Seq::<RowView>::empty() =~= before);
}

/// A row can pass from the rest to what comes before it.
pub proof fn lemma_prepend_one(
    before: Seq<RowView>,
    after: Seq<RowView>,
    row: RowView,
    rest: Result<Seq<RowView>, Seq<char>>,
)
    requires
        after == before.push(row),
    ensures
        prepend_rows(before, prepend_rows(seq![row], rest)) == prepend_rows(after, rest),
{
    if rest is Ok {
        assert(before + (seq![row] + rest->Ok_0) =~= after + rest->Ok_0);
    }
}

/// Computes expressions.
#[derive(Debug)]
pub struct ProjectOp {
    expressions: Vec<Expr>,
    input_schema: Schema,
    output_schema: Schema,
}

/// What a `ProjectOp` holds.
pub struct ProjectView {
    pub expressions: Seq<ExprView>,
    pub input_schema: Seq<ColumnView>,
    pub output_schema: Seq<ColumnView>,
}

impl View for ProjectOp {
    type V = ProjectView;

    closed spec fn view(&self) -> ProjectView {
        ProjectView {
            expressions: views(self.expressions@),
            input_schema: self.input_schema@,
            output_schema: self.output_schema@,
        }
    }
}

/// The values of the expressions from a place on, or the first error. A wildcard
/// stands for all fields of the row.
pub open spec fn projected_values(
    expressions: Seq<ExprView>,
    row: RowView,
    schema: Seq<ColumnView>,
    i: nat,
) -> Result<Seq<ValueView>, Seq<char>>
    decreases expressions.len() - i,
{
    if i >= expressions.len() {
        Ok(Seq::empty())
    } else if expressions[i as int] is Wildcard {
        prepend(row.values, projected_values(expressions, row, schema, i + 1))
    } else {
        match value_of(expressions[i as int], row, schema) {
            Err(e) => Err(e),
            Ok(v) => prepend(seq![v], projected_values(expressions, row, schema, i + 1)),
        }
    }
}

/// What a projection makes of a row. A lone wildcard leaves it as it is.
pub open spec fn projected_row(p: ProjectView, row: RowView) -> Result<RowView, Seq<char>> {
    if p.expressions.len() == 1 && p.expressions[0] is Wildcard {
        Ok(row)
    } else {
        match projected_values(p.expressions, row, p.input_schema, 0) {
            Ok(values) => Ok(RowView { values, metadata: row.metadata }),
            Err(e) => Err(e),
        }
    }
}

/// What a projection makes of the rows from a place on, or the first error.
pub open spec fn projected(p: ProjectView, rows: Seq<RowView>, i: nat) -> Result<
    Seq<RowView>,
    Seq<char>,
>
    decreases rows.len() - i,
{
    if i >= rows.len() {
        Ok(Seq::empty())
    } else {
        match projected_row(p, rows[i as int]) {
            Err(e) => Err(e),
            Ok(row) => prepend_rows(seq![row], projected(p, rows, i + 1)),
        }
    }
}

impl ProjectOp {
    pub fn new(expressions: Vec<Expr>, input_schema: Schema) -> (r: ProjectOp)
        ensures
            r@ == (ProjectView {
                expressions: views(expressions@),
                input_schema: input_schema@,
                output_schema: projection_schema(
                    views(expressions@),
                    input_schema@,
                    expressions@.len(),
                ),
            }),
    {
        let output_schema = compute_projection_schema(&expressions, &input_schema);
        ProjectOp { expressions, input_schema, output_schema }
    }

    pub fn schema(&self) -> (r: &Schema)
        ensures
            r@ == self@.output_schema,
    {
        &self.output_schema
    }

    fn project_values(&self, row: &Row) -> (r: Result<Vec<Value>, Error>)
        ensures
            values_outcome(r) == projected_values(
                self@.expressions,
                row@,
                self@.input_schema,
                0,
            ),
    {
        let ghost es = self@.expressions;
        let ghost schema = self@.input_schema;
        let mut values: Vec<Value> = Vec::new();
        let mut i: usize = 0;
        proof {
            let all = projected_values(es, row@, schema, 0);
            if all is Ok {
                assert(views(values@) + all->Ok_0 =~= all->Ok_0);
            }
        }
        while i < self.expressions.len()
            invariant
                i <= self.expressions.len(),
                es == self@.expressions,
                schema == self@.input_schema,
                projected_values(es, row@, schema, 0) == prepend(
                    views(values@),
                    projected_values(es, row@, schema, i as nat),
                ),
            decreases self.expressions.len() - i,
        {
            let ghost before = views(values@);
            let ghost rest = projected_values(es, row@, schema, (i + 1) as nat);
            proof {
                assert(es[i as int] == self.expressions@[i as int]@);
            }
            if let Expr::Wildcard = &self.expressions[i] {
                extend_values(&mut values, &row.values);
                proof {
                    if rest is Ok {
                        assert(before + (row@.values + rest->Ok_0) =~= (before + row@.values)
                            + rest->Ok_0);
                    }
                }
            } else {
                match eval(&self.expressions[i], row, &self.input_schema) {
                    Ok(v) => {
                        let ghost held = v@;
                        values.push(v);
                        proof {
                            assert(views(values@) =~= before + seq![held]);
                            if rest is Ok {
                                assert(before + (seq![held] + rest->Ok_0) =~= (before + seq![held])
                                    + rest->Ok_0);
                            }
                        }
                    },
                    Err(e) => {
                        return Err(e);
                    },
                }
            }
            i = i + 1;
        }
        proof {
            assert(views(values@) + Seq::<ValueView>::empty() =~= views(values@));
        }
        Ok(values)
    }

    /// Projects rows.
    pub fn project(&self, rows: &Vec<Row>) -> (r: Result<Vec<Row>, Error>)
        ensures
            rows_outcome(r) == projected(self@, views(rows@), 0),
    {
        let ghost all = views(rows@);
        let mut alone = false;
        if self.expressions.len() == 1 {
            proof {
                assert(self@.expressions[0] == self.expressions@[0]@);
            }
            if let Expr::Wildcard = &self.expressions[0] {
                alone = true;
            }
        }
        let mut output: Vec<Row> = Vec::new();
        let mut i: usize = 0;
        proof {
            lemma_prepend_none(views(output@), projected(self@, all, 0));
        }
        while i < rows.len()
            invariant
                i <= rows.len(),
                all == views(rows@),
                alone == (self@.expressions.len() == 1 && self@.expressions[0] is Wildcard),
                projected(self@, all, 0) == prepend_rows(
                    views(output@),
                    projected(self@, all, i as nat),
                ),
            decreases rows.len() - i,
        {
            let ghost before = views(output@);
            let row = if alone {
                rows[i].clone()
            } else {
                match self.project_values(&rows[i]) {
                    Ok(values) => Row::with_metadata(values, rows[i].metadata.clone()),
                    Err(e) => {
                        return Err(e);
                    },
                }
            };
            let ghost held = row@;
            output.push(row);
            proof {
                assert(views(output@) =~= before.push(held));
                lemma_prepend_one(
                    before,
                    views(output@),
                    held,
                    projected(self@, all, (i + 1) as nat),
                );
            }
            i = i + 1;
        }
        proof {
            lemma_prepend_to_none(views(output@));
        }
        Ok(output)
    }
}

/// Keeps the latest row of each key.
#[derive(Debug)]
pub struct TableSinkOp {
    key_index: usize,
    schema: Schema,
    state: TableState,
}

/// What a `TableSinkOp` holds.
pub struct TableSinkView {
    pub key_index: int,
    pub schema: Seq<ColumnView>,
    pub table: Seq<(ValueView, RowView)>,
}

impl View for TableSinkOp {
    type V = TableSinkView;

    closed spec fn view(&self) -> TableSinkView {
        TableSinkView {
            key_index: self.key_index as int,
            schema: self.schema@,
            table: self.state@,
        }
    }
}

/// A table after the first `n` rows were put into it under their keys.
pub open spec fn stored(
    table: Seq<(ValueView, RowView)>,
    rows: Seq<RowView>,
    key_index: int,
    n: nat,
) -> Seq<(ValueView, RowView)>
    decreases n,
{
    if n == 0 {
        table
    } else {
        let row = rows[n - 1];
        upserted(
            stored(table, rows, key_index, (n - 1) as nat),
            field(row.values, key_index),
            row,
        )
    }
}

/// Puts rows into a table under their keys.
pub fn store_rows(state: &mut TableState, rows: &Vec<Row>, key_index: usize)
    ensures
        final(state)@ == stored(old(state)@, views(rows@), key_index as int, rows@.len()),
{
    let mut i: usize = 0;
    while i < rows.len()
        invariant
            i <= rows.len(),
            state@ == stored(old(state)@, views(rows@), key_index as int, i as nat),
        decreases rows.len() - i,
    {
        let key = rows[i].get(key_index).clone();
        state.upsert(key, rows[i].clone());
        i = i + 1;
    }
}

impl TableSinkOp {
    pub fn new(key_index: usize, schema: Schema) -> (r: TableSinkOp)
        ensures
            r@ == (TableSinkView {
                key_index: key_index as int,
                schema: schema@,
                table: Seq::empty(),
            }),
    {
        TableSinkOp { key_index, schema, state: TableState::new() }
    }

    pub fn schema(&self) -> (r: &Schema)
        ensures
            r@ == self@.schema,
    {
        &self.schema
    }

    /// The latest rows.
    pub fn state(&self) -> (r: &TableState)
        ensures
            r@ == self@.table,
    {
        &self.state
    }

    /// Takes in rows.
    pub fn store(&mut self, rows: &Vec<Row>)
        ensures
            final(self)@ == (TableSinkView {
                table: stored(
                    old(self)@.table,
                    views(rows@),
                    old(self)@.key_index,
                    rows@.len(),
                ),
                ..old(self)@
            }),
    {
        store_rows(&mut self.state, rows, self.key_index);
    }
}

} // verus!
