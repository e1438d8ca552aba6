//! Aggregation of groups of rows.
use crate::engine::accumulator::{
    accumulated, aggregate_value, counted, Accumulator, AccumulatorView,
};
use crate::engine::operator::rows::{
    aggregate_schema, compute_aggregate_schema, prepend_rows, rows_outcome,
};
use crate::engine::operator::simple::{
    lemma_prepend_none, lemma_prepend_one, lemma_prepend_to_none,
};
use crate::engine::state::{group_place, group_set, with_group, AggregateState};
use crate::error::Error;
use crate::expr::eval::{eval, eval_all, value_of, values_of};
use crate::expr::{Expr, ExprView};
use crate::plan::{having_view, AggregateExpr, AggregateFunction, AggregateView};
use crate::types::{no_metadata, ColumnView, Row, RowView, Schema};
use crate::value::{clone_values, truthy, views, Value, ValueView};
use vstd::prelude::*;

pub mod laws;

verus! {

/// The functions of aggregates, each with whether only different values count.
pub open spec fn functions_of(aggregates: Seq<AggregateView>) -> Seq<(AggregateFunction, bool)> {
    aggregates.map_values(|a: AggregateView| (a.function, a.distinct))
}

pub fn list_functions(aggregates: &Vec<AggregateExpr>) -> (r: Vec<(AggregateFunction, bool)>)
    ensures
        r@ == functions_of(views(aggregates@)),
{
    let mut r: Vec<(AggregateFunction, bool)> = Vec::new();
    let mut i: usize = 0;
    while i < aggregates.len()
        invariant
            i <= aggregates.len(),
            r.len() == i,
            forall|j: int| 0 <= j < i ==> r@[j] == functions_of(views(aggregates@))[j],
        decreases aggregates.len() - i,
    {
        r.push((aggregates[i].function, aggregates[i].distinct));
        i = i + 1;
    }
    proof {
        assert(r@ =~= functions_of(views(aggregates@)));
    }
    r
}

/// What accumulators hold once the aggregates from a place on have taken in a row,
/// up to the first error, and that error.
pub open spec fn row_taken(
    accumulators: Seq<AccumulatorView>,
    aggregates: Seq<AggregateView>,
    row: RowView,
    schema: Seq<ColumnView>,
    i: nat,
) -> (Seq<AccumulatorView>, Option<Seq<char>>)
    decreases aggregates.len() - i,
{
    if i >= aggregates.len() || i >= accumulators.len() {
        (accumulators, None)
    } else if aggregates[i as int].expr is Wildcard {
        row_taken(
            accumulators.update(i as int, counted(accumulators[i as int])),
            aggregates,
            row,
            schema,
            i + 1,
        )
    } else {
        match value_of(aggregates[i as int].expr, row, schema) {
            Err(e) => (accumulators, Some(e)),
            Ok(v) => row_taken(
                accumulators.update(i as int, accumulated(accumulators[i as int], v)),
                aggregates,
                row,
                schema,
                i + 1,
            ),
        }
    }
}

/// What an optional error says.
pub open spec fn error_view(e: Option<Error>) -> Option<Seq<char>> {
    match e {
        Some(e) => Some(e@),
        None => None,
    }
}

/// Has aggregates take in a row.
pub fn take_row(
    accumulators: &mut Vec<Accumulator>,
    aggregates: &Vec<AggregateExpr>,
    row: &Row,
    schema: &Schema,
) -> (r: Option<Error>)
    ensures
        (views(final(accumulators)@), error_view(r)) == row_taken(
            views(old(accumulators)@),
            views(aggregates@),
            row@,
            schema@,
            0,
        ),
{
    let ghost a = views(aggregates@);
    let ghost first = views(accumulators@);
    let mut i: usize = 0;
    while i < aggregates.len() && i < accumulators.len()
        invariant
            i <= aggregates.len(),
            i <= accumulators.len(),
            a == views(aggregates@),
            first == views(old(accumulators)@),
            row_taken(first, a, row@, schema@, 0) == row_taken(
                views(accumulators@),
                a,
                row@,
                schema@,
                i as nat,
            ),
        decreases aggregates.len() - i,
    {
        let ghost before = views(accumulators@);
        proof {
            assert(a[i as int] == aggregates@[i as int]@);
            assert(before[i as int] == accumulators@[i as int]@);
        }
        if let Expr::Wildcard = &aggregates[i].expr {
            accumulators[i].accumulate_star();
            proof {
                assert(views(accumulators@) =~= before.update(
                    i as int,
                    counted(before[i as int]),
                ));
            }
        } else {
            match eval(&aggregates[i].expr, row, schema) {
                Ok(v) => {
                    accumulators[i].accumulate(&v);
                    proof {
                        assert(views(accumulators@) =~= before.update(
                            i as int,
                            accumulated(before[i as int], v@),
                        ));
                    }
                },
                Err(e) => {
                    return Some(e);
                },
            }
        }
        i = i + 1;
    }
    None
}

/// The values of aggregates.
pub open spec fn results(accumulators: Seq<AccumulatorView>) -> Seq<ValueView> {
    accumulators.map_values(|a: AccumulatorView| aggregate_value(a))
}

/// Adds the values of aggregates to those of a group's key.
pub fn push_results(key: &Vec<Value>, accumulators: &Vec<Accumulator>) -> (r: Vec<Value>)
    ensures
        views(r@) == views(key@) + results(views(accumulators@)),
{
    let mut values = clone_values(key);
    let mut i: usize = 0;
    proof {
        assert(views(values@) =~= views(key@) + results(views(accumulators@)).take(0));
    }
    while i < accumulators.len()
        invariant
            i <= accumulators.len(),
            views(values@) == views(key@) + results(views(accumulators@)).take(i as int),
        decreases accumulators.len() - i,
    {
        let ghost before = views(values@);
        let ghost all = results(views(accumulators@));
        values.push(accumulators[i].result());
        proof {
            assert(views(values@) =~= before.push(all[i as int]));
            assert(views(values@) =~= views(key@) + all.take(i + 1));
        }
        i = i + 1;
    }
    proof {
        let all = results(views(accumulators@));
        assert(all.take(all.len() as int) =~= all);
    }
    values
}

/// Whether the row of a group is put out: where there is no condition, or it
/// holds.
pub open spec fn is_put_out(
    having: Option<ExprView>,
    row: RowView,
    schema: Seq<ColumnView>,
) -> Result<bool, Seq<char>> {
    match having {
        None => Ok(true),
        Some(h) => match value_of(h, row, schema) {
            Ok(v) => Ok(truthy(v)),
            Err(e) => Err(e),
        },
    }
}

/// Decides whether the row of a group is put out.
pub fn check_having(having: &Option<Expr>, row: &Row, schema: &Schema) -> (r: Result<bool, Error>)
    ensures
        match r {
            Ok(b) => is_put_out(having_view(*having), row@, schema@) == Ok::<bool, Seq<char>>(b),
            Err(e) => is_put_out(having_view(*having), row@, schema@) == Err::<bool, Seq<char>>(
                e@,
            ),
        },
{
    match having {
        None => Ok(true),
        Some(h) => match eval(h, row, schema) {
            Ok(v) => Ok(v.is_truthy()),
            Err(e) => Err(e),
        },
    }
}

/// Groups rows and aggregates each group. After each batch all groups are put out.
#[derive(Debug)]
pub struct AggregateOp {
    group_by: Vec<Expr>,
    aggregates: Vec<AggregateExpr>,
    having: Option<Expr>,
    input_schema: Schema,
    output_schema: Schema,
    state: AggregateState,
}

/// What an `AggregateOp` holds.
pub struct AggregateOpView {
    pub group_by: Seq<ExprView>,
    pub aggregates: Seq<AggregateView>,
    pub having: Option<ExprView>,
    pub input_schema: Seq<ColumnView>,
    pub output_schema: Seq<ColumnView>,
    pub groups: Seq<(Seq<ValueView>, Seq<AccumulatorView>)>,
}

impl View for AggregateOp {
    type V = AggregateOpView;

    closed spec fn view(&self) -> AggregateOpView {
        AggregateOpView {
            group_by: views(self.group_by@),
            aggregates: views(self.aggregates@),
            having: having_view(self.having),
            input_schema: self.input_schema@,
            output_schema: self.output_schema@,
            groups: self.state@,
        }
    }
}

/// The groups after the rows from a place on, up to the first error, and that
/// error. A row that fails still leaves behind what was done for it before.
pub open spec fn grouped(
    a: AggregateOpView,
    groups: Seq<(Seq<ValueView>, Seq<AccumulatorView>)>,
    rows: Seq<RowView>,
    i: nat,
) -> (Seq<(Seq<ValueView>, Seq<AccumulatorView>)>, Option<Seq<char>>)
    decreases rows.len() - i,
{
    if i >= rows.len() {
        (groups, None)
    } else {
        match values_of(a.group_by, rows[i as int], a.input_schema, 0) {
            Err(e) => (groups, Some(e)),
            Ok(key) => {
                let all = with_group(groups, key, functions_of(a.aggregates));
                let place = group_place(groups, key);
                let (accumulators, error) = row_taken(
                    all[place].1,
                    a.aggregates,
                    rows[i as int],
                    a.input_schema,
                    0,
                );
                let after = group_set(all, place, accumulators);
                match error {
                    Some(e) => (after, Some(e)),
                    None => grouped(a, after, rows, i + 1),
                }
            },
        }
    }
}

/// The row of a group.
pub open spec fn group_row(g: (Seq<ValueView>, Seq<AccumulatorView>)) -> RowView {
    RowView { values: g.0 + results(g.1), metadata: no_metadata() }
}

/// The rows of the groups from a place on that are put out, or the first error.
pub open spec fn groups_out(
    groups: Seq<(Seq<ValueView>, Seq<AccumulatorView>)>,
    having: Option<ExprView>,
    schema: Seq<ColumnView>,
    i: nat,
) -> Result<Seq<RowView>, Seq<char>>
    decreases groups.len() - i,
{
    if i >= groups.len() {
        Ok(Seq::empty())
    } else {
        let row = group_row(groups[i as int]);
        match is_put_out(having, row, schema) {
            Err(e) => Err(e),
            Ok(b) => if b {
                prepend_rows(seq![row], groups_out(groups, having, schema, i + 1))
            } else {
                groups_out(groups, having, schema, i + 1)
            },
        }
    }
}

/// What an aggregation puts out after a batch, and the groups that it then keeps.
pub open spec fn aggregate_step(a: AggregateOpView, rows: Seq<RowView>) -> (
    Result<Seq<RowView>, Seq<char>>,
    AggregateOpView,
) {
    let (groups, error) = grouped(a, a.groups, rows, 0);
    let result = match error {
        Some(e) => Err(e),
        None => groups_out(groups, a.having, a.output_schema, 0),
    };
    (result, AggregateOpView { groups, ..a })
}

impl AggregateOp {
    pub fn new(
        group_by: Vec<Expr>,
        aggregates: Vec<AggregateExpr>,
        having: Option<Expr>,
        input_schema: Schema,
    ) -> (r: AggregateOp)
        ensures
            r@ == (AggregateOpView {
                group_by: views(group_by@),
                aggregates: views(aggregates@),
                having: having_view(having),
                input_schema: input_schema@,
                output_schema: aggregate_schema(
                    views(group_by@),
                    views(aggregates@),
                    input_schema@,
                ),
                groups: Seq::empty(),
            }),
    {
        let output_schema = compute_aggregate_schema(&group_by, &aggregates, &input_schema);
        AggregateOp {
            group_by,
            aggregates,
            having,
            input_schema,
            output_schema,
            state: AggregateState::new(),
        }
    }

    pub fn schema(&self) -> (r: &Schema)
        ensures
            r@ == self@.output_schema,
    {
        &self.output_schema
    }

    fn take_rows(&mut self, rows: &Vec<Row>) -> (r: Option<Error>)
        ensures
            final(self)@ == (AggregateOpView {
                groups: grouped(old(self)@, old(self)@.groups, views(rows@), 0).0,
                ..old(self)@
            }),
            error_view(r) == grouped(old(self)@, old(self)@.groups, views(rows@), 0).1,
    {
        let ghost a = self@;
        let ghost all = views(rows@);
        let functions = list_functions(&self.aggregates);
        let mut i: usize = 0;
        while i < rows.len()
            invariant
                i <= rows.len(),
                all == views(rows@),
                a == old(self)@,
                functions@ == functions_of(a.aggregates),
                self@ == (AggregateOpView { groups: self@.groups, ..a }),
                grouped(a, a.groups, all, 0) == grouped(a, self@.groups, all, i as nat),
            decreases rows.len() - i,
        {
            let ghost groups = self@.groups;
            match eval_all(&self.group_by, &rows[i], &self.input_schema) {
                Ok(key) => {
                    let accumulators = self.state.get_or_create(key, functions.as_slice());
                    let error = take_row(
                        accumulators,
                        &self.aggregates,
                        &rows[i],
                        &self.input_schema,
                    );
                    if let Some(e) = error {
                        return Some(e);
                    }
                },
                Err(e) => {
                    return Some(e);
                },
            }
            i = i + 1;
        }
        None
    }

    fn put_out(&self) -> (r: Result<Vec<Row>, Error>)
        ensures
            rows_outcome(r) == groups_out(self@.groups, self@.having, self@.output_schema, 0),
    {
        let ghost all = self@.groups;
        let ghost having = self@.having;
        let ghost schema = self@.output_schema;
        let groups = self.state.iter();
        let mut output: Vec<Row> = Vec::new();
        let mut i: usize = 0;
        proof {
            lemma_prepend_none(views(output@), groups_out(all, having, schema, 0));
        }
        while i < groups.len()
            invariant
                i <= groups.len(),
                all == groups@.map_values(
                    |g: (&Vec<Value>, &Vec<Accumulator>)| (views(g.0@), views(g.1@)),
                ),
                all == self@.groups,
                having == self@.having,
                schema == self@.output_schema,
                groups_out(all, having, schema, 0) == prepend_rows(
                    views(output@),
                    groups_out(all, having, schema, i as nat),
                ),
            decreases groups.len() - i,
        {
            let ghost before = views(output@);
            let row = Row::new(push_results(groups[i].0, groups[i].1));
            proof {
                assert(row@ == group_row(all[i as int]));
            }
            match check_having(&self.having, &row, &self.output_schema) {
                Ok(b) => {
                    if b {
                        let ghost held = row@;
                        output.push(row);
                        proof {
                            assert(views(output@) =~= before.push(held));
                            lemma_prepend_one(
                                before,
                                views(output@),
                                held,
                                groups_out(all, having, schema, (i + 1) as nat),
                            );
                        }
                    }
                },
                Err(e) => {
                    return Err(e);
                },
            }
            i = i + 1;
        }
        proof {
            lemma_prepend_to_none(views(output@));
        }
        Ok(output)
    }

    /// Takes in a batch and puts all groups out.
    pub fn aggregate(&mut self, rows: &Vec<Row>) -> (r: Result<Vec<Row>, Error>)
        ensures
            (rows_outcome(r), final(self)@) == aggregate_step(old(self)@, views(rows@)),
    {
        match self.take_rows(rows) {
            Some(e) => Err(e),
            None => self.put_out(),
        }
    }
}

} // verus!
