//! Laws of columns, comparisons, conditions and casts in expressions.
use crate::double::{to_integer, Double, Rounding};
use crate::engine::operator::window::laws::lemma_at_millis;
use crate::expr::eval::{
    binary_value, branch_value, cast, like, value_of, values_of,
};
use crate::expr::{BinaryOp, ExprView, UnaryOp};
use crate::text::laws::{differ_in_case, lemma_same_letters};
use crate::text::{ascii_lower, integer_text, lemma_integer_round_trip, same_letters, upper};
use crate::time::Timestamp;
use crate::types::{lemma_find_column, ColumnView, DataTypeView, RowView};
use crate::value::{equal, truthy, value_order, Order, ValueView};
use vstd::prelude::*;

verus! {

/// The values of expressions are one for each, in their order; there are none where one
/// of the expressions has none.
pub proof fn lemma_values(args: Seq<ExprView>, row: RowView, schema: Seq<ColumnView>)
    ensures
        match values_of(args, row, schema, 0) {
            Ok(values) => values.len() == args.len() && forall|i: int|
                0 <= i < args.len() ==> value_of(#[trigger] args[i], row, schema) == Ok::<
                    ValueView,
                    Seq<char>,
                >(values[i]),
            Err(e) => exists|i: int|
                0 <= i < args.len() && value_of(#[trigger] args[i], row, schema) == Err::<
                    ValueView,
                    Seq<char>,
                >(e) && forall|j: int|
                    0 <= j < i ==> value_of(#[trigger] args[j], row, schema) is Ok,
        },
{
    lemma_values_from(args, row, schema, 0);
}

proof fn lemma_values_from(args: Seq<ExprView>, row: RowView, schema: Seq<ColumnView>, i: nat)
    requires
        i <= args.len(),
    ensures
        match values_of(args, row, schema, i) {
            Ok(values) => values.len() == args.len() - i && forall|k: int|
                i <= k < args.len() ==> value_of(#[trigger] args[k], row, schema) == Ok::<
                    ValueView,
                    Seq<char>,
                >(values[k - i]),
            Err(e) => exists|k: int|
                i <= k < args.len() && value_of(#[trigger] args[k], row, schema) == Err::<
                    ValueView,
                    Seq<char>,
                >(e) && forall|j: int|
                    i <= j < k ==> value_of(#[trigger] args[j], row, schema) is Ok,
        },
    decreases args.len() - i,
{
    if i < args.len() {
        lemma_values_from(args, row, schema, i + 1);
        if let Ok(v) = value_of(args[i as int], row, schema) {
            if let Ok(rest) = values_of(args, row, schema, i + 1) {
                let all = seq![v] + rest;
                assert forall|k: int| i <= k < args.len() implies value_of(
                    #[trigger] args[k],
                    row,
                    schema,
                ) == Ok::<ValueView, Seq<char>>(all[k - i]) by {
                    if k > i {
                        assert(all[k - i] == rest[k - (i + 1)]);
                    }
                }
            }
        } else {
            assert(value_of(args[i as int], row, schema) is Err);
        }
    }
}

/// The value of a column is that of the first field whose name is the same but for the
/// case of letters, and null where the row is too short for it. Without such a column
/// there is none.
pub proof fn lemma_column(name: Seq<char>, row: RowView, schema: Seq<ColumnView>, k: int)
    requires
        upper(name) != "ROWTIME"@,
        upper(name) != "ROWKEY"@,
        upper(name) != "WINDOWSTART"@,
        upper(name) != "WINDOWEND"@,
    ensures
        0 <= k < schema.len() && differ_in_case(schema[k].name, name) && (
        forall|j: int|
            0 <= j < k ==> !differ_in_case((#[trigger] schema[j]).name, name))
            ==> value_of(ExprView::Column(name), row, schema) == Ok::<ValueView, Seq<char>>(
            if k < row.values.len() {
                row.values[k]
            } else {
                ValueView::Null
            },
        ),
        (forall|j: int|
            0 <= j < schema.len() ==> !differ_in_case(
                (#[trigger] schema[j]).name,
                name,
            )) ==> value_of(ExprView::Column(name), row, schema) is Err,
{
    lemma_find_column(schema, name, 0);
    assert forall|j: int| 0 <= j < schema.len() implies same_letters(
        #[trigger] schema[j].name,
        name,
    ) == differ_in_case(schema[j].name, name) by {
        lemma_same_letters(schema[j].name, name);
    }
}

/// What is known of a row beside its fields has names of its own: its time, its key, and
/// the start and the end of its window. It is null where it is not known.
pub proof fn lemma_row_columns(name: Seq<char>, row: RowView, schema: Seq<ColumnView>)
    ensures
        upper(name) == "ROWTIME"@ ==> value_of(ExprView::Column(name), row, schema) == Ok::<
            ValueView,
            Seq<char>,
        >(
            match row.metadata.timestamp {
                Some(t) => ValueView::Timestamp(t),
                None => ValueView::Null,
            },
        ),
        upper(name) == "ROWKEY"@ ==> value_of(ExprView::Column(name), row, schema) == Ok::<
            ValueView,
            Seq<char>,
        >(
            match row.metadata.key {
                Some(k) => ValueView::String(k),
                None => ValueView::Null,
            },
        ),
        upper(name) == "WINDOWSTART"@ ==> value_of(ExprView::Column(name), row, schema) == Ok::<
            ValueView,
            Seq<char>,
        >(
            match row.metadata.window_start {
                Some(t) => ValueView::Timestamp(t),
                None => ValueView::Null,
            },
        ),
        upper(name) == "WINDOWEND"@ ==> value_of(ExprView::Column(name), row, schema) == Ok::<
            ValueView,
            Seq<char>,
        >(
            match row.metadata.window_end {
                Some(t) => ValueView::Timestamp(t),
                None => ValueView::Null,
            },
        ),
{
    reveal_strlit("ROWTIME");
    reveal_strlit("ROWKEY");
    reveal_strlit("WINDOWSTART");
    reveal_strlit("WINDOWEND");
    assert("ROWTIME"@.len() == 7);
    assert("ROWKEY"@.len() == 6);
    assert("WINDOWSTART"@.len() == 11);
    assert("WINDOWEND"@.len() == 9);
}

/// A literal has the value that it holds.
pub proof fn lemma_literal(v: ValueView, row: RowView, schema: Seq<ColumnView>)
    ensures
        value_of(ExprView::Literal(v), row, schema) == Ok::<ValueView, Seq<char>>(v),
{
}

/// Comparisons of values that are not null say how they stand in order, and whether they
/// are equal.
pub proof fn lemma_compared(a: ValueView, b: ValueView)
    requires
        !(a is Null),
        !(b is Null),
    ensures
        binary_value(a, BinaryOp::Eq, b) == Ok::<ValueView, Seq<char>>(
            ValueView::Boolean(equal(a, b)),
        ),
        binary_value(a, BinaryOp::NotEq, b) == Ok::<ValueView, Seq<char>>(
            ValueView::Boolean(!equal(a, b)),
        ),
        binary_value(a, BinaryOp::Lt, b) == Ok::<ValueView, Seq<char>>(
            ValueView::Boolean(value_order(a, b) == Order::Less),
        ),
        binary_value(a, BinaryOp::Gt, b) == Ok::<ValueView, Seq<char>>(
            ValueView::Boolean(value_order(a, b) == Order::Greater),
        ),
        binary_value(a, BinaryOp::LtEq, b) == Ok::<ValueView, Seq<char>>(
            ValueView::Boolean(value_order(a, b) == Order::Less || value_order(a, b)
                == Order::Equal),
        ),
        binary_value(a, BinaryOp::GtEq, b) == Ok::<ValueView, Seq<char>>(
            ValueView::Boolean(value_order(a, b) == Order::Greater || value_order(a, b)
                == Order::Equal),
        ),
{
}

/// Integers are compared as numbers.
pub proof fn lemma_compared_integers(i: i64, j: i64)
    ensures
        ({
            let a = ValueView::Integer(i);
            let b = ValueView::Integer(j);
            &&& binary_value(a, BinaryOp::Eq, b) == Ok::<ValueView, Seq<char>>(
                ValueView::Boolean(i == j),
            )
            &&& binary_value(a, BinaryOp::NotEq, b) == Ok::<ValueView, Seq<char>>(
                ValueView::Boolean(i != j),
            )
            &&& binary_value(a, BinaryOp::Lt, b) == Ok::<ValueView, Seq<char>>(
                ValueView::Boolean(i < j),
            )
            &&& binary_value(a, BinaryOp::LtEq, b) == Ok::<ValueView, Seq<char>>(
                ValueView::Boolean(i <= j),
            )
            &&& binary_value(a, BinaryOp::Gt, b) == Ok::<ValueView, Seq<char>>(
                ValueView::Boolean(i > j),
            )
            &&& binary_value(a, BinaryOp::GtEq, b) == Ok::<ValueView, Seq<char>>(
                ValueView::Boolean(i >= j),
            )
        }),
{
}

/// NOT is true where what stands behind it does not count as true; NOT of null is null.
/// A test for null never is: it is true exactly where the value is null, or, turned
/// round, exactly where it is not.
pub proof fn lemma_not_and_null(e: ExprView, row: RowView, schema: Seq<ColumnView>)
    requires
        value_of(e, row, schema) is Ok,
    ensures
        ({
            let v = value_of(e, row, schema)->Ok_0;
            &&& value_of(
                ExprView::UnaryOp { op: UnaryOp::Not, expr: Box::new(e) },
                row,
                schema,
            ) == Ok::<ValueView, Seq<char>>(
                if v is Null {
                    ValueView::Null
                } else {
                    ValueView::Boolean(!truthy(v))
                },
            )
            &&& value_of(
                ExprView::IsNull { expr: Box::new(e), negated: false },
                row,
                schema,
            ) == Ok::<ValueView, Seq<char>>(ValueView::Boolean(v is Null))
            &&& value_of(
                ExprView::IsNull { expr: Box::new(e), negated: true },
                row,
                schema,
            ) == Ok::<ValueView, Seq<char>>(ValueView::Boolean(!(v is Null)))
        }),
{
}

/// LIKE on a text is true exactly where it matches the pattern, and NOT LIKE exactly
/// where it does not; on null both are null, and there is no LIKE on other values.
pub proof fn lemma_like(
    e: ExprView,
    pattern: Seq<char>,
    negated: bool,
    row: RowView,
    schema: Seq<ColumnView>,
)
    ensures
        ({
            let r = value_of(ExprView::Like { expr: Box::new(e), pattern, negated }, row, schema);
            match value_of(e, row, schema) {
                Ok(ValueView::String(s)) => r == Ok::<ValueView, Seq<char>>(
                    ValueView::Boolean(like(s, pattern) != negated),
                ),
                Ok(ValueView::Null) => r == Ok::<ValueView, Seq<char>>(ValueView::Null),
                Ok(_) => r is Err,
                Err(x) => r == Err::<ValueView, Seq<char>>(x),
            }
        }),
{
}

/// A character of a pattern that is no wildcard matches itself, in any case.
pub proof fn lemma_like_char(value: Seq<char>, c: char, pattern: Seq<char>)
    requires
        c != '%',
        c != '_',
    ensures
        like(value, seq![c] + pattern) <==> value.len() > 0 && ascii_lower(value[0])
            == ascii_lower(c) && like(value.drop_first(), pattern),
        like(value, Seq::empty()) <==> value.len() == 0,
{
    let open = seq![c] + pattern;
    assert(open.drop_first() =~= pattern);
    assert(open[0] == c);
}

/// BETWEEN is true exactly where the value is not below the lower bound and not above the
/// upper one, and NOT BETWEEN exactly where it is; a null on any side makes it null.
pub proof fn lemma_between_values(
    e: ExprView,
    low: ExprView,
    high: ExprView,
    negated: bool,
    row: RowView,
    schema: Seq<ColumnView>,
)
    requires
        value_of(e, row, schema) is Ok,
        value_of(low, row, schema) is Ok,
        value_of(high, row, schema) is Ok,
    ensures
        ({
            let v = value_of(e, row, schema)->Ok_0;
            let l = value_of(low, row, schema)->Ok_0;
            let h = value_of(high, row, schema)->Ok_0;
            let between = ExprView::Between {
                expr: Box::new(e),
                low: Box::new(low),
                high: Box::new(high),
                negated,
            };
            value_of(between, row, schema) == Ok::<ValueView, Seq<char>>(
                if v is Null || l is Null || h is Null {
                    ValueView::Null
                } else {
                    ValueView::Boolean(
                        (value_order(v, l) != Order::Less && value_order(v, h) != Order::Greater)
                            != negated,
                    )
                },
            )
        }),
{
}

/// A CASE without an operand has the value of its first branch whose condition counts as
/// true; where there is none, that of its ELSE, or null without one.
pub proof fn lemma_case(
    conditions: Seq<(ExprView, ExprView)>,
    otherwise: Option<Box<ExprView>>,
    row: RowView,
    schema: Seq<ColumnView>,
    n: int,
)
    requires
        0 <= n <= conditions.len(),
        forall|i: int|
            0 <= i < n ==> (value_of((#[trigger] conditions[i]).0, row, schema) matches Ok(v)
                && !truthy(v)),
    ensures
        ({
            let r = value_of(
                ExprView::Case { operand: None, conditions, else_result: otherwise },
                row,
                schema,
            );
            &&& n < conditions.len() && (value_of(conditions[n].0, row, schema) matches Ok(v)
                && truthy(v)) ==> r == value_of(conditions[n].1, row, schema)
            &&& n < conditions.len() && (value_of(conditions[n].0, row, schema) is Err) ==> r is Err
            &&& n == conditions.len() ==> r == match otherwise {
                Some(e) => value_of(*e, row, schema),
                None => Ok(ValueView::Null),
            }
        }),
{
    lemma_branches(None, conditions, row, schema, 0, n as nat);
}

/// A CASE with an operand has the value of its first branch whose condition equals it.
pub proof fn lemma_case_of(
    operand: ExprView,
    conditions: Seq<(ExprView, ExprView)>,
    otherwise: Option<Box<ExprView>>,
    row: RowView,
    schema: Seq<ColumnView>,
    n: int,
)
    requires
        value_of(operand, row, schema) is Ok,
        0 <= n <= conditions.len(),
        forall|i: int|
            0 <= i < n ==> (value_of((#[trigger] conditions[i]).0, row, schema) matches Ok(v)
                && !equal(value_of(operand, row, schema)->Ok_0, v)),
    ensures
        ({
            let subject = value_of(operand, row, schema)->Ok_0;
            let r = value_of(
                ExprView::Case {
                    operand: Some(Box::new(operand)),
                    conditions,
                    else_result: otherwise,
                },
                row,
                schema,
            );
            &&& n < conditions.len() && (value_of(conditions[n].0, row, schema) matches Ok(v)
                && equal(subject, v)) ==> r == value_of(conditions[n].1, row, schema)
            &&& n < conditions.len() && (value_of(conditions[n].0, row, schema) is Err) ==> r is Err
            &&& n == conditions.len() ==> r == match otherwise {
                Some(e) => value_of(*e, row, schema),
                None => Ok(ValueView::Null),
            }
        }),
{
    let subject = value_of(operand, row, schema)->Ok_0;
    lemma_branches(Some(subject), conditions, row, schema, 0, n as nat);
}

proof fn lemma_branches(
    subject: Option<ValueView>,
    conditions: Seq<(ExprView, ExprView)>,
    row: RowView,
    schema: Seq<ColumnView>,
    i: nat,
    n: nat,
)
    requires
        i <= n <= conditions.len(),
        forall|k: int|
            i <= k < n ==> (value_of((#[trigger] conditions[k]).0, row, schema) matches Ok(v) && !(
            match subject {
                Some(s) => equal(s, v),
                None => truthy(v),
            })),
    ensures
        branch_value(subject, conditions, row, schema, i) == branch_value(
            subject,
            conditions,
            row,
            schema,
            n,
        ),
    decreases n - i,
{
    if i < n {
        assert(value_of(conditions[i as int].0, row, schema) is Ok);
        lemma_branches(subject, conditions, row, schema, i + 1, n);
    }
}

/// A cast has the value of what is cast, turned into the type. Null stays null, and a
/// value that is of the type already stays as it is.
pub proof fn lemma_cast(e: ExprView, t: DataTypeView, row: RowView, schema: Seq<ColumnView>)
    requires
        value_of(e, row, schema) is Ok,
    ensures
        ({
            let v = value_of(e, row, schema)->Ok_0;
            let r = value_of(
                ExprView::Cast { expr: Box::new(e), data_type: t },
                row,
                schema,
            );
            &&& r == cast(v, t)
            &&& v is Null ==> r == Ok::<ValueView, Seq<char>>(v)
            &&& (v is Boolean && t is Boolean) || (v is Integer && (t is Integer || t is BigInt))
                || (v is Double && t is Double) || (v is String && t is String) || (v is Timestamp
                && t is Timestamp) ==> r == Ok::<ValueView, Seq<char>>(v)
        }),
{
}

/// What truth values, integers and doubles are cast to. An integer is true unless it is
/// zero; true is one and false zero; the fraction of a double is cut off; an integer is
/// taken to the nearest double, and to the instant so many milliseconds from 1970.
pub proof fn lemma_cast_numbers(b: bool, i: i64, d: Double)
    ensures
        cast(ValueView::Integer(i), DataTypeView::Boolean) == Ok::<ValueView, Seq<char>>(
            ValueView::Boolean(i != 0),
        ),
        cast(ValueView::Boolean(b), DataTypeView::Integer) == Ok::<ValueView, Seq<char>>(
            ValueView::Integer(if b { 1 } else { 0 }),
        ),
        cast(ValueView::Boolean(b), DataTypeView::BigInt) == cast(
            ValueView::Boolean(b),
            DataTypeView::Integer,
        ),
        cast(ValueView::Double(d), DataTypeView::Integer) == Ok::<ValueView, Seq<char>>(
            ValueView::Integer(to_integer(d, Rounding::Truncate)),
        ),
        cast(ValueView::Integer(i), DataTypeView::Double) == Ok::<ValueView, Seq<char>>(
            ValueView::Double(Double::nearest_to(i as int)),
        ),
        cast(ValueView::Double(d), DataTypeView::Boolean) is Err,
        cast(ValueView::Boolean(b), DataTypeView::Double) is Err,
        cast(ValueView::Boolean(b), DataTypeView::Timestamp) is Err,
        Timestamp::fits_millis(i as int) ==> (cast(ValueView::Integer(i), DataTypeView::Timestamp)
            matches Ok(ValueView::Timestamp(t)) && t.millis() == i),
        !Timestamp::fits_millis(i as int) ==> cast(ValueView::Integer(i), DataTypeView::Timestamp)
            is Err,
{
    if Timestamp::fits_millis(i as int) {
        lemma_at_millis(i as int);
    }
}

/// What texts are cast to. A text is true where it is the word, in any case; that of an
/// integer stands for it.
pub proof fn lemma_cast_texts(s: Seq<char>, i: i64, b: bool)
    ensures
        cast(ValueView::String(s), DataTypeView::Boolean) == Ok::<ValueView, Seq<char>>(
            ValueView::Boolean(differ_in_case(s, "true"@)),
        ),
        cast(ValueView::String(integer_text(i as int)), DataTypeView::Integer) == Ok::<
            ValueView,
            Seq<char>,
        >(ValueView::Integer(i)),
        cast(ValueView::Integer(i), DataTypeView::String) == Ok::<ValueView, Seq<char>>(
            ValueView::String(integer_text(i as int)),
        ),
        cast(ValueView::Boolean(b), DataTypeView::String) == Ok::<ValueView, Seq<char>>(
            ValueView::String(if b { "true"@ } else { "false"@ }),
        ),
{
    lemma_same_letters(s, "true"@);
    lemma_integer_round_trip(i);
}

} // verus!
