//! Laws of expressions.
use crate::expr::eval::{between_value, binary_value, cast, like, value_of};
use crate::expr::{BinaryOp, ExprView};
use crate::shortest::lemma_double_round_trip;
use crate::text::{ascii_lower, folded, lemma_integer_round_trip};
use crate::types::{ColumnView, DataTypeView, RowView};
use crate::value::laws::{lemma_equal_symmetric, lemma_order_flips};
use crate::value::{truthy, ValueView};
use vstd::prelude::*;

pub mod arithmetic;
pub mod forms;
pub mod functions;
pub mod messages;
pub mod texts;

verus! {

/// An operator gives null where an operand is null, but for AND and OR, and for the
/// equality of two nulls.
pub proof fn lemma_null_propagates(a: ValueView, op: BinaryOp, b: ValueView)
    requires
        a == ValueView::Null || b == ValueView::Null,
    ensures
        !((op == BinaryOp::Eq || op == BinaryOp::NotEq) && a == b) ==> binary_value(a, op, b)
            == Ok::<ValueView, Seq<char>>(ValueView::Null),
        a == b ==> binary_value(a, BinaryOp::Eq, b) == Ok::<ValueView, Seq<char>>(
            ValueView::Boolean(true),
        ),
        a == b ==> binary_value(a, BinaryOp::NotEq, b) == Ok::<ValueView, Seq<char>>(
            ValueView::Boolean(false),
        ),
{
}

/// The opposite of a truth value; null has none.
pub open spec fn opposite(r: Result<ValueView, Seq<char>>) -> Result<ValueView, Seq<char>> {
    match r {
        Ok(ValueView::Boolean(b)) => Ok(ValueView::Boolean(!b)),
        _ => r,
    }
}

/// Comparisons read from the other side say the same, and each has its opposite.
pub proof fn lemma_comparisons(a: ValueView, b: ValueView)
    ensures
        binary_value(a, BinaryOp::Lt, b) == binary_value(b, BinaryOp::Gt, a),
        binary_value(a, BinaryOp::LtEq, b) == binary_value(b, BinaryOp::GtEq, a),
        binary_value(a, BinaryOp::Eq, b) == binary_value(b, BinaryOp::Eq, a),
        binary_value(a, BinaryOp::LtEq, b) == opposite(binary_value(a, BinaryOp::Gt, b)),
        binary_value(a, BinaryOp::GtEq, b) == opposite(binary_value(a, BinaryOp::Lt, b)),
        binary_value(a, BinaryOp::NotEq, b) == opposite(binary_value(a, BinaryOp::Eq, b)),
{
    lemma_order_flips(a, b);
    lemma_equal_symmetric(a, b);
}

/// BETWEEN holds where both comparisons with its bounds do, and NOT BETWEEN is its
/// opposite. A null on any side makes it null.
pub proof fn lemma_between(v: ValueView, low: ValueView, high: ValueView)
    ensures
        between_value(v, low, high, true) == (match between_value(v, low, high, false) {
            ValueView::Boolean(b) => ValueView::Boolean(!b),
            other => other,
        }),
        v != ValueView::Null && low != ValueView::Null && high != ValueView::Null
            ==> between_value(v, low, high, false) == ValueView::Boolean(
            binary_value(v, BinaryOp::GtEq, low) == Ok::<ValueView, Seq<char>>(
                ValueView::Boolean(true),
            ) && binary_value(v, BinaryOp::LtEq, high) == Ok::<ValueView, Seq<char>>(
                ValueView::Boolean(true),
            ),
        ),
        v == ValueView::Null || low == ValueView::Null || high == ValueView::Null
            ==> between_value(v, low, high, false) == ValueView::Null,
{
}

/// The expression of an operator between two others.
pub open spec fn between_two(left: ExprView, op: BinaryOp, right: ExprView) -> ExprView {
    ExprView::BinaryOp { left: Box::new(left), op, right: Box::new(right) }
}

/// AND is true where both sides count as true, and OR where one does. Where the sides
/// have values, their order does not matter.
pub proof fn lemma_and_or(
    left: ExprView,
    right: ExprView,
    row: RowView,
    schema: Seq<ColumnView>,
)
    requires
        value_of(left, row, schema) is Ok,
        value_of(right, row, schema) is Ok,
    ensures
        ({
            let l = truthy(value_of(left, row, schema)->Ok_0);
            let r = truthy(value_of(right, row, schema)->Ok_0);
            &&& value_of(between_two(left, BinaryOp::And, right), row, schema) == Ok::<
                ValueView,
                Seq<char>,
            >(ValueView::Boolean(l && r))
            &&& value_of(between_two(left, BinaryOp::Or, right), row, schema) == Ok::<
                ValueView,
                Seq<char>,
            >(ValueView::Boolean(l || r))
        }),
{
}

/// AND does not ask its right side where the left does not count as true, and OR where it
/// does. Else they have no value where their right side has none, nor where the left has
/// none.
pub proof fn lemma_and_or_asks(
    left: ExprView,
    right: ExprView,
    row: RowView,
    schema: Seq<ColumnView>,
)
    ensures
        match value_of(left, row, schema) {
            Ok(l) => {
                let and = value_of(between_two(left, BinaryOp::And, right), row, schema);
                let or = value_of(between_two(left, BinaryOp::Or, right), row, schema);
                &&& !truthy(l) ==> and == Ok::<ValueView, Seq<char>>(ValueView::Boolean(false))
                &&& truthy(l) ==> or == Ok::<ValueView, Seq<char>>(ValueView::Boolean(true))
                &&& value_of(right, row, schema) matches Err(e) ==> (truthy(l) ==> and == Err::<
                    ValueView,
                    Seq<char>,
                >(e)) && (!truthy(l) ==> or == Err::<ValueView, Seq<char>>(e))
            },
            Err(e) => value_of(between_two(left, BinaryOp::And, right), row, schema) == Err::<
                ValueView,
                Seq<char>,
            >(e) && value_of(between_two(left, BinaryOp::Or, right), row, schema) == Err::<
                ValueView,
                Seq<char>,
            >(e),
        },
{
}

/// An alias does not change a value.
pub proof fn lemma_alias(e: ExprView, name: Seq<char>, row: RowView, schema: Seq<ColumnView>)
    ensures
        value_of(ExprView::Alias { expr: Box::new(e), name }, row, schema) == value_of(
            e,
            row,
            schema,
        ),
{
}

/// Whether a pattern has no wildcard in it.
pub open spec fn is_plain(pattern: Seq<char>) -> bool {
    forall|i: int| 0 <= i < pattern.len() ==> #[trigger] pattern[i] != '%' && pattern[i] != '_'
}

/// Whether the characters are the same but for the case of ASCII letters.
pub open spec fn same_chars(a: Seq<char>, b: Seq<char>) -> bool {
    a.len() == b.len() && forall|i: int|
        0 <= i < a.len() ==> ascii_lower(#[trigger] a[i]) == ascii_lower(b[i])
}

/// A pattern without wildcards matches what is the same but for the case of letters.
/// With one `%` behind it, it matches what starts so.
pub proof fn lemma_like_plain(value: Seq<char>, pattern: Seq<char>)
    requires
        is_plain(pattern),
    ensures
        like(value, pattern) <==> same_chars(value, pattern),
        like(value, pattern.push('%')) <==> value.len() >= pattern.len() && same_chars(
            value.take(pattern.len() as int),
            pattern,
        ),
    decreases pattern.len(),
{
    let open = pattern.push('%');
    if pattern.len() == 0 {
        assert(open[0] == '%');
        assert(open.drop_first() =~= Seq::<char>::empty());
        assert(value.skip(value.len() as int) =~= Seq::<char>::empty());
        assert(like(value.skip(value.len() as int), open.drop_first()));
        assert(value.take(0) =~= pattern);
    } else {
        let rest = pattern.drop_first();
        assert(open[0] == pattern[0]);
        assert(open.drop_first() =~= rest.push('%'));
        assert forall|i: int| 0 <= i < rest.len() implies #[trigger] rest[i] != '%' && rest[i]
            != '_' by {
            assert(rest[i] == pattern[i + 1]);
        }
        if value.len() > 0 {
            let tail = value.drop_first();
            lemma_like_plain(tail, rest);
            lemma_same_chars_step(value, pattern);
            if value.len() >= pattern.len() {
                let n = pattern.len() as int;
                assert(value.take(n).drop_first() =~= tail.take(n - 1));
                lemma_same_chars_step(value.take(n), pattern);
            }
        }
    }
}

proof fn lemma_same_chars_step(a: Seq<char>, b: Seq<char>)
    requires
        a.len() > 0,
        b.len() > 0,
    ensures
        same_chars(a, b) <==> ascii_lower(a[0]) == ascii_lower(b[0]) && same_chars(
            a.drop_first(),
            b.drop_first(),
        ),
{
    let x = a.drop_first();
    let y = b.drop_first();
    if same_chars(a, b) {
        assert forall|i: int| 0 <= i < x.len() implies ascii_lower(#[trigger] x[i]) == ascii_lower(
            y[i],
        ) by {
            assert(x[i] == a[i + 1] && y[i] == b[i + 1]);
        }
    }
    if ascii_lower(a[0]) == ascii_lower(b[0]) && same_chars(x, y) {
        assert forall|i: int| 0 <= i < a.len() implies ascii_lower(#[trigger] a[i]) == ascii_lower(
            b[i],
        ) by {
            if i > 0 {
                assert(x[i - 1] == a[i] && y[i - 1] == b[i]);
            }
        }
    }
}

/// With a `%` before it, a pattern matches what ends with something that it matches. A
/// lone `%` matches all.
pub proof fn lemma_like_percent(value: Seq<char>, pattern: Seq<char>)
    ensures
        like(value, seq!['%'] + pattern) <==> exists|i: int|
            0 <= i <= value.len() && like(#[trigger] value.skip(i), pattern),
        like(value, seq!['%']),
{
    let open = seq!['%'] + pattern;
    assert(open.drop_first() =~= pattern);
    let lone = seq!['%'];
    assert(lone.drop_first() =~= Seq::<char>::empty());
    assert(value.skip(value.len() as int) =~= Seq::<char>::empty());
    assert(like(value.skip(value.len() as int), lone.drop_first()));
}

/// With a `_` before it, a pattern matches one character more.
pub proof fn lemma_like_underscore(value: Seq<char>, pattern: Seq<char>)
    ensures
        like(value, seq!['_'] + pattern) <==> value.len() > 0 && like(
            value.drop_first(),
            pattern,
        ),
{
    let open = seq!['_'] + pattern;
    assert(open.drop_first() =~= pattern);
}

/// The type that texts of a value are cast back to.
pub open spec fn type_back(v: ValueView) -> DataTypeView {
    match v {
        ValueView::Boolean(_) => DataTypeView::Boolean,
        ValueView::Integer(_) => DataTypeView::Integer,
        ValueView::Double(_) => DataTypeView::Double,
        _ => DataTypeView::String,
    }
}

/// A truth value, an integer, a double that is a number, or a text that is cast to a
/// text and back is what it was.
pub proof fn lemma_cast_round_trip(v: ValueView)
    requires
        v is Boolean || v is Integer || v is String || (v matches ValueView::Double(d) && !d.nan()),
    ensures
        cast(v, DataTypeView::String) matches Ok(text) && cast(text, type_back(v)) == Ok::<
            ValueView,
            Seq<char>,
        >(v),
{
    match v {
        ValueView::Boolean(b) => {
            reveal_strlit("true");
            reveal_strlit("false");
            assert(folded("true"@).len() == 4);
            assert(folded("false"@).len() == 5);
        },
        ValueView::Integer(i) => lemma_integer_round_trip(i),
        ValueView::Double(d) => lemma_double_round_trip(d),
        _ => {},
    }
}

} // verus!
