//! Laws of arithmetic in expressions.
use crate::double::laws::{
    apart, lemma_difference_nearest, lemma_negation, lemma_product_nearest,
    lemma_quotient_nearest, lemma_remainder_nearest, lemma_sum_nearest,
};
use crate::double::{
    lemma_nearest_monotonic, magnitude_value, nearest, negation, signed, sum, unit, Double,
    INFINITY,
};
use crate::expr::eval::{
    binary_value, size, truncated_quotient, truncated_remainder, unary_value, value_of, wrapped,
};
use crate::expr::laws::between_two;
use crate::expr::{BinaryOp, ExprView, UnaryOp};
use crate::types::{ColumnView, RowView};
use crate::value::ValueView;
use vstd::arithmetic::div_mod::lemma_fundamental_div_mod;
use vstd::prelude::*;

verus! {

/// The value of an operator between two expressions, but for AND and OR, is that of the
/// operator between their values. An expression on either side that has no value leaves
/// it without one, and the left is asked first.
pub proof fn lemma_binary(
    left: ExprView,
    op: BinaryOp,
    right: ExprView,
    row: RowView,
    schema: Seq<ColumnView>,
)
    requires
        op != BinaryOp::And,
        op != BinaryOp::Or,
    ensures
        value_of(between_two(left, op, right), row, schema) == (match (
            value_of(left, row, schema),
            value_of(right, row, schema),
        ) {
            (Err(e), _) => Err(e),
            (Ok(_), Err(e)) => Err(e),
            (Ok(a), Ok(b)) => binary_value(a, op, b),
        }),
{
}

proof fn lemma_wrapped(i: int)
    ensures
        (wrapped(i) - i) % 0x1_0000_0000_0000_0000 == 0,
        i64::MIN <= i <= i64::MAX ==> wrapped(i) == i,
{
    let m = (i + 0x8000_0000_0000_0000) % 0x1_0000_0000_0000_0000;
    assert(0 <= m < 0x1_0000_0000_0000_0000);
    lemma_fundamental_div_mod(i + 0x8000_0000_0000_0000, 0x1_0000_0000_0000_0000);
    let q = (i + 0x8000_0000_0000_0000) / 0x1_0000_0000_0000_0000;
    assert(wrapped(i) - i == -q * 0x1_0000_0000_0000_0000);
}

/// Integers are added, taken from each other and multiplied as such; what does not fit is
/// off by a multiple of 2^64.
pub proof fn lemma_integer_arithmetic(a: i64, b: i64)
    ensures
        binary_value(ValueView::Integer(a), BinaryOp::Add, ValueView::Integer(b)) matches Ok(
            ValueView::Integer(r),
        ) && (r - (a + b)) % 0x1_0000_0000_0000_0000 == 0 && (i64::MIN <= a + b <= i64::MAX ==> r
            == a + b),
        binary_value(ValueView::Integer(a), BinaryOp::Sub, ValueView::Integer(b)) matches Ok(
            ValueView::Integer(r),
        ) && (r - (a - b)) % 0x1_0000_0000_0000_0000 == 0 && (i64::MIN <= a - b <= i64::MAX ==> r
            == a - b),
        binary_value(ValueView::Integer(a), BinaryOp::Mul, ValueView::Integer(b)) matches Ok(
            ValueView::Integer(r),
        ) && (r - (a * b)) % 0x1_0000_0000_0000_0000 == 0 && (i64::MIN <= a * b <= i64::MAX ==> r
            == a * b),
        unary_value(UnaryOp::Negate, ValueView::Integer(a)) matches Ok(ValueView::Integer(r)) && (
        r + a) % 0x1_0000_0000_0000_0000 == 0 && (a != i64::MIN ==> r == -a),
{
    lemma_wrapped(a + b);
    lemma_wrapped(a - b);
    lemma_wrapped(a * b);
    lemma_wrapped(-a);
}

/// Integers are divided with a rest: the quotient times the divisor and the rest make the
/// dividend, the rest is smaller than the divisor, and it has the sign of the dividend.
/// There is no division by zero. The one quotient that does not fit is that of the least
/// integer by minus one.
pub proof fn lemma_integer_division(a: i64, b: i64)
    ensures
        b == 0 ==> binary_value(ValueView::Integer(a), BinaryOp::Div, ValueView::Integer(b))
            is Err && binary_value(ValueView::Integer(a), BinaryOp::Mod, ValueView::Integer(b))
            is Err,
        b != 0 && !(a == i64::MIN && b == -1) ==> {
            let q = binary_value(ValueView::Integer(a), BinaryOp::Div, ValueView::Integer(b));
            let r = binary_value(ValueView::Integer(a), BinaryOp::Mod, ValueView::Integer(b));
            q matches Ok(ValueView::Integer(q)) && r matches Ok(ValueView::Integer(r)) && a == q
                * b + r && -apart(b as int, 0) < r < apart(b as int, 0) && (r > 0 ==> a > 0) && (r
                < 0 ==> a < 0)
        },
{
    if b != 0 {
        let x = size(a as int);
        let y = size(b as int);
        let q = x / y;
        let r = x % y;
        lemma_fundamental_div_mod(x, y);
        assert(y * q == q * y && (-q) * y == -(q * y) && q * (-y) == -(q * y) && (-q) * (-y) == q
            * y) by (nonlinear_arith);
        assert(0 <= q <= x) by (nonlinear_arith)
            requires
                y >= 1,
                x == y * q + r,
                0 <= r < y,
                x >= 0,
        ;
        if !(a == i64::MIN && b == -1) {
            assert(q == 0x8000_0000_0000_0000 ==> y == 1) by (nonlinear_arith)
                requires
                    x == y * q + r,
                    0 <= r < y,
                    x <= 0x8000_0000_0000_0000,
                    y >= 1,
            ;
            let t = truncated_quotient(a as int, b as int);
            assert(i64::MIN <= t <= i64::MAX);
        }
        lemma_wrapped(truncated_quotient(a as int, b as int));
        lemma_wrapped(truncated_remainder(a as int, b as int));
    }
}

/// Whether two values are a double and a number, in any order, and these the finite
/// doubles that they stand for: an integer for the nearest.
pub open spec fn stand_for(a: ValueView, b: ValueView, x: Double, y: Double) -> bool {
    &&& x.magnitude() < INFINITY && y.magnitude() < INFINITY
    &&& {
        ||| a == ValueView::Double(x) && b == ValueView::Double(y)
        ||| a == ValueView::Double(x) && (b matches ValueView::Integer(j)
            && Double::nearest_to(j as int) == y)
        ||| b == ValueView::Double(y) && (a matches ValueView::Integer(i)
            && Double::nearest_to(i as int) == x)
    }
}

/// Whether a value is the double nearest to a quotient: no double `c`, times the divisor,
/// is nearer to the dividend. An infinity is on the right side of all.
pub open spec fn is_nearest(v: Result<ValueView, Seq<char>>, num: int, den: int, c: Double) -> bool {
    v matches Ok(ValueView::Double(d)) && !d.nan() && (!d.infinite() ==> apart(
        d.value() * den,
        num,
    ) <= apart(c.value() * den, num))
}

/// Doubles, and integers with doubles, are added and taken from each other as numbers: the
/// result is the double nearest to the exact one.
pub proof fn lemma_double_sum(a: ValueView, b: ValueView, x: Double, y: Double, c: Double)
    requires
        stand_for(a, b, x, y),
        c.magnitude() < INFINITY,
    ensures
        is_nearest(binary_value(a, BinaryOp::Add, b), x.value() + y.value(), 1, c),
        is_nearest(binary_value(a, BinaryOp::Sub, b), x.value() - y.value(), 1, c),
{
    lemma_sum_nearest(x, y, c);
    lemma_difference_nearest(x, y, c);
}

/// What a double less another is, whichever they are: a finite one less itself is zero,
/// and taken the other way round it is the opposite.
pub proof fn lemma_double_difference(x: Double, y: Double)
    requires
        x.magnitude() < INFINITY,
        y.magnitude() < INFINITY,
    ensures
        binary_value(ValueView::Double(x), BinaryOp::Sub, ValueView::Double(x)) matches Ok(
            ValueView::Double(d),
        ) && d.value() == 0,
        binary_value(ValueView::Double(x), BinaryOp::Sub, ValueView::Double(y)) matches Ok(
            ValueView::Double(d),
        ) && binary_value(ValueView::Double(y), BinaryOp::Sub, ValueView::Double(x)) matches Ok(
            ValueView::Double(e),
        ) && d.value() == -e.value(),
{
    lemma_negation(x);
    lemma_negation(y);
    let d = sum(x, negation(y));
    let e = sum(y, negation(x));
    let total = x.value() - y.value();
    lemma_sum_nearest(x, negation(y), x);
    lemma_sum_nearest(y, negation(x), x);
    assert(magnitude_value(0) == 0);
    if total > 0 {
        lemma_nearest_monotonic(total, total, 1);
        assert(d == signed(false, nearest(total, 1)));
        assert(e == signed(true, nearest(total, 1)));
    } else if total < 0 {
        lemma_nearest_monotonic(-total, -total, 1);
        assert(d == signed(true, nearest(-total, 1)));
        assert(e == signed(false, nearest(-total, 1)));
    }
}

/// Doubles, and integers with doubles, are multiplied and divided as numbers: the result
/// is the double nearest to the exact one. There is no division by zero.
pub proof fn lemma_double_product(a: ValueView, b: ValueView, x: Double, y: Double, c: Double)
    requires
        stand_for(a, b, x, y),
        c.magnitude() < INFINITY,
    ensures
        is_nearest(binary_value(a, BinaryOp::Mul, b), x.value() * y.value(), unit(), c),
        y.zero() && (b is Double || b == ValueView::Integer(0)) ==> binary_value(
            a,
            BinaryOp::Div,
            b,
        ) is Err,
        !y.zero() && b != ValueView::Integer(0) ==> is_nearest(
            binary_value(a, BinaryOp::Div, b),
            x.value() * unit(),
            y.value(),
            c,
        ),
{
    lemma_product_nearest(x, y, c);
    if !y.zero() {
        lemma_quotient_nearest(x, y, c);
    }
}

/// The remainder of doubles is what is left of the dividend when the divisor is taken from
/// it as often as it fits, to the nearest double.
pub proof fn lemma_double_remainder(a: ValueView, b: ValueView, x: Double, y: Double, c: Double)
    requires
        stand_for(a, b, x, y),
        !y.zero(),
        b != ValueView::Integer(0),
        c.magnitude() < INFINITY,
    ensures
        binary_value(a, BinaryOp::Mod, b) matches Ok(ValueView::Double(d)) && d.negative()
            == x.negative() && exists|q: int|
            {
                let rest = x.size() - #[trigger] (q * y.size());
                &&& 0 <= rest < y.size()
                &&& !d.infinite() ==> apart(d.size(), rest) <= apart(c.size(), rest)
            },
{
    lemma_remainder_nearest(x, y, c);
}

/// Texts can be added, which puts one behind the other. No other arithmetic is done on
/// them, and none on values of other kinds.
pub proof fn lemma_text_arithmetic(s: Seq<char>, t: Seq<char>, op: BinaryOp, v: ValueView)
    requires
        op == BinaryOp::Add || op == BinaryOp::Sub || op == BinaryOp::Mul || op == BinaryOp::Div
            || op == BinaryOp::Mod,
        v is Integer ==> v->Integer_0 != 0,
        v is Boolean || v is Timestamp || v is Array || v is Mapping || v is Integer,
    ensures
        binary_value(ValueView::String(s), BinaryOp::Add, ValueView::String(t)) == Ok::<
            ValueView,
            Seq<char>,
        >(ValueView::String(s + t)),
        op != BinaryOp::Add ==> binary_value(ValueView::String(s), op, ValueView::String(t)) is Err,
        binary_value(ValueView::String(s), op, v) is Err,
        binary_value(v, op, ValueView::String(t)) is Err,
{
}

/// Negation turns a double into its opposite. Truth values and texts have none.
pub proof fn lemma_negated(d: Double, b: bool, s: Seq<char>)
    ensures
        unary_value(UnaryOp::Negate, ValueView::Double(d)) matches Ok(ValueView::Double(e))
            && e.value() == -d.value() && e.nan() == d.nan() && e.infinite() == d.infinite()
            && e.negative() != d.negative(),
        unary_value(UnaryOp::Negate, ValueView::Boolean(b)) is Err,
        unary_value(UnaryOp::Negate, ValueView::String(s)) is Err,
        unary_value(UnaryOp::Negate, ValueView::Null) == Ok::<ValueView, Seq<char>>(
            ValueView::Null,
        ),
        unary_value(UnaryOp::Not, ValueView::Boolean(b)) == Ok::<ValueView, Seq<char>>(
            ValueView::Boolean(!b),
        ),
        unary_value(UnaryOp::Not, ValueView::Null) == Ok::<ValueView, Seq<char>>(ValueView::Null),
{
    lemma_negation(d);
}

} // verus!
