//! The values of expressions.
use crate::decimal::{read_double, text_to_double};
use crate::double::{
    negation, product, quotient, remainder, signed, sum, to_integer, Double, Rounding,
};
use crate::error::{fail2, fail3, join2, join3, outcome, Error};
use crate::expr::{branch_views, lemma_expr_view, BinaryOp, Expr, ExprView, UnaryOp};
use crate::text::{
    ascii_lower, chars_of, decimal, equal_ignoring_case, integer_text, integer_to_text, lower,
    lower_char, lower_of_ascii, nat_to_text, read_integer, same_letters, same_text,
    text_to_integer, to_lower, to_upper, upper, upper_of_ascii,
};
use crate::time::Timestamp;
use crate::types::{
    data_type_text, field, find_column, ColumnView, DataType, DataTypeView, Row, RowView, Schema,
};
use crate::value::{
    as_integer, equal, lemma_array_view, truthy, type_label, value_order, value_text, views, Order,
    Value, ValueView,
};
use vstd::prelude::*;
use vstd::utf8::encode_utf8;

verus! {

/// An integer taken into the range of `i64` by multiples of 2^64.
pub open spec fn wrapped(i: int) -> i64 {
    ((i + 0x8000_0000_0000_0000) % 0x1_0000_0000_0000_0000 - 0x8000_0000_0000_0000) as i64
}

fn wrap(i: i128) -> (r: i64)
    requires
        -0x4000_0000_0000_0000_0000_0000_0000_0000 <= i
            <= 0x4000_0000_0000_0000_0000_0000_0000_0000,
    ensures
        r == wrapped(i as int),
{
    // A multiple of 2^64 more where it is negative, so that the remainder is not.
    let base: i128 = if i < 0 {
        i + 0x4000_0000_0000_0000_0000_0000_0000_0000
    } else {
        i
    };
    let rest: i128 = (base + 0x8000_0000_0000_0000) % 0x1_0000_0000_0000_0000;
    proof {
        vstd::arithmetic::div_mod::lemma_mod_multiples_vanish(
            0x4000_0000_0000_0000,
            i + 0x8000_0000_0000_0000,
            0x1_0000_0000_0000_0000,
        );
        assert(0x4000_0000_0000_0000 * 0x1_0000_0000_0000_0000
            == 0x4000_0000_0000_0000_0000_0000_0000_0000);
    }
    (rest - 0x8000_0000_0000_0000) as i64
}

/// The size of an integer.
pub open spec fn size(i: int) -> int {
    if i < 0 {
        -i
    } else {
        i
    }
}

/// The quotient of two integers, cut off towards zero.
pub open spec fn truncated_quotient(a: int, b: int) -> int {
    let q = size(a) / size(b);
    if (a < 0) != (b < 0) {
        -q
    } else {
        q
    }
}

/// The remainder that goes with it: it has the sign of the dividend.
pub open spec fn truncated_remainder(a: int, b: int) -> int {
    let r = size(a) % size(b);
    if a < 0 {
        -r
    } else {
        r
    }
}

fn divide(a: i64, b: i64) -> (r: (i64, i64))
    requires
        b != 0,
    ensures
        r.0 == wrapped(truncated_quotient(a as int, b as int)),
        r.1 == wrapped(truncated_remainder(a as int, b as int)),
{
    let x: u128 = if a < 0 {
        (-(a as i128)) as u128
    } else {
        a as u128
    };
    let y: u128 = if b < 0 {
        (-(b as i128)) as u128
    } else {
        b as u128
    };
    let q: u128 = x / y;
    let r: u128 = x % y;
    proof {
        assert(q <= x) by (nonlinear_arith)
            requires
                q == x / y,
                y >= 1,
        ;
        assert(r < y);
    }
    let first: i128 = if (a < 0) != (b < 0) {
        -(q as i128)
    } else {
        q as i128
    };
    let second: i128 = if a < 0 {
        -(r as i128)
    } else {
        r as i128
    };
    (wrap(first), wrap(second))
}

/// The arithmetic of two integers. It wraps around at the ends of the range.
pub open spec fn integer_arithmetic(a: i64, op: BinaryOp, b: i64) -> i64 {
    match op {
        BinaryOp::Add => wrapped(a + b),
        BinaryOp::Sub => wrapped(a - b),
        BinaryOp::Mul => wrapped(a * b),
        BinaryOp::Div => wrapped(truncated_quotient(a as int, b as int)),
        _ => wrapped(truncated_remainder(a as int, b as int)),
    }
}

/// The arithmetic of two doubles.
pub open spec fn double_arithmetic(a: Double, op: BinaryOp, b: Double) -> Double {
    match op {
        BinaryOp::Add => sum(a, b),
        BinaryOp::Sub => sum(a, negation(b)),
        BinaryOp::Mul => product(a, b),
        BinaryOp::Div => quotient(a, b),
        _ => remainder(a, b),
    }
}

/// Arithmetic: on integers, on doubles, and on both. Texts can be added, which joins
/// them.
pub open spec fn arithmetic(a: ValueView, op: BinaryOp, b: ValueView) -> Result<
    ValueView,
    Seq<char>,
> {
    match (a, b) {
        (ValueView::Integer(x), ValueView::Integer(y)) => Ok(
            ValueView::Integer(integer_arithmetic(x, op, y)),
        ),
        (ValueView::Double(x), ValueView::Double(y)) => Ok(
            ValueView::Double(double_arithmetic(x, op, y)),
        ),
        (ValueView::Integer(x), ValueView::Double(y)) => Ok(
            ValueView::Double(double_arithmetic(Double::nearest_to(x as int), op, y)),
        ),
        (ValueView::Double(x), ValueView::Integer(y)) => Ok(
            ValueView::Double(double_arithmetic(x, op, Double::nearest_to(y as int))),
        ),
        (ValueView::String(x), ValueView::String(y)) if op == BinaryOp::Add => Ok(
            ValueView::String(x + y),
        ),
        _ => Err("Cannot apply arithmetic to "@ + type_label(a) + " and "@ + type_label(b)),
    }
}

/// Whether a value is a zero that nothing can be divided by.
pub open spec fn is_zero_divisor(v: ValueView) -> bool {
    match v {
        ValueView::Integer(i) => i == 0,
        ValueView::Double(d) => d.zero(),
        _ => false,
    }
}

/// The value of an operator between two values. Null on one side gives null;
/// null on both sides is equal.
pub open spec fn binary_value(a: ValueView, op: BinaryOp, b: ValueView) -> Result<
    ValueView,
    Seq<char>,
> {
    if a == ValueView::Null || b == ValueView::Null {
        let both = a == ValueView::Null && b == ValueView::Null;
        if op == BinaryOp::Eq && both {
            Ok(ValueView::Boolean(true))
        } else if op == BinaryOp::NotEq && both {
            Ok(ValueView::Boolean(false))
        } else {
            Ok(ValueView::Null)
        }
    } else {
        match op {
            BinaryOp::Eq => Ok(ValueView::Boolean(equal(a, b))),
            BinaryOp::NotEq => Ok(ValueView::Boolean(!equal(a, b))),
            BinaryOp::Lt => Ok(ValueView::Boolean(value_order(a, b) == Order::Less)),
            BinaryOp::LtEq => Ok(ValueView::Boolean(value_order(a, b) != Order::Greater)),
            BinaryOp::Gt => Ok(ValueView::Boolean(value_order(a, b) == Order::Greater)),
            BinaryOp::GtEq => Ok(ValueView::Boolean(value_order(a, b) != Order::Less)),
            BinaryOp::And => Ok(ValueView::Boolean(truthy(a) && truthy(b))),
            BinaryOp::Or => Ok(ValueView::Boolean(truthy(a) || truthy(b))),
            BinaryOp::Div => if is_zero_divisor(b) {
                Err("Division by zero"@)
            } else {
                arithmetic(a, op, b)
            },
            BinaryOp::Mod => if b == ValueView::Integer(0) {
                Err("Modulo by zero"@)
            } else {
                arithmetic(a, op, b)
            },
            _ => arithmetic(a, op, b),
        }
    }
}

/// The value of an operator in front of a value.
pub open spec fn unary_value(op: UnaryOp, v: ValueView) -> Result<ValueView, Seq<char>> {
    if v == ValueView::Null {
        Ok(ValueView::Null)
    } else {
        match (op, v) {
            (UnaryOp::Not, _) => Ok(ValueView::Boolean(!truthy(v))),
            (UnaryOp::Negate, ValueView::Integer(i)) => Ok(ValueView::Integer(wrapped(-i))),
            (UnaryOp::Negate, ValueView::Double(d)) => Ok(ValueView::Double(negation(d))),
            _ => Err("Cannot negate "@ + type_label(v)),
        }
    }
}

fn integer_op(a: i64, op: BinaryOp, b: i64) -> (r: i64)
    requires
        (op == BinaryOp::Div || op == BinaryOp::Mod) ==> b != 0,
        op == BinaryOp::Add || op == BinaryOp::Sub || op == BinaryOp::Mul || op == BinaryOp::Div
            || op == BinaryOp::Mod,
    ensures
        r == integer_arithmetic(a, op, b),
{
    match op {
        BinaryOp::Add => wrap(a as i128 + b as i128),
        BinaryOp::Sub => wrap(a as i128 - b as i128),
        BinaryOp::Mul => {
            proof {
                assert(-0x4000_0000_0000_0000_0000_0000_0000_0000 <= a * b
                    <= 0x4000_0000_0000_0000_0000_0000_0000_0000) by (nonlinear_arith)
                    requires
                        -0x8000_0000_0000_0000 <= a <= 0x7fff_ffff_ffff_ffff,
                        -0x8000_0000_0000_0000 <= b <= 0x7fff_ffff_ffff_ffff,
                ;
            }
            wrap(a as i128 * b as i128)
        },
        BinaryOp::Div => divide(a, b).0,
        _ => divide(a, b).1,
    }
}

fn double_op(a: Double, op: BinaryOp, b: Double) -> (r: Double)
    ensures
        r == double_arithmetic(a, op, b),
{
    match op {
        BinaryOp::Add => a.plus(b),
        BinaryOp::Sub => a.minus(b),
        BinaryOp::Mul => a.times(b),
        BinaryOp::Div => a.divided_by(b),
        _ => a.modulo(b),
    }
}

/// Arithmetic on two values.
pub fn numeric_op(left: &Value, op: BinaryOp, right: &Value) -> (r: Result<Value, Error>)
    requires
        (op == BinaryOp::Div || op == BinaryOp::Mod) ==> right@ != ValueView::Integer(0),
        op == BinaryOp::Add || op == BinaryOp::Sub || op == BinaryOp::Mul || op == BinaryOp::Div
            || op == BinaryOp::Mod,
    ensures
        outcome(r) == arithmetic(left@, op, right@),
{
    match (left, right) {
        (Value::Integer(a), Value::Integer(b)) => Ok(Value::Integer(integer_op(*a, op, *b))),
        (Value::Double(a), Value::Double(b)) => Ok(Value::Double(double_op(*a, op, *b))),
        (Value::Integer(a), Value::Double(b)) => Ok(
            Value::Double(double_op(Double::from_i64(*a), op, *b)),
        ),
        (Value::Double(a), Value::Integer(b)) => Ok(
            Value::Double(double_op(*a, op, Double::from_i64(*b))),
        ),
        (Value::String(a), Value::String(b)) if op == BinaryOp::Add => Ok(
            Value::String(join2(a.as_str(), b.as_str())),
        ),
        _ => {
            let start = join3("Cannot apply arithmetic to ", left.type_label(), " and ");
            Err(fail2(start.as_str(), right.type_label()))
        },
    }
}

/// Applies an operator to two values.
pub fn eval_binary_op(left: &Value, op: &BinaryOp, right: &Value) -> (r: Result<Value, Error>)
    ensures
        outcome(r) == binary_value(left@, *op, right@),
{
    if left.is_null() || right.is_null() {
        let both = left.is_null() && right.is_null();
        return match op {
            BinaryOp::Eq if both => Ok(Value::Boolean(true)),
            BinaryOp::NotEq if both => Ok(Value::Boolean(false)),
            _ => Ok(Value::Null),
        };
    }
    match op {
        BinaryOp::Eq => Ok(Value::Boolean(left.equals(right))),
        BinaryOp::NotEq => Ok(Value::Boolean(!left.equals(right))),
        BinaryOp::Lt => Ok(Value::Boolean(left.order(right) == Order::Less)),
        BinaryOp::LtEq => Ok(Value::Boolean(left.order(right) != Order::Greater)),
        BinaryOp::Gt => Ok(Value::Boolean(left.order(right) == Order::Greater)),
        BinaryOp::GtEq => Ok(Value::Boolean(left.order(right) != Order::Less)),
        BinaryOp::And => Ok(Value::Boolean(left.is_truthy() && right.is_truthy())),
        BinaryOp::Or => Ok(Value::Boolean(left.is_truthy() || right.is_truthy())),
        BinaryOp::Div => {
            let zero = match right {
                Value::Integer(i) => *i == 0,
                Value::Double(d) => d.is_zero(),
                _ => false,
            };
            if zero {
                return Err(Error::new("Division by zero"));
            }
            numeric_op(left, *op, right)
        },
        BinaryOp::Mod => {
            if let Value::Integer(i) = right {
                if *i == 0 {
                    return Err(Error::new("Modulo by zero"));
                }
            }
            numeric_op(left, *op, right)
        },
        _ => numeric_op(left, *op, right),
    }
}

/// Applies an operator to a value.
pub fn eval_unary_op(op: &UnaryOp, value: &Value) -> (r: Result<Value, Error>)
    ensures
        outcome(r) == unary_value(*op, value@),
{
    if value.is_null() {
        return Ok(Value::Null);
    }
    match op {
        UnaryOp::Not => Ok(Value::Boolean(!value.is_truthy())),
        UnaryOp::Negate => match value {
            Value::Integer(i) => Ok(Value::Integer(wrap(-(*i as i128)))),
            Value::Double(d) => Ok(Value::Double(d.negate())),
            _ => Err(fail2("Cannot negate ", value.type_label())),
        },
    }
}

/// Whether a text matches a pattern, in which `%` stands for any characters and `_`
/// for any one character, and the case of ASCII letters does not matter.
pub open spec fn like(value: Seq<char>, pattern: Seq<char>) -> bool
    decreases pattern.len(),
{
    if pattern.len() == 0 {
        value.len() == 0
    } else if pattern[0] == '%' {
        exists|i: int| 0 <= i <= value.len() && like(#[trigger] value.skip(i), pattern.drop_first())
    } else if pattern[0] == '_' {
        value.len() > 0 && like(value.drop_first(), pattern.drop_first())
    } else {
        value.len() > 0 && ascii_lower(value[0]) == ascii_lower(pattern[0]) && like(
            value.drop_first(),
            pattern.drop_first(),
        )
    }
}

/// Whether the characters from `vi` on match the pattern from `pi` on.
fn like_match_recursive(value: &Vec<char>, pattern: &Vec<char>, vi: usize, pi: usize) -> (r: bool)
    requires
        vi <= value@.len(),
        pi <= pattern@.len(),
    ensures
        r == like(value@.skip(vi as int), pattern@.skip(pi as int)),
    decreases pattern@.len() - pi,
{
    let ghost v = value@.skip(vi as int);
    let ghost p = pattern@.skip(pi as int);
    if pi == pattern.len() {
        return vi == value.len();
    }
    proof {
        assert(p.drop_first() =~= pattern@.skip(pi + 1));
        if vi < value@.len() {
            assert(v.drop_first() =~= value@.skip(vi + 1));
        }
    }
    let c: char = pattern[pi];
    let next: usize = pi + 1;
    if c == '%' {
        let mut i: usize = vi;
        loop
            invariant
                vi <= i <= value@.len(),
                pi < next == pi + 1 <= pattern@.len(),
                v == value@.skip(vi as int),
                p == pattern@.skip(pi as int),
                p.drop_first() == pattern@.skip(pi + 1),
                p[0] == '%',
                forall|j: int|
                    0 <= j < i - vi ==> !like(#[trigger] v.skip(j), p.drop_first()),
            decreases value@.len() - i,
        {
            let ghost at = i - vi;
            proof {
                assert(v.skip(at) =~= value@.skip(i as int));
            }
            if like_match_recursive(value, pattern, i, next) {
                proof {
                    assert(0 <= at <= v.len() && like(v.skip(at), p.drop_first()));
                }
                return true;
            }
            if i == value.len() {
                return false;
            }
            i = i + 1;
        }
    }
    if c == '_' {
        vi < value.len() && like_match_recursive(value, pattern, vi + 1, pi + 1)
    } else {
        vi < value.len() && lower_char(value[vi]) == lower_char(c) && like_match_recursive(
            value,
            pattern,
            vi + 1,
            pi + 1,
        )
    }
}

/// Whether a text matches a pattern.
pub fn like_match(value: &str, pattern: &str) -> (r: bool)
    ensures
        r == like(value@, pattern@),
{
    let v = chars_of(value);
    let p = chars_of(pattern);
    proof {
        assert(v@.skip(0) =~= v@);
        assert(p@.skip(0) =~= p@);
    }
    like_match_recursive(&v, &p, 0, 0)
}

/// The message about a wrong number of arguments.
pub open spec fn argument_count_error(name: Seq<char>, expected: nat, got: nat) -> Seq<char> {
    name + " requires "@ + decimal(expected) + " argument(s), got "@ + decimal(got)
}

fn require_args(name: &str, args: &Vec<Value>, expected: usize) -> (r: Option<Error>)
    ensures
        match r {
            Some(e) => args.len() != expected && e@ == argument_count_error(
                name@,
                expected as nat,
                args@.len(),
            ),
            None => args.len() == expected,
        },
{
    if args.len() != expected {
        let start = join3(name, " requires ", nat_to_text(expected as u64).as_str());
        let end = nat_to_text(args.len() as u64);
        return Some(fail3(start.as_str(), " argument(s), got ", end.as_str()));
    }
    None
}

/// The number of bytes of a text.
pub open spec fn byte_length(s: Seq<char>) -> usize {
    encode_utf8(s).len() as usize
}

/// The texts of the values from a place on, joined; none where one of them is
/// null.
pub open spec fn concatenation(args: Seq<ValueView>, i: nat) -> Option<Seq<char>>
    decreases args.len() - i,
{
    if i >= args.len() {
        Some(Seq::empty())
    } else if args[i as int] == ValueView::Null {
        None
    } else {
        match concatenation(args, i + 1) {
            Some(rest) => Some(value_text(args[i as int]) + rest),
            None => None,
        }
    }
}

/// The first value from a place on that is not null.
pub open spec fn first_present(args: Seq<ValueView>, i: nat) -> ValueView
    decreases args.len() - i,
{
    if i >= args.len() {
        ValueView::Null
    } else if args[i as int] != ValueView::Null {
        args[i as int]
    } else {
        first_present(args, i + 1)
    }
}

/// An integer of 64 bits without its sign.
pub open spec fn unsigned(i: i64) -> int {
    if i < 0 {
        i + 0x1_0000_0000_0000_0000
    } else {
        i as int
    }
}

/// The part of a text from the character `start` on, counted from one, of at
/// most `length` characters.
pub open spec fn part(s: Seq<char>, start: i64, length: int) -> Seq<char> {
    let skipped = if unsigned(start) == 0 { 0 } else { unsigned(start) - 1 };
    if skipped >= s.len() {
        Seq::empty()
    } else if length >= s.len() - skipped {
        s.skip(skipped)
    } else {
        s.skip(skipped).take(length)
    }
}

/// The value of SUBSTRING.
pub open spec fn substring_value(args: Seq<ValueView>) -> Result<ValueView, Seq<char>> {
    if args.len() < 2 || args.len() > 3 {
        Err("SUBSTRING requires 2 or 3 arguments"@)
    } else {
        match (args[0], args[1]) {
            (ValueView::String(s), ValueView::Integer(start)) => {
                let length = if args.len() == 3 {
                    match as_integer(args[2]) {
                        Some(i) => unsigned(i),
                        None => unsigned(byte_length(s) as i64),
                    }
                } else {
                    byte_length(s) as int
                };
                Ok(ValueView::String(part(s, start, length)))
            },
            _ => if args[0] == ValueView::Null || args[1] == ValueView::Null {
                Ok(ValueView::Null)
            } else {
                Err("SUBSTRING requires (string, int[, int])"@)
            },
        }
    }
}

/// The value of CEIL, FLOOR and ROUND.
pub open spec fn rounded_value(v: ValueView, rounding: Rounding, error: Seq<char>) -> Result<
    ValueView,
    Seq<char>,
> {
    match v {
        ValueView::Double(d) => Ok(ValueView::Integer(to_integer(d, rounding))),
        ValueView::Integer(i) => Ok(v),
        ValueView::Null => Ok(v),
        _ => Err(error),
    }
}

/// The functions that take one argument.
#[derive(Clone, Copy, Debug, PartialEq, Eq, Structural)]
pub enum Simple {
    Upper,
    Lower,
    Length,
    Absolute,
    Ceiling,
    Floor,
    Round,
}

/// All functions.
#[derive(Clone, Copy, Debug, PartialEq, Eq, Structural)]
pub enum Known {
    Simple(Simple),
    Concat,
    Substring,
    Coalesce,
    If,
}

/// The function with a name in upper case.
pub open spec fn known_function(name: Seq<char>) -> Option<Known> {
    if name == "UPPER"@ || name == "UCASE"@ {
        Some(Known::Simple(Simple::Upper))
    } else if name == "LOWER"@ || name == "LCASE"@ {
        Some(Known::Simple(Simple::Lower))
    } else if name == "LEN"@ || name == "LENGTH"@ {
        Some(Known::Simple(Simple::Length))
    } else if name == "CONCAT"@ {
        Some(Known::Concat)
    } else if name == "SUBSTRING"@ || name == "SUBSTR"@ {
        Some(Known::Substring)
    } else if name == "ABS"@ {
        Some(Known::Simple(Simple::Absolute))
    } else if name == "CEIL"@ || name == "CEILING"@ {
        Some(Known::Simple(Simple::Ceiling))
    } else if name == "FLOOR"@ {
        Some(Known::Simple(Simple::Floor))
    } else if name == "ROUND"@ {
        Some(Known::Simple(Simple::Round))
    } else if name == "COALESCE"@ {
        Some(Known::Coalesce)
    } else if name == "IF"@ || name == "IIF"@ {
        Some(Known::If)
    } else {
        None
    }
}

/// The value of a function of one argument.
pub open spec fn simple_value(f: Simple, v: ValueView) -> Result<ValueView, Seq<char>> {
    match f {
        Simple::Upper => match v {
            ValueView::String(s) => Ok(ValueView::String(upper(s))),
            ValueView::Null => Ok(v),
            _ => Err("UPPER requires a string"@),
        },
        Simple::Lower => match v {
            ValueView::String(s) => Ok(ValueView::String(lower(s))),
            ValueView::Null => Ok(v),
            _ => Err("LOWER requires a string"@),
        },
        Simple::Length => match v {
            ValueView::String(s) => Ok(ValueView::Integer(byte_length(s) as i64)),
            ValueView::Array(a) => Ok(ValueView::Integer((a.len() as usize) as i64)),
            ValueView::Null => Ok(v),
            _ => Err("LEN requires a string or array"@),
        },
        Simple::Absolute => match v {
            ValueView::Integer(i) => Ok(ValueView::Integer(wrapped(size(i as int)))),
            ValueView::Double(d) => Ok(ValueView::Double(signed(false, d.magnitude()))),
            ValueView::Null => Ok(v),
            _ => Err("ABS requires a number"@),
        },
        Simple::Ceiling => rounded_value(v, Rounding::Ceiling, "CEIL requires a number"@),
        Simple::Floor => rounded_value(v, Rounding::Floor, "FLOOR requires a number"@),
        Simple::Round => rounded_value(v, Rounding::Nearest, "ROUND requires a number"@),
    }
}

/// What is known of the texts that UPPER and LOWER give of texts in ASCII.
pub open spec fn letters_known(f: Simple, v: ValueView) -> bool {
    match (f, v) {
        (Simple::Upper, ValueView::String(s)) => upper_of_ascii(s),
        (Simple::Lower, ValueView::String(s)) => lower_of_ascii(s),
        _ => true,
    }
}

/// What is known of the texts that a call gives, where it is one of UPPER or LOWER.
pub open spec fn call_letters_known(upper_name: Seq<char>, args: Seq<ValueView>) -> bool {
    known_function(upper_name) matches Some(Known::Simple(f)) ==> args.len() == 1
        ==> letters_known(f, args[0])
}

/// The value of a call of a function, given what its name is in upper case.
pub open spec fn call_value(name: Seq<char>, upper_name: Seq<char>, args: Seq<ValueView>) -> Result<
    ValueView,
    Seq<char>,
> {
    match known_function(upper_name) {
        Some(Known::Simple(f)) => if args.len() == 1 {
            simple_value(f, args[0])
        } else {
            Err(argument_count_error(name, 1, args.len()))
        },
        Some(Known::Concat) => match concatenation(args, 0) {
            Some(s) => Ok(ValueView::String(s)),
            None => Ok(ValueView::Null),
        },
        Some(Known::Substring) => substring_value(args),
        Some(Known::Coalesce) => Ok(first_present(args, 0)),
        Some(Known::If) => if args.len() == 3 {
            Ok(if truthy(args[0]) { args[1] } else { args[2] })
        } else {
            Err(argument_count_error(name, 3, args.len()))
        },
        None => Err("Unknown function: "@ + name),
    }
}

fn find_function(name: &str) -> (r: Option<Known>)
    ensures
        r == known_function(name@),
{
    if same_text(name, "UPPER") || same_text(name, "UCASE") {
        Some(Known::Simple(Simple::Upper))
    } else if same_text(name, "LOWER") || same_text(name, "LCASE") {
        Some(Known::Simple(Simple::Lower))
    } else if same_text(name, "LEN") || same_text(name, "LENGTH") {
        Some(Known::Simple(Simple::Length))
    } else if same_text(name, "CONCAT") {
        Some(Known::Concat)
    } else if same_text(name, "SUBSTRING") || same_text(name, "SUBSTR") {
        Some(Known::Substring)
    } else if same_text(name, "ABS") {
        Some(Known::Simple(Simple::Absolute))
    } else if same_text(name, "CEIL") || same_text(name, "CEILING") {
        Some(Known::Simple(Simple::Ceiling))
    } else if same_text(name, "FLOOR") {
        Some(Known::Simple(Simple::Floor))
    } else if same_text(name, "ROUND") {
        Some(Known::Simple(Simple::Round))
    } else if same_text(name, "COALESCE") {
        Some(Known::Coalesce)
    } else if same_text(name, "IF") || same_text(name, "IIF") {
        Some(Known::If)
    } else {
        None
    }
}

fn apply_rounding(v: &Value, rounding: Rounding, error: &str) -> (r: Result<Value, Error>)
    ensures
        outcome(r) == rounded_value(v@, rounding, error@),
{
    match v {
        Value::Double(d) => Ok(Value::Integer(d.to_i64(rounding))),
        Value::Integer(i) => Ok(Value::Integer(*i)),
        Value::Null => Ok(Value::Null),
        _ => Err(Error::new(error)),
    }
}

fn apply_simple(f: Simple, v: &Value) -> (r: Result<Value, Error>)
    ensures
        outcome(r) == simple_value(f, v@),
        letters_known(f, v@),
{
    broadcast use lemma_array_view;

    match f {
        Simple::Upper => match v {
            Value::String(s) => Ok(Value::String(to_upper(s.as_str()))),
            Value::Null => Ok(Value::Null),
            _ => Err(Error::new("UPPER requires a string")),
        },
        Simple::Lower => match v {
            Value::String(s) => Ok(Value::String(to_lower(s.as_str()))),
            Value::Null => Ok(Value::Null),
            _ => Err(Error::new("LOWER requires a string")),
        },
        Simple::Length => match v {
            Value::String(s) => Ok(Value::Integer(s.as_str().len() as i64)),
            Value::Array(a) => Ok(Value::Integer(a.len() as i64)),
            Value::Null => Ok(Value::Null),
            _ => Err(Error::new("LEN requires a string or array")),
        },
        Simple::Absolute => match v {
            Value::Integer(i) => {
                let wide: i128 = *i as i128;
                Ok(
                    Value::Integer(
                        wrap(
                            if wide < 0 {
                                -wide
                            } else {
                                wide
                            },
                        ),
                    ),
                )
            },
            Value::Double(d) => Ok(Value::Double(d.absolute())),
            Value::Null => Ok(Value::Null),
            _ => Err(Error::new("ABS requires a number")),
        },
        Simple::Ceiling => apply_rounding(v, Rounding::Ceiling, "CEIL requires a number"),
        Simple::Floor => apply_rounding(v, Rounding::Floor, "FLOOR requires a number"),
        Simple::Round => apply_rounding(v, Rounding::Nearest, "ROUND requires a number"),
    }
}

fn concatenate(args: &Vec<Value>) -> (r: Option<String>)
    ensures
        match r {
            Some(s) => concatenation(views(args@), 0) == Some(s@),
            None => concatenation(views(args@), 0) is None,
        },
{
    let ghost a = views(args@);
    let mut result = String::new();
    let mut i: usize = 0;
    proof {
        if concatenation(a, 0) is Some {
            assert(Seq::<char>::empty() + concatenation(a, 0)->0 =~= concatenation(a, 0)->0);
        }
    }
    while i < args.len()
        invariant
            i <= args.len(),
            a == views(args@),
            concatenation(a, 0) is Some == concatenation(a, i as nat) is Some,
            concatenation(a, i as nat) matches Some(rest) ==> concatenation(a, 0) == Some(
                result@ + rest,
            ),
        decreases args.len() - i,
    {
        if args[i].is_null() {
            return None;
        }
        let ghost before = result@;
        let text = args[i].to_text();
        result.append(text.as_str());
        proof {
            if concatenation(a, (i + 1) as nat) is Some {
                let rest = concatenation(a, (i + 1) as nat)->0;
                assert(before + (text@ + rest) =~= (before + text@) + rest);
            }
        }
        i = i + 1;
    }
    proof {
        assert(result@ + Seq::<char>::empty() =~= result@);
    }
    Some(result)
}

fn to_unsigned(i: i64) -> (r: u64)
    ensures
        r == unsigned(i),
{
    if i < 0 {
        (i as i128 + 0x1_0000_0000_0000_0000) as u64
    } else {
        i as u64
    }
}

fn take_part(s: &str, start: i64, length: u64) -> (r: String)
    ensures
        r@ == part(s@, start, length as int),
{
    let chars = chars_of(s);
    let from: u64 = to_unsigned(start);
    let skipped: u64 = if from == 0 {
        0
    } else {
        from - 1
    };
    let mut r = String::new();
    if skipped >= chars.len() as u64 {
        return r;
    }
    let mut i: usize = skipped as usize;
    let rest: u64 = chars.len() as u64 - skipped;
    let count: u64 = if length >= rest {
        rest
    } else {
        length
    };
    let end: usize = (skipped + count) as usize;
    while i < end
        invariant
            skipped <= i <= end <= chars.len(),
            chars@ == s@,
            r@ == s@.subrange(skipped as int, i as int),
        decreases end - i,
    {
        r.push(chars[i]);
        proof {
            assert(s@.subrange(skipped as int, i as int).push(s@[i as int]) =~= s@.subrange(
                skipped as int,
                i + 1,
            ));
        }
        i = i + 1;
    }
    proof {
        assert(r@ =~= part(s@, start, length as int));
    }
    r
}

fn eval_substring(args: &Vec<Value>) -> (r: Result<Value, Error>)
    ensures
        outcome(r) == substring_value(views(args@)),
{
    if args.len() < 2 || args.len() > 3 {
        return Err(Error::new("SUBSTRING requires 2 or 3 arguments"));
    }
    match (&args[0], &args[1]) {
        (Value::String(s), Value::Integer(start)) => {
            let length: u64 = if args.len() == 3 {
                match args[2].as_i64() {
                    Some(i) => to_unsigned(i),
                    None => to_unsigned(s.as_str().len() as i64),
                }
            } else {
                s.as_str().len() as u64
            };
            Ok(Value::String(take_part(s.as_str(), *start, length)))
        },
        _ => if args[0].is_null() || args[1].is_null() {
            Ok(Value::Null)
        } else {
            Err(Error::new("SUBSTRING requires (string, int[, int])"))
        },
    }
}

fn coalesce(args: &Vec<Value>) -> (r: Value)
    ensures
        r@ == first_present(views(args@), 0),
{
    let mut i: usize = 0;
    while i < args.len()
        invariant
            i <= args.len(),
            first_present(views(args@), 0) == first_present(views(args@), i as nat),
        decreases args.len() - i,
    {
        if !args[i].is_null() {
            return args[i].clone();
        }
        i = i + 1;
    }
    Value::Null
}

/// Calls a function, given what its name is in upper case.
pub fn call_function(name: &str, upper_name: &str, args: &Vec<Value>) -> (r: Result<Value, Error>)
    ensures
        outcome(r) == call_value(name@, upper_name@, views(args@)),
        call_letters_known(upper_name@, views(args@)),
{
    match find_function(upper_name) {
        Some(Known::Simple(f)) => {
            if let Some(e) = require_args(name, args, 1) {
                return Err(e);
            }
            apply_simple(f, &args[0])
        },
        Some(Known::Concat) => match concatenate(args) {
            Some(s) => Ok(Value::String(s)),
            None => Ok(Value::Null),
        },
        Some(Known::Substring) => eval_substring(args),
        Some(Known::Coalesce) => Ok(coalesce(args)),
        Some(Known::If) => {
            if let Some(e) = require_args(name, args, 3) {
                return Err(e);
            }
            if args[0].is_truthy() {
                Ok(args[1].clone())
            } else {
                Ok(args[2].clone())
            }
        },
        None => Err(fail2("Unknown function: ", name)),
    }
}

/// Calls a function by its name, whatever the case of its letters.
pub fn eval_function(name: &str, args: &Vec<Value>) -> (r: Result<Value, Error>)
    ensures
        outcome(r) == call_value(name@, upper(name@), views(args@)),
        upper_of_ascii(name@),
        call_letters_known(upper(name@), views(args@)),
{
    let upper_name = to_upper(name);
    call_function(name, upper_name.as_str(), args)
}

/// The message about a value that cannot be cast.
pub open spec fn cast_error(v: ValueView, target: Seq<char>) -> Seq<char> {
    "Cannot cast "@ + type_label(v) + " to "@ + target
}

/// The message about a text that cannot be cast.
pub open spec fn text_cast_error(s: Seq<char>, target: Seq<char>) -> Seq<char> {
    "Cannot cast '"@ + s + "' to "@ + target
}

/// The value of a text cast to a timestamp, given the instant that it stands for.
pub open spec fn timestamp_value(s: Seq<char>, instant: Option<Timestamp>) -> Result<
    ValueView,
    Seq<char>,
> {
    match instant {
        Some(t) => Ok(ValueView::Timestamp(t)),
        None => Err(text_cast_error(s, "TIMESTAMP"@)),
    }
}

/// A value cast to a type.
pub open spec fn cast(v: ValueView, target: DataTypeView) -> Result<ValueView, Seq<char>> {
    if v == ValueView::Null {
        Ok(v)
    } else {
        match target {
            DataTypeView::Boolean => match v {
                ValueView::Boolean(_) => Ok(v),
                ValueView::String(s) => Ok(ValueView::Boolean(same_letters(s, "true"@))),
                ValueView::Integer(i) => Ok(ValueView::Boolean(i != 0)),
                _ => Err(cast_error(v, "BOOLEAN"@)),
            },
            DataTypeView::Integer | DataTypeView::BigInt => match v {
                ValueView::Integer(_) => Ok(v),
                ValueView::Double(d) => Ok(ValueView::Integer(to_integer(d, Rounding::Truncate))),
                ValueView::String(s) => match read_integer(s) {
                    Ok(i) => Ok(ValueView::Integer(i)),
                    Err(_) => Err(text_cast_error(s, "INTEGER"@)),
                },
                ValueView::Boolean(b) => Ok(ValueView::Integer(if b { 1 } else { 0 })),
                _ => Err(cast_error(v, "INTEGER"@)),
            },
            DataTypeView::Double => match v {
                ValueView::Double(_) => Ok(v),
                ValueView::Integer(i) => Ok(ValueView::Double(Double::nearest_to(i as int))),
                ValueView::String(s) => match read_double(s) {
                    Some(d) => Ok(ValueView::Double(d)),
                    None => Err(text_cast_error(s, "DOUBLE"@)),
                },
                _ => Err(cast_error(v, "DOUBLE"@)),
            },
            DataTypeView::String => Ok(ValueView::String(value_text(v))),
            DataTypeView::Timestamp => match v {
                ValueView::Timestamp(_) => Ok(v),
                ValueView::String(s) => timestamp_value(s, Timestamp::from_text(s)),
                ValueView::Integer(millis) => if Timestamp::fits_millis(millis as int) {
                    Ok(ValueView::Timestamp(Timestamp::at_millis(millis as int)))
                } else {
                    Err("Invalid timestamp millis: "@ + integer_text(millis as int))
                },
                _ => Err(cast_error(v, "TIMESTAMP"@)),
            },
            _ => Err("Unsupported cast to "@ + data_type_text(target)),
        }
    }
}

fn fail_cast(v: &Value, target: &str) -> (r: Error)
    ensures
        r@ == cast_error(v@, target@),
{
    fail2(join3("Cannot cast ", v.type_label(), " to ").as_str(), target)
}

fn fail_text_cast(s: &str, target: &str) -> (r: Error)
    ensures
        r@ == text_cast_error(s@, target@),
{
    fail2(join3("Cannot cast '", s, "' to ").as_str(), target)
}

/// Makes a value of a text that is cast to a timestamp, given the instant that it
/// stands for.
pub fn make_timestamp(s: &str, instant: Option<Timestamp>) -> (r: Result<Value, Error>)
    ensures
        outcome(r) == timestamp_value(s@, instant),
{
    match instant {
        Some(t) => Ok(Value::Timestamp(t)),
        None => Err(fail_text_cast(s, "TIMESTAMP")),
    }
}

/// Casts a value to a type.
pub fn cast_value(value: &Value, target: &DataType) -> (r: Result<Value, Error>)
    ensures
        outcome(r) == cast(value@, target@),
{
    if value.is_null() {
        return Ok(Value::Null);
    }
    match target {
        DataType::Boolean => match value {
            Value::Boolean(_) => Ok(value.clone()),
            Value::String(s) => Ok(Value::Boolean(equal_ignoring_case(s.as_str(), "true"))),
            Value::Integer(i) => Ok(Value::Boolean(*i != 0)),
            _ => Err(fail_cast(value, "BOOLEAN")),
        },
        DataType::Integer | DataType::BigInt => match value {
            Value::Integer(_) => Ok(value.clone()),
            Value::Double(d) => Ok(Value::Integer(d.to_i64(Rounding::Truncate))),
            Value::String(s) => match text_to_integer(s.as_str()) {
                Ok(i) => Ok(Value::Integer(i)),
                Err(_) => Err(fail_text_cast(s.as_str(), "INTEGER")),
            },
            Value::Boolean(b) => Ok(
                Value::Integer(
                    if *b {
                        1
                    } else {
                        0
                    },
                ),
            ),
            _ => Err(fail_cast(value, "INTEGER")),
        },
        DataType::Double => match value {
            Value::Double(_) => Ok(value.clone()),
            Value::Integer(i) => Ok(Value::Double(Double::from_i64(*i))),
            Value::String(s) => match text_to_double(s.as_str()) {
                Some(d) => Ok(Value::Double(d)),
                None => Err(fail_text_cast(s.as_str(), "DOUBLE")),
            },
            _ => Err(fail_cast(value, "DOUBLE")),
        },
        DataType::String => Ok(Value::String(value.to_text())),
        DataType::Timestamp => match value {
            Value::Timestamp(_) => Ok(value.clone()),
            Value::String(s) => make_timestamp(s.as_str(), Timestamp::parse(s.as_str())),
            Value::Integer(millis) => match Timestamp::from_timestamp_millis(*millis) {
                Some(t) => Ok(Value::Timestamp(t)),
                None => Err(
                    fail2("Invalid timestamp millis: ", integer_to_text(*millis).as_str()),
                ),
            },
            _ => Err(fail_cast(value, "TIMESTAMP")),
        },
        _ => Err(fail2("Unsupported cast to ", target.to_text().as_str())),
    }
}

/// An optional instant as a value.
pub open spec fn instant_value(t: Option<Timestamp>) -> ValueView {
    match t {
        Some(t) => ValueView::Timestamp(t),
        None => ValueView::Null,
    }
}

fn make_instant(t: Option<Timestamp>) -> (r: Value)
    ensures
        r@ == instant_value(t),
{
    match t {
        Some(t) => Value::Timestamp(t),
        None => Value::Null,
    }
}

/// The value of a column, given what its name is in upper case. Some names stand
/// for what is known of the row beside its fields.
pub open spec fn column_value(
    name: Seq<char>,
    upper_name: Seq<char>,
    row: RowView,
    schema: Seq<ColumnView>,
) -> Result<ValueView, Seq<char>> {
    if upper_name == "ROWTIME"@ {
        Ok(instant_value(row.metadata.timestamp))
    } else if upper_name == "ROWKEY"@ {
        match row.metadata.key {
            Some(key) => Ok(ValueView::String(key)),
            None => Ok(ValueView::Null),
        }
    } else if upper_name == "WINDOWSTART"@ {
        Ok(instant_value(row.metadata.window_start))
    } else if upper_name == "WINDOWEND"@ {
        Ok(instant_value(row.metadata.window_end))
    } else {
        match find_column(schema, name, 0) {
            Some(i) => Ok(field(row.values, i as int)),
            None => Err("Unknown column: "@ + name),
        }
    }
}

/// Looks a column up, given what its name is in upper case.
pub fn eval_column(name: &str, upper_name: &str, row: &Row, schema: &Schema) -> (r: Result<
    Value,
    Error,
>)
    ensures
        outcome(r) == column_value(name@, upper_name@, row@, schema@),
{
    if same_text(upper_name, "ROWTIME") {
        Ok(make_instant(row.metadata.timestamp))
    } else if same_text(upper_name, "ROWKEY") {
        match &row.metadata.key {
            Some(key) => Ok(Value::String(key.clone())),
            None => Ok(Value::Null),
        }
    } else if same_text(upper_name, "WINDOWSTART") {
        Ok(make_instant(row.metadata.window_start))
    } else if same_text(upper_name, "WINDOWEND") {
        Ok(make_instant(row.metadata.window_end))
    } else {
        match schema.index_of(name) {
            Some(i) => Ok(row.get(i).clone()),
            None => Err(fail2("Unknown column: ", name)),
        }
    }
}

/// A truth value, or its opposite.
pub open spec fn truth(negated: bool, b: bool) -> ValueView {
    ValueView::Boolean(if negated { !b } else { b })
}

/// The value of LIKE on a value.
pub open spec fn like_value(v: ValueView, pattern: Seq<char>, negated: bool) -> Result<
    ValueView,
    Seq<char>,
> {
    match v {
        ValueView::String(s) => Ok(truth(negated, like(s, pattern))),
        ValueView::Null => Ok(v),
        _ => Err("LIKE requires a string, got "@ + type_label(v)),
    }
}

/// The value of BETWEEN on three values.
pub open spec fn between_value(
    v: ValueView,
    low: ValueView,
    high: ValueView,
    negated: bool,
) -> ValueView {
    if v == ValueView::Null || low == ValueView::Null || high == ValueView::Null {
        ValueView::Null
    } else {
        truth(
            negated,
            value_order(v, low) != Order::Less && value_order(v, high) != Order::Greater,
        )
    }
}

/// The value of an expression on a row.
pub open spec fn value_of(e: ExprView, row: RowView, schema: Seq<ColumnView>) -> Result<
    ValueView,
    Seq<char>,
>
    decreases e, 0int,
{
    match e {
        ExprView::Column(name) => column_value(name, upper(name), row, schema),
        ExprView::Literal(v) => Ok(v),
        ExprView::BinaryOp { left, op, right } => match value_of(*left, row, schema) {
            Err(e) => Err(e),
            Ok(l) => if op == BinaryOp::And && !truthy(l) {
                Ok(ValueView::Boolean(false))
            } else if op == BinaryOp::Or && truthy(l) {
                Ok(ValueView::Boolean(true))
            } else {
                match value_of(*right, row, schema) {
                    Err(e) => Err(e),
                    Ok(r) => if op == BinaryOp::And || op == BinaryOp::Or {
                        Ok(ValueView::Boolean(truthy(r)))
                    } else {
                        binary_value(l, op, r)
                    },
                }
            },
        },
        ExprView::UnaryOp { op, expr } => match value_of(*expr, row, schema) {
            Err(e) => Err(e),
            Ok(v) => unary_value(op, v),
        },
        ExprView::Function { name, args } => match values_of(args, row, schema, 0) {
            Err(e) => Err(e),
            Ok(values) => call_value(name, upper(name), values),
        },
        ExprView::IsNull { expr, negated } => match value_of(*expr, row, schema) {
            Err(e) => Err(e),
            Ok(v) => Ok(truth(negated, v == ValueView::Null)),
        },
        ExprView::Like { expr, pattern, negated } => match value_of(*expr, row, schema) {
            Err(e) => Err(e),
            Ok(v) => like_value(v, pattern, negated),
        },
        ExprView::Between { expr, low, high, negated } => match value_of(*expr, row, schema) {
            Err(e) => Err(e),
            Ok(v) => match value_of(*low, row, schema) {
                Err(e) => Err(e),
                Ok(lo) => match value_of(*high, row, schema) {
                    Err(e) => Err(e),
                    Ok(hi) => Ok(between_value(v, lo, hi, negated)),
                },
            },
        },
        ExprView::Case { operand, conditions, else_result } => {
            let subject = match operand {
                Some(o) => match value_of(*o, row, schema) {
                    Err(e) => Err(e),
                    Ok(v) => Ok(Some(v)),
                },
                None => Ok(None),
            };
            match subject {
                Err(e) => Err(e),
                Ok(subject) => match branch_value(subject, conditions, row, schema, 0) {
                    Some(r) => r,
                    None => match else_result {
                        Some(e) => value_of(*e, row, schema),
                        None => Ok(ValueView::Null),
                    },
                },
            }
        },
        ExprView::Cast { expr, data_type } => match value_of(*expr, row, schema) {
            Err(e) => Err(e),
            Ok(v) => cast(v, data_type),
        },
        ExprView::Alias { expr, name } => value_of(*expr, row, schema),
        ExprView::Wildcard => Err("Cannot evaluate wildcard directly"@),
    }
}

/// The values of the expressions from a place on, or the first error.
pub open spec fn values_of(
    args: Seq<ExprView>,
    row: RowView,
    schema: Seq<ColumnView>,
    i: nat,
) -> Result<Seq<ValueView>, Seq<char>>
    decreases args, args.len() - i,
{
    if i >= args.len() {
        Ok(Seq::empty())
    } else {
        match value_of(args[i as int], row, schema) {
            Err(e) => Err(e),
            Ok(v) => match values_of(args, row, schema, i + 1) {
                Err(e) => Err(e),
                Ok(rest) => Ok(seq![v] + rest),
            },
        }
    }
}

/// The value of the first branch from a place on whose condition equals the
/// subject, or holds where there is none. No value where no branch is taken.
pub open spec fn branch_value(
    subject: Option<ValueView>,
    conditions: Seq<(ExprView, ExprView)>,
    row: RowView,
    schema: Seq<ColumnView>,
    i: nat,
) -> Option<Result<ValueView, Seq<char>>>
    decreases conditions, conditions.len() - i,
{
    if i >= conditions.len() {
        None
    } else {
        match value_of(conditions[i as int].0, row, schema) {
            Err(e) => Some(Err(e)),
            Ok(v) => {
                let taken = match subject {
                    Some(s) => equal(s, v),
                    None => truthy(v),
                };
                if taken {
                    Some(value_of(conditions[i as int].1, row, schema))
                } else {
                    branch_value(subject, conditions, row, schema, i + 1)
                }
            },
        }
    }
}

/// Puts what comes before to values, or keeps an error.
pub open spec fn prepend(before: Seq<ValueView>, r: Result<Seq<ValueView>, Seq<char>>) -> Result<
    Seq<ValueView>,
    Seq<char>,
> {
    match r {
        Ok(rest) => Ok(before + rest),
        Err(e) => Err(e),
    }
}

/// Evaluates an expression on a row.
pub fn eval(expr: &Expr, row: &Row, schema: &Schema) -> (r: Result<Value, Error>)
    ensures
        outcome(r) == value_of(expr@, row@, schema@),
        expr@ matches ExprView::Column(name) ==> upper_of_ascii(name),
        expr@ matches ExprView::Function { name, args } ==> (values_of(
            args,
            row@,
            schema@,
            0,
        ) matches Ok(values) ==> upper_of_ascii(name) && call_letters_known(upper(name), values)),
    decreases expr, 0int,
{
    broadcast use lemma_expr_view;

    match expr {
        Expr::Column(name) => {
            let upper_name = to_upper(name.as_str());
            eval_column(name.as_str(), upper_name.as_str(), row, schema)
        },
        Expr::Literal(v) => Ok(v.clone()),
        Expr::BinaryOp { left, op, right } => {
            let lv = match eval(&**left, row, schema) {
                Ok(v) => v,
                Err(e) => {
                    return Err(e);
                },
            };
            if *op == BinaryOp::And && !lv.is_truthy() {
                return Ok(Value::Boolean(false));
            }
            if *op == BinaryOp::Or && lv.is_truthy() {
                return Ok(Value::Boolean(true));
            }
            let rv = match eval(&**right, row, schema) {
                Ok(v) => v,
                Err(e) => {
                    return Err(e);
                },
            };
            if *op == BinaryOp::And || *op == BinaryOp::Or {
                return Ok(Value::Boolean(rv.is_truthy()));
            }
            eval_binary_op(&lv, op, &rv)
        },
        Expr::UnaryOp { op, expr } => match eval(&**expr, row, schema) {
            Ok(v) => eval_unary_op(op, &v),
            Err(e) => Err(e),
        },
        Expr::Function { name, args } => match eval_all(args, row, schema) {
            Ok(values) => eval_function(name.as_str(), &values),
            Err(e) => Err(e),
        },
        Expr::IsNull { expr, negated } => match eval(&**expr, row, schema) {
            Ok(v) => Ok(Value::Boolean(*negated != v.is_null())),
            Err(e) => Err(e),
        },
        Expr::Like { expr, pattern, negated } => match eval(&**expr, row, schema) {
            Ok(v) => match &v {
                Value::String(s) => Ok(
                    Value::Boolean(*negated != like_match(s.as_str(), pattern.as_str())),
                ),
                Value::Null => Ok(Value::Null),
                _ => Err(fail2("LIKE requires a string, got ", v.type_label())),
            },
            Err(e) => Err(e),
        },
        Expr::Between { expr, low, high, negated } => {
            let v = match eval(&**expr, row, schema) {
                Ok(v) => v,
                Err(e) => {
                    return Err(e);
                },
            };
            let lo = match eval(&**low, row, schema) {
                Ok(v) => v,
                Err(e) => {
                    return Err(e);
                },
            };
            let hi = match eval(&**high, row, schema) {
                Ok(v) => v,
                Err(e) => {
                    return Err(e);
                },
            };
            if v.is_null() || lo.is_null() || hi.is_null() {
                return Ok(Value::Null);
            }
            let inside = v.order(&lo) != Order::Less && v.order(&hi) != Order::Greater;
            Ok(Value::Boolean(*negated != inside))
        },
        Expr::Case { operand, conditions, else_result } => {
            let subject = match operand {
                Some(o) => match eval(&**o, row, schema) {
                    Ok(v) => Some(v),
                    Err(e) => {
                        return Err(e);
                    },
                },
                None => None,
            };
            match eval_branches(&subject, conditions, row, schema) {
                Some(r) => r,
                None => match else_result {
                    Some(e) => eval(&**e, row, schema),
                    None => Ok(Value::Null),
                },
            }
        },
        Expr::Cast { expr, data_type } => match eval(&**expr, row, schema) {
            Ok(v) => cast_value(&v, data_type),
            Err(e) => Err(e),
        },
        Expr::Alias { expr, name } => eval(&**expr, row, schema),
        Expr::Wildcard => Err(Error::new("Cannot evaluate wildcard directly")),
    }
}

/// What a result of values holds.
pub open spec fn values_outcome(r: Result<Vec<Value>, Error>) -> Result<Seq<ValueView>, Seq<char>> {
    match r {
        Ok(v) => Ok(views(v@)),
        Err(e) => Err(e@),
    }
}

/// Evaluates expressions on a row, up to the first error.
pub fn eval_all(args: &Vec<Expr>, row: &Row, schema: &Schema) -> (r: Result<Vec<Value>, Error>)
    ensures
        values_outcome(r) == values_of(views(args@), row@, schema@, 0),
    decreases args, 0int,
{
    let ghost a = views(args@);
    let mut values: Vec<Value> = Vec::new();
    let mut i: usize = 0;
    proof {
        let all = values_of(a, row@, schema@, 0);
        if all is Ok {
            assert(views(values@) + all->Ok_0 =~= all->Ok_0);
        }
    }
    while i < args.len()
        invariant
            i <= args.len(),
            a == views(args@),
            values_of(a, row@, schema@, 0) == prepend(
                views(values@),
                values_of(a, row@, schema@, i as nat),
            ),
        decreases args.len() - i,
    {
        let ghost before = views(values@);
        match eval(&args[i], row, schema) {
            Ok(v) => {
                let ghost value = v@;
                values.push(v);
                proof {
                    assert(views(values@) =~= before + seq![value]);
                    let rest = values_of(a, row@, schema@, (i + 1) as nat);
                    if rest is Ok {
                        assert(before + (seq![value] + rest->Ok_0) =~= (before + seq![value])
                            + rest->Ok_0);
                    }
                }
            },
            Err(e) => {
                return Err(e);
            },
        }
        i = i + 1;
    }
    proof {
        assert(views(values@) + Seq::<ValueView>::empty() =~= views(values@));
    }
    Ok(values)
}

/// What an optional value holds.
pub open spec fn subject_view(v: Option<Value>) -> Option<ValueView> {
    match v {
        Some(v) => Some(v@),
        None => None,
    }
}

/// Evaluates the branches of a CASE, up to the one that is taken.
fn eval_branches(
    subject: &Option<Value>,
    conditions: &Vec<(Expr, Expr)>,
    row: &Row,
    schema: &Schema,
) -> (r: Option<Result<Value, Error>>)
    ensures
        match r {
            Some(x) => branch_value(
                subject_view(*subject),
                branch_views(conditions@),
                row@,
                schema@,
                0,
            ) == Some(outcome(x)),
            None => branch_value(
                subject_view(*subject),
                branch_views(conditions@),
                row@,
                schema@,
                0,
            ) is None,
        },
    decreases conditions, 0int,
{
    let ghost c = branch_views(conditions@);
    let ghost s = subject_view(*subject);
    let mut i: usize = 0;
    while i < conditions.len()
        invariant
            i <= conditions.len(),
            c == branch_views(conditions@),
            s == subject_view(*subject),
            branch_value(s, c, row@, schema@, 0) == branch_value(s, c, row@, schema@, i as nat),
        decreases conditions.len() - i,
    {
        match eval(&conditions[i].0, row, schema) {
            Ok(v) => {
                let taken = match subject {
                    Some(x) => x.equals(&v),
                    None => v.is_truthy(),
                };
                if taken {
                    return Some(eval(&conditions[i].1, row, schema));
                }
            },
            Err(e) => {
                return Some(Err(e));
            },
        }
        i = i + 1;
    }
    None
}

} // verus!
