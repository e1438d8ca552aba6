//! Laws of what values of each kind are equal to, how they are ordered, and when they
//! count as true.
use crate::double::{lemma_below_is_less, Double, INFINITY};
use crate::text::{lemma_precedes_irreflexive, precedes};
use crate::time::Timestamp;
use crate::value::{
    all_equal, as_double, as_integer, equal, list_order, truthy, value_order, Order, ValueView,
};
use vstd::prelude::*;

verus! {

/// Values of one kind are equal exactly where they hold the same: the same truth value,
/// the same number, the same characters, the same instant. Nulls are equal.
pub proof fn lemma_equal_of_kind(
    a: bool,
    b: bool,
    i: i64,
    j: i64,
    x: Double,
    y: Double,
    s: Seq<char>,
    t: Seq<char>,
)
    requires
        x.magnitude() < INFINITY,
        y.magnitude() < INFINITY,
    ensures
        equal(ValueView::Null, ValueView::Null),
        equal(ValueView::Boolean(a), ValueView::Boolean(b)) <==> a == b,
        equal(ValueView::Integer(i), ValueView::Integer(j)) <==> i == j,
        equal(ValueView::Double(x), ValueView::Double(y)) <==> x.value() == y.value(),
        equal(ValueView::String(s), ValueView::String(t)) <==> s == t,
{
    lemma_below_is_less(x, y);
}

/// Equal instants are the same, and what is not a number equals nothing.
pub proof fn lemma_equal_of_rare(
    t: Timestamp,
    u: Timestamp,
    d: Double,
    v: ValueView,
)
    requires
        d.nan(),
    ensures
        equal(ValueView::Timestamp(t), ValueView::Timestamp(u)) <==> t == u,
        !equal(ValueView::Double(d), v),
        !equal(v, ValueView::Double(d)),
{
}

/// Equal values are of one kind.
pub proof fn lemma_equal_kinds(a: ValueView, b: ValueView)
    requires
        equal(a, b),
    ensures
        a is Null <==> b is Null,
        a is Boolean <==> b is Boolean,
        a is Integer <==> b is Integer,
        a is Double <==> b is Double,
        a is String <==> b is String,
        a is Timestamp <==> b is Timestamp,
        a is Array <==> b is Array,
        a is Mapping <==> b is Mapping,
{
}

/// Arrays are equal exactly where they are as long as each other and equal at each
/// place, and so are lists of values.
pub proof fn lemma_equal_lists(x: Seq<ValueView>, y: Seq<ValueView>)
    ensures
        equal(ValueView::Array(x), ValueView::Array(y)) <==> (x.len() == y.len() && forall|i: int|
            0 <= i < x.len() ==> equal(#[trigger] x[i], y[i])),
        all_equal(x, y) <==> (x.len() == y.len() && forall|i: int|
            0 <= i < x.len() ==> equal(#[trigger] x[i], y[i])),
{
}

/// Maps are equal exactly where they hold the same names, with equal values.
pub proof fn lemma_equal_maps(x: Seq<(Seq<char>, ValueView)>, y: Seq<(Seq<char>, ValueView)>)
    ensures
        equal(ValueView::Mapping(x), ValueView::Mapping(y)) <==> (x.len() == y.len()
            && forall|i: int|
            0 <= i < x.len() ==> (#[trigger] x[i]).0 == y[i].0 && equal(x[i].1, y[i].1)),
{
}

/// Keys that differ in one place are not the same: an integer differs from any other, a
/// text from any other, and both from null and from each other.
pub proof fn lemma_keys_differ(x: Seq<ValueView>, y: Seq<ValueView>, i: int)
    requires
        0 <= i < x.len(),
        0 <= i < y.len(),
        x[i] != y[i],
        x[i] is Integer || x[i] is String || x[i] is Boolean || x[i] is Null || x[i] is Timestamp,
    ensures
        !all_equal(x, y),
        !all_equal(y, x),
{
    if all_equal(x, y) {
        assert(equal(x[i], y[i]));
    }
    if all_equal(y, x) {
        assert(equal(y[i], x[i]));
    }
}

/// How values of one kind are ordered: integers and doubles as numbers, false before
/// true, and instants by their second and what is beyond it. Null comes before all.
pub proof fn lemma_order_of_kind(
    a: bool,
    b: bool,
    i: i64,
    j: i64,
    x: Double,
    y: Double,
    v: ValueView,
)
    requires
        x.magnitude() < INFINITY,
        y.magnitude() < INFINITY,
        !(v is Null),
    ensures
        value_order(ValueView::Null, ValueView::Null) == Order::Equal,
        value_order(ValueView::Null, v) == Order::Less,
        value_order(v, ValueView::Null) == Order::Greater,
        value_order(ValueView::Boolean(a), ValueView::Boolean(b)) == Order::Less <==> (!a && b),
        value_order(ValueView::Boolean(a), ValueView::Boolean(b)) == Order::Greater <==> (a && !b),
        value_order(ValueView::Integer(i), ValueView::Integer(j)) == Order::Less <==> i < j,
        value_order(ValueView::Integer(i), ValueView::Integer(j)) == Order::Greater <==> i > j,
        value_order(ValueView::Double(x), ValueView::Double(y)) == Order::Less <==> x.value()
            < y.value(),
        value_order(ValueView::Double(x), ValueView::Double(y)) == Order::Greater <==> x.value()
            > y.value(),
        value_order(ValueView::Integer(i), ValueView::Double(y)) == value_order(
            ValueView::Double(Double::nearest_to(i as int)),
            ValueView::Double(y),
        ),
        value_order(ValueView::Double(x), ValueView::Integer(j)) == value_order(
            ValueView::Double(x),
            ValueView::Double(Double::nearest_to(j as int)),
        ),
{
    lemma_below_is_less(x, y);
    lemma_below_is_less(y, x);
}

/// What is not a number is level with each number. Instants are ordered by their second
/// and what is beyond it.
pub proof fn lemma_order_of_rare(
    t: Timestamp,
    u: Timestamp,
    d: Double,
    e: Double,
)
    requires
        d.nan(),
    ensures
        value_order(ValueView::Double(d), ValueView::Double(e)) == Order::Equal,
        value_order(ValueView::Double(e), ValueView::Double(d)) == Order::Equal,
        value_order(ValueView::Timestamp(t), ValueView::Timestamp(u)) == Order::Less <==> (
        t.second() < u.second() || (t.second() == u.second() && t.nanosecond()
            < u.nanosecond())),
        value_order(ValueView::Timestamp(t), ValueView::Timestamp(u)) == Order::Greater <==> (
        u.second() < t.second() || (t.second() == u.second() && u.nanosecond()
            < t.nanosecond())),
{
}

/// Texts are ordered by the first character in which they differ; one that another starts
/// with comes before it.
pub proof fn lemma_order_of_texts(s: Seq<char>, t: Seq<char>, n: int)
    requires
        0 <= n <= s.len(),
        n <= t.len(),
        forall|i: int| 0 <= i < n ==> s[i] == t[i],
    ensures
        n < s.len() && n < t.len() && s[n] < t[n] ==> value_order(
            ValueView::String(s),
            ValueView::String(t),
        ) == Order::Less && value_order(ValueView::String(t), ValueView::String(s))
            == Order::Greater,
        n == s.len() < t.len() ==> value_order(ValueView::String(s), ValueView::String(t))
            == Order::Less && value_order(ValueView::String(t), ValueView::String(s))
            == Order::Greater,
        value_order(ValueView::String(s), ValueView::String(s)) == Order::Equal,
{
    lemma_precedes_irreflexive(s);
    lemma_precedes_from(s, t, n);
}

proof fn lemma_precedes_from(s: Seq<char>, t: Seq<char>, n: int)
    requires
        0 <= n <= s.len(),
        n <= t.len(),
        forall|i: int| 0 <= i < n ==> s[i] == t[i],
    ensures
        n < s.len() && n < t.len() && s[n] < t[n] ==> precedes(s, t) && !precedes(t, s),
        n == s.len() < t.len() ==> precedes(s, t) && !precedes(t, s),
    decreases n,
{
    if n > 0 {
        assert(s[0] == t[0]);
        lemma_precedes_from(s.drop_first(), t.drop_first(), n - 1);
    }
}

/// Arrays are ordered by the first values that are not level; one that another starts
/// with comes before it.
pub proof fn lemma_order_of_arrays(x: Seq<ValueView>, y: Seq<ValueView>, n: nat)
    requires
        n <= x.len(),
        n <= y.len(),
        forall|i: int| 0 <= i < n ==> value_order(#[trigger] x[i], y[i]) == Order::Equal,
    ensures
        n < x.len() && n < y.len() && value_order(x[n as int], y[n as int]) != Order::Equal
            ==> value_order(ValueView::Array(x), ValueView::Array(y)) == value_order(
            x[n as int],
            y[n as int],
        ),
        n == x.len() < y.len() ==> value_order(ValueView::Array(x), ValueView::Array(y))
            == Order::Less,
        n == y.len() < x.len() ==> value_order(ValueView::Array(x), ValueView::Array(y))
            == Order::Greater,
        n == x.len() == y.len() ==> value_order(ValueView::Array(x), ValueView::Array(y))
            == Order::Equal,
{
    lemma_level_so_far(x, y, 0, n);
}

proof fn lemma_level_so_far(x: Seq<ValueView>, y: Seq<ValueView>, i: nat, n: nat)
    requires
        i <= n <= x.len(),
        n <= y.len(),
        forall|k: int| 0 <= k < n ==> value_order(#[trigger] x[k], y[k]) == Order::Equal,
    ensures
        list_order(x, y, i) == list_order(x, y, n),
    decreases n - i,
{
    if i < n {
        assert(value_order(x[i as int], y[i as int]) == Order::Equal);
        lemma_level_so_far(x, y, i + 1, n);
    }
}

/// What counts as true: anything but null, false, zero, and a text without characters.
pub proof fn lemma_truthy(v: ValueView)
    ensures
        truthy(v) <==> !(v is Null) && v != ValueView::Boolean(false) && v != ValueView::Integer(0)
            && v != ValueView::String(Seq::empty()) && !(v matches ValueView::Double(d)
            && d.magnitude() == 0),
{
    if let ValueView::String(s) = v {
        if s.len() == 0 {
            assert(s =~= Seq::<char>::empty());
        }
    }
}

/// Only numbers stand for a number: an integer for itself, and a double for itself.
pub proof fn lemma_numbers(v: ValueView)
    ensures
        as_integer(v) is Some <==> v is Integer || v is Double,
        as_double(v) is Some <==> v is Integer || v is Double,
        v matches ValueView::Integer(i) ==> as_integer(v) == Some(i) && as_double(v) == Some(
            Double::nearest_to(i as int),
        ),
        v matches ValueView::Double(d) ==> as_double(v) == Some(d),
{
}

} // verus!
