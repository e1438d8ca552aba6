//! Laws of the equality and the order of values.
use crate::double::{lemma_nearest_to_monotonic, Double};
use crate::text::{
    lemma_precedes_asymmetric, lemma_precedes_irreflexive, lemma_precedes_total,
    lemma_precedes_transitive, precedes,
};
use crate::value::{equal, list_order, type_label, value_order, Order, ValueView};
use vstd::prelude::*;

pub mod kinds;

verus! {

/// Whether a value holds nothing that is not a number, at any depth.
pub open spec fn numbers_only(v: ValueView) -> bool
    decreases v,
{
    match v {
        ValueView::Double(d) => !d.nan(),
        ValueView::Array(a) => forall|i: int| 0 <= i < a.len() ==> numbers_only(#[trigger] a[i]),
        ValueView::Mapping(m) => forall|i: int|
            0 <= i < m.len() ==> numbers_only((#[trigger] m[i]).1),
        _ => true,
    }
}

/// A value equals itself exactly where it holds nothing that is not a number.
pub proof fn lemma_equal_reflexive(v: ValueView)
    ensures
        equal(v, v) <==> numbers_only(v),
    decreases v,
{
    match v {
        ValueView::Array(a) => {
            assert forall|i: int| 0 <= i < a.len() implies (equal(#[trigger] a[i], a[i])
                <==> numbers_only(a[i])) by {
                lemma_equal_reflexive(a[i]);
            }
            if equal(v, v) {
                assert forall|i: int| 0 <= i < a.len() implies numbers_only(#[trigger] a[i]) by {
                    assert(equal(a[i], a[i]));
                }
            }
        },
        ValueView::Mapping(m) => {
            assert forall|i: int| 0 <= i < m.len() implies (equal((#[trigger] m[i]).1, m[i].1)
                <==> numbers_only(m[i].1)) by {
                assert(decreases_to!(m => m[i]));
                assert(decreases_to!(m[i] => m[i].1));
                lemma_equal_reflexive(m[i].1);
            }
            if equal(v, v) {
                assert forall|i: int| 0 <= i < m.len() implies numbers_only(
                    (#[trigger] m[i]).1,
                ) by {
                    assert(equal(m[i].1, m[i].1));
                }
            }
        },
        _ => {},
    }
}

/// Where one value equals another, the other equals the one.
pub proof fn lemma_equal_symmetric(a: ValueView, b: ValueView)
    ensures
        equal(a, b) == equal(b, a),
    decreases a,
{
    match (a, b) {
        (ValueView::Array(x), ValueView::Array(y)) => {
            if x.len() == y.len() {
                assert forall|i: int| 0 <= i < x.len() implies #[trigger] equal(x[i], y[i])
                    == equal(y[i], x[i]) by {
                    lemma_equal_symmetric(x[i], y[i]);
                }
                if equal(a, b) {
                    assert forall|i: int| 0 <= i < y.len() implies equal(
                        #[trigger] y[i],
                        x[i],
                    ) by {
                        assert(equal(x[i], y[i]));
                    }
                }
                if equal(b, a) {
                    assert forall|i: int| 0 <= i < x.len() implies equal(
                        #[trigger] x[i],
                        y[i],
                    ) by {
                        assert(equal(y[i], x[i]));
                    }
                }
            }
        },
        (ValueView::Mapping(x), ValueView::Mapping(y)) => {
            if x.len() == y.len() {
                assert forall|i: int| 0 <= i < x.len() implies #[trigger] equal(x[i].1, y[i].1)
                    == equal(y[i].1, x[i].1) by {
                    assert(decreases_to!(x => x[i]));
                    assert(decreases_to!(x[i] => x[i].1));
                    lemma_equal_symmetric(x[i].1, y[i].1);
                }
                if equal(a, b) {
                    assert forall|i: int| 0 <= i < y.len() implies (#[trigger] y[i]).0 == x[i].0
                        && equal(y[i].1, x[i].1) by {
                        assert(x[i].0 == y[i].0 && equal(x[i].1, y[i].1));
                    }
                }
                if equal(b, a) {
                    assert forall|i: int| 0 <= i < x.len() implies (#[trigger] x[i]).0 == y[i].0
                        && equal(x[i].1, y[i].1) by {
                        assert(y[i].0 == x[i].0 && equal(y[i].1, x[i].1));
                    }
                }
            }
        },
        _ => {},
    }
}

/// Values that equal the same value equal each other.
pub proof fn lemma_equal_transitive(a: ValueView, b: ValueView, c: ValueView)
    requires
        equal(a, b),
        equal(b, c),
    ensures
        equal(a, c),
    decreases a,
{
    match (a, b, c) {
        (ValueView::Array(x), ValueView::Array(y), ValueView::Array(z)) => {
            assert forall|i: int| 0 <= i < x.len() implies equal(#[trigger] x[i], z[i]) by {
                assert(equal(x[i], y[i]));
                assert(equal(y[i], z[i]));
                lemma_equal_transitive(x[i], y[i], z[i]);
            }
        },
        (ValueView::Mapping(x), ValueView::Mapping(y), ValueView::Mapping(z)) => {
            assert forall|i: int| 0 <= i < x.len() implies (#[trigger] x[i]).0 == z[i].0
                && equal(x[i].1, z[i].1) by {
                assert(x[i].0 == y[i].0 && equal(x[i].1, y[i].1));
                assert(y[i].0 == z[i].0 && equal(y[i].1, z[i].1));
                assert(decreases_to!(x => x[i]));
                assert(decreases_to!(x[i] => x[i].1));
                lemma_equal_transitive(x[i].1, y[i].1, z[i].1);
            }
        },
        _ => {},
    }
}

/// Values that are equal are level.
pub proof fn lemma_equal_is_level(a: ValueView, b: ValueView)
    requires
        equal(a, b),
    ensures
        value_order(a, b) == Order::Equal,
    decreases a, 0int,
{
    match (a, b) {
        (ValueView::String(x), ValueView::String(y)) => {
            lemma_precedes_irreflexive(x);
        },
        (ValueView::Array(x), ValueView::Array(y)) => {
            lemma_equal_lists_level(x, y, 0);
        },
        (ValueView::Mapping(x), ValueView::Mapping(y)) => {
            lemma_precedes_irreflexive(type_label(a));
        },
        _ => {},
    }
}

proof fn lemma_equal_lists_level(x: Seq<ValueView>, y: Seq<ValueView>, i: nat)
    requires
        x.len() == y.len(),
        forall|j: int| 0 <= j < x.len() ==> equal(#[trigger] x[j], y[j]),
    ensures
        list_order(x, y, i) == Order::Equal,
    decreases x, x.len() - i,
{
    if i < x.len() {
        assert(equal(x[i as int], y[i as int]));
        assert(decreases_to!(x => x[i as int]));
        lemma_equal_is_level(x[i as int], y[i as int]);
        lemma_equal_lists_level(x, y, i + 1);
    }
}

/// How one thing stands to another, seen from the other.
pub open spec fn flipped(o: Order) -> Order {
    match o {
        Order::Less => Order::Greater,
        Order::Equal => Order::Equal,
        Order::Greater => Order::Less,
    }
}

/// The order of two values does not depend on which is asked first; each is level
/// with itself.
pub proof fn lemma_order_flips(a: ValueView, b: ValueView)
    ensures
        value_order(b, a) == flipped(value_order(a, b)),
    decreases a, 0int,
{
    match (a, b) {
        (ValueView::String(x), ValueView::String(y)) => {
            lemma_precedes_asymmetric(x, y);
        },
        (ValueView::Array(x), ValueView::Array(y)) => {
            lemma_list_order_flips(x, y, 0);
        },
        _ => {
            lemma_precedes_asymmetric(type_label(a), type_label(b));
        },
    }
}

proof fn lemma_list_order_flips(x: Seq<ValueView>, y: Seq<ValueView>, i: nat)
    ensures
        list_order(y, x, i) == flipped(list_order(x, y, i)),
    decreases x, x.len() - i,
{
    if i < x.len() && i < y.len() {
        assert(decreases_to!(x => x[i as int]));
        lemma_order_flips(x[i as int], y[i as int]);
        lemma_list_order_flips(x, y, i + 1);
    }
}

/// Whether a value stands in one line with others: it is no array, and not something
/// that is not a number.
pub open spec fn in_line(v: ValueView) -> bool {
    match v {
        ValueView::Array(_) => false,
        ValueView::Double(d) => !d.nan(),
        _ => true,
    }
}

/// Whether a value is an integer or a double.
pub open spec fn is_number(v: ValueView) -> bool {
    v is Integer || v is Double
}

/// Where a number stands among the doubles.
pub open spec fn number_rank(v: ValueView) -> int {
    match v {
        ValueView::Integer(i) => Double::nearest_to(i as int).rank(),
        ValueView::Double(d) => d.rank(),
        _ => 0,
    }
}

/// Numbers are ordered by where they stand among the doubles, and two integers that
/// stand in the same place by themselves.
proof fn lemma_number_order(a: ValueView, b: ValueView)
    requires
        is_number(a),
        is_number(b),
        in_line(a),
        in_line(b),
    ensures
        value_order(a, b) == Order::Less ==> number_rank(a) <= number_rank(b),
        value_order(a, b) == Order::Less && !(a is Integer && b is Integer) ==> number_rank(a)
            < number_rank(b),
        number_rank(a) < number_rank(b) ==> value_order(a, b) == Order::Less,
{
    if let ValueView::Integer(i) = a {
        lemma_nearest_to_monotonic(i as int, i as int);
        if let ValueView::Integer(j) = b {
            if i <= j {
                lemma_nearest_to_monotonic(i as int, j as int);
            } else {
                lemma_nearest_to_monotonic(j as int, i as int);
            }
        }
    }
    if let ValueView::Integer(j) = b {
        lemma_nearest_to_monotonic(j as int, j as int);
    }
}

/// The place of a type in the order of the types' names; integers and doubles stand
/// in one line.
spec fn type_rank(v: ValueView) -> int {
    match v {
        ValueView::Null => 0,
        ValueView::Array(_) => 1,
        ValueView::Boolean(_) => 2,
        ValueView::Integer(_) => 3,
        ValueView::Double(_) => 3,
        ValueView::Mapping(_) => 4,
        ValueView::String(_) => 5,
        ValueView::Timestamp(_) => 6,
    }
}

/// Values of different types are ordered by their types.
proof fn lemma_type_order(a: ValueView, b: ValueView)
    ensures
        type_rank(a) < type_rank(b) ==> value_order(a, b) == Order::Less,
        type_rank(a) > type_rank(b) ==> value_order(a, b) == Order::Greater,
{
    reveal_strlit("NULL");
    reveal_strlit("ARRAY");
    reveal_strlit("BOOLEAN");
    reveal_strlit("DOUBLE");
    reveal_strlit("INTEGER");
    reveal_strlit("MAP");
    reveal_strlit("STRING");
    reveal_strlit("TIMESTAMP");
    let x = type_label(a);
    let y = type_label(b);
    assert(x.len() > 0 && y.len() > 0);
    if type_rank(a) != type_rank(b) && type_rank(a) > 0 && type_rank(b) > 0 {
        assert(x[0] != y[0]);
    }
}

/// A value that is less than another is less than what the other is less than.
pub proof fn lemma_less_transitive(a: ValueView, b: ValueView, c: ValueView)
    requires
        in_line(a),
        in_line(b),
        in_line(c),
        value_order(a, b) == Order::Less,
        value_order(b, c) == Order::Less,
    ensures
        value_order(a, c) == Order::Less,
{
    lemma_type_order(a, b);
    lemma_type_order(b, c);
    lemma_type_order(a, c);
    if type_rank(a) == type_rank(b) && type_rank(b) == type_rank(c) {
        if is_number(a) {
            lemma_number_order(a, b);
            lemma_number_order(b, c);
            lemma_number_order(a, c);
        } else if let ValueView::String(x) = a {
            let y = b->String_0;
            let z = c->String_0;
            lemma_precedes_transitive(x, y, z);
        } else {
            lemma_precedes_irreflexive(type_label(a));
        }
    }
}

/// Whether a value is less than another.
#[verifier::opaque]
pub open spec fn less(a: ValueView, b: ValueView) -> bool {
    value_order(a, b) == Order::Less
}

/// Whether a value is level with another.
#[verifier::opaque]
pub open spec fn level(a: ValueView, b: ValueView) -> bool {
    value_order(a, b) == Order::Equal
}

/// Whether a value is not greater than another.
#[verifier::opaque]
pub open spec fn not_above(a: ValueView, b: ValueView) -> bool {
    value_order(a, b) != Order::Greater
}

/// Of two values just one is less, or they are level. What is not above another is
/// less or level. Each value is level with itself.
pub proof fn lemma_relations(a: ValueView, b: ValueView)
    ensures
        less(a, b) == (value_order(a, b) == Order::Less),
        less(b, a) == (value_order(a, b) == Order::Greater),
        level(a, b) == (value_order(a, b) == Order::Equal),
        level(b, a) == level(a, b),
        not_above(a, b) == !less(b, a),
        not_above(b, a) == !less(a, b),
        level(a, a),
{
    reveal(less);
    reveal(level);
    reveal(not_above);
    lemma_order_flips(a, b);
    lemma_order_flips(a, a);
}

/// Whether the order of values is one of a line: what is at most another is at most
/// what the other is at most.
#[verifier::opaque]
pub open spec fn lined_up(s: Seq<ValueView>) -> bool {
    forall|i: int, j: int, k: int|
        0 <= i < s.len() && 0 <= j < s.len() && 0 <= k < s.len() && not_above(
            #[trigger] s[i],
            #[trigger] s[j],
        ) && not_above(s[j], #[trigger] s[k]) ==> not_above(s[i], s[k])
}

/// Values that stand in line are lined up, unless there are both integers and doubles
/// among them: an integer that no double equals is level with a double that is level
/// with other integers too.
pub proof fn lemma_lined_up(s: Seq<ValueView>)
    requires
        forall|i: int| 0 <= i < s.len() ==> in_line(#[trigger] s[i]),
        (forall|i: int| 0 <= i < s.len() ==> !(#[trigger] s[i] is Integer)) || (forall|i: int|
            0 <= i < s.len() ==> !(#[trigger] s[i] is Double)),
    ensures
        lined_up(s),
{
    reveal(lined_up);
    reveal(not_above);
    assert forall|i: int, j: int, k: int|
        0 <= i < s.len() && 0 <= j < s.len() && 0 <= k < s.len() && not_above(
            #[trigger] s[i],
            #[trigger] s[j],
        ) && not_above(s[j], #[trigger] s[k]) implies not_above(s[i], s[k]) by {
        let a = s[i];
        let b = s[j];
        let c = s[k];
        lemma_type_order(a, b);
        lemma_type_order(b, c);
        lemma_type_order(a, c);
        if type_rank(a) == type_rank(b) && type_rank(b) == type_rank(c) {
            if let ValueView::String(x) = a {
                let y = b->String_0;
                let z = c->String_0;
                lemma_precedes_total(x, y);
                lemma_precedes_total(y, z);
                lemma_precedes_asymmetric(x, z);
                lemma_precedes_asymmetric(x, y);
                lemma_precedes_asymmetric(y, z);
                if precedes(x, y) && precedes(y, z) {
                    lemma_precedes_transitive(x, y, z);
                }
                if precedes(z, x) {
                    lemma_precedes_irreflexive(x);
                    if precedes(x, y) && y == z {
                    }
                }
            } else {
                lemma_precedes_irreflexive(type_label(a));
            }
        }
    }
}

} // verus!
