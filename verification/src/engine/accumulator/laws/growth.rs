//! Laws of how the results of aggregate functions change with one more value.
use crate::double::laws::lemma_sum_nearest;
use crate::double::{magnitude_value, Double, INFINITY};
use crate::engine::accumulator::laws::{
    accumulated_all, lemma_count, lemma_sum, present, sum_of,
};
use crate::engine::accumulator::{aggregate_value, fresh};
use crate::expr::eval::binary_value;
use crate::expr::BinaryOp;
use crate::plan::AggregateFunction;
use crate::value::ValueView;
use vstd::prelude::*;

verus! {

/// The values that are present are those that are not null, in their order.
pub proof fn lemma_present_values(s: Seq<ValueView>, n: nat)
    requires
        n <= s.len(),
    ensures
        present(s, n) == s.take(n as int).filter(|v: ValueView| !(v is Null)),
    decreases n,
{
    reveal(Seq::filter);
    if n > 0 {
        lemma_present_values(s, (n - 1) as nat);
        let t = s.take(n as int);
        assert(t.drop_last() =~= s.take(n - 1));
        assert(t.last() == s[n - 1]);
    } else {
        assert(s.take(0) =~= Seq::empty());
    }
}

proof fn lemma_present_push(s: Seq<ValueView>, v: ValueView)
    ensures
        present(s.push(v), s.len() + 1) == if v is Null {
            present(s, s.len())
        } else {
            present(s, s.len()).push(v)
        },
{
    let t = s.push(v);
    lemma_present_values(s, s.len());
    lemma_present_values(t, s.len());
    assert(s.take(s.len() as int) =~= t.take(s.len() as int));
    assert(t[s.len() as int] == v);
}

proof fn lemma_sum_push(p: Seq<ValueView>, v: ValueView, n: nat)
    requires
        n <= p.len(),
    ensures
        sum_of(p.push(v), n) == sum_of(p, n),
    decreases n,
{
    if n > 0 {
        lemma_sum_push(p, v, (n - 1) as nat);
    }
}

/// What a function makes of values.
pub open spec fn result_of(f: AggregateFunction, s: Seq<ValueView>) -> ValueView {
    aggregate_value(accumulated_all(fresh(f, false), s, s.len()))
}

/// COUNT goes up by one with each value that is not null, from zero.
pub proof fn lemma_count_grows(s: Seq<ValueView>, v: ValueView)
    requires
        s.len() < i64::MAX,
    ensures
        result_of(AggregateFunction::Count, Seq::empty()) == ValueView::Integer(0),
        result_of(AggregateFunction::Count, s) matches ValueView::Integer(n) && result_of(
            AggregateFunction::Count,
            s.push(v),
        ) == if v is Null {
            ValueView::Integer(n)
        } else {
            ValueView::Integer((n + 1) as i64)
        } && 0 <= n <= s.len(),
{
    let none = Seq::<ValueView>::empty();
    lemma_count(none, 0);
    lemma_count(s, s.len());
    lemma_count(s.push(v), s.len() + 1);
    lemma_present_push(s, v);
    lemma_present_values(s, s.len());
    s.take(s.len() as int).lemma_filter_len(|v: ValueView| !(v is Null));
}

/// With one more number, SUM is what it was plus that number, as expressions add. Nulls
/// change nothing. The sum of the first number, where it is finite, is that number.
pub proof fn lemma_sum_grows(s: Seq<ValueView>, v: ValueView)
    requires
        s.len() < i64::MAX,
    ensures
        result_of(AggregateFunction::Sum, Seq::empty()) == ValueView::Null,
        v is Null ==> result_of(AggregateFunction::Sum, s.push(v)) == result_of(
            AggregateFunction::Sum,
            s,
        ),
        (v is Integer || v is Double) && !(result_of(AggregateFunction::Sum, s) is Null) ==> Ok::<
            ValueView,
            Seq<char>,
        >(result_of(AggregateFunction::Sum, s.push(v))) == binary_value(
            result_of(AggregateFunction::Sum, s),
            BinaryOp::Add,
            v,
        ),
        (v matches ValueView::Double(d) && d.magnitude() < INFINITY) && result_of(
            AggregateFunction::Sum,
            s,
        ) is Null ==> (result_of(AggregateFunction::Sum, s.push(v)) matches ValueView::Double(e)
            && e.value() == v->Double_0.value()),
        (v matches ValueView::Integer(i) && Double::nearest_to(i as int).magnitude() < INFINITY)
            && result_of(AggregateFunction::Sum, s) is Null ==> (result_of(
            AggregateFunction::Sum,
            s.push(v),
        ) matches ValueView::Double(e) && e.value() == Double::nearest_to(
            v->Integer_0 as int,
        ).value()),
{
    let none = Seq::<ValueView>::empty();
    lemma_sum(false, none, 0);
    lemma_sum(false, s, s.len());
    lemma_sum(false, s.push(v), s.len() + 1);
    lemma_present_push(s, v);
    let p = present(s, s.len());
    if !(v is Null) {
        lemma_sum_push(p, v, p.len());
        assert(p.push(v)[p.len() as int] == v);
        let zero = Double { bits: 0 };
        assert(magnitude_value(0) == 0);
        let d = match v {
            ValueView::Double(d) => d,
            ValueView::Integer(i) => Double::nearest_to(i as int),
            _ => zero,
        };
        if d.magnitude() < INFINITY {
            lemma_sum_nearest(zero, d, d);
        }
    }
}

/// AVG is SUM divided by COUNT, as expressions divide, and null where there is nothing to
/// count.
pub proof fn lemma_average(s: Seq<ValueView>)
    requires
        s.len() <= i64::MAX,
    ensures
        match result_of(AggregateFunction::Sum, s) {
            ValueView::Null => result_of(AggregateFunction::Avg, s) is Null && result_of(
                AggregateFunction::Count,
                s,
            ) == ValueView::Integer(0),
            total => Ok::<ValueView, Seq<char>>(result_of(AggregateFunction::Avg, s))
                == binary_value(total, BinaryOp::Div, result_of(AggregateFunction::Count, s)),
        },
{
    lemma_sum(false, s, s.len());
    lemma_sum(true, s, s.len());
    lemma_count(s, s.len());
    lemma_present_values(s, s.len());
    s.take(s.len() as int).lemma_filter_len(|v: ValueView| !(v is Null));
}

} // verus!
