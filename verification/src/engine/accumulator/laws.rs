//! Laws of the aggregate functions.
use crate::double::{sum, Double};
use crate::engine::accumulator::{
    accumulated, aggregate_value, fresh, greatest, set_add, set_holds, set_place, sort_place,
    sorted, AccumulatorView,
};
use crate::plan::AggregateFunction;
use crate::text::lemma_precedes_total;
use crate::value::laws::{
    in_line, lemma_less_transitive, lemma_lined_up, lemma_order_flips, lemma_relations, less, level, lined_up,
    not_above,
};
use crate::value::{as_double, value_order, Order, ValueView};
use vstd::prelude::*;
use vstd::seq_lib::group_seq_properties;

pub mod distinct;
pub mod growth;

verus! {

/// What an accumulator holds after the first `n` of some values.
pub open spec fn accumulated_all(a: AccumulatorView, s: Seq<ValueView>, n: nat) -> AccumulatorView
    decreases n,
{
    if n == 0 || n > s.len() {
        a
    } else {
        accumulated(accumulated_all(a, s, (n - 1) as nat), s[n - 1])
    }
}

/// The values among the first `n` that are not null, in their order.
pub open spec fn present(s: Seq<ValueView>, n: nat) -> Seq<ValueView>
    decreases n,
{
    if n == 0 || n > s.len() {
        Seq::empty()
    } else if s[n - 1] == ValueView::Null {
        present(s, (n - 1) as nat)
    } else {
        present(s, (n - 1) as nat).push(s[n - 1])
    }
}

/// The sum of doubles, from the left.
pub open spec fn sum_of(s: Seq<ValueView>, n: nat) -> Double
    decreases n,
{
    if n == 0 || n > s.len() {
        Double { bits: 0 }
    } else {
        match as_double(s[n - 1]) {
            Some(d) => sum(sum_of(s, (n - 1) as nat), d),
            None => sum_of(s, (n - 1) as nat),
        }
    }
}

/// What is present among the first values was among them.
proof fn lemma_present(s: Seq<ValueView>, n: nat)
    requires
        n <= s.len(),
    ensures
        present(s, n).len() <= n,
        forall|i: int| 0 <= i < present(s, n).len() ==> s.contains(#[trigger] present(s, n)[i]),
        forall|i: int|
            0 <= i < n && s[i] != ValueView::Null ==> present(s, n).contains(#[trigger] s[i]),
    decreases n,
{
    if n > 0 {
        let m = (n - 1) as nat;
        let before = present(s, m);
        lemma_present(s, m);
        assert forall|i: int| 0 <= i < present(s, n).len() implies s.contains(
            #[trigger] present(s, n)[i],
        ) by {
            if i < before.len() {
                assert(s.contains(before[i]));
            } else {
                assert(s[n - 1] == present(s, n)[i]);
            }
        }
        assert forall|i: int| 0 <= i < n && s[i] != ValueView::Null implies present(
            s,
            n,
        ).contains(#[trigger] s[i]) by {
            if i < m {
                assert(before.contains(s[i]));
                let j = choose|j: int| 0 <= j < before.len() && before[j] == s[i];
                assert(present(s, n)[j] == s[i]);
            } else {
                assert(present(s, n)[before.len() as int] == s[i]);
            }
        }
    }
}

/// COUNT of an expression is the number of its values that are not null.
pub proof fn lemma_count(s: Seq<ValueView>, n: nat)
    requires
        n <= s.len() <= i64::MAX,
    ensures
        aggregate_value(accumulated_all(fresh(AggregateFunction::Count, false), s, n))
            == ValueView::Integer(present(s, n).len() as i64),
    decreases n,
{
    let f = AggregateFunction::Count;
    lemma_present(s, n);
    if n > 0 {
        let m = (n - 1) as nat;
        lemma_count(s, m);
        lemma_kept(f, s, m);
        lemma_kept(f, s, n);
    }
}

/// An accumulator keeps its function, and whether only different values count.
proof fn lemma_kept(f: AggregateFunction, s: Seq<ValueView>, n: nat)
    ensures
        accumulated_all(fresh(f, false), s, n).function == f,
        !accumulated_all(fresh(f, false), s, n).distinct,
    decreases n,
{
    if 0 < n <= s.len() {
        lemma_kept(f, s, (n - 1) as nat);
    }
}

/// SUM is null where there are no values but nulls, and else the sum of the numbers
/// from the left. AVG divides that by the number of values that are not null.
pub proof fn lemma_sum(average: bool, s: Seq<ValueView>, n: nat)
    requires
        n <= s.len() <= i64::MAX,
    ensures
        ({
            let f = if average {
                AggregateFunction::Avg
            } else {
                AggregateFunction::Sum
            };
            let p = present(s, n);
            let total = sum_of(p, p.len());
            aggregate_value(accumulated_all(fresh(f, false), s, n)) == if p.len() == 0 {
                ValueView::Null
            } else if average {
                ValueView::Double(
                    crate::double::quotient(total, Double::nearest_to(p.len() as int)),
                )
            } else {
                ValueView::Double(total)
            }
        }),
{
    let f = if average {
        AggregateFunction::Avg
    } else {
        AggregateFunction::Sum
    };
    lemma_present(s, n);
    lemma_sum_kept(f, s, n);
    lemma_kept(f, s, n);
}

#[verifier::rlimit(40)]
proof fn lemma_sum_kept(f: AggregateFunction, s: Seq<ValueView>, n: nat)
    requires
        n <= s.len() <= i64::MAX,
        f == AggregateFunction::Sum || f == AggregateFunction::Avg,
    ensures
        accumulated_all(fresh(f, false), s, n).count == present(s, n).len(),
        accumulated_all(fresh(f, false), s, n).sum == sum_of(present(s, n), present(s, n).len()),
    decreases n,
{
    if n > 0 {
        let m = (n - 1) as nat;
        lemma_sum_kept(f, s, m);
        lemma_kept(f, s, m);
        lemma_present(s, n);
        let before = present(s, m);
        if s[n - 1] != ValueView::Null {
            lemma_sum_prefix(before, before.push(s[n - 1]), before.len());
        }
    }
}

proof fn lemma_sum_prefix(a: Seq<ValueView>, b: Seq<ValueView>, n: nat)
    requires
        n <= a.len() <= b.len(),
        forall|i: int| 0 <= i < a.len() ==> a[i] == b[i],
    ensures
        sum_of(a, n) == sum_of(b, n),
    decreases n,
{
    if n > 0 {
        lemma_sum_prefix(a, b, (n - 1) as nat);
    }
}

/// COLLECT_LIST gives the values that are not null, in their order.
pub proof fn lemma_collect_list(s: Seq<ValueView>, n: nat)
    requires
        n <= s.len(),
    ensures
        aggregate_value(accumulated_all(fresh(AggregateFunction::CollectList, false), s, n))
            == ValueView::Array(present(s, n)),
    decreases n,
{
    let f = AggregateFunction::CollectList;
    lemma_kept(f, s, n);
    if n > 0 {
        lemma_collect_list(s, (n - 1) as nat);
        lemma_kept(f, s, (n - 1) as nat);
    }
}

/// MIN is null where there are no values but nulls, and else one of the values that
/// no other is less than.
pub proof fn lemma_min(s: Seq<ValueView>, n: nat)
    requires
        n <= s.len(),
        forall|i: int| 0 <= i < s.len() ==> in_line(#[trigger] s[i]),
    ensures
        ({
            let p = present(s, n);
            let v = aggregate_value(accumulated_all(fresh(AggregateFunction::Min, false), s, n));
            if p.len() == 0 {
                v == ValueView::Null
            } else {
                p.contains(v) && forall|i: int|
                    0 <= i < p.len() ==> value_order(#[trigger] p[i], v) != Order::Less
            }
        }),
        accumulated_all(fresh(AggregateFunction::Min, false), s, n).min is None <==> present(
            s,
            n,
        ).len() == 0,
    decreases n,
{
    let f = AggregateFunction::Min;
    lemma_kept(f, s, n);
    if n > 0 {
        let m = (n - 1) as nat;
        let before = present(s, m);
        let v = s[n - 1];
        lemma_min(s, m);
        lemma_kept(f, s, m);
        lemma_present(s, m);
        lemma_order_flips(v, v);
        if v != ValueView::Null {
            let p = before.push(v);
            assert(p[before.len() as int] == v);
            if before.len() > 0 {
                let old_min = accumulated_all(fresh(f, false), s, m).min->0;
                let k = choose|k: int| 0 <= k < before.len() && before[k] == old_min;
                assert(p[k] == old_min);
                assert(s.contains(before[k]));
                if value_order(v, old_min) == Order::Less {
                    assert forall|i: int| 0 <= i < p.len() implies value_order(
                        #[trigger] p[i],
                        v,
                    ) != Order::Less by {
                        if i < before.len() {
                            assert(s.contains(before[i]));
                            if value_order(p[i], v) == Order::Less {
                                lemma_less_transitive(p[i], v, old_min);
                            }
                        }
                    }
                } else {
                    assert forall|i: int| 0 <= i < p.len() implies value_order(
                        #[trigger] p[i],
                        old_min,
                    ) != Order::Less by {
                        if i < before.len() {
                            assert(p[i] == before[i]);
                        }
                    }
                }
            }
        }
    }
}

/// MAX is null where there are no values but nulls, and else one of the values that
/// no other is greater than.
pub proof fn lemma_max(s: Seq<ValueView>, n: nat)
    requires
        n <= s.len(),
        forall|i: int| 0 <= i < s.len() ==> in_line(#[trigger] s[i]),
    ensures
        ({
            let p = present(s, n);
            let v = aggregate_value(accumulated_all(fresh(AggregateFunction::Max, false), s, n));
            if p.len() == 0 {
                v == ValueView::Null
            } else {
                p.contains(v) && forall|i: int|
                    0 <= i < p.len() ==> value_order(#[trigger] p[i], v) != Order::Greater
            }
        }),
        accumulated_all(fresh(AggregateFunction::Max, false), s, n).max is None <==> present(
            s,
            n,
        ).len() == 0,
    decreases n,
{
    let f = AggregateFunction::Max;
    lemma_kept(f, s, n);
    if n > 0 {
        let m = (n - 1) as nat;
        let before = present(s, m);
        let v = s[n - 1];
        lemma_max(s, m);
        lemma_kept(f, s, m);
        lemma_present(s, m);
        lemma_order_flips(v, v);
        if v != ValueView::Null {
            let p = before.push(v);
            assert(p[before.len() as int] == v);
            if before.len() > 0 {
                let old_max = accumulated_all(fresh(f, false), s, m).max->0;
                let k = choose|k: int| 0 <= k < before.len() && before[k] == old_max;
                assert(p[k] == old_max);
                assert(s.contains(before[k]));
                lemma_order_flips(v, old_max);
                if value_order(v, old_max) == Order::Greater {
                    assert forall|i: int| 0 <= i < p.len() implies value_order(
                        #[trigger] p[i],
                        v,
                    ) != Order::Greater by {
                        if i < before.len() {
                            assert(s.contains(before[i]));
                            lemma_order_flips(p[i], v);
                            lemma_order_flips(p[i], old_max);
                            if value_order(p[i], v) == Order::Greater {
                                lemma_less_transitive(old_max, v, p[i]);
                            }
                        }
                    }
                } else {
                    assert forall|i: int| 0 <= i < p.len() implies value_order(
                        #[trigger] p[i],
                        old_max,
                    ) != Order::Greater by {
                        if i < before.len() {
                            assert(p[i] == before[i]);
                        }
                    }
                }
            }
        }
    }
}

/// Values among lined up ones are lined up.
proof fn lemma_transitive_among(s: Seq<ValueView>, a: ValueView, b: ValueView, c: ValueView)
    requires
        lined_up(s),
        s.contains(a),
        s.contains(b),
        s.contains(c),
        not_above(a, b),
        not_above(b, c),
    ensures
        not_above(a, c),
{
    reveal(lined_up);
    let i = choose|i: int| 0 <= i < s.len() && s[i] == a;
    let j = choose|j: int| 0 <= j < s.len() && s[j] == b;
    let k = choose|k: int| 0 <= k < s.len() && s[k] == c;
    assert(not_above(s[i], s[j]) && not_above(s[j], s[k]));
}

/// Whether all of some values are among others.
pub open spec fn among(x: Seq<ValueView>, s: Seq<ValueView>) -> bool {
    forall|i: int| 0 <= i < x.len() ==> s.contains(#[trigger] x[i])
}

/// Whether no value is greater than a later one.
pub open spec fn ascending(s: Seq<ValueView>) -> bool {
    forall|i: int, j: int| 0 <= i < j < s.len() ==> not_above(#[trigger] s[i], #[trigger] s[j])
}

/// Whether no value is less than a later one.
pub open spec fn descending(s: Seq<ValueView>) -> bool {
    forall|i: int, j: int| 0 <= i < j < s.len() ==> not_above(#[trigger] s[j], #[trigger] s[i])
}

proof fn lemma_sort_place(s: Seq<ValueView>, v: ValueView, i: nat)
    requires
        i <= s.len(),
    ensures
        i <= sort_place(s, v, i) <= s.len(),
        forall|j: int| i <= j < sort_place(s, v, i) ==> not_above(#[trigger] s[j], v),
        sort_place(s, v, i) < s.len() ==> less(v, s[sort_place(s, v, i) as int]),
    decreases s.len() - i,
{
    if i < s.len() {
        lemma_relations(s[i as int], v);
        if value_order(s[i as int], v) != Order::Greater {
            lemma_sort_place(s, v, i + 1);
        }
    }
}

/// Sorting puts the same values in ascending order.
pub proof fn lemma_sorted(s: Seq<ValueView>, n: nat)
    requires
        n <= s.len(),
        lined_up(s),
    ensures
        ascending(sorted(s, n)),
        among(sorted(s, n), s),
        sorted(s, n).to_multiset() == s.take(n as int).to_multiset(),
        sorted(s, n).len() == n,
    decreases n,
{
    broadcast use group_seq_properties;

    if n == 0 {
        assert(s.take(0) =~= Seq::<ValueView>::empty());
    } else {
        let m = (n - 1) as nat;
        let before = sorted(s, m);
        let v = s[n - 1];
        lemma_sorted(s, m);
        lemma_sort_place(before, v, 0);
        let p = sort_place(before, v, 0) as int;
        let after = before.insert(p, v);
        assert(s.contains(v));
        assert forall|i: int| 0 <= i < after.len() implies s.contains(#[trigger] after[i]) by {
            if i < p {
                assert(after[i] == before[i]);
            } else if i > p {
                assert(after[i] == before[i - 1]);
            }
        }
        assert forall|i: int, j: int| 0 <= i < j < after.len() implies not_above(
            #[trigger] after[i],
            #[trigger] after[j],
        ) by {
            if j < p {
                assert(after[i] == before[i] && after[j] == before[j]);
            } else if j == p {
                assert(after[i] == before[i]);
            } else if i == p {
                assert(after[j] == before[j - 1]);
                lemma_relations(before[p], v);
                if p < j - 1 {
                    assert(not_above(before[p], before[j - 1]));
                    assert(s.contains(before[p]) && s.contains(before[j - 1]));
                    lemma_transitive_among(s, v, before[p], before[j - 1]);
                }
            } else if i < p {
                assert(after[i] == before[i] && after[j] == before[j - 1]);
            } else {
                assert(after[i] == before[i - 1] && after[j] == before[j - 1]);
            }
        }
        assert(after.to_multiset() =~= before.to_multiset().insert(v)) by {
            lemma_insert_multiset(before, p, v);
        }
        assert(s.take(n as int) =~= s.take(m as int).push(v));
    }
}

proof fn lemma_insert_multiset(s: Seq<ValueView>, p: int, v: ValueView)
    requires
        0 <= p <= s.len(),
    ensures
        s.insert(p, v).to_multiset() == s.to_multiset().insert(v),
{
    broadcast use vstd::seq_lib::group_to_multiset_ensures;

    let a = s.take(p);
    let b = s.skip(p);
    assert(s =~= a + b);
    assert(s.insert(p, v) =~= a.push(v) + b);
    vstd::seq_lib::lemma_multiset_commutative(a, b);
    vstd::seq_lib::lemma_multiset_commutative(a.push(v), b);
    assert(s.insert(p, v).to_multiset() =~= s.to_multiset().insert(v));
}

/// What TOPK leaves out of some values.
pub open spec fn left_out(s: Seq<ValueView>, k: nat) -> Seq<ValueView> {
    let all = sorted(s, s.len()).reverse();
    if k < all.len() {
        all.skip(k as int)
    } else {
        Seq::empty()
    }
}

/// The `k` greatest values come in descending order. Together with what is left out
/// they are the values, and nothing that is left out is greater than one of them.
pub proof fn lemma_greatest(s: Seq<ValueView>, k: nat)
    requires
        lined_up(s),
    ensures
        greatest(s, k).len() == if k < s.len() {
            k
        } else {
            s.len()
        },
        descending(greatest(s, k)),
        (greatest(s, k) + left_out(s, k)).to_multiset() == s.to_multiset(),
        forall|i: int, j: int|
            0 <= i < left_out(s, k).len() && 0 <= j < greatest(s, k).len() ==> not_above(
                #[trigger] left_out(s, k)[i],
                #[trigger] greatest(s, k)[j],
            ),
{
    broadcast use vstd::seq_lib::group_to_multiset_ensures;

    let n = s.len();
    let o = sorted(s, n);
    let all = o.reverse();
    lemma_sorted(s, n);
    assert(s.take(n as int) =~= s);
    assert(greatest(s, k) + left_out(s, k) =~= all);
    lemma_reverse_multiset(o);
    let g = greatest(s, k);
    let r = left_out(s, k);
    assert forall|i: int, j: int| 0 <= i < j < g.len() implies not_above(
        #[trigger] g[j],
        #[trigger] g[i],
    ) by {
        assert(g[i] == o[n - 1 - i] && g[j] == o[n - 1 - j]);
    }
    assert forall|i: int, j: int| 0 <= i < r.len() && 0 <= j < g.len() implies not_above(
        #[trigger] r[i],
        #[trigger] g[j],
    ) by {
        assert(r[i] == all[k + i]);
        assert(r[i] == o[n - 1 - (k + i)] && g[j] == o[n - 1 - j]);
    }
}

proof fn lemma_reverse_multiset(s: Seq<ValueView>)
    ensures
        s.reverse().to_multiset() == s.to_multiset(),
    decreases s.len(),
{
    broadcast use vstd::seq_lib::group_to_multiset_ensures;

    if s.len() == 0 {
        assert(s.reverse() =~= s);
    } else {
        let front = s.drop_last();
        lemma_reverse_multiset(front);
        assert(s.reverse() =~= seq![s.last()] + front.reverse());
        assert(s =~= front + seq![s.last()]);
        vstd::seq_lib::lemma_multiset_commutative(seq![s.last()], front.reverse());
        vstd::seq_lib::lemma_multiset_commutative(front, seq![s.last()]);
        assert(s.reverse().to_multiset() =~= s.to_multiset());
    }
}

proof fn lemma_lined_up_among(x: Seq<ValueView>, s: Seq<ValueView>)
    requires
        among(x, s),
        lined_up(s),
    ensures
        lined_up(x),
{
    reveal(lined_up);
    assert forall|i: int, j: int, k: int|
        0 <= i < x.len() && 0 <= j < x.len() && 0 <= k < x.len() && not_above(
            #[trigger] x[i],
            #[trigger] x[j],
        ) && not_above(x[j], #[trigger] x[k]) implies not_above(x[i], x[k]) by {
        lemma_transitive_among(s, x[i], x[j], x[k]);
    }
}

proof fn lemma_same_contents(x: Seq<ValueView>, y: Seq<ValueView>)
    requires
        x.to_multiset() == y.to_multiset(),
    ensures
        forall|v: ValueView| #[trigger] x.contains(v) <==> y.contains(v),
        x.len() == y.len(),
{
    broadcast use vstd::seq_lib::group_to_multiset_ensures;

    assert forall|v: ValueView| #[trigger] x.contains(v) <==> y.contains(v) by {
        assert(x.contains(v) <==> x.to_multiset().count(v) > 0);
        assert(y.contains(v) <==> y.to_multiset().count(v) > 0);
    }
    assert(x.to_multiset().len() == x.len());
    assert(y.to_multiset().len() == y.len());
}

/// What TOPK has left out of the first `n` values.
pub open spec fn dropped(s: Seq<ValueView>, k: usize, n: nat) -> Seq<ValueView>
    decreases n,
{
    if n == 0 || n > s.len() {
        Seq::empty()
    } else {
        let m = (n - 1) as nat;
        if s[n - 1] == ValueView::Null {
            dropped(s, k, m)
        } else {
            let list = accumulated_all(fresh(AggregateFunction::TopK(k), false), s, m).list;
            dropped(s, k, m) + left_out(list.push(s[n - 1]), k as nat)
        }
    }
}

/// TOPK gives at most `k` of the values that are not null, in descending order.
/// Together with what is left out they are these values, and nothing that is left
/// out is greater than one of them.
pub proof fn lemma_topk(s: Seq<ValueView>, k: usize, n: nat)
    requires
        n <= s.len(),
        lined_up(s),
    ensures
        ({
            let list = accumulated_all(fresh(AggregateFunction::TopK(k), false), s, n).list;
            let rest = dropped(s, k, n);
            let p = present(s, n);
            &&& aggregate_value(
                accumulated_all(fresh(AggregateFunction::TopK(k), false), s, n),
            ) == ValueView::Array(list)
            &&& list.len() == if k < p.len() {
                k as nat
            } else {
                p.len()
            }
            &&& descending(list)
            &&& (list + rest).to_multiset() == p.to_multiset()
            &&& forall|i: int, j: int|
                0 <= i < rest.len() && 0 <= j < list.len() ==> not_above(
                    #[trigger] rest[i],
                    #[trigger] list[j],
                )
        }),
    decreases n,
{
    broadcast use vstd::seq_lib::group_to_multiset_ensures;

    let f = AggregateFunction::TopK(k);
    lemma_kept(f, s, n);
    if n == 0 {
        assert(Seq::<ValueView>::empty() + Seq::<ValueView>::empty() =~= Seq::<
            ValueView,
        >::empty());
    } else {
        let m = (n - 1) as nat;
        lemma_topk(s, k, m);
        lemma_kept(f, s, m);
        let v = s[n - 1];
        let list = accumulated_all(fresh(f, false), s, m).list;
        let rest = dropped(s, k, m);
        let p = present(s, m);
        if v != ValueView::Null {
            let x = list.push(v);
            lemma_present(s, m);
            lemma_same_contents(list + rest, p);
            assert forall|i: int| 0 <= i < list.len() implies s.contains(#[trigger] list[i]) by {
                assert((list + rest)[i] == list[i]);
                assert((list + rest).contains(list[i]));
            }
            assert forall|i: int| 0 <= i < rest.len() implies s.contains(#[trigger] rest[i]) by {
                assert((list + rest)[list.len() + i] == rest[i]);
                assert((list + rest).contains(rest[i]));
            }
            assert(s.contains(v));
            assert(among(x, s));
            lemma_lined_up_among(x, s);
            lemma_greatest(x, k as nat);
            let g = greatest(x, k as nat);
            let r = left_out(x, k as nat);
            lemma_same_contents(g + r, x);
            assert(list.len() + rest.len() == p.len());
            assert((g + (rest + r)).to_multiset() =~= p.push(v).to_multiset()) by {
                lemma_regroup(g, rest, r, list, v, p);
            }
            assert forall|i: int, j: int|
                0 <= i < (rest + r).len() && 0 <= j < g.len() implies not_above(
                #[trigger] (rest + r)[i],
                #[trigger] g[j],
            ) by {
                if i < rest.len() {
                    lemma_topk_step(s, list, rest, v, k as nat, i, j);
                } else {
                    assert((rest + r)[i] == r[i - rest.len()]);
                }
            }
        }
    }
}

proof fn lemma_regroup(
    g: Seq<ValueView>,
    rest: Seq<ValueView>,
    r: Seq<ValueView>,
    list: Seq<ValueView>,
    v: ValueView,
    p: Seq<ValueView>,
)
    requires
        (g + r).to_multiset() == list.push(v).to_multiset(),
        (list + rest).to_multiset() == p.to_multiset(),
    ensures
        (g + (rest + r)).to_multiset() == p.push(v).to_multiset(),
{
    broadcast use vstd::seq_lib::group_to_multiset_ensures;

    vstd::seq_lib::lemma_multiset_commutative(g, rest + r);
    vstd::seq_lib::lemma_multiset_commutative(rest, r);
    vstd::seq_lib::lemma_multiset_commutative(g, r);
    vstd::seq_lib::lemma_multiset_commutative(list, rest);
    assert(p.push(v).to_multiset() =~= p.to_multiset().insert(v));
    assert(list.push(v).to_multiset() =~= list.to_multiset().insert(v));
    let a = (g + (rest + r)).to_multiset();
    let b = p.push(v).to_multiset();
    assert forall|x: ValueView| #[trigger] a.count(x) == b.count(x) by {
        assert((g + r).to_multiset().count(x) == g.to_multiset().count(x)
            + r.to_multiset().count(x));
        assert(list.push(v).to_multiset().count(x) == (g + r).to_multiset().count(x));
        assert((list + rest).to_multiset().count(x) == list.to_multiset().count(x)
            + rest.to_multiset().count(x));
        assert((rest + r).to_multiset().count(x) == rest.to_multiset().count(x)
            + r.to_multiset().count(x));
    }
    assert(a =~= b);
}

/// What was left out before is not greater than what is kept now.
proof fn lemma_topk_step(
    s: Seq<ValueView>,
    list: Seq<ValueView>,
    rest: Seq<ValueView>,
    v: ValueView,
    k: nat,
    i: int,
    j: int,
)
    requires
        lined_up(s),
        among(list, s),
        among(rest, s),
        s.contains(v),
        0 <= i < rest.len(),
        0 <= j < greatest(list.push(v), k).len(),
        rest.len() > 0 ==> list.len() == k,
        forall|a: int, b: int|
            0 <= a < rest.len() && 0 <= b < list.len() ==> not_above(
                #[trigger] rest[a],
                #[trigger] list[b],
            ),
    ensures
        not_above(rest[i], greatest(list.push(v), k)[j]),
{
    broadcast use vstd::seq_lib::group_to_multiset_ensures;

    let x = list.push(v);
    assert(among(x, s));
    lemma_lined_up_among(x, s);
    lemma_greatest(x, k);
    let g = greatest(x, k);
    let r = left_out(x, k);
    lemma_same_contents(g + r, x);
    assert((g + r)[j] == g[j]);
    assert((g + r).contains(g[j]));
    let b = choose|b: int| 0 <= b < x.len() && x[b] == g[j];
    if b < list.len() {
        assert(not_above(rest[i], list[b]));
    } else {
        assert(g[j] == v);
        assert(r.len() == 1);
        assert((g + r)[g.len() as int] == r[0]);
        assert((g + r).contains(r[0]));
        assert(not_above(r[0], g[j]));
        let c = choose|c: int| 0 <= c < x.len() && x[c] == r[0];
        if c < list.len() {
            assert(not_above(rest[i], list[c]));
            assert(s.contains(rest[i]) && s.contains(list[c]));
            lemma_transitive_among(s, rest[i], list[c], v);
        } else {
            assert(r[0] == v);
            let both = g + r;
            assert(both[j] == v && both[g.len() as int] == v);
            lemma_twice(both, j, g.len() as int);
            assert(both.to_multiset().count(v) >= 2);
            assert(x.to_multiset() =~= list.to_multiset().insert(v));
            assert(list.to_multiset().count(v) >= 1);
            assert(list.contains(v));
            let d = choose|d: int| 0 <= d < list.len() && list[d] == v;
            assert(not_above(rest[i], list[d]));
        }
    }
}

/// A value that stands in two places counts twice.
proof fn lemma_twice(s: Seq<ValueView>, i: int, j: int)
    requires
        0 <= i < j < s.len(),
        s[i] == s[j],
    ensures
        s.to_multiset().count(s[i]) >= 2,
{
    broadcast use vstd::seq_lib::group_to_multiset_ensures;

    let a = s.take(j);
    let b = s.skip(j);
    assert(s =~= a + b);
    vstd::seq_lib::lemma_multiset_commutative(a, b);
    assert(a[i] == s[i]);
    assert(b[0] == s[j]);
    assert(a.contains(s[i]) && b.contains(s[i]));
}

/// Whether each value is less than all later ones.
pub open spec fn rising(s: Seq<ValueView>) -> bool {
    forall|i: int, j: int|
        0 <= i < j < s.len() ==> less(#[trigger] s[i], #[trigger] s[j])
}

/// Whether a value is level with one of others.
pub open spec fn covered(v: ValueView, s: Seq<ValueView>) -> bool {
    exists|i: int| 0 <= i < s.len() && level(v, #[trigger] s[i])
}

proof fn lemma_set_place(s: Seq<ValueView>, v: ValueView, i: nat)
    requires
        i <= s.len(),
    ensures
        i <= set_place(s, v, i) <= s.len(),
        forall|j: int| i <= j < set_place(s, v, i) ==> less(#[trigger] s[j], v),
        set_place(s, v, i) < s.len() ==> not_above(v, s[set_place(s, v, i) as int]),
    decreases s.len() - i,
{
    if i < s.len() {
        lemma_relations(v, s[i as int]);
        if value_order(v, s[i as int]) == Order::Greater {
            lemma_set_place(s, v, i + 1);
        }
    }
}

/// Less and not above together are less, among lined up values.
proof fn lemma_less_among(s: Seq<ValueView>, a: ValueView, b: ValueView, c: ValueView)
    requires
        lined_up(s),
        s.contains(a),
        s.contains(b),
        s.contains(c),
        less(a, b),
        not_above(b, c),
    ensures
        less(a, c),
{
    lemma_relations(a, b);
    lemma_relations(a, c);
    if !less(a, c) {
        lemma_transitive_among(s, b, c, a);
    }
}

/// Where a value would stand in an ordered set: what is before it is less, and what is
/// behind it is greater, unless the set holds it.
proof fn lemma_set_sides(s: Seq<ValueView>, x: Seq<ValueView>, v: ValueView)
    requires
        lined_up(s),
        among(x, s),
        s.contains(v),
        rising(x),
    ensures
        ({
            let p = set_place(x, v, 0) as int;
            &&& 0 <= p <= x.len()
            &&& forall|i: int| 0 <= i < p ==> less(#[trigger] x[i], v)
            &&& set_holds(x, v) ==> p < x.len() && level(v, x[p])
            &&& !set_holds(x, v) ==> forall|i: int| p <= i < x.len() ==> less(v, #[trigger] x[i])
        }),
{
    lemma_set_place(x, v, 0);
    let p = set_place(x, v, 0) as int;
    if p < x.len() {
        lemma_relations(v, x[p]);
    }
    if !set_holds(x, v) {
        assert forall|i: int| p <= i < x.len() implies less(v, #[trigger] x[i]) by {
            if p < i {
                assert(less(x[p], x[i]));
                lemma_relations(x[p], x[i]);
                assert(s.contains(x[p]) && s.contains(x[i]));
                lemma_less_among(s, v, x[p], x[i]);
            }
        }
    }
}

/// An ordered set holds a value exactly where the value is level with one in it.
pub proof fn lemma_set_holds(s: Seq<ValueView>, x: Seq<ValueView>, v: ValueView)
    requires
        lined_up(s),
        among(x, s),
        s.contains(v),
        rising(x),
    ensures
        set_holds(x, v) <==> covered(v, x),
{
    lemma_set_sides(s, x, v);
    let p = set_place(x, v, 0) as int;
    if covered(v, x) && !set_holds(x, v) {
        let i = choose|i: int| 0 <= i < x.len() && level(v, #[trigger] x[i]);
        lemma_relations(v, x[i]);
        if i < p {
            assert(less(x[i], v));
        } else {
            assert(less(v, x[i]));
        }
    }
}

/// With a value put into its place an ordered set is still in order.
proof fn lemma_set_insert(x: Seq<ValueView>, v: ValueView, p: int)
    requires
        0 <= p <= x.len(),
        rising(x),
        forall|i: int| 0 <= i < p ==> less(#[trigger] x[i], v),
        forall|i: int| p <= i < x.len() ==> less(v, #[trigger] x[i]),
    ensures
        rising(x.insert(p, v)),
        forall|i: int| 0 <= i < x.len() ==> x.insert(p, v).contains(#[trigger] x[i]),
        forall|i: int|
            0 <= i < x.len() + 1 ==> x.contains(#[trigger] x.insert(p, v)[i]) || x.insert(
                p,
                v,
            )[i] == v,
{
    let after = x.insert(p, v);
    assert forall|i: int, j: int| 0 <= i < j < after.len() implies less(
        #[trigger] after[i],
        #[trigger] after[j],
    ) by {
        if j < p {
            assert(after[i] == x[i] && after[j] == x[j]);
        } else if j == p {
            assert(after[i] == x[i]);
        } else if i == p {
            assert(after[j] == x[j - 1]);
        } else if i < p {
            assert(after[i] == x[i] && after[j] == x[j - 1]);
        } else {
            assert(after[i] == x[i - 1] && after[j] == x[j - 1]);
        }
    }
    assert forall|i: int| 0 <= i < x.len() implies after.contains(#[trigger] x[i]) by {
        if i < p {
            assert(after[i] == x[i]);
        } else {
            assert(after[i + 1] == x[i]);
        }
    }
    assert forall|i: int| 0 <= i < after.len() implies x.contains(#[trigger] after[i]) || after[i]
        == v by {
        if i < p {
            assert(x[i] == after[i]);
        } else if i > p {
            assert(x[i - 1] == after[i]);
        }
    }
}

/// With a value added an ordered set is still in order, holds what it held, and covers
/// the value.
pub proof fn lemma_set_add(s: Seq<ValueView>, x: Seq<ValueView>, v: ValueView)
    requires
        lined_up(s),
        among(x, s),
        s.contains(v),
        rising(x),
    ensures
        rising(set_add(x, v)),
        covered(v, set_add(x, v)),
        forall|i: int| 0 <= i < x.len() ==> set_add(x, v).contains(#[trigger] x[i]),
        forall|i: int|
            0 <= i < set_add(x, v).len() ==> x.contains(#[trigger] set_add(x, v)[i]) || set_add(
                x,
                v,
            )[i] == v,
        set_add(x, v).len() == if set_holds(x, v) {
            x.len()
        } else {
            x.len() + 1
        },
{
    lemma_set_sides(s, x, v);
    lemma_relations(v, v);
    let p = set_place(x, v, 0) as int;
    let after = set_add(x, v);
    if set_holds(x, v) {
        assert(level(v, after[p]));
        assert forall|i: int| 0 <= i < x.len() implies after.contains(#[trigger] x[i]) by {
            assert(after[i] == x[i]);
        }
    } else {
        lemma_set_insert(x, v, p);
        assert(after == x.insert(p, v));
        assert(after[p] == v);
        assert(level(v, after[p]));
    }
}

/// COLLECT_SET gives values that are not null in rising order, and each value that is
/// not null is level with one of them.
pub proof fn lemma_collect_set(s: Seq<ValueView>, n: nat)
    requires
        n <= s.len(),
        lined_up(s),
    ensures
        ({
            let a = accumulated_all(fresh(AggregateFunction::CollectSet, false), s, n);
            let p = present(s, n);
            &&& aggregate_value(a) == ValueView::Array(a.set)
            &&& rising(a.set)
            &&& among(a.set, p)
            &&& forall|i: int| 0 <= i < p.len() ==> covered(#[trigger] p[i], a.set)
        }),
    decreases n,
{
    let f = AggregateFunction::CollectSet;
    lemma_kept(f, s, n);
    if n > 0 {
        let m = (n - 1) as nat;
        lemma_collect_set(s, m);
        lemma_kept(f, s, m);
        let v = s[n - 1];
        let set = accumulated_all(fresh(f, false), s, m).set;
        if v != ValueView::Null {
            lemma_set_step(s, m, set, v);
        }
    }
}

/// One more value in a set of what is present.
proof fn lemma_set_step(s: Seq<ValueView>, m: nat, set: Seq<ValueView>, v: ValueView)
    requires
        m < s.len(),
        lined_up(s),
        v == s[m as int],
        v != ValueView::Null,
        rising(set),
        among(set, present(s, m)),
        forall|i: int|
            0 <= i < present(s, m).len() ==> covered(#[trigger] present(s, m)[i], set),
    ensures
        ({
            let p = present(s, m + 1);
            let after = set_add(set, v);
            &&& rising(after)
            &&& among(after, p)
            &&& forall|i: int| 0 <= i < p.len() ==> covered(#[trigger] p[i], after)
            &&& after.len() == if set_holds(set, v) {
                set.len()
            } else {
                set.len() + 1
            }
        }),
{
    let before = present(s, m);
    let p = present(s, m + 1);
    let after = set_add(set, v);
    assert(p == before.push(v));
    lemma_present(s, m);
    assert(s.contains(v));
    assert forall|i: int| 0 <= i < set.len() implies s.contains(#[trigger] set[i]) by {
        let k = choose|k: int| 0 <= k < before.len() && before[k] == set[i];
        assert(s.contains(before[k]));
    }
    lemma_set_add(s, set, v);
    assert(p[before.len() as int] == v);
    assert forall|i: int| 0 <= i < after.len() implies p.contains(#[trigger] after[i]) by {
        if set.contains(after[i]) {
            let j = choose|j: int| 0 <= j < set.len() && set[j] == after[i];
            assert(before.contains(set[j]));
            let k = choose|k: int| 0 <= k < before.len() && before[k] == set[j];
            assert(p[k] == after[i]);
        }
    }
    assert forall|i: int| 0 <= i < p.len() implies covered(#[trigger] p[i], after) by {
        if i < before.len() {
            assert(covered(before[i], set));
            let j = choose|j: int| 0 <= j < set.len() && level(before[i], #[trigger] set[j]);
            assert(after.contains(set[j]));
            let k = choose|k: int| 0 <= k < after.len() && after[k] == set[j];
            assert(level(p[i], after[k]));
        }
    }
}

/// COUNT DISTINCT is the number of values that are not null and of which no two are
/// level: as many as there are in a rising list that covers them all.
pub proof fn lemma_count_distinct(s: Seq<ValueView>, n: nat)
    requires
        n <= s.len() <= i64::MAX,
        lined_up(s),
    ensures
        ({
            let a = accumulated_all(fresh(AggregateFunction::Count, true), s, n);
            let p = present(s, n);
            &&& aggregate_value(a) == ValueView::Integer(a.seen.len() as i64)
            &&& a.seen.len() <= n
            &&& rising(a.seen)
            &&& among(a.seen, p)
            &&& forall|i: int| 0 <= i < p.len() ==> covered(#[trigger] p[i], a.seen)
        }),
    decreases n,
{
    let f = AggregateFunction::Count;
    lemma_kept_distinct(s, n);
    if n > 0 {
        let m = (n - 1) as nat;
        lemma_count_distinct(s, m);
        lemma_kept_distinct(s, m);
        let v = s[n - 1];
        let a = accumulated_all(fresh(f, true), s, m);
        if v != ValueView::Null {
            lemma_set_step(s, m, a.seen, v);
        }
    }
}

proof fn lemma_kept_distinct(s: Seq<ValueView>, n: nat)
    ensures
        accumulated_all(fresh(AggregateFunction::Count, true), s, n).function
            == AggregateFunction::Count,
        accumulated_all(fresh(AggregateFunction::Count, true), s, n).distinct,
    decreases n,
{
    if 0 < n <= s.len() {
        lemma_kept_distinct(s, (n - 1) as nat);
    }
}

/// Whether all values that are not null are integers, or all are texts.
pub open spec fn of_one_type(s: Seq<ValueView>) -> bool {
    (forall|i: int| 0 <= i < s.len() ==> #[trigger] s[i] is Null || s[i] is Integer) || (forall|
        i: int,
    | 0 <= i < s.len() ==> #[trigger] s[i] is Null || s[i] is String)
}

/// Values of one type that are level are the same.
proof fn lemma_level_is_same(a: ValueView, b: ValueView)
    requires
        level(a, b),
        (a is Integer && b is Integer) || (a is String && b is String),
    ensures
        a == b,
{
    reveal(level);
    if let (ValueView::String(x), ValueView::String(y)) = (a, b) {
        lemma_precedes_total(x, y);
    }
}

/// The results of the aggregate functions over values of one type, of which `p` are
/// those that are not null. COUNT is how many they are; SUM and AVG are null where there
/// are none, and only there; MIN and MAX are null there, and else one of them that is at
/// most, and at least, all of them; COLLECT_LIST is all of them in their order;
/// COLLECT_SET is the different ones of them, each less than the next.
pub proof fn lemma_results(s: Seq<ValueView>)
    requires
        s.len() <= i64::MAX,
        of_one_type(s),
    ensures
        ({
            let n = s.len();
            let p = present(s, n);
            let result = |f: AggregateFunction|
                aggregate_value(accumulated_all(fresh(f, false), s, n));
            &&& result(AggregateFunction::Count) == ValueView::Integer(p.len() as i64)
            &&& result(AggregateFunction::Sum) == ValueView::Null <==> p.len() == 0
            &&& result(AggregateFunction::Avg) == ValueView::Null <==> p.len() == 0
            &&& result(AggregateFunction::CollectList) == ValueView::Array(p)
            &&& result(AggregateFunction::Min) == ValueView::Null <==> p.len() == 0
            &&& result(AggregateFunction::Max) == ValueView::Null <==> p.len() == 0
            &&& p.len() > 0 ==> p.contains(result(AggregateFunction::Min)) && p.contains(
                result(AggregateFunction::Max),
            )
            &&& forall|i: int|
                0 <= i < p.len() ==> value_order(
                    #[trigger] p[i],
                    result(AggregateFunction::Min),
                ) != Order::Less && value_order(p[i], result(AggregateFunction::Max))
                    != Order::Greater
            &&& result(AggregateFunction::CollectSet) matches ValueView::Array(x) && rising(x) && (
            forall|v: ValueView| #[trigger] x.contains(v) <==> p.contains(v))
        }),
{
    let n = s.len();
    let p = present(s, n);
    assert forall|i: int| 0 <= i < s.len() implies in_line(#[trigger] s[i]) by {}
    lemma_lined_up(s);
    lemma_present(s, n);
    lemma_count(s, n);
    lemma_sum(false, s, n);
    lemma_sum(true, s, n);
    lemma_collect_list(s, n);
    lemma_min(s, n);
    lemma_max(s, n);
    lemma_collect_set(s, n);
    lemma_not_null(s, n);
    let x = accumulated_all(fresh(AggregateFunction::CollectSet, false), s, n).set;
    assert forall|v: ValueView| #[trigger] x.contains(v) <==> p.contains(v) by {
        if x.contains(v) {
            let i = choose|i: int| 0 <= i < x.len() && x[i] == v;
            assert(p.contains(x[i]));
        }
        if p.contains(v) {
            let i = choose|i: int| 0 <= i < p.len() && p[i] == v;
            assert(covered(p[i], x));
            let k = choose|k: int| 0 <= k < x.len() && level(p[i], #[trigger] x[k]);
            assert(p.contains(x[k]));
            let m = choose|m: int| 0 <= m < p.len() && p[m] == x[k];
            assert(s.contains(p[i]) && s.contains(p[m]));
            lemma_level_is_same(p[i], x[k]);
        }
    }
}

/// None of the values that are present is null.
proof fn lemma_not_null(s: Seq<ValueView>, n: nat)
    ensures
        forall|i: int| 0 <= i < present(s, n).len() ==> #[trigger] present(s, n)[i]
            != ValueView::Null,
    decreases n,
{
    if 0 < n <= s.len() {
        lemma_not_null(s, (n - 1) as nat);
    }
}

} // verus!
