//! Laws of the aggregate functions over different values.
use crate::engine::accumulator::laws::{
    accumulated_all, among, covered, lemma_present, lemma_set_holds, lemma_set_step,
    lemma_transitive_among, present, rising,
};
use crate::engine::accumulator::{
    accumulated, aggregate_value, fresh, set_add, set_holds, AccumulatorView,
};
use crate::plan::AggregateFunction;
use crate::value::laws::{lemma_relations, level, lined_up};
use crate::value::ValueView;
use vstd::prelude::*;

verus! {

/// Whether a value is level with none of the first `n` that are not null, nor null itself.
#[verifier::opaque]
pub open spec fn is_new(s: Seq<ValueView>, v: ValueView, n: nat) -> bool {
    &&& !(v is Null)
    &&& forall|i: int|
        0 <= i < n && !(s[i] is Null) ==> !level(v, #[trigger] s[i])
}

/// The values that are level with no earlier one, in their order, without the nulls.
pub open spec fn firsts(s: Seq<ValueView>, n: nat) -> Seq<ValueView>
    decreases n,
{
    if n == 0 {
        Seq::empty()
    } else if is_new(s, s[n - 1], (n - 1) as nat) {
        firsts(s, (n - 1) as nat).push(s[n - 1])
    } else {
        firsts(s, (n - 1) as nat)
    }
}

proof fn lemma_longer(a: AccumulatorView, s: Seq<ValueView>, v: ValueView, n: nat)
    requires
        n <= s.len(),
    ensures
        accumulated_all(a, s.push(v), n) == accumulated_all(a, s, n),
    decreases n,
{
    if n > 0 {
        lemma_longer(a, s, v, (n - 1) as nat);
    }
}

/// Whether what was seen is what is present among the first values.
#[verifier::opaque]
spec fn well_seen(s: Seq<ValueView>, m: nat, seen: Seq<ValueView>) -> bool {
    &&& rising(seen)
    &&& among(seen, present(s, m))
    &&& forall|i: int|
        0 <= i < present(s, m).len() ==> covered(#[trigger] present(s, m)[i], seen)
}

proof fn lemma_seen_next(s: Seq<ValueView>, m: nat, seen: Seq<ValueView>)
    requires
        m < s.len(),
        lined_up(s),
        well_seen(s, m, seen),
    ensures
        s[m as int] is Null ==> well_seen(s, m + 1, seen),
        !(s[m as int] is Null) ==> well_seen(s, m + 1, set_add(seen, s[m as int])),
{
    reveal(well_seen);
    if !(s[m as int] is Null) {
        lemma_set_step(s, m, seen, s[m as int]);
    }
}

proof fn lemma_taken_alike(a: AccumulatorView, v: ValueView)
    requires
        a.distinct,
        !(v is Null),
        !set_holds(a.seen, v),
    ensures
        accumulated(AccumulatorView { distinct: false, seen: Seq::empty(), ..a }, v) == (
        AccumulatorView { distinct: false, seen: Seq::empty(), ..accumulated(a, v) }),
        accumulated(a, v).seen == set_add(a.seen, v),
        accumulated(a, v).distinct,
        accumulated(a, v).function == a.function,
{
}

/// What was seen holds a value exactly where the value is not new.
#[verifier::spinoff_prover]
#[verifier::rlimit(40)]
proof fn lemma_seen(s: Seq<ValueView>, m: nat, seen: Seq<ValueView>)
    requires
        m < s.len(),
        lined_up(s),
        !(s[m as int] is Null),
        well_seen(s, m, seen),
    ensures
        set_holds(seen, s[m as int]) == !is_new(s, s[m as int], m),
{
    let v = s[m as int];
    let p = present(s, m);
    reveal(is_new);
    reveal(well_seen);
    lemma_present(s, m);
    lemma_among_first(s, m);
    assert(s.contains(v));
    assert forall|i: int| 0 <= i < seen.len() implies s.contains(#[trigger] seen[i]) by {
        assert(p.contains(seen[i]));
        let k = choose|k: int| 0 <= k < p.len() && p[k] == seen[i];
        assert(s.contains(p[k]));
    }
    lemma_set_holds(s, seen, v);
    if covered(v, seen) {
        let i = choose|i: int| 0 <= i < seen.len() && level(v, #[trigger] seen[i]);
        assert(p.contains(seen[i]));
        let k = choose|k: int| 0 <= k < p.len() && p[k] == seen[i];
        let j = choose|j: int| 0 <= j < m && s[j] == p[k] && !(s[j] is Null);
        lemma_relations(v, s[j]);
    }
    if !is_new(s, v, m) {
        let j = choose|j: int|
            0 <= j < m && !(s[j] is Null) && level(v, #[trigger] s[j]);
        assert(p.contains(s[j]));
        let k = choose|k: int| 0 <= k < p.len() && p[k] == s[j];
        assert(covered(p[k], seen));
        let i = choose|i: int| 0 <= i < seen.len() && level(p[k], #[trigger] seen[i]);
        lemma_relations(v, s[j]);
        lemma_relations(s[j], seen[i]);
        lemma_relations(v, seen[i]);
        assert(s.contains(s[j]));
        assert(s.contains(seen[i]));
        lemma_transitive_among(s, v, s[j], seen[i]);
        lemma_transitive_among(s, seen[i], s[j], v);
        assert(level(v, seen[i]));
    }
}

proof fn lemma_among_first(s: Seq<ValueView>, n: nat)
    requires
        n <= s.len(),
    ensures
        forall|i: int|
            0 <= i < present(s, n).len() ==> exists|j: int|
                0 <= j < n && #[trigger] s[j] == #[trigger] present(s, n)[i] && !(s[j] is Null),
    decreases n,
{
    if n > 0 {
        let m = (n - 1) as nat;
        let before = present(s, m);
        lemma_among_first(s, m);
        assert forall|i: int| 0 <= i < present(s, n).len() implies exists|j: int|
            0 <= j < n && #[trigger] s[j] == #[trigger] present(s, n)[i] && !(s[j] is Null) by {
            if i < before.len() {
                assert(present(s, n)[i] == before[i]);
                let j = choose|j: int| 0 <= j < m && s[j] == before[i] && !(s[j] is Null);
                assert(s[j] == present(s, n)[i]);
            } else {
                assert(s[n - 1] == present(s, n)[i]);
            }
        }
    }
}

#[verifier::spinoff_prover]
#[verifier::rlimit(40)]
proof fn lemma_distinct_step(f: AggregateFunction, s: Seq<ValueView>, n: nat)
    requires
        n <= s.len(),
        lined_up(s),
    ensures
        ({
            let a = accumulated_all(fresh(f, true), s, n);
            let t = firsts(s, n);
            &&& a.function == f
            &&& a.distinct
            &&& well_seen(s, n, a.seen)
            &&& accumulated_all(fresh(f, false), t, t.len()) == (AccumulatorView {
                distinct: false,
                seen: Seq::empty(),
                ..a
            })
        }),
    decreases n,
{
    if n > 0 {
        let m = (n - 1) as nat;
        lemma_distinct_step(f, s, m);
        let v = s[n - 1];
        let a = accumulated_all(fresh(f, true), s, m);
        let t = firsts(s, m);
        assert(accumulated_all(fresh(f, true), s, n) == accumulated(a, v));
        lemma_seen_next(s, m, a.seen);
        if v is Null {
            assert(!is_new(s, v, m)) by {
                reveal(is_new);
            }
        } else {
            lemma_seen(s, m, a.seen);
            if is_new(s, v, m) {
                lemma_longer(fresh(f, false), t, v, t.len());
                assert(t.push(v)[t.len() as int] == v);
                lemma_taken_alike(a, v);
            } else {
                lemma_held(a.seen, v);
            }
        }
    } else {
        assert(well_seen(s, 0, Seq::empty())) by {
            reveal(well_seen);
        }
    }
}

proof fn lemma_held(seen: Seq<ValueView>, v: ValueView)
    requires
        set_holds(seen, v),
    ensures
        set_add(seen, v) == seen,
{
}

/// A function over different values is the function without that word over the values that
/// are level with no earlier one.
pub proof fn lemma_distinct(f: AggregateFunction, s: Seq<ValueView>)
    requires
        lined_up(s),
    ensures
        ({
            let t = firsts(s, s.len());
            aggregate_value(accumulated_all(fresh(f, true), s, s.len())) == aggregate_value(
                accumulated_all(fresh(f, false), t, t.len()),
            )
        }),
{
    lemma_distinct_step(f, s, s.len());
}

} // verus!
