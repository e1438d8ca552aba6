//! What an aggregate function keeps of the values that it has seen.
use crate::double::{quotient, sum, Double};
use crate::expr::eval::wrapped;
use crate::plan::AggregateFunction;
use crate::value::{
    as_double, clone_values, lemma_array_view, value_order, views, Order, Value, ValueView,
};
use vstd::prelude::*;

pub mod laws;

verus! {

/// What an optional value holds.
pub open spec fn option_value(v: Option<Value>) -> Option<ValueView> {
    match v {
        Some(v) => Some(v@),
        None => None,
    }
}

fn clone_option(v: &Option<Value>) -> (r: Option<Value>)
    ensures
        option_value(r) == option_value(*v),
{
    match v {
        Some(v) => Some(v.clone()),
        None => None,
    }
}

/// What one aggregate function keeps of one group.
#[derive(Debug)]
pub struct Accumulator {
    pub function: AggregateFunction,
    pub count: i64,
    pub sum: Double,
    pub min: Option<Value>,
    pub max: Option<Value>,
    pub list: Vec<Value>,
    pub set: Vec<Value>,
    pub distinct: bool,
    seen: Vec<Value>,
}

/// What an `Accumulator` holds.
pub struct AccumulatorView {
    pub function: AggregateFunction,
    pub count: i64,
    pub sum: Double,
    pub min: Option<ValueView>,
    pub max: Option<ValueView>,
    pub list: Seq<ValueView>,
    pub set: Seq<ValueView>,
    pub distinct: bool,
    pub seen: Seq<ValueView>,
}

impl View for Accumulator {
    type V = AccumulatorView;

    closed spec fn view(&self) -> AccumulatorView {
        AccumulatorView {
            function: self.function,
            count: self.count,
            sum: self.sum,
            min: option_value(self.min),
            max: option_value(self.max),
            list: views(self.list@),
            set: views(self.set@),
            distinct: self.distinct,
            seen: views(self.seen@),
        }
    }
}

impl Clone for Accumulator {
    fn clone(&self) -> (r: Accumulator)
        ensures
            r@ == self@,
    {
        Accumulator {
            function: self.function,
            count: self.count,
            sum: self.sum,
            min: clone_option(&self.min),
            max: clone_option(&self.max),
            list: clone_values(&self.list),
            set: clone_values(&self.set),
            distinct: self.distinct,
            seen: clone_values(&self.seen),
        }
    }
}

/// An accumulator that has seen nothing.
pub open spec fn fresh(function: AggregateFunction, distinct: bool) -> AccumulatorView {
    AccumulatorView {
        function,
        count: 0,
        sum: Double { bits: 0 },
        min: None,
        max: None,
        list: Seq::empty(),
        set: Seq::empty(),
        distinct,
        seen: Seq::empty(),
    }
}

/// The first place from `i` on in an ordered set that a value does not come
/// behind.
pub open spec fn set_place(s: Seq<ValueView>, v: ValueView, i: nat) -> nat
    decreases s.len() - i,
{
    if i < s.len() && value_order(v, s[i as int]) == Order::Greater {
        set_place(s, v, i + 1)
    } else {
        i
    }
}

/// Whether an ordered set holds a value, or one that is level with it.
pub open spec fn set_holds(s: Seq<ValueView>, v: ValueView) -> bool {
    let i = set_place(s, v, 0);
    i < s.len() && value_order(v, s[i as int]) == Order::Equal
}

/// An ordered set with one more value, unless it holds that already.
pub open spec fn set_add(s: Seq<ValueView>, v: ValueView) -> Seq<ValueView> {
    if set_holds(s, v) {
        s
    } else {
        s.insert(set_place(s, v, 0) as int, v)
    }
}

/// The first place from `i` on in an ordered list whose value comes behind
/// another.
pub open spec fn sort_place(s: Seq<ValueView>, v: ValueView, i: nat) -> nat
    decreases s.len() - i,
{
    if i < s.len() && value_order(s[i as int], v) != Order::Greater {
        sort_place(s, v, i + 1)
    } else {
        i
    }
}

/// The first `n` values in order. Those that are level keep their order.
pub open spec fn sorted(s: Seq<ValueView>, n: nat) -> Seq<ValueView>
    decreases n,
{
    if n == 0 {
        Seq::empty()
    } else {
        let before = sorted(s, (n - 1) as nat);
        before.insert(sort_place(before, s[n - 1], 0) as int, s[n - 1])
    }
}

/// At most the first `k` of some values.
pub open spec fn at_most(s: Seq<ValueView>, k: nat) -> Seq<ValueView> {
    if k < s.len() {
        s.take(k as int)
    } else {
        s
    }
}

/// The `k` greatest values, the greatest first.
pub open spec fn greatest(s: Seq<ValueView>, k: nat) -> Seq<ValueView> {
    at_most(sorted(s, s.len()).reverse(), k)
}

/// What an accumulator holds once its function has taken in a value.
pub open spec fn taken_in(a: AccumulatorView, v: ValueView) -> AccumulatorView {
    match a.function {
        AggregateFunction::Count => AccumulatorView { count: wrapped(a.count + 1), ..a },
        AggregateFunction::Sum | AggregateFunction::Avg => AccumulatorView {
            count: wrapped(a.count + 1),
            sum: match as_double(v) {
                Some(d) => sum(a.sum, d),
                None => a.sum,
            },
            ..a
        },
        AggregateFunction::Min => AccumulatorView {
            min: match a.min {
                Some(m) => if value_order(v, m) == Order::Less {
                    Some(v)
                } else {
                    Some(m)
                },
                None => Some(v),
            },
            ..a
        },
        AggregateFunction::Max => AccumulatorView {
            max: match a.max {
                Some(m) => if value_order(v, m) == Order::Greater {
                    Some(v)
                } else {
                    Some(m)
                },
                None => Some(v),
            },
            ..a
        },
        AggregateFunction::CollectList => AccumulatorView { list: a.list.push(v), ..a },
        AggregateFunction::CollectSet => AccumulatorView { set: set_add(a.set, v), ..a },
        AggregateFunction::TopK(k) => AccumulatorView {
            list: greatest(a.list.push(v), k as nat),
            ..a
        },
    }
}

/// What an accumulator holds after a value. Nulls change nothing, and neither do
/// values that were seen before where only different ones count.
pub open spec fn accumulated(a: AccumulatorView, v: ValueView) -> AccumulatorView {
    if v == ValueView::Null {
        a
    } else if a.distinct && set_holds(a.seen, v) {
        a
    } else if a.distinct {
        taken_in(AccumulatorView { seen: set_add(a.seen, v), ..a }, v)
    } else {
        taken_in(a, v)
    }
}

/// What an accumulator holds after a row was counted.
pub open spec fn counted(a: AccumulatorView) -> AccumulatorView {
    AccumulatorView { count: wrapped(a.count + 1), ..a }
}

/// An optional value, or null.
pub open spec fn or_null(v: Option<ValueView>) -> ValueView {
    match v {
        Some(v) => v,
        None => ValueView::Null,
    }
}

/// The value of an aggregate function.
pub open spec fn aggregate_value(a: AccumulatorView) -> ValueView {
    match a.function {
        AggregateFunction::Count => ValueView::Integer(a.count),
        AggregateFunction::Sum => if a.count == 0 {
            ValueView::Null
        } else {
            ValueView::Double(a.sum)
        },
        AggregateFunction::Avg => if a.count == 0 {
            ValueView::Null
        } else {
            ValueView::Double(quotient(a.sum, Double::nearest_to(a.count as int)))
        },
        AggregateFunction::Min => or_null(a.min),
        AggregateFunction::Max => or_null(a.max),
        AggregateFunction::CollectList => ValueView::Array(a.list),
        AggregateFunction::CollectSet => ValueView::Array(a.set),
        AggregateFunction::TopK(_) => ValueView::Array(a.list),
    }
}

fn find_in_set(s: &Vec<Value>, v: &Value) -> (r: (usize, bool))
    ensures
        r.0 == set_place(views(s@), v@, 0),
        r.0 <= s.len(),
        r.1 == set_holds(views(s@), v@),
{
    let mut i: usize = 0;
    while i < s.len()
        invariant
            i <= s.len(),
            set_place(views(s@), v@, 0) == set_place(views(s@), v@, i as nat),
        decreases s.len() - i,
    {
        match v.order(&s[i]) {
            Order::Greater => {},
            Order::Equal => {
                return (i, true);
            },
            Order::Less => {
                return (i, false);
            },
        }
        i = i + 1;
    }
    (i, false)
}

fn add_to_set(s: &mut Vec<Value>, v: &Value)
    ensures
        views(final(s)@) == set_add(views(old(s)@), v@),
{
    let (i, found) = find_in_set(s, v);
    if !found {
        let copy = v.clone();
        let ghost before = s@;
        s.insert(i, copy);
        proof {
            assert(views(s@) =~= views(before).insert(i as int, v@));
        }
    }
}

/// Puts values in order. Those that are level keep their order.
fn sort(s: &Vec<Value>) -> (r: Vec<Value>)
    ensures
        views(r@) == sorted(views(s@), s@.len()),
{
    let mut r: Vec<Value> = Vec::new();
    let mut n: usize = 0;
    proof {
        assert(views(r@) =~= Seq::<ValueView>::empty());
    }
    while n < s.len()
        invariant
            n <= s.len(),
            views(r@) == sorted(views(s@), n as nat),
        decreases s.len() - n,
    {
        let mut i: usize = 0;
        while i < r.len() && s[n].order_from(&r[i]) != Order::Greater
            invariant
                n < s.len(),
                i <= r.len(),
                sort_place(views(r@), s@[n as int]@, 0) == sort_place(
                    views(r@),
                    s@[n as int]@,
                    i as nat,
                ),
            decreases r.len() - i,
        {
            i = i + 1;
        }
        let copy = s[n].clone();
        let ghost before = r@;
        r.insert(i, copy);
        proof {
            assert(views(r@) =~= views(before).insert(i as int, s@[n as int]@));
        }
        n = n + 1;
    }
    r
}

/// The `k` greatest of some values, the greatest first.
fn take_greatest(s: &Vec<Value>, k: usize) -> (r: Vec<Value>)
    ensures
        views(r@) == greatest(views(s@), k as nat),
{
    let ordered = sort(s);
    let ghost o = views(ordered@);
    let n: usize = ordered.len();
    let mut r: Vec<Value> = Vec::new();
    proof {
        assert(views(r@) =~= o.reverse().take(0));
        assert(o.len() == n);
    }
    let mut i: usize = 0;
    while i < n && i < k
        invariant
            i <= n == ordered.len(),
            i <= k,
            o == views(ordered@),
            views(r@) == o.reverse().take(i as int),
        decreases n - i,
    {
        let ghost before = views(r@);
        r.push(ordered[n - 1 - i].clone());
        proof {
            assert(views(r@) =~= before.push(o[n - 1 - i]));
            assert(o.reverse().take(i + 1) =~= before.push(o.reverse()[i as int]));
        }
        i = i + 1;
    }
    proof {
        assert(views(s@).len() == s@.len());
        assert(o.reverse().take(o.len() as int) =~= o.reverse());
    }
    r
}

impl Value {
    /// How another value stands to this one in the order of values.
    fn order_from(&self, other: &Value) -> (r: Order)
        ensures
            r == value_order(other@, self@),
    {
        other.order(self)
    }
}

impl Accumulator {
    pub fn new(function: AggregateFunction, distinct: bool) -> (r: Accumulator)
        ensures
            r@ == fresh(function, distinct),
    {
        let r = Accumulator {
            function,
            count: 0,
            sum: Double::from_bits(0),
            min: None,
            max: None,
            list: Vec::new(),
            set: Vec::new(),
            distinct,
            seen: Vec::new(),
        };
        proof {
            assert(r@.list =~= Seq::<ValueView>::empty());
            assert(r@.set =~= Seq::<ValueView>::empty());
            assert(r@.seen =~= Seq::<ValueView>::empty());
        }
        r
    }

    /// Takes in a value.
    pub fn accumulate(&mut self, value: &Value)
        ensures
            final(self)@ == accumulated(old(self)@, value@),
    {
        if value.is_null() {
            return;
        }
        if self.distinct {
            if find_in_set(&self.seen, value).1 {
                return;
            }
            add_to_set(&mut self.seen, value);
        }
        match self.function {
            AggregateFunction::Count => {
                self.count = add_one(self.count);
            },
            AggregateFunction::Sum | AggregateFunction::Avg => {
                self.count = add_one(self.count);
                if let Some(d) = value.as_f64() {
                    self.sum = self.sum.plus(d);
                }
            },
            AggregateFunction::Min => {
                let replace = match &self.min {
                    Some(current) => value.order(current) == Order::Less,
                    None => true,
                };
                if replace {
                    self.min = Some(value.clone());
                }
            },
            AggregateFunction::Max => {
                let replace = match &self.max {
                    Some(current) => value.order(current) == Order::Greater,
                    None => true,
                };
                if replace {
                    self.max = Some(value.clone());
                }
            },
            AggregateFunction::CollectList => {
                let ghost before = self.list@;
                self.list.push(value.clone());
                proof {
                    assert(views(self.list@) =~= views(before).push(value@));
                }
            },
            AggregateFunction::CollectSet => {
                add_to_set(&mut self.set, value);
            },
            AggregateFunction::TopK(k) => {
                let ghost before = self.list@;
                self.list.push(value.clone());
                proof {
                    assert(views(self.list@) =~= views(before).push(value@));
                }
                self.list = take_greatest(&self.list, k);
            },
        }
    }

    /// Counts a row, whatever it holds.
    pub fn accumulate_star(&mut self)
        ensures
            final(self)@ == counted(old(self)@),
    {
        self.count = add_one(self.count);
    }

    /// The value of the aggregate function.
    pub fn result(&self) -> (r: Value)
        ensures
            r@ == aggregate_value(self@),
    {
        broadcast use lemma_array_view;

        match self.function {
            AggregateFunction::Count => Value::Integer(self.count),
            AggregateFunction::Sum => if self.count == 0 {
                Value::Null
            } else {
                Value::Double(self.sum)
            },
            AggregateFunction::Avg => if self.count == 0 {
                Value::Null
            } else {
                Value::Double(self.sum.divided_by(Double::from_i64(self.count)))
            },
            AggregateFunction::Min => match &self.min {
                Some(v) => v.clone(),
                None => Value::Null,
            },
            AggregateFunction::Max => match &self.max {
                Some(v) => v.clone(),
                None => Value::Null,
            },
            AggregateFunction::CollectList => Value::Array(clone_values(&self.list)),
            AggregateFunction::CollectSet => Value::Array(clone_values(&self.set)),
            AggregateFunction::TopK(_) => Value::Array(clone_values(&self.list)),
        }
    }

    /// Forgets all values.
    pub fn reset(&mut self)
        ensures
            final(self)@ == fresh(old(self)@.function, old(self)@.distinct),
    {
        *self = Accumulator::new(self.function, self.distinct);
    }
}

/// One more, wrapping around at the end of the range.
fn add_one(i: i64) -> (r: i64)
    ensures
        r == wrapped(i + 1),
{
    if i == i64::MAX {
        i64::MIN
    } else {
        i + 1
    }
}

} // verus!
