//! Values of expressions and fields.
use crate::double::{below, same, to_integer, Double, Rounding};
use crate::entries::{
    entry_find, entry_insert, entry_place, lemma_insert_ascends, names_ascend,
};
use crate::shortest::{double_debug, double_text, double_to_debug, double_to_text};
use crate::text::{
    integer_text, integer_to_text, precedes, quoted, same_text, text_precedes, to_quoted,
};
use crate::time::{instant_debug, instant_text, Timestamp};
use vstd::prelude::*;

pub mod laws;

verus! {

/// A value of an expression or of a field of a row.
#[derive(Debug, Hash)]
pub enum Value {
    Null,
    Boolean(bool),
    Integer(i64),
    Double(Double),
    String(String),
    Timestamp(Timestamp),
    Array(Vec<Value>),
    Mapping(ValueMap),
}

/// Values by name, ordered by the names.
#[derive(Debug, Hash)]
pub struct ValueMap {
    entries: Vec<(String, Value)>,
}

/// What a `Value` holds.
pub enum ValueView {
    Null,
    Boolean(bool),
    Integer(i64),
    Double(Double),
    String(Seq<char>),
    Timestamp(Timestamp),
    Array(Seq<ValueView>),
    Mapping(Seq<(Seq<char>, ValueView)>),
}

impl View for Value {
    type V = ValueView;

    open spec fn view(&self) -> ValueView
        decreases self,
    {
        match self {
            Value::Null => ValueView::Null,
            Value::Boolean(b) => ValueView::Boolean(*b),
            Value::Integer(i) => ValueView::Integer(*i),
            Value::Double(d) => ValueView::Double(*d),
            Value::String(s) => ValueView::String(s@),
            Value::Timestamp(t) => ValueView::Timestamp(*t),
            Value::Array(a) => ValueView::Array(array_view(a@)),
            Value::Mapping(m) => ValueView::Mapping(m.view()),
        }
    }
}

/// What the elements of an array hold.
pub open spec fn array_view(s: Seq<Value>) -> Seq<ValueView>
    decreases s,
{
    Seq::new(s.len(), |i: int| if 0 <= i < s.len() { s[i].view() } else { ValueView::Null })
}

impl View for ValueMap {
    type V = Seq<(Seq<char>, ValueView)>;

    closed spec fn view(&self) -> Seq<(Seq<char>, ValueView)>
        decreases self,
    {
        Seq::new(
            self.entries@.len(),
            |i: int|
                if 0 <= i < self.entries@.len() {
                    (self.entries@[i].0@, self.entries@[i].1.view())
                } else {
                    (Seq::empty(), ValueView::Null)
                },
        )
    }
}

impl Clone for Value {
    fn clone(&self) -> (r: Value)
        ensures
            r@ == self@,
        decreases self,
    {
        match self {
            Value::Null => Value::Null,
            Value::Boolean(b) => Value::Boolean(*b),
            Value::Integer(i) => Value::Integer(*i),
            Value::Double(d) => Value::Double(*d),
            Value::String(s) => Value::String(s.clone()),
            Value::Timestamp(t) => Value::Timestamp(*t),
            Value::Array(a) => {
                let mut r: Vec<Value> = Vec::new();
                let mut i: usize = 0;
                while i < a.len()
                    invariant
                        i <= a.len(),
                        r.len() == i,
                        forall|j: int| 0 <= j < i ==> r@[j]@ == a@[j]@,
                        decreases_to!(self => a),
                    decreases a.len() - i,
                {
                    r.push(a[i].clone());
                    i = i + 1;
                }
                let result = Value::Array(r);
                proof {
                    assert(result@->Array_0 =~= self@->Array_0);
                }
                result
            },
            Value::Mapping(m) => Value::Mapping(m.clone()),
        }
    }
}

impl Clone for ValueMap {
    fn clone(&self) -> (r: ValueMap)
        ensures
            r@ == self@,
        decreases self,
    {
        let mut entries: Vec<(String, Value)> = Vec::new();
        let mut i: usize = 0;
        while i < self.entries.len()
            invariant
                i <= self.entries.len(),
                entries.len() == i,
                forall|j: int|
                    0 <= j < i ==> entries@[j].0@ == self.entries@[j].0@ && entries@[j].1@
                        == self.entries@[j].1@,
            decreases self.entries.len() - i,
        {
            entries.push((self.entries[i].0.clone(), self.entries[i].1.clone()));
            i = i + 1;
        }
        proof {
            let made = ValueMap { entries };
            use_type_invariant(self);
            assert(made@ =~= self@);
        }
        ValueMap { entries }
    }
}

/// What the elements of a sequence hold.
pub open spec fn views<T: View>(s: Seq<T>) -> Seq<T::V> {
    s.map_values(|x: T| x@)
}

/// An array holds what its elements hold.
pub broadcast proof fn lemma_array_view(v: Value)
    ensures
        v is Array ==> (#[trigger] v@) == ValueView::Array(views(v->Array_0@)),
{
    if v is Array {
        assert(array_view(v->Array_0@) =~= views(v->Array_0@));
    }
}

/// Copies values.
pub fn clone_values(v: &Vec<Value>) -> (r: Vec<Value>)
    ensures
        views(r@) == views(v@),
{
    let mut r: Vec<Value> = Vec::new();
    let mut i: usize = 0;
    while i < v.len()
        invariant
            i <= v.len(),
            r.len() == i,
            forall|j: int| 0 <= j < i ==> r@[j]@ == v@[j]@,
        decreases v.len() - i,
    {
        r.push(v[i].clone());
        i = i + 1;
    }
    proof {
        assert(views(r@) =~= views(v@));
    }
    r
}

/// Whether two values are equal.
pub open spec fn equal(a: ValueView, b: ValueView) -> bool
    decreases a,
{
    match (a, b) {
        (ValueView::Null, ValueView::Null) => true,
        (ValueView::Boolean(x), ValueView::Boolean(y)) => x == y,
        (ValueView::Integer(x), ValueView::Integer(y)) => x == y,
        (ValueView::Double(x), ValueView::Double(y)) => same(x, y),
        (ValueView::String(x), ValueView::String(y)) => x == y,
        (ValueView::Timestamp(x), ValueView::Timestamp(y)) => x == y,
        (ValueView::Array(x), ValueView::Array(y)) => x.len() == y.len() && forall|i: int|
            0 <= i < x.len() ==> equal(#[trigger] x[i], y[i]),
        (ValueView::Mapping(x), ValueView::Mapping(y)) => x.len() == y.len() && forall|i: int|
            0 <= i < x.len() ==> (#[trigger] x[i]).0 == y[i].0 && equal(x[i].1, y[i].1),
        _ => false,
    }
}

/// Whether two lists of values are equal.
pub open spec fn all_equal(x: Seq<ValueView>, y: Seq<ValueView>) -> bool {
    x.len() == y.len() && forall|i: int| 0 <= i < x.len() ==> equal(#[trigger] x[i], y[i])
}

/// The name of a value's type.
pub open spec fn type_label(v: ValueView) -> Seq<char> {
    match v {
        ValueView::Null => "NULL"@,
        ValueView::Boolean(_) => "BOOLEAN"@,
        ValueView::Integer(_) => "INTEGER"@,
        ValueView::Double(_) => "DOUBLE"@,
        ValueView::String(_) => "STRING"@,
        ValueView::Timestamp(_) => "TIMESTAMP"@,
        ValueView::Array(_) => "ARRAY"@,
        ValueView::Mapping(_) => "MAP"@,
    }
}

/// How one of two ordered things stands to the other.
#[derive(Clone, Copy, Debug, PartialEq, Eq, Structural)]
pub enum Order {
    Less,
    Equal,
    Greater,
}

/// The order of two things of which one may be below the other.
pub open spec fn order_by(less: bool, greater: bool) -> Order {
    if less {
        Order::Less
    } else if greater {
        Order::Greater
    } else {
        Order::Equal
    }
}

/// The order of two values. Nulls come first; an integer and a double are ordered
/// as numbers, and what is not a number is level with all of them; values of
/// other different types are ordered by the names of the types. All maps are
/// level.
pub open spec fn value_order(a: ValueView, b: ValueView) -> Order
    decreases a, 0int,
{
    match (a, b) {
        (ValueView::Null, ValueView::Null) => Order::Equal,
        (ValueView::Null, _) => Order::Less,
        (_, ValueView::Null) => Order::Greater,
        (ValueView::Boolean(x), ValueView::Boolean(y)) => order_by(!x && y, x && !y),
        (ValueView::Integer(x), ValueView::Integer(y)) => order_by(x < y, y < x),
        (ValueView::Integer(x), ValueView::Double(y)) => double_order(
            Double::nearest_to(x as int),
            y,
        ),
        (ValueView::Double(x), ValueView::Integer(y)) => double_order(
            x,
            Double::nearest_to(y as int),
        ),
        (ValueView::Double(x), ValueView::Double(y)) => double_order(x, y),
        (ValueView::String(x), ValueView::String(y)) => order_by(precedes(x, y), precedes(y, x)),
        (ValueView::Timestamp(x), ValueView::Timestamp(y)) => order_by(x.before(y), y.before(x)),
        (ValueView::Array(x), ValueView::Array(y)) => list_order(x, y, 0),
        _ => order_by(
            precedes(type_label(a), type_label(b)),
            precedes(type_label(b), type_label(a)),
        ),
    }
}

/// The order of two doubles.
pub open spec fn double_order(x: Double, y: Double) -> Order {
    order_by(below(x, y), below(y, x))
}

/// The order of two lists of values that are level up to a place: that of the
/// first values that are not level, or that of the lengths.
pub open spec fn list_order(x: Seq<ValueView>, y: Seq<ValueView>, i: nat) -> Order
    decreases x, x.len() - i,
{
    if i >= x.len() || i >= y.len() {
        order_by(x.len() < y.len(), y.len() < x.len())
    } else if value_order(x[i as int], y[i as int]) != Order::Equal {
        value_order(x[i as int], y[i as int])
    } else {
        list_order(x, y, i + 1)
    }
}

/// Whether a value counts as true.
pub open spec fn truthy(v: ValueView) -> bool {
    match v {
        ValueView::Null => false,
        ValueView::Boolean(b) => b,
        ValueView::Integer(i) => i != 0,
        ValueView::Double(d) => !d.zero(),
        ValueView::String(s) => s.len() > 0,
        _ => true,
    }
}

/// The integer that a number stands for.
pub open spec fn as_integer(v: ValueView) -> Option<i64> {
    match v {
        ValueView::Integer(i) => Some(i),
        ValueView::Double(d) => Some(to_integer(d, Rounding::Truncate)),
        _ => None,
    }
}

/// The double that a number stands for.
pub open spec fn as_double(v: ValueView) -> Option<Double> {
    match v {
        ValueView::Double(d) => Some(d),
        ValueView::Integer(i) => Some(Double::nearest_to(i as int)),
        _ => None,
    }
}

/// The text of a truth value.
pub open spec fn bool_text(b: bool) -> Seq<char> {
    if b {
        "true"@
    } else {
        "false"@
    }
}

/// The text of a value.
pub open spec fn value_text(v: ValueView) -> Seq<char> {
    match v {
        ValueView::Null => "NULL"@,
        ValueView::Boolean(b) => bool_text(b),
        ValueView::Integer(i) => integer_text(i as int),
        ValueView::Double(d) => double_text(d),
        ValueView::String(s) => s,
        ValueView::Timestamp(t) => instant_text(t.second(), t.nanosecond()),
        ValueView::Array(a) => "["@ + list_debug(a, 0) + "]"@,
        ValueView::Mapping(m) => "{"@ + entries_debug(m, 0) + "}"@,
    }
}

/// The debug text of a value.
pub open spec fn value_debug(v: ValueView) -> Seq<char>
    decreases v, 0int,
{
    match v {
        ValueView::Null => "Null"@,
        ValueView::Boolean(b) => "Boolean("@ + bool_text(b) + ")"@,
        ValueView::Integer(i) => "Integer("@ + integer_text(i as int) + ")"@,
        ValueView::Double(d) => "Double("@ + double_debug(d) + ")"@,
        ValueView::String(s) => "String("@ + quoted(s) + ")"@,
        ValueView::Timestamp(t) => "Timestamp("@ + instant_debug(t.second(), t.nanosecond())
            + ")"@,
        ValueView::Array(a) => "Array(["@ + list_debug(a, 0) + "])"@,
        ValueView::Mapping(m) => "Map({"@ + entries_debug(m, 0) + "})"@,
    }
}

/// The debug texts of the values from a place on, separated by commas.
pub open spec fn list_debug(a: Seq<ValueView>, i: nat) -> Seq<char>
    decreases a, a.len() - i,
{
    if i >= a.len() {
        Seq::empty()
    } else if i + 1 == a.len() {
        value_debug(a[i as int])
    } else {
        value_debug(a[i as int]) + ", "@ + list_debug(a, i + 1)
    }
}

/// The debug texts of the names and values from a place on, separated by commas.
pub open spec fn entries_debug(m: Seq<(Seq<char>, ValueView)>, i: nat) -> Seq<char>
    decreases m, m.len() - i,
{
    if i >= m.len() {
        Seq::empty()
    } else if i + 1 == m.len() {
        quoted(m[i as int].0) + ": "@ + value_debug(m[i as int].1)
    } else {
        quoted(m[i as int].0) + ": "@ + value_debug(m[i as int].1) + ", "@ + entries_debug(m, i + 1)
    }
}

/// Writes a truth value.
pub fn bool_to_text(b: bool) -> (r: &'static str)
    ensures
        r@ == bool_text(b),
{
    if b {
        "true"
    } else {
        "false"
    }
}

/// Writes values in their debug forms, from a place on.
fn write_list(a: &Vec<Value>, from: usize) -> (r: String)
    requires
        from <= a.len(),
    ensures
        r@ == list_debug(views(a@), from as nat),
    decreases a, a.len() - from,
{
    if from == a.len() {
        return String::new();
    }
    let mut r = a[from].to_debug();
    if from + 1 < a.len() {
        r.append(", ");
        r.append(write_list(a, from + 1).as_str());
    }
    r
}

/// Writes names and values in their debug forms, from a place on.
fn write_entries(m: &ValueMap, from: usize) -> (r: String)
    requires
        from <= m@.len(),
    ensures
        r@ == entries_debug(m@, from as nat),
    decreases m, m@.len() - from,
{
    if from == m.entries.len() {
        return String::new();
    }
    let mut r = to_quoted(m.entries[from].0.as_str());
    r.append(": ");
    r.append(m.entries[from].1.to_debug().as_str());
    if from + 1 < m.entries.len() {
        r.append(", ");
        r.append(write_entries(m, from + 1).as_str());
    }
    r
}

/// Puts a text between two others.
pub fn enclose(before: &str, text: &str, after: &str) -> (r: String)
    ensures
        r@ == before@ + text@ + after@,
{
    let mut r = before.to_owned();
    r.append(text);
    r.append(after);
    r
}

fn make_order(less: bool, greater: bool) -> (r: Order)
    ensures
        r == order_by(less, greater),
{
    if less {
        Order::Less
    } else if greater {
        Order::Greater
    } else {
        Order::Equal
    }
}

fn order_doubles(x: Double, y: Double) -> (r: Order)
    ensures
        r == double_order(x, y),
{
    make_order(x.is_below(y), y.is_below(x))
}

fn order_texts(x: &str, y: &str) -> (r: Order)
    ensures
        r == order_by(precedes(x@, y@), precedes(y@, x@)),
{
    make_order(text_precedes(x, y), text_precedes(y, x))
}

impl Value {
    pub fn is_null(&self) -> (r: bool)
        ensures
            r == (self@ == ValueView::Null),
    {
        matches!(self, Value::Null)
    }

    /// Whether the value counts as true.
    pub fn is_truthy(&self) -> (r: bool)
        ensures
            r == truthy(self@),
    {
        match self {
            Value::Null => false,
            Value::Boolean(b) => *b,
            Value::Integer(i) => *i != 0,
            Value::Double(d) => !d.is_zero(),
            Value::String(s) => !s.as_str().is_empty(),
            _ => true,
        }
    }

    /// The integer that a number stands for, cut off towards zero.
    pub fn as_i64(&self) -> (r: Option<i64>)
        ensures
            r == as_integer(self@),
    {
        match self {
            Value::Integer(i) => Some(*i),
            Value::Double(d) => Some(d.to_i64(Rounding::Truncate)),
            _ => None,
        }
    }

    /// The double that a number stands for.
    pub fn as_f64(&self) -> (r: Option<Double>)
        ensures
            r == as_double(self@),
    {
        match self {
            Value::Double(d) => Some(*d),
            Value::Integer(i) => Some(Double::from_i64(*i)),
            _ => None,
        }
    }

    pub fn as_str(&self) -> (r: Option<&str>)
        ensures
            match r {
                Some(s) => self@ == ValueView::String(s@),
                None => !(self@ is String),
            },
    {
        match self {
            Value::String(s) => Some(s.as_str()),
            _ => None,
        }
    }

    pub fn as_bool(&self) -> (r: Option<bool>)
        ensures
            r == match self@ {
                ValueView::Boolean(b) => Some(b),
                _ => None,
            },
    {
        match self {
            Value::Boolean(b) => Some(*b),
            _ => None,
        }
    }

    /// The name of the value's type.
    pub fn type_label(&self) -> (r: &'static str)
        ensures
            r@ == type_label(self@),
    {
        match self {
            Value::Null => "NULL",
            Value::Boolean(_) => "BOOLEAN",
            Value::Integer(_) => "INTEGER",
            Value::Double(_) => "DOUBLE",
            Value::String(_) => "STRING",
            Value::Timestamp(_) => "TIMESTAMP",
            Value::Array(_) => "ARRAY",
            Value::Mapping(_) => "MAP",
        }
    }

    /// The text of the value.
    pub fn to_text(&self) -> (r: String)
        ensures
            r@ == value_text(self@),
    {
        broadcast use lemma_array_view;

        match self {
            Value::Null => "NULL".to_owned(),
            Value::Boolean(b) => bool_to_text(*b).to_owned(),
            Value::Integer(i) => integer_to_text(*i),
            Value::Double(d) => double_to_text(*d),
            Value::String(s) => s.clone(),
            Value::Timestamp(t) => t.to_text(),
            Value::Array(a) => enclose("[", write_list(a, 0).as_str(), "]"),
            Value::Mapping(m) => enclose("{", write_entries(m, 0).as_str(), "}"),
        }
    }

    /// The debug text of the value.
    pub fn to_debug(&self) -> (r: String)
        ensures
            r@ == value_debug(self@),
        decreases self, 0int,
    {
        broadcast use lemma_array_view;

        match self {
            Value::Null => "Null".to_owned(),
            Value::Boolean(b) => enclose("Boolean(", bool_to_text(*b), ")"),
            Value::Integer(i) => enclose("Integer(", integer_to_text(*i).as_str(), ")"),
            Value::Double(d) => enclose("Double(", double_to_debug(*d).as_str(), ")"),
            Value::String(s) => enclose("String(", to_quoted(s.as_str()).as_str(), ")"),
            Value::Timestamp(t) => enclose("Timestamp(", t.to_debug().as_str(), ")"),
            Value::Array(a) => enclose("Array([", write_list(a, 0).as_str(), "])"),
            Value::Mapping(m) => enclose("Map({", write_entries(m, 0).as_str(), "})"),
        }
    }

    /// Whether the value equals another.
    pub fn equals(&self, other: &Value) -> (r: bool)
        ensures
            r == equal(self@, other@),
        decreases self,
    {
        match (self, other) {
            (Value::Null, Value::Null) => true,
            (Value::Boolean(x), Value::Boolean(y)) => *x == *y,
            (Value::Integer(x), Value::Integer(y)) => *x == *y,
            (Value::Double(x), Value::Double(y)) => x.is_same(*y),
            (Value::String(x), Value::String(y)) => same_text(x.as_str(), y.as_str()),
            (Value::Timestamp(x), Value::Timestamp(y)) => x.same(y),
            (Value::Array(x), Value::Array(y)) => {
                let ghost p = views(x@);
                let ghost q = views(y@);
                broadcast use lemma_array_view;

                if x.len() != y.len() {
                    return false;
                }
                let mut i: usize = 0;
                while i < x.len()
                    invariant
                        i <= x.len() == y.len(),
                        p.len() == q.len() == x.len(),
                        forall|j: int| 0 <= j < x.len() ==> p[j] == x@[j]@ && q[j] == y@[j]@,
                        forall|j: int| 0 <= j < i ==> equal(p[j], q[j]),
                        self@ == ValueView::Array(p),
                        other@ == ValueView::Array(q),
                        decreases_to!(self => x),
                    decreases x.len() - i,
                {
                    if !x[i].equals(&y[i]) {
                        proof {
                            assert(!equal(p[i as int], q[i as int]));
                        }
                        return false;
                    }
                    i = i + 1;
                }
                true
            },
            (Value::Mapping(x), Value::Mapping(y)) => x.equals(y),
            _ => false,
        }
    }

    /// How the value stands to another in the order of values.
    pub fn order(&self, other: &Value) -> (r: Order)
        ensures
            r == value_order(self@, other@),
        decreases self,
    {
        match (self, other) {
            (Value::Null, Value::Null) => Order::Equal,
            (Value::Null, _) => Order::Less,
            (_, Value::Null) => Order::Greater,
            (Value::Boolean(x), Value::Boolean(y)) => make_order(!*x && *y, *x && !*y),
            (Value::Integer(x), Value::Integer(y)) => make_order(*x < *y, *y < *x),
            (Value::Integer(x), Value::Double(y)) => order_doubles(Double::from_i64(*x), *y),
            (Value::Double(x), Value::Integer(y)) => order_doubles(*x, Double::from_i64(*y)),
            (Value::Double(x), Value::Double(y)) => order_doubles(*x, *y),
            (Value::String(x), Value::String(y)) => order_texts(x.as_str(), y.as_str()),
            (Value::Timestamp(x), Value::Timestamp(y)) => make_order(x.is_before(y), y.is_before(x)),
            (Value::Array(x), Value::Array(y)) => {
                let ghost p = views(x@);
                let ghost q = views(y@);
                broadcast use lemma_array_view;

                let mut i: usize = 0;
                while i < x.len() && i < y.len()
                    invariant
                        i <= x.len(),
                        i <= y.len(),
                        p.len() == x.len(),
                        q.len() == y.len(),
                        forall|j: int| 0 <= j < x.len() ==> p[j] == x@[j]@,
                        forall|j: int| 0 <= j < y.len() ==> q[j] == y@[j]@,
                        list_order(p, q, 0) == list_order(p, q, i as nat),
                        self@ == ValueView::Array(p),
                        other@ == ValueView::Array(q),
                        decreases_to!(self => x),
                    decreases x.len() - i,
                {
                    let o = x[i].order(&y[i]);
                    if o != Order::Equal {
                        return o;
                    }
                    i = i + 1;
                }
                make_order(x.len() < y.len(), y.len() < x.len())
            },
            _ => order_texts(self.type_label(), other.type_label()),
        }
    }
}

impl ValueMap {
    fn equals(&self, other: &ValueMap) -> (r: bool)
        ensures
            r == equal(ValueView::Mapping(self@), ValueView::Mapping(other@)),
        decreases self,
    {
        if self.entries.len() != other.entries.len() {
            return false;
        }
        let ghost p = self@;
        let ghost q = other@;
        let mut i: usize = 0;
        while i < self.entries.len()
            invariant
                i <= self.entries.len() == other.entries.len(),
                p == self@,
                q == other@,
                forall|j: int| 0 <= j < i ==> (#[trigger] p[j]).0 == q[j].0 && equal(p[j].1, q[j].1),
            decreases self.entries.len() - i,
        {
            let same_name = same_text(self.entries[i].0.as_str(), other.entries[i].0.as_str());
            if !same_name || !self.entries[i].1.equals(&other.entries[i].1) {
                proof {
                    assert(p[i as int].0 != q[i as int].0 || !equal(p[i as int].1, q[i as int].1));
                }
                return false;
            }
            i = i + 1;
        }
        true
    }
}

impl PartialEq for Value {
    fn eq(&self, other: &Value) -> (r: bool) {
        self.equals(other)
    }
}

impl vstd::std_specs::cmp::PartialEqSpecImpl for Value {
    open spec fn obeys_eq_spec() -> bool {
        true
    }

    open spec fn eq_spec(&self, other: &Value) -> bool {
        equal(self@, other@)
    }
}

impl Eq for Value {

}

impl PartialOrd for Value {
    fn partial_cmp(&self, other: &Value) -> (r: Option<std::cmp::Ordering>) {
        match self.order(other) {
            Order::Less => Some(std::cmp::Ordering::Less),
            Order::Equal => Some(std::cmp::Ordering::Equal),
            Order::Greater => Some(std::cmp::Ordering::Greater),
        }
    }
}

impl vstd::std_specs::cmp::PartialOrdSpecImpl for Value {
    open spec fn obeys_partial_cmp_spec() -> bool {
        true
    }

    open spec fn partial_cmp_spec(&self, other: &Value) -> Option<std::cmp::Ordering> {
        match value_order(self@, other@) {
            Order::Less => Some(std::cmp::Ordering::Less),
            Order::Equal => Some(std::cmp::Ordering::Equal),
            Order::Greater => Some(std::cmp::Ordering::Greater),
        }
    }
}

impl ValueMap {
    /// The names ascend.
    #[verifier::type_invariant]
    pub open spec fn in_order(self) -> bool {
        names_ascend(self@)
    }

    pub fn new() -> (r: ValueMap)
        ensures
            r@ == Seq::<(Seq<char>, ValueView)>::empty(),
    {
        let entries: Vec<(String, Value)> = Vec::new();
        proof {
            let made = ValueMap { entries };
            assert(made@ =~= Seq::<(Seq<char>, ValueView)>::empty());
        }
        ValueMap { entries }
    }

    pub fn len(&self) -> (r: usize)
        ensures
            r == self@.len(),
    {
        self.entries.len()
    }

    pub fn is_empty(&self) -> (r: bool)
        ensures
            r == (self@.len() == 0),
    {
        self.entries.len() == 0
    }

    /// Puts a value under a name, in place of one that is there.
    pub fn insert(&mut self, name: String, value: Value)
        ensures
            final(self)@ == entry_insert(old(self)@, name@, value@),
    {
        let mut entries: Vec<(String, Value)> = Vec::new();
        proof {
            use_type_invariant(&*self);
            lemma_insert_ascends(self@, name@, value@);
        }
        let ghost before = self@;
        let ghost entry = (name@, value@);
        std::mem::swap(&mut entries, &mut self.entries);
        let ghost all = ValueMap { entries };
        assert(all@ == before);
        let mut i: usize = 0;
        while i < entries.len() && text_precedes(entries[i].0.as_str(), name.as_str())
            invariant
                all == (ValueMap { entries }),
                before == all@,
                i <= entries.len(),
                entry_place(before, name@, 0) == entry_place(before, name@, i as nat),
            decreases entries.len() - i,
        {
            i = i + 1;
        }
        if i < entries.len() && same_text(entries[i].0.as_str(), name.as_str()) {
            entries.set(i, (name, value));
            proof {
                let made = ValueMap { entries };
                assert(made@ =~= before.update(i as int, entry));
            }
        } else {
            entries.insert(i, (name, value));
            proof {
                let made = ValueMap { entries };
                assert(made@ =~= before.insert(i as int, entry));
            }
        }
        self.entries = entries;
    }

    /// The value under a name.
    pub fn get(&self, name: &str) -> (r: Option<&Value>)
        ensures
            match r {
                Some(v) => entry_find(self@, name@, 0) == Some(v@),
                None => entry_find(self@, name@, 0) is None,
            },
    {
        let mut i: usize = 0;
        while i < self.entries.len()
            invariant
                i <= self.entries.len(),
                entry_find(self@, name@, 0) == entry_find(self@, name@, i as nat),
            decreases self.entries.len() - i,
        {
            if same_text(self.entries[i].0.as_str(), name) {
                return Some(&self.entries[i].1);
            }
            i = i + 1;
        }
        None
    }

    /// The name and the value at a place.
    pub fn entry(&self, i: usize) -> (r: (&str, &Value))
        requires
            i < self@.len(),
        ensures
            (r.0@, r.1@) == self@[i as int],
            decreases_to!(self => r.1),
    {
        (self.entries[i].0.as_str(), &self.entries[i].1)
    }
}

} // verus!
