//! JSON: values read from it, and values written to it.
use crate::decimal::{read_double, text_to_double};
use crate::entries::{
    entry_find, entry_insert, entry_place, lemma_entry_insert, lemma_entry_place,
    lemma_insert_ascends, lemma_insert_last, names_ascend,
};
use crate::shortest::{double_text, double_to_text, lemma_double_round_trip};
use crate::text::{
    equal_ignoring_case, integer_text, precedes, same_letters, same_text, text_precedes,
};
use crate::time::instant_rfc3339;
use crate::types::{field, ColumnView, Row, Schema};
use crate::value::{lemma_array_view, views, Value, ValueMap, ValueView};
use serde_json::Value as JsonValue;
use vstd::prelude::*;

pub mod laws;

verus! {

/// A JSON value of `serde_json`.
#[verifier::external_type_specification]
#[verifier::external_body]
pub struct ExJsonValue(JsonValue);

/// What a JSON value holds. A number is told by the integer that it is, where it
/// is one in the range of `i64`, and by its text.
pub enum JsonView {
    Null,
    Bool(bool),
    Number { integer: Option<i64>, text: Seq<char> },
    String(Seq<char>),
    Array(Seq<JsonView>),
    Object(Seq<(Seq<char>, JsonView)>),
}

/// What a `serde_json::Value` holds: the elements of an array in their order, and
/// the members of an object in the order in which its map gives them.
pub uninterp spec fn json_contents(v: JsonValue) -> JsonView;

/// What `serde_json::from_str` reads in a text, if it can.
pub uninterp spec fn json_parsed(text: Seq<char>) -> Option<JsonView>;

/// One level of a JSON value.
pub enum JsonNode<'a> {
    Null,
    Bool(bool),
    Number(Option<i64>, String),
    String(&'a str),
    Array(Vec<&'a JsonValue>),
    Object(Vec<(&'a String, &'a JsonValue)>),
}

/// What JSON values hold.
pub open spec fn json_list(s: Seq<&JsonValue>) -> Seq<JsonView> {
    s.map_values(|v: &JsonValue| json_contents(*v))
}

/// What members of a JSON object hold.
pub open spec fn json_members(s: Seq<(&String, &JsonValue)>) -> Seq<(Seq<char>, JsonView)> {
    s.map_values(|m: (&String, &JsonValue)| (m.0@, json_contents(*m.1)))
}

/// What one level of a JSON value holds.
pub open spec fn node_contents(n: JsonNode) -> JsonView {
    match n {
        JsonNode::Null => JsonView::Null,
        JsonNode::Bool(b) => JsonView::Bool(b),
        JsonNode::Number(integer, text) => JsonView::Number { integer, text: text@ },
        JsonNode::String(s) => JsonView::String(s@),
        JsonNode::Array(a) => JsonView::Array(json_list(a@)),
        JsonNode::Object(m) => JsonView::Object(json_members(m@)),
    }
}

/// `serde_json::from_str`. What is read is named.
#[verifier::external_body]
fn parse_json(text: &str) -> (r: Option<JsonValue>)
    ensures
        match r {
            Some(v) => json_parsed(text@) == Some(json_contents(v)),
            None => json_parsed(text@) is None,
        },
{
    serde_json::from_str(text).ok()
}

/// The variants of `serde_json::Value`: a number by `Number::as_i64` and its
/// `Display`, an array by its elements, an object by the members that its map
/// iterates over.
#[verifier::external_body]
fn json_node(v: &JsonValue) -> (r: JsonNode<'_>)
    ensures
        node_contents(r) == json_contents(*v),
{
    match v {
        JsonValue::Null => JsonNode::Null,
        JsonValue::Bool(b) => JsonNode::Bool(*b),
        JsonValue::Number(n) => JsonNode::Number(n.as_i64(), n.to_string()),
        JsonValue::String(s) => JsonNode::String(s),
        JsonValue::Array(a) => JsonNode::Array(a.iter().collect()),
        JsonValue::Object(m) => JsonNode::Object(m.iter().collect()),
    }
}

/// The value that a JSON value stands for.
pub open spec fn from_json(j: JsonView) -> ValueView
    decreases j, 0int,
{
    match j {
        JsonView::Null => ValueView::Null,
        JsonView::Bool(b) => ValueView::Boolean(b),
        JsonView::Number { integer, text } => match integer {
            Some(i) => ValueView::Integer(i),
            None => match read_double(text) {
                Some(d) => ValueView::Double(d),
                None => ValueView::Null,
            },
        },
        JsonView::String(s) => ValueView::String(s),
        JsonView::Array(a) => ValueView::Array(from_json_list(a, a.len())),
        JsonView::Object(m) => ValueView::Mapping(from_json_members(m, m.len())),
    }
}

/// The values that the first `n` JSON values stand for.
pub open spec fn from_json_list(a: Seq<JsonView>, n: nat) -> Seq<ValueView>
    decreases a, n,
{
    if n == 0 || n > a.len() {
        Seq::empty()
    } else {
        from_json_list(a, (n - 1) as nat).push(from_json(a[n - 1]))
    }
}

/// The values that the first `n` members stand for, ordered by the names. Of two
/// members with the same name the latter stays.
pub open spec fn from_json_members(m: Seq<(Seq<char>, JsonView)>, n: nat) -> Seq<
    (Seq<char>, ValueView),
>
    decreases m, n,
{
    if n == 0 || n > m.len() {
        Seq::empty()
    } else {
        entry_insert(
            from_json_members(m, (n - 1) as nat),
            m[n - 1].0,
            from_json(m[n - 1].1),
        )
    }
}

impl Value {
    /// The value that a JSON value stands for.
    pub fn from_json(v: &JsonValue) -> (r: Value)
        ensures
            r@ == from_json(json_contents(*v)),
        decreases json_contents(*v), 0int,
    {
        broadcast use lemma_array_view;

        match json_node(v) {
            JsonNode::Null => Value::Null,
            JsonNode::Bool(b) => Value::Boolean(b),
            JsonNode::Number(integer, text) => match integer {
                Some(i) => Value::Integer(i),
                None => match text_to_double(text.as_str()) {
                    Some(d) => Value::Double(d),
                    None => Value::Null,
                },
            },
            JsonNode::String(s) => Value::String(s.to_owned()),
            JsonNode::Array(a) => {
                let ghost c = json_list(a@);
                let mut values: Vec<Value> = Vec::new();
                let mut i: usize = 0;
                proof {
                    assert(views(values@) =~= Seq::<ValueView>::empty());
                }
                while i < a.len()
                    invariant
                        i <= a.len(),
                        c == json_list(a@),
                        json_contents(*v) == JsonView::Array(c),
                        views(values@) == from_json_list(c, i as nat),
                    decreases a.len() - i,
                {
                    let ghost before = views(values@);
                    proof {
                        assert(c[i as int] == json_contents(*a@[i as int]));
                        assert(decreases_to!(json_contents(*v) => json_contents(*v)->Array_0));
                        assert(decreases_to!(c => c[i as int]));
                    }
                    let value = Value::from_json(a[i]);
                    let ghost held = value@;
                    values.push(value);
                    proof {
                        assert(views(values@) =~= before.push(held));
                    }
                    i = i + 1;
                }
                Value::Array(values)
            },
            JsonNode::Object(m) => {
                let ghost c = json_members(m@);
                let mut map = ValueMap::new();
                let mut i: usize = 0;
                while i < m.len()
                    invariant
                        i <= m.len(),
                        c == json_members(m@),
                        json_contents(*v) == JsonView::Object(c),
                        map@ == from_json_members(c, i as nat),
                    decreases m.len() - i,
                {
                    proof {
                        assert(c[i as int] == (m@[i as int].0@, json_contents(*m@[i as int].1)));
                        assert(decreases_to!(json_contents(*v) => json_contents(*v)->Object_0));
                        assert(decreases_to!(c => c[i as int]));
                        assert(decreases_to!(c[i as int] => c[i as int].1));
                    }
                    let value = Value::from_json(m[i].1);
                    map.insert(m[i].0.clone(), value);
                    i = i + 1;
                }
                Value::Mapping(map)
            },
        }
    }
}

/// The first member from `i` on with a name, whatever the case of its letters.
pub open spec fn find_ignoring_case(m: Seq<(Seq<char>, JsonView)>, name: Seq<char>, i: nat) -> Option<
    JsonView,
>
    decreases m.len() - i,
{
    if i >= m.len() {
        None
    } else if same_letters(m[i as int].0, name) {
        Some(m[i as int].1)
    } else {
        find_ignoring_case(m, name, i + 1)
    }
}

/// The value of a column in a JSON object: that of the member with its very name,
/// else that of the first whose name differs in the case of letters only, else
/// null.
pub open spec fn member_value(m: Seq<(Seq<char>, JsonView)>, name: Seq<char>) -> ValueView {
    match entry_find(m, name, 0) {
        Some(j) => from_json(j),
        None => match find_ignoring_case(m, name, 0) {
            Some(j) => from_json(j),
            None => ValueView::Null,
        },
    }
}

/// The fields of a row in a JSON object.
pub open spec fn fields_of(m: Seq<(Seq<char>, JsonView)>, schema: Seq<ColumnView>) -> Seq<ValueView> {
    schema.map_values(|c: ColumnView| member_value(m, c.name))
}

/// The fields of a row in a JSON text, given what is read in it. There are none
/// where it is not an object.
pub open spec fn parsed_fields(parsed: Option<JsonView>, schema: Seq<ColumnView>) -> Option<
    Seq<ValueView>,
> {
    match parsed {
        Some(JsonView::Object(m)) => Some(fields_of(m, schema)),
        _ => None,
    }
}

fn find_member(m: &Vec<(&String, &JsonValue)>, name: &str) -> (r: Value)
    ensures
        r@ == member_value(json_members(m@), name@),
{
    let ghost c = json_members(m@);
    let mut i: usize = 0;
    while i < m.len()
        invariant
            i <= m.len(),
            c == json_members(m@),
            entry_find(c, name@, 0) == entry_find(c, name@, i as nat),
        decreases m.len() - i,
    {
        proof {
            assert(c[i as int] == (m@[i as int].0@, json_contents(*m@[i as int].1)));
        }
        if same_text(m[i].0.as_str(), name) {
            return Value::from_json(m[i].1);
        }
        i = i + 1;
    }
    let mut i: usize = 0;
    while i < m.len()
        invariant
            i <= m.len(),
            c == json_members(m@),
            entry_find(c, name@, 0) is None,
            find_ignoring_case(c, name@, 0) == find_ignoring_case(c, name@, i as nat),
        decreases m.len() - i,
    {
        proof {
            assert(c[i as int] == (m@[i as int].0@, json_contents(*m@[i as int].1)));
        }
        if equal_ignoring_case(m[i].0.as_str(), name) {
            return Value::from_json(m[i].1);
        }
        i = i + 1;
    }
    Value::Null
}

/// Takes the fields of a row out of a JSON value, where it is an object.
pub fn extract_fields(v: &JsonValue, schema: &Schema) -> (r: Option<Vec<Value>>)
    ensures
        match r {
            Some(values) => parsed_fields(Some(json_contents(*v)), schema@) == Some(views(values@)),
            None => parsed_fields(Some(json_contents(*v)), schema@) is None,
        },
{
    match json_node(v) {
        JsonNode::Object(m) => {
            let ghost c = json_members(m@);
            let mut values: Vec<Value> = Vec::new();
            let mut i: usize = 0;
            while i < schema.columns.len()
                invariant
                    i <= schema.columns.len(),
                    c == json_members(m@),
                    values.len() == i,
                    forall|j: int| 0 <= j < i ==> values@[j]@ == fields_of(c, schema@)[j],
                decreases schema.columns.len() - i,
            {
                values.push(find_member(&m, schema.columns[i].name.as_str()));
                i = i + 1;
            }
            proof {
                assert(views(values@) =~= fields_of(c, schema@));
            }
            Some(values)
        },
        _ => None,
    }
}

/// Reads the fields of a row in a JSON text. There are none where the text is not
/// a JSON object.
pub fn read_fields(text: &str, schema: &Schema) -> (r: Option<Vec<Value>>)
    ensures
        match r {
            Some(values) => parsed_fields(json_parsed(text@), schema@) == Some(views(values@)),
            None => parsed_fields(json_parsed(text@), schema@) is None,
        },
{
    match parse_json(text) {
        Some(v) => extract_fields(&v, schema),
        None => None,
    }
}

/// The text of the number that `serde_json::Number::from_f64` makes of the double
/// that a text stands for.
pub uninterp spec fn double_written(text: Seq<char>) -> Seq<char>;

/// The text of a JSON value, as the `Display` of `serde_json::Value` gives it.
pub uninterp spec fn json_written(j: JsonView) -> Seq<char>;

/// One level of a JSON value to be made.
pub enum JsonPart {
    Null,
    Bool(bool),
    Integer(i64),
    String(String),
    Array(Vec<JsonValue>),
    Object(Vec<(String, JsonValue)>),
}

/// What elements hold.
pub open spec fn elements_held(s: Seq<JsonValue>) -> Seq<JsonView> {
    s.map_values(|v: JsonValue| json_contents(v))
}

/// What members hold.
pub open spec fn members_held(s: Seq<(String, JsonValue)>) -> Seq<(Seq<char>, JsonView)> {
    s.map_values(|m: (String, JsonValue)| (m.0@, json_contents(m.1)))
}

/// The JSON number that is an integer.
pub open spec fn integer_number(i: i64) -> JsonView {
    JsonView::Number { integer: Some(i), text: integer_text(i as int) }
}

/// What one level of a JSON value to be made holds.
pub open spec fn part_contents(p: JsonPart) -> JsonView {
    match p {
        JsonPart::Null => JsonView::Null,
        JsonPart::Bool(b) => JsonView::Bool(b),
        JsonPart::Integer(i) => integer_number(i),
        JsonPart::String(s) => JsonView::String(s@),
        JsonPart::Array(a) => JsonView::Array(elements_held(a@)),
        JsonPart::Object(m) => JsonView::Object(members_held(m@)),
    }
}

/// The variants of `serde_json::Value`: a number by its `From<i64>`, an object by
/// collecting its members, which come in the order of their names.
#[verifier::external_body]
fn make_json(part: JsonPart) -> (r: JsonValue)
    requires
        part matches JsonPart::Object(m) ==> names_ascend(members_held(m@)),
    ensures
        json_contents(r) == part_contents(part),
{
    match part {
        JsonPart::Null => JsonValue::Null,
        JsonPart::Bool(b) => JsonValue::Bool(b),
        JsonPart::Integer(i) => JsonValue::from(i),
        JsonPart::String(s) => JsonValue::String(s),
        JsonPart::Array(a) => JsonValue::Array(a),
        JsonPart::Object(m) => JsonValue::Object(m.into_iter().collect()),
    }
}

/// The text of a number.
pub open spec fn number_text(j: JsonView) -> Seq<char> {
    match j {
        JsonView::Number { text, .. } => text,
        _ => Seq::empty(),
    }
}

/// `serde_json::Number::from_f64`, on the double that `str::parse` reads in a text.
/// The number is no integer. Its text is named; it is the shortest that stands for
/// the double, so it is read as the same one.
#[verifier::external_body]
fn double_to_json(text: &str) -> (r: JsonValue)
    requires
        read_double(text@) matches Some(d) && !d.nan() && !d.infinite(),
    ensures
        json_contents(r) == (JsonView::Number { integer: None, text: double_written(text@) }),
        read_double(number_text(json_contents(r))) == read_double(text@),
{
    JsonValue::Number(serde_json::Number::from_f64(text.parse().unwrap()).unwrap())
}

/// Whether a JSON value is read back from its text: it is nested no deeper than
/// there is room, and its numbers are integers. A text of any other number may be
/// read as a double next to it.
pub open spec fn reads_back(j: JsonView, room: nat) -> bool
    decreases j,
{
    match j {
        JsonView::Number { integer, .. } => integer is Some,
        JsonView::Array(a) => room > 0 && forall|i: int|
            0 <= i < a.len() ==> reads_back(#[trigger] a[i], (room - 1) as nat),
        JsonView::Object(m) => room > 0 && forall|i: int|
            0 <= i < m.len() ==> reads_back((#[trigger] m[i]).1, (room - 1) as nat),
        _ => true,
    }
}

/// How deep `serde_json::from_str` reads nested arrays and objects.
pub const DEEPEST: u64 = 127;

/// The `Display` of `serde_json::Value`. The text is named. `serde_json::from_str`
/// reads the same value in it where the value's numbers are integers and it is not
/// nested too deep.
#[verifier::external_body]
fn json_text(v: &JsonValue) -> (r: String)
    ensures
        r@ == json_written(json_contents(*v)),
        reads_back(json_contents(*v), DEEPEST as nat) ==> json_parsed(r@) == Some(
            json_contents(*v),
        ),
{
    v.to_string()
}

/// The JSON that a value is written as. What is infinite or not a number is
/// written as null, and an instant as its text by RFC 3339.
pub open spec fn to_json(v: ValueView) -> JsonView
    decreases v, 0int,
{
    match v {
        ValueView::Null => JsonView::Null,
        ValueView::Boolean(b) => JsonView::Bool(b),
        ValueView::Integer(i) => integer_number(i),
        ValueView::Double(d) => if d.nan() || d.infinite() {
            JsonView::Null
        } else {
            JsonView::Number { integer: None, text: double_written(double_text(d)) }
        },
        ValueView::String(s) => JsonView::String(s),
        ValueView::Timestamp(t) => JsonView::String(instant_rfc3339(t.second(), t.nanosecond())),
        ValueView::Array(a) => JsonView::Array(to_json_list(a, a.len())),
        ValueView::Mapping(m) => JsonView::Object(to_json_members(m, m.len())),
    }
}

/// The JSON that the first `n` elements are written as.
pub open spec fn to_json_list(a: Seq<ValueView>, n: nat) -> Seq<JsonView>
    decreases a, n,
{
    if n == 0 || n > a.len() {
        Seq::empty()
    } else {
        to_json_list(a, (n - 1) as nat).push(to_json(a[n - 1]))
    }
}

/// The JSON that the first `n` entries of a map are written as.
pub open spec fn to_json_members(m: Seq<(Seq<char>, ValueView)>, n: nat) -> Seq<
    (Seq<char>, JsonView),
>
    decreases m, n,
{
    if n == 0 || n > m.len() {
        Seq::empty()
    } else {
        entry_insert(
            to_json_members(m, (n - 1) as nat),
            m[n - 1].0,
            to_json(m[n - 1].1),
        )
    }
}

/// Whether JSON can hold a value as it is: no instant is in it, nor a double that
/// is infinite or not a number.
pub open spec fn json_holds(v: ValueView) -> bool
    decreases v,
{
    match v {
        ValueView::Double(d) => !d.nan() && !d.infinite(),
        ValueView::Timestamp(_) => false,
        ValueView::Array(a) => forall|i: int| 0 <= i < a.len() ==> json_holds(#[trigger] a[i]),
        ValueView::Mapping(m) => forall|i: int|
            0 <= i < m.len() ==> json_holds((#[trigger] m[i]).1),
        _ => true,
    }
}

/// Where JSON can hold an array or a map, it can hold what is in it.
proof fn lemma_parts_held(v: ValueView, i: int)
    requires
        json_holds(v),
    ensures
        v matches ValueView::Array(a) ==> 0 <= i < a.len() ==> json_holds(a[i]),
        v matches ValueView::Mapping(m) ==> 0 <= i < m.len() ==> json_holds(m[i].1),
{
}

/// Puts a JSON value under a name, in place of one that is there.
fn insert_member(m: &mut Vec<(String, JsonValue)>, name: String, value: JsonValue)
    ensures
        members_held(final(m)@) == entry_insert(
            members_held(old(m)@),
            name@,
            json_contents(value),
        ),
{
    let ghost before = members_held(m@);
    let ghost entry = (name@, json_contents(value));
    let mut i: usize = 0;
    while i < m.len() && text_precedes(m[i].0.as_str(), name.as_str())
        invariant
            *m == *old(m),
            before == members_held(m@),
            i <= m.len(),
            entry_place(before, name@, 0) == entry_place(before, name@, i as nat),
        decreases m.len() - i,
    {
        i = i + 1;
    }
    if i < m.len() && same_text(m[i].0.as_str(), name.as_str()) {
        m.set(i, (name, value));
        proof {
            assert(members_held(m@) =~= before.update(i as int, entry));
        }
    } else {
        m.insert(i, (name, value));
        proof {
            assert(members_held(m@) =~= before.insert(i as int, entry));
        }
    }
}

impl Value {
    /// The JSON that the value is written as. The value can be read back from it,
    /// where JSON can hold it.
    pub fn to_json(&self) -> (r: JsonValue)
        ensures
            json_contents(r) == to_json(self@),
            json_holds(self@) ==> from_json(json_contents(r)) == self@,
        decreases self, 0int,
    {
        broadcast use lemma_array_view;

        match self {
            Value::Null => make_json(JsonPart::Null),
            Value::Boolean(b) => make_json(JsonPart::Bool(*b)),
            Value::Integer(i) => make_json(JsonPart::Integer(*i)),
            Value::Double(d) => if d.is_finite() {
                let text = double_to_text(*d);
                proof {
                    lemma_double_round_trip(*d);
                }
                double_to_json(text.as_str())
            } else {
                make_json(JsonPart::Null)
            },
            Value::String(s) => make_json(JsonPart::String(s.clone())),
            Value::Timestamp(t) => make_json(JsonPart::String(t.to_rfc3339())),
            Value::Array(a) => {
                let ghost c = views(a@);
                let mut list: Vec<JsonValue> = Vec::new();
                let mut i: usize = 0;
                proof {
                    assert(elements_held(list@) =~= Seq::<JsonView>::empty());
                }
                while i < a.len()
                    invariant
                        i <= a.len(),
                        c == views(a@),
                        self@ == ValueView::Array(c),
                        decreases_to!(self => a),
                        elements_held(list@) == to_json_list(c, i as nat),
                        json_holds(self@) ==> from_json_list(elements_held(list@), i as nat)
                            == c.take(i as int),
                        list.len() == i,
                    decreases a.len() - i,
                {
                    let ghost before = elements_held(list@);
                    let j = a[i].to_json();
                    let ghost held = json_contents(j);
                    list.push(j);
                    proof {
                        let after = elements_held(list@);
                        assert(after =~= before.push(held));
                        if json_holds(self@) {
                            lemma_parts_held(self@, i as int);
                            lemma_list_grows(before, held, i as nat);
                            assert(c.take(i + 1) =~= c.take(i as int).push(c[i as int]));
                        }
                    }
                    i = i + 1;
                }
                proof {
                    assert(c.take(c.len() as int) =~= c);
                }
                make_json(JsonPart::Array(list))
            },
            Value::Mapping(m) => {
                let members = map_to_json(m);
                make_json(JsonPart::Object(members))
            },
        }
    }
}

/// What the first elements stand for does not depend on the next.
proof fn lemma_list_grows(a: Seq<JsonView>, j: JsonView, n: nat)
    requires
        n <= a.len(),
    ensures
        from_json_list(a.push(j), n) == from_json_list(a, n),
    decreases n,
{
    if n > 0 {
        lemma_list_grows(a, j, (n - 1) as nat);
    }
}

/// What the first members stand for does not depend on the next.
proof fn lemma_members_grow(m: Seq<(Seq<char>, JsonView)>, e: (Seq<char>, JsonView), n: nat)
    requires
        n <= m.len(),
    ensures
        from_json_members(m.push(e), n) == from_json_members(m, n),
    decreases n,
{
    if n > 0 {
        lemma_members_grow(m, e, (n - 1) as nat);
    }
}

/// The JSON that the entries of a map are written as.
fn map_to_json(m: &ValueMap) -> (r: Vec<(String, JsonValue)>)
    ensures
        members_held(r@) == to_json_members(m@, m@.len()),
        names_ascend(members_held(r@)),
        json_holds(ValueView::Mapping(m@)) ==> from_json_members(
            members_held(r@),
            members_held(r@).len(),
        ) == m@,
    decreases m, 0int,
{
    let mut members: Vec<(String, JsonValue)> = Vec::new();
    let mut i: usize = 0;
    proof {
        use_type_invariant(m);
        assert(members_held(members@) =~= Seq::<(Seq<char>, JsonView)>::empty());
    }
    while i < m.len()
        invariant
            i <= m@.len(),
            names_ascend(m@),
            members_held(members@) == to_json_members(m@, i as nat),
            members.len() == i,
            forall|j: int| 0 <= j < i ==> (#[trigger] members_held(members@)[j]).0 == m@[j].0,
            json_holds(ValueView::Mapping(m@)) ==> from_json_members(
                members_held(members@),
                i as nat,
            ) == m@.take(i as int),
        decreases m@.len() - i,
    {
        let ghost before = members_held(members@);
        let (name, value) = m.entry(i);
        let j = value.to_json();
        let ghost e = (name@, json_contents(j));
        insert_member(&mut members, name.to_owned(), j);
        proof {
            assert forall|k: int| 0 <= k < before.len() implies precedes(
                (#[trigger] before[k]).0,
                e.0,
            ) by {
                assert(before[k].0 == m@[k].0);
                assert(precedes(m@[k].0, m@[i as int].0));
            }
            lemma_insert_last(before, e.0, e.1);
            assert(members_held(members@) == before.push(e));
            assert(members_held(members@).len() == members.len());
            if json_holds(ValueView::Mapping(m@)) {
                let t = m@.take(i as int);
                lemma_parts_held(ValueView::Mapping(m@), i as int);
                lemma_members_grow(before, e, i as nat);
                assert forall|k: int| 0 <= k < t.len() implies precedes(
                    (#[trigger] t[k]).0,
                    e.0,
                ) by {
                    assert(precedes(m@[k].0, m@[i as int].0));
                }
                lemma_insert_last(t, e.0, m@[i as int].1);
                assert(m@.take(i + 1) =~= t.push(m@[i as int]));
            }
        }
        i = i + 1;
    }
    proof {
        let all = members_held(members@);
        assert(m@.take(m@.len() as int) =~= m@);
        assert forall|x: int, y: int| 0 <= x < y < all.len() implies precedes(
            (#[trigger] all[x]).0,
            (#[trigger] all[y]).0,
        ) by {
            assert(precedes(m@[x].0, m@[y].0));
        }
    }
    members
}

/// The members of the JSON object that a row is written as, up to the first `n`
/// columns.
pub open spec fn row_members(values: Seq<ValueView>, schema: Seq<ColumnView>, n: nat) -> Seq<
    (Seq<char>, JsonView),
>
    decreases n,
{
    if n == 0 || n > schema.len() {
        Seq::empty()
    } else {
        entry_insert(
            row_members(values, schema, (n - 1) as nat),
            schema[n - 1].name,
            to_json(field(values, n - 1)),
        )
    }
}

/// The JSON object that a row is written as.
pub open spec fn row_object(values: Seq<ValueView>, schema: Seq<ColumnView>) -> JsonView {
    JsonView::Object(row_members(values, schema, schema.len()))
}

/// Whether no two columns have the same name.
pub open spec fn distinct_columns(schema: Seq<ColumnView>) -> bool {
    forall|i: int, j: int|
        0 <= i < j < schema.len() ==> (#[trigger] schema[i]).name != (#[trigger] schema[j]).name
}

/// Whether a row is read back from its JSON: it has a value for each column, no two
/// columns have the same name, and JSON can hold its values.
pub open spec fn row_held(values: Seq<ValueView>, schema: Seq<ColumnView>) -> bool {
    &&& values.len() == schema.len()
    &&& distinct_columns(schema)
    &&& forall|i: int| 0 <= i < values.len() ==> json_holds(#[trigger] values[i])
}

/// Whether a value is null, a truth value, an integer or a text.
pub open spec fn is_scalar(v: ValueView) -> bool {
    v is Null || v is Boolean || v is Integer || v is String
}

/// Whether a row has a value for each column, no two columns have the same name, and
/// each value is null, a truth value, an integer or a text.
pub open spec fn plain_row(values: Seq<ValueView>, schema: Seq<ColumnView>) -> bool {
    &&& values.len() == schema.len()
    &&& distinct_columns(schema)
    &&& forall|i: int| 0 <= i < values.len() ==> is_scalar(#[trigger] values[i])
}

/// JSON can hold a row of nulls, truth values, integers and texts, and its text is read
/// back.
pub proof fn lemma_plain_row(values: Seq<ValueView>, schema: Seq<ColumnView>)
    requires
        plain_row(values, schema),
    ensures
        row_held(values, schema),
        reads_back(row_object(values, schema), DEEPEST as nat),
{
    assert forall|i: int| 0 <= i < values.len() implies json_holds(#[trigger] values[i]) by {
        assert(is_scalar(values[i]));
    }
    lemma_plain_members(values, schema, schema.len());
}

proof fn lemma_plain_members(values: Seq<ValueView>, schema: Seq<ColumnView>, n: nat)
    requires
        plain_row(values, schema),
        n <= schema.len(),
    ensures
        forall|i: int|
            0 <= i < row_members(values, schema, n).len() ==> reads_back(
                (#[trigger] row_members(values, schema, n)[i]).1,
                (DEEPEST - 1) as nat,
            ),
    decreases n,
{
    if n > 0 {
        lemma_plain_members(values, schema, (n - 1) as nat);
        let before = row_members(values, schema, (n - 1) as nat);
        let name = schema[n - 1].name;
        let v = to_json(field(values, n - 1));
        assert(is_scalar(values[n - 1]));
        assert(reads_back(v, (DEEPEST - 1) as nat));
        let r = row_members(values, schema, n);
        lemma_entry_place(before, name, 0);
        let at = entry_place(before, name, 0) as int;
        assert forall|i: int| 0 <= i < r.len() implies reads_back(
            (#[trigger] r[i]).1,
            (DEEPEST - 1) as nat,
        ) by {
            if at < before.len() && before[at].0 == name {
                if i != at {
                    assert(r[i] == before[i]);
                }
            } else if i < at {
                assert(r[i] == before[i]);
            } else if i > at {
                assert(r[i] == before[i - 1]);
            }
        }
    }
}

/// Each column is found under its name.
pub proof fn lemma_row_members(values: Seq<ValueView>, schema: Seq<ColumnView>, n: nat, k: int)
    requires
        distinct_columns(schema),
        n <= schema.len(),
        0 <= k < n,
    ensures
        entry_find(row_members(values, schema, n), schema[k].name, 0) == Some(
            to_json(field(values, k)),
        ),
    decreases n,
{
    let before = row_members(values, schema, (n - 1) as nat);
    lemma_entry_insert(
        before,
        schema[n - 1].name,
        to_json(field(values, n - 1)),
        schema[k].name,
    );
    if k < n - 1 {
        lemma_row_members(values, schema, (n - 1) as nat, k);
    }
}

/// The JSON text that a row is written as: each column by its name. Fields that
/// the row does not have are null; of columns with the same name the last counts.
/// The row is read back from the text, where JSON can hold it, its numbers are
/// integers, and it is not nested too deep. So it is where each value is null, a truth
/// value, an integer or a text.
pub fn row_to_json(row: &Row, schema: &Schema) -> (r: String)
    ensures
        r@ == json_written(row_object(row@.values, schema@)),
        row_held(row@.values, schema@) && reads_back(
            row_object(row@.values, schema@),
            DEEPEST as nat,
        ) ==> parsed_fields(json_parsed(r@), schema@) == Some(row@.values),
        plain_row(row@.values, schema@) ==> parsed_fields(json_parsed(r@), schema@) == Some(
            row@.values,
        ),
{
    let ghost v = row@.values;
    proof {
        if plain_row(v, schema@) {
            lemma_plain_row(v, schema@);
        }
    }
    let mut members: Vec<(String, JsonValue)> = Vec::new();
    let mut i: usize = 0;
    proof {
        assert(members_held(members@) =~= Seq::<(Seq<char>, JsonView)>::empty());
    }
    while i < schema.columns.len()
        invariant
            i <= schema.columns.len(),
            v == row@.values,
            members_held(members@) == row_members(v, schema@, i as nat),
            names_ascend(members_held(members@)),
            forall|k: int|
                0 <= k < i && k < v.len() && json_holds(#[trigger] v[k]) ==> from_json(
                    to_json(v[k]),
                ) == v[k],
        decreases schema.columns.len() - i,
    {
        let ghost before = members_held(members@);
        let j = row.get(i).to_json();
        proof {
            lemma_insert_ascends(before, schema@[i as int].name, json_contents(j));
        }
        insert_member(&mut members, schema.columns[i].name.clone(), j);
        i = i + 1;
    }
    let object = make_json(JsonPart::Object(members));
    let text = json_text(&object);
    proof {
        let m = row_members(v, schema@, schema@.len());
        if row_held(v, schema@) && reads_back(row_object(v, schema@), DEEPEST as nat) {
            assert forall|k: int| 0 <= k < v.len() implies fields_of(m, schema@)[k] == v[k] by {
                lemma_row_members(v, schema@, schema@.len(), k);
                assert(json_holds(v[k]));
            }
            assert(fields_of(m, schema@) =~= v);
        }
    }
    text
}

} // verus!
