//! Laws of how rows are read from JSON and written as JSON.
use crate::double::Double;
use crate::entries::{entry_find, lemma_entry_index, lemma_found_at, lemma_not_found};
use crate::json::{
    distinct_columns, find_ignoring_case, from_json, from_json_list, lemma_row_members,
    member_value, parsed_fields, row_object, to_json, to_json_list, JsonView,
};
use crate::text::laws::{differ_in_case, lemma_same_letters};
use crate::types::ColumnView;
use crate::value::ValueView;
use vstd::prelude::*;

verus! {

/// The field of a column is what the member with its very name stands for; without one it
/// is what the first member whose name differs in case only stands for, and without that
/// it is null.
pub proof fn lemma_member(m: Seq<(Seq<char>, JsonView)>, name: Seq<char>, k: int)
    ensures
        0 <= k < m.len() && m[k].0 == name && (forall|j: int|
            0 <= j < k ==> (#[trigger] m[j]).0 != name) ==> member_value(m, name) == from_json(
            m[k].1,
        ),
        (forall|j: int| 0 <= j < m.len() ==> (#[trigger] m[j]).0 != name) && 0 <= k < m.len()
            && differ_in_case(m[k].0, name) && (forall|j: int|
            0 <= j < k ==> !differ_in_case((#[trigger] m[j]).0, name)) ==> member_value(m, name)
            == from_json(m[k].1),
        (forall|j: int| 0 <= j < m.len() ==> !differ_in_case((#[trigger] m[j]).0, name))
            ==> member_value(m, name) is Null,
{
    lemma_entry_index(m, name, 0);
    if 0 <= k < m.len() && m[k].0 == name && (forall|j: int|
        0 <= j < k ==> (#[trigger] m[j]).0 != name) {
        lemma_found_at(m, name, 0, k as nat);
    }
    if forall|j: int| 0 <= j < m.len() ==> (#[trigger] m[j]).0 != name {
        lemma_not_found(m, name, 0);
        lemma_any_case(m, name, 0, k);
    }
    if forall|j: int| 0 <= j < m.len() ==> !differ_in_case((#[trigger] m[j]).0, name) {
        assert forall|j: int| 0 <= j < m.len() implies (#[trigger] m[j]).0 != name by {
            if m[j].0 == name {
                assert(differ_in_case(m[j].0, name));
            }
        }
        lemma_not_found(m, name, 0);
        lemma_any_case(m, name, 0, -1);
    }
}

proof fn lemma_any_case(m: Seq<(Seq<char>, JsonView)>, name: Seq<char>, i: nat, k: int)
    requires
        i <= m.len(),
    ensures
        i <= k < m.len() && differ_in_case(m[k].0, name) && (forall|j: int|
            i <= j < k ==> !differ_in_case((#[trigger] m[j]).0, name)) ==> find_ignoring_case(
            m,
            name,
            i,
        ) == Some(m[k].1),
        (forall|j: int| i <= j < m.len() ==> !differ_in_case((#[trigger] m[j]).0, name))
            ==> find_ignoring_case(m, name, i) is None,
    decreases m.len() - i,
{
    if i < m.len() {
        lemma_same_letters(m[i as int].0, name);
        lemma_any_case(m, name, i + 1, k);
    }
}

/// What is read in a JSON object has one field for each column, in their order. Nothing is
/// read in what is no object.
pub proof fn lemma_fields(parsed: Option<JsonView>, schema: Seq<ColumnView>)
    ensures
        match parsed {
            Some(JsonView::Object(m)) => parsed_fields(parsed, schema) matches Some(values)
                && values.len() == schema.len() && forall|k: int|
                0 <= k < schema.len() ==> #[trigger] values[k] == member_value(m, schema[k].name),
            _ => parsed_fields(parsed, schema) is None,
        },
{
}

/// JSON stands for values of the same kinds: null, truth values, integers, texts, and lists
/// of what their elements stand for.
pub proof fn lemma_from_json(b: bool, i: i64, t: Seq<char>, a: Seq<JsonView>)
    ensures
        from_json(JsonView::Null) == ValueView::Null,
        from_json(JsonView::Bool(b)) == ValueView::Boolean(b),
        from_json(JsonView::Number { integer: Some(i), text: t }) == ValueView::Integer(i),
        from_json(JsonView::String(t)) == ValueView::String(t),
        from_json(JsonView::Array(a)) matches ValueView::Array(x) && x.len() == a.len()
            && forall|k: int| 0 <= k < a.len() ==> #[trigger] x[k] == from_json(a[k]),
{
    lemma_from_list(a, a.len());
}

proof fn lemma_from_list(a: Seq<JsonView>, n: nat)
    requires
        n <= a.len(),
    ensures
        from_json_list(a, n).len() == n,
        forall|k: int| 0 <= k < n ==> #[trigger] from_json_list(a, n)[k] == from_json(a[k]),
    decreases n,
{
    if n > 0 {
        lemma_from_list(a, (n - 1) as nat);
    }
}

/// Values are written as JSON of the same kind. What is infinite, or not a number, is
/// written as null.
pub proof fn lemma_to_json(b: bool, i: i64, t: Seq<char>, a: Seq<ValueView>, d: Double)
    ensures
        to_json(ValueView::Null) == JsonView::Null,
        to_json(ValueView::Boolean(b)) == JsonView::Bool(b),
        to_json(ValueView::Integer(i)) matches JsonView::Number { integer, .. } && integer == Some(
            i,
        ),
        to_json(ValueView::String(t)) == JsonView::String(t),
        d.nan() || d.infinite() ==> to_json(ValueView::Double(d)) == JsonView::Null,
        !d.nan() && !d.infinite() ==> (to_json(ValueView::Double(d)) matches JsonView::Number {
            integer,
            ..
        } && integer is None),
        to_json(ValueView::Array(a)) matches JsonView::Array(x) && x.len() == a.len()
            && forall|k: int| 0 <= k < a.len() ==> #[trigger] x[k] == to_json(a[k]),
{
    lemma_to_list(a, a.len());
}

proof fn lemma_to_list(a: Seq<ValueView>, n: nat)
    requires
        n <= a.len(),
    ensures
        to_json_list(a, n).len() == n,
        forall|k: int| 0 <= k < n ==> #[trigger] to_json_list(a, n)[k] == to_json(a[k]),
    decreases n,
{
    if n > 0 {
        lemma_to_list(a, (n - 1) as nat);
    }
}

/// A row is written as an object in which the value of each column stands under its name,
/// and null where the row is too short.
pub proof fn lemma_row_written(values: Seq<ValueView>, schema: Seq<ColumnView>, k: int)
    requires
        distinct_columns(schema),
        0 <= k < schema.len(),
    ensures
        row_object(values, schema) matches JsonView::Object(m) && entry_find(m, schema[k].name, 0)
            == Some(
            if k < values.len() {
                to_json(values[k])
            } else {
                JsonView::Null
            },
        ) && member_value(m, schema[k].name) == from_json(
            if k < values.len() {
                to_json(values[k])
            } else {
                JsonView::Null
            },
        ),
{
    lemma_row_members(values, schema, schema.len(), k);
}

} // verus!
