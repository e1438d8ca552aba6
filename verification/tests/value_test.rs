use merksql::double::Double;
use merksql::expr::eval::{cast_value, eval_binary_op, eval_unary_op, like_match};
use merksql::expr::{BinaryOp, UnaryOp};
use merksql::json::{extract_fields, read_fields, row_to_json};
use merksql::time::{Duration, Timestamp};
use merksql::types::{Column, DataType, Row, Schema, Value};
use merksql::value::{Order, ValueMap};
use std::collections::HashSet;

fn double(x: f64) -> Double {
    Double::from_bits(x.to_bits())
}

fn number(x: f64) -> Value {
    Value::Double(double(x))
}

fn text(s: &str) -> Value {
    Value::String(s.to_string())
}

fn instant(secs: i64, nanos: u32) -> Timestamp {
    Timestamp::from_parts(secs, nanos).unwrap()
}

fn mapping(entries: Vec<(&str, Value)>) -> Value {
    let mut map = ValueMap::new();
    for (name, value) in entries {
        map.insert(name.to_string(), value);
    }
    Value::Mapping(map)
}

fn samples() -> Vec<Value> {
    vec![
        Value::Null,
        Value::Boolean(false),
        Value::Boolean(true),
        Value::Integer(-3),
        Value::Integer(7),
        Value::Integer(9007199254740993),
        number(-0.5),
        number(0.0),
        number(7.0),
        number(9007199254740992.0),
        text(""),
        text("a"),
        text("b"),
        Value::Timestamp(instant(0, 0)),
        Value::Timestamp(instant(1, 0)),
        Value::Array(vec![]),
        Value::Array(vec![Value::Integer(1), text("x")]),
        mapping(vec![]),
        mapping(vec![("k", Value::Integer(1))]),
    ]
}

#[test]
fn equality_is_an_equivalence() {
    let all = samples();
    for a in &all {
        assert!(a.equals(a));
        for b in &all {
            assert_eq!(a.equals(b), b.equals(a));
            for c in &all {
                if a.equals(b) && b.equals(c) {
                    assert!(a.equals(c));
                }
            }
        }
    }
    assert!(!number(f64::NAN).equals(&number(f64::NAN)));
    assert!(number(0.0).equals(&number(-0.0)));
    assert!(!Value::Integer(7).equals(&number(7.0)));
}

#[test]
fn order_flips_and_equal_values_are_level() {
    let all = samples();
    for a in &all {
        assert_eq!(a.order(a), Order::Equal);
        for b in &all {
            let there = a.order(b);
            let back = b.order(a);
            match there {
                Order::Less => assert_eq!(back, Order::Greater),
                Order::Equal => assert_eq!(back, Order::Equal),
                Order::Greater => assert_eq!(back, Order::Less),
            }
            if a.equals(b) {
                assert_eq!(there, Order::Equal);
            }
        }
    }
}

#[test]
fn order_passes_on() {
    let all: Vec<Value> = samples()
        .into_iter()
        .filter(|v| !matches!(v, Value::Array(_)))
        .collect();
    for a in &all {
        for b in &all {
            for c in &all {
                if a.order(b) == Order::Less && b.order(c) == Order::Less {
                    assert_eq!(a.order(c), Order::Less);
                }
            }
        }
    }
}

#[test]
fn order_of_different_types_goes_by_their_names() {
    assert_eq!(Value::Boolean(true).order(&text("")), Order::Less);
    assert_eq!(text("z").order(&Value::Timestamp(instant(0, 0))), Order::Less);
    assert_eq!(Value::Integer(2).order(&number(1.5)), Order::Greater);
    assert!(Value::Integer(2) > number(1.5));
    assert!(text("a") < text("b"));
}

#[test]
fn null_passes_through_operators() {
    let five = Value::Integer(5);
    for op in [
        BinaryOp::Lt,
        BinaryOp::LtEq,
        BinaryOp::Gt,
        BinaryOp::GtEq,
        BinaryOp::Add,
        BinaryOp::Sub,
        BinaryOp::Mul,
        BinaryOp::Div,
        BinaryOp::Mod,
        BinaryOp::Eq,
        BinaryOp::NotEq,
    ] {
        assert_eq!(eval_binary_op(&Value::Null, &op, &five).unwrap(), Value::Null);
        assert_eq!(eval_binary_op(&five, &op, &Value::Null).unwrap(), Value::Null);
    }
    let null = Value::Null;
    assert_eq!(eval_binary_op(&null, &BinaryOp::Eq, &null).unwrap(), Value::Boolean(true));
    assert_eq!(eval_binary_op(&null, &BinaryOp::NotEq, &null).unwrap(), Value::Boolean(false));
    assert_eq!(eval_unary_op(&UnaryOp::Negate, &null).unwrap(), Value::Null);
}

#[test]
fn comparisons_agree() {
    let all = samples();
    for a in &all {
        for b in &all {
            let lt = eval_binary_op(a, &BinaryOp::Lt, b).unwrap();
            let gt = eval_binary_op(b, &BinaryOp::Gt, a).unwrap();
            assert_eq!(lt, gt);
            let le = eval_binary_op(a, &BinaryOp::LtEq, b).unwrap();
            let above = eval_binary_op(a, &BinaryOp::Gt, b).unwrap();
            match (le, above) {
                (Value::Boolean(x), Value::Boolean(y)) => assert_ne!(x, y),
                (x, y) => assert!(x.is_null() && y.is_null()),
            }
            let eq = eval_binary_op(a, &BinaryOp::Eq, b).unwrap();
            assert_eq!(eq, eval_binary_op(b, &BinaryOp::Eq, a).unwrap());
        }
    }
}

#[test]
fn arithmetic_wraps_and_widens() {
    let max = Value::Integer(i64::MAX);
    let one = Value::Integer(1);
    assert_eq!(eval_binary_op(&max, &BinaryOp::Add, &one).unwrap(), Value::Integer(i64::MIN));
    assert_eq!(
        eval_binary_op(&Value::Integer(7), &BinaryOp::Add, &number(0.5)).unwrap(),
        number(7.5)
    );
    assert_eq!(
        eval_binary_op(&Value::Integer(-7), &BinaryOp::Div, &Value::Integer(2)).unwrap(),
        Value::Integer(-3)
    );
    assert_eq!(
        eval_binary_op(&Value::Integer(-7), &BinaryOp::Mod, &Value::Integer(2)).unwrap(),
        Value::Integer(-1)
    );
    assert_eq!(eval_unary_op(&UnaryOp::Negate, &number(1.5)).unwrap(), number(-1.5));
    assert_eq!(eval_unary_op(&UnaryOp::Not, &text("")).unwrap(), Value::Boolean(true));
}

#[test]
fn patterns() {
    assert!(like_match("HELLO", "hello"));
    assert!(!like_match("hello!", "hello"));
    assert!(like_match("hello world", "hello%"));
    assert!(like_match("hello", "hello%"));
    assert!(!like_match("hell", "hello%"));
    assert!(like_match("say hello", "%hello"));
    assert!(like_match("", "%"));
    assert!(like_match("anything", "%"));
    assert!(like_match("cat", "_at"));
    assert!(!like_match("at", "_at"));
    assert!(!like_match("caat", "_at"));
    assert!(like_match("a-b-c", "a%b%c"));
    assert!(like_match("é", "_"));
    assert!(!like_match("é", "__"));
    assert!(like_match("café", "caf_"));
    assert!(like_match("日本語", "日%語"));
    assert!(!like_match("É", "é"));
}

#[test]
fn casts_to_texts_and_back() {
    for v in [
        Value::Boolean(true),
        Value::Boolean(false),
    ] {
        let s = cast_value(&v, &DataType::String).unwrap();
        assert_eq!(cast_value(&s, &DataType::Boolean).unwrap(), v);
    }
    for i in [0, -1, 42, i64::MIN, i64::MAX] {
        let s = cast_value(&Value::Integer(i), &DataType::String).unwrap();
        assert_eq!(s, text(&i.to_string()));
        assert_eq!(cast_value(&s, &DataType::Integer).unwrap(), Value::Integer(i));
    }
    for x in [0.0, 1.5, -2.25, 1e21, 1e-7, f64::INFINITY, 0.1] {
        let s = cast_value(&number(x), &DataType::String).unwrap();
        assert_eq!(s, text(&x.to_string()));
        assert_eq!(cast_value(&s, &DataType::Double).unwrap(), number(x));
    }
    let zero = cast_value(&number(-0.0), &DataType::String).unwrap();
    assert_eq!(zero, text("-0"));
}

#[test]
fn casts_between_types() {
    assert_eq!(cast_value(&Value::Null, &DataType::Integer).unwrap(), Value::Null);
    assert_eq!(cast_value(&number(-2.9), &DataType::Integer).unwrap(), Value::Integer(-2));
    assert_eq!(cast_value(&number(1e300), &DataType::BigInt).unwrap(), Value::Integer(i64::MAX));
    assert_eq!(cast_value(&number(f64::NAN), &DataType::Integer).unwrap(), Value::Integer(0));
    assert_eq!(cast_value(&Value::Boolean(true), &DataType::Integer).unwrap(), Value::Integer(1));
    assert_eq!(cast_value(&Value::Integer(3), &DataType::Double).unwrap(), number(3.0));
    assert_eq!(cast_value(&text("TRUE"), &DataType::Boolean).unwrap(), Value::Boolean(true));
    assert_eq!(cast_value(&text("no"), &DataType::Boolean).unwrap(), Value::Boolean(false));
    assert_eq!(
        cast_value(&Value::Integer(1500), &DataType::Timestamp).unwrap(),
        Value::Timestamp(instant(1, 500000000))
    );
    assert_eq!(
        cast_value(&text("2024-01-02T03:04:05Z"), &DataType::Timestamp).unwrap(),
        Value::Timestamp(instant(1704164645, 0))
    );
}

#[test]
fn casts_that_fail() {
    let fails = |v: Value, t: DataType, message: &str| {
        assert_eq!(cast_value(&v, &t).unwrap_err().to_text(), message);
    };
    fails(Value::Array(vec![]), DataType::Boolean, "Cannot cast ARRAY to BOOLEAN");
    fails(text("x"), DataType::Integer, "Cannot cast 'x' to INTEGER");
    fails(Value::Array(vec![]), DataType::Integer, "Cannot cast ARRAY to INTEGER");
    fails(text("1.5.2"), DataType::Double, "Cannot cast '1.5.2' to DOUBLE");
    fails(Value::Boolean(true), DataType::Double, "Cannot cast BOOLEAN to DOUBLE");
    fails(text("soon"), DataType::Timestamp, "Cannot cast 'soon' to TIMESTAMP");
    fails(number(1.0), DataType::Timestamp, "Cannot cast DOUBLE to TIMESTAMP");
    fails(
        Value::Integer(i64::MAX),
        DataType::Timestamp,
        "Invalid timestamp millis: 9223372036854775807",
    );
    fails(
        Value::Integer(1),
        DataType::Array(Box::new(DataType::Integer)),
        "Unsupported cast to ARRAY<INTEGER>",
    );
}

#[test]
fn operators_that_fail() {
    let a = text("a");
    let one = Value::Integer(1);
    assert_eq!(
        eval_binary_op(&a, &BinaryOp::Add, &one).unwrap_err().to_text(),
        "Cannot apply arithmetic to STRING and INTEGER"
    );
    assert_eq!(
        eval_binary_op(&one, &BinaryOp::Div, &Value::Integer(0)).unwrap_err().to_text(),
        "Division by zero"
    );
    assert_eq!(
        eval_binary_op(&one, &BinaryOp::Mod, &Value::Integer(0)).unwrap_err().to_text(),
        "Modulo by zero"
    );
    assert_eq!(
        eval_unary_op(&UnaryOp::Negate, &a).unwrap_err().to_text(),
        "Cannot negate STRING"
    );
}

#[test]
fn values_come_back_from_json() {
    for v in [
        Value::Null,
        Value::Boolean(true),
        Value::Integer(i64::MIN),
        number(2.0),
        number(0.1),
        number(-1e-7),
        number(1.7976931348623157e308),
        text("quote \" and \\ and \u{1F600}"),
        Value::Array(vec![Value::Integer(1), Value::Null, text("x")]),
        mapping(vec![("b", Value::Integer(2)), ("a", Value::Array(vec![number(0.5)]))]),
    ] {
        assert_eq!(Value::from_json(&v.to_json()), v);
    }
}

#[test]
fn what_json_cannot_hold() {
    assert!(number(f64::NAN).to_json().is_null());
    assert!(number(f64::INFINITY).to_json().is_null());
    let t = Value::Timestamp(instant(1704164645, 500000000));
    assert_eq!(t.to_json(), "2024-01-02T03:04:05.500+00:00");
    assert_eq!(number(2.0).to_json().to_string(), "2.0");
    assert_eq!(number(1e21).to_json().to_string(), "1e+21");
}

fn schema(names: &[&str]) -> Schema {
    Schema::new(names.iter().map(|n| Column::new(n, DataType::String)).collect())
}

#[test]
fn rows_come_back_from_json() {
    let s = schema(&["id", "Name", "tags", "more"]);
    let values = vec![
        Value::Integer(-5),
        text("A \"B\"\n"),
        Value::Array(vec![text("x"), Value::Null]),
        mapping(vec![("z", Value::Boolean(false)), ("a", Value::Integer(1))]),
    ];
    let row = Row::new(values);
    let json = row_to_json(&row, &s);
    assert_eq!(
        json,
        r#"{"Name":"A \"B\"\n","id":-5,"more":{"a":1,"z":false},"tags":["x",null]}"#
    );
    assert_eq!(read_fields(&json, &s).unwrap(), row.values);
}

#[test]
fn deep_rows_come_back_from_json() {
    let s = schema(&["v"]);
    let mut v = Value::Integer(1);
    for _ in 0..126 {
        v = Value::Array(vec![v]);
    }
    let row = Row::new(vec![v]);
    let json = row_to_json(&row, &s);
    assert_eq!(read_fields(&json, &s).unwrap(), row.values);
    let deeper = Row::new(vec![Value::Array(row.values)]);
    assert!(read_fields(&row_to_json(&deeper, &s), &s).is_none());
}

#[test]
fn rows_with_fewer_values_or_repeated_columns() {
    let json = row_to_json(&Row::new(vec![Value::Integer(1)]), &schema(&["a", "b"]));
    assert_eq!(json, r#"{"a":1,"b":null}"#);
    let twice = Row::new(vec![Value::Integer(1), Value::Integer(2)]);
    assert_eq!(row_to_json(&twice, &schema(&["a", "a"])), r#"{"a":2}"#);
}

#[test]
fn fields_are_found_whatever_the_case() {
    let s = schema(&["ID", "name"]);
    let values = read_fields(r#"{"id": 1, "NAME": "x", "name": "y"}"#, &s).unwrap();
    assert_eq!(values, vec![Value::Integer(1), text("y")]);
    assert!(read_fields("[1]", &s).is_none());
    assert!(read_fields("{", &s).is_none());
    let object = serde_json::from_str(r#"{"name": 18446744073709551615}"#).unwrap();
    let values = extract_fields(&object, &s).unwrap();
    assert_eq!(values, vec![Value::Null, number(18446744073709551615.0)]);
}

#[test]
fn texts_of_instants() {
    let t = instant(1704164645, 120000000);
    assert_eq!(t.to_text(), "2024-01-02 03:04:05.120 UTC");
    assert_eq!(t.to_debug(), "2024-01-02T03:04:05.120Z");
    assert_eq!(t.to_rfc3339(), "2024-01-02T03:04:05.120+00:00");
    assert_eq!(Timestamp::parse("2024-01-02T03:04:05.120Z"), Some(t));
    assert_eq!(Timestamp::parse("2024-01-02T04:04:05.120+01:00"), Some(t));
    assert_eq!(Timestamp::parse("yesterday"), None);
    assert_eq!(Value::Timestamp(t).to_text(), "2024-01-02 03:04:05.120 UTC");
}

#[test]
fn instants_and_spans() {
    assert_eq!(instant(0, 0).timestamp_millis(), 0);
    assert_eq!(Timestamp::from_timestamp_millis(-1), Some(instant(-1, 999000000)));
    assert_eq!(Timestamp::from_parts(0, 1000000000), None);
    assert_eq!(Timestamp::from_parts(8210266876800, 0), None);
    assert!(Timestamp::from_parts(59, 1500000000).is_some());
    assert_eq!(instant(59, 1500000000).timestamp_millis(), 60500);
    let t = instant(10, 0);
    assert_eq!(t.checked_add(&Duration::from_millis(1500)), Some(instant(11, 500000000)));
    assert_eq!(t.checked_sub(&Duration::from_millis(1)), Some(instant(9, 999000000)));
    assert_eq!(t.checked_add(&Duration::from_secs(9000000000000)), None);
    assert_eq!(t.checked_add(&Duration::from_secs(u64::MAX)), Some(t));
    assert!(instant(1, 5).is_before(&instant(1, 6)));
    assert!(!instant(1, 6).is_before(&instant(1, 6)));
    assert!(instant(0, 0).is_before(&Timestamp::now()));
}

#[test]
fn texts_of_values() {
    let v = Value::Array(vec![text("a\"b"), Value::Null, number(1.0)]);
    assert_eq!(v.to_text(), r#"[String("a\"b"), Null, Double(1.0)]"#);
    assert_eq!(mapping(vec![("k", Value::Integer(1))]).to_text(), r#"{"k": Integer(1)}"#);
    assert_eq!(Value::Boolean(true).to_debug(), "Boolean(true)");
    assert_eq!(v.type_label(), "ARRAY");
    assert_eq!(DataType::Array(Box::new(DataType::BigInt)).to_text(), "ARRAY<BIGINT>");
}

#[test]
fn maps_keep_the_order_of_names() {
    let mut map = ValueMap::new();
    map.insert("b".to_string(), Value::Integer(1));
    map.insert("a".to_string(), Value::Integer(2));
    map.insert("b".to_string(), Value::Integer(3));
    map.insert("B".to_string(), Value::Integer(4));
    assert_eq!(map.len(), 3);
    assert_eq!(map.entry(0).0, "B");
    assert_eq!(map.entry(1).0, "a");
    assert_eq!(map.entry(2).0, "b");
    assert_eq!(map.get("b"), Some(&Value::Integer(3)));
    assert_eq!(map.get("c"), None);
}

#[test]
fn equal_values_are_one_key() {
    let mut keys: HashSet<Value> = HashSet::new();
    assert!(keys.insert(Value::Integer(1)));
    assert!(keys.insert(text("1")));
    assert!(keys.insert(number(1.0)));
    assert!(keys.insert(Value::Array(vec![Value::Null, Value::Boolean(true)])));
    assert!(!keys.insert(Value::Integer(1)));
    assert!(!keys.insert(Value::Array(vec![Value::Null, Value::Boolean(true)])));
    assert_eq!(keys.len(), 4);
}

#[test]
fn texts_can_be_added_and_nothing_else() {
    let sum = eval_binary_op(&text("a"), &BinaryOp::Add, &text("b")).unwrap();
    assert_eq!(sum, text("ab"));
    for op in [BinaryOp::Sub, BinaryOp::Mul, BinaryOp::Div, BinaryOp::Mod] {
        assert_eq!(
            eval_binary_op(&text("a"), &op, &text("b")).unwrap_err().to_text(),
            "Cannot apply arithmetic to STRING and STRING"
        );
    }
}
