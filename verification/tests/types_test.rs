use merksql::double::Double;
use merksql::types::{Column, DataType, Row, Schema, Value};
use merksql::value::ValueMap;

fn double(x: f64) -> Double {
    Double::from_bits(x.to_bits())
}

fn number(d: Double) -> f64 {
    f64::from_bits(d.to_bits())
}

#[test]
fn value_null_checks() {
    assert!(Value::Null.is_null());
    assert!(!Value::Integer(0).is_null());
    assert!(!Value::String("".to_string()).is_null());
}

#[test]
fn value_truthiness() {
    assert!(!Value::Null.is_truthy());
    assert!(!Value::Boolean(false).is_truthy());
    assert!(Value::Boolean(true).is_truthy());
    assert!(!Value::Integer(0).is_truthy());
    assert!(Value::Integer(1).is_truthy());
    assert!(Value::Integer(-1).is_truthy());
    assert!(!Value::Double(double(0.0)).is_truthy());
    assert!(Value::Double(double(1.0)).is_truthy());
    assert!(!Value::String("".to_string()).is_truthy());
    assert!(Value::String("hello".to_string()).is_truthy());
}

#[test]
fn value_accessors() {
    assert_eq!(Value::Integer(42).as_i64(), Some(42));
    assert_eq!(Value::Double(double(3.14)).as_f64().map(number), Some(3.14));
    assert_eq!(Value::Integer(5).as_f64().map(number), Some(5.0));
    assert_eq!(Value::Double(double(3.0)).as_i64(), Some(3));
    assert_eq!(Value::String("hello".into()).as_str(), Some("hello"));
    assert_eq!(Value::Boolean(true).as_bool(), Some(true));
    assert_eq!(Value::Null.as_i64(), None);
    assert_eq!(Value::Null.as_str(), None);
}

#[test]
fn value_ordering() {
    // Null < everything
    assert!(Value::Null < Value::Integer(0));

    // Numeric comparison
    assert!(Value::Integer(1) < Value::Integer(2));
    assert!(Value::Double(double(1.0)) < Value::Double(double(2.0)));

    // String comparison
    assert!(Value::String("a".into()) < Value::String("b".into()));
}

#[test]
fn value_from_json() {
    let json: serde_json::Value = serde_json::from_str(
        r#"{
            "name": "Alice",
            "age": 30,
            "score": 95.5,
            "active": true,
            "tags": ["rust", "sql"],
            "address": null
        }"#,
    )
    .unwrap();

    let value = Value::from_json(&json);
    match &value {
        Value::Mapping(m) => {
            assert_eq!(m.get("name"), Some(&Value::String("Alice".to_string())));
            assert_eq!(m.get("age"), Some(&Value::Integer(30)));
            assert_eq!(m.get("score"), Some(&Value::Double(double(95.5))));
            assert_eq!(m.get("active"), Some(&Value::Boolean(true)));
            assert_eq!(m.get("address"), Some(&Value::Null));
            if let Some(Value::Array(tags)) = m.get("tags") {
                assert_eq!(tags.len(), 2);
            } else {
                panic!("Expected array for tags");
            }
        }
        _ => panic!("Expected map"),
    }
}

#[test]
fn value_to_json() {
    let mut map = ValueMap::new();
    map.insert("name".to_string(), Value::String("Bob".to_string()));
    map.insert("age".to_string(), Value::Integer(25));
    let value = Value::Mapping(map);

    let json = value.to_json();
    assert_eq!(json["name"], "Bob");
    assert_eq!(json["age"], 25);
}

#[test]
fn value_display() {
    assert_eq!(Value::Null.to_text(), "NULL");
    assert_eq!(Value::Integer(42).to_text(), "42");
    assert_eq!(Value::Double(double(3.14)).to_text(), "3.14");
    assert_eq!(Value::String("hello".into()).to_text(), "hello");
    assert_eq!(Value::Boolean(true).to_text(), "true");
}

#[test]
fn schema_operations() {
    let schema = Schema::new(vec![
        Column::new("id", DataType::Integer),
        Column::new("name", DataType::String),
        Column::new("score", DataType::Double),
    ]);

    assert_eq!(schema.len(), 3);
    assert!(!schema.is_empty());

    // Case-insensitive lookup
    assert_eq!(schema.index_of("id"), Some(0));
    assert_eq!(schema.index_of("ID"), Some(0));
    assert_eq!(schema.index_of("Name"), Some(1));
    assert_eq!(schema.index_of("missing"), None);

    assert_eq!(schema.data_type("score"), Some(&DataType::Double));
    assert_eq!(schema.data_type("missing"), None);
}

#[test]
fn row_access() {
    let row = Row::new(vec![
        Value::Integer(1),
        Value::String("Alice".into()),
        Value::Double(double(95.5)),
    ]);

    assert_eq!(row.get(0), &Value::Integer(1));
    assert_eq!(row.get(1), &Value::String("Alice".into()));
    // Out of bounds returns Null
    assert_eq!(row.get(10), &Value::Null);
}

#[test]
fn data_type_display() {
    assert_eq!(DataType::Integer.to_text(), "INTEGER");
    assert_eq!(DataType::String.to_text(), "STRING");
    assert_eq!(
        DataType::Array(Box::new(DataType::String)).to_text(),
        "ARRAY<STRING>"
    );
    assert_eq!(
        DataType::Mapping(Box::new(DataType::String), Box::new(DataType::Integer)).to_text(),
        "MAP<STRING, INTEGER>"
    );
}
