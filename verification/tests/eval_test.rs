use merksql::double::Double;
use merksql::expr::eval::{eval_function, make_timestamp};
use merksql::expr::{col, eval, lit_bool, lit_i64, lit_null, lit_str, Expr, ExprExt};
use merksql::time::Timestamp;
use merksql::types::{Column, DataType, Row, RowMetadata, Schema, Value};

fn number(x: f64) -> Value {
    Value::Double(Double::from_bits(x.to_bits()))
}

fn text(s: &str) -> Value {
    Value::String(s.to_string())
}

fn schema() -> Schema {
    Schema::new(vec![
        Column::new("id", DataType::Integer),
        Column::new("name", DataType::String),
    ])
}

fn row() -> Row {
    Row::new(vec![Value::Integer(7), text("Ada")])
}

fn value(e: &Expr) -> Value {
    eval(e, &row(), &schema()).unwrap()
}

fn failure(e: &Expr) -> String {
    eval(e, &row(), &schema()).unwrap_err().to_text()
}

fn call(name: &str, args: Vec<Value>) -> Value {
    eval_function(name, &args).unwrap()
}

fn call_failure(name: &str, args: Vec<Value>) -> String {
    eval_function(name, &args).unwrap_err().to_text()
}

#[test]
fn functions_of_texts() {
    assert_eq!(call("upper", vec![text("straße")]), text("STRASSE"));
    assert_eq!(call("UCASE", vec![text("a")]), text("A"));
    assert_eq!(call("lower", vec![text("ÀB")]), text("àb"));
    assert_eq!(call("LCASE", vec![text("A")]), text("a"));
    assert_eq!(call("len", vec![text("añ")]), Value::Integer(3));
    assert_eq!(call("LENGTH", vec![Value::Array(vec![Value::Null])]), Value::Integer(1));
    assert_eq!(call("concat", vec![text("a"), Value::Integer(1), number(0.5)]), text("a10.5"));
    assert_eq!(call("concat", vec![text("a"), Value::Null]), Value::Null);
    assert_eq!(call("concat", vec![]), text(""));
    assert_eq!(
        call("substring", vec![text("hello"), Value::Integer(2), Value::Integer(3)]),
        text("ell")
    );
    assert_eq!(call("SUBSTR", vec![text("hello"), Value::Integer(4)]), text("lo"));
    assert_eq!(call("substr", vec![text("hello"), Value::Integer(9)]), text(""));
    assert_eq!(call("upper", vec![Value::Null]), Value::Null);
}

#[test]
fn functions_of_numbers() {
    assert_eq!(call("abs", vec![Value::Integer(-5)]), Value::Integer(5));
    assert_eq!(call("ABS", vec![number(-2.5)]), number(2.5));
    assert_eq!(call("ceil", vec![number(1.2)]), Value::Integer(2));
    assert_eq!(call("CEILING", vec![number(-1.2)]), Value::Integer(-1));
    assert_eq!(call("floor", vec![number(-1.2)]), Value::Integer(-2));
    assert_eq!(call("round", vec![number(2.5)]), Value::Integer(3));
    assert_eq!(call("round", vec![number(-2.5)]), Value::Integer(-3));
    assert_eq!(call("ROUND", vec![Value::Integer(4)]), Value::Integer(4));
}

#[test]
fn functions_of_choice() {
    assert_eq!(
        call("coalesce", vec![Value::Null, Value::Integer(1), Value::Integer(2)]),
        Value::Integer(1)
    );
    assert_eq!(call("COALESCE", vec![Value::Null]), Value::Null);
    assert_eq!(call("if", vec![Value::Integer(1), text("a"), text("b")]), text("a"));
    assert_eq!(call("IIF", vec![Value::Null, text("a"), text("b")]), text("b"));
}

#[test]
fn functions_that_fail() {
    assert_eq!(call_failure("soundex", vec![]), "Unknown function: soundex");
    assert_eq!(call_failure("upper", vec![]), "upper requires 1 argument(s), got 0");
    assert_eq!(
        call_failure("if", vec![Value::Null]),
        "if requires 3 argument(s), got 1"
    );
    assert_eq!(call_failure("upper", vec![Value::Integer(1)]), "UPPER requires a string");
    assert_eq!(call_failure("lower", vec![Value::Integer(1)]), "LOWER requires a string");
    assert_eq!(call_failure("len", vec![Value::Integer(1)]), "LEN requires a string or array");
    assert_eq!(call_failure("abs", vec![text("x")]), "ABS requires a number");
    assert_eq!(call_failure("ceil", vec![text("x")]), "CEIL requires a number");
    assert_eq!(call_failure("floor", vec![text("x")]), "FLOOR requires a number");
    assert_eq!(call_failure("round", vec![text("x")]), "ROUND requires a number");
    assert_eq!(
        call_failure("substring", vec![text("x")]),
        "SUBSTRING requires 2 or 3 arguments"
    );
    assert_eq!(
        call_failure("substring", vec![Value::Integer(1), text("x")]),
        "SUBSTRING requires (string, int[, int])"
    );
}

#[test]
fn expressions_that_fail() {
    assert_eq!(failure(&col("age")), "Unknown column: age");
    assert_eq!(failure(&Expr::Wildcard), "Cannot evaluate wildcard directly");
    let like = Expr::Like {
        expr: Box::new(col("id")),
        pattern: "7".to_string(),
        negated: false,
    };
    assert_eq!(failure(&like), "LIKE requires a string, got INTEGER");
    assert_eq!(failure(&col("id").div(lit_i64(0))), "Division by zero");
}

#[test]
fn the_first_failure_counts() {
    assert_eq!(failure(&col("age").and(Expr::Wildcard)), "Unknown column: age");
    assert_eq!(value(&lit_bool(false).and(col("age"))), Value::Boolean(false));
    assert_eq!(value(&lit_bool(true).or(col("age"))), Value::Boolean(true));
    assert_eq!(failure(&lit_bool(true).and(col("age"))), "Unknown column: age");
    assert_eq!(value(&lit_null().or(lit_str("x"))), Value::Boolean(true));
}

#[test]
fn letters_of_columns_in_any_case() {
    assert_eq!(value(&col("ID")), Value::Integer(7));
    assert_eq!(value(&col("Name")), text("Ada"));
    assert_eq!(schema().index_of("NAME"), Some(1));
    assert_eq!(schema().index_of("none"), None);
}

#[test]
fn between_is_both_comparisons() {
    for (v, low, high) in [(5, 1, 9), (1, 1, 9), (9, 1, 9), (0, 1, 9), (10, 1, 9), (5, 9, 1)] {
        let between = |negated: bool| Expr::Between {
            expr: Box::new(lit_i64(v)),
            low: Box::new(lit_i64(low)),
            high: Box::new(lit_i64(high)),
            negated,
        };
        let both = lit_i64(v).gt_eq(lit_i64(low)).and(lit_i64(v).lt_eq(lit_i64(high)));
        let inside = value(&between(false));
        assert_eq!(inside, value(&both));
        assert_eq!(value(&between(true)), Value::Boolean(!inside.is_truthy()));
    }
    let null = Expr::Between {
        expr: Box::new(lit_i64(5)),
        low: Box::new(lit_null()),
        high: Box::new(lit_i64(9)),
        negated: false,
    };
    assert_eq!(value(&null), Value::Null);
}

#[test]
fn an_alias_changes_nothing() {
    assert_eq!(value(&col("id").alias("x")), value(&col("id")));
    assert_eq!(failure(&col("age").alias("x")), failure(&col("age")));
}

#[test]
fn the_first_branch_that_holds() {
    let e = Expr::Case {
        operand: None,
        conditions: vec![
            (col("id").gt(lit_i64(10)), lit_str("large")),
            (col("id").gt(lit_i64(5)), lit_str("middle")),
            (col("id").gt(lit_i64(1)), lit_str("small")),
        ],
        else_result: None,
    };
    assert_eq!(value(&e), text("middle"));
    let none = Expr::Case {
        operand: Some(Box::new(col("id"))),
        conditions: vec![(lit_i64(8), lit_str("eight"))],
        else_result: None,
    };
    assert_eq!(value(&none), Value::Null);
}

#[test]
fn columns_of_the_record() {
    let t = Timestamp::from_parts(1, 0).unwrap();
    let row = Row::with_metadata(
        vec![],
        RowMetadata {
            topic: Some("t".to_string()),
            partition: Some(2),
            offset: Some(3),
            timestamp: Some(t),
            key: Some("k".to_string()),
            window_start: Some(t),
            ..Default::default()
        },
    );
    let at = |name: &str| eval(&col(name), &row, &Schema::empty()).unwrap();
    assert_eq!(at("ROWTIME"), Value::Timestamp(t));
    assert_eq!(at("rowkey"), text("k"));
    assert_eq!(at("WindowStart"), Value::Timestamp(t));
    assert_eq!(at("WINDOWEND"), Value::Null);
}

#[test]
fn an_instant_that_was_read_or_not() {
    let t = Timestamp::from_parts(5, 0).unwrap();
    assert_eq!(make_timestamp("x", Some(t)).unwrap(), Value::Timestamp(t));
    assert_eq!(
        make_timestamp("x", None).unwrap_err().to_text(),
        "Cannot cast 'x' to TIMESTAMP"
    );
}

#[test]
fn debug_texts_of_expressions() {
    assert_eq!(col("a").to_debug(), r#"Column("a")"#);
    assert_eq!(
        col("a").add(lit_i64(1)).to_debug(),
        r#"BinaryOp { left: Column("a"), op: Add, right: Literal(Integer(1)) }"#
    );
    assert_eq!(col("a").to_debug(), format!("{:?}", col("a")));
}
