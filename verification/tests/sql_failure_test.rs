use merksql::expr::Expr;
use merksql::plan::{AggregateFunction, QueryPlan, SinkType};
use merksql::schema::{SchemaRegistry, SourceType};
use merksql::sql::parser::{SqlEngine, SqlResult};
use merksql::sql::tokens::{scope_is_missing, SqlToken};
use merksql::types::{DataType, Value};

fn failure(sql: &str) -> String {
    let mut registry = SchemaRegistry::new();
    let message = SqlEngine::parse(sql, &mut registry).unwrap_err().to_text();
    assert!(registry.list().is_empty());
    message
}

fn plan(sql: &str) -> QueryPlan {
    let mut registry = SchemaRegistry::new();
    match SqlEngine::parse(sql, &mut registry).unwrap() {
        SqlResult::Query { plan } => {
            assert!(registry.list().is_empty());
            plan
        }
        _ => panic!("a query was expected"),
    }
}

fn predicate(condition: &str) -> Expr {
    match plan(&format!("SELECT * FROM t WHERE {condition}")) {
        QueryPlan::Filter { predicate, .. } => predicate,
        _ => panic!("a filter was expected"),
    }
}

#[test]
fn statements_that_fail() {
    assert_eq!(failure(""), "Empty SQL statement");
    assert_eq!(failure("SELECT * FROM a; SELECT * FROM b"), "Multiple statements not supported");
    assert!(failure("DROP TABLE t").starts_with("Unsupported SQL statement: "));
    assert!(failure("SELECT FROM WHERE").starts_with("sql parser error: "));
    assert!(failure("SELECT * FROM a UNION SELECT * FROM b").starts_with("Unsupported query type: "));
}

#[test]
fn sources_that_fail() {
    assert_eq!(failure("SELECT 1"), "SELECT requires a FROM clause");
    assert_eq!(
        failure("SELECT * FROM a, b"),
        "Multiple FROM tables not supported; use explicit JOIN"
    );
    assert!(failure("SELECT * FROM (SELECT * FROM a)").starts_with("Unsupported FROM clause: "));
    assert_eq!(failure("SELECT * FROM a JOIN b ON a.id = b.id"), "Unsupported join type");
    assert_eq!(failure("SELECT * FROM a CROSS JOIN b"), "Unsupported join type");
    assert_eq!(
        failure("SELECT * FROM a INNER JOIN b USING (id)"),
        "Only ON join constraint is supported"
    );
    assert_eq!(
        failure("CREATE TABLE s (id INT) WITH (VALUE_FORMAT='JSON')"),
        "Missing KAFKA_TOPIC in WITH clause"
    );
    assert!(failure("CREATE TABLE s (id UUID) WITH (KAFKA_TOPIC='t')")
        .starts_with("Unsupported data type: "));
}

#[test]
fn expressions_that_cannot_be_translated() {
    assert!(failure("SELECT a || b FROM t").starts_with("Unsupported binary operator: "));
    assert!(failure("SELECT ~a FROM t").starts_with("Unsupported unary operator: "));
    assert_eq!(failure("SELECT a LIKE b FROM t"), "LIKE pattern must be a string literal");
    assert_eq!(failure("SELECT a LIKE 1 FROM t"), "LIKE pattern must be a string");
    assert!(failure("SELECT EXISTS (SELECT 1) FROM t").starts_with("Unsupported expression: "));
    assert!(failure("SELECT X'00' FROM t").starts_with("Unsupported value: "));
    assert_eq!(
        failure("SELECT 9223372036854775808 FROM t"),
        "number too large to fit in target type"
    );
}

#[test]
fn values_in_sql() {
    for (sql, value) in [
        ("1", Value::Integer(1)),
        ("'x'", Value::String("x".to_string())),
        ("TRUE", Value::Boolean(true)),
        ("NULL", Value::Null),
    ] {
        match plan(&format!("SELECT {sql} FROM t")) {
            QueryPlan::Project { expressions, .. } => {
                assert_eq!(expressions, vec![Expr::Literal(value)]);
            }
            _ => panic!("a projection was expected"),
        }
    }
}

#[test]
fn conditions_in_sql() {
    assert!(matches!(predicate("a IS NOT NULL"), Expr::IsNull { negated: true, .. }));
    assert!(matches!(predicate("a NOT LIKE 'x%'"), Expr::Like { negated: true, .. }));
    assert!(matches!(predicate("a NOT BETWEEN 1 AND 2"), Expr::Between { negated: true, .. }));
    assert!(matches!(predicate("NOT a"), Expr::UnaryOp { .. }));
    assert!(matches!(predicate("(a)"), Expr::Column(_)));
    assert_eq!(predicate("t.a"), Expr::Column("t.a".to_string()));
    assert!(matches!(
        predicate("CAST(a AS BIGINT) > 1"),
        Expr::BinaryOp { left, .. } if matches!(*left, Expr::Cast { data_type: DataType::BigInt, .. })
    ));
}

#[test]
fn aggregates_without_a_name() {
    match plan("SELECT COUNT(*), SUM(amount), COUNT(DISTINCT id) FROM t GROUP BY k") {
        QueryPlan::Aggregate { aggregates, .. } => {
            assert_eq!(aggregates[0].alias, "count_star");
            assert_eq!(aggregates[0].function, AggregateFunction::Count);
            assert_eq!(aggregates[1].alias, r#"sum_Column("amount")"#);
            assert!(aggregates[2].distinct);
        }
        _ => panic!("an aggregation was expected"),
    }
}

#[test]
fn a_created_source_is_found_in_any_case() {
    let mut registry = SchemaRegistry::new();
    let sql = "CREATE TABLE Orders (id INT, total DOUBLE, tags ARRAY<VARCHAR>) WITH (kafka_topic='o', KEY='id')";
    match SqlEngine::parse(sql, &mut registry).unwrap() {
        SqlResult::SourceCreated { name } => assert_eq!(name, "Orders"),
        _ => panic!("a source was expected"),
    }
    for name in ["orders", "ORDERS", "Orders"] {
        let info = registry.get(name).unwrap();
        assert_eq!(info.name, "Orders");
        assert_eq!(info.topic, "o");
        assert_eq!(info.source_type, SourceType::Table);
        assert_eq!(info.key_column, Some("id".to_string()));
        assert_eq!(info.value_format, "JSON");
        assert_eq!(info.schema.columns.len(), 3);
    }
    assert!(registry.get("order").is_none());
    assert_eq!(
        SqlEngine::parse(sql, &mut registry).unwrap_err().to_text(),
        "Source 'Orders' already registered"
    );
    assert_eq!(registry.list().len(), 1);
    assert!(registry.remove("oRDERS").is_some());
    assert!(registry.get("orders").is_none());
}

#[test]
fn a_query_that_is_written_somewhere() {
    match plan("CREATE TABLE Big AS SELECT * FROM t WHERE a > 1") {
        QueryPlan::Sink { input, name, topic, sink_type } => {
            assert_eq!(name, "Big");
            assert_eq!(topic, "big_topic");
            assert_eq!(sink_type, SinkType::Stream);
            assert_eq!(*input, plan("SELECT * FROM t WHERE a > 1"));
        }
        _ => panic!("a sink was expected"),
    }
    match plan("CREATE TABLE c WITH (KAFKA_TOPIC='x', KEY='k') AS SELECT a FROM t") {
        QueryPlan::Sink { topic, sink_type, .. } => {
            assert_eq!(topic, "x");
            assert_eq!(sink_type, SinkType::Table);
        }
        _ => panic!("a sink was expected"),
    }
}

#[test]
fn an_authorization_must_have_a_scope() {
    let message = "sql parser error: SET ... AUTHORIZATION must have a scope";
    for sql in [
        "SET AUTHORIZATION DEFAULT",
        "set /* a comment */ authorization 'someone'",
        "SET HIVEVAR:AUTHORIZATION someone",
        "SELECT * FROM t; SET AUTHORIZATION DEFAULT",
        "PREPARE p AS SET AUTHORIZATION DEFAULT",
        "IF 1 = 1 THEN SET AUTHORIZATION DEFAULT; END IF",
        "CREATE PROCEDURE p AS BEGIN SELECT 1; SET AUTHORIZATION x; END",
    ] {
        assert_eq!(failure(sql), message, "{sql}");
    }
    assert_eq!(
        failure("SET SESSION AUTHORIZATION DEFAULT"),
        "Unsupported SQL statement: SET SESSION AUTHORIZATION DEFAULT"
    );
    assert!(failure("SET AUTHORIZATION").starts_with("sql parser error: Expected"));
    assert!(failure("EXPLAIN SET AUTHORIZATION DEFAULT").starts_with("sql parser error: Expected"));
}

#[test]
fn other_errors_come_before_a_missing_scope() {
    for sql in [
        "UPDATE t SET authorization x",
        "UPDATE t SET AUTHORIZATION DEFAULT",
        "SELECT FROM WHERE; SET AUTHORIZATION DEFAULT",
        "SELECT * FROM t SET AUTHORIZATION DEFAULT",
        "MERGE INTO t USING s ON a = b WHEN MATCHED THEN UPDATE SET authorization x",
    ] {
        assert!(failure(sql).starts_with("sql parser error: Expected"), "{sql}");
    }
    assert_eq!(
        failure("UPDATE t SET authorization = 1"),
        "Unsupported SQL statement: UPDATE t SET authorization = 1"
    );
}

#[test]
fn words_of_a_query_are_no_statements() {
    match plan("SELECT set authorization FROM t") {
        QueryPlan::Project { expressions, .. } => assert_eq!(
            expressions,
            vec![Expr::Alias {
                expr: Box::new(Expr::Column("set".to_string())),
                name: "authorization".to_string(),
            }]
        ),
        _ => panic!("a projection was expected"),
    }
    let written = plan(
        "CREATE TABLE o WITH (KAFKA_TOPIC='o') AS SELECT set authorization FROM t",
    );
    assert!(matches!(written, QueryPlan::Sink { .. }));
}

#[test]
fn an_external_table_must_have_a_location_to_be_shown() {
    let message = "Unsupported SQL statement: an external table must have a location";
    assert_eq!(failure("EXPLAIN CREATE EXTERNAL TABLE t (a INT)"), message);
    assert_eq!(failure("EXPLAIN CREATE OR REPLACE EXTERNAL TABLE t (location INT)"), message);
    assert_eq!(failure("PREPARE p AS CREATE EXTERNAL TABLE t (a INT)"), message);
    assert_eq!(
        failure("EXPLAIN CREATE ALGORITHM = MERGE EXTERNAL TABLE t (a INT)"),
        message
    );
    assert_eq!(
        failure("EXPLAIN CREATE EXTERNAL TABLE t (a INT) LOCATION 'here'"),
        "Unsupported SQL statement: EXPLAIN CREATE EXTERNAL TABLE t (a INT) LOCATION 'here'"
    );
    assert_eq!(
        failure("CREATE EXTERNAL TABLE t (a INT)"),
        "Missing KAFKA_TOPIC in WITH clause"
    );
    assert_eq!(
        failure("EXPLAIN CREATE EXTERNAL TABLE t (a INT); SELECT * FROM t"),
        "Multiple statements not supported"
    );
    assert_eq!(
        failure("IF 1 = 1 THEN CREATE EXTERNAL TABLE t (a INT); END IF"),
        message
    );
    assert_eq!(failure("SHOW a external table"), "Unsupported SQL statement: SHOW a external table");
}

fn tokens(names: &[&str]) -> Vec<SqlToken> {
    names
        .iter()
        .map(|n| match *n {
            ":" => SqlToken::Colon,
            "'" => SqlToken::Text,
            "=" => SqlToken::Other,
            _ => SqlToken::Word(n.to_string()),
        })
        .collect()
}

#[test]
fn tokens_tell_where_a_scope_is_missing() {
    assert!(scope_is_missing(&tokens(&["SET", "AUTHORIZATION", "DEFAULT"])));
    assert!(scope_is_missing(&tokens(&["SET", "AUTHORIZATION", "'", "="])));
    assert!(scope_is_missing(&tokens(&["SET", "HIVEVAR", ":", "AUTHORIZATION", "'"])));
    assert!(!scope_is_missing(&tokens(&["SET", "LOCAL", "AUTHORIZATION", "DEFAULT"])));
    assert!(!scope_is_missing(&tokens(&["SET", "AUTHORIZATION", "="])));
    assert!(!scope_is_missing(&tokens(&["SET", "AUTHORIZATION"])));
    assert!(!scope_is_missing(&tokens(&["SET", "HIVEVAR", "AUTHORIZATION", "'"])));
    assert!(!scope_is_missing(&tokens(&["UPDATE", "SET", "AUTHORIZATION", "DEFAULT"])));
    assert!(!scope_is_missing(&tokens(&[])));
}
