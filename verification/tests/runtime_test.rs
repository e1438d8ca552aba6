use merkql::broker::{Broker, BrokerConfig, BrokerRef};
use merkql::consumer::{Consumer, ConsumerConfig, OffsetReset};
use merkql::record::ProducerRecord;
use merksql::builder::QueryBuilder;
use merksql::double::Double;
use merksql::engine::pipeline;
use merksql::error::Error;
use merksql::expr::{col, lit_bool, lit_f64, lit_i64, lit_str, ExprExt};
use merksql::plan::QueryPlan;
use merksql::runtime::persistent::{
    LoopAction, LoopEvent, PersistentQuery, QueryLoop, QueryStatus,
};
use merksql::runtime::pull::{PullAnswer, PullQuery};
use merksql::runtime::record::Record;
use merksql::schema::SchemaRegistry;
use merksql::sql::parser::{SqlEngine, SqlResult};
use merksql::time::{Duration, Timestamp};
use merksql::types::{Column, DataType, Row, RowMetadata, Schema, Value};
use merksql::{Execution, MerkSql, QueryRegistry};
use tempfile::TempDir;

fn double(x: f64) -> Double {
    Double::from_bits(x.to_bits())
}

fn number(d: Double) -> f64 {
    f64::from_bits(d.to_bits())
}

fn setup_broker(dir: &TempDir) -> BrokerRef {
    Broker::open(BrokerConfig::new(dir.path())).unwrap()
}

fn consumer(broker: &BrokerRef, group_id: String) -> Consumer {
    Broker::consumer(
        broker,
        ConsumerConfig {
            group_id,
            auto_commit: false,
            offset_reset: OffsetReset::Earliest,
        },
    )
}

fn poll(consumer: &mut Consumer) -> Vec<Record> {
    let records = consumer.poll(std::time::Duration::from_millis(100)).unwrap();
    records
        .into_iter()
        .map(|r| Record {
            key: r.key,
            value: r.value,
            topic: r.topic,
            partition: r.partition,
            offset: r.offset,
            timestamp: Timestamp::from_parts(
                r.timestamp.timestamp(),
                r.timestamp.timestamp_subsec_nanos(),
            )
            .unwrap(),
        })
        .collect()
}

fn consume_all(broker: &BrokerRef, topics: &[String]) -> Vec<Record> {
    let mut consumer = consumer(broker, format!("test-{}", uuid::Uuid::new_v4()));
    let names: Vec<&str> = topics.iter().map(|t| t.as_str()).collect();
    consumer.subscribe(&names).unwrap();
    let records = poll(&mut consumer);
    consumer.close().unwrap();
    records
}

fn read_output(broker: &BrokerRef, topic: &str) -> Vec<String> {
    consume_all(broker, &[topic.to_string()]).into_iter().map(|r| r.value).collect()
}

fn read_output_topic(broker: &BrokerRef, topic: &str) -> Vec<String> {
    read_output(broker, topic)
}

fn finish_pull(broker: &BrokerRef, query: PullQuery) -> Result<Vec<Row>, Error> {
    let mut query = query;
    let mut topics = query.topics();
    loop {
        let records = consume_all(broker, &topics);
        let (answer, next) = query.receive(records, Timestamp::now());
        query = next;
        match answer.unwrap() {
            PullAnswer::Consume(more) => topics = more,
            PullAnswer::Rows(rows) => return Ok(rows),
            PullAnswer::Failed(e) => return Err(e),
        }
    }
}

fn pull_query(
    broker: &BrokerRef,
    plan: &QueryPlan,
    registry: &SchemaRegistry,
) -> Result<Vec<Row>, Error> {
    finish_pull(broker, PullQuery::start(plan, registry)?)
}

/// A query that is run step by step.
struct Run {
    broker: BrokerRef,
    consumer: Consumer,
    state: Option<QueryLoop>,
    action: LoopAction,
}

impl Run {
    fn new(broker: &BrokerRef, state: QueryLoop) -> Run {
        Run {
            broker: broker.clone(),
            consumer: consumer(broker, state.group_id().to_string()),
            action: state.first(),
            state: Some(state),
        }
    }

    fn perform(&mut self) -> LoopEvent {
        match &self.action {
            LoopAction::Load(topic) => {
                LoopEvent::Done(consume_all(&self.broker, &[topic.clone()]))
            }
            LoopAction::Subscribe(topics) => {
                let names: Vec<&str> = topics.iter().map(|t| t.as_str()).collect();
                self.consumer.subscribe(&names).unwrap();
                LoopEvent::Done(vec![])
            }
            LoopAction::EnsureTopic(topic) => {
                self.broker.ensure_topic(topic).unwrap();
                LoopEvent::Done(vec![])
            }
            LoopAction::Poll => LoopEvent::Done(poll(&mut self.consumer)),
            LoopAction::Send(messages) => {
                let producer = Broker::producer(&self.broker);
                for m in messages {
                    producer
                        .send(&ProducerRecord::new(
                            m.topic.clone(),
                            m.key.clone(),
                            m.value.clone(),
                        ))
                        .unwrap();
                }
                LoopEvent::Done(vec![])
            }
            LoopAction::Commit => {
                self.consumer.commit_sync().unwrap();
                LoopEvent::Done(vec![])
            }
            LoopAction::Close => {
                self.consumer.close().unwrap();
                LoopEvent::Done(vec![])
            }
            LoopAction::Sleep => LoopEvent::Done(vec![]),
            LoopAction::Finish(_) => LoopEvent::Done(vec![]),
        }
    }

    fn step(&mut self, running: bool) {
        let event = self.perform();
        let (action, next) = self.state.take().unwrap().advance(event, running, Timestamp::now());
        self.state = Some(next);
        self.action = action.unwrap();
    }

    /// Takes all records that are there.
    fn settle(&mut self) {
        loop {
            match self.action {
                LoopAction::Sleep | LoopAction::Finish(_) => return,
                _ => self.step(true),
            }
        }
    }

    /// Takes the steps that are left.
    fn stop(&mut self) -> bool {
        loop {
            match self.action {
                LoopAction::Finish(well) => return well,
                _ => self.step(false),
            }
        }
    }
}

#[derive(Debug)]
enum ExecuteResult {
    SourceCreated { name: String },
    Rows { rows: Vec<Row>, schema: Schema },
    QueryStarted { id: String },
}

struct Engine {
    broker: BrokerRef,
    core: MerkSql,
    runs: Vec<(String, Run)>,
}

impl Engine {
    fn new(broker: BrokerRef) -> Engine {
        Engine {
            broker,
            core: MerkSql::new(),
            runs: vec![],
        }
    }

    fn carry_out(&mut self, execution: Execution) -> Result<ExecuteResult, Error> {
        match execution {
            Execution::SourceCreated { name } => Ok(ExecuteResult::SourceCreated { name }),
            Execution::Pull { query } => {
                let schema = query.output_schema().clone();
                let rows = finish_pull(&self.broker, query)?;
                Ok(ExecuteResult::Rows { rows, schema })
            }
            Execution::Started { id, run } => {
                self.runs.push((id.clone(), Run::new(&self.broker, run)));
                Ok(ExecuteResult::QueryStarted { id })
            }
        }
    }

    fn execute(&mut self, sql: &str) -> Result<ExecuteResult, Error> {
        let execution = self.core.execute(sql)?;
        self.carry_out(execution)
    }

    fn query(&mut self, plan: QueryPlan) -> Result<ExecuteResult, Error> {
        let execution = self.core.query(plan)?;
        self.carry_out(execution)
    }

    fn settle(&mut self) {
        for (_, run) in self.runs.iter_mut() {
            run.settle();
        }
    }

    fn stop_all(&mut self) {
        for (id, run) in self.runs.iter_mut() {
            let well = run.stop();
            self.core.queries.finish(id, well).unwrap();
        }
        self.core.queries.stop_all();
    }
}

fn setup() -> (TempDir, BrokerRef, Engine) {
    let dir = tempfile::tempdir().unwrap();
    let broker = setup_broker(&dir);
    let engine = Engine::new(broker.clone());
    (dir, broker, engine)
}

fn produce(broker: &BrokerRef, topic: &str, records: &[&str]) {
    let producer = Broker::producer(broker);
    for json in records {
        producer.send(&ProducerRecord::new(topic, None, *json)).unwrap();
    }
}

fn expect_rows(result: ExecuteResult) -> (Vec<Row>, Schema) {
    match result {
        ExecuteResult::Rows { rows, schema } => (rows, schema),
        other => panic!("Expected Rows, got {:?}", other),
    }
}

fn create_registry(input_topic: &str) -> SchemaRegistry {
    let mut registry = SchemaRegistry::new();
    registry
        .register_stream(
            "readings",
            Schema::new(vec![
                Column::new("sensor_id", DataType::String),
                Column::new("temp", DataType::Double),
                Column::new("humidity", DataType::Integer),
            ]),
            input_topic,
        )
        .unwrap();
    registry
}

fn events_registry(topic: &str) -> SchemaRegistry {
    let mut registry = SchemaRegistry::new();
    registry
        .register_stream(
            "events",
            Schema::new(vec![
                Column::new("user_id", DataType::String),
                Column::new("action", DataType::String),
                Column::new("value", DataType::Integer),
            ]),
            topic,
        )
        .unwrap();
    registry
}

// === Scenario 1: Stream processing lifecycle ===

#[test]
fn scenario_1_stream_processing_lifecycle() {
    let (_dir, broker, mut engine) = setup();
    let topic = "bdd-events";

    produce(
        &broker,
        topic,
        &[
            r#"{"user_id": "u1", "action": "click", "value": 10}"#,
            r#"{"user_id": "u2", "action": "view", "value": 5}"#,
            r#"{"user_id": "u1", "action": "purchase", "value": 100}"#,
            r#"{"user_id": "u3", "action": "click", "value": 3}"#,
        ],
    );

    engine
        .execute(&format!(
            "CREATE TABLE events (user_id VARCHAR, action VARCHAR, value INTEGER) \
             WITH (KAFKA_TOPIC='{topic}')"
        ))
        .unwrap();

    let result = engine
        .execute("SELECT user_id, value FROM events WHERE action = 'click'")
        .unwrap();
    let (rows, schema) = expect_rows(result);

    assert_eq!(rows.len(), 2);
    assert_eq!(schema.columns.len(), 2);

    let mut user_ids: Vec<String> = rows
        .iter()
        .map(|r| r.get(0).as_str().unwrap().to_string())
        .collect();
    user_ids.sort();
    assert_eq!(user_ids, vec!["u1", "u3"]);
}

// === Scenario 2: Table aggregation ===

#[test]
fn scenario_2_table_aggregation() {
    let (_dir, broker, mut engine) = setup();
    let topic = "bdd-sales";

    produce(
        &broker,
        topic,
        &[
            r#"{"region": "east", "amount": 100}"#,
            r#"{"region": "west", "amount": 200}"#,
            r#"{"region": "east", "amount": 150}"#,
            r#"{"region": "west", "amount": 50}"#,
            r#"{"region": "east", "amount": 250}"#,
        ],
    );

    engine
        .execute(&format!(
            "CREATE TABLE sales (region VARCHAR, amount DOUBLE) \
             WITH (KAFKA_TOPIC='{topic}')"
        ))
        .unwrap();

    let plan = QueryBuilder::from_source("sales")
        .group_by(&[col("region")])
        .count_star("cnt")
        .sum(col("amount"), "total")
        .avg(col("amount"), "average")
        .build();

    let (rows, _schema) = expect_rows(engine.query(plan).unwrap());
    assert_eq!(rows.len(), 2);

    let mut results: Vec<(String, i64, f64, f64)> = rows
        .iter()
        .map(|r| {
            let region = r.get(0).as_str().unwrap().to_string();
            let cnt = r.get(1).as_i64().unwrap();
            let total = r.get(2).as_f64().map(number).unwrap();
            let avg = r.get(3).as_f64().map(number).unwrap();
            (region, cnt, total, avg)
        })
        .collect();
    results.sort_by(|a, b| a.0.cmp(&b.0));

    assert_eq!(results[0].0, "east");
    assert_eq!(results[0].1, 3);
    assert!((results[0].2 - 500.0).abs() < 0.01);
    assert!((results[0].3 - 166.666).abs() < 0.1);

    assert_eq!(results[1].0, "west");
    assert_eq!(results[1].1, 2);
    assert!((results[1].2 - 250.0).abs() < 0.01);
    assert!((results[1].3 - 125.0).abs() < 0.01);
}

// === Scenario 3: Windowed aggregation ===

#[test]
fn scenario_3_windowed_aggregation() {
    let (_dir, _broker, mut engine) = setup();

    engine
        .core
        .schemas
        .register_stream(
            "sensors",
            Schema::new(vec![
                Column::new("sensor_id", DataType::String),
                Column::new("temp", DataType::Double),
            ]),
            "bdd-sensors",
        )
        .unwrap();

    let plan = QueryBuilder::from_source("sensors")
        .group_by(&[col("sensor_id")])
        .tumbling(Duration::from_secs(60))
        .count_star("cnt")
        .avg(col("temp"), "avg_temp")
        .build();

    let mut compiled = pipeline::compile(&plan, &engine.core.schemas).unwrap();

    // Manually create timestamped rows in different windows
    let rows: Vec<Row> = [
        ("s1", 20.0, 10_000i64), // window [0, 60000)
        ("s1", 25.0, 30_000),    // window [0, 60000)
        ("s1", 30.0, 70_000),    // window [60000, 120000)
        ("s2", 15.0, 20_000),    // window [0, 60000)
    ]
    .iter()
    .map(|(sid, temp, ts)| {
        let json = format!(r#"{{"sensor_id": "{}", "temp": {}}}"#, sid, temp);
        Row::with_metadata(
            vec![Value::String(json)],
            RowMetadata {
                timestamp: Timestamp::from_timestamp_millis(*ts),
                ..Default::default()
            },
        )
    })
    .collect();

    let result = compiled.process(rows).unwrap();

    // 3 groups: (s1, window0), (s1, window1), (s2, window0)
    assert_eq!(result.len(), 3);

    // All should have window metadata
    for row in &result {
        assert!(row.metadata.window_start.is_some());
        assert!(row.metadata.window_end.is_some());
    }

    // Check s1 in first window: cnt=2, avg=22.5
    let s1_w0: Vec<&Row> = result
        .iter()
        .filter(|r| {
            r.get(0).as_str().unwrap() == "s1"
                && r.metadata.window_start.unwrap().timestamp_millis() == 0
        })
        .collect();
    assert_eq!(s1_w0.len(), 1);
    assert_eq!(s1_w0[0].get(1).as_i64().unwrap(), 2);
    assert!((s1_w0[0].get(2).as_f64().map(number).unwrap() - 22.5).abs() < 0.01);
}

// === Scenario 4: Persistent query output ===

#[test]
fn scenario_4_persistent_query_output() {
    let (_dir, broker, mut engine) = setup();
    let topic = "bdd-input";

    produce(
        &broker,
        topic,
        &[
            r#"{"status": "active", "score": 10}"#,
            r#"{"status": "inactive", "score": 20}"#,
            r#"{"status": "active", "score": 30}"#,
            r#"{"status": "inactive", "score": 40}"#,
        ],
    );

    engine
        .core
        .schemas
        .register_stream(
            "items",
            Schema::new(vec![
                Column::new("status", DataType::String),
                Column::new("score", DataType::Integer),
            ]),
            topic,
        )
        .unwrap();

    // CTAS: filter active items into output topic
    let plan = QueryBuilder::from_source("items")
        .filter(col("status").eq_expr(lit_str("active")))
        .select(&[col("status"), col("score")])
        .as_stream("active_items", "bdd-output")
        .build();

    let result = engine.query(plan).unwrap();
    match &result {
        ExecuteResult::QueryStarted { id } => {
            assert!(!id.is_empty());
        }
        _ => panic!("Expected QueryStarted"),
    }

    // Wait for processing
    engine.settle();

    // Stop the query
    engine.stop_all();

    // Read output topic
    let output = read_output(&broker, "bdd-output");
    assert_eq!(output.len(), 2);

    // Verify output is JSON objects with column names (Fix 1)
    for json_str in &output {
        let parsed: serde_json::Value = serde_json::from_str(json_str).unwrap();
        assert!(
            parsed.is_object(),
            "Expected JSON object, got: {}",
            json_str
        );
        let obj = parsed.as_object().unwrap();
        assert!(
            obj.contains_key("status"),
            "Missing 'status' key in: {}",
            json_str
        );
        assert!(
            obj.contains_key("score"),
            "Missing 'score' key in: {}",
            json_str
        );
        assert_eq!(obj["status"], "active");
    }

    // Verify scores
    let mut scores: Vec<i64> = output
        .iter()
        .map(|s| {
            let v: serde_json::Value = serde_json::from_str(s).unwrap();
            v["score"].as_i64().unwrap()
        })
        .collect();
    scores.sort();
    assert_eq!(scores, vec![10, 30]);
}

// === Scenario 5: Output is round-trippable ===

#[test]
fn scenario_5_output_is_round_trippable() {
    let (_dir, broker, mut engine) = setup();
    let input_topic = "bdd-round-in";

    produce(
        &broker,
        input_topic,
        &[
            r#"{"name": "Alice", "age": 30}"#,
            r#"{"name": "Bob", "age": 25}"#,
            r#"{"name": "Charlie", "age": 35}"#,
        ],
    );

    engine
        .core
        .schemas
        .register_stream(
            "people",
            Schema::new(vec![
                Column::new("name", DataType::String),
                Column::new("age", DataType::Integer),
            ]),
            input_topic,
        )
        .unwrap();

    // Persistent query: transform → output topic
    let plan = QueryBuilder::from_source("people")
        .select(&[col("name"), col("age")])
        .as_stream("people_out", "bdd-round-out")
        .build();

    engine.query(plan).unwrap();
    engine.settle();
    engine.stop_all();

    // Now register the output topic as a new source
    engine
        .core
        .schemas
        .register_stream(
            "people_copy",
            Schema::new(vec![
                Column::new("name", DataType::String),
                Column::new("age", DataType::Integer),
            ]),
            "bdd-round-out",
        )
        .unwrap();

    // Query the copy — proves output format is valid input
    let plan2 = QueryBuilder::from_source("people_copy")
        .filter(col("age").gt(lit_i64(28)))
        .build();

    let (rows, _) = expect_rows(engine.query(plan2).unwrap());
    assert_eq!(rows.len(), 2); // Alice(30) and Charlie(35)

    let mut names: Vec<String> = rows
        .iter()
        .map(|r| r.get(0).as_str().unwrap().to_string())
        .collect();
    names.sort();
    assert_eq!(names, vec!["Alice", "Charlie"]);
}

// === Scenario 6: Stream-table join ===

#[test]
fn scenario_6_stream_table_join() {
    let (_dir, broker, mut engine) = setup();

    // Customers table
    produce(
        &broker,
        "bdd-customers",
        &[
            r#"{"customer_id": "c1", "name": "Alice"}"#,
            r#"{"customer_id": "c2", "name": "Bob"}"#,
            r#"{"customer_id": "c3", "name": "Charlie"}"#,
        ],
    );

    // Orders stream
    produce(
        &broker,
        "bdd-orders",
        &[
            r#"{"order_id": "o1", "customer_id": "c1", "amount": 100}"#,
            r#"{"order_id": "o2", "customer_id": "c2", "amount": 200}"#,
            r#"{"order_id": "o3", "customer_id": "c1", "amount": 50}"#,
            r#"{"order_id": "o4", "customer_id": "c9", "amount": 999}"#,
        ],
    );

    engine
        .core
        .schemas
        .register_stream(
            "orders",
            Schema::new(vec![
                Column::new("order_id", DataType::String),
                Column::new("customer_id", DataType::String),
                Column::new("amount", DataType::Integer),
            ]),
            "bdd-orders",
        )
        .unwrap();

    engine
        .core
        .schemas
        .register_table(
            "customers",
            Schema::new(vec![
                Column::new("customer_id", DataType::String),
                Column::new("name", DataType::String),
            ]),
            "bdd-customers",
            "customer_id",
        )
        .unwrap();

    // Join orders with customers on customer_id (builder API)
    let plan = QueryBuilder::from_source("orders")
        .join(
            "customers",
            merksql::JoinType::Inner,
            col("customer_id").eq_expr(col("customer_id")),
        )
        .build();

    let (rows, schema) = expect_rows(engine.query(plan).unwrap());

    // c9 doesn't exist in customers → inner join should exclude it
    assert_eq!(rows.len(), 3);

    // Schema should have all columns from both sides
    assert_eq!(schema.columns.len(), 5); // order_id, customer_id, amount, customer_id, name

    // Verify enrichment: each row has a customer name
    for row in &rows {
        let name = row.get(4); // name is the last column from right side
        assert!(
            matches!(name, Value::String(_)),
            "Expected customer name, got {:?}",
            name
        );
    }

    // Verify specific joins
    let mut joined: Vec<(String, String)> = rows
        .iter()
        .map(|r| {
            let oid = r.get(0).as_str().unwrap().to_string();
            let name = r.get(4).as_str().unwrap().to_string();
            (oid, name)
        })
        .collect();
    joined.sort();
    assert_eq!(joined[0], ("o1".to_string(), "Alice".to_string()));
    assert_eq!(joined[1], ("o2".to_string(), "Bob".to_string()));
    assert_eq!(joined[2], ("o3".to_string(), "Alice".to_string()));
}

// === Scenario 7: SQL/builder parity ===

#[test]
fn scenario_7_sql_builder_parity() {
    let (_dir, broker, mut engine) = setup();
    let topic = "bdd-parity";

    produce(
        &broker,
        topic,
        &[
            r#"{"category": "A", "val": 10}"#,
            r#"{"category": "B", "val": 20}"#,
            r#"{"category": "A", "val": 30}"#,
            r#"{"category": "B", "val": 40}"#,
        ],
    );

    engine
        .execute(&format!(
            "CREATE TABLE data (category VARCHAR, val INTEGER) \
             WITH (KAFKA_TOPIC='{topic}')"
        ))
        .unwrap();

    // SQL query
    let (sql_rows, _) = expect_rows(
        engine
            .execute("SELECT category, val FROM data WHERE val > 15")
            .unwrap(),
    );

    // Builder query
    let plan = QueryBuilder::from_source("data")
        .filter(col("val").gt(lit_i64(15)))
        .select(&[col("category"), col("val")])
        .build();
    let (builder_rows, _) = expect_rows(engine.query(plan).unwrap());

    assert_eq!(sql_rows.len(), builder_rows.len());
    assert_eq!(sql_rows.len(), 3); // val=20, val=30, val=40

    // Both should return the same values
    let mut sql_vals: Vec<(String, i64)> = sql_rows
        .iter()
        .map(|r| {
            (
                r.get(0).as_str().unwrap().to_string(),
                r.get(1).as_i64().unwrap(),
            )
        })
        .collect();
    let mut builder_vals: Vec<(String, i64)> = builder_rows
        .iter()
        .map(|r| {
            (
                r.get(0).as_str().unwrap().to_string(),
                r.get(1).as_i64().unwrap(),
            )
        })
        .collect();
    sql_vals.sort();
    builder_vals.sort();
    assert_eq!(sql_vals, builder_vals);
}

// === Scenario 8: Multi-batch aggregation ===

#[test]
fn scenario_8_multi_batch_aggregation() {
    let (_dir, broker, mut engine) = setup();
    let topic = "bdd-multibatch";

    // Batch 1
    produce(
        &broker,
        topic,
        &[
            r#"{"dept": "eng", "salary": 100}"#,
            r#"{"dept": "sales", "salary": 80}"#,
            r#"{"dept": "eng", "salary": 120}"#,
        ],
    );

    engine
        .core
        .schemas
        .register_stream(
            "employees",
            Schema::new(vec![
                Column::new("dept", DataType::String),
                Column::new("salary", DataType::Double),
            ]),
            topic,
        )
        .unwrap();

    // Query after batch 1
    let plan = QueryBuilder::from_source("employees")
        .group_by(&[col("dept")])
        .count_star("cnt")
        .sum(col("salary"), "total")
        .build();
    let (rows1, _) = expect_rows(engine.query(plan).unwrap());

    let mut r1: Vec<(String, i64, f64)> = rows1
        .iter()
        .map(|r| {
            (
                r.get(0).as_str().unwrap().to_string(),
                r.get(1).as_i64().unwrap(),
                r.get(2).as_f64().map(number).unwrap(),
            )
        })
        .collect();
    r1.sort_by(|a, b| a.0.cmp(&b.0));
    assert_eq!(r1[0], ("eng".to_string(), 2, 220.0));
    assert_eq!(r1[1], ("sales".to_string(), 1, 80.0));

    // Batch 2
    produce(
        &broker,
        topic,
        &[
            r#"{"dept": "eng", "salary": 130}"#,
            r#"{"dept": "sales", "salary": 90}"#,
        ],
    );

    // Query after batch 2 — should see ALL data (pull query re-reads from beginning)
    let plan2 = QueryBuilder::from_source("employees")
        .group_by(&[col("dept")])
        .count_star("cnt")
        .sum(col("salary"), "total")
        .build();
    let (rows2, _) = expect_rows(engine.query(plan2).unwrap());

    let mut r2: Vec<(String, i64, f64)> = rows2
        .iter()
        .map(|r| {
            (
                r.get(0).as_str().unwrap().to_string(),
                r.get(1).as_i64().unwrap(),
                r.get(2).as_f64().map(number).unwrap(),
            )
        })
        .collect();
    r2.sort_by(|a, b| a.0.cmp(&b.0));
    assert_eq!(r2[0], ("eng".to_string(), 3, 350.0));
    assert_eq!(r2[1], ("sales".to_string(), 2, 170.0));
}

// === Scenario 9: Null handling ===

#[test]
fn scenario_9_null_handling() {
    let (_dir, broker, mut engine) = setup();
    let topic = "bdd-nulls";

    produce(
        &broker,
        topic,
        &[
            r#"{"name": "Alice", "score": 90}"#,
            r#"{"name": "Bob"}"#,
            r#"{"name": null, "score": 70}"#,
            r#"{"name": "Diana", "score": 85}"#,
        ],
    );

    engine
        .core
        .schemas
        .register_stream(
            "results",
            Schema::new(vec![
                Column::new("name", DataType::String),
                Column::new("score", DataType::Integer),
            ]),
            topic,
        )
        .unwrap();

    // Filter: score IS NOT NULL
    let plan = QueryBuilder::from_source("results")
        .filter(col("score").is_not_null())
        .build();
    let (rows, _) = expect_rows(engine.query(plan).unwrap());
    assert_eq!(rows.len(), 3); // Alice, null-name, Diana

    // COALESCE on name
    let coalesce = merksql::Expr::Function {
        name: "COALESCE".to_string(),
        args: vec![col("name"), lit_str("Unknown")],
    };
    let plan2 = QueryBuilder::from_source("results")
        .filter(col("score").is_not_null())
        .select(&[coalesce.alias("display_name"), col("score")])
        .build();
    let (rows2, _) = expect_rows(engine.query(plan2).unwrap());
    assert_eq!(rows2.len(), 3);

    let mut names: Vec<String> = rows2
        .iter()
        .map(|r| r.get(0).as_str().unwrap().to_string())
        .collect();
    names.sort();
    assert_eq!(names, vec!["Alice", "Diana", "Unknown"]);

    // Aggregate with nulls: COUNT(score) should skip nulls, COUNT(*) should count all
    let plan3 = QueryBuilder::from_source("results")
        .group_by(&[])
        .count_star("total_rows")
        .count(col("score"), "scores_present")
        .build();
    let (rows3, _) = expect_rows(engine.query(plan3).unwrap());
    assert_eq!(rows3.len(), 1);
    assert_eq!(rows3[0].get(0).as_i64().unwrap(), 4); // COUNT(*)
    assert_eq!(rows3[0].get(1).as_i64().unwrap(), 3); // COUNT(score) — Bob has no score
}

// === Scenario 10: Complex expressions ===

#[test]
fn scenario_10_complex_expressions() {
    let (_dir, broker, mut engine) = setup();
    let topic = "bdd-expr";

    produce(
        &broker,
        topic,
        &[
            r#"{"product": "Widget A", "price": 15, "qty": 3}"#,
            r#"{"product": "Gadget Pro", "price": 150, "qty": 1}"#,
            r#"{"product": "Basic Widget", "price": 5, "qty": 10}"#,
            r#"{"product": "Premium Gadget", "price": 500, "qty": 2}"#,
        ],
    );

    engine
        .core
        .schemas
        .register_stream(
            "products",
            Schema::new(vec![
                Column::new("product", DataType::String),
                Column::new("price", DataType::Integer),
                Column::new("qty", DataType::Integer),
            ]),
            topic,
        )
        .unwrap();

    // CASE WHEN expression
    let tier = merksql::Expr::Case {
        operand: None,
        conditions: vec![
            (col("price").gt(lit_i64(100)), lit_str("premium")),
            (col("price").gt(lit_i64(10)), lit_str("standard")),
        ],
        else_result: Some(Box::new(lit_str("budget"))),
    };

    let plan = QueryBuilder::from_source("products")
        .select(&[col("product"), tier.alias("tier")])
        .build();
    let (rows, _) = expect_rows(engine.query(plan).unwrap());

    let mut results: Vec<(String, String)> = rows
        .iter()
        .map(|r| {
            (
                r.get(0).as_str().unwrap().to_string(),
                r.get(1).as_str().unwrap().to_string(),
            )
        })
        .collect();
    results.sort();
    assert_eq!(
        results[0],
        ("Basic Widget".to_string(), "budget".to_string())
    );
    assert_eq!(
        results[1],
        ("Gadget Pro".to_string(), "premium".to_string())
    );
    assert_eq!(
        results[2],
        ("Premium Gadget".to_string(), "premium".to_string())
    );
    assert_eq!(results[3], ("Widget A".to_string(), "standard".to_string()));

    // LIKE pattern
    let like = merksql::Expr::Like {
        expr: Box::new(col("product")),
        pattern: "%Widget%".to_string(),
        negated: false,
    };
    let plan2 = QueryBuilder::from_source("products")
        .filter(like)
        .select(&[col("product")])
        .build();
    let (rows2, _) = expect_rows(engine.query(plan2).unwrap());
    assert_eq!(rows2.len(), 2);

    let mut widget_names: Vec<String> = rows2
        .iter()
        .map(|r| r.get(0).as_str().unwrap().to_string())
        .collect();
    widget_names.sort();
    assert_eq!(widget_names, vec!["Basic Widget", "Widget A"]);

    // BETWEEN
    let between = merksql::Expr::Between {
        expr: Box::new(col("price")),
        low: Box::new(lit_i64(10)),
        high: Box::new(lit_i64(200)),
        negated: false,
    };
    let plan3 = QueryBuilder::from_source("products")
        .filter(between)
        .select(&[col("product"), col("price")])
        .build();
    let (rows3, _) = expect_rows(engine.query(plan3).unwrap());
    assert_eq!(rows3.len(), 2); // Widget A (15) and Gadget Pro (150)

    // CAST
    let cast_expr = merksql::Expr::Cast {
        expr: Box::new(col("price")),
        data_type: DataType::Double,
    };
    let plan4 = QueryBuilder::from_source("products")
        .select(&[col("product"), cast_expr.alias("price_d")])
        .build();
    let (rows4, _) = expect_rows(engine.query(plan4).unwrap());
    assert_eq!(rows4.len(), 4);
    // All price_d should be doubles
    for row in &rows4 {
        assert!(
            matches!(row.get(1), Value::Double(_)),
            "Expected Double, got {:?}",
            row.get(1)
        );
    }
}

// === Scenario 11: HAVING ===

#[test]
fn scenario_11_having() {
    let (_dir, broker, mut engine) = setup();
    let topic = "bdd-having";

    produce(
        &broker,
        topic,
        &[
            r#"{"city": "NYC", "temp": 30}"#,
            r#"{"city": "NYC", "temp": 32}"#,
            r#"{"city": "NYC", "temp": 28}"#,
            r#"{"city": "LA", "temp": 75}"#,
            r#"{"city": "LA", "temp": 80}"#,
            r#"{"city": "CHI", "temp": 10}"#,
        ],
    );

    engine
        .core
        .schemas
        .register_stream(
            "weather",
            Schema::new(vec![
                Column::new("city", DataType::String),
                Column::new("temp", DataType::Double),
            ]),
            topic,
        )
        .unwrap();

    // GROUP BY city, AVG(temp), HAVING AVG(temp) > 25
    let plan = QueryBuilder::from_source("weather")
        .group_by(&[col("city")])
        .avg(col("temp"), "avg_temp")
        .having(col("avg_temp").gt(lit_f64(double(25.0))))
        .build();

    let (rows, _) = expect_rows(engine.query(plan).unwrap());

    // NYC avg=30, LA avg=77.5, CHI avg=10 → only NYC and LA pass HAVING
    assert_eq!(rows.len(), 2);

    let mut cities: Vec<String> = rows
        .iter()
        .map(|r| r.get(0).as_str().unwrap().to_string())
        .collect();
    cities.sort();
    assert_eq!(cities, vec!["LA", "NYC"]);
}

// === COLLECT_LIST / COLLECT_SET / TOPK Tests ===

#[test]
fn collect_list_aggregation() {
    let dir = tempfile::tempdir().unwrap();
    let _broker = setup_broker(&dir);

    let mut registry = SchemaRegistry::new();
    registry
        .register_stream(
            "events",
            Schema::new(vec![
                Column::new("category", DataType::String),
                Column::new("item", DataType::String),
            ]),
            "test-topic",
        )
        .unwrap();

    let plan = QueryBuilder::from_source("events")
        .group_by(&[col("category")])
        .collect_list(col("item"), "items")
        .build();

    let mut pipeline = pipeline::compile(&plan, &registry).unwrap();

    let rows: Vec<Row> = [
        (r#"{"category": "fruit", "item": "apple"}"#),
        (r#"{"category": "fruit", "item": "banana"}"#),
        (r#"{"category": "fruit", "item": "apple"}"#), // duplicate
        (r#"{"category": "veggie", "item": "carrot"}"#),
    ]
    .iter()
    .map(|json| Row::new(vec![Value::String(json.to_string())]))
    .collect();

    let result = pipeline.process(rows).unwrap();

    let mut results: Vec<(String, Vec<String>)> = result
        .iter()
        .map(|r| {
            let cat = r.get(0).as_str().unwrap().to_string();
            let items = match r.get(1) {
                Value::Array(arr) => arr
                    .iter()
                    .map(|v| v.as_str().unwrap().to_string())
                    .collect(),
                _ => panic!("Expected array"),
            };
            (cat, items)
        })
        .collect();
    results.sort_by(|a, b| a.0.cmp(&b.0));

    // collect_list keeps duplicates
    assert_eq!(results[0].0, "fruit");
    assert_eq!(results[0].1.len(), 3); // apple, banana, apple
    assert_eq!(results[1].0, "veggie");
    assert_eq!(results[1].1.len(), 1);
}

#[test]
fn collect_set_aggregation() {
    let dir = tempfile::tempdir().unwrap();
    let _broker = setup_broker(&dir);

    let mut registry = SchemaRegistry::new();
    registry
        .register_stream(
            "events",
            Schema::new(vec![
                Column::new("category", DataType::String),
                Column::new("item", DataType::String),
            ]),
            "test-topic",
        )
        .unwrap();

    let plan = QueryBuilder::from_source("events")
        .group_by(&[col("category")])
        .collect_set(col("item"), "unique_items")
        .build();

    let mut pipeline = pipeline::compile(&plan, &registry).unwrap();

    let rows: Vec<Row> = [
        r#"{"category": "fruit", "item": "apple"}"#,
        r#"{"category": "fruit", "item": "banana"}"#,
        r#"{"category": "fruit", "item": "apple"}"#, // duplicate
    ]
    .iter()
    .map(|json| Row::new(vec![Value::String(json.to_string())]))
    .collect();

    let result = pipeline.process(rows).unwrap();
    assert_eq!(result.len(), 1);

    let items = match result[0].get(1) {
        Value::Array(arr) => arr.clone(),
        _ => panic!("Expected array"),
    };
    // collect_set deduplicates
    assert_eq!(items.len(), 2);
}

#[test]
fn topk_aggregation() {
    let dir = tempfile::tempdir().unwrap();
    let _broker = setup_broker(&dir);

    let mut registry = SchemaRegistry::new();
    registry
        .register_stream(
            "events",
            Schema::new(vec![
                Column::new("category", DataType::String),
                Column::new("score", DataType::Double),
            ]),
            "test-topic",
        )
        .unwrap();

    let plan = QueryBuilder::from_source("events")
        .group_by(&[col("category")])
        .topk(2, col("score"), "top_scores")
        .build();

    let mut pipeline = pipeline::compile(&plan, &registry).unwrap();

    let rows: Vec<Row> = [
        r#"{"category": "game", "score": 10}"#,
        r#"{"category": "game", "score": 50}"#,
        r#"{"category": "game", "score": 30}"#,
        r#"{"category": "game", "score": 20}"#,
    ]
    .iter()
    .map(|json| Row::new(vec![Value::String(json.to_string())]))
    .collect();

    let result = pipeline.process(rows).unwrap();
    assert_eq!(result.len(), 1);

    let scores = match result[0].get(1) {
        Value::Array(arr) => arr.clone(),
        _ => panic!("Expected array"),
    };
    // topk(2) keeps 2 highest
    assert_eq!(scores.len(), 2);
    // Should be sorted descending: 50, 30
    assert_eq!(scores[0].as_f64().map(number).unwrap() as i64, 50);
    assert_eq!(scores[1].as_f64().map(number).unwrap() as i64, 30);
}

// === WINDOWSTART/WINDOWEND in SELECT ===

#[test]
fn windowstart_windowend_in_select() {
    let dir = tempfile::tempdir().unwrap();
    let _broker = setup_broker(&dir);

    let mut registry = SchemaRegistry::new();
    registry
        .register_stream(
            "events",
            Schema::new(vec![
                Column::new("sensor_id", DataType::String),
                Column::new("value", DataType::Double),
            ]),
            "test-topic",
        )
        .unwrap();

    // Build windowed aggregation
    let plan = QueryBuilder::from_source("events")
        .group_by(&[col("sensor_id")])
        .tumbling(Duration::from_secs(10))
        .count_star("cnt")
        .build();

    let mut pipeline = pipeline::compile(&plan, &registry).unwrap();

    let rows: Vec<Row> = vec![
        Row::with_metadata(
            vec![Value::String(r#"{"sensor_id": "s1", "value": 10}"#.into())],
            RowMetadata {
                timestamp: Timestamp::from_timestamp_millis(3000),
                ..Default::default()
            },
        ),
        Row::with_metadata(
            vec![Value::String(r#"{"sensor_id": "s1", "value": 20}"#.into())],
            RowMetadata {
                timestamp: Timestamp::from_timestamp_millis(7000),
                ..Default::default()
            },
        ),
    ];

    let result = pipeline.process(rows).unwrap();
    assert_eq!(result.len(), 1);

    // Window metadata should be set
    let row = &result[0];
    assert!(row.metadata.window_start.is_some());
    assert!(row.metadata.window_end.is_some());
    assert_eq!(row.metadata.window_start.unwrap().timestamp_millis(), 0);
    assert_eq!(row.metadata.window_end.unwrap().timestamp_millis(), 10000);

    // The WINDOWSTART and WINDOWEND pseudo-columns should be evaluable
    let ws = merksql::expr::eval(&col("WINDOWSTART"), row, &pipeline.output_schema).unwrap();
    let we = merksql::expr::eval(&col("WINDOWEND"), row, &pipeline.output_schema).unwrap();

    assert!(matches!(ws, Value::Timestamp(_)));
    assert!(matches!(we, Value::Timestamp(_)));
}

// === COUNT DISTINCT ===

#[test]
fn count_distinct() {
    let dir = tempfile::tempdir().unwrap();
    let _broker = setup_broker(&dir);

    let mut registry = SchemaRegistry::new();
    registry
        .register_stream(
            "events",
            Schema::new(vec![
                Column::new("category", DataType::String),
                Column::new("user_id", DataType::String),
            ]),
            "test-topic",
        )
        .unwrap();

    let plan = QueryBuilder::from_source("events")
        .group_by(&[col("category")])
        .count_distinct(col("user_id"), "unique_users")
        .build();

    let mut pipeline = pipeline::compile(&plan, &registry).unwrap();

    let rows: Vec<Row> = [
        r#"{"category": "sports", "user_id": "u1"}"#,
        r#"{"category": "sports", "user_id": "u2"}"#,
        r#"{"category": "sports", "user_id": "u1"}"#, // duplicate
        r#"{"category": "sports", "user_id": "u3"}"#,
    ]
    .iter()
    .map(|json| Row::new(vec![Value::String(json.to_string())]))
    .collect();

    let result = pipeline.process(rows).unwrap();
    assert_eq!(result.len(), 1);
    assert_eq!(result[0].get(1).as_i64().unwrap(), 3); // 3 unique users
}

// === Complex Expression Tests ===

#[test]
fn case_when_in_filter() {
    let dir = tempfile::tempdir().unwrap();
    let _broker = setup_broker(&dir);

    let mut registry = SchemaRegistry::new();
    registry
        .register_stream(
            "events",
            Schema::new(vec![
                Column::new("status", DataType::String),
                Column::new("value", DataType::Double),
            ]),
            "test-topic",
        )
        .unwrap();

    // Filter using CASE expression: only keep rows where status maps to "active"
    let case_expr = merksql::expr::Expr::Case {
        operand: None,
        conditions: vec![(
            merksql::expr::Expr::BinaryOp {
                left: Box::new(col("status")),
                op: merksql::expr::BinaryOp::Eq,
                right: Box::new(lit_str("active")),
            },
            lit_bool(true),
        )],
        else_result: Some(Box::new(lit_bool(false))),
    };

    let plan = QueryBuilder::from_source("events")
        .filter(case_expr)
        .build();

    let mut pipeline = pipeline::compile(&plan, &registry).unwrap();

    let rows: Vec<Row> = [
        r#"{"status": "active", "value": 10}"#,
        r#"{"status": "inactive", "value": 20}"#,
        r#"{"status": "active", "value": 30}"#,
    ]
    .iter()
    .map(|json| Row::new(vec![Value::String(json.to_string())]))
    .collect();

    let result = pipeline.process(rows).unwrap();
    assert_eq!(result.len(), 2);
}

// === Full E2E Scenario ===

#[test]
fn full_e2e_sql_create_and_query() {
    let dir = tempfile::tempdir().unwrap();
    let broker = setup_broker(&dir);
    let topic = "e2e-readings";

    // Produce data
    let producer = Broker::producer(&broker);
    producer
        .send(&ProducerRecord::new(
            topic,
            None,
            r#"{"sensor_id": "s1", "temp": 22.5, "humidity": 45}"#,
        ))
        .unwrap();
    producer
        .send(&ProducerRecord::new(
            topic,
            None,
            r#"{"sensor_id": "s1", "temp": 25.0, "humidity": 50}"#,
        ))
        .unwrap();
    producer
        .send(&ProducerRecord::new(
            topic,
            None,
            r#"{"sensor_id": "s2", "temp": 30.0, "humidity": 60}"#,
        ))
        .unwrap();
    producer
        .send(&ProducerRecord::new(
            topic,
            None,
            r#"{"sensor_id": "s1", "temp": 28.0, "humidity": 55}"#,
        ))
        .unwrap();

    let mut engine = Engine::new(broker);

    // Create source via SQL
    engine
        .execute(&format!(
            "CREATE TABLE readings (sensor_id VARCHAR, temp DOUBLE, humidity INTEGER) WITH (KAFKA_TOPIC='{}')",
            topic
        ))
        .unwrap();

    // Query with filter
    let result = engine
        .execute("SELECT sensor_id, temp FROM readings WHERE temp > 24.0")
        .unwrap();
    match result {
        ExecuteResult::Rows { rows, .. } => {
            assert_eq!(rows.len(), 3); // s1@25, s2@30, s1@28
        }
        _ => panic!("Expected Rows"),
    }

    // Query with aggregate via builder
    let plan = QueryBuilder::from_source("readings")
        .group_by(&[col("sensor_id")])
        .count_star("cnt")
        .avg(col("temp"), "avg_temp")
        .build();

    let result = engine.query(plan).unwrap();
    match result {
        ExecuteResult::Rows { rows, .. } => {
            assert_eq!(rows.len(), 2); // s1 and s2

            let mut results: Vec<(String, i64, f64)> = rows
                .iter()
                .map(|r| {
                    let sid = r.get(0).as_str().unwrap().to_string();
                    let cnt = r.get(1).as_i64().unwrap();
                    let avg = r.get(2).as_f64().map(number).unwrap();
                    (sid, cnt, avg)
                })
                .collect();
            results.sort_by(|a, b| a.0.cmp(&b.0));

            assert_eq!(results[0].0, "s1");
            assert_eq!(results[0].1, 3);
            assert!((results[0].2 - 25.166).abs() < 0.1); // avg(22.5, 25, 28) = 25.166

            assert_eq!(results[1].0, "s2");
            assert_eq!(results[1].1, 1);
            assert!((results[1].2 - 30.0).abs() < 0.01);
        }
        _ => panic!("Expected Rows"),
    }
}

#[test]
fn e2e_builder_filter_aggregate_having() {
    let dir = tempfile::tempdir().unwrap();
    let broker = setup_broker(&dir);
    let topic = "e2e-having";

    let producer = Broker::producer(&broker);
    for (sensor, temp) in &[
        ("s1", 10.0),
        ("s1", 20.0),
        ("s1", 30.0),
        ("s2", 100.0),
        ("s2", 200.0),
        ("s3", 5.0),
    ] {
        producer
            .send(&ProducerRecord::new(
                topic,
                None,
                &format!(r#"{{"sensor_id": "{}", "temp": {}}}"#, sensor, temp),
            ))
            .unwrap();
    }

    let mut engine = Engine::new(broker);
    engine
        .core
        .schemas
        .register_stream(
            "readings",
            Schema::new(vec![
                Column::new("sensor_id", DataType::String),
                Column::new("temp", DataType::Double),
            ]),
            topic,
        )
        .unwrap();

    // GROUP BY sensor_id, SUM(temp), HAVING SUM(temp) > 50
    let plan = QueryBuilder::from_source("readings")
        .group_by(&[col("sensor_id")])
        .sum(col("temp"), "total_temp")
        .having(col("total_temp").gt(lit_f64(double(50.0))))
        .build();

    let result = engine.query(plan).unwrap();
    match result {
        ExecuteResult::Rows { rows, .. } => {
            // s1: sum=60 > 50 ✓, s2: sum=300 > 50 ✓, s3: sum=5 ✗
            assert_eq!(rows.len(), 2);

            let mut sids: Vec<String> = rows
                .iter()
                .map(|r| r.get(0).as_str().unwrap().to_string())
                .collect();
            sids.sort();
            assert_eq!(sids, vec!["s1", "s2"]);
        }
        _ => panic!("Expected Rows"),
    }
}

#[test]
fn e2e_like_and_between() {
    let dir = tempfile::tempdir().unwrap();
    let broker = setup_broker(&dir);
    let topic = "e2e-like";

    let producer = Broker::producer(&broker);
    for name in &["Alice", "Bob", "Albert", "Charlie", "Anna"] {
        producer
            .send(&ProducerRecord::new(
                topic,
                None,
                &format!(r#"{{"name": "{}", "age": 30}}"#, name),
            ))
            .unwrap();
    }

    let mut engine = Engine::new(broker);
    engine
        .core
        .schemas
        .register_stream(
            "people",
            Schema::new(vec![
                Column::new("name", DataType::String),
                Column::new("age", DataType::Integer),
            ]),
            topic,
        )
        .unwrap();

    // Filter with LIKE pattern
    let like_expr = merksql::expr::Expr::Like {
        expr: Box::new(col("name")),
        pattern: "Al%".to_string(),
        negated: false,
    };

    let plan = QueryBuilder::from_source("people")
        .filter(like_expr)
        .select(&[col("name")])
        .build();

    let result = engine.query(plan).unwrap();
    match result {
        ExecuteResult::Rows { rows, .. } => {
            assert_eq!(rows.len(), 2); // Alice and Albert
            let mut names: Vec<String> = rows
                .iter()
                .map(|r| r.get(0).as_str().unwrap().to_string())
                .collect();
            names.sort();
            assert_eq!(names, vec!["Albert", "Alice"]);
        }
        _ => panic!("Expected Rows"),
    }
}

#[test]
fn persistent_query_processes_records() {
    let dir = tempfile::tempdir().unwrap();
    let broker = setup_broker(&dir);
    let input_topic = "persistent-input";
    let output_topic = "persistent-output";

    // Produce records BEFORE starting the query
    let producer = Broker::producer(&broker);
    producer
        .send(&ProducerRecord::new(
            input_topic,
            None,
            r#"{"sensor_id": "s1", "temp": 22.5, "humidity": 45}"#,
        ))
        .unwrap();
    producer
        .send(&ProducerRecord::new(
            input_topic,
            None,
            r#"{"sensor_id": "s2", "temp": 105.3, "humidity": 80}"#,
        ))
        .unwrap();
    producer
        .send(&ProducerRecord::new(
            input_topic,
            None,
            r#"{"sensor_id": "s3", "temp": 110.0, "humidity": 90}"#,
        ))
        .unwrap();

    let registry = create_registry(input_topic);

    // Create a persistent query: filter temp > 100
    let plan = QueryBuilder::from_source("readings")
        .filter(col("temp").gt(lit_f64(double(100.0))))
        .select(&[col("sensor_id"), col("temp")])
        .as_stream("high_temps", output_topic)
        .build();

    let (mut query, state) = PersistentQuery::start(
        "test-q1".to_string(),
        plan,
        output_topic.to_string(),
        &registry,
    )
    .unwrap();
    let mut run = Run::new(&broker, state);

    assert_eq!(query.status(), QueryStatus::Running);

    // Wait for processing
    run.settle();

    // Stop the query
    let well = run.stop();
    query.finish(well);
    query.stop();
    assert_ne!(query.status(), QueryStatus::Running);

    // Read output topic
    let output = read_output_topic(&broker, output_topic);
    // Should have 2 records (temp > 100: s2 and s3)
    assert_eq!(output.len(), 2);
}

#[test]
fn persistent_query_terminate() {
    let dir = tempfile::tempdir().unwrap();
    let broker = setup_broker(&dir);
    let input_topic = "term-input";
    let output_topic = "term-output";

    let registry = create_registry(input_topic);
    broker.ensure_topic(input_topic).unwrap();

    let plan = QueryBuilder::from_source("readings")
        .as_stream("out", output_topic)
        .build();

    let (mut query, state) = PersistentQuery::start(
        "test-q2".to_string(),
        plan,
        output_topic.to_string(),
        &registry,
    )
    .unwrap();
    let mut run = Run::new(&broker, state);

    assert_eq!(query.status(), QueryStatus::Running);

    // Terminate immediately
    run.stop();
    query.terminate();
    assert_eq!(query.status(), QueryStatus::Terminated);
}

#[test]
fn query_registry_lifecycle() {
    let dir = tempfile::tempdir().unwrap();
    let broker = setup_broker(&dir);
    let input_topic = "reg-input";
    let output_topic = "reg-output";

    let registry = create_registry(input_topic);
    broker.ensure_topic(input_topic).unwrap();

    let mut query_reg = QueryRegistry::new();

    let plan = QueryBuilder::from_source("readings")
        .as_stream("out", output_topic)
        .build();

    let (id, _run) = query_reg
        .start_query(plan, output_topic.to_string(), &registry)
        .unwrap();

    assert_eq!(id, "q1");
    assert_eq!(query_reg.len(), 1);

    let status = query_reg.status(&id).unwrap();
    assert_eq!(status, QueryStatus::Running);

    let listing = query_reg.list();
    assert_eq!(listing.len(), 1);
    assert_eq!(listing[0].0, "q1");

    // Stop
    query_reg.stop(&id).unwrap();
    let status = query_reg.status(&id).unwrap();
    assert_ne!(status, QueryStatus::Running);

    // Unknown query
    assert!(query_reg.status("nonexistent").is_none());
    assert!(query_reg.stop("nonexistent").is_err());
}

#[test]
fn query_registry_multiple_queries() {
    let dir = tempfile::tempdir().unwrap();
    let broker = setup_broker(&dir);
    let input_topic = "multi-input";

    let registry = create_registry(input_topic);
    broker.ensure_topic(input_topic).unwrap();

    let mut query_reg = QueryRegistry::new();

    let plan1 = QueryBuilder::from_source("readings")
        .as_stream("out1", "output1")
        .build();
    let plan2 = QueryBuilder::from_source("readings")
        .as_stream("out2", "output2")
        .build();

    let (id1, _run1) = query_reg
        .start_query(plan1, "output1".to_string(), &registry)
        .unwrap();
    let (id2, _run2) = query_reg
        .start_query(plan2, "output2".to_string(), &registry)
        .unwrap();

    assert_eq!(id1, "q1");
    assert_eq!(id2, "q2");
    assert_eq!(query_reg.len(), 2);

    // Stop all
    query_reg.stop_all();
    assert_ne!(query_reg.status(&id1).unwrap(), QueryStatus::Running);
    assert_ne!(query_reg.status(&id2).unwrap(), QueryStatus::Running);
}

#[test]
fn merksql_execute_ddl() {
    let dir = tempfile::tempdir().unwrap();
    let broker = setup_broker(&dir);
    let mut engine = Engine::new(broker);

    let result = engine.execute(
        "CREATE TABLE readings (sensor_id VARCHAR, temp DOUBLE) WITH (KAFKA_TOPIC='readings-topic')"
    ).unwrap();

    match result {
        ExecuteResult::SourceCreated { name } => {
            assert_eq!(name, "readings");
        }
        _ => panic!("Expected SourceCreated"),
    }

    assert!(engine.core.schemas.get("readings").is_some());
}

#[test]
fn merksql_execute_pull_query() {
    let dir = tempfile::tempdir().unwrap();
    let broker = setup_broker(&dir);
    let topic = "merksql-pull";

    let producer = Broker::producer(&broker);
    producer
        .send(&ProducerRecord::new(
            topic,
            None,
            r#"{"sensor_id": "s1", "temp": 22.5}"#,
        ))
        .unwrap();
    producer
        .send(&ProducerRecord::new(
            topic,
            None,
            r#"{"sensor_id": "s2", "temp": 105.0}"#,
        ))
        .unwrap();

    let mut engine = Engine::new(broker);
    engine
        .execute(&format!(
            "CREATE TABLE readings (sensor_id VARCHAR, temp DOUBLE) WITH (KAFKA_TOPIC='{}')",
            topic
        ))
        .unwrap();

    let result = engine
        .execute("SELECT sensor_id, temp FROM readings WHERE temp > 100.0")
        .unwrap();
    match result {
        ExecuteResult::Rows { rows, schema } => {
            assert_eq!(rows.len(), 1);
            assert_eq!(rows[0].get(0), &Value::String("s2".to_string()));
            assert_eq!(schema.len(), 2);
        }
        _ => panic!("Expected Rows"),
    }
}

#[test]
fn merksql_execute_persistent_query() {
    let dir = tempfile::tempdir().unwrap();
    let broker = setup_broker(&dir);
    let input_topic = "merksql-input";
    let output_topic = "merksql-output";

    let producer = Broker::producer(&broker);
    producer
        .send(&ProducerRecord::new(
            input_topic,
            None,
            r#"{"sensor_id": "s1", "temp": 150.0}"#,
        ))
        .unwrap();

    let mut engine = Engine::new(broker.clone());
    engine
        .execute(&format!(
            "CREATE TABLE readings (sensor_id VARCHAR, temp DOUBLE) WITH (KAFKA_TOPIC='{}')",
            input_topic
        ))
        .unwrap();

    let result = engine.execute(
        &format!("CREATE TABLE high_temps WITH (KAFKA_TOPIC='{}') AS SELECT sensor_id, temp FROM readings WHERE temp > 100.0", output_topic)
    ).unwrap();

    match result {
        ExecuteResult::QueryStarted { id } => {
            assert_eq!(id, "q1");

            // Wait for processing
            engine.settle();

            // Verify query is tracked
            let status = engine.core.queries.status(&id).unwrap();
            assert_eq!(status, QueryStatus::Running);

            // Stop it
            engine.stop_all();
            engine.core.queries.stop(&id).unwrap();
        }
        _ => panic!("Expected QueryStarted"),
    }

    // Verify output exists
    let output = read_output_topic(&broker, output_topic);
    assert_eq!(output.len(), 1);
}

#[test]
fn merksql_builder_api() {
    let dir = tempfile::tempdir().unwrap();
    let broker = setup_broker(&dir);
    let topic = "builder-pull";

    let producer = Broker::producer(&broker);
    producer
        .send(&ProducerRecord::new(topic, None, r#"{"x": 10, "y": 20}"#))
        .unwrap();
    producer
        .send(&ProducerRecord::new(topic, None, r#"{"x": 30, "y": 40}"#))
        .unwrap();

    let mut engine = Engine::new(broker);
    engine
        .core
        .schemas
        .register_stream(
            "data",
            Schema::new(vec![
                Column::new("x", DataType::Integer),
                Column::new("y", DataType::Integer),
            ]),
            topic,
        )
        .unwrap();

    let plan = QueryBuilder::from_source("data")
        .filter(col("x").gt(lit_i64(15)))
        .select(&[col("x"), col("y")])
        .build();

    let result = engine.query(plan).unwrap();
    match result {
        ExecuteResult::Rows { rows, .. } => {
            assert_eq!(rows.len(), 1);
            assert_eq!(rows[0].get(0), &Value::Integer(30));
            assert_eq!(rows[0].get(1), &Value::Integer(40));
        }
        _ => panic!("Expected Rows"),
    }
}

fn produce_events(broker: &merkql::broker::BrokerRef, topic: &str) {
    let producer = Broker::producer(broker);
    let events = vec![
        r#"{"user_id": "u1", "action": "click", "value": 1}"#,
        r#"{"user_id": "u2", "action": "view", "value": 5}"#,
        r#"{"user_id": "u1", "action": "purchase", "value": 100}"#,
        r#"{"user_id": "u3", "action": "click", "value": 1}"#,
        r#"{"user_id": "u2", "action": "purchase", "value": 50}"#,
        r#"{"user_id": "u1", "action": "click", "value": 1}"#,
    ];
    for event in events {
        producer
            .send(&ProducerRecord::new(topic, None, event))
            .unwrap();
    }
}

#[test]
fn pull_query_scan() {
    let dir = tempfile::tempdir().unwrap();
    let broker = setup_broker(&dir);
    let topic = "test-pull-scan";
    produce_events(&broker, topic);

    let registry = events_registry(topic);
    let plan = QueryBuilder::from_source("events").build();
    let result = pull_query(&broker, &plan, &registry).unwrap();

    assert_eq!(result.len(), 6);
}

#[test]
fn pull_query_filter() {
    let dir = tempfile::tempdir().unwrap();
    let broker = setup_broker(&dir);
    let topic = "test-pull-filter";
    produce_events(&broker, topic);

    let registry = events_registry(topic);
    let plan = QueryBuilder::from_source("events")
        .filter(col("action").eq_expr(lit_str("purchase")))
        .build();
    let result = pull_query(&broker, &plan, &registry).unwrap();

    assert_eq!(result.len(), 2);
    for row in &result {
        assert_eq!(row.get(1), &Value::String("purchase".to_string()));
    }
}

#[test]
fn pull_query_aggregate() {
    let dir = tempfile::tempdir().unwrap();
    let broker = setup_broker(&dir);
    let topic = "test-pull-agg";
    produce_events(&broker, topic);

    let registry = events_registry(topic);
    let plan = QueryBuilder::from_source("events")
        .group_by(&[col("user_id")])
        .count_star("cnt")
        .sum(col("value"), "total_value")
        .build();
    let result = pull_query(&broker, &plan, &registry).unwrap();

    assert_eq!(result.len(), 3);

    let mut results: Vec<(String, i64, f64)> = result
        .iter()
        .map(|r| {
            let uid = r.get(0).as_str().unwrap().to_string();
            let cnt = r.get(1).as_i64().unwrap();
            let total = r.get(2).as_f64().map(number).unwrap();
            (uid, cnt, total)
        })
        .collect();
    results.sort_by(|a, b| a.0.cmp(&b.0));

    // u1: 3 events, total=102
    assert_eq!(results[0].0, "u1");
    assert_eq!(results[0].1, 3);
    assert!((results[0].2 - 102.0).abs() < 0.01);

    // u2: 2 events, total=55
    assert_eq!(results[1].0, "u2");
    assert_eq!(results[1].1, 2);
    assert!((results[1].2 - 55.0).abs() < 0.01);

    // u3: 1 event, total=1
    assert_eq!(results[2].0, "u3");
    assert_eq!(results[2].1, 1);
    assert!((results[2].2 - 1.0).abs() < 0.01);
}

#[test]
fn pull_query_empty_topic() {
    let dir = tempfile::tempdir().unwrap();
    let broker = setup_broker(&dir);
    let topic = "test-pull-empty";
    // Don't produce any events

    // Ensure topic exists
    broker.ensure_topic(topic).unwrap();

    let registry = events_registry(topic);
    let plan = QueryBuilder::from_source("events").build();
    let result = pull_query(&broker, &plan, &registry).unwrap();

    assert_eq!(result.len(), 0);
}

#[test]
fn pull_query_filter_then_aggregate() {
    let dir = tempfile::tempdir().unwrap();
    let broker = setup_broker(&dir);
    let topic = "test-pull-fa";
    produce_events(&broker, topic);

    let registry = events_registry(topic);
    // Count only click events per user
    let plan = QueryBuilder::from_source("events")
        .filter(col("action").eq_expr(lit_str("click")))
        .group_by(&[col("user_id")])
        .count_star("click_count")
        .build();
    let result = pull_query(&broker, &plan, &registry).unwrap();

    let mut results: Vec<(String, i64)> = result
        .iter()
        .map(|r| {
            let uid = r.get(0).as_str().unwrap().to_string();
            let cnt = r.get(1).as_i64().unwrap();
            (uid, cnt)
        })
        .collect();
    results.sort();

    // u1: 2 clicks, u3: 1 click
    assert_eq!(results, vec![("u1".to_string(), 2), ("u3".to_string(), 1),]);
}

#[test]
fn pull_query_project_and_filter() {
    let dir = tempfile::tempdir().unwrap();
    let broker = setup_broker(&dir);
    let topic = "test-pull-pf";
    produce_events(&broker, topic);

    let registry = events_registry(topic);
    let plan = QueryBuilder::from_source("events")
        .filter(col("value").gt(lit_i64(10)))
        .select(&[col("user_id"), col("value")])
        .build();
    let result = pull_query(&broker, &plan, &registry).unwrap();

    // Only purchases (value=100, value=50)
    assert_eq!(result.len(), 2);
    for row in &result {
        assert_eq!(row.values.len(), 2);
        assert!(row.get(1).as_i64().unwrap() > 10);
    }
}

// --- Integration: SQL to execution ---

#[test]
fn sql_end_to_end_filter() {
    let dir = tempfile::tempdir().unwrap();
    let broker = setup_broker(&dir);
    let topic = "sensor-readings-e2e";

    // Register schema via SQL
    let mut registry = SchemaRegistry::new();
    let ddl = format!(
        "CREATE TABLE readings (sensor_id VARCHAR, temp DOUBLE, humidity INT) WITH (KAFKA_TOPIC='{}')",
        topic
    );
    SqlEngine::parse(&ddl, &mut registry).unwrap();

    // Produce data
    let producer = Broker::producer(&broker);
    for (sid, temp, hum) in [("s1", 22.5, 45), ("s2", 105.3, 80), ("s3", 110.0, 90)] {
        let json = format!(
            r#"{{"sensor_id": "{}", "temp": {}, "humidity": {}}}"#,
            sid, temp, hum
        );
        producer
            .send(&ProducerRecord::new(topic, None, json))
            .unwrap();
    }

    // Execute SQL via plan
    let sql = "SELECT sensor_id, temp FROM readings WHERE temp > 100.0";
    let result = SqlEngine::parse(sql, &mut registry).unwrap();

    match result {
        SqlResult::Query { plan } => {
            let rows = pull_query(&broker, &plan, &registry).unwrap();
            assert_eq!(rows.len(), 2);
            assert_eq!(rows[0].get(0), &Value::String("s2".to_string()));
            assert_eq!(rows[1].get(0), &Value::String("s3".to_string()));
        }
        _ => panic!("Expected Query"),
    }
}

#[test]
fn sql_end_to_end_aggregate() {
    let dir = tempfile::tempdir().unwrap();
    let broker = setup_broker(&dir);
    let topic = "orders-e2e";

    let mut registry = SchemaRegistry::new();
    let ddl = format!(
        "CREATE TABLE orders (customer_id VARCHAR, amount DOUBLE) WITH (KAFKA_TOPIC='{}')",
        topic
    );
    SqlEngine::parse(&ddl, &mut registry).unwrap();

    let producer = Broker::producer(&broker);
    for (cid, amount) in [
        ("c1", 10.0),
        ("c2", 25.0),
        ("c1", 15.0),
        ("c2", 30.0),
        ("c1", 5.0),
    ] {
        let json = format!(r#"{{"customer_id": "{}", "amount": {}}}"#, cid, amount);
        producer
            .send(&ProducerRecord::new(topic, None, json))
            .unwrap();
    }

    let sql = "SELECT customer_id, COUNT(*) AS cnt, SUM(amount) AS total FROM orders GROUP BY customer_id";
    let result = SqlEngine::parse(sql, &mut registry).unwrap();

    match result {
        SqlResult::Query { plan } => {
            let rows = pull_query(&broker, &plan, &registry).unwrap();
            assert_eq!(rows.len(), 2);

            let mut results: Vec<(String, i64, f64)> = rows
                .iter()
                .map(|r| {
                    (
                        r.get(0).as_str().unwrap().to_string(),
                        r.get(1).as_i64().unwrap(),
                        r.get(2).as_f64().map(number).unwrap(),
                    )
                })
                .collect();
            results.sort_by(|a, b| a.0.cmp(&b.0));

            assert_eq!(results[0].0, "c1");
            assert_eq!(results[0].1, 3);
            assert!((results[0].2 - 30.0).abs() < 0.01);

            assert_eq!(results[1].0, "c2");
            assert_eq!(results[1].1, 2);
            assert!((results[1].2 - 55.0).abs() < 0.01);
        }
        _ => panic!("Expected Query"),
    }
}

