use merksql::builder::QueryBuilder;
use merksql::double::Double;
use merksql::engine::accumulator::Accumulator;
use merksql::engine::operator::window::windows_for_timestamp;
use merksql::engine::operator::{
    AggregateOp, DeserializeOp, FilterOp, Operator, ProjectOp, StreamStreamJoinOp,
    StreamTableJoinOp, TableSinkOp, TableTableJoinOp, WindowedAggregateOp,
};
use merksql::engine::pipeline::{
    compile, compile_plan, count_operators, extract_join_metadata,
};
use merksql::engine::state::{AggregateState, JoinBuffer, TableState, WindowKey, WindowState};
use merksql::expr::{col, lit_i64, lit_str, Expr, ExprExt};
use merksql::plan::{AggregateExpr, AggregateFunction, JoinType, QueryPlan, WindowSpec};
use merksql::runtime::persistent::{
    LoopAction, LoopEvent, PersistentQuery, QueryStatus,
};
use merksql::runtime::pull::{PullAnswer, PullQuery};
use merksql::runtime::record::Record;
use merksql::schema::{SchemaRegistry, SourceInfo, SourceType};
use merksql::time::{Duration, Timestamp};
use merksql::types::{Column, DataType, Row, RowMetadata, Schema, Value};
use merksql::{Execution, MerkSql, QueryRegistry};

fn number(x: f64) -> Value {
    Value::Double(Double::from_bits(x.to_bits()))
}

fn whole(i: i64) -> Value {
    Value::Integer(i)
}

fn text(s: &str) -> Value {
    Value::String(s.to_string())
}

fn at(millis: i64) -> Timestamp {
    Timestamp::from_timestamp_millis(millis).unwrap()
}

fn pair_schema() -> Schema {
    Schema::new(vec![
        Column::new("k", DataType::String),
        Column::new("v", DataType::Integer),
    ])
}

fn pair(k: &str, v: i64) -> Row {
    Row::new(vec![text(k), whole(v)])
}

fn timed(k: &str, v: i64, millis: i64) -> Row {
    Row::with_metadata(
        vec![text(k), whole(v)],
        RowMetadata { timestamp: Some(at(millis)), ..Default::default() },
    )
}

fn values(rows: &[Row]) -> Vec<Vec<Value>> {
    rows.iter().map(|r| r.values.clone()).collect()
}

fn function(f: AggregateFunction, expr: Expr, alias: &str, distinct: bool) -> AggregateExpr {
    AggregateExpr { function: f, expr, alias: alias.to_string(), distinct }
}

#[test]
fn a_filter_keeps_what_holds_and_keeps_it_again() {
    let op = FilterOp::new(col("v").gt(lit_i64(1)), pair_schema());
    let rows = vec![pair("a", 1), pair("b", 2), pair("c", 3), pair("d", 0)];
    let kept = op.keep(&rows).unwrap();
    assert_eq!(values(&kept), vec![vec![text("b"), whole(2)], vec![text("c"), whole(3)]]);
    assert_eq!(values(&op.keep(&kept).unwrap()), values(&kept));
    let failing = FilterOp::new(col("w"), pair_schema());
    assert!(failing.keep(&rows).is_err());
    assert!(failing.keep(&vec![]).unwrap().is_empty());
}

#[test]
fn a_projection_makes_one_row_of_each() {
    let op = ProjectOp::new(
        vec![Expr::Wildcard, col("v").add(lit_i64(1)).alias("w")],
        pair_schema(),
    );
    let rows = vec![timed("a", 1, 5), timed("b", 2, 6)];
    let made = op.project(&rows).unwrap();
    assert_eq!(op.schema().columns.len(), 3);
    assert_eq!(made[1].values, vec![text("b"), whole(2), whole(3)]);
    assert_eq!(made[1].metadata.timestamp, Some(at(6)));
    let all = ProjectOp::new(vec![Expr::Wildcard], pair_schema());
    assert_eq!(values(&all.project(&rows).unwrap()), values(&rows));
}

#[test]
fn rows_are_read_and_what_cannot_be_read_is_left_out() {
    let op = DeserializeOp::new(pair_schema());
    let rows = vec![
        Row::new(vec![text(r#"{"k": "a", "v": 1}"#)]),
        Row::new(vec![text("oops")]),
        Row::new(vec![text("[]")]),
        Row::new(vec![whole(1)]),
        Row::new(vec![]),
        Row::new(vec![text("{}")]),
    ];
    let read = op.read(&rows);
    assert_eq!(
        values(&read),
        vec![vec![text("a"), whole(1)], vec![Value::Null, Value::Null]]
    );
}

#[test]
fn a_table_gives_the_last_row_of_each_key() {
    let mut t = TableState::new();
    t.upsert(text("a"), pair("a", 1));
    t.upsert(text("b"), pair("b", 2));
    t.upsert(text("a"), pair("a", 3));
    assert_eq!(t.len(), 2);
    assert_eq!(t.get(&text("a")).unwrap().values, vec![text("a"), whole(3)]);
    assert_eq!(t.get(&text("b")).unwrap().values, vec![text("b"), whole(2)]);
    assert_eq!(t.remove(&text("a")).unwrap().values, vec![text("a"), whole(3)]);
    assert!(t.get(&text("a")).is_none());
    assert!(t.get(&text("b")).is_some());
    assert!(t.remove(&text("a")).is_none());
    t.upsert(number(0.0), pair("zero", 0));
    assert!(t.get(&number(-0.0)).is_some());
    assert!(t.get(&whole(0)).is_none());
}

#[test]
fn a_sink_stores_rows_and_passes_them_on() {
    let mut op = TableSinkOp::new(0, pair_schema());
    let out = op.process(vec![pair("a", 1), pair("a", 2), pair("b", 3)]).unwrap();
    assert_eq!(out.len(), 3);
    assert_eq!(op.state().len(), 2);
    assert_eq!(op.state().get(&text("a")).unwrap().values, vec![text("a"), whole(2)]);
}

#[test]
fn buffers_stay_in_the_order_of_time() {
    let mut b = JoinBuffer::new();
    for millis in [30, 10, 20, 10, 40] {
        b.insert(at(millis), pair("x", millis));
    }
    let found = b.range(at(10), at(30));
    let order: Vec<Value> = found.iter().map(|r| r.values[1].clone()).collect();
    assert_eq!(order, vec![whole(10), whole(10), whole(20), whole(30)]);
    b.expire_before(at(20));
    assert_eq!(b.len(), 3);
    assert!(b.range(at(0), at(19)).is_empty());
}

#[test]
fn windows_that_ended_are_taken_out() {
    let mut w = WindowState::new();
    let key = |start: i64| WindowKey { group: vec![text("a")], window_start: at(start) };
    w.get_or_create(key(0), at(10), &[(AggregateFunction::Count, false)]);
    w.get_or_create(key(10), at(20), &[(AggregateFunction::Count, false)]);
    w.get_or_create(key(0), at(10), &[(AggregateFunction::Count, false)]);
    assert_eq!(w.len(), 2);
    assert_eq!(w.remove_expired(at(10)).len(), 1);
    assert_eq!(w.len(), 1);
    assert!(w.remove_expired(at(19)).is_empty());
}

fn group_sums(rows: &[&[Row]]) -> Vec<Vec<Value>> {
    let mut op = AggregateOp::new(
        vec![col("k")],
        vec![
            function(AggregateFunction::Sum, col("v"), "s", false),
            function(AggregateFunction::Count, Expr::Wildcard, "n", false),
            function(AggregateFunction::CollectList, col("v"), "l", false),
        ],
        None,
        pair_schema(),
    );
    let mut out = vec![];
    for batch in rows {
        out = op.aggregate(&batch.to_vec()).unwrap();
    }
    values(&out)
}

#[test]
fn groups_take_in_the_rows_with_their_key() {
    let rows = [pair("a", 1), pair("b", 10), pair("a", 2), pair("a", 3), pair("b", 20)];
    let expected = vec![
        vec![text("a"), number(6.0), whole(3), Value::Array(vec![whole(1), whole(2), whole(3)])],
        vec![text("b"), number(30.0), whole(2), Value::Array(vec![whole(10), whole(20)])],
    ];
    assert_eq!(group_sums(&[&rows]), expected);
    assert_eq!(group_sums(&[&rows[..2], &rows[2..]]), expected);
    assert_eq!(group_sums(&[&rows[..1], &rows[1..4], &rows[4..]]), expected);
}

#[test]
fn groups_that_do_not_hold_are_not_put_out() {
    let mut op = AggregateOp::new(
        vec![col("k")],
        vec![function(AggregateFunction::Count, Expr::Wildcard, "n", false)],
        Some(col("n").gt(lit_i64(1))),
        pair_schema(),
    );
    let out = op.aggregate(&vec![pair("a", 1), pair("b", 1), pair("a", 1)]).unwrap();
    assert_eq!(values(&out), vec![vec![text("a"), whole(2)]]);
    let out = op.aggregate(&vec![pair("b", 1)]).unwrap();
    assert_eq!(values(&out), vec![vec![text("a"), whole(2)], vec![text("b"), whole(2)]]);
}

fn accumulated(f: AggregateFunction, distinct: bool, input: &[Value]) -> Value {
    let mut a = Accumulator::new(f, distinct);
    for v in input {
        a.accumulate(v);
    }
    a.result()
}

#[test]
fn functions_over_values() {
    let input = [whole(3), Value::Null, whole(1), whole(3), number(2.5), whole(1)];
    assert_eq!(accumulated(AggregateFunction::Count, false, &input), whole(5));
    assert_eq!(accumulated(AggregateFunction::Count, true, &input), whole(3));
    assert_eq!(accumulated(AggregateFunction::Sum, false, &input), number(10.5));
    assert_eq!(accumulated(AggregateFunction::Sum, true, &input), number(6.5));
    assert_eq!(accumulated(AggregateFunction::Avg, false, &input), number(2.1));
    assert_eq!(accumulated(AggregateFunction::Min, false, &input), whole(1));
    assert_eq!(accumulated(AggregateFunction::Max, false, &input), whole(3));
    assert_eq!(
        accumulated(AggregateFunction::CollectList, false, &input),
        Value::Array(vec![whole(3), whole(1), whole(3), number(2.5), whole(1)])
    );
    assert_eq!(
        accumulated(AggregateFunction::CollectSet, false, &input),
        Value::Array(vec![whole(1), number(2.5), whole(3)])
    );
    assert_eq!(
        accumulated(AggregateFunction::TopK(2), false, &input),
        Value::Array(vec![whole(3), whole(3)])
    );
    for f in [AggregateFunction::Sum, AggregateFunction::Avg, AggregateFunction::Min] {
        assert_eq!(accumulated(f, false, &[Value::Null]), Value::Null);
    }
    assert_eq!(accumulated(AggregateFunction::Count, false, &[]), whole(0));
}

#[test]
fn accumulators_start_again() {
    let mut a = Accumulator::new(AggregateFunction::Sum, true);
    a.accumulate(&whole(5));
    a.accumulate(&whole(5));
    assert_eq!(a.result(), number(5.0));
    a.reset();
    assert_eq!(a.result(), Value::Null);
    a.accumulate(&whole(5));
    assert_eq!(a.result(), number(5.0));
    let mut c = Accumulator::new(AggregateFunction::Count, false);
    c.accumulate_star();
    c.accumulate_star();
    assert_eq!(c.result(), whole(2));
}

fn tumbling(millis: u64) -> WindowSpec {
    WindowSpec::Tumbling { size: Duration::from_millis(millis), grace: None }
}

fn hopping(size: u64, advance: u64) -> WindowSpec {
    WindowSpec::Hopping {
        size: Duration::from_millis(size),
        advance: Duration::from_millis(advance),
        grace: None,
    }
}

#[test]
fn tumbling_windows_have_the_time_in_them() {
    for millis in [-123456789, -1001, -1000, -999, -1, 0, 1, 999, 1000, 1001, 123456789] {
        let found = windows_for_timestamp(&tumbling(1000), at(millis)).unwrap();
        assert_eq!(found.len(), 1);
        let start = found[0].0.timestamp_millis();
        let end = found[0].1.timestamp_millis();
        assert_eq!(start % 1000, 0);
        assert_eq!(end - start, 1000);
        assert!(start <= millis && millis < end);
    }
    let early = windows_for_timestamp(&tumbling(1000), at(-1)).unwrap();
    assert_eq!(early, vec![(at(-1000), at(0))]);
    assert_eq!(windows_for_timestamp(&tumbling(0), at(5)), None);
}

#[test]
fn hopping_windows_are_all_that_have_the_time_in_them() {
    for millis in [-1500, -1, 0, 1, 999, 1000, 2500] {
        let found = windows_for_timestamp(&hopping(1000, 300), at(millis)).unwrap();
        let starts: Vec<i64> = found.iter().map(|w| w.0.timestamp_millis()).collect();
        let mut expected: Vec<i64> = vec![];
        for k in -20..20 {
            let s = k * 300;
            if s <= millis && millis < s + 1000 {
                expected.insert(0, s);
            }
        }
        assert_eq!(starts, expected);
    }
    assert_eq!(windows_for_timestamp(&hopping(1000, 0), at(5)), None);
    let gaps = windows_for_timestamp(&hopping(100, 300), at(250)).unwrap();
    assert!(gaps.is_empty());
}

#[test]
fn sessions_start_as_windows_of_their_own() {
    let spec = WindowSpec::Session { gap: Duration::from_secs(1), grace: None };
    assert_eq!(windows_for_timestamp(&spec, at(77)), Some(vec![(at(77), at(77))]));
}

fn window_counts(batches: &[&[Row]], spec: WindowSpec) -> Vec<(Value, i64, Value)> {
    let mut op = WindowedAggregateOp::new(
        vec![col("k")],
        vec![function(AggregateFunction::Sum, col("v"), "s", false)],
        None,
        spec,
        pair_schema(),
    );
    let mut out = vec![];
    for batch in batches {
        out = op.aggregate(&batch.to_vec(), at(0)).unwrap().unwrap();
    }
    out.iter()
        .map(|r| {
            (
                r.values[0].clone(),
                r.metadata.window_start.unwrap().timestamp_millis(),
                r.values[1].clone(),
            )
        })
        .collect()
}

#[test]
fn windows_take_in_the_rows_of_their_time() {
    let rows = [timed("a", 1, 10), timed("a", 2, 110), timed("b", 4, 20), timed("a", 8, 30)];
    let expected = vec![
        (text("a"), 0, number(9.0)),
        (text("a"), 100, number(2.0)),
        (text("b"), 0, number(4.0)),
    ];
    assert_eq!(window_counts(&[&rows], tumbling(100)), expected);
    assert_eq!(window_counts(&[&rows[..2], &rows[2..]], tumbling(100)), expected);
    assert_eq!(
        window_counts(&[&rows[..1]], hopping(100, 50)),
        vec![(text("a"), 0, number(1.0)), (text("a"), -50, number(1.0))]
    );
    let mut op = WindowedAggregateOp::new(vec![], vec![], None, tumbling(0), pair_schema());
    assert!(op.aggregate(&vec![timed("a", 1, 10)], at(0)).is_none());
    assert!(op.aggregate(&vec![], at(0)).is_some());
}

fn on_k() -> Expr {
    col("k").eq_expr(col("k"))
}

#[test]
fn a_left_join_keeps_every_row() {
    for (join_type, expected) in [
        (JoinType::Inner, 1),
        (JoinType::Left, 2),
        (JoinType::Right, 1),
        (JoinType::FullOuter, 2),
    ] {
        let mut join = StreamTableJoinOp::new(join_type, on_k(), pair_schema(), pair_schema());
        join.load_right(vec![pair("a", 9), pair("a", 10)], 0);
        let out = join.join(&vec![pair("a", 1), pair("z", 2)]);
        assert_eq!(out.len(), expected);
        assert_eq!(out[0].values, vec![text("a"), whole(1), text("a"), whole(10)]);
        if expected == 2 {
            assert_eq!(out[1].values, vec![text("z"), whole(2), Value::Null, Value::Null]);
        }
        assert_eq!(join.schema().columns.len(), 4);
    }
}

#[test]
fn streams_join_within_the_span() {
    let mut join = StreamStreamJoinOp::new(
        JoinType::Left,
        on_k(),
        Duration::from_millis(100),
        pair_schema(),
        pair_schema(),
    );
    assert!(join.join_right(&vec![timed("a", 1, 0), timed("a", 2, 100)], at(0)).unwrap().is_empty());
    let out = join.join_left(&vec![timed("a", 5, 100)], at(0)).unwrap();
    assert_eq!(
        values(&out),
        vec![
            vec![text("a"), whole(5), text("a"), whole(1)],
            vec![text("a"), whole(5), text("a"), whole(2)],
        ]
    );
    let out = join.join_left(&vec![timed("a", 6, 201)], at(0)).unwrap();
    assert_eq!(values(&out), vec![vec![text("a"), whole(6), Value::Null, Value::Null]]);
    let out = join.join_right(&vec![timed("a", 7, 250)], at(0)).unwrap();
    assert_eq!(values(&out), vec![vec![text("a"), whole(6), text("a"), whole(7)]]);
}

#[test]
fn streams_join_from_the_right() {
    let mut join = StreamStreamJoinOp::new(
        JoinType::FullOuter,
        on_k(),
        Duration::from_millis(100),
        pair_schema(),
        pair_schema(),
    );
    let out = join.join_right(&vec![timed("b", 1, 0)], at(0)).unwrap();
    assert_eq!(values(&out), vec![vec![Value::Null, Value::Null, text("b"), whole(1)]]);
    let far = Timestamp::from_parts(8210266876799, 0).unwrap();
    assert!(join.join_left(&vec![Row::with_metadata(
        vec![text("b"), whole(1)],
        RowMetadata { timestamp: Some(far), ..Default::default() },
    )], at(0)).is_some());
    let mut wide = StreamStreamJoinOp::new(
        JoinType::Inner,
        on_k(),
        Duration::from_secs(8000000000000),
        pair_schema(),
        pair_schema(),
    );
    assert!(wide.join_left(&vec![timed("a", 1, 1000000000000000)], at(0)).is_none());
}

#[test]
fn tables_join_with_what_each_side_keeps() {
    for (join_type, expected) in [
        (JoinType::Inner, 1),
        (JoinType::Left, 2),
        (JoinType::Right, 2),
        (JoinType::FullOuter, 3),
    ] {
        let mut join = TableTableJoinOp::new(join_type, on_k(), pair_schema(), pair_schema());
        join.load_left(vec![pair("a", 1), pair("l", 2)]);
        join.load_right(vec![pair("a", 3), pair("r", 4)], 0);
        let out = join.join_all();
        assert_eq!(out.len(), expected);
        assert_eq!(out[0].values, vec![text("a"), whole(1), text("a"), whole(3)]);
        let lonely = vec![Value::Null, Value::Null, text("r"), whole(4)];
        let kept = join_type == JoinType::Right || join_type == JoinType::FullOuter;
        assert_eq!(out.last().unwrap().values == lonely, kept);
    }
}

fn registry() -> SchemaRegistry {
    let mut registry = SchemaRegistry::new();
    registry.register_stream("pairs", pair_schema(), "pairs-topic").unwrap();
    registry.register_table("names", pair_schema(), "names-topic", "k").unwrap();
    registry
}

fn record(topic: &str, value: &str, millis: i64) -> Record {
    Record {
        key: Some("key".to_string()),
        value: value.to_string(),
        topic: topic.to_string(),
        partition: 0,
        offset: 0,
        timestamp: at(millis),
    }
}

#[test]
fn rows_fit_the_schema_of_their_pipeline() {
    let plans = vec![
        QueryBuilder::from_source("pairs").build(),
        QueryBuilder::from_source("PAIRS").select(&[col("v"), lit_str("x").alias("y")]).build(),
        QueryBuilder::from_source("pairs")
            .filter(col("v").gt(lit_i64(0)))
            .group_by(&[col("k")])
            .sum(col("v"), "s")
            .max(col("v"), "m")
            .build(),
        QueryBuilder::from_source("pairs")
            .group_by(&[col("k")])
            .hopping(Duration::from_secs(10), Duration::from_secs(5))
            .count_star("n")
            .build(),
        QueryBuilder::from_source("pairs").join("names", JoinType::Left, on_k()).build(),
        QueryBuilder::from_source("pairs")
            .join("names", JoinType::Left, on_k())
            .within(Duration::from_secs(10))
            .build(),
    ];
    for plan in plans {
        let mut pipeline = compile(&plan, &registry()).unwrap();
        for _ in 0..2 {
            let rows = vec![
                record("pairs-topic", r#"{"k": "a", "v": 1}"#, 1000).into_row(),
                record("pairs-topic", r#"{"v": 2}"#, 2000).into_row(),
            ];
            let out = pipeline.process(rows).unwrap();
            assert!(!out.is_empty());
            for row in out {
                assert_eq!(row.values.len(), pipeline.output_schema.columns.len());
            }
        }
        assert!(pipeline.process(vec![]).unwrap().is_empty());
        assert!(pipeline.flush().unwrap().is_empty());
    }
}

#[test]
fn plans_over_unknown_sources_do_not_compile() {
    let plan = QueryBuilder::from_source("nowhere").build();
    assert_eq!(compile(&plan, &registry()).unwrap_err().to_text(), "Unknown source: nowhere");
    let plan = QueryBuilder::from_source("pairs").join("lost", JoinType::Inner, on_k()).build();
    assert_eq!(compile(&plan, &registry()).unwrap_err().to_text(), "Unknown source: lost");
    assert_eq!(
        PullQuery::start(&plan, &registry()).unwrap_err().to_text(),
        "Unknown source: lost"
    );
}

#[test]
fn a_pull_query_reads_the_right_side_first() {
    let plan = QueryBuilder::from_source("pairs").join("names", JoinType::Left, on_k()).build();
    let query = PullQuery::start(&plan, &registry()).unwrap();
    assert_eq!(query.topics(), vec!["names-topic".to_string()]);
    let names = vec![record("names-topic", r#"{"k": "a", "v": 7}"#, 0)];
    let (answer, query) = query.receive(names, at(0));
    match answer.unwrap() {
        PullAnswer::Consume(topics) => assert_eq!(topics, vec!["pairs-topic".to_string()]),
        _ => panic!("topics were expected"),
    }
    let pairs = vec![record("pairs-topic", r#"{"k": "a", "v": 1}"#, 0)];
    match query.receive(pairs, at(0)).0.unwrap() {
        PullAnswer::Rows(rows) => {
            assert_eq!(values(&rows), vec![vec![text("a"), whole(1), text("a"), whole(7)]]);
        }
        _ => panic!("rows were expected"),
    }
}

#[test]
fn a_pull_query_that_reads_nothing_or_fails() {
    let plan = QueryBuilder::from_source("pairs").filter(col("w")).build();
    let query = PullQuery::start(&plan, &registry()).unwrap();
    match query.receive(vec![], at(0)).0.unwrap() {
        PullAnswer::Rows(rows) => assert!(rows.is_empty()),
        _ => panic!("rows were expected"),
    }
    let query = PullQuery::start(&plan, &registry()).unwrap();
    match query.receive(vec![record("pairs-topic", "{}", 0)], at(0)).0.unwrap() {
        PullAnswer::Failed(e) => assert_eq!(e.to_text(), "Unknown column: w"),
        _ => panic!("a failure was expected"),
    }
    let plan = QueryBuilder::from_source("pairs")
        .group_by(&[col("k")])
        .tumbling(Duration::from_secs(0))
        .count_star("n")
        .build();
    let query = PullQuery::start(&plan, &registry()).unwrap();
    assert!(query.receive(vec![record("pairs-topic", "{}", 0)], at(0)).0.is_none());
}

#[test]
fn a_running_query_writes_before_it_commits() {
    let plan = QueryBuilder::from_source("pairs").filter(col("v").gt(lit_i64(1))).build();
    let (query, run) =
        PersistentQuery::start("q9".to_string(), plan, "out".to_string(), &registry()).unwrap();
    assert_eq!(query.status(), QueryStatus::Running);
    match run.first() {
        LoopAction::Subscribe(topics) => assert_eq!(topics, vec!["pairs-topic".to_string()]),
        _ => panic!("a subscription was expected"),
    }
    let (action, run) = run.advance(LoopEvent::Done(vec![]), true, at(0));
    assert!(matches!(action.unwrap(), LoopAction::EnsureTopic(topic) if topic == "out"));
    let (action, run) = run.advance(LoopEvent::Done(vec![]), true, at(0));
    assert!(matches!(action.unwrap(), LoopAction::Poll));
    let records = vec![
        record("pairs-topic", r#"{"k": "a", "v": 1}"#, 0),
        record("pairs-topic", r#"{"k": "b", "v": 2}"#, 0),
    ];
    let (action, run) = run.advance(LoopEvent::Done(records), true, at(0));
    match action.unwrap() {
        LoopAction::Send(messages) => {
            assert_eq!(messages.len(), 1);
            assert_eq!(messages[0].topic, "out");
            assert_eq!(messages[0].key, Some("key".to_string()));
            assert_eq!(messages[0].value, r#"{"k":"b","v":2}"#);
        }
        _ => panic!("messages were expected"),
    }
    let (action, run) = run.advance(LoopEvent::Done(vec![]), true, at(0));
    assert!(matches!(action.unwrap(), LoopAction::Commit));
    let (action, run) = run.advance(LoopEvent::Done(vec![]), false, at(0));
    assert!(matches!(action.unwrap(), LoopAction::Close));
    let (action, _) = run.advance(LoopEvent::Done(vec![]), false, at(0));
    assert!(matches!(action.unwrap(), LoopAction::Finish(true)));
}

#[test]
fn a_running_query_that_fails_ends() {
    let plan = QueryBuilder::from_source("pairs").filter(col("w")).build();
    let (mut query, run) =
        PersistentQuery::start("q9".to_string(), plan, "out".to_string(), &registry()).unwrap();
    let (action, _) = run.advance(LoopEvent::Failed, true, at(0));
    assert!(matches!(action.unwrap(), LoopAction::Finish(false)));
    query.finish(false);
    assert_eq!(query.status(), QueryStatus::Error);
    query.stop();
    assert_eq!(query.status(), QueryStatus::Error);
    query.terminate();
    assert_eq!(query.status(), QueryStatus::Terminated);
}

#[test]
fn queries_get_ids_of_their_own() {
    let mut queries = QueryRegistry::new();
    assert!(queries.is_empty());
    let plan = || QueryBuilder::from_source("pairs").build();
    let sources = registry();
    let (first, _) = queries.start_query(plan(), "a".to_string(), &sources).unwrap();
    let (second, _) = queries.start_query(plan(), "b".to_string(), &sources).unwrap();
    assert_eq!((first.as_str(), second.as_str()), ("q1", "q2"));
    assert_eq!(queries.status("q1"), Some(QueryStatus::Running));
    assert_eq!(queries.status("q3"), None);
    queries.stop("q1").unwrap();
    assert_eq!(queries.status("q1"), Some(QueryStatus::Stopped));
    assert_eq!(queries.status("q2"), Some(QueryStatus::Running));
    assert_eq!(queries.stop("q7").unwrap_err().to_text(), "Query not found: q7");
    assert_eq!(queries.terminate("q7").unwrap_err().to_text(), "Query not found: q7");
    assert_eq!(queries.finish("q7", true).unwrap_err().to_text(), "Query not found: q7");
    queries.terminate("q1").unwrap();
    assert_eq!(queries.status("q1"), Some(QueryStatus::Terminated));
    queries.stop_all();
    assert_eq!(queries.status("q2"), Some(QueryStatus::Stopped));
    assert_eq!(queries.len(), 2);
    let bad = QueryBuilder::from_source("nowhere").build();
    assert!(queries.start_query(bad, "c".to_string(), &sources).is_err());
    assert_eq!(queries.len(), 2);
}

#[test]
fn statements_lead_to_sources_pulls_and_queries() {
    let mut engine = MerkSql::new();
    match engine
        .execute("CREATE TABLE s (k VARCHAR, v INT) WITH (KAFKA_TOPIC='t')")
        .unwrap()
    {
        Execution::SourceCreated { name } => assert_eq!(name, "s"),
        _ => panic!("a source was expected"),
    }
    assert!(matches!(engine.execute("SELECT * FROM s").unwrap(), Execution::Pull { .. }));
    assert!(engine.queries.is_empty());
    match engine.execute("CREATE TABLE o WITH (KAFKA_TOPIC='o') AS SELECT k FROM s").unwrap() {
        Execution::Started { id, run } => {
            assert_eq!(id, "q1");
            assert!(run.group_id().contains("q1"));
        }
        _ => panic!("a query was expected"),
    }
    assert_eq!(engine.queries.status("q1"), Some(QueryStatus::Running));
    assert_eq!(
        engine.execute("SELECT * FROM nowhere").unwrap_err().to_text(),
        "Unknown source: nowhere"
    );
    assert_eq!(engine.schemas.list().len(), 1);
}

fn window_of(plan: &QueryPlan) -> WindowSpec {
    match plan {
        QueryPlan::Aggregate { window, .. } => window.unwrap(),
        _ => panic!("an aggregation was expected"),
    }
}

#[test]
fn builders_set_windows_with_grace() {
    let size = Duration::from_secs(10);
    let step = Duration::from_secs(5);
    let grace = Duration::from_secs(2);
    let hopping = QueryBuilder::from_source("s")
        .group_by(&[col("k")])
        .hopping_with_grace(size, step, grace)
        .build();
    assert_eq!(
        window_of(&hopping),
        WindowSpec::Hopping { size, advance: step, grace: Some(grace) }
    );
    let session = QueryBuilder::from_source("s")
        .group_by(&[col("k")])
        .session_with_grace(step, grace)
        .build();
    assert_eq!(window_of(&session), WindowSpec::Session { gap: step, grace: Some(grace) });
    let bare = QueryBuilder::from_source("s").group_by(&[col("k")]).session(step).build();
    assert_eq!(window_of(&bare), WindowSpec::Session { gap: step, grace: None });
}

#[test]
fn a_registered_source_is_looked_up_in_any_case() {
    let mut sources = SchemaRegistry::new();
    let schema = SchemaRegistry::build_schema(&[
        ("k".to_string(), DataType::String),
        ("v".to_string(), DataType::Integer),
    ]);
    assert_eq!(schema, pair_schema());
    let info = SourceInfo {
        name: "Events".to_string(),
        source_type: SourceType::Table,
        schema,
        topic: "events-topic".to_string(),
        key_column: Some("k".to_string()),
        value_format: "JSON".to_string(),
    };
    sources.register_source(info).unwrap();
    assert_eq!(sources.schema_for("EVENTS"), Some(&pair_schema()));
    assert_eq!(sources.topic_for("events"), Some("events-topic"));
    assert_eq!(sources.get("eVents").unwrap().name, "Events");
    assert!(sources.schema_for("other").is_none());
    assert!(sources.topic_for("other").is_none());
    assert_eq!(
        sources.register_stream("EVENTS", pair_schema(), "t").unwrap_err().to_text(),
        "Source 'EVENTS' already registered"
    );
}

#[test]
fn groups_are_made_once_and_forgotten_together() {
    let mut groups = AggregateState::new();
    let counted = [(AggregateFunction::Count, false)];
    assert!(groups.is_empty());
    groups.get_or_create(vec![text("a")], &counted)[0].accumulate(&whole(1));
    groups.get_or_create(vec![text("b")], &counted)[0].accumulate(&whole(1));
    groups.get_or_create(vec![text("a")], &counted)[0].accumulate(&whole(1));
    let found: Vec<(Value, Value)> =
        groups.iter().iter().map(|g| (g.0[0].clone(), g.1[0].result())).collect();
    assert_eq!(found, vec![(text("a"), whole(2)), (text("b"), whole(1))]);
    groups.clear();
    assert_eq!(groups.len(), 0);
}

#[test]
fn tables_keep_one_row_for_a_key() {
    let mut table = TableState::new();
    table.upsert(text("a"), pair("a", 1));
    table.upsert(text("b"), pair("b", 2));
    table.upsert(text("a"), pair("a", 3));
    assert_eq!(table.len(), 2);
    assert_eq!(table.get(&text("a")).unwrap().values, pair("a", 3).values);
    assert_eq!(table.remove(&text("a")).unwrap().values, pair("a", 3).values);
    assert!(table.get(&text("a")).is_none());
    assert_eq!(table.get(&text("b")).unwrap().values, pair("b", 2).values);
}

#[test]
fn loaded_rows_reach_a_join_of_streams() {
    let mut join = StreamStreamJoinOp::new(
        JoinType::Inner,
        col("k").eq_expr(col("k")),
        Duration::from_secs(1),
        pair_schema(),
        pair_schema(),
    );
    Operator::load_right(
        &mut join,
        vec![timed("a", 2, 1500), timed("a", 1, 900), timed("b", 3, 1000), timed("a", 4, 5000)],
        0,
    );
    let out = Operator::process(&mut join, vec![timed("a", 9, 1000)]).unwrap();
    assert_eq!(
        values(&out),
        vec![
            vec![text("a"), whole(9), text("a"), whole(1)],
            vec![text("a"), whole(9), text("a"), whole(2)],
        ]
    );
}

#[test]
fn a_pipeline_hands_right_rows_to_its_join() {
    let mut sources = SchemaRegistry::new();
    sources.register_stream("l", pair_schema(), "left").unwrap();
    sources.register_stream("r", pair_schema(), "right").unwrap();
    let plan = QueryBuilder::from_source("l")
        .join("r", JoinType::Inner, col("k").eq_expr(col("k")))
        .within(Duration::from_secs(1))
        .build();
    let mut pipeline = compile(&plan, &sources).unwrap();
    assert_eq!(count_operators(&plan), 2);
    assert_eq!(pipeline.join_op_index, Some(1));
    assert_eq!(pipeline.right_key_index, Some(0));
    pipeline.load_join_right(vec![timed("a", 1, 900)]);
    let input = Row::with_metadata(
        vec![text("{\"k\":\"a\",\"v\":5}")],
        RowMetadata { timestamp: Some(at(1000)), ..Default::default() },
    );
    let out = pipeline.process(vec![input]).unwrap();
    assert_eq!(values(&out), vec![vec![text("a"), whole(5), text("a"), whole(1)]]);
}

#[test]
fn plans_compile_where_their_sources_are_known() {
    let mut sources = SchemaRegistry::new();
    sources.register_stream("l", pair_schema(), "left").unwrap();
    let known = QueryBuilder::from_source("l").filter(col("v").gt(lit_i64(1))).build();
    let (operators, schema) = compile_plan(&known, &sources).unwrap();
    assert_eq!(operators.len(), count_operators(&known));
    assert_eq!(schema, pair_schema());
    let unknown = QueryBuilder::from_source("l")
        .join("r", JoinType::Inner, col("k").eq_expr(col("k")))
        .build();
    assert_eq!(
        compile_plan(&unknown, &sources).err().unwrap().to_text(),
        "Unknown source: r"
    );
    let info = extract_join_metadata(&unknown, &sources);
    assert!(info.join_op_index.is_none() && info.right_source_topic.is_none());
}

#[test]
fn joined_tables_make_a_row_for_each_key() {
    let mut join = TableTableJoinOp::new(
        JoinType::FullOuter,
        col("k").eq_expr(col("k")),
        pair_schema(),
        pair_schema(),
    );
    join.load_left(vec![pair("both", 1), pair("left", 2), pair("both", 3)]);
    join.load_right(vec![pair("right", 4), pair("both", 5)], 0);
    let out = values(&join.join_all());
    let expected = vec![
        vec![text("both"), whole(3), text("both"), whole(5)],
        vec![text("left"), whole(2), Value::Null, Value::Null],
        vec![Value::Null, Value::Null, text("right"), whole(4)],
    ];
    assert_eq!(out.len(), 3);
    for row in &expected {
        assert!(out.contains(row));
    }
}

#[test]
fn numbers_of_queries_are_used_up() {
    let mut sources = SchemaRegistry::new();
    sources.register_stream("l", pair_schema(), "left").unwrap();
    let mut queries = QueryRegistry::new();
    let bad = QueryBuilder::from_source("nowhere").build();
    assert!(queries.start_query(bad, "t".to_string(), &sources).is_err());
    let good = QueryBuilder::from_source("l").build();
    assert_eq!(queries.start_query(good, "t".to_string(), &sources).unwrap().0, "q2");
}

#[test]
fn a_second_pull_gives_the_same_rows() {
    let mut sources = SchemaRegistry::new();
    sources.register_stream("l", pair_schema(), "left").unwrap();
    let plan = QueryBuilder::from_source("l").group_by(&[col("k")]).count_star("n").build();
    let mut answers: Vec<Vec<Vec<Value>>> = vec![];
    for _ in 0..2 {
        let records = vec![
            record("left", "{\"k\":\"a\",\"v\":1}", 1),
            record("left", "{\"k\":\"a\",\"v\":2}", 2),
        ];
        let query = PullQuery::start(&plan, &sources).unwrap();
        match query.receive(records, at(0)).0 {
            Some(PullAnswer::Rows(rows)) => answers.push(values(&rows)),
            _ => panic!("rows were expected"),
        }
    }
    assert_eq!(answers[0], vec![vec![text("a"), whole(2)]]);
    assert_eq!(answers[0], answers[1]);
}

#[test]
fn listed_sources_are_found_by_their_names() {
    let mut sources = SchemaRegistry::new();
    sources.register_stream("One", pair_schema(), "a").unwrap();
    sources.register_table("two", pair_schema(), "b", "k").unwrap();
    sources.register_stream("three", pair_schema(), "c").unwrap();
    sources.remove("TWO").unwrap();
    for info in sources.list() {
        assert_eq!(sources.get(&info.name).unwrap().topic, info.topic);
    }
    assert_eq!(sources.list().len(), 2);
}

fn pair_text(k: &str, v: i64, millis: i64) -> Row {
    let value = format!("{{\"k\":\"{}\",\"v\":{}}}", k, v);
    record("pairs-topic", &value, millis).into_row()
}

#[test]
fn right_rows_stay_for_later_batches() {
    let plan = QueryBuilder::from_source("pairs").join("names", JoinType::Inner, on_k()).build();
    let mut pipeline = compile(&plan, &registry()).unwrap();
    pipeline.load_join_right(vec![pair("a", 1), pair("b", 2), pair("a", 3)]);
    assert!(pipeline.process(vec![pair_text("c", 4, 0)]).unwrap().is_empty());
    for _ in 0..2 {
        let out = pipeline.process(vec![pair_text("c", 5, 0), pair_text("a", 6, 0)]).unwrap();
        assert_eq!(values(&out), vec![vec![text("a"), whole(6), text("a"), whole(3)]]);
    }

    let plan = QueryBuilder::from_source("pairs")
        .join("names", JoinType::Inner, on_k())
        .within(Duration::from_secs(1))
        .build();
    let mut pipeline = compile(&plan, &registry()).unwrap();
    pipeline.load_join_right_at(vec![timed("a", 1, 1000), pair("a", 2)], at(5000));
    let out = pipeline.try_process(vec![pair_text("a", 3, 2000)], at(9000)).unwrap().unwrap();
    assert_eq!(values(&out), vec![vec![text("a"), whole(3), text("a"), whole(1)]]);
    let out = pipeline.try_process(vec![pair_text("a", 4, 2001)], at(9000)).unwrap().unwrap();
    assert!(out.is_empty());
    let out = pipeline.try_process(vec![pair_text("a", 5, 4500)], at(9000)).unwrap().unwrap();
    assert_eq!(values(&out), vec![vec![text("a"), whole(5), text("a"), whole(2)]]);
}

#[test]
fn a_pipeline_without_a_join_has_no_right_side() {
    let plan = QueryBuilder::from_source("pairs").build();
    let mut pipeline = compile(&plan, &registry()).unwrap();
    pipeline.load_join_right(vec![pair("a", 1)]);
    let out = pipeline.process(vec![pair_text("a", 6, 0)]).unwrap();
    assert_eq!(values(&out), vec![vec![text("a"), whole(6)]]);
}

fn pulled_rows(plan: &QueryPlan, right: i64, left: i64) -> Vec<Vec<Value>> {
    let query = PullQuery::start(plan, &registry()).unwrap();
    let names = vec![record("names-topic", r#"{"k": "a", "v": 7}"#, 1000)];
    let (_, query) = query.receive(names, at(right));
    let pairs = vec![
        record("pairs-topic", r#"{"k": "a", "v": 1}"#, 2000),
        record("pairs-topic", r#"{"k": "a", "v": 2}"#, 2001),
    ];
    match query.receive(pairs, at(left)).0.unwrap() {
        PullAnswer::Rows(rows) => values(&rows),
        _ => panic!("rows were expected"),
    }
}

#[test]
fn pulls_at_two_times_give_the_same_rows() {
    let plan = QueryBuilder::from_source("pairs")
        .join("names", JoinType::Inner, on_k())
        .within(Duration::from_secs(1))
        .build();
    let rows = pulled_rows(&plan, 0, 0);
    assert_eq!(rows, vec![vec![text("a"), whole(1), text("a"), whole(7)]]);
    assert_eq!(pulled_rows(&plan, 100000, 200000), rows);
}

#[test]
fn a_pull_sees_old_records_and_new_ones() {
    let plan = QueryBuilder::from_source("pairs").group_by(&[col("k")]).count_star("n").build();
    for n in 0..3 {
        let mut records: Vec<Record> = vec![];
        for i in 0..n {
            records.push(record("pairs-topic", r#"{"k": "a", "v": 1}"#, i));
        }
        let query = PullQuery::start(&plan, &registry()).unwrap();
        match query.receive(records, at(n)).0.unwrap() {
            PullAnswer::Rows(rows) => {
                let expected = if n == 0 { vec![] } else { vec![vec![text("a"), whole(n)]] };
                assert_eq!(values(&rows), expected);
            }
            _ => panic!("rows were expected"),
        }
    }
}

#[test]
fn a_failed_start_leaves_the_queries_as_they_are() {
    let mut queries = QueryRegistry::new();
    let sources = registry();
    let good = || QueryBuilder::from_source("pairs").build();
    assert_eq!(queries.start_query(good(), "a".to_string(), &sources).unwrap().0, "q1");
    let bad = QueryBuilder::from_source("nowhere").build();
    assert!(queries.start_query(bad, "b".to_string(), &sources).is_err());
    assert_eq!(queries.len(), 1);
    assert_eq!(queries.status("q1"), Some(QueryStatus::Running));
    assert_eq!(queries.status("q2"), None);
    assert_eq!(queries.start_query(good(), "c".to_string(), &sources).unwrap().0, "q3");
    assert_eq!(queries.len(), 2);
    assert_eq!(queries.status("q3"), Some(QueryStatus::Running));
}

#[test]
fn whichever_row_comes_first_the_two_are_joined() {
    for left_first in [true, false] {
        let mut join = StreamStreamJoinOp::new(
            JoinType::Inner,
            on_k(),
            Duration::from_millis(100),
            pair_schema(),
            pair_schema(),
        );
        let left = vec![timed("b", 1, 50), timed("a", 2, 100)];
        let right = vec![timed("a", 3, 200), timed("a", 4, 201)];
        let (first, second) = if left_first {
            (join.process_left(left).unwrap(), join.process_right(right).unwrap())
        } else {
            (join.process_right(right).unwrap(), join.process_left(left).unwrap())
        };
        assert!(first.is_empty());
        assert_eq!(values(&second), vec![vec![text("a"), whole(2), text("a"), whole(3)]]);
    }
}
