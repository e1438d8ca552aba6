//! Laws of how queries are run: what they read, what they write, and in which order.
use crate::engine::pipeline::plans::{lemma_rows_read, row_read};
use crate::engine::pipeline::{
    joined_right, pipeline_of, plan_join, run, source_of, PipelineView,
};
use crate::json::{json_written, row_object};
use crate::plan::{plan_sources, PlanView};
use crate::runtime::persistent::{
    finished_status, first_action, loop_of, loop_step, row_messages, stopped_status,
    LoopActionView, LoopEventView, LoopStage, LoopView, QueryStatus,
};
use crate::runtime::pull::laws::lemma_no_join;
use crate::runtime::pull::right_read;
use crate::runtime::record::{record_rows, RecordView};
use crate::schema::SourceView;
use crate::time::Timestamp;
use crate::types::{ColumnView, RowView};
use crate::value::ValueView;
use vstd::prelude::*;

verus! {

/// A record is taken in as a row with its text as the only value, of which is known where
/// the record comes from, when it was written, and its key.
pub proof fn lemma_record(records: Seq<RecordView>, i: int)
    requires
        0 <= i < records.len(),
    ensures
        record_rows(records).len() == records.len(),
        ({
            let r = records[i];
            let row = record_rows(records)[i];
            &&& row.values.len() == 1
            &&& row.values[0] == ValueView::String(r.value)
            &&& row.metadata.topic == Some(r.topic)
            &&& row.metadata.partition == Some(r.partition)
            &&& row.metadata.offset == Some(r.offset)
            &&& row.metadata.timestamp == Some(r.timestamp)
            &&& row.metadata.key == r.key
            &&& row.metadata.window_start is None
            &&& row.metadata.window_end is None
        }),
{
}

/// Rows are written as one record each, in their order: to the topic, under the key that
/// is known of the row, with the JSON of its columns.
pub proof fn lemma_messages(
    rows: Seq<RowView>,
    schema: Seq<ColumnView>,
    topic: Seq<char>,
    i: int,
)
    requires
        0 <= i < rows.len(),
    ensures
        ({
            let m = row_messages(rows, schema, topic);
            &&& m.len() == rows.len()
            &&& m[i].topic == topic
            &&& m[i].key == rows[i].metadata.key
            &&& m[i].value == json_written(row_object(rows[i].values, schema))
        }),
{
}

/// A query without a join subscribes to the topics of all its sources first. One with a
/// join reads the topic of the right side first, puts what it reads there, and subscribes
/// to the topic of the first source.
pub proof fn lemma_first_steps(
    id: Seq<char>,
    plan: PlanView,
    sink_topic: Seq<char>,
    sources: Seq<(Seq<char>, SourceView)>,
    records: Seq<RecordView>,
    running: bool,
    now: Timestamp,
)
    ensures
        loop_of(id, plan, sink_topic, sources) is Ok <==> pipeline_of(plan, sources) is Ok,
        loop_of(id, plan, sink_topic, sources) matches Ok(l) ==> {
            let p = pipeline_of(plan, sources)->Ok_0;
            &&& l.sink_topic == sink_topic
            &&& l.pipeline == p
            &&& l.group_id == "_merksql_query_"@ + id
            &&& plan_join(plan) is None ==> first_action(l) == LoopActionView::Subscribe(
                p.source_topics,
            ) && l.stage == LoopStage::Subscribing
            &&& p.join.right_source_topic matches Some(topic) ==> {
                let left = source_of(sources, plan_sources(plan)[0]);
                &&& first_action(l) == LoopActionView::Load(topic)
                &&& left matches Some(info) ==> loop_step(
                    l,
                    LoopEventView::Done(records),
                    running,
                    now,
                ).0 == Some(LoopActionView::Subscribe(seq![info.topic]))
                &&& loop_step(l, LoopEventView::Done(records), running, now).1.stage
                    == LoopStage::Subscribing
                &&& loop_step(l, LoopEventView::Done(records), running, now).1.pipeline
                    == right_read(p, records, now)
            }
        },
{
    if plan_join(plan) is None {
        lemma_no_join(plan, sources);
    }
}

/// What is read of the right side of a join, where there are records, is put there: the
/// rows that are read in its records, with the columns of the right source.
pub proof fn lemma_right_side(p: PipelineView, records: Seq<RecordView>, now: Timestamp)
    ensures
        p.join.right_schema is Some && records.len() > 0 ==> right_read(p, records, now)
            == joined_right(
            p,
            record_rows(records).filter_map(|r: RowView| row_read(r, p.join.right_schema->0)),
            now,
        ),
        p.join.right_schema is None || records.len() == 0 ==> right_read(p, records, now) == p,
{
    if let Some(schema) = p.join.right_schema {
        lemma_rows_read(record_rows(records), schema);
    }
}

/// A query that has subscribed sees to it that the topic of its results is there. It then
/// polls, and polls again after each pause and each commit, as long as it is to run; else
/// it closes.
pub proof fn lemma_goes_on(
    l: LoopView,
    records: Seq<RecordView>,
    running: bool,
    now: Timestamp,
)
    ensures
        ({
            let (action, next) = loop_step(l, LoopEventView::Done(records), running, now);
            &&& next.sink_topic == l.sink_topic
            &&& l.stage == LoopStage::Subscribing ==> action == Some(
                LoopActionView::EnsureTopic(l.sink_topic),
            ) && next.stage == LoopStage::Ensuring && next.pipeline == l.pipeline
            &&& l.stage == LoopStage::Ensuring || l.stage == LoopStage::Sleeping || l.stage
                == LoopStage::Committing ==> next.pipeline == l.pipeline && if running {
                action == Some(LoopActionView::Poll) && next.stage == LoopStage::Polling
            } else {
                action == Some(LoopActionView::Close) && next.stage == LoopStage::Closing
            }
            &&& l.stage == LoopStage::Sending ==> action == Some(LoopActionView::Commit)
                && next.stage == LoopStage::Committing && next.pipeline == l.pipeline
            &&& l.stage == LoopStage::Closing ==> action == Some(LoopActionView::Finish(true))
        }),
{
}

/// A query that has polled takes what it has read through its pipeline in one batch, and
/// sends what comes out, to its topic. Where it has read nothing it pauses, and where the
/// pipeline fails it ends, not well. The pipeline keeps what it has seen.
pub proof fn lemma_polled(l: LoopView, records: Seq<RecordView>, running: bool, now: Timestamp)
    requires
        l.stage == LoopStage::Polling,
    ensures
        ({
            let (action, next) = loop_step(l, LoopEventView::Done(records), running, now);
            let (made, operators) = run(l.pipeline.operators, record_rows(records), now, 0);
            &&& records.len() == 0 ==> action == Some(LoopActionView::Sleep) && next.stage
                == LoopStage::Sleeping && next.pipeline == l.pipeline
            &&& records.len() > 0 ==> next.pipeline.operators == operators && match made {
                Some(Ok(rows)) => action == Some(
                    LoopActionView::Send(
                        row_messages(rows, l.pipeline.output_schema, l.sink_topic),
                    ),
                ) && next.stage == LoopStage::Sending,
                Some(Err(_)) => action == Some(LoopActionView::Finish(false)),
                None => action is None,
            }
        }),
{
}

/// How a query is doing: one that runs is stopped where it is stopped or ends well, and has
/// failed where it does not end well. Nothing of that changes one that does not run.
pub proof fn lemma_statuses(status: QueryStatus, well: bool)
    ensures
        finished_status(QueryStatus::Running, true) == QueryStatus::Stopped,
        finished_status(QueryStatus::Running, false) == QueryStatus::Error,
        stopped_status(QueryStatus::Running) == QueryStatus::Stopped,
        status != QueryStatus::Running ==> finished_status(status, well) == status
            && stopped_status(status) == status,
{
}

} // verus!
