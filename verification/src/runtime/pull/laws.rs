//! Laws of pull queries: what they read is all that they know.
use crate::engine::operator::join::laws::carry_times;
use crate::engine::operator::simple::deserialized;
use crate::engine::pipeline::times::{
    lemma_compiled_times, lemma_deserialized_carry, lemma_right_any_time, lemma_run_any_time,
    own_times, plan_has_own_times,
};
use crate::engine::pipeline::{
    join_in_place, join_of, no_join, pipeline_of, plan_join, run, source_of, PipelineView,
};
use crate::plan::{plan_sources, PlanView};
use crate::runtime::pull::{
    pull_of, pull_step, pulled, right_read, wanted_topics, PullAnswerView, PullStage, PullView,
};
use crate::runtime::record::{record_rows, RecordView};
use crate::schema::SourceView;
use crate::time::Timestamp;
use vstd::prelude::*;

verus! {

/// A second pull of a plan over the same records gives the same rows. Neither has kept
/// anything of the other: they start alike, with nothing in their state.
pub proof fn lemma_pull_again(
    plan: PlanView,
    sources: Seq<(Seq<char>, SourceView)>,
    first: PullView,
    second: PullView,
    right: Seq<RecordView>,
    loaded: Timestamp,
    left: Seq<RecordView>,
    now: Timestamp,
)
    requires
        pull_of(plan, sources) == Ok::<PullView, Seq<char>>(first),
        pull_of(plan, sources) == Ok::<PullView, Seq<char>>(second),
    ensures
        pulled(first, right, loaded, left, now) == pulled(second, right, loaded, left, now),
        !(pulled(first, right, loaded, left, now) matches Some(PullAnswerView::Consume(_))),
{
}

/// Rows that are made of records carry the times of these.
pub proof fn lemma_records_carry(records: Seq<RecordView>)
    ensures
        carry_times(record_rows(records)),
{
}

proof fn lemma_right_read_any_time(
    p: PipelineView,
    records: Seq<RecordView>,
    now: Timestamp,
    later: Timestamp,
)
    requires
        own_times(p.operators, 0),
        join_in_place(p),
    ensures
        right_read(p, records, now) == right_read(p, records, later),
        own_times(right_read(p, records, now).operators, 0),
{
    if let Some(schema) = p.join.right_schema {
        let rows = record_rows(records);
        lemma_records_carry(records);
        lemma_deserialized_carry(rows, schema, rows.len());
        lemma_right_any_time(p, deserialized(rows, schema, rows.len()), now, later);
    }
}

/// Whenever two pulls of a plan read the same records, they give the same rows, where the
/// plan looks at the times of records alone. A plan with a window, or with a join within a
/// span, over groups does not: rows of groups carry no times, and are taken to be of the
/// present.
pub proof fn lemma_pull_any_time(
    plan: PlanView,
    sources: Seq<(Seq<char>, SourceView)>,
    first: PullView,
    second: PullView,
    right: Seq<RecordView>,
    left: Seq<RecordView>,
    first_times: (Timestamp, Timestamp),
    second_times: (Timestamp, Timestamp),
)
    requires
        pull_of(plan, sources) == Ok::<PullView, Seq<char>>(first),
        pull_of(plan, sources) == Ok::<PullView, Seq<char>>(second),
        join_in_place(first.pipeline),
        plan_has_own_times(plan),
    ensures
        pulled(first, right, first_times.0, left, first_times.1) == pulled(
            second,
            right,
            second_times.0,
            left,
            second_times.1,
        ),
{
    lemma_compiled_times(plan, sources);
    let (loaded, now) = first_times;
    let (again, later) = second_times;
    let p = match first.stage {
        PullStage::Right => {
            lemma_right_read_any_time(first.pipeline, right, loaded, again);
            right_read(first.pipeline, right, loaded)
        },
        PullStage::Left => first.pipeline,
    };
    lemma_records_carry(left);
    lemma_run_any_time(p.operators, record_rows(left), now, later, 0);
}

/// Nothing is known of a join where a plan has none.
pub proof fn lemma_no_join(p: PlanView, sources: Seq<(Seq<char>, SourceView)>)
    requires
        plan_join(p) is None,
    ensures
        join_of(p, sources) == no_join(),
    decreases p,
{
    match p {
        PlanView::Filter { input, .. } => lemma_no_join(*input, sources),
        PlanView::Project { input, .. } => lemma_no_join(*input, sources),
        PlanView::Aggregate { input, .. } => lemma_no_join(*input, sources),
        PlanView::Sink { input, .. } => lemma_no_join(*input, sources),
        _ => {},
    }
}

/// A pull of a plan without a join. It fails exactly where the plan cannot be compiled.
/// It reads the records of all sources; without any it answers no rows, else what the
/// compiled pipeline makes of them in one batch. Once there are more records, it answers
/// what the pipeline makes of the old ones and the new ones.
pub proof fn lemma_pull(
    plan: PlanView,
    sources: Seq<(Seq<char>, SourceView)>,
    old_records: Seq<RecordView>,
    new_records: Seq<RecordView>,
    loaded: Timestamp,
    now: Timestamp,
)
    requires
        plan_join(plan) is None,
    ensures
        match pipeline_of(plan, sources) {
            Err(e) => pull_of(plan, sources) == Err::<PullView, Seq<char>>(e),
            Ok(p) => {
                let none = Seq::<RecordView>::empty();
                let records = old_records + new_records;
                &&& pull_of(plan, sources) == Ok::<PullView, Seq<char>>(
                    PullView {
                        pipeline: p,
                        left_topics: p.source_topics,
                        stage: PullStage::Left,
                    },
                )
                &&& pulled(pull_of(plan, sources)->Ok_0, none, loaded, none, now) == Some(
                    PullAnswerView::Rows(Seq::empty()),
                )
                &&& records.len() > 0 ==> pulled(
                    pull_of(plan, sources)->Ok_0,
                    none,
                    loaded,
                    records,
                    now,
                ) == (match run(
                    p.operators,
                    record_rows(old_records) + record_rows(new_records),
                    now,
                    0,
                ).0 {
                    Some(Ok(rows)) => Some(PullAnswerView::Rows(rows)),
                    Some(Err(e)) => Some(PullAnswerView::Failed(e)),
                    None => None,
                })
            },
        },
{
    lemma_no_join(plan, sources);
    assert(record_rows(old_records + new_records) =~= record_rows(old_records) + record_rows(
        new_records,
    ));
}

/// A pull of a plan with a join reads the topic of the right side first, and then that of
/// the first source. It answers what the pipeline makes of the records of the latter, with
/// those of the former put into the join; without any of the latter, no rows.
pub proof fn lemma_pull_joined(
    plan: PlanView,
    sources: Seq<(Seq<char>, SourceView)>,
    right: Seq<RecordView>,
    loaded: Timestamp,
    left: Seq<RecordView>,
    now: Timestamp,
)
    requires
        pipeline_of(plan, sources) matches Ok(p) && p.join.right_source_topic is Some,
        source_of(sources, plan_sources(plan)[0]) is Some,
    ensures
        ({
            let p = pipeline_of(plan, sources)->Ok_0;
            let first = source_of(sources, plan_sources(plan)[0])->0;
            let loading = right_read(p, right, loaded);
            &&& pull_of(plan, sources) matches Ok(q) && {
                &&& q.pipeline == p
                &&& wanted_topics(q) == seq![p.join.right_source_topic->0]
                &&& pull_step(q, right, loaded).0 == Some(
                    PullAnswerView::Consume(seq![first.topic]),
                )
                &&& wanted_topics(pull_step(q, right, loaded).1) == seq![first.topic]
                &&& pulled(q, right, loaded, left, now) == if left.len() == 0 {
                    Some(PullAnswerView::Rows(Seq::empty()))
                } else {
                    match run(loading.operators, record_rows(left), now, 0).0 {
                        Some(Ok(rows)) => Some(PullAnswerView::Rows(rows)),
                        Some(Err(e)) => Some(PullAnswerView::Failed(e)),
                        None => None,
                    }
                }
            }
        }),
{
}

} // verus!
