//! Queries that read what is there, once.
use crate::engine::operator::simple::{deserialized, DeserializeOp};
use crate::engine::pipeline::{
    compile, join_in_place, joined_right, lemma_run_keeps_joins, pipeline_of, run, source_of,
    Pipeline, PipelineView,
};
use crate::error::Error;
use crate::plan::{lemma_plan_has_source, plan_sources, PlanView, QueryPlan};
use crate::runtime::record::{into_rows, record_rows, Record, RecordView};
use crate::schema::{SchemaRegistry, SourceView};
use crate::time::Timestamp;
use crate::types::{Row, RowView, Schema};
use crate::value::views;
use vstd::prelude::*;

pub mod laws;

verus! {

/// The topics whose records go through a pipeline: of a plan with a join that of the
/// first source, of any other those of all sources.
pub open spec fn left_topics_of(
    plan: PlanView,
    sources: Seq<(Seq<char>, SourceView)>,
    pipeline: PipelineView,
) -> Seq<Seq<char>> {
    if pipeline.join.right_source_topic is Some {
        match source_of(sources, plan_sources(plan)[0]) {
            Some(info) => seq![info.topic],
            None => Seq::empty(),
        }
    } else {
        pipeline.source_topics
    }
}

/// Copies texts.
pub fn copy_texts(v: &Vec<String>) -> (r: Vec<String>)
    ensures
        views(r@) == views(v@),
{
    let mut r: Vec<String> = Vec::new();
    let mut i: usize = 0;
    while i < v.len()
        invariant
            i <= v.len(),
            r.len() == i,
            forall|j: int| 0 <= j < i ==> r@[j]@ == v@[j]@,
        decreases v.len() - i,
    {
        r.push(v[i].clone());
        i = i + 1;
    }
    proof {
        assert(views(r@) =~= views(v@));
    }
    r
}

/// The topics whose records go through a pipeline.
pub fn left_topics(plan: &QueryPlan, registry: &SchemaRegistry, pipeline: &Pipeline) -> (r: Vec<
    String,
>)
    ensures
        views(r@) == left_topics_of(plan@, registry@, pipeline@),
{
    if pipeline.right_source_topic.is_some() {
        let names = plan.source_names();
        proof {
            lemma_plan_has_source(plan@);
            assert(views(names@)[0] == names@[0]@);
        }
        let mut topics: Vec<String> = Vec::new();
        match registry.get(names[0].as_str()) {
            Some(info) => {
                topics.push(info.topic.clone());
                proof {
                    assert(views(topics@) =~= seq![info@.topic]);
                }
            },
            None => {
                proof {
                    assert(views(topics@) =~= Seq::<Seq<char>>::empty());
                }
            },
        }
        topics
    } else {
        copy_texts(&pipeline.source_topics)
    }
}

/// A pipeline once the records of the right side of its join were read at a time.
/// Without records it stays as it is.
pub open spec fn right_read(
    p: PipelineView,
    records: Seq<RecordView>,
    now: Timestamp,
) -> PipelineView {
    match p.join.right_schema {
        Some(schema) => if records.len() == 0 {
            p
        } else {
            let rows = record_rows(records);
            joined_right(p, deserialized(rows, schema, rows.len()), now)
        },
        None => p,
    }
}

/// Puts the records of the right side into the join of a pipeline.
pub fn load_right_side(pipeline: &mut Pipeline, records: Vec<Record>, now: Timestamp)
    requires
        join_in_place(old(pipeline)@),
    ensures
        final(pipeline)@ == right_read(old(pipeline)@, views(records@), now),
        join_in_place(final(pipeline)@),
{
    let schema = match &pipeline.right_schema {
        Some(schema) => schema.clone(),
        None => {
            return ;
        },
    };
    if records.len() > 0 {
        let rows = into_rows(records);
        let deserialize = DeserializeOp::new(schema);
        let right_rows = deserialize.read(&rows);
        pipeline.load_join_right_at(right_rows, now);
    }
}

/// What a pull query waits for.
#[derive(Clone, Copy, Debug, PartialEq, Eq, Structural)]
pub enum PullStage {
    /// The records of the right side of a join.
    Right,
    /// The records that go through the pipeline.
    Left,
}

/// A query that reads what is there, once.
#[derive(Debug)]
pub struct PullQuery {
    pipeline: Pipeline,
    left_topics: Vec<String>,
    stage: PullStage,
}

/// What a `PullQuery` holds.
pub struct PullView {
    pub pipeline: PipelineView,
    pub left_topics: Seq<Seq<char>>,
    pub stage: PullStage,
}

impl View for PullQuery {
    type V = PullView;

    closed spec fn view(&self) -> PullView {
        PullView {
            pipeline: self.pipeline@,
            left_topics: views(self.left_topics@),
            stage: self.stage,
        }
    }
}

/// What is to be done next.
#[derive(Debug)]
pub enum PullAnswer {
    /// Read all records of topics.
    Consume(Vec<String>),
    /// Nothing: these are the rows.
    Rows(Vec<Row>),
    /// Nothing: the query failed.
    Failed(Error),
}

/// What a `PullAnswer` holds.
pub enum PullAnswerView {
    Consume(Seq<Seq<char>>),
    Rows(Seq<RowView>),
    Failed(Seq<char>),
}

impl View for PullAnswer {
    type V = PullAnswerView;

    open spec fn view(&self) -> PullAnswerView {
        match self {
            PullAnswer::Consume(topics) => PullAnswerView::Consume(views(topics@)),
            PullAnswer::Rows(rows) => PullAnswerView::Rows(views(rows@)),
            PullAnswer::Failed(e) => PullAnswerView::Failed(e@),
        }
    }
}

/// The pull query of a plan.
pub open spec fn pull_of(plan: PlanView, sources: Seq<(Seq<char>, SourceView)>) -> Result<
    PullView,
    Seq<char>,
> {
    match pipeline_of(plan, sources) {
        Ok(pipeline) => Ok(
            PullView {
                pipeline,
                left_topics: left_topics_of(plan, sources, pipeline),
                stage: if pipeline.join.right_source_topic is Some {
                    PullStage::Right
                } else {
                    PullStage::Left
                },
            },
        ),
        Err(e) => Err(e),
    }
}

/// The topics that are to be read next.
pub open spec fn wanted_topics(q: PullView) -> Seq<Seq<char>> {
    match q.stage {
        PullStage::Right => match q.pipeline.join.right_source_topic {
            Some(topic) => seq![topic],
            None => Seq::empty(),
        },
        PullStage::Left => q.left_topics,
    }
}

/// What is to be done once records were read at a time, and the query then. There is
/// no answer where a time that an operator needs is out of range.
pub open spec fn pull_step(q: PullView, records: Seq<RecordView>, now: Timestamp) -> (
    Option<PullAnswerView>,
    PullView,
) {
    match q.stage {
        PullStage::Right => (
            Some(PullAnswerView::Consume(q.left_topics)),
            PullView {
                pipeline: right_read(q.pipeline, records, now),
                stage: PullStage::Left,
                ..q
            },
        ),
        PullStage::Left => if records.len() == 0 {
            (Some(PullAnswerView::Rows(Seq::empty())), q)
        } else {
            let (r, operators) = run(q.pipeline.operators, record_rows(records), now, 0);
            (
                match r {
                    Some(Ok(rows)) => Some(PullAnswerView::Rows(rows)),
                    Some(Err(e)) => Some(PullAnswerView::Failed(e)),
                    None => None,
                },
                PullView { pipeline: PipelineView { operators, ..q.pipeline }, ..q },
            )
        },
    }
}

/// What a pull query answers in the end, given the records of the right side of its
/// join, where it has one, and those that go through the pipeline, each with the time at
/// which they are read.
pub open spec fn pulled(
    q: PullView,
    right: Seq<RecordView>,
    loaded: Timestamp,
    left: Seq<RecordView>,
    now: Timestamp,
) -> Option<PullAnswerView> {
    match q.stage {
        PullStage::Right => pull_step(pull_step(q, right, loaded).1, left, now).0,
        PullStage::Left => pull_step(q, left, now).0,
    }
}

/// What the start of a pull query holds.
pub open spec fn pull_outcome(r: Result<PullQuery, Error>) -> Result<PullView, Seq<char>> {
    match r {
        Ok(q) => Ok(q@),
        Err(e) => Err(e@),
    }
}

/// What an optional answer holds.
pub open spec fn answer_view(a: Option<PullAnswer>) -> Option<PullAnswerView> {
    match a {
        Some(a) => Some(a@),
        None => None,
    }
}

impl PullQuery {
    /// The join of the pipeline is in its place.
    #[verifier::type_invariant]
    spec fn well_formed(self) -> bool {
        join_in_place(self.pipeline@)
    }

    /// Compiles a plan to a pull query.
    pub fn start(plan: &QueryPlan, registry: &SchemaRegistry) -> (r: Result<PullQuery, Error>)
        ensures
            pull_outcome(r) == pull_of(plan@, registry@),
    {
        match compile(plan, registry) {
            Ok(pipeline) => {
                let left_topics = left_topics(plan, registry, &pipeline);
                let stage = if pipeline.right_source_topic.is_some() {
                    PullStage::Right
                } else {
                    PullStage::Left
                };
                Ok(PullQuery { pipeline, left_topics, stage })
            },
            Err(e) => Err(e),
        }
    }

    /// The schema of the rows.
    pub fn output_schema(&self) -> (r: &Schema)
        ensures
            r@ == self@.pipeline.output_schema,
    {
        &self.pipeline.output_schema
    }

    /// The topics that are to be read next.
    pub fn topics(&self) -> (r: Vec<String>)
        ensures
            views(r@) == wanted_topics(self@),
    {
        match self.stage {
            PullStage::Right => {
                let mut topics: Vec<String> = Vec::new();
                proof {
                    assert(views(topics@) =~= Seq::<Seq<char>>::empty());
                }
                if let Some(topic) = &self.pipeline.right_source_topic {
                    topics.push(topic.clone());
                    proof {
                        assert(views(topics@) =~= seq![topic@]);
                    }
                }
                topics
            },
            PullStage::Left => copy_texts(&self.left_topics),
        }
    }

    /// Takes in the records that were read at a time.
    pub fn receive(self, records: Vec<Record>, now: Timestamp) -> (r: (
        Option<PullAnswer>,
        PullQuery,
    ))
        ensures
            (answer_view(r.0), r.1@) == pull_step(self@, views(records@), now),
    {
        proof {
            use_type_invariant(&self);
        }
        let stage = self.stage;
        let mut pipeline = self.pipeline;
        let left_topics = self.left_topics;
        match stage {
            PullStage::Right => {
                load_right_side(&mut pipeline, records, now);
                let topics = copy_texts(&left_topics);
                (
                    Some(PullAnswer::Consume(topics)),
                    PullQuery { pipeline, left_topics, stage: PullStage::Left },
                )
            },
            PullStage::Left => {
                if records.len() == 0 {
                    let none: Vec<Row> = Vec::new();
                    proof {
                        assert(views(none@) =~= Seq::<RowView>::empty());
                    }
                    return (
                        Some(PullAnswer::Rows(none)),
                        PullQuery { pipeline, left_topics, stage },
                    );
                }
                let ghost before = pipeline@;
                let rows = into_rows(records);
                proof {
                    lemma_run_keeps_joins(before.operators, views(rows@), now, 0);
                }
                let r = pipeline.try_process(rows, now);
                let answer = match r {
                    Some(Ok(rows)) => Some(PullAnswer::Rows(rows)),
                    Some(Err(e)) => Some(PullAnswer::Failed(e)),
                    None => None,
                };
                (answer, PullQuery { pipeline, left_topics, stage })
            },
        }
    }
}

} // verus!
