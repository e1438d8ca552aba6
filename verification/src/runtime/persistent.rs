//! Queries that run until they are stopped.
use crate::engine::pipeline::{
    compile, join_in_place, lemma_run_keeps_joins, pipeline_of, run, Pipeline, PipelineView,
};
use crate::error::{join2, Error};
use crate::json::{
    json_parsed, json_written, parsed_fields, reads_back, row_held, row_object, row_to_json,
    DEEPEST,
};
use crate::plan::{PlanView, QueryPlan};
use crate::runtime::pull::{
    copy_texts, left_topics, left_topics_of, load_right_side, right_read,
};
use crate::runtime::record::{into_rows, record_rows, Record, RecordView};
use crate::schema::{SchemaRegistry, SourceView};
use crate::time::Timestamp;
use crate::types::{clone_text, text_view, ColumnView, Row, RowView, Schema};
use crate::value::views;
use vstd::prelude::*;

verus! {

/// How a query is doing.
#[derive(Clone, Copy, Debug, PartialEq, Eq, Structural)]
pub enum QueryStatus {
    Running,
    Stopped,
    Terminated,
    Error,
}

/// The status of a query once it came to its end by itself, well or not.
pub open spec fn finished_status(status: QueryStatus, well: bool) -> QueryStatus {
    if status == QueryStatus::Running {
        if well {
            QueryStatus::Stopped
        } else {
            QueryStatus::Error
        }
    } else {
        status
    }
}

/// The status of a query once it was stopped.
pub open spec fn stopped_status(status: QueryStatus) -> QueryStatus {
    if status == QueryStatus::Running {
        QueryStatus::Stopped
    } else {
        status
    }
}

/// A record that is to be written.
#[derive(Debug)]
pub struct Message {
    pub topic: String,
    pub key: Option<String>,
    pub value: String,
}

/// What a `Message` holds.
pub struct MessageView {
    pub topic: Seq<char>,
    pub key: Option<Seq<char>>,
    pub value: Seq<char>,
}

impl View for Message {
    type V = MessageView;

    open spec fn view(&self) -> MessageView {
        MessageView { topic: self.topic@, key: text_view(self.key), value: self.value@ }
    }
}

/// The record that a row is written as.
pub open spec fn row_message(row: RowView, schema: Seq<ColumnView>, topic: Seq<char>) -> MessageView {
    MessageView {
        topic,
        key: row.metadata.key,
        value: json_written(row_object(row.values, schema)),
    }
}

/// The records that rows are written as.
pub open spec fn row_messages(rows: Seq<RowView>, schema: Seq<ColumnView>, topic: Seq<char>) -> Seq<
    MessageView,
> {
    rows.map_values(|row: RowView| row_message(row, schema, topic))
}

/// Whether rows are read back from the records that they are written as, with the
/// schema of the rows: each that JSON can hold, whose numbers are integers, and that
/// is not nested too deep.
pub open spec fn read_back(
    messages: Seq<Message>,
    rows: Seq<RowView>,
    schema: Seq<ColumnView>,
) -> bool {
    forall|i: int|
        0 <= i < rows.len() && row_held((#[trigger] rows[i]).values, schema) && reads_back(
            row_object(rows[i].values, schema),
            DEEPEST as nat,
        ) ==> parsed_fields(json_parsed(messages[i].value@), schema) == Some(rows[i].values)
}

/// The rows that records lead to at a time.
pub open spec fn output_rows(l: LoopView, records: Seq<RecordView>, now: Timestamp) -> Seq<RowView> {
    match run(l.pipeline.operators, record_rows(records), now, 0).0 {
        Some(Ok(rows)) => rows,
        _ => Seq::empty(),
    }
}

fn make_messages(rows: &Vec<Row>, schema: &Schema, topic: &str) -> (r: Vec<Message>)
    ensures
        views(r@) == row_messages(views(rows@), schema@, topic@),
        read_back(r@, views(rows@), schema@),
{
    let ghost all = row_messages(views(rows@), schema@, topic@);
    let mut messages: Vec<Message> = Vec::new();
    let mut i: usize = 0;
    while i < rows.len()
        invariant
            i <= rows.len(),
            all == row_messages(views(rows@), schema@, topic@),
            messages.len() == i,
            forall|j: int| 0 <= j < i ==> messages@[j]@ == all[j],
            read_back(messages@, views(rows@).take(i as int), schema@),
        decreases rows.len() - i,
    {
        let row = &rows[i];
        let ghost before = messages@;
        let ghost done = views(rows@).take(i as int);
        assert(views(rows@)[i as int] == row@);
        messages.push(
            Message {
                topic: topic.to_owned(),
                key: clone_text(&row.metadata.key),
                value: row_to_json(row, schema),
            },
        );
        proof {
            let more = views(rows@).take(i + 1);
            assert forall|j: int|
                0 <= j < more.len() && row_held((#[trigger] more[j]).values, schema@)
                    && reads_back(
                    row_object(more[j].values, schema@),
                    DEEPEST as nat,
                ) implies parsed_fields(json_parsed(messages@[j].value@), schema@) == Some(
                more[j].values,
            ) by {
                if j < i {
                    assert(more[j] == done[j]);
                    assert(messages@[j] == before[j]);
                }
            }
        }
        i = i + 1;
    }
    proof {
        assert(views(messages@) =~= all);
        assert(views(rows@).take(rows@.len() as int) =~= views(rows@));
    }
    messages
}

/// What a running query does.
#[derive(Clone, Copy, Debug, PartialEq, Eq, Structural)]
pub enum LoopStage {
    /// Read the right side of a join.
    Loading,
    /// Subscribe to the topics that it reads.
    Subscribing,
    /// See to it that the topic that it writes is there.
    Ensuring,
    /// Read new records.
    Polling,
    /// Wait for new records.
    Sleeping,
    /// Write results.
    Sending,
    /// Keep in mind how far it has read.
    Committing,
    /// Give up its subscription.
    Closing,
}

/// What is to be done next.
#[derive(Debug)]
pub enum LoopAction {
    /// Read all records of a topic.
    Load(String),
    /// Subscribe to topics.
    Subscribe(Vec<String>),
    /// See to it that a topic is there.
    EnsureTopic(String),
    /// Read new records.
    Poll,
    /// Wait a moment.
    Sleep,
    /// Write records.
    Send(Vec<Message>),
    /// Keep in mind how far records were read.
    Commit,
    /// Give up the subscription.
    Close,
    /// Nothing: the query came to its end, well or not.
    Finish(bool),
}

/// What a `LoopAction` holds.
pub enum LoopActionView {
    Load(Seq<char>),
    Subscribe(Seq<Seq<char>>),
    EnsureTopic(Seq<char>),
    Poll,
    Sleep,
    Send(Seq<MessageView>),
    Commit,
    Close,
    Finish(bool),
}

impl View for LoopAction {
    type V = LoopActionView;

    open spec fn view(&self) -> LoopActionView {
        match self {
            LoopAction::Load(topic) => LoopActionView::Load(topic@),
            LoopAction::Subscribe(topics) => LoopActionView::Subscribe(views(topics@)),
            LoopAction::EnsureTopic(topic) => LoopActionView::EnsureTopic(topic@),
            LoopAction::Poll => LoopActionView::Poll,
            LoopAction::Sleep => LoopActionView::Sleep,
            LoopAction::Send(messages) => LoopActionView::Send(views(messages@)),
            LoopAction::Commit => LoopActionView::Commit,
            LoopAction::Close => LoopActionView::Close,
            LoopAction::Finish(well) => LoopActionView::Finish(*well),
        }
    }
}

/// What came of an action.
#[derive(Debug)]
pub enum LoopEvent {
    /// It was done. These records were read, where it was to read any.
    Done(Vec<Record>),
    /// It failed.
    Failed,
}

/// What a `LoopEvent` holds.
pub enum LoopEventView {
    Done(Seq<RecordView>),
    Failed,
}

impl View for LoopEvent {
    type V = LoopEventView;

    open spec fn view(&self) -> LoopEventView {
        match self {
            LoopEvent::Done(records) => LoopEventView::Done(views(records@)),
            LoopEvent::Failed => LoopEventView::Failed,
        }
    }
}

/// A query that is run.
#[derive(Debug)]
pub struct QueryLoop {
    pipeline: Pipeline,
    left_topics: Vec<String>,
    sink_topic: String,
    group_id: String,
    stage: LoopStage,
}

/// What a `QueryLoop` holds.
pub struct LoopView {
    pub pipeline: PipelineView,
    pub left_topics: Seq<Seq<char>>,
    pub sink_topic: Seq<char>,
    pub group_id: Seq<char>,
    pub stage: LoopStage,
}

impl View for QueryLoop {
    type V = LoopView;

    closed spec fn view(&self) -> LoopView {
        LoopView {
            pipeline: self.pipeline@,
            left_topics: views(self.left_topics@),
            sink_topic: self.sink_topic@,
            group_id: self.group_id@,
            stage: self.stage,
        }
    }
}

/// The group that a query reads as.
pub open spec fn group_of(id: Seq<char>) -> Seq<char> {
    "_merksql_query_"@ + id
}

/// The run of a plan.
pub open spec fn loop_of(
    id: Seq<char>,
    plan: PlanView,
    sink_topic: Seq<char>,
    sources: Seq<(Seq<char>, SourceView)>,
) -> Result<LoopView, Seq<char>> {
    match pipeline_of(plan, sources) {
        Ok(pipeline) => Ok(
            LoopView {
                pipeline,
                left_topics: left_topics_of(plan, sources, pipeline),
                sink_topic,
                group_id: group_of(id),
                stage: if pipeline.join.right_source_topic is Some {
                    LoopStage::Loading
                } else {
                    LoopStage::Subscribing
                },
            },
        ),
        Err(e) => Err(e),
    }
}

/// What a query does first: read the right side of its join, or subscribe.
pub open spec fn first_action(l: LoopView) -> LoopActionView {
    match (l.stage, l.pipeline.join.right_source_topic) {
        (LoopStage::Loading, Some(topic)) => LoopActionView::Load(topic),
        _ => LoopActionView::Subscribe(l.left_topics),
    }
}

/// A query in another stage.
pub open spec fn at_stage(l: LoopView, stage: LoopStage) -> LoopView {
    LoopView { stage, ..l }
}

/// A query before it reads again: it goes on as long as it is to run.
pub open spec fn again(l: LoopView, running: bool) -> (Option<LoopActionView>, LoopView) {
    if running {
        (Some(LoopActionView::Poll), at_stage(l, LoopStage::Polling))
    } else {
        (Some(LoopActionView::Close), at_stage(l, LoopStage::Closing))
    }
}

/// What is to be done once new records were read at a time, and the query then.
pub open spec fn polled(l: LoopView, records: Seq<RecordView>, now: Timestamp) -> (
    Option<LoopActionView>,
    LoopView,
) {
    if records.len() == 0 {
        (Some(LoopActionView::Sleep), at_stage(l, LoopStage::Sleeping))
    } else {
        let (r, operators) = run(l.pipeline.operators, record_rows(records), now, 0);
        let after = LoopView { pipeline: PipelineView { operators, ..l.pipeline }, ..l };
        match r {
            Some(Ok(rows)) => (
                Some(
                    LoopActionView::Send(
                        row_messages(rows, l.pipeline.output_schema, l.sink_topic),
                    ),
                ),
                at_stage(after, LoopStage::Sending),
            ),
            Some(Err(_)) => (Some(LoopActionView::Finish(false)), after),
            None => (None, after),
        }
    }
}

/// What is to be done once something came of the last action, given whether the
/// query is to run on and the time, and the query then. There is no answer where a
/// time that an operator needs is out of range.
pub open spec fn loop_step(l: LoopView, event: LoopEventView, running: bool, now: Timestamp) -> (
    Option<LoopActionView>,
    LoopView,
) {
    match event {
        LoopEventView::Failed => (Some(LoopActionView::Finish(false)), l),
        LoopEventView::Done(records) => match l.stage {
            LoopStage::Loading => (
                Some(LoopActionView::Subscribe(l.left_topics)),
                LoopView {
                    pipeline: right_read(l.pipeline, records, now),
                    stage: LoopStage::Subscribing,
                    ..l
                },
            ),
            LoopStage::Subscribing => (
                Some(LoopActionView::EnsureTopic(l.sink_topic)),
                at_stage(l, LoopStage::Ensuring),
            ),
            LoopStage::Ensuring => again(l, running),
            LoopStage::Polling => polled(l, records, now),
            LoopStage::Sleeping => again(l, running),
            LoopStage::Sending => (
                Some(LoopActionView::Commit),
                at_stage(l, LoopStage::Committing),
            ),
            LoopStage::Committing => again(l, running),
            LoopStage::Closing => (Some(LoopActionView::Finish(true)), l),
        },
    }
}

/// What an optional action holds.
pub open spec fn action_view(a: Option<LoopAction>) -> Option<LoopActionView> {
    match a {
        Some(a) => Some(a@),
        None => None,
    }
}

/// What the start of a run holds.
pub open spec fn loop_outcome(r: Result<QueryLoop, Error>) -> Result<LoopView, Seq<char>> {
    match r {
        Ok(l) => Ok(l@),
        Err(e) => Err(e@),
    }
}

impl QueryLoop {
    /// The join of the pipeline is in its place.
    #[verifier::type_invariant]
    spec fn well_formed(self) -> bool {
        join_in_place(self.pipeline@)
    }

    /// Compiles a plan to be run.
    pub fn start(
        id: &str,
        plan: &QueryPlan,
        sink_topic: &str,
        registry: &SchemaRegistry,
    ) -> (r: Result<QueryLoop, Error>)
        ensures
            loop_outcome(r) == loop_of(id@, plan@, sink_topic@, registry@),
    {
        match compile(plan, registry) {
            Ok(pipeline) => {
                let left_topics = left_topics(plan, registry, &pipeline);
                let stage = if pipeline.right_source_topic.is_some() {
                    LoopStage::Loading
                } else {
                    LoopStage::Subscribing
                };
                Ok(
                    QueryLoop {
                        pipeline,
                        left_topics,
                        sink_topic: sink_topic.to_owned(),
                        group_id: join2("_merksql_query_", id),
                        stage,
                    },
                )
            },
            Err(e) => Err(e),
        }
    }

    /// The group that the query reads as.
    pub fn group_id(&self) -> (r: &str)
        ensures
            r@ == self@.group_id,
    {
        self.group_id.as_str()
    }

    /// What the query does first.
    pub fn first(&self) -> (r: LoopAction)
        ensures
            r@ == first_action(self@),
    {
        match (self.stage, &self.pipeline.right_source_topic) {
            (LoopStage::Loading, Some(topic)) => LoopAction::Load(topic.clone()),
            _ => LoopAction::Subscribe(copy_texts(&self.left_topics)),
        }
    }

    fn repeat(self, running: bool) -> (r: (Option<LoopAction>, QueryLoop))
        ensures
            (action_view(r.0), r.1@) == again(self@, running),
    {
        proof {
            use_type_invariant(&self);
        }
        let mut l = self;
        if running {
            l.stage = LoopStage::Polling;
            (Some(LoopAction::Poll), l)
        } else {
            l.stage = LoopStage::Closing;
            (Some(LoopAction::Close), l)
        }
    }

    /// Takes in what came of the last action. Results that are to be written can be read
    /// back.
    pub fn advance(self, event: LoopEvent, running: bool, now: Timestamp) -> (r: (
        Option<LoopAction>,
        QueryLoop,
    ))
        ensures
            (action_view(r.0), r.1@) == loop_step(self@, event@, running, now),
            (event@, r.0) matches (LoopEventView::Done(records), Some(LoopAction::Send(messages)))
                ==> read_back(
                messages@,
                output_rows(self@, records, now),
                self@.pipeline.output_schema,
            ),
    {
        proof {
            use_type_invariant(&self);
        }
        let records = match event {
            LoopEvent::Done(records) => records,
            LoopEvent::Failed => {
                return (Some(LoopAction::Finish(false)), self);
            },
        };
        match self.stage {
            LoopStage::Loading => {
                let QueryLoop { pipeline, left_topics, sink_topic, group_id, stage } = self;
                let mut pipeline = pipeline;
                load_right_side(&mut pipeline, records, now);
                let topics = copy_texts(&left_topics);
                (
                    Some(LoopAction::Subscribe(topics)),
                    QueryLoop {
                        pipeline,
                        left_topics,
                        sink_topic,
                        group_id,
                        stage: LoopStage::Subscribing,
                    },
                )
            },
            LoopStage::Subscribing => {
                let mut l = self;
                l.stage = LoopStage::Ensuring;
                (Some(LoopAction::EnsureTopic(l.sink_topic.clone())), l)
            },
            LoopStage::Ensuring => self.repeat(running),
            LoopStage::Polling => self.poll_done(records, now),
            LoopStage::Sleeping => self.repeat(running),
            LoopStage::Sending => {
                let mut l = self;
                l.stage = LoopStage::Committing;
                (Some(LoopAction::Commit), l)
            },
            LoopStage::Committing => self.repeat(running),
            LoopStage::Closing => (Some(LoopAction::Finish(true)), self),
        }
    }

    fn poll_done(self, records: Vec<Record>, now: Timestamp) -> (r: (
        Option<LoopAction>,
        QueryLoop,
    ))
        ensures
            (action_view(r.0), r.1@) == polled(self@, views(records@), now),
            r.0 matches Some(LoopAction::Send(messages)) ==> read_back(
                messages@,
                output_rows(self@, views(records@), now),
                self@.pipeline.output_schema,
            ),
    {
        proof {
            use_type_invariant(&self);
        }
        if records.len() == 0 {
            let mut l = self;
            l.stage = LoopStage::Sleeping;
            return (Some(LoopAction::Sleep), l);
        }
        let QueryLoop { pipeline, left_topics, sink_topic, group_id, stage } = self;
        let mut pipeline = pipeline;
        let rows = into_rows(records);
        proof {
            lemma_run_keeps_joins(pipeline@.operators, views(rows@), now, 0);
        }
        match pipeline.try_process(rows, now) {
            Some(Ok(output)) => {
                let messages = make_messages(
                    &output,
                    &pipeline.output_schema,
                    sink_topic.as_str(),
                );
                (
                    Some(LoopAction::Send(messages)),
                    QueryLoop {
                        pipeline,
                        left_topics,
                        sink_topic,
                        group_id,
                        stage: LoopStage::Sending,
                    },
                )
            },
            Some(Err(_)) => (
                Some(LoopAction::Finish(false)),
                QueryLoop { pipeline, left_topics, sink_topic, group_id, stage },
            ),
            None => (None, QueryLoop { pipeline, left_topics, sink_topic, group_id, stage }),
        }
    }
}

/// A query that was started.
#[derive(Debug)]
pub struct PersistentQuery {
    pub id: String,
    pub plan: QueryPlan,
    pub sink_topic: String,
    pub status: QueryStatus,
}

/// What a `PersistentQuery` holds.
pub struct QueryView {
    pub id: Seq<char>,
    pub plan: PlanView,
    pub sink_topic: Seq<char>,
    pub status: QueryStatus,
}

impl View for PersistentQuery {
    type V = QueryView;

    open spec fn view(&self) -> QueryView {
        QueryView {
            id: self.id@,
            plan: self.plan@,
            sink_topic: self.sink_topic@,
            status: self.status,
        }
    }
}

/// What the start of a query holds.
pub open spec fn start_outcome(r: Result<(PersistentQuery, QueryLoop), Error>) -> Result<
    (QueryView, LoopView),
    Seq<char>,
> {
    match r {
        Ok((q, l)) => Ok((q@, l@)),
        Err(e) => Err(e@),
    }
}

/// A query that is started, and its run.
pub open spec fn started(
    id: Seq<char>,
    plan: PlanView,
    sink_topic: Seq<char>,
    sources: Seq<(Seq<char>, SourceView)>,
) -> Result<(QueryView, LoopView), Seq<char>> {
    match loop_of(id, plan, sink_topic, sources) {
        Ok(l) => Ok((QueryView { id, plan, sink_topic, status: QueryStatus::Running }, l)),
        Err(e) => Err(e),
    }
}

impl PersistentQuery {
    /// Starts a query. Its run is to be taken from here on step by step.
    pub fn start(
        id: String,
        plan: QueryPlan,
        sink_topic: String,
        registry: &SchemaRegistry,
    ) -> (r: Result<(PersistentQuery, QueryLoop), Error>)
        ensures
            start_outcome(r) == started(id@, plan@, sink_topic@, registry@),
    {
        match QueryLoop::start(id.as_str(), &plan, sink_topic.as_str(), registry) {
            Ok(l) => Ok(
                (PersistentQuery { id, plan, sink_topic, status: QueryStatus::Running }, l),
            ),
            Err(e) => Err(e),
        }
    }

    pub fn status(&self) -> (r: QueryStatus)
        ensures
            r == self@.status,
    {
        self.status
    }

    /// Notes that the run came to its end, well or not.
    pub fn finish(&mut self, well: bool)
        ensures
            final(self)@ == (QueryView {
                status: finished_status(old(self)@.status, well),
                ..old(self)@
            }),
    {
        if self.status == QueryStatus::Running {
            self.status = if well {
                QueryStatus::Stopped
            } else {
                QueryStatus::Error
            };
        }
    }

    /// Notes that the run was stopped.
    pub fn stop(&mut self)
        ensures
            final(self)@ == (QueryView {
                status: stopped_status(old(self)@.status),
                ..old(self)@
            }),
    {
        if self.status == QueryStatus::Running {
            self.status = QueryStatus::Stopped;
        }
    }

    /// Notes that the run was terminated.
    pub fn terminate(&mut self)
        ensures
            final(self)@ == (QueryView { status: QueryStatus::Terminated, ..old(self)@ }),
    {
        self.status = QueryStatus::Terminated;
    }
}

/// Results are written before it is kept in mind how far records were read: behind
/// the records that were read come the results, and behind these the commit, as
/// long as nothing fails.
pub proof fn lemma_sent_before_committed(
    l: LoopView,
    records: Seq<RecordView>,
    running: bool,
    now: Timestamp,
    later: Timestamp,
    none: Seq<RecordView>,
)
    requires
        l.stage == LoopStage::Polling,
        records.len() > 0,
        run(l.pipeline.operators, record_rows(records), now, 0).0 matches Some(Ok(_)),
    ensures
        ({
            let rows = run(l.pipeline.operators, record_rows(records), now, 0).0->0->Ok_0;
            let (sent, sending) = loop_step(l, LoopEventView::Done(records), running, now);
            let (next, committing) = loop_step(
                sending,
                LoopEventView::Done(none),
                running,
                later,
            );
            &&& sent == Some(
                LoopActionView::Send(
                    row_messages(rows, l.pipeline.output_schema, l.sink_topic),
                ),
            )
            &&& next == Some(LoopActionView::Commit)
            &&& committing.stage == LoopStage::Committing
        }),
{
}

/// A query that is to run no longer gives up its subscription and ends well, as long
/// as nothing fails.
pub proof fn lemma_stops(
    l: LoopView,
    now: Timestamp,
    later: Timestamp,
    none: Seq<RecordView>,
)
    requires
        l.stage == LoopStage::Sleeping || l.stage == LoopStage::Committing || l.stage
            == LoopStage::Ensuring,
    ensures
        ({
            let (closed, closing) = loop_step(l, LoopEventView::Done(none), false, now);
            let (ended, _) = loop_step(closing, LoopEventView::Done(none), false, later);
            &&& closed == Some(LoopActionView::Close)
            &&& ended == Some(LoopActionView::Finish(true))
        }),
{
}

/// Whatever fails, the query ends, and not well.
pub proof fn lemma_failure_ends(l: LoopView, running: bool, now: Timestamp)
    ensures
        loop_step(l, LoopEventView::Failed, running, now).0 == Some(
            LoopActionView::Finish(false),
        ),
        finished_status(QueryStatus::Running, false) == QueryStatus::Error,
{
}

} // verus!
