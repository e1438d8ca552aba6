//! The queries that were started.
use crate::engine::pipeline::pipeline_of;
use crate::error::{fail2, join2, Error};
use crate::plan::{PlanView, QueryPlan};
use crate::runtime::persistent::{
    finished_status, started, stopped_status, LoopView, PersistentQuery, QueryLoop, QueryStatus,
    QueryView,
};
use crate::schema::{SchemaRegistry, SourceView};
use crate::text::{decimal, lemma_decimal_distinct, nat_to_text, same_text};
use crate::value::views;
use vstd::prelude::*;

verus! {

/// The queries that were started. No two have the same id.
#[derive(Debug)]
pub struct QueryRegistry {
    queries: Vec<PersistentQuery>,
    next_id: u64,
}

/// What a `QueryRegistry` holds: the queries in the order in which they were started,
/// and the number of the next.
pub struct RegistryView {
    pub queries: Seq<QueryView>,
    pub next_id: nat,
}

impl View for QueryRegistry {
    type V = RegistryView;

    closed spec fn view(&self) -> RegistryView {
        RegistryView { queries: views(self.queries@), next_id: self.next_id as nat }
    }
}

/// The id of the query with a number.
pub open spec fn query_id(n: nat) -> Seq<char> {
    "q"@ + decimal(n)
}

/// Whether an id is that of a query with a number below another.
pub open spec fn id_below(id: Seq<char>, n: nat) -> bool {
    exists|k: nat| k < n && id == #[trigger] query_id(k)
}

/// Whether all queries have ids of their own, with numbers below the next.
pub open spec fn ids_in_order(r: RegistryView) -> bool {
    &&& forall|i: int| 0 <= i < r.queries.len() ==> id_below(#[trigger] r.queries[i].id, r.next_id)
    &&& forall|i: int, j: int|
        0 <= i < j < r.queries.len() ==> #[trigger] r.queries[i].id != #[trigger] r.queries[j].id
}

/// The place of the first query from `i` on with an id.
pub open spec fn query_place(queries: Seq<QueryView>, id: Seq<char>, i: nat) -> Option<nat>
    decreases queries.len() - i,
{
    if i >= queries.len() {
        None
    } else if queries[i as int].id == id {
        Some(i)
    } else {
        query_place(queries, id, i + 1)
    }
}

/// The status of the query with an id.
pub open spec fn status_of(r: RegistryView, id: Seq<char>) -> Option<QueryStatus> {
    match query_place(r.queries, id, 0) {
        Some(i) => Some(r.queries[i as int].status),
        None => None,
    }
}

/// A query with another status.
pub open spec fn with_status(q: QueryView, status: QueryStatus) -> QueryView {
    QueryView { status, ..q }
}

/// The message about a query that is not there.
pub open spec fn query_not_found(id: Seq<char>) -> Seq<char> {
    "Query not found: "@ + id
}

/// The answer to a start, and the queries then. The number is used up, whether the
/// query can be started or not.
pub open spec fn query_started(
    r: RegistryView,
    plan: PlanView,
    sink_topic: Seq<char>,
    sources: Seq<(Seq<char>, SourceView)>,
) -> (Result<(Seq<char>, LoopView), Seq<char>>, RegistryView) {
    let id = query_id(r.next_id);
    match started(id, plan, sink_topic, sources) {
        Ok((q, l)) => (
            Ok((id, l)),
            RegistryView { queries: r.queries.push(q), next_id: r.next_id + 1 },
        ),
        Err(e) => (Err(e), RegistryView { next_id: r.next_id + 1, ..r }),
    }
}

/// What the start of a query holds.
pub open spec fn start_answer(r: Result<(String, QueryLoop), Error>) -> Result<
    (Seq<char>, LoopView),
    Seq<char>,
> {
    match r {
        Ok((id, l)) => Ok((id@, l@)),
        Err(e) => Err(e@),
    }
}

/// The answer to a change of the query with an id.
pub open spec fn change_answer(r: RegistryView, id: Seq<char>) -> Result<(), Seq<char>> {
    if query_place(r.queries, id, 0) is Some {
        Ok(())
    } else {
        Err(query_not_found(id))
    }
}

/// The queries once the one with an id has another status.
pub open spec fn changed(r: RegistryView, id: Seq<char>, status: QueryStatus) -> RegistryView {
    match query_place(r.queries, id, 0) {
        Some(i) => RegistryView {
            queries: r.queries.update(i as int, with_status(r.queries[i as int], status)),
            ..r
        },
        None => r,
    }
}

/// The queries once all were stopped.
pub open spec fn all_stopped(r: RegistryView) -> RegistryView {
    RegistryView {
        queries: r.queries.map_values(
            |q: QueryView| with_status(q, stopped_status(q.status)),
        ),
        ..r
    }
}

/// What an answer without a value holds.
pub open spec fn unit_outcome(r: Result<(), Error>) -> Result<(), Seq<char>> {
    match r {
        Ok(()) => Ok(()),
        Err(e) => Err(e@),
    }
}

/// A query that is found is in its place.
pub proof fn lemma_query_place(queries: Seq<QueryView>, id: Seq<char>, i: nat)
    ensures
        match query_place(queries, id, i) {
            Some(k) => i <= k < queries.len() && queries[k as int].id == id,
            None => forall|j: int| i <= j < queries.len() ==> #[trigger] queries[j].id != id,
        },
    decreases queries.len() - i,
{
    if i < queries.len() && queries[i as int].id != id {
        lemma_query_place(queries, id, i + 1);
    }
}

/// Two numbers have different ids.
pub proof fn lemma_query_id(a: nat, b: nat)
    ensures
        query_id(a) == query_id(b) ==> a == b,
{
    if query_id(a) == query_id(b) {
        reveal_strlit("q");
        assert(query_id(a).skip(1) =~= decimal(a));
        assert(query_id(b).skip(1) =~= decimal(b));
        lemma_decimal_distinct(a, b);
    }
}

/// The queries after the first `n` of some starts.
pub open spec fn after_starts(
    r: RegistryView,
    starts: Seq<(PlanView, Seq<char>)>,
    sources: Seq<(Seq<char>, SourceView)>,
    n: nat,
) -> RegistryView
    decreases n,
{
    if n == 0 {
        r
    } else {
        let before = after_starts(r, starts, sources, (n - 1) as nat);
        query_started(before, starts[n - 1].0, starts[n - 1].1, sources).1
    }
}

/// A query that is started gets an id that no other had, and stands under it as
/// running. The others stay as they are.
pub proof fn lemma_started_is_found(
    r: RegistryView,
    plan: PlanView,
    sink_topic: Seq<char>,
    sources: Seq<(Seq<char>, SourceView)>,
    other: Seq<char>,
)
    requires
        ids_in_order(r),
    ensures
        ids_in_order(query_started(r, plan, sink_topic, sources).1),
        query_started(r, plan, sink_topic, sources).0 matches Ok((id, _)) ==> {
            let after = query_started(r, plan, sink_topic, sources).1;
            &&& status_of(r, id) is None
            &&& status_of(after, id) == Some(QueryStatus::Running)
            &&& other != id ==> status_of(after, other) == status_of(r, other)
        },
{
    let id = query_id(r.next_id);
    let after = query_started(r, plan, sink_topic, sources).1;
    assert forall|i: int| 0 <= i < r.queries.len() implies #[trigger] r.queries[i].id != id by {
        assert(id_below(r.queries[i].id, r.next_id));
        let k = choose|k: nat| k < r.next_id && r.queries[i].id == #[trigger] query_id(k);
        lemma_query_id(k, r.next_id);
    }
    assert forall|i: int| 0 <= i < after.queries.len() implies id_below(
        #[trigger] after.queries[i].id,
        after.next_id,
    ) by {
        if i < r.queries.len() {
            assert(id_below(r.queries[i].id, r.next_id));
            let k = choose|k: nat| k < r.next_id && r.queries[i].id == #[trigger] query_id(k);
            assert(k < after.next_id && after.queries[i].id == query_id(k));
        } else {
            assert(r.next_id < after.next_id && after.queries[i].id == query_id(r.next_id));
        }
    }
    lemma_query_place(r.queries, id, 0);
    lemma_query_place(r.queries, other, 0);
    lemma_query_place(after.queries, id, 0);
    lemma_query_place(after.queries, other, 0);
    if started(id, plan, sink_topic, sources) is Ok {
        let n = r.queries.len() as int;
        assert(after.queries[n].id == id);
        assert forall|i: int| 0 <= i < n implies #[trigger] after.queries[i] == r.queries[i] by {}
        if let Some(k) = query_place(r.queries, other, 0) {
            assert(after.queries[k as int].id == other);
        }
        if let Some(k) = query_place(after.queries, other, 0) {
            if other != id {
                assert(r.queries[k as int].id == other);
            }
        }
    }
}

/// Each start uses up a number, whether the query can be started or not: the start behind
/// `n` others is of the number that is `n` higher. It fails exactly where the plan cannot
/// be compiled, and leaves all queries as they are then. Else the query has the id of its
/// number, which no other had, and stands under it as running, behind all others, which
/// stay as they are.
pub proof fn lemma_starts(
    r: RegistryView,
    starts: Seq<(PlanView, Seq<char>)>,
    sources: Seq<(Seq<char>, SourceView)>,
    n: nat,
    plan: PlanView,
    sink_topic: Seq<char>,
    other: Seq<char>,
)
    requires
        n <= starts.len(),
        ids_in_order(r),
    ensures
        ({
            let before = after_starts(r, starts, sources, n);
            let (answer, after) = query_started(before, plan, sink_topic, sources);
            let id = query_id(r.next_id + n);
            &&& before.next_id == r.next_id + n
            &&& after.next_id == before.next_id + 1
            &&& ids_in_order(before) && ids_in_order(after)
            &&& answer is Err <==> pipeline_of(plan, sources) is Err
            &&& answer is Err ==> after.queries == before.queries && status_of(after, other)
                == status_of(before, other)
            &&& answer matches Ok((given, _)) ==> {
                &&& given == id
                &&& after.queries.len() == before.queries.len() + 1
                &&& status_of(before, id) is None
                &&& status_of(after, id) == Some(QueryStatus::Running)
                &&& other != id ==> status_of(after, other) == status_of(before, other)
            }
        }),
    decreases n,
{
    let before = after_starts(r, starts, sources, n);
    if n > 0 {
        let (p, t) = starts[n - 1];
        lemma_starts(r, starts, sources, (n - 1) as nat, p, t, other);
    }
    lemma_started_is_found(before, plan, sink_topic, sources, other);
}

/// After a change the query with the id has the new status, and all others the one
/// that they had.
pub proof fn lemma_changed_status(
    r: RegistryView,
    id: Seq<char>,
    status: QueryStatus,
    other: Seq<char>,
)
    requires
        ids_in_order(r),
    ensures
        ids_in_order(changed(r, id, status)),
        status_of(r, id) is Some ==> status_of(changed(r, id, status), id) == Some(status),
        other != id ==> status_of(changed(r, id, status), other) == status_of(r, other),
{
    let after = changed(r, id, status);
    lemma_query_place(r.queries, id, 0);
    assert forall|i: int| 0 <= i < after.queries.len() implies #[trigger] after.queries[i].id
        == r.queries[i].id by {}
    assert forall|i: int| 0 <= i < after.queries.len() implies id_below(
        #[trigger] after.queries[i].id,
        after.next_id,
    ) by {
        assert(id_below(r.queries[i].id, r.next_id));
    }
    lemma_same_places(r.queries, after.queries, id, 0);
    lemma_same_places(r.queries, after.queries, other, 0);
    lemma_query_place(r.queries, other, 0);
}

/// Where the ids are the same, so are the places.
proof fn lemma_same_places(a: Seq<QueryView>, b: Seq<QueryView>, id: Seq<char>, i: nat)
    requires
        a.len() == b.len(),
        forall|j: int| 0 <= j < b.len() ==> #[trigger] b[j].id == a[j].id,
    ensures
        query_place(a, id, i) == query_place(b, id, i),
    decreases a.len() - i,
{
    if i < a.len() {
        assert(b[i as int].id == a[i as int].id);
        lemma_same_places(a, b, id, i + 1);
    }
}

/// Once all were stopped, none is running, and those that ran are stopped.
pub proof fn lemma_all_stopped(r: RegistryView, id: Seq<char>)
    requires
        ids_in_order(r),
    ensures
        ids_in_order(all_stopped(r)),
        status_of(all_stopped(r), id) == (match status_of(r, id) {
            Some(status) => Some(stopped_status(status)),
            None => None,
        }),
        status_of(all_stopped(r), id) != Some(QueryStatus::Running),
{
    let after = all_stopped(r);
    assert forall|i: int| 0 <= i < after.queries.len() implies #[trigger] after.queries[i].id
        == r.queries[i].id by {}
    assert forall|i: int| 0 <= i < after.queries.len() implies id_below(
        #[trigger] after.queries[i].id,
        after.next_id,
    ) by {
        assert(id_below(r.queries[i].id, r.next_id));
    }
    lemma_same_places(r.queries, after.queries, id, 0);
    lemma_query_place(r.queries, id, 0);
}

impl Default for QueryRegistry {
    fn default() -> (r: QueryRegistry)
        ensures
            r@ == (RegistryView { queries: Seq::empty(), next_id: 1 }),
    {
        let r = QueryRegistry { queries: Vec::new(), next_id: 1 };
        proof {
            assert(r@.queries =~= Seq::<QueryView>::empty());
        }
        r
    }
}

impl QueryRegistry {
    #[verifier::type_invariant]
    spec fn well_formed(self) -> bool {
        ids_in_order(self@)
    }

    pub fn new() -> (r: QueryRegistry)
        ensures
            r@ == (RegistryView { queries: Seq::empty(), next_id: 1 }),
    {
        QueryRegistry::default()
    }

    fn find(&self, id: &str) -> (r: Option<usize>)
        ensures
            match r {
                Some(i) => query_place(self@.queries, id@, 0) == Some(i as nat) && i
                    < self@.queries.len(),
                None => query_place(self@.queries, id@, 0) is None,
            },
    {
        let mut i: usize = 0;
        while i < self.queries.len()
            invariant
                i <= self.queries.len(),
                query_place(self@.queries, id@, 0) == query_place(self@.queries, id@, i as nat),
            decreases self.queries.len() - i,
        {
            assert(self@.queries[i as int] == self.queries@[i as int]@);
            if same_text(self.queries[i].id.as_str(), id) {
                return Some(i);
            }
            i = i + 1;
        }
        None
    }

    /// Whether all ids were given.
    pub fn is_full(&self) -> (r: bool)
        ensures
            r == (self@.next_id == u64::MAX),
    {
        self.next_id == u64::MAX
    }

    /// Starts a query under a new id. Its run is to be taken from here on step by
    /// step.
    pub fn start_query(
        &mut self,
        plan: QueryPlan,
        sink_topic: String,
        registry: &SchemaRegistry,
    ) -> (r: Result<(String, QueryLoop), Error>)
        requires
            old(self)@.next_id < u64::MAX,
        ensures
            (start_answer(r), final(self)@) == query_started(
                old(self)@,
                plan@,
                sink_topic@,
                registry@,
            ),
            ids_in_order(final(self)@),
    {
        proof {
            use_type_invariant(&*self);
            lemma_started_is_found(self@, plan@, sink_topic@, registry@, Seq::empty());
        }
        let number = nat_to_text(self.next_id);
        let id = join2("q", number.as_str());
        let mut queries: Vec<PersistentQuery> = Vec::new();
        std::mem::swap(&mut queries, &mut self.queries);
        let next_id = self.next_id + 1;
        match PersistentQuery::start(id.clone(), plan, sink_topic, registry) {
            Ok((query, run)) => {
                let ghost before = views(queries@);
                let ghost held = query@;
                queries.push(query);
                proof {
                    assert(views(queries@) =~= before.push(held));
                }
                *self = QueryRegistry { queries, next_id };
                Ok((id, run))
            },
            Err(e) => {
                *self = QueryRegistry { queries, next_id };
                Err(e)
            },
        }
    }

    /// The ids and statuses of all queries.
    pub fn list(&self) -> (r: Vec<(String, QueryStatus)>)
        ensures
            r@.len() == self@.queries.len(),
            forall|i: int|
                0 <= i < r@.len() ==> (#[trigger] r@[i]).0@ == self@.queries[i].id && r@[i].1
                    == self@.queries[i].status,
    {
        let mut r: Vec<(String, QueryStatus)> = Vec::new();
        let mut i: usize = 0;
        while i < self.queries.len()
            invariant
                i <= self.queries.len(),
                r.len() == i,
                forall|j: int|
                    0 <= j < i ==> (#[trigger] r@[j]).0@ == self@.queries[j].id && r@[j].1
                        == self@.queries[j].status,
            decreases self.queries.len() - i,
        {
            assert(self@.queries[i as int] == self.queries@[i as int]@);
            r.push((self.queries[i].id.clone(), self.queries[i].status()));
            i = i + 1;
        }
        r
    }

    /// The status of the query with an id.
    pub fn status(&self, id: &str) -> (r: Option<QueryStatus>)
        ensures
            r == status_of(self@, id@),
    {
        match self.find(id) {
            Some(i) => Some(self.queries[i].status()),
            None => None,
        }
    }

    /// Lets something happen to the query with an id.
    fn change(&mut self, id: &str, change: Change) -> (r: Result<(), Error>)
        ensures
            unit_outcome(r) == change_answer(old(self)@, id@),
            final(self)@ == (match status_of(old(self)@, id@) {
                Some(status) => changed(old(self)@, id@, status_after(status, change)),
                None => old(self)@,
            }),
            ids_in_order(final(self)@),
    {
        proof {
            use_type_invariant(&*self);
        }
        let ghost first = self@;
        match self.find(id) {
            Some(i) => {
                let next_id = self.next_id;
                let mut queries: Vec<PersistentQuery> = Vec::new();
                std::mem::swap(&mut queries, &mut self.queries);
                let ghost before = views(queries@);
                let ghost status = before[i as int].status;
                match change {
                    Change::Finish(well) => queries[i].finish(well),
                    Change::Stop => queries[i].stop(),
                    Change::Terminate => queries[i].terminate(),
                }
                proof {
                    assert(views(queries@) =~= before.update(
                        i as int,
                        with_status(before[i as int], status_after(status, change)),
                    ));
                    lemma_changed_status(first, id@, status_after(status, change), id@);
                }
                *self = QueryRegistry { queries, next_id };
                Ok(())
            },
            None => Err(fail2("Query not found: ", id)),
        }
    }

    /// Notes that the run of a query came to its end, well or not.
    pub fn finish(&mut self, id: &str, well: bool) -> (r: Result<(), Error>)
        ensures
            unit_outcome(r) == change_answer(old(self)@, id@),
            final(self)@ == (match status_of(old(self)@, id@) {
                Some(status) => changed(old(self)@, id@, finished_status(status, well)),
                None => old(self)@,
            }),
            ids_in_order(final(self)@),
    {
        self.change(id, Change::Finish(well))
    }

    /// Notes that the run of a query was stopped.
    pub fn stop(&mut self, id: &str) -> (r: Result<(), Error>)
        ensures
            unit_outcome(r) == change_answer(old(self)@, id@),
            final(self)@ == (match status_of(old(self)@, id@) {
                Some(status) => changed(old(self)@, id@, stopped_status(status)),
                None => old(self)@,
            }),
            ids_in_order(final(self)@),
    {
        self.change(id, Change::Stop)
    }

    /// Notes that the run of a query was terminated.
    pub fn terminate(&mut self, id: &str) -> (r: Result<(), Error>)
        ensures
            unit_outcome(r) == change_answer(old(self)@, id@),
            final(self)@ == changed(old(self)@, id@, QueryStatus::Terminated),
            ids_in_order(final(self)@),
    {
        self.change(id, Change::Terminate)
    }

    /// Notes that all runs were stopped.
    pub fn stop_all(&mut self)
        ensures
            final(self)@ == all_stopped(old(self)@),
            ids_in_order(final(self)@),
    {
        proof {
            use_type_invariant(&*self);
            lemma_all_stopped(self@, Seq::empty());
        }
        let next_id = self.next_id;
        let mut queries: Vec<PersistentQuery> = Vec::new();
        std::mem::swap(&mut queries, &mut self.queries);
        let ghost before = views(queries@);
        let mut i: usize = 0;
        while i < queries.len()
            invariant
                i <= queries.len(),
                queries.len() == before.len(),
                forall|j: int|
                    0 <= j < before.len() ==> #[trigger] queries@[j]@ == (if j < i {
                        with_status(before[j], stopped_status(before[j].status))
                    } else {
                        before[j]
                    }),
            decreases queries.len() - i,
        {
            queries[i].stop();
            i = i + 1;
        }
        proof {
            assert(views(queries@) =~= before.map_values(
                |q: QueryView| with_status(q, stopped_status(q.status)),
            ));
        }
        *self = QueryRegistry { queries, next_id };
    }

    /// How many queries were started.
    pub fn len(&self) -> (r: usize)
        ensures
            r == self@.queries.len(),
    {
        self.queries.len()
    }

    pub fn is_empty(&self) -> (r: bool)
        ensures
            r == (self@.queries.len() == 0),
    {
        self.queries.len() == 0
    }
}

/// What can happen to a query.
enum Change {
    Finish(bool),
    Stop,
    Terminate,
}

/// The status of a query once something happened to it.
spec fn status_after(status: QueryStatus, change: Change) -> QueryStatus {
    match change {
        Change::Finish(well) => finished_status(status, well),
        Change::Stop => stopped_status(status),
        Change::Terminate => QueryStatus::Terminated,
    }
}

} // verus!
