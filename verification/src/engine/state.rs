//! What operators keep between batches.
use crate::engine::accumulator::{fresh, Accumulator, AccumulatorView};
use crate::plan::AggregateFunction;
use crate::time::Timestamp;
use crate::types::{Row, RowView};
use crate::value::{all_equal, clone_values, equal, views, Value, ValueView};
use vstd::prelude::*;

pub mod laws;

verus! {

// === Tables ===

/// The latest row of each key. Keys are the same where their values are equal.
#[derive(Debug)]
pub struct TableState {
    rows: Vec<(Value, Row)>,
}

impl View for TableState {
    type V = Seq<(ValueView, RowView)>;

    closed spec fn view(&self) -> Seq<(ValueView, RowView)> {
        self.rows@.map_values(|e: (Value, Row)| (e.0@, e.1@))
    }
}

/// The place of the first key from `i` on that equals another.
pub open spec fn key_index(t: Seq<(ValueView, RowView)>, key: ValueView, i: nat) -> Option<nat>
    decreases t.len() - i,
{
    if i >= t.len() {
        None
    } else if equal(t[i as int].0, key) {
        Some(i)
    } else {
        key_index(t, key, i + 1)
    }
}

/// The row of a key.
pub open spec fn table_row(t: Seq<(ValueView, RowView)>, key: ValueView) -> Option<RowView> {
    match key_index(t, key, 0) {
        Some(i) => Some(t[i as int].1),
        None => None,
    }
}

/// A table after a row was put under a key.
pub open spec fn upserted(t: Seq<(ValueView, RowView)>, key: ValueView, row: RowView) -> Seq<
    (ValueView, RowView),
> {
    match key_index(t, key, 0) {
        Some(i) => t.update(i as int, (t[i as int].0, row)),
        None => t.push((key, row)),
    }
}

/// A table without a key.
pub open spec fn without_key(t: Seq<(ValueView, RowView)>, key: ValueView) -> Seq<
    (ValueView, RowView),
> {
    match key_index(t, key, 0) {
        Some(i) => t.remove(i as int),
        None => t,
    }
}

/// Whether no key equals one before it.
pub open spec fn distinct_keys(t: Seq<(ValueView, RowView)>) -> bool {
    forall|i: int, j: int|
        0 <= i < j < t.len() ==> !equal((#[trigger] t[i]).0, (#[trigger] t[j]).0)
}

pub proof fn lemma_key_index(t: Seq<(ValueView, RowView)>, key: ValueView, i: nat)
    ensures
        match key_index(t, key, i) {
            Some(k) => i <= k < t.len() && equal(t[k as int].0, key) && forall|j: int|
                i <= j < k ==> !equal((#[trigger] t[j]).0, key),
            None => forall|j: int| i <= j < t.len() ==> !equal((#[trigger] t[j]).0, key),
        },
    decreases t.len() - i,
{
    if i < t.len() && !equal(t[i as int].0, key) {
        lemma_key_index(t, key, i + 1);
    }
}

/// Keys stay distinct when a row is put under one.
proof fn lemma_upserted(t: Seq<(ValueView, RowView)>, key: ValueView, row: RowView)
    requires
        distinct_keys(t),
    ensures
        distinct_keys(upserted(t, key, row)),
{
    lemma_key_index(t, key, 0);
}

/// Keys stay distinct when one is taken away.
proof fn lemma_removed(t: Seq<(ValueView, RowView)>, i: int)
    requires
        distinct_keys(t),
        0 <= i < t.len(),
    ensures
        distinct_keys(t.remove(i)),
{
    let r = t.remove(i);
    assert forall|x: int, y: int| 0 <= x < y < r.len() implies !equal(
        (#[trigger] r[x]).0,
        (#[trigger] r[y]).0,
    ) by {
        let a: int = if x < i { x } else { x + 1 };
        let b: int = if y < i { y } else { y + 1 };
        assert(r[x] == t[a] && r[y] == t[b]);
    }
}

impl Default for TableState {
    fn default() -> (r: TableState)
        ensures
            r@ == Seq::<(ValueView, RowView)>::empty(),
    {
        let rows: Vec<(Value, Row)> = Vec::new();
        proof {
            assert((TableState { rows })@ =~= Seq::<(ValueView, RowView)>::empty());
        }
        TableState { rows }
    }
}

impl TableState {
    /// No two keys are equal.
    #[verifier::type_invariant]
    spec fn well_formed(self) -> bool {
        distinct_keys(self@)
    }

    pub fn new() -> (r: TableState)
        ensures
            r@ == Seq::<(ValueView, RowView)>::empty(),
    {
        TableState::default()
    }

    fn find(&self, key: &Value) -> (r: Option<usize>)
        ensures
            match r {
                Some(i) => key_index(self@, key@, 0) == Some(i as nat) && i < self@.len(),
                None => key_index(self@, key@, 0) is None,
            },
    {
        let mut i: usize = 0;
        while i < self.rows.len()
            invariant
                i <= self.rows.len(),
                key_index(self@, key@, 0) == key_index(self@, key@, i as nat),
            decreases self.rows.len() - i,
        {
            if self.rows[i].0.equals(key) {
                return Some(i);
            }
            i = i + 1;
        }
        None
    }

    /// Puts a row under a key, in place of one that is there.
    pub fn upsert(&mut self, key: Value, row: Row)
        ensures
            final(self)@ == upserted(old(self)@, key@, row@),
    {
        let ghost before = self@;
        proof {
            use_type_invariant(&*self);
            lemma_upserted(before, key@, row@);
        }
        let found = self.find(&key);
        let mut rows: Vec<(Value, Row)> = Vec::new();
        proof {
            assert((TableState { rows })@ =~= Seq::<(ValueView, RowView)>::empty());
        }
        std::mem::swap(&mut rows, &mut self.rows);
        match found {
            Some(i) => {
                let kept = rows[i].0.clone();
                let ghost entry = (kept@, row@);
                rows.set(i, (kept, row));
                proof {
                    assert((TableState { rows })@ =~= before.update(i as int, entry));
                }
            },
            None => {
                let ghost entry = (key@, row@);
                rows.push((key, row));
                proof {
                    assert((TableState { rows })@ =~= before.push(entry));
                }
            },
        }
        self.rows = rows;
    }

    /// The row under a key.
    pub fn get(&self, key: &Value) -> (r: Option<&Row>)
        ensures
            match r {
                Some(row) => table_row(self@, key@) == Some(row@),
                None => table_row(self@, key@) is None,
            },
    {
        match self.find(key) {
            Some(i) => Some(&self.rows[i].1),
            None => None,
        }
    }

    /// Takes the row under a key away.
    pub fn remove(&mut self, key: &Value) -> (r: Option<Row>)
        ensures
            match r {
                Some(row) => table_row(old(self)@, key@) == Some(row@),
                None => table_row(old(self)@, key@) is None,
            },
            final(self)@ == without_key(old(self)@, key@),
    {
        let ghost before = self@;
        proof {
            use_type_invariant(&*self);
        }
        match self.find(key) {
            Some(i) => {
                let mut rows: Vec<(Value, Row)> = Vec::new();
                proof {
                    assert((TableState { rows })@ =~= Seq::<(ValueView, RowView)>::empty());
                }
                std::mem::swap(&mut rows, &mut self.rows);
                let removed = rows.remove(i);
                proof {
                    assert((TableState { rows })@ =~= before.remove(i as int));
                    lemma_removed(before, i as int);
                }
                self.rows = rows;
                Some(removed.1)
            },
            None => None,
        }
    }

    /// All keys with their rows, in the order in which the keys came.
    pub fn iter(&self) -> (r: Vec<(&Value, &Row)>)
        ensures
            r@.map_values(|e: (&Value, &Row)| (e.0@, e.1@)) == self@,
    {
        let mut r: Vec<(&Value, &Row)> = Vec::new();
        let mut i: usize = 0;
        while i < self.rows.len()
            invariant
                i <= self.rows.len(),
                r.len() == i,
                forall|j: int| 0 <= j < i ==> (r@[j].0@, r@[j].1@) == self@[j],
            decreases self.rows.len() - i,
        {
            r.push((&self.rows[i].0, &self.rows[i].1));
            i = i + 1;
        }
        proof {
            assert(r@.map_values(|e: (&Value, &Row)| (e.0@, e.1@)) =~= self@);
        }
        r
    }

    pub fn len(&self) -> (r: usize)
        ensures
            r == self@.len(),
    {
        self.rows.len()
    }

    pub fn is_empty(&self) -> (r: bool)
        ensures
            r == (self@.len() == 0),
    {
        self.rows.len() == 0
    }
}

// === Groups ===

/// Fresh accumulators for aggregate functions.
pub open spec fn fresh_all(functions: Seq<(AggregateFunction, bool)>) -> Seq<AccumulatorView> {
    functions.map_values(|f: (AggregateFunction, bool)| fresh(f.0, f.1))
}

fn make_fresh(functions: &[(AggregateFunction, bool)]) -> (r: Vec<Accumulator>)
    ensures
        views(r@) == fresh_all(functions@),
{
    let mut r: Vec<Accumulator> = Vec::new();
    let mut i: usize = 0;
    while i < functions.len()
        invariant
            i <= functions.len(),
            r.len() == i,
            forall|j: int| 0 <= j < i ==> r@[j]@ == fresh_all(functions@)[j],
        decreases functions.len() - i,
    {
        r.push(Accumulator::new(functions[i].0, functions[i].1));
        i = i + 1;
    }
    proof {
        assert(views(r@) =~= fresh_all(functions@));
    }
    r
}

/// The accumulators of each group. Groups are the same where the values of their
/// keys are equal.
#[derive(Debug)]
pub struct AggregateState {
    groups: Vec<(Vec<Value>, Vec<Accumulator>)>,
}

/// What one group holds.
pub open spec fn group_view(g: (Vec<Value>, Vec<Accumulator>)) -> (
    Seq<ValueView>,
    Seq<AccumulatorView>,
) {
    (views(g.0@), views(g.1@))
}

/// What groups hold.
pub open spec fn groups_view(s: Seq<(Vec<Value>, Vec<Accumulator>)>) -> Seq<
    (Seq<ValueView>, Seq<AccumulatorView>),
> {
    s.map_values(|g: (Vec<Value>, Vec<Accumulator>)| group_view(g))
}

impl View for AggregateState {
    type V = Seq<(Seq<ValueView>, Seq<AccumulatorView>)>;

    closed spec fn view(&self) -> Seq<(Seq<ValueView>, Seq<AccumulatorView>)> {
        groups_view(self.groups@)
    }
}

/// The place of the first group from `i` on with a key.
pub open spec fn group_index(
    g: Seq<(Seq<ValueView>, Seq<AccumulatorView>)>,
    key: Seq<ValueView>,
    i: nat,
) -> Option<nat>
    decreases g.len() - i,
{
    if i >= g.len() {
        None
    } else if all_equal(g[i as int].0, key) {
        Some(i)
    } else {
        group_index(g, key, i + 1)
    }
}

/// The groups with one for a key, which is made where there is none.
pub open spec fn with_group(
    g: Seq<(Seq<ValueView>, Seq<AccumulatorView>)>,
    key: Seq<ValueView>,
    functions: Seq<(AggregateFunction, bool)>,
) -> Seq<(Seq<ValueView>, Seq<AccumulatorView>)> {
    match group_index(g, key, 0) {
        Some(_) => g,
        None => g.push((key, fresh_all(functions))),
    }
}

/// The place of the group for a key, once there is one.
pub open spec fn group_place(
    g: Seq<(Seq<ValueView>, Seq<AccumulatorView>)>,
    key: Seq<ValueView>,
) -> int {
    match group_index(g, key, 0) {
        Some(i) => i as int,
        None => g.len() as int,
    }
}

/// Whether no key of a group equals one before it.
pub open spec fn groups_differ(g: Seq<(Seq<ValueView>, Seq<AccumulatorView>)>) -> bool {
    forall|i: int, j: int|
        0 <= i < j < g.len() ==> !all_equal((#[trigger] g[i]).0, (#[trigger] g[j]).0)
}

/// The groups after the accumulators of one of them changed.
pub open spec fn group_set(
    g: Seq<(Seq<ValueView>, Seq<AccumulatorView>)>,
    i: int,
    accumulators: Seq<AccumulatorView>,
) -> Seq<(Seq<ValueView>, Seq<AccumulatorView>)> {
    g.update(i, (g[i].0, accumulators))
}

proof fn lemma_group_found(
    g: Seq<(Seq<ValueView>, Seq<AccumulatorView>)>,
    key: Seq<ValueView>,
    i: nat,
)
    ensures
        match group_index(g, key, i) {
            Some(k) => i <= k < g.len() && all_equal(g[k as int].0, key),
            None => forall|j: int| i <= j < g.len() ==> !all_equal((#[trigger] g[j]).0, key),
        },
    decreases g.len() - i,
{
    if i < g.len() && !all_equal(g[i as int].0, key) {
        lemma_group_found(g, key, i + 1);
    }
}

/// Whether two lists of values are equal.
pub fn lists_equal(x: &Vec<Value>, y: &Vec<Value>) -> (r: bool)
    ensures
        r == all_equal(views(x@), views(y@)),
{
    if x.len() != y.len() {
        return false;
    }
    let ghost p = views(x@);
    let ghost q = views(y@);
    let mut i: usize = 0;
    while i < x.len()
        invariant
            i <= x.len() == y.len(),
            p == views(x@),
            q == views(y@),
            forall|j: int| 0 <= j < i ==> equal(#[trigger] p[j], q[j]),
        decreases x.len() - i,
    {
        if !x[i].equals(&y[i]) {
            proof {
                assert(!equal(p[i as int], q[i as int]));
            }
            return false;
        }
        i = i + 1;
    }
    true
}

impl Default for AggregateState {
    fn default() -> (r: AggregateState)
        ensures
            r@ == Seq::<(Seq<ValueView>, Seq<AccumulatorView>)>::empty(),
    {
        let r = AggregateState { groups: Vec::new() };
        proof {
            assert(r@ =~= Seq::<(Seq<ValueView>, Seq<AccumulatorView>)>::empty());
        }
        r
    }
}

impl AggregateState {
    pub fn new() -> (r: AggregateState)
        ensures
            r@ == Seq::<(Seq<ValueView>, Seq<AccumulatorView>)>::empty(),
    {
        AggregateState::default()
    }

    fn find(&self, key: &Vec<Value>) -> (r: Option<usize>)
        ensures
            match r {
                Some(i) => group_index(self@, views(key@), 0) == Some(i as nat) && i < self@.len(),
                None => group_index(self@, views(key@), 0) is None,
            },
    {
        let mut i: usize = 0;
        while i < self.groups.len()
            invariant
                i <= self.groups.len(),
                group_index(self@, views(key@), 0) == group_index(self@, views(key@), i as nat),
            decreases self.groups.len() - i,
        {
            if lists_equal(&self.groups[i].0, key) {
                return Some(i);
            }
            i = i + 1;
        }
        None
    }

    /// The accumulators of the group with a key. The group is made where there is
    /// none.
    pub fn get_or_create(
        &mut self,
        key: Vec<Value>,
        functions: &[(AggregateFunction, bool)],
    ) -> (r: &mut Vec<Accumulator>)
        ensures
            ({
                let g = with_group(old(self)@, views(key@), functions@);
                let i = group_place(old(self)@, views(key@));
                &&& 0 <= i < g.len()
                &&& views(r@) == g[i].1
                &&& final(self)@ == group_set(g, i, views(final(r)@))
            }),
            groups_differ(old(self)@) ==> groups_differ(final(self)@),
    {
        let ghost before = self@;
        proof {
            lemma_group_found(before, views(key@), 0);
        }
        let i: usize = match self.find(&key) {
            Some(i) => i,
            None => {
                let n: usize = self.groups.len();
                let ghost entry = (views(key@), fresh_all(functions@));
                self.groups.push((key, make_fresh(functions)));
                proof {
                    assert(self@ =~= before.push(entry));
                }
                n
            },
        };
        let ghost g = self@;
        let ghost groups = self.groups@;
        proof {
            assert forall|x: Vec<Accumulator>|
                #[trigger] groups_view(groups.update(i as int, (groups[i as int].0, x)))
                    == group_set(g, i as int, views(x@)) by {
                assert(groups_view(groups.update(i as int, (groups[i as int].0, x))) =~= group_set(
                    g,
                    i as int,
                    views(x@),
                ));
            }
        }
        &mut self.groups[i].1
    }

    /// All groups with their accumulators, in the order in which they were made.
    pub fn iter(&self) -> (r: Vec<(&Vec<Value>, &Vec<Accumulator>)>)
        ensures
            r@.map_values(|g: (&Vec<Value>, &Vec<Accumulator>)| (views(g.0@), views(g.1@)))
                == self@,
    {
        let mut r: Vec<(&Vec<Value>, &Vec<Accumulator>)> = Vec::new();
        let mut i: usize = 0;
        while i < self.groups.len()
            invariant
                i <= self.groups.len(),
                r.len() == i,
                forall|j: int| 0 <= j < i ==> (views(r@[j].0@), views(r@[j].1@)) == self@[j],
            decreases self.groups.len() - i,
        {
            r.push((&self.groups[i].0, &self.groups[i].1));
            i = i + 1;
        }
        proof {
            assert(r@.map_values(|g: (&Vec<Value>, &Vec<Accumulator>)| (views(g.0@), views(g.1@)))
                =~= self@);
        }
        r
    }

    pub fn len(&self) -> (r: usize)
        ensures
            r == self@.len(),
    {
        self.groups.len()
    }

    pub fn is_empty(&self) -> (r: bool)
        ensures
            r == (self@.len() == 0),
    {
        self.groups.len() == 0
    }

    /// Forgets all groups.
    pub fn clear(&mut self)
        ensures
            final(self)@ == Seq::<(Seq<ValueView>, Seq<AccumulatorView>)>::empty(),
    {
        self.groups.clear();
        proof {
            assert(self@ =~= Seq::<(Seq<ValueView>, Seq<AccumulatorView>)>::empty());
        }
    }
}

// === Windows ===

/// A group, and the start of a window of time.
#[derive(Debug)]
pub struct WindowKey {
    pub group: Vec<Value>,
    pub window_start: Timestamp,
}

/// What a `WindowKey` holds.
pub struct WindowKeyView {
    pub group: Seq<ValueView>,
    pub window_start: Timestamp,
}

impl View for WindowKey {
    type V = WindowKeyView;

    open spec fn view(&self) -> WindowKeyView {
        WindowKeyView { group: views(self.group@), window_start: self.window_start }
    }
}

impl Clone for WindowKey {
    fn clone(&self) -> (r: WindowKey)
        ensures
            r@ == self@,
    {
        WindowKey { group: clone_values(&self.group), window_start: self.window_start }
    }
}

/// Whether two windows are the same.
pub open spec fn same_window(a: WindowKeyView, b: WindowKeyView) -> bool {
    all_equal(a.group, b.group) && a.window_start == b.window_start
}

impl WindowKey {
    pub fn equals(&self, other: &WindowKey) -> (r: bool)
        ensures
            r == same_window(self@, other@),
    {
        lists_equal(&self.group, &other.group) && self.window_start.same(&other.window_start)
    }
}

/// What is kept of one window.
pub struct WindowView {
    pub key: WindowKeyView,
    pub accumulators: Seq<AccumulatorView>,
    pub start: Timestamp,
    pub end: Timestamp,
}

/// The accumulators of each window.
#[derive(Debug)]
pub struct WindowState {
    windows: Vec<(WindowKey, (Vec<Accumulator>, Timestamp, Timestamp))>,
}

/// What one window holds.
pub open spec fn window_view(
    w: (WindowKey, (Vec<Accumulator>, Timestamp, Timestamp)),
) -> WindowView {
    WindowView { key: w.0@, accumulators: views(w.1.0@), start: w.1.1, end: w.1.2 }
}

/// What windows hold.
pub open spec fn windows_view(
    s: Seq<(WindowKey, (Vec<Accumulator>, Timestamp, Timestamp))>,
) -> Seq<WindowView> {
    s.map_values(
        |w: (WindowKey, (Vec<Accumulator>, Timestamp, Timestamp))| window_view(w),
    )
}

impl View for WindowState {
    type V = Seq<WindowView>;

    closed spec fn view(&self) -> Seq<WindowView> {
        windows_view(self.windows@)
    }
}

/// The place of the first window from `i` on with a key.
pub open spec fn window_index(w: Seq<WindowView>, key: WindowKeyView, i: nat) -> Option<nat>
    decreases w.len() - i,
{
    if i >= w.len() {
        None
    } else if same_window(w[i as int].key, key) {
        Some(i)
    } else {
        window_index(w, key, i + 1)
    }
}

/// The windows with one for a key, which is made where there is none.
pub open spec fn with_window(
    w: Seq<WindowView>,
    key: WindowKeyView,
    end: Timestamp,
    functions: Seq<(AggregateFunction, bool)>,
) -> Seq<WindowView> {
    match window_index(w, key, 0) {
        Some(_) => w,
        None => w.push(
            WindowView {
                key,
                accumulators: fresh_all(functions),
                start: key.window_start,
                end,
            },
        ),
    }
}

/// The place of the window for a key, once there is one.
pub open spec fn window_place(w: Seq<WindowView>, key: WindowKeyView) -> int {
    match window_index(w, key, 0) {
        Some(i) => i as int,
        None => w.len() as int,
    }
}

/// Whether no window has the key of one before it.
pub open spec fn windows_differ(w: Seq<WindowView>) -> bool {
    forall|i: int, j: int|
        0 <= i < j < w.len() ==> !same_window((#[trigger] w[i]).key, (#[trigger] w[j]).key)
}

proof fn lemma_window_found(w: Seq<WindowView>, key: WindowKeyView, i: nat)
    ensures
        match window_index(w, key, i) {
            Some(k) => i <= k < w.len() && same_window(w[k as int].key, key),
            None => forall|j: int| i <= j < w.len() ==> !same_window((#[trigger] w[j]).key, key),
        },
    decreases w.len() - i,
{
    if i < w.len() && !same_window(w[i as int].key, key) {
        lemma_window_found(w, key, i + 1);
    }
}

/// The windows after one of them changed.
pub open spec fn window_set(
    w: Seq<WindowView>,
    i: int,
    accumulators: Seq<AccumulatorView>,
    start: Timestamp,
    end: Timestamp,
) -> Seq<WindowView> {
    w.update(i, WindowView { key: w[i].key, accumulators, start, end })
}

/// Whether a window has ended by a time. A window whose key does not equal
/// itself, as one with what is not a number does not, counts as open for ever.
pub open spec fn expired(w: WindowView, cutoff: Timestamp) -> bool {
    !cutoff.before(w.end) && same_window(w.key, w.key)
}

/// The windows among the first `n` that have ended, or those that have not.
pub open spec fn windows_where(w: Seq<WindowView>, cutoff: Timestamp, ended: bool, n: nat) -> Seq<
    WindowView,
>
    decreases n,
{
    if n == 0 {
        Seq::empty()
    } else {
        let before = windows_where(w, cutoff, ended, (n - 1) as nat);
        if expired(w[n - 1], cutoff) == ended {
            before.push(w[n - 1])
        } else {
            before
        }
    }
}

/// Windows of which some have gone still have keys of their own.
proof fn lemma_where_differ(w: Seq<WindowView>, cutoff: Timestamp, n: nat)
    requires
        n <= w.len(),
        windows_differ(w),
    ensures
        windows_differ(windows_where(w, cutoff, false, n)),
        forall|j: int|
            0 <= j < windows_where(w, cutoff, false, n).len() ==> exists|i: int|
                0 <= i < n && #[trigger] w[i] == (#[trigger] windows_where(w, cutoff, false, n)[j]),
    decreases n,
{
    if n > 0 {
        lemma_where_differ(w, cutoff, (n - 1) as nat);
        let before = windows_where(w, cutoff, false, (n - 1) as nat);
        let r = windows_where(w, cutoff, false, n);
        assert forall|j: int| 0 <= j < r.len() implies exists|i: int|
            0 <= i < n && #[trigger] w[i] == (#[trigger] r[j]) by {
            if j < before.len() {
                assert(r[j] == before[j]);
            } else {
                assert(r[j] == w[n - 1]);
            }
        }
        assert forall|x: int, y: int| 0 <= x < y < r.len() implies !same_window(
            (#[trigger] r[x]).key,
            (#[trigger] r[y]).key,
        ) by {
            assert(r[x] == before[x]);
            if y < before.len() {
                assert(r[y] == before[y]);
            } else {
                assert(r[y] == w[n - 1]);
            }
        }
    }
}

/// What a window that was taken out holds.
pub open spec fn removed_view(
    w: (WindowKey, Vec<Accumulator>, Timestamp, Timestamp),
) -> WindowView {
    WindowView { key: w.0@, accumulators: views(w.1@), start: w.2, end: w.3 }
}

impl Default for WindowState {
    fn default() -> (r: WindowState)
        ensures
            r@ == Seq::<WindowView>::empty(),
    {
        let r = WindowState { windows: Vec::new() };
        proof {
            assert(r@ =~= Seq::<WindowView>::empty());
        }
        r
    }
}

impl WindowState {
    pub fn new() -> (r: WindowState)
        ensures
            r@ == Seq::<WindowView>::empty(),
    {
        WindowState::default()
    }

    fn find(&self, key: &WindowKey) -> (r: Option<usize>)
        ensures
            match r {
                Some(i) => window_index(self@, key@, 0) == Some(i as nat) && i < self@.len(),
                None => window_index(self@, key@, 0) is None,
            },
    {
        let mut i: usize = 0;
        while i < self.windows.len()
            invariant
                i <= self.windows.len(),
                window_index(self@, key@, 0) == window_index(self@, key@, i as nat),
            decreases self.windows.len() - i,
        {
            if self.windows[i].0.equals(key) {
                return Some(i);
            }
            i = i + 1;
        }
        None
    }

    /// The accumulators, the start and the end of the window with a key. The window
    /// is made where there is none.
    pub fn get_or_create(
        &mut self,
        key: WindowKey,
        window_end: Timestamp,
        functions: &[(AggregateFunction, bool)],
    ) -> (r: &mut (Vec<Accumulator>, Timestamp, Timestamp))
        ensures
            ({
                let w = with_window(old(self)@, key@, window_end, functions@);
                let i = window_place(old(self)@, key@);
                &&& 0 <= i < w.len()
                &&& views(r.0@) == w[i].accumulators
                &&& r.1 == w[i].start
                &&& r.2 == w[i].end
                &&& final(self)@ == window_set(
                    w,
                    i,
                    views(final(r).0@),
                    final(r).1,
                    final(r).2,
                )
            }),
            windows_differ(old(self)@) ==> windows_differ(final(self)@),
    {
        let ghost before = self@;
        proof {
            lemma_window_found(before, key@, 0);
        }
        let i: usize = match self.find(&key) {
            Some(i) => i,
            None => {
                let n: usize = self.windows.len();
                let start = key.window_start;
                let ghost entry = WindowView {
                    key: key@,
                    accumulators: fresh_all(functions@),
                    start,
                    end: window_end,
                };
                self.windows.push((key, (make_fresh(functions), start, window_end)));
                proof {
                    assert(self@ =~= before.push(entry));
                }
                n
            },
        };
        let ghost w = self@;
        let ghost windows = self.windows@;
        proof {
            assert forall|x: (Vec<Accumulator>, Timestamp, Timestamp)|
                #[trigger] windows_view(windows.update(i as int, (windows[i as int].0, x)))
                    == window_set(w, i as int, views(x.0@), x.1, x.2) by {
                assert(windows_view(windows.update(i as int, (windows[i as int].0, x)))
                    =~= window_set(w, i as int, views(x.0@), x.1, x.2));
            }
        }
        &mut self.windows[i].1
    }

    /// All windows, in the order in which they were made.
    pub fn iter(&self) -> (r: Vec<(&WindowKey, &(Vec<Accumulator>, Timestamp, Timestamp))>)
        ensures
            r@.map_values(
                |w: (&WindowKey, &(Vec<Accumulator>, Timestamp, Timestamp))|
                    WindowView {
                        key: w.0@,
                        accumulators: views(w.1.0@),
                        start: w.1.1,
                        end: w.1.2,
                    },
            ) == self@,
    {
        let mut r: Vec<(&WindowKey, &(Vec<Accumulator>, Timestamp, Timestamp))> = Vec::new();
        let mut i: usize = 0;
        while i < self.windows.len()
            invariant
                i <= self.windows.len(),
                r.len() == i,
                forall|j: int|
                    0 <= j < i ==> self@[j] == (WindowView {
                        key: r@[j].0@,
                        accumulators: views(r@[j].1.0@),
                        start: r@[j].1.1,
                        end: r@[j].1.2,
                    }),
            decreases self.windows.len() - i,
        {
            r.push((&self.windows[i].0, &self.windows[i].1));
            i = i + 1;
        }
        proof {
            assert(r@.map_values(
                |w: (&WindowKey, &(Vec<Accumulator>, Timestamp, Timestamp))|
                    WindowView {
                        key: w.0@,
                        accumulators: views(w.1.0@),
                        start: w.1.1,
                        end: w.1.2,
                    },
            ) =~= self@);
        }
        r
    }

    /// Takes out the windows that have ended by a time.
    pub fn remove_expired(&mut self, cutoff: Timestamp) -> (r: Vec<
        (WindowKey, Vec<Accumulator>, Timestamp, Timestamp),
    >)
        ensures
            r@.map_values(
                |w: (WindowKey, Vec<Accumulator>, Timestamp, Timestamp)| removed_view(w),
            ) == windows_where(old(self)@, cutoff, true, old(self)@.len()),
            final(self)@ == windows_where(old(self)@, cutoff, false, old(self)@.len()),
            windows_differ(old(self)@) ==> windows_differ(final(self)@),
    {
        let ghost all = self@;
        proof {
            if windows_differ(all) {
                lemma_where_differ(all, cutoff, all.len());
            }
        }
        let mut windows: Vec<(WindowKey, (Vec<Accumulator>, Timestamp, Timestamp))> = Vec::new();
        std::mem::swap(&mut windows, &mut self.windows);
        let mut kept: Vec<(WindowKey, (Vec<Accumulator>, Timestamp, Timestamp))> = Vec::new();
        let mut removed: Vec<(WindowKey, Vec<Accumulator>, Timestamp, Timestamp)> = Vec::new();
        let ghost mut n: nat = 0;
        proof {
            assert(windows_view(kept@) =~= Seq::<WindowView>::empty());
            assert(windows_view(windows@) =~= all.skip(0));
            assert(removed@.map_values(
                |w: (WindowKey, Vec<Accumulator>, Timestamp, Timestamp)| removed_view(w),
            ) =~= Seq::<WindowView>::empty());
        }
        while windows.len() > 0
            invariant
                n + windows.len() == all.len(),
                windows_view(windows@) == all.skip(n as int),
                windows_view(kept@) == windows_where(all, cutoff, false, n),
                removed@.map_values(
                    |w: (WindowKey, Vec<Accumulator>, Timestamp, Timestamp)| removed_view(w),
                ) == windows_where(all, cutoff, true, n),
            decreases windows.len(),
        {
            let ghost rest = windows@;
            let w = windows.remove(0);
            proof {
                assert(windows_view(rest)[0] == all[n as int]);
                assert forall|i: int| 0 <= i < windows.len() implies windows_view(windows@)[i]
                    == all.skip(n as int + 1)[i] by {
                    assert(windows@[i] == rest[i + 1]);
                    assert(windows_view(rest)[i + 1] == all.skip(n as int)[i + 1]);
                }
                assert(windows_view(windows@) =~= all.skip(n as int + 1));
            }
            let ghost view = window_view(w);
            if !cutoff.is_before(&w.1.2) && w.0.equals(&w.0) {
                let ghost before = removed@;
                removed.push((w.0, w.1.0, w.1.1, w.1.2));
                proof {
                    assert(removed@.map_values(
                        |w: (WindowKey, Vec<Accumulator>, Timestamp, Timestamp)| removed_view(w),
                    ) =~= before.map_values(
                        |w: (WindowKey, Vec<Accumulator>, Timestamp, Timestamp)| removed_view(w),
                    ).push(view));
                }
            } else {
                let ghost before = kept@;
                kept.push(w);
                proof {
                    assert(windows_view(kept@) =~= windows_view(before).push(view));
                }
            }
            proof {
                n = n + 1;
            }
        }
        self.windows = kept;
        removed
    }

    pub fn len(&self) -> (r: usize)
        ensures
            r == self@.len(),
    {
        self.windows.len()
    }

    pub fn is_empty(&self) -> (r: bool)
        ensures
            r == (self@.len() == 0),
    {
        self.windows.len() == 0
    }
}

// === Join buffers ===

/// Rows by their times, the earliest first; rows of the same time in the order in
/// which they came.
#[derive(Debug)]
pub struct JoinBuffer {
    rows: Vec<(Timestamp, Row)>,
}

/// What buffered rows hold.
pub open spec fn buffer_view(s: Seq<(Timestamp, Row)>) -> Seq<(Timestamp, RowView)> {
    s.map_values(|e: (Timestamp, Row)| (e.0, e.1@))
}

impl View for JoinBuffer {
    type V = Seq<(Timestamp, RowView)>;

    closed spec fn view(&self) -> Seq<(Timestamp, RowView)> {
        buffer_view(self.rows@)
    }
}

/// Whether no row comes before one that is earlier in time.
pub open spec fn in_time_order(b: Seq<(Timestamp, RowView)>) -> bool {
    forall|i: int, j: int|
        0 <= i < j < b.len() ==> !(#[trigger] b[j]).0.before((#[trigger] b[i]).0)
}

/// The first place from `i` on that is later than a time.
pub open spec fn time_place(b: Seq<(Timestamp, RowView)>, t: Timestamp, i: nat) -> nat
    decreases b.len() - i,
{
    if i < b.len() && !t.before(b[i as int].0) {
        time_place(b, t, i + 1)
    } else {
        i
    }
}

/// A buffer with one more row.
pub open spec fn buffered(b: Seq<(Timestamp, RowView)>, t: Timestamp, row: RowView) -> Seq<
    (Timestamp, RowView),
> {
    b.insert(time_place(b, t, 0) as int, (t, row))
}

/// The rows among the first `n` of a buffer that lie between two times, both of
/// them among them.
pub open spec fn rows_between(
    b: Seq<(Timestamp, RowView)>,
    from: Timestamp,
    to: Timestamp,
    n: nat,
) -> Seq<RowView>
    decreases n,
{
    if n == 0 {
        Seq::empty()
    } else {
        let before = rows_between(b, from, to, (n - 1) as nat);
        if !b[n - 1].0.before(from) && !to.before(b[n - 1].0) {
            before.push(b[n - 1].1)
        } else {
            before
        }
    }
}

/// The rows among the first `n` of a buffer that are not before a time.
pub open spec fn rows_since(b: Seq<(Timestamp, RowView)>, cutoff: Timestamp, n: nat) -> Seq<
    (Timestamp, RowView),
>
    decreases n,
{
    if n == 0 {
        Seq::empty()
    } else {
        let before = rows_since(b, cutoff, (n - 1) as nat);
        if !b[n - 1].0.before(cutoff) {
            before.push(b[n - 1])
        } else {
            before
        }
    }
}

pub proof fn lemma_time_place(b: Seq<(Timestamp, RowView)>, t: Timestamp, i: nat)
    requires
        i <= b.len(),
    ensures
        i <= time_place(b, t, i) <= b.len(),
        forall|j: int| i <= j < time_place(b, t, i) ==> !t.before((#[trigger] b[j]).0),
        time_place(b, t, i) < b.len() ==> t.before(b[time_place(b, t, i) as int].0),
    decreases b.len() - i,
{
    if i < b.len() && !t.before(b[i as int].0) {
        lemma_time_place(b, t, i + 1);
    }
}

/// A buffer stays in the order of time.
pub proof fn lemma_buffered_in_order(b: Seq<(Timestamp, RowView)>, t: Timestamp, row: RowView)
    requires
        in_time_order(b),
    ensures
        in_time_order(buffered(b, t, row)),
{
    lemma_time_place(b, t, 0);
    let p = time_place(b, t, 0) as int;
    let r = buffered(b, t, row);
    assert forall|i: int, j: int| 0 <= i < j < r.len() implies !(#[trigger] r[j]).0.before(
        (#[trigger] r[i]).0,
    ) by {
        let x = if i < p { i } else { i - 1 };
        let y = if j < p { j } else { j - 1 };
        if i == p {
            assert(r[j] == b[y]);
            assert(t.before(b[p].0));
            if y > p {
                assert(!b[y].0.before(b[p].0));
            }
        } else if j == p {
            assert(r[i] == b[x]);
        } else {
            assert(r[i] == b[x] && r[j] == b[y]);
        }
    }
}

/// Dropping early rows keeps the order of time.
pub proof fn lemma_since_in_order(b: Seq<(Timestamp, RowView)>, cutoff: Timestamp, n: nat)
    requires
        in_time_order(b),
        n <= b.len(),
    ensures
        in_time_order(rows_since(b, cutoff, n)),
        rows_since(b, cutoff, n).len() <= n,
        forall|k: int|
            0 <= k < rows_since(b, cutoff, n).len() ==> exists|i: int|
                0 <= i < n && b[i] == #[trigger] rows_since(b, cutoff, n)[k],
    decreases n,
{
    if n > 0 {
        let m = (n - 1) as nat;
        lemma_since_in_order(b, cutoff, m);
        let before = rows_since(b, cutoff, m);
        let r = rows_since(b, cutoff, n);
        assert forall|k: int| 0 <= k < r.len() implies exists|i: int|
            0 <= i < n && b[i] == #[trigger] r[k] by {
            if k < before.len() {
                let i = choose|i: int| 0 <= i < m && b[i] == before[k];
                assert(b[i] == r[k]);
            } else {
                assert(b[n - 1] == r[k]);
            }
        }
        if r.len() > before.len() {
            assert forall|i: int, j: int| 0 <= i < j < r.len() implies !(#[trigger] r[j]).0.before(
                (#[trigger] r[i]).0,
            ) by {
                if j < before.len() {
                    assert(r[i] == before[i] && r[j] == before[j]);
                } else {
                    assert(r[i] == before[i]);
                    let x = choose|x: int| 0 <= x < m && b[x] == before[i];
                    assert(b[n - 1] == r[j]);
                }
            }
        }
    }
}

impl Default for JoinBuffer {
    fn default() -> (r: JoinBuffer)
        ensures
            r@ == Seq::<(Timestamp, RowView)>::empty(),
    {
        let rows: Vec<(Timestamp, Row)> = Vec::new();
        proof {
            assert((JoinBuffer { rows })@ =~= Seq::<(Timestamp, RowView)>::empty());
        }
        JoinBuffer { rows }
    }
}

impl JoinBuffer {
    /// The rows are in the order of time.
    #[verifier::type_invariant]
    spec fn well_formed(self) -> bool {
        in_time_order(self@)
    }

    pub fn new() -> (r: JoinBuffer)
        ensures
            r@ == Seq::<(Timestamp, RowView)>::empty(),
    {
        JoinBuffer::default()
    }

    /// Adds a row.
    pub fn insert(&mut self, timestamp: Timestamp, row: Row)
        ensures
            final(self)@ == buffered(old(self)@, timestamp, row@),
    {
        let ghost before = self@;
        let ghost entry = (timestamp, row@);
        proof {
            use_type_invariant(&*self);
            lemma_buffered_in_order(before, timestamp, row@);
        }
        let mut rows: Vec<(Timestamp, Row)> = Vec::new();
        proof {
            assert((JoinBuffer { rows })@ =~= Seq::<(Timestamp, RowView)>::empty());
        }
        std::mem::swap(&mut rows, &mut self.rows);
        let mut i: usize = 0;
        while i < rows.len() && !timestamp.is_before(&rows[i].0)
            invariant
                before == buffer_view(rows@),
                i <= rows.len(),
                time_place(before, timestamp, 0) == time_place(before, timestamp, i as nat),
            decreases rows.len() - i,
        {
            i = i + 1;
        }
        rows.insert(i, (timestamp, row));
        proof {
            assert(buffer_view(rows@) =~= before.insert(i as int, entry));
        }
        self.rows = rows;
    }

    /// The rows between two times, both of them among them.
    pub fn range(&self, from: Timestamp, to: Timestamp) -> (r: Vec<&Row>)
        requires
            !to.before(from),
        ensures
            r@.map_values(|x: &Row| x@) == rows_between(self@, from, to, self@.len()),
    {
        let ghost b = self@;
        let mut r: Vec<&Row> = Vec::new();
        let mut i: usize = 0;
        proof {
            assert(r@.map_values(|x: &Row| x@) =~= Seq::<RowView>::empty());
        }
        while i < self.rows.len()
            invariant
                i <= self.rows.len(),
                b == self@,
                r@.map_values(|x: &Row| x@) == rows_between(b, from, to, i as nat),
            decreases self.rows.len() - i,
        {
            if !self.rows[i].0.is_before(&from) && !to.is_before(&self.rows[i].0) {
                let ghost before = r@;
                r.push(&self.rows[i].1);
                proof {
                    assert(r@.map_values(|x: &Row| x@) =~= before.map_values(|x: &Row| x@).push(
                        b[i as int].1,
                    ));
                }
            }
            i = i + 1;
        }
        r
    }

    /// Drops the rows before a time.
    pub fn expire_before(&mut self, cutoff: Timestamp)
        ensures
            final(self)@ == rows_since(old(self)@, cutoff, old(self)@.len()),
    {
        let ghost all = self@;
        proof {
            use_type_invariant(&*self);
            lemma_since_in_order(all, cutoff, all.len());
        }
        let mut rows: Vec<(Timestamp, Row)> = Vec::new();
        proof {
            assert((JoinBuffer { rows })@ =~= Seq::<(Timestamp, RowView)>::empty());
        }
        std::mem::swap(&mut rows, &mut self.rows);
        let mut kept: Vec<(Timestamp, Row)> = Vec::new();
        let ghost mut n: nat = 0;
        proof {
            assert(buffer_view(kept@) =~= Seq::<(Timestamp, RowView)>::empty());
            assert(buffer_view(rows@) =~= all.skip(0));
        }
        while rows.len() > 0
            invariant
                n + rows.len() == all.len(),
                buffer_view(rows@) == all.skip(n as int),
                buffer_view(kept@) == rows_since(all, cutoff, n),
            decreases rows.len(),
        {
            let ghost rest = rows@;
            let e = rows.remove(0);
            proof {
                assert(buffer_view(rest)[0] == all[n as int]);
                assert forall|i: int| 0 <= i < rows.len() implies buffer_view(rows@)[i]
                    == all.skip(n as int + 1)[i] by {
                    assert(rows@[i] == rest[i + 1]);
                    assert(buffer_view(rest)[i + 1] == all.skip(n as int)[i + 1]);
                }
                assert(buffer_view(rows@) =~= all.skip(n as int + 1));
            }
            if !e.0.is_before(&cutoff) {
                let ghost before = kept@;
                let ghost view = (e.0, e.1@);
                kept.push(e);
                proof {
                    assert(buffer_view(kept@) =~= buffer_view(before).push(view));
                }
            }
            proof {
                n = n + 1;
            }
        }
        self.rows = kept;
    }

    pub fn len(&self) -> (r: usize)
        ensures
            r == self@.len(),
    {
        self.rows.len()
    }

    pub fn is_empty(&self) -> (r: bool)
        ensures
            r == (self@.len() == 0),
    {
        self.rows.len() == 0
    }
}

} // verus!
