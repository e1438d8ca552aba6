//! Joins of two sources.
use crate::engine::operator::join::laws::{
    carry_times, lemma_left_step_any_time, lemma_right_step_any_time,
};
use crate::engine::operator::rows::{
    combine_rows, combine_schemas, combined, join_keys_or_first, key_indices_or_first, null_row,
    nulls, rows_outcome,
};
use crate::engine::operator::simple::{store_rows, stored};
use crate::engine::operator::window::{get_row_time, row_time};
use crate::engine::state::{
    buffered, rows_between, table_row, JoinBuffer, TableState,
};
use crate::error::Error;
use crate::expr::Expr;
use crate::plan::JoinType;
use crate::time::{can_move, move_by, moved, Duration, Timestamp};
use crate::types::{field, ColumnView, Row, RowView, Schema};
use crate::value::{equal, views, Value, ValueView};
use vstd::prelude::*;

pub mod laws;

verus! {

/// Whether a join keeps rows of its left side that have no match.
pub open spec fn keeps_left(t: JoinType) -> bool {
    t == JoinType::Left || t == JoinType::FullOuter
}

/// Whether a join keeps rows of its right side that have no match.
pub open spec fn keeps_right(t: JoinType) -> bool {
    t == JoinType::Right || t == JoinType::FullOuter
}

// === Stream with table ===

/// Joins the rows of a stream with the latest rows of a table.
#[derive(Debug)]
pub struct StreamTableJoinOp {
    join_type: JoinType,
    right_schema: Schema,
    output_schema: Schema,
    right_state: TableState,
    left_key_index: usize,
}

/// What a `StreamTableJoinOp` holds.
pub struct StreamTableView {
    pub join_type: JoinType,
    pub right_schema: Seq<ColumnView>,
    pub output_schema: Seq<ColumnView>,
    pub right: Seq<(ValueView, RowView)>,
    pub left_key_index: int,
}

impl View for StreamTableJoinOp {
    type V = StreamTableView;

    closed spec fn view(&self) -> StreamTableView {
        StreamTableView {
            join_type: self.join_type,
            right_schema: self.right_schema@,
            output_schema: self.output_schema@,
            right: self.right_state@,
            left_key_index: self.left_key_index as int,
        }
    }
}

/// What a row of the stream is joined to, if it is.
pub open spec fn stream_table_row(j: StreamTableView, row: RowView) -> Option<RowView> {
    match table_row(j.right, field(row.values, j.left_key_index)) {
        Some(right) => Some(combined(row, right)),
        None => if keeps_left(j.join_type) {
            Some(combined(row, nulls(j.right_schema)))
        } else {
            None
        },
    }
}

/// What the first `n` rows of the stream are joined to.
pub open spec fn stream_table_rows(j: StreamTableView, rows: Seq<RowView>, n: nat) -> Seq<RowView>
    decreases n,
{
    if n == 0 {
        Seq::empty()
    } else {
        let before = stream_table_rows(j, rows, (n - 1) as nat);
        match stream_table_row(j, rows[n - 1]) {
            Some(row) => before.push(row),
            None => before,
        }
    }
}

impl StreamTableJoinOp {
    pub fn new(
        join_type: JoinType,
        on: Expr,
        left_schema: Schema,
        right_schema: Schema,
    ) -> (r: StreamTableJoinOp)
        ensures
            r@ == (StreamTableView {
                join_type,
                right_schema: right_schema@,
                output_schema: left_schema@ + right_schema@,
                right: Seq::empty(),
                left_key_index: join_keys_or_first(on@, left_schema@, right_schema@).0 as int,
            }),
    {
        let output_schema = combine_schemas(&left_schema, &right_schema);
        let (left_key_index, _right_key_index) = key_indices_or_first(
            &on,
            &left_schema,
            &right_schema,
        );
        StreamTableJoinOp {
            join_type,
            right_schema,
            output_schema,
            right_state: TableState::new(),
            left_key_index,
        }
    }

    pub fn schema(&self) -> (r: &Schema)
        ensures
            r@ == self@.output_schema,
    {
        &self.output_schema
    }

    /// Puts rows into the table.
    pub fn load_right(&mut self, rows: Vec<Row>, key_index: usize)
        ensures
            final(self)@ == (StreamTableView {
                right: stored(old(self)@.right, views(rows@), key_index as int, rows@.len()),
                ..old(self)@
            }),
    {
        store_rows(&mut self.right_state, &rows, key_index);
    }

    /// Joins rows of the stream.
    pub fn join(&self, rows: &Vec<Row>) -> (r: Vec<Row>)
        ensures
            views(r@) == stream_table_rows(self@, views(rows@), rows@.len()),
    {
        let ghost all = views(rows@);
        let keep = matches!(self.join_type, JoinType::Left | JoinType::FullOuter);
        let mut output: Vec<Row> = Vec::new();
        let mut i: usize = 0;
        proof {
            assert(views(output@) =~= Seq::<RowView>::empty());
        }
        while i < rows.len()
            invariant
                i <= rows.len(),
                all == views(rows@),
                keep == keeps_left(self@.join_type),
                views(output@) == stream_table_rows(self@, all, i as nat),
            decreases rows.len() - i,
        {
            let ghost before = views(output@);
            let key = rows[i].get(self.left_key_index);
            match self.right_state.get(key) {
                Some(right) => {
                    output.push(combine_rows(&rows[i], right));
                    proof {
                        assert(views(output@) =~= before.push(
                            stream_table_row(self@, all[i as int])->0,
                        ));
                    }
                },
                None => {
                    if keep {
                        output.push(combine_rows(&rows[i], &null_row(&self.right_schema)));
                        proof {
                            assert(views(output@) =~= before.push(
                                stream_table_row(self@, all[i as int])->0,
                            ));
                        }
                    }
                },
            }
            i = i + 1;
        }
        output
    }
}

// === Stream with stream ===

/// Joins the rows of two streams that lie close in time.
#[derive(Debug)]
pub struct StreamStreamJoinOp {
    join_type: JoinType,
    within: Duration,
    left_schema: Schema,
    right_schema: Schema,
    output_schema: Schema,
    left_buffer: JoinBuffer,
    right_buffer: JoinBuffer,
    left_key_index: usize,
    right_key_index: usize,
}

/// What a `StreamStreamJoinOp` holds.
pub struct StreamStreamView {
    pub join_type: JoinType,
    pub within: Duration,
    pub left_schema: Seq<ColumnView>,
    pub right_schema: Seq<ColumnView>,
    pub output_schema: Seq<ColumnView>,
    pub left: Seq<(Timestamp, RowView)>,
    pub right: Seq<(Timestamp, RowView)>,
    pub left_key_index: int,
    pub right_key_index: int,
}

impl View for StreamStreamJoinOp {
    type V = StreamStreamView;

    closed spec fn view(&self) -> StreamStreamView {
        StreamStreamView {
            join_type: self.join_type,
            within: self.within,
            left_schema: self.left_schema@,
            right_schema: self.right_schema@,
            output_schema: self.output_schema@,
            left: self.left_buffer@,
            right: self.right_buffer@,
            left_key_index: self.left_key_index as int,
            right_key_index: self.right_key_index as int,
        }
    }
}

/// The times between which a row is joined, where both are instants.
pub open spec fn span_around(t: Timestamp, within: Duration) -> Option<(Timestamp, Timestamp)> {
    let by = within.move_nanos();
    if can_move(t, -by) && can_move(t, by) {
        Some((move_by(t, -by), move_by(t, by)))
    } else {
        None
    }
}

/// A move back leads no further than a move forth.
proof fn lemma_span_in_order(t: Timestamp, by: int)
    requires
        by >= 0,
        can_move(t, -by),
        can_move(t, by),
    ensures
        !move_by(t, by).before(move_by(t, -by)),
{
    let a = moved(t, -by);
    let b = moved(t, by);
    Timestamp::lemma_made(a.0 as i64, a.1 as u32);
    Timestamp::lemma_made(b.0 as i64, b.1 as u32);
}

fn get_span(t: Timestamp, within: &Duration) -> (r: Option<(Timestamp, Timestamp)>)
    ensures
        r == span_around(t, *within),
        r matches Some((from, to)) ==> !to.before(from),
{
    match (t.checked_sub(within), t.checked_add(within)) {
        (Some(from), Some(to)) => {
            proof {
                lemma_span_in_order(t, within.move_nanos());
            }
            Some((from, to))
        },
        _ => None,
    }
}

/// The rows among the first `n` candidates whose keys equal the key of a row,
/// combined with it. The row is on the left or on the right.
pub open spec fn matches_of(
    row: RowView,
    key: ValueView,
    candidates: Seq<RowView>,
    key_index: int,
    row_on_left: bool,
    n: nat,
) -> Seq<RowView>
    decreases n,
{
    if n == 0 {
        Seq::empty()
    } else {
        let before = matches_of(row, key, candidates, key_index, row_on_left, (n - 1) as nat);
        let other = candidates[n - 1];
        if equal(key, field(other.values, key_index)) {
            before.push(
                if row_on_left {
                    combined(row, other)
                } else {
                    combined(other, row)
                },
            )
        } else {
            before
        }
    }
}

fn find_matches(
    row: &Row,
    key: &Value,
    candidates: &Vec<&Row>,
    key_index: usize,
    row_on_left: bool,
) -> (r: Vec<Row>)
    ensures
        views(r@) == matches_of(
            row@,
            key@,
            candidates@.map_values(|x: &Row| x@),
            key_index as int,
            row_on_left,
            candidates@.len(),
        ),
{
    let ghost all = candidates@.map_values(|x: &Row| x@);
    let mut output: Vec<Row> = Vec::new();
    let mut i: usize = 0;
    proof {
        assert(views(output@) =~= Seq::<RowView>::empty());
    }
    while i < candidates.len()
        invariant
            i <= candidates.len(),
            all == candidates@.map_values(|x: &Row| x@),
            views(output@) == matches_of(
                row@,
                key@,
                all,
                key_index as int,
                row_on_left,
                i as nat,
            ),
        decreases candidates.len() - i,
    {
        let ghost before = views(output@);
        if key.equals(candidates[i].get(key_index)) {
            let made = if row_on_left {
                combine_rows(row, candidates[i])
            } else {
                combine_rows(candidates[i], row)
            };
            let ghost held = made@;
            output.push(made);
            proof {
                assert(views(output@) =~= before.push(held));
            }
        }
        i = i + 1;
    }
    output
}

/// What a row of the left stream is joined to: each row of the right stream with
/// an equal key that lies close in time, or nulls where there is none and the join
/// keeps such rows. There is no answer where the times around it are out of range.
pub open spec fn left_matches(j: StreamStreamView, row: RowView, now: Timestamp) -> Option<
    Seq<RowView>,
> {
    match span_around(row_time(row, now), j.within) {
        None => None,
        Some((from, to)) => {
            let candidates = rows_between(j.right, from, to, j.right.len());
            let found = matches_of(
                row,
                field(row.values, j.left_key_index),
                candidates,
                j.right_key_index,
                true,
                candidates.len(),
            );
            if found.len() == 0 && keeps_left(j.join_type) {
                Some(seq![combined(row, nulls(j.right_schema))])
            } else {
                Some(found)
            }
        },
    }
}

/// What a row of the right stream is joined to.
pub open spec fn right_matches(j: StreamStreamView, row: RowView, now: Timestamp) -> Option<
    Seq<RowView>,
> {
    match span_around(row_time(row, now), j.within) {
        None => None,
        Some((from, to)) => {
            let candidates = rows_between(j.left, from, to, j.left.len());
            let found = matches_of(
                row,
                field(row.values, j.right_key_index),
                candidates,
                j.left_key_index,
                false,
                candidates.len(),
            );
            if found.len() == 0 && keeps_right(j.join_type) {
                Some(seq![combined(nulls(j.left_schema), row)])
            } else {
                Some(found)
            }
        },
    }
}

/// What the rows of the left stream from a place on are joined to, and the join
/// with these rows kept. There is no answer where one of them has none; the rows
/// before it are kept all the same.
pub open spec fn left_step(j: StreamStreamView, rows: Seq<RowView>, now: Timestamp, i: nat) -> (
    Option<Seq<RowView>>,
    StreamStreamView,
)
    decreases rows.len() - i,
{
    if i >= rows.len() {
        (Some(Seq::empty()), j)
    } else {
        let row = rows[i as int];
        match left_matches(j, row, now) {
            None => (None, j),
            Some(found) => {
                let kept = StreamStreamView {
                    left: buffered(j.left, row_time(row, now), row),
                    ..j
                };
                let (rest, last) = left_step(kept, rows, now, i + 1);
                match rest {
                    Some(rest) => (Some(found + rest), last),
                    None => (None, last),
                }
            },
        }
    }
}

/// What the rows of the right stream from a place on are joined to, and the join
/// with these rows kept.
pub open spec fn right_step(j: StreamStreamView, rows: Seq<RowView>, now: Timestamp, i: nat) -> (
    Option<Seq<RowView>>,
    StreamStreamView,
)
    decreases rows.len() - i,
{
    if i >= rows.len() {
        (Some(Seq::empty()), j)
    } else {
        let row = rows[i as int];
        match right_matches(j, row, now) {
            None => (None, j),
            Some(found) => {
                let kept = StreamStreamView {
                    right: buffered(j.right, row_time(row, now), row),
                    ..j
                };
                let (rest, last) = right_step(kept, rows, now, i + 1);
                match rest {
                    Some(rest) => (Some(found + rest), last),
                    None => (None, last),
                }
            },
        }
    }
}

/// A buffer after the first `n` rows were put into it, at their times.
pub open spec fn right_kept(
    buffer: Seq<(Timestamp, RowView)>,
    rows: Seq<RowView>,
    now: Timestamp,
    n: nat,
) -> Seq<(Timestamp, RowView)>
    decreases n,
{
    if n == 0 {
        buffer
    } else {
        let row = rows[n - 1];
        buffered(right_kept(buffer, rows, now, (n - 1) as nat), row_time(row, now), row)
    }
}

/// Puts rows before others, where there are any.
pub open spec fn before_rest(
    before: Seq<RowView>,
    r: (Option<Seq<RowView>>, StreamStreamView),
) -> (Option<Seq<RowView>>, StreamStreamView) {
    match r.0 {
        Some(rest) => (Some(before + rest), r.1),
        None => r,
    }
}

proof fn lemma_before_rest(
    before: Seq<RowView>,
    found: Seq<RowView>,
    r: (Option<Seq<RowView>>, StreamStreamView),
)
    ensures
        before_rest(before, before_rest(found, r)) == before_rest(before + found, r),
{
    if r.0 is Some {
        assert(before + (found + r.0->0) =~= (before + found) + r.0->0);
    }
}

proof fn lemma_before_none(r: (Option<Seq<RowView>>, StreamStreamView), none: Seq<RowView>)
    requires
        none.len() == 0,
    ensures
        before_rest(none, r) == r,
{
    if r.0 is Some {
        assert(none + r.0->0 =~= r.0->0);
    }
}

impl StreamStreamJoinOp {
    pub fn new(
        join_type: JoinType,
        on: Expr,
        within: Duration,
        left_schema: Schema,
        right_schema: Schema,
    ) -> (r: StreamStreamJoinOp)
        ensures
            r@ == (StreamStreamView {
                join_type,
                within,
                left_schema: left_schema@,
                right_schema: right_schema@,
                output_schema: left_schema@ + right_schema@,
                left: Seq::empty(),
                right: Seq::empty(),
                left_key_index: join_keys_or_first(on@, left_schema@, right_schema@).0 as int,
                right_key_index: join_keys_or_first(on@, left_schema@, right_schema@).1 as int,
            }),
    {
        let output_schema = combine_schemas(&left_schema, &right_schema);
        let (left_key_index, right_key_index) = key_indices_or_first(
            &on,
            &left_schema,
            &right_schema,
        );
        StreamStreamJoinOp {
            join_type,
            within,
            left_schema,
            right_schema,
            output_schema,
            left_buffer: JoinBuffer::new(),
            right_buffer: JoinBuffer::new(),
            left_key_index,
            right_key_index,
        }
    }

    pub fn schema(&self) -> (r: &Schema)
        ensures
            r@ == self@.output_schema,
    {
        &self.output_schema
    }

    fn match_left(&self, row: &Row, now: Timestamp) -> (r: Option<Vec<Row>>)
        ensures
            match r {
                Some(rows) => left_matches(self@, row@, now) == Some(views(rows@)),
                None => left_matches(self@, row@, now) is None,
            },
    {
        let (from, to) = match get_span(get_row_time(row, now), &self.within) {
            Some(span) => span,
            None => {
                return None;
            },
        };
        let key = row.get(self.left_key_index);
        let candidates = self.right_buffer.range(from, to);
        let mut found = find_matches(row, key, &candidates, self.right_key_index, true);
        let keep = matches!(self.join_type, JoinType::Left | JoinType::FullOuter);
        if found.len() == 0 && keep {
            found.push(combine_rows(row, &null_row(&self.right_schema)));
            proof {
                assert(views(found@) =~= seq![combined(row@, nulls(self@.right_schema))]);
            }
        }
        Some(found)
    }

    /// Takes in rows of the left stream. There is no answer where the times around
    /// one of them are out of range.
    pub fn join_left(&mut self, rows: &Vec<Row>, now: Timestamp) -> (r: Option<Vec<Row>>)
        ensures
            final(self)@ == left_step(old(self)@, views(rows@), now, 0).1,
            match r {
                Some(rows_out) => left_step(old(self)@, views(rows@), now, 0).0 == Some(
                    views(rows_out@),
                ),
                None => left_step(old(self)@, views(rows@), now, 0).0 is None,
            },
    {
        let ghost first = self@;
        let ghost all = views(rows@);
        let mut output: Vec<Row> = Vec::new();
        let mut i: usize = 0;
        proof {
            lemma_before_none(left_step(first, all, now, 0), views(output@));
        }
        while i < rows.len()
            invariant
                i <= rows.len(),
                first == old(self)@,
                all == views(rows@),
                left_step(first, all, now, 0) == before_rest(
                    views(output@),
                    left_step(self@, all, now, i as nat),
                ),
            decreases rows.len() - i,
        {
            let ghost before = views(output@);
            let ghost here = self@;
            let mut found = match self.match_left(&rows[i], now) {
                Some(found) => found,
                None => {
                    return None;
                },
            };
            let ghost held = views(found@);
            let ghost out = output@;
            let ghost f = found@;
            output.append(&mut found);
            self.left_buffer.insert(get_row_time(&rows[i], now), rows[i].clone());
            proof {
                assert(views(output@) =~= before + held);
                let rest = left_step(self@, all, now, (i + 1) as nat);
                assert(left_step(here, all, now, i as nat) == before_rest(held, rest));
                lemma_before_rest(before, held, rest);
            }
            i = i + 1;
        }
        proof {
            assert(views(output@) + Seq::<RowView>::empty() =~= views(output@));
        }
        Some(output)
    }

    fn match_right(&self, row: &Row, now: Timestamp) -> (r: Option<Vec<Row>>)
        ensures
            match r {
                Some(rows) => right_matches(self@, row@, now) == Some(views(rows@)),
                None => right_matches(self@, row@, now) is None,
            },
    {
        let (from, to) = match get_span(get_row_time(row, now), &self.within) {
            Some(span) => span,
            None => {
                return None;
            },
        };
        let key = row.get(self.right_key_index);
        let candidates = self.left_buffer.range(from, to);
        let mut found = find_matches(row, key, &candidates, self.left_key_index, false);
        let keep = matches!(self.join_type, JoinType::Right | JoinType::FullOuter);
        if found.len() == 0 && keep {
            found.push(combine_rows(&null_row(&self.left_schema), row));
            proof {
                assert(views(found@) =~= seq![combined(nulls(self@.left_schema), row@)]);
            }
        }
        Some(found)
    }

    /// Takes in rows of the right stream. There is no answer where the times around
    /// one of them are out of range.
    pub fn join_right(&mut self, rows: &Vec<Row>, now: Timestamp) -> (r: Option<Vec<Row>>)
        ensures
            final(self)@ == right_step(old(self)@, views(rows@), now, 0).1,
            match r {
                Some(rows_out) => right_step(old(self)@, views(rows@), now, 0).0 == Some(
                    views(rows_out@),
                ),
                None => right_step(old(self)@, views(rows@), now, 0).0 is None,
            },
    {
        let ghost first = self@;
        let ghost all = views(rows@);
        let mut output: Vec<Row> = Vec::new();
        let mut i: usize = 0;
        proof {
            lemma_before_none(right_step(first, all, now, 0), views(output@));
        }
        while i < rows.len()
            invariant
                i <= rows.len(),
                first == old(self)@,
                all == views(rows@),
                right_step(first, all, now, 0) == before_rest(
                    views(output@),
                    right_step(self@, all, now, i as nat),
                ),
            decreases rows.len() - i,
        {
            let ghost before = views(output@);
            let ghost here = self@;
            let mut found = match self.match_right(&rows[i], now) {
                Some(found) => found,
                None => {
                    return None;
                },
            };
            let ghost held = views(found@);
            let ghost out = output@;
            let ghost f = found@;
            output.append(&mut found);
            self.right_buffer.insert(get_row_time(&rows[i], now), rows[i].clone());
            proof {
                assert(views(output@) =~= before + held);
                let rest = right_step(self@, all, now, (i + 1) as nat);
                assert(right_step(here, all, now, i as nat) == before_rest(held, rest));
                lemma_before_rest(before, held, rest);
            }
            i = i + 1;
        }
        proof {
            assert(views(output@) + Seq::<RowView>::empty() =~= views(output@));
        }
        Some(output)
    }
}

/// What rows come to that have an answer.
pub open spec fn answer(r: Option<Seq<RowView>>) -> Result<Seq<RowView>, Seq<char>> {
    Ok(r->0)
}

impl StreamStreamJoinOp {
    /// Puts rows into the right buffer, without joining them to rows of the left stream.
    pub fn keep_right(&mut self, rows: &Vec<Row>, now: Timestamp)
        ensures
            final(self)@ == (StreamStreamView {
                right: right_kept(old(self)@.right, views(rows@), now, rows@.len()),
                ..old(self)@
            }),
    {
        let ghost first = self@;
        let ghost all = views(rows@);
        let mut i: usize = 0;
        while i < rows.len()
            invariant
                i <= rows.len(),
                all == views(rows@),
                self@ == (StreamStreamView {
                    right: right_kept(first.right, all, now, i as nat),
                    ..first
                }),
            decreases rows.len() - i,
        {
            proof {
                assert(all[i as int] == rows@[i as int]@);
            }
            let t = match rows[i].metadata.timestamp {
                Some(t) => t,
                None => now,
            };
            self.right_buffer.insert(t, rows[i].clone());
            i = i + 1;
        }
    }

    /// Takes in rows of the left stream. Rows without a time of their own are taken
    /// to be of the present.
    pub fn process_left(&mut self, rows: Vec<Row>) -> (r: Result<Vec<Row>, Error>)
        requires
            forall|now: Timestamp|
                (#[trigger] left_step(old(self)@, views(rows@), now, 0)).0 is Some,
        ensures
            exists|now: Timestamp|
                {
                    let step = #[trigger] left_step(old(self)@, views(rows@), now, 0);
                    now.of_clock() && rows_outcome(r) == answer(step.0) && final(self)@ == step.1
                },
            carry_times(views(rows@)) ==> forall|now: Timestamp|
                {
                    let step = #[trigger] left_step(old(self)@, views(rows@), now, 0);
                    rows_outcome(r) == answer(step.0) && final(self)@ == step.1
                },
    {
        let now = Timestamp::now();
        let ghost step = left_step(self@, views(rows@), now, 0);
        proof {
            if carry_times(views(rows@)) {
                assert forall|later: Timestamp| #[trigger]
                    left_step(old(self)@, views(rows@), later, 0) == step by {
                    lemma_left_step_any_time(old(self)@, views(rows@), later, now, 0);
                }
            }
        }
        match self.join_left(&rows, now) {
            Some(output) => Ok(output),
            None => Ok(Vec::new()),
        }
    }

    /// Takes in rows of the right stream. Rows without a time of their own are taken
    /// to be of the present.
    pub fn process_right(&mut self, rows: Vec<Row>) -> (r: Result<Vec<Row>, Error>)
        requires
            forall|now: Timestamp|
                (#[trigger] right_step(old(self)@, views(rows@), now, 0)).0 is Some,
        ensures
            exists|now: Timestamp|
                {
                    let step = #[trigger] right_step(old(self)@, views(rows@), now, 0);
                    now.of_clock() && rows_outcome(r) == answer(step.0) && final(self)@ == step.1
                },
            carry_times(views(rows@)) ==> forall|now: Timestamp|
                {
                    let step = #[trigger] right_step(old(self)@, views(rows@), now, 0);
                    rows_outcome(r) == answer(step.0) && final(self)@ == step.1
                },
    {
        let now = Timestamp::now();
        let ghost step = right_step(self@, views(rows@), now, 0);
        proof {
            if carry_times(views(rows@)) {
                assert forall|later: Timestamp| #[trigger]
                    right_step(old(self)@, views(rows@), later, 0) == step by {
                    lemma_right_step_any_time(old(self)@, views(rows@), later, now, 0);
                }
            }
        }
        match self.join_right(&rows, now) {
            Some(output) => Ok(output),
            None => Ok(Vec::new()),
        }
    }
}

// === Table with table ===

/// Joins the latest rows of two tables.
#[derive(Debug)]
pub struct TableTableJoinOp {
    join_type: JoinType,
    left_schema: Schema,
    right_schema: Schema,
    output_schema: Schema,
    left_state: TableState,
    right_state: TableState,
    left_key_index: usize,
}

/// What a `TableTableJoinOp` holds.
pub struct TableTableView {
    pub join_type: JoinType,
    pub left_schema: Seq<ColumnView>,
    pub right_schema: Seq<ColumnView>,
    pub output_schema: Seq<ColumnView>,
    pub left: Seq<(ValueView, RowView)>,
    pub right: Seq<(ValueView, RowView)>,
    pub left_key_index: int,
}

impl View for TableTableJoinOp {
    type V = TableTableView;

    closed spec fn view(&self) -> TableTableView {
        TableTableView {
            join_type: self.join_type,
            left_schema: self.left_schema@,
            right_schema: self.right_schema@,
            output_schema: self.output_schema@,
            left: self.left_state@,
            right: self.right_state@,
            left_key_index: self.left_key_index as int,
        }
    }
}

/// What the first `n` rows of the left table are joined to.
pub open spec fn left_out(j: TableTableView, n: nat) -> Seq<RowView>
    decreases n,
{
    if n == 0 {
        Seq::empty()
    } else {
        let before = left_out(j, (n - 1) as nat);
        let (key, row) = j.left[n - 1];
        match table_row(j.right, key) {
            Some(right) => before.push(combined(row, right)),
            None => if keeps_left(j.join_type) {
                before.push(combined(row, nulls(j.right_schema)))
            } else {
                before
            },
        }
    }
}

/// Whether a key of the right table has a match: a key on the left that has a row
/// on the right and equals it.
pub open spec fn right_has_match(j: TableTableView, key: ValueView) -> bool {
    exists|i: int|
        0 <= i < j.left.len() && table_row(j.right, #[trigger] j.left[i].0) is Some && equal(
            j.left[i].0,
            key,
        )
}

/// What those of the first `n` rows of the right table that have no match are
/// joined to.
pub open spec fn right_out(j: TableTableView, n: nat) -> Seq<RowView>
    decreases n,
{
    if n == 0 {
        Seq::empty()
    } else {
        let before = right_out(j, (n - 1) as nat);
        let (key, row) = j.right[n - 1];
        if right_has_match(j, key) {
            before
        } else {
            before.push(combined(nulls(j.left_schema), row))
        }
    }
}

/// The rows of the join of both tables.
pub open spec fn joined_tables(j: TableTableView) -> Seq<RowView> {
    if keeps_right(j.join_type) {
        left_out(j, j.left.len()) + right_out(j, j.right.len())
    } else {
        left_out(j, j.left.len())
    }
}

impl TableTableJoinOp {
    pub fn new(
        join_type: JoinType,
        on: Expr,
        left_schema: Schema,
        right_schema: Schema,
    ) -> (r: TableTableJoinOp)
        ensures
            r@ == (TableTableView {
                join_type,
                left_schema: left_schema@,
                right_schema: right_schema@,
                output_schema: left_schema@ + right_schema@,
                left: Seq::empty(),
                right: Seq::empty(),
                left_key_index: join_keys_or_first(on@, left_schema@, right_schema@).0 as int,
            }),
    {
        let output_schema = combine_schemas(&left_schema, &right_schema);
        let (left_key_index, _right_key_index) = key_indices_or_first(
            &on,
            &left_schema,
            &right_schema,
        );
        TableTableJoinOp {
            join_type,
            left_schema,
            right_schema,
            output_schema,
            left_state: TableState::new(),
            right_state: TableState::new(),
            left_key_index,
        }
    }

    pub fn schema(&self) -> (r: &Schema)
        ensures
            r@ == self@.output_schema,
    {
        &self.output_schema
    }

    /// Puts rows into the left table.
    pub fn load_left(&mut self, rows: Vec<Row>)
        ensures
            final(self)@ == (TableTableView {
                left: stored(
                    old(self)@.left,
                    views(rows@),
                    old(self)@.left_key_index,
                    rows@.len(),
                ),
                ..old(self)@
            }),
    {
        store_rows(&mut self.left_state, &rows, self.left_key_index);
    }

    /// Puts rows into the right table.
    pub fn load_right(&mut self, rows: Vec<Row>, key_index: usize)
        ensures
            final(self)@ == (TableTableView {
                right: stored(old(self)@.right, views(rows@), key_index as int, rows@.len()),
                ..old(self)@
            }),
    {
        store_rows(&mut self.right_state, &rows, key_index);
    }

    fn has_match(&self, key: &Value) -> (r: bool)
        ensures
            r == right_has_match(self@, key@),
    {
        let ghost left = self@.left;
        let rows = self.left_state.iter();
        let mut i: usize = 0;
        while i < rows.len()
            invariant
                i <= rows.len(),
                left == self@.left,
                left == rows@.map_values(|e: (&Value, &Row)| (e.0@, e.1@)),
                forall|k: int|
                    0 <= k < i ==> !(table_row(self@.right, #[trigger] left[k].0) is Some && equal(
                        left[k].0,
                        key@,
                    )),
            decreases rows.len() - i,
        {
            proof {
                assert(left[i as int] == (rows@[i as int].0@, rows@[i as int].1@));
            }
            if self.right_state.get(rows[i].0).is_some() && rows[i].0.equals(key) {
                proof {
                    assert(table_row(self@.right, self@.left[i as int].0) is Some);
                }
                return true;
            }
            i = i + 1;
        }
        false
    }

    /// Joins the two tables.
    pub fn join_all(&self) -> (r: Vec<Row>)
        ensures
            views(r@) == joined_tables(self@),
    {
        let ghost j = self@;
        let keep_left = matches!(self.join_type, JoinType::Left | JoinType::FullOuter);
        let keep_right = matches!(self.join_type, JoinType::Right | JoinType::FullOuter);
        let mut output: Vec<Row> = Vec::new();
        let left = self.left_state.iter();
        let mut i: usize = 0;
        proof {
            assert(views(output@) =~= Seq::<RowView>::empty());
        }
        while i < left.len()
            invariant
                i <= left.len(),
                j == self@,
                keep_left == keeps_left(j.join_type),
                j.left == left@.map_values(|e: (&Value, &Row)| (e.0@, e.1@)),
                views(output@) == left_out(j, i as nat),
            decreases left.len() - i,
        {
            let ghost before = views(output@);
            proof {
                assert(j.left[i as int] == (left@[i as int].0@, left@[i as int].1@));
            }
            match self.right_state.get(left[i].0) {
                Some(right) => {
                    let made = combine_rows(left[i].1, right);
                    let ghost held = made@;
                    output.push(made);
                    proof {
                        assert(views(output@) =~= before.push(held));
                    }
                },
                None => {
                    if keep_left {
                        let made = combine_rows(left[i].1, &null_row(&self.right_schema));
                        let ghost held = made@;
                        output.push(made);
                        proof {
                            assert(views(output@) =~= before.push(held));
                        }
                    }
                },
            }
            i = i + 1;
        }
        if keep_right {
            let ghost first = views(output@);
            let right = self.right_state.iter();
            let mut k: usize = 0;
            proof {
                assert(first + right_out(j, 0) =~= first);
            }
            while k < right.len()
                invariant
                    k <= right.len(),
                    j == self@,
                    j.right == right@.map_values(|e: (&Value, &Row)| (e.0@, e.1@)),
                    views(output@) == first + right_out(j, k as nat),
                decreases right.len() - k,
            {
                let ghost before = views(output@);
                proof {
                    assert(j.right[k as int] == (right@[k as int].0@, right@[k as int].1@));
                }
                if !self.has_match(right[k].0) {
                    let made = combine_rows(&null_row(&self.left_schema), right[k].1);
                    let ghost held = made@;
                    output.push(made);
                    proof {
                        assert(views(output@) =~= before.push(held));
                        assert(views(output@) =~= first + right_out(j, (k + 1) as nat));
                    }
                }
                k = k + 1;
            }
        }
        output
    }
}

} // verus!
