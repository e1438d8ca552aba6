//! Laws of joins: which rows come out, how often, and in which order.
use crate::engine::operator::join::{
    joined_tables, keeps_left, keeps_right, left_matches, left_out, left_step, matches_of,
    right_has_match, right_kept, right_matches, right_out, right_step, span_around,
    StreamStreamView, TableTableView,
};
use crate::engine::operator::rows::{combined, nulls};
use crate::engine::operator::window::row_time;
use crate::engine::state::laws::{lemma_buffered, lies_between};
use crate::engine::state::{
    buffered, in_time_order, key_index, lemma_key_index, rows_between, table_row,
};
use crate::time::{Duration, Timestamp};
use crate::types::{field, RowView};
use crate::value::laws::lemma_equal_symmetric;
use crate::value::{equal, ValueView};
use vstd::multiset::Multiset;
use vstd::prelude::*;
use vstd::seq_lib::lemma_multiset_commutative;

verus! {

// === Tables ===

/// The rows of the first `n` keys of the left table that are in the right one as well,
/// each combined with the row there.
pub open spec fn paired(j: TableTableView, n: nat) -> Seq<RowView> {
    j.left.take(n as int).filter(
        |e: (ValueView, RowView)| table_row(j.right, e.0) is Some,
    ).map_values(|e: (ValueView, RowView)| combined(e.1, table_row(j.right, e.0)->0))
}

/// The rows of the first `n` keys of the left table that are not in the right one, with
/// nulls behind them.
pub open spec fn left_alone(j: TableTableView, n: nat) -> Seq<RowView> {
    j.left.take(n as int).filter(
        |e: (ValueView, RowView)| table_row(j.right, e.0) is None,
    ).map_values(|e: (ValueView, RowView)| combined(e.1, nulls(j.right_schema)))
}

/// The rows of the first `n` keys of the right table that are not in the left one, with
/// nulls before them.
pub open spec fn right_alone(j: TableTableView, n: nat) -> Seq<RowView> {
    j.right.take(n as int).filter(
        |e: (ValueView, RowView)| table_row(j.left, e.0) is None,
    ).map_values(|e: (ValueView, RowView)| combined(nulls(j.left_schema), e.1))
}

/// Rows, each as often as it occurs, where they are kept, and else none.
pub open spec fn rows_if(kept: bool, rows: Seq<RowView>) -> Multiset<RowView> {
    if kept {
        rows.to_multiset()
    } else {
        Multiset::empty()
    }
}

proof fn lemma_filtered_step<A, R>(
    s: Seq<A>,
    n: nat,
    keep: spec_fn(A) -> bool,
    f: spec_fn(A) -> R,
)
    requires
        0 < n <= s.len(),
    ensures
        s.take(n as int).filter(keep).map_values(f) == if keep(s[n - 1]) {
            s.take(n - 1).filter(keep).map_values(f).push(f(s[n - 1]))
        } else {
            s.take(n - 1).filter(keep).map_values(f)
        },
{
    reveal(Seq::filter);
    let t = s.take(n as int);
    assert(t.drop_last() =~= s.take(n - 1));
    assert(t.last() == s[n - 1]);
    let before = s.take(n - 1).filter(keep);
    if keep(s[n - 1]) {
        assert(before.push(s[n - 1]).map_values(f) =~= before.map_values(f).push(f(s[n - 1])));
    }
}

proof fn lemma_left_rows(j: TableTableView, n: nat)
    requires
        n <= j.left.len(),
    ensures
        left_out(j, n).to_multiset() =~= paired(j, n).to_multiset().add(
            rows_if(keeps_left(j.join_type), left_alone(j, n)),
        ),
    decreases n,
{
    broadcast use vstd::seq_lib::group_to_multiset_ensures;

    let has = |e: (ValueView, RowView)| table_row(j.right, e.0) is Some;
    let lacks = |e: (ValueView, RowView)| table_row(j.right, e.0) is None;
    let pair = |e: (ValueView, RowView)| combined(e.1, table_row(j.right, e.0)->0);
    let alone = |e: (ValueView, RowView)| combined(e.1, nulls(j.right_schema));
    if n == 0 {
        reveal(Seq::filter);
        assert(j.left.take(0).len() == 0);
        assert(paired(j, 0) =~= Seq::empty());
        assert(left_alone(j, 0) =~= Seq::empty());
        assert(left_out(j, 0) =~= Seq::empty());
    } else {
        lemma_left_rows(j, (n - 1) as nat);
        lemma_filtered_step(j.left, n, has, pair);
        lemma_filtered_step(j.left, n, lacks, alone);
        assert(paired(j, n) == j.left.take(n as int).filter(has).map_values(pair));
        assert(left_alone(j, n) == j.left.take(n as int).filter(lacks).map_values(alone));
    }
}

proof fn lemma_right_rows(j: TableTableView, n: nat)
    requires
        n <= j.right.len(),
    ensures
        right_out(j, n).to_multiset() =~= right_alone(j, n).to_multiset(),
    decreases n,
{
    broadcast use vstd::seq_lib::group_to_multiset_ensures;

    let lacks = |e: (ValueView, RowView)| table_row(j.left, e.0) is None;
    let alone = |e: (ValueView, RowView)| combined(nulls(j.left_schema), e.1);
    if n == 0 {
        reveal(Seq::filter);
        assert(j.right.take(0).len() == 0);
        assert(right_alone(j, 0) =~= Seq::empty());
        assert(right_out(j, 0) =~= Seq::empty());
    } else {
        lemma_right_rows(j, (n - 1) as nat);
        lemma_filtered_step(j.right, n, lacks, alone);
        assert(right_alone(j, n) == j.right.take(n as int).filter(lacks).map_values(alone));
        lemma_match_on_left(j, n - 1);
    }
}

/// A key of the right table has a match exactly where it is in the left table.
proof fn lemma_match_on_left(j: TableTableView, n: int)
    requires
        0 <= n < j.right.len(),
    ensures
        right_has_match(j, j.right[n].0) <==> table_row(j.left, j.right[n].0) is Some,
{
    let key = j.right[n].0;
    lemma_key_index(j.left, key, 0);
    if table_row(j.left, key) is Some {
        let i = key_index(j.left, key, 0)->0 as int;
        lemma_equal_symmetric(j.left[i].0, key);
        lemma_key_index(j.right, j.left[i].0, 0);
        assert(table_row(j.right, j.left[i].0) is Some);
    }
    if right_has_match(j, key) {
        let i = choose|i: int|
            0 <= i < j.left.len() && table_row(j.right, #[trigger] j.left[i].0) is Some && equal(
                j.left[i].0,
                key,
            );
        assert(equal(j.left[i].0, key));
    }
}

/// The rows of a join of two tables, each as often as it occurs: one for each key in
/// both tables, one with nulls for each key in the left table only where the join keeps
/// these, one with nulls for each key in the right table only where it keeps those, and
/// nothing else.
pub proof fn lemma_tables_rows(j: TableTableView)
    ensures
        joined_tables(j).to_multiset() == paired(j, j.left.len()).to_multiset().add(
            rows_if(keeps_left(j.join_type), left_alone(j, j.left.len())),
        ).add(rows_if(keeps_right(j.join_type), right_alone(j, j.right.len()))),
{
    lemma_left_rows(j, j.left.len());
    lemma_right_rows(j, j.right.len());
    let left = left_out(j, j.left.len());
    let right = right_out(j, j.right.len());
    lemma_multiset_commutative(left, right);
    assert(left.to_multiset().add(Multiset::empty()) =~= left.to_multiset());
}

// === Streams ===

/// Rows with their times.
pub open spec fn timed(rows: Seq<RowView>, now: Timestamp) -> Seq<(Timestamp, RowView)> {
    rows.map_values(|r: RowView| (row_time(r, now), r))
}

/// A batch of rows of one of the two streams of a join.
pub enum Batch {
    Left(Seq<RowView>),
    Right(Seq<RowView>),
}

/// A join of streams after the first `n` of some batches. There is no answer where one
/// of them has none.
pub open spec fn after_batches(
    j: StreamStreamView,
    batches: Seq<Batch>,
    now: Timestamp,
    n: nat,
) -> Option<StreamStreamView>
    decreases n,
{
    if n == 0 {
        Some(j)
    } else {
        match after_batches(j, batches, now, (n - 1) as nat) {
            None => None,
            Some(before) => {
                let step = match batches[n - 1] {
                    Batch::Left(rows) => left_step(before, rows, now, 0),
                    Batch::Right(rows) => right_step(before, rows, now, 0),
                };
                match step.0 {
                    Some(_) => Some(step.1),
                    None => None,
                }
            },
        }
    }
}

/// The rows of the left stream in the first `n` of some batches.
pub open spec fn left_given(batches: Seq<Batch>, n: nat) -> Seq<RowView>
    decreases n,
{
    if n == 0 {
        Seq::empty()
    } else {
        match batches[n - 1] {
            Batch::Left(rows) => left_given(batches, (n - 1) as nat) + rows,
            Batch::Right(_) => left_given(batches, (n - 1) as nat),
        }
    }
}

/// The rows of the right stream in the first `n` of some batches.
pub open spec fn right_given(batches: Seq<Batch>, n: nat) -> Seq<RowView>
    decreases n,
{
    if n == 0 {
        Seq::empty()
    } else {
        match batches[n - 1] {
            Batch::Left(_) => right_given(batches, (n - 1) as nat),
            Batch::Right(rows) => right_given(batches, (n - 1) as nat) + rows,
        }
    }
}

/// One more row in a buffer, before all later ones.
proof fn lemma_one_more(
    b: Seq<(Timestamp, RowView)>,
    rows: Seq<RowView>,
    now: Timestamp,
    i: int,
)
    requires
        0 <= i < rows.len(),
        in_time_order(b),
    ensures
        in_time_order(buffered(b, row_time(rows[i], now), rows[i])),
        buffered(b, row_time(rows[i], now), rows[i]).to_multiset().add(
            timed(rows.skip(i + 1), now).to_multiset(),
        ) == b.to_multiset().add(timed(rows.skip(i), now).to_multiset()),
{
    broadcast use vstd::seq_lib::group_to_multiset_ensures;

    let t = row_time(rows[i], now);
    let entry = (t, rows[i]);
    lemma_buffered(b, t, rows[i]);
    let rest = timed(rows.skip(i + 1), now);
    let one: Seq<(Timestamp, RowView)> = seq![entry];
    assert(timed(rows.skip(i), now) =~= one + rest);
    lemma_multiset_commutative(one, rest);
    assert(one =~= Seq::empty().push(entry));
    assert(one.to_multiset() =~= Multiset::empty().insert(entry));
    assert(b.to_multiset().insert(entry).add(rest.to_multiset()) =~= b.to_multiset().add(
        one.to_multiset().add(rest.to_multiset()),
    ));
}

proof fn lemma_left_kept(j: StreamStreamView, rows: Seq<RowView>, now: Timestamp, i: nat)
    requires
        i <= rows.len(),
        in_time_order(j.left),
        left_step(j, rows, now, i).0 is Some,
    ensures
        ({
            let k = left_step(j, rows, now, i).1;
            &&& k == (StreamStreamView { left: k.left, ..j })
            &&& in_time_order(k.left)
            &&& k.left.to_multiset() == j.left.to_multiset().add(
                timed(rows.skip(i as int), now).to_multiset(),
            )
        }),
    decreases rows.len() - i,
{
    broadcast use vstd::seq_lib::group_to_multiset_ensures;

    if i < rows.len() {
        let row = rows[i as int];
        let kept = StreamStreamView { left: buffered(j.left, row_time(row, now), row), ..j };
        lemma_one_more(j.left, rows, now, i as int);
        lemma_left_kept(kept, rows, now, i + 1);
    } else {
        assert(timed(rows.skip(i as int), now) =~= Seq::empty());
        assert(j.left.to_multiset().add(Multiset::empty()) =~= j.left.to_multiset());
    }
}

proof fn lemma_right_kept(j: StreamStreamView, rows: Seq<RowView>, now: Timestamp, i: nat)
    requires
        i <= rows.len(),
        in_time_order(j.right),
        right_step(j, rows, now, i).0 is Some,
    ensures
        ({
            let k = right_step(j, rows, now, i).1;
            &&& k == (StreamStreamView { right: k.right, ..j })
            &&& in_time_order(k.right)
            &&& k.right.to_multiset() == j.right.to_multiset().add(
                timed(rows.skip(i as int), now).to_multiset(),
            )
        }),
    decreases rows.len() - i,
{
    broadcast use vstd::seq_lib::group_to_multiset_ensures;

    if i < rows.len() {
        let row = rows[i as int];
        let kept = StreamStreamView { right: buffered(j.right, row_time(row, now), row), ..j };
        lemma_one_more(j.right, rows, now, i as int);
        lemma_right_kept(kept, rows, now, i + 1);
    } else {
        assert(timed(rows.skip(i as int), now) =~= Seq::empty());
        assert(j.right.to_multiset().add(Multiset::empty()) =~= j.right.to_multiset());
    }
}

/// What the buffer of one side holds once more rows were given to it.
proof fn lemma_given(
    b: Multiset<(Timestamp, RowView)>,
    before: Seq<RowView>,
    rows: Seq<RowView>,
    now: Timestamp,
)
    ensures
        b.add(timed(before, now).to_multiset()).add(timed(rows, now).to_multiset()) == b.add(
            timed(before + rows, now).to_multiset(),
        ),
{
    assert(timed(before + rows, now) =~= timed(before, now) + timed(rows, now));
    lemma_multiset_commutative(timed(before, now), timed(rows, now));
    assert(b.add(timed(before, now).to_multiset()).add(timed(rows, now).to_multiset()) =~= b.add(
        timed(before, now).to_multiset().add(timed(rows, now).to_multiset()),
    ));
}

/// However the rows of two streams come, in whatever batches: each side of their join
/// keeps the rows that were given to it, with their times and in the order of these, and
/// nothing else of the join changes.
pub proof fn lemma_kept_rows(j: StreamStreamView, batches: Seq<Batch>, now: Timestamp, n: nat)
    requires
        n <= batches.len(),
        j.left == Seq::<(Timestamp, RowView)>::empty(),
        j.right == Seq::<(Timestamp, RowView)>::empty(),
    ensures
        after_batches(j, batches, now, n) matches Some(k) ==> {
            &&& k == (StreamStreamView { left: k.left, right: k.right, ..j })
            &&& in_time_order(k.left)
            &&& in_time_order(k.right)
            &&& k.left.to_multiset() == timed(left_given(batches, n), now).to_multiset()
            &&& k.right.to_multiset() == timed(right_given(batches, n), now).to_multiset()
        },
    decreases n,
{
    broadcast use vstd::seq_lib::group_to_multiset_ensures;

    if n == 0 {
        assert(timed(left_given(batches, 0), now) =~= Seq::empty());
        assert(timed(right_given(batches, 0), now) =~= Seq::empty());
    } else {
        let m = (n - 1) as nat;
        lemma_kept_rows(j, batches, now, m);
        if let Some(k) = after_batches(j, batches, now, n) {
            let before = after_batches(j, batches, now, m)->0;
            let none = Multiset::<(Timestamp, RowView)>::empty();
            match batches[n - 1] {
                Batch::Left(rows) => {
                    lemma_left_kept(before, rows, now, 0);
                    assert(rows.skip(0) =~= rows);
                    let given = left_given(batches, m);
                    lemma_given(none, given, rows, now);
                    assert(none.add(timed(given, now).to_multiset()) =~= timed(
                        given,
                        now,
                    ).to_multiset());
                    assert(none.add(timed(given + rows, now).to_multiset()) =~= timed(
                        given + rows,
                        now,
                    ).to_multiset());
                },
                Batch::Right(rows) => {
                    lemma_right_kept(before, rows, now, 0);
                    assert(rows.skip(0) =~= rows);
                    let given = right_given(batches, m);
                    lemma_given(none, given, rows, now);
                    assert(none.add(timed(given, now).to_multiset()) =~= timed(
                        given,
                        now,
                    ).to_multiset());
                    assert(none.add(timed(given + rows, now).to_multiset()) =~= timed(
                        given + rows,
                        now,
                    ).to_multiset());
                },
            }
        }
    }
}

/// Whether a row of a buffer lies between two times, and has a key.
pub open spec fn is_near(
    e: (Timestamp, RowView),
    from: Timestamp,
    to: Timestamp,
    key: ValueView,
    key_index: int,
) -> bool {
    lies_between(e.0, from, to) && equal(key, field(e.1.values, key_index))
}

proof fn lemma_matches_prefix(
    row: RowView,
    key: ValueView,
    candidates: Seq<RowView>,
    last: RowView,
    key_index: int,
    row_on_left: bool,
    n: nat,
)
    requires
        n <= candidates.len(),
    ensures
        matches_of(row, key, candidates.push(last), key_index, row_on_left, n) == matches_of(
            row,
            key,
            candidates,
            key_index,
            row_on_left,
            n,
        ),
    decreases n,
{
    if n > 0 {
        lemma_matches_prefix(row, key, candidates, last, key_index, row_on_left, (n - 1) as nat);
    }
}

proof fn lemma_matches_listed(
    b: Seq<(Timestamp, RowView)>,
    from: Timestamp,
    to: Timestamp,
    row: RowView,
    key: ValueView,
    key_index: int,
    row_on_left: bool,
    n: nat,
)
    requires
        n <= b.len(),
    ensures
        ({
            let candidates = rows_between(b, from, to, n);
            matches_of(row, key, candidates, key_index, row_on_left, candidates.len()) == b.take(
                n as int,
            ).filter(|e: (Timestamp, RowView)| is_near(e, from, to, key, key_index)).map_values(
                |e: (Timestamp, RowView)|
                    if row_on_left {
                        combined(row, e.1)
                    } else {
                        combined(e.1, row)
                    },
            )
        }),
    decreases n,
{
    let near = |e: (Timestamp, RowView)| is_near(e, from, to, key, key_index);
    let join = |e: (Timestamp, RowView)|
        if row_on_left {
            combined(row, e.1)
        } else {
            combined(e.1, row)
        };
    if n == 0 {
        reveal(Seq::filter);
        assert(b.take(0).len() == 0);
        assert(b.take(0).filter(near).map_values(join) =~= Seq::empty());
    } else {
        lemma_matches_listed(b, from, to, row, key, key_index, row_on_left, (n - 1) as nat);
        lemma_filtered_step(b, n, near, join);
        let before = rows_between(b, from, to, (n - 1) as nat);
        let candidates = rows_between(b, from, to, n);
        if lies_between(b[n - 1].0, from, to) {
            assert(candidates == before.push(b[n - 1].1));
            lemma_matches_prefix(
                row,
                key,
                before,
                b[n - 1].1,
                key_index,
                row_on_left,
                before.len(),
            );
        } else {
            assert(candidates == before);
        }
    }
}

/// The rows of a buffer that lie between two times and have a key, in their order.
pub open spec fn near(
    b: Seq<(Timestamp, RowView)>,
    span: (Timestamp, Timestamp),
    key: ValueView,
    key_index: int,
) -> Seq<(Timestamp, RowView)> {
    b.filter(|e: (Timestamp, RowView)| is_near(e, span.0, span.1, key, key_index))
}

/// The rows that a join keeps of its right stream, have the key of a row of the left one
/// and lie within the span around it, both ends of which count, each combined with it in
/// the order in which they are kept. Where there are none, the row with nulls, if the
/// join keeps rows without a match.
pub open spec fn left_listed(j: StreamStreamView, row: RowView, now: Timestamp) -> Seq<RowView> {
    let span = span_around(row_time(row, now), j.within)->0;
    let key = field(row.values, j.left_key_index);
    let found = near(j.right, span, key, j.right_key_index).map_values(
        |e: (Timestamp, RowView)| combined(row, e.1),
    );
    if found.len() == 0 && keeps_left(j.join_type) {
        seq![combined(row, nulls(j.right_schema))]
    } else {
        found
    }
}

/// The rows that a join keeps of its left stream, have the key of a row of the right one
/// and lie within the span around it, each combined with it in the same way.
pub open spec fn right_listed(j: StreamStreamView, row: RowView, now: Timestamp) -> Seq<RowView> {
    let span = span_around(row_time(row, now), j.within)->0;
    let key = field(row.values, j.right_key_index);
    let found = near(j.left, span, key, j.left_key_index).map_values(
        |e: (Timestamp, RowView)| combined(e.1, row),
    );
    if found.len() == 0 && keeps_right(j.join_type) {
        seq![combined(nulls(j.left_schema), row)]
    } else {
        found
    }
}

/// A row of the left stream is joined to the rows that the join keeps of the right one,
/// have its key, and lie within the span around it, both ends of which count: to each of
/// them, in the order in which they are kept. A join that keeps rows without a match
/// fills in nulls where there is none, and another makes nothing of it.
pub proof fn lemma_left_listed(j: StreamStreamView, row: RowView, now: Timestamp)
    ensures
        left_matches(j, row, now) matches Some(found) ==> found == left_listed(j, row, now),
{
    if let Some((from, to)) = span_around(row_time(row, now), j.within) {
        let key = field(row.values, j.left_key_index);
        lemma_matches_listed(
            j.right,
            from,
            to,
            row,
            key,
            j.right_key_index,
            true,
            j.right.len(),
        );
        assert(j.right.take(j.right.len() as int) =~= j.right);
        let found = near(j.right, (from, to), key, j.right_key_index);
        assert(found.map_values(|e: (Timestamp, RowView)| combined(row, e.1))
            =~= found.map_values(
            |e: (Timestamp, RowView)|
                if true {
                    combined(row, e.1)
                } else {
                    combined(e.1, row)
                },
        ));
    }
}

/// A row of the right stream is joined in the same way to the rows that the join keeps
/// of the left one.
pub proof fn lemma_right_listed(j: StreamStreamView, row: RowView, now: Timestamp)
    ensures
        right_matches(j, row, now) matches Some(found) ==> found == right_listed(j, row, now),
{
    if let Some((from, to)) = span_around(row_time(row, now), j.within) {
        let key = field(row.values, j.right_key_index);
        lemma_matches_listed(
            j.left,
            from,
            to,
            row,
            key,
            j.left_key_index,
            false,
            j.left.len(),
        );
        assert(j.left.take(j.left.len() as int) =~= j.left);
        let found = near(j.left, (from, to), key, j.left_key_index);
        assert(found.map_values(|e: (Timestamp, RowView)| combined(e.1, row))
            =~= found.map_values(
            |e: (Timestamp, RowView)|
                if false {
                    combined(row, e.1)
                } else {
                    combined(e.1, row)
                },
        ));
    }
}

/// What the rows of the left stream from a place on are joined to, one after the other.
pub open spec fn all_left_listed(
    j: StreamStreamView,
    rows: Seq<RowView>,
    now: Timestamp,
    i: nat,
) -> Seq<RowView>
    decreases rows.len() - i,
{
    if i >= rows.len() {
        Seq::empty()
    } else {
        left_listed(j, rows[i as int], now) + all_left_listed(j, rows, now, i + 1)
    }
}

/// What the rows of the right stream from a place on are joined to, one after the other.
pub open spec fn all_right_listed(
    j: StreamStreamView,
    rows: Seq<RowView>,
    now: Timestamp,
    i: nat,
) -> Seq<RowView>
    decreases rows.len() - i,
{
    if i >= rows.len() {
        Seq::empty()
    } else {
        right_listed(j, rows[i as int], now) + all_right_listed(j, rows, now, i + 1)
    }
}

/// Whether the times around all rows from a place on are in range.
pub open spec fn all_spanned(
    j: StreamStreamView,
    rows: Seq<RowView>,
    now: Timestamp,
    i: nat,
) -> bool {
    forall|k: int|
        i <= k < rows.len() ==> span_around(row_time(#[trigger] rows[k], now), j.within) is Some
}

proof fn lemma_left_alike(
    a: StreamStreamView,
    b: StreamStreamView,
    rows: Seq<RowView>,
    now: Timestamp,
    i: nat,
)
    requires
        b == (StreamStreamView { left: b.left, ..a }),
    ensures
        all_left_listed(a, rows, now, i) == all_left_listed(b, rows, now, i),
    decreases rows.len() - i,
{
    if i < rows.len() {
        lemma_left_alike(a, b, rows, now, i + 1);
    }
}

proof fn lemma_right_alike(
    a: StreamStreamView,
    b: StreamStreamView,
    rows: Seq<RowView>,
    now: Timestamp,
    i: nat,
)
    requires
        b == (StreamStreamView { right: b.right, ..a }),
    ensures
        all_right_listed(a, rows, now, i) == all_right_listed(b, rows, now, i),
    decreases rows.len() - i,
{
    if i < rows.len() {
        lemma_right_alike(a, b, rows, now, i + 1);
    }
}

/// A batch of the left stream has an answer exactly where the times around its rows are
/// in range. What it puts out is what its rows are joined to, one after the other.
pub proof fn lemma_left_batch(j: StreamStreamView, rows: Seq<RowView>, now: Timestamp, i: nat)
    ensures
        left_step(j, rows, now, i).0 is Some <==> all_spanned(j, rows, now, i),
        left_step(j, rows, now, i).0 matches Some(out) ==> out == all_left_listed(j, rows, now, i),
    decreases rows.len() - i,
{
    if i < rows.len() {
        let row = rows[i as int];
        let kept = StreamStreamView { left: buffered(j.left, row_time(row, now), row), ..j };
        lemma_left_listed(j, row, now);
        lemma_left_batch(kept, rows, now, i + 1);
        lemma_left_alike(j, kept, rows, now, i + 1);
        assert(left_matches(j, row, now) is Some <==> span_around(
            row_time(row, now),
            j.within,
        ) is Some);
        if all_spanned(j, rows, now, i) {
            assert(span_around(row_time(rows[i as int], now), j.within) is Some);
            assert(all_spanned(kept, rows, now, i + 1));
        }
    }
}

/// A batch of the right stream has an answer exactly where the times around its rows are
/// in range. What it puts out is what its rows are joined to, one after the other.
pub proof fn lemma_right_batch(j: StreamStreamView, rows: Seq<RowView>, now: Timestamp, i: nat)
    ensures
        right_step(j, rows, now, i).0 is Some <==> all_spanned(j, rows, now, i),
        right_step(j, rows, now, i).0 matches Some(out) ==> out == all_right_listed(
            j,
            rows,
            now,
            i,
        ),
    decreases rows.len() - i,
{
    if i < rows.len() {
        let row = rows[i as int];
        let kept = StreamStreamView { right: buffered(j.right, row_time(row, now), row), ..j };
        lemma_right_listed(j, row, now);
        lemma_right_batch(kept, rows, now, i + 1);
        lemma_right_alike(j, kept, rows, now, i + 1);
        assert(right_matches(j, row, now) is Some <==> span_around(
            row_time(row, now),
            j.within,
        ) is Some);
        if all_spanned(j, rows, now, i) {
            assert(span_around(row_time(rows[i as int], now), j.within) is Some);
            assert(all_spanned(kept, rows, now, i + 1));
        }
    }
}

/// A join of two streams, after any batches of both. Each side is kept as it was given,
/// by ascending times. A batch of the left stream puts out, for each of its rows in their
/// order, what the row is joined to: every row of the right stream that was given before,
/// has its key and lies within the span around it, by ascending times and as often as it
/// was given; where there is none, the row with nulls if the join keeps such rows, and
/// else nothing. A batch of the right stream puts out the same of the rows that were
/// given of the left one.
pub proof fn lemma_streams(
    j: StreamStreamView,
    batches: Seq<Batch>,
    now: Timestamp,
    rows: Seq<RowView>,
)
    requires
        j.left == Seq::<(Timestamp, RowView)>::empty(),
        j.right == Seq::<(Timestamp, RowView)>::empty(),
    ensures
        after_batches(j, batches, now, batches.len()) matches Some(k) ==> {
            let n = batches.len();
            &&& k == (StreamStreamView { left: k.left, right: k.right, ..j })
            &&& in_time_order(k.left)
            &&& in_time_order(k.right)
            &&& k.left.to_multiset() == timed(left_given(batches, n), now).to_multiset()
            &&& k.right.to_multiset() == timed(right_given(batches, n), now).to_multiset()
            &&& left_step(k, rows, now, 0).0 == if all_spanned(j, rows, now, 0) {
                Some(all_left_listed(k, rows, now, 0))
            } else {
                None
            }
            &&& right_step(k, rows, now, 0).0 == if all_spanned(j, rows, now, 0) {
                Some(all_right_listed(k, rows, now, 0))
            } else {
                None
            }
        },
{
    lemma_kept_rows(j, batches, now, batches.len());
    if let Some(k) = after_batches(j, batches, now, batches.len()) {
        lemma_left_batch(k, rows, now, 0);
        lemma_right_batch(k, rows, now, 0);
        assert(all_spanned(j, rows, now, 0) == all_spanned(k, rows, now, 0));
    }
}

/// What is in a buffer that lies between two times and has a key is near.
proof fn lemma_near(
    b: Seq<(Timestamp, RowView)>,
    span: (Timestamp, Timestamp),
    key: ValueView,
    key_index: int,
    e: (Timestamp, RowView),
)
    requires
        b.contains(e),
        is_near(e, span.0, span.1, key, key_index),
    ensures
        near(b, span, key, key_index).contains(e),
{
    let p = |e: (Timestamp, RowView)| is_near(e, span.0, span.1, key, key_index);
    let i = choose|i: int| 0 <= i < b.len() && b[i] == e;
    b.lemma_filter_contains(p, i);
}

/// What is joined to a row of the left stream in a batch is put out of the batch.
proof fn lemma_left_put_out(
    j: StreamStreamView,
    rows: Seq<RowView>,
    now: Timestamp,
    i: nat,
    k: int,
    out: RowView,
)
    requires
        i <= k < rows.len(),
        left_listed(j, rows[k], now).contains(out),
    ensures
        all_left_listed(j, rows, now, i).contains(out),
    decreases rows.len() - i,
{
    let first = left_listed(j, rows[i as int], now);
    let rest = all_left_listed(j, rows, now, i + 1);
    if k == i {
        let x = choose|x: int| 0 <= x < first.len() && first[x] == out;
        assert((first + rest)[x] == out);
    } else {
        lemma_left_put_out(j, rows, now, i + 1, k, out);
        let x = choose|x: int| 0 <= x < rest.len() && rest[x] == out;
        assert((first + rest)[first.len() + x] == out);
    }
}

/// What is joined to a row of the right stream in a batch is put out of the batch.
proof fn lemma_right_put_out(
    j: StreamStreamView,
    rows: Seq<RowView>,
    now: Timestamp,
    i: nat,
    k: int,
    out: RowView,
)
    requires
        i <= k < rows.len(),
        right_listed(j, rows[k], now).contains(out),
    ensures
        all_right_listed(j, rows, now, i).contains(out),
    decreases rows.len() - i,
{
    let first = right_listed(j, rows[i as int], now);
    let rest = all_right_listed(j, rows, now, i + 1);
    if k == i {
        let x = choose|x: int| 0 <= x < first.len() && first[x] == out;
        assert((first + rest)[x] == out);
    } else {
        lemma_right_put_out(j, rows, now, i + 1, k, out);
        let x = choose|x: int| 0 <= x < rest.len() && rest[x] == out;
        assert((first + rest)[first.len() + x] == out);
    }
}

/// A batch of the left stream puts out each of its rows combined with each row that the
/// join keeps of the right one, has its key and lies within the span around it.
pub proof fn lemma_left_meets(
    j: StreamStreamView,
    rows: Seq<RowView>,
    now: Timestamp,
    k: int,
    e: (Timestamp, RowView),
)
    requires
        0 <= k < rows.len(),
        j.right.contains(e),
        span_around(row_time(rows[k], now), j.within) matches Some((from, to)) && is_near(
            e,
            from,
            to,
            field(rows[k].values, j.left_key_index),
            j.right_key_index,
        ),
    ensures
        left_step(j, rows, now, 0).0 matches Some(out) ==> out.contains(combined(rows[k], e.1)),
{
    let row = rows[k];
    let span = span_around(row_time(row, now), j.within)->0;
    let key = field(row.values, j.left_key_index);
    lemma_left_batch(j, rows, now, 0);
    lemma_near(j.right, span, key, j.right_key_index, e);
    let found = near(j.right, span, key, j.right_key_index);
    let x = choose|x: int| 0 <= x < found.len() && found[x] == e;
    assert(left_listed(j, row, now)[x] == combined(row, e.1));
    lemma_left_put_out(j, rows, now, 0, k, combined(row, e.1));
}

/// A batch of the right stream puts out each of its rows combined with each row that the
/// join keeps of the left one, has its key and lies within the span around it.
pub proof fn lemma_right_meets(
    j: StreamStreamView,
    rows: Seq<RowView>,
    now: Timestamp,
    k: int,
    e: (Timestamp, RowView),
)
    requires
        0 <= k < rows.len(),
        j.left.contains(e),
        span_around(row_time(rows[k], now), j.within) matches Some((from, to)) && is_near(
            e,
            from,
            to,
            field(rows[k].values, j.right_key_index),
            j.left_key_index,
        ),
    ensures
        right_step(j, rows, now, 0).0 matches Some(out) ==> out.contains(combined(e.1, rows[k])),
{
    let row = rows[k];
    let span = span_around(row_time(row, now), j.within)->0;
    let key = field(row.values, j.right_key_index);
    lemma_right_batch(j, rows, now, 0);
    lemma_near(j.left, span, key, j.left_key_index, e);
    let found = near(j.left, span, key, j.left_key_index);
    let x = choose|x: int| 0 <= x < found.len() && found[x] == e;
    assert(right_listed(j, row, now)[x] == combined(e.1, row));
    lemma_right_put_out(j, rows, now, 0, k, combined(e.1, row));
}

/// What was given with its time is among what is kept.
proof fn lemma_is_kept(
    b: Seq<(Timestamp, RowView)>,
    rows: Seq<RowView>,
    now: Timestamp,
    i: int,
)
    requires
        0 <= i < rows.len(),
        b.to_multiset() == timed(rows, now).to_multiset(),
    ensures
        b.contains((row_time(rows[i], now), rows[i])),
{
    broadcast use vstd::seq_lib::group_to_multiset_ensures;

    let all = timed(rows, now);
    assert(all[i] == (row_time(rows[i], now), rows[i]));
    assert(all.contains(all[i]));
    assert(all.to_multiset().count(all[i]) > 0);
}

/// Whichever of two rows of two streams comes first: where they have the same key, and
/// each lies within the span around the other, the batch with the later of them puts out
/// the two combined. A row of the left stream is joined to one of the right stream that
/// was given before, and a row of the right stream to one of the left stream that was
/// given before.
pub proof fn lemma_rows_meet(
    j: StreamStreamView,
    batches: Seq<Batch>,
    now: Timestamp,
    rows: Seq<RowView>,
    k: int,
    i: int,
)
    requires
        j.left == Seq::<(Timestamp, RowView)>::empty(),
        j.right == Seq::<(Timestamp, RowView)>::empty(),
        0 <= k < rows.len(),
    ensures
        after_batches(j, batches, now, batches.len()) matches Some(q) ==> {
            let n = batches.len();
            let before = right_given(batches, n);
            let earlier = left_given(batches, n);
            let span = span_around(row_time(rows[k], now), j.within);
            &&& 0 <= i < before.len() && equal(
                field(rows[k].values, j.left_key_index),
                field(before[i].values, j.right_key_index),
            ) && (span matches Some((from, to)) && lies_between(
                row_time(before[i], now),
                from,
                to,
            )) ==> (left_step(q, rows, now, 0).0 matches Some(out) ==> out.contains(
                combined(rows[k], before[i]),
            ))
            &&& 0 <= i < earlier.len() && equal(
                field(rows[k].values, j.right_key_index),
                field(earlier[i].values, j.left_key_index),
            ) && (span matches Some((from, to)) && lies_between(
                row_time(earlier[i], now),
                from,
                to,
            )) ==> (right_step(q, rows, now, 0).0 matches Some(out) ==> out.contains(
                combined(earlier[i], rows[k]),
            ))
        },
{
    lemma_kept_rows(j, batches, now, batches.len());
    if let Some(q) = after_batches(j, batches, now, batches.len()) {
        let n = batches.len();
        let before = right_given(batches, n);
        let earlier = left_given(batches, n);
        if let Some((from, to)) = span_around(row_time(rows[k], now), j.within) {
            if 0 <= i < before.len() && equal(
                field(rows[k].values, j.left_key_index),
                field(before[i].values, j.right_key_index),
            ) && lies_between(row_time(before[i], now), from, to) {
                lemma_is_kept(q.right, before, now, i);
                lemma_left_meets(q, rows, now, k, (row_time(before[i], now), before[i]));
            }
            if 0 <= i < earlier.len() && equal(
                field(rows[k].values, j.right_key_index),
                field(earlier[i].values, j.left_key_index),
            ) && lies_between(row_time(earlier[i], now), from, to) {
                lemma_is_kept(q.left, earlier, now, i);
                lemma_right_meets(q, rows, now, k, (row_time(earlier[i], now), earlier[i]));
            }
        }
    }
}

/// An instant in nanoseconds since the start of 1970, where it is in no leap second.
pub open spec fn in_nanos(t: Timestamp) -> int {
    t.second() * 1000000000 + t.nanosecond()
}

/// Of instants that are in no leap second, those within the span around one are exactly
/// those that are no further from it than the span is long. So of two of them each is
/// within the span around the other, or neither is.
pub proof fn lemma_span(t: Timestamp, u: Timestamp, within: Duration)
    requires
        t.nanosecond() < 1000000000,
        u.nanosecond() < 1000000000,
    ensures
        span_around(t, within) matches Some((from, to)) ==> (lies_between(u, from, to) <==> -(
        within.move_nanos()) <= in_nanos(u) - in_nanos(t) <= within.move_nanos()),
        (span_around(t, within) matches Some((from, to)) && lies_between(u, from, to)) && span_around(
            u,
            within,
        ) is Some ==> (span_around(u, within) matches Some((from, to)) && lies_between(t, from, to)),
{
    lemma_span_around(t, u, within);
    lemma_span_around(u, t, within);
}

proof fn lemma_span_around(t: Timestamp, u: Timestamp, within: Duration)
    requires
        t.nanosecond() < 1000000000,
        u.nanosecond() < 1000000000,
    ensures
        span_around(t, within) matches Some((from, to)) ==> (lies_between(u, from, to) <==> -(
        within.move_nanos()) <= in_nanos(u) - in_nanos(t) <= within.move_nanos()),
{
    let by = within.move_nanos();
    if let Some((from, to)) = span_around(t, within) {
        let low = in_nanos(t) - by;
        let high = in_nanos(t) + by;
        Timestamp::lemma_made((low / 1000000000) as i64, (low % 1000000000) as u32);
        Timestamp::lemma_made((high / 1000000000) as i64, (high % 1000000000) as u32);
        assert(in_nanos(from) == low);
        assert(in_nanos(to) == high);
        assert(from.nanosecond() < 1000000000 && to.nanosecond() < 1000000000);
    }
}

/// Whether all rows carry a time of their own.
pub open spec fn carry_times(rows: Seq<RowView>) -> bool {
    forall|i: int| 0 <= i < rows.len() ==> (#[trigger] rows[i]).metadata.timestamp is Some
}

/// Where all rows carry a time of their own, it does not matter to a join of streams
/// when they are taken in.
pub proof fn lemma_left_step_any_time(
    j: StreamStreamView,
    rows: Seq<RowView>,
    now: Timestamp,
    later: Timestamp,
    i: nat,
)
    requires
        carry_times(rows),
    ensures
        left_step(j, rows, now, i) == left_step(j, rows, later, i),
    decreases rows.len() - i,
{
    if i < rows.len() {
        let row = rows[i as int];
        assert(row.metadata.timestamp is Some);
        let kept = StreamStreamView { left: buffered(j.left, row_time(row, now), row), ..j };
        lemma_left_step_any_time(kept, rows, now, later, i + 1);
    }
}

/// The same of rows of the right stream.
pub proof fn lemma_right_step_any_time(
    j: StreamStreamView,
    rows: Seq<RowView>,
    now: Timestamp,
    later: Timestamp,
    i: nat,
)
    requires
        carry_times(rows),
    ensures
        right_step(j, rows, now, i) == right_step(j, rows, later, i),
    decreases rows.len() - i,
{
    if i < rows.len() {
        let row = rows[i as int];
        assert(row.metadata.timestamp is Some);
        let kept = StreamStreamView { right: buffered(j.right, row_time(row, now), row), ..j };
        lemma_right_step_any_time(kept, rows, now, later, i + 1);
    }
}

/// Nor does it matter when rows are put into the right side.
pub proof fn lemma_loaded_any_time(
    b: Seq<(Timestamp, RowView)>,
    rows: Seq<RowView>,
    now: Timestamp,
    later: Timestamp,
    n: nat,
)
    requires
        carry_times(rows),
        n <= rows.len(),
    ensures
        right_kept(b, rows, now, n) == right_kept(b, rows, later, n),
    decreases n,
{
    if n > 0 {
        lemma_loaded_any_time(b, rows, now, later, (n - 1) as nat);
        assert(rows[n - 1].metadata.timestamp is Some);
    }
}

/// Rows that are loaded into the right side of a join of streams are kept there like
/// those of its right stream: they are what a later row of the left stream is joined to.
pub proof fn lemma_loaded_rows(
    b: Seq<(Timestamp, RowView)>,
    rows: Seq<RowView>,
    now: Timestamp,
    n: nat,
)
    requires
        n <= rows.len(),
        in_time_order(b),
    ensures
        in_time_order(right_kept(b, rows, now, n)),
        right_kept(b, rows, now, n).to_multiset() == b.to_multiset().add(
            timed(rows.take(n as int), now).to_multiset(),
        ),
    decreases n,
{
    broadcast use vstd::seq_lib::group_to_multiset_ensures;

    if n == 0 {
        assert(timed(rows.take(0), now) =~= Seq::empty());
        assert(b.to_multiset().add(Multiset::empty()) =~= b.to_multiset());
    } else {
        let m = (n - 1) as nat;
        lemma_loaded_rows(b, rows, now, m);
        let t = row_time(rows[n - 1], now);
        let before = right_kept(b, rows, now, m);
        lemma_buffered(before, t, rows[n - 1]);
        assert(timed(rows.take(n as int), now) =~= timed(rows.take(m as int), now).push(
            (t, rows[n - 1]),
        ));
        assert(b.to_multiset().add(timed(rows.take(m as int), now).to_multiset()).insert(
            (t, rows[n - 1]),
        ) =~= b.to_multiset().add(
            timed(rows.take(m as int), now).to_multiset().insert((t, rows[n - 1])),
        ));
    }
}

} // verus!
