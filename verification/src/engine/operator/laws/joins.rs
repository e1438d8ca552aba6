//! Laws of which rows a join puts together, and how.
use crate::engine::operator::join::laws::{
    is_near, lemma_left_listed, lemma_right_listed, lemma_span, near,
};
use crate::engine::operator::join::{
    keeps_left, keeps_right, left_matches, right_matches, span_around, stream_table_row,
    StreamStreamView, StreamTableView,
};
use crate::engine::operator::laws::lemma_stored;
use crate::engine::operator::rows::{combined, join_keys, join_keys_or_first, nulls};
use crate::engine::operator::simple::stored;
use crate::engine::operator::window::row_time;
use crate::engine::state::lemma_key_index;
use crate::expr::laws::between_two;
use crate::expr::{BinaryOp, ExprView};
use crate::plan::JoinType;
use crate::text::laws::{differ_in_case, lemma_same_letters};
use crate::text::same_letters;
use crate::time::Timestamp;
use crate::types::{field, find_column, lemma_find_column, ColumnView, RowView};
use crate::value::laws::lemma_equal_symmetric;
use crate::value::{equal, ValueView};
use vstd::prelude::*;

verus! {

/// Whether a column is the first with a name, in any case.
pub open spec fn is_first_named(schema: Seq<ColumnView>, name: Seq<char>, k: int) -> bool {
    &&& 0 <= k < schema.len()
    &&& differ_in_case(schema[k].name, name)
    &&& forall|j: int| 0 <= j < k ==> !differ_in_case((#[trigger] schema[j]).name, name)
}

/// The column that is found under a name is the first that has it, in any case, and none
/// is found where none has it.
pub proof fn lemma_column_found(schema: Seq<ColumnView>, name: Seq<char>, k: int)
    ensures
        is_first_named(schema, name, k) ==> find_column(schema, name, 0) == Some(k as nat),
        (forall|j: int|
            0 <= j < schema.len() ==> !differ_in_case((#[trigger] schema[j]).name, name))
            ==> find_column(schema, name, 0) is None,
{
    lemma_find_column(schema, name, 0);
    assert forall|j: int| 0 <= j < schema.len() implies same_letters(
        #[trigger] schema[j].name,
        name,
    ) == differ_in_case(schema[j].name, name) by {
        lemma_same_letters(schema[j].name, name);
    }
}

/// Where a join is on the equality of a column of the left side with one of the right
/// side, these are its keys: the first column on the left with the name that stands on the
/// left, and the first column on the right with the name that stands on the right.
pub proof fn lemma_join_on(
    a: Seq<char>,
    b: Seq<char>,
    left: Seq<ColumnView>,
    right: Seq<ColumnView>,
    i: int,
    j: int,
)
    requires
        is_first_named(left, a, i),
        is_first_named(right, b, j),
    ensures
        join_keys(
            between_two(ExprView::Column(a), BinaryOp::Eq, ExprView::Column(b)),
            left,
            right,
        ) == Some((i as nat, j as nat)),
        join_keys_or_first(
            between_two(ExprView::Column(a), BinaryOp::Eq, ExprView::Column(b)),
            left,
            right,
        ) == (i as nat, j as nat),
{
    lemma_column_found(left, a, i);
    lemma_column_found(right, b, j);
}

/// A condition that is no equality, or of which a side is no column, tells of no keys.
/// Neither does one with a name that no column of its side has. The first columns are
/// taken then.
pub proof fn lemma_join_on_nothing(
    l: ExprView,
    op: BinaryOp,
    r: ExprView,
    left: Seq<ColumnView>,
    right: Seq<ColumnView>,
)
    requires
        op != BinaryOp::Eq || !(l is Column) || !(r is Column) || (forall|k: int|
            0 <= k < left.len() ==> !differ_in_case((#[trigger] left[k]).name, l->Column_0)) || (
        forall|k: int|
            0 <= k < right.len() ==> !differ_in_case((#[trigger] right[k]).name, r->Column_0)),
    ensures
        join_keys(between_two(l, op, r), left, right) is None,
        join_keys_or_first(between_two(l, op, r), left, right) == (0nat, 0nat),
{
    if l is Column {
        lemma_column_found(left, l->Column_0, -1);
    }
    if r is Column {
        lemma_column_found(right, r->Column_0, -1);
    }
}

/// Two rows put together have the values of the left one, then those of the right one, and
/// what is known of the left one. Where there is no row on a side, it has a null for each
/// column.
pub proof fn lemma_put_together(left: RowView, right: RowView, schema: Seq<ColumnView>)
    ensures
        combined(left, right).values.len() == left.values.len() + right.values.len(),
        forall|i: int|
            0 <= i < left.values.len() ==> #[trigger] combined(left, right).values[i]
                == left.values[i],
        forall|i: int|
            0 <= i < right.values.len() ==> #[trigger] right.values[i] == combined(
                left,
                right,
            ).values[left.values.len() + i],
        combined(left, right).metadata == left.metadata,
        nulls(schema).values.len() == schema.len(),
        forall|i: int| 0 <= i < schema.len() ==> #[trigger] nulls(schema).values[i] is Null,
{
}

/// An inner join keeps no row without a match, a left join those of its left side, a right
/// join those of its right side, and a full outer join those of both.
pub proof fn lemma_join_types()
    ensures
        !keeps_left(JoinType::Inner) && !keeps_right(JoinType::Inner),
        keeps_left(JoinType::Left) && !keeps_right(JoinType::Left),
        !keeps_left(JoinType::Right) && keeps_right(JoinType::Right),
        keeps_left(JoinType::FullOuter) && keeps_right(JoinType::FullOuter),
{
}

/// A row of a stream is joined to the row of the table whose key equals the value of its
/// key column. Where there is none, a left and a full outer join fill in a null for each
/// column of the table, and another join makes nothing of it.
pub proof fn lemma_stream_row(j: StreamTableView, row: RowView, k: int)
    ensures
        ({
            let key = if 0 <= j.left_key_index < row.values.len() {
                row.values[j.left_key_index]
            } else {
                ValueView::Null
            };
            &&& 0 <= k < j.right.len() && equal(j.right[k].0, key) && (forall|i: int|
                0 <= i < k ==> !equal((#[trigger] j.right[i]).0, key)) ==> stream_table_row(j, row)
                == Some(
                RowView { values: row.values + j.right[k].1.values, metadata: row.metadata },
            )
            &&& (forall|i: int| 0 <= i < j.right.len() ==> !equal((#[trigger] j.right[i]).0, key))
                ==> match stream_table_row(j, row) {
                Some(out) => (j.join_type == JoinType::Left || j.join_type == JoinType::FullOuter)
                    && out.values.len() == row.values.len() + j.right_schema.len() && (forall|
                    i: int,
                |
                    0 <= i < row.values.len() ==> out.values[i] == row.values[i]) && (forall|
                    i: int,
                |
                    row.values.len() <= i < out.values.len() ==> out.values[i] is Null)
                    && out.metadata == row.metadata,
                None => j.join_type == JoinType::Inner || j.join_type == JoinType::Right,
            }
        }),
{
    lemma_key_index(j.right, field(row.values, j.left_key_index), 0);
}

/// What comes out of a join with a table, into which rows were put under the values of a
/// column, are pairs of a row of the stream and one of these rows with the same value in
/// their key columns, put one behind the other.
pub proof fn lemma_joined_pairs(
    j: StreamTableView,
    right: Seq<RowView>,
    right_key: int,
    row: RowView,
)
    requires
        j.right == stored(Seq::empty(), right, right_key, right.len()),
        0 <= j.left_key_index < row.values.len(),
        j.join_type == JoinType::Inner,
    ensures
        match stream_table_row(j, row) {
            Some(out) => exists|m: int|
                0 <= m < right.len() && equal(
                    field((#[trigger] right[m]).values, right_key),
                    row.values[j.left_key_index],
                ) && out.values == row.values + right[m].values && out.metadata == row.metadata,
            None => forall|m: int|
                0 <= m < right.len() ==> !equal(
                    field((#[trigger] right[m]).values, right_key),
                    row.values[j.left_key_index],
                ),
        },
{
    let key = row.values[j.left_key_index];
    lemma_stored(Seq::empty(), right, right_key, right.len(), key);
    let m = lemma_last_equal(right, right_key, key, right.len());
    if m >= 0 {
        assert(right[m] == right[m]);
    }
}

/// The last of the first `n` rows with a key, or -1 where there is none.
proof fn lemma_last_equal(right: Seq<RowView>, right_key: int, key: ValueView, n: nat) -> (m: int)
    requires
        n <= right.len(),
    ensures
        -1 <= m < n,
        m >= 0 ==> equal(field(right[m].values, right_key), key),
        forall|k: int|
            m < k < n ==> !equal(field((#[trigger] right[k]).values, right_key), key),
    decreases n,
{
    if n == 0 {
        -1
    } else if equal(field(right[n - 1].values, right_key), key) {
        n - 1
    } else {
        lemma_last_equal(right, right_key, key, (n - 1) as nat)
    }
}

/// Whether two rows of two streams, given with their times, are to be joined: they have
/// equal values in their key columns, and are no further apart in time than the join says.
pub open spec fn to_be_joined(
    j: StreamStreamView,
    left: RowView,
    left_time: Timestamp,
    right: RowView,
    right_time: Timestamp,
) -> bool {
    &&& equal(field(left.values, j.left_key_index), field(right.values, j.right_key_index))
    &&& -(j.within.secs * 1000000000 + j.within.nanos) <= (right_time.second() * 1000000000
        + right_time.nanosecond()) - (left_time.second() * 1000000000 + left_time.nanosecond())
        <= j.within.secs * 1000000000 + j.within.nanos
}

/// Whether a join is within a span that instants can be moved by, and the rows that it
/// keeps of a side are in no leap second.
pub open spec fn of_plain_times(j: StreamStreamView, kept: Seq<(Timestamp, RowView)>) -> bool {
    &&& j.within.secs * 1000000000 + j.within.nanos <= 9223372036854775807000000
    &&& forall|i: int| 0 <= i < kept.len() ==> (#[trigger] kept[i]).0.nanosecond() < 1000000000
}

/// A row of the left stream is joined to each row that the join keeps of the right stream
/// with an equal key that is near enough in time, in the order in which they are kept,
/// and to no other. Where there is none, a left and a full outer join fill in nulls, and
/// another join makes nothing of it.
pub proof fn lemma_left_pairs(j: StreamStreamView, row: RowView, now: Timestamp)
    requires
        of_plain_times(j, j.right),
        row_time(row, now).nanosecond() < 1000000000,
    ensures
        ({
            let t = row_time(row, now);
            let pairs = j.right.filter(
                |e: (Timestamp, RowView)| to_be_joined(j, row, t, e.1, e.0),
            ).map_values(
                |e: (Timestamp, RowView)|
                    RowView { values: row.values + e.1.values, metadata: row.metadata },
            );
            left_matches(j, row, now) matches Some(found) ==> if pairs.len() == 0 && (j.join_type
                == JoinType::Left || j.join_type == JoinType::FullOuter) {
                found.len() == 1 && found[0].metadata == row.metadata && found[0].values
                    == row.values + Seq::new(j.right_schema.len(), |i: int| ValueView::Null)
            } else {
                found == pairs
            }
        }),
{
    lemma_left_listed(j, row, now);
    let t = row_time(row, now);
    if let Some(span) = span_around(t, j.within) {
        let key = field(row.values, j.left_key_index);
        let p = |e: (Timestamp, RowView)| is_near(e, span.0, span.1, key, j.right_key_index);
        let q = |e: (Timestamp, RowView)| to_be_joined(j, row, t, e.1, e.0);
        assert forall|i: int| 0 <= i < j.right.len() implies p(#[trigger] j.right[i]) == q(
            j.right[i],
        ) by {
            lemma_span(t, j.right[i].0, j.within);
        }
        lemma_filters_alike(j.right, p, q);
        let kept = j.right.filter(q);
        assert(near(j.right, span, key, j.right_key_index) == kept);
        assert(kept.map_values(|e: (Timestamp, RowView)| combined(row, e.1)) =~= kept.map_values(
            |e: (Timestamp, RowView)|
                RowView { values: row.values + e.1.values, metadata: row.metadata },
        ));
        assert(nulls(j.right_schema).values =~= Seq::new(
            j.right_schema.len(),
            |i: int| ValueView::Null,
        ));
    }
}

/// A row of the right stream is joined in the same way to the rows that the join keeps of
/// the left stream.
pub proof fn lemma_right_pairs(j: StreamStreamView, row: RowView, now: Timestamp)
    requires
        of_plain_times(j, j.left),
        row_time(row, now).nanosecond() < 1000000000,
    ensures
        ({
            let t = row_time(row, now);
            let pairs = j.left.filter(
                |e: (Timestamp, RowView)| to_be_joined(j, e.1, e.0, row, t),
            ).map_values(
                |e: (Timestamp, RowView)|
                    RowView { values: e.1.values + row.values, metadata: e.1.metadata },
            );
            right_matches(j, row, now) matches Some(found) ==> if pairs.len() == 0 && (j.join_type
                == JoinType::Right || j.join_type == JoinType::FullOuter) {
                found.len() == 1 && found[0].values == Seq::new(
                    j.left_schema.len(),
                    |i: int| ValueView::Null,
                ) + row.values
            } else {
                found == pairs
            }
        }),
{
    lemma_right_listed(j, row, now);
    let t = row_time(row, now);
    if let Some(span) = span_around(t, j.within) {
        let key = field(row.values, j.right_key_index);
        let p = |e: (Timestamp, RowView)| is_near(e, span.0, span.1, key, j.left_key_index);
        let q = |e: (Timestamp, RowView)| to_be_joined(j, e.1, e.0, row, t);
        assert forall|i: int| 0 <= i < j.left.len() implies p(#[trigger] j.left[i]) == q(
            j.left[i],
        ) by {
            lemma_span(t, j.left[i].0, j.within);
            lemma_equal_symmetric(
                key,
                field(j.left[i].1.values, j.left_key_index),
            );
        }
        lemma_filters_alike(j.left, p, q);
        let kept = j.left.filter(q);
        assert(near(j.left, span, key, j.left_key_index) == kept);
        assert(kept.map_values(|e: (Timestamp, RowView)| combined(e.1, row)) =~= kept.map_values(
            |e: (Timestamp, RowView)|
                RowView { values: e.1.values + row.values, metadata: e.1.metadata },
        ));
        assert(nulls(j.left_schema).values =~= Seq::new(
            j.left_schema.len(),
            |i: int| ValueView::Null,
        ));
    }
}

proof fn lemma_filters_alike(
    s: Seq<(Timestamp, RowView)>,
    p: spec_fn((Timestamp, RowView)) -> bool,
    q: spec_fn((Timestamp, RowView)) -> bool,
)
    requires
        forall|i: int| 0 <= i < s.len() ==> p(#[trigger] s[i]) == q(s[i]),
    ensures
        s.filter(p) == s.filter(q),
    decreases s.len(),
{
    reveal(Seq::filter);
    if s.len() > 0 {
        let rest = s.drop_last();
        assert forall|i: int| 0 <= i < rest.len() implies p(#[trigger] rest[i]) == q(rest[i]) by {
            assert(rest[i] == s[i]);
        }
        lemma_filters_alike(rest, p, q);
        assert(p(s[s.len() - 1]) == q(s[s.len() - 1]));
    }
}

} // verus!
