//! Laws of the rows that aggregations over windows of time put out.
use crate::engine::accumulator::{aggregate_value, AccumulatorView};
use crate::engine::operator::aggregate::laws::{evaluates, lemma_taken_in};
use crate::engine::operator::aggregate::{functions_of, row_taken};
use crate::engine::operator::laws::groups::{
    has_key, is_function_of, lemma_function_taken, lemma_has_key, passes, rows_taken,
};
use crate::engine::operator::window::laws::{
    groups_hold, has_window, in_window, lemma_windows, row_group, row_windows,
    starts_among, window_same, window_taken,
};
use crate::engine::operator::window::{
    excess, hops, in_windows, row_in_windows, window_start, windowed_step, windows_for,
    windows_out, WindowedView,
};
use crate::engine::state::{
    fresh_all, same_window, window_index, window_place, window_set, with_window, WindowKeyView,
    WindowView,
};
use crate::expr::eval::{value_of, values_of};
use crate::expr::ExprView;
use crate::plan::WindowSpec;
use crate::time::Timestamp;
use crate::types::{ColumnView, RowMetadataView, RowView};
use crate::value::{truthy, ValueView};
use vstd::prelude::*;

verus! {

/// The row of a window: the values of its group, then those of the functions, with its
/// start and its end.
pub open spec fn row_of_window(x: WindowView) -> RowView {
    RowView {
        values: x.key.group + x.accumulators.map_values(|a: AccumulatorView| aggregate_value(a)),
        metadata: RowMetadataView {
            topic: None,
            partition: None,
            offset: None,
            timestamp: None,
            key: None,
            window_start: Some(x.start),
            window_end: Some(x.end),
        },
    }
}

/// An aggregation over windows puts out one row for each of its windows on which HAVING
/// counts as true, in their order. A window on which HAVING is false or null is held back,
/// and where it has no value at all on some window the aggregation fails.
pub proof fn lemma_windows_pass(w: WindowedView, rows: Seq<RowView>, now: Timestamp)
    ensures
        ({
            let all = windowed_step(w, rows, now).1.windows.map_values(
                |x: WindowView| row_of_window(x),
            );
            windowed_step(w, rows, now).0 matches Some(Ok(out)) ==> {
                &&& out == all.filter(
                    |r: RowView|
                        match w.having {
                            Some(h) => value_of(h, r, w.output_schema) matches Ok(v)
                                && truthy(v),
                            None => true,
                        },
                )
                &&& w.having matches Some(h) ==> forall|i: int|
                    0 <= i < all.len() ==> value_of(h, #[trigger] all[i], w.output_schema) is Ok
            }
        }),
{
    let windows = windowed_step(w, rows, now).1.windows;
    let all = windows.map_values(|x: WindowView| row_of_window(x));
    if let Some(Ok(out)) = windowed_step(w, rows, now).0 {
        lemma_windows_pass_from(windows, w.having, w.output_schema, 0);
        assert(all.skip(0) =~= all);
        let p = |r: RowView| passes(w.having, r, w.output_schema);
        let q = |r: RowView|
            match w.having {
                Some(h) => value_of(h, r, w.output_schema) matches Ok(v) && truthy(v),
                None => true,
            };
        assert(p =~= q);
    }
}

proof fn lemma_windows_pass_from(
    windows: Seq<WindowView>,
    having: Option<ExprView>,
    schema: Seq<ColumnView>,
    i: nat,
)
    requires
        i <= windows.len(),
    ensures
        ({
            let all = windows.map_values(|x: WindowView| row_of_window(x));
            windows_out(windows, having, schema, i) matches Ok(out) ==> {
                &&& out == all.skip(i as int).filter(|r: RowView| passes(having, r, schema))
                &&& having matches Some(h) ==> forall|k: int|
                    i <= k < all.len() ==> value_of(h, #[trigger] all[k], schema) is Ok
            }
        }),
    decreases windows.len() - i,
{
    let all = windows.map_values(|x: WindowView| row_of_window(x));
    let p = |r: RowView| passes(having, r, schema);
    if i < windows.len() {
        lemma_windows_pass_from(windows, having, schema, i + 1);
        let rest = all.skip((i + 1) as int);
        assert(all.skip(i as int) =~= seq![all[i as int]] + rest);
        rest.lemma_filter_prepend(all[i as int], p);
        assert(Seq::empty() + rest.filter(p) =~= rest.filter(p));
    } else {
        reveal(Seq::filter);
        assert(all.skip(i as int) =~= Seq::empty());
    }
}

/// The time of a row: its own, or the present where it has none.
pub open spec fn time_of(row: RowView, now: Timestamp) -> Timestamp {
    if row.metadata.timestamp is Some {
        row.metadata.timestamp->0
    } else {
        now
    }
}

/// Whether a window was made for one of the first `n` rows: it has the key of the row, and
/// its start and its end are those of one of the windows for the row's time.
pub open spec fn made_for(
    w: WindowedView,
    x: WindowView,
    rows: Seq<RowView>,
    now: Timestamp,
    n: nat,
) -> bool {
    exists|i: int, b: int|
        0 <= i < n && #[trigger] is_bound_of(w, x, rows[i], now, b)
}

/// Whether the start and the end of a window are those of the window for a row's time with
/// a number, and its key is the row's.
pub open spec fn is_bound_of(
    w: WindowedView,
    x: WindowView,
    row: RowView,
    now: Timestamp,
    b: int,
) -> bool {
    &&& values_of(w.group_by, row, w.input_schema, 0) == Ok::<Seq<ValueView>, Seq<char>>(
        x.key.group,
    )
    &&& windows_for(w.window_spec, time_of(row, now)) matches Some(bounds) && 0 <= b
        < bounds.len() && bounds[b] == (x.start, x.end)
    &&& x.key.window_start == x.start
}

/// Whether each of some windows was made for one of the first `n` rows.
spec fn all_made_for(
    w: WindowedView,
    windows: Seq<WindowView>,
    rows: Seq<RowView>,
    now: Timestamp,
    n: nat,
) -> bool {
    forall|k: int| 0 <= k < windows.len() ==> made_for(w, #[trigger] windows[k], rows, now, n)
}

proof fn lemma_window_place(windows: Seq<WindowView>, key: WindowKeyView, i: nat)
    ensures
        window_index(windows, key, i) matches Some(k) ==> i <= k < windows.len(),
    decreases windows.len() - i,
{
    if i < windows.len() && !same_window(windows[i as int].key, key) {
        lemma_window_place(windows, key, i + 1);
    }
}

proof fn lemma_made_in_windows(
    w: WindowedView,
    windows: Seq<WindowView>,
    rows: Seq<RowView>,
    now: Timestamp,
    n: nat,
    b: nat,
)
    requires
        n < rows.len(),
        values_of(w.group_by, rows[n as int], w.input_schema, 0) is Ok,
        windows_for(w.window_spec, time_of(rows[n as int], now)) is Some,
        all_made_for(w, windows, rows, now, n + 1),
    ensures
        all_made_for(
            w,
            row_in_windows(
                w,
                windows,
                windows_for(w.window_spec, time_of(rows[n as int], now))->0,
                values_of(w.group_by, rows[n as int], w.input_schema, 0)->Ok_0,
                rows[n as int],
                b,
            ).0,
            rows,
            now,
            n + 1,
        ),
    decreases windows_for(w.window_spec, time_of(rows[n as int], now))->0.len() - b,
{
    let row = rows[n as int];
    let bounds = windows_for(w.window_spec, time_of(row, now))->0;
    let group = values_of(w.group_by, row, w.input_schema, 0)->Ok_0;
    if b < bounds.len() {
        let key = WindowKeyView { group, window_start: bounds[b as int].0 };
        let all = with_window(windows, key, bounds[b as int].1, functions_of(w.aggregates));
        let place = window_place(windows, key);
        lemma_window_place(windows, key, 0);
        let taken = row_taken(all[place].accumulators, w.aggregates, row, w.input_schema, 0);
        let after = window_set(all, place, taken.0, all[place].start, all[place].end);
        assert forall|k: int| 0 <= k < after.len() implies made_for(
            w,
            #[trigger] after[k],
            rows,
            now,
            n + 1,
        ) by {
            if k < windows.len() {
                assert(made_for(w, windows[k], rows, now, n + 1));
                let (i, c) = choose|i: int, c: int|
                    0 <= i < n + 1 && #[trigger] is_bound_of(w, windows[k], rows[i], now, c);
                assert(is_bound_of(w, after[k], rows[i], now, c));
            } else {
                assert(is_bound_of(w, after[k], rows[n as int], now, b as int));
            }
        }
        if taken.1 is None {
            lemma_made_in_windows(w, after, rows, now, n, b + 1);
        }
    }
}

proof fn lemma_made_from(
    w: WindowedView,
    windows: Seq<WindowView>,
    rows: Seq<RowView>,
    now: Timestamp,
    n: nat,
)
    requires
        n <= rows.len(),
        all_made_for(w, windows, rows, now, n),
    ensures
        all_made_for(w, in_windows(w, windows, rows, now, n).0, rows, now, rows.len()),
    decreases rows.len() - n,
{
    assert forall|m: nat| n <= m implies #[trigger] all_made_for(w, windows, rows, now, m) by {
        assert forall|k: int| 0 <= k < windows.len() implies made_for(
            w,
            #[trigger] windows[k],
            rows,
            now,
            m,
        ) by {
            assert(made_for(w, windows[k], rows, now, n));
            let (i, c) = choose|i: int, c: int|
                0 <= i < n && #[trigger] is_bound_of(w, windows[k], rows[i], now, c);
            assert(is_bound_of(w, windows[k], rows[i], now, c));
        }
    }
    if n < rows.len() {
        let row = rows[n as int];
        assert(all_made_for(w, windows, rows, now, n + 1));
        if let Ok(group) = values_of(w.group_by, row, w.input_schema, 0) {
            if let Some(bounds) = windows_for(w.window_spec, time_of(row, now)) {
                let (after, error) = row_in_windows(w, windows, bounds, group, row, 0);
                lemma_made_in_windows(w, windows, rows, now, n, 0);
                if error is None {
                    lemma_made_from(w, after, rows, now, n + 1);
                } else {
                    lemma_later(w, after, rows, now, n + 1, rows.len());
                }
            }
        }
        assert(all_made_for(w, windows, rows, now, rows.len()));
    }
}

proof fn lemma_later(
    w: WindowedView,
    windows: Seq<WindowView>,
    rows: Seq<RowView>,
    now: Timestamp,
    n: nat,
    m: nat,
)
    requires
        n <= m,
        all_made_for(w, windows, rows, now, n),
    ensures
        all_made_for(w, windows, rows, now, m),
{
    assert forall|k: int| 0 <= k < windows.len() implies made_for(
        w,
        #[trigger] windows[k],
        rows,
        now,
        m,
    ) by {
        assert(made_for(w, windows[k], rows, now, n));
        let (i, c) = choose|i: int, c: int|
            0 <= i < n && #[trigger] is_bound_of(w, windows[k], rows[i], now, c);
        assert(is_bound_of(w, windows[k], rows[i], now, c));
    }
}

/// Each window that an aggregation keeps was made for a row: it has the group of that row,
/// and the start and the end of one of the windows for its time.
pub proof fn lemma_windows_made(w: WindowedView, rows: Seq<RowView>, now: Timestamp, k: int)
    requires
        w.windows.len() == 0,
        0 <= k < windowed_step(w, rows, now).1.windows.len(),
    ensures
        made_for(w, windowed_step(w, rows, now).1.windows[k], rows, now, rows.len()),
{
    assert(w.windows =~= Seq::empty());
    lemma_made_from(w, Seq::empty(), rows, now, 0);
}

/// Whether a row lies in a window of a group: it has the key of the group, and one of the
/// windows for its time starts where that window does.
pub open spec fn lies_in(w: WindowedView, x: WindowView, row: RowView, now: Timestamp) -> bool {
    &&& has_key(w.group_by, w.input_schema, x.key.group, row)
    &&& windows_for(w.window_spec, time_of(row, now)) matches Some(bounds) && exists|b: int|
        0 <= b < bounds.len() && (#[trigger] bounds[b]).0 == x.key.window_start
}

proof fn lemma_lies_in(w: WindowedView, x: WindowView, row: RowView, now: Timestamp)
    ensures
        lies_in(w, x, row, now) <==> in_window(w, x.key, row, now),
{
    lemma_has_key(w.group_by, w.input_schema, x.key.group, row);
    assert(row_windows(w, row, now) == windows_for(w.window_spec, time_of(row, now)));
    if let Some(bounds) = row_windows(w, row, now) {
        assert(starts_among(bounds, bounds.len(), x.key.window_start) <==> exists|b: int|
            0 <= b < bounds.len() && (#[trigger] bounds[b]).0 == x.key.window_start);
    }
}

proof fn lemma_window_rows_taken(
    w: WindowedView,
    x: WindowView,
    rows: Seq<RowView>,
    now: Timestamp,
    n: nat,
)
    requires
        n <= rows.len(),
    ensures
        window_taken(w, x.key, rows, now, n) == rows_taken(
            w.aggregates,
            w.input_schema,
            rows.take(n as int).filter(|r: RowView| lies_in(w, x, r, now)),
        ),
    decreases n,
{
    let p = |r: RowView| lies_in(w, x, r, now);
    reveal(Seq::filter);
    reveal(rows_taken);
    if n > 0 {
        lemma_window_rows_taken(w, x, rows, now, (n - 1) as nat);
        let some = rows.take(n as int);
        assert(some.drop_last() =~= rows.take(n - 1));
        assert(some.last() == rows[n - 1]);
        lemma_lies_in(w, x, rows[n - 1], now);
        let before = rows.take(n - 1).filter(p);
        assert(before.push(rows[n - 1]).drop_last() =~= before);
    } else {
        assert(rows.take(0) =~= Seq::empty());
    }
}

/// Whether all windows have an accumulator for each function.
spec fn full(windows: Seq<WindowView>, n: nat) -> bool {
    forall|k: int| 0 <= k < windows.len() ==> (#[trigger] windows[k]).accumulators.len() == n
}

proof fn lemma_row_evaluates(
    w: WindowedView,
    windows: Seq<WindowView>,
    bounds: Seq<(Timestamp, Timestamp)>,
    group: Seq<ValueView>,
    row: RowView,
    b: nat,
)
    requires
        b <= bounds.len(),
        full(windows, w.aggregates.len()),
    ensures
        full(row_in_windows(w, windows, bounds, group, row, b).0, w.aggregates.len()),
        row_in_windows(w, windows, bounds, group, row, b).1 is None && b < bounds.len()
            ==> evaluates(w.aggregates, row, w.input_schema, 0),
    decreases bounds.len() - b,
{
    if b < bounds.len() {
        let key = WindowKeyView { group, window_start: bounds[b as int].0 };
        let all = with_window(windows, key, bounds[b as int].1, functions_of(w.aggregates));
        let place = window_place(windows, key);
        lemma_window_place(windows, key, 0);
        assert(fresh_all(functions_of(w.aggregates)).len() == w.aggregates.len());
        lemma_taken_in(all[place].accumulators, w.aggregates, row, w.input_schema, 0);
        let taken = row_taken(all[place].accumulators, w.aggregates, row, w.input_schema, 0);
        let after = window_set(all, place, taken.0, all[place].start, all[place].end);
        assert(full(after, w.aggregates.len()));
        if taken.1 is None {
            lemma_row_evaluates(w, after, bounds, group, row, b + 1);
        }
    }
}

proof fn lemma_rows_evaluate(
    w: WindowedView,
    windows: Seq<WindowView>,
    rows: Seq<RowView>,
    now: Timestamp,
    n: nat,
)
    requires
        n <= rows.len(),
        full(windows, w.aggregates.len()),
        in_windows(w, windows, rows, now, n).1 is Done,
    ensures
        forall|k: int|
            n <= k < rows.len() ==> (windows_for(w.window_spec, time_of(#[trigger] rows[k], now))
                matches Some(bounds) && (bounds.len() > 0 ==> evaluates(
                w.aggregates,
                rows[k],
                w.input_schema,
                0,
            ))),
    decreases rows.len() - n,
{
    if n < rows.len() {
        let row = rows[n as int];
        let group = values_of(w.group_by, row, w.input_schema, 0)->Ok_0;
        let bounds = windows_for(w.window_spec, time_of(row, now))->0;
        lemma_row_evaluates(w, windows, bounds, group, row, 0);
        let after = row_in_windows(w, windows, bounds, group, row, 0).0;
        lemma_rows_evaluate(w, after, rows, now, n + 1);
    }
}

/// The value of a function for a window comes from just the rows that lie in it, in their
/// order; COUNT(*) is how many they are.
pub proof fn lemma_window_functions(
    w: WindowedView,
    rows: Seq<RowView>,
    now: Timestamp,
    k: int,
    x: int,
)
    requires
        w.windows.len() == 0,
        rows.len() <= i64::MAX,
        groups_hold(w, rows, 0),
        windowed_step(w, rows, now).0 matches Some(Ok(_)),
        0 <= k < windowed_step(w, rows, now).1.windows.len(),
        0 <= x < w.aggregates.len(),
    ensures
        ({
            let window = windowed_step(w, rows, now).1.windows[k];
            window.accumulators.len() == w.aggregates.len() && is_function_of(
                aggregate_value(window.accumulators[x]),
                w.aggregates[x],
                rows.filter(|r: RowView| lies_in(w, window, r, now)),
                w.input_schema,
            )
        }),
{
    assert(w.windows =~= Seq::empty());
    lemma_windows(w, rows, now);
    let window = windowed_step(w, rows, now).1.windows[k];
    let p = |r: RowView| lies_in(w, window, r, now);
    let mine = rows.filter(p);
    lemma_window_rows_taken(w, window, rows, now, rows.len());
    assert(rows.take(rows.len() as int) =~= rows);
    rows.lemma_filter_len(p);
    lemma_rows_evaluate(w, Seq::empty(), rows, now, 0);
    assert forall|i: int| 0 <= i < mine.len() implies evaluates(
        w.aggregates,
        #[trigger] mine[i],
        w.input_schema,
        0,
    ) by {
        rows.lemma_filter_pred(p, i);
        assert(mine.contains(mine[i]));
        rows.lemma_filter_contains_rev(p, mine[i]);
        let j = choose|j: int| 0 <= j < rows.len() && rows[j] == mine[i];
        assert(windows_for(w.window_spec, time_of(rows[j], now)) is Some);
    }
    lemma_function_taken(w.aggregates, w.input_schema, mine, x);
}

/// For each row, and each window for its time, there is a window of the row's group that
/// starts there; no two windows have the same group and the same start.
pub proof fn lemma_row_windows(
    w: WindowedView,
    rows: Seq<RowView>,
    now: Timestamp,
    i: int,
    b: int,
)
    requires
        w.windows.len() == 0,
        groups_hold(w, rows, 0),
        windowed_step(w, rows, now).0 matches Some(Ok(_)),
        0 <= i < rows.len(),
        windows_for(w.window_spec, time_of(rows[i], now)) matches Some(bounds) && 0 <= b
            < bounds.len(),
    ensures
        ({
            let windows = windowed_step(w, rows, now).1.windows;
            let start = windows_for(w.window_spec, time_of(rows[i], now))->0[b].0;
            exists|k: int|
                0 <= k < windows.len() && has_key(
                    w.group_by,
                    w.input_schema,
                    (#[trigger] windows[k]).key.group,
                    rows[i],
                ) && windows[k].start == start
        }),
{
    assert(w.windows =~= Seq::empty());
    lemma_windows(w, rows, now);
    let windows = windowed_step(w, rows, now).1.windows;
    let bounds = windows_for(w.window_spec, time_of(rows[i], now))->0;
    assert(row_windows(w, rows[i], now) == Some(bounds));
    let group = row_group(w, rows[i])->Ok_0;
    let key = WindowKeyView { group, window_start: bounds[b].0 };
    assert(row_windows(w, rows[i], now)->0[b] == bounds[b]);
    assert(has_window(windows, key));
    let k = choose|k: int| 0 <= k < windows.len() && window_same((#[trigger] windows[k]).key, key);
    lemma_has_key(w.group_by, w.input_schema, windows[k].key.group, rows[i]);
    assert(windows[k].start == windows[k].key.window_start);
}

/// A time has windows wherever all windows around it are in range: for each kind, as long
/// as its length, or its length and its advance, can be gone to either side.
pub proof fn lemma_windows_found(spec: WindowSpec, t: Timestamp)
    ensures
        spec matches WindowSpec::Tumbling { size, .. } && 0 < size.millis() <= i64::MAX
            && Timestamp::fits_millis(t.millis() - size.millis()) && Timestamp::fits_millis(
            t.millis() + size.millis(),
        ) ==> windows_for(spec, t) is Some,
        spec matches WindowSpec::Hopping { size, advance, .. } && 0 < size.millis() <= i64::MAX && 0
            < advance.millis() <= i64::MAX && Timestamp::fits_millis(
            t.millis() - size.millis() - advance.millis(),
        ) && Timestamp::fits_millis(t.millis() + size.millis()) ==> windows_for(spec, t) is Some,
        spec is Session && Timestamp::fits_millis(t.millis()) ==> windows_for(spec, t) is Some,
{
    let m = t.millis();
    if let WindowSpec::Hopping { size, advance, .. } = spec {
        if 0 < size.millis() <= i64::MAX && 0 < advance.millis() <= i64::MAX
            && Timestamp::fits_millis(m - size.millis() - advance.millis())
            && Timestamp::fits_millis(m + size.millis()) {
            lemma_hops_found(
                m,
                size.millis() as int,
                advance.millis() as int,
                window_start(m, advance.millis() as int),
            );
        }
    }
}

proof fn lemma_hops_found(m: int, size: int, step: int, start: int)
    requires
        size > 0,
        step > 0,
        m - size - step < start <= m,
        Timestamp::fits_millis(m - size - step),
        Timestamp::fits_millis(m + size),
    ensures
        hops(m, size, step, start) is Some,
    decreases excess(start + size, m),
{
    if start + size > m {
        lemma_hops_found(m, size, step, start - step);
    }
}

} // verus!
