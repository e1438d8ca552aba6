//! Laws of windows of time.
use crate::engine::accumulator::AccumulatorView;
use crate::engine::operator::aggregate::laws::{
    is_key, lemma_key_reflexive, lemma_keys_symmetric, lemma_keys_transitive, same_key,
};
use crate::engine::operator::aggregate::{functions_of, row_taken};
use crate::engine::operator::window::{
    hops, in_windows, row_in_windows, row_time, window_at, window_start, windowed_step,
    windows_for, Halt, WindowedView,
};
use crate::engine::state::{
    fresh_all, same_window, window_index, window_place, window_set, with_window, WindowKeyView,
    WindowView,
};
use crate::expr::eval::values_of;
use crate::plan::WindowSpec;
use crate::time::Timestamp;
use crate::types::RowView;
use crate::value::ValueView;
use vstd::arithmetic::div_mod::{lemma_fundamental_div_mod, lemma_fundamental_div_mod_converse};
use vstd::prelude::*;

verus! {

// === Times ===

/// The instant at some milliseconds lies there.
pub proof fn lemma_at_millis(m: int)
    requires
        Timestamp::fits_millis(m),
    ensures
        Timestamp::at_millis(m).millis() == m,
{
    Timestamp::lemma_made((m / 1000) as i64, (m % 1000 * 1000000) as u32);
}

/// Whether a window is so long, starts at a multiple of a number, and has a time in it.
pub open spec fn is_window_for(
    w: (Timestamp, Timestamp),
    length: int,
    step: int,
    millis: int,
) -> bool {
    &&& w.0.millis() % step == 0
    &&& w.1.millis() == w.0.millis() + length
    &&& w.0.millis() <= millis < w.1.millis()
}

proof fn lemma_multiple(q: int, step: int)
    requires
        step > 0,
    ensures
        (q * step) % step == 0,
{
    lemma_fundamental_div_mod_converse(q * step, step, q, 0);
}

/// A tumbling window is as long as it should be, starts at a multiple of its length,
/// and has the time in it.
pub proof fn lemma_tumbling(spec: WindowSpec, t: Timestamp)
    requires
        spec matches WindowSpec::Tumbling { size, .. } && 0 < size.millis() <= i64::MAX,
    ensures
        windows_for(spec, t) matches Some(found) ==> found.len() == 1 && is_window_for(
            found[0],
            spec->Tumbling_size.millis() as int,
            spec->Tumbling_size.millis() as int,
            t.millis(),
        ),
{
    let length = spec->Tumbling_size.millis() as int;
    let m = t.millis();
    let start = window_start(m, length);
    lemma_start(m, length);
    if Timestamp::fits_millis(start) && Timestamp::fits_millis(start + length) {
        lemma_at_millis(start);
        lemma_at_millis(start + length);
    }
}

/// A window starts at a multiple of its step: the last one that is not after the time.
proof fn lemma_start(m: int, step: int)
    requires
        step > 0,
    ensures
        window_start(m, step) % step == 0,
        window_start(m, step) <= m < window_start(m, step) + step,
{
    lemma_fundamental_div_mod(m, step);
    assert(step * (m / step) == (m / step) * step) by (nonlinear_arith);
    lemma_multiple(m / step, step);
}

/// What `hops` finds from a start on: windows that have the time in them, each before
/// the one found earlier, and among them every such window that does not start later.
proof fn lemma_hops(millis: int, length: int, step: int, start: int)
    requires
        step > 0,
        start % step == 0,
    ensures
        hops(millis, length, step, start) matches Some(found) ==> {
            &&& forall|i: int|
                0 <= i < found.len() ==> is_window_for(#[trigger] found[i], length, step, millis)
                    && found[i].0.millis() <= start
            &&& forall|i: int, j: int|
                0 <= i < j < found.len() ==> (#[trigger] found[j]).0.millis()
                    < (#[trigger] found[i]).0.millis()
            &&& forall|s: int|
                #![trigger is_listed(found, s)]
                s % step == 0 && s <= start && s <= millis < s + length ==> is_listed(found, s)
        },
    decreases crate::engine::operator::window::excess(start + length, millis),
{
    if let Some(found) = hops(millis, length, step, start) {
        if start + length > millis {
            let next = start - step;
            lemma_fundamental_div_mod(start, step);
            let k = start / step;
            assert(step * k - step == (k - 1) * step) by (nonlinear_arith);
            lemma_multiple(k - 1, step);
            lemma_hops(millis, length, step, next);
            let rest = hops(millis, length, step, next)->0;
            if start <= millis {
                lemma_at_millis(start);
                lemma_at_millis(start + length);
                let w = window_at(start, start + length)->0;
                assert(found =~= seq![w] + rest);
                assert forall|i: int| 0 <= i < found.len() implies is_window_for(
                    #[trigger] found[i],
                    length,
                    step,
                    millis,
                ) && found[i].0.millis() <= start by {
                    if i > 0 {
                        assert(found[i] == rest[i - 1]);
                    }
                }
                assert forall|i: int, j: int| 0 <= i < j < found.len() implies (
                #[trigger] found[j]).0.millis() < (#[trigger] found[i]).0.millis() by {
                    assert(found[j] == rest[j - 1]);
                    if i > 0 {
                        assert(found[i] == rest[i - 1]);
                    }
                }
            }
            assert forall|s: int|
                #![trigger is_listed(found, s)]
                s % step == 0 && s <= start && s <= millis < s + length implies is_listed(
                found,
                s,
            ) by {
                if s == start {
                    assert(found[0].0.millis() == s);
                } else {
                    lemma_no_multiple_between(s, start, step);
                    assert(is_listed(rest, s));
                    let i = choose|i: int| 0 <= i < rest.len() && (#[trigger] rest[i]).0.millis() == s;
                    if start <= millis {
                        assert(found[i + 1] == rest[i]);
                    }
                }
            }
        }
    }
}

/// Whether one of the windows starts at a time.
pub open spec fn is_listed(found: Seq<(Timestamp, Timestamp)>, start: int) -> bool {
    exists|i: int| 0 <= i < found.len() && (#[trigger] found[i]).0.millis() == start
}

proof fn lemma_no_multiple_between(s: int, start: int, step: int)
    requires
        step > 0,
        s % step == 0,
        start % step == 0,
        s < start,
    ensures
        s <= start - step,
{
    lemma_fundamental_div_mod(s, step);
    lemma_fundamental_div_mod(start, step);
    let a = s / step;
    let b = start / step;
    assert(a < b) by (nonlinear_arith)
        requires
            step * a < step * b,
            step > 0,
    ;
    assert(step * a <= step * b - step) by (nonlinear_arith)
        requires
            a < b,
            step > 0,
    ;
}

/// The hopping windows for a time are all windows of their length that start at a
/// multiple of the advance and have the time in them, the latest first.
pub proof fn lemma_hopping(spec: WindowSpec, t: Timestamp)
    requires
        spec matches WindowSpec::Hopping { size, advance, .. } && 0 < size.millis() <= i64::MAX
            && 0 < advance.millis() <= i64::MAX,
    ensures
        windows_for(spec, t) matches Some(found) ==> {
            let length = spec->Hopping_size.millis() as int;
            let step = spec->Hopping_advance.millis() as int;
            &&& forall|i: int|
                0 <= i < found.len() ==> is_window_for(
                    #[trigger] found[i],
                    length,
                    step,
                    t.millis(),
                )
            &&& forall|i: int, j: int|
                0 <= i < j < found.len() ==> (#[trigger] found[j]).0.millis()
                    < (#[trigger] found[i]).0.millis()
            &&& forall|s: int|
                #![trigger is_listed(found, s)]
                s % step == 0 && s <= t.millis() < s + length ==> is_listed(found, s)
        },
{
    let length = spec->Hopping_size.millis() as int;
    let step = spec->Hopping_advance.millis() as int;
    let m = t.millis();
    let start = window_start(m, step);
    lemma_start(m, step);
    lemma_hops(m, length, step, start);
    if let Some(found) = windows_for(spec, t) {
        assert forall|s: int|
            #![trigger is_listed(found, s)]
            s % step == 0 && s <= m < s + length implies is_listed(found, s) by {
            if s > start {
                lemma_no_multiple_between(start, s, step);
            }
        }
    }
}

/// A session starts as a window of its own, of no length.
pub proof fn lemma_session(spec: WindowSpec, t: Timestamp)
    requires
        spec is Session,
    ensures
        windows_for(spec, t) matches Some(found) ==> found.len() == 1 && found[0].0.millis()
            == t.millis() && found[0].1 == found[0].0,
{
    if Timestamp::fits_millis(t.millis()) {
        lemma_at_millis(t.millis());
    }
}

// === Rows in windows ===

/// No two windows for a time start at the same instant.
proof fn lemma_starts_differ(spec: WindowSpec, t: Timestamp)
    ensures
        windows_for(spec, t) matches Some(found) ==> starts_differ(found),
{
    if let Some(found) = windows_for(spec, t) {
        if spec is Hopping {
            let length = spec->Hopping_size.millis() as i64 as int;
            let step = spec->Hopping_advance.millis() as i64 as int;
            let start = window_start(t.millis(), step);
            if step > 0 {
                lemma_start(t.millis(), step);
                lemma_hops(t.millis(), length, step, start);
            } else {
                assert(found.len() == 0);
            }
        }
    }
}

/// Whether no two windows start at the same instant.
pub open spec fn starts_differ(bounds: Seq<(Timestamp, Timestamp)>) -> bool {
    forall|i: int, j: int|
        0 <= i < j < bounds.len() ==> (#[trigger] bounds[i]).0 != (#[trigger] bounds[j]).0
}

/// Whether two keys of windows are the same.
pub open spec fn window_same(a: WindowKeyView, b: WindowKeyView) -> bool {
    same_key(a.group, b.group) && a.window_start == b.window_start
}

proof fn lemma_window_index(w: Seq<WindowView>, key: WindowKeyView, i: nat)
    ensures
        match window_index(w, key, i) {
            Some(k) => i <= k < w.len() && window_same(w[k as int].key, key),
            None => forall|j: int| i <= j < w.len() ==> !window_same((#[trigger] w[j]).key, key),
        },
    decreases w.len() - i,
{
    reveal(same_key);
    if i < w.len() && !same_window(w[i as int].key, key) {
        lemma_window_index(w, key, i + 1);
    }
}

/// Whether one of the first `n` windows starts at an instant.
pub open spec fn starts_among(
    bounds: Seq<(Timestamp, Timestamp)>,
    n: nat,
    start: Timestamp,
) -> bool {
    exists|b: int| 0 <= b < n && (#[trigger] bounds[b]).0 == start
}

/// The group of a row.
pub open spec fn row_group(w: WindowedView, row: RowView) -> Result<Seq<ValueView>, Seq<char>> {
    values_of(w.group_by, row, w.input_schema, 0)
}

/// The windows of a row.
pub open spec fn row_windows(w: WindowedView, row: RowView, now: Timestamp) -> Option<
    Seq<(Timestamp, Timestamp)>,
> {
    windows_for(w.window_spec, row_time(row, now))
}

/// Whether a row belongs to a window of a group: it is of that group, and one of the
/// windows for its time starts where that window does.
pub open spec fn in_window(
    w: WindowedView,
    key: WindowKeyView,
    row: RowView,
    now: Timestamp,
) -> bool {
    &&& row_group(w, row) matches Ok(group) && same_key(key.group, group)
    &&& row_windows(w, row, now) matches Some(bounds) && starts_among(
        bounds,
        bounds.len(),
        key.window_start,
    )
}

/// What the accumulators of a window hold after those of the first `n` rows that belong
/// to it were taken in, one by one.
pub open spec fn window_taken(
    w: WindowedView,
    key: WindowKeyView,
    rows: Seq<RowView>,
    now: Timestamp,
    n: nat,
) -> Seq<AccumulatorView>
    decreases n,
{
    if n == 0 {
        fresh_all(functions_of(w.aggregates))
    } else {
        let before = window_taken(w, key, rows, now, (n - 1) as nat);
        if in_window(w, key, rows[n - 1], now) {
            row_taken(before, w.aggregates, rows[n - 1], w.input_schema, 0).0
        } else {
            before
        }
    }
}

/// Whether no two windows have the same key.
pub open spec fn distinct_windows(windows: Seq<WindowView>) -> bool {
    forall|i: int, j: int|
        0 <= i < j < windows.len() ==> !window_same(
            (#[trigger] windows[i]).key,
            (#[trigger] windows[j]).key,
        )
}

/// Whether there is a window with a key.
pub open spec fn has_window(windows: Seq<WindowView>, key: WindowKeyView) -> bool {
    exists|i: int| 0 <= i < windows.len() && window_same((#[trigger] windows[i]).key, key)
}

/// Whether there is a window for each of the first `n` windows of a row.
pub open spec fn has_windows(
    w: WindowedView,
    windows: Seq<WindowView>,
    row: RowView,
    now: Timestamp,
    n: nat,
) -> bool {
    forall|b: int|
        0 <= b < n ==> has_window(
            windows,
            WindowKeyView {
                group: row_group(w, row)->Ok_0,
                window_start: (#[trigger] row_windows(w, row, now)->0[b]).0,
            },
        )
}

/// Whether windows are those of the first `n` rows: no two have the same key, there is
/// one for each window of each row, and each has taken in the rows that belong to it
/// and no other.
pub open spec fn windows_of(
    w: WindowedView,
    windows: Seq<WindowView>,
    rows: Seq<RowView>,
    now: Timestamp,
    n: nat,
) -> bool {
    &&& distinct_windows(windows)
    &&& forall|i: int|
        0 <= i < n ==> row_group(w, #[trigger] rows[i]) is Ok && row_windows(
            w,
            rows[i],
            now,
        ) is Some && has_windows(w, windows, rows[i], now, row_windows(w, rows[i], now)->0.len())
    &&& forall|k: int|
        0 <= k < windows.len() ==> (#[trigger] windows[k]).accumulators == window_taken(
            w,
            windows[k].key,
            rows,
            now,
            n,
        ) && windows[k].start == windows[k].key.window_start
}

/// What the accumulators of a window hold once the first `b` windows of the row behind
/// the first `n` have taken it in.
spec fn half_taken(
    w: WindowedView,
    key: WindowKeyView,
    rows: Seq<RowView>,
    now: Timestamp,
    n: nat,
    b: nat,
) -> Seq<AccumulatorView> {
    let row = rows[n as int];
    let before = window_taken(w, key, rows, now, n);
    if same_key(key.group, row_group(w, row)->Ok_0) && starts_among(
        row_windows(w, row, now)->0,
        b,
        key.window_start,
    ) {
        row_taken(before, w.aggregates, row, w.input_schema, 0).0
    } else {
        before
    }
}

/// Whether windows are those of the first `n` rows, and of the row behind them in its
/// first `b` windows.
spec fn halfway(
    w: WindowedView,
    windows: Seq<WindowView>,
    rows: Seq<RowView>,
    now: Timestamp,
    n: nat,
    b: nat,
) -> bool {
    &&& distinct_windows(windows)
    &&& forall|i: int|
        0 <= i < n ==> row_group(w, #[trigger] rows[i]) is Ok && row_windows(
            w,
            rows[i],
            now,
        ) is Some && has_windows(w, windows, rows[i], now, row_windows(w, rows[i], now)->0.len())
    &&& has_windows(w, windows, rows[n as int], now, b)
    &&& forall|k: int|
        0 <= k < windows.len() ==> (#[trigger] windows[k]).accumulators == half_taken(
            w,
            windows[k].key,
            rows,
            now,
            n,
            b,
        ) && windows[k].start == windows[k].key.window_start
}

/// Whether windows follow from others in that the window of a key, which is made where
/// there is none, has taken in a row.
spec fn follows(
    w: WindowedView,
    windows: Seq<WindowView>,
    after: Seq<WindowView>,
    place: int,
    key: WindowKeyView,
    row: RowView,
) -> bool {
    let known = place < windows.len();
    let prior_key = if known { windows[place].key } else { key };
    let prior = if known {
        windows[place].accumulators
    } else {
        fresh_all(functions_of(w.aggregates))
    };
    &&& 0 <= place < after.len()
    &&& after.len() == if known { windows.len() } else { windows.len() + 1 }
    &&& forall|k: int| 0 <= k < after.len() && k != place ==> #[trigger] after[k] == windows[k]
    &&& after[place].key == prior_key
    &&& after[place].accumulators == row_taken(prior, w.aggregates, row, w.input_schema, 0).0
    &&& after[place].start == if known { windows[place].start } else { key.window_start }
    &&& window_same(prior_key, key)
    &&& place == windows.len() ==> forall|k: int|
        0 <= k < windows.len() ==> !window_same((#[trigger] windows[k]).key, key)
}

proof fn lemma_follows(
    w: WindowedView,
    windows: Seq<WindowView>,
    key: WindowKeyView,
    end: Timestamp,
    row: RowView,
)
    requires
        is_key(key.group),
    ensures
        ({
            let all = with_window(windows, key, end, functions_of(w.aggregates));
            let place = window_place(windows, key);
            let taken = row_taken(all[place].accumulators, w.aggregates, row, w.input_schema, 0).0;
            let after = window_set(all, place, taken, all[place].start, all[place].end);
            follows(w, windows, after, place, key, row)
        }),
{
    lemma_window_index(windows, key, 0);
    lemma_key_reflexive(key.group);
}

proof fn lemma_window_same_turns(a: WindowKeyView, b: WindowKeyView)
    ensures
        window_same(a, b) == window_same(b, a),
{
    lemma_keys_symmetric(a.group, b.group);
}

proof fn lemma_window_same_passes(a: WindowKeyView, b: WindowKeyView, c: WindowKeyView)
    requires
        window_same(a, b),
        window_same(b, c),
    ensures
        window_same(a, c),
{
    lemma_keys_transitive(a.group, b.group, c.group);
}

/// No window but the one in place has the key.
proof fn lemma_no_other(
    w: WindowedView,
    windows: Seq<WindowView>,
    after: Seq<WindowView>,
    place: int,
    key: WindowKeyView,
    row: RowView,
    k: int,
)
    requires
        distinct_windows(windows),
        follows(w, windows, after, place, key, row),
        0 <= k < after.len(),
        k != place,
    ensures
        !window_same(after[k].key, key),
{
    assert(after[k] == windows[k]);
    if window_same(windows[k].key, key) && place < windows.len() {
        lemma_window_same_turns(windows[place].key, key);
        lemma_window_same_passes(windows[k].key, key, windows[place].key);
        lemma_window_same_turns(windows[k].key, windows[place].key);
        assert(!window_same(windows[k].key, windows[place].key));
    }
}

proof fn lemma_still_distinct(
    w: WindowedView,
    windows: Seq<WindowView>,
    after: Seq<WindowView>,
    place: int,
    key: WindowKeyView,
    row: RowView,
)
    requires
        distinct_windows(windows),
        follows(w, windows, after, place, key, row),
    ensures
        distinct_windows(after),
        forall|other: WindowKeyView|
            has_window(windows, other) ==> #[trigger] has_window(after, other),
        has_window(after, key),
{
    assert forall|x: int, y: int| 0 <= x < y < after.len() implies !window_same(
        (#[trigger] after[x]).key,
        (#[trigger] after[y]).key,
    ) by {
        if x < windows.len() && y < windows.len() {
            assert(after[x].key == windows[x].key);
            assert(after[y].key == windows[y].key);
        } else {
            assert(after[x] == windows[x]);
        }
    }
    assert forall|other: WindowKeyView| has_window(windows, other) implies #[trigger] has_window(
        after,
        other,
    ) by {
        let k = choose|k: int|
            0 <= k < windows.len() && window_same((#[trigger] windows[k]).key, other);
        assert(after[k].key == windows[k].key);
    }
    assert(window_same(after[place].key, key));
}

proof fn lemma_nothing_taken(
    w: WindowedView,
    key: WindowKeyView,
    rows: Seq<RowView>,
    now: Timestamp,
    n: nat,
)
    requires
        forall|i: int| 0 <= i < n ==> !in_window(w, key, #[trigger] rows[i], now),
    ensures
        window_taken(w, key, rows, now, n) == fresh_all(functions_of(w.aggregates)),
    decreases n,
{
    if n > 0 {
        lemma_nothing_taken(w, key, rows, now, (n - 1) as nat);
    }
}

/// Before a window is made, no row belongs to it.
proof fn lemma_new_window(
    w: WindowedView,
    windows: Seq<WindowView>,
    rows: Seq<RowView>,
    now: Timestamp,
    n: nat,
    b: nat,
    key: WindowKeyView,
)
    requires
        n < rows.len(),
        halfway(w, windows, rows, now, n, b),
        !has_window(windows, key),
    ensures
        window_taken(w, key, rows, now, n) == fresh_all(functions_of(w.aggregates)),
{
    assert forall|i: int| 0 <= i < n implies !in_window(w, key, #[trigger] rows[i], now) by {
        if in_window(w, key, rows[i], now) {
            let group = row_group(w, rows[i])->Ok_0;
            let bounds = row_windows(w, rows[i], now)->0;
            let c = choose|c: int|
                0 <= c < bounds.len() && (#[trigger] bounds[c]).0 == key.window_start;
            let other = WindowKeyView { group, window_start: bounds[c].0 };
            assert(has_windows(w, windows, rows[i], now, bounds.len()));
            assert(has_window(windows, other));
            let k = choose|k: int|
                0 <= k < windows.len() && window_same((#[trigger] windows[k]).key, other);
            lemma_window_same_turns(key, other);
            lemma_window_same_passes(windows[k].key, other, key);
        }
    }
    lemma_nothing_taken(w, key, rows, now, n);
}

/// What each window has taken in, once it follows from others.
#[verifier::spinoff_prover]
#[verifier::rlimit(60)]
proof fn lemma_half_step(
    w: WindowedView,
    windows: Seq<WindowView>,
    after: Seq<WindowView>,
    place: int,
    rows: Seq<RowView>,
    now: Timestamp,
    n: nat,
    b: nat,
    k: int,
)
    requires
        n < rows.len(),
        row_group(w, rows[n as int]) is Ok,
        row_windows(w, rows[n as int], now) is Some,
        starts_differ(row_windows(w, rows[n as int], now)->0),
        b < row_windows(w, rows[n as int], now)->0.len(),
        halfway(w, windows, rows, now, n, b),
        follows(
            w,
            windows,
            after,
            place,
            WindowKeyView {
                group: row_group(w, rows[n as int])->Ok_0,
                window_start: row_windows(w, rows[n as int], now)->0[b as int].0,
            },
            rows[n as int],
        ),
        0 <= k < after.len(),
    ensures
        after[k].accumulators == half_taken(w, after[k].key, rows, now, n, b + 1),
        after[k].start == after[k].key.window_start,
{
    let row = rows[n as int];
    let group = row_group(w, row)->Ok_0;
    let bounds = row_windows(w, row, now)->0;
    let key = WindowKeyView { group, window_start: bounds[b as int].0 };
    let at = after[k].key.window_start;
    assert(starts_among(bounds, b + 1, at) <==> starts_among(bounds, b, at) || bounds[b as int].0
        == at) by {
        if starts_among(bounds, b, at) {
            let c = choose|c: int| 0 <= c < b && (#[trigger] bounds[c]).0 == at;
            assert(bounds[c].0 == at);
        }
        if bounds[b as int].0 == at {
            assert(bounds[b as int].0 == at);
        }
    }
    if k == place {
        assert(window_same(after[k].key, key));
        if starts_among(bounds, b, at) {
            let c = choose|c: int| 0 <= c < b && (#[trigger] bounds[c]).0 == at;
            assert(bounds[c].0 != bounds[b as int].0);
        }
        if place == windows.len() {
            assert(!has_window(windows, key));
            lemma_new_window(w, windows, rows, now, n, b, key);
        } else {
            assert(windows[k].accumulators == half_taken(w, windows[k].key, rows, now, n, b));
        }
    } else {
        assert(after[k] == windows[k]);
        lemma_no_other(w, windows, after, place, key, row, k);
    }
}

proof fn lemma_still_has_windows(
    w: WindowedView,
    windows: Seq<WindowView>,
    after: Seq<WindowView>,
    row: RowView,
    now: Timestamp,
    n: nat,
)
    requires
        has_windows(w, windows, row, now, n),
        forall|other: WindowKeyView|
            has_window(windows, other) ==> #[trigger] has_window(after, other),
    ensures
        has_windows(w, after, row, now, n),
{
}

/// One window more has taken in a row.
proof fn lemma_halfway_step(
    w: WindowedView,
    windows: Seq<WindowView>,
    after: Seq<WindowView>,
    place: int,
    rows: Seq<RowView>,
    now: Timestamp,
    n: nat,
    b: nat,
)
    requires
        n < rows.len(),
        row_group(w, rows[n as int]) is Ok,
        row_windows(w, rows[n as int], now) is Some,
        starts_differ(row_windows(w, rows[n as int], now)->0),
        b < row_windows(w, rows[n as int], now)->0.len(),
        halfway(w, windows, rows, now, n, b),
        follows(
            w,
            windows,
            after,
            place,
            WindowKeyView {
                group: row_group(w, rows[n as int])->Ok_0,
                window_start: row_windows(w, rows[n as int], now)->0[b as int].0,
            },
            rows[n as int],
        ),
    ensures
        halfway(w, after, rows, now, n, b + 1),
{
    let row = rows[n as int];
    let bounds = row_windows(w, row, now)->0;
    let key = WindowKeyView {
        group: row_group(w, row)->Ok_0,
        window_start: bounds[b as int].0,
    };
    lemma_still_distinct(w, windows, after, place, key, row);
    assert forall|k: int| 0 <= k < after.len() implies (#[trigger] after[k]).accumulators
        == half_taken(w, after[k].key, rows, now, n, b + 1) && after[k].start
        == after[k].key.window_start by {
        lemma_half_step(w, windows, after, place, rows, now, n, b, k);
    }
    assert forall|i: int| 0 <= i < n implies row_group(w, #[trigger] rows[i]) is Ok && row_windows(
        w,
        rows[i],
        now,
    ) is Some && has_windows(w, after, rows[i], now, row_windows(w, rows[i], now)->0.len()) by {
        lemma_still_has_windows(
            w,
            windows,
            after,
            rows[i],
            now,
            row_windows(w, rows[i], now)->0.len(),
        );
    }
    lemma_still_has_windows(w, windows, after, row, now, b);
}

/// A row that all its windows have taken in is one of the rows.
proof fn lemma_halfway_done(
    w: WindowedView,
    windows: Seq<WindowView>,
    rows: Seq<RowView>,
    now: Timestamp,
    n: nat,
)
    requires
        n < rows.len(),
        row_group(w, rows[n as int]) is Ok,
        row_windows(w, rows[n as int], now) is Some,
        halfway(w, windows, rows, now, n, row_windows(w, rows[n as int], now)->0.len()),
    ensures
        windows_of(w, windows, rows, now, n + 1),
{
    let b = row_windows(w, rows[n as int], now)->0.len();
    assert forall|k: int| 0 <= k < windows.len() implies (#[trigger] windows[k]).accumulators
        == window_taken(w, windows[k].key, rows, now, n + 1) && windows[k].start
        == windows[k].key.window_start by {
        assert(windows[k].accumulators == half_taken(w, windows[k].key, rows, now, n, b));
    }
}

/// A row that is taken in by all its windows without an error leaves the windows of the
/// rows with it.
proof fn lemma_row_in_windows(
    w: WindowedView,
    windows: Seq<WindowView>,
    rows: Seq<RowView>,
    now: Timestamp,
    n: nat,
    b: nat,
)
    requires
        n < rows.len(),
        row_group(w, rows[n as int]) is Ok,
        is_key(row_group(w, rows[n as int])->Ok_0),
        row_windows(w, rows[n as int], now) is Some,
        b <= row_windows(w, rows[n as int], now)->0.len(),
        halfway(w, windows, rows, now, n, b),
        row_in_windows(
            w,
            windows,
            row_windows(w, rows[n as int], now)->0,
            row_group(w, rows[n as int])->Ok_0,
            rows[n as int],
            b,
        ).1 is None,
    ensures
        windows_of(
            w,
            row_in_windows(
                w,
                windows,
                row_windows(w, rows[n as int], now)->0,
                row_group(w, rows[n as int])->Ok_0,
                rows[n as int],
                b,
            ).0,
            rows,
            now,
            n + 1,
        ),
    decreases row_windows(w, rows[n as int], now)->0.len() - b,
{
    let row = rows[n as int];
    let group = row_group(w, row)->Ok_0;
    let bounds = row_windows(w, row, now)->0;
    lemma_starts_differ(w.window_spec, row_time(row, now));
    if b < bounds.len() {
        let key = WindowKeyView { group, window_start: bounds[b as int].0 };
        let end = bounds[b as int].1;
        let all = with_window(windows, key, end, functions_of(w.aggregates));
        let place = window_place(windows, key);
        let taken = row_taken(all[place].accumulators, w.aggregates, row, w.input_schema, 0).0;
        let after = window_set(all, place, taken, all[place].start, all[place].end);
        lemma_follows(w, windows, key, end, row);
        lemma_halfway_step(w, windows, after, place, rows, now, n, b);
        lemma_row_in_windows(w, after, rows, now, n, b + 1);
    } else {
        lemma_halfway_done(w, windows, rows, now, n);
    }
}

/// Whether the rows from a place on are of groups whose keys equal themselves.
pub open spec fn groups_hold(w: WindowedView, rows: Seq<RowView>, i: nat) -> bool {
    forall|k: int|
        i <= k < rows.len() ==> (row_group(w, #[trigger] rows[k]) matches Ok(group) ==> is_key(
            group,
        ))
}

proof fn lemma_windows_from(
    w: WindowedView,
    windows: Seq<WindowView>,
    rows: Seq<RowView>,
    now: Timestamp,
    i: nat,
)
    requires
        i <= rows.len(),
        groups_hold(w, rows, i),
        windows_of(w, windows, rows, now, i),
        in_windows(w, windows, rows, now, i).1 is Done,
    ensures
        windows_of(w, in_windows(w, windows, rows, now, i).0, rows, now, rows.len()),
    decreases rows.len() - i,
{
    if i < rows.len() {
        let row = rows[i as int];
        let group = row_group(w, row)->Ok_0;
        let bounds = row_windows(w, row, now)->0;
        assert(is_key(group));
        assert forall|k: int| 0 <= k < windows.len() implies (#[trigger] windows[k]).accumulators
            == half_taken(w, windows[k].key, rows, now, i, 0) && windows[k].start
            == windows[k].key.window_start by {
            assert(!starts_among(bounds, 0, windows[k].key.window_start));
        }
        assert(halfway(w, windows, rows, now, i, 0));
        lemma_row_in_windows(w, windows, rows, now, i, 0);
        let after = row_in_windows(w, windows, bounds, group, row, 0).0;
        lemma_windows_from(w, after, rows, now, i + 1);
    }
}

/// A windowed aggregation that has taken in rows keeps one window for each group of
/// rows and each start of a window for one of its times, and each window has taken in
/// just the rows of its group whose time lies in it.
pub proof fn lemma_windows(w: WindowedView, rows: Seq<RowView>, now: Timestamp)
    requires
        groups_hold(w, rows, 0),
        in_windows(w, Seq::empty(), rows, now, 0).1 is Done,
    ensures
        windows_of(w, in_windows(w, Seq::empty(), rows, now, 0).0, rows, now, rows.len()),
{
    lemma_windows_from(w, Seq::empty(), rows, now, 0);
}

#[verifier::spinoff_prover]
#[verifier::rlimit(60)]
proof fn lemma_in_windows_shift(
    w: WindowedView,
    windows: Seq<WindowView>,
    first: Seq<RowView>,
    second: Seq<RowView>,
    now: Timestamp,
    i: nat,
)
    requires
        i <= second.len(),
    ensures
        in_windows(w, windows, first + second, now, first.len() + i) == in_windows(
            w,
            windows,
            second,
            now,
            i,
        ),
    decreases second.len() - i,
{
    let all = first + second;
    if i < second.len() {
        let row = second[i as int];
        assert(all[(first.len() + i) as int] == row);
        if let Ok(group) = row_group(w, row) {
            if let Some(bounds) = row_windows(w, row, now) {
                let (after, error) = row_in_windows(w, windows, bounds, group, row, 0);
                if error is None {
                    lemma_in_windows_shift(w, after, first, second, now, i + 1);
                }
            }
        }
    }
}

proof fn lemma_in_windows_split(
    w: WindowedView,
    windows: Seq<WindowView>,
    first: Seq<RowView>,
    second: Seq<RowView>,
    now: Timestamp,
    i: nat,
)
    requires
        i <= first.len(),
    ensures
        in_windows(w, windows, first + second, now, i) == match in_windows(
            w,
            windows,
            first,
            now,
            i,
        ) {
            (after, Halt::Done) => in_windows(w, after, second, now, 0),
            failed => failed,
        },
    decreases first.len() - i,
{
    let all = first + second;
    if i < first.len() {
        let row = first[i as int];
        assert(all[i as int] == row);
        if let Ok(group) = row_group(w, row) {
            if let Some(bounds) = row_windows(w, row, now) {
                let (after, error) = row_in_windows(w, windows, bounds, group, row, 0);
                if error is None {
                    lemma_in_windows_split(w, after, first, second, now, i + 1);
                }
            }
        }
    } else {
        lemma_in_windows_shift(w, windows, first, second, now, 0);
    }
}

/// It does not matter how rows are cut into batches: two batches leave behind the
/// windows that one batch with the rows of both does.
pub proof fn lemma_windowed_batches(
    w: WindowedView,
    windows: Seq<WindowView>,
    first: Seq<RowView>,
    second: Seq<RowView>,
    now: Timestamp,
)
    ensures
        in_windows(w, windows, first + second, now, 0) == match in_windows(
            w,
            windows,
            first,
            now,
            0,
        ) {
            (after, Halt::Done) => in_windows(w, after, second, now, 0),
            failed => failed,
        },
{
    lemma_in_windows_split(w, windows, first, second, now, 0);
}

/// How rows get into windows does not hang on the windows that an aggregation keeps, but
/// on those it starts with.
proof fn lemma_in_windows_alike(
    w: WindowedView,
    x: WindowedView,
    windows: Seq<WindowView>,
    rows: Seq<RowView>,
    now: Timestamp,
    i: nat,
)
    requires
        x == (WindowedView { windows: x.windows, ..w }),
    ensures
        in_windows(w, windows, rows, now, i) == in_windows(x, windows, rows, now, i),
    decreases rows.len() - i,
{
    if i < rows.len() {
        let row = rows[i as int];
        if let Ok(group) = values_of(w.group_by, row, w.input_schema, 0) {
            if let Some(bounds) = windows_for(w.window_spec, row_time(row, now)) {
                lemma_row_alike(w, x, windows, bounds, group, row, 0);
                let after = row_in_windows(w, windows, bounds, group, row, 0).0;
                lemma_in_windows_alike(w, x, after, rows, now, i + 1);
            }
        }
    }
}

proof fn lemma_row_alike(
    w: WindowedView,
    x: WindowedView,
    windows: Seq<WindowView>,
    bounds: Seq<(Timestamp, Timestamp)>,
    group: Seq<ValueView>,
    row: RowView,
    i: nat,
)
    requires
        x == (WindowedView { windows: x.windows, ..w }),
    ensures
        row_in_windows(w, windows, bounds, group, row, i) == row_in_windows(
            x,
            windows,
            bounds,
            group,
            row,
            i,
        ),
    decreases bounds.len() - i,
{
    if i < bounds.len() {
        let key = WindowKeyView { group, window_start: bounds[i as int].0 };
        let all = with_window(windows, key, bounds[i as int].1, functions_of(w.aggregates));
        let place = window_place(windows, key);
        let accumulators = row_taken(
            all[place].accumulators,
            w.aggregates,
            row,
            w.input_schema,
            0,
        ).0;
        let after = window_set(all, place, accumulators, all[place].start, all[place].end);
        lemma_row_alike(w, x, after, bounds, group, row, i + 1);
    }
}

/// Two batches put out, in the end, the rows that one batch with the rows of both does,
/// and leave the same behind: all windows are put out again after each batch.
pub proof fn lemma_windowed_batch_rows(
    w: WindowedView,
    first: Seq<RowView>,
    second: Seq<RowView>,
    now: Timestamp,
)
    requires
        windowed_step(w, first, now).0 matches Some(Ok(_)),
    ensures
        windowed_step(windowed_step(w, first, now).1, second, now) == windowed_step(
            w,
            first + second,
            now,
        ),
{
    let x = windowed_step(w, first, now).1;
    lemma_windowed_batches(w, w.windows, first, second, now);
    lemma_in_windows_alike(w, x, x.windows, second, now, 0);
}

} // verus!
