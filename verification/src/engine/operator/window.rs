//! Aggregation of groups of rows in windows of time.
use crate::engine::accumulator::Accumulator;
use crate::engine::operator::aggregate::{
    check_having, error_view, functions_of, is_put_out, list_functions, push_results, results,
    row_taken, take_row,
};
use crate::engine::operator::rows::{
    aggregate_schema, compute_aggregate_schema, prepend_rows, rows_outcome,
};
use crate::engine::operator::simple::{
    lemma_prepend_none, lemma_prepend_one, lemma_prepend_to_none,
};
use crate::engine::state::{
    window_place, window_set, with_window, WindowKey, WindowKeyView, WindowState, WindowView,
};
use crate::error::Error;
use crate::expr::eval::{eval_all, size, values_of};
use crate::expr::{Expr, ExprView};
use crate::plan::{having_view, AggregateExpr, AggregateFunction, AggregateView, WindowSpec};
use crate::time::Timestamp;
use crate::types::{no_metadata, ColumnView, Row, RowMetadata, RowMetadataView, RowView, Schema};
use crate::value::{clone_values, views, Value, ValueView};
use vstd::arithmetic::div_mod::{lemma_fundamental_div_mod, lemma_fundamental_div_mod_converse};
use vstd::prelude::*;

pub mod laws;

verus! {

/// The window from one millisecond to another, where both are instants.
pub open spec fn window_at(start: int, end: int) -> Option<(Timestamp, Timestamp)> {
    if Timestamp::fits_millis(start) && Timestamp::fits_millis(end) {
        Some((Timestamp::at_millis(start), Timestamp::at_millis(end)))
    } else {
        None
    }
}

/// The start of the window that a time lies in, where windows start at the multiples
/// of a number: the last of them that is not after the time.
pub open spec fn window_start(millis: int, step: int) -> int {
    millis - millis % size(step)
}

/// Whether a number of milliseconds is in the range of `i64`.
pub open spec fn in_range(millis: int) -> bool {
    i64::MIN <= millis <= i64::MAX
}

/// By how much a number is above another.
pub open spec fn excess(a: int, b: int) -> int {
    if a > b {
        a - b
    } else {
        0
    }
}

/// The windows of a size that a time lies in, the latest first, from one that
/// starts at a given time on. There is no answer where one of them, or a time on
/// the way, is out of range, nor where the windows do not advance.
pub open spec fn hops(millis: int, size: int, advance: int, start: int) -> Option<
    Seq<(Timestamp, Timestamp)>,
>
    decreases excess(start + size, millis),
{
    if !in_range(start + size) {
        None
    } else if start + size <= millis {
        Some(Seq::empty())
    } else if advance <= 0 || !in_range(start - advance) {
        None
    } else if start > millis {
        hops(millis, size, advance, start - advance)
    } else {
        match (window_at(start, start + size), hops(millis, size, advance, start - advance)) {
            (Some(w), Some(rest)) => Some(seq![w] + rest),
            _ => None,
        }
    }
}

/// The windows that a time lies in. A session starts as a window of its own, of
/// no length. There is no answer where windows have no size or do not advance,
/// or lie out of range.
pub open spec fn windows_for(spec: WindowSpec, t: Timestamp) -> Option<Seq<(Timestamp, Timestamp)>> {
    match spec {
        WindowSpec::Tumbling { size, .. } => {
            let millis = size.millis() as i64 as int;
            let start = window_start(t.millis(), millis);
            if millis == 0 {
                None
            } else {
                match window_at(start, start + millis) {
                    Some(w) => Some(seq![w]),
                    None => None,
                }
            }
        },
        WindowSpec::Hopping { size, advance, .. } => {
            let step = advance.millis() as i64 as int;
            if step == 0 {
                None
            } else {
                hops(t.millis(), size.millis() as i64 as int, step, window_start(t.millis(), step))
            }
        },
        WindowSpec::Session { .. } => match window_at(t.millis(), t.millis()) {
            Some(w) => Some(seq![w]),
            None => None,
        },
    }
}

fn make_window(start: i128, end: i128) -> (r: Option<(Timestamp, Timestamp)>)
    ensures
        r == window_at(start as int, end as int),
{
    let low: i128 = -0x8000_0000_0000_0000;
    let high: i128 = 0x7fff_ffff_ffff_ffff;
    if start < low || start > high || end < low || end > high {
        return None;
    }
    match (
        Timestamp::from_timestamp_millis(start as i64),
        Timestamp::from_timestamp_millis(end as i64),
    ) {
        (Some(s), Some(e)) => Some((s, e)),
        _ => None,
    }
}

fn first_start(millis: i64, step: i64) -> (r: i128)
    requires
        step != 0,
        -8334601228800000 <= millis <= 8210266876801000,
    ensures
        r == window_start(millis as int, step as int),
        in_range(r as int),
{
    let m: i128 = millis as i128;
    let b: i128 = if step < 0 {
        -(step as i128)
    } else {
        step as i128
    };
    if m >= 0 {
        return m - m % b;
    }
    let n: i128 = -m;
    let rest: i128 = n % b;
    let ghost q = n as int / b as int;
    proof {
        lemma_fundamental_div_mod(n as int, b as int);
        assert(b * (-q) == -(b * q)) by (nonlinear_arith);
        assert(b * (-q - 1) == -(b * q) - b) by (nonlinear_arith);
        assert(q == 0 ==> b * q == 0);
        assert(q >= 1 ==> b * q >= b) by (nonlinear_arith)
            requires
                b > 0,
        ;
        assert(q >= 0) by (nonlinear_arith)
            requires
                b > 0,
                n > 0,
                q == n as int / b as int,
        ;
    }
    if rest == 0 {
        proof {
            lemma_fundamental_div_mod_converse(m as int, b as int, -q, 0);
        }
        m
    } else {
        proof {
            lemma_fundamental_div_mod_converse(m as int, b as int, -q - 1, b - rest);
        }
        m - (b - rest)
    }
}

fn list_hops(millis: i64, size: i64, advance: i64, start: i128) -> (r: Option<
    Vec<(Timestamp, Timestamp)>,
>)
    requires
        -8334601228800000 <= millis <= 8210266876801000,
        in_range(start as int),
    ensures
        match r {
            Some(w) => hops(millis as int, size as int, advance as int, start as int) == Some(w@),
            None => hops(millis as int, size as int, advance as int, start as int) is None,
        },
{
    let ghost m = millis as int;
    let ghost z = size as int;
    let ghost a = advance as int;
    let low: i128 = -0x8000_0000_0000_0000;
    let high: i128 = 0x7fff_ffff_ffff_ffff;
    let mut windows: Vec<(Timestamp, Timestamp)> = Vec::new();
    let mut at: i128 = start;
    proof {
        let all = hops(m, z, a, start as int);
        if all is Some {
            assert(windows@ + all->0 =~= all->0);
        }
    }
    loop
        invariant
            m == millis,
            z == size,
            a == advance,
            low == i64::MIN,
            high == i64::MAX,
            in_range(at as int),
            -8334601228800000 <= millis <= 8210266876801000,
            hops(m, z, a, start as int) is Some == hops(m, z, a, at as int) is Some,
            hops(m, z, a, at as int) matches Some(rest) ==> hops(m, z, a, start as int) == Some(
                windows@ + rest,
            ),
        decreases excess(at + size, millis as int),
    {
        let end: i128 = at + size as i128;
        if end < low || end > high {
            return None;
        }
        if end <= millis as i128 {
            proof {
                assert(windows@ + Seq::<(Timestamp, Timestamp)>::empty() =~= windows@);
            }
            return Some(windows);
        }
        let next: i128 = at - advance as i128;
        if advance <= 0 || next < low || next > high {
            return None;
        }
        if at <= millis as i128 {
            match make_window(at, end) {
                Some(w) => {
                    let ghost before = windows@;
                    windows.push(w);
                    proof {
                        let rest = hops(m, z, a, next as int);
                        if rest is Some {
                            assert(before + (seq![w] + rest->0) =~= windows@ + rest->0);
                        }
                    }
                },
                None => {
                    return None;
                },
            }
        }
        at = next;
    }
}

/// Finds the windows that a time lies in.
pub fn windows_for_timestamp(spec: &WindowSpec, t: Timestamp) -> (r: Option<
    Vec<(Timestamp, Timestamp)>,
>)
    ensures
        match r {
            Some(w) => windows_for(*spec, t) == Some(w@),
            None => windows_for(*spec, t) is None,
        },
{
    let millis = t.timestamp_millis();
    match spec {
        WindowSpec::Tumbling { size, .. } => {
            let size_millis: i64 = size.as_millis() as i64;
            if size_millis == 0 {
                return None;
            }
            let start = first_start(millis, size_millis);
            single(make_window(start, start + size_millis as i128))
        },
        WindowSpec::Hopping { size, advance, .. } => {
            let size_millis: i64 = size.as_millis() as i64;
            let advance_millis: i64 = advance.as_millis() as i64;
            if advance_millis == 0 {
                return None;
            }
            let start = first_start(millis, advance_millis);
            list_hops(millis, size_millis, advance_millis, start)
        },
        WindowSpec::Session { .. } => single(make_window(millis as i128, millis as i128)),
    }
}

fn single(w: Option<(Timestamp, Timestamp)>) -> (r: Option<Vec<(Timestamp, Timestamp)>>)
    ensures
        match (r, w) {
            (Some(v), Some(w)) => v@ == seq![w],
            (None, None) => true,
            _ => false,
        },
{
    match w {
        Some(w) => {
            let mut v: Vec<(Timestamp, Timestamp)> = Vec::new();
            v.push(w);
            proof {
                assert(v@ =~= seq![w]);
            }
            Some(v)
        },
        None => None,
    }
}

/// Groups rows in windows of time and aggregates each group of each window. After
/// each batch all windows are put out.
#[derive(Debug)]
pub struct WindowedAggregateOp {
    group_by: Vec<Expr>,
    aggregates: Vec<AggregateExpr>,
    having: Option<Expr>,
    window_spec: WindowSpec,
    input_schema: Schema,
    output_schema: Schema,
    state: WindowState,
}

/// What a `WindowedAggregateOp` holds.
pub struct WindowedView {
    pub group_by: Seq<ExprView>,
    pub aggregates: Seq<AggregateView>,
    pub having: Option<ExprView>,
    pub window_spec: WindowSpec,
    pub input_schema: Seq<ColumnView>,
    pub output_schema: Seq<ColumnView>,
    pub windows: Seq<WindowView>,
}

impl View for WindowedAggregateOp {
    type V = WindowedView;

    closed spec fn view(&self) -> WindowedView {
        WindowedView {
            group_by: views(self.group_by@),
            aggregates: views(self.aggregates@),
            having: having_view(self.having),
            window_spec: self.window_spec,
            input_schema: self.input_schema@,
            output_schema: self.output_schema@,
            windows: self.state@,
        }
    }
}

/// How the taking in of rows came to its end.
pub enum Halt {
    /// All rows were taken in.
    Done,
    /// An expression failed.
    Failed(Seq<char>),
    /// There are no windows for the time of a row.
    NoWindow,
}

/// The time of a row: its own, or the present where it has none.
pub open spec fn row_time(row: RowView, now: Timestamp) -> Timestamp {
    match row.metadata.timestamp {
        Some(t) => t,
        None => now,
    }
}

/// The time of a row.
pub fn get_row_time(row: &Row, now: Timestamp) -> (r: Timestamp)
    ensures
        r == row_time(row@, now),
{
    match row.metadata.timestamp {
        Some(t) => t,
        None => now,
    }
}

/// The windows after a row of a group was taken in by those from a place on, up to
/// the first error, and that error.
pub open spec fn row_in_windows(
    w: WindowedView,
    windows: Seq<WindowView>,
    bounds: Seq<(Timestamp, Timestamp)>,
    group: Seq<ValueView>,
    row: RowView,
    i: nat,
) -> (Seq<WindowView>, Option<Seq<char>>)
    decreases bounds.len() - i,
{
    if i >= bounds.len() {
        (windows, None)
    } else {
        let key = WindowKeyView { group, window_start: bounds[i as int].0 };
        let all = with_window(windows, key, bounds[i as int].1, functions_of(w.aggregates));
        let place = window_place(windows, key);
        let (accumulators, error) = row_taken(
            all[place].accumulators,
            w.aggregates,
            row,
            w.input_schema,
            0,
        );
        let after = window_set(all, place, accumulators, all[place].start, all[place].end);
        match error {
            Some(e) => (after, Some(e)),
            None => row_in_windows(w, after, bounds, group, row, i + 1),
        }
    }
}

/// The windows after the rows from a place on, up to the first that cannot be
/// taken in. That row still leaves behind what was done for it before.
pub open spec fn in_windows(
    w: WindowedView,
    windows: Seq<WindowView>,
    rows: Seq<RowView>,
    now: Timestamp,
    i: nat,
) -> (Seq<WindowView>, Halt)
    decreases rows.len() - i,
{
    if i >= rows.len() {
        (windows, Halt::Done)
    } else {
        let row = rows[i as int];
        match values_of(w.group_by, row, w.input_schema, 0) {
            Err(e) => (windows, Halt::Failed(e)),
            Ok(group) => match windows_for(w.window_spec, row_time(row, now)) {
                None => (windows, Halt::NoWindow),
                Some(bounds) => {
                    let (after, error) = row_in_windows(w, windows, bounds, group, row, 0);
                    match error {
                        Some(e) => (after, Halt::Failed(e)),
                        None => in_windows(w, after, rows, now, i + 1),
                    }
                },
            },
        }
    }
}

/// The row of a window.
pub open spec fn window_row(w: WindowView) -> RowView {
    RowView {
        values: w.key.group + results(w.accumulators),
        metadata: RowMetadataView {
            window_start: Some(w.start),
            window_end: Some(w.end),
            ..no_metadata()
        },
    }
}

/// The rows of the windows from a place on that are put out, or the first error.
pub open spec fn windows_out(
    windows: Seq<WindowView>,
    having: Option<ExprView>,
    schema: Seq<ColumnView>,
    i: nat,
) -> Result<Seq<RowView>, Seq<char>>
    decreases windows.len() - i,
{
    if i >= windows.len() {
        Ok(Seq::empty())
    } else {
        let row = window_row(windows[i as int]);
        match is_put_out(having, row, schema) {
            Err(e) => Err(e),
            Ok(b) => if b {
                prepend_rows(seq![row], windows_out(windows, having, schema, i + 1))
            } else {
                windows_out(windows, having, schema, i + 1)
            },
        }
    }
}

/// What a windowed aggregation puts out after a batch, and the windows that it then
/// keeps. There is no answer where the time of a row has no windows.
pub open spec fn windowed_step(w: WindowedView, rows: Seq<RowView>, now: Timestamp) -> (
    Option<Result<Seq<RowView>, Seq<char>>>,
    WindowedView,
) {
    let (windows, halt) = in_windows(w, w.windows, rows, now, 0);
    let result = match halt {
        Halt::Failed(e) => Some(Err(e)),
        Halt::NoWindow => None,
        Halt::Done => Some(windows_out(windows, w.having, w.output_schema, 0)),
    };
    (result, WindowedView { windows, ..w })
}

/// How the taking in of rows came to its end.
enum Stop {
    Done,
    Failed(Error),
    NoWindow,
}

spec fn stop_view(s: Stop) -> Halt {
    match s {
        Stop::Done => Halt::Done,
        Stop::Failed(e) => Halt::Failed(e@),
        Stop::NoWindow => Halt::NoWindow,
    }
}

impl WindowedAggregateOp {
    pub fn new(
        group_by: Vec<Expr>,
        aggregates: Vec<AggregateExpr>,
        having: Option<Expr>,
        window_spec: WindowSpec,
        input_schema: Schema,
    ) -> (r: WindowedAggregateOp)
        ensures
            r@ == (WindowedView {
                group_by: views(group_by@),
                aggregates: views(aggregates@),
                having: having_view(having),
                window_spec,
                input_schema: input_schema@,
                output_schema: aggregate_schema(
                    views(group_by@),
                    views(aggregates@),
                    input_schema@,
                ),
                windows: Seq::empty(),
            }),
    {
        let output_schema = compute_aggregate_schema(&group_by, &aggregates, &input_schema);
        WindowedAggregateOp {
            group_by,
            aggregates,
            having,
            window_spec,
            input_schema,
            output_schema,
            state: WindowState::new(),
        }
    }

    pub fn schema(&self) -> (r: &Schema)
        ensures
            r@ == self@.output_schema,
    {
        &self.output_schema
    }

    fn take_in_windows(
        &mut self,
        bounds: &Vec<(Timestamp, Timestamp)>,
        group: &Vec<Value>,
        row: &Row,
        functions: &Vec<(AggregateFunction, bool)>,
    ) -> (r: Option<Error>)
        requires
            functions@ == functions_of(old(self)@.aggregates),
        ensures
            final(self)@ == (WindowedView {
                windows: row_in_windows(
                    old(self)@,
                    old(self)@.windows,
                    bounds@,
                    views(group@),
                    row@,
                    0,
                ).0,
                ..old(self)@
            }),
            error_view(r) == row_in_windows(
                old(self)@,
                old(self)@.windows,
                bounds@,
                views(group@),
                row@,
                0,
            ).1,
    {
        let ghost w = self@;
        let ghost g = views(group@);
        let mut i: usize = 0;
        while i < bounds.len()
            invariant
                i <= bounds.len(),
                w == old(self)@,
                g == views(group@),
                functions@ == functions_of(w.aggregates),
                self@ == (WindowedView { windows: self@.windows, ..w }),
                row_in_windows(w, w.windows, bounds@, g, row@, 0) == row_in_windows(
                    w,
                    self@.windows,
                    bounds@,
                    g,
                    row@,
                    i as nat,
                ),
            decreases bounds.len() - i,
        {
            let ghost windows = self@.windows;
            let key = WindowKey { group: clone_values(group), window_start: bounds[i].0 };
            let entry = self.state.get_or_create(key, bounds[i].1, functions.as_slice());
            let error = take_row(&mut entry.0, &self.aggregates, row, &self.input_schema);
            if let Some(e) = error {
                return Some(e);
            }
            i = i + 1;
        }
        None
    }

    fn take_rows(&mut self, rows: &Vec<Row>, now: Timestamp) -> (r: Stop)
        ensures
            final(self)@ == (WindowedView {
                windows: in_windows(old(self)@, old(self)@.windows, views(rows@), now, 0).0,
                ..old(self)@
            }),
            stop_view(r) == in_windows(old(self)@, old(self)@.windows, views(rows@), now, 0).1,
    {
        let ghost w = self@;
        let ghost all = views(rows@);
        let functions = list_functions(&self.aggregates);
        let mut i: usize = 0;
        while i < rows.len()
            invariant
                i <= rows.len(),
                w == old(self)@,
                all == views(rows@),
                functions@ == functions_of(w.aggregates),
                self@ == (WindowedView { windows: self@.windows, ..w }),
                in_windows(w, w.windows, all, now, 0) == in_windows(
                    w,
                    self@.windows,
                    all,
                    now,
                    i as nat,
                ),
            decreases rows.len() - i,
        {
            let ghost windows = self@.windows;
            let ghost here = self@;
            let group = match eval_all(&self.group_by, &rows[i], &self.input_schema) {
                Ok(group) => group,
                Err(e) => {
                    return Stop::Failed(e);
                },
            };
            let bounds = match windows_for_timestamp(
                &self.window_spec,
                get_row_time(&rows[i], now),
            ) {
                Some(bounds) => bounds,
                None => {
                    return Stop::NoWindow;
                },
            };
            proof {
                lemma_same_settings(here, w, windows, bounds@, views(group@), all[i as int], 0);
            }
            if let Some(e) = self.take_in_windows(&bounds, &group, &rows[i], &functions) {
                return Stop::Failed(e);
            }
            i = i + 1;
        }
        Stop::Done
    }

    fn put_out(&self) -> (r: Result<Vec<Row>, Error>)
        ensures
            rows_outcome(r) == windows_out(self@.windows, self@.having, self@.output_schema, 0),
    {
        let ghost all = self@.windows;
        let ghost having = self@.having;
        let ghost schema = self@.output_schema;
        let windows = self.state.iter();
        let mut output: Vec<Row> = Vec::new();
        let mut i: usize = 0;
        proof {
            lemma_prepend_none(views(output@), windows_out(all, having, schema, 0));
        }
        while i < windows.len()
            invariant
                i <= windows.len(),
                all == windows@.map_values(
                    |w: (&WindowKey, &(Vec<Accumulator>, Timestamp, Timestamp))|
                        WindowView {
                            key: w.0@,
                            accumulators: views(w.1.0@),
                            start: w.1.1,
                            end: w.1.2,
                        },
                ),
                all == self@.windows,
                having == self@.having,
                schema == self@.output_schema,
                windows_out(all, having, schema, 0) == prepend_rows(
                    views(output@),
                    windows_out(all, having, schema, i as nat),
                ),
            decreases windows.len() - i,
        {
            let ghost before = views(output@);
            let mut metadata = RowMetadata::default();
            metadata.window_start = Some(windows[i].1.1);
            metadata.window_end = Some(windows[i].1.2);
            let row = Row::with_metadata(
                push_results(&windows[i].0.group, &windows[i].1.0),
                metadata,
            );
            proof {
                assert(row@ == window_row(all[i as int]));
            }
            match check_having(&self.having, &row, &self.output_schema) {
                Ok(b) => {
                    if b {
                        let ghost held = row@;
                        output.push(row);
                        proof {
                            assert(views(output@) =~= before.push(held));
                            lemma_prepend_one(
                                before,
                                views(output@),
                                held,
                                windows_out(all, having, schema, (i + 1) as nat),
                            );
                        }
                    }
                },
                Err(e) => {
                    return Err(e);
                },
            }
            i = i + 1;
        }
        proof {
            lemma_prepend_to_none(views(output@));
        }
        Ok(output)
    }

    /// Takes in a batch and puts all windows out. There is no answer where the time
    /// of a row has no windows.
    pub fn aggregate(&mut self, rows: &Vec<Row>, now: Timestamp) -> (r: Option<
        Result<Vec<Row>, Error>,
    >)
        ensures
            final(self)@ == windowed_step(old(self)@, views(rows@), now).1,
            match r {
                Some(x) => windowed_step(old(self)@, views(rows@), now).0 == Some(rows_outcome(x)),
                None => windowed_step(old(self)@, views(rows@), now).0 is None,
            },
    {
        match self.take_rows(rows, now) {
            Stop::Failed(e) => Some(Err(e)),
            Stop::NoWindow => None,
            Stop::Done => Some(self.put_out()),
        }
    }
}

/// What is done with a row does not depend on the windows that are kept beside
/// the settings.
proof fn lemma_same_settings(
    a: WindowedView,
    b: WindowedView,
    windows: Seq<WindowView>,
    bounds: Seq<(Timestamp, Timestamp)>,
    group: Seq<ValueView>,
    row: RowView,
    i: nat,
)
    requires
        a == (WindowedView { windows: a.windows, ..b }),
    ensures
        row_in_windows(a, windows, bounds, group, row, i) == row_in_windows(
            b,
            windows,
            bounds,
            group,
            row,
            i,
        ),
    decreases bounds.len() - i,
{
    if i < bounds.len() {
        let key = WindowKeyView { group, window_start: bounds[i as int].0 };
        let all = with_window(windows, key, bounds[i as int].1, functions_of(a.aggregates));
        let place = window_place(windows, key);
        let (accumulators, error) = row_taken(
            all[place].accumulators,
            a.aggregates,
            row,
            a.input_schema,
            0,
        );
        let after = window_set(all, place, accumulators, all[place].start, all[place].end);
        lemma_same_settings(a, b, after, bounds, group, row, i + 1);
    }
}

} // verus!
