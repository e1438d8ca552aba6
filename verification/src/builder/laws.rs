//! Laws of the plans that builders make.
use crate::builder::{
    aggregate_plan, join_within, sink_plan, with_aggregate, with_window, AggregateBuilderView,
};
use crate::plan::{AggregateView, PlanView, SinkType, WindowSpec};
use crate::time::Duration;
use vstd::prelude::*;

verus! {

/// A builder of aggregates makes a plan that groups what it is over by its expressions.
/// Each aggregate comes behind those before it, a window takes the place of any before it,
/// and neither changes anything else.
pub proof fn lemma_aggregates_built(b: AggregateBuilderView, a: AggregateView, w: WindowSpec)
    ensures
        ({
            let plan = aggregate_plan(b);
            let more = aggregate_plan(with_aggregate(b, a));
            let windowed = aggregate_plan(with_window(b, w));
            &&& plan is Aggregate && more is Aggregate && windowed is Aggregate
            &&& *plan->Aggregate_input == b.input && plan->group_by == b.group_by
                && plan->aggregates == b.aggregates && plan->window == b.window && plan->having
                == b.having
            &&& more->aggregates == plan->aggregates.push(a)
            &&& *more->Aggregate_input == b.input && more->group_by == b.group_by && more->window
                == b.window && more->having == b.having
            &&& windowed->window == Some(w)
            &&& *windowed->Aggregate_input == b.input && windowed->group_by == b.group_by
                && windowed->aggregates == b.aggregates && windowed->having == b.having
        }),
{
}

/// A span that is given to a join becomes its span, and changes nothing else.
pub proof fn lemma_span_built(p: PlanView, duration: Duration)
    requires
        p is Join,
    ensures
        ({
            let j = join_within(p, duration);
            &&& j is Join
            &&& j->within == Some(duration)
            &&& j->Join_left == p->Join_left && j->Join_right == p->Join_right && j->join_type
                == p->join_type && j->on == p->on
        }),
{
}

/// A builder of results writes those of the plan that it is over.
pub proof fn lemma_sink_built(
    input: PlanView,
    name: Seq<char>,
    topic: Seq<char>,
    sink_type: SinkType,
)
    ensures
        ({
            let s = sink_plan(input, name, topic, sink_type);
            s is Sink && *s->Sink_input == input && s->name == name && s->topic == topic
                && s->sink_type == sink_type
        }),
{
}

} // verus!
