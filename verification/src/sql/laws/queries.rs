//! Laws of the plans that SELECT statements are translated to.
use crate::expr::debug::expr_debug;
use crate::expr::ExprView;
use crate::plan::{AggregateFunction, AggregateView, JoinType, PlanView};
use crate::sql::ast::{
    SqlArgumentView, SqlArgumentsView, SqlExprView, SqlGroupByView, SqlItemView, SqlQueryView,
    SqlRelationView, SqlSelectView, SqlTableView,
};
use crate::sql::parser::{
    aggregate_named, aggregates_of, all_columns, from_plan, item_aggregate, join_plan, joins_plan,
    projection_of, query_plan, select_plan, translated_list,
};
use crate::sql::translate::{dotted, identifiers, name_text, translated};
use crate::text::{lower, upper};
use vstd::prelude::*;

verus! {

/// A name is its identifiers with dots between them; one of a single identifier is that.
pub proof fn lemma_name(first: Seq<char>, second: Seq<char>)
    ensures
        name_text(seq![Some(first)]) == first,
        name_text(seq![Some(first), Some(second)]) == first + seq!['.'] + second,
{
    reveal_with_fuel(identifiers, 3);
    reveal_with_fuel(dotted, 3);
    reveal_strlit(".");
    assert("."@ =~= seq!['.']);
    let one = seq![Some(first)];
    assert(identifiers(one, 1) =~= seq![first]);
    let two = seq![Some(first), Some(second)];
    assert(identifiers(two, 2) =~= seq![first, second]);
    let parts = seq![first, second];
    assert(parts.drop_last() =~= seq![first]);
}

/// Whether a plan reads what stands first in a FROM clause, joined with the first `n` of
/// the tables that are to be joined, from the left: each by its name, in the way that is
/// said, and on the condition that is given.
pub open spec fn reads(plan: PlanView, table: SqlTableView, n: nat) -> bool
    decreases n,
{
    if n == 0 {
        table.relation matches SqlRelationView::Table(name) && plan == (PlanView::Scan {
            source: name_text(name),
        })
    } else {
        let join = table.joins[n - 1];
        &&& plan is Join
        &&& plan->Join_within is None
        &&& join.relation matches SqlRelationView::Table(name) && *plan->Join_right == (
        PlanView::Scan { source: name_text(name) })
        &&& plan->join_type == JoinType::Inner <==> join.kind is Inner
        &&& plan->join_type == JoinType::Left <==> join.kind is Left || join.kind is LeftOuter
        &&& plan->join_type == JoinType::Right <==> join.kind is Right || join.kind is RightOuter
        &&& plan->join_type == JoinType::FullOuter <==> join.kind is FullOuter
        &&& join.on matches Some(on) && translated(on) == Ok::<ExprView, Seq<char>>(plan->on)
        &&& reads(*plan->Join_left, table, (n - 1) as nat)
    }
}

proof fn lemma_joins(left: PlanView, table: SqlTableView, i: nat)
    requires
        i <= table.joins.len(),
        reads(left, table, i),
    ensures
        joins_plan(left, table.joins, i) matches Ok(plan) ==> reads(
            plan,
            table,
            table.joins.len(),
        ),
    decreases table.joins.len() - i,
{
    if i < table.joins.len() {
        if let Ok(plan) = join_plan(left, table.joins[i as int]) {
            assert(reads(plan, table, i + 1));
            lemma_joins(plan, table, i + 1);
        }
    }
}

/// A FROM clause with one table, and whatever is joined to it, is a plan that reads them.
pub proof fn lemma_from(from: Seq<SqlTableView>)
    ensures
        from_plan(from) matches Ok(plan) ==> from.len() == 1 && reads(
            plan,
            from[0],
            from[0].joins.len(),
        ),
        from.len() == 1 && from[0].joins.len() == 0 && from[0].relation is Table ==> from_plan(
            from,
        ) is Ok,
        from.len() != 1 ==> from_plan(from) is Err,
{
    if from.len() == 1 {
        if let SqlRelationView::Table(name) = from[0].relation {
            lemma_joins(PlanView::Scan { source: name_text(name) }, from[0], 0);
        }
    }
}

/// Whether a SELECT groups its rows.
pub open spec fn is_grouped(s: SqlSelectView) -> bool {
    match s.group_by {
        SqlGroupByView::Expressions(e) => e.len() > 0,
        SqlGroupByView::All => true,
    }
}

/// Whether a SELECT asks for all columns and nothing else.
pub open spec fn is_star(s: SqlSelectView) -> bool {
    s.projection.len() == 1 && s.projection[0] is Wildcard
}

/// The part of the plan of a SELECT under what groups or computes its columns.
pub open spec fn under(s: SqlSelectView, plan: PlanView) -> PlanView {
    if is_grouped(s) {
        *plan->Aggregate_input
    } else if is_star(s) {
        plan
    } else {
        *plan->Project_input
    }
}

/// Nothing is translated to a wildcard.
proof fn lemma_no_wildcard(e: SqlExprView)
    ensures
        translated(e) matches Ok(x) ==> !(x is Wildcard),
    decreases e,
{
    if let SqlExprView::Nested(inner) = e {
        lemma_no_wildcard(*inner);
    }
}

/// Where a SELECT groups, its plan is an aggregation; else it computes its columns, unless
/// these are all there are. In each case it does so on the rows of its FROM clause on which
/// its WHERE condition holds, where it has one: under it stands a filter with that
/// condition, and under the filter what the FROM clause reads.
pub proof fn lemma_select(s: SqlSelectView)
    ensures
        select_plan(s) matches Ok(plan) ==> {
            &&& s.from.len() == 1
            &&& is_grouped(s) ==> plan is Aggregate && plan->window is None
            &&& !is_grouped(s) && !is_star(s) ==> plan is Project
            &&& match s.selection {
                Some(condition) => under(s, plan) is Filter && translated(condition) == Ok::<
                    ExprView,
                    Seq<char>,
                >(under(s, plan)->predicate) && reads(
                    *under(s, plan)->Filter_input,
                    s.from[0],
                    s.from[0].joins.len(),
                ),
                None => reads(under(s, plan), s.from[0], s.from[0].joins.len()),
            }
        },
{
    lemma_from(s.from);
    lemma_projection(s.projection, 0);
    if select_plan(s) is Ok && !is_grouped(s) {
        let exprs = projection_of(s.projection, 0)->Ok_0;
        if s.projection.len() == 1 {
            assert(exprs[0] is Wildcard <==> s.projection[0] is Wildcard);
        }
        assert(all_columns(exprs) <==> is_star(s));
    }
}

/// What an item of a SELECT stands for: an expression for its translation, with its alias
/// where it is given one, and a star for all columns.
pub open spec fn is_item(item: SqlItemView, x: ExprView) -> bool {
    match item {
        SqlItemView::Expr(e) => translated(e) == Ok::<ExprView, Seq<char>>(x),
        SqlItemView::Alias { expr, alias } => x is Alias && x->Alias_name == alias && translated(
            expr,
        ) == Ok::<ExprView, Seq<char>>(*x->Alias_expr),
        SqlItemView::Wildcard => x is Wildcard,
    }
}

proof fn lemma_projection(items: Seq<SqlItemView>, i: nat)
    requires
        i <= items.len(),
    ensures
        projection_of(items, i) matches Ok(exprs) ==> {
            &&& exprs.len() == items.len() - i
            &&& forall|k: int| 0 <= k < exprs.len() ==> is_item(items[i + k], #[trigger] exprs[k])
            &&& forall|k: int|
                0 <= k < exprs.len() ==> (#[trigger] exprs[k] is Wildcard <==> items[i + k]
                    is Wildcard)
        },
    decreases items.len() - i,
{
    if i < items.len() {
        lemma_projection(items, i + 1);
        if let SqlItemView::Expr(e) = items[i as int] {
            lemma_no_wildcard(e);
        }
        if let Ok(exprs) = projection_of(items, i) {
            let rest = projection_of(items, i + 1)->Ok_0;
            assert(exprs =~= seq![exprs[0]] + rest);
            assert forall|k: int| 0 <= k < exprs.len() implies is_item(
                items[i + k],
                #[trigger] exprs[k],
            ) && (exprs[k] is Wildcard <==> items[i + k] is Wildcard) by {
                if k > 0 {
                    assert(exprs[k] == rest[k - 1]);
                    assert(items[(i + 1) + (k - 1)] == items[i + k]);
                }
            }
        }
    }
}

/// A SELECT that does not group computes one expression for each of its items, in their
/// order.
pub proof fn lemma_select_items(s: SqlSelectView)
    requires
        !is_grouped(s),
        !is_star(s),
    ensures
        select_plan(s) matches Ok(plan) ==> plan is Project && plan->expressions.len()
            == s.projection.len() && forall|k: int|
            0 <= k < s.projection.len() ==> is_item(
                #[trigger] s.projection[k],
                plan->expressions[k],
            ),
{
    lemma_select(s);
    lemma_projection(s.projection, 0);
    if let Ok(plan) = select_plan(s) {
        assert forall|k: int| 0 <= k < s.projection.len() implies is_item(
            #[trigger] s.projection[k],
            plan->expressions[k],
        ) by {
            assert(s.projection[0 + k] == s.projection[k]);
            assert(is_item(s.projection[0 + k], plan->expressions[k]));
        }
    }
}

proof fn lemma_list(exprs: Seq<SqlExprView>, i: nat)
    requires
        i <= exprs.len(),
    ensures
        translated_list(exprs, i) matches Ok(list) ==> list.len() == exprs.len() - i && forall|
            k: int,
        |
            0 <= k < list.len() ==> translated(exprs[i + k]) == Ok::<ExprView, Seq<char>>(
                #[trigger] list[k],
            ),
    decreases exprs.len() - i,
{
    if i < exprs.len() {
        lemma_list(exprs, i + 1);
        if let Ok(list) = translated_list(exprs, i) {
            let rest = translated_list(exprs, i + 1)->Ok_0;
            assert(list =~= seq![list[0]] + rest);
            assert forall|k: int| 0 <= k < list.len() implies translated(exprs[i + k]) == Ok::<
                ExprView,
                Seq<char>,
            >(#[trigger] list[k]) by {
                if k > 0 {
                    assert(list[k] == rest[k - 1]);
                    assert(exprs[(i + 1) + (k - 1)] == exprs[i + k]);
                }
            }
        }
    }
}

/// A SELECT that groups does so by each of its GROUP BY expressions, in their order, and
/// holds back the groups on which its HAVING condition does not hold, where it has one.
pub proof fn lemma_select_groups(s: SqlSelectView)
    requires
        is_grouped(s),
    ensures
        select_plan(s) matches Ok(plan) ==> {
            &&& plan is Aggregate
            &&& s.group_by matches SqlGroupByView::Expressions(e) ==> plan->group_by.len()
                == e.len() && forall|k: int|
                0 <= k < e.len() ==> translated(#[trigger] e[k]) == Ok::<ExprView, Seq<char>>(
                    plan->group_by[k],
                )
            &&& s.group_by is All ==> plan->group_by.len() == 0
            &&& match s.having {
                Some(h) => plan->having matches Some(x) && translated(h) == Ok::<
                    ExprView,
                    Seq<char>,
                >(x),
                None => plan->having is None,
            }
        },
{
    if let SqlGroupByView::Expressions(e) = s.group_by {
        lemma_list(e, 0);
        if let Ok(plan) = select_plan(s) {
            assert forall|k: int| 0 <= k < e.len() implies translated(#[trigger] e[k]) == Ok::<
                ExprView,
                Seq<char>,
            >(plan->group_by[k]) by {
                assert(e[0 + k] == e[k]);
            }
        }
    }
}

/// The aggregate function with a name, in upper case.
pub open spec fn function_named(f: AggregateFunction, name: Seq<char>) -> bool {
    match f {
        AggregateFunction::Count => name == "COUNT"@,
        AggregateFunction::Sum => name == "SUM"@,
        AggregateFunction::Avg => name == "AVG"@,
        AggregateFunction::Min => name == "MIN"@,
        AggregateFunction::Max => name == "MAX"@,
        AggregateFunction::CollectList => name == "COLLECT_LIST"@,
        AggregateFunction::CollectSet => name == "COLLECT_SET"@,
        AggregateFunction::TopK(_) => false,
    }
}

/// Whether an expression is a call of an aggregate function.
pub open spec fn is_call(e: SqlExprView) -> bool {
    e is Function && ({
        let name = upper(name_text(e->Function_name));
        name == "COUNT"@ || name == "SUM"@ || name == "AVG"@ || name == "MIN"@ || name == "MAX"@
            || name == "COLLECT_LIST"@ || name == "COLLECT_SET"@
    })
}

/// The expression of an item.
pub open spec fn expr_of(item: SqlItemView) -> SqlExprView {
    match item {
        SqlItemView::Expr(e) => e,
        SqlItemView::Alias { expr, .. } => expr,
        SqlItemView::Wildcard => SqlExprView::Other(Seq::empty()),
    }
}

/// Whether an aggregate is the one that an item calls for: the function with its name, on
/// its first argument, or on all columns where that is a star or missing, on different
/// values only where it says DISTINCT, and under its alias where it is given one, else
/// under the names of the function and of what it is applied to.
pub open spec fn is_aggregate_of(item: SqlItemView, a: AggregateView) -> bool {
    &&& is_call(expr_of(item))
    &&& function_named(a.function, upper(name_text(expr_of(item)->Function_name)))
    &&& expr_of(item)->Function_args matches SqlArgumentsView::List { args, distinct }
        && a.distinct == distinct && if args.len() == 0 || args[0] is Wildcard {
        a.expr is Wildcard
    } else {
        args[0] matches SqlArgumentView::Expr(e) && translated(e) == Ok::<ExprView, Seq<char>>(
            a.expr,
        )
    }
    &&& item matches SqlItemView::Alias { alias, .. } ==> a.alias == alias
    &&& item is Expr ==> a.alias == lower(upper(name_text(expr_of(item)->Function_name))) + "_"@ + (
    if a.expr is Wildcard {
        "star"@
    } else {
        expr_debug(a.expr)
    })
}

proof fn lemma_functions(name: Seq<char>)
    ensures
        aggregate_named(name) is Some <==> (name == "COUNT"@ || name == "SUM"@ || name == "AVG"@
            || name == "MIN"@ || name == "MAX"@ || name == "COLLECT_LIST"@ || name
            == "COLLECT_SET"@),
        aggregate_named(name) matches Some(f) ==> function_named(f, name),
{
}

proof fn lemma_item_aggregate(item: SqlItemView)
    ensures
        match item_aggregate(item) {
            Ok(Some(a)) => is_aggregate_of(item, a),
            Ok(None) => !is_call(expr_of(item)),
            Err(_) => true,
        },
{
    if let SqlExprView::Function { name, .. } = expr_of(item) {
        lemma_functions(upper(name_text(name)));
    }
}

/// The items of a SELECT that call aggregate functions.
pub open spec fn calls(items: Seq<SqlItemView>) -> Seq<SqlItemView> {
    items.filter(|item: SqlItemView| is_call(expr_of(item)))
}

proof fn lemma_aggregates(items: Seq<SqlItemView>, i: nat)
    requires
        i <= items.len(),
    ensures
        aggregates_of(items, i) matches Ok(list) ==> list.len() == calls(
            items.skip(i as int),
        ).len() && forall|k: int|
            0 <= k < list.len() ==> is_aggregate_of(
                calls(items.skip(i as int))[k],
                #[trigger] list[k],
            ),
    decreases items.len() - i,
{
    let p = |item: SqlItemView| is_call(expr_of(item));
    if i < items.len() {
        lemma_aggregates(items, i + 1);
        lemma_item_aggregate(items[i as int]);
        let rest = items.skip(i as int + 1);
        assert(items.skip(i as int) =~= seq![items[i as int]] + rest);
        rest.lemma_filter_prepend(items[i as int], p);
        if let Ok(list) = aggregates_of(items, i) {
            let later = aggregates_of(items, i + 1)->Ok_0;
            let mine = calls(items.skip(i as int));
            if let Ok(Some(a)) = item_aggregate(items[i as int]) {
                assert(list =~= seq![a] + later);
                assert(mine =~= seq![items[i as int]] + calls(rest));
                assert forall|k: int| 0 <= k < list.len() implies is_aggregate_of(
                    mine[k],
                    #[trigger] list[k],
                ) by {
                    if k > 0 {
                        assert(list[k] == later[k - 1]);
                        assert(mine[k] == calls(rest)[k - 1]);
                    }
                }
            } else {
                assert(mine =~= calls(rest));
            }
        }
    } else {
        reveal(Seq::filter);
        assert(items.skip(i as int) =~= Seq::empty());
    }
}

/// A SELECT that groups has one aggregate for each of its items that calls an aggregate
/// function, in their order.
pub proof fn lemma_select_aggregates(s: SqlSelectView)
    requires
        is_grouped(s),
    ensures
        select_plan(s) matches Ok(plan) ==> plan is Aggregate && plan->aggregates.len() == calls(
            s.projection,
        ).len() && forall|k: int|
            0 <= k < plan->aggregates.len() ==> is_aggregate_of(
                calls(s.projection)[k],
                #[trigger] plan->aggregates[k],
            ),
{
    lemma_aggregates(s.projection, 0);
    assert(s.projection.skip(0) =~= s.projection);
}

/// A query that is a SELECT has its plan; no other query has one.
pub proof fn lemma_query(q: SqlQueryView)
    ensures
        q matches SqlQueryView::Select(s) ==> query_plan(q) == select_plan(s),
        q is Other ==> query_plan(q) is Err,
{
}

/// A SELECT over one table has a plan wherever its WHERE condition and its items can be
/// translated.
pub proof fn lemma_select_works(s: SqlSelectView)
    requires
        s.from.len() == 1,
        s.from[0].joins.len() == 0,
        s.from[0].relation is Table,
        !is_grouped(s),
        s.selection matches Some(e) ==> translated(e) is Ok,
        forall|i: int|
            0 <= i < s.projection.len() ==> (#[trigger] s.projection[i]) is Wildcard || translated(
                expr_of(s.projection[i]),
            ) is Ok,
    ensures
        select_plan(s) is Ok,
{
    lemma_from(s.from);
    lemma_projection_works(s.projection, 0);
}

proof fn lemma_projection_works(items: Seq<SqlItemView>, i: nat)
    requires
        i <= items.len(),
        forall|k: int|
            0 <= k < items.len() ==> (#[trigger] items[k]) is Wildcard || translated(
                expr_of(items[k]),
            ) is Ok,
    ensures
        projection_of(items, i) is Ok,
    decreases items.len() - i,
{
    if i < items.len() {
        lemma_projection_works(items, i + 1);
        assert(items[i as int] is Wildcard || translated(expr_of(items[i as int])) is Ok);
    }
}

} // verus!
