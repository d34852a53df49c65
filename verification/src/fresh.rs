//! What a plan meets first: a view that is out of date, or an error that keeps
//! it from getting there.

use vstd::prelude::*;

use crate::aggregate::{counts_every_row, expr_is_star};
use crate::catalog::{Catalog, CatalogView, Table};
use crate::error::{Budget, ErrorView, QueryError};
use crate::expr::{AggFunc, Expr, ExprView};
use crate::index::{catalog_fits, indexes_agree};
use crate::mentions::contains_subquery;
use crate::plan::{PlanNode, PlanView};
use crate::read::{answer, dispatch_read, link_fields, linked_fields, plain_predicate, readable};
use crate::scalars::{FloatOp, Order};
use crate::session::{answered, Holding, Session, SessionModel};
use crate::storage::{ViewDef, ViewDefView};
use crate::value::Value;
use crate::views::{
    child_tables, collect_child_tables, find_stale_table, find_stale_view, is_dirty,
    scanned_tables, stale_from, stale_view,
};
use crate::wording::Subject;

verus! {

/// A count of the rows that pass a filter over a scan, which looks at the table
/// before it looks at the predicate.
pub open spec fn counts_filtered_scan(
    function: AggFunc,
    argument: Option<ExprView>,
    input: PlanView,
) -> bool {
    function is Count && counts_every_row(argument) && (input matches PlanView::Filter {
        input: inner,
        ..
    } && *inner is SeqScan)
}

/// What is left of the budget once a plan is answered.
#[verifier::opaque]
pub open spec fn left_over(
    catalog: CatalogView,
    model: SessionModel,
    plan: PlanView,
    budget: Budget,
) -> Result<Budget, ErrorView> {
    match answer(catalog, model, plan, budget) {
        Err(error) => Err(error),
        Ok((_, rest)) => Ok(rest),
    }
}

/// The view out of date that running a plan meets first, or the error that it
/// meets before any: a subquery of a filter and the links of a nested projection
/// come before the input, and the left side of a join or a union before the
/// right.
pub open spec fn first_stale(
    views: Seq<ViewDefView>,
    catalog: CatalogView,
    model: SessionModel,
    plan: PlanView,
    budget: Budget,
) -> Result<Option<Seq<char>>, ErrorView>
    decreases plan,
{
    match stale_view(views, catalog, plan) {
        None => Ok(None),
        Some(view) => match plan {
            PlanView::Filter { input, predicate } => match plain_predicate(
                model.subqueries,
                predicate,
            ) {
                Err(error) => Err(error),
                Ok(_) => first_stale(views, catalog, model, *input, budget),
            },
            PlanView::NestedProject { input, fields } => match linked_fields(
                catalog,
                *input,
                fields,
            ) {
                Err(error) => Err(error),
                Ok(linked) => match stale_from(views, child_tables(linked, 0), 0) {
                    Some(child) => Ok(Some(child)),
                    None => first_stale(views, catalog, model, *input, budget),
                },
            },
            PlanView::NestedLoopJoin { left, right, .. } => match first_stale(
                views,
                catalog,
                model,
                *left,
                budget,
            ) {
                Ok(None) => match left_over(catalog, model, *left, budget) {
                    Err(error) => Err(error),
                    Ok(rest) => first_stale(views, catalog, model, *right, rest),
                },
                met => met,
            },
            PlanView::Union { left, right, .. } => match first_stale(
                views,
                catalog,
                model,
                *left,
                budget,
            ) {
                Ok(None) => match left_over(catalog, model, *left, budget) {
                    Err(error) => Err(error),
                    Ok(rest) => first_stale(views, catalog, model, *right, rest),
                },
                met => met,
            },
            PlanView::Aggregate { input, function, argument, .. } => if counts_filtered_scan(
                function,
                argument,
                *input,
            ) {
                Ok(Some(view))
            } else {
                first_stale(views, catalog, model, *input, budget)
            },
            PlanView::Project { input, .. } => first_stale(views, catalog, model, *input, budget),
            PlanView::Sort { input, .. } => first_stale(views, catalog, model, *input, budget),
            PlanView::Limit { input, .. } => first_stale(views, catalog, model, *input, budget),
            PlanView::Offset { input, .. } => first_stale(views, catalog, model, *input, budget),
            PlanView::Distinct { input } => first_stale(views, catalog, model, *input, budget),
            PlanView::Window { input, .. } => first_stale(views, catalog, model, *input, budget),
            PlanView::GroupBy { input, .. } => first_stale(views, catalog, model, *input, budget),
            _ => Ok(Some(view)),
        },
    }
}

/// Run a plan for what it leaves of the budget.
fn run_over<
    E: Fn(&Expr, &Vec<Value>, &Vec<String>) -> Value,
    C: Fn(&Value, &Value) -> Order,
    F: Fn(FloatOp) -> u64,
    T: Fn(Subject) -> Option<String>,
    J: Fn(&String) -> Result<Vec<u8>, String>,
    Q: Fn(&Expr, Option<(&Vec<Value>, &Vec<String>)>) -> Result<Expr, QueryError>,
    S: Fn(Holding) -> usize,
    B: Fn(Option<&Expr>, &Table) -> bool,
    P: Fn() -> Result<(), QueryError>,
>(
    catalog: &Catalog,
    session: &Session<E, C, F, T, J, Q, S, B, P>,
    plan: &PlanNode,
    budget: Budget,
) -> (left: Result<Budget, QueryError>)
    requires
        session.ok(),
        catalog_fits(catalog.deep_view()),
        indexes_agree(catalog.deep_view()),
        readable(plan.deep_view()),
    ensures
        ({
            let expected = left_over(
                catalog.deep_view(),
                session.model(),
                plan.deep_view(),
                budget,
            );
            match left {
                Ok(rest) => expected == Ok::<Budget, ErrorView>(rest),
                Err(error) => expected == Err::<Budget, ErrorView>(error.deep_view())
                    || call_ensures(session.poll, (), Err(error)),
            }
        }),
{
    reveal(left_over);
    let mut rest = budget;
    let _answered = dispatch_read(catalog, session, plan, &mut rest)?;
    Ok(rest)
}

/// The view out of date that running a plan meets first, or the error that it
/// meets before any.
pub fn find_first_stale<
    E: Fn(&Expr, &Vec<Value>, &Vec<String>) -> Value,
    C: Fn(&Value, &Value) -> Order,
    F: Fn(FloatOp) -> u64,
    T: Fn(Subject) -> Option<String>,
    J: Fn(&String) -> Result<Vec<u8>, String>,
    Q: Fn(&Expr, Option<(&Vec<Value>, &Vec<String>)>) -> Result<Expr, QueryError>,
    S: Fn(Holding) -> usize,
    B: Fn(Option<&Expr>, &Table) -> bool,
    P: Fn() -> Result<(), QueryError>,
>(
    views: &Vec<ViewDef>,
    catalog: &Catalog,
    session: &Session<E, C, F, T, J, Q, S, B, P>,
    plan: &PlanNode,
    budget: Budget,
) -> (found: Result<Option<String>, QueryError>)
    requires
        session.ok(),
        catalog_fits(catalog.deep_view()),
        indexes_agree(catalog.deep_view()),
        readable(plan.deep_view()),
    ensures
        answered(
            found,
            first_stale(
                views.deep_view(),
                catalog.deep_view(),
                session.model(),
                plan.deep_view(),
                budget,
            ),
            session.poll,
        ),
    decreases plan,
{
    let view = match find_stale_view(views, catalog, plan) {
        Some(view) => view,
        None => {
            let none: Option<String> = None;
            assert(none.deep_view() == None::<Seq<char>>);
            return Ok(none);
        },
    };
    match plan {
        PlanNode::Filter { input, predicate } => {
            if contains_subquery(predicate) {
                let _plain = session.subqueries.replace(predicate, None)?;
            }
            find_first_stale(views, catalog, session, input, budget)
        },
        PlanNode::NestedProject { input, fields } => {
            let children = match link_fields(catalog, input, fields)? {
                Some(linked) => collect_child_tables(&linked),
                None => collect_child_tables(fields),
            };
            match find_stale_table(views, &children) {
                Some(child) => Ok(Some(child)),
                None => find_first_stale(views, catalog, session, input, budget),
            }
        },
        PlanNode::NestedLoopJoin { left, right, .. } => match find_first_stale(
            views,
            catalog,
            session,
            left,
            budget,
        )? {
            Some(view) => Ok(Some(view)),
            None => {
                let rest = run_over(catalog, session, left, budget)?;
                find_first_stale(views, catalog, session, right, rest)
            },
        },
        PlanNode::Union { left, right, .. } => match find_first_stale(
            views,
            catalog,
            session,
            left,
            budget,
        )? {
            Some(view) => Ok(Some(view)),
            None => {
                let rest = run_over(catalog, session, left, budget)?;
                find_first_stale(views, catalog, session, right, rest)
            },
        },
        PlanNode::Aggregate { input, function, argument, .. } => {
            let every: bool = match argument {
                Some(expr) => expr_is_star(expr),
                None => true,
            };
            let below: &PlanNode = input;
            let filtered: bool = match below {
                PlanNode::Filter { input: inner, .. } => {
                    let scan: &PlanNode = inner;
                    assert(below.deep_view()->Filter_input == Box::new(scan.deep_view()));
                    matches!(scan, PlanNode::SeqScan { .. })
                },
                _ => false,
            };
            if matches!(function, AggFunc::Count) && every && filtered {
                Ok(Some(view))
            } else {
                find_first_stale(views, catalog, session, input, budget)
            }
        },
        PlanNode::Project { input, .. } => find_first_stale(views, catalog, session, input, budget),
        PlanNode::Sort { input, .. } => find_first_stale(views, catalog, session, input, budget),
        PlanNode::Limit { input, .. } => find_first_stale(views, catalog, session, input, budget),
        PlanNode::Offset { input, .. } => find_first_stale(views, catalog, session, input, budget),
        PlanNode::Distinct { input } => find_first_stale(views, catalog, session, input, budget),
        PlanNode::Window { input, .. } => find_first_stale(views, catalog, session, input, budget),
        PlanNode::GroupBy { input, .. } => find_first_stale(views, catalog, session, input, budget),
        _ => Ok(Some(view)),
    }
}

/// Of two lists of tables, one after the other, none is out of date exactly
/// where none of either is.
proof fn stale_in_two(views: Seq<ViewDefView>, first: Seq<Seq<char>>, second: Seq<Seq<char>>, i: int)
    requires
        0 <= i <= first.len(),
    ensures
        stale_from(views, first + second, i) is None <==> stale_from(views, first, i) is None
            && stale_from(views, second, 0) is None,
    decreases first.len() - i,
{
    let both = first + second;
    if i < first.len() {
        assert(both[i] == first[i]);
        stale_in_two(views, first, second, i + 1);
    } else {
        stale_shifted(views, first, second, 0);
    }
}

proof fn stale_shifted(views: Seq<ViewDefView>, first: Seq<Seq<char>>, second: Seq<Seq<char>>, i: int)
    requires
        0 <= i <= second.len(),
    ensures
        stale_from(views, first + second, first.len() + i) == stale_from(views, second, i),
    decreases second.len() - i,
{
    if i < second.len() {
        assert((first + second)[first.len() + i] == second[i]);
        stale_shifted(views, first, second, i + 1);
    }
}

/// A table that is found out of date is, and is one of the list.
proof fn stale_is_dirty(views: Seq<ViewDefView>, tables: Seq<Seq<char>>, i: int)
    requires
        0 <= i,
    ensures
        stale_from(views, tables, i) matches Some(view) ==> is_dirty(views, view),
    decreases tables.len() - i,
{
    if i < tables.len() {
        stale_is_dirty(views, tables, i + 1);
    }
}

/// Where a plan reads a view that is out of date, running it meets one, or an
/// error before that; and what it meets is out of date.
pub proof fn stale_views_are_met(
    views: Seq<ViewDefView>,
    catalog: CatalogView,
    model: SessionModel,
    plan: PlanView,
    budget: Budget,
)
    ensures
        first_stale(views, catalog, model, plan, budget) == Ok::<Option<Seq<char>>, ErrorView>(None)
            <==> stale_view(views, catalog, plan) is None,
        first_stale(views, catalog, model, plan, budget) matches Ok(Some(view)) ==> is_dirty(
            views,
            view,
        ),
    decreases plan,
{
    stale_is_dirty(views, scanned_tables(catalog, plan), 0);
    if stale_view(views, catalog, plan) is Some {
        match plan {
            PlanView::NestedProject { input, fields } => {
                stale_views_are_met(views, catalog, model, *input, budget);
                match linked_fields(catalog, *input, fields) {
                    Ok(linked) => {
                        stale_in_two(
                            views,
                            child_tables(linked, 0),
                            scanned_tables(catalog, *input),
                            0,
                        );
                        stale_is_dirty(views, child_tables(linked, 0), 0);
                    },
                    Err(_) => {},
                }
            },
            PlanView::NestedLoopJoin { left, right, .. } => {
                stale_in_two(
                    views,
                    scanned_tables(catalog, *left),
                    scanned_tables(catalog, *right),
                    0,
                );
                stale_views_are_met(views, catalog, model, *left, budget);
                match left_over(catalog, model, *left, budget) {
                    Ok(rest) => stale_views_are_met(views, catalog, model, *right, rest),
                    Err(_) => {},
                }
            },
            PlanView::Union { left, right, .. } => {
                stale_in_two(
                    views,
                    scanned_tables(catalog, *left),
                    scanned_tables(catalog, *right),
                    0,
                );
                stale_views_are_met(views, catalog, model, *left, budget);
                match left_over(catalog, model, *left, budget) {
                    Ok(rest) => stale_views_are_met(views, catalog, model, *right, rest),
                    Err(_) => {},
                }
            },
            PlanView::Filter { input, .. } => stale_views_are_met(
                views,
                catalog,
                model,
                *input,
                budget,
            ),
            PlanView::Aggregate { input, .. } => stale_views_are_met(
                views,
                catalog,
                model,
                *input,
                budget,
            ),
            PlanView::Project { input, .. } => stale_views_are_met(views, catalog, model, *input, budget),
            PlanView::Sort { input, .. } => stale_views_are_met(views, catalog, model, *input, budget),
            PlanView::Limit { input, .. } => stale_views_are_met(views, catalog, model, *input, budget),
            PlanView::Offset { input, .. } => stale_views_are_met(views, catalog, model, *input, budget),
            PlanView::Distinct { input } => stale_views_are_met(views, catalog, model, *input, budget),
            PlanView::Window { input, .. } => stale_views_are_met(views, catalog, model, *input, budget),
            PlanView::GroupBy { input, .. } => stale_views_are_met(views, catalog, model, *input, budget),
            _ => {},
        }
    }
}

} // verus!
