//! The answer of a plan that reads.

use vstd::prelude::*;

use crate::aggregate::{
    aggregate_provenance_of, aggregate_rows, aggregate_rows_of, aggregate_rows_with_provenance,
    no_budget,
};
use crate::catalog::{Catalog, CatalogView, Table};
use crate::coerce::prefixed;
use crate::error::{Budget, ErrorView, QueryError, QueryResult, ResultView};
use crate::expr::{sort_keys_view, AggFunc, AggregateMode, Expr, ExprView, SortKey, SortKeyView};
use crate::fast::{
    agg_single_col_fast, as_plain_scan, column_answer, leading_answer, led, literal_limit,
    plain_scan, project_filter_limit_fast, project_filter_sort_limit_fast, scanned,
};
use crate::group::{
    agg_exprs, agg_sources, check_reach, exec_group_by, exec_group_by_with_provenance,
    filter_rows, filtered, group_by_of, group_columns, group_provenance, group_row, group_rows,
    key_columns, key_exprs, keys_of, pick, rows_reach, short_row_error, without_budget,
    GroupAgg, GroupAggView, GroupInput, GroupKey, GroupKeyView, GroupProvenanceView,
};
use crate::index::{
    catalog_fits, execute_expression_index_plan, execute_index_scan, execute_range_scan,
    found_table_fits, index_scan_answer, indexes_agree, path_plan_answer, range_scan_answer,
    residual_answer, scan_rows, slice, table_rows, try_filter_index_residual_fast,
};
use crate::join::{execute_materialized_join, join_of, rows_match, JoinInput, JoinKind};
use crate::links::{
    field_unresolved, nested_fields_have_via_link, resolve_nested_via_links, resolved_from,
    scan_source_table, source_table,
};
use crate::lower::expression_index_fallback;
use crate::mentions::{contains_subquery, holds_subquery};
use crate::nested::{execute_nested_project, nested_scope, nesting_answer, NestedScope};
use crate::operators::{
    append_rows, describe_answer, explain, explain_answer, find_sort_columns, fresh_from,
    fresh_positions, introspect_describe, introspect_list_links, introspect_list_types,
    limit_and_offset_part, links_answer, name_fields, order_positions, ordered, project_answer,
    project_rows, rows_at, slice_is_picked, sliced_positions, sort_columns, types_answer,
    union_answer,
};
use crate::plan::{NestedProjectField, NestedProjectFieldView, PlanNode, PlanView, ProjectField};
use crate::provenance::{
    count_of, fallback_is_direct, indirect_scans, joins_turned,
    materialize_rows_with_provenance, scan_columns_of, scan_fallback, scan_names, slice_count,
    sourced, turned, with_budget,
};
use crate::scalars::{is_true, EvalModel, FloatOp, Order, ScalarModel};
use crate::seqs::{firsts, positions_of};
use crate::session::{
    answered, answered_within, hold_charge, Holding, HoldingView, Session, SessionModel,
    SubqueryModel,
};
use crate::sort::sort_charge;
use crate::value::{clone_row, Value, ValueView};
use crate::window::{execute_window, windows_of, WindowDef, WindowDefView};
use crate::wording::Subject;

verus! {

/// A plan that only reads, and in which no join keeps the unmatched rows of its
/// right side.
pub open spec fn readable(plan: PlanView) -> bool
    decreases plan,
{
    match plan {
        PlanView::SeqScan { .. } => true,
        PlanView::AliasScan { .. } => true,
        PlanView::IndexScan { .. } => true,
        PlanView::RangeScan { .. } => true,
        PlanView::ExprIndexScan { .. } => true,
        PlanView::ExprRangeScan { .. } => true,
        PlanView::OrderedExprIndexScan { .. } => true,
        PlanView::Filter { input, .. } => readable(*input),
        PlanView::Project { input, .. } => readable(*input),
        PlanView::Limit { input, .. } => readable(*input),
        PlanView::Offset { input, .. } => readable(*input),
        PlanView::Distinct { input } => readable(*input),
        PlanView::NestedProject { input, .. } => readable(*input),
        PlanView::Sort { input, .. } => readable(*input),
        PlanView::Window { input, .. } => readable(*input),
        PlanView::Aggregate { input, provenance_alias, .. } => if provenance_alias is Some {
            turned(*input)
        } else {
            readable(*input)
        },
        PlanView::GroupBy { input, aggregates, .. } => if traces(aggregates, 0) {
            turned(*input)
        } else {
            readable(*input)
        },
        PlanView::NestedLoopJoin { left, right, kind, .. } => readable(*left)
            && readable(*right) && !(kind is RightOuter),
        PlanView::Union { left, right, .. } => readable(*left) && readable(*right),
        PlanView::Explain { .. } => true,
        PlanView::ListTypes => true,
        PlanView::ListLinks => true,
        PlanView::Describe { .. } => true,
        _ => false,
    }
}

/// Some aggregate from `i` on counts each source row once.
pub open spec fn traces(aggregates: Seq<GroupAggView>, i: int) -> bool
    decreases aggregates.len() - i,
{
    0 <= i < aggregates.len() && (aggregates[i].provenance_alias is Some || traces(
        aggregates,
        i + 1,
    ))
}

/// Whether a plan only reads, and no join in it keeps the unmatched rows of its
/// right side.
pub fn is_readable(plan: &PlanNode) -> (holds: bool)
    ensures
        holds == readable(plan.deep_view()),
    decreases plan,
{
    match plan {
        PlanNode::SeqScan { .. } => true,
        PlanNode::AliasScan { .. } => true,
        PlanNode::IndexScan { .. } => true,
        PlanNode::RangeScan { .. } => true,
        PlanNode::ExprIndexScan { .. } => true,
        PlanNode::ExprRangeScan { .. } => true,
        PlanNode::OrderedExprIndexScan { .. } => true,
        PlanNode::Filter { input, .. } => is_readable(input),
        PlanNode::Project { input, .. } => is_readable(input),
        PlanNode::Limit { input, .. } => is_readable(input),
        PlanNode::Offset { input, .. } => is_readable(input),
        PlanNode::Distinct { input } => is_readable(input),
        PlanNode::NestedProject { input, .. } => is_readable(input),
        PlanNode::Sort { input, .. } => is_readable(input),
        PlanNode::Window { input, .. } => is_readable(input),
        PlanNode::Aggregate { input, provenance_alias, .. } => if provenance_alias.is_some() {
            joins_turned(input)
        } else {
            is_readable(input)
        },
        PlanNode::GroupBy { input, aggregates, .. } => if any_traces(aggregates) {
            joins_turned(input)
        } else {
            is_readable(input)
        },
        PlanNode::NestedLoopJoin { left, right, kind, .. } => is_readable(left)
            && is_readable(right) && !matches!(kind, JoinKind::RightOuter),
        PlanNode::Union { left, right, .. } => is_readable(left) && is_readable(right),
        PlanNode::Explain { .. } => true,
        PlanNode::ListTypes => true,
        PlanNode::ListLinks => true,
        PlanNode::Describe { .. } => true,
        _ => false,
    }
}

/// Whether some aggregate counts each source row once.
pub fn any_traces(aggregates: &Vec<GroupAgg>) -> (any: bool)
    ensures
        any == traces(aggregates.deep_view(), 0),
{
    let ghost views = aggregates.deep_view();
    let mut i: usize = 0;
    while i < aggregates.len()
        invariant
            i <= aggregates.len(),
            views == aggregates.deep_view(),
            traces(views, 0) == traces(views, i as int),
        decreases aggregates.len() - i,
    {
        assert(views[i as int] == aggregates[i as int].deep_view());
        if aggregates[i].provenance_alias.is_some() {
            return true;
        }
        i = i + 1;
    }
    false
}

/// What a full scan answers.
pub open spec fn scan_answer(catalog: CatalogView, table: Seq<char>, alias: Option<Seq<char>>) -> Result<
    ResultView,
    ErrorView,
> {
    match catalog.table(table) {
        None => Err(ErrorView::TableNotFound(table)),
        Some(found) => Ok(
            ResultView::Rows { columns: scan_names(found, alias), rows: table_rows(found) },
        ),
    }
}

/// The rows from `i` on for which the predicate, with its subqueries replaced
/// for that row, holds.
pub open spec fn correlated_from(
    eval: EvalModel,
    subqueries: SubqueryModel,
    predicate: ExprView,
    rows: Seq<Seq<ValueView>>,
    columns: Seq<Seq<char>>,
    i: int,
) -> Result<Seq<Seq<ValueView>>, ErrorView>
    decreases rows.len() - i,
{
    if i < 0 || i >= rows.len() {
        Ok(Seq::empty())
    } else {
        match subqueries(predicate, Some((rows[i], columns))) {
            Err(error) => Err(error),
            Ok(plain) => {
                let rest = correlated_from(eval, subqueries, predicate, rows, columns, i + 1);
                if is_true(eval(plain, rows[i], columns)) {
                    prefixed(seq![rows[i]], rest)
                } else {
                    rest
                }
            },
        }
    }
}

/// What a filter answers over its input. A predicate that still holds
/// subqueries depends on the row.
pub open spec fn filter_answer(model: SessionModel, predicate: ExprView, input: ResultView) -> Result<
    ResultView,
    ErrorView,
> {
    match input {
        ResultView::Rows { columns, rows } => if holds_subquery(predicate) {
            match correlated_from(
                model.scalars.eval,
                model.subqueries,
                predicate,
                rows,
                columns,
                0,
            ) {
                Ok(kept) => Ok(ResultView::Rows { columns, rows: kept }),
                Err(error) => Err(error),
            }
        } else {
            Ok(
                ResultView::Rows {
                    columns,
                    rows: filtered(model.scalars.eval, predicate, rows, columns),
                },
            )
        },
        _ => Err(ErrorView::Execution("filter requires row input"@)),
    }
}

/// The predicate of a filter, with the subqueries replaced that need no row.
pub open spec fn plain_predicate(subqueries: SubqueryModel, predicate: ExprView) -> Result<
    ExprView,
    ErrorView,
> {
    if holds_subquery(predicate) {
        subqueries(predicate, None)
    } else {
        Ok(predicate)
    }
}

/// What a sort answers: its input in the order of the keys, equal rows as they
/// came. A row that ends before the column of a key is an error.
pub open spec fn sort_answer(
    model: SessionModel,
    keys: Seq<SortKeyView>,
    input: ResultView,
    budget: Budget,
) -> Result<(ResultView, Budget), ErrorView> {
    match input {
        ResultView::Rows { columns, rows } => if rows.len() > model.limits.sort_rows {
            Err(ErrorView::SortLimitExceeded)
        } else {
            match hold_charge(model.sizes, HoldingView::Rows(rows), budget) {
                Err(error) => Err(error),
                Ok(left) => match sort_columns(keys, columns, 0) {
                    Err(error) => Err(error),
                    Ok(ats) => if !rows_reach(rows, ats) {
                        Err(short_row_error())
                    } else {
                        match sort_charge(left, rows.len() as int) {
                            Err(error) => Err(error),
                            Ok(rest) => Ok(
                                (
                                    ResultView::Rows {
                                        columns,
                                        rows: pick(
                                            rows,
                                            ordered(model.scalars, keys, ats, rows, columns),
                                        ),
                                    },
                                    rest,
                                ),
                            ),
                        }
                    },
                },
            }
        },
        _ => Err(ErrorView::Execution("sort requires row input"@)),
    }
}

/// What a limit answers: the first rows.
pub open spec fn limit_answer(count: ExprView, input: ResultView) -> Result<ResultView, ErrorView> {
    match count_of(count) {
        None => Err(ErrorView::Execution("limit must be integer literal"@)),
        Some(n) => match input {
            ResultView::Rows { columns, rows } => Ok(
                ResultView::Rows { columns, rows: slice(rows, 0, n) },
            ),
            _ => Err(ErrorView::Execution("limit requires row input"@)),
        },
    }
}

/// What an offset answers: all but the first rows.
pub open spec fn offset_answer(count: ExprView, input: ResultView) -> Result<ResultView, ErrorView> {
    match count_of(count) {
        None => Err(ErrorView::Execution("offset must be integer literal"@)),
        Some(n) => match input {
            ResultView::Rows { columns, rows } => Ok(
                ResultView::Rows { columns, rows: slice(rows, n, rows.len() as int) },
            ),
            _ => Err(ErrorView::Execution("offset requires row input"@)),
        },
    }
}

/// A limit and an offset of the same count, over the same rows, part them: both
/// keep the columns, and the rows of the one followed by those of the other are
/// all the rows.
pub proof fn limit_and_offset_part_rows(
    count: ExprView,
    columns: Seq<Seq<char>>,
    rows: Seq<Seq<ValueView>>,
)
    requires
        count_of(count) is Some,
    ensures
        ({
            let input = ResultView::Rows { columns, rows };
            let n = count_of(count)->0;
            limit_answer(count, input) matches Ok(ResultView::Rows { columns: a, rows: first })
                && offset_answer(count, input) matches Ok(
                ResultView::Rows { columns: b, rows: rest },
            ) && a == columns && b == columns && first + rest == rows && first.len() == (if n
                < rows.len() {
                n
            } else {
                rows.len() as int
            })
        }),
{
    limit_and_offset_part(rows, count_of(count)->0);
}

/// What a scalar aggregate answers over its input.
pub open spec fn aggregate_answer(
    model: ScalarModel,
    function: AggFunc,
    argument: Option<ExprView>,
    input: ResultView,
) -> Result<ResultView, ErrorView> {
    match input {
        ResultView::Rows { columns, rows } => aggregate_rows_of(
            model,
            function,
            argument,
            columns,
            rows,
        ),
        _ => Err(ErrorView::Execution("aggregate requires row input"@)),
    }
}

/// What grouping answers over its input.
pub open spec fn group_answer(
    model: SessionModel,
    keys: Seq<GroupKeyView>,
    aggregates: Seq<GroupAggView>,
    having: Option<ExprView>,
    input: ResultView,
    budget: Budget,
) -> Result<(ResultView, Budget), ErrorView> {
    match input {
        ResultView::Rows { columns, rows } => match hold_charge(
            model.sizes,
            HoldingView::Rows(rows),
            budget,
        ) {
            Err(error) => Err(error),
            Ok(left) => with_budget(
                without_budget(
                    group_by_of(
                        model.scalars,
                        columns,
                        rows,
                        None,
                        keys,
                        aggregates,
                        having,
                        no_budget(),
                    ),
                ),
                left,
            ),
        },
        _ => Err(ErrorView::Execution("group by requires row input"@)),
    }
}

/// What distinct rows are of an input; what is no rows passes as it is.
pub open spec fn distinct_answer(input: ResultView) -> ResultView {
    match input {
        ResultView::Rows { columns, rows } => ResultView::Rows {
            columns,
            rows: pick(rows, fresh_from(rows, 0)),
        },
        _ => input,
    }
}

/// What windows answer over their input.
pub open spec fn window_answer(
    model: ScalarModel,
    windows: Seq<WindowDefView>,
    input: ResultView,
    budget: Budget,
) -> Result<(ResultView, Budget), ErrorView> {
    match input {
        ResultView::Rows { columns, rows } => match windows_of(
            model,
            windows,
            windows.len() as int,
            columns,
            rows,
            budget,
        ) {
            Err(error) => Err(error),
            Ok((columns, rows, left)) => Ok((ResultView::Rows { columns, rows }, left)),
        },
        _ => Err(ErrorView::Execution("window function requires row input"@)),
    }
}

/// What a join of two results answers; both sides are counted first.
pub open spec fn join_answer(
    model: SessionModel,
    on: Option<ExprView>,
    kind: JoinKind,
    left: ResultView,
    right: ResultView,
    budget: Budget,
) -> Result<(ResultView, Budget), ErrorView> {
    match left {
        ResultView::Rows { columns: left_columns, rows: left_rows } => match right {
            ResultView::Rows { columns: right_columns, rows: right_rows } => match hold_charge(
                model.sizes,
                HoldingView::Rows(left_rows),
                budget,
            ) {
                Err(error) => Err(error),
                Ok(rest) => match hold_charge(model.sizes, HoldingView::Rows(right_rows), rest) {
                    Err(error) => Err(error),
                    Ok(rest) => with_budget(
                        join_of(
                            JoinInput {
                                left_columns,
                                left_rows,
                                right_columns,
                                right_rows,
                                on,
                                kind,
                            },
                            model.scalars.eval,
                            model.limits.join_pairs,
                            model.limits.join_rows,
                        ),
                        rest,
                    ),
                },
            },
            _ => Err(ErrorView::Execution("join right side must produce rows"@)),
        },
        _ => Err(ErrorView::Execution("join left side must produce rows"@)),
    }
}

/// Some field goes over a link that is not resolved.
pub open spec fn has_link(fields: Seq<NestedProjectFieldView>) -> bool {
    exists|i: int| 0 <= i < fields.len() && field_unresolved(#[trigger] fields[i])
}

/// The fields of a nesting projection with their links resolved: the links
/// start from the table that the input reads.
pub open spec fn linked_fields(
    catalog: CatalogView,
    input: PlanView,
    fields: Seq<NestedProjectFieldView>,
) -> Result<Seq<NestedProjectFieldView>, ErrorView> {
    if has_link(fields) {
        match source_table(input) {
            None => Err(
                ErrorView::Execution(
                    "link traversal requires a plain aliased table scan as its parent"@,
                ),
            ),
            Some(outer) => resolved_from(catalog, fields, 0, outer),
        }
    } else {
        Ok(fields)
    }
}

/// What nested projections read.
pub open spec fn reading_scope(catalog: CatalogView, model: SessionModel) -> NestedScope {
    NestedScope {
        catalog,
        eval: model.scalars.eval,
        order: model.scalars.order,
        words: model.words,
        sizes: model.sizes,
    }
}

/// A step that is tried first: its answer where it gives one.
pub open spec fn tried(
    first: Result<Option<ResultView>, ErrorView>,
    budget: Budget,
    otherwise: Result<(ResultView, Budget), ErrorView>,
) -> Result<(ResultView, Budget), ErrorView> {
    match first {
        Err(error) => Err(error),
        Ok(Some(result)) => Ok((result, budget)),
        Ok(None) => otherwise,
    }
}

/// A step that is tried first: its answer, with the budget that it leaves, where
/// it gives one.
pub open spec fn preferred(
    first: Result<Option<(ResultView, Budget)>, ErrorView>,
    otherwise: Result<(ResultView, Budget), ErrorView>,
) -> Result<(ResultView, Budget), ErrorView> {
    match first {
        Err(error) => Err(error),
        Ok(Some(result)) => Ok(result),
        Ok(None) => otherwise,
    }
}

/// A scan of an index on a JSON path.
pub open spec fn is_path_scan(plan: PlanView) -> bool {
    plan is ExprIndexScan || plan is ExprRangeScan || plan is OrderedExprIndexScan
}

/// What a plan that reads answers, and the budget that it leaves.
pub open spec fn answer(
    catalog: CatalogView,
    model: SessionModel,
    plan: PlanView,
    budget: Budget,
) -> Result<(ResultView, Budget), ErrorView>
    decreases indirect_scans(plan), plan, 1nat,
{
    let eval = model.scalars.eval;
    let order = model.scalars.order;
    match plan {
        PlanView::SeqScan { table } => with_budget(scan_answer(catalog, table, None), budget),
        PlanView::AliasScan { table, alias } => with_budget(
            scan_answer(catalog, table, Some(alias)),
            budget,
        ),
        PlanView::IndexScan { table, column, key } => with_budget(
            index_scan_answer(catalog, eval, table, column, key),
            budget,
        ),
        PlanView::RangeScan { table, column, start, end } => with_budget(
            range_scan_answer(catalog, eval, order, table, column, start, end),
            budget,
        ),
        PlanView::ExprIndexScan { .. } => path_answer(catalog, model, plan, budget),
        PlanView::ExprRangeScan { .. } => path_answer(catalog, model, plan, budget),
        PlanView::OrderedExprIndexScan { .. } => path_answer(catalog, model, plan, budget),
        PlanView::Filter { input, predicate } => match plain_predicate(
            model.subqueries,
            predicate,
        ) {
            Err(error) => Err(error),
            Ok(plain) => tried(
                residual_answer(catalog, eval, order, *input, plain),
                budget,
                match answer(catalog, model, *input, budget) {
                    Err(error) => Err(error),
                    Ok((got, left)) => with_budget(filter_answer(model, plain, got), left),
                },
            ),
        },
        PlanView::Project { input, fields } => tried(
            path_plan_answer(catalog, eval, order, *input, Some(fields)),
            budget,
            preferred(
                leading_answer(catalog, model.scalars, model.compiles, *input, fields, budget),
                match answer(catalog, model, *input, budget) {
                    Err(error) => Err(error),
                    Ok((got, left)) => with_budget(project_answer(eval, fields, got), left),
                },
            ),
        ),
        PlanView::NestedProject { input, fields } => match linked_fields(catalog, *input, fields) {
            Err(error) => Err(error),
            Ok(fields) => match answer(catalog, model, *input, budget) {
                Err(error) => Err(error),
                Ok((got, left)) => nesting_answer(
                    reading_scope(catalog, model),
                    model.documents,
                    got,
                    fields,
                    left,
                ),
            },
        },
        PlanView::Sort { input, keys } => match answer(catalog, model, *input, budget) {
            Err(error) => Err(error),
            Ok((got, left)) => sort_answer(model, keys, got, left),
        },
        PlanView::Limit { input, count } => match answer(catalog, model, *input, budget) {
            Err(error) => Err(error),
            Ok((got, left)) => with_budget(limit_answer(count, got), left),
        },
        PlanView::Offset { input, count } => match answer(catalog, model, *input, budget) {
            Err(error) => Err(error),
            Ok((got, left)) => with_budget(offset_answer(count, got), left),
        },
        PlanView::Aggregate { input, function, argument, mode: _, provenance_alias } => match provenance_alias {
            Some(alias) => match sourced(catalog, model, *input, budget) {
                Err(error) => Err(error),
                Ok((got, left)) => match hold_charge(
                    model.sizes,
                    HoldingView::Rows(got.rows),
                    left,
                ) {
                    Err(error) => Err(error),
                    Ok(rest) => aggregate_provenance_of(
                        model.scalars,
                        function,
                        argument,
                        got,
                        alias,
                        rest,
                    ),
                },
            },
            None => match column_answer(
                catalog,
                model.scalars,
                model.compiles,
                *input,
                function,
                argument,
            ) {
                Some(result) => with_budget(result, budget),
                None => match answer(catalog, model, *input, budget) {
                    Err(error) => Err(error),
                    Ok((got, left)) => with_budget(
                        aggregate_answer(model.scalars, function, argument, got),
                        left,
                    ),
                },
            },
        },
        PlanView::GroupBy { input, keys, aggregates, having } => if traces(aggregates, 0) {
            match sourced(catalog, model, *input, budget) {
                Err(error) => Err(error),
                Ok((got, left)) => match hold_charge(
                    model.sizes,
                    HoldingView::Rows(got.rows),
                    left,
                ) {
                    Err(error) => Err(error),
                    Ok(rest) => group_by_of(
                        model.scalars,
                        got.columns,
                        got.rows,
                        Some(group_provenance(got)),
                        keys,
                        aggregates,
                        having,
                        rest,
                    ),
                },
            }
        } else {
            match answer(catalog, model, *input, budget) {
                Err(error) => Err(error),
                Ok((got, left)) => group_answer(model, keys, aggregates, having, got, left),
            }
        },
        PlanView::Distinct { input } => match answer(catalog, model, *input, budget) {
            Err(error) => Err(error),
            Ok((got, left)) => Ok((distinct_answer(got), left)),
        },
        PlanView::Window { input, windows } => match answer(catalog, model, *input, budget) {
            Err(error) => Err(error),
            Ok((got, left)) => window_answer(model.scalars, windows, got, left),
        },
        PlanView::NestedLoopJoin { left, right, on, kind } => match answer(
            catalog,
            model,
            *left,
            budget,
        ) {
            Err(error) => Err(error),
            Ok((first, rest)) => match answer(catalog, model, *right, rest) {
                Err(error) => Err(error),
                Ok((second, rest)) => join_answer(model, on, kind, first, second, rest),
            },
        },
        PlanView::Union { left, right, all } => match answer(catalog, model, *left, budget) {
            Err(error) => Err(error),
            Ok((first, rest)) => match answer(catalog, model, *right, rest) {
                Err(error) => Err(error),
                Ok((second, rest)) => with_budget(union_answer(first, second, all), rest),
            },
        },
        PlanView::Explain { input } => Ok((explain_answer(catalog, model.words, *input), budget)),
        PlanView::ListTypes => Ok((types_answer(catalog), budget)),
        PlanView::ListLinks => Ok((links_answer(catalog), budget)),
        PlanView::Describe { table } => with_budget(describe_answer(catalog, table), budget),
        _ => Err(unreadable_error()),
    }
}

/// A limit and an offset of the same count, over the same plan and from the same
/// budget, part its rows: both keep the columns, the rows of the one followed by
/// those of the other are all the rows, and both leave the same budget.
pub proof fn limit_and_offset_part_answers(
    catalog: CatalogView,
    model: SessionModel,
    input: PlanView,
    count: ExprView,
    budget: Budget,
)
    requires
        count_of(count) is Some,
        answer(catalog, model, input, budget) matches Ok((result, _)) && result is Rows,
    ensures
        ({
            let limited = PlanView::Limit { input: Box::new(input), count };
            let skipped = PlanView::Offset { input: Box::new(input), count };
            let n = count_of(count)->0;
            &&& answer(catalog, model, input, budget) matches Ok(
                (ResultView::Rows { columns, rows }, left),
            )
            &&& answer(catalog, model, limited, budget) matches Ok(
                (ResultView::Rows { columns: a, rows: first }, after_limit),
            )
            &&& answer(catalog, model, skipped, budget) matches Ok(
                (ResultView::Rows { columns: b, rows: rest }, after_offset),
            )
            &&& a == columns && b == columns
            &&& first + rest == rows
            &&& first.len() == (if n < rows.len() {
                n
            } else {
                rows.len() as int
            })
            &&& after_limit == left && after_offset == left
        }),
{
    match answer(catalog, model, input, budget) {
        Ok((ResultView::Rows { columns, rows }, _)) => {
            limit_and_offset_part_rows(count, columns, rows);
        },
        _ => {},
    }
}

/// What a scan of an index on a JSON path answers: without the index, what the
/// plan that stands in for it answers.
pub open spec fn path_answer(
    catalog: CatalogView,
    model: SessionModel,
    plan: PlanView,
    budget: Budget,
) -> Result<(ResultView, Budget), ErrorView>
    decreases indirect_scans(plan), plan, 0nat,
    when is_path_scan(plan)
{
    proof {
        fallback_is_direct(plan);
    }
    tried(
        path_plan_answer(catalog, model.scalars.eval, model.scalars.order, plan, None),
        budget,
        answer(catalog, model, scan_fallback(plan), budget),
    )
}

/// The error for a plan that writes where one is to be read.
pub open spec fn unreadable_error() -> ErrorView {
    ErrorView::Execution("this statement cannot be read from"@)
}

proof fn filtered_fit(
    eval: EvalModel,
    predicate: ExprView,
    rows: Seq<Seq<ValueView>>,
    columns: Seq<Seq<char>>,
    names: Seq<Seq<char>>,
)
    requires
        rows_match(rows, names),
    ensures
        rows_match(filtered(eval, predicate, rows, columns), names),
    decreases rows.len(),
{
    if rows.len() > 0 {
        let less = rows.drop_last();
        assert forall|r: int| 0 <= r < less.len() implies (#[trigger] less[r]).len()
            == names.len() by {
            assert(less[r] == rows[r]);
        }
        filtered_fit(eval, predicate, less, columns, names);
        assert(rows.last() == rows[rows.len() - 1]);
    }
}

proof fn group_row_fits(
    model: ScalarModel,
    input: GroupInput,
    key: Seq<ValueView>,
    members: Seq<int>,
    n: int,
    budget: Budget,
)
    requires
        0 <= n,
    ensures
        group_row(model, input, key, members, n, budget) matches Ok((row, _)) ==> row.len()
            == key.len() + n,
    decreases n,
{
    if n > 0 {
        group_row_fits(model, input, key, members, n - 1, budget);
    }
}

proof fn firsts_are_members<A>(s: Seq<A>)
    ensures
        forall|i: int| 0 <= i < firsts(s).len() ==> s.contains(#[trigger] firsts(s)[i]),
    decreases s.len(),
{
    if s.len() > 0 {
        let less = s.drop_last();
        firsts_are_members(less);
        assert forall|i: int| 0 <= i < firsts(s).len() implies s.contains(
            #[trigger] firsts(s)[i],
        ) by {
            if i < firsts(less).len() {
                assert(firsts(s)[i] == firsts(less)[i]);
                let j = choose|j: int| 0 <= j < less.len() && less[j] == firsts(less)[i];
                assert(s[j] == firsts(s)[i]);
            } else {
                assert(s[s.len() - 1] == firsts(s)[i]);
            }
        }
    }
}

proof fn group_rows_fit(
    model: ScalarModel,
    input: GroupInput,
    keys: Seq<Seq<ValueView>>,
    width: int,
    n: int,
    budget: Budget,
)
    requires
        0 <= n <= firsts(keys).len(),
        forall|k: int| 0 <= k < keys.len() ==> (#[trigger] keys[k]).len() == width,
    ensures
        group_rows(model, input, keys, n, budget) matches Ok((rows, _)) ==> forall|r: int|
            0 <= r < rows.len() ==> (#[trigger] rows[r]).len() == width + input.aggregates.len(),
    decreases n,
{
    if n > 0 {
        group_rows_fit(model, input, keys, width, n - 1, budget);
        firsts_are_members(keys);
        let key = firsts(keys)[n - 1];
        assert(keys.contains(key));
        let j = choose|j: int| 0 <= j < keys.len() && keys[j] == key;
        assert(keys[j].len() == width);
        match group_rows(model, input, keys, n - 1, budget) {
            Ok((rows, held)) => {
                group_row_fits(
                    model,
                    input,
                    key,
                    positions_of(keys, key),
                    input.aggregates.len() as int,
                    held,
                );
            },
            Err(_) => {},
        }
    }
}

/// Grouped rows have a value for each key and each aggregate.
pub proof fn groups_fit(
    model: ScalarModel,
    columns: Seq<Seq<char>>,
    rows: Seq<Seq<ValueView>>,
    provenance: Option<GroupProvenanceView>,
    keys: Seq<GroupKeyView>,
    aggregates: Seq<GroupAggView>,
    having: Option<ExprView>,
    budget: Budget,
)
    ensures
        group_by_of(
            model,
            columns,
            rows,
            provenance,
            keys,
            aggregates,
            having,
            budget,
        ) matches Ok((result, _)) ==> result is Rows && result->columns.len() == keys.len()
            + aggregates.len() && rows_match(result->rows, result->columns),
{
    match group_by_of(model, columns, rows, provenance, keys, aggregates, having, budget) {
        Ok((result, _)) => {
            let key_ats = key_columns(key_exprs(keys), columns)->Ok_0;
            let agg_ats = key_columns(
                agg_exprs(aggregates),
                columns,
            )->Ok_0;
            let sources = agg_sources(aggregates, provenance)->Ok_0;
            let input = GroupInput {
                columns,
                rows,
                aggregates,
                agg_columns: agg_ats,
                agg_sources: sources,
                provenance,
            };
            let row_keys = keys_of(model.eval, key_exprs(keys), key_ats, rows, columns);
            let names = group_columns(keys, aggregates);
            let n = firsts(row_keys).len() as int;
            group_rows_fit(model, input, row_keys, keys.len() as int, n, budget);
            let out = group_rows(model, input, row_keys, n, budget)->Ok_0.0;
            assert(rows_match(out, names));
            match having {
                Some(h) => {
                    filtered_fit(model.eval, h, out, names, names);
                },
                None => {},
            }
        },
        Err(_) => {},
    }
}

fn filter_result<
    E: Fn(&Expr, &Vec<Value>, &Vec<String>) -> Value,
    C: Fn(&Value, &Value) -> Order,
    F: Fn(FloatOp) -> u64,
    T: Fn(Subject) -> Option<String>,
    J: Fn(&String) -> Result<Vec<u8>, String>,
    Q: Fn(&Expr, Option<(&Vec<Value>, &Vec<String>)>) -> Result<Expr, QueryError>,
    S: Fn(Holding) -> usize,
    B: Fn(Option<&Expr>, &Table) -> bool,
    P: Fn() -> Result<(), QueryError>,
>(session: &Session<E, C, F, T, J, Q, S, B, P>, predicate: &Expr, input: QueryResult) -> (result:
    Result<QueryResult, QueryError>)
    requires
        session.ok(),
    ensures
        answered(
            result,
            filter_answer(session.model(), predicate.deep_view(), input.deep_view()),
            session.poll,
        ),
{
    let (columns, rows) = match input {
        QueryResult::Rows { columns, rows } => (columns, rows),
        _ => {
            return Err(QueryError::execution("filter requires row input"));
        },
    };
    if !contains_subquery(predicate) {
        let kept = filter_rows(&session.scalars, predicate, rows, &columns, &session.poll)?;
        return Ok(QueryResult::Rows { columns, rows: kept });
    }
    let kept = correlated_rows(session, predicate, &rows, &columns)?;
    Ok(QueryResult::Rows { columns, rows: kept })
}

fn correlated_rows<
    E: Fn(&Expr, &Vec<Value>, &Vec<String>) -> Value,
    C: Fn(&Value, &Value) -> Order,
    F: Fn(FloatOp) -> u64,
    T: Fn(Subject) -> Option<String>,
    J: Fn(&String) -> Result<Vec<u8>, String>,
    Q: Fn(&Expr, Option<(&Vec<Value>, &Vec<String>)>) -> Result<Expr, QueryError>,
    S: Fn(Holding) -> usize,
    B: Fn(Option<&Expr>, &Table) -> bool,
    P: Fn() -> Result<(), QueryError>,
>(
    session: &Session<E, C, F, T, J, Q, S, B, P>,
    predicate: &Expr,
    rows: &Vec<Vec<Value>>,
    columns: &Vec<String>,
) -> (kept: Result<Vec<Vec<Value>>, QueryError>)
    requires
        session.ok(),
    ensures
        answered(
            kept,
            correlated_from(
                session.scalars.values(),
                session.subqueries.model@,
                predicate.deep_view(),
                rows.deep_view(),
                columns.deep_view(),
                0,
            ),
            session.poll,
        ),
{
    let ghost eval = session.scalars.values();
    let ghost replace = session.subqueries.model@;
    let ghost view = predicate.deep_view();
    let ghost all = rows.deep_view();
    let ghost cols = columns.deep_view();
    let ghost goal = correlated_from(eval, replace, view, all, cols, 0);
    let mut kept: Vec<Vec<Value>> = Vec::new();
    let mut i: usize = 0;
    assert(prefixed(kept.deep_view(), goal) == goal) by {
        assert(goal matches Ok(rest) ==> kept.deep_view() + rest =~= rest);
    }
    while i < rows.len()
        invariant
            session.ok(),
            i <= rows.len(),
            eval == session.scalars.values(),
            replace == session.subqueries.model@,
            view == predicate.deep_view(),
            all == rows.deep_view(),
            cols == columns.deep_view(),
            goal == correlated_from(eval, replace, view, all, cols, 0),
            goal == prefixed(
                kept.deep_view(),
                correlated_from(eval, replace, view, all, cols, i as int),
            ),
        decreases rows.len() - i,
    {
        match (session.poll)() {
            Ok(_) => {},
            Err(error) => {
                return Err(error);
            },
        }
        assert(all[i as int] == rows[i as int].deep_view());
        let plain = session.subqueries.replace(predicate, Some((&rows[i], columns)))?;
        if session.scalars.eval_predicate(&plain, &rows[i], columns) {
            let ghost before = kept.deep_view();
            let row = clone_row(&rows[i]);
            let ghost shown = row.deep_view();
            kept.push(row);
            assert(kept.deep_view() =~= before.push(shown));
            assert(correlated_from(eval, replace, view, all, cols, i + 1) matches Ok(rest)
                ==> before + (seq![shown] + rest) =~= before.push(shown) + rest);
        }
        i = i + 1;
    }
    assert(kept.deep_view() + Seq::<Seq<ValueView>>::empty() =~= kept.deep_view());
    Ok(kept)
}

fn sort_result<
    E: Fn(&Expr, &Vec<Value>, &Vec<String>) -> Value,
    C: Fn(&Value, &Value) -> Order,
    F: Fn(FloatOp) -> u64,
    T: Fn(Subject) -> Option<String>,
    J: Fn(&String) -> Result<Vec<u8>, String>,
    Q: Fn(&Expr, Option<(&Vec<Value>, &Vec<String>)>) -> Result<Expr, QueryError>,
    S: Fn(Holding) -> usize,
    B: Fn(Option<&Expr>, &Table) -> bool,
    P: Fn() -> Result<(), QueryError>,
>(
    session: &Session<E, C, F, T, J, Q, S, B, P>,
    keys: &Vec<SortKey>,
    input: QueryResult,
    budget: &mut Budget,
) -> (result: Result<QueryResult, QueryError>)
    requires
        session.ok(),
    ensures
        answered_within(
            result,
            *final(budget),
            sort_answer(session.model(), sort_keys_view(keys@), input.deep_view(), *old(budget)),
            session.poll,
        ),
{
    let (columns, rows) = match input {
        QueryResult::Rows { columns, rows } => (columns, rows),
        _ => {
            return Err(QueryError::execution("sort requires row input"));
        },
    };
    let ghost all = rows.deep_view();
    assert(all.len() == rows.len());
    if rows.len() > session.limits.sort_rows {
        return Err(QueryError::SortLimitExceeded);
    }
    session.sizes.charge(Holding::Rows(&rows), budget)?;
    let ats = find_sort_columns(keys, &columns)?;
    check_reach(&rows, &ats)?;
    let at = order_positions(
        &session.scalars,
        keys,
        &ats,
        &rows,
        &columns,
        budget,
        &session.poll,
    )?;
    let sorted = rows_at(&rows, &at);
    Ok(QueryResult::Rows { columns, rows: sorted })
}

fn limit_result<P: Fn() -> Result<(), QueryError>>(count: &Expr, input: QueryResult, poll: &P) -> (
    result: Result<QueryResult, QueryError>)
    requires
        call_requires(*poll, ()),
    ensures
        answered(result, limit_answer(count.deep_view(), input.deep_view()), *poll),
{
    let n: usize = match slice_count(count) {
        Some(n) => n,
        None => {
            return Err(QueryError::execution("limit must be integer literal"));
        },
    };
    match input {
        QueryResult::Rows { columns, rows } => {
            let at = sliced_positions(rows.len(), 0, n, poll)?;
            let cut = rows_at(&rows, &at);
            proof {
                let all = rows.deep_view();
                assert(all.len() == rows.len());
                slice_is_picked(all, 0, n as int);
            }
            Ok(QueryResult::Rows { columns, rows: cut })
        },
        _ => Err(QueryError::execution("limit requires row input")),
    }
}

fn offset_result<P: Fn() -> Result<(), QueryError>>(count: &Expr, input: QueryResult, poll: &P) -> (
    result: Result<QueryResult, QueryError>)
    requires
        call_requires(*poll, ()),
    ensures
        answered(result, offset_answer(count.deep_view(), input.deep_view()), *poll),
{
    let n: usize = match slice_count(count) {
        Some(n) => n,
        None => {
            return Err(QueryError::execution("offset must be integer literal"));
        },
    };
    match input {
        QueryResult::Rows { columns, rows } => {
            let at = sliced_positions(rows.len(), n, rows.len(), poll)?;
            let cut = rows_at(&rows, &at);
            proof {
                let all = rows.deep_view();
                assert(all.len() == rows.len());
                slice_is_picked(all, n as int, all.len() as int);
            }
            Ok(QueryResult::Rows { columns, rows: cut })
        },
        _ => Err(QueryError::execution("offset requires row input")),
    }
}

fn distinct_result<P: Fn() -> Result<(), QueryError>>(
    input: QueryResult,
    poll: &P,
) -> (result: Result<QueryResult, QueryError>)
    requires
        call_requires(*poll, ()),
    ensures
        answered(result, Ok(distinct_answer(input.deep_view())), *poll),
{
    match input {
        QueryResult::Rows { columns, rows } => {
            let at = fresh_positions(&rows, poll)?;
            let kept = rows_at(&rows, &at);
            Ok(QueryResult::Rows { columns, rows: kept })
        },
        other => Ok(other),
    }
}

fn union_results<P: Fn() -> Result<(), QueryError>>(
    left: QueryResult,
    right: QueryResult,
    all: bool,
    poll: &P,
) -> (result: Result<
    QueryResult,
    QueryError,
>)
    requires
        call_requires(*poll, ()),
    ensures
        answered(result, union_answer(left.deep_view(), right.deep_view(), all), *poll),
{
    let (columns, rows) = match left {
        QueryResult::Rows { columns, rows } => (columns, rows),
        _ => {
            return Err(QueryError::execution("UNION requires query results on left side"));
        },
    };
    let more = match right {
        QueryResult::Rows { columns: _, rows } => rows,
        _ => {
            return Err(QueryError::execution("UNION requires query results on right side"));
        },
    };
    let both = append_rows(rows, &more, poll)?;
    let kept = if all {
        both
    } else {
        let at = fresh_positions(&both, poll)?;
        rows_at(&both, &at)
    };
    Ok(QueryResult::Rows { columns, rows: kept })
}

fn group_result<
    E: Fn(&Expr, &Vec<Value>, &Vec<String>) -> Value,
    C: Fn(&Value, &Value) -> Order,
    F: Fn(FloatOp) -> u64,
    T: Fn(Subject) -> Option<String>,
    J: Fn(&String) -> Result<Vec<u8>, String>,
    Q: Fn(&Expr, Option<(&Vec<Value>, &Vec<String>)>) -> Result<Expr, QueryError>,
    S: Fn(Holding) -> usize,
    B: Fn(Option<&Expr>, &Table) -> bool,
    P: Fn() -> Result<(), QueryError>,
>(
    session: &Session<E, C, F, T, J, Q, S, B, P>,
    keys: &Vec<GroupKey>,
    aggregates: &Vec<GroupAgg>,
    having: &Option<Expr>,
    input: QueryResult,
    budget: &mut Budget,
) -> (result: Result<QueryResult, QueryError>)
    requires
        session.ok(),
    ensures
        answered_within(
            result,
            *final(budget),
            group_answer(
                session.model(),
                keys.deep_view(),
                aggregates.deep_view(),
                having.deep_view(),
                input.deep_view(),
                *old(budget),
            ),
            session.poll,
        ),
{
    match input {
        QueryResult::Rows { columns, rows } => {
            session.sizes.charge(Holding::Rows(&rows), budget)?;
            exec_group_by(
                &session.scalars,
                &columns,
                &rows,
                keys,
                aggregates,
                having,
                &session.poll,
            )
        },
        _ => Err(QueryError::execution("group by requires row input")),
    }
}

fn join_results<
    E: Fn(&Expr, &Vec<Value>, &Vec<String>) -> Value,
    C: Fn(&Value, &Value) -> Order,
    F: Fn(FloatOp) -> u64,
    T: Fn(Subject) -> Option<String>,
    J: Fn(&String) -> Result<Vec<u8>, String>,
    Q: Fn(&Expr, Option<(&Vec<Value>, &Vec<String>)>) -> Result<Expr, QueryError>,
    S: Fn(Holding) -> usize,
    B: Fn(Option<&Expr>, &Table) -> bool,
    P: Fn() -> Result<(), QueryError>,
>(
    session: &Session<E, C, F, T, J, Q, S, B, P>,
    on: &Option<Expr>,
    kind: JoinKind,
    left: QueryResult,
    right: QueryResult,
    budget: &mut Budget,
) -> (result: Result<QueryResult, QueryError>)
    requires
        session.ok(),
        !(kind is RightOuter),
    ensures
        answered_within(
            result,
            *final(budget),
            join_answer(
                session.model(),
                on.deep_view(),
                kind,
                left.deep_view(),
                right.deep_view(),
                *old(budget),
            ),
            session.poll,
        ),
{
    let (left_columns, left_rows) = match left {
        QueryResult::Rows { columns, rows } => (columns, rows),
        _ => {
            return Err(QueryError::execution("join left side must produce rows"));
        },
    };
    let (right_columns, right_rows) = match right {
        QueryResult::Rows { columns, rows } => (columns, rows),
        _ => {
            return Err(QueryError::execution("join right side must produce rows"));
        },
    };
    session.sizes.charge(Holding::Rows(&left_rows), budget)?;
    session.sizes.charge(Holding::Rows(&right_rows), budget)?;
    let condition = on.as_ref();
    assert(condition.deep_view() == on.deep_view());
    execute_materialized_join(
        &session.scalars,
        &left_columns,
        &left_rows,
        &right_columns,
        &right_rows,
        condition,
        kind,
        session.limits.join_pairs,
        session.limits.join_rows,
        &session.poll,
    )
}

fn scan_result<P: Fn() -> Result<(), QueryError>>(
    catalog: &Catalog,
    table: &String,
    alias: Option<&String>,
    poll: &P,
) -> (result: Result<QueryResult, QueryError>)
    requires
        call_requires(*poll, ()),
    ensures
        answered(
            result,
            scan_answer(
                catalog.deep_view(),
                table@,
                match alias {
                    Some(alias) => Some(alias@),
                    None => None,
                },
            ),
            *poll,
        ),
{
    match catalog.table(table) {
        Some(found) => {
            let rows = scan_rows(found, poll)?;
            Ok(QueryResult::Rows { columns: scan_columns_of(found, alias), rows })
        },
        None => Err(QueryError::TableNotFound(table.clone())),
    }
}

/// Resolve the links of the fields of a nesting projection; none where there is
/// nothing to resolve.
pub fn link_fields(catalog: &Catalog, input: &PlanNode, fields: &Vec<NestedProjectField>) -> (linked:
    Result<Option<Vec<NestedProjectField>>, QueryError>)
    ensures
        match linked {
            Ok(None) => linked_fields(
                catalog.deep_view(),
                input.deep_view(),
                fields.deep_view(),
            ) == Ok::<Seq<NestedProjectFieldView>, ErrorView>(fields.deep_view()),
            Ok(Some(other)) => linked_fields(
                catalog.deep_view(),
                input.deep_view(),
                fields.deep_view(),
            ) == Ok::<Seq<NestedProjectFieldView>, ErrorView>(other.deep_view()),
            Err(error) => linked_fields(
                catalog.deep_view(),
                input.deep_view(),
                fields.deep_view(),
            ) == Err::<Seq<NestedProjectFieldView>, ErrorView>(error.deep_view()),
        },
{
    let have: bool = nested_fields_have_via_link(fields);
    assert(have == has_link(fields.deep_view())) by {
        assert(fields.deep_view().len() == fields.len());
    }
    if !have {
        return Ok(None);
    }
    match scan_source_table(input) {
        Some(outer) => {
            let linked = resolve_nested_via_links(catalog, fields, outer)?;
            Ok(Some(linked))
        },
        None => Err(
            QueryError::execution(
                "link traversal requires a plain aliased table scan as its parent",
            ),
        ),
    }
}

proof fn fallback_is_readable(plan: PlanView)
    requires
        is_path_scan(plan),
    ensures
        readable(scan_fallback(plan)),
{
    reveal_with_fuel(readable, 5);
}

/// Answer a plan that reads.
#[verifier::spinoff_prover]
#[verifier::rlimit(60)]
pub fn dispatch_read<
    E: Fn(&Expr, &Vec<Value>, &Vec<String>) -> Value,
    C: Fn(&Value, &Value) -> Order,
    F: Fn(FloatOp) -> u64,
    T: Fn(Subject) -> Option<String>,
    J: Fn(&String) -> Result<Vec<u8>, String>,
    Q: Fn(&Expr, Option<(&Vec<Value>, &Vec<String>)>) -> Result<Expr, QueryError>,
    S: Fn(Holding) -> usize,
    B: Fn(Option<&Expr>, &Table) -> bool,
    P: Fn() -> Result<(), QueryError>,
>(
    catalog: &Catalog,
    session: &Session<E, C, F, T, J, Q, S, B, P>,
    plan: &PlanNode,
    budget: &mut Budget,
) -> (result: Result<QueryResult, QueryError>)
    requires
        session.ok(),
        catalog_fits(catalog.deep_view()),
        indexes_agree(catalog.deep_view()),
        readable(plan.deep_view()),
    ensures
        answered_within(
            result,
            *final(budget),
            answer(catalog.deep_view(), session.model(), plan.deep_view(), *old(budget)),
            session.poll,
        ),
    decreases indirect_scans(plan.deep_view()), plan, 1nat,
{
    match plan {
        PlanNode::SeqScan { .. } => read_scan(catalog, session, plan, budget),
        PlanNode::AliasScan { .. } => read_scan(catalog, session, plan, budget),
        PlanNode::IndexScan { .. } => read_scan(catalog, session, plan, budget),
        PlanNode::RangeScan { .. } => read_scan(catalog, session, plan, budget),
        PlanNode::ExprIndexScan { .. } => read_path(catalog, session, plan, budget),
        PlanNode::ExprRangeScan { .. } => read_path(catalog, session, plan, budget),
        PlanNode::OrderedExprIndexScan { .. } => read_path(catalog, session, plan, budget),
        PlanNode::Filter { input, predicate } => read_filter(
            catalog,
            session,
            input,
            predicate,
            budget,
        ),
        PlanNode::Project { input, fields } => read_project(catalog, session, input, fields, budget),
        PlanNode::NestedProject { input, fields } => read_nested(
            catalog,
            session,
            input,
            fields,
            budget,
        ),
        PlanNode::Sort { input, keys } => read_sort(catalog, session, input, keys, budget),
        PlanNode::Limit { input, count } => read_limit(catalog, session, input, count, budget),
        PlanNode::Offset { input, count } => read_offset(catalog, session, input, count, budget),
        PlanNode::Aggregate { input, function, argument, mode: _, provenance_alias } => read_aggregate(
            catalog,
            session,
            input,
            *function,
            argument,
            provenance_alias,
            budget,
        ),
        PlanNode::GroupBy { input, keys, aggregates, having } => read_groups(
            catalog,
            session,
            input,
            keys,
            aggregates,
            having,
            budget,
        ),
        PlanNode::Distinct { input } => read_distinct(catalog, session, input, budget),
        PlanNode::Window { input, windows } => read_window(catalog, session, input, windows, budget),
        PlanNode::NestedLoopJoin { .. } => read_join(catalog, session, plan, budget),
        PlanNode::Union { .. } => read_union(catalog, session, plan, budget),
        PlanNode::Explain { input } => Ok(explain(catalog, &session.wording, input)),
        PlanNode::ListTypes => Ok(introspect_list_types(catalog)),
        PlanNode::ListLinks => Ok(introspect_list_links(catalog)),
        PlanNode::Describe { table } => introspect_describe(catalog, table),
        _ => Err(QueryError::execution("this statement cannot be read from")),
    }
}

fn read_scan<
    E: Fn(&Expr, &Vec<Value>, &Vec<String>) -> Value,
    C: Fn(&Value, &Value) -> Order,
    F: Fn(FloatOp) -> u64,
    T: Fn(Subject) -> Option<String>,
    J: Fn(&String) -> Result<Vec<u8>, String>,
    Q: Fn(&Expr, Option<(&Vec<Value>, &Vec<String>)>) -> Result<Expr, QueryError>,
    S: Fn(Holding) -> usize,
    B: Fn(Option<&Expr>, &Table) -> bool,
    P: Fn() -> Result<(), QueryError>,
>(
    catalog: &Catalog,
    session: &Session<E, C, F, T, J, Q, S, B, P>,
    plan: &PlanNode,
    budget: &mut Budget,
) -> (result: Result<QueryResult, QueryError>)
    requires
        session.ok(),
        catalog_fits(catalog.deep_view()),
        plan is SeqScan || plan is AliasScan || plan is IndexScan || plan is RangeScan,
    ensures
        answered_within(
            result,
            *final(budget),
            answer(catalog.deep_view(), session.model(), plan.deep_view(), *old(budget)),
            session.poll,
        ),
{
    match plan {
        PlanNode::SeqScan { table } => scan_result(catalog, table, None, &session.poll),
        PlanNode::AliasScan { table, alias } => scan_result(
            catalog,
            table,
            Some(alias),
            &session.poll,
        ),
        PlanNode::IndexScan { table, column, key } => execute_index_scan(
            catalog,
            &session.scalars,
            table,
            column,
            key,
            &session.poll,
        ),
        PlanNode::RangeScan { table, column, start, end } => execute_range_scan(
            catalog,
            &session.scalars,
            plan,
            table,
            column,
            start,
            end,
            &session.poll,
        ),
        _ => Err(QueryError::execution("this statement cannot be read from")),
    }
}

fn read_project<
    E: Fn(&Expr, &Vec<Value>, &Vec<String>) -> Value,
    C: Fn(&Value, &Value) -> Order,
    F: Fn(FloatOp) -> u64,
    T: Fn(Subject) -> Option<String>,
    J: Fn(&String) -> Result<Vec<u8>, String>,
    Q: Fn(&Expr, Option<(&Vec<Value>, &Vec<String>)>) -> Result<Expr, QueryError>,
    S: Fn(Holding) -> usize,
    B: Fn(Option<&Expr>, &Table) -> bool,
    P: Fn() -> Result<(), QueryError>,
>(
    catalog: &Catalog,
    session: &Session<E, C, F, T, J, Q, S, B, P>,
    input: &PlanNode,
    fields: &Vec<ProjectField>,
    budget: &mut Budget,
) -> (result: Result<QueryResult, QueryError>)
    requires
        session.ok(),
        catalog_fits(catalog.deep_view()),
        indexes_agree(catalog.deep_view()),
        readable((PlanView::Project { input: Box::new(input.deep_view()), fields: fields.deep_view() })),
    ensures
        answered_within(
            result,
            *final(budget),
            answer(
                catalog.deep_view(),
                session.model(),
                (PlanView::Project { input: Box::new(input.deep_view()), fields: fields.deep_view() }),
                *old(budget),
            ),
            session.poll,
        ),
    decreases
        indirect_scans((PlanView::Project { input: Box::new(input.deep_view()), fields: fields.deep_view() })),
        input,
        2nat,
{
    match execute_expression_index_plan(
        catalog,
        &session.scalars,
        input,
        Some(fields),
        &session.poll,
    )? {
        Some(result) => {
            return Ok(result);
        },
        None => {},
    }
    match read_leading(catalog, session, input, fields, budget)? {
        Some(result) => {
            return Ok(result);
        },
        None => {},
    }
    match read_first(catalog, session, input, fields, Ghost(*budget))? {
        Some(result) => {
            return Ok(result);
        },
        None => {},
    }
    let got = dispatch_read(catalog, session, input, budget)?;
    match got {
        QueryResult::Rows { columns, rows } => {
            let names = name_fields(fields);
            let rows = project_rows(&session.scalars, fields, &rows, &columns, &session.poll)?;
            Ok(QueryResult::Rows { columns: names, rows })
        },
        _ => Err(QueryError::execution("project requires row input")),
    }
}

/// A full scan, filtered or not, answers the rows that its predicate keeps.
pub proof fn plain_scan_answered(
    catalog: CatalogView,
    model: SessionModel,
    plan: PlanView,
    budget: Budget,
)
    requires
        plain_scan(plan) is Some,
    ensures
        answer(catalog, model, plan, budget) == match catalog.table((plain_scan(plan)->0).0) {
            None => Err(ErrorView::TableNotFound((plain_scan(plan)->0).0)),
            Some(found) => Ok(
                (
                    ResultView::Rows {
                        columns: found.schema.column_names(),
                        rows: scanned(
                            model.scalars.eval,
                            (plain_scan(plan)->0).1,
                            table_rows(found),
                            found.schema.column_names(),
                        ),
                    },
                    budget,
                ),
            ),
        },
{
    match plan {
        PlanView::Filter { input, predicate } => {
            let table = (plain_scan(plan)->0).0;
            assert(*input == PlanView::SeqScan { table });
            assert(answer(catalog, model, *input, budget) == with_budget(
                scan_answer(catalog, table, None),
                budget,
            ));
        },
        _ => {},
    }
}

fn read_leading<
    E: Fn(&Expr, &Vec<Value>, &Vec<String>) -> Value,
    C: Fn(&Value, &Value) -> Order,
    F: Fn(FloatOp) -> u64,
    T: Fn(Subject) -> Option<String>,
    J: Fn(&String) -> Result<Vec<u8>, String>,
    Q: Fn(&Expr, Option<(&Vec<Value>, &Vec<String>)>) -> Result<Expr, QueryError>,
    S: Fn(Holding) -> usize,
    B: Fn(Option<&Expr>, &Table) -> bool,
    P: Fn() -> Result<(), QueryError>,
>(
    catalog: &Catalog,
    session: &Session<E, C, F, T, J, Q, S, B, P>,
    input: &PlanNode,
    fields: &Vec<ProjectField>,
    budget: &mut Budget,
) -> (result: Result<Option<QueryResult>, QueryError>)
    requires
        session.ok(),
        catalog_fits(catalog.deep_view()),
    ensures
        led(
            result,
            *final(budget),
            *old(budget),
            leading_answer(
                catalog.deep_view(),
                session.model().scalars,
                session.model().compiles,
                input.deep_view(),
                fields.deep_view(),
                *old(budget),
            ),
            session.poll,
        ),
{
    let (inner, count) = match input {
        PlanNode::Limit { input: inner, count } => (inner, count),
        _ => {
            return Ok(None);
        },
    };
    let inner: &PlanNode = inner;
    let ghost shown = inner.deep_view();
    let (source, keys) = match inner {
        PlanNode::Sort { input: source, keys } => (source, keys),
        _ => {
            assert(!(shown is Sort));
            return Ok(None);
        },
    };
    let source: &PlanNode = source;
    proof {
        assert(shown == PlanView::Sort {
            input: Box::new(source.deep_view()),
            keys: sort_keys_view(keys@),
        });
        assert(sort_keys_view(keys@).len() == keys.len());
    }
    let scan = as_plain_scan(source);
    let limit = literal_limit(count);
    let (table, predicate) = match scan {
        Some(pair) => pair,
        None => {
            return Ok(None);
        },
    };
    let limit: usize = match limit {
        Some(limit) => limit,
        None => {
            return Ok(None);
        },
    };
    if keys.len() != 1 {
        return Ok(None);
    }
    assert(sort_keys_view(keys@)[0].expr == keys[0].expr.deep_view());
    match &keys[0].expr {
        Expr::Field(sort_field) => {
            proof {
                found_table_fits(catalog.deep_view(), table@);
            }
            match catalog.table(table) {
                None => Err(QueryError::TableNotFound(table.clone())),
                Some(found) => project_filter_sort_limit_fast(
                    &session.scalars,
                    &session.compiler,
                    found,
                    fields,
                    sort_field,
                    keys[0].descending,
                    limit,
                    predicate,
                    budget,
                    &session.poll,
                ),
            }
        },
        _ => Ok(None),
    }
}

fn read_first<
    E: Fn(&Expr, &Vec<Value>, &Vec<String>) -> Value,
    C: Fn(&Value, &Value) -> Order,
    F: Fn(FloatOp) -> u64,
    T: Fn(Subject) -> Option<String>,
    J: Fn(&String) -> Result<Vec<u8>, String>,
    Q: Fn(&Expr, Option<(&Vec<Value>, &Vec<String>)>) -> Result<Expr, QueryError>,
    S: Fn(Holding) -> usize,
    B: Fn(Option<&Expr>, &Table) -> bool,
    P: Fn() -> Result<(), QueryError>,
>(
    catalog: &Catalog,
    session: &Session<E, C, F, T, J, Q, S, B, P>,
    input: &PlanNode,
    fields: &Vec<ProjectField>,
    Ghost(budget): Ghost<Budget>,
) -> (result: Result<Option<QueryResult>, QueryError>)
    requires
        session.ok(),
        catalog_fits(catalog.deep_view()),
    ensures
        ({
            let general = match answer(
                catalog.deep_view(),
                session.model(),
                input.deep_view(),
                budget,
            ) {
                Err(error) => Err(error),
                Ok((got, left)) => with_budget(
                    project_answer(session.scalars.values(), fields.deep_view(), got),
                    left,
                ),
            };
            match result {
                Ok(Some(r)) => general == Ok::<(ResultView, Budget), ErrorView>(
                    (r.deep_view(), budget),
                ),
                Ok(None) => true,
                Err(e) => general == Err::<(ResultView, Budget), ErrorView>(e.deep_view())
                    || call_ensures(session.poll, (), Err(e)),
            }
        }),
{
    let (inner, count) = match input {
        PlanNode::Limit { input: inner, count } => (inner, count),
        _ => {
            return Ok(None);
        },
    };
    let inner: &PlanNode = inner;
    let (table, predicate) = match as_plain_scan(inner) {
        Some(pair) => pair,
        None => {
            return Ok(None);
        },
    };
    let limit: usize = match literal_limit(count) {
        Some(limit) => limit,
        None => {
            return Ok(None);
        },
    };
    proof {
        plain_scan_answered(catalog.deep_view(), session.model(), inner.deep_view(), budget);
        assert(input.deep_view() == PlanView::Limit {
            input: Box::new(inner.deep_view()),
            count: count.deep_view(),
        });
        assert(count_of(count.deep_view()) == Some(limit as int));
        assert(fields.deep_view().len() == fields.len());
    }
    project_filter_limit_fast(
        catalog,
        &session.scalars,
        &session.compiler,
        table,
        fields,
        limit,
        predicate,
        &session.poll,
    )
}

fn read_sort<
    E: Fn(&Expr, &Vec<Value>, &Vec<String>) -> Value,
    C: Fn(&Value, &Value) -> Order,
    F: Fn(FloatOp) -> u64,
    T: Fn(Subject) -> Option<String>,
    J: Fn(&String) -> Result<Vec<u8>, String>,
    Q: Fn(&Expr, Option<(&Vec<Value>, &Vec<String>)>) -> Result<Expr, QueryError>,
    S: Fn(Holding) -> usize,
    B: Fn(Option<&Expr>, &Table) -> bool,
    P: Fn() -> Result<(), QueryError>,
>(
    catalog: &Catalog,
    session: &Session<E, C, F, T, J, Q, S, B, P>,
    input: &PlanNode,
    keys: &Vec<SortKey>,
    budget: &mut Budget,
) -> (result: Result<QueryResult, QueryError>)
    requires
        session.ok(),
        catalog_fits(catalog.deep_view()),
        indexes_agree(catalog.deep_view()),
        readable((PlanView::Sort { input: Box::new(input.deep_view()), keys: sort_keys_view(keys@) })),
    ensures
        answered_within(
            result,
            *final(budget),
            answer(
                catalog.deep_view(),
                session.model(),
                (PlanView::Sort { input: Box::new(input.deep_view()), keys: sort_keys_view(keys@) }),
                *old(budget),
            ),
            session.poll,
        ),
    decreases
        indirect_scans((PlanView::Sort { input: Box::new(input.deep_view()), keys: sort_keys_view(keys@) })),
        input,
        2nat,
{
    let got = dispatch_read(catalog, session, input, budget)?;
    sort_result(session, keys, got, budget)
}

fn read_limit<
    E: Fn(&Expr, &Vec<Value>, &Vec<String>) -> Value,
    C: Fn(&Value, &Value) -> Order,
    F: Fn(FloatOp) -> u64,
    T: Fn(Subject) -> Option<String>,
    J: Fn(&String) -> Result<Vec<u8>, String>,
    Q: Fn(&Expr, Option<(&Vec<Value>, &Vec<String>)>) -> Result<Expr, QueryError>,
    S: Fn(Holding) -> usize,
    B: Fn(Option<&Expr>, &Table) -> bool,
    P: Fn() -> Result<(), QueryError>,
>(
    catalog: &Catalog,
    session: &Session<E, C, F, T, J, Q, S, B, P>,
    input: &PlanNode,
    count: &Expr,
    budget: &mut Budget,
) -> (result: Result<QueryResult, QueryError>)
    requires
        session.ok(),
        catalog_fits(catalog.deep_view()),
        indexes_agree(catalog.deep_view()),
        readable((PlanView::Limit { input: Box::new(input.deep_view()), count: count.deep_view() })),
    ensures
        answered_within(
            result,
            *final(budget),
            answer(
                catalog.deep_view(),
                session.model(),
                (PlanView::Limit { input: Box::new(input.deep_view()), count: count.deep_view() }),
                *old(budget),
            ),
            session.poll,
        ),
    decreases
        indirect_scans((PlanView::Limit { input: Box::new(input.deep_view()), count: count.deep_view() })),
        input,
        2nat,
{
    let got = dispatch_read(catalog, session, input, budget)?;
    limit_result(count, got, &session.poll)
}

fn read_offset<
    E: Fn(&Expr, &Vec<Value>, &Vec<String>) -> Value,
    C: Fn(&Value, &Value) -> Order,
    F: Fn(FloatOp) -> u64,
    T: Fn(Subject) -> Option<String>,
    J: Fn(&String) -> Result<Vec<u8>, String>,
    Q: Fn(&Expr, Option<(&Vec<Value>, &Vec<String>)>) -> Result<Expr, QueryError>,
    S: Fn(Holding) -> usize,
    B: Fn(Option<&Expr>, &Table) -> bool,
    P: Fn() -> Result<(), QueryError>,
>(
    catalog: &Catalog,
    session: &Session<E, C, F, T, J, Q, S, B, P>,
    input: &PlanNode,
    count: &Expr,
    budget: &mut Budget,
) -> (result: Result<QueryResult, QueryError>)
    requires
        session.ok(),
        catalog_fits(catalog.deep_view()),
        indexes_agree(catalog.deep_view()),
        readable((PlanView::Offset { input: Box::new(input.deep_view()), count: count.deep_view() })),
    ensures
        answered_within(
            result,
            *final(budget),
            answer(
                catalog.deep_view(),
                session.model(),
                (PlanView::Offset { input: Box::new(input.deep_view()), count: count.deep_view() }),
                *old(budget),
            ),
            session.poll,
        ),
    decreases
        indirect_scans((PlanView::Offset { input: Box::new(input.deep_view()), count: count.deep_view() })),
        input,
        2nat,
{
    let got = dispatch_read(catalog, session, input, budget)?;
    offset_result(count, got, &session.poll)
}

fn read_distinct<
    E: Fn(&Expr, &Vec<Value>, &Vec<String>) -> Value,
    C: Fn(&Value, &Value) -> Order,
    F: Fn(FloatOp) -> u64,
    T: Fn(Subject) -> Option<String>,
    J: Fn(&String) -> Result<Vec<u8>, String>,
    Q: Fn(&Expr, Option<(&Vec<Value>, &Vec<String>)>) -> Result<Expr, QueryError>,
    S: Fn(Holding) -> usize,
    B: Fn(Option<&Expr>, &Table) -> bool,
    P: Fn() -> Result<(), QueryError>,
>(
    catalog: &Catalog,
    session: &Session<E, C, F, T, J, Q, S, B, P>,
    input: &PlanNode,
    budget: &mut Budget,
) -> (result: Result<QueryResult, QueryError>)
    requires
        session.ok(),
        catalog_fits(catalog.deep_view()),
        indexes_agree(catalog.deep_view()),
        readable((PlanView::Distinct { input: Box::new(input.deep_view()) })),
    ensures
        answered_within(
            result,
            *final(budget),
            answer(
                catalog.deep_view(),
                session.model(),
                (PlanView::Distinct { input: Box::new(input.deep_view()) }),
                *old(budget),
            ),
            session.poll,
        ),
    decreases
        indirect_scans((PlanView::Distinct { input: Box::new(input.deep_view()) })),
        input,
        2nat,
{
    let got = dispatch_read(catalog, session, input, budget)?;
    distinct_result(got, &session.poll)
}

fn read_window<
    E: Fn(&Expr, &Vec<Value>, &Vec<String>) -> Value,
    C: Fn(&Value, &Value) -> Order,
    F: Fn(FloatOp) -> u64,
    T: Fn(Subject) -> Option<String>,
    J: Fn(&String) -> Result<Vec<u8>, String>,
    Q: Fn(&Expr, Option<(&Vec<Value>, &Vec<String>)>) -> Result<Expr, QueryError>,
    S: Fn(Holding) -> usize,
    B: Fn(Option<&Expr>, &Table) -> bool,
    P: Fn() -> Result<(), QueryError>,
>(
    catalog: &Catalog,
    session: &Session<E, C, F, T, J, Q, S, B, P>,
    input: &PlanNode,
    windows: &Vec<WindowDef>,
    budget: &mut Budget,
) -> (result: Result<QueryResult, QueryError>)
    requires
        session.ok(),
        catalog_fits(catalog.deep_view()),
        indexes_agree(catalog.deep_view()),
        readable((PlanView::Window { input: Box::new(input.deep_view()), windows: windows.deep_view() })),
    ensures
        answered_within(
            result,
            *final(budget),
            answer(
                catalog.deep_view(),
                session.model(),
                (PlanView::Window { input: Box::new(input.deep_view()), windows: windows.deep_view() }),
                *old(budget),
            ),
            session.poll,
        ),
    decreases
        indirect_scans((PlanView::Window { input: Box::new(input.deep_view()), windows: windows.deep_view() })),
        input,
        2nat,
{
    let got = dispatch_read(catalog, session, input, budget)?;
    execute_window(&session.scalars, got, windows, budget, &session.poll)
}

fn read_join<
    E: Fn(&Expr, &Vec<Value>, &Vec<String>) -> Value,
    C: Fn(&Value, &Value) -> Order,
    F: Fn(FloatOp) -> u64,
    T: Fn(Subject) -> Option<String>,
    J: Fn(&String) -> Result<Vec<u8>, String>,
    Q: Fn(&Expr, Option<(&Vec<Value>, &Vec<String>)>) -> Result<Expr, QueryError>,
    S: Fn(Holding) -> usize,
    B: Fn(Option<&Expr>, &Table) -> bool,
    P: Fn() -> Result<(), QueryError>,
>(
    catalog: &Catalog,
    session: &Session<E, C, F, T, J, Q, S, B, P>,
    plan: &PlanNode,
    budget: &mut Budget,
) -> (result: Result<QueryResult, QueryError>)
    requires
        session.ok(),
        catalog_fits(catalog.deep_view()),
        indexes_agree(catalog.deep_view()),
        readable(plan.deep_view()),
        plan is NestedLoopJoin,
    ensures
        answered_within(
            result,
            *final(budget),
            answer(catalog.deep_view(), session.model(), plan.deep_view(), *old(budget)),
            session.poll,
        ),
    decreases indirect_scans(plan.deep_view()), plan, 0nat,
{
    match plan {
        PlanNode::NestedLoopJoin { left, right, on, kind } => {
            let first = dispatch_read(catalog, session, left, budget)?;
            let second = dispatch_read(catalog, session, right, budget)?;
            join_results(session, on, *kind, first, second, budget)
        },
        _ => Err(QueryError::execution("this statement cannot be read from")),
    }
}

fn read_union<
    E: Fn(&Expr, &Vec<Value>, &Vec<String>) -> Value,
    C: Fn(&Value, &Value) -> Order,
    F: Fn(FloatOp) -> u64,
    T: Fn(Subject) -> Option<String>,
    J: Fn(&String) -> Result<Vec<u8>, String>,
    Q: Fn(&Expr, Option<(&Vec<Value>, &Vec<String>)>) -> Result<Expr, QueryError>,
    S: Fn(Holding) -> usize,
    B: Fn(Option<&Expr>, &Table) -> bool,
    P: Fn() -> Result<(), QueryError>,
>(
    catalog: &Catalog,
    session: &Session<E, C, F, T, J, Q, S, B, P>,
    plan: &PlanNode,
    budget: &mut Budget,
) -> (result: Result<QueryResult, QueryError>)
    requires
        session.ok(),
        catalog_fits(catalog.deep_view()),
        indexes_agree(catalog.deep_view()),
        readable(plan.deep_view()),
        plan is Union,
    ensures
        answered_within(
            result,
            *final(budget),
            answer(catalog.deep_view(), session.model(), plan.deep_view(), *old(budget)),
            session.poll,
        ),
    decreases indirect_scans(plan.deep_view()), plan, 0nat,
{
    match plan {
        PlanNode::Union { left, right, all } => {
            let first = dispatch_read(catalog, session, left, budget)?;
            let second = dispatch_read(catalog, session, right, budget)?;
            union_results(first, second, *all, &session.poll)
        },
        _ => Err(QueryError::execution("this statement cannot be read from")),
    }
}

fn read_path<
    E: Fn(&Expr, &Vec<Value>, &Vec<String>) -> Value,
    C: Fn(&Value, &Value) -> Order,
    F: Fn(FloatOp) -> u64,
    T: Fn(Subject) -> Option<String>,
    J: Fn(&String) -> Result<Vec<u8>, String>,
    Q: Fn(&Expr, Option<(&Vec<Value>, &Vec<String>)>) -> Result<Expr, QueryError>,
    S: Fn(Holding) -> usize,
    B: Fn(Option<&Expr>, &Table) -> bool,
    P: Fn() -> Result<(), QueryError>,
>(
    catalog: &Catalog,
    session: &Session<E, C, F, T, J, Q, S, B, P>,
    plan: &PlanNode,
    budget: &mut Budget,
) -> (result: Result<QueryResult, QueryError>)
    requires
        session.ok(),
        catalog_fits(catalog.deep_view()),
        indexes_agree(catalog.deep_view()),
        is_path_scan(plan.deep_view()),
    ensures
        answered_within(
            result,
            *final(budget),
            path_answer(catalog.deep_view(), session.model(), plan.deep_view(), *old(budget)),
            session.poll,
        ),
    decreases indirect_scans(plan.deep_view()), plan, 0nat,
{
    let ghost cat = catalog.deep_view();
    proof {
        fallback_is_direct(plan.deep_view());
        fallback_is_readable(plan.deep_view());
    }
    match execute_expression_index_plan(
        catalog,
        &session.scalars,
        plan,
        None,
        &session.poll,
    )? {
        Some(result) => {
            return Ok(result);
        },
        None => {},
    }
    match expression_index_fallback(plan) {
        Some(fallback) => dispatch_read(catalog, session, &fallback, budget),
        None => Err(QueryError::execution("this statement cannot be read from")),
    }
}

fn read_filter<
    E: Fn(&Expr, &Vec<Value>, &Vec<String>) -> Value,
    C: Fn(&Value, &Value) -> Order,
    F: Fn(FloatOp) -> u64,
    T: Fn(Subject) -> Option<String>,
    J: Fn(&String) -> Result<Vec<u8>, String>,
    Q: Fn(&Expr, Option<(&Vec<Value>, &Vec<String>)>) -> Result<Expr, QueryError>,
    S: Fn(Holding) -> usize,
    B: Fn(Option<&Expr>, &Table) -> bool,
    P: Fn() -> Result<(), QueryError>,
>(
    catalog: &Catalog,
    session: &Session<E, C, F, T, J, Q, S, B, P>,
    input: &PlanNode,
    predicate: &Expr,
    budget: &mut Budget,
) -> (result: Result<QueryResult, QueryError>)
    requires
        session.ok(),
        catalog_fits(catalog.deep_view()),
        indexes_agree(catalog.deep_view()),
        readable(input.deep_view()),
    ensures
        answered_within(
            result,
            *final(budget),
            answer(
                catalog.deep_view(),
                session.model(),
                (PlanView::Filter {
                    input: Box::new(input.deep_view()),
                    predicate: predicate.deep_view(),
                }),
                *old(budget),
            ),
            session.poll,
        ),
    decreases indirect_scans(input.deep_view()), input, 3nat,
{
    if !contains_subquery(predicate) {
        return read_plain_filter(catalog, session, input, predicate, budget);
    }
    let plain = session.subqueries.replace(predicate, None)?;
    read_plain_filter(catalog, session, input, &plain, budget)
}

fn read_plain_filter<
    E: Fn(&Expr, &Vec<Value>, &Vec<String>) -> Value,
    C: Fn(&Value, &Value) -> Order,
    F: Fn(FloatOp) -> u64,
    T: Fn(Subject) -> Option<String>,
    J: Fn(&String) -> Result<Vec<u8>, String>,
    Q: Fn(&Expr, Option<(&Vec<Value>, &Vec<String>)>) -> Result<Expr, QueryError>,
    S: Fn(Holding) -> usize,
    B: Fn(Option<&Expr>, &Table) -> bool,
    P: Fn() -> Result<(), QueryError>,
>(
    catalog: &Catalog,
    session: &Session<E, C, F, T, J, Q, S, B, P>,
    input: &PlanNode,
    plain: &Expr,
    budget: &mut Budget,
) -> (result: Result<QueryResult, QueryError>)
    requires
        session.ok(),
        catalog_fits(catalog.deep_view()),
        indexes_agree(catalog.deep_view()),
        readable(input.deep_view()),
    ensures
        answered_within(
            result,
            *final(budget),
            tried(
                residual_answer(
                    catalog.deep_view(),
                    session.scalars.values(),
                    session.scalars.ordering(),
                    input.deep_view(),
                    plain.deep_view(),
                ),
                *old(budget),
                match answer(
                    catalog.deep_view(),
                    session.model(),
                    input.deep_view(),
                    *old(budget),
                ) {
                    Err(error) => Err(error),
                    Ok((got, left)) => with_budget(
                        filter_answer(session.model(), plain.deep_view(), got),
                        left,
                    ),
                },
            ),
            session.poll,
        ),
    decreases indirect_scans(input.deep_view()), input, 2nat,
{
    match try_filter_index_residual_fast(
        catalog,
        &session.scalars,
        input,
        plain,
        &session.poll,
    )? {
        Some(result) => {
            return Ok(result);
        },
        None => {},
    }
    let got = dispatch_read(catalog, session, input, budget)?;
    filter_result(session, plain, got)
}

fn read_nested<
    E: Fn(&Expr, &Vec<Value>, &Vec<String>) -> Value,
    C: Fn(&Value, &Value) -> Order,
    F: Fn(FloatOp) -> u64,
    T: Fn(Subject) -> Option<String>,
    J: Fn(&String) -> Result<Vec<u8>, String>,
    Q: Fn(&Expr, Option<(&Vec<Value>, &Vec<String>)>) -> Result<Expr, QueryError>,
    S: Fn(Holding) -> usize,
    B: Fn(Option<&Expr>, &Table) -> bool,
    P: Fn() -> Result<(), QueryError>,
>(
    catalog: &Catalog,
    session: &Session<E, C, F, T, J, Q, S, B, P>,
    input: &PlanNode,
    fields: &Vec<NestedProjectField>,
    budget: &mut Budget,
) -> (result: Result<QueryResult, QueryError>)
    requires
        session.ok(),
        catalog_fits(catalog.deep_view()),
        indexes_agree(catalog.deep_view()),
        readable(input.deep_view()),
    ensures
        answered_within(
            result,
            *final(budget),
            answer(
                catalog.deep_view(),
                session.model(),
                (PlanView::NestedProject {
                    input: Box::new(input.deep_view()),
                    fields: fields.deep_view(),
                }),
                *old(budget),
            ),
            session.poll,
        ),
    decreases indirect_scans(input.deep_view()), input, 2nat,
{
    let ghost cat = catalog.deep_view();
    let linked = link_fields(catalog, input, fields)?;
    let got = dispatch_read(catalog, session, input, budget)?;
    let fields_now = match &linked {
        Some(other) => other,
        None => fields,
    };
    proof {
        assert(reading_scope(cat, session.model()) == nested_scope(
            catalog,
            &session.scalars,
            &session.wording,
            &session.sizes,
        ));
    }
    execute_nested_project(
        catalog,
        &session.scalars,
        &session.wording,
        &session.documents,
        &session.sizes,
        &session.poll,
        got,
        fields_now,
        budget,
    )
}

fn read_aggregate<
    E: Fn(&Expr, &Vec<Value>, &Vec<String>) -> Value,
    C: Fn(&Value, &Value) -> Order,
    F: Fn(FloatOp) -> u64,
    T: Fn(Subject) -> Option<String>,
    J: Fn(&String) -> Result<Vec<u8>, String>,
    Q: Fn(&Expr, Option<(&Vec<Value>, &Vec<String>)>) -> Result<Expr, QueryError>,
    S: Fn(Holding) -> usize,
    B: Fn(Option<&Expr>, &Table) -> bool,
    P: Fn() -> Result<(), QueryError>,
>(
    catalog: &Catalog,
    session: &Session<E, C, F, T, J, Q, S, B, P>,
    input: &PlanNode,
    function: AggFunc,
    argument: &Option<Expr>,
    provenance_alias: &Option<String>,
    budget: &mut Budget,
) -> (result: Result<QueryResult, QueryError>)
    requires
        session.ok(),
        catalog_fits(catalog.deep_view()),
        indexes_agree(catalog.deep_view()),
        if provenance_alias is Some {
            turned(input.deep_view())
        } else {
            readable(input.deep_view())
        },
    ensures
        forall|mode: AggregateMode|
            answered_within(
                result,
                *final(budget),
                #[trigger] answer(
                    catalog.deep_view(),
                    session.model(),
                    (PlanView::Aggregate {
                        input: Box::new(input.deep_view()),
                        function,
                        argument: argument.deep_view(),
                        mode,
                        provenance_alias: provenance_alias.deep_view(),
                    }),
                    *old(budget),
                ),
                session.poll,
            ),
        result matches Ok(r) ==> !(r is Rows),
    decreases indirect_scans(input.deep_view()), input, 2nat,
{
    match provenance_alias {
        Some(alias) => {
            let got = materialize_rows_with_provenance(catalog, session, input, budget)?;
            session.sizes.charge(Holding::Rows(&got.rows), budget)?;
            aggregate_rows_with_provenance(
                &session.scalars,
                function,
                argument.as_ref(),
                &got,
                alias,
                budget,
                &session.poll,
            )
        },
        None => {
            match read_column_aggregate(
                catalog,
                session,
                input,
                function,
                argument,
                Ghost(*budget),
            )? {
                Some(result) => {
                    return Ok(result);
                },
                None => {},
            }
            let got = dispatch_read(catalog, session, input, budget)?;
            match got {
                QueryResult::Rows { columns, rows } => aggregate_rows(
                    &session.scalars,
                    function,
                    argument.as_ref(),
                    &columns,
                    &rows,
                    &session.poll,
                ),
                _ => Err(QueryError::execution("aggregate requires row input")),
            }
        },
    }
}

fn read_column_aggregate<
    E: Fn(&Expr, &Vec<Value>, &Vec<String>) -> Value,
    C: Fn(&Value, &Value) -> Order,
    F: Fn(FloatOp) -> u64,
    T: Fn(Subject) -> Option<String>,
    J: Fn(&String) -> Result<Vec<u8>, String>,
    Q: Fn(&Expr, Option<(&Vec<Value>, &Vec<String>)>) -> Result<Expr, QueryError>,
    S: Fn(Holding) -> usize,
    B: Fn(Option<&Expr>, &Table) -> bool,
    P: Fn() -> Result<(), QueryError>,
>(
    catalog: &Catalog,
    session: &Session<E, C, F, T, J, Q, S, B, P>,
    input: &PlanNode,
    function: AggFunc,
    argument: &Option<Expr>,
    Ghost(budget): Ghost<Budget>,
) -> (result: Result<Option<QueryResult>, QueryError>)
    requires
        session.ok(),
        catalog_fits(catalog.deep_view()),
    ensures
        ({
            let general = match answer(
                catalog.deep_view(),
                session.model(),
                input.deep_view(),
                budget,
            ) {
                Err(error) => Err(error),
                Ok((got, left)) => with_budget(
                    aggregate_answer(session.model().scalars, function, argument.deep_view(), got),
                    left,
                ),
            };
            match column_answer(
                catalog.deep_view(),
                session.model().scalars,
                session.model().compiles,
                input.deep_view(),
                function,
                argument.deep_view(),
            ) {
                Some(expected) => match result {
                    Ok(Some(r)) => expected == Ok::<ResultView, ErrorView>(r.deep_view()) && !(
                    r is Rows),
                    Ok(None) => false,
                    Err(e) => expected == Err::<ResultView, ErrorView>(e.deep_view())
                        || call_ensures(session.poll, (), Err(e)),
                },
                None => match result {
                    Ok(answer) => answer is None,
                    Err(e) => general == Err::<(ResultView, Budget), ErrorView>(e.deep_view()),
                },
            }
        }),
{
    let column = match argument {
        Some(Expr::Field(column)) => column,
        _ => {
            return Ok(None);
        },
    };
    let (table, predicate) = match as_plain_scan(input) {
        Some(pair) => pair,
        None => {
            return Ok(None);
        },
    };
    proof {
        plain_scan_answered(catalog.deep_view(), session.model(), input.deep_view(), budget);
        assert(argument.deep_view() == Some(ExprView::Field(column@)));
    }
    agg_single_col_fast(
        catalog,
        &session.scalars,
        &session.compiler,
        table,
        column,
        function,
        predicate,
        &session.poll,
    )
}

fn read_groups<
    E: Fn(&Expr, &Vec<Value>, &Vec<String>) -> Value,
    C: Fn(&Value, &Value) -> Order,
    F: Fn(FloatOp) -> u64,
    T: Fn(Subject) -> Option<String>,
    J: Fn(&String) -> Result<Vec<u8>, String>,
    Q: Fn(&Expr, Option<(&Vec<Value>, &Vec<String>)>) -> Result<Expr, QueryError>,
    S: Fn(Holding) -> usize,
    B: Fn(Option<&Expr>, &Table) -> bool,
    P: Fn() -> Result<(), QueryError>,
>(
    catalog: &Catalog,
    session: &Session<E, C, F, T, J, Q, S, B, P>,
    input: &PlanNode,
    keys: &Vec<GroupKey>,
    aggregates: &Vec<GroupAgg>,
    having: &Option<Expr>,
    budget: &mut Budget,
) -> (result: Result<QueryResult, QueryError>)
    requires
        session.ok(),
        catalog_fits(catalog.deep_view()),
        indexes_agree(catalog.deep_view()),
        if traces(aggregates.deep_view(), 0) {
            turned(input.deep_view())
        } else {
            readable(input.deep_view())
        },
    ensures
        answered_within(
            result,
            *final(budget),
            answer(
                catalog.deep_view(),
                session.model(),
                (PlanView::GroupBy {
                    input: Box::new(input.deep_view()),
                    keys: keys.deep_view(),
                    aggregates: aggregates.deep_view(),
                    having: having.deep_view(),
                }),
                *old(budget),
            ),
            session.poll,
        ),
    decreases indirect_scans(input.deep_view()), input, 2nat,
{
    if any_traces(aggregates) {
        let got = materialize_rows_with_provenance(catalog, session, input, budget)?;
        session.sizes.charge(Holding::Rows(&got.rows), budget)?;
        return exec_group_by_with_provenance(
            &session.scalars,
            got,
            keys,
            aggregates,
            having,
            budget,
            &session.poll,
        );
    }
    let got = dispatch_read(catalog, session, input, budget)?;
    group_result(session, keys, aggregates, having, got, budget)
}

} // verus!
