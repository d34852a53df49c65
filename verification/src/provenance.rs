//! Rows together with the stored rows behind them.

use vstd::prelude::*;

use crate::aggregate::{provenance_view, ProvenanceRows, ProvenanceView, RowId};
use crate::catalog::{Catalog, CatalogView, Table, TableView};
use crate::error::{Budget, ErrorView, QueryError};
use crate::expr::{
    clone_expr, sort_keys_view, BinOp, Expr, ExprView, Literal, LiteralView, SortKey,
    SortKeyView,
};
use crate::group::{ats_view, ints, pick, qualified, qualified_name, rows_reach};
use crate::index::{catalog_fits, found_table_fits, scan_rows, table_rows};
use crate::join::{clone_sources, execute_provenance_join, provenance_join_of, rows_match, JoinKind};
use crate::lower::{
    binary, expression_index_fallback, filter_scan, path_fallback, range_predicate,
    synthesize_range_predicate,
};
use crate::mentions::{contains_subquery, holds_subquery};
use crate::operators::{
    append_rows, fresh_from, fresh_positions, holding_from, holding_positions, order_positions,
    ordered, project_rows, projection, rows_at, slice_positions, sliced_positions, sources_at,
    word_fields, worded_names,
};
use crate::plan::{PlanNode, PlanView};
use crate::scalars::{FloatOp, Order};
use crate::session::{
    answered, answered_within, hold_charge, Holding, HoldingView, Session, SessionModel,
};
use crate::sort::sort_charge;
use crate::value::Value;
use crate::wording::Subject;

verus! {

/// How many of the scans of a plan are answered by another plan when their
/// index is not used.
pub open spec fn indirect_scans(plan: PlanView) -> nat
    decreases plan,
{
    match plan {
        PlanView::IndexScan { .. } => 1,
        PlanView::RangeScan { .. } => 1,
        PlanView::ExprIndexScan { .. } => 1,
        PlanView::ExprRangeScan { .. } => 1,
        PlanView::OrderedExprIndexScan { .. } => 1,
        PlanView::Filter { input, .. } => indirect_scans(*input),
        PlanView::Project { input, .. } => indirect_scans(*input),
        PlanView::NestedProject { input, .. } => indirect_scans(*input),
        PlanView::Sort { input, .. } => indirect_scans(*input),
        PlanView::Limit { input, .. } => indirect_scans(*input),
        PlanView::Offset { input, .. } => indirect_scans(*input),
        PlanView::Aggregate { input, .. } => indirect_scans(*input),
        PlanView::GroupBy { input, .. } => indirect_scans(*input),
        PlanView::Distinct { input } => indirect_scans(*input),
        PlanView::Window { input, .. } => indirect_scans(*input),
        PlanView::NestedLoopJoin { left, right, .. } => indirect_scans(*left) + indirect_scans(
            *right,
        ),
        PlanView::Union { left, right, .. } => indirect_scans(*left) + indirect_scans(*right),
        _ => 0,
    }
}

/// The filter over a full scan that stands in for an equality lookup.
pub open spec fn lookup_fallback(table: Seq<char>, column: Seq<char>, key: ExprView) -> PlanView {
    PlanView::Filter {
        input: Box::new(PlanView::SeqScan { table }),
        predicate: binary(ExprView::Field(column), BinOp::Eq, key),
    }
}

/// The filter over a full scan that stands in for a range lookup.
pub open spec fn range_fallback(
    table: Seq<char>,
    column: Seq<char>,
    start: Option<(ExprView, bool)>,
    end: Option<(ExprView, bool)>,
) -> PlanView {
    PlanView::Filter {
        input: Box::new(PlanView::SeqScan { table }),
        predicate: range_predicate(ExprView::Field(column), start, end),
    }
}

/// The plan that stands in for a scan whose index is not used.
pub open spec fn scan_fallback(plan: PlanView) -> PlanView {
    match plan {
        PlanView::IndexScan { table, column, key } => lookup_fallback(table, column, key),
        PlanView::RangeScan { table, column, start, end } => range_fallback(
            table,
            column,
            start,
            end,
        ),
        _ => match path_fallback(plan) {
            Some(fallback) => fallback,
            None => plan,
        },
    }
}

/// A scan over an index.
pub open spec fn is_indirect(plan: PlanView) -> bool {
    plan is IndexScan || plan is RangeScan || plan is ExprIndexScan || plan is ExprRangeScan
        || plan is OrderedExprIndexScan
}

/// The plan that stands in for a scan uses no index, and joins nothing.
pub proof fn fallback_is_direct(plan: PlanView)
    requires
        is_indirect(plan),
    ensures
        indirect_scans(scan_fallback(plan)) == 0,
        indirect_scans(plan) == 1,
        turned(scan_fallback(plan)),
{
    match plan {
        PlanView::OrderedExprIndexScan { table, .. } => {
            let scan = PlanView::SeqScan { table };
            assert(indirect_scans(scan) == 0);
            assert(turned(scan));
            let fallback = scan_fallback(plan);
            let inner = *fallback->Limit_input;
            match inner {
                PlanView::Offset { input, .. } => {
                    assert(*input is Sort);
                    assert(indirect_scans(*input) == 0);
                    assert(turned(*input));
                    assert(indirect_scans(inner) == 0);
                    assert(turned(inner));
                },
                _ => {
                    assert(inner is Sort);
                    assert(indirect_scans(inner) == 0);
                    assert(turned(inner));
                },
            }
        },
        _ => {
            let fallback = scan_fallback(plan);
            assert(indirect_scans(*fallback->Filter_input) == 0);
            assert(turned(*fallback->Filter_input));
        },
    }
}

/// No join of the plan keeps the unmatched rows of its right side: such joins
/// are planned as left joins with the sides exchanged.
pub open spec fn turned(plan: PlanView) -> bool
    decreases plan,
{
    match plan {
        PlanView::Filter { input, .. } => turned(*input),
        PlanView::Project { input, .. } => turned(*input),
        PlanView::Sort { input, .. } => turned(*input),
        PlanView::Limit { input, .. } => turned(*input),
        PlanView::Offset { input, .. } => turned(*input),
        PlanView::Distinct { input } => turned(*input),
        PlanView::NestedLoopJoin { left, right, kind, .. } => turned(*left) && turned(*right)
            && !(kind is RightOuter),
        PlanView::Union { left, right, .. } => turned(*left) && turned(*right),
        _ => true,
    }
}

/// Whether no join of the plan keeps the unmatched rows of its right side.
pub fn joins_turned(plan: &PlanNode) -> (holds: bool)
    ensures
        holds == turned(plan.deep_view()),
    decreases plan,
{
    match plan {
        PlanNode::Filter { input, .. } => joins_turned(input),
        PlanNode::Project { input, .. } => joins_turned(input),
        PlanNode::Sort { input, .. } => joins_turned(input),
        PlanNode::Limit { input, .. } => joins_turned(input),
        PlanNode::Offset { input, .. } => joins_turned(input),
        PlanNode::Distinct { input } => joins_turned(input),
        PlanNode::NestedLoopJoin { left, right, kind, .. } => joins_turned(left) && joins_turned(
            right,
        ) && !matches!(kind, JoinKind::RightOuter),
        PlanNode::Union { left, right, .. } => joins_turned(left) && joins_turned(right),
        _ => true,
    }
}

/// The count of a slice; a negative one wraps round.
pub open spec fn count_of(count: ExprView) -> Option<int> {
    match count {
        ExprView::Literal(LiteralView::Int(n)) => Some((n as usize) as int),
        _ => None,
    }
}

/// The count of a slice.
pub fn slice_count(count: &Expr) -> (n: Option<usize>)
    ensures
        match n {
            Some(n) => count_of(count.deep_view()) == Some(n as int),
            None => count_of(count.deep_view()) is None,
        },
{
    match count {
        Expr::Literal(Literal::Int(n)) => Some(
            #[verifier::truncate]
            (*n as usize),
        ),
        _ => None,
    }
}

/// The columns of a scan: as they are, or under an alias.
pub open spec fn scan_names(table: TableView, alias: Option<Seq<char>>) -> Seq<Seq<char>> {
    match alias {
        None => table.schema.column_names(),
        Some(alias) => Seq::new(
            table.schema.columns.len(),
            |i: int| qualified(alias, table.schema.columns[i].name),
        ),
    }
}

/// The rows of a table with their ids, under the source name `source`.
pub open spec fn sourced_scan(
    catalog: CatalogView,
    table: Seq<char>,
    source: Seq<char>,
    alias: Option<Seq<char>>,
) -> Result<ProvenanceView, ErrorView> {
    match catalog.table(table) {
        None => Err(ErrorView::TableNotFound(table)),
        Some(found) => Ok(
            ProvenanceView {
                columns: scan_names(found, alias),
                rows: table_rows(found),
                source_aliases: seq![source],
                provenance: Seq::new(found.rows.len(), |i: int| seq![Some(found.rows[i].rid)]),
            },
        ),
    }
}

/// The rows at these positions.
pub open spec fn picked(input: ProvenanceView, at: Seq<int>) -> ProvenanceView {
    ProvenanceView {
        columns: input.columns,
        rows: pick(input.rows, at),
        source_aliases: input.source_aliases,
        provenance: pick(input.provenance, at),
    }
}

/// Both inputs, one after the other.
pub open spec fn stacked(left: ProvenanceView, right: ProvenanceView) -> ProvenanceView {
    ProvenanceView {
        columns: left.columns,
        rows: left.rows + right.rows,
        source_aliases: left.source_aliases,
        provenance: left.provenance + right.provenance,
    }
}

/// No column for any key.
pub open spec fn no_columns(n: nat) -> Seq<Option<int>> {
    Seq::new(n, |i: int| None::<int>)
}

/// The error for a plan whose rows cannot be traced.
pub open spec fn untraceable_error() -> ErrorView {
    ErrorView::Execution("symmetric aggregation input shape is not supported; use raw"@)
}

/// The rows of a plan with the stored rows behind them, before they are counted
/// against the budget, and the budget after the inputs.
pub open spec fn sourced_step(
    catalog: CatalogView,
    model: SessionModel,
    plan: PlanView,
    budget: Budget,
) -> Result<(ProvenanceView, Budget), ErrorView>
    decreases indirect_scans(plan), plan, 0nat,
{
    match plan {
        PlanView::SeqScan { table } => with_budget(sourced_scan(catalog, table, table, None), budget),
        PlanView::AliasScan { table, alias } => with_budget(
            sourced_scan(catalog, table, alias, Some(alias)),
            budget,
        ),
        PlanView::IndexScan { .. } => {
            proof {
                fallback_is_direct(plan);
            }
            sourced(catalog, model, scan_fallback(plan), budget)
        },
        PlanView::RangeScan { .. } => {
            proof {
                fallback_is_direct(plan);
            }
            sourced(catalog, model, scan_fallback(plan), budget)
        },
        PlanView::ExprIndexScan { .. } => {
            proof {
                fallback_is_direct(plan);
            }
            sourced(catalog, model, scan_fallback(plan), budget)
        },
        PlanView::ExprRangeScan { .. } => {
            proof {
                fallback_is_direct(plan);
            }
            sourced(catalog, model, scan_fallback(plan), budget)
        },
        PlanView::OrderedExprIndexScan { .. } => {
            proof {
                fallback_is_direct(plan);
            }
            sourced(catalog, model, scan_fallback(plan), budget)
        },
        PlanView::Filter { input, predicate } => if holds_subquery(predicate) {
            Err(
                ErrorView::Execution(
                    "symmetric aggregation over a subquery filter is not supported; use raw"@,
                ),
            )
        } else {
            match sourced(catalog, model, *input, budget) {
                Err(error) => Err(error),
                Ok((got, left)) => Ok(
                    (
                        picked(
                            got,
                            holding_from(model.scalars.eval, predicate, got.rows, got.columns, 0),
                        ),
                        left,
                    ),
                ),
            }
        },
        PlanView::Project { input, fields } => match sourced(catalog, model, *input, budget) {
            Err(error) => Err(error),
            Ok((got, left)) => Ok(
                (
                    ProvenanceView {
                        columns: worded_names(model.words, fields),
                        rows: projection(model.scalars.eval, fields, got.rows, got.columns),
                        source_aliases: got.source_aliases,
                        provenance: got.provenance,
                    },
                    left,
                ),
            ),
        },
        PlanView::Sort { input, keys } => match sourced(catalog, model, *input, budget) {
            Err(error) => Err(error),
            Ok((got, left)) => sourced_sort(model, keys, got, left),
        },
        PlanView::Limit { input, count } => match sourced(catalog, model, *input, budget) {
            Err(error) => Err(error),
            Ok((got, left)) => match count_of(count) {
                None => Err(sourced_count_error()),
                Some(n) => Ok((picked(got, slice_positions(got.rows.len() as int, 0, n)), left)),
            },
        },
        PlanView::Offset { input, count } => match sourced(catalog, model, *input, budget) {
            Err(error) => Err(error),
            Ok((got, left)) => match count_of(count) {
                None => Err(sourced_count_error()),
                Some(n) => Ok(
                    (
                        picked(
                            got,
                            slice_positions(got.rows.len() as int, n, got.rows.len() as int),
                        ),
                        left,
                    ),
                ),
            },
        },
        PlanView::Distinct { input } => match sourced(catalog, model, *input, budget) {
            Err(error) => Err(error),
            Ok((got, left)) => Ok(
                (picked(got, fresh_from(got.rows, 0)), left),
            ),
        },
        PlanView::Union { left, right, all } => match sourced(catalog, model, *left, budget) {
            Err(error) => Err(error),
            Ok((first, rest)) => match sourced(catalog, model, *right, rest) {
                Err(error) => Err(error),
                Ok((second, rest)) => with_budget(sourced_union(first, second, all), rest),
            },
        },
        PlanView::NestedLoopJoin { left, right, on, kind } => match sourced(
            catalog,
            model,
            *left,
            budget,
        ) {
            Err(error) => Err(error),
            Ok((first, rest)) => match sourced(catalog, model, *right, rest) {
                Err(error) => Err(error),
                Ok((second, rest)) => with_budget(
                    provenance_join_of(
                        first,
                        second,
                        on,
                        kind,
                        model.scalars.eval,
                        model.limits.join_pairs,
                        model.limits.join_rows,
                    ),
                    rest,
                ),
            },
        },
        _ => Err(untraceable_error()),
    }
}

/// The rows of a plan with the stored rows behind them, and the budget that is
/// left.
pub open spec fn sourced(
    catalog: CatalogView,
    model: SessionModel,
    plan: PlanView,
    budget: Budget,
) -> Result<(ProvenanceView, Budget), ErrorView>
    decreases indirect_scans(plan), plan, 1nat,
{
    match sourced_step(catalog, model, plan, budget) {
        Err(error) => Err(error),
        Ok((got, left)) => match hold_charge(model.sizes, HoldingView::Provenance(got), left) {
            Err(error) => Err(error),
            Ok(rest) => Ok((got, rest)),
        },
    }
}

/// A result, with the budget that it leaves.
pub open spec fn with_budget<A>(result: Result<A, ErrorView>, budget: Budget) -> Result<
    (A, Budget),
    ErrorView,
> {
    match result {
        Ok(value) => Ok((value, budget)),
        Err(error) => Err(error),
    }
}

/// The error for a slice whose count is no integer.
pub open spec fn sourced_count_error() -> ErrorView {
    ErrorView::Execution("limit/offset must be an integer literal"@)
}

/// Rows with provenance in the order of an `order` clause.
pub open spec fn sourced_sort(
    model: SessionModel,
    keys: Seq<SortKeyView>,
    got: ProvenanceView,
    budget: Budget,
) -> Result<(ProvenanceView, Budget), ErrorView> {
    if got.rows.len() > model.limits.sort_rows {
        Err(ErrorView::SortLimitExceeded)
    } else {
        match hold_charge(model.sizes, HoldingView::Rows(got.rows), budget) {
            Err(error) => Err(error),
            Ok(left) => match sort_charge(left, got.rows.len() as int) {
                Err(error) => Err(error),
                Ok(rest) => Ok(
                    (
                        picked(
                            got,
                            ordered(
                                model.scalars,
                                keys,
                                no_columns(keys.len()),
                                got.rows,
                                got.columns,
                            ),
                        ),
                        rest,
                    ),
                ),
            },
        }
    }
}

/// The union of rows with provenance: the sides must agree in the number of
/// their columns and in their sources.
pub open spec fn sourced_union(left: ProvenanceView, right: ProvenanceView, all: bool) -> Result<
    ProvenanceView,
    ErrorView,
> {
    if left.columns.len() != right.columns.len() {
        Err(ErrorView::Execution("union sides must have the same number of columns"@))
    } else if left.source_aliases != right.source_aliases {
        Err(
            ErrorView::Execution(
                "symmetric aggregation over union requires matching source aliases; use raw"@,
            ),
        )
    } else if all {
        Ok(stacked(left, right))
    } else {
        let both = stacked(left, right);
        Ok(picked(both, fresh_from(both.rows, 0)))
    }
}

/// Every row has a value for each column and an entry for each source.
pub open spec fn input_fits(input: ProvenanceView) -> bool {
    input.wf() && rows_match(input.rows, input.columns)
}

fn aliased_columns(names: &Vec<String>, alias: &String) -> (columns: Vec<String>)
    ensures
        columns.deep_view() == Seq::new(names.deep_view().len(), |i: int| qualified(alias@, names.deep_view()[i])),
{
    let ghost all = names.deep_view();
    let mut columns: Vec<String> = Vec::new();
    let mut i: usize = 0;
    while i < names.len()
        invariant
            i <= names.len(),
            all == names.deep_view(),
            columns.len() == i,
            forall|j: int| 0 <= j < i ==> (#[trigger] columns[j])@ == qualified(alias@, all[j]),
        decreases names.len() - i,
    {
        columns.push(qualified_name(alias, &names[i]));
        i = i + 1;
    }
    assert(columns.deep_view() =~= Seq::new(all.len(), |i: int| qualified(alias@, all[i])));
    columns
}

/// The columns of a scan: as they are, or under an alias.
pub fn scan_columns_of(catalog_table: &Table, alias: Option<&String>) -> (columns:
    Vec<String>)
    ensures
        columns.deep_view() == scan_names(
            catalog_table.deep_view(),
            match alias {
                Some(alias) => Some(alias@),
                None => None,
            },
        ),
        columns.len() == catalog_table.schema.columns.len(),
{
    let names = catalog_table.schema.column_names();
    match alias {
        None => names,
        Some(alias) => {
            let columns = aliased_columns(&names, alias);
            proof {
                let view = catalog_table.deep_view();
                assert(columns.deep_view() =~= scan_names(view, Some(alias@)));
                assert(columns.deep_view().len() == columns.len());
            }
            columns
        },
    }
}

/// The rows of a table with their ids.
pub fn provenance_scan<P: Fn() -> Result<(), QueryError>>(
    catalog: &Catalog,
    table: &String,
    source: &String,
    alias: Option<&String>,
    poll: &P,
) -> (scanned: Result<ProvenanceRows, QueryError>)
    requires
        call_requires(*poll, ()),
        catalog_fits(catalog.deep_view()),
    ensures
        answered(
            scanned,
            sourced_scan(
                catalog.deep_view(),
                table@,
                source@,
                match alias {
                    Some(alias) => Some(alias@),
                    None => None,
                },
            ),
            *poll,
        ),
        scanned matches Ok(input) ==> input_fits(input.deep_view()),
{
    let found = match catalog.table(table) {
        Some(found) => found,
        None => {
            return Err(QueryError::TableNotFound(table.clone()));
        },
    };
    let ghost view = found.deep_view();
    proof {
        found_table_fits(catalog.deep_view(), table@);
    }
    let columns = scan_columns_of(found, alias);
    let rows = scan_rows(found, poll)?;
    let mut provenance: Vec<Vec<Option<RowId>>> = Vec::new();
    let mut i: usize = 0;
    while i < found.rows.len()
        invariant
            i <= found.rows.len(),
            view == found.deep_view(),
            provenance.len() == i,
            forall|j: int|
                0 <= j < i ==> (#[trigger] provenance[j])@ == seq![Some(view.rows[j].rid)],
        decreases found.rows.len() - i,
    {
        let mut ids: Vec<Option<RowId>> = Vec::new();
        ids.push(Some(found.rows[i].rid));
        assert(ids@ =~= seq![Some(view.rows[i as int].rid)]);
        provenance.push(ids);
        i = i + 1;
    }
    let mut source_aliases: Vec<String> = Vec::new();
    source_aliases.push(source.clone());
    let input = ProvenanceRows { columns, rows, source_aliases, provenance };
    proof {
        assert(input.deep_view().source_aliases =~= seq![source@]);
        assert(input.deep_view().provenance =~= Seq::new(
            view.rows.len(),
            |i: int| seq![Some(view.rows[i].rid)],
        ));
        let shown = input.deep_view();
        assert forall|r: int| 0 <= r < shown.rows.len() implies (#[trigger] shown.rows[r]).len()
            == shown.columns.len() by {
            assert(view.rows[r].values.len() == view.schema.columns.len());
        }
    }
    Ok(input)
}

fn pick_input(input: ProvenanceRows, at: &Vec<usize>) -> (out: ProvenanceRows)
    requires
        input_fits(input.deep_view()),
        forall|i: int| 0 <= i < at.len() ==> #[trigger] at[i] < input.rows.len(),
    ensures
        out.deep_view() == picked(input.deep_view(), ints(at@)),
        input_fits(out.deep_view()),
{
    let ghost view = input.deep_view();
    proof {
        assert(view.rows.len() == input.rows.len());
        assert(view.provenance.len() == input.provenance.len());
    }
    let rows = rows_at(&input.rows, at);
    let provenance = sources_at(&input.provenance, at);
    let ProvenanceRows { columns, rows: _, source_aliases, provenance: _ } = input;
    let out = ProvenanceRows { columns, rows, source_aliases, provenance };
    proof {
        let shown = out.deep_view();
        assert forall|r: int| 0 <= r < shown.rows.len() implies (#[trigger] shown.rows[r]).len()
            == shown.columns.len() && shown.provenance[r].len() == shown.source_aliases.len() by {
            assert(at[r] < input.rows.len());
            assert(shown.rows[r] == view.rows[at[r] as int]);
            assert(shown.provenance[r] == view.provenance[at[r] as int]);
        }
    }
    out
}

fn append_sources(first: Vec<Vec<Option<RowId>>>, more: &Vec<Vec<Option<RowId>>>) -> (both: Vec<
    Vec<Option<RowId>>,
>)
    ensures
        provenance_view(both@) == provenance_view(first@) + provenance_view(more@),
{
    let ghost start = provenance_view(first@);
    let ghost added = provenance_view(more@);
    let mut both = first;
    let mut i: usize = 0;
    assert(start + added.take(0) =~= start);
    while i < more.len()
        invariant
            i <= more.len(),
            added == provenance_view(more@),
            provenance_view(both@) == start + added.take(i as int),
        decreases more.len() - i,
    {
        let ghost before = provenance_view(both@);
        both.push(clone_sources(&more[i]));
        assert(provenance_view(both@) =~= before.push(added[i as int]));
        assert(added.take(i + 1) =~= added.take(i as int).push(added[i as int]));
        assert(provenance_view(both@) =~= start + added.take(i + 1));
        i = i + 1;
    }
    assert(added.take(added.len() as int) =~= added);
    both
}

fn texts_same(a: &Vec<String>, b: &Vec<String>) -> (same: bool)
    ensures
        same == (a.deep_view() == b.deep_view()),
{
    if a.len() != b.len() {
        assert(a.deep_view().len() != b.deep_view().len());
        return false;
    }
    let mut i: usize = 0;
    while i < a.len()
        invariant
            a.len() == b.len(),
            i <= a.len(),
            forall|j: int| 0 <= j < i ==> a.deep_view()[j] == b.deep_view()[j],
        decreases a.len() - i,
    {
        if a[i] != b[i] {
            assert(a.deep_view()[i as int] != b.deep_view()[i as int]);
            return false;
        }
        i = i + 1;
    }
    assert(a.deep_view() =~= b.deep_view());
    true
}

fn union_inputs<P: Fn() -> Result<(), QueryError>>(
    left: ProvenanceRows,
    right: ProvenanceRows,
    all: bool,
    poll: &P,
) -> (out: Result<
    ProvenanceRows,
    QueryError,
>)
    requires
        call_requires(*poll, ()),
        input_fits(left.deep_view()),
        input_fits(right.deep_view()),
    ensures
        answered(
            out,
            sourced_union(left.deep_view(), right.deep_view(), all),
            *poll,
        ),
        out matches Ok(input) ==> input_fits(input.deep_view()),
{
    let ghost a = left.deep_view();
    let ghost b = right.deep_view();
    proof {
        assert(a.columns.len() == left.columns.len());
        assert(b.columns.len() == right.columns.len());
    }
    if left.columns.len() != right.columns.len() {
        return Err(QueryError::execution("union sides must have the same number of columns"));
    }
    if !texts_same(&left.source_aliases, &right.source_aliases) {
        return Err(
            QueryError::execution(
                "symmetric aggregation over union requires matching source aliases; use raw",
            ),
        );
    }
    let ProvenanceRows { columns, rows, source_aliases, provenance } = left;
    let rows = append_rows(rows, &right.rows, poll)?;
    let provenance = append_sources(provenance, &right.provenance);
    let both = ProvenanceRows { columns, rows, source_aliases, provenance };
    proof {
        let shown = both.deep_view();
        assert(shown == stacked(a, b));
        assert forall|r: int| 0 <= r < shown.rows.len() implies (#[trigger] shown.rows[r]).len()
            == shown.columns.len() && shown.provenance[r].len() == shown.source_aliases.len() by {
            if r < a.rows.len() {
                assert(shown.rows[r] == a.rows[r]);
                assert(shown.provenance[r] == a.provenance[r]);
            } else {
                assert(shown.rows[r] == b.rows[r - a.rows.len()]);
                assert(shown.provenance[r] == b.provenance[r - a.rows.len()]);
            }
        }
    }
    if all {
        return Ok(both);
    }
    let at = fresh_positions(&both.rows, poll)?;
    Ok(pick_input(both, &at))
}

fn no_ats(n: usize) -> (ats: Vec<Option<usize>>)
    ensures
        ats.len() == n,
        ats_view(ats@) == no_columns(n as nat),
        forall|i: int| 0 <= i < n ==> #[trigger] ats[i] is None,
{
    let mut ats: Vec<Option<usize>> = Vec::new();
    let mut i: usize = 0;
    while i < n
        invariant
            i <= n,
            ats.len() == i,
            forall|j: int| 0 <= j < i ==> #[trigger] ats[j] is None,
        decreases n - i,
    {
        ats.push(None);
        i = i + 1;
    }
    assert(ats_view(ats@) =~= no_columns(n as nat));
    ats
}

fn sort_input<
    E: Fn(&Expr, &Vec<Value>, &Vec<String>) -> Value,
    C: Fn(&Value, &Value) -> Order,
    F: Fn(FloatOp) -> u64,
    T: Fn(Subject) -> Option<String>,
    J: Fn(&String) -> Result<Vec<u8>, String>,
    Q: Fn(&Expr, Option<(&Vec<Value>, &Vec<String>)>) -> Result<Expr, QueryError>,
    S: Fn(Holding) -> usize,
    B: Fn(Option<&Expr>, &Table) -> bool,
    P: Fn() -> Result<(), QueryError>,
>(
    session: &Session<E, C, F, T, J, Q, S, B, P>,
    keys: &Vec<SortKey>,
    input: ProvenanceRows,
    budget: &mut Budget,
) -> (out: Result<ProvenanceRows, QueryError>)
    requires
        session.ok(),
        input_fits(input.deep_view()),
    ensures
        answered_within(
            out,
            *final(budget),
            sourced_sort(
                session.model(),
                sort_keys_view(keys@),
                input.deep_view(),
                *old(budget),
            ),
            session.poll,
        ),
        out matches Ok(got) ==> input_fits(got.deep_view()),
{
    let ghost view = input.deep_view();
    assert(view.rows.len() == input.rows.len());
    if input.rows.len() > session.limits.sort_rows {
        return Err(QueryError::SortLimitExceeded);
    }
    session.sizes.charge(Holding::Rows(&input.rows), budget)?;
    let ats = no_ats(keys.len());
    assert(sort_keys_view(keys@).len() == keys.len());
    assert(rows_reach(view.rows, ats_view(ats@)));
    let at = order_positions(
        &session.scalars,
        keys,
        &ats,
        &input.rows,
        &input.columns,
        budget,
        &session.poll,
    )?;
    Ok(pick_input(input, &at))
}

fn lookup_plan(table: &String, column: &String, key: &Expr) -> (plan: PlanNode)
    ensures
        plan.deep_view() == lookup_fallback(table@, column@, key.deep_view()),
{
    let subject = Expr::Field(column.clone());
    assert(subject.deep_view() == ExprView::Field(column@));
    let predicate = Expr::BinaryOp(Box::new(subject), BinOp::Eq, Box::new(clone_expr(key)));
    filter_scan(table, predicate)
}

fn fallback_plan(plan: &PlanNode) -> (fallback: Option<PlanNode>)
    ensures
        match fallback {
            Some(other) => is_indirect(plan.deep_view()) && other.deep_view() == scan_fallback(
                plan.deep_view(),
            ),
            None => !is_indirect(plan.deep_view()),
        },
{
    match plan {
        PlanNode::IndexScan { table, column, key } => Some(lookup_plan(table, column, key)),
        PlanNode::RangeScan { table, column, start, end } => Some(
            filter_scan(table, synthesize_range_predicate(column, start, end)),
        ),
        _ => expression_index_fallback(plan),
    }
}

fn step<
    E: Fn(&Expr, &Vec<Value>, &Vec<String>) -> Value,
    C: Fn(&Value, &Value) -> Order,
    F: Fn(FloatOp) -> u64,
    T: Fn(Subject) -> Option<String>,
    J: Fn(&String) -> Result<Vec<u8>, String>,
    Q: Fn(&Expr, Option<(&Vec<Value>, &Vec<String>)>) -> Result<Expr, QueryError>,
    S: Fn(Holding) -> usize,
    B: Fn(Option<&Expr>, &Table) -> bool,
    P: Fn() -> Result<(), QueryError>,
>(
    catalog: &Catalog,
    session: &Session<E, C, F, T, J, Q, S, B, P>,
    plan: &PlanNode,
    budget: &mut Budget,
) -> (result: Result<ProvenanceRows, QueryError>)
    requires
        session.ok(),
        catalog_fits(catalog.deep_view()),
        turned(plan.deep_view()),
    ensures
        answered_within(
            result,
            *final(budget),
            sourced_step(catalog.deep_view(), session.model(), plan.deep_view(), *old(budget)),
            session.poll,
        ),
        result matches Ok(input) ==> input_fits(input.deep_view()),
    decreases indirect_scans(plan.deep_view()), plan, 0nat,
{
    let poll = &session.poll;
    match fallback_plan(plan) {
        Some(fallback) => {
            proof {
                fallback_is_direct(plan.deep_view());
            }
            return materialize_rows_with_provenance(catalog, session, &fallback, budget);
        },
        None => {},
    }
    match plan {
        PlanNode::SeqScan { table } => provenance_scan(catalog, table, table, None, poll),
        PlanNode::AliasScan { table, alias } => provenance_scan(
            catalog,
            table,
            alias,
            Some(alias),
            poll,
        ),
        PlanNode::Filter { input, predicate } => {
            if contains_subquery(predicate) {
                return Err(
                    QueryError::execution(
                        "symmetric aggregation over a subquery filter is not supported; use raw",
                    ),
                );
            }
            let got = materialize_rows_with_provenance(catalog, session, input, budget)?;
            let at = holding_positions(&session.scalars, predicate, &got.rows, &got.columns, poll)?;
            Ok(pick_input(got, &at))
        },
        PlanNode::Project { input, fields } => {
            let got = materialize_rows_with_provenance(catalog, session, input, budget)?;
            let ghost view = got.deep_view();
            let names = word_fields(&session.wording, fields);
            let rows = project_rows(&session.scalars, fields, &got.rows, &got.columns, poll)?;
            let ProvenanceRows { columns: _, rows: _, source_aliases, provenance } = got;
            let out = ProvenanceRows { columns: names, rows, source_aliases, provenance };
            proof {
                let shown = out.deep_view();
                assert forall|r: int| 0 <= r < shown.rows.len() implies (#[trigger] shown.rows[r]).len()
                    == shown.columns.len() by {}
                assert(shown.provenance == view.provenance);
            }
            Ok(out)
        },
        PlanNode::Sort { input, keys } => {
            let got = materialize_rows_with_provenance(catalog, session, input, budget)?;
            sort_input(session, keys, got, budget)
        },
        PlanNode::Limit { input, count } => {
            let got = materialize_rows_with_provenance(catalog, session, input, budget)?;
            assert(got.deep_view().rows.len() == got.rows.len());
            match slice_count(count) {
                None => Err(QueryError::execution("limit/offset must be an integer literal")),
                Some(n) => {
                    let at = sliced_positions(got.rows.len(), 0, n, poll)?;
                    Ok(pick_input(got, &at))
                },
            }
        },
        PlanNode::Offset { input, count } => {
            let got = materialize_rows_with_provenance(catalog, session, input, budget)?;
            assert(got.deep_view().rows.len() == got.rows.len());
            match slice_count(count) {
                None => Err(QueryError::execution("limit/offset must be an integer literal")),
                Some(n) => {
                    let at = sliced_positions(got.rows.len(), n, got.rows.len(), poll)?;
                    Ok(pick_input(got, &at))
                },
            }
        },
        PlanNode::Distinct { input } => {
            let got = materialize_rows_with_provenance(catalog, session, input, budget)?;
            let at = fresh_positions(&got.rows, poll)?;
            Ok(pick_input(got, &at))
        },
        PlanNode::Union { left, right, all } => {
            let first = materialize_rows_with_provenance(catalog, session, left, budget)?;
            let second = materialize_rows_with_provenance(catalog, session, right, budget)?;
            union_inputs(first, second, *all, poll)
        },
        PlanNode::NestedLoopJoin { left, right, on, kind } => {
            let first = materialize_rows_with_provenance(catalog, session, left, budget)?;
            let second = materialize_rows_with_provenance(catalog, session, right, budget)?;
            let joined = execute_provenance_join(
                &session.scalars,
                &first,
                &second,
                on.as_ref(),
                *kind,
                session.limits.join_pairs,
                session.limits.join_rows,
                poll,
            )?;
            Ok(joined)
        },
        _ => Err(
            QueryError::execution("symmetric aggregation input shape is not supported; use raw"),
        ),
    }
}

/// The rows of a plan with the stored rows behind them.
pub fn materialize_rows_with_provenance<
    E: Fn(&Expr, &Vec<Value>, &Vec<String>) -> Value,
    C: Fn(&Value, &Value) -> Order,
    F: Fn(FloatOp) -> u64,
    T: Fn(Subject) -> Option<String>,
    J: Fn(&String) -> Result<Vec<u8>, String>,
    Q: Fn(&Expr, Option<(&Vec<Value>, &Vec<String>)>) -> Result<Expr, QueryError>,
    S: Fn(Holding) -> usize,
    B: Fn(Option<&Expr>, &Table) -> bool,
    P: Fn() -> Result<(), QueryError>,
>(
    catalog: &Catalog,
    session: &Session<E, C, F, T, J, Q, S, B, P>,
    plan: &PlanNode,
    budget: &mut Budget,
) -> (result: Result<ProvenanceRows, QueryError>)
    requires
        session.ok(),
        catalog_fits(catalog.deep_view()),
        turned(plan.deep_view()),
    ensures
        answered_within(
            result,
            *final(budget),
            sourced(catalog.deep_view(), session.model(), plan.deep_view(), *old(budget)),
            session.poll,
        ),
        result matches Ok(input) ==> input_fits(input.deep_view()),
    decreases indirect_scans(plan.deep_view()), plan, 1nat,
{
    let got = step(catalog, session, plan, budget)?;
    session.sizes.charge(Holding::Provenance(&got), budget)?;
    Ok(got)
}

} // verus!
