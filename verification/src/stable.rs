//! A plan that is ready to run stays as it is: getting it ready again gives it
//! back.

use vstd::prelude::*;

use crate::catalog::CatalogView;
use crate::coerce::{
    aggregates_with, both, coerced_bound, coerced_expr, coerced_items, coerced_key,
    coerced_literal, coerced_plan, coerced_whens, fields_with, group_keys_with, sort_keys_with,
    typed_comparison, typed_scope, CoerceModel, TypedScopeView,
};
use crate::error::{Budget, ErrorView};
use crate::expr::{BinOp, ExprView, LiteralView, SortKeyView};
use crate::join::conjuncts;
use crate::lower::{
    best_driver, binary, bound_at, bounded_targets, bounds_of, candidates_of, conjoined, driven,
    driven_conjunction, eq_candidate, eq_candidates, eq_index_scan, first_bound, index_key,
    keyed_scan, lowered, path_expr, range_candidate, range_candidates, range_predicate,
    residual_from, target_of, target_range_scan, BoundView, CandidateView, RangeTargetView,
};
use crate::engine::{plan_decision, prepared_plan, readied, EngineModel, EngineState};
use crate::group::{agg_exprs, key_exprs};
use crate::plan::{PlanView, ProjectFieldView};
use crate::scalars::FloatModel;
use crate::scope::{node_names, plan_names, rebound_from, scan_columns};
use crate::validate::field_exprs;
use crate::value::TypeId;
use crate::window::order_exprs;

verus! {

/// A scan of an index that is there, which lowering leaves alone.
spec fn probes(catalog: CatalogView, plan: PlanView) -> bool {
    match plan {
        PlanView::IndexScan { table, column, .. } => catalog.index(table, column) is Some,
        PlanView::RangeScan { table, column, .. } => catalog.index(table, column) is Some,
        PlanView::ExprIndexScan { table, path, .. } => catalog.expression_index(
            table,
            path,
        ) is Some,
        PlanView::ExprRangeScan { table, path, .. } => catalog.expression_index(
            table,
            path,
        ) is Some,
        _ => false,
    }
}

proof fn eq_candidates_probe(
    catalog: CatalogView,
    floats: FloatModel,
    table: Seq<char>,
    parts: Seq<ExprView>,
    i: int,
    k: int,
)
    requires
        0 <= k < eq_candidates(catalog, floats, table, parts, i).len(),
    ensures
        probes(catalog, eq_candidates(catalog, floats, table, parts, i)[k].plan),
    decreases parts.len() - i,
{
    let here = eq_candidate(catalog, floats, table, parts, i);
    if 0 <= i < parts.len() {
        let n = if here is Some {
            1int
        } else {
            0int
        };
        if k >= n {
            eq_candidates_probe(catalog, floats, table, parts, i + 1, k - n);
        }
    }
}

proof fn range_candidates_probe(
    catalog: CatalogView,
    floats: FloatModel,
    table: Seq<char>,
    bounds: Seq<Option<BoundView>>,
    targets: Seq<RangeTargetView>,
    i: int,
    k: int,
)
    requires
        0 <= k < range_candidates(catalog, floats, table, bounds, targets, i).len(),
    ensures
        probes(catalog, range_candidates(catalog, floats, table, bounds, targets, i)[k].plan),
    decreases targets.len() - i,
{
    let here = range_candidate(catalog, floats, table, bounds, targets[i]);
    if 0 <= i < targets.len() {
        let n = if here is Some {
            1int
        } else {
            0int
        };
        if k >= n {
            range_candidates_probe(catalog, floats, table, bounds, targets, i + 1, k - n);
        }
    }
}

proof fn best_driver_is_candidate(candidates: Seq<CandidateView>, n: int)
    requires
        n <= candidates.len(),
    ensures
        best_driver(candidates, n) matches Some(k) ==> 0 <= k < n,
    decreases n,
{
    if n > 0 {
        best_driver_is_candidate(candidates, n - 1);
    }
}

/// What drives a conjunction is a scan of an index that is there.
proof fn drivers_probe(
    catalog: CatalogView,
    floats: FloatModel,
    table: Seq<char>,
    predicate: ExprView,
)
    requires
        driven_conjunction(catalog, floats, table, predicate) is Some,
    ensures
        exists|plan: PlanView, residual: Seq<ExprView>|
            probes(catalog, plan) && driven_conjunction(catalog, floats, table, predicate) == Some(
                #[trigger] driven(plan, residual),
            ),
{
    let parts = conjuncts(predicate);
    let bounds = bounds_of(parts);
    let targets = bounded_targets(bounds, bounds.len() as int);
    let eqs = eq_candidates(catalog, floats, table, parts, 0);
    let ranges = range_candidates(catalog, floats, table, bounds, targets, 0);
    let candidates = candidates_of(catalog, floats, table, parts);
    assert(candidates == eqs + ranges);
    best_driver_is_candidate(candidates, candidates.len() as int);
    let k = best_driver(candidates, candidates.len() as int)->0;
    if k < eqs.len() {
        eq_candidates_probe(catalog, floats, table, parts, 0, k);
    } else {
        range_candidates_probe(catalog, floats, table, bounds, targets, 0, k - eqs.len());
    }
    let plan = candidates[k].plan;
    let residual = residual_from(parts, candidates[k].consumed, 0);
    assert(driven_conjunction(catalog, floats, table, predicate) == Some(driven(plan, residual)));
}

proof fn targets_are_bounded(bounds: Seq<Option<BoundView>>, n: int, target: RangeTargetView)
    requires
        n <= bounds.len(),
        forall|i: int|
            0 <= i < bounds.len() ==> (#[trigger] bounds[i] matches Some(b) ==> b.target == target),
    ensures
        forall|k: int|
            0 <= k < bounded_targets(bounds, n).len() ==> #[trigger] bounded_targets(bounds, n)[k]
                == target,
    decreases n,
{
    if n > 0 {
        targets_are_bounded(bounds, n - 1, target);
    }
}

proof fn no_range_without_index(
    catalog: CatalogView,
    floats: FloatModel,
    table: Seq<char>,
    bounds: Seq<Option<BoundView>>,
    targets: Seq<RangeTargetView>,
    i: int,
    target: RangeTargetView,
)
    requires
        !has_index(catalog, table, target),
        forall|k: int| 0 <= k < targets.len() ==> #[trigger] targets[k] == target,
    ensures
        range_candidates(catalog, floats, table, bounds, targets, i).len() == 0,
    decreases targets.len() - i,
{
    if 0 <= i < targets.len() {
        no_range_without_index(catalog, floats, table, bounds, targets, i + 1, target);
        assert(targets[i] == target);
    }
}

/// Whether a column or a path has an index.
spec fn has_index(catalog: CatalogView, table: Seq<char>, target: RangeTargetView) -> bool {
    match target {
        RangeTargetView::Column(column) => catalog.index(table, column) is Some,
        RangeTargetView::JsonPath(path) => catalog.expression_index(table, path) is Some,
    }
}

/// Without an index on what it bounds, a range is not driven.
proof fn unindexed_range_is_not_driven(
    catalog: CatalogView,
    floats: FloatModel,
    table: Seq<char>,
    target: RangeTargetView,
    start: Option<(ExprView, bool)>,
    end: Option<(ExprView, bool)>,
)
    requires
        !has_index(catalog, table, target),
    ensures
        driven_conjunction(
            catalog,
            floats,
            table,
            range_predicate(target.expr(), start, end),
        ) is None,
{
    let subject = target.expr();
    let predicate = range_predicate(subject, start, end);
    let parts = conjuncts(predicate);
    assert(target_of(subject) == Some(target));
    if start is Some && end is Some {
        let lower = binary(
            subject,
            if (start->0).1 {
                BinOp::Gte
            } else {
                BinOp::Gt
            },
            (start->0).0,
        );
        let upper = binary(
            subject,
            if (end->0).1 {
                BinOp::Lte
            } else {
                BinOp::Lt
            },
            (end->0).0,
        );
        assert(predicate == binary(lower, BinOp::And, upper));
        assert(conjuncts(lower) =~= seq![lower]);
        assert(conjuncts(upper) =~= seq![upper]);
        assert(parts =~= seq![lower, upper]);
        let bounds = bounds_of(parts);
        let targets = bounded_targets(bounds, bounds.len() as int);
        assert forall|i: int| 0 <= i < bounds.len() implies (#[trigger] bounds[i] matches Some(b)
            ==> b.target == target) by {
            assert(parts[i] == lower || parts[i] == upper);
        }
        targets_are_bounded(bounds, bounds.len() as int, target);
        no_range_without_index(catalog, floats, table, bounds, targets, 0, target);
        assert(eq_index_scan(table, parts[0]) is None);
        assert(eq_index_scan(table, parts[1]) is None);
        reveal_with_fuel(eq_candidates, 3);
        assert(eq_candidates(catalog, floats, table, parts, 0).len() == 0);
        assert(candidates_of(catalog, floats, table, parts).len() == 0);
    } else {
        assert(parts.len() == 1);
    }
}

proof fn lowered_scan_was_scan(catalog: CatalogView, floats: FloatModel, plan: PlanView)
    ensures
        lowered(catalog, floats, plan) is SeqScan ==> plan is SeqScan,
{
    match plan {
        PlanView::Filter { input, predicate } => match *input {
            PlanView::SeqScan { table } => {
                if driven_conjunction(catalog, floats, table, predicate) is Some {
                    drivers_probe(catalog, floats, table, predicate);
                }
            },
            _ => {},
        },
        _ => {},
    }
}

/// Lowering is idempotent: a plan that is lowered is its own lowering.
pub proof fn lowering_is_idempotent(catalog: CatalogView, floats: FloatModel, plan: PlanView)
    ensures
        lowered(catalog, floats, lowered(catalog, floats, plan)) == lowered(catalog, floats, plan),
    decreases plan,
{
    match plan {
        PlanView::Filter { input, predicate } => {
            lowering_is_idempotent(catalog, floats, *input);
            lowered_scan_was_scan(catalog, floats, *input);
            match *input {
                PlanView::SeqScan { table } => {
                    if driven_conjunction(catalog, floats, table, predicate) is Some {
                        drivers_probe(catalog, floats, table, predicate);
                        let (driver, residual) = choose|driver: PlanView, residual: Seq<ExprView>|
                            probes(catalog, driver) && driven_conjunction(
                                catalog,
                                floats,
                                table,
                                predicate,
                            ) == Some(#[trigger] driven(driver, residual));
                        assert(lowered(catalog, floats, driver) == driver);
                    }
                },
                _ => {},
            }
        },
        PlanView::RangeScan { table, column, start, end } => {
            let target = RangeTargetView::Column(column);
            assert(target.expr() == ExprView::Field(column));
            if catalog.index(table, column) is None {
                unindexed_range_is_not_driven(catalog, floats, table, target, start, end);
            }
            unfiltered(catalog, floats, table, range_predicate(ExprView::Field(column), start, end));
        },
        PlanView::IndexScan { table, column, key } => {
            unfiltered(
                catalog,
                floats,
                table,
                binary(ExprView::Field(column), BinOp::Eq, key),
            );
        },
        PlanView::ExprIndexScan { table, path, key } => {
            unfiltered(catalog, floats, table, binary(path_expr(path), BinOp::Eq, key));
        },
        PlanView::ExprRangeScan { table, path, start, end } => {
            let target = RangeTargetView::JsonPath(path);
            assert(target.expr() == path_expr(path));
            if catalog.expression_index(table, path) is None {
                unindexed_range_is_not_driven(catalog, floats, table, target, start, end);
            }
            unfiltered(catalog, floats, table, range_predicate(path_expr(path), start, end));
        },
        PlanView::OrderedExprIndexScan { table, path, descending, limit, offset } => {
            let scan = PlanView::SeqScan { table };
            let sorted = PlanView::Sort {
                input: Box::new(scan),
                keys: seq![SortKeyView { expr: path_expr(path), descending }],
            };
            assert(lowered(catalog, floats, scan) == scan);
            assert(lowered(catalog, floats, sorted) == sorted);
            match offset {
                Some(count) => {
                    let sliced = PlanView::Offset { input: Box::new(sorted), count };
                    assert(lowered(catalog, floats, sliced) == sliced);
                },
                None => {},
            }
        },
        PlanView::Project { input, .. } => lowering_is_idempotent(catalog, floats, *input),
        PlanView::Sort { input, .. } => lowering_is_idempotent(catalog, floats, *input),
        PlanView::Limit { input, .. } => lowering_is_idempotent(catalog, floats, *input),
        PlanView::Offset { input, .. } => lowering_is_idempotent(catalog, floats, *input),
        PlanView::Aggregate { input, .. } => lowering_is_idempotent(catalog, floats, *input),
        PlanView::Distinct { input } => lowering_is_idempotent(catalog, floats, *input),
        PlanView::GroupBy { input, .. } => lowering_is_idempotent(catalog, floats, *input),
        PlanView::Update { input, .. } => lowering_is_idempotent(catalog, floats, *input),
        PlanView::Delete { input, .. } => lowering_is_idempotent(catalog, floats, *input),
        PlanView::Window { input, .. } => lowering_is_idempotent(catalog, floats, *input),
        PlanView::Explain { input } => lowering_is_idempotent(catalog, floats, *input),
        PlanView::Union { left, right, .. } => {
            lowering_is_idempotent(catalog, floats, *left);
            lowering_is_idempotent(catalog, floats, *right);
        },
        PlanView::NestedLoopJoin { left, right, .. } => {
            lowering_is_idempotent(catalog, floats, *left);
            lowering_is_idempotent(catalog, floats, *right);
        },
        _ => {},
    }
}

/// A filter over a full scan that nothing drives is its own lowering.
proof fn unfiltered(catalog: CatalogView, floats: FloatModel, table: Seq<char>, predicate: ExprView)
    ensures
        driven_conjunction(catalog, floats, table, predicate) is None ==> {
            let plan = PlanView::Filter {
                input: Box::new(PlanView::SeqScan { table }),
                predicate,
            };
            lowered(catalog, floats, plan) == plan
        },
        predicate matches ExprView::BinaryOp(_, op, _) && op == BinOp::Eq ==> driven_conjunction(
            catalog,
            floats,
            table,
            predicate,
        ) is None,
{
    let scan = PlanView::SeqScan { table };
    assert(lowered(catalog, floats, scan) == scan);
}


/// Coercing an expression changes no column reference and turns nothing into
/// one, and a literal that is left was a literal before.
proof fn coercion_keeps_references(cx: TypedScopeView, expr: ExprView)
    ensures
        coerced_expr(cx, expr) matches Ok(e) ==> {
            &&& (e is Field || expr is Field ==> e == expr)
            &&& (e is QualifiedField || expr is QualifiedField ==> e == expr)
            &&& (e is Literal || expr is Literal ==> e == expr)
        },
{
}

proof fn literal_coerced_twice(
    model: CoerceModel,
    name: Seq<char>,
    type_id: TypeId,
    literal: LiteralView,
)
    ensures
        coerced_literal(model, name, type_id, literal) matches Ok(e) ==> match e {
            ExprView::Literal(l) => coerced_literal(model, name, type_id, l) == Ok::<
                ExprView,
                ErrorView,
            >(e),
            ExprView::ValueLit(_) => true,
            _ => false,
        },
{
}

/// Coercing an expression is idempotent: in one scope, a coerced expression has
/// no literal left to coerce.
pub proof fn expr_coerced_twice(cx: TypedScopeView, expr: ExprView)
    ensures
        coerced_expr(cx, expr) matches Ok(e) ==> coerced_expr(cx, e) == Ok::<ExprView, ErrorView>(
            e,
        ),
    decreases expr, 0int,
{
    match expr {
        ExprView::BinaryOp(left, op, right) => {
            expr_coerced_twice(cx, *left);
            expr_coerced_twice(cx, *right);
            coercion_keeps_references(cx, *left);
            coercion_keeps_references(cx, *right);
            if typed_comparison(op) {
                match (cx.typed_column(*left), *right) {
                    (Some((name, t)), ExprView::Literal(literal)) => {
                        literal_coerced_twice(cx.model, name, t, literal);
                        match coerced_literal(cx.model, name, t, literal) {
                            Ok(r) => {
                                let e = ExprView::BinaryOp(left, op, Box::new(r));
                                assert(coerced_expr(cx, expr) == Ok::<ExprView, ErrorView>(e));
                                assert(coerced_expr(cx, *left) == Ok::<ExprView, ErrorView>(*left));
                                assert(coerced_expr(cx, r) == Ok::<ExprView, ErrorView>(r));
                                assert(cx.coerced_operand(r, *left) is None);
                            },
                            Err(_) => {},
                        }
                    },
                    _ => match (cx.typed_column(*right), *left) {
                        (Some((name, t)), ExprView::Literal(literal)) => {
                            literal_coerced_twice(cx.model, name, t, literal);
                            match coerced_literal(cx.model, name, t, literal) {
                                Ok(l) => {
                                    let e = ExprView::BinaryOp(Box::new(l), op, right);
                                    assert(coerced_expr(cx, expr) == Ok::<ExprView, ErrorView>(e));
                                    assert(coerced_expr(cx, *right) == Ok::<ExprView, ErrorView>(
                                        *right,
                                    ));
                                    assert(coerced_expr(cx, l) == Ok::<ExprView, ErrorView>(l));
                                    assert(cx.coerced_operand(l, *right) is None);
                                },
                                Err(_) => {},
                            }
                        },
                        _ => {},
                    },
                }
            }
        },
        ExprView::InList { expr: subject, list, negated } => {
            expr_coerced_twice(cx, *subject);
            coercion_keeps_references(cx, *subject);
            let typed = cx.typed_column(*subject);
            items_coerced_twice(cx, typed, list, 0);
            match coerced_expr(cx, *subject) {
                Ok(s) => {
                    assert(cx.typed_column(s) == typed);
                },
                Err(_) => {},
            }
        },
        ExprView::UnaryOp(op, inner) => expr_coerced_twice(cx, *inner),
        ExprView::Coalesce(left, right) => {
            expr_coerced_twice(cx, *left);
            expr_coerced_twice(cx, *right);
        },
        ExprView::Case { whens, else_expr } => {
            whens_coerced_twice(cx, whens, 0);
            match else_expr {
                Some(inner) => expr_coerced_twice(cx, *inner),
                None => {},
            }
        },
        _ => {},
    }
}

/// What coercing the items from `i` on gives.
spec fn item_of(
    cx: TypedScopeView,
    typed: Option<(Seq<char>, TypeId)>,
    item: ExprView,
) -> Result<ExprView, ErrorView> {
    match (typed, item) {
        (Some((name, t)), ExprView::Literal(literal)) => coerced_literal(cx.model, name, t, literal),
        _ => coerced_expr(cx, item),
    }
}

/// A list whose items from `k` on are each as coercing leaves them is as
/// coercing leaves it.
proof fn settled_items(
    cx: TypedScopeView,
    typed: Option<(Seq<char>, TypeId)>,
    items: Seq<ExprView>,
    k: int,
)
    requires
        0 <= k <= items.len(),
        forall|j: int|
            k <= j < items.len() ==> item_of(cx, typed, #[trigger] items[j]) == Ok::<
                ExprView,
                ErrorView,
            >(items[j]),
    ensures
        coerced_items(cx, typed, items, k) == Ok::<Seq<ExprView>, ErrorView>(items.skip(k)),
    decreases items.len() - k,
{
    if k < items.len() {
        settled_items(cx, typed, items, k + 1);
        assert(item_of(cx, typed, items[k]) == Ok::<ExprView, ErrorView>(items[k]));
        assert(seq![items[k]] + items.skip(k + 1) =~= items.skip(k));
    } else {
        assert(items.skip(k) =~= Seq::empty());
    }
}

proof fn coerced_items_settle(
    cx: TypedScopeView,
    typed: Option<(Seq<char>, TypeId)>,
    items: Seq<ExprView>,
    i: int,
)
    requires
        0 <= i <= items.len(),
    ensures
        coerced_items(cx, typed, items, i) matches Ok(out) ==> {
            &&& out.len() == items.len() - i
            &&& forall|j: int|
                0 <= j < out.len() ==> item_of(cx, typed, #[trigger] out[j]) == Ok::<
                    ExprView,
                    ErrorView,
                >(out[j])
            &&& forall|j: int|
                0 <= j < out.len() ==> item_of(cx, typed, items[i + j]) == Ok::<
                    ExprView,
                    ErrorView,
                >(#[trigger] out[j])
        },
    decreases items, items.len() - i,
{
    if i < items.len() {
        coerced_items_settle(cx, typed, items, i + 1);
        match (typed, items[i]) {
            (Some((name, t)), ExprView::Literal(literal)) => {
                literal_coerced_twice(cx.model, name, t, literal);
            },
            _ => {
                expr_coerced_twice(cx, items[i]);
                coercion_keeps_references(cx, items[i]);
            },
        }
        match (item_of(cx, typed, items[i]), coerced_items(cx, typed, items, i + 1)) {
            (Ok(item), Ok(rest)) => {
                let out = seq![item] + rest;
                assert(coerced_items(cx, typed, items, i) == Ok::<Seq<ExprView>, ErrorView>(out));
                assert(item_of(cx, typed, item) == Ok::<ExprView, ErrorView>(item));
                assert forall|j: int| 0 <= j < out.len() implies item_of(cx, typed, #[trigger] out[j])
                    == Ok::<ExprView, ErrorView>(out[j]) by {
                    if j > 0 {
                        assert(out[j] == rest[j - 1]);
                    }
                }
                assert forall|j: int| 0 <= j < out.len() implies item_of(cx, typed, items[i + j])
                    == Ok::<ExprView, ErrorView>(#[trigger] out[j]) by {
                    if j > 0 {
                        assert(out[j] == rest[j - 1]);
                        assert(items[i + 1 + (j - 1)] == items[i + j]);
                    }
                }
            },
            _ => {},
        }
    }
}

proof fn items_coerced_twice(
    cx: TypedScopeView,
    typed: Option<(Seq<char>, TypeId)>,
    items: Seq<ExprView>,
    i: int,
)
    requires
        i == 0,
    ensures
        coerced_items(cx, typed, items, i) matches Ok(out) ==> coerced_items(cx, typed, out, i)
            == Ok::<Seq<ExprView>, ErrorView>(out),
    decreases items, items.len() + 1,
{
    coerced_items_settle(cx, typed, items, 0);
    match coerced_items(cx, typed, items, 0) {
        Ok(out) => {
            settled_items(cx, typed, out, 0);
            assert(out.skip(0) =~= out);
        },
        Err(_) => {},
    }
}

proof fn settled_whens(cx: TypedScopeView, whens: Seq<(ExprView, ExprView)>, k: int)
    requires
        0 <= k <= whens.len(),
        forall|j: int|
            k <= j < whens.len() ==> both(
                coerced_expr(cx, (#[trigger] whens[j]).0),
                coerced_expr(cx, whens[j].1),
            ) == Ok::<(ExprView, ExprView), ErrorView>(whens[j]),
    ensures
        coerced_whens(cx, whens, k) == Ok::<Seq<(ExprView, ExprView)>, ErrorView>(whens.skip(k)),
    decreases whens.len() - k,
{
    if k < whens.len() {
        settled_whens(cx, whens, k + 1);
        assert(both(coerced_expr(cx, whens[k].0), coerced_expr(cx, whens[k].1)) == Ok::<
            (ExprView, ExprView),
            ErrorView,
        >(whens[k]));
        assert(seq![whens[k]] + whens.skip(k + 1) =~= whens.skip(k));
    } else {
        assert(whens.skip(k) =~= Seq::empty());
    }
}

proof fn coerced_whens_settle(cx: TypedScopeView, whens: Seq<(ExprView, ExprView)>, i: int)
    requires
        0 <= i <= whens.len(),
    ensures
        coerced_whens(cx, whens, i) matches Ok(out) ==> {
            &&& out.len() == whens.len() - i
            &&& forall|j: int|
                0 <= j < out.len() ==> both(
                    coerced_expr(cx, (#[trigger] out[j]).0),
                    coerced_expr(cx, out[j].1),
                ) == Ok::<(ExprView, ExprView), ErrorView>(out[j])
        },
    decreases whens, whens.len() - i,
{
    if i < whens.len() {
        coerced_whens_settle(cx, whens, i + 1);
        expr_coerced_twice(cx, whens[i].0);
        expr_coerced_twice(cx, whens[i].1);
        match (
            both(coerced_expr(cx, whens[i].0), coerced_expr(cx, whens[i].1)),
            coerced_whens(cx, whens, i + 1),
        ) {
            (Ok(arm), Ok(rest)) => {
                let out = seq![arm] + rest;
                assert(coerced_whens(cx, whens, i) == Ok::<
                    Seq<(ExprView, ExprView)>,
                    ErrorView,
                >(out));
                assert forall|j: int| 0 <= j < out.len() implies both(
                    coerced_expr(cx, (#[trigger] out[j]).0),
                    coerced_expr(cx, out[j].1),
                ) == Ok::<(ExprView, ExprView), ErrorView>(out[j]) by {
                    if j > 0 {
                        assert(out[j] == rest[j - 1]);
                    }
                }
            },
            _ => {},
        }
    }
}

proof fn whens_coerced_twice(cx: TypedScopeView, whens: Seq<(ExprView, ExprView)>, i: int)
    requires
        i == 0,
    ensures
        coerced_whens(cx, whens, i) matches Ok(out) ==> coerced_whens(cx, out, i) == Ok::<
            Seq<(ExprView, ExprView)>,
            ErrorView,
        >(out),
    decreases whens, whens.len() + 1,
{
    coerced_whens_settle(cx, whens, 0);
    match coerced_whens(cx, whens, 0) {
        Ok(out) => {
            settled_whens(cx, out, 0);
            assert(out.skip(0) =~= out);
        },
        Err(_) => {},
    }
}


/// Coercing the fields of a projection keeps the names that it gives to
/// something else than the column of that name.
proof fn coercion_keeps_rebound(
    cx: TypedScopeView,
    fields: Seq<ProjectFieldView>,
    exprs: Seq<ExprView>,
    i: int,
)
    requires
        0 <= i <= fields.len(),
        exprs.len() == fields.len(),
        forall|j: int|
            0 <= j < exprs.len() ==> item_of(cx, None, fields[j].expr) == Ok::<
                ExprView,
                ErrorView,
            >(#[trigger] exprs[j]),
    ensures
        rebound_from(fields_with(fields, exprs), i) == rebound_from(fields, i),
    decreases fields.len() - i,
{
    if i < fields.len() {
        coercion_keeps_rebound(cx, fields, exprs, i + 1);
        assert(item_of(cx, None, fields[i].expr) == Ok::<ExprView, ErrorView>(exprs[i]));
        coercion_keeps_references(cx, fields[i].expr);
        assert(fields_with(fields, exprs)[i].expr == exprs[i]);
    }
}

/// Coercing a plan keeps the columns in scope and the names that it rebinds.
proof fn coercion_keeps_scope(catalog: CatalogView, cx: TypedScopeView, plan: PlanView)
    ensures
        coerced_plan(cx, plan) matches Ok(q) ==> {
            &&& scan_columns(catalog, q) == scan_columns(catalog, plan)
            &&& plan_names(q, true) == plan_names(plan, true)
        },
    decreases plan,
{
    match plan {
        PlanView::Filter { input, .. } => coercion_keeps_scope(catalog, cx, *input),
        PlanView::Project { input, fields } => {
            coercion_keeps_scope(catalog, cx, *input);
            coerced_items_settle(cx, None, field_exprs(fields), 0);
            match coerced_items(cx, None, field_exprs(fields), 0) {
                Ok(exprs) => {
                    assert forall|j: int| 0 <= j < exprs.len() implies item_of(
                        cx,
                        None,
                        fields[j].expr,
                    ) == Ok::<ExprView, ErrorView>(#[trigger] exprs[j]) by {
                        assert(field_exprs(fields)[0 + j] == fields[j].expr);
                    }
                    coercion_keeps_rebound(cx, fields, exprs, 0);
                },
                Err(_) => {},
            }
        },
        PlanView::GroupBy { input, aggregates, .. } => {
            coercion_keeps_scope(catalog, cx, *input);
            match coerced_plan(cx, plan) {
                Ok(q) => {
                    assert(node_names(q, true) =~= node_names(plan, true));
                },
                Err(_) => {},
            }
        },
        PlanView::NestedLoopJoin { left, right, .. } => {
            coercion_keeps_scope(catalog, cx, *left);
            coercion_keeps_scope(catalog, cx, *right);
        },
        PlanView::Union { left, right, .. } => {
            coercion_keeps_scope(catalog, typed_scope(cx.catalog, cx.model, *left), *left);
            coercion_keeps_scope(catalog, typed_scope(cx.catalog, cx.model, *right), *right);
        },
        PlanView::Sort { input, .. } => coercion_keeps_scope(catalog, cx, *input),
        PlanView::Limit { input, .. } => coercion_keeps_scope(catalog, cx, *input),
        PlanView::Offset { input, .. } => coercion_keeps_scope(catalog, cx, *input),
        PlanView::Aggregate { input, .. } => coercion_keeps_scope(catalog, cx, *input),
        PlanView::Distinct { input } => coercion_keeps_scope(catalog, cx, *input),
        PlanView::Window { input, .. } => coercion_keeps_scope(catalog, cx, *input),
        PlanView::Update { input, .. } => coercion_keeps_scope(catalog, cx, *input),
        PlanView::Delete { input, .. } => coercion_keeps_scope(catalog, cx, *input),
        PlanView::Explain { input } => coercion_keeps_scope(catalog, cx, *input),
        PlanView::NestedProject { input, .. } => coercion_keeps_scope(catalog, cx, *input),
        _ => {},
    }
}

proof fn plan_coerced_twice(cx: TypedScopeView, plan: PlanView)
    ensures
        coerced_plan(cx, plan) matches Ok(q) ==> coerced_plan(cx, q) == Ok::<PlanView, ErrorView>(
            q,
        ),
    decreases plan,
{
    match plan {
        PlanView::IndexScan { table, column, key } => key_coerced_twice(cx, table, column, key),
        PlanView::RangeScan { table, column, start, end } => {
            match start {
                Some((key, _)) => key_coerced_twice(cx, table, column, key),
                None => {},
            }
            match end {
                Some((key, _)) => key_coerced_twice(cx, table, column, key),
                None => {},
            }
        },
        PlanView::Filter { input, predicate } => {
            plan_coerced_twice(cx, *input);
            expr_coerced_twice(cx, predicate);
        },
        PlanView::Project { input, fields } => {
            plan_coerced_twice(cx, *input);
            coerced_items_settle(cx, None, field_exprs(fields), 0);
            items_coerced_twice(cx, None, field_exprs(fields), 0);
            match coerced_items(cx, None, field_exprs(fields), 0) {
                Ok(exprs) => {
                    let out = fields_with(fields, exprs);
                    assert(field_exprs(out) =~= exprs);
                    assert(fields_with(out, exprs) =~= out);
                },
                Err(_) => {},
            }
        },
        PlanView::Sort { input, keys } => {
            plan_coerced_twice(cx, *input);
            coerced_items_settle(cx, None, order_exprs(keys), 0);
            items_coerced_twice(cx, None, order_exprs(keys), 0);
            match coerced_items(cx, None, order_exprs(keys), 0) {
                Ok(exprs) => {
                    let out = sort_keys_with(keys, exprs);
                    assert(order_exprs(out) =~= exprs);
                    assert(sort_keys_with(out, exprs) =~= out);
                },
                Err(_) => {},
            }
        },
        PlanView::GroupBy { input, keys, aggregates, having } => {
            plan_coerced_twice(cx, *input);
            coerced_items_settle(cx, None, key_exprs(keys), 0);
            items_coerced_twice(cx, None, key_exprs(keys), 0);
            coerced_items_settle(cx, None, agg_exprs(aggregates), 0);
            items_coerced_twice(cx, None, agg_exprs(aggregates), 0);
            match having {
                Some(expr) => expr_coerced_twice(cx, expr),
                None => {},
            }
            match coerced_items(cx, None, key_exprs(keys), 0) {
                Ok(exprs) => {
                    let out = group_keys_with(keys, exprs);
                    assert(key_exprs(out) =~= exprs);
                    assert(group_keys_with(out, exprs) =~= out);
                },
                Err(_) => {},
            }
            match coerced_items(cx, None, agg_exprs(aggregates), 0) {
                Ok(exprs) => {
                    let out = aggregates_with(aggregates, exprs);
                    assert(agg_exprs(out) =~= exprs);
                    assert(aggregates_with(out, exprs) =~= out);
                },
                Err(_) => {},
            }
        },
        PlanView::Aggregate { input, argument, .. } => {
            plan_coerced_twice(cx, *input);
            match argument {
                Some(expr) => expr_coerced_twice(cx, expr),
                None => {},
            }
        },
        PlanView::NestedLoopJoin { left, right, on, .. } => {
            plan_coerced_twice(cx, *left);
            plan_coerced_twice(cx, *right);
            match on {
                Some(expr) => expr_coerced_twice(cx, expr),
                None => {},
            }
        },
        PlanView::Union { left, right, .. } => {
            let l = typed_scope(cx.catalog, cx.model, *left);
            let r = typed_scope(cx.catalog, cx.model, *right);
            plan_coerced_twice(l, *left);
            plan_coerced_twice(r, *right);
            coercion_keeps_scope(cx.catalog, l, *left);
            coercion_keeps_scope(cx.catalog, r, *right);
        },
        PlanView::Limit { input, .. } => plan_coerced_twice(cx, *input),
        PlanView::Offset { input, .. } => plan_coerced_twice(cx, *input),
        PlanView::Distinct { input } => plan_coerced_twice(cx, *input),
        PlanView::Window { input, .. } => plan_coerced_twice(cx, *input),
        PlanView::Update { input, .. } => plan_coerced_twice(cx, *input),
        PlanView::Delete { input, .. } => plan_coerced_twice(cx, *input),
        PlanView::Explain { input } => plan_coerced_twice(cx, *input),
        PlanView::NestedProject { input, .. } => plan_coerced_twice(cx, *input),
        _ => {},
    }
}

proof fn key_coerced_twice(cx: TypedScopeView, table: Seq<char>, column: Seq<char>, key: ExprView)
    ensures
        coerced_key(cx.catalog, cx.model, table, column, key) matches Ok(k) ==> coerced_key(
            cx.catalog,
            cx.model,
            table,
            column,
            k,
        ) == Ok::<ExprView, ErrorView>(k),
{
    match (key, cx.catalog.column_type(table, column)) {
        (ExprView::Literal(literal), Some(t)) => literal_coerced_twice(
            cx.model,
            column,
            t,
            literal,
        ),
        _ => {},
    }
}

/// Coercion is idempotent: a plan whose literals are coerced has none left to
/// coerce.
pub proof fn coercion_is_idempotent(catalog: CatalogView, model: CoerceModel, plan: PlanView)
    ensures
        coerced_plan(typed_scope(catalog, model, plan), plan) matches Ok(q) ==> coerced_plan(
            typed_scope(catalog, model, q),
            q,
        ) == Ok::<PlanView, ErrorView>(q),
{
    let cx = typed_scope(catalog, model, plan);
    plan_coerced_twice(cx, plan);
    coercion_keeps_scope(catalog, cx, plan);
}

/// Every lookup of a plan, followed through the inputs that it reads, is in an
/// index that is there.
pub open spec fn lookups_stand(catalog: CatalogView, plan: PlanView) -> bool
    decreases plan,
{
    match plan {
        PlanView::IndexScan { table, column, .. } => catalog.index(table, column) is Some,
        PlanView::RangeScan { table, column, .. } => catalog.index(table, column) is Some,
        PlanView::ExprIndexScan { table, path, .. } => catalog.expression_index(
            table,
            path,
        ) is Some,
        PlanView::ExprRangeScan { table, path, .. } => catalog.expression_index(
            table,
            path,
        ) is Some,
        PlanView::OrderedExprIndexScan { table, path, .. } => catalog.expression_index(
            table,
            path,
        ) is Some,
        PlanView::NestedLoopJoin { left, right, .. } => lookups_stand(catalog, *left)
            && lookups_stand(catalog, *right),
        PlanView::Union { left, right, .. } => lookups_stand(catalog, *left) && lookups_stand(
            catalog,
            *right,
        ),
        PlanView::Filter { input, .. } => lookups_stand(catalog, *input),
        PlanView::Project { input, .. } => lookups_stand(catalog, *input),
        PlanView::Sort { input, .. } => lookups_stand(catalog, *input),
        PlanView::Limit { input, .. } => lookups_stand(catalog, *input),
        PlanView::Offset { input, .. } => lookups_stand(catalog, *input),
        PlanView::Aggregate { input, .. } => lookups_stand(catalog, *input),
        PlanView::Distinct { input } => lookups_stand(catalog, *input),
        PlanView::GroupBy { input, .. } => lookups_stand(catalog, *input),
        PlanView::Window { input, .. } => lookups_stand(catalog, *input),
        PlanView::Update { input, .. } => lookups_stand(catalog, *input),
        PlanView::Delete { input, .. } => lookups_stand(catalog, *input),
        PlanView::Explain { input } => lookups_stand(catalog, *input),
        _ => true,
    }
}

/// A lowered plan looks up only in indexes that are there.
pub proof fn lowered_lookups_stand(catalog: CatalogView, floats: FloatModel, plan: PlanView)
    ensures
        lookups_stand(catalog, lowered(catalog, floats, plan)),
    decreases plan,
{
    reveal_with_fuel(lookups_stand, 5);
    match plan {
        PlanView::Filter { input, predicate } => {
            let driver = match *input {
                PlanView::SeqScan { table } => driven_conjunction(
                    catalog,
                    floats,
                    table,
                    predicate,
                ),
                _ => None,
            };
            match driver {
                Some(_) => drivers_probe(catalog, floats, input->SeqScan_table, predicate),
                None => lowered_lookups_stand(catalog, floats, *input),
            }
        },
        PlanView::NestedLoopJoin { left, right, .. } => {
            lowered_lookups_stand(catalog, floats, *left);
            lowered_lookups_stand(catalog, floats, *right);
        },
        PlanView::Union { left, right, .. } => {
            lowered_lookups_stand(catalog, floats, *left);
            lowered_lookups_stand(catalog, floats, *right);
        },
        PlanView::Project { input, .. } => lowered_lookups_stand(catalog, floats, *input),
        PlanView::Sort { input, .. } => lowered_lookups_stand(catalog, floats, *input),
        PlanView::Limit { input, .. } => lowered_lookups_stand(catalog, floats, *input),
        PlanView::Offset { input, .. } => lowered_lookups_stand(catalog, floats, *input),
        PlanView::Aggregate { input, .. } => lowered_lookups_stand(catalog, floats, *input),
        PlanView::Distinct { input } => lowered_lookups_stand(catalog, floats, *input),
        PlanView::GroupBy { input, .. } => lowered_lookups_stand(catalog, floats, *input),
        PlanView::Window { input, .. } => lowered_lookups_stand(catalog, floats, *input),
        PlanView::Update { input, .. } => lowered_lookups_stand(catalog, floats, *input),
        PlanView::Delete { input, .. } => lowered_lookups_stand(catalog, floats, *input),
        PlanView::Explain { input } => lowered_lookups_stand(catalog, floats, *input),
        _ => {},
    }
}

/// Coercing looks up nothing in another index.
proof fn coerced_lookups_stand(cx: TypedScopeView, plan: PlanView)
    requires
        lookups_stand(cx.catalog, plan),
    ensures
        coerced_plan(cx, plan) matches Ok(q) ==> lookups_stand(cx.catalog, q),
    decreases plan,
{
    match plan {
        PlanView::NestedLoopJoin { left, right, .. } => {
            coerced_lookups_stand(cx, *left);
            coerced_lookups_stand(cx, *right);
        },
        PlanView::Union { left, right, .. } => {
            coerced_lookups_stand(typed_scope(cx.catalog, cx.model, *left), *left);
            coerced_lookups_stand(typed_scope(cx.catalog, cx.model, *right), *right);
        },
        PlanView::Filter { input, .. } => coerced_lookups_stand(cx, *input),
        PlanView::Project { input, .. } => coerced_lookups_stand(cx, *input),
        PlanView::Sort { input, .. } => coerced_lookups_stand(cx, *input),
        PlanView::Limit { input, .. } => coerced_lookups_stand(cx, *input),
        PlanView::Offset { input, .. } => coerced_lookups_stand(cx, *input),
        PlanView::Aggregate { input, .. } => coerced_lookups_stand(cx, *input),
        PlanView::Distinct { input } => coerced_lookups_stand(cx, *input),
        PlanView::GroupBy { input, .. } => coerced_lookups_stand(cx, *input),
        PlanView::Window { input, .. } => coerced_lookups_stand(cx, *input),
        PlanView::Update { input, .. } => coerced_lookups_stand(cx, *input),
        PlanView::Delete { input, .. } => coerced_lookups_stand(cx, *input),
        PlanView::Explain { input } => coerced_lookups_stand(cx, *input),
        _ => {},
    }
}

/// What stands in place of a lookup without an index brings the same columns
/// into scope.
proof fn lowered_leaf_keeps_scope(catalog: CatalogView, floats: FloatModel, plan: PlanView)
    requires
        plan is IndexScan || plan is RangeScan || plan is ExprIndexScan || plan is ExprRangeScan
            || plan is OrderedExprIndexScan,
    ensures
        scan_columns(catalog, lowered(catalog, floats, plan)) == scan_columns(catalog, plan),
        plan_names(lowered(catalog, floats, plan), true) == plan_names(plan, true),
{
    reveal_with_fuel(scan_columns, 5);
    reveal_with_fuel(plan_names, 5);
    let none = Seq::<Seq<char>>::empty();
    assert(none + none =~= none);
}

/// Lowering a plan keeps the columns in scope and the names that it rebinds.
proof fn lowering_keeps_scope(catalog: CatalogView, floats: FloatModel, plan: PlanView)
    ensures
        scan_columns(catalog, lowered(catalog, floats, plan)) == scan_columns(catalog, plan),
        plan_names(lowered(catalog, floats, plan), true) == plan_names(plan, true),
    decreases plan,
{
    reveal_with_fuel(scan_columns, 2);
    reveal_with_fuel(plan_names, 2);
    let none = Seq::<Seq<char>>::empty();
    assert(none + none =~= none);
    assert(none + (none + none) =~= none);
    match plan {
        PlanView::Filter { input, predicate } => {
            let driver = match *input {
                PlanView::SeqScan { table } => driven_conjunction(
                    catalog,
                    floats,
                    table,
                    predicate,
                ),
                _ => None,
            };
            match driver {
                Some(_) => {
                    let table = input->SeqScan_table;
                    drivers_scan(catalog, floats, table, predicate);
                },
                None => lowering_keeps_scope(catalog, floats, *input),
            }
        },
        PlanView::IndexScan { .. } => lowered_leaf_keeps_scope(catalog, floats, plan),
        PlanView::RangeScan { .. } => lowered_leaf_keeps_scope(catalog, floats, plan),
        PlanView::ExprIndexScan { .. } => lowered_leaf_keeps_scope(catalog, floats, plan),
        PlanView::ExprRangeScan { .. } => lowered_leaf_keeps_scope(catalog, floats, plan),
        PlanView::OrderedExprIndexScan { .. } => lowered_leaf_keeps_scope(catalog, floats, plan),
        PlanView::NestedLoopJoin { left, right, .. } => {
            lowering_keeps_scope(catalog, floats, *left);
            lowering_keeps_scope(catalog, floats, *right);
        },
        PlanView::Union { left, right, .. } => {
            lowering_keeps_scope(catalog, floats, *left);
            lowering_keeps_scope(catalog, floats, *right);
        },
        PlanView::Project { input, .. } => lowering_keeps_scope(catalog, floats, *input),
        PlanView::Sort { input, .. } => lowering_keeps_scope(catalog, floats, *input),
        PlanView::Limit { input, .. } => lowering_keeps_scope(catalog, floats, *input),
        PlanView::Offset { input, .. } => lowering_keeps_scope(catalog, floats, *input),
        PlanView::Aggregate { input, .. } => lowering_keeps_scope(catalog, floats, *input),
        PlanView::Distinct { input } => lowering_keeps_scope(catalog, floats, *input),
        PlanView::GroupBy { input, .. } => lowering_keeps_scope(catalog, floats, *input),
        PlanView::Window { input, .. } => lowering_keeps_scope(catalog, floats, *input),
        PlanView::Update { input, .. } => lowering_keeps_scope(catalog, floats, *input),
        PlanView::Delete { input, .. } => lowering_keeps_scope(catalog, floats, *input),
        PlanView::Explain { input } => lowering_keeps_scope(catalog, floats, *input),
        _ => {},
    }
}

/// A scan of an index of `table`, under keys that coercing leaves alone.
spec fn settled_probe(
    catalog: CatalogView,
    model: CoerceModel,
    table: Seq<char>,
    plan: PlanView,
) -> bool {
    match plan {
        PlanView::IndexScan { table: t, column, key } => t == table && coerced_key(
            catalog,
            model,
            table,
            column,
            key,
        ) == Ok::<ExprView, ErrorView>(key),
        PlanView::RangeScan { table: t, column, start, end } => t == table && coerced_bound(
            catalog,
            model,
            table,
            column,
            start,
        ) == Ok::<Option<(ExprView, bool)>, ErrorView>(start) && coerced_bound(
            catalog,
            model,
            table,
            column,
            end,
        ) == Ok::<Option<(ExprView, bool)>, ErrorView>(end),
        PlanView::ExprIndexScan { table: t, .. } => t == table,
        PlanView::ExprRangeScan { table: t, .. } => t == table,
        _ => false,
    }
}

proof fn index_keys_settle(
    catalog: CatalogView,
    model: CoerceModel,
    floats: FloatModel,
    table: Seq<char>,
    column: Seq<char>,
    key: ExprView,
)
    requires
        catalog.column_type(table, column) is Some,
    ensures
        index_key(floats, catalog.column_type(table, column)->0, key) matches Some(k)
            ==> coerced_key(catalog, model, table, column, k) == Ok::<ExprView, ErrorView>(k),
{
}

proof fn keyed_scans_settle(
    catalog: CatalogView,
    model: CoerceModel,
    floats: FloatModel,
    table: Seq<char>,
    scan: PlanView,
)
    requires
        scan matches PlanView::IndexScan { table: t, .. } ==> t == table,
        scan matches PlanView::RangeScan { table: t, .. } ==> t == table,
        scan matches PlanView::ExprIndexScan { table: t, .. } ==> t == table,
        scan matches PlanView::ExprRangeScan { table: t, .. } ==> t == table,
        scan is IndexScan || scan is RangeScan || scan is ExprIndexScan || scan is ExprRangeScan,
    ensures
        keyed_scan(catalog, floats, scan) matches Some(keyed) ==> settled_probe(
            catalog,
            model,
            table,
            keyed,
        ),
{
    match scan {
        PlanView::IndexScan { column, key, .. } => {
            if catalog.column_type(table, column) is Some {
                index_keys_settle(catalog, model, floats, table, column, key);
            }
        },
        PlanView::RangeScan { column, start, end, .. } => {
            if catalog.column_type(table, column) is Some {
                match start {
                    Some((key, _)) => index_keys_settle(
                        catalog,
                        model,
                        floats,
                        table,
                        column,
                        key,
                    ),
                    None => {},
                }
                match end {
                    Some((key, _)) => index_keys_settle(
                        catalog,
                        model,
                        floats,
                        table,
                        column,
                        key,
                    ),
                    None => {},
                }
            }
        },
        _ => {},
    }
}

proof fn eq_candidates_settle(
    catalog: CatalogView,
    model: CoerceModel,
    floats: FloatModel,
    table: Seq<char>,
    parts: Seq<ExprView>,
    i: int,
    k: int,
)
    requires
        0 <= k < eq_candidates(catalog, floats, table, parts, i).len(),
    ensures
        settled_probe(
            catalog,
            model,
            table,
            eq_candidates(catalog, floats, table, parts, i)[k].plan,
        ),
    decreases parts.len() - i,
{
    let here = eq_candidate(catalog, floats, table, parts, i);
    if 0 <= i < parts.len() {
        match eq_index_scan(table, parts[i]) {
            Some(scan) => keyed_scans_settle(catalog, model, floats, table, scan),
            None => {},
        }
        let n = if here is Some {
            1int
        } else {
            0int
        };
        if k >= n {
            eq_candidates_settle(catalog, model, floats, table, parts, i + 1, k - n);
        }
    }
}

proof fn range_candidates_settle(
    catalog: CatalogView,
    model: CoerceModel,
    floats: FloatModel,
    table: Seq<char>,
    bounds: Seq<Option<BoundView>>,
    targets: Seq<RangeTargetView>,
    i: int,
    k: int,
)
    requires
        0 <= k < range_candidates(catalog, floats, table, bounds, targets, i).len(),
    ensures
        settled_probe(
            catalog,
            model,
            table,
            range_candidates(catalog, floats, table, bounds, targets, i)[k].plan,
        ),
    decreases targets.len() - i,
{
    let here = range_candidate(catalog, floats, table, bounds, targets[i]);
    if 0 <= i < targets.len() {
        let lower = first_bound(bounds, targets[i], true);
        let upper = first_bound(bounds, targets[i], false);
        keyed_scans_settle(
            catalog,
            model,
            floats,
            table,
            target_range_scan(table, targets[i], bound_at(bounds, lower), bound_at(bounds, upper)),
        );
        let n = if here is Some {
            1int
        } else {
            0int
        };
        if k >= n {
            range_candidates_settle(
                catalog,
                model,
                floats,
                table,
                bounds,
                targets,
                i + 1,
                k - n,
            );
        }
    }
}

/// What drives a conjunction is a scan under keys that coercing leaves alone,
/// and what is left to filter are conjuncts of the predicate.
proof fn drivers_settle(
    catalog: CatalogView,
    model: CoerceModel,
    floats: FloatModel,
    table: Seq<char>,
    predicate: ExprView,
) -> (driver: (PlanView, Seq<int>))
    requires
        driven_conjunction(catalog, floats, table, predicate) is Some,
    ensures
        settled_probe(catalog, model, table, driver.0),
        driven_conjunction(catalog, floats, table, predicate) == Some(
            driven(driver.0, residual_from(conjuncts(predicate), driver.1, 0)),
        ),
{
    let parts = conjuncts(predicate);
    let bounds = bounds_of(parts);
    let targets = bounded_targets(bounds, bounds.len() as int);
    let eqs = eq_candidates(catalog, floats, table, parts, 0);
    let ranges = range_candidates(catalog, floats, table, bounds, targets, 0);
    let candidates = candidates_of(catalog, floats, table, parts);
    assert(candidates == eqs + ranges);
    best_driver_is_candidate(candidates, candidates.len() as int);
    let k = best_driver(candidates, candidates.len() as int)->0;
    if k < eqs.len() {
        eq_candidates_settle(catalog, model, floats, table, parts, 0, k);
    } else {
        range_candidates_settle(
            catalog,
            model,
            floats,
            table,
            bounds,
            targets,
            0,
            k - eqs.len(),
        );
    }
    (candidates[k].plan, candidates[k].consumed)
}

/// A driver brings the columns of its table into scope.
proof fn drivers_scan(
    catalog: CatalogView,
    floats: FloatModel,
    table: Seq<char>,
    predicate: ExprView,
)
    requires
        driven_conjunction(catalog, floats, table, predicate) is Some,
    ensures
        scan_columns(catalog, driven_conjunction(catalog, floats, table, predicate)->0)
            == scan_columns(catalog, PlanView::SeqScan { table }),
        plan_names(driven_conjunction(catalog, floats, table, predicate)->0, true) == Seq::<
            Seq<char>,
        >::empty(),
{
    reveal_with_fuel(scan_columns, 2);
    reveal_with_fuel(plan_names, 2);
    let none = Seq::<Seq<char>>::empty();
    assert(none + none =~= none);
    let model: CoerceModel = arbitrary();
    let (plan, consumed) = drivers_settle(catalog, model, floats, table, predicate);
}

proof fn conjuncts_settle(cx: TypedScopeView, expr: ExprView)
    requires
        coerced_expr(cx, expr) == Ok::<ExprView, ErrorView>(expr),
    ensures
        forall|i: int|
            0 <= i < conjuncts(expr).len() ==> coerced_expr(cx, #[trigger] conjuncts(expr)[i])
                == Ok::<ExprView, ErrorView>(conjuncts(expr)[i]),
    decreases expr,
{
    match expr {
        ExprView::BinaryOp(left, BinOp::And, right) => {
            conjuncts_settle(cx, *left);
            conjuncts_settle(cx, *right);
        },
        _ => {},
    }
}

proof fn residual_settles(cx: TypedScopeView, parts: Seq<ExprView>, consumed: Seq<int>, i: int)
    requires
        0 <= i <= parts.len(),
        forall|j: int|
            0 <= j < parts.len() ==> coerced_expr(cx, #[trigger] parts[j]) == Ok::<
                ExprView,
                ErrorView,
            >(parts[j]),
    ensures
        forall|j: int|
            0 <= j < residual_from(parts, consumed, i).len() ==> coerced_expr(
                cx,
                #[trigger] residual_from(parts, consumed, i)[j],
            ) == Ok::<ExprView, ErrorView>(residual_from(parts, consumed, i)[j]),
    decreases parts.len() - i,
{
    if i < parts.len() {
        residual_settles(cx, parts, consumed, i + 1);
        assert(coerced_expr(cx, parts[i]) == Ok::<ExprView, ErrorView>(parts[i]));
    }
}

proof fn conjunction_settles(cx: TypedScopeView, exprs: Seq<ExprView>, n: int)
    requires
        1 <= n <= exprs.len(),
        forall|j: int|
            0 <= j < exprs.len() ==> coerced_expr(cx, #[trigger] exprs[j]) == Ok::<
                ExprView,
                ErrorView,
            >(exprs[j]),
    ensures
        coerced_expr(cx, conjoined(exprs, n)) == Ok::<ExprView, ErrorView>(conjoined(exprs, n)),
    decreases n,
{
    assert(coerced_expr(cx, exprs[n - 1]) == Ok::<ExprView, ErrorView>(exprs[n - 1]));
    if n > 1 {
        conjunction_settles(cx, exprs, n - 1);
    } else {
        assert(coerced_expr(cx, exprs[0]) == Ok::<ExprView, ErrorView>(exprs[0]));
    }
}

/// A name that stands in scope with a type has that type there or none.

proof fn driven_settles(
    cx: TypedScopeView,
    floats: FloatModel,
    table: Seq<char>,
    predicate: ExprView,
)
    requires
        coerced_expr(cx, predicate) == Ok::<ExprView, ErrorView>(predicate),
        driven_conjunction(cx.catalog, floats, table, predicate) is Some,
    ensures
        coerced_plan(cx, driven_conjunction(cx.catalog, floats, table, predicate)->0) == Ok::<
            PlanView,
            ErrorView,
        >(driven_conjunction(cx.catalog, floats, table, predicate)->0),
{
    let (probe, consumed) = drivers_settle(cx.catalog, cx.model, floats, table, predicate);
    let parts = conjuncts(predicate);
    let residual = residual_from(parts, consumed, 0);
    conjuncts_settle(cx, predicate);
    residual_settles(cx, parts, consumed, 0);
    if residual.len() > 0 {
        conjunction_settles(cx, residual, residual.len() as int);
    }
    assert(coerced_plan(cx, probe) == Ok::<PlanView, ErrorView>(probe));
}

/// A settled plan over an input, with another settled input in its place, is
/// settled.
proof fn rewrapped_settles(cx: TypedScopeView, plan: PlanView, inner: PlanView)
    requires
        coerced_plan(cx, plan) == Ok::<PlanView, ErrorView>(plan),
        coerced_plan(cx, inner) == Ok::<PlanView, ErrorView>(inner),
    ensures
        rewrapped(plan, inner) matches Some(wrapped) ==> coerced_plan(cx, wrapped) == Ok::<
            PlanView,
            ErrorView,
        >(wrapped),
{
}

/// The plan with another input, for plans of one input.
spec fn rewrapped(plan: PlanView, inner: PlanView) -> Option<PlanView> {
    let input = Box::new(inner);
    match plan {
        PlanView::Filter { predicate, .. } => Some(PlanView::Filter { input, predicate }),
        PlanView::Limit { count, .. } => Some(PlanView::Limit { input, count }),
        PlanView::Offset { count, .. } => Some(PlanView::Offset { input, count }),
        PlanView::Distinct { .. } => Some(PlanView::Distinct { input }),
        PlanView::Window { windows, .. } => Some(PlanView::Window { input, windows }),
        PlanView::Update { table, assignments, returning, .. } => Some(
            PlanView::Update { input, table, assignments, returning },
        ),
        PlanView::Delete { table, returning, .. } => Some(
            PlanView::Delete { input, table, returning },
        ),
        PlanView::Explain { .. } => Some(PlanView::Explain { input }),
        PlanView::Aggregate { function, argument, mode, provenance_alias, .. } => Some(
            PlanView::Aggregate { input, function, argument, mode, provenance_alias },
        ),
        PlanView::GroupBy { keys, aggregates, having, .. } => Some(
            PlanView::GroupBy { input, keys, aggregates, having },
        ),
        PlanView::Project { fields, .. } => Some(PlanView::Project { input, fields }),
        PlanView::Sort { keys, .. } => Some(PlanView::Sort { input, keys }),
        _ => None,
    }
}

/// Lowering a settled plan whose lookups stand gives a settled plan.
proof fn lowering_settles(cx: TypedScopeView, floats: FloatModel, plan: PlanView)
    requires
        coerced_plan(cx, plan) == Ok::<PlanView, ErrorView>(plan),
        lookups_stand(cx.catalog, plan),
    ensures
        coerced_plan(cx, lowered(cx.catalog, floats, plan)) == Ok::<PlanView, ErrorView>(
            lowered(cx.catalog, floats, plan),
        ),
    decreases plan,
{
    match plan {
        PlanView::Filter { input, predicate } => {
            let driver = match *input {
                PlanView::SeqScan { table } => driven_conjunction(
                    cx.catalog,
                    floats,
                    table,
                    predicate,
                ),
                _ => None,
            };
            match driver {
                Some(_) => {
                    assert(coerced_expr(cx, predicate) == Ok::<ExprView, ErrorView>(predicate));
                    driven_settles(cx, floats, input->SeqScan_table, predicate);
                },
                None => {
                    lowering_settles(cx, floats, *input);
                    rewrapped_settles(cx, plan, lowered(cx.catalog, floats, *input));
                },
            }
        },
        PlanView::NestedLoopJoin { left, right, .. } => {
            lowering_settles(cx, floats, *left);
            lowering_settles(cx, floats, *right);
        },
        PlanView::Union { left, right, .. } => {
            lowering_settles(typed_scope(cx.catalog, cx.model, *left), floats, *left);
            lowering_settles(typed_scope(cx.catalog, cx.model, *right), floats, *right);
            lowering_keeps_scope(cx.catalog, floats, *left);
            lowering_keeps_scope(cx.catalog, floats, *right);
        },
        PlanView::Limit { input, .. } => {
            lowering_settles(cx, floats, *input);
            rewrapped_settles(cx, plan, lowered(cx.catalog, floats, *input));
        },
        PlanView::Offset { input, .. } => {
            lowering_settles(cx, floats, *input);
            rewrapped_settles(cx, plan, lowered(cx.catalog, floats, *input));
        },
        PlanView::Distinct { input } => {
            lowering_settles(cx, floats, *input);
            rewrapped_settles(cx, plan, lowered(cx.catalog, floats, *input));
        },
        PlanView::Window { input, .. } => {
            lowering_settles(cx, floats, *input);
            rewrapped_settles(cx, plan, lowered(cx.catalog, floats, *input));
        },
        PlanView::Update { input, .. } => {
            lowering_settles(cx, floats, *input);
            rewrapped_settles(cx, plan, lowered(cx.catalog, floats, *input));
        },
        PlanView::Delete { input, .. } => {
            lowering_settles(cx, floats, *input);
            rewrapped_settles(cx, plan, lowered(cx.catalog, floats, *input));
        },
        PlanView::Explain { input } => {
            lowering_settles(cx, floats, *input);
            rewrapped_settles(cx, plan, lowered(cx.catalog, floats, *input));
        },
        PlanView::Aggregate { input, .. } => {
            lowering_settles(cx, floats, *input);
            rewrapped_settles(cx, plan, lowered(cx.catalog, floats, *input));
        },
        PlanView::GroupBy { input, .. } => {
            lowering_settles(cx, floats, *input);
            rewrapped_settles(cx, plan, lowered(cx.catalog, floats, *input));
        },
        PlanView::Project { input, .. } => {
            lowering_settles(cx, floats, *input);
            rewrapped_settles(cx, plan, lowered(cx.catalog, floats, *input));
        },
        PlanView::Sort { input, .. } => {
            lowering_settles(cx, floats, *input);
            rewrapped_settles(cx, plan, lowered(cx.catalog, floats, *input));
        },
        _ => {},
    }
}

/// Getting a plan ready is idempotent: a plan that is ready is its own
/// preparation.
pub proof fn ready_plans_stay(catalog: CatalogView, model: EngineModel, plan: PlanView)
    ensures
        prepared_plan(catalog, model, plan) matches Ok(ready) ==> prepared_plan(
            catalog,
            model,
            ready,
        ) == Ok::<PlanView, ErrorView>(ready),
{
    if prepared_plan(catalog, model, plan) is Ok {
        let floats = model.session.scalars.float;
        let once = readied(catalog, model, plan)->Ok_0;
        let first = coerced_plan(typed_scope(catalog, model.coerce, plan), plan)->Ok_0;
        lowered_lookups_stand(catalog, floats, first);
        let cx = typed_scope(catalog, model.coerce, once);
        let coerced = coerced_plan(cx, once)->Ok_0;
        coerced_lookups_stand(cx, once);
        coercion_is_idempotent(catalog, model.coerce, once);
        lowering_settles(typed_scope(catalog, model.coerce, coerced), floats, coerced);
        lowering_keeps_scope(catalog, floats, coerced);
        lowering_is_idempotent(catalog, floats, coerced);
    }
}

/// A plan and what it is made ready as come to the same: running the plan that
/// is ready gives the same decision, from the same state and budget.
pub proof fn ready_plans_decide_alike(
    state: EngineState,
    model: EngineModel,
    plan: PlanView,
    budget: Budget,
)
    ensures
        prepared_plan(state.catalog, model, plan) matches Ok(ready) ==> plan_decision(
            state,
            model,
            ready,
            budget,
        ) == plan_decision(state, model, plan, budget),
{
    ready_plans_stay(state.catalog, model, plan);
}

/// A plan that is ready to run looks up only in indexes that are there.
pub proof fn ready_lookups_stand(catalog: CatalogView, model: EngineModel, plan: PlanView)
    ensures
        prepared_plan(catalog, model, plan) matches Ok(ready) ==> lookups_stand(catalog, ready),
{
    match readied(catalog, model, plan) {
        Ok(once) => match coerced_plan(typed_scope(catalog, model.coerce, once), once) {
            Ok(coerced) => lowered_lookups_stand(catalog, model.session.scalars.float, coerced),
            Err(_) => {},
        },
        Err(_) => {},
    }
}

} // verus!
