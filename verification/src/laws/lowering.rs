//! What stands in for a scan whose index is not there, and what a plan becomes.

use vstd::prelude::*;

use crate::catalog::{CatalogView, IndexStats};
use crate::expr::{BinOp, ExprView, LiteralView, SortKeyView};
use crate::join::and_is_conjunction;
use crate::laws::expressions::inputs;
use crate::laws::scanning::{meets_bounds, path_read};
use crate::lower::{
    bound_of, eq_index_scan, eq_rows, flipped, index_key, lowered, range_predicate,
    residual_from,
};
use crate::plan::{PlanView, StoredJsonPathView};
use crate::scalars::{EvalModel, FloatModel, FloatOp, Order};
use crate::value::{TypeId, ValueView};

verus! {

/// What a comparison says of how its operands are ordered.
pub open spec fn says(op: BinOp, order: Order) -> bool {
    match op {
        BinOp::Eq => order == Order::Equal,
        BinOp::Lt => order == Order::Less,
        BinOp::Gt => order == Order::Greater,
        BinOp::Lte => order == Order::Less || order == Order::Equal,
        BinOp::Gte => order == Order::Greater || order == Order::Equal,
        _ => false,
    }
}

/// An order, seen from the other operand.
pub open spec fn mirrored(order: Order) -> Order {
    match order {
        Order::Less => Order::Greater,
        Order::Equal => Order::Equal,
        Order::Greater => Order::Less,
    }
}

/// A comparison that is turned round says the same.
pub proof fn turned_comparisons_say_the_same(op: BinOp, order: Order)
    requires
        op == BinOp::Eq || op == BinOp::Lt || op == BinOp::Gt || op == BinOp::Lte || op
            == BinOp::Gte,
    ensures
        says(flipped(op), mirrored(order)) == says(op, order),
{
}

/// The condition of a range is true where both comparisons that it asks for are.
pub proof fn range_conditions_ask_both_bounds(
    eval: EvalModel,
    subject: ExprView,
    start: Option<(ExprView, bool)>,
    end: Option<(ExprView, bool)>,
    row: Seq<ValueView>,
    columns: Seq<Seq<char>>,
)
    requires
        and_is_conjunction(eval),
        eval(ExprView::Literal(LiteralView::Bool(true)), row, columns) == ValueView::Bool(true),
    ensures
        eval(range_predicate(subject, start, end), row, columns) == ValueView::Bool(true)
            <==> meets_bounds(eval, subject, start, end, row, columns),
{
}

/// Without its index a lookup becomes a filter over a full scan by the comparison
/// that it stands for; with it, it stays.
pub proof fn lookups_become_filters(
    catalog: CatalogView,
    floats: FloatModel,
    table: Seq<char>,
    column: Seq<char>,
    path: StoredJsonPathView,
    key: ExprView,
)
    ensures
        ({
            let scan = PlanView::IndexScan { table, column, key };
            lowered(catalog, floats, scan) == (if catalog.index(table, column) is Some {
                scan
            } else {
                PlanView::Filter {
                    input: Box::new(PlanView::SeqScan { table }),
                    predicate: ExprView::BinaryOp(
                        Box::new(ExprView::Field(column)),
                        BinOp::Eq,
                        Box::new(key),
                    ),
                }
            })
        }),
        ({
            let scan = PlanView::ExprIndexScan { table, path, key };
            lowered(catalog, floats, scan) == (if catalog.expression_index(table, path) is Some {
                scan
            } else {
                PlanView::Filter {
                    input: Box::new(PlanView::SeqScan { table }),
                    predicate: ExprView::BinaryOp(
                        Box::new(path_read(path)),
                        BinOp::Eq,
                        Box::new(key),
                    ),
                }
            })
        }),
{
}

/// Without its index a range scan becomes a filter over a full scan that keeps the
/// rows that meet both bounds; with it, it stays.
pub proof fn ranges_become_filters(
    catalog: CatalogView,
    floats: FloatModel,
    eval: EvalModel,
    table: Seq<char>,
    column: Seq<char>,
    path: StoredJsonPathView,
    start: Option<(ExprView, bool)>,
    end: Option<(ExprView, bool)>,
    row: Seq<ValueView>,
    columns: Seq<Seq<char>>,
)
    requires
        and_is_conjunction(eval),
        eval(ExprView::Literal(LiteralView::Bool(true)), row, columns) == ValueView::Bool(true),
    ensures
        ({
            let scan = PlanView::RangeScan { table, column, start, end };
            if catalog.index(table, column) is Some {
                lowered(catalog, floats, scan) == scan
            } else {
                &&& lowered(catalog, floats, scan) matches PlanView::Filter { input, predicate }
                &&& *input == (PlanView::SeqScan { table })
                &&& eval(predicate, row, columns) == ValueView::Bool(true) <==> meets_bounds(
                    eval,
                    ExprView::Field(column),
                    start,
                    end,
                    row,
                    columns,
                )
            }
        }),
        ({
            let scan = PlanView::ExprRangeScan { table, path, start, end };
            if catalog.expression_index(table, path) is Some {
                lowered(catalog, floats, scan) == scan
            } else {
                &&& lowered(catalog, floats, scan) matches PlanView::Filter { input, predicate }
                &&& *input == (PlanView::SeqScan { table })
                &&& eval(predicate, row, columns) == ValueView::Bool(true) <==> meets_bounds(
                    eval,
                    path_read(path),
                    start,
                    end,
                    row,
                    columns,
                )
            }
        }),
{
    range_conditions_ask_both_bounds(eval, ExprView::Field(column), start, end, row, columns);
    range_conditions_ask_both_bounds(eval, path_read(path), start, end, row, columns);
}

/// Without its index an ordered scan of a JSON path becomes a sort by the path with
/// the same slice.
pub proof fn ordered_scans_become_sorts(
    catalog: CatalogView,
    floats: FloatModel,
    table: Seq<char>,
    path: StoredJsonPathView,
    descending: bool,
    limit: ExprView,
    offset: Option<ExprView>,
)
    ensures
        ({
            let scan = PlanView::OrderedExprIndexScan { table, path, descending, limit, offset };
            let sorted = PlanView::Sort {
                input: Box::new(PlanView::SeqScan { table }),
                keys: seq![SortKeyView { expr: path_read(path), descending }],
            };
            lowered(catalog, floats, scan) == (if catalog.expression_index(table, path) is Some {
                scan
            } else {
                PlanView::Limit {
                    input: Box::new(
                        match offset {
                            Some(count) => PlanView::Offset { input: Box::new(sorted), count },
                            None => sorted,
                        },
                    ),
                    count: limit,
                }
            })
        }),
{
}

/// A node other than a scan or a filter stays as it is, over its inputs as they
/// become.
pub proof fn nodes_stay_over_their_inputs(catalog: CatalogView, floats: FloatModel, plan: PlanView)
    requires
        !(plan is NestedProject),
    ensures
        match plan {
            PlanView::Project { input, fields } => lowered(catalog, floats, plan) == (
            PlanView::Project { input: Box::new(lowered(catalog, floats, *input)), fields }),
            PlanView::Sort { input, keys } => lowered(catalog, floats, plan) == (PlanView::Sort {
                input: Box::new(lowered(catalog, floats, *input)),
                keys,
            }),
            PlanView::Limit { input, count } => lowered(catalog, floats, plan) == (
            PlanView::Limit { input: Box::new(lowered(catalog, floats, *input)), count }),
            PlanView::Offset { input, count } => lowered(catalog, floats, plan) == (
            PlanView::Offset { input: Box::new(lowered(catalog, floats, *input)), count }),
            PlanView::Distinct { input } => lowered(catalog, floats, plan) == (
            PlanView::Distinct { input: Box::new(lowered(catalog, floats, *input)) }),
            PlanView::GroupBy { input, keys, aggregates, having } => lowered(
                catalog,
                floats,
                plan,
            ) == (PlanView::GroupBy {
                input: Box::new(lowered(catalog, floats, *input)),
                keys,
                aggregates,
                having,
            }),
            PlanView::Aggregate { input, function, argument, mode, provenance_alias } => lowered(
                catalog,
                floats,
                plan,
            ) == (PlanView::Aggregate {
                input: Box::new(lowered(catalog, floats, *input)),
                function,
                argument,
                mode,
                provenance_alias,
            }),
            PlanView::Window { input, windows } => lowered(catalog, floats, plan) == (
            PlanView::Window { input: Box::new(lowered(catalog, floats, *input)), windows }),
            PlanView::Update { input, table, assignments, returning } => lowered(
                catalog,
                floats,
                plan,
            ) == (PlanView::Update {
                input: Box::new(lowered(catalog, floats, *input)),
                table,
                assignments,
                returning,
            }),
            PlanView::Delete { input, table, returning } => lowered(catalog, floats, plan) == (
            PlanView::Delete {
                input: Box::new(lowered(catalog, floats, *input)),
                table,
                returning,
            }),
            PlanView::Union { left, right, all } => lowered(catalog, floats, plan) == (
            PlanView::Union {
                left: Box::new(lowered(catalog, floats, *left)),
                right: Box::new(lowered(catalog, floats, *right)),
                all,
            }),
            PlanView::NestedLoopJoin { left, right, on, kind } => lowered(catalog, floats, plan)
                == (PlanView::NestedLoopJoin {
                left: Box::new(lowered(catalog, floats, *left)),
                right: Box::new(lowered(catalog, floats, *right)),
                on,
                kind,
            }),
            PlanView::Explain { input } => lowered(catalog, floats, plan) == (PlanView::Explain {
                input: Box::new(lowered(catalog, floats, *input)),
            }),
            _ => inputs(plan).len() == 0 && !(plan is IndexScan) && !(plan is RangeScan) && !(
            plan is ExprIndexScan) && !(plan is ExprRangeScan) && !(plan is OrderedExprIndexScan)
                ==> lowered(catalog, floats, plan) == plan,
        },
{
}

/// A comparison of a column with a literal, either way round, sets the bound that
/// it says: below or above the literal, with it or without.
pub proof fn comparisons_set_bounds(column: Seq<char>, op: BinOp, literal: LiteralView)
    requires
        op == BinOp::Lt || op == BinOp::Gt || op == BinOp::Lte || op == BinOp::Gte,
    ensures
        ({
            let subject = ExprView::Field(column);
            let key = ExprView::Literal(literal);
            let plain = bound_of(ExprView::BinaryOp(Box::new(subject), op, Box::new(key)));
            let turned = bound_of(ExprView::BinaryOp(Box::new(key), op, Box::new(subject)));
            &&& plain matches Some(bound)
            &&& bound.key == key && bound.target.expr() == subject
            &&& bound.lower == says(op, Order::Greater)
            &&& bound.inclusive == says(op, Order::Equal)
            &&& turned matches Some(other)
            &&& other.key == key && other.target.expr() == subject
            &&& other.lower == says(op, Order::Less)
            &&& other.inclusive == says(op, Order::Equal)
        }),
{
}

/// An equality of a column with a literal, either way round, is looked up in the
/// index on the column, and no other comparison is.
pub proof fn equalities_are_looked_up(
    table: Seq<char>,
    column: Seq<char>,
    op: BinOp,
    literal: LiteralView,
)
    ensures
        ({
            let subject = ExprView::Field(column);
            let key = ExprView::Literal(literal);
            let plain = ExprView::BinaryOp(Box::new(subject), op, Box::new(key));
            let turned = ExprView::BinaryOp(Box::new(key), op, Box::new(subject));
            let scan = PlanView::IndexScan { table, column, key };
            &&& eq_index_scan(table, plain) == (if op == BinOp::Eq {
                Some(scan)
            } else {
                None
            })
            &&& eq_index_scan(table, turned) == (if op == BinOp::Eq {
                Some(scan)
            } else {
                None
            })
        }),
{
}

/// A literal is a key of an index on a column of its own type, an integer also of one
/// on points in time, and, widened, of one on floats; it is no key of any other.
pub proof fn keys_are_of_the_type_of_their_index(
    floats: FloatModel,
    t: TypeId,
    literal: LiteralView,
)
    ensures
        ({
            let key = ExprView::Literal(literal);
            let own = match literal {
                LiteralView::Int(_) => t == TypeId::Int || t == TypeId::DateTime,
                LiteralView::Float(_) => t == TypeId::Float,
                LiteralView::Bool(_) => t == TypeId::Bool,
                LiteralView::String(_) => t == TypeId::Str,
            };
            &&& own ==> index_key(floats, t, key) == Some(key)
            &&& !own && !(literal is Int && t == TypeId::Float) ==> index_key(floats, t, key) is None
            &&& literal matches LiteralView::Int(n) ==> index_key(floats, TypeId::Float, key)
                == Some(
                ExprView::Literal(LiteralView::Float(floats(FloatOp::FromInt(n as i128)))),
            )
        }),
{
}

/// The conditions that are left to a filter are those that the driver does not
/// answer, in their order.
pub proof fn other_conditions_are_left(parts: Seq<ExprView>, consumed: Seq<int>, i: int)
    requires
        0 <= i <= parts.len(),
    ensures
        residual_from(parts, consumed, i) == Seq::new(parts.len(), |k: int| k).skip(i).filter(
            |k: int| !consumed.contains(k),
        ).map_values(|k: int| parts[k]),
    decreases parts.len() - i,
{
    let all = Seq::new(parts.len(), |k: int| k);
    crate::laws::filtering::images_take_first(
        all,
        |k: int| !consumed.contains(k),
        |k: int| parts[k],
        i,
    );
    if i < parts.len() {
        other_conditions_are_left(parts, consumed, i + 1);
        assert(all[i] == i);
    }
}

/// A lookup that is not for rows without a value is expected to find the entries of
/// the index spread evenly over its keys: so many for each key, and fewer than one
/// more. One for rows without a value is expected to find all of them.
pub proof fn lookups_expect_an_even_spread(stats: IndexStats)
    ensures
        stats.distinct_keys > 0 ==> {
            let each = eq_rows(stats, false) as int;
            each * stats.distinct_keys <= stats.total_entries < (each + 1) * stats.distinct_keys
        },
        stats.distinct_keys == 0 ==> eq_rows(stats, false) == stats.total_entries,
        eq_rows(stats, true) == stats.empty_count,
{
    if stats.distinct_keys > 0 {
        let n = stats.total_entries as int;
        let d = stats.distinct_keys as int;
        assert((n / d) * d <= n < (n / d + 1) * d) by (nonlinear_arith)
            requires
                0 <= n,
                0 < d,
        ;
    }
}

} // verus!
