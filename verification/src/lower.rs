//! Lowering: which scans an index drives.
//!
//! A planner that knows no indexes writes index scans wherever an index could
//! help, and a filter over a full scan wherever several conditions hold at once.
//! With the catalog at hand, a scan without an index becomes a filter over a
//! full scan, and a conjunction over a full scan is driven by its most selective
//! indexed condition, the other conditions tested on each row that the index
//! finds.

use vstd::prelude::*;

use crate::catalog::{paths_same, Catalog, CatalogView, IndexStats};
use crate::coerce::{literal_value, value_of_literal};
use crate::error::{outcome, ErrorView, QueryError};
use crate::expr::{
    clone_expr, clone_segments, clone_sort_keys, expr_view, sort_keys_view, BinOp, Expr,
    ExprView, Literal, LiteralView, SortKey, SortKeyView,
};
use crate::group::ints;
use crate::join::{
    all_hold, and_is_conjunction, conjunction_holds_when_conjuncts_do, conjuncts,
    flatten_conjunctions,
};
use crate::plan::{
    clone_all, clone_opt_expr, clone_opt_text, clone_plan, PlanNode, PlanView, StoredJsonPath,
    StoredJsonPathView,
};
use crate::scalars::{is_true, EvalModel, FloatModel, FloatOp, Order, Scalars};
use crate::seqs::{
    first_where, first_where_found, first_where_is, first_where_none, is_name, name_position,
};
use crate::value::{TypeId, Value, ValueView};

verus! {

/// The error for a value that is not given as a literal.
pub open spec fn not_literal_error() -> ErrorView {
    ErrorView::Execution("expected a literal value"@)
}

/// The value that a literal expression denotes.
pub open spec fn literal_of(expr: ExprView) -> Result<ValueView, ErrorView> {
    match expr {
        ExprView::Literal(literal) => Ok(literal_value(literal)),
        ExprView::ValueLit(value) => Ok(value),
        ExprView::Null => Ok(ValueView::Empty),
        _ => Err(not_literal_error()),
    }
}

/// The value that a literal expression denotes.
pub fn literal_to_value(expr: &Expr) -> (value: Result<Value, QueryError>)
    ensures
        outcome(value) == literal_of(expr.deep_view()),
{
    match expr {
        Expr::Literal(literal) => Ok(value_of_literal(literal)),
        Expr::ValueLit(value) => Ok(value.clone()),
        Expr::Null => Ok(Value::Empty),
        _ => Err(QueryError::execution("expected a literal value")),
    }
}

/// A stored path as an expression over its column.
pub open spec fn path_expr(path: StoredJsonPathView) -> ExprView {
    ExprView::JsonPath {
        base: Box::new(ExprView::Field(path.column)),
        segments: path.segments,
    }
}

/// A stored path as an expression over its column.
pub fn stored_json_path_expr(path: &StoredJsonPath) -> (expr: Expr)
    ensures
        expr.deep_view() == path_expr(path.deep_view()),
{
    proof {
        reveal_with_fuel(expr_view, 2);
    }
    Expr::JsonPath {
        base: Box::new(Expr::Field(path.column.clone())),
        segments: clone_segments(&path.segments),
    }
}

/// `a op b`.
pub open spec fn binary(a: ExprView, op: BinOp, b: ExprView) -> ExprView {
    ExprView::BinaryOp(Box::new(a), op, Box::new(b))
}

/// The condition that `subject` lies within the bounds.
pub open spec fn range_predicate(
    subject: ExprView,
    start: Option<(ExprView, bool)>,
    end: Option<(ExprView, bool)>,
) -> ExprView {
    let lower = match start {
        Some((key, inclusive)) => Some(
            binary(
                subject,
                if inclusive {
                    BinOp::Gte
                } else {
                    BinOp::Gt
                },
                key,
            ),
        ),
        None => None,
    };
    let upper = match end {
        Some((key, inclusive)) => Some(
            binary(
                subject,
                if inclusive {
                    BinOp::Lte
                } else {
                    BinOp::Lt
                },
                key,
            ),
        ),
        None => None,
    };
    match (lower, upper) {
        (Some(l), Some(u)) => binary(l, BinOp::And, u),
        (Some(l), None) => l,
        (None, Some(u)) => u,
        (None, None) => ExprView::Literal(LiteralView::Bool(true)),
    }
}

fn subject_range_predicate(
    subject: &Expr,
    start: &Option<(Expr, bool)>,
    end: &Option<(Expr, bool)>,
) -> (predicate: Expr)
    ensures
        predicate.deep_view() == range_predicate(
            subject.deep_view(),
            start.deep_view(),
            end.deep_view(),
        ),
{
    proof {
        reveal_with_fuel(expr_view, 3);
    }
    let lower = match start {
        Some((key, inclusive)) => Some(
            Expr::BinaryOp(
                Box::new(clone_expr(subject)),
                if *inclusive {
                    BinOp::Gte
                } else {
                    BinOp::Gt
                },
                Box::new(clone_expr(key)),
            ),
        ),
        None => None,
    };
    let upper = match end {
        Some((key, inclusive)) => Some(
            Expr::BinaryOp(
                Box::new(clone_expr(subject)),
                if *inclusive {
                    BinOp::Lte
                } else {
                    BinOp::Lt
                },
                Box::new(clone_expr(key)),
            ),
        ),
        None => None,
    };
    match (lower, upper) {
        (Some(l), Some(u)) => Expr::BinaryOp(Box::new(l), BinOp::And, Box::new(u)),
        (Some(l), None) => l,
        (None, Some(u)) => u,
        (None, None) => Expr::Literal(Literal::Bool(true)),
    }
}

/// The condition that a column lies within the bounds.
pub fn synthesize_range_predicate(
    column: &String,
    start: &Option<(Expr, bool)>,
    end: &Option<(Expr, bool)>,
) -> (predicate: Expr)
    ensures
        predicate.deep_view() == range_predicate(
            ExprView::Field(column@),
            start.deep_view(),
            end.deep_view(),
        ),
{
    let subject = Expr::Field(column.clone());
    subject_range_predicate(&subject, start, end)
}

/// The condition that what a stored path leads to lies within the bounds.
pub fn synthesize_expr_range_predicate(
    path: &StoredJsonPath,
    start: &Option<(Expr, bool)>,
    end: &Option<(Expr, bool)>,
) -> (predicate: Expr)
    ensures
        predicate.deep_view() == range_predicate(
            path_expr(path.deep_view()),
            start.deep_view(),
            end.deep_view(),
        ),
{
    let subject = stored_json_path_expr(path);
    subject_range_predicate(&subject, start, end)
}

/// Whether a value lies within the bounds, as values are ordered.
pub open spec fn in_range(
    order: spec_fn(ValueView, ValueView) -> Order,
    value: ValueView,
    start: Option<ValueView>,
    start_inclusive: bool,
    end: Option<ValueView>,
    end_inclusive: bool,
) -> bool {
    &&& start matches Some(s) ==> order(value, s) == Order::Greater || (start_inclusive && order(
        value,
        s,
    ) == Order::Equal)
    &&& end matches Some(e) ==> order(value, e) == Order::Less || (end_inclusive && order(value, e)
        == Order::Equal)
}

/// Whether a value lies within the bounds.
pub fn range_matches<
    E: Fn(&Expr, &Vec<Value>, &Vec<String>) -> Value,
    C: Fn(&Value, &Value) -> Order,
    F: Fn(FloatOp) -> u64,
>(
    scalars: &Scalars<E, C, F>,
    value: &Value,
    start: &Option<Value>,
    start_inclusive: bool,
    end: &Option<Value>,
    end_inclusive: bool,
) -> (matches: bool)
    requires
        scalars.ok(),
    ensures
        matches == in_range(
            scalars.ordering(),
            value.deep_view(),
            start.deep_view(),
            start_inclusive,
            end.deep_view(),
            end_inclusive,
        ),
{
    match start {
        Some(s) => {
            match scalars.order_values(value, s) {
                Order::Less => {
                    return false;
                },
                Order::Equal => {
                    if !start_inclusive {
                        return false;
                    }
                },
                Order::Greater => {},
            }
        },
        None => {},
    }
    match end {
        Some(e) => {
            match scalars.order_values(value, e) {
                Order::Greater => {
                    return false;
                },
                Order::Equal => {
                    if !end_inclusive {
                        return false;
                    }
                },
                Order::Less => {},
            }
        },
        None => {},
    }
    true
}

/// What an index scan on a JSON path answers without its index: a filter, or a
/// sort with a slice, over a full scan.
pub open spec fn path_fallback(plan: PlanView) -> Option<PlanView> {
    match plan {
        PlanView::ExprIndexScan { table, path, key } => Some(
            PlanView::Filter {
                input: Box::new(PlanView::SeqScan { table }),
                predicate: binary(path_expr(path), BinOp::Eq, key),
            },
        ),
        PlanView::ExprRangeScan { table, path, start, end } => Some(
            PlanView::Filter {
                input: Box::new(PlanView::SeqScan { table }),
                predicate: range_predicate(path_expr(path), start, end),
            },
        ),
        PlanView::OrderedExprIndexScan { table, path, descending, limit, offset } => {
            let sorted = PlanView::Sort {
                input: Box::new(PlanView::SeqScan { table }),
                keys: seq![SortKeyView { expr: path_expr(path), descending }],
            };
            Some(
                PlanView::Limit {
                    input: Box::new(
                        match offset {
                            Some(count) => PlanView::Offset { input: Box::new(sorted), count },
                            None => sorted,
                        },
                    ),
                    count: limit,
                },
            )
        },
        _ => None,
    }
}

/// A filter over a full scan.
pub fn filter_scan(table: &String, predicate: Expr) -> (plan: PlanNode)
    ensures
        plan.deep_view() == (PlanView::Filter {
            input: Box::new(PlanView::SeqScan { table: table@ }),
            predicate: predicate.deep_view(),
        }),
{
    let scan = PlanNode::SeqScan { table: table.clone() };
    assert(scan.deep_view() == PlanView::SeqScan { table: table@ });
    PlanNode::Filter { input: Box::new(scan), predicate }
}

/// What an index scan on a JSON path answers without its index.
pub fn expression_index_fallback(plan: &PlanNode) -> (fallback: Option<PlanNode>)
    ensures
        fallback.deep_view() == path_fallback(plan.deep_view()),
{
    match plan {
        PlanNode::ExprIndexScan { table, path, key } => {
            let predicate = Expr::BinaryOp(
                Box::new(stored_json_path_expr(path)),
                BinOp::Eq,
                Box::new(clone_expr(key)),
            );
            Some(filter_scan(table, predicate))
        },
        PlanNode::ExprRangeScan { table, path, start, end } => Some(
            filter_scan(table, synthesize_expr_range_predicate(path, start, end)),
        ),
        PlanNode::OrderedExprIndexScan { table, path, descending, limit, offset } => {
            let mut keys: Vec<SortKey> = Vec::new();
            keys.push(SortKey { expr: stored_json_path_expr(path), descending: *descending });
            let ghost key_views = seq![
                SortKeyView { expr: path_expr(path.deep_view()), descending: *descending },
            ];
            assert(sort_keys_view(keys@) =~= key_views);
            let scan = PlanNode::SeqScan { table: table.clone() };
            assert(scan.deep_view() == PlanView::SeqScan { table: table@ });
            let ghost scan_view = scan.deep_view();
            let sorted = PlanNode::Sort { input: Box::new(scan), keys };
            assert(sorted.deep_view() == PlanView::Sort {
                input: Box::new(scan_view),
                keys: key_views,
            });
            let ghost sorted_view = sorted.deep_view();
            let sliced = match offset {
                Some(count) => PlanNode::Offset {
                    input: Box::new(sorted),
                    count: clone_expr(count),
                },
                None => sorted,
            };
            assert(sliced.deep_view() == (match offset {
                Some(count) => PlanView::Offset {
                    input: Box::new(sorted_view),
                    count: count.deep_view(),
                },
                None => sorted_view,
            }));
            let limited = PlanNode::Limit { input: Box::new(sliced), count: clone_expr(limit) };
            Some(limited)
        },
        _ => None,
    }
}

/// The table that an index scan reads.
pub open spec fn index_scan_table(scan: PlanView) -> Option<Seq<char>> {
    match scan {
        PlanView::IndexScan { table, .. } => Some(table),
        PlanView::RangeScan { table, .. } => Some(table),
        PlanView::ExprIndexScan { table, .. } => Some(table),
        PlanView::ExprRangeScan { table, .. } => Some(table),
        _ => None,
    }
}

/// The table that an index scan reads.
pub fn scan_table(scan: &PlanNode) -> (table: Option<&String>)
    ensures
        table.deep_view() == index_scan_table(scan.deep_view()),
{
    match scan {
        PlanNode::IndexScan { table, .. } => Some(table),
        PlanNode::RangeScan { table, .. } => Some(table),
        PlanNode::ExprIndexScan { table, .. } => Some(table),
        PlanNode::ExprRangeScan { table, .. } => Some(table),
        _ => None,
    }
}

/// What a condition bounds: a column, or what a stored path leads to.
#[derive(Debug, PartialEq, Eq)]
pub enum RangeTarget {
    Column(String),
    JsonPath(StoredJsonPath),
}

/// What a [`RangeTarget`] stands for.
pub enum RangeTargetView {
    Column(Seq<char>),
    JsonPath(StoredJsonPathView),
}

impl DeepView for RangeTarget {
    type V = RangeTargetView;

    open spec fn deep_view(&self) -> RangeTargetView {
        match self {
            RangeTarget::Column(column) => RangeTargetView::Column(column@),
            RangeTarget::JsonPath(path) => RangeTargetView::JsonPath(path.deep_view()),
        }
    }
}

impl Clone for RangeTarget {
    fn clone(&self) -> (copy: Self)
        ensures
            copy.deep_view() == self.deep_view(),
    {
        match self {
            RangeTarget::Column(column) => RangeTarget::Column(column.clone()),
            RangeTarget::JsonPath(path) => RangeTarget::JsonPath(path.clone()),
        }
    }
}

impl RangeTargetView {
    /// The target as an expression.
    pub open spec fn expr(self) -> ExprView {
        match self {
            RangeTargetView::Column(column) => ExprView::Field(column),
            RangeTargetView::JsonPath(path) => path_expr(path),
        }
    }
}

impl RangeTarget {
    /// Whether two targets are the same.
    pub fn same(&self, other: &RangeTarget) -> (same: bool)
        ensures
            same == (self.deep_view() == other.deep_view()),
    {
        match (self, other) {
            (RangeTarget::Column(a), RangeTarget::Column(b)) => *a == *b,
            (RangeTarget::JsonPath(a), RangeTarget::JsonPath(b)) => paths_same(a, b),
            _ => false,
        }
    }
}

/// The target that an expression denotes: a bare column, or a path that starts
/// from one.
pub open spec fn target_of(expr: ExprView) -> Option<RangeTargetView> {
    match expr {
        ExprView::Field(column) => Some(RangeTargetView::Column(column)),
        ExprView::JsonPath { base, segments } => match *base {
            ExprView::Field(column) => Some(
                RangeTargetView::JsonPath(StoredJsonPathView { column, segments }),
            ),
            _ => None,
        },
        _ => None,
    }
}

fn expr_target(expr: &Expr) -> (target: Option<RangeTarget>)
    ensures
        target.deep_view() == target_of(expr.deep_view()),
{
    proof {
        reveal_with_fuel(expr_view, 2);
    }
    match expr {
        Expr::Field(column) => Some(RangeTarget::Column(column.clone())),
        Expr::JsonPath { base, segments } => match &**base {
            Expr::Field(column) => Some(
                RangeTarget::JsonPath(
                    StoredJsonPath { column: column.clone(), segments: clone_segments(segments) },
                ),
            ),
            _ => None,
        },
        _ => None,
    }
}

/// A comparison with a literal, written with the target on the left.
pub struct ComparisonView {
    pub target: RangeTargetView,
    pub op: BinOp,
    pub key: ExprView,
}

/// The operator that says the same of its operands the other way round.
pub open spec fn flipped(op: BinOp) -> BinOp {
    match op {
        BinOp::Lt => BinOp::Gt,
        BinOp::Gt => BinOp::Lt,
        BinOp::Lte => BinOp::Gte,
        BinOp::Gte => BinOp::Lte,
        _ => op,
    }
}

fn flip(op: BinOp) -> (flip: BinOp)
    ensures
        flip == flipped(op),
{
    match op {
        BinOp::Lt => BinOp::Gt,
        BinOp::Gt => BinOp::Lt,
        BinOp::Lte => BinOp::Gte,
        BinOp::Gte => BinOp::Lte,
        _ => op,
    }
}

/// The operators that an index can answer.
pub open spec fn indexable(op: BinOp) -> bool {
    op == BinOp::Eq || op == BinOp::Lt || op == BinOp::Gt || op == BinOp::Lte || op == BinOp::Gte
}

/// The comparison of a target with a literal that an expression makes,
/// whichever way round it is written.
pub open spec fn comparison_of(expr: ExprView) -> Option<ComparisonView> {
    match expr {
        ExprView::BinaryOp(left, op, right) => if !indexable(op) {
            None
        } else if target_of(*left) is Some && *right is Literal {
            Some(ComparisonView { target: target_of(*left)->0, op, key: *right })
        } else if target_of(*right) is Some && *left is Literal {
            Some(ComparisonView { target: target_of(*right)->0, op: flipped(op), key: *left })
        } else {
            None
        },
        _ => None,
    }
}

fn expr_comparison(expr: &Expr) -> (comparison: Option<(RangeTarget, BinOp, Expr)>)
    ensures
        match comparison {
            Some((target, op, key)) => comparison_of(expr.deep_view()) == Some(
                ComparisonView { target: target.deep_view(), op, key: key.deep_view() },
            ),
            None => comparison_of(expr.deep_view()) is None,
        },
{
    match expr {
        Expr::BinaryOp(left, op, right) => {
            if !matches!(op, BinOp::Eq | BinOp::Lt | BinOp::Gt | BinOp::Lte | BinOp::Gte) {
                return None;
            }
            if matches!(&**right, Expr::Literal(_)) {
                match expr_target(left) {
                    Some(target) => {
                        return Some((target, *op, clone_expr(right)));
                    },
                    None => {},
                }
            }
            if matches!(&**left, Expr::Literal(_)) {
                match expr_target(right) {
                    Some(target) => {
                        return Some((target, flip(*op), clone_expr(left)));
                    },
                    None => {},
                }
            }
            None
        },
        _ => None,
    }
}

/// The index scan that answers an equality with a literal.
pub open spec fn eq_index_scan(table: Seq<char>, expr: ExprView) -> Option<PlanView> {
    match comparison_of(expr) {
        Some(c) => if c.op == BinOp::Eq {
            match c.target {
                RangeTargetView::Column(column) => Some(
                    PlanView::IndexScan { table, column, key: c.key },
                ),
                RangeTargetView::JsonPath(path) => Some(
                    PlanView::ExprIndexScan { table, path, key: c.key },
                ),
            }
        } else {
            None
        },
        None => None,
    }
}

/// The index scan that answers an equality with a literal.
pub fn try_extract_eq_index_key(table: &String, expr: &Expr) -> (scan: Option<PlanNode>)
    ensures
        scan.deep_view() == eq_index_scan(table@, expr.deep_view()),
{
    match expr_comparison(expr) {
        Some((target, BinOp::Eq, key)) => match target {
            RangeTarget::Column(column) => Some(
                PlanNode::IndexScan { table: table.clone(), column, key },
            ),
            RangeTarget::JsonPath(path) => Some(
                PlanNode::ExprIndexScan { table: table.clone(), path, key },
            ),
        },
        _ => None,
    }
}

/// The bound that an inequality with a literal sets: below or above its target.
pub struct BoundView {
    pub target: RangeTargetView,
    pub lower: bool,
    pub key: ExprView,
    pub inclusive: bool,
}

/// The bound that an inequality with a literal sets.
pub open spec fn bound_of(expr: ExprView) -> Option<BoundView> {
    match comparison_of(expr) {
        Some(c) => if c.op == BinOp::Eq {
            None
        } else {
            Some(
                BoundView {
                    target: c.target,
                    lower: c.op == BinOp::Gt || c.op == BinOp::Gte,
                    key: c.key,
                    inclusive: c.op == BinOp::Gte || c.op == BinOp::Lte,
                },
            )
        },
        None => None,
    }
}

/// The bound that an inequality with a literal sets.
#[derive(Debug, PartialEq, Eq)]
pub struct RangeBound {
    pub target: RangeTarget,
    pub lower: bool,
    pub key: Expr,
    pub inclusive: bool,
}

impl DeepView for RangeBound {
    type V = BoundView;

    open spec fn deep_view(&self) -> BoundView {
        BoundView {
            target: self.target.deep_view(),
            lower: self.lower,
            key: self.key.deep_view(),
            inclusive: self.inclusive,
        }
    }
}

/// The bound that an inequality with a literal sets.
pub fn extract_single_bound(expr: &Expr) -> (bound: Option<RangeBound>)
    ensures
        bound.deep_view() == bound_of(expr.deep_view()),
{
    match expr_comparison(expr) {
        Some((target, op, key)) => {
            if op == BinOp::Eq {
                return None;
            }
            Some(
                RangeBound {
                    target,
                    lower: op == BinOp::Gt || op == BinOp::Gte,
                    key,
                    inclusive: op == BinOp::Gte || op == BinOp::Lte,
                },
            )
        },
        None => None,
    }
}

/// The scan of a target between two bounds.
pub open spec fn target_range_scan(
    table: Seq<char>,
    target: RangeTargetView,
    start: Option<(ExprView, bool)>,
    end: Option<(ExprView, bool)>,
) -> PlanView {
    match target {
        RangeTargetView::Column(column) => PlanView::RangeScan { table, column, start, end },
        RangeTargetView::JsonPath(path) => PlanView::ExprRangeScan { table, path, start, end },
    }
}

/// The scan of a target between two bounds.
pub fn range_scan_for_target(
    table: &String,
    target: &RangeTarget,
    start: Option<(Expr, bool)>,
    end: Option<(Expr, bool)>,
) -> (scan: PlanNode)
    ensures
        scan.deep_view() == target_range_scan(
            table@,
            target.deep_view(),
            start.deep_view(),
            end.deep_view(),
        ),
{
    match target {
        RangeTarget::Column(column) => PlanNode::RangeScan {
            table: table.clone(),
            column: column.clone(),
            start,
            end,
        },
        RangeTarget::JsonPath(path) => PlanNode::ExprRangeScan {
            table: table.clone(),
            path: path.clone(),
            start,
            end,
        },
    }
}

/// The tier of an equality: zero on a unique index, one on any other.
pub open spec fn eq_tier(catalog: CatalogView, scan: PlanView) -> Option<u8> {
    match scan {
        PlanView::IndexScan { table, column, .. } => match catalog.is_index_unique(table, column) {
            Some(true) => Some(0),
            Some(false) => Some(1),
            None => None,
        },
        PlanView::ExprIndexScan { table, path, .. } => match catalog.expression_index(table, path) {
            Some(index) => Some(
                if index.unique {
                    0
                } else {
                    1
                },
            ),
            None => None,
        },
        _ => None,
    }
}

/// The tier of an equality, where its index exists.
pub fn eq_candidate_tier(catalog: &Catalog, scan: &PlanNode) -> (tier: Option<u8>)
    ensures
        tier == eq_tier(catalog.deep_view(), scan.deep_view()),
{
    match scan {
        PlanNode::IndexScan { table, column, .. } => match catalog.is_index_unique(table, column) {
            Some(true) => Some(0),
            Some(false) => Some(1),
            None => None,
        },
        PlanNode::ExprIndexScan { table, path, .. } => match catalog.resolve_expression_index(
            table,
            path,
        ) {
            Some(index) => {
                if index.unique {
                    Some(0)
                } else {
                    Some(1)
                }
            },
            None => None,
        },
        _ => None,
    }
}

/// Whether the index of a range scan exists.
pub open spec fn range_resolves(catalog: CatalogView, scan: PlanView) -> bool {
    match scan {
        PlanView::RangeScan { table, column, .. } => catalog.index(table, column) is Some,
        PlanView::ExprRangeScan { table, path, .. } => catalog.expression_index(
            table,
            path,
        ) is Some,
        _ => false,
    }
}

/// Whether the index of a range scan exists.
pub fn range_candidate_resolves(catalog: &Catalog, scan: &PlanNode) -> (resolves: bool)
    ensures
        resolves == range_resolves(catalog.deep_view(), scan.deep_view()),
{
    match scan {
        PlanNode::RangeScan { table, column, .. } => catalog.has_index(table, column),
        PlanNode::ExprRangeScan { table, path, .. } => catalog.resolve_expression_index(
            table,
            path,
        ).is_some(),
        _ => false,
    }
}

/// The estimate for an index of which nothing is counted.
pub const UNKNOWN_EST: u64 = 0xffff_ffff_ffff_ffff;

/// The rows that an equality finds on average: every row without a value, or
/// the entries divided by the distinct keys.
pub open spec fn eq_rows(stats: IndexStats, empty_probe: bool) -> u64 {
    if empty_probe {
        stats.empty_count
    } else if stats.distinct_keys == 0 {
        stats.total_entries
    } else {
        stats.total_entries / stats.distinct_keys
    }
}

/// The rows that an equality finds on average.
pub fn estimate_eq_rows(stats: &IndexStats, empty_probe: bool) -> (rows: u64)
    ensures
        rows == eq_rows(*stats, empty_probe),
{
    if empty_probe {
        stats.empty_count
    } else if stats.distinct_keys == 0 {
        stats.total_entries
    } else {
        stats.total_entries / stats.distinct_keys
    }
}

/// Whether a lookup is for the rows without a value.
pub fn probes_empty_sentinel(key: &Expr) -> (probes: bool)
    ensures
        probes == (literal_of(key.deep_view()) == Ok::<ValueView, ErrorView>(ValueView::Empty)),
{
    match literal_to_value(key) {
        Ok(value) => value.is_empty(),
        Err(_) => false,
    }
}

/// The rows that an equality candidate is expected to find.
pub open spec fn eq_estimate(catalog: CatalogView, scan: PlanView, tier: u8) -> u64 {
    let probed = |stats: Option<IndexStats>, key: ExprView|
        match stats {
            Some(stats) => eq_rows(
                stats,
                literal_of(key) == Ok::<ValueView, ErrorView>(ValueView::Empty),
            ),
            None => UNKNOWN_EST,
        };
    if tier == 0 {
        1
    } else {
        match scan {
            PlanView::IndexScan { table, column, key } => probed(
                catalog.index_stats(table, column),
                key,
            ),
            PlanView::ExprIndexScan { table, path, key } => match catalog.expression_index(
                table,
                path,
            ) {
                Some(index) => probed(index.stats, key),
                None => UNKNOWN_EST,
            },
            _ => UNKNOWN_EST,
        }
    }
}

/// The rows that an equality candidate is expected to find.
pub fn eq_candidate_est(catalog: &Catalog, scan: &PlanNode, tier: u8) -> (estimate: u64)
    ensures
        estimate == eq_estimate(catalog.deep_view(), scan.deep_view(), tier),
{
    if tier == 0 {
        return 1;
    }
    match scan {
        PlanNode::IndexScan { table, column, key } => match catalog.index_stats(table, column) {
            Some(stats) => estimate_eq_rows(&stats, probes_empty_sentinel(key)),
            None => UNKNOWN_EST,
        },
        PlanNode::ExprIndexScan { table, path, key } => match catalog.resolve_expression_index(
            table,
            path,
        ) {
            Some(index) => match index.stats {
                Some(stats) => estimate_eq_rows(&stats, probes_empty_sentinel(key)),
                None => UNKNOWN_EST,
            },
            None => UNKNOWN_EST,
        },
        _ => UNKNOWN_EST,
    }
}

/// The rows that a range candidate is expected to read: its whole index.
pub open spec fn range_estimate(catalog: CatalogView, scan: PlanView) -> u64 {
    let stats = match scan {
        PlanView::RangeScan { table, column, .. } => catalog.index_stats(table, column),
        PlanView::ExprRangeScan { table, path, .. } => match catalog.expression_index(table, path) {
            Some(index) => index.stats,
            None => None,
        },
        _ => None,
    };
    match stats {
        Some(stats) => stats.total_entries,
        None => UNKNOWN_EST,
    }
}

/// The rows that a range candidate is expected to read.
pub fn range_candidate_est(catalog: &Catalog, scan: &PlanNode) -> (estimate: u64)
    ensures
        estimate == range_estimate(catalog.deep_view(), scan.deep_view()),
{
    let stats = match scan {
        PlanNode::RangeScan { table, column, .. } => catalog.index_stats(table, column),
        PlanNode::ExprRangeScan { table, path, .. } => match catalog.resolve_expression_index(
            table,
            path,
        ) {
            Some(index) => index.stats,
            None => None,
        },
        _ => None,
    };
    match stats {
        Some(stats) => stats.total_entries,
        None => UNKNOWN_EST,
    }
}

/// The key under which an index on a column of type `t` holds a literal; none
/// where a lookup would find other rows than the comparison.
pub open spec fn index_key(floats: FloatModel, t: TypeId, key: ExprView) -> Option<ExprView> {
    match (key, t) {
        (ExprView::Literal(LiteralView::Int(_)), TypeId::Int) => Some(key),
        (ExprView::Literal(LiteralView::Int(_)), TypeId::DateTime) => Some(key),
        (ExprView::Literal(LiteralView::Float(_)), TypeId::Float) => Some(key),
        (ExprView::Literal(LiteralView::String(_)), TypeId::Str) => Some(key),
        (ExprView::Literal(LiteralView::Bool(_)), TypeId::Bool) => Some(key),
        (ExprView::Literal(LiteralView::Int(n)), TypeId::Float) => Some(
            ExprView::Literal(LiteralView::Float(floats(FloatOp::FromInt(n as i128)))),
        ),
        _ => None,
    }
}

/// The key under which an index on a column of type `t` holds a literal.
pub fn coerce_column_index_key<
    E: Fn(&Expr, &Vec<Value>, &Vec<String>) -> Value,
    C: Fn(&Value, &Value) -> Order,
    F: Fn(FloatOp) -> u64,
>(scalars: &Scalars<E, C, F>, t: TypeId, key: &Expr) -> (coerced: Option<Expr>)
    requires
        scalars.ok(),
    ensures
        coerced.deep_view() == index_key(scalars.floats(), t, key.deep_view()),
{
    match (key, t) {
        (Expr::Literal(Literal::Int(_)), TypeId::Int) => Some(clone_expr(key)),
        (Expr::Literal(Literal::Int(_)), TypeId::DateTime) => Some(clone_expr(key)),
        (Expr::Literal(Literal::Float(_)), TypeId::Float) => Some(clone_expr(key)),
        (Expr::Literal(Literal::String(_)), TypeId::Str) => Some(clone_expr(key)),
        (Expr::Literal(Literal::Bool(_)), TypeId::Bool) => Some(clone_expr(key)),
        (Expr::Literal(Literal::Int(n)), TypeId::Float) => {
            let bits: u64 = scalars.float_op(FloatOp::FromInt(*n as i128));
            Some(Expr::Literal(Literal::Float(bits)))
        },
        _ => None,
    }
}

/// A bound under the key that an index on a column of type `t` holds; the outer
/// option tells whether there is such a key.
pub open spec fn index_bound(floats: FloatModel, t: TypeId, bound: Option<(ExprView, bool)>) -> Option<
    Option<(ExprView, bool)>,
> {
    match bound {
        None => Some(None),
        Some((key, inclusive)) => match index_key(floats, t, key) {
            Some(key) => Some(Some((key, inclusive))),
            None => None,
        },
    }
}

/// A bound under the key that an index on a column of type `t` holds.
pub fn coerce_column_index_bound<
    E: Fn(&Expr, &Vec<Value>, &Vec<String>) -> Value,
    C: Fn(&Value, &Value) -> Order,
    F: Fn(FloatOp) -> u64,
>(scalars: &Scalars<E, C, F>, t: TypeId, bound: &Option<(Expr, bool)>) -> (coerced: Option<
    Option<(Expr, bool)>,
>)
    requires
        scalars.ok(),
    ensures
        coerced.deep_view() == index_bound(scalars.floats(), t, bound.deep_view()),
{
    match bound {
        None => Some(None),
        Some((key, inclusive)) => match coerce_column_index_key(scalars, t, key) {
            Some(key) => Some(Some((key, *inclusive))),
            None => None,
        },
    }
}

/// A candidate scan with its keys as its index holds them; none where a key has
/// no such form. An index on a JSON path holds values as they are.
pub open spec fn keyed_scan(catalog: CatalogView, floats: FloatModel, scan: PlanView) -> Option<
    PlanView,
> {
    match scan {
        PlanView::IndexScan { table, column, key } => match catalog.column_type(table, column) {
            Some(t) => match index_key(floats, t, key) {
                Some(key) => Some(PlanView::IndexScan { table, column, key }),
                None => None,
            },
            None => None,
        },
        PlanView::RangeScan { table, column, start, end } => match catalog.column_type(
            table,
            column,
        ) {
            Some(t) => match (index_bound(floats, t, start), index_bound(floats, t, end)) {
                (Some(start), Some(end)) => Some(PlanView::RangeScan { table, column, start, end }),
                _ => None,
            },
            None => None,
        },
        _ => Some(scan),
    }
}

/// A candidate scan with its keys as its index holds them.
pub fn coerce_candidate_keys<
    E: Fn(&Expr, &Vec<Value>, &Vec<String>) -> Value,
    C: Fn(&Value, &Value) -> Order,
    F: Fn(FloatOp) -> u64,
>(catalog: &Catalog, scalars: &Scalars<E, C, F>, scan: PlanNode) -> (coerced: Option<PlanNode>)
    requires
        scalars.ok(),
    ensures
        coerced.deep_view() == keyed_scan(
            catalog.deep_view(),
            scalars.floats(),
            scan.deep_view(),
        ),
{
    match scan {
        PlanNode::IndexScan { table, column, key } => match catalog.column_type(&table, &column) {
            Some(t) => match coerce_column_index_key(scalars, t, &key) {
                Some(key) => Some(PlanNode::IndexScan { table, column, key }),
                None => None,
            },
            None => None,
        },
        PlanNode::RangeScan { table, column, start, end } => match catalog.column_type(
            &table,
            &column,
        ) {
            Some(t) => {
                let start = coerce_column_index_bound(scalars, t, &start);
                let end = coerce_column_index_bound(scalars, t, &end);
                match (start, end) {
                    (Some(start), Some(end)) => Some(
                        PlanNode::RangeScan { table, column, start, end },
                    ),
                    _ => None,
                }
            },
            None => None,
        },
        other => Some(other),
    }
}

/// An index scan that could drive a conjunction, the conditions that it
/// answers, and how good a driver it is.
pub struct CandidateView {
    pub plan: PlanView,
    pub consumed: Seq<int>,
    pub estimate: u64,
    pub tier: u8,
}

/// The candidate that condition `i` makes as an equality.
pub open spec fn eq_candidate(
    catalog: CatalogView,
    floats: FloatModel,
    table: Seq<char>,
    parts: Seq<ExprView>,
    i: int,
) -> Option<CandidateView> {
    match eq_index_scan(table, parts[i]) {
        Some(scan) => match keyed_scan(catalog, floats, scan) {
            Some(scan) => match eq_tier(catalog, scan) {
                Some(tier) => Some(
                    CandidateView {
                        plan: scan,
                        consumed: seq![i],
                        estimate: eq_estimate(catalog, scan, tier),
                        tier,
                    },
                ),
                None => None,
            },
            None => None,
        },
        None => None,
    }
}

/// At most one candidate, as a list.
pub open spec fn at_most_one(candidate: Option<CandidateView>) -> Seq<CandidateView> {
    match candidate {
        Some(c) => seq![c],
        None => Seq::empty(),
    }
}

/// The candidates that the conditions from `i` on make as equalities.
pub open spec fn eq_candidates(
    catalog: CatalogView,
    floats: FloatModel,
    table: Seq<char>,
    parts: Seq<ExprView>,
    i: int,
) -> Seq<CandidateView>
    decreases parts.len() - i,
{
    if i < 0 || i >= parts.len() {
        Seq::empty()
    } else {
        at_most_one(eq_candidate(catalog, floats, table, parts, i)) + eq_candidates(
            catalog,
            floats,
            table,
            parts,
            i + 1,
        )
    }
}

/// The bound that each condition sets.
pub open spec fn bounds_of(parts: Seq<ExprView>) -> Seq<Option<BoundView>> {
    Seq::new(parts.len(), |i: int| bound_of(parts[i]))
}

/// Setting a bound of `target` on this side.
pub open spec fn bounds_side(target: RangeTargetView, lower: bool) -> spec_fn(
    Option<BoundView>,
) -> bool {
    |bound: Option<BoundView>|
        bound matches Some(b) && b.target == target && b.lower == lower
}

/// The first condition that bounds `target` on this side.
pub open spec fn first_bound(
    bounds: Seq<Option<BoundView>>,
    target: RangeTargetView,
    lower: bool,
) -> Option<int> {
    first_where(bounds, bounds_side(target, lower))
}

/// The targets that the first `n` conditions bound, in the order of their first
/// appearance.
pub open spec fn bounded_targets(bounds: Seq<Option<BoundView>>, n: int) -> Seq<RangeTargetView>
    decreases n,
{
    if n <= 0 {
        Seq::empty()
    } else {
        let before = bounded_targets(bounds, n - 1);
        match bounds[n - 1] {
            Some(b) => if before.contains(b.target) {
                before
            } else {
                before.push(b.target)
            },
            None => before,
        }
    }
}

/// The bound that condition `at` sets.
pub open spec fn bound_at(bounds: Seq<Option<BoundView>>, at: Option<int>) -> Option<
    (ExprView, bool),
> {
    match at {
        Some(i) => Some(((bounds[i]->0).key, (bounds[i]->0).inclusive)),
        None => None,
    }
}

/// At most one position, as a list.
pub open spec fn position_list(at: Option<int>) -> Seq<int> {
    match at {
        Some(i) => seq![i],
        None => Seq::empty(),
    }
}

/// The candidate that the first bounds of `target` make: one scan between them.
/// Further bounds of the target stay conditions.
pub open spec fn range_candidate(
    catalog: CatalogView,
    floats: FloatModel,
    table: Seq<char>,
    bounds: Seq<Option<BoundView>>,
    target: RangeTargetView,
) -> Option<CandidateView> {
    let lower = first_bound(bounds, target, true);
    let upper = first_bound(bounds, target, false);
    match keyed_scan(
        catalog,
        floats,
        target_range_scan(table, target, bound_at(bounds, lower), bound_at(bounds, upper)),
    ) {
        Some(scan) => if range_resolves(catalog, scan) {
            Some(
                CandidateView {
                    plan: scan,
                    consumed: position_list(lower) + position_list(upper),
                    estimate: range_estimate(catalog, scan),
                    tier: 2,
                },
            )
        } else {
            None
        },
        None => None,
    }
}

/// The candidates that the targets from `k` on make as ranges.
pub open spec fn range_candidates(
    catalog: CatalogView,
    floats: FloatModel,
    table: Seq<char>,
    bounds: Seq<Option<BoundView>>,
    targets: Seq<RangeTargetView>,
    k: int,
) -> Seq<CandidateView>
    decreases targets.len() - k,
{
    if k < 0 || k >= targets.len() {
        Seq::empty()
    } else {
        at_most_one(range_candidate(catalog, floats, table, bounds, targets[k])) + range_candidates(
            catalog,
            floats,
            table,
            bounds,
            targets,
            k + 1,
        )
    }
}

/// The candidates of a conjunction: equalities before ranges.
pub open spec fn candidates_of(
    catalog: CatalogView,
    floats: FloatModel,
    table: Seq<char>,
    parts: Seq<ExprView>,
) -> Seq<CandidateView> {
    let bounds = bounds_of(parts);
    eq_candidates(catalog, floats, table, parts, 0) + range_candidates(
        catalog,
        floats,
        table,
        bounds,
        bounded_targets(bounds, bounds.len() as int),
        0,
    )
}

/// Whether `a` is the better driver: fewer rows expected, or as many in a lower
/// tier.
pub open spec fn drives_better(a: CandidateView, b: CandidateView) -> bool {
    a.estimate < b.estimate || (a.estimate == b.estimate && a.tier < b.tier)
}

/// The best of the first `n` candidates, the earliest of equally good ones.
pub open spec fn best_driver(candidates: Seq<CandidateView>, n: int) -> Option<int>
    decreases n,
{
    if n <= 0 {
        None
    } else {
        match best_driver(candidates, n - 1) {
            Some(k) => if drives_better(candidates[n - 1], candidates[k]) {
                Some(n - 1)
            } else {
                Some(k)
            },
            None => Some(n - 1),
        }
    }
}

/// The conditions from `i` on that the driver does not answer.
pub open spec fn residual_from(parts: Seq<ExprView>, consumed: Seq<int>, i: int) -> Seq<ExprView>
    decreases parts.len() - i,
{
    if i < 0 || i >= parts.len() {
        Seq::empty()
    } else if consumed.contains(i) {
        residual_from(parts, consumed, i + 1)
    } else {
        seq![parts[i]] + residual_from(parts, consumed, i + 1)
    }
}

/// The conjunction of the first `n` expressions.
pub open spec fn conjoined(exprs: Seq<ExprView>, n: int) -> ExprView
    decreases n,
{
    if n <= 1 {
        exprs[0]
    } else {
        binary(conjoined(exprs, n - 1), BinOp::And, exprs[n - 1])
    }
}

/// A driver, with the other conditions as a filter over it.
pub open spec fn driven(plan: PlanView, residual: Seq<ExprView>) -> PlanView {
    if residual.len() == 0 {
        plan
    } else {
        PlanView::Filter {
            input: Box::new(plan),
            predicate: conjoined(residual, residual.len() as int),
        }
    }
}

/// A conjunction over a full scan, driven by its best candidate; none where the
/// predicate is no conjunction or no condition has an index.
pub open spec fn driven_conjunction(
    catalog: CatalogView,
    floats: FloatModel,
    table: Seq<char>,
    predicate: ExprView,
) -> Option<PlanView> {
    let parts = conjuncts(predicate);
    let candidates = candidates_of(catalog, floats, table, parts);
    if parts.len() < 2 {
        None
    } else {
        match best_driver(candidates, candidates.len() as int) {
            Some(k) => Some(
                driven(candidates[k].plan, residual_from(parts, candidates[k].consumed, 0)),
            ),
            None => None,
        }
    }
}

/// An index scan that could drive a conjunction, the conditions that it
/// answers, and how good a driver it is.
struct Candidate {
    plan: PlanNode,
    consumed: Vec<usize>,
    estimate: u64,
    tier: u8,
}

impl DeepView for Candidate {
    type V = CandidateView;

    closed spec fn deep_view(&self) -> CandidateView {
        CandidateView {
            plan: self.plan.deep_view(),
            consumed: ints(self.consumed@),
            estimate: self.estimate,
            tier: self.tier,
        }
    }
}

fn push_eq_candidate<
    E: Fn(&Expr, &Vec<Value>, &Vec<String>) -> Value,
    C: Fn(&Value, &Value) -> Order,
    F: Fn(FloatOp) -> u64,
>(
    catalog: &Catalog,
    scalars: &Scalars<E, C, F>,
    table: &String,
    parts: &Vec<&Expr>,
    i: usize,
    candidates: &mut Vec<Candidate>,
)
    requires
        scalars.ok(),
        i < parts.len(),
    ensures
        final(candidates).deep_view() == old(candidates).deep_view() + at_most_one(
            eq_candidate(
                catalog.deep_view(),
                scalars.floats(),
                table@,
                parts.deep_view(),
                i as int,
            ),
        ),
{
    let ghost before = candidates.deep_view();
    let ghost candidate = eq_candidate(
        catalog.deep_view(),
        scalars.floats(),
        table@,
        parts.deep_view(),
        i as int,
    );
    match try_extract_eq_index_key(table, parts[i]) {
        Some(scan) => match coerce_candidate_keys(catalog, scalars, scan) {
            Some(scan) => match eq_candidate_tier(catalog, &scan) {
                Some(tier) => {
                    let estimate: u64 = eq_candidate_est(catalog, &scan, tier);
                    let mut consumed: Vec<usize> = Vec::new();
                    consumed.push(i);
                    assert(ints(consumed@) =~= seq![i as int]);
                    candidates.push(Candidate { plan: scan, consumed, estimate, tier });
                },
                None => {},
            },
            None => {},
        },
        None => {},
    }
    assert(candidates.deep_view() =~= before + at_most_one(candidate));
}

/// The bound that each condition sets.
fn collect_bounds(parts: &Vec<&Expr>) -> (bounds: Vec<Option<RangeBound>>)
    ensures
        bounds.deep_view() == bounds_of(parts.deep_view()),
        bounds.len() == parts.len(),
{
    let mut bounds: Vec<Option<RangeBound>> = Vec::new();
    let mut i: usize = 0;
    while i < parts.len()
        invariant
            i <= parts.len(),
            bounds.len() == i,
            forall|j: int|
                0 <= j < i ==> (#[trigger] bounds[j]).deep_view() == bound_of(parts[j].deep_view()),
        decreases parts.len() - i,
    {
        bounds.push(extract_single_bound(parts[i]));
        i = i + 1;
    }
    assert(bounds.deep_view() =~= bounds_of(parts.deep_view()));
    bounds
}

fn has_target(targets: &Vec<RangeTarget>, target: &RangeTarget) -> (has: bool)
    ensures
        has == targets.deep_view().contains(target.deep_view()),
{
    let ghost views = targets.deep_view();
    let mut i: usize = 0;
    while i < targets.len()
        invariant
            i <= targets.len(),
            views == targets.deep_view(),
            forall|j: int| 0 <= j < i ==> #[trigger] views[j] != target.deep_view(),
        decreases targets.len() - i,
    {
        assert(views[i as int] == targets[i as int].deep_view());
        if targets[i].same(target) {
            return true;
        }
        i = i + 1;
    }
    false
}

/// The targets that the conditions bound, in the order of their first
/// appearance.
fn collect_targets(bounds: &Vec<Option<RangeBound>>) -> (targets: Vec<RangeTarget>)
    ensures
        targets.deep_view() == bounded_targets(bounds.deep_view(), bounds.len() as int),
{
    let ghost views = bounds.deep_view();
    let mut targets: Vec<RangeTarget> = Vec::new();
    let mut i: usize = 0;
    assert(targets.deep_view() =~= bounded_targets(views, 0));
    while i < bounds.len()
        invariant
            i <= bounds.len(),
            views == bounds.deep_view(),
            targets.deep_view() == bounded_targets(views, i as int),
        decreases bounds.len() - i,
    {
        let ghost before = targets.deep_view();
        assert(views[i as int] == bounds[i as int].deep_view());
        match &bounds[i] {
            Some(bound) => {
                if !has_target(&targets, &bound.target) {
                    targets.push(bound.target.clone());
                    assert(targets.deep_view() =~= before.push(bound.target.deep_view()));
                }
            },
            None => {},
        }
        i = i + 1;
    }
    targets
}

/// The first condition that bounds `target` on this side.
fn find_bound(bounds: &Vec<Option<RangeBound>>, target: &RangeTarget, lower: bool) -> (at: Option<
    usize,
>)
    ensures
        match at {
            Some(i) => i < bounds.len() && bounds[i as int] is Some && first_bound(
                bounds.deep_view(),
                target.deep_view(),
                lower,
            ) == Some(i as int),
            None => first_bound(bounds.deep_view(), target.deep_view(), lower) is None,
        },
{
    let ghost views = bounds.deep_view();
    let ghost f = bounds_side(target.deep_view(), lower);
    let mut i: usize = 0;
    while i < bounds.len()
        invariant
            i <= bounds.len(),
            views == bounds.deep_view(),
            f == bounds_side(target.deep_view(), lower),
            forall|j: int| 0 <= j < i ==> !f(#[trigger] views[j]),
        decreases bounds.len() - i,
    {
        assert(views[i as int] == bounds[i as int].deep_view());
        match &bounds[i] {
            Some(bound) => {
                if bound.lower == lower && bound.target.same(target) {
                    proof {
                        first_where_is(views, f, i as int);
                    }
                    return Some(i);
                }
            },
            None => {},
        }
        i = i + 1;
    }
    proof {
        first_where_none(views, f);
    }
    None
}

fn bound_key(bounds: &Vec<Option<RangeBound>>, at: Option<usize>) -> (bound: Option<(Expr, bool)>)
    requires
        at matches Some(i) ==> i < bounds.len() && bounds[i as int] is Some,
    ensures
        bound.deep_view() == bound_at(
            bounds.deep_view(),
            match at {
                Some(i) => Some(i as int),
                None => None,
            },
        ),
{
    match at {
        Some(i) => {
            assert(bounds.deep_view()[i as int] == bounds[i as int].deep_view());
            match &bounds[i] {
                Some(bound) => Some((clone_expr(&bound.key), bound.inclusive)),
                None => None,
            }
        },
        None => None,
    }
}

fn push_range_candidate<
    E: Fn(&Expr, &Vec<Value>, &Vec<String>) -> Value,
    C: Fn(&Value, &Value) -> Order,
    F: Fn(FloatOp) -> u64,
>(
    catalog: &Catalog,
    scalars: &Scalars<E, C, F>,
    table: &String,
    bounds: &Vec<Option<RangeBound>>,
    target: &RangeTarget,
    candidates: &mut Vec<Candidate>,
)
    requires
        scalars.ok(),
    ensures
        final(candidates).deep_view() == old(candidates).deep_view() + at_most_one(
            range_candidate(
                catalog.deep_view(),
                scalars.floats(),
                table@,
                bounds.deep_view(),
                target.deep_view(),
            ),
        ),
{
    let ghost before = candidates.deep_view();
    let ghost candidate = range_candidate(
        catalog.deep_view(),
        scalars.floats(),
        table@,
        bounds.deep_view(),
        target.deep_view(),
    );
    let lower = find_bound(bounds, target, true);
    let upper = find_bound(bounds, target, false);
    let start = bound_key(bounds, lower);
    let end = bound_key(bounds, upper);
    let scan = range_scan_for_target(table, target, start, end);
    match coerce_candidate_keys(catalog, scalars, scan) {
        Some(scan) => {
            if range_candidate_resolves(catalog, &scan) {
                let mut consumed: Vec<usize> = Vec::new();
                match lower {
                    Some(i) => consumed.push(i),
                    None => {},
                }
                match upper {
                    Some(i) => consumed.push(i),
                    None => {},
                }
                assert(ints(consumed@) =~= position_list(
                    first_bound(bounds.deep_view(), target.deep_view(), true),
                ) + position_list(first_bound(bounds.deep_view(), target.deep_view(), false)));
                let estimate: u64 = range_candidate_est(catalog, &scan);
                candidates.push(Candidate { plan: scan, consumed, estimate, tier: 2 });
            }
        },
        None => {},
    }
    assert(candidates.deep_view() =~= before + at_most_one(candidate));
}

fn collect_candidates<
    E: Fn(&Expr, &Vec<Value>, &Vec<String>) -> Value,
    C: Fn(&Value, &Value) -> Order,
    F: Fn(FloatOp) -> u64,
>(
    catalog: &Catalog,
    scalars: &Scalars<E, C, F>,
    table: &String,
    parts: &Vec<&Expr>,
) -> (candidates: Vec<Candidate>)
    requires
        scalars.ok(),
    ensures
        candidates.deep_view() == candidates_of(
            catalog.deep_view(),
            scalars.floats(),
            table@,
            parts.deep_view(),
        ),
{
    let ghost (cat, floats, views) = (catalog.deep_view(), scalars.floats(), parts.deep_view());
    let mut candidates: Vec<Candidate> = Vec::new();
    let ghost eqs = eq_candidates(cat, floats, table@, views, 0);
    let mut i: usize = 0;
    assert(candidates.deep_view() + eqs =~= eqs);
    while i < parts.len()
        invariant
            i <= parts.len(),
            scalars.ok(),
            cat == catalog.deep_view(),
            floats == scalars.floats(),
            views == parts.deep_view(),
            eqs == eq_candidates(cat, floats, table@, views, 0),
            candidates.deep_view() + eq_candidates(cat, floats, table@, views, i as int) == eqs,
        decreases parts.len() - i,
    {
        let ghost before = candidates.deep_view();
        push_eq_candidate(catalog, scalars, table, parts, i, &mut candidates);
        assert(candidates.deep_view() + eq_candidates(cat, floats, table@, views, i + 1) =~= before
            + eq_candidates(cat, floats, table@, views, i as int));
        i = i + 1;
    }
    assert(candidates.deep_view() =~= eqs);
    let bounds = collect_bounds(parts);
    let targets = collect_targets(&bounds);
    let ghost bound_views = bounds.deep_view();
    let ghost target_views = targets.deep_view();
    let ghost ranges = range_candidates(cat, floats, table@, bound_views, target_views, 0);
    let mut k: usize = 0;
    while k < targets.len()
        invariant
            k <= targets.len(),
            scalars.ok(),
            cat == catalog.deep_view(),
            floats == scalars.floats(),
            bound_views == bounds.deep_view(),
            target_views == targets.deep_view(),
            candidates.deep_view() + range_candidates(
                cat,
                floats,
                table@,
                bound_views,
                target_views,
                k as int,
            ) == eqs + ranges,
        decreases targets.len() - k,
    {
        let ghost before = candidates.deep_view();
        assert(target_views[k as int] == targets[k as int].deep_view());
        push_range_candidate(catalog, scalars, table, &bounds, &targets[k], &mut candidates);
        assert(candidates.deep_view() + range_candidates(
            cat,
            floats,
            table@,
            bound_views,
            target_views,
            k + 1,
        ) =~= before + range_candidates(
            cat,
            floats,
            table@,
            bound_views,
            target_views,
            k as int,
        ));
        k = k + 1;
    }
    assert(candidates.deep_view() =~= eqs + ranges);
    candidates
}

fn pick_driver(candidates: &Vec<Candidate>) -> (best: Option<usize>)
    ensures
        match best {
            Some(k) => k < candidates.len() && best_driver(
                candidates.deep_view(),
                candidates.len() as int,
            ) == Some(k as int),
            None => best_driver(candidates.deep_view(), candidates.len() as int) is None,
        },
{
    let ghost views = candidates.deep_view();
    let mut best: Option<usize> = None;
    let mut i: usize = 0;
    while i < candidates.len()
        invariant
            i <= candidates.len(),
            views == candidates.deep_view(),
            match best {
                Some(k) => k < i && best_driver(views, i as int) == Some(k as int),
                None => best_driver(views, i as int) is None,
            },
        decreases candidates.len() - i,
    {
        assert(views[i as int] == candidates[i as int].deep_view());
        best = match best {
            Some(k) => {
                assert(views[k as int] == candidates[k as int].deep_view());
                let better: bool = candidates[i].estimate < candidates[k].estimate || (
                candidates[i].estimate == candidates[k].estimate && candidates[i].tier
                    < candidates[k].tier);
                if better {
                    Some(i)
                } else {
                    Some(k)
                }
            },
            None => Some(i),
        };
        i = i + 1;
    }
    best
}

fn holds_position(positions: &Vec<usize>, at: usize) -> (holds: bool)
    ensures
        holds == ints(positions@).contains(at as int),
{
    let mut i: usize = 0;
    while i < positions.len()
        invariant
            i <= positions.len(),
            forall|j: int| 0 <= j < i ==> #[trigger] ints(positions@)[j] != at as int,
        decreases positions.len() - i,
    {
        if positions[i] == at {
            assert(ints(positions@)[i as int] == at as int);
            return true;
        }
        i = i + 1;
    }
    false
}

/// The conjunction of what `parts` holds but `consumed` does not list.
fn conjoin_residual(parts: &Vec<&Expr>, consumed: &Vec<usize>) -> (residual: Option<Expr>)
    ensures
        ({
            let left = residual_from(parts.deep_view(), ints(consumed@), 0);
            match residual {
                Some(expr) => left.len() > 0 && expr.deep_view() == conjoined(
                    left,
                    left.len() as int,
                ),
                None => left.len() == 0,
            }
        }),
{
    let ghost views = parts.deep_view();
    let ghost used = ints(consumed@);
    let ghost all = residual_from(views, used, 0);
    let ghost mut taken = Seq::<ExprView>::empty();
    let mut residual: Option<Expr> = None;
    let mut i: usize = 0;
    assert(taken + all =~= all);
    while i < parts.len()
        invariant
            i <= parts.len(),
            views == parts.deep_view(),
            used == ints(consumed@),
            taken + residual_from(views, used, i as int) == all,
            match residual {
                Some(expr) => taken.len() > 0 && expr.deep_view() == conjoined(
                    taken,
                    taken.len() as int,
                ),
                None => taken.len() == 0,
            },
        decreases parts.len() - i,
    {
        assert(views[i as int] == parts[i as int].deep_view());
        if !holds_position(consumed, i) {
            let ghost before = taken;
            let ghost part = parts[i as int].deep_view();
            residual = match residual {
                Some(expr) => {
                    proof {
                        conjoined_prefix(before, part, before.len() as int);
                    }
                    Some(
                        Expr::BinaryOp(
                            Box::new(expr),
                            BinOp::And,
                            Box::new(clone_expr(parts[i])),
                        ),
                    )
                },
                None => Some(clone_expr(parts[i])),
            };
            proof {
                taken = before.push(part);
                assert(taken + residual_from(views, used, i + 1) =~= before + residual_from(
                    views,
                    used,
                    i as int,
                ));
            }
        }
        i = i + 1;
    }
    assert(taken =~= all);
    residual
}

proof fn conjoined_prefix(exprs: Seq<ExprView>, next: ExprView, n: int)
    requires
        0 < n <= exprs.len(),
    ensures
        conjoined(exprs.push(next), n) == conjoined(exprs, n),
    decreases n,
{
    if n > 1 {
        conjoined_prefix(exprs, next, n - 1);
    }
}

/// Drive a conjunction over a full scan by its best indexed condition.
pub fn lower_conjunction_scan<
    E: Fn(&Expr, &Vec<Value>, &Vec<String>) -> Value,
    C: Fn(&Value, &Value) -> Order,
    F: Fn(FloatOp) -> u64,
>(
    catalog: &Catalog,
    scalars: &Scalars<E, C, F>,
    table: &String,
    predicate: &Expr,
) -> (lowered: Option<PlanNode>)
    requires
        scalars.ok(),
    ensures
        lowered.deep_view() == driven_conjunction(
            catalog.deep_view(),
            scalars.floats(),
            table@,
            predicate.deep_view(),
        ),
{
    let mut parts: Vec<&Expr> = Vec::new();
    flatten_conjunctions(predicate, &mut parts);
    assert(parts.deep_view() =~= conjuncts(predicate.deep_view()));
    if parts.len() < 2 {
        assert(parts.deep_view().len() < 2);
        return None;
    }
    assert(parts.deep_view().len() >= 2);
    let candidates = collect_candidates(catalog, scalars, table, &parts);
    match pick_driver(&candidates) {
        Some(k) => {
            assert(candidates.deep_view()[k as int] == candidates[k as int].deep_view());
            let plan = clone_plan(&candidates[k].plan);
            match conjoin_residual(&parts, &candidates[k].consumed) {
                Some(predicate) => Some(PlanNode::Filter { input: Box::new(plan), predicate }),
                None => Some(plan),
            }
        },
        None => None,
    }
}

/// A plan with its scans lowered to what the catalog's indexes allow.
pub open spec fn lowered(catalog: CatalogView, floats: FloatModel, plan: PlanView) -> PlanView
    decreases plan,
{
    match plan {
        PlanView::ExprIndexScan { table, path, .. } => path_scan(catalog, table, path, plan),
        PlanView::ExprRangeScan { table, path, .. } => path_scan(catalog, table, path, plan),
        PlanView::OrderedExprIndexScan { table, path, .. } => path_scan(catalog, table, path, plan),
        PlanView::IndexScan { table, column, key } => if catalog.index(table, column) is Some {
            plan
        } else {
            PlanView::Filter {
                input: Box::new(PlanView::SeqScan { table }),
                predicate: binary(ExprView::Field(column), BinOp::Eq, key),
            }
        },
        PlanView::RangeScan { table, column, start, end } => if catalog.index(
            table,
            column,
        ) is Some {
            plan
        } else {
            PlanView::Filter {
                input: Box::new(PlanView::SeqScan { table }),
                predicate: range_predicate(ExprView::Field(column), start, end),
            }
        },
        PlanView::Filter { input, predicate } => {
            let driver = match *input {
                PlanView::SeqScan { table } => driven_conjunction(
                    catalog,
                    floats,
                    table,
                    predicate,
                ),
                _ => None,
            };
            match driver {
                Some(driver) => driver,
                None => PlanView::Filter {
                    input: Box::new(lowered(catalog, floats, *input)),
                    predicate,
                },
            }
        },
        PlanView::Project { input, fields } => PlanView::Project {
            input: Box::new(lowered(catalog, floats, *input)),
            fields,
        },
        PlanView::Sort { input, keys } => PlanView::Sort {
            input: Box::new(lowered(catalog, floats, *input)),
            keys,
        },
        PlanView::Limit { input, count } => PlanView::Limit {
            input: Box::new(lowered(catalog, floats, *input)),
            count,
        },
        PlanView::Offset { input, count } => PlanView::Offset {
            input: Box::new(lowered(catalog, floats, *input)),
            count,
        },
        PlanView::Aggregate {
            input,
            function,
            argument,
            mode,
            provenance_alias,
        } => PlanView::Aggregate {
            input: Box::new(lowered(catalog, floats, *input)),
            function,
            argument,
            mode,
            provenance_alias,
        },
        PlanView::Distinct { input } => PlanView::Distinct {
            input: Box::new(lowered(catalog, floats, *input)),
        },
        PlanView::GroupBy { input, keys, aggregates, having } => PlanView::GroupBy {
            input: Box::new(lowered(catalog, floats, *input)),
            keys,
            aggregates,
            having,
        },
        PlanView::Update { input, table, assignments, returning } => PlanView::Update {
            input: Box::new(lowered(catalog, floats, *input)),
            table,
            assignments,
            returning,
        },
        PlanView::Delete { input, table, returning } => PlanView::Delete {
            input: Box::new(lowered(catalog, floats, *input)),
            table,
            returning,
        },
        PlanView::Window { input, windows } => PlanView::Window {
            input: Box::new(lowered(catalog, floats, *input)),
            windows,
        },
        PlanView::Union { left, right, all } => PlanView::Union {
            left: Box::new(lowered(catalog, floats, *left)),
            right: Box::new(lowered(catalog, floats, *right)),
            all,
        },
        PlanView::Explain { input } => PlanView::Explain {
            input: Box::new(lowered(catalog, floats, *input)),
        },
        PlanView::NestedLoopJoin { left, right, on, kind } => PlanView::NestedLoopJoin {
            left: Box::new(lowered(catalog, floats, *left)),
            right: Box::new(lowered(catalog, floats, *right)),
            on,
            kind,
        },
        _ => plan,
    }
}

/// A scan of an index on a JSON path, where the index exists, or what it
/// answers without.
pub open spec fn path_scan(
    catalog: CatalogView,
    table: Seq<char>,
    path: StoredJsonPathView,
    plan: PlanView,
) -> PlanView {
    if catalog.expression_index(table, path) is Some {
        plan
    } else {
        match path_fallback(plan) {
            Some(fallback) => fallback,
            None => plan,
        }
    }
}

fn lower_path_scan(catalog: &Catalog, table: &String, path: &StoredJsonPath, plan: &PlanNode) -> (scan:
    PlanNode)
    ensures
        scan.deep_view() == path_scan(
            catalog.deep_view(),
            table@,
            path.deep_view(),
            plan.deep_view(),
        ),
{
    if catalog.resolve_expression_index(table, path).is_some() {
        return clone_plan(plan);
    }
    match expression_index_fallback(plan) {
        Some(fallback) => fallback,
        None => clone_plan(plan),
    }
}

/// Lower the scans of a plan to what the catalog's indexes allow.
pub fn lower_unindexed_scans<
    E: Fn(&Expr, &Vec<Value>, &Vec<String>) -> Value,
    C: Fn(&Value, &Value) -> Order,
    F: Fn(FloatOp) -> u64,
>(
    catalog: &Catalog,
    scalars: &Scalars<E, C, F>,
    plan: &PlanNode,
) -> (result: PlanNode)
    requires
        scalars.ok(),
    ensures
        result.deep_view() == lowered(catalog.deep_view(), scalars.floats(), plan.deep_view()),
    decreases plan,
{
    match plan {
        PlanNode::ExprIndexScan { table, path, .. } => lower_path_scan(catalog, table, path, plan),
        PlanNode::ExprRangeScan { table, path, .. } => lower_path_scan(catalog, table, path, plan),
        PlanNode::OrderedExprIndexScan { table, path, .. } => lower_path_scan(
            catalog,
            table,
            path,
            plan,
        ),
        PlanNode::IndexScan { table, column, key } => {
            if catalog.has_index(table, column) {
                return clone_plan(plan);
            }
            let subject = Expr::Field(column.clone());
            assert(subject.deep_view() == ExprView::Field(column@));
            let predicate = Expr::BinaryOp(
                Box::new(subject),
                BinOp::Eq,
                Box::new(clone_expr(key)),
            );
            filter_scan(table, predicate)
        },
        PlanNode::RangeScan { table, column, start, end } => {
            if catalog.has_index(table, column) {
                return clone_plan(plan);
            }
            filter_scan(table, synthesize_range_predicate(column, start, end))
        },
        PlanNode::Filter { input, predicate } => {
            match &**input {
                PlanNode::SeqScan { table } => {
                    assert(input.deep_view() == PlanView::SeqScan { table: table@ });
                    match lower_conjunction_scan(catalog, scalars, table, predicate) {
                        Some(driver) => {
                            return driver;
                        },
                        None => {},
                    }
                },
                _ => {
                    assert(!(input.deep_view() is SeqScan));
                },
            }
            let input = lower_unindexed_scans(catalog, scalars, input);
            PlanNode::Filter { input: Box::new(input), predicate: clone_expr(predicate) }
        },
        PlanNode::Project { input, fields } => {
            let input = lower_unindexed_scans(catalog, scalars, input);
            PlanNode::Project { input: Box::new(input), fields: clone_all(fields) }
        },
        PlanNode::Sort { input, keys } => {
            let input = lower_unindexed_scans(catalog, scalars, input);
            PlanNode::Sort { input: Box::new(input), keys: clone_sort_keys(keys) }
        },
        PlanNode::Limit { input, count } => {
            let input = lower_unindexed_scans(catalog, scalars, input);
            PlanNode::Limit { input: Box::new(input), count: clone_expr(count) }
        },
        PlanNode::Offset { input, count } => {
            let input = lower_unindexed_scans(catalog, scalars, input);
            PlanNode::Offset { input: Box::new(input), count: clone_expr(count) }
        },
        PlanNode::Aggregate { input, function, argument, mode, provenance_alias } => {
            let input = lower_unindexed_scans(catalog, scalars, input);
            PlanNode::Aggregate {
                input: Box::new(input),
                function: *function,
                argument: clone_opt_expr(argument),
                mode: *mode,
                provenance_alias: clone_opt_text(provenance_alias),
            }
        },
        PlanNode::Distinct { input } => {
            let input = lower_unindexed_scans(catalog, scalars, input);
            PlanNode::Distinct { input: Box::new(input) }
        },
        PlanNode::GroupBy { input, keys, aggregates, having } => {
            let input = lower_unindexed_scans(catalog, scalars, input);
            PlanNode::GroupBy {
                input: Box::new(input),
                keys: clone_all(keys),
                aggregates: clone_all(aggregates),
                having: clone_opt_expr(having),
            }
        },
        PlanNode::Update { input, table, assignments, returning } => {
            let input = lower_unindexed_scans(catalog, scalars, input);
            PlanNode::Update {
                input: Box::new(input),
                table: table.clone(),
                assignments: clone_all(assignments),
                returning: *returning,
            }
        },
        PlanNode::Delete { input, table, returning } => {
            let input = lower_unindexed_scans(catalog, scalars, input);
            PlanNode::Delete {
                input: Box::new(input),
                table: table.clone(),
                returning: *returning,
            }
        },
        PlanNode::Window { input, windows } => {
            let input = lower_unindexed_scans(catalog, scalars, input);
            PlanNode::Window { input: Box::new(input), windows: clone_all(windows) }
        },
        PlanNode::Union { left, right, all } => {
            let left = lower_unindexed_scans(catalog, scalars, left);
            let right = lower_unindexed_scans(catalog, scalars, right);
            PlanNode::Union { left: Box::new(left), right: Box::new(right), all: *all }
        },
        PlanNode::Explain { input } => {
            let input = lower_unindexed_scans(catalog, scalars, input);
            PlanNode::Explain { input: Box::new(input) }
        },
        PlanNode::NestedLoopJoin { left, right, on, kind } => {
            let left = lower_unindexed_scans(catalog, scalars, left);
            let right = lower_unindexed_scans(catalog, scalars, right);
            PlanNode::NestedLoopJoin {
                left: Box::new(left),
                right: Box::new(right),
                on: clone_opt_expr(on),
                kind: *kind,
            }
        },
        _ => clone_plan(plan),
    }
}

/// The driver of a conjunction is at least as good as every candidate, and
/// better than every earlier one.
pub proof fn driver_is_best(candidates: Seq<CandidateView>, n: int)
    requires
        0 <= n <= candidates.len(),
    ensures
        match best_driver(candidates, n) {
            Some(k) => 0 <= k < n && (forall|j: int|
                0 <= j < n ==> !drives_better(#[trigger] candidates[j], candidates[k])) && (forall|
                j: int,
            |
                0 <= j < k ==> drives_better(candidates[k], #[trigger] candidates[j])),
            None => n == 0,
        },
    decreases n,
{
    if n > 0 {
        driver_is_best(candidates, n - 1);
    }
}

/// Comparisons say the same of their operands whichever way round they are
/// written, a comparison of a float column widens an integer literal, and `true`
/// is true.
pub open spec fn compares_plainly(eval: EvalModel, floats: FloatModel) -> bool {
    &&& forall|l: ExprView, op: BinOp, r: ExprView, row: Seq<ValueView>, columns: Seq<Seq<char>>|
        indexable(op) ==> is_true(#[trigger] eval(binary(l, op, r), row, columns)) == is_true(
            eval(binary(r, flipped(op), l), row, columns),
        )
    &&& forall|column: Seq<char>, op: BinOp, n: i64, row: Seq<ValueView>, columns: Seq<Seq<char>>|
        indexable(op) && holds_float(column, row, columns) ==> is_true(
            #[trigger] eval(
                binary(ExprView::Field(column), op, ExprView::Literal(LiteralView::Int(n))),
                row,
                columns,
            ),
        ) == is_true(
            eval(
                binary(
                    ExprView::Field(column),
                    op,
                    ExprView::Literal(LiteralView::Float(floats(FloatOp::FromInt(n as i128)))),
                ),
                row,
                columns,
            ),
        )
    &&& forall|row: Seq<ValueView>, columns: Seq<Seq<char>>|
        is_true(#[trigger] eval(ExprView::Literal(LiteralView::Bool(true)), row, columns))
}

/// The row holds a float, or nothing, in this column.
pub open spec fn holds_float(column: Seq<char>, row: Seq<ValueView>, columns: Seq<Seq<char>>) -> bool {
    name_position(columns, column) matches Some(i) && 0 <= i < row.len() && (row[i] is Float
        || row[i] is Empty)
}

/// The row is one of the table: a value of the column's type, or nothing, in
/// each column.
pub open spec fn row_fits(
    catalog: CatalogView,
    table: Seq<char>,
    row: Seq<ValueView>,
    columns: Seq<Seq<char>>,
) -> bool {
    catalog.schema(table) matches Some(schema) && columns == schema.column_names() && row.len()
        == columns.len() && forall|i: int|
        0 <= i < row.len() ==> (#[trigger] row[i]) is Empty || row[i].type_id()
            == schema.columns[i].type_id
}

/// The condition that the rows of a scan meet.
pub open spec fn scan_condition(plan: PlanView) -> Option<ExprView> {
    match plan {
        PlanView::IndexScan { column, key, .. } => Some(
            binary(ExprView::Field(column), BinOp::Eq, key),
        ),
        PlanView::RangeScan { column, start, end, .. } => Some(
            range_predicate(ExprView::Field(column), start, end),
        ),
        PlanView::ExprIndexScan { path, key, .. } => Some(binary(path_expr(path), BinOp::Eq, key)),
        PlanView::ExprRangeScan { path, start, end, .. } => Some(
            range_predicate(path_expr(path), start, end),
        ),
        _ => None,
    }
}

/// Whether a scan, or a filter over one, keeps a row.
pub open spec fn keeps(
    eval: EvalModel,
    plan: PlanView,
    row: Seq<ValueView>,
    columns: Seq<Seq<char>>,
) -> bool
    decreases plan,
{
    match plan {
        PlanView::Filter { input, predicate } => keeps(eval, *input, row, columns) && is_true(
            eval(predicate, row, columns),
        ),
        _ => match scan_condition(plan) {
            Some(condition) => is_true(eval(condition, row, columns)),
            None => true,
        },
    }
}

/// A candidate answers the conditions that it consumes: its scan keeps the rows
/// on which they hold.
spec fn answers(
    eval: EvalModel,
    candidate: CandidateView,
    parts: Seq<ExprView>,
    row: Seq<ValueView>,
    columns: Seq<Seq<char>>,
) -> bool {
    &&& scan_condition(candidate.plan) is Some
    &&& !(candidate.plan is Filter)
    &&& keeps(eval, candidate.plan, row, columns) == all_at(
        eval,
        parts,
        candidate.consumed,
        row,
        columns,
    )
}

/// The conditions at these positions hold.
spec fn all_at(
    eval: EvalModel,
    parts: Seq<ExprView>,
    at: Seq<int>,
    row: Seq<ValueView>,
    columns: Seq<Seq<char>>,
) -> bool {
    forall|k: int| 0 <= k < at.len() ==> is_true(eval(parts[#[trigger] at[k]], row, columns))
}

proof fn target_is_expr(expr: ExprView)
    ensures
        target_of(expr) matches Some(target) ==> target.expr() == expr,
{
}

/// A comparison with its key as the index holds it says what the condition
/// says.
proof fn keyed_comparison_agrees(
    catalog: CatalogView,
    floats: FloatModel,
    eval: EvalModel,
    table: Seq<char>,
    part: ExprView,
    key: ExprView,
    row: Seq<ValueView>,
    columns: Seq<Seq<char>>,
)
    requires
        compares_plainly(eval, floats),
        row_fits(catalog, table, row, columns),
        comparison_of(part) is Some,
        match (comparison_of(part)->0).target {
            RangeTargetView::Column(column) => catalog.column_type(table, column) matches Some(t)
                && index_key(floats, t, (comparison_of(part)->0).key) == Some(key),
            RangeTargetView::JsonPath(_) => key == (comparison_of(part)->0).key,
        },
    ensures
        ({
            let c = comparison_of(part)->0;
            is_true(eval(binary(c.target.expr(), c.op, key), row, columns)) == is_true(
                eval(part, row, columns),
            )
        }),
{
    let c = comparison_of(part)->0;
    match part {
        ExprView::BinaryOp(left, op, right) => {
            target_is_expr(*left);
            target_is_expr(*right);
            assert(part == binary(*left, op, *right));
            assert(flipped(flipped(op)) == op);
            assert(is_true(eval(binary(c.target.expr(), c.op, c.key), row, columns)) == is_true(
                eval(part, row, columns),
            )) by {
                assert(is_true(eval(binary(*left, op, *right), row, columns)) == is_true(
                    eval(binary(*right, flipped(op), *left), row, columns),
                ));
            }
            if key != c.key {
                let column = c.target->Column_0;
                let schema = catalog.schema(table)->0;
                first_where_found(schema.column_names(), is_name(column));
                let i = schema.column_index(column)->0;
                assert(row[i] is Empty || row[i].type_id() == TypeId::Float);
                assert(holds_float(column, row, columns));
            }
        },
        _ => {},
    }
}

proof fn eq_candidate_answers(
    catalog: CatalogView,
    floats: FloatModel,
    eval: EvalModel,
    table: Seq<char>,
    parts: Seq<ExprView>,
    i: int,
    row: Seq<ValueView>,
    columns: Seq<Seq<char>>,
)
    requires
        compares_plainly(eval, floats),
        row_fits(catalog, table, row, columns),
        eq_candidate(catalog, floats, table, parts, i) is Some,
    ensures
        answers(eval, eq_candidate(catalog, floats, table, parts, i)->0, parts, row, columns),
{
    let candidate = eq_candidate(catalog, floats, table, parts, i)->0;
    let c = comparison_of(parts[i])->0;
    let key = match candidate.plan {
        PlanView::IndexScan { key, .. } => key,
        PlanView::ExprIndexScan { key, .. } => key,
        _ => c.key,
    };
    keyed_comparison_agrees(catalog, floats, eval, table, parts[i], key, row, columns);
    assert(scan_condition(candidate.plan) == Some(binary(c.target.expr(), BinOp::Eq, key)));
    assert(candidate.consumed[0] == i);
}

proof fn eq_candidates_answer(
    catalog: CatalogView,
    floats: FloatModel,
    eval: EvalModel,
    table: Seq<char>,
    parts: Seq<ExprView>,
    i: int,
    row: Seq<ValueView>,
    columns: Seq<Seq<char>>,
)
    requires
        compares_plainly(eval, floats),
        row_fits(catalog, table, row, columns),
        0 <= i,
    ensures
        forall|k: int|
            0 <= k < eq_candidates(catalog, floats, table, parts, i).len() ==> answers(
                eval,
                #[trigger] eq_candidates(catalog, floats, table, parts, i)[k],
                parts,
                row,
                columns,
            ),
    decreases parts.len() - i,
{
    if i < parts.len() {
        eq_candidates_answer(catalog, floats, eval, table, parts, i + 1, row, columns);
        let head = at_most_one(eq_candidate(catalog, floats, table, parts, i));
        let rest = eq_candidates(catalog, floats, table, parts, i + 1);
        let all = eq_candidates(catalog, floats, table, parts, i);
        if eq_candidate(catalog, floats, table, parts, i) is Some {
            eq_candidate_answers(catalog, floats, eval, table, parts, i, row, columns);
        }
        assert forall|k: int| 0 <= k < all.len() implies answers(
            eval,
            #[trigger] all[k],
            parts,
            row,
            columns,
        ) by {
            if k >= head.len() {
                assert(all[k] == rest[k - head.len()]);
            }
        }
    }
}

/// One bound, with its key as the index holds it.
proof fn keyed_bound_agrees(
    catalog: CatalogView,
    floats: FloatModel,
    eval: EvalModel,
    table: Seq<char>,
    parts: Seq<ExprView>,
    target: RangeTargetView,
    lower: bool,
    key: ExprView,
    row: Seq<ValueView>,
    columns: Seq<Seq<char>>,
)
    requires
        compares_plainly(eval, floats),
        row_fits(catalog, table, row, columns),
        first_bound(bounds_of(parts), target, lower) is Some,
        ({
            let i = first_bound(bounds_of(parts), target, lower)->0;
            match target {
                RangeTargetView::Column(column) => catalog.column_type(table, column) matches Some(t)
                    && index_key(floats, t, (bounds_of(parts)[i]->0).key) == Some(key),
                RangeTargetView::JsonPath(_) => key == (bounds_of(parts)[i]->0).key,
            }
        }),
    ensures
        ({
            let i = first_bound(bounds_of(parts), target, lower)->0;
            let inclusive = (bounds_of(parts)[i]->0).inclusive;
            let op = if lower {
                if inclusive {
                    BinOp::Gte
                } else {
                    BinOp::Gt
                }
            } else {
                if inclusive {
                    BinOp::Lte
                } else {
                    BinOp::Lt
                }
            };
            is_true(eval(binary(target.expr(), op, key), row, columns)) == is_true(
                eval(parts[i], row, columns),
            )
        }),
{
    let bounds = bounds_of(parts);
    first_where_found(bounds, bounds_side(target, lower));
    let i = first_bound(bounds, target, lower)->0;
    assert(bounds[i] == bound_of(parts[i]));
    keyed_comparison_agrees(catalog, floats, eval, table, parts[i], key, row, columns);
}

proof fn range_candidate_answers(
    catalog: CatalogView,
    floats: FloatModel,
    eval: EvalModel,
    table: Seq<char>,
    parts: Seq<ExprView>,
    target: RangeTargetView,
    row: Seq<ValueView>,
    columns: Seq<Seq<char>>,
)
    requires
        and_is_conjunction(eval),
        compares_plainly(eval, floats),
        row_fits(catalog, table, row, columns),
        range_candidate(catalog, floats, table, bounds_of(parts), target) is Some,
    ensures
        answers(
            eval,
            range_candidate(catalog, floats, table, bounds_of(parts), target)->0,
            parts,
            row,
            columns,
        ),
{
    let bounds = bounds_of(parts);
    let candidate = range_candidate(catalog, floats, table, bounds, target)->0;
    let lower = first_bound(bounds, target, true);
    let upper = first_bound(bounds, target, false);
    let (start, end) = match candidate.plan {
        PlanView::RangeScan { start, end, .. } => (start, end),
        PlanView::ExprRangeScan { start, end, .. } => (start, end),
        _ => (None, None),
    };
    assert(scan_condition(candidate.plan) == Some(range_predicate(target.expr(), start, end)));
    if lower is Some {
        keyed_bound_agrees(
            catalog,
            floats,
            eval,
            table,
            parts,
            target,
            true,
            (start->0).0,
            row,
            columns,
        );
        assert(candidate.consumed[0] == lower->0);
    }
    if upper is Some {
        keyed_bound_agrees(
            catalog,
            floats,
            eval,
            table,
            parts,
            target,
            false,
            (end->0).0,
            row,
            columns,
        );
        assert(candidate.consumed[candidate.consumed.len() - 1] == upper->0);
    }
}

proof fn range_candidates_answer(
    catalog: CatalogView,
    floats: FloatModel,
    eval: EvalModel,
    table: Seq<char>,
    parts: Seq<ExprView>,
    targets: Seq<RangeTargetView>,
    k: int,
    row: Seq<ValueView>,
    columns: Seq<Seq<char>>,
)
    requires
        and_is_conjunction(eval),
        compares_plainly(eval, floats),
        row_fits(catalog, table, row, columns),
        0 <= k,
    ensures
        forall|j: int|
            0 <= j < range_candidates(
                catalog,
                floats,
                table,
                bounds_of(parts),
                targets,
                k,
            ).len() ==> answers(
                eval,
                #[trigger] range_candidates(
                    catalog,
                    floats,
                    table,
                    bounds_of(parts),
                    targets,
                    k,
                )[j],
                parts,
                row,
                columns,
            ),
    decreases targets.len() - k,
{
    if k < targets.len() {
        let bounds = bounds_of(parts);
        range_candidates_answer(
            catalog,
            floats,
            eval,
            table,
            parts,
            targets,
            k + 1,
            row,
            columns,
        );
        let head = at_most_one(range_candidate(catalog, floats, table, bounds, targets[k]));
        let rest = range_candidates(catalog, floats, table, bounds, targets, k + 1);
        let all = range_candidates(catalog, floats, table, bounds, targets, k);
        if range_candidate(catalog, floats, table, bounds, targets[k]) is Some {
            range_candidate_answers(
                catalog,
                floats,
                eval,
                table,
                parts,
                targets[k],
                row,
                columns,
            );
        }
        assert forall|j: int| 0 <= j < all.len() implies answers(
            eval,
            #[trigger] all[j],
            parts,
            row,
            columns,
        ) by {
            if j >= head.len() {
                assert(all[j] == rest[j - head.len()]);
            }
        }
    }
}

/// The residual conditions hold where every condition that is not consumed does.
proof fn residual_holds(
    eval: EvalModel,
    parts: Seq<ExprView>,
    consumed: Seq<int>,
    i: int,
    row: Seq<ValueView>,
    columns: Seq<Seq<char>>,
)
    requires
        0 <= i,
    ensures
        all_hold(eval, residual_from(parts, consumed, i), row, columns) == (forall|j: int|
            i <= j < parts.len() && !consumed.contains(j) ==> is_true(
                eval(#[trigger] parts[j], row, columns),
            )),
    decreases parts.len() - i,
{
    if i < parts.len() {
        residual_holds(eval, parts, consumed, i + 1, row, columns);
        let rest = residual_from(parts, consumed, i + 1);
        let all = residual_from(parts, consumed, i);
        if !consumed.contains(i) {
            assert(all[0] == parts[i]);
            assert forall|j: int| 0 <= j < rest.len() implies all[j + 1] == #[trigger] rest[j] by {}
            if all_hold(eval, all, row, columns) {
                assert forall|j: int| 0 <= j < rest.len() implies is_true(
                    eval(#[trigger] rest[j], row, columns),
                ) by {
                    assert(all[j + 1] == rest[j]);
                }
                assert forall|j: int|
                    i <= j < parts.len() && !consumed.contains(j) implies is_true(
                    eval(#[trigger] parts[j], row, columns),
                ) by {}
            }
            if forall|j: int|
                i <= j < parts.len() && !consumed.contains(j) ==> is_true(
                    eval(#[trigger] parts[j], row, columns),
                ) {
                assert forall|j: int| 0 <= j < all.len() implies is_true(
                    eval(#[trigger] all[j], row, columns),
                ) by {
                    if j > 0 {
                        assert(all[j] == rest[j - 1]);
                    }
                }
            }
        }
    }
}

/// A conjunction holds where the expressions it conjoins do.
proof fn conjoined_holds(
    eval: EvalModel,
    exprs: Seq<ExprView>,
    n: int,
    row: Seq<ValueView>,
    columns: Seq<Seq<char>>,
)
    requires
        and_is_conjunction(eval),
        1 <= n <= exprs.len(),
    ensures
        is_true(eval(conjoined(exprs, n), row, columns)) == (forall|j: int|
            0 <= j < n ==> is_true(eval(#[trigger] exprs[j], row, columns))),
    decreases n,
{
    if n > 1 {
        conjoined_holds(eval, exprs, n - 1, row, columns);
    }
}

/// Driving a conjunction by an index changes no answer: the driver and the
/// filter over it keep exactly the rows on which the conjunction holds,
/// whichever candidate drives.
pub proof fn driving_keeps_the_answer(
    catalog: CatalogView,
    floats: FloatModel,
    eval: EvalModel,
    table: Seq<char>,
    predicate: ExprView,
    row: Seq<ValueView>,
    columns: Seq<Seq<char>>,
)
    requires
        and_is_conjunction(eval),
        compares_plainly(eval, floats),
        row_fits(catalog, table, row, columns),
    ensures
        driven_conjunction(catalog, floats, table, predicate) matches Some(plan) ==> keeps(
            eval,
            plan,
            row,
            columns,
        ) == is_true(eval(predicate, row, columns)),
{
    let parts = conjuncts(predicate);
    let candidates = candidates_of(catalog, floats, table, parts);
    if driven_conjunction(catalog, floats, table, predicate) is Some {
        driver_is_best(candidates, candidates.len() as int);
        let k = best_driver(candidates, candidates.len() as int)->0;
        let bounds = bounds_of(parts);
        let eqs = eq_candidates(catalog, floats, table, parts, 0);
        let targets = bounded_targets(bounds, bounds.len() as int);
        let ranges = range_candidates(catalog, floats, table, bounds, targets, 0);
        eq_candidates_answer(catalog, floats, eval, table, parts, 0, row, columns);
        range_candidates_answer(catalog, floats, eval, table, parts, targets, 0, row, columns);
        if k >= eqs.len() {
            assert(candidates[k] == ranges[k - eqs.len()]);
        } else {
            assert(candidates[k] == eqs[k]);
        }
        let winner = candidates[k];
        assert(answers(eval, winner, parts, row, columns));
        let residual = residual_from(parts, winner.consumed, 0);
        residual_holds(eval, parts, winner.consumed, 0, row, columns);
        conjunction_holds_when_conjuncts_do(eval, predicate, row, columns);
        if residual.len() > 0 {
            conjoined_holds(eval, residual, residual.len() as int, row, columns);
        }
        let plan = driven(winner.plan, residual);
        assert(keeps(eval, plan, row, columns) == (all_at(
            eval,
            parts,
            winner.consumed,
            row,
            columns,
        ) && all_hold(eval, residual, row, columns)));
        candidate_positions(catalog, floats, table, parts, k);
        if keeps(eval, plan, row, columns) {
            assert forall|j: int| 0 <= j < parts.len() implies is_true(
                eval(#[trigger] parts[j], row, columns),
            ) by {
                if winner.consumed.contains(j) {
                    let m = choose|m: int|
                        0 <= m < winner.consumed.len() && winner.consumed[m] == j;
                    assert(is_true(eval(parts[winner.consumed[m]], row, columns)));
                }
            }
        }
        if all_hold(eval, parts, row, columns) {
            assert forall|m: int| 0 <= m < winner.consumed.len() implies is_true(
                eval(parts[#[trigger] winner.consumed[m]], row, columns),
            ) by {
                assert(is_true(eval(parts[winner.consumed[m]], row, columns)));
            }
        }
    }
}

/// What a candidate consumes are positions of conditions.
proof fn candidate_positions(
    catalog: CatalogView,
    floats: FloatModel,
    table: Seq<char>,
    parts: Seq<ExprView>,
    k: int,
)
    requires
        0 <= k < candidates_of(catalog, floats, table, parts).len(),
    ensures
        forall|m: int|
            0 <= m < candidates_of(catalog, floats, table, parts)[k].consumed.len() ==> 0
                <= #[trigger] candidates_of(catalog, floats, table, parts)[k].consumed[m]
                < parts.len(),
{
    let bounds = bounds_of(parts);
    let eqs = eq_candidates(catalog, floats, table, parts, 0);
    let targets = bounded_targets(bounds, bounds.len() as int);
    let ranges = range_candidates(catalog, floats, table, bounds, targets, 0);
    let all = candidates_of(catalog, floats, table, parts);
    if k < eqs.len() {
        assert(all[k] == eqs[k]);
        eq_positions(catalog, floats, table, parts, 0, k);
    } else {
        assert(all[k] == ranges[k - eqs.len()]);
        range_positions(catalog, floats, table, parts, targets, 0, k - eqs.len());
    }
}

proof fn eq_positions(
    catalog: CatalogView,
    floats: FloatModel,
    table: Seq<char>,
    parts: Seq<ExprView>,
    i: int,
    k: int,
)
    requires
        0 <= i,
        0 <= k < eq_candidates(catalog, floats, table, parts, i).len(),
    ensures
        forall|m: int|
            0 <= m < eq_candidates(catalog, floats, table, parts, i)[k].consumed.len() ==> 0
                <= #[trigger] eq_candidates(catalog, floats, table, parts, i)[k].consumed[m]
                < parts.len(),
    decreases parts.len() - i,
{
    if i < parts.len() {
        let head = at_most_one(eq_candidate(catalog, floats, table, parts, i));
        let rest = eq_candidates(catalog, floats, table, parts, i + 1);
        let all = eq_candidates(catalog, floats, table, parts, i);
        if k >= head.len() {
            assert(all[k] == rest[k - head.len()]);
            eq_positions(catalog, floats, table, parts, i + 1, k - head.len());
        }
    }
}

proof fn range_positions(
    catalog: CatalogView,
    floats: FloatModel,
    table: Seq<char>,
    parts: Seq<ExprView>,
    targets: Seq<RangeTargetView>,
    j: int,
    k: int,
)
    requires
        0 <= j,
        0 <= k < range_candidates(catalog, floats, table, bounds_of(parts), targets, j).len(),
    ensures
        forall|m: int|
            0 <= m < range_candidates(
                catalog,
                floats,
                table,
                bounds_of(parts),
                targets,
                j,
            )[k].consumed.len() ==> 0 <= #[trigger] range_candidates(
                catalog,
                floats,
                table,
                bounds_of(parts),
                targets,
                j,
            )[k].consumed[m] < parts.len(),
    decreases targets.len() - j,
{
    if j < targets.len() {
        let bounds = bounds_of(parts);
        let head = at_most_one(range_candidate(catalog, floats, table, bounds, targets[j]));
        let rest = range_candidates(catalog, floats, table, bounds, targets, j + 1);
        let all = range_candidates(catalog, floats, table, bounds, targets, j);
        if k >= head.len() {
            assert(all[k] == rest[k - head.len()]);
            range_positions(catalog, floats, table, parts, targets, j + 1, k - head.len());
        } else {
            first_where_found(bounds, bounds_side(targets[j], true));
            first_where_found(bounds, bounds_side(targets[j], false));
        }
    }
}

/// An index scan without its index becomes a filter that keeps the same rows.
pub proof fn unindexed_scan_keeps_the_answer(
    catalog: CatalogView,
    floats: FloatModel,
    eval: EvalModel,
    scan: PlanView,
    row: Seq<ValueView>,
    columns: Seq<Seq<char>>,
)
    requires
        scan_condition(scan) is Some,
    ensures
        keeps(eval, lowered(catalog, floats, scan), row, columns) == keeps(
            eval,
            scan,
            row,
            columns,
        ),
{
    reveal_with_fuel(keeps, 3);
}

/// A range read off values in order and the condition that stands for it agree,
/// where comparisons follow the order of values.
pub proof fn range_condition_agrees(
    eval: EvalModel,
    order: spec_fn(ValueView, ValueView) -> Order,
    subject: ExprView,
    start: Option<(ExprView, bool)>,
    end: Option<(ExprView, bool)>,
    row: Seq<ValueView>,
    columns: Seq<Seq<char>>,
)
    requires
        and_is_conjunction(eval),
        is_true(eval(ExprView::Literal(LiteralView::Bool(true)), row, columns)),
        comparison_follows(eval, order, subject, row, columns),
        start matches Some((key, _)) ==> literal_of(key) is Ok,
        end matches Some((key, _)) ==> literal_of(key) is Ok,
    ensures
        is_true(eval(range_predicate(subject, start, end), row, columns)) == in_range(
            order,
            eval(subject, row, columns),
            match start {
                Some((key, _)) => Some(literal_of(key)->Ok_0),
                None => None,
            },
            start matches Some((_, inclusive)) ==> inclusive,
            match end {
                Some((key, _)) => Some(literal_of(key)->Ok_0),
                None => None,
            },
            end matches Some((_, inclusive)) ==> inclusive,
        ),
{
}

/// On this row, comparing `subject` with a literal goes by the order of values.
pub open spec fn comparison_follows(
    eval: EvalModel,
    order: spec_fn(ValueView, ValueView) -> Order,
    subject: ExprView,
    row: Seq<ValueView>,
    columns: Seq<Seq<char>>,
) -> bool {
    forall|op: BinOp, key: ExprView|
        indexable(op) && literal_of(key) is Ok ==> is_true(
            #[trigger] eval(binary(subject, op, key), row, columns),
        ) == op_holds(op, order(eval(subject, row, columns), literal_of(key)->Ok_0))
}

/// What a comparison says of the order of its operands.
pub open spec fn op_holds(op: BinOp, order: Order) -> bool {
    match op {
        BinOp::Lt => order == Order::Less,
        BinOp::Lte => order != Order::Greater,
        BinOp::Gt => order == Order::Greater,
        BinOp::Gte => order != Order::Less,
        BinOp::Eq => order == Order::Equal,
        _ => order != Order::Equal,
    }
}

} // verus!
