//! What an expression refers to: columns and subqueries.

use vstd::prelude::*;

use crate::expr::{exprs_view, sort_keys_view, whens_view, Expr, ExprView, SortKey, SortKeyView};
use crate::group::{ints, qualified, qualified_name};
use crate::seqs::name_position;
use crate::text::position;

verus! {

/// A subquery stands somewhere in the expression.
pub open spec fn holds_subquery(expr: ExprView) -> bool
    decreases expr, 0int,
{
    match expr {
        ExprView::FunctionCall(_, inner, _) => holds_subquery(*inner),
        ExprView::BinaryOp(l, _, r) => holds_subquery(*l) || holds_subquery(*r),
        ExprView::Coalesce(l, r) => holds_subquery(*l) || holds_subquery(*r),
        ExprView::UnaryOp(_, inner) => holds_subquery(*inner),
        ExprView::Cast(inner, _) => holds_subquery(*inner),
        ExprView::JsonPath { base, .. } => holds_subquery(*base),
        ExprView::ScalarFunc(_, args) => any_subquery(args, 0),
        ExprView::InList { expr, list, .. } => holds_subquery(*expr) || any_subquery(list, 0),
        ExprView::InSubquery { .. } => true,
        ExprView::ExistsSubquery { .. } => true,
        ExprView::Case { whens, else_expr } => any_when_subquery(whens, 0) || match else_expr {
            Some(e) => holds_subquery(*e),
            None => false,
        },
        ExprView::Window { args, partition_by, order_by, .. } => any_subquery(args, 0)
            || any_subquery(partition_by, 0) || any_key_subquery(order_by, 0),
        _ => false,
    }
}

/// One of the expressions from `i` on holds a subquery.
pub open spec fn any_subquery(exprs: Seq<ExprView>, i: int) -> bool
    decreases exprs, exprs.len() - i,
{
    0 <= i < exprs.len() && (holds_subquery(exprs[i]) || any_subquery(exprs, i + 1))
}

/// One of the arms from `i` on holds a subquery.
pub open spec fn any_when_subquery(whens: Seq<(ExprView, ExprView)>, i: int) -> bool
    decreases whens, whens.len() - i,
{
    0 <= i < whens.len() && (holds_subquery(whens[i].0) || holds_subquery(whens[i].1)
        || any_when_subquery(whens, i + 1))
}

/// One of the keys from `i` on holds a subquery.
pub open spec fn any_key_subquery(keys: Seq<SortKeyView>, i: int) -> bool
    decreases keys, keys.len() - i,
{
    0 <= i < keys.len() && (holds_subquery(keys[i].expr) || any_key_subquery(keys, i + 1))
}

/// Whether a subquery stands somewhere in the expression.
pub fn contains_subquery(expr: &Expr) -> (contains: bool)
    ensures
        contains == holds_subquery(expr.deep_view()),
    decreases expr,
{
    match expr {
        Expr::FunctionCall(_, inner, _) => contains_subquery(inner),
        Expr::BinaryOp(l, _, r) => contains_subquery(l) || contains_subquery(r),
        Expr::Coalesce(l, r) => contains_subquery(l) || contains_subquery(r),
        Expr::UnaryOp(_, inner) => contains_subquery(inner),
        Expr::Cast(inner, _) => contains_subquery(inner),
        Expr::JsonPath { base, .. } => contains_subquery(base),
        Expr::ScalarFunc(_, args) => exprs_contain_subquery(args),
        Expr::InList { expr, list, .. } => contains_subquery(expr) || exprs_contain_subquery(
            list,
        ),
        Expr::InSubquery { .. } => true,
        Expr::ExistsSubquery { .. } => true,
        Expr::Case { whens, else_expr } => {
            if whens_contain_subquery(whens) {
                return true;
            }
            match else_expr {
                Some(e) => contains_subquery(e),
                None => false,
            }
        },
        Expr::Window { args, partition_by, order_by, .. } => exprs_contain_subquery(args)
            || exprs_contain_subquery(partition_by) || keys_contain_subquery(order_by),
        _ => false,
    }
}

fn exprs_contain_subquery(exprs: &Vec<Expr>) -> (contain: bool)
    ensures
        contain == any_subquery(exprs_view(exprs@), 0),
    decreases exprs,
{
    let ghost views = exprs_view(exprs@);
    let mut i: usize = 0;
    while i < exprs.len()
        invariant
            i <= exprs.len(),
            views == exprs_view(exprs@),
            any_subquery(views, 0) == any_subquery(views, i as int),
        decreases exprs.len() - i,
    {
        assert(views[i as int] == exprs[i as int].deep_view());
        if contains_subquery(&exprs[i]) {
            return true;
        }
        i = i + 1;
    }
    false
}

fn whens_contain_subquery(whens: &Vec<(Box<Expr>, Box<Expr>)>) -> (contain: bool)
    ensures
        contain == any_when_subquery(whens_view(whens@), 0),
    decreases whens,
{
    let ghost views = whens_view(whens@);
    let mut i: usize = 0;
    while i < whens.len()
        invariant
            i <= whens.len(),
            views == whens_view(whens@),
            any_when_subquery(views, 0) == any_when_subquery(views, i as int),
        decreases whens.len() - i,
    {
        assert(views[i as int] == (whens[i as int].0.deep_view(), whens[i as int].1.deep_view()));
        if contains_subquery(&whens[i].0) || contains_subquery(&whens[i].1) {
            return true;
        }
        i = i + 1;
    }
    false
}

fn keys_contain_subquery(keys: &Vec<SortKey>) -> (contain: bool)
    ensures
        contain == any_key_subquery(sort_keys_view(keys@), 0),
    decreases keys,
{
    let ghost views = sort_keys_view(keys@);
    let mut i: usize = 0;
    while i < keys.len()
        invariant
            i <= keys.len(),
            views == sort_keys_view(keys@),
            any_key_subquery(views, 0) == any_key_subquery(views, i as int),
        decreases keys.len() - i,
    {
        assert(views[i as int].expr == keys[i as int].expr.deep_view());
        if contains_subquery(&keys[i].expr) {
            return true;
        }
        i = i + 1;
    }
    false
}

/// The expression refers to the column `name`.
pub open spec fn mentions(expr: ExprView, name: Seq<char>) -> bool
    decreases expr, 0int,
{
    match expr {
        ExprView::Field(field) => field == name,
        ExprView::QualifiedField { qualifier, field } => qualified(qualifier, field) == name,
        ExprView::FunctionCall(_, inner, _) => mentions(*inner, name),
        ExprView::BinaryOp(l, _, r) => mentions(*l, name) || mentions(*r, name),
        ExprView::Coalesce(l, r) => mentions(*l, name) || mentions(*r, name),
        ExprView::UnaryOp(_, inner) => mentions(*inner, name),
        ExprView::Cast(inner, _) => mentions(*inner, name),
        ExprView::JsonPath { base, .. } => mentions(*base, name),
        ExprView::ScalarFunc(_, args) => any_mentions(args, 0, name),
        ExprView::InList { expr, list, .. } => mentions(*expr, name) || any_mentions(list, 0, name),
        ExprView::InSubquery { expr, .. } => mentions(*expr, name),
        ExprView::Case { whens, else_expr } => any_when_mentions(whens, 0, name) || match else_expr {
            Some(e) => mentions(*e, name),
            None => false,
        },
        ExprView::Window { args, partition_by, order_by, .. } => any_mentions(args, 0, name)
            || any_mentions(partition_by, 0, name) || any_key_mentions(order_by, 0, name),
        _ => false,
    }
}

/// One of the expressions from `i` on refers to the column `name`.
pub open spec fn any_mentions(exprs: Seq<ExprView>, i: int, name: Seq<char>) -> bool
    decreases exprs, exprs.len() - i,
{
    0 <= i < exprs.len() && (mentions(exprs[i], name) || any_mentions(exprs, i + 1, name))
}

/// One of the arms from `i` on refers to the column `name`.
pub open spec fn any_when_mentions(whens: Seq<(ExprView, ExprView)>, i: int, name: Seq<char>) -> bool
    decreases whens, whens.len() - i,
{
    0 <= i < whens.len() && (mentions(whens[i].0, name) || mentions(whens[i].1, name)
        || any_when_mentions(whens, i + 1, name))
}

/// One of the keys from `i` on refers to the column `name`.
pub open spec fn any_key_mentions(keys: Seq<SortKeyView>, i: int, name: Seq<char>) -> bool
    decreases keys, keys.len() - i,
{
    0 <= i < keys.len() && (mentions(keys[i].expr, name) || any_key_mentions(keys, i + 1, name))
}

/// Whether the expression refers to the column `name`.
pub fn expr_mentions(expr: &Expr, name: &String) -> (refers: bool)
    ensures
        refers == mentions(expr.deep_view(), name@),
    decreases expr,
{
    match expr {
        Expr::Field(field) => *field == *name,
        Expr::QualifiedField { qualifier, field } => qualified_name(qualifier, field) == *name,
        Expr::FunctionCall(_, inner, _) => expr_mentions(inner, name),
        Expr::BinaryOp(l, _, r) => expr_mentions(l, name) || expr_mentions(r, name),
        Expr::Coalesce(l, r) => expr_mentions(l, name) || expr_mentions(r, name),
        Expr::UnaryOp(_, inner) => expr_mentions(inner, name),
        Expr::Cast(inner, _) => expr_mentions(inner, name),
        Expr::JsonPath { base, .. } => expr_mentions(base, name),
        Expr::ScalarFunc(_, args) => exprs_mention(args, name),
        Expr::InList { expr, list, .. } => expr_mentions(expr, name) || exprs_mention(
            list, name),
        Expr::InSubquery { expr, .. } => expr_mentions(expr, name),
        Expr::Case { whens, else_expr } => {
            if whens_mention(whens, name) {
                return true;
            }
            match else_expr {
                Some(e) => expr_mentions(e, name),
                None => false,
            }
        },
        Expr::Window { args, partition_by, order_by, .. } => exprs_mention(args, name)
            || exprs_mention(partition_by, name) || keys_mention(order_by, name),
        _ => false,
    }
}

fn exprs_mention(exprs: &Vec<Expr>, name: &String) -> (refer: bool)
    ensures
        refer == any_mentions(exprs_view(exprs@), 0, name@),
    decreases exprs,
{
    let ghost views = exprs_view(exprs@);
    let mut i: usize = 0;
    while i < exprs.len()
        invariant
            i <= exprs.len(),
            views == exprs_view(exprs@),
            any_mentions(views, 0, name@) == any_mentions(views, i as int, name@),
        decreases exprs.len() - i,
    {
        assert(views[i as int] == exprs[i as int].deep_view());
        if expr_mentions(&exprs[i], name) {
            return true;
        }
        i = i + 1;
    }
    false
}

fn whens_mention(whens: &Vec<(Box<Expr>, Box<Expr>)>, name: &String) -> (refer: bool)
    ensures
        refer == any_when_mentions(whens_view(whens@), 0, name@),
    decreases whens,
{
    let ghost views = whens_view(whens@);
    let mut i: usize = 0;
    while i < whens.len()
        invariant
            i <= whens.len(),
            views == whens_view(whens@),
            any_when_mentions(views, 0, name@) == any_when_mentions(views, i as int, name@),
        decreases whens.len() - i,
    {
        assert(views[i as int] == (whens[i as int].0.deep_view(), whens[i as int].1.deep_view()));
        if expr_mentions(&whens[i].0, name) || expr_mentions(&whens[i].1, name) {
            return true;
        }
        i = i + 1;
    }
    false
}

fn keys_mention(keys: &Vec<SortKey>, name: &String) -> (refer: bool)
    ensures
        refer == any_key_mentions(sort_keys_view(keys@), 0, name@),
    decreases keys,
{
    let ghost views = sort_keys_view(keys@);
    let mut i: usize = 0;
    while i < keys.len()
        invariant
            i <= keys.len(),
            views == sort_keys_view(keys@),
            any_key_mentions(views, 0, name@) == any_key_mentions(views, i as int, name@),
        decreases keys.len() - i,
    {
        assert(views[i as int].expr == keys[i as int].expr.deep_view());
        if expr_mentions(&keys[i].expr, name) {
            return true;
        }
        i = i + 1;
    }
    false
}

/// Position `i` is that of a column which the expression refers to.
pub open spec fn reads_position(expr: ExprView, columns: Seq<Seq<char>>, i: int) -> bool {
    mentions(expr, columns[i]) && name_position(columns, columns[i]) == Some(i)
}

/// The positions from `i` on of the columns that an expression refers to.
pub open spec fn read_positions(expr: ExprView, columns: Seq<Seq<char>>, i: int) -> Seq<int>
    decreases columns.len() - i,
{
    if i < 0 || i >= columns.len() {
        Seq::empty()
    } else if reads_position(expr, columns, i) {
        seq![i] + read_positions(expr, columns, i + 1)
    } else {
        read_positions(expr, columns, i + 1)
    }
}

/// The positions of the columns that an expression refers to, paths into them
/// included, in order and each once.
pub fn predicate_column_indices_json(expr: &Expr, columns: &Vec<String>) -> (positions: Vec<usize>)
    ensures
        ints(positions@) == read_positions(expr.deep_view(), columns.deep_view(), 0),
        forall|k: int| 0 <= k < positions.len() ==> (#[trigger] positions[k]) < columns.len(),
{
    let ghost (view, names) = (expr.deep_view(), columns.deep_view());
    let ghost all = read_positions(view, names, 0);
    let mut positions: Vec<usize> = Vec::new();
    let mut i: usize = 0;
    assert(ints(positions@) + all =~= all);
    while i < columns.len()
        invariant
            i <= columns.len(),
            view == expr.deep_view(),
            names == columns.deep_view(),
            all == read_positions(view, names, 0),
            ints(positions@) + read_positions(view, names, i as int) == all,
            forall|k: int| 0 <= k < positions.len() ==> (#[trigger] positions[k]) < columns.len(),
        decreases columns.len() - i,
    {
        let ghost before = ints(positions@);
        assert(names[i as int] == columns[i as int]@);
        let first: bool = match position(columns, &columns[i]) {
            Some(at) => at == i,
            None => false,
        };
        if first && expr_mentions(expr, &columns[i]) {
            positions.push(i);
            assert(ints(positions@) =~= before.push(i as int));
            assert(before.push(i as int) + read_positions(view, names, i + 1) =~= before + (seq![
                i as int,
            ] + read_positions(view, names, i + 1)));
        }
        i = i + 1;
    }
    assert(ints(positions@) =~= all);
    positions
}

} // verus!
