//! What is found in expressions and plans.

use vstd::prelude::*;

use crate::catalog::{CatalogView, ColumnDefView};
use crate::expr::{ExprView, SortKeyView};
use crate::group::{GroupAggView, GroupKeyView};
use crate::join::JoinKind;
use crate::laws::naming::referred_name;
use crate::mentions::{
    any_key_mentions, any_key_subquery, any_mentions, any_subquery, any_when_mentions,
    any_when_subquery, holds_subquery, mentions, read_positions, reads_position,
};
use crate::plan::{PlanView, ProjectFieldView};
use crate::read::readable;
use crate::scope::{
    json_error, json_errors, json_key_errors, json_when_errors, path_base_error, scan_columns,
    scan_type, type_among,
};
use crate::seqs::{first_where_found, is_name};
use crate::validate::{
    any_carries, any_key_carries, any_when_carries, carries_aggregate, node_exprs,
    stray_aggregate,
};
use crate::value::TypeId;

verus! {

/// The expressions that an expression is made of.
pub open spec fn parts(expr: ExprView) -> Seq<ExprView> {
    match expr {
        ExprView::FunctionCall(_, inner, _) => seq![*inner],
        ExprView::BinaryOp(left, _, right) => seq![*left, *right],
        ExprView::Coalesce(left, right) => seq![*left, *right],
        ExprView::UnaryOp(_, inner) => seq![*inner],
        ExprView::Cast(inner, _) => seq![*inner],
        ExprView::JsonPath { base, .. } => seq![*base],
        ExprView::ScalarFunc(_, args) => args,
        ExprView::InList { expr: subject, list, .. } => seq![*subject] + list,
        ExprView::InSubquery { expr: subject, .. } => seq![*subject],
        ExprView::Case { whens, else_expr } => whens.map_values(
            |arm: (ExprView, ExprView)| arm.0,
        ) + whens.map_values(|arm: (ExprView, ExprView)| arm.1) + (match else_expr {
            Some(inner) => seq![*inner],
            None => Seq::empty(),
        }),
        ExprView::Window { args, partition_by, order_by, .. } => args + partition_by
            + order_by.map_values(|key: SortKeyView| key.expr),
        _ => Seq::empty(),
    }
}

/// The plans that a plan reads.
pub open spec fn inputs(plan: PlanView) -> Seq<PlanView> {
    match plan {
        PlanView::Filter { input, .. } => seq![*input],
        PlanView::Project { input, .. } => seq![*input],
        PlanView::NestedProject { input, .. } => seq![*input],
        PlanView::Sort { input, .. } => seq![*input],
        PlanView::Limit { input, .. } => seq![*input],
        PlanView::Offset { input, .. } => seq![*input],
        PlanView::Aggregate { input, .. } => seq![*input],
        PlanView::Distinct { input } => seq![*input],
        PlanView::GroupBy { input, .. } => seq![*input],
        PlanView::Window { input, .. } => seq![*input],
        PlanView::Update { input, .. } => seq![*input],
        PlanView::Delete { input, .. } => seq![*input],
        PlanView::Explain { input } => seq![*input],
        PlanView::NestedLoopJoin { left, right, .. } => seq![*left, *right],
        PlanView::Union { left, right, .. } => seq![*left, *right],
        _ => Seq::empty(),
    }
}

proof fn listed_subquery(exprs: Seq<ExprView>, i: int)
    requires
        0 <= i <= exprs.len(),
    ensures
        any_subquery(exprs, i) <==> exists|k: int|
            i <= k < exprs.len() && holds_subquery(#[trigger] exprs[k]),
    decreases exprs.len() - i,
{
    if i < exprs.len() {
        listed_subquery(exprs, i + 1);
        if holds_subquery(exprs[i]) {
            assert(i <= i < exprs.len() && holds_subquery(exprs[i]));
        }
    }
}

proof fn subquery_in_arms(whens: Seq<(ExprView, ExprView)>, i: int)
    requires
        0 <= i <= whens.len(),
    ensures
        any_when_subquery(whens, i) <==> exists|k: int|
            i <= k < whens.len() && (holds_subquery((#[trigger] whens[k]).0) || holds_subquery(
                whens[k].1,
            )),
    decreases whens.len() - i,
{
    if i < whens.len() {
        subquery_in_arms(whens, i + 1);
        if holds_subquery(whens[i].0) || holds_subquery(whens[i].1) {
            assert(i <= i < whens.len() && (holds_subquery(whens[i].0) || holds_subquery(
                whens[i].1,
            )));
        }
    }
}

proof fn subquery_in_keys(keys: Seq<SortKeyView>, i: int)
    requires
        0 <= i <= keys.len(),
    ensures
        any_key_subquery(keys, i) <==> exists|k: int|
            i <= k < keys.len() && holds_subquery((#[trigger] keys[k]).expr),
    decreases keys.len() - i,
{
    if i < keys.len() {
        subquery_in_keys(keys, i + 1);
        if holds_subquery(keys[i].expr) {
            assert(i <= i < keys.len() && holds_subquery(keys[i].expr));
        }
    }
}

proof fn listed_mention(exprs: Seq<ExprView>, i: int, name: Seq<char>)
    requires
        0 <= i <= exprs.len(),
    ensures
        any_mentions(exprs, i, name) <==> exists|k: int|
            i <= k < exprs.len() && mentions(#[trigger] exprs[k], name),
    decreases exprs.len() - i,
{
    if i < exprs.len() {
        listed_mention(exprs, i + 1, name);
        if mentions(exprs[i], name) {
            assert(i <= i < exprs.len() && mentions(exprs[i], name));
        }
    }
}

proof fn mention_in_arms(whens: Seq<(ExprView, ExprView)>, i: int, name: Seq<char>)
    requires
        0 <= i <= whens.len(),
    ensures
        any_when_mentions(whens, i, name) <==> exists|k: int|
            i <= k < whens.len() && (mentions((#[trigger] whens[k]).0, name) || mentions(
                whens[k].1, name,
            )),
    decreases whens.len() - i,
{
    if i < whens.len() {
        mention_in_arms(whens, i + 1, name);
        if mentions(whens[i].0, name) || mentions(whens[i].1, name) {
            assert(i <= i < whens.len() && (mentions(whens[i].0, name) || mentions(
                whens[i].1, name,
            )));
        }
    }
}

proof fn mention_in_keys(keys: Seq<SortKeyView>, i: int, name: Seq<char>)
    requires
        0 <= i <= keys.len(),
    ensures
        any_key_mentions(keys, i, name) <==> exists|k: int|
            i <= k < keys.len() && mentions((#[trigger] keys[k]).expr, name),
    decreases keys.len() - i,
{
    if i < keys.len() {
        mention_in_keys(keys, i + 1, name);
        if mentions(keys[i].expr, name) {
            assert(i <= i < keys.len() && mentions(keys[i].expr, name));
        }
    }
}

proof fn listed_aggregate(exprs: Seq<ExprView>, i: int)
    requires
        0 <= i <= exprs.len(),
    ensures
        any_carries(exprs, i) <==> exists|k: int|
            i <= k < exprs.len() && carries_aggregate(#[trigger] exprs[k]),
    decreases exprs.len() - i,
{
    if i < exprs.len() {
        listed_aggregate(exprs, i + 1);
        if carries_aggregate(exprs[i]) {
            assert(i <= i < exprs.len() && carries_aggregate(exprs[i]));
        }
    }
}

proof fn aggregate_in_arms(whens: Seq<(ExprView, ExprView)>, i: int)
    requires
        0 <= i <= whens.len(),
    ensures
        any_when_carries(whens, i) <==> exists|k: int|
            i <= k < whens.len() && (carries_aggregate((#[trigger] whens[k]).0) || carries_aggregate(
                whens[k].1,
            )),
    decreases whens.len() - i,
{
    if i < whens.len() {
        aggregate_in_arms(whens, i + 1);
        if carries_aggregate(whens[i].0) || carries_aggregate(whens[i].1) {
            assert(i <= i < whens.len() && (carries_aggregate(whens[i].0) || carries_aggregate(
                whens[i].1,
            )));
        }
    }
}

proof fn aggregate_in_keys(keys: Seq<SortKeyView>, i: int)
    requires
        0 <= i <= keys.len(),
    ensures
        any_key_carries(keys, i) <==> exists|k: int|
            i <= k < keys.len() && carries_aggregate((#[trigger] keys[k]).expr),
    decreases keys.len() - i,
{
    if i < keys.len() {
        aggregate_in_keys(keys, i + 1);
        if carries_aggregate(keys[i].expr) {
            assert(i <= i < keys.len() && carries_aggregate(keys[i].expr));
        }
    }
}

/// A subquery stands in an expression that is one, or in one of the expressions
/// that it is made of.
pub proof fn subqueries_are_found(expr: ExprView)
    ensures
        holds_subquery(expr) <==> expr is InSubquery || expr is ExistsSubquery || exists|k: int|
            0 <= k < parts(expr).len() && holds_subquery(#[trigger] parts(expr)[k]),
{
    let made_of = parts(expr);
    match expr {
        ExprView::FunctionCall(_, inner, _) => {
            assert(made_of[0] == *inner);
        },
        ExprView::BinaryOp(left, _, right) => {
            assert(made_of[0] == *left && made_of[1] == *right);
        },
        ExprView::Coalesce(left, right) => {
            assert(made_of[0] == *left && made_of[1] == *right);
        },
        ExprView::UnaryOp(_, inner) => {
            assert(made_of[0] == *inner);
        },
        ExprView::Cast(inner, _) => {
            assert(made_of[0] == *inner);
        },
        ExprView::JsonPath { base, .. } => {
            assert(made_of[0] == *base);
        },
        ExprView::ScalarFunc(_, args) => {
            listed_subquery(args, 0);
        },
        ExprView::InList { expr: subject, list, .. } => {
            listed_subquery(list, 0);
            assert(made_of[0] == *subject);
            assert forall|k: int| 0 <= k < list.len() implies #[trigger] list[k]
                == made_of[1 + k] by {}
        },
        ExprView::InSubquery { expr: subject, .. } => {
            assert(made_of[0] == *subject);
        },
        ExprView::Case { whens, else_expr } => {
            subquery_in_arms(whens, 0);
            assert forall|k: int| 0 <= k < whens.len() implies (#[trigger] whens[k]).0
                == made_of[k] && whens[k].1 == made_of[whens.len() + k] by {}
            match else_expr {
                Some(inner) => {
                    assert(made_of[2int * whens.len()] == *inner);
                },
                None => {},
            }
            assert forall|k: int| 0 <= k < made_of.len() && holds_subquery(
                #[trigger] made_of[k],
            ) implies holds_subquery(expr) by {
                if k < whens.len() {
                    assert(whens[k].0 == made_of[k]);
                } else if k < 2 * whens.len() {
                    assert(whens[k - whens.len()].1 == made_of[k]);
                }
            }
        },
        ExprView::Window { args, partition_by, order_by, .. } => {
            listed_subquery(args, 0);
            listed_subquery(partition_by, 0);
            subquery_in_keys(order_by, 0);
            let (a, p) = (args.len() as int, partition_by.len() as int);
            assert forall|k: int| 0 <= k < a implies #[trigger] args[k] == made_of[k] by {}
            assert forall|k: int| 0 <= k < p implies #[trigger] partition_by[k] == made_of[a
                + k] by {}
            assert forall|k: int| 0 <= k < order_by.len() implies (#[trigger] order_by[k]).expr
                == made_of[a + p + k] by {}
            assert forall|k: int| 0 <= k < made_of.len() && holds_subquery(
                #[trigger] made_of[k],
            ) implies holds_subquery(expr) by {
                if k < a {
                    assert(args[k] == made_of[k]);
                } else if k < a + p {
                    assert(partition_by[k - a] == made_of[k]);
                } else {
                    assert(order_by[k - a - p].expr == made_of[k]);
                }
            }
        },
        _ => {},
    }
}

/// An expression refers to a column where it is a reference to it, or where one of
/// the expressions that it is made of refers to it.
pub proof fn references_are_found(expr: ExprView, name: Seq<char>)
    ensures
        mentions(expr, name) <==> referred_name(expr) == Some(name) || exists|k: int|
            0 <= k < parts(expr).len() && mentions(#[trigger] parts(expr)[k], name),
{
    let made_of = parts(expr);
    match expr {
        ExprView::FunctionCall(_, inner, _) => {
            assert(made_of[0] == *inner);
        },
        ExprView::BinaryOp(left, _, right) => {
            assert(made_of[0] == *left && made_of[1] == *right);
        },
        ExprView::Coalesce(left, right) => {
            assert(made_of[0] == *left && made_of[1] == *right);
        },
        ExprView::UnaryOp(_, inner) => {
            assert(made_of[0] == *inner);
        },
        ExprView::Cast(inner, _) => {
            assert(made_of[0] == *inner);
        },
        ExprView::JsonPath { base, .. } => {
            assert(made_of[0] == *base);
        },
        ExprView::ScalarFunc(_, args) => {
            listed_mention(args, 0, name);
        },
        ExprView::InList { expr: subject, list, .. } => {
            listed_mention(list, 0, name);
            assert(made_of[0] == *subject);
            assert forall|k: int| 0 <= k < list.len() implies #[trigger] list[k]
                == made_of[1 + k] by {}
        },
        ExprView::InSubquery { expr: subject, .. } => {
            assert(made_of[0] == *subject);
        },
        ExprView::Case { whens, else_expr } => {
            mention_in_arms(whens, 0, name);
            assert forall|k: int| 0 <= k < whens.len() implies (#[trigger] whens[k]).0
                == made_of[k] && whens[k].1 == made_of[whens.len() + k] by {}
            match else_expr {
                Some(inner) => {
                    assert(made_of[2int * whens.len()] == *inner);
                },
                None => {},
            }
            assert forall|k: int| 0 <= k < made_of.len() && mentions(
                #[trigger] made_of[k], name,
            ) implies mentions(expr, name) by {
                if k < whens.len() {
                    assert(whens[k].0 == made_of[k]);
                } else if k < 2 * whens.len() {
                    assert(whens[k - whens.len()].1 == made_of[k]);
                }
            }
        },
        ExprView::Window { args, partition_by, order_by, .. } => {
            listed_mention(args, 0, name);
            listed_mention(partition_by, 0, name);
            mention_in_keys(order_by, 0, name);
            let (a, p) = (args.len() as int, partition_by.len() as int);
            assert forall|k: int| 0 <= k < a implies #[trigger] args[k] == made_of[k] by {}
            assert forall|k: int| 0 <= k < p implies #[trigger] partition_by[k] == made_of[a
                + k] by {}
            assert forall|k: int| 0 <= k < order_by.len() implies (#[trigger] order_by[k]).expr
                == made_of[a + p + k] by {}
            assert forall|k: int| 0 <= k < made_of.len() && mentions(
                #[trigger] made_of[k], name,
            ) implies mentions(expr, name) by {
                if k < a {
                    assert(args[k] == made_of[k]);
                } else if k < a + p {
                    assert(partition_by[k - a] == made_of[k]);
                } else {
                    assert(order_by[k - a - p].expr == made_of[k]);
                }
            }
        },
        _ => {},
    }
}

/// An aggregate stands in an expression that is one, or in one of the expressions
/// that it is made of.
pub proof fn aggregates_are_found(expr: ExprView)
    ensures
        carries_aggregate(expr) <==> expr is FunctionCall || exists|k: int|
            0 <= k < parts(expr).len() && carries_aggregate(#[trigger] parts(expr)[k]),
{
    let made_of = parts(expr);
    match expr {
        ExprView::FunctionCall(_, inner, _) => {
            assert(made_of[0] == *inner);
        },
        ExprView::BinaryOp(left, _, right) => {
            assert(made_of[0] == *left && made_of[1] == *right);
        },
        ExprView::Coalesce(left, right) => {
            assert(made_of[0] == *left && made_of[1] == *right);
        },
        ExprView::UnaryOp(_, inner) => {
            assert(made_of[0] == *inner);
        },
        ExprView::Cast(inner, _) => {
            assert(made_of[0] == *inner);
        },
        ExprView::JsonPath { base, .. } => {
            assert(made_of[0] == *base);
        },
        ExprView::ScalarFunc(_, args) => {
            listed_aggregate(args, 0);
        },
        ExprView::InList { expr: subject, list, .. } => {
            listed_aggregate(list, 0);
            assert(made_of[0] == *subject);
            assert forall|k: int| 0 <= k < list.len() implies #[trigger] list[k]
                == made_of[1 + k] by {}
        },
        ExprView::InSubquery { expr: subject, .. } => {
            assert(made_of[0] == *subject);
        },
        ExprView::Case { whens, else_expr } => {
            aggregate_in_arms(whens, 0);
            assert forall|k: int| 0 <= k < whens.len() implies (#[trigger] whens[k]).0
                == made_of[k] && whens[k].1 == made_of[whens.len() + k] by {}
            match else_expr {
                Some(inner) => {
                    assert(made_of[2int * whens.len()] == *inner);
                },
                None => {},
            }
            assert forall|k: int| 0 <= k < made_of.len() && carries_aggregate(
                #[trigger] made_of[k],
            ) implies carries_aggregate(expr) by {
                if k < whens.len() {
                    assert(whens[k].0 == made_of[k]);
                } else if k < 2 * whens.len() {
                    assert(whens[k - whens.len()].1 == made_of[k]);
                }
            }
        },
        ExprView::Window { args, partition_by, order_by, .. } => {
            listed_aggregate(args, 0);
            listed_aggregate(partition_by, 0);
            aggregate_in_keys(order_by, 0);
            let (a, p) = (args.len() as int, partition_by.len() as int);
            assert forall|k: int| 0 <= k < a implies #[trigger] args[k] == made_of[k] by {}
            assert forall|k: int| 0 <= k < p implies #[trigger] partition_by[k] == made_of[a
                + k] by {}
            assert forall|k: int| 0 <= k < order_by.len() implies (#[trigger] order_by[k]).expr
                == made_of[a + p + k] by {}
            assert forall|k: int| 0 <= k < made_of.len() && carries_aggregate(
                #[trigger] made_of[k],
            ) implies carries_aggregate(expr) by {
                if k < a {
                    assert(args[k] == made_of[k]);
                } else if k < a + p {
                    assert(partition_by[k - a] == made_of[k]);
                } else {
                    assert(order_by[k - a - p].expr == made_of[k]);
                }
            }
        },
        _ => {},
    }
}

/// A plan is refused for an aggregate where one of its nodes evaluates an
/// expression in which an aggregate stands.
pub proof fn stray_aggregates_are_found(plan: PlanView)
    ensures
        stray_aggregate(plan) <==> (exists|k: int|
            0 <= k < node_exprs(plan).len() && carries_aggregate(#[trigger] node_exprs(plan)[k]))
            || (exists|k: int|
            0 <= k < inputs(plan).len() && stray_aggregate(#[trigger] inputs(plan)[k])),
{
    listed_aggregate(node_exprs(plan), 0);
    let read = inputs(plan);
    if read.len() == 1 {
        assert(stray_aggregate(read[0]) ==> stray_aggregate(plan));
    }
    if read.len() == 2 {
        assert(stray_aggregate(read[0]) ==> stray_aggregate(plan));
        assert(stray_aggregate(read[1]) ==> stray_aggregate(plan));
    }
    match plan {
        PlanView::NestedLoopJoin { left, right, .. } => {
            assert(read[0] == *left && read[1] == *right);
        },
        PlanView::Union { left, right, .. } => {
            assert(read[0] == *left && read[1] == *right);
        },
        _ => {},
    }
}

/// A position is read if and only if the expression refers to its column and no
/// column before it has its name; the positions come in order.
pub proof fn positions_read_are_those_referred_to(
    expr: ExprView,
    columns: Seq<Seq<char>>,
    i: int,
)
    requires
        0 <= i <= columns.len(),
    ensures
        read_positions(expr, columns, i) == Seq::new(columns.len(), |k: int| k).skip(i).filter(
            |k: int|
                mentions(expr, columns[k]) && forall|j: int|
                    0 <= j < k ==> #[trigger] columns[j] != columns[k],
        ),
    decreases columns.len() - i,
{
    let all = Seq::new(columns.len(), |k: int| k);
    let test = |k: int|
        mentions(expr, columns[k]) && forall|j: int|
            0 <= j < k ==> #[trigger] columns[j] != columns[k];
    crate::laws::filtering::images_take_first(all, test, |k: int| k, i);
    assert(all.skip(i).filter(test).map_values(|k: int| k) =~= all.skip(i).filter(test));
    if i < columns.len() {
        positions_read_are_those_referred_to(expr, columns, i + 1);
        assert(all.skip(i + 1).filter(test).map_values(|k: int| k) =~= all.skip(i + 1).filter(
            test,
        ));
        first_where_found(columns, is_name(columns[i]));
        match crate::seqs::name_position(columns, columns[i]) {
            Some(p) => {
                if p < i {
                    assert(columns[p] == columns[i]);
                } else if p == i {
                    assert forall|j: int| 0 <= j < i implies #[trigger] columns[j]
                        != columns[i] by {
                        assert(!is_name(columns[i])(columns[j]));
                    }
                } else {
                    assert(!is_name(columns[i])(columns[i]));
                }
            },
            None => {
                assert(!is_name(columns[i])(columns[i]));
            },
        }
        assert(reads_position(expr, columns, i) == test(i));
        assert(all[i] == i);
    }
}

/// The type that a name has in scope: the one that every column of that name there
/// has.
pub open spec fn has_type(scope: Seq<(Seq<char>, TypeId)>, name: Seq<char>, t: TypeId) -> bool {
    &&& exists|k: int| 0 <= k < scope.len() && (#[trigger] scope[k]).0 == name
    &&& forall|k: int| 0 <= k < scope.len() && (#[trigger] scope[k]).0 == name ==> scope[k].1 == t
}

proof fn types_among_agree(name: Seq<char>, scope: Seq<(Seq<char>, TypeId)>, n: int)
    requires
        0 <= n <= scope.len(),
    ensures
        match type_among(name, scope, n) {
            None => forall|k: int| 0 <= k < n ==> (#[trigger] scope[k]).0 != name,
            Some(Some(t)) => (exists|k: int| 0 <= k < n && (#[trigger] scope[k]).0 == name)
                && forall|k: int| 0 <= k < n && (#[trigger] scope[k]).0 == name ==> scope[k].1 == t,
            Some(None) => exists|a: int, b: int|
                #![trigger scope[a], scope[b]]
                0 <= a < n && 0 <= b < n && scope[a].0 == name && scope[b].0 == name && scope[a].1
                    != scope[b].1,
        },
    decreases n,
{
    if n > 0 {
        types_among_agree(name, scope, n - 1);
        if scope[n - 1].0 == name {
            match type_among(name, scope, n - 1) {
                Some(Some(t)) => {
                    let k = choose|k: int| 0 <= k < n - 1 && (#[trigger] scope[k]).0 == name;
                    assert(scope[k].1 == t);
                    assert(0 <= k < n && 0 <= n - 1 < n && scope[k].0 == name);
                },
                _ => {},
            }
        }
    }
}

/// A name has a type in scope if and only if every column of that name has it.
pub proof fn names_have_the_type_of_their_columns(
    name: Seq<char>,
    scope: Seq<(Seq<char>, TypeId)>,
    t: TypeId,
)
    ensures
        scan_type(name, scope) == Some(t) <==> has_type(scope, name, t),
{
    types_among_agree(name, scope, scope.len() as int);
}

/// A JSON path starts from a column that is no document: the column has another
/// type in scope, and no projection gives its name to something else.
pub open spec fn starts_badly(
    base: ExprView,
    scope: Seq<(Seq<char>, TypeId)>,
    shadowed: Seq<Seq<char>>,
) -> bool {
    referred_name(base) matches Some(name) && !shadowed.contains(name) && exists|t: TypeId|
        t != TypeId::Json && #[trigger] has_type(scope, name, t)
}

proof fn bad_starts_are_told(
    base: ExprView,
    scope: Seq<(Seq<char>, TypeId)>,
    shadowed: Seq<Seq<char>>,
)
    ensures
        path_base_error(base, scope, shadowed) is Some <==> starts_badly(base, scope, shadowed),
{
    match referred_name(base) {
        Some(name) => {
            first_where_found(shadowed, is_name(name));
            match crate::seqs::name_position(shadowed, name) {
                Some(p) => {
                    assert(shadowed[p] == name);
                },
                None => {
                    if shadowed.contains(name) {
                        let k = choose|k: int| 0 <= k < shadowed.len() && shadowed[k] == name;
                        assert(!is_name(name)(shadowed[k]));
                    }
                },
            }
            assert forall|t: TypeId| scan_type(name, scope) == Some(t) <==> #[trigger] has_type(
                scope,
                name,
                t,
            ) by {
                names_have_the_type_of_their_columns(name, scope, t);
            }
            match scan_type(name, scope) {
                Some(t) => {
                    assert(has_type(scope, name, t));
                },
                None => {},
            }
        },
        None => {},
    }
}

proof fn listed_path_error(
    items: Seq<ExprView>,
    i: int,
    scope: Seq<(Seq<char>, TypeId)>,
    shadowed: Seq<Seq<char>>,
)
    requires
        0 <= i <= items.len(),
    ensures
        json_errors(items, i, scope, shadowed) is Some <==> exists|k: int|
            i <= k < items.len() && (json_error(#[trigger] items[k], scope, shadowed) is Some),
    decreases items.len() - i,
{
    if i < items.len() {
        listed_path_error(items, i + 1, scope, shadowed);
        if json_error(items[i], scope, shadowed) is Some {
            assert(i <= i < items.len() && (json_error(items[i], scope, shadowed) is Some));
        }
    }
}

proof fn path_error_in_arms(
    items: Seq<(ExprView, ExprView)>,
    i: int,
    scope: Seq<(Seq<char>, TypeId)>,
    shadowed: Seq<Seq<char>>,
)
    requires
        0 <= i <= items.len(),
    ensures
        json_when_errors(items, i, scope, shadowed) is Some <==> exists|k: int|
            i <= k < items.len() && (json_error((#[trigger] items[k]).0, scope, shadowed) is Some
                || json_error(items[k].1, scope, shadowed) is Some),
    decreases items.len() - i,
{
    if i < items.len() {
        path_error_in_arms(items, i + 1, scope, shadowed);
        if json_error(items[i].0, scope, shadowed) is Some || json_error(
            items[i].1,
            scope,
            shadowed,
        ) is Some {
            assert(i <= i < items.len() && (json_error(items[i].0, scope, shadowed) is Some
                || json_error(items[i].1, scope, shadowed) is Some));
        }
    }
}

proof fn path_error_in_keys(
    items: Seq<SortKeyView>,
    i: int,
    scope: Seq<(Seq<char>, TypeId)>,
    shadowed: Seq<Seq<char>>,
)
    requires
        0 <= i <= items.len(),
    ensures
        json_key_errors(items, i, scope, shadowed) is Some <==> exists|k: int|
            i <= k < items.len() && (json_error((#[trigger] items[k]).expr, scope, shadowed) is Some),
    decreases items.len() - i,
{
    if i < items.len() {
        path_error_in_keys(items, i + 1, scope, shadowed);
        if json_error(items[i].expr, scope, shadowed) is Some {
            assert(i <= i < items.len() && (json_error(items[i].expr, scope, shadowed) is Some));
        }
    }
}

/// An expression is refused for a JSON path where it is one that starts from a
/// column that is no document, or where one of the expressions that it is made of is
/// refused.
pub proof fn bad_paths_are_found(
    expr: ExprView,
    scope: Seq<(Seq<char>, TypeId)>,
    shadowed: Seq<Seq<char>>,
)
    ensures
        json_error(expr, scope, shadowed) is Some <==> (expr matches ExprView::JsonPath {
            base,
            ..
        } && starts_badly(*base, scope, shadowed)) || exists|k: int|
            0 <= k < parts(expr).len() && json_error(#[trigger] parts(expr)[k], scope, shadowed)
                is Some,
{
    let made_of = parts(expr);
    match expr {
        ExprView::JsonPath { base, .. } => {
            bad_starts_are_told(*base, scope, shadowed);
            assert(made_of[0] == *base);
        },
        ExprView::FunctionCall(_, inner, _) => {
            assert(made_of[0] == *inner);
        },
        ExprView::BinaryOp(left, _, right) => {
            assert(made_of[0] == *left && made_of[1] == *right);
        },
        ExprView::Coalesce(left, right) => {
            assert(made_of[0] == *left && made_of[1] == *right);
        },
        ExprView::UnaryOp(_, inner) => {
            assert(made_of[0] == *inner);
        },
        ExprView::Cast(inner, _) => {
            assert(made_of[0] == *inner);
        },
        ExprView::ScalarFunc(_, args) => {
            listed_path_error(args, 0, scope, shadowed);
        },
        ExprView::InList { expr: subject, list, .. } => {
            listed_path_error(list, 0, scope, shadowed);
            assert(made_of[0] == *subject);
            assert forall|k: int| 0 <= k < list.len() implies #[trigger] list[k]
                == made_of[1 + k] by {}
        },
        ExprView::InSubquery { expr: subject, .. } => {
            assert(made_of[0] == *subject);
        },
        ExprView::Case { whens, else_expr } => {
            path_error_in_arms(whens, 0, scope, shadowed);
            assert forall|k: int| 0 <= k < whens.len() implies (#[trigger] whens[k]).0
                == made_of[k] && whens[k].1 == made_of[whens.len() + k] by {}
            match else_expr {
                Some(inner) => {
                    assert(made_of[2int * whens.len()] == *inner);
                },
                None => {},
            }
            assert forall|k: int| 0 <= k < made_of.len() && json_error(
                #[trigger] made_of[k],
                scope,
                shadowed,
            ) is Some implies json_error(expr, scope, shadowed) is Some by {
                if k < whens.len() {
                    assert(whens[k].0 == made_of[k]);
                } else if k < 2 * whens.len() {
                    assert(whens[k - whens.len()].1 == made_of[k]);
                }
            }
        },
        ExprView::Window { args, partition_by, order_by, .. } => {
            listed_path_error(args, 0, scope, shadowed);
            listed_path_error(partition_by, 0, scope, shadowed);
            path_error_in_keys(order_by, 0, scope, shadowed);
            let (a, p) = (args.len() as int, partition_by.len() as int);
            assert forall|k: int| 0 <= k < a implies #[trigger] args[k] == made_of[k] by {}
            assert forall|k: int| 0 <= k < p implies #[trigger] partition_by[k] == made_of[a
                + k] by {}
            assert forall|k: int| 0 <= k < order_by.len() implies (#[trigger] order_by[k]).expr
                == made_of[a + p + k] by {}
            assert forall|k: int| 0 <= k < made_of.len() && json_error(
                #[trigger] made_of[k],
                scope,
                shadowed,
            ) is Some implies json_error(expr, scope, shadowed) is Some by {
                if k < a {
                    assert(args[k] == made_of[k]);
                } else if k < a + p {
                    assert(partition_by[k - a] == made_of[k]);
                } else {
                    assert(order_by[k - a - p].expr == made_of[k]);
                }
            }
        },
        _ => {},
    }
}

/// The columns in scope are those of the scans of a plan, from left to right: the
/// columns of its table under their names, or behind its alias.
pub proof fn scopes_hold_the_columns_of_the_scans(catalog: CatalogView, plan: PlanView)
    ensures
        ({
            let read = inputs(plan);
            &&& read.len() == 1 ==> scan_columns(catalog, plan) == scan_columns(catalog, read[0])
            &&& read.len() == 2 ==> scan_columns(catalog, plan) == scan_columns(catalog, read[0])
                + scan_columns(catalog, read[1])
        }),
        plan matches PlanView::SeqScan { table } ==> (catalog.table(table) matches Some(found)
            ==> scan_columns(catalog, plan) == found.schema.columns.map_values(
            |column: ColumnDefView| (column.name, column.type_id),
        )),
        plan matches PlanView::IndexScan { table, .. } ==> (catalog.table(table) matches Some(found)
            ==> scan_columns(catalog, plan) == found.schema.columns.map_values(
            |column: ColumnDefView| (column.name, column.type_id),
        )),
        plan matches PlanView::RangeScan { table, .. } ==> (catalog.table(table) matches Some(found)
            ==> scan_columns(catalog, plan) == found.schema.columns.map_values(
            |column: ColumnDefView| (column.name, column.type_id),
        )),
        plan matches PlanView::AliasScan { table, alias } ==> (catalog.table(table) matches Some(
            found,
        ) ==> scan_columns(catalog, plan) == found.schema.columns.map_values(
            |column: ColumnDefView| (alias + "."@ + column.name, column.type_id),
        )),
{
    match plan {
        PlanView::SeqScan { table } => columns_in_scope(catalog, plan, table),
        PlanView::IndexScan { table, .. } => columns_in_scope(catalog, plan, table),
        PlanView::RangeScan { table, .. } => columns_in_scope(catalog, plan, table),
        PlanView::AliasScan { table, alias } => match catalog.table(table) {
            Some(found) => {
                assert(scan_columns(catalog, plan) =~= found.schema.columns.map_values(
                    |column: ColumnDefView| (alias + "."@ + column.name, column.type_id),
                ));
            },
            None => {},
        },
        _ => {},
    }
}

proof fn columns_in_scope(catalog: CatalogView, plan: PlanView, table: Seq<char>)
    requires
        scan_columns(catalog, plan) == crate::scope::bare_columns(catalog.schema(table)),
    ensures
        catalog.table(table) matches Some(found) ==> scan_columns(catalog, plan)
            == found.schema.columns.map_values(
            |column: ColumnDefView| (column.name, column.type_id),
        ),
{
    match catalog.table(table) {
        Some(found) => {
            assert(scan_columns(catalog, plan) =~= found.schema.columns.map_values(
                |column: ColumnDefView| (column.name, column.type_id),
            ));
        },
        None => {},
    }
}

/// The expressions that a node evaluates are those that it is written with.
pub proof fn nodes_evaluate_their_expressions(plan: PlanView)
    ensures
        match plan {
            PlanView::Filter { predicate, .. } => node_exprs(plan) == seq![predicate],
            PlanView::Project { fields, .. } => node_exprs(plan) == fields.map_values(
                |field: ProjectFieldView| field.expr,
            ),
            PlanView::Sort { keys, .. } => node_exprs(plan) == keys.map_values(
                |key: SortKeyView| key.expr,
            ),
            PlanView::Aggregate { argument: Some(argument), .. } => node_exprs(plan) == seq![
                argument,
            ],
            PlanView::NestedLoopJoin { on: Some(on), .. } => node_exprs(plan) == seq![on],
            PlanView::GroupBy { keys, aggregates, having, .. } => node_exprs(plan)
                == keys.map_values(|key: GroupKeyView| key.expr) + aggregates.map_values(
                |aggregate: GroupAggView| aggregate.argument,
            ) + (match having {
                Some(condition) => seq![condition],
                None => Seq::empty(),
            }),
            _ => true,
        },
{
    match plan {
        PlanView::Project { fields, .. } => {
            assert(node_exprs(plan) =~= fields.map_values(|field: ProjectFieldView| field.expr));
        },
        PlanView::Sort { keys, .. } => {
            assert(node_exprs(plan) =~= keys.map_values(|key: SortKeyView| key.expr));
        },
        PlanView::GroupBy { keys, aggregates, having, .. } => {
            assert(node_exprs(plan) =~= keys.map_values(|key: GroupKeyView| key.expr)
                + aggregates.map_values(|aggregate: GroupAggView| aggregate.argument) + (
            match having {
                Some(condition) => seq![condition],
                None => Seq::empty(),
            }));
        },
        _ => {},
    }
}

/// A plan can be read where its inputs can; a join that keeps the unmatched rows of
/// its right side cannot, and neither can a plan that writes.
pub proof fn plans_are_read_where_their_inputs_are(plan: PlanView)
    ensures
        match plan {
            PlanView::Filter { input, .. } => readable(plan) == readable(*input),
            PlanView::Project { input, .. } => readable(plan) == readable(*input),
            PlanView::NestedProject { input, .. } => readable(plan) == readable(*input),
            PlanView::Sort { input, .. } => readable(plan) == readable(*input),
            PlanView::Limit { input, .. } => readable(plan) == readable(*input),
            PlanView::Offset { input, .. } => readable(plan) == readable(*input),
            PlanView::Distinct { input } => readable(plan) == readable(*input),
            PlanView::Window { input, .. } => readable(plan) == readable(*input),
            PlanView::Union { left, right, .. } => readable(plan) == (readable(*left) && readable(
                *right,
            )),
            PlanView::NestedLoopJoin { left, right, kind, .. } => readable(plan) == (readable(*left)
                && readable(*right) && kind != JoinKind::RightOuter),
            PlanView::Insert { .. } => !readable(plan),
            PlanView::Upsert { .. } => !readable(plan),
            PlanView::Update { .. } => !readable(plan),
            PlanView::Delete { .. } => !readable(plan),
            _ => inputs(plan).len() == 0 && (plan is SeqScan || plan is AliasScan
                || plan is IndexScan || plan is RangeScan || plan is ExprIndexScan
                || plan is ExprRangeScan || plan is OrderedExprIndexScan || plan is ListTypes
                || plan is ListLinks || plan is Describe) ==> readable(plan),
        },
{
}

} // verus!
