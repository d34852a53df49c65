//! What becomes of the literals of a plan.

use vstd::prelude::*;

use crate::catalog::{CatalogView, ColumnDefView};
use crate::coerce::{
    coerced_expr, coerced_items, coerced_plan, typed_scope, CoerceModel, TypedScopeView,
};
use crate::error::ErrorView;
use crate::expr::{BinOp, ExprView, LiteralView, SortKeyView, UnaryOp};
use crate::laws::changing::denoted;
use crate::laws::expressions::{has_type, names_have_the_type_of_their_columns};
use crate::laws::naming::referred_name;
use crate::plan::{PlanView, ProjectFieldView};
use crate::seqs::{first_where_found, is_name, name_position};
use crate::value::TypeId;

verus! {

/// The expression refers to a column of this type in scope, to whose name no
/// projection gives something else.
pub open spec fn refers_to(cx: TypedScopeView, expr: ExprView, name: Seq<char>, t: TypeId) -> bool {
    referred_name(expr) == Some(name) && !cx.rebound.contains(name) && has_type(cx.scope, name, t)
}

/// The types that a literal is turned into: points in time, identifiers and bytes
/// are written as strings.
pub open spec fn is_written(t: TypeId) -> bool {
    t == TypeId::DateTime || t == TypeId::Uuid || t == TypeId::Bytes
}

/// What a literal against a column of this type becomes: a value as the column
/// takes it; but an integer against points in time stays.
pub open spec fn becomes(
    coerce: CoerceModel,
    name: Seq<char>,
    t: TypeId,
    literal: LiteralView,
) -> Result<ExprView, ErrorView> {
    let plain = ExprView::Literal(literal);
    if t == TypeId::DateTime && literal is Int {
        Ok(plain)
    } else {
        match coerce(
            denoted(plain)->0,
            ColumnDefView { name, type_id: t, required: false, position: 0 },
        ) {
            Ok(value) => Ok(ExprView::ValueLit(value)),
            Err(message) => Err(ErrorView::Execution(message)),
        }
    }
}

proof fn references_are_typed(cx: TypedScopeView, expr: ExprView, name: Seq<char>, t: TypeId)
    requires
        refers_to(cx, expr, name, t),
    ensures
        cx.typed_column(expr) == (if is_written(t) {
            Some((name, t))
        } else {
            None
        }),
{
    names_have_the_type_of_their_columns(name, cx.scope, t);
    first_where_found(cx.rebound, is_name(name));
    match name_position(cx.rebound, name) {
        Some(p) => {
            assert(cx.rebound[p] == name);
        },
        None => {},
    }
}

/// A literal compared with a column, on either side, becomes what it becomes
/// against the type of the column, and the column stays; against a column of
/// another type it stays too.
pub proof fn compared_literals_become_values(
    cx: TypedScopeView,
    column: ExprView,
    name: Seq<char>,
    t: TypeId,
    op: BinOp,
    literal: LiteralView,
)
    requires
        refers_to(cx, column, name, t),
        op == BinOp::Eq || op == BinOp::Neq || op == BinOp::Lt || op == BinOp::Gt || op
            == BinOp::Lte || op == BinOp::Gte,
    ensures
        ({
            let plain = ExprView::Literal(literal);
            let made = if is_written(t) {
                becomes(cx.model, name, t, literal)
            } else {
                Ok(plain)
            };
            &&& coerced_expr(
                cx,
                ExprView::BinaryOp(Box::new(column), op, Box::new(plain)),
            ) == (match made {
                Ok(value) => Ok::<ExprView, ErrorView>(
                    ExprView::BinaryOp(Box::new(column), op, Box::new(value)),
                ),
                Err(error) => Err(error),
            })
            &&& coerced_expr(
                cx,
                ExprView::BinaryOp(Box::new(plain), op, Box::new(column)),
            ) == (match made {
                Ok(value) => Ok::<ExprView, ErrorView>(
                    ExprView::BinaryOp(Box::new(value), op, Box::new(column)),
                ),
                Err(error) => Err(error),
            })
        }),
{
    references_are_typed(cx, column, name, t);
    reveal_with_fuel(coerced_expr, 3);
    let plain = ExprView::Literal(literal);
    assert(cx.typed_column(plain) is None);
    assert(coerced_expr(cx, plain) == Ok::<ExprView, ErrorView>(plain));
    assert(coerced_expr(cx, column) == Ok::<ExprView, ErrorView>(column));
}

/// An expression that compares nothing with a literal keeps its form, over its parts
/// as they become.
pub proof fn other_expressions_keep_their_form(
    cx: TypedScopeView,
    left: ExprView,
    right: ExprView,
    op: BinOp,
    sign: UnaryOp,
)
    requires
        op == BinOp::And || op == BinOp::Or || !(left is Literal) && !(right is Literal),
    ensures
        ({
            let (l, r) = (coerced_expr(cx, left), coerced_expr(cx, right));
            &&& (l is Ok && r is Ok) ==> coerced_expr(
                cx,
                ExprView::BinaryOp(Box::new(left), op, Box::new(right)),
            ) == Ok::<ExprView, ErrorView>(
                ExprView::BinaryOp(Box::new(l->Ok_0), op, Box::new(r->Ok_0)),
            )
            &&& (l is Ok && r is Ok) ==> coerced_expr(
                cx,
                ExprView::Coalesce(Box::new(left), Box::new(right)),
            ) == Ok::<ExprView, ErrorView>(
                ExprView::Coalesce(Box::new(l->Ok_0), Box::new(r->Ok_0)),
            )
            &&& l is Ok ==> coerced_expr(cx, ExprView::UnaryOp(sign, Box::new(left))) == Ok::<
                ExprView,
                ErrorView,
            >(ExprView::UnaryOp(sign, Box::new(l->Ok_0)))
            &&& l is Err ==> coerced_expr(
                cx,
                ExprView::BinaryOp(Box::new(left), op, Box::new(right)),
            ) is Err
            &&& r is Err ==> coerced_expr(
                cx,
                ExprView::BinaryOp(Box::new(left), op, Box::new(right)),
            ) is Err
        }),
{
}

proof fn items_become(
    cx: TypedScopeView,
    typed: Option<(Seq<char>, TypeId)>,
    items: Seq<ExprView>,
    i: int,
)
    requires
        0 <= i <= items.len(),
    ensures
        coerced_items(cx, typed, items, i) matches Ok(made) ==> made.len() == items.len() - i
            && forall|k: int|
            0 <= k < made.len() ==> (match (typed, items[i + k]) {
                (Some((name, t)), ExprView::Literal(literal)) => becomes(
                    cx.model,
                    name,
                    t,
                    literal,
                ),
                _ => coerced_expr(cx, items[i + k]),
            }) == Ok::<ExprView, ErrorView>(#[trigger] made[k]),
    decreases items.len() - i,
{
    if i < items.len() {
        items_become(cx, typed, items, i + 1);
        match (coerced_items(cx, typed, items, i), coerced_items(cx, typed, items, i + 1)) {
            (Ok(all), Ok(rest)) => {
                assert forall|k: int| 0 <= k < all.len() implies (match (typed, items[i + k]) {
                    (Some((name, t)), ExprView::Literal(literal)) => becomes(
                        cx.model,
                        name,
                        t,
                        literal,
                    ),
                    _ => coerced_expr(cx, items[i + k]),
                }) == Ok::<ExprView, ErrorView>(#[trigger] all[k]) by {
                    if k > 0 {
                        assert(all[k] == rest[k - 1]);
                        assert(items[i + 1 + (k - 1)] == items[i + k]);
                    }
                }
            },
            _ => {},
        }
    }
}

/// Each literal of a list that a column is looked for in becomes what it becomes
/// against the type of the column; the list keeps its order and the column stays.
pub proof fn listed_literals_become_values(
    cx: TypedScopeView,
    column: ExprView,
    name: Seq<char>,
    t: TypeId,
    list: Seq<ExprView>,
    negated: bool,
    k: int,
)
    requires
        refers_to(cx, column, name, t),
        is_written(t),
        0 <= k < list.len(),
    ensures
        coerced_expr(
            cx,
            ExprView::InList { expr: Box::new(column), list, negated },
        ) matches Ok(made) ==> {
            &&& made matches ExprView::InList { expr: subject, list: items, negated: still }
            &&& *subject == column && still == negated
            &&& items.len() == list.len()
            &&& list[k] matches ExprView::Literal(literal) ==> becomes(cx.model, name, t, literal)
                == Ok::<ExprView, ErrorView>(items[k])
            &&& !(list[k] is Literal) ==> coerced_expr(cx, list[k]) == Ok::<ExprView, ErrorView>(
                items[k],
            )
        },
{
    references_are_typed(cx, column, name, t);
    items_become(cx, Some((name, t)), list, 0);
    assert(coerced_expr(cx, column) == Ok::<ExprView, ErrorView>(column));
    match coerced_items(cx, Some((name, t)), list, 0) {
        Ok(items) => {
            assert(list[0 + k] == list[k]);
            assert(items[k] == items[k]);
        },
        Err(_) => {},
    }
}

/// The key of a lookup becomes what it becomes against the type of its column, and
/// the predicate of a filter what it becomes in the scope of the plan.
pub proof fn plans_become_what_their_literals_do(
    catalog: CatalogView,
    coerce: CoerceModel,
    table: Seq<char>,
    column: Seq<char>,
    literal: LiteralView,
    predicate: ExprView,
    input: PlanView,
)
    ensures
        ({
            let key = ExprView::Literal(literal);
            let scan = PlanView::IndexScan { table, column, key };
            let made = match catalog.column_type(table, column) {
                Some(t) => if is_written(t) {
                    becomes(coerce, column, t, literal)
                } else {
                    Ok(key)
                },
                None => Ok(key),
            };
            coerced_plan(typed_scope(catalog, coerce, scan), scan) == (match made {
                Ok(value) => Ok::<PlanView, ErrorView>(
                    PlanView::IndexScan { table, column, key: value },
                ),
                Err(error) => Err(error),
            })
        }),
        ({
            let filter = PlanView::Filter { input: Box::new(input), predicate };
            let cx = typed_scope(catalog, coerce, filter);
            (coerced_plan(cx, input) is Ok && coerced_expr(cx, predicate) is Ok) ==> coerced_plan(
                cx,
                filter,
            ) == Ok::<PlanView, ErrorView>(
                PlanView::Filter {
                    input: Box::new(coerced_plan(cx, input)->Ok_0),
                    predicate: coerced_expr(cx, predicate)->Ok_0,
                },
            )
        }),
{
}

/// Each expression of a list becomes what it becomes alone, in its place.
pub open spec fn become_in_place(
    cx: TypedScopeView,
    before: Seq<ExprView>,
    after: Seq<ExprView>,
) -> bool {
    &&& after.len() == before.len()
    &&& forall|k: int|
        0 <= k < before.len() ==> coerced_expr(cx, before[k]) == Ok::<ExprView, ErrorView>(
            #[trigger] after[k],
        )
}

/// An expression becomes what it becomes alone, if there is one.
pub open spec fn becomes_if_any(
    cx: TypedScopeView,
    before: Option<ExprView>,
    after: Option<ExprView>,
) -> bool {
    match before {
        None => after is None,
        Some(expr) => after matches Some(made) && coerced_expr(cx, expr) == Ok::<
            ExprView,
            ErrorView,
        >(made),
    }
}

/// A plan becomes the plan that its input becomes.
pub open spec fn input_becomes(cx: TypedScopeView, before: PlanView, after: PlanView) -> bool {
    coerced_plan(cx, before) == Ok::<PlanView, ErrorView>(after)
}

proof fn lists_become_in_place(cx: TypedScopeView, before: Seq<ExprView>)
    ensures
        coerced_items(cx, None, before, 0) matches Ok(after) ==> become_in_place(
            cx,
            before,
            after,
        ),
{
    items_become(cx, None, before, 0);
    match coerced_items(cx, None, before, 0) {
        Ok(after) => {
            assert forall|k: int| 0 <= k < before.len() implies coerced_expr(cx, before[k])
                == Ok::<ExprView, ErrorView>(#[trigger] after[k]) by {
                assert(before[0 + k] == before[k]);
            }
        },
        Err(_) => {},
    }
}

/// A node keeps its kind and what it is written with, over its inputs as they become
/// and with its expressions as they become. Each side of a union has a scope of its
/// own.
pub proof fn nodes_keep_what_they_are_written_with(cx: TypedScopeView, plan: PlanView)
    ensures
        coerced_plan(cx, plan) matches Ok(made) ==> match plan {
            PlanView::Limit { input, count } => made matches PlanView::Limit {
                input: i,
                count: c,
            } && c == count && input_becomes(cx, *input, *i),
            PlanView::Offset { input, count } => made matches PlanView::Offset {
                input: i,
                count: c,
            } && c == count && input_becomes(cx, *input, *i),
            PlanView::Distinct { input } => made matches PlanView::Distinct { input: i }
                && input_becomes(cx, *input, *i),
            PlanView::Window { input, windows } => made matches PlanView::Window {
                input: i,
                windows: w,
            } && w == windows && input_becomes(cx, *input, *i),
            PlanView::Update { input, table, assignments, returning } => made matches
                PlanView::Update { input: i, table: t, assignments: a, returning: r } && t == table
                && a == assignments && r == returning && input_becomes(cx, *input, *i),
            PlanView::Delete { input, table, returning } => made matches PlanView::Delete {
                input: i,
                table: t,
                returning: r,
            } && t == table && r == returning && input_becomes(cx, *input, *i),
            PlanView::Explain { input } => made matches PlanView::Explain { input: i }
                && input_becomes(cx, *input, *i),
            PlanView::NestedProject { input, fields } => made matches PlanView::NestedProject {
                input: i,
                fields: f,
            } && f == fields && input_becomes(cx, *input, *i),
            PlanView::Union { left, right, all } => made matches PlanView::Union {
                left: l,
                right: r,
                all: a,
            } && a == all && input_becomes(typed_scope(cx.catalog, cx.model, *left), *left, *l)
                && input_becomes(typed_scope(cx.catalog, cx.model, *right), *right, *r),
            PlanView::NestedLoopJoin { left, right, on, kind } => made matches
                PlanView::NestedLoopJoin { left: l, right: r, on: o, kind: k } && k == kind
                && input_becomes(cx, *left, *l) && input_becomes(cx, *right, *r)
                && becomes_if_any(cx, on, o),
            PlanView::Aggregate { input, function, argument, mode, provenance_alias } => {
                &&& made matches PlanView::Aggregate {
                    input: i,
                    function: f,
                    argument: a,
                    mode: m,
                    provenance_alias: p,
                }
                &&& f == function && m == mode && p == provenance_alias
                &&& input_becomes(cx, *input, *i) && becomes_if_any(cx, argument, a)
            },
            PlanView::Project { input, fields } => {
                &&& made matches PlanView::Project { input: i, fields: f }
                &&& input_becomes(cx, *input, *i)
                &&& f.map_values(|field: ProjectFieldView| field.alias) == fields.map_values(
                    |field: ProjectFieldView| field.alias,
                )
                &&& become_in_place(
                    cx,
                    fields.map_values(|field: ProjectFieldView| field.expr),
                    f.map_values(|field: ProjectFieldView| field.expr),
                )
            },
            PlanView::Sort { input, keys } => {
                &&& made matches PlanView::Sort { input: i, keys: k }
                &&& input_becomes(cx, *input, *i)
                &&& k.map_values(|key: SortKeyView| key.descending) == keys.map_values(
                    |key: SortKeyView| key.descending,
                )
                &&& become_in_place(
                    cx,
                    keys.map_values(|key: SortKeyView| key.expr),
                    k.map_values(|key: SortKeyView| key.expr),
                )
            },
            PlanView::Filter { input, predicate } => made matches PlanView::Filter {
                input: i,
                predicate: p,
            } && input_becomes(cx, *input, *i) && coerced_expr(cx, predicate) == Ok::<
                ExprView,
                ErrorView,
            >(p),
            PlanView::SeqScan { .. } => made == plan,
            PlanView::AliasScan { .. } => made == plan,
            PlanView::Insert { .. } => made == plan,
            PlanView::Upsert { .. } => made == plan,
            _ => true,
        },
{
    match plan {
        PlanView::Project { fields, .. } => {
            let exprs = crate::validate::field_exprs(fields);
            assert(exprs =~= fields.map_values(|field: ProjectFieldView| field.expr));
            lists_become_in_place(cx, exprs);
            match coerced_items(cx, None, exprs, 0) {
                Ok(after) => {
                    let f = crate::coerce::fields_with(fields, after);
                    assert(f.map_values(|field: ProjectFieldView| field.expr) =~= after);
                    assert(f.map_values(|field: ProjectFieldView| field.alias)
                        =~= fields.map_values(|field: ProjectFieldView| field.alias));
                },
                Err(_) => {},
            }
        },
        PlanView::Sort { keys, .. } => {
            let exprs = crate::window::order_exprs(keys);
            assert(exprs =~= keys.map_values(|key: SortKeyView| key.expr));
            lists_become_in_place(cx, exprs);
            match coerced_items(cx, None, exprs, 0) {
                Ok(after) => {
                    let k = crate::coerce::sort_keys_with(keys, after);
                    assert(k.map_values(|key: SortKeyView| key.expr) =~= after);
                    assert(k.map_values(|key: SortKeyView| key.descending) =~= keys.map_values(
                        |key: SortKeyView| key.descending,
                    ));
                },
                Err(_) => {},
            }
        },
        _ => {},
    }
}

} // verus!
