//! The names and types that a plan's expressions can see, and the check that a
//! JSON path starts from a JSON column.

use vstd::prelude::*;

use crate::aggregate::{type_label, type_label_text};
use crate::catalog::{Catalog, CatalogView, Schema, SchemaView};
use crate::error::{ErrorView, QueryError};
use crate::expr::{exprs_view, sort_keys_view, whens_view, Expr, ExprView, SortKey, SortKeyView};
use crate::group::{qualified, qualified_name};
use crate::plan::{PlanNode, PlanView, ProjectField, ProjectFieldView};
use crate::seqs::name_position;
use crate::text::{position, push_text};
use crate::validate::{node_exprs, plan_exprs, plan_input, plan_sides};
use crate::value::TypeId;

verus! {

/// The columns of a scan, under their own names.
pub open spec fn bare_columns(schema: Option<SchemaView>) -> Seq<(Seq<char>, TypeId)> {
    match schema {
        Some(s) => Seq::new(s.columns.len(), |i: int| (s.columns[i].name, s.columns[i].type_id)),
        None => Seq::empty(),
    }
}

/// The columns of a scan, qualified by an alias.
pub open spec fn aliased_columns(schema: Option<SchemaView>, alias: Seq<char>) -> Seq<
    (Seq<char>, TypeId),
> {
    match schema {
        Some(s) => Seq::new(
            s.columns.len(),
            |i: int| (qualified(alias, s.columns[i].name), s.columns[i].type_id),
        ),
        None => Seq::empty(),
    }
}

/// The columns that a leaf of a plan brings into scope.
pub open spec fn leaf_columns(catalog: CatalogView, plan: PlanView) -> Seq<(Seq<char>, TypeId)> {
    match plan {
        PlanView::SeqScan { table } => bare_columns(catalog.schema(table)),
        PlanView::IndexScan { table, .. } => bare_columns(catalog.schema(table)),
        PlanView::RangeScan { table, .. } => bare_columns(catalog.schema(table)),
        PlanView::ExprIndexScan { table, .. } => bare_columns(catalog.schema(table)),
        PlanView::ExprRangeScan { table, .. } => bare_columns(catalog.schema(table)),
        PlanView::OrderedExprIndexScan { table, .. } => bare_columns(catalog.schema(table)),
        PlanView::AliasScan { table, alias } => aliased_columns(catalog.schema(table), alias),
        _ => Seq::empty(),
    }
}

/// The columns of every scan of a plan, from left to right.
pub open spec fn scan_columns(catalog: CatalogView, plan: PlanView) -> Seq<(Seq<char>, TypeId)>
    decreases plan,
{
    match plan {
        PlanView::Filter { input, .. } => scan_columns(catalog, *input),
        PlanView::Project { input, .. } => scan_columns(catalog, *input),
        PlanView::NestedProject { input, .. } => scan_columns(catalog, *input),
        PlanView::Sort { input, .. } => scan_columns(catalog, *input),
        PlanView::Limit { input, .. } => scan_columns(catalog, *input),
        PlanView::Offset { input, .. } => scan_columns(catalog, *input),
        PlanView::Aggregate { input, .. } => scan_columns(catalog, *input),
        PlanView::Distinct { input } => scan_columns(catalog, *input),
        PlanView::GroupBy { input, .. } => scan_columns(catalog, *input),
        PlanView::Window { input, .. } => scan_columns(catalog, *input),
        PlanView::Update { input, .. } => scan_columns(catalog, *input),
        PlanView::Delete { input, .. } => scan_columns(catalog, *input),
        PlanView::Explain { input } => scan_columns(catalog, *input),
        PlanView::NestedLoopJoin { left, right, .. } => scan_columns(catalog, *left)
            + scan_columns(catalog, *right),
        PlanView::Union { left, right, .. } => scan_columns(catalog, *left) + scan_columns(
            catalog,
            *right,
        ),
        _ => leaf_columns(catalog, plan),
    }
}

/// A scope as mathematics.
pub open spec fn scope_view(scope: Seq<(String, TypeId)>) -> Seq<(Seq<char>, TypeId)> {
    Seq::new(scope.len(), |i: int| (scope[i].0@, scope[i].1))
}

fn push_schema_columns(out: &mut Vec<(String, TypeId)>, schema: &Schema, alias: Option<&String>)
    ensures
        scope_view(final(out)@) == scope_view(old(out)@) + (match alias {
            None => bare_columns(Some(schema.deep_view())),
            Some(a) => aliased_columns(Some(schema.deep_view()), a@),
        }),
{
    let ghost before = scope_view(out@);
    let ghost all = match alias {
        None => bare_columns(Some(schema.deep_view())),
        Some(a) => aliased_columns(Some(schema.deep_view()), a@),
    };
    let mut i: usize = 0;
    assert(before =~= before + all.take(0));
    while i < schema.columns.len()
        invariant
            i <= schema.columns.len(),
            all == (match alias {
                None => bare_columns(Some(schema.deep_view())),
                Some(a) => aliased_columns(Some(schema.deep_view()), a@),
            }),
            all.len() == schema.columns.len(),
            scope_view(out@) == before + all.take(i as int),
        decreases schema.columns.len() - i,
    {
        let ghost held = scope_view(out@);
        let name = match alias {
            None => schema.columns[i].name.clone(),
            Some(a) => qualified_name(a, &schema.columns[i].name),
        };
        assert((name@, schema.columns[i as int].type_id) == all[i as int]);
        out.push((name, schema.columns[i].type_id));
        assert(scope_view(out@) =~= held.push(all[i as int]));
        assert(scope_view(out@) =~= before + all.take(i + 1));
        i = i + 1;
    }
    assert(all.take(schema.columns.len() as int) =~= all);
}

/// Append the columns of every scan of a plan to `out`.
pub fn collect_scan_columns(catalog: &Catalog, plan: &PlanNode, out: &mut Vec<(String, TypeId)>)
    ensures
        scope_view(final(out)@) == scope_view(old(out)@) + scan_columns(
            catalog.deep_view(),
            plan.deep_view(),
        ),
    decreases plan,
{
    match plan_input(plan) {
        Some(input) => {
            collect_scan_columns(catalog, input, out);
            return;
        },
        None => {},
    }
    match plan_sides(plan) {
        Some((left, right)) => {
            collect_scan_columns(catalog, left, out);
            collect_scan_columns(catalog, right, out);
            assert(scope_view(out@) =~= scope_view(old(out)@) + scan_columns(
                catalog.deep_view(),
                plan.deep_view(),
            ));
            return;
        },
        None => {},
    }
    let ghost before = scope_view(out@);
    assert(before =~= before + Seq::<(Seq<char>, TypeId)>::empty());
    match plan {
        PlanNode::SeqScan { table }
        | PlanNode::IndexScan { table, .. }
        | PlanNode::RangeScan { table, .. }
        | PlanNode::ExprIndexScan { table, .. }
        | PlanNode::ExprRangeScan { table, .. }
        | PlanNode::OrderedExprIndexScan { table, .. } => {
            match catalog.schema(table) {
                Some(schema) => push_schema_columns(out, schema, None),
                None => {},
            }
        },
        PlanNode::AliasScan { table, alias } => {
            match catalog.schema(table) {
                Some(schema) => push_schema_columns(out, schema, Some(alias)),
                None => {},
            }
        },
        _ => {},
    }
}

/// The name under which a field of a projection comes out, if it has one.
pub open spec fn projected_name(field: ProjectFieldView) -> Option<Seq<char>> {
    match field.alias {
        Some(alias) => Some(alias),
        None => match field.expr {
            ExprView::Field(name) => Some(name),
            ExprView::QualifiedField { qualifier, field } => Some(qualified(qualifier, field)),
            _ => None,
        },
    }
}

/// The names that a projection gives from field `i` on.
pub open spec fn projected_from(fields: Seq<ProjectFieldView>, i: int) -> Seq<Seq<char>>
    decreases fields.len() - i,
{
    if i < 0 || i >= fields.len() {
        Seq::empty()
    } else {
        match projected_name(fields[i]) {
            Some(name) => seq![name] + projected_from(fields, i + 1),
            None => projected_from(fields, i + 1),
        }
    }
}

/// The names that a projection gives to something else than the column of that
/// name, from field `i` on.
pub open spec fn rebound_from(fields: Seq<ProjectFieldView>, i: int) -> Seq<Seq<char>>
    decreases fields.len() - i,
{
    if i < 0 || i >= fields.len() {
        Seq::empty()
    } else {
        match fields[i].alias {
            Some(alias) => if fields[i].expr == ExprView::Field(alias) {
                rebound_from(fields, i + 1)
            } else {
                seq![alias] + rebound_from(fields, i + 1)
            },
            None => rebound_from(fields, i + 1),
        }
    }
}

/// The names that a node gives anew.
pub open spec fn node_names(plan: PlanView, only_rebound: bool) -> Seq<Seq<char>> {
    match plan {
        PlanView::Project { fields, .. } => if only_rebound {
            rebound_from(fields, 0)
        } else {
            projected_from(fields, 0)
        },
        PlanView::GroupBy { aggregates, .. } => if only_rebound {
            Seq::new(aggregates.len(), |i: int| aggregates[i].output_name)
        } else {
            Seq::empty()
        },
        PlanView::Window { windows, .. } => if only_rebound {
            Seq::new(windows.len(), |i: int| windows[i].output_name)
        } else {
            Seq::empty()
        },
        _ => Seq::empty(),
    }
}

/// The names that the nodes of a plan give anew: every projected name, or only
/// those that are given to something else than the column of that name.
pub open spec fn plan_names(plan: PlanView, only_rebound: bool) -> Seq<Seq<char>>
    decreases plan,
{
    node_names(plan, only_rebound) + match plan {
        PlanView::Filter { input, .. } => plan_names(*input, only_rebound),
        PlanView::Project { input, .. } => plan_names(*input, only_rebound),
        PlanView::NestedProject { input, .. } => plan_names(*input, only_rebound),
        PlanView::Sort { input, .. } => plan_names(*input, only_rebound),
        PlanView::Limit { input, .. } => plan_names(*input, only_rebound),
        PlanView::Offset { input, .. } => plan_names(*input, only_rebound),
        PlanView::Aggregate { input, .. } => plan_names(*input, only_rebound),
        PlanView::Distinct { input } => plan_names(*input, only_rebound),
        PlanView::GroupBy { input, .. } => plan_names(*input, only_rebound),
        PlanView::Window { input, .. } => plan_names(*input, only_rebound),
        PlanView::Update { input, .. } => plan_names(*input, only_rebound),
        PlanView::Delete { input, .. } => plan_names(*input, only_rebound),
        PlanView::Explain { input } => plan_names(*input, only_rebound),
        PlanView::NestedLoopJoin { left, right, .. } => plan_names(*left, only_rebound)
            + plan_names(*right, only_rebound),
        PlanView::Union { left, right, .. } => plan_names(*left, only_rebound) + plan_names(
            *right,
            only_rebound,
        ),
        _ => Seq::empty(),
    }
}

fn push_name(out: &mut Vec<String>, name: String)
    ensures
        final(out).deep_view() == old(out).deep_view() + seq![name@],
{
    let ghost before = out.deep_view();
    let ghost shown = name@;
    out.push(name);
    assert(out.deep_view() =~= before + seq![shown]);
}

fn push_project_names(fields: &Vec<ProjectField>, only_rebound: bool, out: &mut Vec<String>)
    ensures
        final(out).deep_view() == old(out).deep_view() + (if only_rebound {
            rebound_from(fields.deep_view(), 0)
        } else {
            projected_from(fields.deep_view(), 0)
        }),
{
    let ghost views = fields.deep_view();
    let ghost before = out.deep_view();
    let ghost all = before + (if only_rebound {
        rebound_from(views, 0)
    } else {
        projected_from(views, 0)
    });
    let mut i: usize = 0;
    while i < fields.len()
        invariant
            i <= fields.len(),
            views == fields.deep_view(),
            all == out.deep_view() + (if only_rebound {
                rebound_from(views, i as int)
            } else {
                projected_from(views, i as int)
            }),
        decreases fields.len() - i,
    {
        let ghost held = out.deep_view();
        assert(views[i as int] == fields[i as int].deep_view());
        match &fields[i].alias {
            Some(alias) => {
                let same: bool = match &fields[i].expr {
                    Expr::Field(name) => *name == *alias,
                    _ => false,
                };
                if !(only_rebound && same) {
                    push_name(out, alias.clone());
                }
            },
            None => {
                if !only_rebound {
                    match &fields[i].expr {
                        Expr::Field(name) => push_name(out, name.clone()),
                        Expr::QualifiedField { qualifier, field } => push_name(
                            out,
                            qualified_name(qualifier, field),
                        ),
                        _ => {},
                    }
                }
            },
        }
        assert(all =~= out.deep_view() + (if only_rebound {
            rebound_from(views, i + 1)
        } else {
            projected_from(views, i + 1)
        }));
        i = i + 1;
    }
    assert(out.deep_view() =~= all);
}

/// Append the names that the nodes of a plan give anew to `out`.
fn collect_names(plan: &PlanNode, only_rebound: bool, out: &mut Vec<String>)
    ensures
        final(out).deep_view() == old(out).deep_view() + plan_names(plan.deep_view(), only_rebound),
    decreases plan,
{
    let ghost view = plan.deep_view();
    let ghost before = out.deep_view();
    match plan {
        PlanNode::Project { fields, .. } => {
            push_project_names(fields, only_rebound, out);
        },
        PlanNode::GroupBy { aggregates, .. } => {
            if only_rebound {
                let ghost names = Seq::new(
                    aggregates.deep_view().len(),
                    |i: int| aggregates.deep_view()[i].output_name,
                );
                let mut i: usize = 0;
                assert(before =~= before + names.take(0));
                while i < aggregates.len()
                    invariant
                        i <= aggregates.len(),
                        names == Seq::new(
                            aggregates.deep_view().len(),
                            |i: int| aggregates.deep_view()[i].output_name,
                        ),
                        out.deep_view() == before + names.take(i as int),
                    decreases aggregates.len() - i,
                {
                    let ghost held = out.deep_view();
                    push_name(out, aggregates[i].output_name.clone());
                    assert(out.deep_view() =~= before + names.take(i + 1));
                    i = i + 1;
                }
                assert(names.take(aggregates.len() as int) =~= names);
            }
        },
        PlanNode::Window { windows, .. } => {
            if only_rebound {
                let ghost names = Seq::new(
                    windows.deep_view().len(),
                    |i: int| windows.deep_view()[i].output_name,
                );
                let mut i: usize = 0;
                assert(before =~= before + names.take(0));
                while i < windows.len()
                    invariant
                        i <= windows.len(),
                        names == Seq::new(
                            windows.deep_view().len(),
                            |i: int| windows.deep_view()[i].output_name,
                        ),
                        out.deep_view() == before + names.take(i as int),
                    decreases windows.len() - i,
                {
                    push_name(out, windows[i].output_name.clone());
                    assert(out.deep_view() =~= before + names.take(i + 1));
                    i = i + 1;
                }
                assert(names.take(windows.len() as int) =~= names);
            }
        },
        _ => {},
    }
    assert(out.deep_view() =~= before + node_names(view, only_rebound));
    match plan_input(plan) {
        Some(input) => collect_names(input, only_rebound, out),
        None => match plan_sides(plan) {
            Some((left, right)) => {
                collect_names(left, only_rebound, out);
                collect_names(right, only_rebound, out);
            },
            None => {},
        },
    }
    assert(out.deep_view() =~= before + plan_names(view, only_rebound));
}

/// Append the output names of every projection of a plan to `out`.
pub fn collect_projected_names(plan: &PlanNode, out: &mut Vec<String>)
    ensures
        final(out).deep_view() == old(out).deep_view() + plan_names(plan.deep_view(), false),
{
    collect_names(plan, false, out)
}

/// Append the names that a plan gives to something else than the column of that
/// name to `out`.
pub fn collect_rebound_names(plan: &PlanNode, out: &mut Vec<String>)
    ensures
        final(out).deep_view() == old(out).deep_view() + plan_names(plan.deep_view(), true),
{
    collect_names(plan, true, out)
}

/// The type of `name` among the first `n` columns in scope: `None` where it is
/// absent, `Some(None)` where it has more than one type.
pub open spec fn type_among(name: Seq<char>, scope: Seq<(Seq<char>, TypeId)>, n: int) -> Option<
    Option<TypeId>,
>
    decreases n,
{
    if n <= 0 {
        None
    } else {
        let before = type_among(name, scope, n - 1);
        if scope[n - 1].0 != name {
            before
        } else {
            match before {
                None => Some(Some(scope[n - 1].1)),
                Some(Some(t)) => if t == scope[n - 1].1 {
                    before
                } else {
                    Some(None)
                },
                Some(None) => Some(None),
            }
        }
    }
}

/// The one type that `name` has in scope.
pub open spec fn scan_type(name: Seq<char>, scope: Seq<(Seq<char>, TypeId)>) -> Option<TypeId> {
    match type_among(name, scope, scope.len() as int) {
        Some(t) => t,
        None => None,
    }
}

/// Resolve `name` to its one type in scope.
pub fn resolve_scan_type(name: &String, scope: &Vec<(String, TypeId)>) -> (t: Option<TypeId>)
    ensures
        t == scan_type(name@, scope_view(scope@)),
{
    let ghost view = scope_view(scope@);
    let mut found: Option<TypeId> = None;
    let mut i: usize = 0;
    while i < scope.len()
        invariant
            i <= scope.len(),
            view == scope_view(scope@),
            type_among(name@, view, i as int) == (match found {
                Some(t) => Some(Some(t)),
                None => None,
            }),
        decreases scope.len() - i,
    {
        assert(view[i as int] == (scope[i as int].0@, scope[i as int].1));
        if scope[i].0 == *name {
            match found {
                None => {
                    found = Some(scope[i].1);
                },
                Some(before) => {
                    if before != scope[i].1 {
                        proof {
                            ambiguity_stays(name@, view, i + 1, view.len() as int);
                        }
                        return None;
                    }
                },
            }
        }
        i = i + 1;
    }
    found
}

proof fn ambiguity_stays(name: Seq<char>, scope: Seq<(Seq<char>, TypeId)>, k: int, n: int)
    requires
        0 <= k <= n,
        type_among(name, scope, k) == Some(None::<TypeId>),
    ensures
        type_among(name, scope, n) == Some(None::<TypeId>),
    decreases n,
{
    if k < n {
        ambiguity_stays(name, scope, k, n - 1);
    }
}

/// The name of a column reference.
pub open spec fn reference_name(expr: ExprView) -> Option<Seq<char>> {
    match expr {
        ExprView::Field(name) => Some(name),
        ExprView::QualifiedField { qualifier, field } => Some(qualified(qualifier, field)),
        _ => None,
    }
}

/// The name of a column reference.
pub fn expr_reference_name(expr: &Expr) -> (name: Option<String>)
    ensures
        name.deep_view() == reference_name(expr.deep_view()),
{
    match expr {
        Expr::Field(name) => Some(name.clone()),
        Expr::QualifiedField { qualifier, field } => Some(qualified_name(qualifier, field)),
        _ => None,
    }
}

/// Why a JSON path cannot start from `base`: it is a column of another type,
/// and no projection gives its name to something else.
pub open spec fn path_base_error(
    base: ExprView,
    scope: Seq<(Seq<char>, TypeId)>,
    shadowed: Seq<Seq<char>>,
) -> Option<Seq<char>> {
    match reference_name(base) {
        None => None,
        Some(name) => if name_position(shadowed, name) is Some {
            None
        } else {
            match scan_type(name, scope) {
                None => None,
                Some(t) => if t == TypeId::Json {
                    None
                } else {
                    Some(
                        "'"@ + name + "' is a "@ + type_label(t)
                            + " column, not json: the '->' path operator requires a json column"@,
                    )
                },
            }
        },
    }
}

fn json_path_base_error(
    base: &Expr,
    scope: &Vec<(String, TypeId)>,
    shadowed: &Vec<String>,
) -> (message: Option<String>)
    ensures
        message.deep_view() == path_base_error(
            base.deep_view(),
            scope_view(scope@),
            shadowed.deep_view(),
        ),
{
    let name = match expr_reference_name(base) {
        Some(name) => name,
        None => {
            return None;
        },
    };
    if position(shadowed, &name).is_some() {
        return None;
    }
    match resolve_scan_type(&name, scope) {
        None => None,
        Some(TypeId::Json) => None,
        Some(t) => {
            let mut message = "'".to_owned();
            push_text(&mut message, name.as_str());
            push_text(&mut message, "' is a ");
            push_text(&mut message, type_label_text(t));
            push_text(
                &mut message,
                " column, not json: the '->' path operator requires a json column",
            );
            Some(message)
        },
    }
}

/// The first of two errors.
pub open spec fn first_error(a: Option<Seq<char>>, b: Option<Seq<char>>) -> Option<Seq<char>> {
    match a {
        Some(m) => Some(m),
        None => b,
    }
}

/// Why the first mistyped JSON path of an expression is refused.
pub open spec fn json_error(
    expr: ExprView,
    scope: Seq<(Seq<char>, TypeId)>,
    shadowed: Seq<Seq<char>>,
) -> Option<Seq<char>>
    decreases expr, 0int,
{
    match expr {
        ExprView::JsonPath { base, .. } => first_error(
            path_base_error(*base, scope, shadowed),
            json_error(*base, scope, shadowed),
        ),
        ExprView::BinaryOp(l, _, r) => first_error(
            json_error(*l, scope, shadowed),
            json_error(*r, scope, shadowed),
        ),
        ExprView::Coalesce(l, r) => first_error(
            json_error(*l, scope, shadowed),
            json_error(*r, scope, shadowed),
        ),
        ExprView::UnaryOp(_, inner) => json_error(*inner, scope, shadowed),
        ExprView::FunctionCall(_, inner, _) => json_error(*inner, scope, shadowed),
        ExprView::Cast(inner, _) => json_error(*inner, scope, shadowed),
        ExprView::ScalarFunc(_, args) => json_errors(args, 0, scope, shadowed),
        ExprView::Window { args, partition_by, order_by, .. } => first_error(
            first_error(
                json_errors(args, 0, scope, shadowed),
                json_errors(partition_by, 0, scope, shadowed),
            ),
            json_key_errors(order_by, 0, scope, shadowed),
        ),
        ExprView::InList { expr, list, .. } => first_error(
            json_error(*expr, scope, shadowed),
            json_errors(list, 0, scope, shadowed),
        ),
        ExprView::Case { whens, else_expr } => first_error(
            json_when_errors(whens, 0, scope, shadowed),
            match else_expr {
                Some(e) => json_error(*e, scope, shadowed),
                None => None,
            },
        ),
        ExprView::InSubquery { expr, .. } => json_error(*expr, scope, shadowed),
        _ => None,
    }
}

/// Why the first mistyped JSON path from expression `i` on is refused.
pub open spec fn json_errors(
    exprs: Seq<ExprView>,
    i: int,
    scope: Seq<(Seq<char>, TypeId)>,
    shadowed: Seq<Seq<char>>,
) -> Option<Seq<char>>
    decreases exprs, exprs.len() - i,
{
    if i < 0 || i >= exprs.len() {
        None
    } else {
        first_error(
            json_error(exprs[i], scope, shadowed),
            json_errors(exprs, i + 1, scope, shadowed),
        )
    }
}

/// Why the first mistyped JSON path from arm `i` on is refused.
pub open spec fn json_when_errors(
    whens: Seq<(ExprView, ExprView)>,
    i: int,
    scope: Seq<(Seq<char>, TypeId)>,
    shadowed: Seq<Seq<char>>,
) -> Option<Seq<char>>
    decreases whens, whens.len() - i,
{
    if i < 0 || i >= whens.len() {
        None
    } else {
        first_error(
            first_error(
                json_error(whens[i].0, scope, shadowed),
                json_error(whens[i].1, scope, shadowed),
            ),
            json_when_errors(whens, i + 1, scope, shadowed),
        )
    }
}

/// Why the first mistyped JSON path from key `i` on is refused.
pub open spec fn json_key_errors(
    keys: Seq<SortKeyView>,
    i: int,
    scope: Seq<(Seq<char>, TypeId)>,
    shadowed: Seq<Seq<char>>,
) -> Option<Seq<char>>
    decreases keys, keys.len() - i,
{
    if i < 0 || i >= keys.len() {
        None
    } else {
        first_error(
            json_error(keys[i].expr, scope, shadowed),
            json_key_errors(keys, i + 1, scope, shadowed),
        )
    }
}

fn check_expr_json_paths(expr: &Expr, scope: &Vec<(String, TypeId)>, shadowed: &Vec<String>) -> (error:
    Option<String>)
    ensures
        error.deep_view() == json_error(
            expr.deep_view(),
            scope_view(scope@),
            shadowed.deep_view(),
        ),
    decreases expr,
{
    match expr {
        Expr::JsonPath { base, .. } => {
            match json_path_base_error(base, scope, shadowed) {
                Some(message) => Some(message),
                None => check_expr_json_paths(base, scope, shadowed),
            }
        },
        Expr::BinaryOp(l, _, r) | Expr::Coalesce(l, r) => {
            match check_expr_json_paths(l, scope, shadowed) {
                Some(message) => Some(message),
                None => check_expr_json_paths(r, scope, shadowed),
            }
        },
        Expr::UnaryOp(_, inner) | Expr::FunctionCall(_, inner, _) | Expr::Cast(inner, _) => {
            check_expr_json_paths(inner, scope, shadowed)
        },
        Expr::ScalarFunc(_, args) => check_exprs_json_paths(args, scope, shadowed),
        Expr::Window { args, partition_by, order_by, .. } => {
            match check_exprs_json_paths(args, scope, shadowed) {
                Some(message) => Some(message),
                None => match check_exprs_json_paths(partition_by, scope, shadowed) {
                    Some(message) => Some(message),
                    None => check_keys_json_paths(order_by, scope, shadowed),
                },
            }
        },
        Expr::InList { expr, list, .. } => {
            match check_expr_json_paths(expr, scope, shadowed) {
                Some(message) => Some(message),
                None => check_exprs_json_paths(list, scope, shadowed),
            }
        },
        Expr::Case { whens, else_expr } => {
            match check_whens_json_paths(whens, scope, shadowed) {
                Some(message) => Some(message),
                None => match else_expr {
                    Some(e) => check_expr_json_paths(e, scope, shadowed),
                    None => None,
                },
            }
        },
        Expr::InSubquery { expr, .. } => check_expr_json_paths(expr, scope, shadowed),
        _ => None,
    }
}

fn check_exprs_json_paths(
    exprs: &Vec<Expr>,
    scope: &Vec<(String, TypeId)>,
    shadowed: &Vec<String>,
) -> (error: Option<String>)
    ensures
        error.deep_view() == json_errors(
            exprs_view(exprs@),
            0,
            scope_view(scope@),
            shadowed.deep_view(),
        ),
    decreases exprs,
{
    let ghost views = exprs_view(exprs@);
    let mut i: usize = 0;
    while i < exprs.len()
        invariant
            i <= exprs.len(),
            views == exprs_view(exprs@),
            json_errors(views, 0, scope_view(scope@), shadowed.deep_view()) == json_errors(
                views,
                i as int,
                scope_view(scope@),
                shadowed.deep_view(),
            ),
        decreases exprs.len() - i,
    {
        assert(views[i as int] == exprs[i as int].deep_view());
        match check_expr_json_paths(&exprs[i], scope, shadowed) {
            Some(message) => {
                return Some(message);
            },
            None => {},
        }
        i = i + 1;
    }
    None
}

fn check_whens_json_paths(
    whens: &Vec<(Box<Expr>, Box<Expr>)>,
    scope: &Vec<(String, TypeId)>,
    shadowed: &Vec<String>,
) -> (error: Option<String>)
    ensures
        error.deep_view() == json_when_errors(
            whens_view(whens@),
            0,
            scope_view(scope@),
            shadowed.deep_view(),
        ),
    decreases whens,
{
    let ghost views = whens_view(whens@);
    let mut i: usize = 0;
    while i < whens.len()
        invariant
            i <= whens.len(),
            views == whens_view(whens@),
            json_when_errors(views, 0, scope_view(scope@), shadowed.deep_view())
                == json_when_errors(views, i as int, scope_view(scope@), shadowed.deep_view()),
        decreases whens.len() - i,
    {
        assert(views[i as int] == (whens[i as int].0.deep_view(), whens[i as int].1.deep_view()));
        match check_expr_json_paths(&whens[i].0, scope, shadowed) {
            Some(message) => {
                return Some(message);
            },
            None => {},
        }
        match check_expr_json_paths(&whens[i].1, scope, shadowed) {
            Some(message) => {
                return Some(message);
            },
            None => {},
        }
        i = i + 1;
    }
    None
}

fn check_keys_json_paths(
    keys: &Vec<SortKey>,
    scope: &Vec<(String, TypeId)>,
    shadowed: &Vec<String>,
) -> (error: Option<String>)
    ensures
        error.deep_view() == json_key_errors(
            sort_keys_view(keys@),
            0,
            scope_view(scope@),
            shadowed.deep_view(),
        ),
    decreases keys,
{
    let ghost views = sort_keys_view(keys@);
    let mut i: usize = 0;
    while i < keys.len()
        invariant
            i <= keys.len(),
            views == sort_keys_view(keys@),
            json_key_errors(views, 0, scope_view(scope@), shadowed.deep_view())
                == json_key_errors(views, i as int, scope_view(scope@), shadowed.deep_view()),
        decreases keys.len() - i,
    {
        assert(views[i as int].expr == keys[i as int].expr.deep_view());
        match check_expr_json_paths(&keys[i].expr, scope, shadowed) {
            Some(message) => {
                return Some(message);
            },
            None => {},
        }
        i = i + 1;
    }
    None
}

/// Why the first mistyped JSON path of a plan is refused: the expressions of a
/// node come before those of its inputs.
pub open spec fn plan_json_error(
    plan: PlanView,
    scope: Seq<(Seq<char>, TypeId)>,
    shadowed: Seq<Seq<char>>,
) -> Option<Seq<char>>
    decreases plan,
{
    first_error(
        json_errors(node_exprs(plan), 0, scope, shadowed),
        match plan {
            PlanView::Filter { input, .. } => plan_json_error(*input, scope, shadowed),
            PlanView::Project { input, .. } => plan_json_error(*input, scope, shadowed),
            PlanView::NestedProject { input, .. } => plan_json_error(*input, scope, shadowed),
            PlanView::Sort { input, .. } => plan_json_error(*input, scope, shadowed),
            PlanView::Limit { input, .. } => plan_json_error(*input, scope, shadowed),
            PlanView::Offset { input, .. } => plan_json_error(*input, scope, shadowed),
            PlanView::Aggregate { input, .. } => plan_json_error(*input, scope, shadowed),
            PlanView::Distinct { input } => plan_json_error(*input, scope, shadowed),
            PlanView::GroupBy { input, .. } => plan_json_error(*input, scope, shadowed),
            PlanView::Window { input, .. } => plan_json_error(*input, scope, shadowed),
            PlanView::Update { input, .. } => plan_json_error(*input, scope, shadowed),
            PlanView::Delete { input, .. } => plan_json_error(*input, scope, shadowed),
            PlanView::Explain { input } => plan_json_error(*input, scope, shadowed),
            PlanView::NestedLoopJoin { left, right, .. } => first_error(
                plan_json_error(*left, scope, shadowed),
                plan_json_error(*right, scope, shadowed),
            ),
            PlanView::Union { left, right, .. } => first_error(
                plan_json_error(*left, scope, shadowed),
                plan_json_error(*right, scope, shadowed),
            ),
            _ => None,
        },
    )
}

fn check_refs_json_paths(
    exprs: &Vec<&Expr>,
    scope: &Vec<(String, TypeId)>,
    shadowed: &Vec<String>,
) -> (error: Option<String>)
    ensures
        error.deep_view() == json_errors(
            exprs.deep_view(),
            0,
            scope_view(scope@),
            shadowed.deep_view(),
        ),
{
    let ghost views = exprs.deep_view();
    let mut i: usize = 0;
    while i < exprs.len()
        invariant
            i <= exprs.len(),
            views == exprs.deep_view(),
            json_errors(views, 0, scope_view(scope@), shadowed.deep_view()) == json_errors(
                views,
                i as int,
                scope_view(scope@),
                shadowed.deep_view(),
            ),
        decreases exprs.len() - i,
    {
        assert(views[i as int] == exprs[i as int].deep_view());
        match check_expr_json_paths(exprs[i], scope, shadowed) {
            Some(message) => {
                return Some(message);
            },
            None => {},
        }
        i = i + 1;
    }
    None
}

fn check_plan_json_paths(
    plan: &PlanNode,
    scope: &Vec<(String, TypeId)>,
    shadowed: &Vec<String>,
) -> (error: Option<String>)
    ensures
        error.deep_view() == plan_json_error(
            plan.deep_view(),
            scope_view(scope@),
            shadowed.deep_view(),
        ),
    decreases plan,
{
    let exprs = plan_exprs(plan);
    match check_refs_json_paths(&exprs, scope, shadowed) {
        Some(message) => {
            return Some(message);
        },
        None => {},
    }
    match plan_input(plan) {
        Some(input) => check_plan_json_paths(input, scope, shadowed),
        None => match plan_sides(plan) {
            Some((left, right)) => {
                match check_plan_json_paths(left, scope, shadowed) {
                    Some(message) => Some(message),
                    None => check_plan_json_paths(right, scope, shadowed),
                }
            },
            None => None,
        },
    }
}

/// Why a plan's JSON paths are refused, in the scope of the plan's own scans.
pub open spec fn json_paths_error(catalog: CatalogView, plan: PlanView) -> Option<Seq<char>> {
    plan_json_error(plan, scan_columns(catalog, plan), plan_names(plan, false))
}

/// Refuse a plan with a JSON path that starts from a column of another type.
/// A name that a projection gives anew, that has no scan column or that has
/// columns of several types is left alone.
pub fn validate_json_path_types(catalog: &Catalog, plan: &PlanNode) -> (checked: Result<
    (),
    QueryError,
>)
    ensures
        match checked {
            Ok(_) => json_paths_error(catalog.deep_view(), plan.deep_view()) is None,
            Err(error) => json_paths_error(catalog.deep_view(), plan.deep_view()) matches Some(m)
                && error.deep_view() == ErrorView::TypeError(m),
        },
{
    let mut scope: Vec<(String, TypeId)> = Vec::new();
    collect_scan_columns(catalog, plan, &mut scope);
    assert(scope_view(scope@) =~= scan_columns(catalog.deep_view(), plan.deep_view()));
    let mut shadowed: Vec<String> = Vec::new();
    collect_projected_names(plan, &mut shadowed);
    assert(shadowed.deep_view() =~= plan_names(plan.deep_view(), false));
    match check_plan_json_paths(plan, &scope, &shadowed) {
        Some(message) => Err(QueryError::TypeError(message)),
        None => Ok(()),
    }
}

} // verus!
