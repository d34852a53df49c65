//! Checks of a plan before any row is read.

use vstd::prelude::*;

use crate::catalog::{Catalog, CatalogView};
use crate::error::{ErrorView, QueryError};
use crate::expr::{exprs_view, sort_keys_view, whens_view, Expr, ExprView, SortKey, SortKeyView};
use crate::plan::{NestedProjectField, NestedProjectFieldView, PlanNode, PlanView, ProjectFieldView};
use crate::text::position;
use crate::window::WindowDefView;

verus! {

// ---------------------------------------------------------------------------
// Aggregates in positions that cannot evaluate them.

/// An aggregate call stands somewhere in the expression. A subquery is not
/// looked into, only its operand.
pub open spec fn carries_aggregate(expr: ExprView) -> bool
    decreases expr, 0int,
{
    match expr {
        ExprView::FunctionCall(_, _, _) => true,
        ExprView::BinaryOp(l, _, r) => carries_aggregate(*l) || carries_aggregate(*r),
        ExprView::Coalesce(l, r) => carries_aggregate(*l) || carries_aggregate(*r),
        ExprView::UnaryOp(_, inner) => carries_aggregate(*inner),
        ExprView::Cast(inner, _) => carries_aggregate(*inner),
        ExprView::JsonPath { base, .. } => carries_aggregate(*base),
        ExprView::ScalarFunc(_, args) => any_carries(args, 0),
        ExprView::InList { expr, list, .. } => carries_aggregate(*expr) || any_carries(list, 0),
        ExprView::InSubquery { expr, .. } => carries_aggregate(*expr),
        ExprView::Case { whens, else_expr } => any_when_carries(whens, 0) || match else_expr {
            Some(e) => carries_aggregate(*e),
            None => false,
        },
        ExprView::Window { args, partition_by, order_by, .. } => any_carries(args, 0)
            || any_carries(partition_by, 0) || any_key_carries(order_by, 0),
        _ => false,
    }
}

/// One of the expressions from `i` on carries an aggregate.
pub open spec fn any_carries(exprs: Seq<ExprView>, i: int) -> bool
    decreases exprs, exprs.len() - i,
{
    0 <= i < exprs.len() && (carries_aggregate(exprs[i]) || any_carries(exprs, i + 1))
}

/// One of the arms from `i` on carries an aggregate.
pub open spec fn any_when_carries(whens: Seq<(ExprView, ExprView)>, i: int) -> bool
    decreases whens, whens.len() - i,
{
    0 <= i < whens.len() && (carries_aggregate(whens[i].0) || carries_aggregate(whens[i].1)
        || any_when_carries(whens, i + 1))
}

/// One of the keys from `i` on carries an aggregate.
pub open spec fn any_key_carries(keys: Seq<SortKeyView>, i: int) -> bool
    decreases keys, keys.len() - i,
{
    0 <= i < keys.len() && (carries_aggregate(keys[i].expr) || any_key_carries(keys, i + 1))
}

/// Whether an aggregate call stands somewhere in the expression.
pub fn expr_carries_aggregate(expr: &Expr) -> (carries: bool)
    ensures
        carries == carries_aggregate(expr.deep_view()),
    decreases expr,
{
    match expr {
        Expr::FunctionCall(_, _, _) => true,
        Expr::BinaryOp(l, _, r) => expr_carries_aggregate(l) || expr_carries_aggregate(r),
        Expr::Coalesce(l, r) => expr_carries_aggregate(l) || expr_carries_aggregate(r),
        Expr::UnaryOp(_, inner) => expr_carries_aggregate(inner),
        Expr::Cast(inner, _) => expr_carries_aggregate(inner),
        Expr::JsonPath { base, .. } => expr_carries_aggregate(base),
        Expr::ScalarFunc(_, args) => exprs_carry_aggregate(args),
        Expr::InList { expr, list, .. } => expr_carries_aggregate(expr) || exprs_carry_aggregate(
            list,
        ),
        Expr::InSubquery { expr, .. } => expr_carries_aggregate(expr),
        Expr::Case { whens, else_expr } => {
            if whens_carry_aggregate(whens) {
                return true;
            }
            match else_expr {
                Some(e) => expr_carries_aggregate(e),
                None => false,
            }
        },
        Expr::Window { args, partition_by, order_by, .. } => exprs_carry_aggregate(args)
            || exprs_carry_aggregate(partition_by) || keys_carry_aggregate(order_by),
        _ => false,
    }
}

fn exprs_carry_aggregate(exprs: &Vec<Expr>) -> (carry: bool)
    ensures
        carry == any_carries(exprs_view(exprs@), 0),
    decreases exprs,
{
    let ghost views = exprs_view(exprs@);
    let mut i: usize = 0;
    while i < exprs.len()
        invariant
            i <= exprs.len(),
            views == exprs_view(exprs@),
            any_carries(views, 0) == any_carries(views, i as int),
        decreases exprs.len() - i,
    {
        assert(views[i as int] == exprs[i as int].deep_view());
        if expr_carries_aggregate(&exprs[i]) {
            return true;
        }
        i = i + 1;
    }
    false
}

fn whens_carry_aggregate(whens: &Vec<(Box<Expr>, Box<Expr>)>) -> (carry: bool)
    ensures
        carry == any_when_carries(whens_view(whens@), 0),
    decreases whens,
{
    let ghost views = whens_view(whens@);
    let mut i: usize = 0;
    while i < whens.len()
        invariant
            i <= whens.len(),
            views == whens_view(whens@),
            any_when_carries(views, 0) == any_when_carries(views, i as int),
        decreases whens.len() - i,
    {
        assert(views[i as int] == (whens[i as int].0.deep_view(), whens[i as int].1.deep_view()));
        if expr_carries_aggregate(&whens[i].0) || expr_carries_aggregate(&whens[i].1) {
            return true;
        }
        i = i + 1;
    }
    false
}

fn keys_carry_aggregate(keys: &Vec<SortKey>) -> (carry: bool)
    ensures
        carry == any_key_carries(sort_keys_view(keys@), 0),
    decreases keys,
{
    let ghost views = sort_keys_view(keys@);
    let mut i: usize = 0;
    while i < keys.len()
        invariant
            i <= keys.len(),
            views == sort_keys_view(keys@),
            any_key_carries(views, 0) == any_key_carries(views, i as int),
        decreases keys.len() - i,
    {
        assert(views[i as int].expr == keys[i as int].expr.deep_view());
        if expr_carries_aggregate(&keys[i].expr) {
            return true;
        }
        i = i + 1;
    }
    false
}

// ---------------------------------------------------------------------------
// The expressions of a plan node, in the order in which they are checked.

/// The fields' expressions.
pub open spec fn field_exprs(fields: Seq<ProjectFieldView>) -> Seq<ExprView> {
    Seq::new(fields.len(), |i: int| fields[i].expr)
}

/// The plain fields' expressions from `i` on.
pub open spec fn plain_exprs(fields: Seq<NestedProjectFieldView>, i: int) -> Seq<ExprView>
    decreases fields.len() - i,
{
    if i < 0 || i >= fields.len() {
        Seq::empty()
    } else {
        match fields[i] {
            NestedProjectFieldView::Plain(field) => seq![field.expr] + plain_exprs(fields, i + 1),
            _ => plain_exprs(fields, i + 1),
        }
    }
}

/// The expressions of the windows from `i` on: arguments, partition keys and
/// order keys of each.
pub open spec fn window_exprs(windows: Seq<WindowDefView>, i: int) -> Seq<ExprView>
    decreases windows.len() - i,
{
    if i < 0 || i >= windows.len() {
        Seq::empty()
    } else {
        windows[i].args + windows[i].partition_by + Seq::new(
            windows[i].order_by.len(),
            |k: int| windows[i].order_by[k].expr,
        ) + window_exprs(windows, i + 1)
    }
}

/// The expression, if there is one.
pub open spec fn opt_expr(expr: Option<ExprView>) -> Seq<ExprView> {
    match expr {
        Some(e) => seq![e],
        None => Seq::empty(),
    }
}

/// The expressions that a node evaluates on the rows of its input.
pub open spec fn node_exprs(plan: PlanView) -> Seq<ExprView> {
    match plan {
        PlanView::Filter { predicate, .. } => seq![predicate],
        PlanView::Project { fields, .. } => field_exprs(fields),
        PlanView::NestedProject { fields, .. } => plain_exprs(fields, 0),
        PlanView::GroupBy { keys, aggregates, having, .. } => Seq::new(
            keys.len(),
            |i: int| keys[i].expr,
        ) + Seq::new(aggregates.len(), |i: int| aggregates[i].argument) + opt_expr(having),
        PlanView::NestedLoopJoin { on, .. } => opt_expr(on),
        PlanView::Sort { keys, .. } => Seq::new(keys.len(), |i: int| keys[i].expr),
        PlanView::Aggregate { argument, .. } => opt_expr(argument),
        PlanView::Window { windows, .. } => window_exprs(windows, 0),
        _ => Seq::empty(),
    }
}

/// The one input that a node reads, if it reads one.
pub open spec fn node_input(plan: PlanView) -> Option<PlanView> {
    match plan {
        PlanView::Filter { input, .. } => Some(*input),
        PlanView::Project { input, .. } => Some(*input),
        PlanView::NestedProject { input, .. } => Some(*input),
        PlanView::Sort { input, .. } => Some(*input),
        PlanView::Limit { input, .. } => Some(*input),
        PlanView::Offset { input, .. } => Some(*input),
        PlanView::Aggregate { input, .. } => Some(*input),
        PlanView::Distinct { input } => Some(*input),
        PlanView::GroupBy { input, .. } => Some(*input),
        PlanView::Window { input, .. } => Some(*input),
        PlanView::Update { input, .. } => Some(*input),
        PlanView::Delete { input, .. } => Some(*input),
        PlanView::Explain { input } => Some(*input),
        _ => None,
    }
}

/// The two inputs that a node reads, if it reads two.
pub open spec fn node_sides(plan: PlanView) -> Option<(PlanView, PlanView)> {
    match plan {
        PlanView::NestedLoopJoin { left, right, .. } => Some((*left, *right)),
        PlanView::Union { left, right, .. } => Some((*left, *right)),
        _ => None,
    }
}

/// The expressions that a node evaluates on the rows of its input.
pub fn plan_exprs(plan: &PlanNode) -> (exprs: Vec<&Expr>)
    ensures
        exprs.deep_view() == node_exprs(plan.deep_view()),
{
    let mut exprs: Vec<&Expr> = Vec::new();
    match plan {
        PlanNode::Filter { predicate, .. } => {
            exprs.push(predicate);
        },
        PlanNode::Project { fields, .. } => {
            let mut i: usize = 0;
            while i < fields.len()
                invariant
                    i <= fields.len(),
                    exprs.len() == i,
                    forall|j: int|
                        0 <= j < i ==> (#[trigger] exprs[j]).deep_view() == fields[j].expr.deep_view(),
                decreases fields.len() - i,
            {
                exprs.push(&fields[i].expr);
                i = i + 1;
            }
            assert(exprs.deep_view() =~= field_exprs(fields.deep_view()));
        },
        PlanNode::NestedProject { fields, .. } => {
            let ghost views = fields.deep_view();
            let mut i: usize = 0;
            assert(exprs.deep_view() + plain_exprs(views, 0) =~= plain_exprs(views, 0));
            while i < fields.len()
                invariant
                    i <= fields.len(),
                    views == fields.deep_view(),
                    exprs.deep_view() + plain_exprs(views, i as int) == plain_exprs(views, 0),
                decreases fields.len() - i,
            {
                let ghost before = exprs.deep_view();
                assert(views[i as int] == fields[i as int].deep_view());
                match &fields[i] {
                    NestedProjectField::Plain(field) => {
                        exprs.push(&field.expr);
                        assert(exprs.deep_view() =~= before.push(field.expr.deep_view()));
                        assert(exprs.deep_view() + plain_exprs(views, i + 1) =~= before
                            + plain_exprs(views, i as int));
                    },
                    _ => {},
                }
                i = i + 1;
            }
            assert(exprs.deep_view() =~= plain_exprs(views, 0));
        },
        PlanNode::GroupBy { keys, aggregates, having, .. } => {
            let ghost kv = Seq::new(keys.deep_view().len(), |i: int| keys.deep_view()[i].expr);
            let ghost av = Seq::new(
                aggregates.deep_view().len(),
                |i: int| aggregates.deep_view()[i].argument,
            );
            let mut i: usize = 0;
            while i < keys.len()
                invariant
                    i <= keys.len(),
                    exprs.len() == i,
                    forall|j: int|
                        0 <= j < i ==> (#[trigger] exprs[j]).deep_view() == keys[j].expr.deep_view(),
                decreases keys.len() - i,
            {
                exprs.push(&keys[i].expr);
                i = i + 1;
            }
            assert(exprs.deep_view() =~= kv);
            i = 0;
            assert(exprs.deep_view() =~= kv + av.take(0));
            while i < aggregates.len()
                invariant
                    i <= aggregates.len(),
                    av == Seq::new(
                        aggregates.deep_view().len(),
                        |i: int| aggregates.deep_view()[i].argument,
                    ),
                    exprs.deep_view() == kv + av.take(i as int),
                decreases aggregates.len() - i,
            {
                let ghost before = exprs.deep_view();
                exprs.push(&aggregates[i].argument);
                assert(exprs.deep_view() =~= before.push(av[i as int]));
                assert(exprs.deep_view() =~= kv + av.take(i + 1));
                i = i + 1;
            }
            assert(av.take(aggregates.len() as int) =~= av);
            match having {
                Some(h) => {
                    let ghost before = exprs.deep_view();
                    exprs.push(h);
                    assert(exprs.deep_view() =~= before.push(h.deep_view()));
                },
                None => {},
            }
            assert(exprs.deep_view() =~= kv + av + opt_expr(having.deep_view()));
        },
        PlanNode::NestedLoopJoin { on, .. } => {
            match on {
                Some(pred) => {
                    exprs.push(pred);
                },
                None => {},
            }
        },
        PlanNode::Sort { keys, .. } => {
            let ghost views = sort_keys_view(keys@);
            let mut i: usize = 0;
            while i < keys.len()
                invariant
                    i <= keys.len(),
                    exprs.len() == i,
                    forall|j: int|
                        0 <= j < i ==> (#[trigger] exprs[j]).deep_view() == keys[j].expr.deep_view(),
                decreases keys.len() - i,
            {
                exprs.push(&keys[i].expr);
                i = i + 1;
            }
            assert(exprs.deep_view() =~= Seq::new(views.len(), |i: int| views[i].expr));
        },
        PlanNode::Aggregate { argument, .. } => {
            match argument {
                Some(arg) => {
                    exprs.push(arg);
                },
                None => {},
            }
        },
        PlanNode::Window { windows, .. } => {
            let ghost views = windows.deep_view();
            let mut i: usize = 0;
            assert(exprs.deep_view() + window_exprs(views, 0) =~= window_exprs(views, 0));
            while i < windows.len()
                invariant
                    i <= windows.len(),
                    views == windows.deep_view(),
                    exprs.deep_view() + window_exprs(views, i as int) == window_exprs(views, 0),
                decreases windows.len() - i,
            {
                let ghost before = exprs.deep_view();
                assert(views[i as int] == windows[i as int].deep_view());
                push_exprs(&mut exprs, &windows[i].args);
                push_exprs(&mut exprs, &windows[i].partition_by);
                push_key_exprs(&mut exprs, &windows[i].order_by);
                assert(exprs.deep_view() + window_exprs(views, i + 1) =~= before + window_exprs(
                    views,
                    i as int,
                ));
                i = i + 1;
            }
            assert(exprs.deep_view() =~= window_exprs(views, 0));
        },
        _ => {},
    }
    assert(exprs.deep_view() =~= node_exprs(plan.deep_view()));
    exprs
}

fn push_exprs<'a>(out: &mut Vec<&'a Expr>, exprs: &'a Vec<Expr>)
    ensures
        final(out).deep_view() == old(out).deep_view() + exprs_view(exprs@),
{
    let ghost views = exprs_view(exprs@);
    let ghost before = out.deep_view();
    let mut i: usize = 0;
    assert(before =~= before + views.take(0));
    while i < exprs.len()
        invariant
            i <= exprs.len(),
            views == exprs_view(exprs@),
            out.deep_view() == before + views.take(i as int),
        decreases exprs.len() - i,
    {
        let ghost held = out.deep_view();
        out.push(&exprs[i]);
        assert(out.deep_view() =~= held.push(views[i as int]));
        assert(out.deep_view() =~= before + views.take(i + 1));
        i = i + 1;
    }
    assert(views.take(exprs.len() as int) =~= views);
}

fn push_key_exprs<'a>(out: &mut Vec<&'a Expr>, keys: &'a Vec<SortKey>)
    ensures
        final(out).deep_view() == old(out).deep_view() + Seq::new(
            sort_keys_view(keys@).len(),
            |k: int| sort_keys_view(keys@)[k].expr,
        ),
{
    let ghost views = Seq::new(
        sort_keys_view(keys@).len(),
        |k: int| sort_keys_view(keys@)[k].expr,
    );
    let ghost before = out.deep_view();
    let mut i: usize = 0;
    assert(before =~= before + views.take(0));
    while i < keys.len()
        invariant
            i <= keys.len(),
            views == Seq::new(
                sort_keys_view(keys@).len(),
                |k: int| sort_keys_view(keys@)[k].expr,
            ),
            out.deep_view() == before + views.take(i as int),
        decreases keys.len() - i,
    {
        let ghost held = out.deep_view();
        out.push(&keys[i].expr);
        assert(out.deep_view() =~= held.push(views[i as int]));
        assert(out.deep_view() =~= before + views.take(i + 1));
        i = i + 1;
    }
    assert(views.take(keys.len() as int) =~= views);
}

/// The one input that a node reads, if it reads one.
pub fn plan_input(plan: &PlanNode) -> (input: Option<&PlanNode>)
    ensures
        input.deep_view() == node_input(plan.deep_view()),
        input matches Some(p) ==> decreases_to!(*plan => *p),
{
    match plan {
        PlanNode::Filter { input, .. } => Some(input),
        PlanNode::Project { input, .. } => Some(input),
        PlanNode::NestedProject { input, .. } => Some(input),
        PlanNode::Sort { input, .. } => Some(input),
        PlanNode::Limit { input, .. } => Some(input),
        PlanNode::Offset { input, .. } => Some(input),
        PlanNode::Aggregate { input, .. } => Some(input),
        PlanNode::Distinct { input } => Some(input),
        PlanNode::GroupBy { input, .. } => Some(input),
        PlanNode::Window { input, .. } => Some(input),
        PlanNode::Update { input, .. } => Some(input),
        PlanNode::Delete { input, .. } => Some(input),
        PlanNode::Explain { input } => Some(input),
        _ => None,
    }
}

/// The two inputs that a node reads, if it reads two.
pub fn plan_sides(plan: &PlanNode) -> (sides: Option<(&PlanNode, &PlanNode)>)
    ensures
        match sides {
            Some((l, r)) => node_sides(plan.deep_view()) == Some((l.deep_view(), r.deep_view())),
            None => node_sides(plan.deep_view()) is None,
        },
        sides matches Some((l, r)) ==> decreases_to!(*plan => *l) && decreases_to!(*plan => *r),
{
    match plan {
        PlanNode::NestedLoopJoin { left, right, .. } => Some((left, right)),
        PlanNode::Union { left, right, .. } => Some((left, right)),
        _ => None,
    }
}

/// An aggregate call stands in an expression that some node of the plan
/// evaluates.
pub open spec fn stray_aggregate(plan: PlanView) -> bool
    decreases plan,
{
    any_carries(node_exprs(plan), 0) || match plan {
        PlanView::Filter { input, .. } => stray_aggregate(*input),
        PlanView::Project { input, .. } => stray_aggregate(*input),
        PlanView::NestedProject { input, .. } => stray_aggregate(*input),
        PlanView::Sort { input, .. } => stray_aggregate(*input),
        PlanView::Limit { input, .. } => stray_aggregate(*input),
        PlanView::Offset { input, .. } => stray_aggregate(*input),
        PlanView::Aggregate { input, .. } => stray_aggregate(*input),
        PlanView::Distinct { input } => stray_aggregate(*input),
        PlanView::GroupBy { input, .. } => stray_aggregate(*input),
        PlanView::Window { input, .. } => stray_aggregate(*input),
        PlanView::Update { input, .. } => stray_aggregate(*input),
        PlanView::Delete { input, .. } => stray_aggregate(*input),
        PlanView::Explain { input } => stray_aggregate(*input),
        PlanView::NestedLoopJoin { left, right, .. } => stray_aggregate(*left) || stray_aggregate(
            *right,
        ),
        PlanView::Union { left, right, .. } => stray_aggregate(*left) || stray_aggregate(*right),
        _ => false,
    }
}

fn refs_carry_aggregate(exprs: &Vec<&Expr>) -> (carry: bool)
    ensures
        carry == any_carries(exprs.deep_view(), 0),
{
    let ghost views = exprs.deep_view();
    let mut i: usize = 0;
    while i < exprs.len()
        invariant
            i <= exprs.len(),
            views == exprs.deep_view(),
            any_carries(views, 0) == any_carries(views, i as int),
        decreases exprs.len() - i,
    {
        assert(views[i as int] == exprs[i as int].deep_view());
        if expr_carries_aggregate(exprs[i]) {
            return true;
        }
        i = i + 1;
    }
    false
}

fn has_stray_aggregate(plan: &PlanNode) -> (stray: bool)
    ensures
        stray == stray_aggregate(plan.deep_view()),
    decreases plan,
{
    let exprs = plan_exprs(plan);
    if refs_carry_aggregate(&exprs) {
        return true;
    }
    match plan_input(plan) {
        Some(input) => has_stray_aggregate(input),
        None => match plan_sides(plan) {
            Some((left, right)) => has_stray_aggregate(left) || has_stray_aggregate(right),
            None => false,
        },
    }
}

/// The error for an aggregate that cannot be evaluated where it stands.
pub open spec fn stray_aggregate_error() -> ErrorView {
    ErrorView::Execution("invalid query: aggregate function in an unsupported position"@)
}

/// Refuse a plan with an aggregate call in an expression that is evaluated row
/// by row.
pub fn validate_no_stray_aggregates(plan: &PlanNode) -> (checked: Result<(), QueryError>)
    ensures
        match checked {
            Ok(_) => !stray_aggregate(plan.deep_view()),
            Err(error) => stray_aggregate(plan.deep_view()) && error.deep_view()
                == stray_aggregate_error(),
        },
{
    if has_stray_aggregate(plan) {
        Err(QueryError::execution("invalid query: aggregate function in an unsupported position"))
    } else {
        Ok(())
    }
}

// ---------------------------------------------------------------------------
// The check of the embedding program.

/// Why a plan over these tables is refused; nothing where it is not.
pub type CheckModel = spec_fn(CatalogView, PlanView) -> Option<ErrorView>;

/// The check of plans that are ready to run, as the embedding program supplies
/// it, with the function that it computes.
pub struct PlanCheck<V> {
    pub run: V,
    pub model: Ghost<CheckModel>,
}

/// `run` returns, and refuses what `model` refuses with the error that it says.
pub open spec fn checks_as<V: Fn(&Catalog, &PlanNode) -> Result<(), QueryError>>(
    run: V,
    model: CheckModel,
) -> bool {
    &&& forall|catalog: &Catalog, plan: &PlanNode| #[trigger] call_requires(run, (catalog, plan))
    &&& forall|catalog: &Catalog, plan: &PlanNode, result: Result<(), QueryError>| #[trigger]
        call_ensures(run, (catalog, plan), result) ==> model(catalog.deep_view(), plan.deep_view())
            == (match result {
            Ok(_) => None,
            Err(error) => Some(error.deep_view()),
        })
}

impl<V: Fn(&Catalog, &PlanNode) -> Result<(), QueryError>> PlanCheck<V> {
    /// The check is total and a function of what its arguments hold.
    pub open spec fn ok(&self) -> bool {
        checks_as(self.run, self.model@)
    }

    /// A check that is a function of what its arguments hold.
    pub fn new(run: V) -> (check: Self)
        requires
            exists|model: CheckModel| #[trigger] checks_as(run, model),
        ensures
            check.ok(),
            check.run == run,
    {
        let ghost model = choose|model: CheckModel| #[trigger] checks_as(run, model);
        PlanCheck { run, model: Ghost(model) }
    }

    /// A check, together with what it computes.
    pub fn with_model(run: V, model: Ghost<CheckModel>) -> (check: Self)
        requires
            checks_as(run, model@),
        ensures
            check.ok(),
            check.run == run,
            check.model@ == model@,
    {
        PlanCheck { run, model }
    }

    /// Refuse a plan that the check refuses.
    pub fn validate(&self, catalog: &Catalog, plan: &PlanNode) -> (checked: Result<(), QueryError>)
        requires
            self.ok(),
        ensures
            (self.model@)(catalog.deep_view(), plan.deep_view()) == (match checked {
                Ok(_) => None,
                Err(error) => Some(error.deep_view()),
            }),
    {
        (self.run)(catalog, plan)
    }
}

} // verus!
