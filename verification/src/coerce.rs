//! Typed literals.
//!
//! A `datetime`, `uuid` or `bytes` value has no literal of its own: a query
//! spells it as a string. Before a plan runs, every literal that is compared
//! with a column of such a type is rewritten into a value of that type, or
//! refused.

use vstd::prelude::*;

use crate::catalog::{Catalog, CatalogView, ColumnDef, ColumnDefView};
use crate::error::{outcome, ErrorView, QueryError};
use crate::expr::{
    clone_expr, exprs_view, sort_keys_view, whens_view, BinOp, Expr, ExprView, Literal,
    LiteralView, SortKey, SortKeyView,
};
use crate::group::{
    agg_expr_refs, agg_exprs, key_expr_refs, key_exprs, GroupAgg, GroupAggView, GroupKey,
    GroupKeyView,
};
use crate::plan::{
    clone_all, clone_opt_text, clone_plan, PlanNode, PlanView, ProjectField, ProjectFieldView,
};
use crate::scope::{
    collect_rebound_names, collect_scan_columns, expr_reference_name, plan_names,
    reference_name, resolve_scan_type, scan_columns, scan_type, scope_view,
};
use crate::seqs::name_position;
use crate::text::position;
use crate::validate::{field_exprs, plan_exprs};
use crate::value::{TypeId, Value, ValueView};
use crate::window::{order_exprs, sort_key_refs};

verus! {

/// How a column takes a value: the value as the column stores it, or why not.
pub type CoerceModel = spec_fn(ValueView, ColumnDefView) -> Result<ValueView, Seq<char>>;

/// The way in which a column takes a value, as the embedding program supplies
/// it, with the function that it computes.
pub struct Coercion<K> {
    pub run: K,
    pub model: Ghost<CoerceModel>,
}

/// `run` returns, and returns what `model` says.
pub open spec fn coerces_as<K: Fn(&Value, &ColumnDef) -> Result<Value, String>>(
    run: K,
    model: CoerceModel,
) -> bool {
    &&& forall|value: &Value, column: &ColumnDef| #[trigger] call_requires(run, (value, column))
    &&& forall|value: &Value, column: &ColumnDef, result: Result<Value, String>| #[trigger]
        call_ensures(run, (value, column), result) ==> match result {
            Ok(v) => model(value.deep_view(), column.deep_view()) == Ok::<ValueView, Seq<char>>(
                v.deep_view(),
            ),
            Err(m) => model(value.deep_view(), column.deep_view()) == Err::<ValueView, Seq<char>>(
                m@,
            ),
        }
}

impl<K: Fn(&Value, &ColumnDef) -> Result<Value, String>> Coercion<K> {
    /// The coercion is total and a function of what its arguments hold.
    pub open spec fn ok(&self) -> bool {
        coerces_as(self.run, self.model@)
    }

    /// A coercion that is a function of what its arguments hold.
    pub fn new(run: K) -> (coercion: Self)
        requires
            exists|model: CoerceModel| #[trigger] coerces_as(run, model),
        ensures
            coercion.ok(),
            coercion.run == run,
    {
        let ghost model = choose|model: CoerceModel| #[trigger] coerces_as(run, model);
        Coercion { run, model: Ghost(model) }
    }

    /// A coercion, together with what it computes.
    pub fn with_model(run: K, model: Ghost<CoerceModel>) -> (coercion: Self)
        requires
            coerces_as(run, model@),
        ensures
            coercion.ok(),
            coercion.run == run,
            coercion.model@ == model@,
    {
        Coercion { run, model }
    }

    /// The value as the column stores it.
    pub fn coerce_value(&self, value: &Value, column: &ColumnDef) -> (result: Result<
        Value,
        QueryError,
    >)
        requires
            self.ok(),
        ensures
            outcome(result) == coerced_value(
                self.model@,
                value.deep_view(),
                column.deep_view(),
            ),
    {
        match (self.run)(value, column) {
            Ok(value) => Ok(value),
            Err(message) => Err(QueryError::Execution(message)),
        }
    }
}

/// The value as the column stores it, or an execution error.
pub open spec fn coerced_value(
    model: CoerceModel,
    value: ValueView,
    column: ColumnDefView,
) -> Result<ValueView, ErrorView> {
    match model(value, column) {
        Ok(v) => Ok(v),
        Err(m) => Err(ErrorView::Execution(m)),
    }
}

/// The types whose literals are spelled as strings.
pub open spec fn string_spelled(type_id: TypeId) -> bool {
    type_id == TypeId::DateTime || type_id == TypeId::Uuid || type_id == TypeId::Bytes
}

/// Whether literals of this type are spelled as strings.
pub fn is_string_spelled(type_id: TypeId) -> (spelled: bool)
    ensures
        spelled == string_spelled(type_id),
{
    matches!(type_id, TypeId::DateTime | TypeId::Uuid | TypeId::Bytes)
}

/// The value that a literal denotes.
pub open spec fn literal_value(literal: LiteralView) -> ValueView {
    match literal {
        LiteralView::Int(n) => ValueView::Int(n),
        LiteralView::Float(bits) => ValueView::Float(bits),
        LiteralView::Bool(b) => ValueView::Bool(b),
        LiteralView::String(s) => ValueView::Str(s),
    }
}

/// The value that a literal denotes.
pub fn value_of_literal(literal: &Literal) -> (value: Value)
    ensures
        value.deep_view() == literal_value(literal.deep_view()),
{
    match literal {
        Literal::Int(n) => Value::Int(*n),
        Literal::Float(bits) => Value::Float(*bits),
        Literal::Bool(b) => Value::Bool(*b),
        Literal::String(s) => Value::Str(s.clone()),
    }
}

/// What stands for `literal` where a column of type `type_id` is meant: an
/// integer stays as it is against a `datetime`, anything else becomes a value of
/// the column.
pub open spec fn coerced_literal(
    model: CoerceModel,
    name: Seq<char>,
    type_id: TypeId,
    literal: LiteralView,
) -> Result<ExprView, ErrorView> {
    if type_id == TypeId::DateTime && literal is Int {
        Ok(ExprView::Literal(literal))
    } else {
        match coerced_value(
            model,
            literal_value(literal),
            (ColumnDefView { name, type_id, required: false, position: 0 }),
        ) {
            Ok(v) => Ok(ExprView::ValueLit(v)),
            Err(e) => Err(e),
        }
    }
}

/// Coerce a literal to the type of the column that it is compared with.
pub fn coerce_literal<K: Fn(&Value, &ColumnDef) -> Result<Value, String>>(
    coercion: &Coercion<K>,
    name: &String,
    type_id: TypeId,
    literal: &Literal,
) -> (result: Result<Expr, QueryError>)
    requires
        coercion.ok(),
    ensures
        outcome(result) == coerced_literal(
            coercion.model@,
            name@,
            type_id,
            literal.deep_view(),
        ),
{
    if type_id == TypeId::DateTime && matches!(literal, Literal::Int(_)) {
        return Ok(Expr::Literal(literal.clone()));
    }
    let column = ColumnDef { name: name.clone(), type_id, required: false, position: 0 };
    let value = value_of_literal(literal);
    match coercion.coerce_value(&value, &column) {
        Ok(value) => Ok(Expr::ValueLit(value)),
        Err(error) => Err(error),
    }
}

/// The operators whose operands must agree in type. The pattern of `like` is no
/// value of the column's type.
pub open spec fn typed_comparison(op: BinOp) -> bool {
    op == BinOp::Eq || op == BinOp::Neq || op == BinOp::Lt || op == BinOp::Gt || op == BinOp::Lte
        || op == BinOp::Gte
}

/// Whether the operands of `op` must agree in type.
pub fn is_typed_comparison(op: BinOp) -> (typed: bool)
    ensures
        typed == typed_comparison(op),
{
    matches!(op, BinOp::Eq | BinOp::Neq | BinOp::Lt | BinOp::Gt | BinOp::Lte | BinOp::Gte)
}

/// What a rewrite of literals rests on: the columns in scope, and the names that
/// no longer denote them.
pub struct TypedScopeView {
    pub catalog: CatalogView,
    pub model: CoerceModel,
    pub scope: Seq<(Seq<char>, TypeId)>,
    pub rebound: Seq<Seq<char>>,
}

/// What a rewrite of literals rests on.
pub struct TypedScope<'a, K> {
    pub catalog: &'a Catalog,
    pub coercion: &'a Coercion<K>,
    pub scope: Vec<(String, TypeId)>,
    pub rebound: Vec<String>,
}

impl TypedScopeView {
    /// The column that an expression refers to, where its type is spelled as a
    /// string and no projection gives its name to something else.
    pub open spec fn typed_column(self, expr: ExprView) -> Option<(Seq<char>, TypeId)> {
        match reference_name(expr) {
            None => None,
            Some(name) => if name_position(self.rebound, name) is Some {
                None
            } else {
                match scan_type(name, self.scope) {
                    Some(t) => if string_spelled(t) {
                        Some((name, t))
                    } else {
                        None
                    },
                    None => None,
                }
            },
        }
    }

    /// The literal of a comparison, coerced to the column that stands across.
    pub open spec fn coerced_operand(self, column: ExprView, operand: ExprView) -> Option<
        Result<ExprView, ErrorView>,
    > {
        match (self.typed_column(column), operand) {
            (Some((name, t)), ExprView::Literal(literal)) => Some(
                coerced_literal(self.model, name, t, literal),
            ),
            _ => None,
        }
    }
}

impl<'a, K: Fn(&Value, &ColumnDef) -> Result<Value, String>> TypedScope<'a, K> {
    pub open spec fn ok(&self) -> bool {
        self.coercion.ok()
    }

    pub open spec fn shown(&self) -> TypedScopeView {
        TypedScopeView {
            catalog: self.catalog.deep_view(),
            model: self.coercion.model@,
            scope: scope_view(self.scope@),
            rebound: self.rebound.deep_view(),
        }
    }

    /// The column that an expression refers to, where its literals need
    /// rewriting.
    pub fn typed_column(&self, expr: &Expr) -> (column: Option<(String, TypeId)>)
        ensures
            match column {
                Some((name, t)) => self.shown().typed_column(expr.deep_view()) == Some((name@, t)),
                None => self.shown().typed_column(expr.deep_view()) is None,
            },
    {
        let name = match expr_reference_name(expr) {
            Some(name) => name,
            None => {
                return None;
            },
        };
        if position(&self.rebound, &name).is_some() {
            return None;
        }
        match resolve_scan_type(&name, &self.scope) {
            Some(t) => {
                if is_string_spelled(t) {
                    Some((name, t))
                } else {
                    None
                }
            },
            None => None,
        }
    }

    fn coerce_operand(&self, column: &Expr, operand: &Expr) -> (result: Option<
        Result<Expr, QueryError>,
    >)
        requires
            self.ok(),
        ensures
            match result {
                Some(r) => self.shown().coerced_operand(column.deep_view(), operand.deep_view())
                    == Some(outcome(r)),
                None => self.shown().coerced_operand(
                    column.deep_view(),
                    operand.deep_view(),
                ) is None,
            },
    {
        match operand {
            Expr::Literal(literal) => match self.typed_column(column) {
                Some((name, t)) => Some(coerce_literal(self.coercion, &name, t, literal)),
                None => None,
            },
            _ => None,
        }
    }
}

/// A list that begins with `head` and goes on as `rest`.
pub open spec fn prefixed<T>(head: Seq<T>, rest: Result<Seq<T>, ErrorView>) -> Result<
    Seq<T>,
    ErrorView,
> {
    match rest {
        Ok(rest) => Ok(head + rest),
        Err(e) => Err(e),
    }
}

/// Both results, or the first error.
pub open spec fn both<A, B>(a: Result<A, ErrorView>, b: Result<B, ErrorView>) -> Result<
    (A, B),
    ErrorView,
> {
    match a {
        Err(e) => Err(e),
        Ok(x) => match b {
            Err(e) => Err(e),
            Ok(y) => Ok((x, y)),
        },
    }
}

/// An expression with its typed literals coerced.
pub open spec fn coerced_expr(cx: TypedScopeView, expr: ExprView) -> Result<ExprView, ErrorView>
    decreases expr, 0int,
{
    match expr {
        ExprView::BinaryOp(left, op, right) => {
            let plain = match both(coerced_expr(cx, *left), coerced_expr(cx, *right)) {
                Ok((l, r)) => Ok(ExprView::BinaryOp(Box::new(l), op, Box::new(r))),
                Err(e) => Err(e),
            };
            if !typed_comparison(op) {
                plain
            } else {
                match cx.coerced_operand(*left, *right) {
                    Some(Ok(r)) => Ok(ExprView::BinaryOp(left, op, Box::new(r))),
                    Some(Err(e)) => Err(e),
                    None => match cx.coerced_operand(*right, *left) {
                        Some(Ok(l)) => Ok(ExprView::BinaryOp(Box::new(l), op, right)),
                        Some(Err(e)) => Err(e),
                        None => plain,
                    },
                }
            }
        },
        ExprView::InList { expr: subject, list, negated } => match both(
            coerced_items(cx, cx.typed_column(*subject), list, 0),
            coerced_expr(cx, *subject),
        ) {
            Ok((items, subject)) => Ok(
                ExprView::InList { expr: Box::new(subject), list: items, negated },
            ),
            Err(e) => Err(e),
        },
        ExprView::UnaryOp(op, inner) => match coerced_expr(cx, *inner) {
            Ok(inner) => Ok(ExprView::UnaryOp(op, Box::new(inner))),
            Err(e) => Err(e),
        },
        ExprView::Coalesce(left, right) => match both(
            coerced_expr(cx, *left),
            coerced_expr(cx, *right),
        ) {
            Ok((l, r)) => Ok(ExprView::Coalesce(Box::new(l), Box::new(r))),
            Err(e) => Err(e),
        },
        ExprView::Case { whens, else_expr } => match both(
            coerced_whens(cx, whens, 0),
            match else_expr {
                Some(inner) => match coerced_expr(cx, *inner) {
                    Ok(inner) => Ok(Some(Box::new(inner))),
                    Err(e) => Err(e),
                },
                None => Ok(None),
            },
        ) {
            Ok((whens, else_expr)) => Ok(ExprView::Case { whens, else_expr }),
            Err(e) => Err(e),
        },
        _ => Ok(expr),
    }
}

/// The items from `i` on, with their typed literals coerced: a literal to the
/// column `typed`, where there is one.
pub open spec fn coerced_items(
    cx: TypedScopeView,
    typed: Option<(Seq<char>, TypeId)>,
    items: Seq<ExprView>,
    i: int,
) -> Result<Seq<ExprView>, ErrorView>
    decreases items, items.len() - i,
{
    if i < 0 || i >= items.len() {
        Ok(Seq::empty())
    } else {
        let item = match (typed, items[i]) {
            (Some((name, t)), ExprView::Literal(literal)) => coerced_literal(
                cx.model,
                name,
                t,
                literal,
            ),
            _ => coerced_expr(cx, items[i]),
        };
        match item {
            Ok(item) => prefixed(seq![item], coerced_items(cx, typed, items, i + 1)),
            Err(e) => Err(e),
        }
    }
}

/// The arms from `i` on, with their typed literals coerced.
pub open spec fn coerced_whens(cx: TypedScopeView, whens: Seq<(ExprView, ExprView)>, i: int) -> Result<
    Seq<(ExprView, ExprView)>,
    ErrorView,
>
    decreases whens, whens.len() - i,
{
    if i < 0 || i >= whens.len() {
        Ok(Seq::empty())
    } else {
        match both(coerced_expr(cx, whens[i].0), coerced_expr(cx, whens[i].1)) {
            Ok(arm) => prefixed(seq![arm], coerced_whens(cx, whens, i + 1)),
            Err(e) => Err(e),
        }
    }
}

fn coerce_expr<'a, K: Fn(&Value, &ColumnDef) -> Result<Value, String>>(
    cx: &TypedScope<'a, K>,
    expr: &Expr,
) -> (result: Result<Expr, QueryError>)
    requires
        cx.ok(),
    ensures
        outcome(result) == coerced_expr(cx.shown(), expr.deep_view()),
    decreases expr,
{
    match expr {
        Expr::BinaryOp(left, op, right) => {
            if is_typed_comparison(*op) {
                match cx.coerce_operand(left, right) {
                    Some(result) => {
                        let coerced = result?;
                        return Ok(
                            Expr::BinaryOp(Box::new(clone_expr(left)), *op, Box::new(coerced)),
                        );
                    },
                    None => {},
                }
                match cx.coerce_operand(right, left) {
                    Some(result) => {
                        let coerced = result?;
                        return Ok(
                            Expr::BinaryOp(Box::new(coerced), *op, Box::new(clone_expr(right))),
                        );
                    },
                    None => {},
                }
            }
            let l = coerce_expr(cx, left)?;
            let r = coerce_expr(cx, right)?;
            Ok(Expr::BinaryOp(Box::new(l), *op, Box::new(r)))
        },
        Expr::InList { expr: subject, list, negated } => {
            let typed = cx.typed_column(subject);
            let items = coerce_items(cx, &typed, list)?;
            let subject = coerce_expr(cx, subject)?;
            let coerced = Expr::InList { expr: Box::new(subject), list: items, negated: *negated };
            assert(exprs_view(items@) =~= items.deep_view());
            Ok(coerced)
        },
        Expr::UnaryOp(op, inner) => {
            let inner = coerce_expr(cx, inner)?;
            Ok(Expr::UnaryOp(*op, Box::new(inner)))
        },
        Expr::Coalesce(left, right) => {
            let l = coerce_expr(cx, left)?;
            let r = coerce_expr(cx, right)?;
            Ok(Expr::Coalesce(Box::new(l), Box::new(r)))
        },
        Expr::Case { whens, else_expr } => {
            let arms = coerce_whens(cx, whens)?;
            let other = match else_expr {
                Some(inner) => {
                    let inner = coerce_expr(cx, inner)?;
                    Some(Box::new(inner))
                },
                None => None,
            };
            Ok(Expr::Case { whens: arms, else_expr: other })
        },
        _ => Ok(clone_expr(expr)),
    }
}

fn coerce_items<'a, K: Fn(&Value, &ColumnDef) -> Result<Value, String>>(
    cx: &TypedScope<'a, K>,
    typed: &Option<(String, TypeId)>,
    items: &Vec<Expr>,
) -> (result: Result<Vec<Expr>, QueryError>)
    requires
        cx.ok(),
    ensures
        outcome(result) == coerced_items(
            cx.shown(),
            match typed {
                Some((name, t)) => Some((name@, *t)),
                None => None,
            },
            exprs_view(items@),
            0,
        ),
    decreases items,
{
    let ghost views = exprs_view(items@);
    let ghost column = match typed {
        Some((name, t)) => Some((name@, *t)),
        None => None,
    };
    let ghost all = coerced_items(cx.shown(), column, views, 0);
    let mut coerced: Vec<Expr> = Vec::new();
    let mut i: usize = 0;
    assert(prefixed(coerced.deep_view(), all) == all) by {
        assert(all matches Ok(rest) ==> coerced.deep_view() + rest =~= rest);
    }
    while i < items.len()
        invariant
            i <= items.len(),
            cx.ok(),
            views == exprs_view(items@),
            column == (match typed {
                Some((name, t)) => Some((name@, *t)),
                None => None,
            }),
            all == coerced_items(cx.shown(), column, views, 0),
            all == prefixed(
                coerced.deep_view(),
                coerced_items(cx.shown(), column, views, i as int),
            ),
        decreases items.len() - i,
    {
        let ghost before = coerced.deep_view();
        assert(views[i as int] == items[i as int].deep_view());
        let item = match (typed, &items[i]) {
            (Some((name, t)), Expr::Literal(literal)) => coerce_literal(
                cx.coercion,
                name,
                *t,
                literal,
            )?,
            _ => coerce_expr(cx, &items[i])?,
        };
        let ghost shown = item.deep_view();
        coerced.push(item);
        assert(coerced.deep_view() =~= before.push(shown));
        assert(coerced_items(cx.shown(), column, views, i + 1) matches Ok(rest) ==> before + (
        seq![shown] + rest) =~= before.push(shown) + rest);
        i = i + 1;
    }
    assert(coerced.deep_view() + Seq::<ExprView>::empty() =~= coerced.deep_view());
    Ok(coerced)
}

fn coerce_whens<'a, K: Fn(&Value, &ColumnDef) -> Result<Value, String>>(
    cx: &TypedScope<'a, K>,
    whens: &Vec<(Box<Expr>, Box<Expr>)>,
) -> (result: Result<Vec<(Box<Expr>, Box<Expr>)>, QueryError>)
    requires
        cx.ok(),
    ensures
        match result {
            Ok(arms) => coerced_whens(cx.shown(), whens_view(whens@), 0) == Ok::<
                Seq<(ExprView, ExprView)>,
                ErrorView,
            >(whens_view(arms@)),
            Err(e) => coerced_whens(cx.shown(), whens_view(whens@), 0) == Err::<
                Seq<(ExprView, ExprView)>,
                ErrorView,
            >(e.deep_view()),
        },
    decreases whens,
{
    let ghost views = whens_view(whens@);
    let ghost all = coerced_whens(cx.shown(), views, 0);
    let mut coerced: Vec<(Box<Expr>, Box<Expr>)> = Vec::new();
    let mut i: usize = 0;
    assert(prefixed(whens_view(coerced@), all) == all) by {
        assert(all matches Ok(rest) ==> whens_view(coerced@) + rest =~= rest);
    }
    while i < whens.len()
        invariant
            i <= whens.len(),
            cx.ok(),
            views == whens_view(whens@),
            all == coerced_whens(cx.shown(), views, 0),
            all == prefixed(whens_view(coerced@), coerced_whens(cx.shown(), views, i as int)),
        decreases whens.len() - i,
    {
        let ghost before = whens_view(coerced@);
        assert(views[i as int] == (whens[i as int].0.deep_view(), whens[i as int].1.deep_view()));
        let condition = coerce_expr(cx, &whens[i].0)?;
        let value = coerce_expr(cx, &whens[i].1)?;
        let ghost shown = (condition.deep_view(), value.deep_view());
        coerced.push((Box::new(condition), Box::new(value)));
        assert(whens_view(coerced@) =~= before.push(shown));
        assert(coerced_whens(cx.shown(), views, i + 1) matches Ok(rest) ==> before + (seq![shown]
            + rest) =~= before.push(shown) + rest);
        i = i + 1;
    }
    assert(whens_view(coerced@) + Seq::<(ExprView, ExprView)>::empty() =~= whens_view(coerced@));
    Ok(coerced)
}

/// Each of the expressions, with its typed literals coerced.
fn coerce_refs<'a, K: Fn(&Value, &ColumnDef) -> Result<Value, String>>(
    cx: &TypedScope<'a, K>,
    exprs: &Vec<&Expr>,
) -> (result: Result<Vec<Expr>, QueryError>)
    requires
        cx.ok(),
    ensures
        outcome(result) == coerced_items(cx.shown(), None, exprs.deep_view(), 0),
        result matches Ok(coerced) ==> coerced.len() == exprs.len(),
{
    let ghost views = exprs.deep_view();
    let ghost all = coerced_items(cx.shown(), None, views, 0);
    let mut coerced: Vec<Expr> = Vec::new();
    let mut i: usize = 0;
    assert(prefixed(coerced.deep_view(), all) == all) by {
        assert(all matches Ok(rest) ==> coerced.deep_view() + rest =~= rest);
    }
    while i < exprs.len()
        invariant
            i <= exprs.len(),
            coerced.len() == i,
            cx.ok(),
            views == exprs.deep_view(),
            all == coerced_items(cx.shown(), None, views, 0),
            all == prefixed(
                coerced.deep_view(),
                coerced_items(cx.shown(), None, views, i as int),
            ),
        decreases exprs.len() - i,
    {
        let ghost before = coerced.deep_view();
        assert(views[i as int] == exprs[i as int].deep_view());
        let item = coerce_expr(cx, exprs[i])?;
        let ghost shown = item.deep_view();
        coerced.push(item);
        assert(coerced.deep_view() =~= before.push(shown));
        assert(coerced_items(cx.shown(), None, views, i + 1) matches Ok(rest) ==> before + (
        seq![shown] + rest) =~= before.push(shown) + rest);
        i = i + 1;
    }
    assert(coerced.deep_view() + Seq::<ExprView>::empty() =~= coerced.deep_view());
    Ok(coerced)
}

/// A key of a lookup, coerced to the type of the column that it is looked up in.
pub open spec fn coerced_key(
    catalog: CatalogView,
    model: CoerceModel,
    table: Seq<char>,
    column: Seq<char>,
    key: ExprView,
) -> Result<ExprView, ErrorView> {
    match (key, catalog.column_type(table, column)) {
        (ExprView::Literal(literal), Some(t)) => if string_spelled(t) {
            coerced_literal(model, column, t, literal)
        } else {
            Ok(key)
        },
        _ => Ok(key),
    }
}

/// Coerce a key of a lookup to the type of its column.
pub fn coerce_probe_key<K: Fn(&Value, &ColumnDef) -> Result<Value, String>>(
    catalog: &Catalog,
    coercion: &Coercion<K>,
    table: &String,
    column: &String,
    key: &Expr,
) -> (result: Result<Expr, QueryError>)
    requires
        coercion.ok(),
    ensures
        outcome(result) == coerced_key(
            catalog.deep_view(),
            coercion.model@,
            table@,
            column@,
            key.deep_view(),
        ),
{
    match key {
        Expr::Literal(literal) => match catalog.column_type(table, column) {
            Some(t) => {
                if is_string_spelled(t) {
                    coerce_literal(coercion, column, t, literal)
                } else {
                    Ok(clone_expr(key))
                }
            },
            None => Ok(clone_expr(key)),
        },
        _ => Ok(clone_expr(key)),
    }
}

/// A bound of a range, coerced to the type of the column that it bounds.
pub open spec fn coerced_bound(
    catalog: CatalogView,
    model: CoerceModel,
    table: Seq<char>,
    column: Seq<char>,
    bound: Option<(ExprView, bool)>,
) -> Result<Option<(ExprView, bool)>, ErrorView> {
    match bound {
        None => Ok(None),
        Some((key, inclusive)) => match coerced_key(catalog, model, table, column, key) {
            Ok(key) => Ok(Some((key, inclusive))),
            Err(e) => Err(e),
        },
    }
}

/// Coerce a bound of a range to the type of its column.
pub fn coerce_bound<K: Fn(&Value, &ColumnDef) -> Result<Value, String>>(
    catalog: &Catalog,
    coercion: &Coercion<K>,
    table: &String,
    column: &String,
    bound: &Option<(Expr, bool)>,
) -> (result: Result<Option<(Expr, bool)>, QueryError>)
    requires
        coercion.ok(),
    ensures
        outcome(result) == coerced_bound(
            catalog.deep_view(),
            coercion.model@,
            table@,
            column@,
            bound.deep_view(),
        ),
{
    match bound {
        None => Ok(None),
        Some((key, inclusive)) => {
            let key = coerce_probe_key(catalog, coercion, table, column, key)?;
            Ok(Some((key, *inclusive)))
        },
    }
}

/// An optional expression with its typed literals coerced.
pub open spec fn coerced_opt(cx: TypedScopeView, expr: Option<ExprView>) -> Result<
    Option<ExprView>,
    ErrorView,
> {
    match expr {
        None => Ok(None),
        Some(expr) => match coerced_expr(cx, expr) {
            Ok(expr) => Ok(Some(expr)),
            Err(e) => Err(e),
        },
    }
}

fn coerce_opt<'a, K: Fn(&Value, &ColumnDef) -> Result<Value, String>>(
    cx: &TypedScope<'a, K>,
    expr: &Option<Expr>,
) -> (result: Result<Option<Expr>, QueryError>)
    requires
        cx.ok(),
    ensures
        outcome(result) == coerced_opt(cx.shown(), expr.deep_view()),
{
    match expr {
        None => Ok(None),
        Some(expr) => {
            let expr = coerce_expr(cx, expr)?;
            Ok(Some(expr))
        },
    }
}

/// The scope of the typed literals of a plan.
pub open spec fn typed_scope(catalog: CatalogView, model: CoerceModel, plan: PlanView) -> TypedScopeView {
    TypedScopeView {
        catalog,
        model,
        scope: scan_columns(catalog, plan),
        rebound: plan_names(plan, true),
    }
}

/// A plan with its typed literals coerced. Each side of a union has a scope of
/// its own; what a nested projection says of its children is left alone.
pub open spec fn coerced_plan(cx: TypedScopeView, plan: PlanView) -> Result<PlanView, ErrorView>
    decreases plan,
{
    match plan {
        PlanView::IndexScan { table, column, key } => match coerced_key(
            cx.catalog,
            cx.model,
            table,
            column,
            key,
        ) {
            Ok(key) => Ok(PlanView::IndexScan { table, column, key }),
            Err(e) => Err(e),
        },
        PlanView::RangeScan { table, column, start, end } => match both(
            coerced_bound(cx.catalog, cx.model, table, column, start),
            coerced_bound(cx.catalog, cx.model, table, column, end),
        ) {
            Ok((start, end)) => Ok(PlanView::RangeScan { table, column, start, end }),
            Err(e) => Err(e),
        },
        PlanView::Filter { input, predicate } => match both(
            coerced_plan(cx, *input),
            coerced_expr(cx, predicate),
        ) {
            Ok((input, predicate)) => Ok(PlanView::Filter { input: Box::new(input), predicate }),
            Err(e) => Err(e),
        },
        PlanView::Project { input, fields } => match both(
            coerced_items(cx, None, field_exprs(fields), 0),
            coerced_plan(cx, *input),
        ) {
            Ok((exprs, input)) => Ok(
                PlanView::Project { input: Box::new(input), fields: fields_with(fields, exprs) },
            ),
            Err(e) => Err(e),
        },
        PlanView::Sort { input, keys } => match both(
            coerced_items(cx, None, order_exprs(keys), 0),
            coerced_plan(cx, *input),
        ) {
            Ok((exprs, input)) => Ok(
                PlanView::Sort { input: Box::new(input), keys: sort_keys_with(keys, exprs) },
            ),
            Err(e) => Err(e),
        },
        PlanView::GroupBy { input, keys, aggregates, having } => match both(
            coerced_items(cx, None, key_exprs(keys), 0),
            both(
                coerced_items(cx, None, agg_exprs(aggregates), 0),
                both(coerced_plan(cx, *input), coerced_opt(cx, having)),
            ),
        ) {
            Ok((key_list, (arguments, (input, having)))) => Ok(
                PlanView::GroupBy {
                    input: Box::new(input),
                    keys: group_keys_with(keys, key_list),
                    aggregates: aggregates_with(aggregates, arguments),
                    having,
                },
            ),
            Err(e) => Err(e),
        },
        PlanView::Aggregate { input, function, argument, mode, provenance_alias } => match both(
            coerced_plan(cx, *input),
            coerced_opt(cx, argument),
        ) {
            Ok((input, argument)) => Ok(
                PlanView::Aggregate {
                    input: Box::new(input),
                    function,
                    argument,
                    mode,
                    provenance_alias,
                },
            ),
            Err(e) => Err(e),
        },
        PlanView::NestedLoopJoin { left, right, on, kind } => match both(
            coerced_plan(cx, *left),
            both(coerced_plan(cx, *right), coerced_opt(cx, on)),
        ) {
            Ok((left, (right, on))) => Ok(
                PlanView::NestedLoopJoin { left: Box::new(left), right: Box::new(right), on, kind },
            ),
            Err(e) => Err(e),
        },
        PlanView::Union { left, right, all } => match both(
            coerced_plan(typed_scope(cx.catalog, cx.model, *left), *left),
            coerced_plan(typed_scope(cx.catalog, cx.model, *right), *right),
        ) {
            Ok((left, right)) => Ok(
                PlanView::Union { left: Box::new(left), right: Box::new(right), all },
            ),
            Err(e) => Err(e),
        },
        PlanView::Limit { input, count } => match coerced_plan(cx, *input) {
            Ok(input) => Ok(PlanView::Limit { input: Box::new(input), count }),
            Err(e) => Err(e),
        },
        PlanView::Offset { input, count } => match coerced_plan(cx, *input) {
            Ok(input) => Ok(PlanView::Offset { input: Box::new(input), count }),
            Err(e) => Err(e),
        },
        PlanView::Distinct { input } => match coerced_plan(cx, *input) {
            Ok(input) => Ok(PlanView::Distinct { input: Box::new(input) }),
            Err(e) => Err(e),
        },
        PlanView::Window { input, windows } => match coerced_plan(cx, *input) {
            Ok(input) => Ok(PlanView::Window { input: Box::new(input), windows }),
            Err(e) => Err(e),
        },
        PlanView::Update { input, table, assignments, returning } => match coerced_plan(
            cx,
            *input,
        ) {
            Ok(input) => Ok(
                PlanView::Update { input: Box::new(input), table, assignments, returning },
            ),
            Err(e) => Err(e),
        },
        PlanView::Delete { input, table, returning } => match coerced_plan(cx, *input) {
            Ok(input) => Ok(PlanView::Delete { input: Box::new(input), table, returning }),
            Err(e) => Err(e),
        },
        PlanView::Explain { input } => match coerced_plan(cx, *input) {
            Ok(input) => Ok(PlanView::Explain { input: Box::new(input) }),
            Err(e) => Err(e),
        },
        PlanView::NestedProject { input, fields } => match coerced_plan(cx, *input) {
            Ok(input) => Ok(PlanView::NestedProject { input: Box::new(input), fields }),
            Err(e) => Err(e),
        },
        _ => Ok(plan),
    }
}

/// The fields, each with the expression of its place.
pub open spec fn fields_with(fields: Seq<ProjectFieldView>, exprs: Seq<ExprView>) -> Seq<
    ProjectFieldView,
> {
    Seq::new(
        fields.len(),
        |i: int| ProjectFieldView { alias: fields[i].alias, expr: exprs[i] },
    )
}

/// The keys, each with the expression of its place.
pub open spec fn sort_keys_with(keys: Seq<SortKeyView>, exprs: Seq<ExprView>) -> Seq<SortKeyView> {
    Seq::new(
        keys.len(),
        |i: int| SortKeyView { expr: exprs[i], descending: keys[i].descending },
    )
}

/// The keys, each with the expression of its place.
pub open spec fn group_keys_with(keys: Seq<GroupKeyView>, exprs: Seq<ExprView>) -> Seq<GroupKeyView> {
    Seq::new(
        keys.len(),
        |i: int| GroupKeyView { expr: exprs[i], output_name: keys[i].output_name },
    )
}

/// The aggregates, each with the argument of its place.
pub open spec fn aggregates_with(aggregates: Seq<GroupAggView>, exprs: Seq<ExprView>) -> Seq<
    GroupAggView,
> {
    Seq::new(
        aggregates.len(),
        |i: int|
            GroupAggView {
                function: aggregates[i].function,
                argument: exprs[i],
                mode: aggregates[i].mode,
                provenance_alias: aggregates[i].provenance_alias,
                output_name: aggregates[i].output_name,
            },
    )
}

fn rebuild_fields(fields: &Vec<ProjectField>, exprs: &Vec<Expr>) -> (rebuilt: Vec<ProjectField>)
    requires
        exprs.len() == fields.len(),
    ensures
        rebuilt.deep_view() == fields_with(fields.deep_view(), exprs.deep_view()),
{
    let mut rebuilt: Vec<ProjectField> = Vec::new();
    let mut i: usize = 0;
    while i < fields.len()
        invariant
            i <= fields.len(),
            exprs.len() == fields.len(),
            rebuilt.len() == i,
            forall|j: int|
                0 <= j < i ==> (#[trigger] rebuilt[j]).deep_view() == fields_with(
                    fields.deep_view(),
                    exprs.deep_view(),
                )[j],
        decreases fields.len() - i,
    {
        rebuilt.push(ProjectField {
            alias: clone_opt_text(&fields[i].alias),
            expr: clone_expr(&exprs[i]),
        });
        i = i + 1;
    }
    assert(rebuilt.deep_view() =~= fields_with(fields.deep_view(), exprs.deep_view()));
    rebuilt
}

fn rebuild_sort_keys(keys: &Vec<SortKey>, exprs: &Vec<Expr>) -> (rebuilt: Vec<SortKey>)
    requires
        exprs.len() == keys.len(),
    ensures
        sort_keys_view(rebuilt@) == sort_keys_with(sort_keys_view(keys@), exprs.deep_view()),
{
    let mut rebuilt: Vec<SortKey> = Vec::new();
    let mut i: usize = 0;
    while i < keys.len()
        invariant
            i <= keys.len(),
            exprs.len() == keys.len(),
            rebuilt.len() == i,
            forall|j: int|
                0 <= j < i ==> (SortKeyView {
                    expr: (#[trigger] rebuilt[j]).expr.deep_view(),
                    descending: rebuilt[j].descending,
                }) == sort_keys_with(
                    sort_keys_view(keys@),
                    exprs.deep_view(),
                )[j],
        decreases keys.len() - i,
    {
        rebuilt.push(SortKey {
            expr: clone_expr(&exprs[i]),
            descending: keys[i].descending,
        });
        i = i + 1;
    }
    assert(sort_keys_view(rebuilt@) =~= sort_keys_with(sort_keys_view(keys@), exprs.deep_view()));
    rebuilt
}

fn rebuild_group_keys(keys: &Vec<GroupKey>, exprs: &Vec<Expr>) -> (rebuilt: Vec<GroupKey>)
    requires
        exprs.len() == keys.len(),
    ensures
        rebuilt.deep_view() == group_keys_with(keys.deep_view(), exprs.deep_view()),
{
    let mut rebuilt: Vec<GroupKey> = Vec::new();
    let mut i: usize = 0;
    while i < keys.len()
        invariant
            i <= keys.len(),
            exprs.len() == keys.len(),
            rebuilt.len() == i,
            forall|j: int|
                0 <= j < i ==> (#[trigger] rebuilt[j]).deep_view() == group_keys_with(
                    keys.deep_view(),
                    exprs.deep_view(),
                )[j],
        decreases keys.len() - i,
    {
        rebuilt.push(GroupKey {
            expr: clone_expr(&exprs[i]),
            output_name: keys[i].output_name.clone(),
        });
        i = i + 1;
    }
    assert(rebuilt.deep_view() =~= group_keys_with(keys.deep_view(), exprs.deep_view()));
    rebuilt
}

fn rebuild_aggregates(aggregates: &Vec<GroupAgg>, exprs: &Vec<Expr>) -> (rebuilt: Vec<GroupAgg>)
    requires
        exprs.len() == aggregates.len(),
    ensures
        rebuilt.deep_view() == aggregates_with(aggregates.deep_view(), exprs.deep_view()),
{
    let mut rebuilt: Vec<GroupAgg> = Vec::new();
    let mut i: usize = 0;
    while i < aggregates.len()
        invariant
            i <= aggregates.len(),
            exprs.len() == aggregates.len(),
            rebuilt.len() == i,
            forall|j: int|
                0 <= j < i ==> (#[trigger] rebuilt[j]).deep_view() == aggregates_with(
                    aggregates.deep_view(),
                    exprs.deep_view(),
                )[j],
        decreases aggregates.len() - i,
    {
        rebuilt.push(GroupAgg {
            function: aggregates[i].function,
            argument: clone_expr(&exprs[i]),
            mode: aggregates[i].mode,
            provenance_alias: clone_opt_text(&aggregates[i].provenance_alias),
            output_name: aggregates[i].output_name.clone(),
        });
        i = i + 1;
    }
    assert(rebuilt.deep_view() =~= aggregates_with(aggregates.deep_view(), exprs.deep_view()));
    rebuilt
}

fn coerce_plan<'a, K: Fn(&Value, &ColumnDef) -> Result<Value, String>>(
    cx: &TypedScope<'a, K>,
    plan: &PlanNode,
) -> (result: Result<PlanNode, QueryError>)
    requires
        cx.ok(),
    ensures
        outcome(result) == coerced_plan(cx.shown(), plan.deep_view()),
    decreases plan, 0int,
{
    match plan {
        PlanNode::IndexScan { table, column, key } => {
            let key = coerce_probe_key(cx.catalog, cx.coercion, table, column, key)?;
            Ok(PlanNode::IndexScan { table: table.clone(), column: column.clone(), key })
        },
        PlanNode::RangeScan { table, column, start, end } => {
            let start = coerce_bound(cx.catalog, cx.coercion, table, column, start)?;
            let end = coerce_bound(cx.catalog, cx.coercion, table, column, end)?;
            Ok(PlanNode::RangeScan { table: table.clone(), column: column.clone(), start, end })
        },
        PlanNode::Filter { input, predicate } => {
            let input = coerce_plan(cx, input)?;
            let predicate = coerce_expr(cx, predicate)?;
            Ok(PlanNode::Filter { input: Box::new(input), predicate })
        },
        PlanNode::Project { input, fields } => {
            let refs = plan_exprs(plan);
            let exprs = coerce_refs(cx, &refs)?;
            let input = coerce_plan(cx, input)?;
            assert(field_exprs(fields.deep_view()).len() == fields.len());
            Ok(PlanNode::Project { input: Box::new(input), fields: rebuild_fields(fields, &exprs) })
        },
        PlanNode::Sort { input, keys } => {
            let refs = sort_key_refs(keys);
            let exprs = coerce_refs(cx, &refs)?;
            let input = coerce_plan(cx, input)?;
            Ok(PlanNode::Sort { input: Box::new(input), keys: rebuild_sort_keys(keys, &exprs) })
        },
        PlanNode::GroupBy { input, keys, aggregates, having } => {
            let key_refs = key_expr_refs(keys);
            let key_list = coerce_refs(cx, &key_refs)?;
            let agg_refs = agg_expr_refs(aggregates);
            let arguments = coerce_refs(cx, &agg_refs)?;
            let input = coerce_plan(cx, input)?;
            let having = coerce_opt(cx, having)?;
            Ok(
                PlanNode::GroupBy {
                    input: Box::new(input),
                    keys: rebuild_group_keys(keys, &key_list),
                    aggregates: rebuild_aggregates(aggregates, &arguments),
                    having,
                },
            )
        },
        PlanNode::Aggregate { input, function, argument, mode, provenance_alias } => {
            let input = coerce_plan(cx, input)?;
            let argument = coerce_opt(cx, argument)?;
            Ok(
                PlanNode::Aggregate {
                    input: Box::new(input),
                    function: *function,
                    argument,
                    mode: *mode,
                    provenance_alias: clone_opt_text(provenance_alias),
                },
            )
        },
        PlanNode::NestedLoopJoin { left, right, on, kind } => {
            let left = coerce_plan(cx, left)?;
            let right = coerce_plan(cx, right)?;
            let on = coerce_opt(cx, on)?;
            Ok(
                PlanNode::NestedLoopJoin {
                    left: Box::new(left),
                    right: Box::new(right),
                    on,
                    kind: *kind,
                },
            )
        },
        PlanNode::Union { left, right, all } => {
            let left = coerce_typed_literals(cx.catalog, cx.coercion, left)?;
            let right = coerce_typed_literals(cx.catalog, cx.coercion, right)?;
            Ok(PlanNode::Union { left: Box::new(left), right: Box::new(right), all: *all })
        },
        PlanNode::Limit { input, count } => {
            let input = coerce_plan(cx, input)?;
            Ok(PlanNode::Limit { input: Box::new(input), count: clone_expr(count) })
        },
        PlanNode::Offset { input, count } => {
            let input = coerce_plan(cx, input)?;
            Ok(PlanNode::Offset { input: Box::new(input), count: clone_expr(count) })
        },
        PlanNode::Distinct { input } => {
            let input = coerce_plan(cx, input)?;
            Ok(PlanNode::Distinct { input: Box::new(input) })
        },
        PlanNode::Window { input, windows } => {
            let input = coerce_plan(cx, input)?;
            Ok(PlanNode::Window { input: Box::new(input), windows: clone_all(windows) })
        },
        PlanNode::Update { input, table, assignments, returning } => {
            let input = coerce_plan(cx, input)?;
            Ok(
                PlanNode::Update {
                    input: Box::new(input),
                    table: table.clone(),
                    assignments: clone_all(assignments),
                    returning: *returning,
                },
            )
        },
        PlanNode::Delete { input, table, returning } => {
            let input = coerce_plan(cx, input)?;
            Ok(
                PlanNode::Delete {
                    input: Box::new(input),
                    table: table.clone(),
                    returning: *returning,
                },
            )
        },
        PlanNode::Explain { input } => {
            let input = coerce_plan(cx, input)?;
            Ok(PlanNode::Explain { input: Box::new(input) })
        },
        PlanNode::NestedProject { input, fields } => {
            let input = coerce_plan(cx, input)?;
            Ok(PlanNode::NestedProject { input: Box::new(input), fields: clone_all(fields) })
        },
        _ => Ok(clone_plan(plan)),
    }
}

/// Rewrite every literal that is compared with a `datetime`, `uuid` or `bytes`
/// column into a value of that column; an error where the column would not take
/// it.
pub fn coerce_typed_literals<K: Fn(&Value, &ColumnDef) -> Result<Value, String>>(
    catalog: &Catalog,
    coercion: &Coercion<K>,
    plan: &PlanNode,
) -> (result: Result<PlanNode, QueryError>)
    requires
        coercion.ok(),
    ensures
        outcome(result) == coerced_plan(
            typed_scope(catalog.deep_view(), coercion.model@, plan.deep_view()),
            plan.deep_view(),
        ),
    decreases plan, 1int,
{
    let mut scope: Vec<(String, TypeId)> = Vec::new();
    collect_scan_columns(catalog, plan, &mut scope);
    let mut rebound: Vec<String> = Vec::new();
    collect_rebound_names(plan, &mut rebound);
    let cx = TypedScope { catalog, coercion, scope, rebound };
    assert(cx.shown().scope =~= scan_columns(catalog.deep_view(), plan.deep_view()));
    assert(cx.shown().rebound =~= plan_names(plan.deep_view(), true));
    coerce_plan(&cx, plan)
}

} // verus!
