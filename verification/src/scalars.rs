//! What the operators take from outside: how an expression is evaluated, how
//! two values are ordered, and how floats are added and divided.

use vstd::prelude::*;

use crate::expr::{Expr, ExprView};
use crate::seqs::name_position;
use crate::value::{RowView, Value, ValueView};

verus! {

/// How two values stand to each other.
#[derive(Debug, Clone, Copy, PartialEq, Eq, Structural)]
pub enum Order {
    Less,
    Equal,
    Greater,
}

impl Order {
    /// The order of the same two values, taken the other way round.
    pub open spec fn spec_reversed(self) -> Order {
        match self {
            Order::Less => Order::Greater,
            Order::Equal => Order::Equal,
            Order::Greater => Order::Less,
        }
    }

    /// The order of the same two values, taken the other way round.
    #[verifier::when_used_as_spec(spec_reversed)]
    pub fn reversed(self) -> (order: Order)
        ensures
            order == self.spec_reversed(),
    {
        match self {
            Order::Less => Order::Greater,
            Order::Equal => Order::Equal,
            Order::Greater => Order::Less,
        }
    }
}

/// An operation on floats, each given by its bits.
#[derive(Debug, Clone, Copy, PartialEq, Eq, Structural)]
pub enum FloatOp {
    /// The float nearest to an integer.
    FromInt(i128),
    /// The sum of two floats.
    Sum(u64, u64),
    /// A float divided by a count.
    Quotient(u64, u64),
}

/// An evaluation of expressions, as a function of what its arguments hold.
pub type EvalModel = spec_fn(ExprView, RowView, Seq<Seq<char>>) -> ValueView;

/// An order of values, as a function of what they hold.
pub type OrderModel = spec_fn(ValueView, ValueView) -> Order;

/// The bits that an operation on floats gives.
pub type FloatModel = spec_fn(FloatOp) -> u64;

/// `eval` returns what `model` says.
pub open spec fn evaluates_as<E: Fn(&Expr, &Vec<Value>, &Vec<String>) -> Value>(
    eval: E,
    model: EvalModel,
) -> bool {
    forall|expr: &Expr, row: &Vec<Value>, columns: &Vec<String>, value: Value| #[trigger]
        call_ensures(eval, (expr, row, columns), value) ==> value.deep_view() == model(
            expr.deep_view(),
            row.deep_view(),
            columns.deep_view(),
        )
}

/// `order` returns what `model` says.
pub open spec fn orders_as<C: Fn(&Value, &Value) -> Order>(order: C, model: OrderModel) -> bool {
    forall|left: &Value, right: &Value, result: Order| #[trigger]
        call_ensures(order, (left, right), result) ==> result == model(
            left.deep_view(),
            right.deep_view(),
        )
}

/// `float` returns what `model` says.
pub open spec fn computes_as<F: Fn(FloatOp) -> u64>(float: F, model: FloatModel) -> bool {
    forall|op: FloatOp, bits: u64| #[trigger] call_ensures(float, (op,), bits) ==> bits == model(op)
}

/// `model` is a total preorder: any two values compare, and so do three.
pub open spec fn total_order<T>(model: spec_fn(T, T) -> Order) -> bool {
    &&& forall|a: T| #[trigger] model(a, a) == Order::Equal
    &&& forall|a: T, b: T| #[trigger] model(a, b) == model(b, a).spec_reversed()
    &&& forall|a: T, b: T, c: T|
        #![trigger model(a, b), model(b, c)]
        model(a, b) != Order::Greater && model(b, c) != Order::Greater ==> model(a, c)
            != Order::Greater
}

/// A bare column name reads the column of that name.
pub open spec fn reads_columns(model: EvalModel) -> bool {
    forall|name: Seq<char>, row: RowView, columns: Seq<Seq<char>>|
        name_position(columns, name) is Some && row.len() == columns.len() ==> #[trigger] model(
            ExprView::Field(name),
            row,
            columns,
        ) == row[name_position(columns, name)->0]
}

/// What expressions, comparisons and float operations give.
pub struct ScalarModel {
    pub eval: EvalModel,
    pub order: OrderModel,
    pub float: FloatModel,
}

/// Expression evaluation, the order of values and float arithmetic, as the
/// embedding program supplies them, with the functions that they compute.
pub struct Scalars<E, C, F> {
    pub eval: E,
    pub order: C,
    pub float: F,
    pub model: Ghost<ScalarModel>,
}

/// Each of the three returns, and returns what `model` says.
pub open spec fn scalars_follow<
    E: Fn(&Expr, &Vec<Value>, &Vec<String>) -> Value,
    C: Fn(&Value, &Value) -> Order,
    F: Fn(FloatOp) -> u64,
>(eval: E, order: C, float: F, model: ScalarModel) -> bool {
    &&& forall|expr: &Expr, row: &Vec<Value>, columns: &Vec<String>| #[trigger]
        call_requires(eval, (expr, row, columns))
    &&& forall|left: &Value, right: &Value| #[trigger] call_requires(order, (left, right))
    &&& forall|op: FloatOp| #[trigger] call_requires(float, (op,))
    &&& evaluates_as(eval, model.eval)
    &&& reads_columns(model.eval)
    &&& orders_as(order, model.order)
    &&& total_order(model.order)
    &&& computes_as(float, model.float)
}

impl<
    E: Fn(&Expr, &Vec<Value>, &Vec<String>) -> Value,
    C: Fn(&Value, &Value) -> Order,
    F: Fn(FloatOp) -> u64,
> Scalars<E, C, F> {
    /// Each of the three is total and a function of what its arguments hold, a
    /// bare column name evaluates to the value in that column, and the order is
    /// a total preorder.
    pub open spec fn ok(&self) -> bool {
        scalars_follow(self.eval, self.order, self.float, self.model@)
    }

    /// What each expression evaluates to.
    pub open spec fn values(&self) -> EvalModel {
        self.model@.eval
    }

    /// How any two values are ordered.
    pub open spec fn ordering(&self) -> OrderModel {
        self.model@.order
    }

    /// What each float operation gives.
    pub open spec fn floats(&self) -> FloatModel {
        self.model@.float
    }

    /// The three functions, each a function of what its arguments hold.
    pub fn new(eval: E, order: C, float: F) -> (scalars: Self)
        requires
            exists|model: ScalarModel| #[trigger] scalars_follow(eval, order, float, model),
        ensures
            scalars.ok(),
            scalars.eval == eval,
            scalars.order == order,
            scalars.float == float,
    {
        let ghost model = choose|model: ScalarModel| #[trigger]
            scalars_follow(eval, order, float, model);
        Scalars { eval, order, float, model: Ghost(model) }
    }

    /// The three functions, together with what they compute.
    pub fn with_model(eval: E, order: C, float: F, model: Ghost<ScalarModel>) -> (scalars: Self)
        requires
            scalars_follow(eval, order, float, model@),
        ensures
            scalars.ok(),
            scalars.model@ == model@,
            scalars.eval == eval,
            scalars.order == order,
            scalars.float == float,
    {
        Scalars { eval, order, float, model }
    }

    /// The value of `expr` on `row`.
    pub fn eval_expr(&self, expr: &Expr, row: &Vec<Value>, columns: &Vec<String>) -> (value: Value)
        requires
            self.ok(),
        ensures
            value.deep_view() == (self.values())(
                expr.deep_view(),
                row.deep_view(),
                columns.deep_view(),
            ),
    {
        let value = (self.eval)(expr, row, columns);
        value
    }

    /// Whether `expr` is true on `row`.
    pub fn eval_predicate(&self, expr: &Expr, row: &Vec<Value>, columns: &Vec<String>) -> (holds:
        bool)
        requires
            self.ok(),
        ensures
            holds == is_true(
                (self.values())(expr.deep_view(), row.deep_view(), columns.deep_view()),
            ),
    {
        match self.eval_expr(expr, row, columns) {
            Value::Bool(b) => b,
            _ => false,
        }
    }

    /// How `left` stands to `right`.
    pub fn order_values(&self, left: &Value, right: &Value) -> (order: Order)
        requires
            self.ok(),
        ensures
            order == (self.ordering())(left.deep_view(), right.deep_view()),
    {
        let order = (self.order)(left, right);
        order
    }

    /// The result of a float operation.
    pub fn float_op(&self, op: FloatOp) -> (bits: u64)
        requires
            self.ok(),
        ensures
            bits == (self.floats())(op),
    {
        let bits = (self.float)(op);
        bits
    }
}

/// A predicate holds where it evaluates to true; null and every other value
/// count as false.
pub open spec fn is_true(value: ValueView) -> bool {
    value == ValueView::Bool(true)
}

/// The order of two `order`-clause values: null comes last in both directions,
/// and `descending` reverses the order of the others.
pub open spec fn order_clause(
    model: OrderModel,
    left: ValueView,
    right: ValueView,
    descending: bool,
) -> Order {
    if left is Empty && right is Empty {
        Order::Equal
    } else if left is Empty {
        Order::Greater
    } else if right is Empty {
        Order::Less
    } else if descending {
        model(left, right).spec_reversed()
    } else {
        model(left, right)
    }
}

/// How two values of an `order` clause stand to each other, nulls last.
pub fn compare_order_values<
    E: Fn(&Expr, &Vec<Value>, &Vec<String>) -> Value,
    C: Fn(&Value, &Value) -> Order,
    F: Fn(FloatOp) -> u64,
>(scalars: &Scalars<E, C, F>, left: &Value, right: &Value, descending: bool) -> (order: Order)
    requires
        scalars.ok(),
    ensures
        order == order_clause(
            scalars.ordering(),
            left.deep_view(),
            right.deep_view(),
            descending,
        ),
{
    if left.is_empty() {
        if right.is_empty() {
            Order::Equal
        } else {
            Order::Greater
        }
    } else if right.is_empty() {
        Order::Less
    } else if descending {
        scalars.order_values(left, right).reversed()
    } else {
        scalars.order_values(left, right)
    }
}

/// An `order` clause orders values totally, whatever its direction.
pub proof fn order_clause_is_total(model: OrderModel, descending: bool)
    requires
        total_order(model),
    ensures
        total_order(|a: ValueView, b: ValueView| order_clause(model, a, b, descending)),
{
    let f = |a: ValueView, b: ValueView| order_clause(model, a, b, descending);
    assert forall|a: ValueView| #[trigger] f(a, a) == Order::Equal by {
        assert(model(a, a) == Order::Equal);
    }
    assert forall|a: ValueView, b: ValueView| #[trigger] f(a, b) == f(b, a).spec_reversed() by {
        assert(model(a, b) == model(b, a).spec_reversed());
    }
    assert forall|a: ValueView, b: ValueView, c: ValueView|
        #![trigger f(a, b), f(b, c)]
        f(a, b) != Order::Greater && f(b, c) != Order::Greater implies f(a, c) != Order::Greater by {
        assert(model(a, b) == model(b, a).spec_reversed());
        assert(model(b, c) == model(c, b).spec_reversed());
        assert(model(a, c) == model(c, a).spec_reversed());
        if descending {
            assert(model(c, b) != Order::Greater && model(b, a) != Order::Greater ==> model(c, a)
                != Order::Greater);
        }
    }
}

/// Nulls come last in both directions.
pub proof fn nulls_come_last(model: OrderModel, value: ValueView, descending: bool)
    requires
        !(value is Empty),
    ensures
        order_clause(model, value, ValueView::Empty, descending) == Order::Less,
        order_clause(model, ValueView::Empty, value, descending) == Order::Greater,
{
}

} // verus!
