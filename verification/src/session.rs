//! What a query runs with: the functions that the embedding program supplies,
//! and the limits that it sets.

use vstd::prelude::*;

use crate::aggregate::{ProvenanceRows, ProvenanceView};
use crate::catalog::{Table, TableView};
use crate::error::{Budget, ErrorView, QueryError};
use crate::expr::{Expr, ExprView};
use crate::nested::{DocumentModel, Documents};
use crate::scalars::{FloatOp, Order, ScalarModel, Scalars};
use crate::value::{Value, ValueView};
use crate::wording::{Subject, Wording, WordingModel};

verus! {

/// How the subqueries of an expression are replaced by what they answer:
/// without a row, those that need none; with the row of an outer query and its
/// columns, all of them.
pub type SubqueryModel = spec_fn(
    ExprView,
    Option<(Seq<ValueView>, Seq<Seq<char>>)>,
) -> Result<ExprView, ErrorView>;

/// The row of an outer query and its columns, as mathematics.
pub open spec fn outer_view(outer: Option<(&Vec<Value>, &Vec<String>)>) -> Option<
    (Seq<ValueView>, Seq<Seq<char>>),
> {
    match outer {
        Some((row, columns)) => Some((row.deep_view(), columns.deep_view())),
        None => None,
    }
}

/// What replacing subqueries gives, as mathematics.
pub open spec fn replaced_view(replaced: Result<Expr, QueryError>) -> Result<ExprView, ErrorView> {
    match replaced {
        Ok(expr) => Ok(expr.deep_view()),
        Err(error) => Err(error.deep_view()),
    }
}

/// `run` returns, and returns what `model` says.
pub open spec fn replaces_as<
    Q: Fn(&Expr, Option<(&Vec<Value>, &Vec<String>)>) -> Result<Expr, QueryError>,
>(run: Q, model: SubqueryModel) -> bool {
    &&& forall|expr: &Expr, outer: Option<(&Vec<Value>, &Vec<String>)>| #[trigger]
        call_requires(run, (expr, outer))
    &&& forall|
        expr: &Expr,
        outer: Option<(&Vec<Value>, &Vec<String>)>,
        replaced: Result<Expr, QueryError>,
    | #[trigger]
        call_ensures(run, (expr, outer), replaced) ==> replaced_view(replaced) == model(
            expr.deep_view(),
            outer_view(outer),
        )
}

/// The replacement of subqueries, as the embedding program supplies it, with
/// the function that it computes.
pub struct Subqueries<Q> {
    pub run: Q,
    pub model: Ghost<SubqueryModel>,
}

impl<Q: Fn(&Expr, Option<(&Vec<Value>, &Vec<String>)>) -> Result<Expr, QueryError>> Subqueries<Q> {
    /// The replacement is total and a function of what its arguments hold.
    pub open spec fn ok(&self) -> bool {
        replaces_as(self.run, self.model@)
    }

    /// A replacement that is a function of what its arguments hold.
    pub fn new(run: Q) -> (subqueries: Self)
        requires
            exists|model: SubqueryModel| #[trigger] replaces_as(run, model),
        ensures
            subqueries.ok(),
            subqueries.run == run,
    {
        let ghost model = choose|model: SubqueryModel| #[trigger] replaces_as(run, model);
        Subqueries { run, model: Ghost(model) }
    }

    /// The expression with subqueries replaced by what they answer.
    pub fn replace(&self, expr: &Expr, outer: Option<(&Vec<Value>, &Vec<String>)>) -> (replaced:
        Result<Expr, QueryError>)
        requires
            self.ok(),
        ensures
            replaced_view(replaced) == (self.model@)(expr.deep_view(), outer_view(outer)),
    {
        let replaced = (self.run)(expr, outer);
        replaced
    }
}

/// Something that a query holds in memory.
pub enum Holding<'a> {
    /// Rows.
    Rows(&'a Vec<Vec<Value>>),
    /// The stored rows behind the rows of a query.
    Provenance(&'a ProvenanceRows),
}

/// What a [`Holding`] stands for.
pub enum HoldingView {
    Rows(Seq<Seq<ValueView>>),
    Provenance(ProvenanceView),
}

impl<'a> DeepView for Holding<'a> {
    type V = HoldingView;

    open spec fn deep_view(&self) -> HoldingView {
        match self {
            Holding::Rows(rows) => HoldingView::Rows(rows.deep_view()),
            Holding::Provenance(input) => HoldingView::Provenance(input.deep_view()),
        }
    }
}

/// How many bytes each thing that a query holds counts for.
pub type SizeModel = spec_fn(HoldingView) -> usize;

/// `run` returns, and returns what `model` says.
pub open spec fn sizes_as<S: Fn(Holding) -> usize>(run: S, model: SizeModel) -> bool {
    &&& forall|held: Holding| #[trigger] call_requires(run, (held,))
    &&& forall|held: Holding, bytes: usize| #[trigger]
        call_ensures(run, (held,), bytes) ==> bytes == model(held.deep_view())
}

/// The budget after `held` is counted against it.
pub open spec fn hold_charge(model: SizeModel, held: HoldingView, budget: Budget) -> Result<
    Budget,
    ErrorView,
> {
    if budget.used + model(held) > budget.limit {
        Err(ErrorView::MemoryLimitExceeded { limit: budget.limit })
    } else {
        Ok(budget.after(model(held) as int))
    }
}

/// The sizes of things, as the embedding program counts them, with the function
/// that it computes.
pub struct Sizes<S> {
    pub run: S,
    pub model: Ghost<SizeModel>,
}

impl<S: Fn(Holding) -> usize> Sizes<S> {
    /// The count is total and a function of what its argument holds.
    pub open spec fn ok(&self) -> bool {
        sizes_as(self.run, self.model@)
    }

    /// A count that is a function of what its argument holds.
    pub fn new(run: S) -> (sizes: Self)
        requires
            exists|model: SizeModel| #[trigger] sizes_as(run, model),
        ensures
            sizes.ok(),
            sizes.run == run,
    {
        let ghost model = choose|model: SizeModel| #[trigger] sizes_as(run, model);
        Sizes { run, model: Ghost(model) }
    }

    /// Count `held` against the budget.
    pub fn charge(&self, held: Holding, budget: &mut Budget) -> (charged: Result<(), QueryError>)
        requires
            self.ok(),
        ensures
            match charged {
                Ok(_) => hold_charge(self.model@, held.deep_view(), *old(budget)) == Ok::<
                    Budget,
                    ErrorView,
                >(*final(budget)),
                Err(error) => hold_charge(self.model@, held.deep_view(), *old(budget)) == Err::<
                    Budget,
                    ErrorView,
                >(error.deep_view()) && *final(budget) == *old(budget),
            },
    {
        let ghost view = held.deep_view();
        let bytes: usize = (self.run)(held);
        budget.charge(bytes)
    }
}

/// Which queries over one table are answered from the stored form of its rows:
/// those whose predicate, if they have one, can be tested on that form.
pub type CompileModel = spec_fn(Option<ExprView>, TableView) -> bool;

/// `run` returns, and returns what `model` says.
pub open spec fn compiles_as<B: Fn(Option<&Expr>, &Table) -> bool>(
    run: B,
    model: CompileModel,
) -> bool {
    &&& forall|predicate: Option<&Expr>, table: &Table| #[trigger]
        call_requires(run, (predicate, table))
    &&& forall|predicate: Option<&Expr>, table: &Table, compiles: bool| #[trigger]
        call_ensures(run, (predicate, table), compiles) ==> compiles == model(
            predicate.deep_view(),
            table.deep_view(),
        )
}

/// The test for stored forms, as the embedding program supplies it, with the
/// function that it computes.
pub struct Compiler<B> {
    pub run: B,
    pub model: Ghost<CompileModel>,
}

impl<B: Fn(Option<&Expr>, &Table) -> bool> Compiler<B> {
    /// The test is total and a function of what its arguments hold.
    pub open spec fn ok(&self) -> bool {
        compiles_as(self.run, self.model@)
    }

    /// A test that is a function of what its arguments hold.
    pub fn new(run: B) -> (compiler: Self)
        requires
            exists|model: CompileModel| #[trigger] compiles_as(run, model),
        ensures
            compiler.ok(),
            compiler.run == run,
    {
        let ghost model = choose|model: CompileModel| #[trigger] compiles_as(run, model);
        Compiler { run, model: Ghost(model) }
    }

    /// Whether the stored form of the rows is enough.
    pub fn compiles(&self, predicate: Option<&Expr>, table: &Table) -> (compiles: bool)
        requires
            self.ok(),
        ensures
            compiles == (self.model@)(predicate.deep_view(), table.deep_view()),
    {
        let compiles: bool = (self.run)(predicate, table);
        compiles
    }
}

/// How many rows a sort takes, how many pairs a nested loop goes through, and
/// how many rows a join gives, at most.
#[derive(Debug, Clone, Copy, PartialEq, Eq, Structural)]
pub struct Limits {
    pub sort_rows: usize,
    pub join_pairs: usize,
    pub join_rows: usize,
}

/// What the functions of a [`Session`] compute, and its limits.
pub struct SessionModel {
    pub scalars: ScalarModel,
    pub words: WordingModel,
    pub documents: DocumentModel,
    pub subqueries: SubqueryModel,
    pub sizes: SizeModel,
    pub compiles: CompileModel,
    pub limits: Limits,
}

/// What a query runs with. `poll` is asked again and again whether to go on.
pub struct Session<E, C, F, T, J, Q, S, B, P> {
    pub scalars: Scalars<E, C, F>,
    pub wording: Wording<T>,
    pub documents: Documents<J>,
    pub subqueries: Subqueries<Q>,
    pub sizes: Sizes<S>,
    pub compiler: Compiler<B>,
    pub poll: P,
    pub limits: Limits,
}

impl<
    E: Fn(&Expr, &Vec<Value>, &Vec<String>) -> Value,
    C: Fn(&Value, &Value) -> Order,
    F: Fn(FloatOp) -> u64,
    T: Fn(Subject) -> Option<String>,
    J: Fn(&String) -> Result<Vec<u8>, String>,
    Q: Fn(&Expr, Option<(&Vec<Value>, &Vec<String>)>) -> Result<Expr, QueryError>,
    S: Fn(Holding) -> usize,
    B: Fn(Option<&Expr>, &Table) -> bool,
    P: Fn() -> Result<(), QueryError>,
> Session<E, C, F, T, J, Q, S, B, P> {
    /// Each function is total and a function of what its arguments hold.
    pub open spec fn ok(&self) -> bool {
        &&& self.scalars.ok()
        &&& self.wording.ok()
        &&& self.documents.ok()
        &&& self.subqueries.ok()
        &&& self.sizes.ok()
        &&& self.compiler.ok()
        &&& call_requires(self.poll, ())
    }

    /// What the functions compute.
    pub open spec fn model(&self) -> SessionModel {
        SessionModel {
            scalars: self.scalars.model@,
            words: self.wording.model@,
            documents: self.documents.model@,
            subqueries: self.subqueries.model@,
            sizes: self.sizes.model@,
            compiles: self.compiler.model@,
            limits: self.limits,
        }
    }
}

/// `result` is what is expected, or the error with which `poll` stopped it.
pub open spec fn answered<R: DeepView, P: Fn() -> Result<(), QueryError>>(
    result: Result<R, QueryError>,
    expected: Result<R::V, ErrorView>,
    poll: P,
) -> bool {
    match result {
        Ok(given) => expected == Ok::<R::V, ErrorView>(given.deep_view()),
        Err(error) => expected == Err::<R::V, ErrorView>(error.deep_view()) || call_ensures(
            poll,
            (),
            Err(error),
        ),
    }
}

/// `result` and the budget that is left are what is expected, or the error is
/// the one with which `poll` stopped it. A charge that is refused leaves the budget
/// as it was; what an error leaves of it is not said here, as the statement ends.
pub open spec fn answered_within<R: DeepView, P: Fn() -> Result<(), QueryError>>(
    result: Result<R, QueryError>,
    left: Budget,
    expected: Result<(R::V, Budget), ErrorView>,
    poll: P,
) -> bool {
    match result {
        Ok(given) => expected == Ok::<(R::V, Budget), ErrorView>((given.deep_view(), left)),
        Err(error) => expected == Err::<(R::V, Budget), ErrorView>(error.deep_view())
            || call_ensures(poll, (), Err(error)),
    }
}

/// The work ended with an error of the poll.
pub open spec fn stopped<R, P: Fn() -> Result<(), QueryError>>(
    result: Result<R, QueryError>,
    poll: P,
) -> bool {
    result matches Err(error) && call_ensures(poll, (), Err(error))
}

} // verus!
