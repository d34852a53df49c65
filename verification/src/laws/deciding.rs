//! What comes of each kind of statement.

use vstd::prelude::*;

use crate::engine::{
    after_op, after_ops, mutation_stale, plan_decision, prepared_plan, replied,
    statement_decision, EngineModel, EngineState,
};
use crate::error::{Budget, ErrorView, ResultView};
use crate::fresh::first_stale;
use crate::laws::viewing::{is_view, names_lead_to_views};
use crate::mutate::{delete_decision, insert_decision, update_decision, upsert_decision};
use crate::plan::{AssignmentView, PlanView};
use crate::read::{answer, readable};
use crate::session::{hold_charge, HoldingView, SizeModel};
use crate::sort::sort_charge;
use crate::storage::{DecisionView, ReplyView, StorageOpView, ViewDefView};
use crate::value::ValueView;

verus! {

/// A plan that writes, declares or opens and closes transactions.
pub open spec fn is_command(plan: PlanView) -> bool {
    plan is Insert || plan is Upsert || plan is Update || plan is Delete || plan is CreateTable
        || plan is CreateLink || plan is AlterTable || plan is DropTable || plan is CreateView
        || plan is RefreshView || plan is DropView || plan is Begin || plan is Commit
        || plan is Rollback
}

/// A statement that reads is answered with what its plan answers, once no view that
/// it reads is out of date; before that, the first such view is refreshed.
pub proof fn reads_are_answered(
    state: EngineState,
    model: EngineModel,
    plan: PlanView,
    budget: Budget,
)
    requires
        !is_command(plan),
        readable(plan),
    ensures
        statement_decision(state, model, plan, budget) == (match first_stale(
            state.views,
            state.catalog,
            model.session,
            plan,
            budget,
        ) {
            Err(error) => Err::<(DecisionView, Budget), ErrorView>(error),
            Ok(Some(view)) => Ok((DecisionView::Refresh { view }, budget)),
            Ok(None) => match answer(state.catalog, model.session, plan, budget) {
                Err(error) => Err(error),
                Ok((result, left)) => Ok((DecisionView::Answer { result }, left)),
            },
        }),
{
}

/// Statements that store rows decide on the catalog as it is; those that change or
/// remove rows do so once no view that they read is out of date.
pub proof fn writes_are_decided(
    state: EngineState,
    model: EngineModel,
    input: PlanView,
    table: Seq<char>,
    key_column: Seq<char>,
    assignments: Seq<AssignmentView>,
    on_conflict: Seq<AssignmentView>,
    rows: Seq<Seq<AssignmentView>>,
    returning: bool,
    budget: Budget,
)
    requires
        readable(input),
        mutation_stale(state, model.session, input, table, budget) == Ok::<
            Option<Seq<char>>,
            ErrorView,
        >(None),
    ensures
        statement_decision(
            state,
            model,
            PlanView::Insert { table, rows, returning },
            budget,
        ) == insert_decision(
            state.catalog,
            model.coerce,
            model.session.sizes,
            table,
            rows,
            returning,
            budget,
        ),
        statement_decision(
            state,
            model,
            PlanView::Upsert { table, key_column, assignments, on_conflict },
            budget,
        ) == (match upsert_decision(
            state.catalog,
            model.coerce,
            table,
            key_column,
            assignments,
            on_conflict,
        ) {
            Ok(decision) => Ok::<(DecisionView, Budget), ErrorView>((decision, budget)),
            Err(error) => Err(error),
        }),
        statement_decision(
            state,
            model,
            PlanView::Update { input: Box::new(input), table, assignments, returning },
            budget,
        ) == update_decision(
            state.catalog,
            model.session,
            model.coerce,
            input,
            table,
            assignments,
            returning,
            budget,
        ),
        statement_decision(
            state,
            model,
            PlanView::Delete { input: Box::new(input), table, returning },
            budget,
        ) == delete_decision(
            state.catalog,
            model.session,
            input,
            table,
            returning,
            budget,
        ),
{
}

/// A statement over its own table, filtered or not, waits for no view; any other
/// waits for the first view out of date that it reads.
pub proof fn changes_wait_for_what_they_read(
    state: EngineState,
    model: EngineModel,
    table: Seq<char>,
    predicate: crate::expr::ExprView,
    input: PlanView,
    budget: Budget,
)
    ensures
        ({
            let scan = PlanView::SeqScan { table };
            let filter = PlanView::Filter { input: Box::new(scan), predicate };
            let none = Ok::<Option<Seq<char>>, ErrorView>(None);
            &&& mutation_stale(state, model.session, scan, table, budget) == none
            &&& mutation_stale(state, model.session, filter, table, budget) == none
            &&& !(input is SeqScan) && !(input is Filter) ==> mutation_stale(
                state,
                model.session,
                input,
                table,
                budget,
            ) == first_stale(state.views, state.catalog, model.session, input, budget)
        }),
{
}

/// A transaction is opened where none is open and closed where one is; anything
/// else is refused.
pub proof fn transactions_open_and_close(
    state: EngineState,
    model: EngineModel,
    budget: Budget,
)
    ensures
        ({
            let begin = statement_decision(state, model, PlanView::Begin, budget);
            let commit = statement_decision(state, model, PlanView::Commit, budget);
            let rollback = statement_decision(state, model, PlanView::Rollback, budget);
            if state.in_transaction {
                &&& begin is Err
                &&& commit matches Ok((DecisionView::Write { ops, .. }, _)) && ops == seq![
                    StorageOpView::Commit,
                ]
                &&& rollback matches Ok((DecisionView::Write { ops, .. }, _)) && ops == seq![
                    StorageOpView::Rollback,
                ]
            } else {
                &&& begin matches Ok((DecisionView::Write { ops, .. }, _)) && ops == seq![
                    StorageOpView::Begin,
                ]
                &&& commit is Err
                &&& rollback is Err
            }
        }),
        after_op(state, StorageOpView::Begin).in_transaction,
        !after_op(state, StorageOpView::Commit).in_transaction,
        !after_op(state, StorageOpView::Rollback).in_transaction,
{
}

/// What a statement answers once the storage has done its steps: what was decided,
/// the rows as they were stored or how many they are, or how many were removed.
pub proof fn replies_tell_what_was_done(
    result: ResultView,
    columns: Seq<Seq<char>>,
    rows: Seq<Seq<ValueView>>,
    removed: u64,
    index_id: u64,
)
    ensures
        replied(ReplyView::Fixed { result }, rows, removed, index_id) == result,
        replied(ReplyView::Inserted { columns: Some(columns) }, rows, removed, index_id) == (
        ResultView::Rows { columns, rows }),
        replied(ReplyView::Inserted { columns: None }, rows, removed, index_id)
            == ResultView::Modified(rows.len() as u64),
        replied(ReplyView::Deleted, rows, removed, index_id) == ResultView::Modified(removed),
{
}

/// The list of views after a step of the storage: a view is added at the end, the
/// first of a name is taken out, or the first of a name is up to date; and nothing
/// else changes.
pub proof fn steps_keep_the_list_of_views(
    state: EngineState,
    view: ViewDefView,
    name: Seq<char>,
    v: int,
    k: int,
)
    requires
        is_view(state.views, name, v),
    ensures
        after_op(state, StorageOpView::RegisterView { view }).views == state.views.push(view),
        after_op(state, StorageOpView::UnregisterView { name }).views == state.views.remove(v),
        after_op(state, StorageOpView::MarkClean { name }).views == after_op(
            state,
            StorageOpView::MarkCleanInMemory { name },
        ).views,
        ({
            let after = after_op(state, StorageOpView::MarkClean { name }).views;
            &&& after.len() == state.views.len()
            &&& !after[v].dirty
            &&& after[v].name == name && after[v].query == state.views[v].query
                && after[v].depends_on == state.views[v].depends_on
            &&& 0 <= k < after.len() && k != v ==> after[k] == state.views[k]
        }),
{
    names_lead_to_views(state.views, name);
    match crate::views::view_at(state.views, name) {
        Some(w) => {
            if w < v {
                assert(state.views[w].name != name);
            } else if v < w {
                assert(state.views[v].name != name);
            }
        },
        None => {
            assert(state.views[v].name != name);
        },
    }
}

/// A plan is decided as it is made ready, unless it is refused.
pub proof fn plans_are_decided_as_made_ready(
    state: EngineState,
    model: EngineModel,
    plan: PlanView,
    budget: Budget,
)
    ensures
        match prepared_plan(state.catalog, model, plan) {
            Err(error) => plan_decision(state, model, plan, budget) == Err::<
                (DecisionView, Budget),
                ErrorView,
            >(error),
            Ok(ready) => plan_decision(state, model, plan, budget) is Ok ==> plan_decision(
                state,
                model,
                plan,
                budget,
            ) == statement_decision(state, model, ready, budget) && (model.check)(
                state.catalog,
                ready,
            ) is None && !crate::validate::stray_aggregate(ready),
        },
{
}

/// Steps of the storage are taken one after the other, and a step that tells of no
/// transaction and no view leaves the state as it is.
pub proof fn steps_are_taken_in_turn(
    state: EngineState,
    ops: Seq<StorageOpView>,
    n: int,
    op: StorageOpView,
)
    requires
        0 <= n <= ops.len(),
    ensures
        after_ops(state, ops, n) == ops.take(n).fold_left(
            state,
            |before: EngineState, step: StorageOpView| after_op(before, step),
        ),
        op is Insert || op is Update || op is Delete || op is Clear || op is CreateTable
            || op is DropTable || op is CreateIndex || op is CreatePathIndex || op is DropPathIndex
            || op is AddColumn || op is DropColumn || op is CreateLink || op is CommitStatement
            ==> after_op(state, op) == state,
    decreases n,
{
    if n > 0 {
        steps_are_taken_in_turn(state, ops, n - 1, op);
        assert(ops.take(n).drop_last() =~= ops.take(n - 1));
        assert(ops.take(n).last() == ops[n - 1]);
    }
}

/// What is held is counted against the limit: it is refused where it does not fit,
/// and otherwise what is used grows by it.
pub proof fn what_is_held_is_counted(sizes: SizeModel, held: HoldingView, budget: Budget)
    ensures
        match hold_charge(sizes, held, budget) {
            Ok(left) => budget.used + sizes(held) <= budget.limit && left.used == budget.used
                + sizes(held) && left.limit == budget.limit,
            Err(error) => budget.used + sizes(held) > budget.limit && error == (
            ErrorView::MemoryLimitExceeded { limit: budget.limit }),
        },
{
}

/// Sorting rows counts two positions for each of them, and sorting one row or none
/// counts nothing.
pub proof fn sorting_counts_its_positions(budget: Budget, n: int)
    requires
        0 <= n,
        budget.used <= budget.limit,
        16 * n <= usize::MAX,
    ensures
        n < 2 ==> sort_charge(budget, n) == Ok::<Budget, ErrorView>(budget),
        n >= 2 ==> match sort_charge(budget, n) {
            Ok(left) => left.limit == budget.limit && left.used == budget.used + 2 * n * (
            usize::BITS as int / 8),
            Err(_) => budget.used + 2 * n * (usize::BITS as int / 8) > budget.limit,
        },
{
    let word = usize::BITS as int / 8;
    assert(word == 4 || word == 8);
    assert(n * word * 2 == 2 * n * word) by (nonlinear_arith);
    assert(n * word * 2 <= 16 * n) by (nonlinear_arith)
        requires
            0 <= n,
            word == 4 || word == 8,
    ;
}

} // verus!
