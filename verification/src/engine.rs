//! The engine: what comes of a plan, given the tables, the views and the
//! transaction as they stand.

use vstd::prelude::*;

use crate::catalog::{Catalog, CatalogView, ColumnDef, Table};
use crate::coerce::{coerce_typed_literals, coerced_plan, typed_scope, CoerceModel, Coercion};
use crate::define::{
    alter_decision, around, create_link_from_parts, create_table_decision, decide_alter,
    decide_create_table, link_decision, told, TypeModel, TypeNames,
};
use crate::error::{outcome, Budget, ErrorView, QueryError, QueryResult, ResultView};
use crate::expr::Expr;
use crate::fresh::{find_first_stale, first_stale, stale_views_are_met};
use crate::index::{catalog_fits, indexes_agree};
use crate::links::{
    child_index_probe_pays_off, probe_pays_off, resolve_nested_via_links, resolved_from,
};
use crate::lower::{lower_unindexed_scans, lowered};
use crate::mutate::{
    check_update, decide_delete, decide_insert, decide_update, decide_upsert, decided_polled,
    delete_decision, insert_decision, update_decision, update_error, upsert_decision,
};
use crate::plan::{Assignment, AssignmentView, NestedProjectField, PlanNode, PlanView};
use crate::provenance::with_budget;
use crate::read::{answer, dispatch_read, is_readable, readable, unreadable_error};
use crate::rows::catalog_placed;
use crate::scalars::{FloatOp, Order};
use crate::scope::{json_paths_error, validate_json_path_types};
use crate::seqs::{first_where_found, is_name};
use crate::session::{answered, Holding, Session, SessionModel};
use crate::storage::{
    Decision, DecisionView, Reply, ReplyView, StorageOp, StorageOpView, ViewDef, ViewDefView,
};
use crate::text::{clone_texts, decimal, push_decimal, push_text};
use crate::validate::{
    stray_aggregate, stray_aggregate_error, validate_no_stray_aggregates, CheckModel, PlanCheck,
};
use crate::value::{TypeId, Value, ValueView};
use crate::views::{
    cleaned, create_view, create_view_decision, decide_drop_table, depends_on, dirtied,
    drop_table_decision, drop_view, drop_view_decision, extract_view_deps, fill_new_view,
    fill_view, find_view, is_dirty, mark_dependents_dirty, refill_view, refresh_view,
    refresh_view_decision, scanned_tables, stale_from, stale_view, view_at, view_deps,
    view_names, ParseModel, Parser, Statement,
};
use crate::wording::Subject;

verus! {

/// The tables, the views, and whether a transaction is open.
pub struct EngineState {
    pub catalog: CatalogView,
    pub views: Seq<ViewDefView>,
    pub in_transaction: bool,
}

/// What the functions of an [`Engine`] compute.
pub struct EngineModel {
    pub session: SessionModel,
    pub coerce: CoerceModel,
    pub types: TypeModel,
    pub parse: ParseModel,
    pub check: CheckModel,
}

/// One round of making a plan ready: the literals as their columns store them,
/// and then every lookup in an index that is there.
pub open spec fn readied(catalog: CatalogView, model: EngineModel, plan: PlanView) -> Result<
    PlanView,
    ErrorView,
> {
    match coerced_plan(typed_scope(catalog, model.coerce, plan), plan) {
        Err(error) => Err(error),
        Ok(coerced) => Ok(lowered(catalog, model.session.scalars.float, coerced)),
    }
}

/// The plan that is run. What stands in place of a lookup without an index may
/// compare a column with a literal where the lookup did not, so a second round
/// is made; there is nothing left for a third.
pub open spec fn prepared_plan(catalog: CatalogView, model: EngineModel, plan: PlanView) -> Result<
    PlanView,
    ErrorView,
> {
    match readied(catalog, model, plan) {
        Err(error) => Err(error),
        Ok(once) => readied(catalog, model, once),
    }
}

/// Why a plan is refused before any of it is run: an aggregate that cannot be
/// evaluated, a JSON path into no document, or what the check has against it.
pub open spec fn plan_error(catalog: CatalogView, check: CheckModel, plan: PlanView) -> Option<
    ErrorView,
> {
    if stray_aggregate(plan) {
        Some(stray_aggregate_error())
    } else {
        match json_paths_error(catalog, plan) {
            Some(message) => Some(ErrorView::TypeError(message)),
            None => check(catalog, plan),
        }
    }
}

/// The view that a statement must find up to date before it looks for the rows
/// of `table` that it changes, or the error that it meets before: a scan of the
/// table itself needs none.
pub open spec fn mutation_stale(
    state: EngineState,
    model: SessionModel,
    input: PlanView,
    table: Seq<char>,
    budget: Budget,
) -> Result<Option<Seq<char>>, ErrorView> {
    let plain = match input {
        PlanView::SeqScan { table: t } => t == table,
        PlanView::Filter { input: inner, .. } => *inner == (PlanView::SeqScan { table }),
        _ => false,
    };
    if plain {
        Ok(None)
    } else {
        first_stale(state.views, state.catalog, model, input, budget)
    }
}

/// The rows that a statement reads are looked for only where the statement can
/// be read from and no view stands in its way: `met` is what running it meets
/// first.
pub open spec fn once_fresh(
    is_read: bool,
    met: Result<Option<Seq<char>>, ErrorView>,
    budget: Budget,
    decision: Result<(DecisionView, Budget), ErrorView>,
) -> Result<(DecisionView, Budget), ErrorView> {
    if !is_read {
        Err(unreadable_error())
    } else {
        match met {
            Err(error) => Err(error),
            Ok(Some(view)) => Ok((DecisionView::Refresh { view }, budget)),
            Ok(None) => decision,
        }
    }
}

/// What a statement that updates rows comes to.
pub open spec fn update_statement(
    state: EngineState,
    model: EngineModel,
    input: PlanView,
    table: Seq<char>,
    assignments: Seq<AssignmentView>,
    returning: bool,
    budget: Budget,
) -> Result<(DecisionView, Budget), ErrorView> {
    match update_error(state.catalog, model.coerce, table, assignments) {
        Some(error) => Err(error),
        None => once_fresh(
            readable(input),
            mutation_stale(state, model.session, input, table, budget),
            budget,
            update_decision(
                state.catalog,
                model.session,
                model.coerce,
                input,
                table,
                assignments,
                returning,
                budget,
            ),
        ),
    }
}

/// What a statement that deletes rows comes to.
pub open spec fn delete_statement(
    state: EngineState,
    model: EngineModel,
    input: PlanView,
    table: Seq<char>,
    returning: bool,
    budget: Budget,
) -> Result<(DecisionView, Budget), ErrorView> {
    if returning && state.catalog.table(table) is None {
        Err(ErrorView::TableNotFound(table))
    } else {
        once_fresh(
            readable(input),
            mutation_stale(state, model.session, input, table, budget),
            budget,
            delete_decision(state.catalog, model.session, input, table, returning, budget),
        )
    }
}

/// What a statement that reads comes to.
pub open spec fn read_statement(
    state: EngineState,
    model: SessionModel,
    plan: PlanView,
    budget: Budget,
) -> Result<(DecisionView, Budget), ErrorView> {
    once_fresh(
        readable(plan),
        first_stale(state.views, state.catalog, model, plan, budget),
        budget,
        match answer(state.catalog, model, plan, budget) {
            Err(error) => Err(error),
            Ok((result, left)) => Ok((DecisionView::Answer { result }, left)),
        },
    )
}

/// The answer that something was carried out, after one step of the storage.
pub open spec fn stepped(op: StorageOpView, message: Seq<char>) -> DecisionView {
    DecisionView::Write {
        ops: seq![op],
        reply: ReplyView::Fixed { result: ResultView::Executed { message } },
    }
}

/// What starting a transaction comes to.
pub open spec fn begin_decision(in_transaction: bool) -> Result<DecisionView, ErrorView> {
    if in_transaction {
        Err(
            ErrorView::Execution(
                "already in a transaction (nested transactions not supported)"@,
            ),
        )
    } else {
        Ok(stepped(StorageOpView::Begin, "transaction started"@))
    }
}

/// What committing comes to.
pub open spec fn commit_decision(in_transaction: bool) -> Result<DecisionView, ErrorView> {
    if in_transaction {
        Ok(stepped(StorageOpView::Commit, "transaction committed"@))
    } else {
        Err(ErrorView::Execution("no active transaction to commit"@))
    }
}

/// What rolling back comes to.
pub open spec fn rollback_decision(in_transaction: bool) -> Result<DecisionView, ErrorView> {
    if in_transaction {
        Ok(stepped(StorageOpView::Rollback, "transaction rolled back"@))
    } else {
        Err(ErrorView::Execution("no active transaction to roll back"@))
    }
}

/// What a statement that drops a view comes to.
pub open spec fn drop_view_statement(views: Seq<ViewDefView>, name: Seq<char>, if_exists: bool) -> Result<
    DecisionView,
    ErrorView,
> {
    if if_exists && view_at(views, name) is None {
        Ok(told("view '"@ + name + "' does not exist (skipped)"@))
    } else {
        drop_view_decision(views, name)
    }
}

/// What comes of a plan that is ready to run.
pub open spec fn statement_decision(
    state: EngineState,
    model: EngineModel,
    plan: PlanView,
    budget: Budget,
) -> Result<(DecisionView, Budget), ErrorView> {
    let catalog = state.catalog;
    match plan {
        PlanView::Insert { table, rows, returning } => insert_decision(
            catalog,
            model.coerce,
            model.session.sizes,
            table,
            rows,
            returning,
            budget,
        ),
        PlanView::Upsert { table, key_column, assignments, on_conflict } => with_budget(
            upsert_decision(
                catalog,
                model.coerce,
                table,
                key_column,
                assignments,
                on_conflict,
            ),
            budget,
        ),
        PlanView::Update { input, table, assignments, returning } => update_statement(
            state,
            model,
            *input,
            table,
            assignments,
            returning,
            budget,
        ),
        PlanView::Delete { input, table, returning } => delete_statement(
            state,
            model,
            *input,
            table,
            returning,
            budget,
        ),
        PlanView::CreateTable { name, fields, if_not_exists } => with_budget(
            create_table_decision(
                catalog,
                model.coerce,
                model.types,
                name,
                fields,
                if_not_exists,
            ),
            budget,
        ),
        PlanView::CreateLink { owner, name, target, local_key, target_key } => Ok(
            (link_decision(owner, name, target, local_key, target_key), budget),
        ),
        PlanView::AlterTable { table, action } => with_budget(
            alter_decision(catalog, model.types, model.session.words, table, action),
            budget,
        ),
        PlanView::DropTable { name, if_exists } => Ok(
            (drop_table_decision(catalog, state.views, name, if_exists), budget),
        ),
        PlanView::CreateView { name, query_text } => with_budget(
            create_view_decision(state.views, name, query_text),
            budget,
        ),
        PlanView::RefreshView { name } => with_budget(
            refresh_view_decision(state.views, model.parse, name),
            budget,
        ),
        PlanView::DropView { name, if_exists } => with_budget(
            drop_view_statement(state.views, name, if_exists),
            budget,
        ),
        PlanView::Begin => with_budget(begin_decision(state.in_transaction), budget),
        PlanView::Commit => with_budget(commit_decision(state.in_transaction), budget),
        PlanView::Rollback => with_budget(rollback_decision(state.in_transaction), budget),
        _ => read_statement(state, model.session, plan, budget),
    }
}

/// What comes of a plan: it is made ready and checked, and then decided.
pub open spec fn plan_decision(
    state: EngineState,
    model: EngineModel,
    plan: PlanView,
    budget: Budget,
) -> Result<(DecisionView, Budget), ErrorView> {
    match prepared_plan(state.catalog, model, plan) {
        Err(error) => Err(error),
        Ok(ready) => match plan_error(state.catalog, model.check, ready) {
            Some(error) => Err(error),
            None => statement_decision(state, model, ready, budget),
        },
    }
}

/// The state after a step of the storage.
pub open spec fn after_op(state: EngineState, op: StorageOpView) -> EngineState {
    match op {
        StorageOpView::Begin => EngineState { in_transaction: true, ..state },
        StorageOpView::Commit => EngineState { in_transaction: false, ..state },
        StorageOpView::Rollback => EngineState { in_transaction: false, ..state },
        StorageOpView::RegisterView { view } => EngineState {
            views: state.views.push(view),
            ..state
        },
        StorageOpView::UnregisterView { name } => EngineState {
            views: match view_at(state.views, name) {
                Some(i) => state.views.remove(i),
                None => state.views,
            },
            ..state
        },
        StorageOpView::MarkClean { name } => EngineState {
            views: clean(state.views, name),
            ..state
        },
        StorageOpView::MarkCleanInMemory { name } => EngineState {
            views: clean(state.views, name),
            ..state
        },
        StorageOpView::MarkDependentsDirty { table } => EngineState {
            views: dirtied(state.views, table),
            ..state
        },
        _ => state,
    }
}

/// The views, the one of this name up to date.
pub open spec fn clean(views: Seq<ViewDefView>, name: Seq<char>) -> Seq<ViewDefView> {
    match view_at(views, name) {
        Some(i) => views.update(i, ViewDefView { dirty: false, ..views[i] }),
        None => views,
    }
}

/// The state after the first `n` steps of the storage.
pub open spec fn after_ops(state: EngineState, ops: Seq<StorageOpView>, n: int) -> EngineState
    decreases n,
{
    if n <= 0 {
        state
    } else {
        after_op(after_ops(state, ops, n - 1), ops[n - 1])
    }
}

/// What the storage reports of the steps it took: the rows as it stored them,
/// how many rows it removed, and the number of an index it made.
#[derive(Debug, PartialEq, Eq)]
pub struct StorageReport {
    pub rows: Vec<Vec<Value>>,
    pub removed: u64,
    pub index_id: u64,
}

/// What a statement answers once the storage reports.
pub open spec fn replied(
    reply: ReplyView,
    rows: Seq<Seq<ValueView>>,
    removed: u64,
    index_id: u64,
) -> ResultView {
    match reply {
        ReplyView::Fixed { result } => result,
        ReplyView::Inserted { columns } => match columns {
            Some(columns) => ResultView::Rows { columns, rows },
            None => ResultView::Modified(rows.len() as u64),
        },
        ReplyView::Deleted => ResultView::Modified(removed),
        ReplyView::PathIndex { table, unique } => ResultView::Executed {
            message: (if unique {
                "unique expression index "@
            } else {
                "expression index "@
            }) + decimal(index_id as nat) + " on '"@ + table + "' created"@,
        },
    }
}

/// Answer a statement once the storage reports.
pub fn finish(reply: Reply, report: StorageReport) -> (result: QueryResult)
    ensures
        result.deep_view() == replied(
            reply.deep_view(),
            report.rows.deep_view(),
            report.removed,
            report.index_id,
        ),
{
    match reply {
        Reply::Fixed { result } => result,
        Reply::Inserted { columns } => {
            assert(report.rows.deep_view().len() == report.rows.len());
            match columns {
                Some(columns) => QueryResult::Rows { columns, rows: report.rows },
                None => QueryResult::Modified(report.rows.len() as u64),
            }
        },
        Reply::Deleted => QueryResult::Modified(report.removed),
        Reply::PathIndex { table, unique } => {
            let mut message = if unique {
                "unique expression index ".to_owned()
            } else {
                "expression index ".to_owned()
            };
            push_decimal(&mut message, report.index_id);
            push_text(&mut message, " on '");
            push_text(&mut message, table.as_str());
            push_text(&mut message, "' created");
            QueryResult::Executed { message }
        },
    }
}

/// The engine: the tables as they stand, the views, whether a transaction is
/// open, and the functions that the embedding program supplies. `check` may
/// refuse a plan that is ready to run.
pub struct Engine<E, C, F, T, J, Q, S, B, P, K, N, G, V> {
    pub catalog: Catalog,
    pub views: Vec<ViewDef>,
    pub in_transaction: bool,
    pub session: Session<E, C, F, T, J, Q, S, B, P>,
    pub coercion: Coercion<K>,
    pub types: TypeNames<N>,
    pub parser: Parser<G>,
    pub check: PlanCheck<V>,
    pub memory_limit: usize,
}

impl<
    E: Fn(&Expr, &Vec<Value>, &Vec<String>) -> Value,
    C: Fn(&Value, &Value) -> Order,
    F: Fn(FloatOp) -> u64,
    T: Fn(Subject) -> Option<String>,
    J: Fn(&String) -> Result<Vec<u8>, String>,
    Q: Fn(&Expr, Option<(&Vec<Value>, &Vec<String>)>) -> Result<Expr, QueryError>,
    S: Fn(Holding) -> usize,
    B: Fn(Option<&Expr>, &Table) -> bool,
    P: Fn() -> Result<(), QueryError>,
    K: Fn(&Value, &ColumnDef) -> Result<Value, String>,
    N: Fn(&String) -> Result<TypeId, String>,
    G: Fn(&String) -> Result<Statement, String>,
    V: Fn(&Catalog, &PlanNode) -> Result<(), QueryError>,
> Engine<E, C, F, T, J, Q, S, B, P, K, N, G, V> {
    /// The functions are total and functions of what their arguments hold.
    pub open spec fn ok(&self) -> bool {
        &&& self.session.ok()
        &&& self.coercion.ok()
        &&& self.types.ok()
        &&& self.parser.ok()
        &&& self.check.ok()
    }

    /// The tables are as storage keeps them: rows fit their columns, columns have
    /// their places, and indexes agree with the rows.
    pub open spec fn wf(&self) -> bool {
        &&& catalog_fits(self.catalog.deep_view())
        &&& catalog_placed(self.catalog.deep_view())
        &&& indexes_agree(self.catalog.deep_view())
    }

    /// The state that statements depend on.
    pub open spec fn state(&self) -> EngineState {
        EngineState {
            catalog: self.catalog.deep_view(),
            views: self.views.deep_view(),
            in_transaction: self.in_transaction,
        }
    }

    /// What the functions compute.
    pub open spec fn model(&self) -> EngineModel {
        EngineModel {
            session: self.session.model(),
            coerce: self.coercion.model@,
            types: self.types.model@,
            parse: self.parser.model@,
            check: self.check.model@,
        }
    }

    fn ready_once(&self, plan: &PlanNode) -> (ready: Result<PlanNode, QueryError>)
        requires
            self.ok(),
        ensures
            outcome(ready) == readied(self.catalog.deep_view(), self.model(), plan.deep_view()),
    {
        let coerced = coerce_typed_literals(&self.catalog, &self.coercion, plan)?;
        Ok(lower_unindexed_scans(&self.catalog, &self.session.scalars, &coerced))
    }

    /// The plan that is run.
    pub fn lower(&self, plan: &PlanNode) -> (ready: Result<PlanNode, QueryError>)
        requires
            self.ok(),
        ensures
            outcome(ready) == prepared_plan(
                self.catalog.deep_view(),
                self.model(),
                plan.deep_view(),
            ),
    {
        let once = self.ready_once(plan)?;
        self.ready_once(&once)
    }

    /// What comes of a plan. The plan is made ready first, as every other way
    /// into the engine does, and nothing of a plan that is refused is run.
    pub fn execute_plan(&self, plan: &PlanNode) -> (decision: Result<Decision, QueryError>)
        requires
            self.ok(),
            self.wf(),
        ensures
            ({
                let expected = plan_decision(
                    self.state(),
                    self.model(),
                    plan.deep_view(),
                    Budget { used: 0, limit: self.memory_limit },
                );
                match decision {
                    Ok(made) => expected matches Ok((shown, _)) && made.deep_view() == shown,
                    Err(error) => expected == Err::<(DecisionView, Budget), ErrorView>(
                        error.deep_view(),
                    ) || call_ensures(self.session.poll, (), Err(error)),
                }
            }),
    {
        let ready = self.lower(plan)?;
        validate_no_stray_aggregates(&ready)?;
        validate_json_path_types(&self.catalog, &ready)?;
        self.check.validate(&self.catalog, &ready)?;
        let mut budget = Budget { used: 0, limit: self.memory_limit };
        self.dispatch_mut(&ready, &mut budget)
    }

    fn dispatch_mut(&self, plan: &PlanNode, budget: &mut Budget) -> (decision: Result<
        Decision,
        QueryError,
    >)
        requires
            self.ok(),
            self.wf(),
        ensures
            decided_polled(
                decision,
                *final(budget),
                statement_decision(self.state(), self.model(), plan.deep_view(), *old(budget)),
                self.session.poll,
            ),
    {
        match plan {
            PlanNode::Insert { table, rows, returning } => decide_insert(
                &self.catalog,
                &self.coercion,
                &self.session.sizes,
                table,
                rows,
                *returning,
                budget,
            ),
            PlanNode::Upsert { table, key_column, assignments, on_conflict } => decide_upsert(
                &self.catalog,
                &self.coercion,
                table,
                key_column,
                assignments,
                on_conflict,
            ),
            PlanNode::Update { input, table, assignments, returning } => self.execute_update(
                input,
                table,
                assignments,
                *returning,
                budget,
            ),
            PlanNode::Delete { input, table, returning } => self.execute_delete(
                input,
                table,
                *returning,
                budget,
            ),
            PlanNode::CreateTable { .. } => self.execute_definition(plan),
            PlanNode::CreateLink { .. } => self.execute_definition(plan),
            PlanNode::AlterTable { .. } => self.execute_definition(plan),
            PlanNode::DropTable { .. } => self.execute_definition(plan),
            PlanNode::CreateView { .. } => self.execute_definition(plan),
            PlanNode::RefreshView { .. } => self.execute_definition(plan),
            PlanNode::DropView { .. } => self.execute_definition(plan),
            PlanNode::Begin => self.execute_definition(plan),
            PlanNode::Commit => self.execute_definition(plan),
            PlanNode::Rollback => self.execute_definition(plan),
            _ => self.execute_read(plan, budget),
        }
    }

    fn execute_update(
        &self,
        input: &PlanNode,
        table: &String,
        assignments: &Vec<Assignment>,
        returning: bool,
        budget: &mut Budget,
    ) -> (decision: Result<Decision, QueryError>)
        requires
            self.ok(),
            self.wf(),
        ensures
            decided_polled(
                decision,
                *final(budget),
                update_statement(
                    self.state(),
                    self.model(),
                    input.deep_view(),
                    table@,
                    assignments.deep_view(),
                    returning,
                    *old(budget),
                ),
                self.session.poll,
            ),
    {
        check_update(&self.catalog, &self.coercion, table, assignments)?;
        match self.stale_for(input, table, *budget)? {
            Some(view) => {
                return Ok(Decision::Refresh { view });
            },
            None => {},
        }
        decide_update(
            &self.catalog,
            &self.session,
            &self.coercion,
            input,
            table,
            assignments,
            returning,
            budget,
        )
    }

    fn execute_delete(
        &self,
        input: &PlanNode,
        table: &String,
        returning: bool,
        budget: &mut Budget,
    ) -> (decision: Result<Decision, QueryError>)
        requires
            self.ok(),
            self.wf(),
        ensures
            decided_polled(
                decision,
                *final(budget),
                delete_statement(
                    self.state(),
                    self.model(),
                    input.deep_view(),
                    table@,
                    returning,
                    *old(budget),
                ),
                self.session.poll,
            ),
    {
        if returning && self.catalog.table(table).is_none() {
            return Err(QueryError::TableNotFound(table.clone()));
        }
        match self.stale_for(input, table, *budget)? {
            Some(view) => {
                return Ok(Decision::Refresh { view });
            },
            None => {},
        }
        decide_delete(&self.catalog, &self.session, input, table, returning, budget)
    }

    fn stale_for(&self, input: &PlanNode, table: &String, budget: Budget) -> (stale: Result<
        Option<String>,
        QueryError,
    >)
        requires
            self.ok(),
            self.wf(),
        ensures
            stale is Ok ==> readable(input.deep_view()),
            answered(
                stale,
                if readable(input.deep_view()) {
                    mutation_stale(
                        self.state(),
                        self.session.model(),
                        input.deep_view(),
                        table@,
                        budget,
                    )
                } else {
                    Err(unreadable_error())
                },
                self.session.poll,
            ),
    {
        if !is_readable(input) {
            return Err(QueryError::execution("this statement cannot be read from"));
        }
        let plain: bool = match input {
            PlanNode::SeqScan { table: t } => *t == *table,
            PlanNode::Filter { input: inner, .. } => {
                let inner: &PlanNode = inner;
                match inner {
                    PlanNode::SeqScan { table: t } => {
                        assert(inner.deep_view() == PlanView::SeqScan { table: t@ });
                        *t == *table
                    },
                    _ => {
                        assert(!(inner.deep_view() is SeqScan));
                        false
                    },
                }
            },
            _ => false,
        };
        if plain {
            let none: Option<String> = None;
            assert(none.deep_view() == None::<Seq<char>>);
            return Ok(none);
        }
        find_first_stale(&self.views, &self.catalog, &self.session, input, budget)
    }

    fn execute_read(&self, plan: &PlanNode, budget: &mut Budget) -> (decision: Result<
        Decision,
        QueryError,
    >)
        requires
            self.ok(),
            self.wf(),
        ensures
            decided_polled(
                decision,
                *final(budget),
                read_statement(
                    self.state(),
                    self.session.model(),
                    plan.deep_view(),
                    *old(budget),
                ),
                self.session.poll,
            ),
    {
        if !is_readable(plan) {
            return Err(QueryError::execution("this statement cannot be read from"));
        }
        match find_first_stale(&self.views, &self.catalog, &self.session, plan, *budget)? {
            Some(view) => {
                return Ok(Decision::Refresh { view });
            },
            None => {},
        }
        let result = dispatch_read(&self.catalog, &self.session, plan, budget)?;
        Ok(Decision::Answer { result })
    }

    fn execute_definition(&self, plan: &PlanNode) -> (decision: Result<Decision, QueryError>)
        requires
            self.ok(),
            self.wf(),
            plan is CreateTable || plan is CreateLink || plan is AlterTable || plan is DropTable
                || plan is CreateView || plan is RefreshView || plan is DropView || plan is Begin
                || plan is Commit || plan is Rollback,
        ensures
            forall|budget: Budget|
                decided_polled(
                    decision,
                    budget,
                    #[trigger] statement_decision(
                        self.state(),
                        self.model(),
                        plan.deep_view(),
                        budget,
                    ),
                    self.session.poll,
                ),
    {
        match plan {
            PlanNode::CreateTable { name, fields, if_not_exists } => decide_create_table(
                &self.catalog,
                &self.coercion,
                &self.types,
                name,
                fields,
                *if_not_exists,
            ),
            PlanNode::CreateLink { owner, name, target, local_key, target_key } => Ok(
                create_link_from_parts(owner, name, target, local_key, target_key),
            ),
            PlanNode::AlterTable { table, action } => decide_alter(
                &self.catalog,
                &self.types,
                &self.session.wording,
                table,
                action,
                &self.session.poll,
            ),
            PlanNode::DropTable { name, if_exists } => Ok(
                decide_drop_table(&self.catalog, &self.views, name, *if_exists),
            ),
            PlanNode::CreateView { name, query_text } => create_view(&self.views, name, query_text),
            PlanNode::RefreshView { name } => refresh_view(&self.views, &self.parser, name),
            PlanNode::DropView { name, if_exists } => {
                if *if_exists && find_view(&self.views, name).is_none() {
                    return Ok(
                        Decision::Answer {
                            result: QueryResult::Executed {
                                message: around("view '", name, "' does not exist (skipped)"),
                            },
                        },
                    );
                }
                self.drop_view(name)
            },
            PlanNode::Begin => if self.in_transaction {
                Err(
                    QueryError::execution(
                        "already in a transaction (nested transactions not supported)",
                    ),
                )
            } else {
                Ok(step(StorageOp::Begin, "transaction started"))
            },
            PlanNode::Commit => if self.in_transaction {
                Ok(step(StorageOp::Commit, "transaction committed"))
            } else {
                Err(QueryError::execution("no active transaction to commit"))
            },
            _ => if self.in_transaction {
                Ok(step(StorageOp::Rollback, "transaction rolled back"))
            } else {
                Err(QueryError::execution("no active transaction to roll back"))
            },
        }
    }

    /// Decide the refresh of a view.
    pub fn refresh_view(&self, name: &String) -> (decision: Result<Decision, QueryError>)
        requires
            self.ok(),
        ensures
            outcome(decision) == refresh_view_decision(
                self.views.deep_view(),
                self.parser.model@,
                name@,
            ),
    {
        refresh_view(&self.views, &self.parser, name)
    }

    /// Decide the removal of a view.
    pub fn drop_view(&self, name: &String) -> (decision: Result<Decision, QueryError>)
        ensures
            outcome(decision) == drop_view_decision(self.views.deep_view(), name@),
    {
        drop_view(&self.views, name)
    }

    /// The tables that a view over this query depends on.
    pub fn extract_view_deps(&self, name: &String, query_text: &String) -> (deps: Result<
        Vec<String>,
        QueryError,
    >)
        requires
            self.ok(),
        ensures
            outcome(deps) == view_deps(self.parser.model@, name@, query_text@),
    {
        extract_view_deps(&self.parser, name, query_text)
    }

    /// Decide how a view is filled with the rows of its source.
    pub fn source_answered(
        &self,
        name: &String,
        query_text: &String,
        create: bool,
        result: QueryResult,
    ) -> (decision: Result<Decision, QueryError>)
        requires
            self.ok(),
        ensures
            outcome(decision) == (if create {
                fill_new_view(
                    self.parser.model@,
                    self.in_transaction,
                    name@,
                    query_text@,
                    result.deep_view(),
                )
            } else {
                refill_view(
                    self.catalog.deep_view(),
                    self.in_transaction,
                    name@,
                    result.deep_view(),
                )
            }),
    {
        fill_view(
            &self.catalog,
            &self.parser,
            self.in_transaction,
            name,
            query_text,
            create,
            result,
        )
    }

    /// The fields of a nesting projection with their links resolved.
    pub fn resolve_nested_via_links(&self, fields: &Vec<NestedProjectField>, outer: &String) -> (resolved:
        Result<Vec<NestedProjectField>, QueryError>)
        ensures
            outcome(resolved) == resolved_from(
                self.catalog.deep_view(),
                fields.deep_view(),
                0,
                outer@,
            ),
    {
        resolve_nested_via_links(&self.catalog, fields, outer)
    }

    /// Whether looking keys up one by one is expected to pay off.
    pub fn child_index_probe_pays_off(&self, table: &String, column: &String, n_keys: usize) -> (pays_off:
        bool)
        ensures
            pays_off == probe_pays_off(self.catalog.deep_view(), table@, column@, n_keys as int),
    {
        child_index_probe_pays_off(&self.catalog, table, column, n_keys)
    }

    /// Take note of a step that the storage has taken.
    pub fn applied(&mut self, op: StorageOp)
        ensures
            final(self).state() == after_op(old(self).state(), op.deep_view()),
            final(self).session == old(self).session,
            final(self).coercion == old(self).coercion,
            final(self).types == old(self).types,
            final(self).parser == old(self).parser,
            final(self).check == old(self).check,
            final(self).memory_limit == old(self).memory_limit,
            final(self).catalog == old(self).catalog,
    {
        let ghost before = self.views.deep_view();
        match op {
            StorageOp::Begin => {
                self.in_transaction = true;
            },
            StorageOp::Commit | StorageOp::Rollback => {
                self.in_transaction = false;
            },
            StorageOp::RegisterView { view } => {
                let ghost shown = view.deep_view();
                self.views.push(view);
                assert(self.views.deep_view() =~= before.push(shown));
            },
            StorageOp::UnregisterView { name } => {
                match find_view(&self.views, &name) {
                    Some(at) => {
                        let _removed = self.views.remove(at);
                        assert(self.views.deep_view() =~= before.remove(at as int));
                    },
                    None => {},
                }
            },
            StorageOp::MarkClean { name } => {
                clean_view(&mut self.views, &name);
            },
            StorageOp::MarkCleanInMemory { name } => {
                clean_view(&mut self.views, &name);
            },
            StorageOp::MarkDependentsDirty { table } => {
                mark_dependents_dirty(&mut self.views, &table);
            },
            _ => {},
        }
    }

    /// Take the tables as the storage now has them.
    pub fn reload(&mut self, catalog: Catalog)
        ensures
            final(self).state() == (EngineState {
                catalog: catalog.deep_view(),
                ..old(self).state()
            }),
            final(self).session == old(self).session,
            final(self).coercion == old(self).coercion,
            final(self).types == old(self).types,
            final(self).parser == old(self).parser,
            final(self).check == old(self).check,
            final(self).memory_limit == old(self).memory_limit,
    {
        self.catalog = catalog;
    }
}

fn step(op: StorageOp, message: &str) -> (decision: Decision)
    ensures
        decision.deep_view() == stepped(op.deep_view(), message@),
{
    let mut ops: Vec<StorageOp> = Vec::new();
    ops.push(op);
    assert(ops.deep_view() =~= seq![op.deep_view()]);
    Decision::Write {
        ops,
        reply: Reply::Fixed { result: QueryResult::Executed { message: message.to_owned() } },
    }
}

fn clean_view(views: &mut Vec<ViewDef>, name: &String)
    ensures
        final(views).deep_view() == clean(old(views).deep_view(), name@),
{
    let ghost before = views.deep_view();
    match find_view(views, name) {
        Some(at) => {
            let def = ViewDef {
                name: views[at].name.clone(),
                query: views[at].query.clone(),
                depends_on: clone_texts(&views[at].depends_on),
                dirty: false,
            };
            assert(before[at as int] == views[at as int].deep_view());
            let ghost shown = def.deep_view();
            views.set(at, def);
            assert(views.deep_view() =~= before.update(at as int, shown));
        },
        None => {},
    }
}

/// A transaction begins where none is open, and only there; it ends where one is
/// open, and only there; and each of the three does what it says.
pub proof fn transactions_do_not_nest(state: EngineState)
    ensures
        begin_decision(state.in_transaction) is Ok <==> !state.in_transaction,
        commit_decision(state.in_transaction) is Ok <==> state.in_transaction,
        rollback_decision(state.in_transaction) is Ok <==> state.in_transaction,
        begin_decision(state.in_transaction) matches Ok(DecisionView::Write { ops, .. })
            ==> after_ops(state, ops, ops.len() as int) == (EngineState {
            in_transaction: true,
            ..state
        }),
        commit_decision(state.in_transaction) matches Ok(DecisionView::Write { ops, .. })
            ==> after_ops(state, ops, ops.len() as int) == (EngineState {
            in_transaction: false,
            ..state
        }),
        rollback_decision(state.in_transaction) matches Ok(DecisionView::Write { ops, .. })
            ==> after_ops(state, ops, ops.len() as int) == (EngineState {
            in_transaction: false,
            ..state
        }),
{
    reveal_with_fuel(after_ops, 2);
}

/// Whether a statement changes the rows of `table`.
pub open spec fn changes_rows(plan: PlanView, table: Seq<char>) -> bool {
    match plan {
        PlanView::Insert { table: t, .. } => t == table,
        PlanView::Upsert { table: t, .. } => t == table,
        PlanView::Update { table: t, .. } => t == table,
        PlanView::Delete { table: t, .. } => t == table,
        PlanView::DropTable { name, .. } => name == table,
        _ => false,
    }
}

/// Once the storage has taken the steps of a statement that changes rows, or
/// drops a table, every view that depends on the table is out of date.
pub proof fn changes_make_views_stale(
    state: EngineState,
    model: EngineModel,
    plan: PlanView,
    budget: Budget,
    table: Seq<char>,
    v: int,
)
    requires
        changes_rows(plan, table),
    ensures
        statement_decision(state, model, plan, budget) matches Ok((DecisionView::Write { ops, .. }, _))
            ==> ({
            let after = after_ops(state, ops, ops.len() as int);
            after.views.len() == state.views.len() && (0 <= v < state.views.len() && depends_on(
                state.views[v],
                table,
            ) ==> after.views[v].dirty)
        }),
{
    match statement_decision(state, model, plan, budget) {
        Ok((DecisionView::Write { ops, .. }, _)) => {
            match plan {
                PlanView::Insert { table: t, rows, returning } => {
                    inserts_end_dirty(state.catalog, model, t, rows, returning, budget);
                },
                PlanView::Upsert { table: t, key_column, assignments, on_conflict } => {
                    upserts_end_dirty(
                        state.catalog,
                        model.coerce,
                        t,
                        key_column,
                        assignments,
                        on_conflict,
                    );
                },
                PlanView::Update { input, table: t, assignments, returning } => {
                    updates_end_dirty(
                        state.catalog,
                        model,
                        *input,
                        t,
                        assignments,
                        returning,
                        budget,
                    );
                },
                PlanView::Delete { .. } => {
                    assert(ends_dirty(ops, table));
                },
                _ => {
                    assert(ends_dirty(ops, table));
                },
            }
            let n = ops.len() as int;
            rows_keep_views(state, ops, n - 1);
        },
        _ => {},
    }
}

/// Steps that touch rows alone, and then one that marks the views over a table.
spec fn ends_dirty(ops: Seq<StorageOpView>, table: Seq<char>) -> bool {
    &&& ops.len() > 0
    &&& ops[ops.len() - 1] == (StorageOpView::MarkDependentsDirty { table })
    &&& forall|i: int| 0 <= i < ops.len() - 1 ==> touches_rows(#[trigger] ops[i])
}

proof fn inserts_end_dirty(
    catalog: CatalogView,
    model: EngineModel,
    table: Seq<char>,
    rows: Seq<Seq<AssignmentView>>,
    returning: bool,
    budget: Budget,
)
    ensures
        insert_decision(
            catalog,
            model.coerce,
            model.session.sizes,
            table,
            rows,
            returning,
            budget,
        ) matches Ok((DecisionView::Write { ops, .. }, _)) ==> ends_dirty(ops, table),
{
}

proof fn upserts_end_dirty(
    catalog: CatalogView,
    coerce: CoerceModel,
    table: Seq<char>,
    key_column: Seq<char>,
    assignments: Seq<AssignmentView>,
    on_conflict: Seq<AssignmentView>,
)
    ensures
        upsert_decision(catalog, coerce, table, key_column, assignments, on_conflict) matches Ok(
            DecisionView::Write { ops, .. },
        ) ==> ends_dirty(ops, table),
{
}

proof fn updates_end_dirty(
    catalog: CatalogView,
    model: EngineModel,
    input: PlanView,
    table: Seq<char>,
    assignments: Seq<AssignmentView>,
    returning: bool,
    budget: Budget,
)
    ensures
        update_decision(
            catalog,
            model.session,
            model.coerce,
            input,
            table,
            assignments,
            returning,
            budget,
        ) matches Ok((DecisionView::Write { ops, .. }, _)) ==> ends_dirty(ops, table),
{
}

/// Steps that touch rows alone leave the views as they are.
proof fn rows_keep_views(state: EngineState, ops: Seq<StorageOpView>, n: int)
    requires
        0 <= n <= ops.len(),
        forall|i: int| 0 <= i < n ==> touches_rows(#[trigger] ops[i]),
    ensures
        after_ops(state, ops, n) == state,
    decreases n,
{
    if n > 0 {
        rows_keep_views(state, ops, n - 1);
        assert(touches_rows(ops[n - 1]));
    }
}

spec fn touches_rows(op: StorageOpView) -> bool {
    op is Insert || op is Update || op is Delete || op is DropTable
}

/// Once a view is filled anew, it is up to date.
pub proof fn refreshed_views_are_clean(
    state: EngineState,
    name: Seq<char>,
    result: ResultView,
)
    ensures
        refill_view(state.catalog, state.in_transaction, name, result) matches Ok(
            DecisionView::Write { ops, .. },
        ) ==> !is_dirty(after_ops(state, ops, ops.len() as int).views, name),
{
    match refill_view(state.catalog, state.in_transaction, name, result) {
        Ok(DecisionView::Write { ops, .. }) => {
            let n = ops.len() as int;
            reveal_with_fuel(after_ops, 4);
            assert(ops[n - 1] == cleaned(state.in_transaction, name));
            assert(after_ops(state, ops, n - 1) == state);
            let views = clean(state.views, name);
            assert(after_ops(state, ops, n).views == views);
            match view_at(state.views, name) {
                Some(i) => {
                    first_where_found(view_names(state.views), is_name(name));
                    assert(view_names(views) =~= view_names(state.views));
                },
                None => {},
            }
        },
        _ => {},
    }
}

/// A read is answered only where no view that it scans is out of date.
pub proof fn answers_come_from_clean_views(
    state: EngineState,
    model: EngineModel,
    plan: PlanView,
    budget: Budget,
    i: int,
)
    requires
        !(plan is DropTable) && !(plan is DropView) && !(plan is CreateTable) && !(
        plan is AlterTable) && !(plan is CreateView) && !(plan is RefreshView),
        0 <= i < scanned_tables(state.catalog, plan).len(),
    ensures
        statement_decision(state, model, plan, budget) matches Ok((DecisionView::Answer { .. }, _))
            ==> !is_dirty(state.views, scanned_tables(state.catalog, plan)[i]),
{
    stale_views_are_met(state.views, state.catalog, model.session, plan, budget);
    if stale_view(state.views, state.catalog, plan) is None {
        none_is_stale(state.views, scanned_tables(state.catalog, plan), 0, i);
    }
}

proof fn none_is_stale(views: Seq<ViewDefView>, tables: Seq<Seq<char>>, k: int, i: int)
    requires
        0 <= k <= i < tables.len(),
        stale_from(views, tables, k) is None,
    ensures
        !is_dirty(views, tables[i]),
    decreases i - k,
{
    if k < i {
        none_is_stale(views, tables, k + 1, i);
    }
}

} // verus!
