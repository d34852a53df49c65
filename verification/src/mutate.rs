//! What the statements that change rows have the storage do.

use vstd::prelude::*;

use crate::aggregate::RowId;
use crate::catalog::{Catalog, CatalogView, ColumnDef, Schema, SchemaView, Table, TableView};
use crate::coerce::{prefixed, CoerceModel, Coercion};
use crate::error::{
    no_column_error, outcome, Budget, ErrorView, QueryError, QueryResult, ResultView,
};
use crate::expr::{clone_expr, BinOp, Expr, ExprView};
use crate::fast::keeps;
use crate::group::ints;
use crate::index::{
    catalog_fits, fetch_rows, fetched_from, found_row_fits, found_table_fits, index_scan_rids,
    indexes_agree, lookup_from, lookup_rids, meeting_from, rids_outcome, scan_rids, sparse_rids,
    sparse_test, table_fits,
};
use crate::keys::KeyTable;
use crate::lower::{binary, index_scan_table, literal_of, literal_to_value, scan_table};
use crate::mentions::{contains_subquery, holds_subquery};
use crate::operators::contains_after_push;
use crate::plan::{Assignment, AssignmentView, PlanNode, PlanView};
use crate::provenance::with_budget;
use crate::read::{answer, dispatch_read, readable};
use crate::rows::{
    assigned, build_row, build_rows, catalog_placed, find_targets, found_table_placed, new_row,
    new_rows, prepare_assigned, set_value, targets_from, type_value, typed_value, update_row,
    updated_row, Assigned, AssignedView,
};
use crate::scalars::{EvalModel, FloatOp, Order, ScalarModel, Scalars};
use crate::seqs::{first_where_found, is_name};
use crate::session::{
    hold_charge, stopped, Holding, HoldingView, Session, SessionModel, SizeModel, Sizes,
};
use crate::storage::{Decision, DecisionView, Reply, ReplyView, StorageOp, StorageOpView};
use crate::text::push_text;
use crate::value::{clone_row, Value, ValueView};
use crate::wording::Subject;

verus! {

/// The ids of the rows from `i` on that a predicate keeps.
pub open spec fn kept_rids_from(
    eval: EvalModel,
    predicate: Option<ExprView>,
    table: TableView,
    i: int,
) -> Seq<RowId>
    decreases table.rows.len() - i,
{
    if i < 0 || i >= table.rows.len() {
        Seq::empty()
    } else {
        let rest = kept_rids_from(eval, predicate, table, i + 1);
        if keeps(eval, predicate, table.rows[i].values, table.schema.column_names()) {
            seq![table.rows[i].rid] + rest
        } else {
            rest
        }
    }
}

/// The ids of the rows from `i` on that are among `rows`.
pub open spec fn equal_rids_from(table: TableView, rows: Seq<Seq<ValueView>>, i: int) -> Seq<RowId>
    decreases table.rows.len() - i,
{
    if i < 0 || i >= table.rows.len() {
        Seq::empty()
    } else {
        let rest = equal_rids_from(table, rows, i + 1);
        if rows.contains(table.rows[i].values) {
            seq![table.rows[i].rid] + rest
        } else {
            rest
        }
    }
}

/// The ids of the rows of a table that a predicate keeps.
pub open spec fn kept_rids(
    catalog: CatalogView,
    eval: EvalModel,
    predicate: Option<ExprView>,
    table: Seq<char>,
) -> Result<Seq<RowId>, ErrorView> {
    match catalog.table(table) {
        None => Err(ErrorView::TableNotFound(table)),
        Some(found) => Ok(kept_rids_from(eval, predicate, found, 0)),
    }
}

/// The ids of the rows of a table that are among the rows that a plan answers.
pub open spec fn answered_rids(
    catalog: CatalogView,
    model: SessionModel,
    input: PlanView,
    table: Seq<char>,
    budget: Budget,
) -> Result<(Seq<RowId>, Budget), ErrorView> {
    match answer(catalog, model, input, budget) {
        Err(error) => Err(error),
        Ok((result, left)) => match result {
            ResultView::Rows { columns: _, rows } => match catalog.table(table) {
                None => Err(ErrorView::TableNotFound(table)),
                Some(found) => Ok((equal_rids_from(found, rows, 0), left)),
            },
            _ => Err(ErrorView::Execution("mutation source must be rows"@)),
        },
    }
}

/// The ids of the rows that an equality lookup leads to.
pub open spec fn lookup_mutation_rids(
    catalog: CatalogView,
    model: SessionModel,
    table: Seq<char>,
    column: Seq<char>,
    key: ExprView,
) -> Result<Seq<RowId>, ErrorView> {
    match literal_of(key) {
        Err(error) => Err(error),
        Ok(value) => match catalog.table(table) {
            None => Err(ErrorView::TableNotFound(table)),
            Some(found) => match catalog.index(table, column) {
                Some(index) => Ok(lookup_from(index.entries, value, 0)),
                None => if found.schema.column_index(column) is None {
                    Err(no_column_error(column))
                } else {
                    Ok(
                        kept_rids_from(
                            model.scalars.eval,
                            Some(binary(ExprView::Field(column), BinOp::Eq, key)),
                            found,
                            0,
                        ),
                    )
                },
            },
        },
    }
}

/// The ids of the rows that a filter over an index scan of `table` leads to, each
/// tested on the columns of the predicate alone; none where the scan is another
/// or the predicate holds a subquery.
pub open spec fn residual_rids(
    catalog: CatalogView,
    scalars: ScalarModel,
    inner: PlanView,
    predicate: ExprView,
    table: Seq<char>,
) -> Result<Option<Seq<RowId>>, ErrorView> {
    if holds_subquery(predicate) || index_scan_table(inner) != Some(table) {
        Ok(None)
    } else {
        match scan_rids(catalog, scalars.eval, scalars.order, inner) {
            Err(error) => Err(error),
            Ok(None) => Ok(None),
            Ok(Some(rids)) => match catalog.table(table) {
                None => Err(ErrorView::TableNotFound(table)),
                Some(found) => Ok(
                    Some(
                        meeting_from(
                            found,
                            rids,
                            sparse_test(
                                scalars.eval,
                                predicate,
                                found.schema.column_names(),
                            ),
                            0,
                        ),
                    ),
                ),
            },
        }
    }
}

/// The ids of the rows that a statement changes: those of `table` that its input
/// leads to.
pub open spec fn mutation_rids(
    catalog: CatalogView,
    model: SessionModel,
    input: PlanView,
    table: Seq<char>,
    budget: Budget,
) -> Result<(Seq<RowId>, Budget), ErrorView> {
    let eval = model.scalars.eval;
    let general = answered_rids(catalog, model, input, table, budget);
    match input {
        PlanView::SeqScan { table: t } => if t == table {
            with_budget(kept_rids(catalog, eval, None, table), budget)
        } else {
            general
        },
        PlanView::IndexScan { table: t, column, key } => if t == table {
            with_budget(lookup_mutation_rids(catalog, model, table, column, key), budget)
        } else {
            general
        },
        PlanView::RangeScan { table: t, .. } => if t == table {
            scan_or(catalog, model, input, budget, general)
        } else {
            general
        },
        PlanView::ExprIndexScan { table: t, .. } => if t == table {
            scan_or(catalog, model, input, budget, general)
        } else {
            general
        },
        PlanView::ExprRangeScan { table: t, .. } => if t == table {
            scan_or(catalog, model, input, budget, general)
        } else {
            general
        },
        PlanView::Filter { input: inner, predicate } => match *inner {
            PlanView::SeqScan { table: t } => if t == table {
                with_budget(kept_rids(catalog, eval, Some(predicate), table), budget)
            } else {
                general
            },
            _ => match residual_rids(catalog, model.scalars, *inner, predicate, table) {
                Err(error) => Err(error),
                Ok(Some(rids)) => Ok((rids, budget)),
                Ok(None) => general,
            },
        },
        _ => general,
    }
}

/// The ids that an index scan leads to, or else the general way.
pub open spec fn scan_or(
    catalog: CatalogView,
    model: SessionModel,
    input: PlanView,
    budget: Budget,
    general: Result<(Seq<RowId>, Budget), ErrorView>,
) -> Result<(Seq<RowId>, Budget), ErrorView> {
    match scan_rids(catalog, model.scalars.eval, model.scalars.order, input) {
        Err(error) => Err(error),
        Ok(Some(rids)) => Ok((rids, budget)),
        Ok(None) => general,
    }
}

/// Row ids, and what finding them left of the budget.
pub open spec fn found_rids<P: Fn() -> Result<(), QueryError>>(
    result: Result<Vec<RowId>, QueryError>,
    left: Budget,
    expected: Result<(Seq<RowId>, Budget), ErrorView>,
    poll: P,
) -> bool {
    match result {
        Ok(rids) => expected == Ok::<(Seq<RowId>, Budget), ErrorView>((rids@, left)),
        Err(error) => expected == Err::<(Seq<RowId>, Budget), ErrorView>(error.deep_view())
            || call_ensures(poll, (), Err(error)),
    }
}

fn keep_rids<
    E: Fn(&Expr, &Vec<Value>, &Vec<String>) -> Value,
    C: Fn(&Value, &Value) -> Order,
    F: Fn(FloatOp) -> u64,
    P: Fn() -> Result<(), QueryError>,
>(
    scalars: &Scalars<E, C, F>,
    found: &Table,
    predicate: Option<&Expr>,
    poll: &P,
) -> (rids: Result<Vec<RowId>, QueryError>)
    requires
        scalars.ok(),
        call_requires(*poll, ()),
    ensures
        match rids {
            Ok(rids) => rids@ == kept_rids_from(
                scalars.values(),
                predicate.deep_view(),
                found.deep_view(),
                0,
            ),
            Err(error) => call_ensures(*poll, (), Err(error)),
        },
{
    let columns = found.schema.column_names();
    let ghost eval = scalars.values();
    let ghost test = predicate.deep_view();
    let ghost view = found.deep_view();
    let ghost all = kept_rids_from(eval, test, view, 0);
    let mut rids: Vec<RowId> = Vec::new();
    let mut i: usize = 0;
    assert(rids@ + all =~= all);
    while i < found.rows.len()
        invariant
            scalars.ok(),
            call_requires(*poll, ()),
            i <= found.rows.len(),
            eval == scalars.values(),
            test == predicate.deep_view(),
            view == found.deep_view(),
            columns.deep_view() == view.schema.column_names(),
            all == rids@ + kept_rids_from(eval, test, view, i as int),
            view.rows.len() == found.rows.len(),
        decreases found.rows.len() - i,
    {
        match poll() {
            Ok(_) => {},
            Err(error) => {
                return Err(error);
            },
        }
        assert(view.rows[i as int] == found.rows[i as int].deep_view());
        let kept: bool = match predicate {
            Some(p) => scalars.eval_predicate(p, &found.rows[i].values, &columns),
            None => true,
        };
        if kept {
            let rid = found.rows[i].rid;
            let ghost before = rids@;
            let ghost rest = kept_rids_from(eval, test, view, i + 1);
            rids.push(rid);
            assert(before + (seq![rid] + rest) =~= before.push(rid) + rest);
        }
        i = i + 1;
    }
    assert(rids@ + Seq::<RowId>::empty() =~= rids@);
    Ok(rids)
}

fn equal_rids<P: Fn() -> Result<(), QueryError>>(found: &Table, rows: &Vec<Vec<Value>>, poll: &P) -> (rids: Result<
    Vec<RowId>,
    QueryError,
>)
    requires
        call_requires(*poll, ()),
    ensures
        match rids {
            Ok(rids) => rids@ == equal_rids_from(found.deep_view(), rows.deep_view(), 0),
            Err(error) => call_ensures(*poll, (), Err(error)),
        },
{
    let ghost wanted = rows.deep_view();
    let mut table = KeyTable::new();
    let mut k: usize = 0;
    while k < rows.len()
        invariant
            k <= rows.len(),
            wanted == rows.deep_view(),
            table.wf(),
            forall|row: Seq<ValueView>| #[trigger]
                table@.contains(row) <==> wanted.take(k as int).contains(row),
        decreases rows.len() - k,
    {
        let ghost before = table@;
        let ghost row = wanted[k as int];
        assert(row == rows[k as int].deep_view());
        let _number: usize = table.find_or_insert(clone_row(&rows[k]));
        proof {
            assert(wanted.take(k + 1) =~= wanted.take(k as int).push(row));
            contains_after_push(wanted.take(k as int), row);
            contains_after_push(before, row);
        }
        k = k + 1;
    }
    assert(wanted.take(wanted.len() as int) =~= wanted);
    let ghost view = found.deep_view();
    let ghost all = equal_rids_from(view, wanted, 0);
    let mut rids: Vec<RowId> = Vec::new();
    let mut i: usize = 0;
    assert(rids@ + all =~= all);
    while i < found.rows.len()
        invariant
            call_requires(*poll, ()),
            i <= found.rows.len(),
            table.wf(),
            forall|row: Seq<ValueView>| #[trigger] table@.contains(row) <==> wanted.contains(row),
            view == found.deep_view(),
            all == rids@ + equal_rids_from(view, wanted, i as int),
            view.rows.len() == found.rows.len(),
        decreases found.rows.len() - i,
    {
        match poll() {
            Ok(_) => {},
            Err(error) => {
                return Err(error);
            },
        }
        assert(view.rows[i as int] == found.rows[i as int].deep_view());
        let ghost row = view.rows[i as int].values;
        let number = table.find(&found.rows[i].values);
        assert(number is Some ==> table@.contains(row)) by {
            if number is Some {
                assert(table@[number->0 as int] == row);
            }
        }
        if number.is_some() {
            let rid = found.rows[i].rid;
            let ghost before = rids@;
            let ghost rest = equal_rids_from(view, wanted, i + 1);
            rids.push(rid);
            assert(before + (seq![rid] + rest) =~= before.push(rid) + rest);
        }
        i = i + 1;
    }
    assert(rids@ + Seq::<RowId>::empty() =~= rids@);
    Ok(rids)
}

/// The ids of the rows of a table that are among the rows that a plan answers.
pub fn generic_rid_match<
    E: Fn(&Expr, &Vec<Value>, &Vec<String>) -> Value,
    C: Fn(&Value, &Value) -> Order,
    F: Fn(FloatOp) -> u64,
    T: Fn(Subject) -> Option<String>,
    J: Fn(&String) -> Result<Vec<u8>, String>,
    Q: Fn(&Expr, Option<(&Vec<Value>, &Vec<String>)>) -> Result<Expr, QueryError>,
    S: Fn(Holding) -> usize,
    B: Fn(Option<&Expr>, &Table) -> bool,
    P: Fn() -> Result<(), QueryError>,
>(
    catalog: &Catalog,
    session: &Session<E, C, F, T, J, Q, S, B, P>,
    input: &PlanNode,
    table: &String,
    budget: &mut Budget,
) -> (rids: Result<Vec<RowId>, QueryError>)
    requires
        session.ok(),
        catalog_fits(catalog.deep_view()),
        indexes_agree(catalog.deep_view()),
        readable(input.deep_view()),
    ensures
        found_rids(
            rids,
            *final(budget),
            answered_rids(
                catalog.deep_view(),
                session.model(),
                input.deep_view(),
                table@,
                *old(budget),
            ),
            session.poll,
        ),
{
    let result = dispatch_read(catalog, session, input, budget)?;
    match result {
        QueryResult::Rows { columns: _, rows } => match catalog.table(table) {
            None => Err(QueryError::TableNotFound(table.clone())),
            Some(found) => equal_rids(found, &rows, &session.poll),
        },
        _ => Err(QueryError::execution("mutation source must be rows")),
    }
}

fn table_rids<
    E: Fn(&Expr, &Vec<Value>, &Vec<String>) -> Value,
    C: Fn(&Value, &Value) -> Order,
    F: Fn(FloatOp) -> u64,
    P: Fn() -> Result<(), QueryError>,
>(
    catalog: &Catalog,
    scalars: &Scalars<E, C, F>,
    predicate: Option<&Expr>,
    table: &String,
    poll: &P,
) -> (rids: Result<Vec<RowId>, QueryError>)
    requires
        scalars.ok(),
        call_requires(*poll, ()),
    ensures
        match rids {
            Ok(rids) => kept_rids(
                catalog.deep_view(),
                scalars.values(),
                predicate.deep_view(),
                table@,
            ) == Ok::<Seq<RowId>, ErrorView>(rids@),
            Err(error) => kept_rids(
                catalog.deep_view(),
                scalars.values(),
                predicate.deep_view(),
                table@,
            ) == Err::<Seq<RowId>, ErrorView>(error.deep_view()) || call_ensures(
                *poll,
                (),
                Err(error),
            ),
        },
{
    match catalog.table(table) {
        Some(found) => keep_rids(scalars, found, predicate, poll),
        None => Err(QueryError::TableNotFound(table.clone())),
    }
}

fn lookup_for_mutation<
    E: Fn(&Expr, &Vec<Value>, &Vec<String>) -> Value,
    C: Fn(&Value, &Value) -> Order,
    F: Fn(FloatOp) -> u64,
    T: Fn(Subject) -> Option<String>,
    J: Fn(&String) -> Result<Vec<u8>, String>,
    Q: Fn(&Expr, Option<(&Vec<Value>, &Vec<String>)>) -> Result<Expr, QueryError>,
    S: Fn(Holding) -> usize,
    B: Fn(Option<&Expr>, &Table) -> bool,
    P: Fn() -> Result<(), QueryError>,
>(
    catalog: &Catalog,
    session: &Session<E, C, F, T, J, Q, S, B, P>,
    table: &String,
    column: &String,
    key: &Expr,
) -> (rids: Result<Vec<RowId>, QueryError>)
    requires
        session.ok(),
    ensures
        match rids {
            Ok(rids) => lookup_mutation_rids(
                catalog.deep_view(),
                session.model(),
                table@,
                column@,
                key.deep_view(),
            ) == Ok::<Seq<RowId>, ErrorView>(rids@),
            Err(error) => lookup_mutation_rids(
                catalog.deep_view(),
                session.model(),
                table@,
                column@,
                key.deep_view(),
            ) == Err::<Seq<RowId>, ErrorView>(error.deep_view()) || call_ensures(
                session.poll,
                (),
                Err(error),
            ),
        },
{
    let value = literal_to_value(key)?;
    let found = match catalog.table(table) {
        Some(found) => found,
        None => {
            return Err(QueryError::TableNotFound(table.clone()));
        },
    };
    match catalog.index(table, column) {
        Some(index) => {
            return Ok(lookup_rids(&index.entries, &value));
        },
        None => {},
    }
    if found.schema.column_index(column).is_none() {
        return Err(QueryError::no_column(column));
    }
    let subject = Expr::Field(column.clone());
    assert(subject.deep_view() == ExprView::Field(column@));
    let predicate = Expr::BinaryOp(Box::new(subject), BinOp::Eq, Box::new(clone_expr(key)));
    assert(predicate.deep_view() == binary(ExprView::Field(column@), BinOp::Eq, key.deep_view()));
    let test = Some(&predicate);
    assert(test.deep_view() == Some(predicate.deep_view()));
    keep_rids(&session.scalars, found, test, &session.poll)
}

/// The ids of the rows that a filter over an index scan of `table` leads to.
pub fn collect_rids_via_index_residual<
    E: Fn(&Expr, &Vec<Value>, &Vec<String>) -> Value,
    C: Fn(&Value, &Value) -> Order,
    F: Fn(FloatOp) -> u64,
    P: Fn() -> Result<(), QueryError>,
>(
    catalog: &Catalog,
    scalars: &Scalars<E, C, F>,
    inner: &PlanNode,
    predicate: &Expr,
    table: &String,
    poll: &P,
) -> (rids: Result<Option<Vec<RowId>>, QueryError>)
    requires
        scalars.ok(),
        call_requires(*poll, ()),
        catalog_fits(catalog.deep_view()),
    ensures
        rids_outcome(rids) == residual_rids(
            catalog.deep_view(),
            scalars.model@,
            inner.deep_view(),
            predicate.deep_view(),
            table@,
        ) || stopped(rids, *poll),
{
    if contains_subquery(predicate) {
        return Ok(None);
    }
    match scan_table(inner) {
        Some(other) => {
            if *other != *table {
                return Ok(None);
            }
        },
        None => {
            return Ok(None);
        },
    }
    let candidates = match index_scan_rids(catalog, scalars, inner, poll)? {
        Some(rids) => rids,
        None => {
            return Ok(None);
        },
    };
    proof {
        found_table_fits(catalog.deep_view(), table@);
    }
    match catalog.table(table) {
        Some(found) => {
            let rids = sparse_rids(scalars, found, &candidates, predicate, poll)?;
            Ok(Some(rids))
        },
        None => Err(QueryError::TableNotFound(table.clone())),
    }
}

fn scan_for_mutation<
    E: Fn(&Expr, &Vec<Value>, &Vec<String>) -> Value,
    C: Fn(&Value, &Value) -> Order,
    F: Fn(FloatOp) -> u64,
    T: Fn(Subject) -> Option<String>,
    J: Fn(&String) -> Result<Vec<u8>, String>,
    Q: Fn(&Expr, Option<(&Vec<Value>, &Vec<String>)>) -> Result<Expr, QueryError>,
    S: Fn(Holding) -> usize,
    B: Fn(Option<&Expr>, &Table) -> bool,
    P: Fn() -> Result<(), QueryError>,
>(
    catalog: &Catalog,
    session: &Session<E, C, F, T, J, Q, S, B, P>,
    input: &PlanNode,
    table: &String,
    budget: &mut Budget,
) -> (rids: Result<Vec<RowId>, QueryError>)
    requires
        session.ok(),
        catalog_fits(catalog.deep_view()),
        indexes_agree(catalog.deep_view()),
        readable(input.deep_view()),
    ensures
        found_rids(
            rids,
            *final(budget),
            scan_or(
                catalog.deep_view(),
                session.model(),
                input.deep_view(),
                *old(budget),
                answered_rids(
                    catalog.deep_view(),
                    session.model(),
                    input.deep_view(),
                    table@,
                    *old(budget),
                ),
            ),
            session.poll,
        ),
{
    match index_scan_rids(catalog, &session.scalars, input, &session.poll)? {
        Some(rids) => Ok(rids),
        None => generic_rid_match(catalog, session, input, table, budget),
    }
}

/// The ids of the rows that a statement changes.
pub fn collect_rids_for_mutation<
    E: Fn(&Expr, &Vec<Value>, &Vec<String>) -> Value,
    C: Fn(&Value, &Value) -> Order,
    F: Fn(FloatOp) -> u64,
    T: Fn(Subject) -> Option<String>,
    J: Fn(&String) -> Result<Vec<u8>, String>,
    Q: Fn(&Expr, Option<(&Vec<Value>, &Vec<String>)>) -> Result<Expr, QueryError>,
    S: Fn(Holding) -> usize,
    B: Fn(Option<&Expr>, &Table) -> bool,
    P: Fn() -> Result<(), QueryError>,
>(
    catalog: &Catalog,
    session: &Session<E, C, F, T, J, Q, S, B, P>,
    input: &PlanNode,
    table: &String,
    budget: &mut Budget,
) -> (rids: Result<Vec<RowId>, QueryError>)
    requires
        session.ok(),
        catalog_fits(catalog.deep_view()),
        indexes_agree(catalog.deep_view()),
        readable(input.deep_view()),
    ensures
        found_rids(
            rids,
            *final(budget),
            mutation_rids(
                catalog.deep_view(),
                session.model(),
                input.deep_view(),
                table@,
                *old(budget),
            ),
            session.poll,
        ),
{
    let poll = &session.poll;
    match input {
        PlanNode::SeqScan { table: t } => {
            if *t == *table {
                let none: Option<&Expr> = None;
                assert(none.deep_view() == None::<ExprView>);
                return table_rids(catalog, &session.scalars, none, table, poll);
            }
        },
        PlanNode::IndexScan { table: t, column, key } => {
            if *t == *table {
                return lookup_for_mutation(catalog, session, table, column, key);
            }
        },
        PlanNode::RangeScan { table: t, .. } => {
            if *t == *table {
                return scan_for_mutation(catalog, session, input, table, budget);
            }
        },
        PlanNode::ExprIndexScan { table: t, .. } => {
            if *t == *table {
                return scan_for_mutation(catalog, session, input, table, budget);
            }
        },
        PlanNode::ExprRangeScan { table: t, .. } => {
            if *t == *table {
                return scan_for_mutation(catalog, session, input, table, budget);
            }
        },
        PlanNode::Filter { input: inner, predicate } => {
            let inner: &PlanNode = inner;
            match inner {
                PlanNode::SeqScan { table: t } => {
                    assert(inner.deep_view() == PlanView::SeqScan { table: t@ });
                    if *t == *table {
                        let test = Some(predicate);
                        assert(test.deep_view() == Some(predicate.deep_view()));
                        return table_rids(catalog, &session.scalars, test, table, poll);
                    }
                },
                _ => {
                    assert(!(inner.deep_view() is SeqScan));
                    match collect_rids_via_index_residual(
                        catalog,
                        &session.scalars,
                        inner,
                        predicate,
                        table,
                        &session.poll,
                    )? {
                        Some(rids) => {
                            return Ok(rids);
                        },
                        None => {},
                    }
                },
            }
        },
        _ => {},
    }
    generic_rid_match(catalog, session, input, table, budget)
}

/// The steps, and then the views over the table are out of date.
pub open spec fn then_dirty(ops: Seq<StorageOpView>, table: Seq<char>) -> Seq<StorageOpView> {
    ops.push(StorageOpView::MarkDependentsDirty { table })
}

fn mark_dirty(ops: Vec<StorageOp>, table: &String) -> (all: Vec<StorageOp>)
    ensures
        all.deep_view() == then_dirty(ops.deep_view(), table@),
{
    let ghost before = ops.deep_view();
    let mut all = ops;
    let op = StorageOp::MarkDependentsDirty { table: table.clone() };
    all.push(op);
    assert(all.deep_view() =~= before.push(op.deep_view()));
    all
}

fn single_op(op: StorageOp) -> (ops: Vec<StorageOp>)
    ensures
        ops.deep_view() == seq![op.deep_view()],
{
    let mut ops: Vec<StorageOp> = Vec::new();
    ops.push(op);
    assert(ops.deep_view() =~= seq![op.deep_view()]);
    ops
}

/// What an insert comes to: every row is built before any is stored.
pub open spec fn insert_decision(
    catalog: CatalogView,
    coerce: CoerceModel,
    sizes: SizeModel,
    table: Seq<char>,
    rows: Seq<Seq<AssignmentView>>,
    returning: bool,
    budget: Budget,
) -> Result<(DecisionView, Budget), ErrorView> {
    match catalog.table(table) {
        None => Err(ErrorView::TableNotFound(table)),
        Some(found) => match new_rows(coerce, found, rows, 0) {
            Err(error) => Err(error),
            Ok(all) => match hold_charge(sizes, HoldingView::Rows(all), budget) {
                Err(error) => Err(error),
                Ok(left) => Ok(
                    (
                        DecisionView::Write {
                            ops: then_dirty(seq![StorageOpView::Insert { table, rows: all }], table),
                            reply: ReplyView::Inserted {
                                columns: if returning {
                                    Some(found.schema.column_names())
                                } else {
                                    None
                                },
                            },
                        },
                        left,
                    ),
                ),
            },
        },
    }
}

/// Decide an insert.
pub fn decide_insert<
    K: Fn(&Value, &ColumnDef) -> Result<Value, String>,
    S: Fn(Holding) -> usize,
>(
    catalog: &Catalog,
    coercion: &Coercion<K>,
    sizes: &Sizes<S>,
    table: &String,
    rows: &Vec<Vec<Assignment>>,
    returning: bool,
    budget: &mut Budget,
) -> (decision: Result<Decision, QueryError>)
    requires
        coercion.ok(),
        sizes.ok(),
        catalog_placed(catalog.deep_view()),
    ensures
        decided(
            decision,
            *final(budget),
            insert_decision(
                catalog.deep_view(),
                coercion.model@,
                sizes.model@,
                table@,
                rows.deep_view(),
                returning,
                *old(budget),
            ),
        ),
{
    let found = match catalog.table(table) {
        Some(found) => found,
        None => {
            return Err(QueryError::TableNotFound(table.clone()));
        },
    };
    proof {
        found_table_placed(catalog.deep_view(), table@);
    }
    let all = build_rows(coercion, found, rows)?;
    sizes.charge(Holding::Rows(&all), budget)?;
    let columns = if returning {
        Some(found.schema.column_names())
    } else {
        None
    };
    let ops = mark_dirty(single_op(StorageOp::Insert { table: table.clone(), rows: all }), table);
    Ok(Decision::Write { ops, reply: Reply::Inserted { columns } })
}

/// A decision and what making it left of the budget.
pub open spec fn decided(
    decision: Result<Decision, QueryError>,
    left: Budget,
    expected: Result<(DecisionView, Budget), ErrorView>,
) -> bool {
    match decision {
        Ok(made) => expected == Ok::<(DecisionView, Budget), ErrorView>((made.deep_view(), left)),
        Err(error) => expected == Err::<(DecisionView, Budget), ErrorView>(error.deep_view()),
    }
}

/// A row and the columns changed in it, with the assignments from `i` on made
/// that are not to the key.
pub open spec fn conflict_from(
    coerce: CoerceModel,
    schema: SchemaView,
    assignments: Seq<AssignmentView>,
    key: int,
    i: int,
    row: Seq<ValueView>,
    changed: Seq<int>,
) -> Result<(Seq<ValueView>, Seq<int>), ErrorView>
    decreases assignments.len() - i,
{
    if i < 0 || i >= assignments.len() {
        Ok((row, changed))
    } else {
        match schema.column_index(assignments[i].field) {
            None => Err(no_column_error(assignments[i].field)),
            Some(at) => if at == key {
                conflict_from(coerce, schema, assignments, key, i + 1, row, changed)
            } else {
                match literal_of(assignments[i].value) {
                    Err(error) => Err(error),
                    Ok(raw) => match typed_value(coerce, raw, schema.columns[at]) {
                        Err(error) => Err(error),
                        Ok(value) => conflict_from(
                            coerce,
                            schema,
                            assignments,
                            key,
                            i + 1,
                            row.update(at, value),
                            changed.push(at),
                        ),
                    },
                }
            },
        }
    }
}

fn apply_conflict<K: Fn(&Value, &ColumnDef) -> Result<Value, String>>(
    coercion: &Coercion<K>,
    schema: &Schema,
    assignments: &Vec<Assignment>,
    key: usize,
    given: Vec<Value>,
) -> (applied: Result<(Vec<Value>, Vec<usize>), QueryError>)
    requires
        coercion.ok(),
        given.len() == schema.columns.len(),
    ensures
        match applied {
            Ok((row, changed)) => conflict_from(
                coercion.model@,
                schema.deep_view(),
                assignments.deep_view(),
                key as int,
                0,
                given.deep_view(),
                Seq::empty(),
            ) == Ok::<(Seq<ValueView>, Seq<int>), ErrorView>((row.deep_view(), ints(changed@))),
            Err(error) => conflict_from(
                coercion.model@,
                schema.deep_view(),
                assignments.deep_view(),
                key as int,
                0,
                given.deep_view(),
                Seq::empty(),
            ) == Err::<(Seq<ValueView>, Seq<int>), ErrorView>(error.deep_view()),
        },
{
    let ghost coerce = coercion.model@;
    let ghost shown = schema.deep_view();
    let ghost views = assignments.deep_view();
    let ghost goal = conflict_from(
        coerce,
        shown,
        views,
        key as int,
        0,
        given.deep_view(),
        Seq::empty(),
    );
    let mut row = given;
    let mut changed: Vec<usize> = Vec::new();
    let mut i: usize = 0;
    assert(ints(changed@) =~= Seq::<int>::empty());
    while i < assignments.len()
        invariant
            coercion.ok(),
            i <= assignments.len(),
            coerce == coercion.model@,
            shown == schema.deep_view(),
            views == assignments.deep_view(),
            row.len() == schema.columns.len(),
            goal == conflict_from(
                coerce,
                shown,
                views,
                key as int,
                0,
                given.deep_view(),
                Seq::empty(),
            ),
            goal == conflict_from(
                coerce,
                shown,
                views,
                key as int,
                i as int,
                row.deep_view(),
                ints(changed@),
            ),
        decreases assignments.len() - i,
    {
        assert(views[i as int] == assignments[i as int].deep_view());
        let at: usize = match schema.column_index(&assignments[i].field) {
            Some(at) => at,
            None => {
                return Err(QueryError::no_column(&assignments[i].field));
            },
        };
        if at != key {
            let raw = literal_to_value(&assignments[i].value)?;
            assert(shown.columns[at as int] == schema.columns[at as int].deep_view());
            let value = type_value(coercion, &raw, &schema.columns[at])?;
            let ghost before = ints(changed@);
            set_value(&mut row, at, value);
            changed.push(at);
            assert(ints(changed@) =~= before.push(at as int));
        }
        i = i + 1;
    }
    Ok((row, changed))
}

/// The error for an upsert on a column that is not unique.
pub open spec fn not_unique_error(table: Seq<char>, key_column: Seq<char>) -> ErrorView {
    ErrorView::Execution(
        "upsert on ."@ + key_column + " requires a unique column (declare it with `unique "@
            + key_column + ": <type>` or `alter "@ + table + " add unique ."@ + key_column + "`)"@,
    )
}

/// The error for an upsert on a column that does not exist.
pub open spec fn no_key_error(key_column: Seq<char>) -> ErrorView {
    ErrorView::Execution("key column '"@ + key_column + "' not found"@)
}

/// What an upsert comes to: the row that holds the key is changed, or a new one
/// is stored.
pub open spec fn upsert_decision(
    catalog: CatalogView,
    coerce: CoerceModel,
    table: Seq<char>,
    key_column: Seq<char>,
    assignments: Seq<AssignmentView>,
    on_conflict: Seq<AssignmentView>,
) -> Result<DecisionView, ErrorView> {
    match catalog.table(table) {
        None => Err(ErrorView::TableNotFound(table)),
        Some(found) => match new_row(coerce, found, assignments) {
            Err(error) => Err(error),
            Ok(values) => match found.schema.column_index(key_column) {
                None => Err(no_key_error(key_column)),
                Some(key) => match catalog.index(table, key_column) {
                    None => Err(not_unique_error(table, key_column)),
                    Some(index) => if !index.unique {
                        Err(not_unique_error(table, key_column))
                    } else {
                        let rids = lookup_from(index.entries, values[key], 0);
                        let held = if rids.len() == 0 {
                            None
                        } else {
                            found.get(rids[0])
                        };
                        match held {
                            None => Ok(
                                DecisionView::Write {
                                    ops: then_dirty(
                                        seq![StorageOpView::Insert { table, rows: seq![values] }],
                                        table,
                                    ),
                                    reply: ReplyView::Fixed { result: ResultView::Modified(1) },
                                },
                            ),
                            Some(row) => match conflict_from(
                                coerce,
                                found.schema,
                                if on_conflict.len() == 0 {
                                    assignments
                                } else {
                                    on_conflict
                                },
                                key,
                                0,
                                row,
                                Seq::empty(),
                            ) {
                                Err(error) => Err(error),
                                Ok((row, changed)) => Ok(
                                    DecisionView::Write {
                                        ops: then_dirty(
                                            seq![
                                                StorageOpView::Update {
                                                    table,
                                                    rid: rids[0],
                                                    values: row,
                                                    changed,
                                                },
                                            ],
                                            table,
                                        ),
                                        reply: ReplyView::Fixed { result: ResultView::Modified(1) },
                                    },
                                ),
                            },
                        }
                    },
                },
            },
        },
    }
}

fn refuse_upsert(table: &String, key_column: &String) -> (error: QueryError)
    ensures
        error.deep_view() == not_unique_error(table@, key_column@),
{
    let mut message = "upsert on .".to_owned();
    push_text(&mut message, key_column.as_str());
    push_text(&mut message, " requires a unique column (declare it with `unique ");
    push_text(&mut message, key_column.as_str());
    push_text(&mut message, ": <type>` or `alter ");
    push_text(&mut message, table.as_str());
    push_text(&mut message, " add unique .");
    push_text(&mut message, key_column.as_str());
    push_text(&mut message, "`)");
    QueryError::Execution(message)
}

/// Decide an upsert.
#[verifier::spinoff_prover]
pub fn decide_upsert<K: Fn(&Value, &ColumnDef) -> Result<Value, String>>(
    catalog: &Catalog,
    coercion: &Coercion<K>,
    table: &String,
    key_column: &String,
    assignments: &Vec<Assignment>,
    on_conflict: &Vec<Assignment>,
) -> (decision: Result<Decision, QueryError>)
    requires
        coercion.ok(),
        catalog_placed(catalog.deep_view()),
        catalog_fits(catalog.deep_view()),
    ensures
        outcome(decision) == upsert_decision(
            catalog.deep_view(),
            coercion.model@,
            table@,
            key_column@,
            assignments.deep_view(),
            on_conflict.deep_view(),
        ),
{
    let found = match catalog.table(table) {
        Some(found) => found,
        None => {
            return Err(QueryError::TableNotFound(table.clone()));
        },
    };
    let ghost view = found.deep_view();
    proof {
        found_table_placed(catalog.deep_view(), table@);
        found_table_fits(catalog.deep_view(), table@);
    }
    let values = build_row(coercion, found, assignments)?;
    let key: usize = match found.schema.column_index(key_column) {
        Some(key) => key,
        None => {
            let mut message = "key column '".to_owned();
            push_text(&mut message, key_column.as_str());
            push_text(&mut message, "' not found");
            return Err(QueryError::Execution(message));
        },
    };
    let index = match catalog.index(table, key_column) {
        Some(index) => index,
        None => {
            return Err(refuse_upsert(table, key_column));
        },
    };
    if !index.unique {
        return Err(refuse_upsert(table, key_column));
    }
    assert(values.deep_view()[key as int] == values[key as int].deep_view());
    let rids = lookup_rids(&index.entries, &values[key]);
    let held = if rids.len() == 0 {
        None
    } else {
        found.get(rids[0])
    };
    match held {
        None => {
            let mut rows: Vec<Vec<Value>> = Vec::new();
            let ghost shown = values.deep_view();
            rows.push(values);
            assert(rows.deep_view() =~= seq![shown]);
            let ops = mark_dirty(single_op(StorageOp::Insert { table: table.clone(), rows }), table);
            Ok(Decision::Write { ops, reply: Reply::Fixed { result: QueryResult::Modified(1) } })
        },
        Some(row) => {
            proof {
                found_row_fits(view, rids[0]);
                assert(on_conflict.deep_view().len() == on_conflict.len());
                assert(row.deep_view().len() == row.len());
            }
            let updates = if on_conflict.len() == 0 {
                assignments
            } else {
                on_conflict
            };
            let (values, changed) = apply_conflict(
                coercion,
                &found.schema,
                updates,
                key,
                clone_row(row),
            )?;
            let op = StorageOp::Update { table: table.clone(), rid: rids[0], values, changed };
            let ops = mark_dirty(single_op(op), table);
            Ok(Decision::Write { ops, reply: Reply::Fixed { result: QueryResult::Modified(1) } })
        },
    }
}

/// What an update makes of the existing rows among the ids from `i` on.
pub open spec fn changes_from(
    eval: EvalModel,
    coerce: CoerceModel,
    table: TableView,
    assignments: Seq<AssignmentView>,
    targets: Seq<int>,
    prepared: AssignedView,
    rids: Seq<RowId>,
    i: int,
) -> Result<Seq<(RowId, Seq<ValueView>)>, ErrorView>
    decreases rids.len() - i,
{
    if i < 0 || i >= rids.len() {
        Ok(Seq::empty())
    } else {
        let rest = changes_from(
            eval,
            coerce,
            table,
            assignments,
            targets,
            prepared,
            rids,
            i + 1,
        );
        match table.get(rids[i]) {
            None => rest,
            Some(row) => match updated_row(
                eval,
                coerce,
                table.schema,
                assignments,
                targets,
                prepared,
                row,
            ) {
                Err(error) => Err(error),
                Ok(row) => prefixed(seq![(rids[i], row)], rest),
            },
        }
    }
}

/// The steps that store changed rows.
pub open spec fn change_ops(table: Seq<char>, changes: Seq<(RowId, Seq<ValueView>)>, targets: Seq<int>) -> Seq<
    StorageOpView,
> {
    Seq::new(
        changes.len(),
        |i: int|
            StorageOpView::Update {
                table,
                rid: changes[i].0,
                values: changes[i].1,
                changed: targets,
            },
    )
}

/// The rows after an update.
pub open spec fn changed_rows(changes: Seq<(RowId, Seq<ValueView>)>) -> Seq<Seq<ValueView>> {
    Seq::new(changes.len(), |i: int| changes[i].1)
}

/// Why an update is refused before its rows are looked for: a table or a column
/// that is not there, or a literal that its column does not take.
pub open spec fn update_error(
    catalog: CatalogView,
    coerce: CoerceModel,
    table: Seq<char>,
    assignments: Seq<AssignmentView>,
) -> Option<ErrorView> {
    match catalog.table(table) {
        None => Some(ErrorView::TableNotFound(table)),
        Some(found) => match targets_from(found.schema, assignments, 0) {
            Err(error) => Some(error),
            Ok(targets) => match assigned(coerce, found.schema, assignments, targets) {
                Err(error) => Some(error),
                Ok(_) => None,
            },
        },
    }
}

/// Refuse an update before its rows are looked for.
pub fn check_update<K: Fn(&Value, &ColumnDef) -> Result<Value, String>>(
    catalog: &Catalog,
    coercion: &Coercion<K>,
    table: &String,
    assignments: &Vec<Assignment>,
) -> (checked: Result<(), QueryError>)
    requires
        coercion.ok(),
    ensures
        update_error(catalog.deep_view(), coercion.model@, table@, assignments.deep_view()) == (
        match checked {
            Ok(_) => None,
            Err(error) => Some(error.deep_view()),
        }),
{
    let found = match catalog.table(table) {
        Some(found) => found,
        None => {
            return Err(QueryError::TableNotFound(table.clone()));
        },
    };
    let targets = find_targets(&found.schema, assignments)?;
    let _prepared = prepare_assigned(coercion, &found.schema, assignments, &targets)?;
    Ok(())
}

/// What an update comes to: every row is computed before any is stored.
pub open spec fn update_decision(
    catalog: CatalogView,
    model: SessionModel,
    coerce: CoerceModel,
    input: PlanView,
    table: Seq<char>,
    assignments: Seq<AssignmentView>,
    returning: bool,
    budget: Budget,
) -> Result<(DecisionView, Budget), ErrorView> {
    match catalog.table(table) {
        None => Err(ErrorView::TableNotFound(table)),
        Some(found) => match targets_from(found.schema, assignments, 0) {
            Err(error) => Err(error),
            Ok(targets) => match assigned(coerce, found.schema, assignments, targets) {
                Err(error) => Err(error),
                Ok(prepared) => match mutation_rids(catalog, model, input, table, budget) {
                    Err(error) => Err(error),
                    Ok((rids, left)) => match changes_from(
                        model.scalars.eval,
                        coerce,
                        found,
                        assignments,
                        targets,
                        prepared,
                        rids,
                        0,
                    ) {
                        Err(error) => Err(error),
                        Ok(changes) => Ok(
                            (
                                DecisionView::Write {
                                    ops: then_dirty(change_ops(table, changes, targets), table),
                                    reply: ReplyView::Fixed {
                                        result: if returning {
                                            ResultView::Rows {
                                                columns: found.schema.column_names(),
                                                rows: changed_rows(changes),
                                            }
                                        } else {
                                            ResultView::Modified(changes.len() as u64)
                                        },
                                    },
                                },
                                left,
                            ),
                        ),
                    },
                },
            },
        },
    }
}

/// A changed row.
struct Change {
    rid: RowId,
    values: Vec<Value>,
}

spec fn changes_view(changes: Seq<Change>) -> Seq<(RowId, Seq<ValueView>)> {
    Seq::new(changes.len(), |i: int| (changes[i].rid, changes[i].values.deep_view()))
}

fn compute_changes<
    E: Fn(&Expr, &Vec<Value>, &Vec<String>) -> Value,
    C: Fn(&Value, &Value) -> Order,
    F: Fn(FloatOp) -> u64,
    K: Fn(&Value, &ColumnDef) -> Result<Value, String>,
>(
    scalars: &Scalars<E, C, F>,
    coercion: &Coercion<K>,
    found: &Table,
    assignments: &Vec<Assignment>,
    targets: &Vec<usize>,
    prepared: &Assigned,
    rids: &Vec<RowId>,
) -> (changes: Result<Vec<Change>, QueryError>)
    requires
        scalars.ok(),
        coercion.ok(),
        table_fits(found.deep_view()),
        targets.len() == assignments.len(),
        forall|i: int| 0 <= i < targets.len() ==> #[trigger] targets[i] < found.schema.columns.len(),
        prepared matches Assigned::Values(values) ==> values.len() == assignments.len(),
    ensures
        match changes {
            Ok(made) => changes_from(
                scalars.values(),
                coercion.model@,
                found.deep_view(),
                assignments.deep_view(),
                ints(targets@),
                prepared.deep_view(),
                rids@,
                0,
            ) == Ok::<Seq<(RowId, Seq<ValueView>)>, ErrorView>(changes_view(made@)),
            Err(error) => changes_from(
                scalars.values(),
                coercion.model@,
                found.deep_view(),
                assignments.deep_view(),
                ints(targets@),
                prepared.deep_view(),
                rids@,
                0,
            ) == Err::<Seq<(RowId, Seq<ValueView>)>, ErrorView>(error.deep_view()),
        },
{
    let columns = found.schema.column_names();
    let ghost eval = scalars.values();
    let ghost coerce = coercion.model@;
    let ghost view = found.deep_view();
    let ghost views = assignments.deep_view();
    let ghost at = ints(targets@);
    let ghost ready = prepared.deep_view();
    let ghost all = changes_from(eval, coerce, view, views, at, ready, rids@, 0);
    let mut made: Vec<Change> = Vec::new();
    let mut i: usize = 0;
    assert(prefixed(changes_view(made@), all) == all) by {
        assert(all matches Ok(rest) ==> changes_view(made@) + rest =~= rest);
    }
    while i < rids.len()
        invariant
            scalars.ok(),
            coercion.ok(),
            table_fits(view),
            i <= rids.len(),
            targets.len() == assignments.len(),
            forall|j: int|
                0 <= j < targets.len() ==> #[trigger] targets[j] < found.schema.columns.len(),
            prepared matches Assigned::Values(values) ==> values.len() == assignments.len(),
            columns.deep_view() == view.schema.column_names(),
            eval == scalars.values(),
            coerce == coercion.model@,
            view == found.deep_view(),
            views == assignments.deep_view(),
            at == ints(targets@),
            ready == prepared.deep_view(),
            all == changes_from(eval, coerce, view, views, at, ready, rids@, 0),
            all == prefixed(
                changes_view(made@),
                changes_from(eval, coerce, view, views, at, ready, rids@, i as int),
            ),
        decreases rids.len() - i,
    {
        let rid = rids[i];
        match found.get(rid) {
            Some(row) => {
                proof {
                    found_row_fits(view, rid);
                    assert(row.deep_view().len() == row.len());
                }
                let values = update_row(
                    scalars,
                    coercion,
                    &found.schema,
                    &columns,
                    assignments,
                    targets,
                    prepared,
                    clone_row(row),
                )?;
                let ghost before = changes_view(made@);
                let ghost shown = (rid, values.deep_view());
                made.push(Change { rid, values });
                assert(changes_view(made@) =~= before.push(shown));
                assert(changes_from(eval, coerce, view, views, at, ready, rids@, i + 1) matches Ok(
                    rest,
                ) ==> before + (seq![shown] + rest) =~= before.push(shown) + rest);
            },
            None => {},
        }
        i = i + 1;
    }
    assert(changes_view(made@) + Seq::<(RowId, Seq<ValueView>)>::empty() =~= changes_view(made@));
    Ok(made)
}

fn clone_positions(positions: &Vec<usize>) -> (copy: Vec<usize>)
    ensures
        copy@ == positions@,
{
    let mut copy: Vec<usize> = Vec::new();
    let mut i: usize = 0;
    while i < positions.len()
        invariant
            i <= positions.len(),
            copy@ == positions@.take(i as int),
        decreases positions.len() - i,
    {
        copy.push(positions[i]);
        assert(copy@ =~= positions@.take(i + 1));
        i = i + 1;
    }
    assert(positions@.take(positions.len() as int) =~= positions@);
    copy
}

fn store_changes(table: &String, changes: &Vec<Change>, targets: &Vec<usize>) -> (ops: Vec<StorageOp>)
    ensures
        ops.deep_view() == change_ops(table@, changes_view(changes@), ints(targets@)),
{
    let ghost views = changes_view(changes@);
    let mut ops: Vec<StorageOp> = Vec::new();
    let mut i: usize = 0;
    while i < changes.len()
        invariant
            i <= changes.len(),
            views == changes_view(changes@),
            ops.len() == i,
            forall|j: int|
                0 <= j < i ==> (#[trigger] ops[j]).deep_view() == (StorageOpView::Update {
                    table: table@,
                    rid: views[j].0,
                    values: views[j].1,
                    changed: ints(targets@),
                }),
        decreases changes.len() - i,
    {
        ops.push(
            StorageOp::Update {
                table: table.clone(),
                rid: changes[i].rid,
                values: clone_row(&changes[i].values),
                changed: clone_positions(targets),
            },
        );
        i = i + 1;
    }
    assert(ops.deep_view() =~= change_ops(table@, views, ints(targets@)));
    ops
}

fn rows_of_changes(changes: &Vec<Change>) -> (rows: Vec<Vec<Value>>)
    ensures
        rows.deep_view() == changed_rows(changes_view(changes@)),
{
    let ghost views = changes_view(changes@);
    let mut rows: Vec<Vec<Value>> = Vec::new();
    let mut i: usize = 0;
    while i < changes.len()
        invariant
            i <= changes.len(),
            views == changes_view(changes@),
            rows.len() == i,
            forall|j: int| 0 <= j < i ==> (#[trigger] rows[j]).deep_view() == views[j].1,
        decreases changes.len() - i,
    {
        rows.push(clone_row(&changes[i].values));
        i = i + 1;
    }
    assert(rows.deep_view() =~= changed_rows(views));
    rows
}

/// A decision, what making it left of the budget, or the error with which
/// `poll` stopped it. What an error leaves of the budget is not said, as the
/// statement ends with it.
pub open spec fn decided_polled<P: Fn() -> Result<(), QueryError>>(
    decision: Result<Decision, QueryError>,
    left: Budget,
    expected: Result<(DecisionView, Budget), ErrorView>,
    poll: P,
) -> bool {
    match decision {
        Ok(made) => expected == Ok::<(DecisionView, Budget), ErrorView>((made.deep_view(), left)),
        Err(error) => expected == Err::<(DecisionView, Budget), ErrorView>(error.deep_view())
            || call_ensures(poll, (), Err(error)),
    }
}

/// Decide an update.
#[verifier::spinoff_prover]
pub fn decide_update<
    E: Fn(&Expr, &Vec<Value>, &Vec<String>) -> Value,
    C: Fn(&Value, &Value) -> Order,
    F: Fn(FloatOp) -> u64,
    T: Fn(Subject) -> Option<String>,
    J: Fn(&String) -> Result<Vec<u8>, String>,
    Q: Fn(&Expr, Option<(&Vec<Value>, &Vec<String>)>) -> Result<Expr, QueryError>,
    S: Fn(Holding) -> usize,
    B: Fn(Option<&Expr>, &Table) -> bool,
    P: Fn() -> Result<(), QueryError>,
    K: Fn(&Value, &ColumnDef) -> Result<Value, String>,
>(
    catalog: &Catalog,
    session: &Session<E, C, F, T, J, Q, S, B, P>,
    coercion: &Coercion<K>,
    input: &PlanNode,
    table: &String,
    assignments: &Vec<Assignment>,
    returning: bool,
    budget: &mut Budget,
) -> (decision: Result<Decision, QueryError>)
    requires
        session.ok(),
        coercion.ok(),
        catalog_fits(catalog.deep_view()),
        indexes_agree(catalog.deep_view()),
        readable(input.deep_view()),
    ensures
        decided_polled(
            decision,
            *final(budget),
            update_decision(
                catalog.deep_view(),
                session.model(),
                coercion.model@,
                input.deep_view(),
                table@,
                assignments.deep_view(),
                returning,
                *old(budget),
            ),
            session.poll,
        ),
{
    let found = match catalog.table(table) {
        Some(found) => found,
        None => {
            return Err(QueryError::TableNotFound(table.clone()));
        },
    };
    proof {
        found_table_fits(catalog.deep_view(), table@);
    }
    let targets = find_targets(&found.schema, assignments)?;
    let prepared = prepare_assigned(coercion, &found.schema, assignments, &targets)?;
    let rids = collect_rids_for_mutation(catalog, session, input, table, budget)?;
    match (session.poll)() {
        Ok(_) => {},
        Err(error) => {
            return Err(error);
        },
    }
    let changes = compute_changes(
        &session.scalars,
        coercion,
        found,
        assignments,
        &targets,
        &prepared,
        &rids,
    )?;
    let ops = mark_dirty(store_changes(table, &changes, &targets), table);
    let result = if returning {
        QueryResult::Rows {
            columns: found.schema.column_names(),
            rows: rows_of_changes(&changes),
        }
    } else {
        QueryResult::Modified(changes.len() as u64)
    };
    Ok(Decision::Write { ops, reply: Reply::Fixed { result } })
}

/// What a delete comes to.
pub open spec fn delete_decision(
    catalog: CatalogView,
    model: SessionModel,
    input: PlanView,
    table: Seq<char>,
    returning: bool,
    budget: Budget,
) -> Result<(DecisionView, Budget), ErrorView> {
    match catalog.table(table) {
        None => Err(ErrorView::TableNotFound(table)),
        Some(found) => match mutation_rids(catalog, model, input, table, budget) {
            Err(error) => Err(error),
            Ok((rids, left)) => Ok(
                (
                    DecisionView::Write {
                        ops: then_dirty(seq![StorageOpView::Delete { table, rids }], table),
                        reply: if returning {
                            ReplyView::Fixed {
                                result: ResultView::Rows {
                                    columns: found.schema.column_names(),
                                    rows: fetched_from(found, rids, 0),
                                },
                            }
                        } else {
                            ReplyView::Deleted
                        },
                    },
                    left,
                ),
            ),
        },
    }
}

/// Decide a delete.
pub fn decide_delete<
    E: Fn(&Expr, &Vec<Value>, &Vec<String>) -> Value,
    C: Fn(&Value, &Value) -> Order,
    F: Fn(FloatOp) -> u64,
    T: Fn(Subject) -> Option<String>,
    J: Fn(&String) -> Result<Vec<u8>, String>,
    Q: Fn(&Expr, Option<(&Vec<Value>, &Vec<String>)>) -> Result<Expr, QueryError>,
    S: Fn(Holding) -> usize,
    B: Fn(Option<&Expr>, &Table) -> bool,
    P: Fn() -> Result<(), QueryError>,
>(
    catalog: &Catalog,
    session: &Session<E, C, F, T, J, Q, S, B, P>,
    input: &PlanNode,
    table: &String,
    returning: bool,
    budget: &mut Budget,
) -> (decision: Result<Decision, QueryError>)
    requires
        session.ok(),
        catalog_fits(catalog.deep_view()),
        indexes_agree(catalog.deep_view()),
        readable(input.deep_view()),
    ensures
        decided_polled(
            decision,
            *final(budget),
            delete_decision(
                catalog.deep_view(),
                session.model(),
                input.deep_view(),
                table@,
                returning,
                *old(budget),
            ),
            session.poll,
        ),
{
    let found = match catalog.table(table) {
        Some(found) => found,
        None => {
            return Err(QueryError::TableNotFound(table.clone()));
        },
    };
    let rids = collect_rids_for_mutation(catalog, session, input, table, budget)?;
    match (session.poll)() {
        Ok(_) => {},
        Err(error) => {
            return Err(error);
        },
    }
    let reply = if returning {
        Reply::Fixed {
            result: QueryResult::Rows {
                columns: found.schema.column_names(),
                rows: fetch_rows(found, &rids, &session.poll)?,
            },
        }
    } else {
        Reply::Deleted
    };
    let ops = mark_dirty(single_op(StorageOp::Delete { table: table.clone(), rids }), table);
    Ok(Decision::Write { ops, reply })
}

/// An upsert that finds its row leaves that row's key as it is.
pub proof fn conflicts_keep_keys(
    coerce: CoerceModel,
    schema: SchemaView,
    assignments: Seq<AssignmentView>,
    key: int,
    i: int,
    row: Seq<ValueView>,
    changed: Seq<int>,
)
    requires
        0 <= i,
        row.len() == schema.columns.len(),
        0 <= key < row.len(),
        !changed.contains(key),
    ensures
        conflict_from(coerce, schema, assignments, key, i, row, changed) matches Ok((after, columns))
            ==> after.len() == row.len() && after[key] == row[key] && !columns.contains(key),
    decreases assignments.len() - i,
{
    if i < assignments.len() {
        match schema.column_index(assignments[i].field) {
            None => {},
            Some(at) => {
                first_where_found(schema.column_names(), is_name(assignments[i].field));
                if at == key {
                    conflicts_keep_keys(coerce, schema, assignments, key, i + 1, row, changed);
                } else {
                    match literal_of(assignments[i].value) {
                        Err(_) => {},
                        Ok(raw) => match typed_value(coerce, raw, schema.columns[at]) {
                            Err(_) => {},
                            Ok(value) => {
                                contains_after_push(changed, at);
                                assert(!changed.push(at).contains(key));
                                conflicts_keep_keys(
                                    coerce,
                                    schema,
                                    assignments,
                                    key,
                                    i + 1,
                                    row.update(at, value),
                                    changed.push(at),
                                );
                            },
                        },
                    }
                }
            },
        }
    }
}

} // verus!
