//! Which rows statements that write choose, and what they make of them.

use vstd::prelude::*;

use crate::aggregate::RowId;
use crate::catalog::{CatalogView, SchemaView, StoredRowView, TableView};
use crate::coerce::CoerceModel;
use crate::error::{Budget, ErrorView, ResultView};
use crate::expr::ExprView;
use crate::index::{found_table_agrees, holding_ids, indexes_agree, lookup_from, own_id_is_found};
use crate::laws::changing::{assigns_last, assigns_never, denoted, literals_denote};
use crate::laws::filtering::images_take_first;
use crate::laws::naming::{columns_are_found, held, is_column, names_lead_to_columns};
use crate::laws::scanning::{fetches_read_ids, ids_lead_to_rows, rows_under, stored};
use crate::mutate::{
    conflict_from, delete_decision, equal_rids_from, insert_decision, kept_rids_from,
    mutation_rids, upsert_decision,
};
use crate::plan::{AssignmentView, PlanView};
use crate::read::answer;
use crate::rows::{assigned_from, new_row, new_rows};
use crate::scalars::EvalModel;
use crate::session::{SessionModel, SizeModel};
use crate::storage::{DecisionView, ReplyView, StorageOpView};
use crate::value::ValueView;

verus! {

/// The default that a table declares for column `c`, if it declares one.
pub open spec fn declared_default(table: TableView, c: int) -> Option<ValueView> {
    if c < table.defaults.len() {
        table.defaults[c]
    } else {
        None
    }
}

/// A value, or the default in place of a null.
pub open spec fn or_default(table: TableView, c: int, value: ValueView) -> ValueView {
    match (value, declared_default(table, c)) {
        (ValueView::Empty, Some(default)) => default,
        _ => value,
    }
}

proof fn assigning_leaves(
    coerce: CoerceModel,
    schema: SchemaView,
    assignments: Seq<AssignmentView>,
    i: int,
    values: Seq<ValueView>,
    c: int,
)
    requires
        0 <= i,
        values.len() == schema.columns.len(),
        0 <= c < values.len(),
        forall|j: int|
            i <= j < assignments.len() ==> !is_column(schema, (#[trigger] assignments[j]).field, c),
    ensures
        assigned_from(coerce, schema, assignments, i, values) matches Ok(after) ==> after.len()
            == values.len() && after[c] == values[c],
    decreases assignments.len() - i,
{
    if i < assignments.len() {
        names_lead_to_columns(schema, assignments[i].field);
        match schema.column_index(assignments[i].field) {
            Some(at) => {
                assert(at != c);
                match crate::coerce::coerced_value(
                    coerce,
                    crate::lower::literal_of(assignments[i].value)->Ok_0,
                    schema.columns[at],
                ) {
                    Ok(value) => assigning_leaves(
                        coerce,
                        schema,
                        assignments,
                        i + 1,
                        values.update(at, value),
                        c,
                    ),
                    Err(_) => {},
                }
            },
            None => {},
        }
    }
}

proof fn assigning_places(
    coerce: CoerceModel,
    schema: SchemaView,
    assignments: Seq<AssignmentView>,
    i: int,
    values: Seq<ValueView>,
    last: int,
    c: int,
)
    requires
        0 <= i <= last,
        values.len() == schema.columns.len(),
        assigns_last(schema, assignments, last, c),
    ensures
        assigned_from(coerce, schema, assignments, i, values) matches Ok(after) ==> after.len()
            == values.len() && denoted(assignments[last].value) is Some && coerce(
            denoted(assignments[last].value)->0,
            schema.columns[c],
        ) == Ok::<ValueView, Seq<char>>(after[c]),
    decreases last - i,
{
    names_lead_to_columns(schema, assignments[i].field);
    literals_denote(assignments[i].value);
    match schema.column_index(assignments[i].field) {
        Some(at) => match crate::coerce::coerced_value(
            coerce,
            crate::lower::literal_of(assignments[i].value)->Ok_0,
            schema.columns[at],
        ) {
            Ok(value) => {
                let next = values.update(at, value);
                if i < last {
                    assigning_places(coerce, schema, assignments, i + 1, next, last, c);
                } else {
                    assert(at == c);
                    assert forall|j: int| i + 1 <= j < assignments.len() implies !is_column(
                        schema,
                        (#[trigger] assignments[j]).field,
                        c,
                    ) by {
                        assert(assignments[j].field != assignments[last].field);
                    }
                    assigning_leaves(coerce, schema, assignments, i + 1, next, c);
                }
            },
            Err(_) => {},
        },
        None => {},
    }
}

/// A new row: column `c` holds what its column takes of the literal last assigned
/// to it, or null where nothing is; and in place of a null the default that the
/// table declares.
pub proof fn new_rows_hold_what_is_assigned(
    coerce: CoerceModel,
    table: TableView,
    assignments: Seq<AssignmentView>,
    i: int,
    c: int,
)
    requires
        0 <= c < table.schema.columns.len(),
    ensures
        new_row(coerce, table, assignments) matches Ok(row) ==> {
            &&& row.len() == table.schema.columns.len()
            &&& assigns_last(table.schema, assignments, i, c) ==> denoted(assignments[i].value)
                is Some && (coerce(
                denoted(assignments[i].value)->0,
                table.schema.columns[c],
            ) matches Ok(value) && row[c] == or_default(table, c, value))
            &&& assigns_never(table.schema, assignments, c) ==> row[c] == or_default(
                table,
                c,
                ValueView::Empty,
            )
        },
{
    let blank = crate::rows::blank_row(table.schema.columns.len());
    if assigns_last(table.schema, assignments, i, c) {
        assigning_places(coerce, table.schema, assignments, 0, blank, i, c);
    }
    if assigns_never(table.schema, assignments, c) {
        assigning_leaves(coerce, table.schema, assignments, 0, blank, c);
    }
    crate::rows::new_row_fits(coerce, table, assignments);
}

proof fn new_rows_follow(
    coerce: CoerceModel,
    table: TableView,
    rows: Seq<Seq<AssignmentView>>,
    i: int,
)
    requires
        0 <= i <= rows.len(),
    ensures
        new_rows(coerce, table, rows, i) matches Ok(all) ==> all.len() == rows.len() - i && forall|
            k: int,
        |
            0 <= k < all.len() ==> new_row(coerce, table, rows[i + k]) == Ok::<
                Seq<ValueView>,
                ErrorView,
            >(#[trigger] all[k]),
    decreases rows.len() - i,
{
    if i < rows.len() {
        new_rows_follow(coerce, table, rows, i + 1);
        match (new_rows(coerce, table, rows, i), new_rows(coerce, table, rows, i + 1)) {
            (Ok(all), Ok(rest)) => {
                assert forall|k: int| 0 <= k < all.len() implies new_row(
                    coerce,
                    table,
                    rows[i + k],
                ) == Ok::<Seq<ValueView>, ErrorView>(#[trigger] all[k]) by {
                    if k > 0 {
                        assert(all[k] == rest[k - 1]);
                        assert(rows[i + 1 + (k - 1)] == rows[i + k]);
                    }
                }
            },
            _ => {},
        }
    }
}

/// An insert stores the new rows that its assignments make, all in one step and in
/// their order, and then marks the views over the table; it answers with how many
/// were stored or, where asked, with the rows under the columns of the table.
pub proof fn insert_statements_store_the_new_rows(
    catalog: CatalogView,
    coerce: CoerceModel,
    sizes: SizeModel,
    table: Seq<char>,
    rows: Seq<Seq<AssignmentView>>,
    returning: bool,
    budget: Budget,
)
    ensures
        insert_decision(catalog, coerce, sizes, table, rows, returning, budget) matches Ok(
            (DecisionView::Write { ops, reply }, _),
        ) ==> {
            &&& catalog.table(table) matches Some(found)
            &&& ops.len() == 2
            &&& ops[1] == (StorageOpView::MarkDependentsDirty { table })
            &&& ops[0] matches StorageOpView::Insert { table: name, rows: all }
            &&& name == table
            &&& all.len() == rows.len()
            &&& forall|k: int|
                0 <= k < all.len() ==> new_row(coerce, found, rows[k]) == Ok::<
                    Seq<ValueView>,
                    ErrorView,
                >(#[trigger] all[k])
            &&& reply == (ReplyView::Inserted {
                columns: if returning {
                    Some(found.schema.column_names())
                } else {
                    None
                },
            })
        },
{
    match catalog.table(table) {
        Some(found) => {
            new_rows_follow(coerce, found, rows, 0);
            match new_rows(coerce, found, rows, 0) {
                Ok(all) => {
                    assert forall|k: int| 0 <= k < all.len() implies new_row(
                        coerce,
                        found,
                        rows[k],
                    ) == Ok::<Seq<ValueView>, ErrorView>(#[trigger] all[k]) by {
                        assert(rows[0 + k] == rows[k]);
                    }
                },
                Err(_) => {},
            }
        },
        None => {},
    }
}

proof fn conflicts_leave(
    coerce: CoerceModel,
    schema: SchemaView,
    assignments: Seq<AssignmentView>,
    key: int,
    i: int,
    row: Seq<ValueView>,
    changed: Seq<int>,
    c: int,
)
    requires
        0 <= i,
        row.len() == schema.columns.len(),
        0 <= c < row.len(),
        c == key || forall|j: int|
            i <= j < assignments.len() ==> !is_column(schema, (#[trigger] assignments[j]).field, c),
    ensures
        conflict_from(coerce, schema, assignments, key, i, row, changed) matches Ok((after, columns))
            ==> after.len() == row.len() && after[c] == row[c] && (columns.contains(c)
            <==> changed.contains(c)),
    decreases assignments.len() - i,
{
    if i < assignments.len() {
        names_lead_to_columns(schema, assignments[i].field);
        match schema.column_index(assignments[i].field) {
            Some(at) => if at == key {
                conflicts_leave(coerce, schema, assignments, key, i + 1, row, changed, c);
            } else {
                assert(at != c);
                match crate::rows::typed_value(
                    coerce,
                    crate::lower::literal_of(assignments[i].value)->Ok_0,
                    schema.columns[at],
                ) {
                    Ok(value) => {
                        pushed_is_contained(changed, at, c);
                        conflicts_leave(
                            coerce,
                            schema,
                            assignments,
                            key,
                            i + 1,
                            row.update(at, value),
                            changed.push(at),
                            c,
                        );
                    },
                    Err(_) => {},
                }
            },
            None => {},
        }
    }
}

proof fn pushed_is_contained(s: Seq<int>, a: int, c: int)
    ensures
        s.push(a).contains(c) <==> s.contains(c) || a == c,
{
    if s.contains(c) {
        let k = choose|k: int| 0 <= k < s.len() && s[k] == c;
        assert(s.push(a)[k] == c);
    }
    if a == c {
        assert(s.push(a)[s.len() as int] == c);
    }
}

proof fn conflicts_place(
    coerce: CoerceModel,
    schema: SchemaView,
    assignments: Seq<AssignmentView>,
    key: int,
    i: int,
    row: Seq<ValueView>,
    changed: Seq<int>,
    last: int,
    c: int,
)
    requires
        0 <= i <= last,
        row.len() == schema.columns.len(),
        c != key,
        assigns_last(schema, assignments, last, c),
    ensures
        conflict_from(coerce, schema, assignments, key, i, row, changed) matches Ok((after, columns))
            ==> after.len() == row.len() && denoted(assignments[last].value) is Some && coerce(
            denoted(assignments[last].value)->0,
            schema.columns[c],
        ) == Ok::<ValueView, Seq<char>>(after[c]) && columns.contains(c),
    decreases last - i,
{
    names_lead_to_columns(schema, assignments[i].field);
    literals_denote(assignments[i].value);
    match schema.column_index(assignments[i].field) {
        Some(at) => if at == key {
            conflicts_place(coerce, schema, assignments, key, i + 1, row, changed, last, c);
        } else {
            match crate::rows::typed_value(
                coerce,
                crate::lower::literal_of(assignments[i].value)->Ok_0,
                schema.columns[at],
            ) {
                Ok(value) => {
                    let next = row.update(at, value);
                    if i < last {
                        conflicts_place(
                            coerce,
                            schema,
                            assignments,
                            key,
                            i + 1,
                            next,
                            changed.push(at),
                            last,
                            c,
                        );
                    } else {
                        assert(at == c);
                        pushed_is_contained(changed, at, c);
                        assert forall|j: int| i + 1 <= j < assignments.len() implies !is_column(
                            schema,
                            (#[trigger] assignments[j]).field,
                            c,
                        ) by {
                            assert(assignments[j].field != assignments[last].field);
                        }
                        conflicts_leave(
                            coerce,
                            schema,
                            assignments,
                            key,
                            i + 1,
                            next,
                            changed.push(at),
                            c,
                        );
                    }
                },
                Err(_) => {},
            }
        },
        None => {},
    }
}

proof fn holder_is_held(table: TableView, column: int, key: ValueView, i: int)
    requires
        0 <= i <= table.rows.len(),
        crate::index::row_ids(table).no_duplicates(),
    ensures
        ({
            let rids = holding_ids(table.rows, column, key, i);
            &&& rids.len() == 0 <==> forall|r: int|
                i <= r < table.rows.len() ==> (#[trigger] table.rows[r]).values[column] != key
            &&& rids.len() > 0 ==> (table.get(rids[0]) matches Some(row) && row[column] == key)
        }),
    decreases table.rows.len() - i,
{
    if i < table.rows.len() {
        holder_is_held(table, column, key, i + 1);
        if table.rows[i].values[column] == key {
            own_id_is_found(table, i);
        }
    }
}

/// An upsert by a key that no row holds stores the new row. By a key that a row
/// holds it changes that row: the key stays, column `c` holds what its column takes
/// of the literal last assigned to it, or what it held where nothing is. Where the
/// statement says nothing of a conflict, the assignments of the new row are made.
pub proof fn upserts_store_or_change_by_key(
    catalog: CatalogView,
    coerce: CoerceModel,
    table: Seq<char>,
    key_column: Seq<char>,
    assignments: Seq<AssignmentView>,
    on_conflict: Seq<AssignmentView>,
    i: int,
    c: int,
)
    requires
        indexes_agree(catalog),
        crate::index::catalog_fits(catalog),
        new_row(coerce, catalog.table(table)->0, assignments) matches Ok(values) && (
        catalog.table(table)->0.schema.column_index(key_column) matches Some(key) && !(
        values[key] is Empty)),
    ensures
        upsert_decision(
            catalog,
            coerce,
            table,
            key_column,
            assignments,
            on_conflict,
        ) matches Ok(DecisionView::Write { ops, reply }) ==> {
            let found = catalog.table(table)->0;
            let values = new_row(coerce, found, assignments)->Ok_0;
            let key = held(found.schema, values, key_column);
            let changes = if on_conflict.len() == 0 {
                assignments
            } else {
                on_conflict
            };
            &&& ops.len() == 2
            &&& ops[1] == (StorageOpView::MarkDependentsDirty { table })
            &&& reply == (ReplyView::Fixed { result: ResultView::Modified(1) })
            &&& (forall|r: int|
                0 <= r < found.rows.len() ==> held(
                    found.schema,
                    (#[trigger] found.rows[r]).values,
                    key_column,
                ) != key) ==> ops[0] == (StorageOpView::Insert { table, rows: seq![values] })
            &&& !(forall|r: int|
                0 <= r < found.rows.len() ==> held(
                    found.schema,
                    (#[trigger] found.rows[r]).values,
                    key_column,
                ) != key) ==> {
                &&& ops[0] matches StorageOpView::Update { table: name, rid, values: after, changed }
                &&& name == table
                &&& stored(found, rid) matches Some(before)
                &&& held(found.schema, before, key_column) == key
                &&& after.len() == before.len()
                &&& held(found.schema, after, key_column) == key
                &&& 0 <= c < after.len() && assigns_never(found.schema, changes, c) ==> after[c]
                    == before[c] && !changed.contains(c)
                &&& assigns_last(found.schema, changes, i, c) && !is_column(
                    found.schema,
                    key_column,
                    c,
                ) ==> denoted(changes[i].value) is Some && coerce(
                    denoted(changes[i].value)->0,
                    found.schema.columns[c],
                ) == Ok::<ValueView, Seq<char>>(after[c]) && changed.contains(c)
            }
        },
{
    match upsert_decision(catalog, coerce, table, key_column, assignments, on_conflict) {
        Ok(DecisionView::Write { ops, .. }) => {
            let found = catalog.table(table)->0;
            let values = new_row(coerce, found, assignments)->Ok_0;
            names_lead_to_columns(found.schema, key_column);
            let at = found.schema.column_index(key_column)->0;
            crate::rows::new_row_fits(coerce, found, assignments);
            columns_are_found(found.schema, values, key_column, at);
            let key = values[at];
            found_table_agrees(catalog, table, key_column);
            crate::index::found_table_fits(catalog, table);
            let entries = catalog.index(table, key_column)->0.entries;
            assert(lookup_from(entries, key, 0) == holding_ids(found.rows, at, key, 0));
            let rids = holding_ids(found.rows, at, key, 0);
            holder_is_held(found, at, key, 0);
            assert forall|r: int| 0 <= r < found.rows.len() implies held(
                found.schema,
                (#[trigger] found.rows[r]).values,
                key_column,
            ) == found.rows[r].values[at] by {
                columns_are_found(found.schema, found.rows[r].values, key_column, at);
            }
            if rids.len() > 0 {
                let rid = rids[0];
                ids_lead_to_rows(found, rid);
                crate::index::found_row_fits(found, rid);
                let before = found.get(rid)->0;
                columns_are_found(found.schema, before, key_column, at);
                let changes = if on_conflict.len() == 0 {
                    assignments
                } else {
                    on_conflict
                };
                conflicts_leave(
                    coerce,
                    found.schema,
                    changes,
                    at,
                    0,
                    before,
                    Seq::empty(),
                    at,
                );
                let after = conflict_from(
                    coerce,
                    found.schema,
                    changes,
                    at,
                    0,
                    before,
                    Seq::empty(),
                )->Ok_0.0;
                columns_are_found(found.schema, after, key_column, at);
                if 0 <= c < before.len() && assigns_never(found.schema, changes, c) {
                    conflicts_leave(
                        coerce,
                        found.schema,
                        changes,
                        at,
                        0,
                        before,
                        Seq::empty(),
                        c,
                    );
                }
                if assigns_last(found.schema, changes, i, c) && !is_column(
                    found.schema,
                    key_column,
                    c,
                ) {
                    assert(c != at);
                    conflicts_place(
                        coerce,
                        found.schema,
                        changes,
                        at,
                        0,
                        before,
                        Seq::empty(),
                        i,
                        c,
                    );
                }
            }
        },
        _ => {},
    }
}

proof fn kept_ids_filter(
    eval: EvalModel,
    predicate: Option<ExprView>,
    table: TableView,
    i: int,
)
    requires
        0 <= i <= table.rows.len(),
    ensures
        kept_rids_from(eval, predicate, table, i) == table.rows.skip(i).filter(
            |row: StoredRowView|
                predicate matches Some(condition) ==> eval(
                    condition,
                    row.values,
                    table.schema.column_names(),
                ) == ValueView::Bool(true),
        ).map_values(|row: StoredRowView| row.rid),
    decreases table.rows.len() - i,
{
    images_take_first(
        table.rows,
        |row: StoredRowView|
            predicate matches Some(condition) ==> eval(
                condition,
                row.values,
                table.schema.column_names(),
            ) == ValueView::Bool(true),
        |row: StoredRowView| row.rid,
        i,
    );
    if i < table.rows.len() {
        kept_ids_filter(eval, predicate, table, i + 1);
    }
}

proof fn equal_ids_filter(table: TableView, rows: Seq<Seq<ValueView>>, i: int)
    requires
        0 <= i <= table.rows.len(),
    ensures
        equal_rids_from(table, rows, i) == table.rows.skip(i).filter(
            |row: StoredRowView| rows.contains(row.values),
        ).map_values(|row: StoredRowView| row.rid),
    decreases table.rows.len() - i,
{
    images_take_first(
        table.rows,
        |row: StoredRowView| rows.contains(row.values),
        |row: StoredRowView| row.rid,
        i,
    );
    if i < table.rows.len() {
        equal_ids_filter(table, rows, i + 1);
    }
}

/// A statement over its whole table changes every row, and one over a filter of it
/// the rows on which the predicate is true, in storage order.
pub proof fn statements_choose_what_holds(
    catalog: CatalogView,
    model: SessionModel,
    table: Seq<char>,
    predicate: ExprView,
    budget: Budget,
)
    requires
        catalog.table(table) is Some,
    ensures
        ({
            let found = catalog.table(table)->0;
            let scan = PlanView::SeqScan { table };
            &&& mutation_rids(catalog, model, scan, table, budget) == Ok::<
                (Seq<RowId>, Budget),
                ErrorView,
            >((found.rows.map_values(|row: StoredRowView| row.rid), budget))
            &&& mutation_rids(
                catalog,
                model,
                PlanView::Filter { input: Box::new(scan), predicate },
                table,
                budget,
            ) == Ok::<(Seq<RowId>, Budget), ErrorView>(
                (
                    found.rows.filter(
                        |row: StoredRowView|
                            (model.scalars.eval)(
                                predicate,
                                row.values,
                                found.schema.column_names(),
                            ) == ValueView::Bool(true),
                    ).map_values(|row: StoredRowView| row.rid),
                    budget,
                ),
            )
        }),
{
    let found = catalog.table(table)->0;
    let eval = model.scalars.eval;
    assert(found.rows.skip(0) =~= found.rows);
    kept_ids_filter(eval, None, found, 0);
    let none: Option<ExprView> = None;
    let all = |row: StoredRowView|
        none matches Some(condition) ==> eval(condition, row.values, found.schema.column_names())
            == ValueView::Bool(true);
    crate::laws::grouping::filter_of_all(found.rows, all);
    kept_ids_filter(eval, Some(predicate), found, 0);
    let some = Some(predicate);
    crate::laws::filtering::filters_agree(
        found.rows,
        |row: StoredRowView|
            some matches Some(condition) ==> eval(
                condition,
                row.values,
                found.schema.column_names(),
            ) == ValueView::Bool(true),
        |row: StoredRowView|
            eval(predicate, row.values, found.schema.column_names()) == ValueView::Bool(true),
    );
}

/// A statement over any other plan changes the rows of the table that are among
/// those that the plan answers, in storage order.
pub proof fn statements_choose_what_is_answered(
    catalog: CatalogView,
    model: SessionModel,
    input: PlanView,
    table: Seq<char>,
    budget: Budget,
)
    requires
        catalog.table(table) is Some,
        input is Project || input is Sort || input is Limit || input is Offset || input is Distinct
            || input is NestedLoopJoin || input is Union || input is AliasScan,
        answer(catalog, model, input, budget) matches Ok((result, _)) && result is Rows,
    ensures
        ({
            &&& answer(catalog, model, input, budget) matches Ok(
                (ResultView::Rows { columns: _, rows }, left),
            )
            &&& mutation_rids(catalog, model, input, table, budget) == Ok::<
                (Seq<RowId>, Budget),
                ErrorView,
            >(
                (
                    catalog.table(table)->0.rows.filter(
                        |row: StoredRowView| rows.contains(row.values),
                    ).map_values(|row: StoredRowView| row.rid),
                    left,
                ),
            )
        }),
{
    let found = catalog.table(table)->0;
    match answer(catalog, model, input, budget) {
        Ok((ResultView::Rows { rows, .. }, _)) => {
            equal_ids_filter(found, rows, 0);
            assert(found.rows.skip(0) =~= found.rows);
        },
        _ => {},
    }
}

/// A delete removes the rows that it chooses, in one step, and then marks the views
/// over the table; it answers with what those rows held, or with how many the
/// storage removed.
pub proof fn delete_statements_remove_what_they_choose(
    catalog: CatalogView,
    model: SessionModel,
    input: PlanView,
    table: Seq<char>,
    returning: bool,
    budget: Budget,
)
    ensures
        delete_decision(catalog, model, input, table, returning, budget) matches Ok(
            (DecisionView::Write { ops, reply }, left),
        ) ==> {
            &&& catalog.table(table) matches Some(found)
            &&& mutation_rids(catalog, model, input, table, budget) matches Ok((rids, rest))
            &&& left == rest
            &&& ops.len() == 2
            &&& ops[0] == (StorageOpView::Delete { table, rids })
            &&& ops[1] == (StorageOpView::MarkDependentsDirty { table })
            &&& reply == (if returning {
                ReplyView::Fixed {
                    result: ResultView::Rows {
                        columns: found.schema.column_names(),
                        rows: rows_under(found, rids),
                    },
                }
            } else {
                ReplyView::Deleted
            })
        },
{
    match (catalog.table(table), mutation_rids(catalog, model, input, table, budget)) {
        (Some(found), Ok((rids, _))) => fetches_read_ids(found, rids),
        _ => {},
    }
}

} // verus!
