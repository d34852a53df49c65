//! What statements that write rows store.

use vstd::prelude::*;

use crate::aggregate::RowId;
use crate::catalog::{CatalogView, SchemaView, TableView};
use crate::coerce::CoerceModel;
use crate::error::{Budget, ErrorView, ResultView};
use crate::expr::{ExprView, LiteralView};
use crate::index::{found_table_agrees, indexes_agree, name_rows, table_fits};
use crate::laws::naming::{is_column, names_lead_to_columns};
use crate::lower::literal_of;
use crate::mutate::{changes_from, mutation_rids, update_decision};
use crate::plan::{AssignmentView, PlanView};
use crate::removal::changes_name_rows;
use crate::rows::{
    all_literal, assigned, computed_from, literals_from, placed_from, targets_from, updated_row,
    AssignedView,
};
use crate::scalars::EvalModel;
use crate::session::SessionModel;
use crate::storage::{DecisionView, ReplyView, StorageOpView};
use crate::value::ValueView;

verus! {

/// The value that an expression denotes whatever row it is read on.
pub open spec fn denoted(expr: ExprView) -> Option<ValueView> {
    match expr {
        ExprView::Literal(LiteralView::Int(n)) => Some(ValueView::Int(n)),
        ExprView::Literal(LiteralView::Float(bits)) => Some(ValueView::Float(bits)),
        ExprView::Literal(LiteralView::Bool(b)) => Some(ValueView::Bool(b)),
        ExprView::Literal(LiteralView::String(s)) => Some(ValueView::Str(s)),
        ExprView::ValueLit(value) => Some(value),
        ExprView::Null => Some(ValueView::Empty),
        _ => None,
    }
}

/// Assignment `i` is to column `c`, and no later one is.
pub open spec fn assigns_last(
    schema: SchemaView,
    assignments: Seq<AssignmentView>,
    i: int,
    c: int,
) -> bool {
    &&& 0 <= i < assignments.len()
    &&& is_column(schema, assignments[i].field, c)
    &&& forall|j: int|
        i < j < assignments.len() ==> (#[trigger] assignments[j]).field != assignments[i].field
}

/// No assignment is to column `c`.
pub open spec fn assigns_never(
    schema: SchemaView,
    assignments: Seq<AssignmentView>,
    c: int,
) -> bool {
    forall|j: int|
        0 <= j < assignments.len() ==> !is_column(schema, (#[trigger] assignments[j]).field, c)
}

/// What literals denote.
pub proof fn literals_denote(expr: ExprView)
    ensures
        match denoted(expr) {
            Some(value) => literal_of(expr) == Ok::<ValueView, ErrorView>(value),
            None => literal_of(expr) is Err,
        },
{
}

proof fn targets_lead(schema: SchemaView, assignments: Seq<AssignmentView>, i: int)
    requires
        0 <= i <= assignments.len(),
    ensures
        targets_from(schema, assignments, i) matches Ok(targets) ==> targets.len()
            == assignments.len() - i && forall|k: int|
            0 <= k < targets.len() ==> is_column(
                schema,
                assignments[i + k].field,
                #[trigger] targets[k],
            ),
    decreases assignments.len() - i,
{
    if i < assignments.len() {
        targets_lead(schema, assignments, i + 1);
        names_lead_to_columns(schema, assignments[i].field);
        match (schema.column_index(assignments[i].field), targets_from(schema, assignments, i + 1)) {
            (Some(at), Ok(rest)) => {
                let all = seq![at] + rest;
                assert forall|k: int| 0 <= k < all.len() implies is_column(
                    schema,
                    assignments[i + k].field,
                    #[trigger] all[k],
                ) by {
                    if k > 0 {
                        assert(all[k] == rest[k - 1]);
                        assert(assignments[i + 1 + (k - 1)] == assignments[i + k]);
                    }
                }
            },
            _ => {},
        }
    }
}

proof fn literals_are_typed(
    coerce: CoerceModel,
    schema: SchemaView,
    assignments: Seq<AssignmentView>,
    targets: Seq<int>,
    i: int,
)
    requires
        0 <= i <= assignments.len(),
    ensures
        literals_from(coerce, schema, assignments, targets, i) matches Ok(values) ==> values.len()
            == assignments.len() - i && forall|k: int|
            0 <= k < values.len() ==> coerce(
                literal_of(assignments[i + k].value)->Ok_0,
                schema.columns[targets[i + k]],
            ) == Ok::<ValueView, Seq<char>>(#[trigger] values[k]),
    decreases assignments.len() - i,
{
    if i < assignments.len() {
        literals_are_typed(coerce, schema, assignments, targets, i + 1);
        match (
            literals_from(coerce, schema, assignments, targets, i),
            literals_from(coerce, schema, assignments, targets, i + 1),
        ) {
            (Ok(all), Ok(rest)) => {
                assert forall|k: int| 0 <= k < all.len() implies coerce(
                    literal_of(assignments[i + k].value)->Ok_0,
                    schema.columns[targets[i + k]],
                ) == Ok::<ValueView, Seq<char>>(#[trigger] all[k]) by {
                    if k > 0 {
                        assert(all[k] == rest[k - 1]);
                        assert(assignments[i + 1 + (k - 1)] == assignments[i + k]);
                        assert(targets[i + 1 + (k - 1)] == targets[i + k]);
                    }
                }
            },
            _ => {},
        }
    }
}

proof fn literals_all(assignments: Seq<AssignmentView>, i: int, k: int)
    requires
        0 <= i <= k < assignments.len(),
        all_literal(assignments, i),
    ensures
        literal_of(assignments[k].value) is Ok,
    decreases k - i,
{
    if i < k {
        literals_all(assignments, i + 1, k);
    }
}

proof fn all_are_literals(assignments: Seq<AssignmentView>, i: int)
    requires
        0 <= i <= assignments.len(),
        forall|k: int|
            i <= k < assignments.len() ==> denoted((#[trigger] assignments[k]).value) is Some,
    ensures
        all_literal(assignments, i),
    decreases assignments.len() - i,
{
    if i < assignments.len() {
        assert(denoted(assignments[i].value) is Some);
        literals_denote(assignments[i].value);
        all_are_literals(assignments, i + 1);
    }
}

proof fn placing_leaves(
    row: Seq<ValueView>,
    targets: Seq<int>,
    values: Seq<ValueView>,
    i: int,
    c: int,
)
    requires
        0 <= i,
        values.len() <= targets.len(),
        0 <= c < row.len(),
        forall|k: int| 0 <= k < targets.len() ==> 0 <= #[trigger] targets[k] < row.len(),
        forall|k: int| i <= k < values.len() ==> #[trigger] targets[k] != c,
    ensures
        placed_from(row, targets, values, i).len() == row.len(),
        placed_from(row, targets, values, i)[c] == row[c],
    decreases values.len() - i,
{
    if i < values.len() {
        assert(targets[i] != c);
        placing_leaves(row.update(targets[i], values[i]), targets, values, i + 1, c);
    }
}

proof fn placing_places(
    row: Seq<ValueView>,
    targets: Seq<int>,
    values: Seq<ValueView>,
    i: int,
    last: int,
)
    requires
        0 <= i <= last < values.len(),
        values.len() <= targets.len(),
        forall|k: int| 0 <= k < targets.len() ==> 0 <= #[trigger] targets[k] < row.len(),
        forall|k: int| last < k < values.len() ==> #[trigger] targets[k] != targets[last],
    ensures
        placed_from(row, targets, values, i).len() == row.len(),
        placed_from(row, targets, values, i)[targets[last]] == values[last],
    decreases last - i,
{
    assert(0 <= targets[i] < row.len());
    let next = row.update(targets[i], values[i]);
    if i < last {
        placing_places(next, targets, values, i + 1, last);
    } else {
        placing_leaves(next, targets, values, i + 1, targets[last]);
    }
}

/// A row that an update whose assignments are literals makes of another: column
/// `c` holds what its column takes of the literal last assigned to it, or what it
/// held where nothing is.
pub proof fn literal_updates_store_what_is_assigned(
    eval: EvalModel,
    coerce: CoerceModel,
    schema: SchemaView,
    assignments: Seq<AssignmentView>,
    row: Seq<ValueView>,
    i: int,
    c: int,
)
    requires
        row.len() == schema.columns.len(),
        0 <= c < row.len(),
        forall|k: int|
            0 <= k < assignments.len() ==> denoted((#[trigger] assignments[k]).value) is Some,
        assigns_last(schema, assignments, i, c) || assigns_never(schema, assignments, c),
    ensures
        targets_from(schema, assignments, 0) matches Ok(targets) ==> (assigned(
            coerce,
            schema,
            assignments,
            targets,
        ) matches Ok(prepared) ==> (updated_row(
            eval,
            coerce,
            schema,
            assignments,
            targets,
            prepared,
            row,
        ) matches Ok(updated) && updated.len() == row.len() && (assigns_last(
            schema,
            assignments,
            i,
            c,
        ) ==> coerce(denoted(assignments[i].value)->0, schema.columns[c]) == Ok::<
            ValueView,
            Seq<char>,
        >(updated[c])) && (assigns_never(schema, assignments, c) ==> updated[c] == row[c]))),
{
    all_are_literals(assignments, 0);
    match targets_from(schema, assignments, 0) {
        Ok(targets) => {
            targets_lead(schema, assignments, 0);
            match assigned(coerce, schema, assignments, targets) {
                Ok(AssignedView::Values(values)) => {
                    literals_are_typed(coerce, schema, assignments, targets, 0);
                    assert forall|k: int| 0 <= k < targets.len() implies 0 <= #[trigger] targets[k]
                        < row.len() by {
                        assert(is_column(schema, assignments[0 + k].field, targets[k]));
                    }
                    if assigns_last(schema, assignments, i, c) {
                        assert(is_column(schema, assignments[0 + i].field, targets[i]));
                        names_lead_to_columns(schema, assignments[i].field);
                        assert(targets[i] == c);
                        assert forall|k: int| i < k < values.len() implies #[trigger] targets[k]
                            != targets[i] by {
                            assert(is_column(schema, assignments[0 + k].field, targets[k]));
                            assert(assignments[k].field != assignments[i].field);
                        }
                        placing_places(row, targets, values, 0, i);
                        assert(denoted(assignments[i].value) is Some);
                        literals_denote(assignments[i].value);
                        assert(coerce(
                            literal_of(assignments[0 + i].value)->Ok_0,
                            schema.columns[targets[0 + i]],
                        ) == Ok::<ValueView, Seq<char>>(values[i]));
                    }
                    if assigns_never(schema, assignments, c) {
                        assert forall|k: int| 0 <= k < values.len() implies #[trigger] targets[k]
                            != c by {
                            assert(is_column(schema, assignments[0 + k].field, targets[k]));
                            assert(!is_column(schema, assignments[k].field, c));
                        }
                        placing_leaves(row, targets, values, 0, c);
                    }
                },
                _ => {},
            }
        },
        Err(_) => {},
    }
}

proof fn computing_splits(
    eval: EvalModel,
    coerce: CoerceModel,
    schema: SchemaView,
    assignments: Seq<AssignmentView>,
    targets: Seq<int>,
    row: Seq<ValueView>,
    i: int,
)
    requires
        0 <= i < assignments.len(),
        targets.len() == assignments.len(),
    ensures
        computed_from(eval, coerce, schema, assignments, targets, row, i) == (match computed_from(
            eval,
            coerce,
            schema,
            assignments.drop_last(),
            targets.drop_last(),
            row,
            i,
        ) {
            Err(error) => Err::<Seq<ValueView>, ErrorView>(error),
            Ok(before) => match coerce(
                eval(assignments.last().value, before, schema.column_names()),
                schema.columns[targets.last()],
            ) {
                Err(message) => Err(ErrorView::TypeError(message)),
                Ok(value) => Ok(before.update(targets.last(), value)),
            },
        }),
    decreases assignments.len() - i,
{
    reveal_with_fuel(computed_from, 3);
    if i + 1 < assignments.len() {
        match coerce(
            eval(assignments[i].value, row, schema.column_names()),
            schema.columns[targets[i]],
        ) {
            Ok(value) => computing_splits(
                eval,
                coerce,
                schema,
                assignments,
                targets,
                row.update(targets[i], value),
                i + 1,
            ),
            Err(_) => {},
        }
    }
}

/// An update whose assignments are computed makes them one after the other: the
/// last is evaluated on the row as those before it leave it, and its column takes
/// what comes of that.
pub proof fn computed_updates_follow_one_another(
    eval: EvalModel,
    coerce: CoerceModel,
    schema: SchemaView,
    assignments: Seq<AssignmentView>,
    targets: Seq<int>,
    row: Seq<ValueView>,
)
    requires
        targets.len() == assignments.len(),
    ensures
        assignments.len() == 0 ==> updated_row(
            eval,
            coerce,
            schema,
            assignments,
            targets,
            AssignedView::Computed,
            row,
        ) == Ok::<Seq<ValueView>, ErrorView>(row),
        assignments.len() > 0 ==> updated_row(
            eval,
            coerce,
            schema,
            assignments,
            targets,
            AssignedView::Computed,
            row,
        ) == (match updated_row(
            eval,
            coerce,
            schema,
            assignments.drop_last(),
            targets.drop_last(),
            AssignedView::Computed,
            row,
        ) {
            Err(error) => Err::<Seq<ValueView>, ErrorView>(error),
            Ok(before) => match coerce(
                eval(assignments.last().value, before, schema.column_names()),
                schema.columns[targets.last()],
            ) {
                Err(message) => Err(ErrorView::TypeError(message)),
                Ok(value) => Ok(before.update(targets.last(), value)),
            },
        }),
{
    if assignments.len() > 0 {
        computing_splits(eval, coerce, schema, assignments, targets, row, 0);
    }
}

/// An assignment is computed on each row where one of the assignments is no
/// literal.
pub proof fn assignments_are_computed_where_one_must_be(
    coerce: CoerceModel,
    schema: SchemaView,
    assignments: Seq<AssignmentView>,
    targets: Seq<int>,
    k: int,
)
    requires
        0 <= k < assignments.len(),
        denoted(assignments[k].value) is None,
    ensures
        assigned(coerce, schema, assignments, targets) == Ok::<AssignedView, ErrorView>(
            AssignedView::Computed,
        ),
{
    literals_denote(assignments[k].value);
    if all_literal(assignments, 0) {
        literals_all(assignments, 0, k);
    }
}

proof fn changes_follow(
    eval: EvalModel,
    coerce: CoerceModel,
    table: TableView,
    assignments: Seq<AssignmentView>,
    targets: Seq<int>,
    prepared: AssignedView,
    rids: Seq<RowId>,
    i: int,
)
    requires
        0 <= i <= rids.len(),
        name_rows(table, rids),
    ensures
        changes_from(eval, coerce, table, assignments, targets, prepared, rids, i) matches Ok(
            changes,
        ) ==> changes.len() == rids.len() - i && forall|k: int|
            0 <= k < changes.len() ==> (#[trigger] changes[k]).0 == rids[i + k] && updated_row(
                eval,
                coerce,
                table.schema,
                assignments,
                targets,
                prepared,
                table.get(rids[i + k])->0,
            ) == Ok::<Seq<ValueView>, ErrorView>(changes[k].1),
    decreases rids.len() - i,
{
    if i < rids.len() {
        changes_follow(eval, coerce, table, assignments, targets, prepared, rids, i + 1);
        assert(table.get(rids[i]) is Some);
        match (
            changes_from(eval, coerce, table, assignments, targets, prepared, rids, i),
            changes_from(eval, coerce, table, assignments, targets, prepared, rids, i + 1),
        ) {
            (Ok(all), Ok(rest)) => {
                assert forall|k: int| 0 <= k < all.len() implies (#[trigger] all[k]).0 == rids[i + k]
                    && updated_row(
                    eval,
                    coerce,
                    table.schema,
                    assignments,
                    targets,
                    prepared,
                    table.get(rids[i + k])->0,
                ) == Ok::<Seq<ValueView>, ErrorView>(all[k].1) by {
                    if k > 0 {
                        assert(all[k] == rest[k - 1]);
                        assert(rids[i + 1 + (k - 1)] == rids[i + k]);
                    }
                }
            },
            _ => {},
        }
    }
}

proof fn row_of_id_fits(table: TableView, rid: RowId)
    requires
        table_fits(table),
        table.get(rid) is Some,
    ensures
        (table.get(rid)->0).len() == table.schema.columns.len(),
{
    crate::index::found_row_fits(table, rid);
}

/// An update stores each of the rows that it selects once, under its id and in
/// their order, and then marks the views over the table: in each of them column
/// `c` holds what its column takes of the literal last assigned to it, or what it
/// held where nothing is assigned to it. It answers with the rows as they are
/// stored, or with how many they are.
pub proof fn update_statements_store_what_is_assigned(
    catalog: CatalogView,
    model: SessionModel,
    coerce: CoerceModel,
    input: PlanView,
    table: Seq<char>,
    assignments: Seq<AssignmentView>,
    returning: bool,
    budget: Budget,
    r: int,
    i: int,
    c: int,
)
    requires
        indexes_agree(catalog),
        crate::index::catalog_fits(catalog),
        forall|k: int|
            0 <= k < assignments.len() ==> denoted((#[trigger] assignments[k]).value) is Some,
    ensures
        update_decision(
            catalog,
            model,
            coerce,
            input,
            table,
            assignments,
            returning,
            budget,
        ) matches Ok((DecisionView::Write { ops, reply }, left)) ==> {
            &&& catalog.table(table) matches Some(found)
            &&& mutation_rids(catalog, model, input, table, budget) matches Ok((rids, rest))
            &&& left == rest
            &&& ops.len() == rids.len() + 1
            &&& ops.last() == (StorageOpView::MarkDependentsDirty { table })
            &&& reply matches ReplyView::Fixed { result }
            &&& result == (if returning {
                ResultView::Rows {
                    columns: found.schema.column_names(),
                    rows: Seq::new(rids.len(), |k: int| ops[k]->Update_values),
                }
            } else {
                ResultView::Modified(rids.len() as u64)
            })
            &&& 0 <= r < rids.len() ==> {
                &&& ops[r] matches StorageOpView::Update { table: name, rid, values, changed: _ }
                &&& name == table
                &&& rid == rids[r]
                &&& found.get(rid) matches Some(row)
                &&& values.len() == row.len()
                &&& assigns_last(found.schema, assignments, i, c) ==> coerce(
                    denoted(assignments[i].value)->0,
                    found.schema.columns[c],
                ) == Ok::<ValueView, Seq<char>>(values[c])
                &&& 0 <= c < row.len() && assigns_never(found.schema, assignments, c) ==> values[c]
                    == row[c]
            }
        },
{
    match update_decision(catalog, model, coerce, input, table, assignments, returning, budget) {
        Ok((DecisionView::Write { ops, reply }, _)) => {
            let found = catalog.table(table)->0;
            let targets = targets_from(found.schema, assignments, 0)->Ok_0;
            let prepared = assigned(coerce, found.schema, assignments, targets)->Ok_0;
            let rids = mutation_rids(catalog, model, input, table, budget)->Ok_0.0;
            found_table_agrees(catalog, table, Seq::empty());
            crate::index::found_table_fits(catalog, table);
            changes_name_rows(catalog, model, input, table, budget);
            changes_follow(
                model.scalars.eval,
                coerce,
                found,
                assignments,
                targets,
                prepared,
                rids,
                0,
            );
            let changes = changes_from(
                model.scalars.eval,
                coerce,
                found,
                assignments,
                targets,
                prepared,
                rids,
                0,
            )->Ok_0;
            assert(crate::mutate::changed_rows(changes) =~= Seq::new(
                rids.len(),
                |k: int| ops[k]->Update_values,
            ));
            if 0 <= r < rids.len() {
                assert(changes[r].0 == rids[0 + r]);
                assert(found.get(rids[r]) is Some);
                let row = found.get(rids[r])->0;
                row_of_id_fits(found, rids[r]);
                if assigns_last(found.schema, assignments, i, c) || (0 <= c < row.len()
                    && assigns_never(found.schema, assignments, c)) {
                    literal_updates_store_what_is_assigned(
                        model.scalars.eval,
                        coerce,
                        found.schema,
                        assignments,
                        row,
                        i,
                        c,
                    );
                } else {
                    placed_length(found.schema, coerce, assignments, row);
                }
            }
        },
        _ => {},
    }
}

proof fn placing_keeps_length(
    row: Seq<ValueView>,
    targets: Seq<int>,
    values: Seq<ValueView>,
    i: int,
)
    requires
        0 <= i,
        values.len() <= targets.len(),
        forall|k: int| 0 <= k < targets.len() ==> 0 <= #[trigger] targets[k] < row.len(),
    ensures
        placed_from(row, targets, values, i).len() == row.len(),
    decreases values.len() - i,
{
    if i < values.len() {
        assert(0 <= targets[i] < row.len());
        placing_keeps_length(row.update(targets[i], values[i]), targets, values, i + 1);
    }
}

proof fn placed_length(
    schema: SchemaView,
    coerce: CoerceModel,
    assignments: Seq<AssignmentView>,
    row: Seq<ValueView>,
)
    requires
        row.len() == schema.columns.len(),
        forall|k: int|
            0 <= k < assignments.len() ==> denoted((#[trigger] assignments[k]).value) is Some,
    ensures
        targets_from(schema, assignments, 0) matches Ok(targets) ==> (assigned(
            coerce,
            schema,
            assignments,
            targets,
        ) matches Ok(AssignedView::Values(values)) ==> placed_from(row, targets, values, 0).len()
            == row.len()),
        assigned(coerce, schema, assignments, targets_from(schema, assignments, 0)->Ok_0) matches Ok(
            prepared,
        ) ==> prepared is Values,
{
    all_are_literals(assignments, 0);
    match targets_from(schema, assignments, 0) {
        Ok(targets) => match assigned(coerce, schema, assignments, targets) {
            Ok(AssignedView::Values(values)) => {
                targets_lead(schema, assignments, 0);
                literals_are_typed(coerce, schema, assignments, targets, 0);
                assert forall|k: int| 0 <= k < targets.len() implies 0 <= #[trigger] targets[k]
                    < row.len() by {
                    assert(is_column(schema, assignments[0 + k].field, targets[k]));
                }
                placing_keeps_length(row, targets, values, 0);
            },
            _ => {},
        },
        Err(_) => {},
    }
}

} // verus!
