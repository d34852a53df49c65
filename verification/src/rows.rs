//! The rows that a statement stores.

use vstd::prelude::*;

use crate::catalog::{CatalogView, ColumnDef, ColumnDefView, Schema, SchemaView, Table, TableView};
use crate::coerce::{coerced_value, prefixed, CoerceModel, Coercion};
use crate::error::{no_column_error, outcome, ErrorView, QueryError};
use crate::expr::Expr;
use crate::group::ints;
use crate::lower::{literal_of, literal_to_value};
use crate::plan::{Assignment, AssignmentView};
use crate::scalars::{EvalModel, FloatOp, Order, Scalars};
use crate::seqs::{first_where_found, is_name, name_position};
use crate::text::push_text;
use crate::value::{Value, ValueView};

verus! {

/// A row without values.
pub open spec fn blank_row(n: nat) -> Seq<ValueView> {
    Seq::new(n, |i: int| ValueView::Empty)
}

/// A row with the assignments from `i` on made, each a literal as its column
/// stores it.
pub open spec fn assigned_from(
    coerce: CoerceModel,
    schema: SchemaView,
    assignments: Seq<AssignmentView>,
    i: int,
    values: Seq<ValueView>,
) -> Result<Seq<ValueView>, ErrorView>
    decreases assignments.len() - i,
{
    if i < 0 || i >= assignments.len() {
        Ok(values)
    } else {
        match schema.column_index(assignments[i].field) {
            None => Err(no_column_error(assignments[i].field)),
            Some(at) => match literal_of(assignments[i].value) {
                Err(error) => Err(error),
                Ok(raw) => match coerced_value(coerce, raw, schema.columns[at]) {
                    Err(error) => Err(error),
                    Ok(value) => assigned_from(
                        coerce,
                        schema,
                        assignments,
                        i + 1,
                        values.update(at, value),
                    ),
                },
            },
        }
    }
}

/// The values, with the declared default where a value is missing.
pub open spec fn filled(values: Seq<ValueView>, defaults: Seq<Option<ValueView>>) -> Seq<ValueView> {
    Seq::new(
        values.len(),
        |i: int|
            if values[i] is Empty && i < defaults.len() && defaults[i] is Some {
                defaults[i]->0
            } else {
                values[i]
            },
    )
}

/// The message for a required column without a value.
pub open spec fn required_message(column: Seq<char>) -> Seq<char> {
    "column '"@ + column + "' is required but no value was provided"@
}

/// A column numbers itself.
pub open spec fn is_auto(table: TableView, position: int) -> bool {
    position < table.auto_columns.len() && table.auto_columns[position]
}

/// The error for the first column from `i` on that is required, does not number
/// itself and has no value.
pub open spec fn required_error(table: TableView, values: Seq<ValueView>, i: int) -> Option<ErrorView>
    decreases table.schema.columns.len() - i,
{
    if i < 0 || i >= table.schema.columns.len() {
        None
    } else {
        let column = table.schema.columns[i];
        if column.required && !is_auto(table, column.position as int)
            && values[column.position as int] is Empty {
            Some(ErrorView::Execution(required_message(column.name)))
        } else {
            required_error(table, values, i + 1)
        }
    }
}

/// A new row: the assignments, then the defaults, and a value for every required
/// column.
pub open spec fn new_row(
    coerce: CoerceModel,
    table: TableView,
    assignments: Seq<AssignmentView>,
) -> Result<Seq<ValueView>, ErrorView> {
    match assigned_from(
        coerce,
        table.schema,
        assignments,
        0,
        blank_row(table.schema.columns.len()),
    ) {
        Err(error) => Err(error),
        Ok(values) => {
            let all = filled(values, table.defaults);
            match required_error(table, all, 0) {
                Some(error) => Err(error),
                None => Ok(all),
            }
        },
    }
}

/// The new rows from `i` on; an error in one of them is the error of the whole.
pub open spec fn new_rows(
    coerce: CoerceModel,
    table: TableView,
    rows: Seq<Seq<AssignmentView>>,
    i: int,
) -> Result<Seq<Seq<ValueView>>, ErrorView>
    decreases rows.len() - i,
{
    if i < 0 || i >= rows.len() {
        Ok(Seq::empty())
    } else {
        match new_row(coerce, table, rows[i]) {
            Err(error) => Err(error),
            Ok(row) => prefixed(seq![row], new_rows(coerce, table, rows, i + 1)),
        }
    }
}

/// Each column of a table has a place among its columns.
pub open spec fn placed(table: TableView) -> bool {
    forall|i: int|
        0 <= i < table.schema.columns.len() ==> (#[trigger] table.schema.columns[i]).position
            < table.schema.columns.len()
}

/// Each column of each table has a place among the columns of its table.
pub open spec fn catalog_placed(catalog: CatalogView) -> bool {
    forall|t: int| 0 <= t < catalog.tables.len() ==> placed(#[trigger] catalog.tables[t])
}

/// A table of a catalog in which columns have places has them too.
pub proof fn found_table_placed(catalog: CatalogView, name: Seq<char>)
    requires
        catalog_placed(catalog),
    ensures
        catalog.table(name) matches Some(table) ==> placed(table),
{
    match name_position(catalog.table_names(), name) {
        Some(i) => {
            first_where_found(catalog.table_names(), is_name(name));
            assert(placed(catalog.tables[i]));
        },
        None => {},
    }
}

fn blank(n: usize) -> (row: Vec<Value>)
    ensures
        row.deep_view() == blank_row(n as nat),
        row.len() == n,
{
    let mut row: Vec<Value> = Vec::new();
    let mut i: usize = 0;
    while i < n
        invariant
            i <= n,
            row.len() == i,
            forall|j: int| 0 <= j < i ==> (#[trigger] row[j]).deep_view() is Empty,
        decreases n - i,
    {
        row.push(Value::Empty);
        i = i + 1;
    }
    assert(row.deep_view() =~= blank_row(n as nat));
    row
}

/// Put a value in its place.
pub fn set_value(row: &mut Vec<Value>, at: usize, value: Value)
    requires
        at < old(row).len(),
    ensures
        final(row).deep_view() == old(row).deep_view().update(at as int, value.deep_view()),
        final(row).len() == old(row).len(),
{
    let ghost before = row.deep_view();
    row.set(at, value);
    assert(row.deep_view() =~= before.update(at as int, value.deep_view()));
}

fn assign_row<K: Fn(&Value, &ColumnDef) -> Result<Value, String>>(
    coercion: &Coercion<K>,
    schema: &Schema,
    assignments: &Vec<Assignment>,
    start: Vec<Value>,
) -> (row: Result<Vec<Value>, QueryError>)
    requires
        coercion.ok(),
        start.len() == schema.columns.len(),
    ensures
        outcome(row) == assigned_from(
            coercion.model@,
            schema.deep_view(),
            assignments.deep_view(),
            0,
            start.deep_view(),
        ),
        row matches Ok(values) ==> values.len() == schema.columns.len(),
{
    let ghost coerce = coercion.model@;
    let ghost shown = schema.deep_view();
    let ghost views = assignments.deep_view();
    let ghost goal = assigned_from(coerce, shown, views, 0, start.deep_view());
    let mut values = start;
    let mut i: usize = 0;
    while i < assignments.len()
        invariant
            coercion.ok(),
            i <= assignments.len(),
            coerce == coercion.model@,
            shown == schema.deep_view(),
            views == assignments.deep_view(),
            goal == assigned_from(coerce, shown, views, 0, start.deep_view()),
            goal == assigned_from(coerce, shown, views, i as int, values.deep_view()),
            values.len() == schema.columns.len(),
        decreases assignments.len() - i,
    {
        assert(views[i as int] == assignments[i as int].deep_view());
        let at: usize = match schema.column_index(&assignments[i].field) {
            Some(at) => at,
            None => {
                return Err(QueryError::no_column(&assignments[i].field));
            },
        };
        let raw = literal_to_value(&assignments[i].value)?;
        assert(shown.columns[at as int] == schema.columns[at as int].deep_view());
        let value = coercion.coerce_value(&raw, &schema.columns[at])?;
        set_value(&mut values, at, value);
        i = i + 1;
    }
    Ok(values)
}

fn fill_row(row: Vec<Value>, defaults: &Vec<Option<Value>>) -> (full: Vec<Value>)
    ensures
        full.deep_view() == filled(row.deep_view(), defaults.deep_view()),
        full.len() == row.len(),
{
    let ghost start = row.deep_view();
    let ghost known = defaults.deep_view();
    let mut full: Vec<Value> = Vec::new();
    let mut i: usize = 0;
    while i < row.len()
        invariant
            i <= row.len(),
            start == row.deep_view(),
            known == defaults.deep_view(),
            full.len() == i,
            forall|j: int|
                0 <= j < i ==> (#[trigger] full[j]).deep_view() == filled(start, known)[j],
        decreases row.len() - i,
    {
        assert(start[i as int] == row[i as int].deep_view());
        let mut value = row[i].clone();
        if value.is_empty() && i < defaults.len() {
            assert(known[i as int] == defaults[i as int].deep_view());
            match &defaults[i] {
                Some(other) => {
                    value = other.clone();
                },
                None => {},
            }
        }
        full.push(value);
        i = i + 1;
    }
    assert(full.deep_view() =~= filled(start, known));
    full
}

fn check_required(table: &Table, values: &Vec<Value>) -> (checked: Result<(), QueryError>)
    requires
        placed(table.deep_view()),
        values.len() == table.schema.columns.len(),
    ensures
        match checked {
            Ok(_) => required_error(table.deep_view(), values.deep_view(), 0) is None,
            Err(error) => required_error(table.deep_view(), values.deep_view(), 0) == Some(
                error.deep_view(),
            ),
        },
{
    let ghost view = table.deep_view();
    let ghost shown = values.deep_view();
    let mut i: usize = 0;
    while i < table.schema.columns.len()
        invariant
            i <= table.schema.columns.len(),
            view == table.deep_view(),
            shown == values.deep_view(),
            placed(view),
            values.len() == table.schema.columns.len(),
            required_error(view, shown, 0) == required_error(view, shown, i as int),
        decreases table.schema.columns.len() - i,
    {
        let column = &table.schema.columns[i];
        proof {
            assert(view.schema.columns[i as int] == column.deep_view());
            assert(view.schema.columns[i as int].position < view.schema.columns.len());
        }
        let position: usize = column.position as usize;
        let auto: bool = position < table.auto_columns.len() && table.auto_columns[position];
        if column.required && !auto && values[position].is_empty() {
            let mut message = "column '".to_owned();
            push_text(&mut message, column.name.as_str());
            push_text(&mut message, "' is required but no value was provided");
            return Err(QueryError::Execution(message));
        }
        i = i + 1;
    }
    Ok(())
}

/// Build a new row of a table.
pub fn build_row<K: Fn(&Value, &ColumnDef) -> Result<Value, String>>(
    coercion: &Coercion<K>,
    table: &Table,
    assignments: &Vec<Assignment>,
) -> (row: Result<Vec<Value>, QueryError>)
    requires
        coercion.ok(),
        placed(table.deep_view()),
    ensures
        outcome(row) == new_row(coercion.model@, table.deep_view(), assignments.deep_view()),
        row matches Ok(values) ==> values.len() == table.schema.columns.len(),
{
    assert(table.deep_view().schema.columns.len() == table.schema.columns.len());
    let start = blank(table.schema.columns.len());
    let values = assign_row(coercion, &table.schema, assignments, start)?;
    let all = fill_row(values, &table.defaults);
    check_required(table, &all)?;
    Ok(all)
}

/// Build the new rows of a table; an error in one of them is the error of the
/// whole.
pub fn build_rows<K: Fn(&Value, &ColumnDef) -> Result<Value, String>>(
    coercion: &Coercion<K>,
    table: &Table,
    rows: &Vec<Vec<Assignment>>,
) -> (built: Result<Vec<Vec<Value>>, QueryError>)
    requires
        coercion.ok(),
        placed(table.deep_view()),
    ensures
        outcome(built) == new_rows(coercion.model@, table.deep_view(), rows.deep_view(), 0),
{
    let ghost coerce = coercion.model@;
    let ghost view = table.deep_view();
    let ghost views = rows.deep_view();
    let ghost all = new_rows(coerce, view, views, 0);
    let mut built: Vec<Vec<Value>> = Vec::new();
    let mut i: usize = 0;
    assert(prefixed(built.deep_view(), all) == all) by {
        assert(all matches Ok(rest) ==> built.deep_view() + rest =~= rest);
    }
    while i < rows.len()
        invariant
            coercion.ok(),
            placed(view),
            i <= rows.len(),
            coerce == coercion.model@,
            view == table.deep_view(),
            views == rows.deep_view(),
            all == new_rows(coerce, view, views, 0),
            all == prefixed(built.deep_view(), new_rows(coerce, view, views, i as int)),
        decreases rows.len() - i,
    {
        assert(views[i as int] == rows[i as int].deep_view());
        let row = build_row(coercion, table, &rows[i])?;
        let ghost before = built.deep_view();
        let ghost shown = row.deep_view();
        built.push(row);
        assert(built.deep_view() =~= before.push(shown));
        assert(new_rows(coerce, view, views, i + 1) matches Ok(rest) ==> before + (seq![shown] + rest)
            =~= before.push(shown) + rest);
        i = i + 1;
    }
    assert(built.deep_view() + Seq::<Seq<ValueView>>::empty() =~= built.deep_view());
    Ok(built)
}

/// The columns that the assignments from `i` on are to.
pub open spec fn targets_from(schema: SchemaView, assignments: Seq<AssignmentView>, i: int) -> Result<
    Seq<int>,
    ErrorView,
>
    decreases assignments.len() - i,
{
    if i < 0 || i >= assignments.len() {
        Ok(Seq::empty())
    } else {
        match schema.column_index(assignments[i].field) {
            None => Err(no_column_error(assignments[i].field)),
            Some(at) => prefixed(seq![at], targets_from(schema, assignments, i + 1)),
        }
    }
}

/// Find the columns that the assignments are to.
pub fn find_targets(schema: &Schema, assignments: &Vec<Assignment>) -> (targets: Result<
    Vec<usize>,
    QueryError,
>)
    ensures
        match targets {
            Ok(at) => targets_from(schema.deep_view(), assignments.deep_view(), 0) == Ok::<
                Seq<int>,
                ErrorView,
            >(ints(at@)) && at.len() == assignments.len() && forall|i: int|
                0 <= i < at.len() ==> #[trigger] at[i] < schema.columns.len(),
            Err(error) => targets_from(schema.deep_view(), assignments.deep_view(), 0) == Err::<
                Seq<int>,
                ErrorView,
            >(error.deep_view()),
        },
{
    let ghost shown = schema.deep_view();
    let ghost views = assignments.deep_view();
    let ghost all = targets_from(shown, views, 0);
    let mut at: Vec<usize> = Vec::new();
    let mut i: usize = 0;
    assert(prefixed(ints(at@), all) == all) by {
        assert(all matches Ok(rest) ==> ints(at@) + rest =~= rest);
    }
    while i < assignments.len()
        invariant
            i <= assignments.len(),
            shown == schema.deep_view(),
            views == assignments.deep_view(),
            all == targets_from(shown, views, 0),
            all == prefixed(ints(at@), targets_from(shown, views, i as int)),
            at.len() == i,
            forall|j: int| 0 <= j < at.len() ==> #[trigger] at[j] < schema.columns.len(),
        decreases assignments.len() - i,
    {
        assert(views[i as int] == assignments[i as int].deep_view());
        let found: usize = match schema.column_index(&assignments[i].field) {
            Some(found) => found,
            None => {
                return Err(QueryError::no_column(&assignments[i].field));
            },
        };
        let ghost before = ints(at@);
        at.push(found);
        assert(ints(at@) =~= before.push(found as int));
        assert(targets_from(shown, views, i + 1) matches Ok(rest) ==> before + (seq![found as int]
            + rest) =~= before.push(found as int) + rest);
        i = i + 1;
    }
    assert(ints(at@) + Seq::<int>::empty() =~= ints(at@));
    Ok(at)
}

/// A value as the column stores it, or a type error.
pub open spec fn typed_value(coerce: CoerceModel, value: ValueView, column: ColumnDefView) -> Result<
    ValueView,
    ErrorView,
> {
    match coerce(value, column) {
        Ok(value) => Ok(value),
        Err(message) => Err(ErrorView::TypeError(message)),
    }
}

/// A value as the column stores it, or a type error.
pub fn type_value<K: Fn(&Value, &ColumnDef) -> Result<Value, String>>(
    coercion: &Coercion<K>,
    value: &Value,
    column: &ColumnDef,
) -> (typed: Result<Value, QueryError>)
    requires
        coercion.ok(),
    ensures
        outcome(typed) == typed_value(coercion.model@, value.deep_view(), column.deep_view()),
{
    match (coercion.run)(value, column) {
        Ok(value) => Ok(value),
        Err(message) => Err(QueryError::TypeError(message)),
    }
}

/// Every assignment from `i` on is of a literal.
pub open spec fn all_literal(assignments: Seq<AssignmentView>, i: int) -> bool
    decreases assignments.len() - i,
{
    i < 0 || i >= assignments.len() || (literal_of(assignments[i].value) is Ok && all_literal(
        assignments,
        i + 1,
    ))
}

/// The literals from `i` on, as their columns store them.
pub open spec fn literals_from(
    coerce: CoerceModel,
    schema: SchemaView,
    assignments: Seq<AssignmentView>,
    targets: Seq<int>,
    i: int,
) -> Result<Seq<ValueView>, ErrorView>
    decreases assignments.len() - i,
{
    if i < 0 || i >= assignments.len() {
        Ok(Seq::empty())
    } else {
        match typed_value(
            coerce,
            literal_of(assignments[i].value)->Ok_0,
            schema.columns[targets[i]],
        ) {
            Err(error) => Err(error),
            Ok(value) => prefixed(
                seq![value],
                literals_from(coerce, schema, assignments, targets, i + 1),
            ),
        }
    }
}

/// What an update assigns: values that are the same for every row, or
/// expressions.
pub enum Assigned {
    Values(Vec<Value>),
    Computed,
}

/// What [`Assigned`] stands for.
pub enum AssignedView {
    Values(Seq<ValueView>),
    Computed,
}

impl DeepView for Assigned {
    type V = AssignedView;

    open spec fn deep_view(&self) -> AssignedView {
        match self {
            Assigned::Values(values) => AssignedView::Values(values.deep_view()),
            Assigned::Computed => AssignedView::Computed,
        }
    }
}

/// What an update assigns.
pub open spec fn assigned(
    coerce: CoerceModel,
    schema: SchemaView,
    assignments: Seq<AssignmentView>,
    targets: Seq<int>,
) -> Result<AssignedView, ErrorView> {
    if all_literal(assignments, 0) {
        match literals_from(coerce, schema, assignments, targets, 0) {
            Ok(values) => Ok(AssignedView::Values(values)),
            Err(error) => Err(error),
        }
    } else {
        Ok(AssignedView::Computed)
    }
}

fn literals(assignments: &Vec<Assignment>) -> (raws: Option<Vec<Value>>)
    ensures
        match raws {
            Some(raws) => all_literal(assignments.deep_view(), 0) && raws.len() == assignments.len()
                && forall|i: int|
                0 <= i < raws.len() ==> literal_of(assignments.deep_view()[i].value) == Ok::<
                    ValueView,
                    ErrorView,
                >((#[trigger] raws[i]).deep_view()),
            None => !all_literal(assignments.deep_view(), 0),
        },
{
    let ghost views = assignments.deep_view();
    let mut raws: Vec<Value> = Vec::new();
    let mut i: usize = 0;
    while i < assignments.len()
        invariant
            i <= assignments.len(),
            views == assignments.deep_view(),
            raws.len() == i,
            forall|j: int|
                0 <= j < i ==> literal_of(views[j].value) == Ok::<ValueView, ErrorView>(
                    (#[trigger] raws[j]).deep_view(),
                ),
            all_literal(views, 0) == all_literal(views, i as int),
        decreases assignments.len() - i,
    {
        assert(views[i as int] == assignments[i as int].deep_view());
        match literal_to_value(&assignments[i].value) {
            Ok(raw) => {
                raws.push(raw);
            },
            Err(_) => {
                return None;
            },
        }
        i = i + 1;
    }
    Some(raws)
}

/// Prepare what an update assigns.
pub fn prepare_assigned<K: Fn(&Value, &ColumnDef) -> Result<Value, String>>(
    coercion: &Coercion<K>,
    schema: &Schema,
    assignments: &Vec<Assignment>,
    targets: &Vec<usize>,
) -> (prepared: Result<Assigned, QueryError>)
    requires
        coercion.ok(),
        targets.len() == assignments.len(),
        forall|i: int| 0 <= i < targets.len() ==> #[trigger] targets[i] < schema.columns.len(),
    ensures
        outcome(prepared) == assigned(
            coercion.model@,
            schema.deep_view(),
            assignments.deep_view(),
            ints(targets@),
        ),
        prepared matches Ok(Assigned::Values(values)) ==> values.len() == assignments.len(),
{
    let raws = match literals(assignments) {
        Some(raws) => raws,
        None => {
            return Ok(Assigned::Computed);
        },
    };
    let ghost coerce = coercion.model@;
    let ghost shown = schema.deep_view();
    let ghost views = assignments.deep_view();
    let ghost at = ints(targets@);
    let ghost all = literals_from(coerce, shown, views, at, 0);
    let mut values: Vec<Value> = Vec::new();
    let mut i: usize = 0;
    assert(prefixed(values.deep_view(), all) == all) by {
        assert(all matches Ok(rest) ==> values.deep_view() + rest =~= rest);
    }
    while i < assignments.len()
        invariant
            coercion.ok(),
            i <= assignments.len(),
            coerce == coercion.model@,
            shown == schema.deep_view(),
            views == assignments.deep_view(),
            at == ints(targets@),
            targets.len() == assignments.len(),
            raws.len() == assignments.len(),
            all_literal(views, 0),
            forall|j: int| 0 <= j < targets.len() ==> #[trigger] targets[j] < schema.columns.len(),
            forall|j: int|
                0 <= j < raws.len() ==> literal_of(views[j].value) == Ok::<ValueView, ErrorView>(
                    (#[trigger] raws[j]).deep_view(),
                ),
            all == literals_from(coerce, shown, views, at, 0),
            all == prefixed(values.deep_view(), literals_from(coerce, shown, views, at, i as int)),
            values.len() == i,
        decreases assignments.len() - i,
    {
        let place: usize = targets[i];
        proof {
            assert(literal_of(views[i as int].value) == Ok::<ValueView, ErrorView>(
                raws[i as int].deep_view(),
            ));
            assert(at[i as int] == place);
            assert(shown.columns[place as int] == schema.columns[place as int].deep_view());
        }
        let value = type_value(coercion, &raws[i], &schema.columns[place])?;
        let ghost before = values.deep_view();
        let ghost one = value.deep_view();
        values.push(value);
        assert(values.deep_view() =~= before.push(one));
        assert(literals_from(coerce, shown, views, at, i + 1) matches Ok(rest) ==> before + (seq![one]
            + rest) =~= before.push(one) + rest);
        i = i + 1;
    }
    assert(values.deep_view() + Seq::<ValueView>::empty() =~= values.deep_view());
    Ok(Assigned::Values(values))
}

/// A row with the values from `i` on put in their places.
pub open spec fn placed_from(
    row: Seq<ValueView>,
    targets: Seq<int>,
    values: Seq<ValueView>,
    i: int,
) -> Seq<ValueView>
    decreases values.len() - i,
{
    if i < 0 || i >= values.len() {
        row
    } else {
        placed_from(row.update(targets[i], values[i]), targets, values, i + 1)
    }
}

/// A row with the assignments from `i` on computed and made, each on the row as
/// the one before left it.
pub open spec fn computed_from(
    eval: EvalModel,
    coerce: CoerceModel,
    schema: SchemaView,
    assignments: Seq<AssignmentView>,
    targets: Seq<int>,
    row: Seq<ValueView>,
    i: int,
) -> Result<Seq<ValueView>, ErrorView>
    decreases assignments.len() - i,
{
    if i < 0 || i >= assignments.len() {
        Ok(row)
    } else {
        match typed_value(
            coerce,
            eval(assignments[i].value, row, schema.column_names()),
            schema.columns[targets[i]],
        ) {
            Err(error) => Err(error),
            Ok(value) => computed_from(
                eval,
                coerce,
                schema,
                assignments,
                targets,
                row.update(targets[i], value),
                i + 1,
            ),
        }
    }
}

/// A row after an update.
pub open spec fn updated_row(
    eval: EvalModel,
    coerce: CoerceModel,
    schema: SchemaView,
    assignments: Seq<AssignmentView>,
    targets: Seq<int>,
    prepared: AssignedView,
    row: Seq<ValueView>,
) -> Result<Seq<ValueView>, ErrorView> {
    match prepared {
        AssignedView::Values(values) => Ok(placed_from(row, targets, values, 0)),
        AssignedView::Computed => computed_from(
            eval,
            coerce,
            schema,
            assignments,
            targets,
            row,
            0,
        ),
    }
}

/// Update a row.
pub fn update_row<
    E: Fn(&Expr, &Vec<Value>, &Vec<String>) -> Value,
    C: Fn(&Value, &Value) -> Order,
    F: Fn(FloatOp) -> u64,
    K: Fn(&Value, &ColumnDef) -> Result<Value, String>,
>(
    scalars: &Scalars<E, C, F>,
    coercion: &Coercion<K>,
    schema: &Schema,
    columns: &Vec<String>,
    assignments: &Vec<Assignment>,
    targets: &Vec<usize>,
    prepared: &Assigned,
    given: Vec<Value>,
) -> (updated: Result<Vec<Value>, QueryError>)
    requires
        scalars.ok(),
        coercion.ok(),
        columns.deep_view() == schema.deep_view().column_names(),
        targets.len() == assignments.len(),
        given.len() == schema.columns.len(),
        forall|i: int| 0 <= i < targets.len() ==> #[trigger] targets[i] < schema.columns.len(),
        prepared matches Assigned::Values(values) ==> values.len() == assignments.len(),
    ensures
        outcome(updated) == updated_row(
            scalars.values(),
            coercion.model@,
            schema.deep_view(),
            assignments.deep_view(),
            ints(targets@),
            prepared.deep_view(),
            given.deep_view(),
        ),
{
    let ghost eval = scalars.values();
    let ghost coerce = coercion.model@;
    let ghost shown = schema.deep_view();
    let ghost views = assignments.deep_view();
    let ghost at = ints(targets@);
    let ghost start = given.deep_view();
    let mut row = given;
    let mut i: usize = 0;
    match prepared {
        Assigned::Values(values) => {
            let ghost known = values.deep_view();
            while i < values.len()
                invariant
                    i <= values.len(),
                    values.len() == assignments.len(),
                    targets.len() == assignments.len(),
                    row.len() == schema.columns.len(),
                    forall|j: int|
                        0 <= j < targets.len() ==> #[trigger] targets[j] < schema.columns.len(),
                    known == values.deep_view(),
                    at == ints(targets@),
                    placed_from(start, at, known, 0) == placed_from(
                        row.deep_view(),
                        at,
                        known,
                        i as int,
                    ),
                decreases values.len() - i,
            {
                let place: usize = targets[i];
                assert(known[i as int] == values[i as int].deep_view());
                assert(at[i as int] == place);
                let value = values[i].clone();
                set_value(&mut row, place, value);
                i = i + 1;
            }
            Ok(row)
        },
        Assigned::Computed => {
            let ghost goal = computed_from(eval, coerce, shown, views, at, start, 0);
            while i < assignments.len()
                invariant
                    scalars.ok(),
                    coercion.ok(),
                    i <= assignments.len(),
                    targets.len() == assignments.len(),
                    row.len() == schema.columns.len(),
                    columns.deep_view() == shown.column_names(),
                    forall|j: int|
                        0 <= j < targets.len() ==> #[trigger] targets[j] < schema.columns.len(),
                    eval == scalars.values(),
                    coerce == coercion.model@,
                    shown == schema.deep_view(),
                    views == assignments.deep_view(),
                    at == ints(targets@),
                    prepared is Computed,
                    start == given.deep_view(),
                    goal == computed_from(eval, coerce, shown, views, at, start, 0),
                    goal == computed_from(
                        eval,
                        coerce,
                        shown,
                        views,
                        at,
                        row.deep_view(),
                        i as int,
                    ),
                decreases assignments.len() - i,
            {
                let place: usize = targets[i];
                proof {
                    assert(views[i as int] == assignments[i as int].deep_view());
                    assert(at[i as int] == place);
                    assert(shown.columns[place as int]
                        == schema.columns[place as int].deep_view());
                }
                let value = scalars.eval_expr(&assignments[i].value, &row, columns);
                let typed = type_value(coercion, &value, &schema.columns[place])?;
                set_value(&mut row, place, typed);
                i = i + 1;
            }
            Ok(row)
        },
    }
}

/// The error of an assignment comes before anything is stored: a new row has a
/// value for each column.
pub proof fn new_row_fits(coerce: CoerceModel, table: TableView, assignments: Seq<AssignmentView>)
    ensures
        new_row(coerce, table, assignments) matches Ok(row) ==> row.len()
            == table.schema.columns.len(),
{
    assigned_keeps_length(
        coerce,
        table.schema,
        assignments,
        0,
        blank_row(table.schema.columns.len()),
    );
}

proof fn assigned_keeps_length(
    coerce: CoerceModel,
    schema: SchemaView,
    assignments: Seq<AssignmentView>,
    i: int,
    values: Seq<ValueView>,
)
    requires
        values.len() == schema.columns.len(),
    ensures
        assigned_from(coerce, schema, assignments, i, values) matches Ok(row) ==> row.len()
            == values.len(),
    decreases assignments.len() - i,
{
    if 0 <= i < assignments.len() {
        if schema.column_index(assignments[i].field) is Some {
            first_where_found(schema.column_names(), is_name(assignments[i].field));
        }
        match schema.column_index(assignments[i].field) {
            None => {},
            Some(at) => match literal_of(assignments[i].value) {
                Err(_) => {},
                Ok(raw) => match coerced_value(coerce, raw, schema.columns[at]) {
                    Err(_) => {},
                    Ok(value) => {
                        assigned_keeps_length(
                            coerce,
                            schema,
                            assignments,
                            i + 1,
                            values.update(at, value),
                        );
                    },
                },
            },
        }
    }
}

/// A stored row has a value in every column that is required and does not number
/// itself.
pub proof fn new_row_has_required(
    coerce: CoerceModel,
    table: TableView,
    assignments: Seq<AssignmentView>,
    c: int,
)
    requires
        0 <= c < table.schema.columns.len(),
        table.schema.columns[c].required,
        !is_auto(table, table.schema.columns[c].position as int),
    ensures
        new_row(coerce, table, assignments) matches Ok(row) ==> !(
        row[table.schema.columns[c].position as int] is Empty),
{
    match new_row(coerce, table, assignments) {
        Ok(row) => {
            required_error_reaches(table, row, 0, c);
        },
        Err(_) => {},
    }
}

proof fn required_error_reaches(table: TableView, values: Seq<ValueView>, i: int, c: int)
    requires
        0 <= i <= c < table.schema.columns.len(),
        required_error(table, values, i) is None,
    ensures
        required_error(table, values, c) is None,
    decreases c - i,
{
    if i < c {
        required_error_reaches(table, values, i + 1, c);
    }
}

/// An update changes no column that it does not assign.
pub proof fn update_keeps_other_columns(
    eval: EvalModel,
    coerce: CoerceModel,
    schema: SchemaView,
    assignments: Seq<AssignmentView>,
    row: Seq<ValueView>,
    column: int,
)
    requires
        row.len() == schema.columns.len(),
        0 <= column < row.len(),
        forall|i: int|
            0 <= i < assignments.len() ==> schema.column_index((#[trigger] assignments[i]).field)
                != Some(column),
    ensures
        targets_from(schema, assignments, 0) matches Ok(targets) ==> (assigned(
            coerce,
            schema,
            assignments,
            targets,
        ) matches Ok(prepared) ==> (updated_row(
            eval,
            coerce,
            schema,
            assignments,
            targets,
            prepared,
            row,
        ) matches Ok(updated) ==> updated.len() == row.len() && updated[column] == row[column])),
{
    match targets_from(schema, assignments, 0) {
        Ok(targets) => {
            targets_are_columns(schema, assignments, 0);
            match assigned(coerce, schema, assignments, targets) {
                Ok(AssignedView::Values(values)) => {
                    literals_fill(coerce, schema, assignments, targets, 0);
                    placing_keeps_others(row, targets, values, 0, column);
                },
                Ok(AssignedView::Computed) => computing_keeps_others(
                    eval,
                    coerce,
                    schema,
                    assignments,
                    targets,
                    row,
                    0,
                    column,
                ),
                Err(_) => {},
            }
        },
        Err(_) => {},
    }
}

/// The targets of assignments are columns.
proof fn targets_are_columns(schema: SchemaView, assignments: Seq<AssignmentView>, i: int)
    requires
        0 <= i <= assignments.len(),
    ensures
        targets_from(schema, assignments, i) matches Ok(targets) ==> targets.len()
            == assignments.len() - i && forall|k: int|
            0 <= k < targets.len() ==> 0 <= #[trigger] targets[k] < schema.columns.len()
                && schema.column_index(assignments[i + k].field) == Some(targets[k]),
    decreases assignments.len() - i,
{
    if i < assignments.len() {
        targets_are_columns(schema, assignments, i + 1);
        match schema.column_index(assignments[i].field) {
            Some(at) => {
                first_where_found(schema.column_names(), is_name(assignments[i].field));
                match targets_from(schema, assignments, i + 1) {
                    Ok(rest) => {
                        let all = seq![at] + rest;
                        assert forall|k: int| 0 <= k < all.len() implies 0 <= #[trigger] all[k]
                            < schema.columns.len() && schema.column_index(assignments[i + k].field)
                            == Some(all[k]) by {
                            if k > 0 {
                                assert(all[k] == rest[k - 1]);
                                assert(assignments[i + 1 + (k - 1)] == assignments[i + k]);
                            }
                        }
                    },
                    Err(_) => {},
                }
            },
            None => {},
        }
    }
}

proof fn literals_fill(
    coerce: CoerceModel,
    schema: SchemaView,
    assignments: Seq<AssignmentView>,
    targets: Seq<int>,
    i: int,
)
    requires
        0 <= i <= assignments.len(),
    ensures
        literals_from(coerce, schema, assignments, targets, i) matches Ok(values) ==> values.len()
            == assignments.len() - i,
    decreases assignments.len() - i,
{
    if i < assignments.len() {
        literals_fill(coerce, schema, assignments, targets, i + 1);
    }
}

proof fn placing_keeps_others(
    row: Seq<ValueView>,
    targets: Seq<int>,
    values: Seq<ValueView>,
    i: int,
    column: int,
)
    requires
        0 <= i,
        values.len() <= targets.len(),
        0 <= column < row.len(),
        forall|k: int|
            0 <= k < targets.len() ==> 0 <= #[trigger] targets[k] < row.len() && targets[k]
                != column,
    ensures
        placed_from(row, targets, values, i).len() == row.len(),
        placed_from(row, targets, values, i)[column] == row[column],
    decreases values.len() - i,
{
    if i < values.len() {
        assert(targets[i] != column);
        placing_keeps_others(row.update(targets[i], values[i]), targets, values, i + 1, column);
    }
}

proof fn computing_keeps_others(
    eval: EvalModel,
    coerce: CoerceModel,
    schema: SchemaView,
    assignments: Seq<AssignmentView>,
    targets: Seq<int>,
    row: Seq<ValueView>,
    i: int,
    column: int,
)
    requires
        0 <= i,
        targets.len() == assignments.len(),
        0 <= column < row.len(),
        forall|k: int|
            0 <= k < targets.len() ==> 0 <= #[trigger] targets[k] < row.len() && targets[k]
                != column,
    ensures
        computed_from(eval, coerce, schema, assignments, targets, row, i) matches Ok(updated)
            ==> updated.len() == row.len() && updated[column] == row[column],
    decreases assignments.len() - i,
{
    if i < assignments.len() {
        assert(targets[i] != column);
        match typed_value(
            coerce,
            eval(assignments[i].value, row, schema.column_names()),
            schema.columns[targets[i]],
        ) {
            Ok(value) => computing_keeps_others(
                eval,
                coerce,
                schema,
                assignments,
                targets,
                row.update(targets[i], value),
                i + 1,
                column,
            ),
            Err(_) => {},
        }
    }
}

} // verus!
