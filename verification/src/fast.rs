//! Shorter ways to the answers of common plans over a full scan.

use vstd::prelude::*;

use crate::seqs::name_position;
use crate::aggregate::{aggregate_rows_of, aggregate_values, evaluated, RowId};
use crate::catalog::{Catalog, CatalogView, Table, TableView};
use crate::error::{Budget, ErrorView, QueryError, QueryResult, ResultView};
use crate::expr::{AggFunc, Expr, ExprView, Literal, LiteralView};
use crate::group::{filtered, ints, pick, pick_values};
use crate::index::{
    all_bare, bare_names, bare_positions, catalog_fits, fields_all_bare, found_table_fits,
    project_positions, projected, resolve_bare, slice, table_fits, table_rows,
};
use crate::join::rows_match;
use crate::mentions::{contains_subquery, holds_subquery};
use crate::operators::{output_names, project_answer, projected_row, projection, rows_at};
use crate::ordering::{lead_by_keys, leading_positions};
use crate::plan::{PlanNode, PlanView, ProjectField, ProjectFieldView};
use crate::scalars::{is_true, reads_columns, EvalModel, FloatOp, Order, ScalarModel, Scalars};
use crate::session::{CompileModel, Compiler};
use crate::sort::{saturating_scratch, sort_charge};
use crate::value::{clone_row, TypeId, Value, ValueView};

verus! {

/// The table and the predicate of a full scan, filtered or not. A predicate with
/// a subquery is none that a row alone decides.
pub open spec fn plain_scan(plan: PlanView) -> Option<(Seq<char>, Option<ExprView>)> {
    match plan {
        PlanView::SeqScan { table } => Some((table, None)),
        PlanView::Filter { input, predicate } => match *input {
            PlanView::SeqScan { table } => if holds_subquery(predicate) {
                None
            } else {
                Some((table, Some(predicate)))
            },
            _ => None,
        },
        _ => None,
    }
}

/// The table and the predicate of a full scan, filtered or not.
pub fn as_plain_scan(plan: &PlanNode) -> (scan: Option<(&String, Option<&Expr>)>)
    ensures
        scan is None ==> plain_scan(plan.deep_view()) is None,
        scan is Some ==> plain_scan(plan.deep_view()) == Some(
            ((scan->0).0@, (scan->0).1.deep_view()),
        ),
{
    match plan {
        PlanNode::SeqScan { table } => {
            Some((table, None))
        },
        PlanNode::Filter { input, predicate } => {
            let inner: &PlanNode = input;
            match inner {
                PlanNode::SeqScan { table } => {
                    assert(inner.deep_view() == PlanView::SeqScan { table: table@ });
                    if contains_subquery(predicate) {
                        None
                    } else {
                        Some((table, Some(predicate)))
                    }
                },
                _ => {
                    assert(!(inner.deep_view() is SeqScan));
                    None
                },
            }
        },
        _ => None,
    }
}

/// The rows that a predicate keeps; without one, all of them.
pub open spec fn scanned(
    eval: EvalModel,
    predicate: Option<ExprView>,
    rows: Seq<Seq<ValueView>>,
    columns: Seq<Seq<char>>,
) -> Seq<Seq<ValueView>> {
    match predicate {
        Some(p) => filtered(eval, p, rows, columns),
        None => rows,
    }
}

/// A predicate keeps a row; without one, every row is kept.
pub open spec fn keeps(
    eval: EvalModel,
    predicate: Option<ExprView>,
    row: Seq<ValueView>,
    columns: Seq<Seq<char>>,
) -> bool {
    predicate matches Some(p) ==> is_true(eval(p, row, columns))
}

proof fn scanned_next(
    eval: EvalModel,
    predicate: Option<ExprView>,
    rows: Seq<Seq<ValueView>>,
    columns: Seq<Seq<char>>,
    i: int,
)
    requires
        0 <= i < rows.len(),
    ensures
        scanned(eval, predicate, rows.take(i + 1), columns) == (if keeps(
            eval,
            predicate,
            rows[i],
            columns,
        ) {
            scanned(eval, predicate, rows.take(i), columns).push(rows[i])
        } else {
            scanned(eval, predicate, rows.take(i), columns)
        }),
{
    assert(rows.take(i + 1).drop_last() =~= rows.take(i));
    assert(rows.take(i + 1).last() == rows[i]);
    assert(rows.take(i + 1) =~= rows.take(i).push(rows[i]));
}

proof fn scanned_begins(
    eval: EvalModel,
    predicate: Option<ExprView>,
    rows: Seq<Seq<ValueView>>,
    columns: Seq<Seq<char>>,
    i: int,
    n: int,
)
    requires
        0 <= i <= n <= rows.len(),
    ensures
        ({
            let some = scanned(eval, predicate, rows.take(i), columns);
            let all = scanned(eval, predicate, rows.take(n), columns);
            some.len() <= all.len() && some == all.take(some.len() as int)
        }),
    decreases n,
{
    let some = scanned(eval, predicate, rows.take(i), columns);
    if i < n {
        scanned_begins(eval, predicate, rows, columns, i, n - 1);
        scanned_next(eval, predicate, rows, columns, n - 1);
        let less = scanned(eval, predicate, rows.take(n - 1), columns);
        let all = scanned(eval, predicate, rows.take(n), columns);
        assert(all.take(some.len() as int) =~= less.take(some.len() as int));
    } else {
        assert(some.take(some.len() as int) =~= some);
    }
}

proof fn scanned_fit(
    eval: EvalModel,
    predicate: Option<ExprView>,
    rows: Seq<Seq<ValueView>>,
    columns: Seq<Seq<char>>,
    i: int,
)
    requires
        0 <= i <= rows.len(),
        rows_match(rows, columns),
    ensures
        rows_match(scanned(eval, predicate, rows.take(i), columns), columns),
    decreases i,
{
    if i > 0 {
        scanned_fit(eval, predicate, rows, columns, i - 1);
        scanned_next(eval, predicate, rows, columns, i - 1);
        assert(rows[i - 1].len() == columns.len());
    } else {
        assert(rows.take(0) =~= Seq::<Seq<ValueView>>::empty());
        assert(scanned(eval, predicate, rows.take(0), columns) =~= Seq::<Seq<ValueView>>::empty());
    }
}

proof fn table_matches(table: TableView)
    requires
        table_fits(table),
    ensures
        rows_match(table_rows(table), table.schema.column_names()),
{
    let rows = table_rows(table);
    assert forall|r: int| 0 <= r < rows.len() implies (#[trigger] rows[r]).len()
        == table.schema.column_names().len() by {
        assert(table.rows[r].values.len() == table.schema.columns.len());
    }
}

fn row_kept<
    E: Fn(&Expr, &Vec<Value>, &Vec<String>) -> Value,
    C: Fn(&Value, &Value) -> Order,
    F: Fn(FloatOp) -> u64,
>(
    scalars: &Scalars<E, C, F>,
    predicate: Option<&Expr>,
    row: &Vec<Value>,
    columns: &Vec<String>,
) -> (kept: bool)
    requires
        scalars.ok(),
    ensures
        kept == keeps(
            scalars.values(),
            predicate.deep_view(),
            row.deep_view(),
            columns.deep_view(),
        ),
{
    match predicate {
        Some(p) => scalars.eval_predicate(p, row, columns),
        None => true,
    }
}

/// The position of a column of integers or floats.
pub open spec fn numeric_column(table: TableView, column: Seq<char>) -> Option<int> {
    match table.schema.column_index(column) {
        Some(at) => if table.schema.columns[at].type_id is Int || table.schema.columns[at].type_id is Float {
            Some(at)
        } else {
            None
        },
        None => None,
    }
}

fn find_numeric(table: &Table, column: &String) -> (at: Option<usize>)
    ensures
        match at {
            Some(i) => i < table.schema.columns.len() && numeric_column(table.deep_view(), column@)
                == Some(i as int),
            None => numeric_column(table.deep_view(), column@) is None,
        },
{
    match table.schema.column_index(column) {
        Some(i) => {
            assert(table.deep_view().schema.columns[i as int]
                == table.schema.columns[i as int].deep_view());
            match table.schema.columns[i].type_id {
                TypeId::Int | TypeId::Float => Some(i),
                _ => None,
            }
        },
        None => None,
    }
}

/// The values of one column.
pub open spec fn column_values(rows: Seq<Seq<ValueView>>, at: int) -> Seq<ValueView> {
    Seq::new(rows.len(), |i: int| rows[i][at])
}

fn scan_column<
    E: Fn(&Expr, &Vec<Value>, &Vec<String>) -> Value,
    C: Fn(&Value, &Value) -> Order,
    F: Fn(FloatOp) -> u64,
    P: Fn() -> Result<(), QueryError>,
>(
    scalars: &Scalars<E, C, F>,
    found: &Table,
    columns: &Vec<String>,
    at: usize,
    predicate: Option<&Expr>,
    poll: &P,
) -> (values: Result<Vec<Value>, QueryError>)
    requires
        scalars.ok(),
        call_requires(*poll, ()),
        table_fits(found.deep_view()),
        at < found.schema.columns.len(),
    ensures
        match values {
            Ok(values) => values.deep_view() == column_values(
                scanned(
                    scalars.values(),
                    predicate.deep_view(),
                    table_rows(found.deep_view()),
                    columns.deep_view(),
                ),
                at as int,
            ),
            Err(error) => call_ensures(*poll, (), Err(error)),
        },
{
    let ghost eval = scalars.values();
    let ghost view = predicate.deep_view();
    let ghost all = table_rows(found.deep_view());
    let ghost cols = columns.deep_view();
    let mut values: Vec<Value> = Vec::new();
    let mut i: usize = 0;
    proof {
        assert(all.take(0) =~= Seq::<Seq<ValueView>>::empty());
        assert(scanned(eval, view, all.take(0), cols) =~= Seq::<Seq<ValueView>>::empty());
        assert(values.deep_view() =~= column_values(Seq::empty(), at as int));
    }
    while i < found.rows.len()
        invariant
            scalars.ok(),
            call_requires(*poll, ()),
            table_fits(found.deep_view()),
            at < found.schema.columns.len(),
            i <= found.rows.len(),
            eval == scalars.values(),
            view == predicate.deep_view(),
            all == table_rows(found.deep_view()),
            all.len() == found.rows.len(),
            cols == columns.deep_view(),
            values.deep_view() == column_values(
                scanned(eval, view, all.take(i as int), cols),
                at as int,
            ),
        decreases found.rows.len() - i,
    {
        match poll() {
            Ok(_) => {},
            Err(error) => {
                return Err(error);
            },
        }
        let row = &found.rows[i].values;
        proof {
            assert(found.deep_view().rows[i as int] == found.rows[i as int].deep_view());
            assert(all[i as int] == row.deep_view());
            assert(row.deep_view().len() == row.len());
            scanned_next(eval, view, all, cols, i as int);
        }
        let ghost before = values.deep_view();
        let ghost kept = scanned(eval, view, all.take(i as int), cols);
        if row_kept(scalars, predicate, row, columns) {
            values.push(row[at].clone());
            assert(values.deep_view() =~= before.push(row.deep_view()[at as int]));
            assert(column_values(kept.push(all[i as int]), at as int) =~= column_values(
                kept,
                at as int,
            ).push(all[i as int][at as int]));
        }
        i = i + 1;
    }
    assert(all.take(all.len() as int) =~= all);
    Ok(values)
}

/// Whether an aggregate of one column over a full scan is read off the stored
/// form of the rows: a column of integers or floats, under a predicate that can
/// be tested there.
pub open spec fn single_column(
    compiles: CompileModel,
    table: TableView,
    column: Seq<char>,
    predicate: Option<ExprView>,
) -> bool {
    compiles(predicate, table) && numeric_column(table, column) is Some && column != "*"@
}

/// An aggregate of one column of integers or floats over a full scan: as over
/// any rows, but that a sum of no float at all is the float zero.
pub open spec fn column_aggregate(
    model: ScalarModel,
    table: TableView,
    column: Seq<char>,
    function: AggFunc,
    predicate: Option<ExprView>,
) -> Result<ResultView, ErrorView> {
    let names = table.schema.column_names();
    let rows = scanned(model.eval, predicate, table_rows(table), names);
    let at = numeric_column(table, column)->0;
    if function is Sum && table.schema.columns[at].type_id is Float && present(
        column_values(rows, at),
    ) == 0 {
        Ok(ResultView::Scalar(ValueView::Float(0)))
    } else {
        aggregate_rows_of(model, function, Some(ExprView::Field(column)), names, rows)
    }
}

/// What an aggregate answers where it is read off one column of a full scan.
pub open spec fn column_answer(
    catalog: CatalogView,
    model: ScalarModel,
    compiles: CompileModel,
    input: PlanView,
    function: AggFunc,
    argument: Option<ExprView>,
) -> Option<Result<ResultView, ErrorView>> {
    match (plain_scan(input), argument) {
        (Some((table, predicate)), Some(ExprView::Field(column))) => match catalog.table(table) {
            Some(found) => if single_column(compiles, found, column, predicate) {
                Some(column_aggregate(model, found, column, function, predicate))
            } else {
                None
            },
            None => None,
        },
        _ => None,
    }
}

/// An aggregate of one column of integers or floats over a full scan, without
/// holding the rows. None where it is not read off the stored form of the rows:
/// any other shape is left to the general way.
pub fn agg_single_col_fast<
    E: Fn(&Expr, &Vec<Value>, &Vec<String>) -> Value,
    C: Fn(&Value, &Value) -> Order,
    F: Fn(FloatOp) -> u64,
    B: Fn(Option<&Expr>, &Table) -> bool,
    P: Fn() -> Result<(), QueryError>,
>(
    catalog: &Catalog,
    scalars: &Scalars<E, C, F>,
    compiler: &Compiler<B>,
    table: &String,
    column: &String,
    function: AggFunc,
    predicate: Option<&Expr>,
    poll: &P,
) -> (result: Result<Option<QueryResult>, QueryError>)
    requires
        scalars.ok(),
        compiler.ok(),
        call_requires(*poll, ()),
        catalog_fits(catalog.deep_view()),
    ensures
        match catalog.deep_view().table(table@) {
            None => result matches Err(error) && error.deep_view() == ErrorView::TableNotFound(table@),
            Some(found) => {
                let expected = column_aggregate(
                    scalars.model@,
                    found,
                    column@,
                    function,
                    predicate.deep_view(),
                );
                if single_column(compiler.model@, found, column@, predicate.deep_view()) {
                    match result {
                        Ok(Some(answer)) => expected == Ok::<ResultView, ErrorView>(
                            answer.deep_view(),
                        ),
                        Ok(None) => false,
                        Err(error) => expected == Err::<ResultView, ErrorView>(error.deep_view())
                            || call_ensures(*poll, (), Err(error)),
                    }
                } else {
                    result == Ok::<Option<QueryResult>, QueryError>(None)
                }
            },
        },
{
    let found = match catalog.table(table) {
        Some(found) => found,
        None => {
            return Err(QueryError::TableNotFound(table.clone()));
        },
    };
    let at: usize = match find_numeric(found, column) {
        Some(at) => at,
        None => {
            return Ok(None);
        },
    };
    let star = "*".to_owned();
    if *column == star || !compiler.compiles(predicate, found) {
        return Ok(None);
    }
    let columns = found.schema.column_names();
    let ghost view = found.deep_view();
    let ghost names = view.schema.column_names();
    let ghost rows = table_rows(view);
    let ghost kept = scanned(scalars.values(), predicate.deep_view(), rows, names);
    proof {
        found_table_fits(catalog.deep_view(), table@);
    }
    let values = scan_column(scalars, found, &columns, at, predicate, poll)?;
    proof {
        table_matches(view);
        scanned_fit(scalars.values(), predicate.deep_view(), rows, names, rows.len() as int);
        assert(rows.take(rows.len() as int) =~= rows);
        let expr = ExprView::Field(column@);
        assert(values.deep_view() =~= evaluated(scalars.values(), expr, kept, names)) by {
            assert forall|i: int| 0 <= i < kept.len() implies (scalars.values())(
                expr,
                #[trigger] kept[i],
                names,
            ) == kept[i][at as int] by {
                assert(kept[i].len() == names.len());
                assert(name_position(names, column@) == Some(at as int));
            }
        }
    }
    if matches!(function, AggFunc::Sum) && matches!(
        found.schema.columns[at].type_id,
        TypeId::Float
    ) && count_present(&values) == 0 {
        assert(view.schema.columns[at as int] == found.schema.columns[at as int].deep_view());
        return Ok(Some(QueryResult::Scalar(Value::Float(0))));
    }
    assert(view.schema.columns[at as int] == found.schema.columns[at as int].deep_view());
    let mut budget = Budget { used: 0, limit: 0 };
    let sources: Option<Vec<Option<RowId>>> = None;
    let value = aggregate_values(scalars, function, &values, &sources, &mut budget, poll)?;
    Ok(Some(QueryResult::Scalar(value)))
}

proof fn bare_values(
    eval: EvalModel,
    table: TableView,
    fields: Seq<ProjectFieldView>,
    row: Seq<ValueView>,
    i: int,
)
    requires
        reads_columns(eval),
        row.len() == table.schema.columns.len(),
        all_bare(fields, i),
        0 <= i <= fields.len(),
    ensures
        bare_positions(table, fields, i) matches Ok(positions) ==> positions.len() == fields.len()
            - i && forall|k: int|
            0 <= k < positions.len() ==> row[#[trigger] positions[k]] == eval(
                fields[i + k].expr,
                row,
                table.schema.column_names(),
            ),
    decreases fields.len() - i,
{
    if i < fields.len() {
        bare_values(eval, table, fields, row, i + 1);
        let names = table.schema.column_names();
        let name = fields[i].expr->Field_0;
        assert(fields[i].expr == ExprView::Field(name));
        match bare_positions(table, fields, i) {
            Ok(positions) => {
                let rest = bare_positions(table, fields, i + 1)->Ok_0;
                let at = table.schema.column_index(name)->0;
                assert(positions == seq![at] + rest);
                assert(eval(ExprView::Field(name), row, names) == row[at]);
                assert forall|k: int| 0 <= k < positions.len() implies row[#[trigger] positions[k]]
                    == eval(fields[i + k].expr, row, names) by {
                    if k > 0 {
                        assert(positions[k] == rest[k - 1]);
                        assert(row[rest[k - 1]] == eval(fields[i + 1 + (k - 1)].expr, row, names));
                    }
                }
            },
            Err(_) => {},
        }
    }
}

proof fn bare_all(fields: Seq<ProjectFieldView>, i: int)
    requires
        all_bare(fields, i),
        0 <= i,
    ensures
        forall|k: int| i <= k < fields.len() ==> (#[trigger] fields[k]).expr is Field,
    decreases fields.len() - i,
{
    if i < fields.len() {
        bare_all(fields, i + 1);
    }
}

proof fn bare_is_projection(
    eval: EvalModel,
    table: TableView,
    fields: Seq<ProjectFieldView>,
    rows: Seq<Seq<ValueView>>,
)
    requires
        reads_columns(eval),
        rows_match(rows, table.schema.column_names()),
        all_bare(fields, 0),
        bare_positions(table, fields, 0) is Ok,
    ensures
        projected(rows, bare_positions(table, fields, 0)->Ok_0) == projection(
            eval,
            fields,
            rows,
            table.schema.column_names(),
        ),
        bare_names(fields) == output_names(fields),
{
    let names = table.schema.column_names();
    let positions = bare_positions(table, fields, 0)->Ok_0;
    assert forall|r: int| 0 <= r < rows.len() implies #[trigger] pick(rows[r], positions)
        == projected_row(eval, fields, rows[r], names) by {
        assert(rows[r].len() == names.len());
        bare_values(eval, table, fields, rows[r], 0);
        assert forall|k: int| 0 <= k < positions.len() implies rows[r][positions[k]] == eval(
            #[trigger] fields[k].expr,
            rows[r],
            names,
        ) by {
            assert(rows[r][positions[k]] == eval(fields[0 + k].expr, rows[r], names));
        }
        assert(pick(rows[r], positions) =~= projected_row(eval, fields, rows[r], names));
    }
    assert(projected(rows, positions) =~= projection(eval, fields, rows, names));
    bare_all(fields, 0);
    assert forall|k: int| 0 <= k < fields.len() implies #[trigger] bare_names(fields)[k]
        == output_names(fields)[k] by {
        assert(fields[k].expr is Field);
    }
    assert(bare_names(fields) =~= output_names(fields));
}

/// The projection of a full scan to bare columns, which stops as soon as it has
/// `limit` rows. None where a field computes something or names no column: any
/// other shape is left to the general way.
pub fn project_filter_limit_fast<
    E: Fn(&Expr, &Vec<Value>, &Vec<String>) -> Value,
    C: Fn(&Value, &Value) -> Order,
    F: Fn(FloatOp) -> u64,
    B: Fn(Option<&Expr>, &Table) -> bool,
    P: Fn() -> Result<(), QueryError>,
>(
    catalog: &Catalog,
    scalars: &Scalars<E, C, F>,
    compiler: &Compiler<B>,
    table: &String,
    fields: &Vec<ProjectField>,
    limit: usize,
    predicate: Option<&Expr>,
    poll: &P,
) -> (result: Result<Option<QueryResult>, QueryError>)
    requires
        scalars.ok(),
        compiler.ok(),
        call_requires(*poll, ()),
        catalog_fits(catalog.deep_view()),
    ensures
        match catalog.deep_view().table(table@) {
            None => result matches Err(error) && error.deep_view() == ErrorView::TableNotFound(table@),
            Some(found) => {
                let names = found.schema.column_names();
                let rows = scanned(
                    scalars.values(),
                    predicate.deep_view(),
                    table_rows(found),
                    names,
                );
                let general = project_answer(
                    scalars.values(),
                    fields.deep_view(),
                    (ResultView::Rows { columns: names, rows: slice(rows, 0, limit as int) }),
                );
                if (compiler.model@)(predicate.deep_view(), found) && all_bare(
                    fields.deep_view(),
                    0,
                ) && bare_positions(found, fields.deep_view(), 0) is Ok {
                    match result {
                        Ok(Some(answer)) => general == Ok::<ResultView, ErrorView>(
                            answer.deep_view(),
                        ),
                        Ok(None) => false,
                        Err(error) => call_ensures(*poll, (), Err(error)),
                    }
                } else {
                    result == Ok::<Option<QueryResult>, QueryError>(None)
                }
            },
        },
{
    let found = match catalog.table(table) {
        Some(found) => found,
        None => {
            return Err(QueryError::TableNotFound(table.clone()));
        },
    };
    if !fields_all_bare(fields) || !compiler.compiles(predicate, found) {
        return Ok(None);
    }
    let (positions, names) = match resolve_bare(found, fields) {
        Ok(resolved) => resolved,
        Err(_) => {
            return Ok(None);
        },
    };
    let columns = found.schema.column_names();
    let ghost view = found.deep_view();
    let ghost cols = view.schema.column_names();
    let ghost all = table_rows(view);
    let ghost eval = scalars.values();
    let ghost test = predicate.deep_view();
    let ghost at = ints(positions@);
    proof {
        found_table_fits(catalog.deep_view(), table@);
        table_matches(view);
        assert(all.take(0) =~= Seq::<Seq<ValueView>>::empty());
        assert(scanned(eval, test, all.take(0), cols) =~= Seq::<Seq<ValueView>>::empty());
    }
    let mut out: Vec<Vec<Value>> = Vec::new();
    let mut i: usize = 0;
    assert(out.deep_view() =~= projected(Seq::empty(), at));
    while i < found.rows.len() && out.len() < limit
        invariant
            scalars.ok(),
            (compiler.model@)(predicate.deep_view(), view),
            call_requires(*poll, ()),
            table_fits(view),
            i <= found.rows.len(),
            view == found.deep_view(),
            catalog.deep_view().table(table@) == Some(view),
            columns.deep_view() == cols,
            eval == scalars.values(),
            test == predicate.deep_view(),
            all == table_rows(view),
            all.len() == found.rows.len(),
            at == ints(positions@),
            all_bare(fields.deep_view(), 0),
            bare_positions(view, fields.deep_view(), 0) is Ok,
            forall|k: int|
                0 <= k < positions.len() ==> (#[trigger] positions[k]) < found.schema.columns.len(),
            out.deep_view() == projected(scanned(eval, test, all.take(i as int), cols), at),
            out.len() <= limit,
            out.len() == scanned(eval, test, all.take(i as int), cols).len(),
        decreases found.rows.len() - i,
    {
        match poll() {
            Ok(_) => {},
            Err(error) => {
                return Err(error);
            },
        }
        let row = &found.rows[i].values;
        proof {
            assert(view.rows[i as int] == found.rows[i as int].deep_view());
            assert(all[i as int] == row.deep_view());
            assert(row.deep_view().len() == row.len());
            scanned_next(eval, test, all, cols, i as int);
        }
        let ghost before = out.deep_view();
        let ghost kept = scanned(eval, test, all.take(i as int), cols);
        if row_kept(scalars, predicate, row, &columns) {
            assert(forall|k: int| 0 <= k < positions.len() ==> #[trigger] positions[k] < row.len());
            let cut = pick_values(row, &positions);
            let ghost shown = cut.deep_view();
            out.push(cut);
            assert(out.deep_view() =~= before.push(shown));
            assert(projected(kept.push(all[i as int]), at) =~= projected(kept, at).push(shown));
        }
        i = i + 1;
    }
    proof {
        let n = all.len() as int;
        let some = scanned(eval, test, all.take(i as int), cols);
        let full = scanned(eval, test, all, cols);
        assert(all.take(n) =~= all);
        scanned_begins(eval, test, all, cols, i as int, n);
        assert(some =~= slice(full, 0, limit as int)) by {
            if i == n {
                assert(some == full);
            } else {
                assert(some.len() == limit);
            }
        }
        scanned_fit(eval, test, all, cols, i as int);
        bare_is_projection(eval, view, fields.deep_view(), some);
    }
    Ok(Some(QueryResult::Rows { columns: names, rows: out }))
}

/// The count of a limit that is no negative number.
pub open spec fn bounded_count(count: ExprView) -> Option<int> {
    match count {
        ExprView::Literal(LiteralView::Int(n)) => if 0 <= n <= usize::MAX {
            Some(n as int)
        } else {
            None
        },
        _ => None,
    }
}

/// The count of a limit that is no negative number.
pub fn literal_limit(count: &Expr) -> (n: Option<usize>)
    ensures
        match n {
            Some(n) => bounded_count(count.deep_view()) == Some(n as int),
            None => bounded_count(count.deep_view()) is None,
        },
{
    match count {
        Expr::Literal(Literal::Int(n)) => {
            let n: i64 = *n;
            if n < 0 || n as u64 > usize::MAX as u64 {
                None
            } else {
                Some(n as usize)
            }
        },
        _ => None,
    }
}

/// How many of the values are there.
pub open spec fn present(values: Seq<ValueView>) -> int
    decreases values.len(),
{
    if values.len() == 0 {
        0
    } else {
        present(values.drop_last()) + if values.last() is Empty {
            0int
        } else {
            1
        }
    }
}

fn count_present(values: &Vec<Value>) -> (count: usize)
    ensures
        count == present(values.deep_view()),
{
    let ghost view = values.deep_view();
    let mut count: usize = 0;
    let mut i: usize = 0;
    while i < values.len()
        invariant
            i <= values.len(),
            count <= i,
            view == values.deep_view(),
            view.len() == values.len(),
            count == present(view.take(i as int)),
        decreases values.len() - i,
    {
        assert(view[i as int] == values[i as int].deep_view());
        assert(view.take(i + 1).drop_last() =~= view.take(i as int));
        assert(view.take(i + 1).last() == view[i as int]);
        if !values[i].is_empty() {
            count = count + 1;
        }
        i = i + 1;
    }
    assert(view.take(values.len() as int) =~= view);
    count
}

/// Each value as a key of its own.
pub open spec fn single_keys(values: Seq<ValueView>) -> Seq<Seq<ValueView>> {
    Seq::new(values.len(), |i: int| seq![values[i]])
}

/// What the first `limit` rows of a full scan answer, in the order of a column of
/// integers or floats and projected to bare columns. No more than that many rows
/// are held, so that only those with a value are counted as sorted. None where
/// the shape is another.
pub open spec fn leading_rows(
    model: ScalarModel,
    compiles: CompileModel,
    table: TableView,
    predicate: Option<ExprView>,
    fields: Seq<ProjectFieldView>,
    sort_field: Seq<char>,
    descending: bool,
    limit: int,
    budget: Budget,
) -> Result<Option<(ResultView, Budget)>, ErrorView> {
    if limit == 0 || !all_bare(fields, 0) || !compiles(predicate, table) {
        Ok(None)
    } else {
        match (numeric_column(table, sort_field), bare_positions(table, fields, 0)) {
            (Some(at), Ok(positions)) => {
                let rows = scanned(
                    model.eval,
                    predicate,
                    table_rows(table),
                    table.schema.column_names(),
                );
                let values = column_values(rows, at);
                let first = leading_positions(
                    model.order,
                    single_keys(values),
                    seq![Some(descending)],
                    limit,
                );
                let held = if limit < present(values) {
                    limit
                } else {
                    present(values)
                };
                match sort_charge(budget, held) {
                    Err(error) => Err(error),
                    Ok(left) => Ok(
                        Some(
                            (
                                ResultView::Rows {
                                    columns: bare_names(fields),
                                    rows: projected(pick(rows, ints(first)), positions),
                                },
                                left,
                            ),
                        ),
                    ),
                }
            },
            _ => Ok(None),
        }
    }
}

/// What the first rows of an ordered full scan answer, if the plan has that
/// shape.
pub open spec fn leading_answer(
    catalog: CatalogView,
    model: ScalarModel,
    compiles: CompileModel,
    input: PlanView,
    fields: Seq<ProjectFieldView>,
    budget: Budget,
) -> Result<Option<(ResultView, Budget)>, ErrorView> {
    match input {
        PlanView::Limit { input, count } => match *input {
            PlanView::Sort { input, keys } => match (plain_scan(*input), bounded_count(count)) {
                (Some((table, predicate)), Some(limit)) => if keys.len() == 1
                    && keys[0].expr is Field {
                    match catalog.table(table) {
                        None => Err(ErrorView::TableNotFound(table)),
                        Some(found) => leading_rows(
                            model,
                            compiles,
                            found,
                            predicate,
                            fields,
                            keys[0].expr->Field_0,
                            keys[0].descending,
                            limit,
                            budget,
                        ),
                    }
                } else {
                    Ok(None)
                },
                _ => Ok(None),
            },
            _ => Ok(None),
        },
        _ => Ok(None),
    }
}

fn keys_and_count(values: &Vec<Value>) -> (counted: (Vec<Vec<Value>>, usize))
    ensures
        counted.0.deep_view() == single_keys(values.deep_view()),
        counted.0.len() == values.len(),
        forall|i: int| 0 <= i < counted.0.len() ==> (#[trigger] counted.0[i]).len() == 1,
        counted.1 == present(values.deep_view()),
{
    let ghost all = values.deep_view();
    let mut keys: Vec<Vec<Value>> = Vec::new();
    let mut count: usize = 0;
    let mut i: usize = 0;
    assert(all.take(0) =~= Seq::<ValueView>::empty());
    while i < values.len()
        invariant
            i <= values.len(),
            all == values.deep_view(),
            keys.len() == i,
            count <= i,
            forall|j: int|
                0 <= j < i ==> (#[trigger] keys[j]).deep_view() == seq![all[j]] && keys[j].len() == 1,
            count == present(all.take(i as int)),
        decreases values.len() - i,
    {
        let mut key: Vec<Value> = Vec::new();
        key.push(values[i].clone());
        assert(key.deep_view() =~= seq![all[i as int]]);
        keys.push(key);
        proof {
            assert(all.take(i + 1).drop_last() =~= all.take(i as int));
            assert(all.take(i + 1).last() == values[i as int].deep_view());
        }
        if !values[i].is_empty() {
            count = count + 1;
        }
        i = i + 1;
    }
    assert(all.take(all.len() as int) =~= all);
    assert(keys.deep_view() =~= single_keys(all));
    (keys, count)
}

fn scan_kept<
    E: Fn(&Expr, &Vec<Value>, &Vec<String>) -> Value,
    C: Fn(&Value, &Value) -> Order,
    F: Fn(FloatOp) -> u64,
    P: Fn() -> Result<(), QueryError>,
>(
    scalars: &Scalars<E, C, F>,
    found: &Table,
    columns: &Vec<String>,
    predicate: Option<&Expr>,
    poll: &P,
) -> (kept: Result<Vec<Vec<Value>>, QueryError>)
    requires
        scalars.ok(),
        call_requires(*poll, ()),
    ensures
        match kept {
            Ok(rows) => rows.deep_view() == scanned(
                scalars.values(),
                predicate.deep_view(),
                table_rows(found.deep_view()),
                columns.deep_view(),
            ),
            Err(error) => call_ensures(*poll, (), Err(error)),
        },
{
    let ghost eval = scalars.values();
    let ghost view = predicate.deep_view();
    let ghost all = table_rows(found.deep_view());
    let ghost cols = columns.deep_view();
    let mut rows: Vec<Vec<Value>> = Vec::new();
    let mut i: usize = 0;
    proof {
        assert(all.take(0) =~= Seq::<Seq<ValueView>>::empty());
        assert(scanned(eval, view, all.take(0), cols) =~= Seq::<Seq<ValueView>>::empty());
        assert(rows.deep_view() =~= Seq::<Seq<ValueView>>::empty());
    }
    while i < found.rows.len()
        invariant
            scalars.ok(),
            call_requires(*poll, ()),
            i <= found.rows.len(),
            eval == scalars.values(),
            view == predicate.deep_view(),
            all == table_rows(found.deep_view()),
            all.len() == found.rows.len(),
            cols == columns.deep_view(),
            rows.deep_view() == scanned(eval, view, all.take(i as int), cols),
        decreases found.rows.len() - i,
    {
        match poll() {
            Ok(_) => {},
            Err(error) => {
                return Err(error);
            },
        }
        let row = &found.rows[i].values;
        proof {
            assert(found.deep_view().rows[i as int] == found.rows[i as int].deep_view());
            assert(all[i as int] == row.deep_view());
            scanned_next(eval, view, all, cols, i as int);
        }
        let ghost before = rows.deep_view();
        if row_kept(scalars, predicate, row, columns) {
            rows.push(clone_row(row));
            assert(rows.deep_view() =~= before.push(all[i as int]));
        }
        i = i + 1;
    }
    assert(all.take(all.len() as int) =~= all);
    Ok(rows)
}

/// What a shorter way gives: an answer with the budget it leaves, or none.
pub open spec fn led<P: Fn() -> Result<(), QueryError>>(
    result: Result<Option<QueryResult>, QueryError>,
    left: Budget,
    before: Budget,
    expected: Result<Option<(ResultView, Budget)>, ErrorView>,
    poll: P,
) -> bool {
    match result {
        Ok(Some(answer)) => expected == Ok::<Option<(ResultView, Budget)>, ErrorView>(
            Some((answer.deep_view(), left)),
        ),
        Ok(None) => expected == Ok::<Option<(ResultView, Budget)>, ErrorView>(None) && left
            == before,
        Err(error) => expected == Err::<Option<(ResultView, Budget)>, ErrorView>(error.deep_view())
            || call_ensures(poll, (), Err(error)),
    }
}

/// The first `limit` rows of a full scan in the order of a column of integers or
/// floats, projected to bare columns.
#[verifier::spinoff_prover]
#[verifier::rlimit(50)]
pub fn project_filter_sort_limit_fast<
    E: Fn(&Expr, &Vec<Value>, &Vec<String>) -> Value,
    C: Fn(&Value, &Value) -> Order,
    F: Fn(FloatOp) -> u64,
    B: Fn(Option<&Expr>, &Table) -> bool,
    P: Fn() -> Result<(), QueryError>,
>(
    scalars: &Scalars<E, C, F>,
    compiler: &Compiler<B>,
    found: &Table,
    fields: &Vec<ProjectField>,
    sort_field: &String,
    descending: bool,
    limit: usize,
    predicate: Option<&Expr>,
    budget: &mut Budget,
    poll: &P,
) -> (result: Result<Option<QueryResult>, QueryError>)
    requires
        scalars.ok(),
        compiler.ok(),
        call_requires(*poll, ()),
        table_fits(found.deep_view()),
    ensures
        led(
            result,
            *final(budget),
            *old(budget),
            leading_rows(
                scalars.model@,
                compiler.model@,
                found.deep_view(),
                predicate.deep_view(),
                fields.deep_view(),
                sort_field@,
                descending,
                limit as int,
                *old(budget),
            ),
            *poll,
        ),
        result matches Ok(Some(answer)) ==> answer is Rows && answer->columns.len() == fields.len()
            && rows_match(answer->rows.deep_view(), answer->columns.deep_view()),
{
    if limit == 0 || !compiler.compiles(predicate, found) {
        return Ok(None);
    }
    let at: usize = match find_numeric(found, sort_field) {
        Some(at) => at,
        None => {
            return Ok(None);
        },
    };
    if !fields_all_bare(fields) {
        return Ok(None);
    }
    let (positions, names) = match resolve_bare(found, fields) {
        Ok(resolved) => resolved,
        Err(_) => {
            return Ok(None);
        },
    };
    let columns = found.schema.column_names();
    let ghost view = found.deep_view();
    let ghost cols = view.schema.column_names();
    let ghost all = table_rows(view);
    proof {
        table_matches(view);
        scanned_fit(scalars.values(), predicate.deep_view(), all, cols, all.len() as int);
        assert(all.take(all.len() as int) =~= all);
    }
    let rows = scan_kept(scalars, found, &columns, predicate, poll)?;
    let values = scan_column(scalars, found, &columns, at, predicate, poll)?;
    let (keys, count) = keys_and_count(&values);
    let held: usize = if limit < count {
        limit
    } else {
        count
    };
    let mut directions: Vec<Option<bool>> = Vec::new();
    directions.push(Some(descending));
    assert(directions@ =~= seq![Some(descending)]);
    let first = lead_by_keys(scalars, &keys, &directions, limit);
    proof {
        assert(values.deep_view().len() == values.len());
        assert(rows.deep_view().len() == rows.len());
        assert(keys.len() == rows.len());
    }
    if held >= 2 {
        budget.charge(saturating_scratch(held))?;
    }
    let picked = rows_at(&rows, &first);
    proof {
        let shown = picked.deep_view();
        let kept = rows.deep_view();
        assert forall|r: int| 0 <= r < picked.len() implies (#[trigger] picked[r]).len()
            == found.schema.columns.len() by {
            assert(first[r] < rows.len());
            assert(shown[r] == picked[r].deep_view());
            assert(shown[r] == kept[first[r] as int]);
            assert(kept[first[r] as int].len() == cols.len());
        }
    }
    let cut = project_positions(&picked, &positions);
    proof {
        let shown = cut.deep_view();
        bare_width(view, fields.deep_view(), 0);
        assert(names.deep_view().len() == names.len());
        assert(fields.deep_view().len() == fields.len());
        assert forall|r: int| 0 <= r < shown.len() implies (#[trigger] shown[r]).len()
            == names.deep_view().len() by {}
    }
    Ok(Some(QueryResult::Rows { columns: names, rows: cut }))
}

proof fn bare_width(table: TableView, fields: Seq<ProjectFieldView>, i: int)
    requires
        0 <= i <= fields.len(),
    ensures
        bare_positions(table, fields, i) matches Ok(positions) ==> positions.len() == fields.len()
            - i,
    decreases fields.len() - i,
{
    if i < fields.len() {
        bare_width(table, fields, i + 1);
    }
}

/// Reading an aggregate off one column answers what aggregating the rows
/// answers, wherever a value contributes.
pub proof fn column_aggregate_agrees(
    model: ScalarModel,
    table: TableView,
    column: Seq<char>,
    function: AggFunc,
    predicate: Option<ExprView>,
)
    requires
        numeric_column(table, column) is Some,
        present(
            column_values(
                scanned(model.eval, predicate, table_rows(table), table.schema.column_names()),
                numeric_column(table, column)->0,
            ),
        ) > 0,
    ensures
        column_aggregate(model, table, column, function, predicate) == aggregate_rows_of(
            model,
            function,
            Some(ExprView::Field(column)),
            table.schema.column_names(),
            scanned(model.eval, predicate, table_rows(table), table.schema.column_names()),
        ),
{
}

} // verus!
