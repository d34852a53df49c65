//! Index scans: which rows an index leads to.

use vstd::prelude::*;

use crate::aggregate::RowId;
use crate::catalog::{
    clone_rids, has_rid, Catalog, CatalogView, ExpressionIndexMeta, ExpressionIndexMetaView,
    IndexEntry, IndexEntryView, StoredRowView, Table, TableView,
};
use crate::coerce::prefixed;
use crate::error::{no_column_error, outcome, ErrorView, QueryError, QueryResult, ResultView};
use crate::expr::{clone_expr, BinOp, Expr, ExprView, Literal, LiteralView};
use crate::group::{filter_rows, filtered, ints, pick, pick_values};
use crate::lower::{
    binary, in_range, literal_of, literal_to_value, path_expr, range_matches, range_predicate,
    stored_json_path_expr, synthesize_range_predicate,
};
use crate::mentions::{
    contains_subquery, holds_subquery, predicate_column_indices_json, read_positions,
};
use crate::plan::{
    PlanNode, PlanView, ProjectField, ProjectFieldView, StoredJsonPath, StoredJsonPathView,
};
use crate::scalars::{is_true, EvalModel, FloatOp, Order, OrderModel, Scalars};
use crate::seqs::{first_where_found, first_where_is, is_name};
use crate::session::{answered, stopped};
use crate::value::{clone_row, Value, ValueView};

verus! {

/// The rows that the entries from `i` on of an index on a column lead to under a
/// key. Keys are kept behind a tag of their type: an integer is not the float or
/// the point in time of the same number.
pub open spec fn lookup_from(entries: Seq<IndexEntryView>, key: ValueView, i: int) -> Seq<RowId>
    decreases entries.len() - i,
{
    if i < 0 || i >= entries.len() {
        Seq::empty()
    } else if entries[i].key == key {
        seq![entries[i].rid] + lookup_from(entries, key, i + 1)
    } else {
        lookup_from(entries, key, i + 1)
    }
}

/// The rows that the entries from `i` on of an index on a JSON path lead to under
/// a key, which is compared by the order of values.
pub open spec fn path_lookup_from(
    order: OrderModel,
    entries: Seq<IndexEntryView>,
    key: ValueView,
    i: int,
) -> Seq<RowId>
    decreases entries.len() - i,
{
    if i < 0 || i >= entries.len() {
        Seq::empty()
    } else if order(entries[i].key, key) == Order::Equal {
        seq![entries[i].rid] + path_lookup_from(order, entries, key, i + 1)
    } else {
        path_lookup_from(order, entries, key, i + 1)
    }
}

/// The rows that the entries from `i` on lead to between two keys, the keys
/// included.
pub open spec fn between_from(
    order: OrderModel,
    entries: Seq<IndexEntryView>,
    start: Option<ValueView>,
    end: Option<ValueView>,
    i: int,
) -> Seq<RowId>
    decreases entries.len() - i,
{
    if i < 0 || i >= entries.len() {
        Seq::empty()
    } else if in_range(order, entries[i].key, start, true, end, true) {
        seq![entries[i].rid] + between_from(order, entries, start, end, i + 1)
    } else {
        between_from(order, entries, start, end, i + 1)
    }
}

/// A key that an open end of the range leaves out.
pub open spec fn left_out(key: ValueView, bound: Option<ValueView>, inclusive: bool) -> bool {
    !inclusive && bound == Some(key)
}

/// The rows that the entries from `i` on of a unique index lead to within a
/// range.
pub open spec fn unique_from(
    order: OrderModel,
    entries: Seq<IndexEntryView>,
    start: Option<ValueView>,
    start_inclusive: bool,
    end: Option<ValueView>,
    end_inclusive: bool,
    i: int,
) -> Seq<RowId>
    decreases entries.len() - i,
{
    if i < 0 || i >= entries.len() {
        Seq::empty()
    } else if in_range(order, entries[i].key, start, true, end, true) && !left_out(
        entries[i].key,
        start,
        start_inclusive,
    ) && !left_out(entries[i].key, end, end_inclusive) {
        seq![entries[i].rid] + unique_from(
            order,
            entries,
            start,
            start_inclusive,
            end,
            end_inclusive,
            i + 1,
        )
    } else {
        unique_from(order, entries, start, start_inclusive, end, end_inclusive, i + 1)
    }
}

/// Those of the rows from `i` on that exist and meet a condition.
pub open spec fn meeting_from(
    table: TableView,
    rids: Seq<RowId>,
    condition: spec_fn(Seq<ValueView>) -> bool,
    i: int,
) -> Seq<RowId>
    decreases rids.len() - i,
{
    if i < 0 || i >= rids.len() {
        Seq::empty()
    } else {
        match table.get(rids[i]) {
            Some(row) => if condition(row) {
                seq![rids[i]] + meeting_from(table, rids, condition, i + 1)
            } else {
                meeting_from(table, rids, condition, i + 1)
            },
            None => meeting_from(table, rids, condition, i + 1),
        }
    }
}

/// A row holds a value within the range in this column.
pub open spec fn column_within(
    order: OrderModel,
    column: int,
    start: Option<ValueView>,
    start_inclusive: bool,
    end: Option<ValueView>,
    end_inclusive: bool,
) -> spec_fn(Seq<ValueView>) -> bool {
    |row: Seq<ValueView>|
        !(row[column] is Empty) && in_range(
            order,
            row[column],
            start,
            start_inclusive,
            end,
            end_inclusive,
        )
}

/// An expression has a value within the range on a row.
pub open spec fn expr_within(
    eval: EvalModel,
    order: OrderModel,
    expr: ExprView,
    columns: Seq<Seq<char>>,
    start: Option<ValueView>,
    start_inclusive: bool,
    end: Option<ValueView>,
    end_inclusive: bool,
) -> spec_fn(Seq<ValueView>) -> bool {
    |row: Seq<ValueView>|
        !(eval(expr, row, columns) is Empty) && in_range(
            order,
            eval(expr, row, columns),
            start,
            start_inclusive,
            end,
            end_inclusive,
        )
}

/// The rows of these ids that exist, from the `i`th on.
pub open spec fn fetched_from(table: TableView, rids: Seq<RowId>, i: int) -> Seq<Seq<ValueView>>
    decreases rids.len() - i,
{
    if i < 0 || i >= rids.len() {
        Seq::empty()
    } else {
        match table.get(rids[i]) {
            Some(row) => seq![row] + fetched_from(table, rids, i + 1),
            None => fetched_from(table, rids, i + 1),
        }
    }
}

/// Every row of a table has a value for each of its columns.
pub open spec fn table_fits(table: TableView) -> bool {
    forall|i: int|
        0 <= i < table.rows.len() ==> (#[trigger] table.rows[i]).values.len()
            == table.schema.columns.len()
}

/// The ids of the rows of a table.
pub open spec fn row_ids(table: TableView) -> Seq<RowId> {
    Seq::new(table.rows.len(), |i: int| table.rows[i].rid)
}

/// The ids that the entries of an index lead to.
pub open spec fn entry_ids(entries: Seq<IndexEntryView>) -> Seq<RowId> {
    Seq::new(entries.len(), |i: int| entries[i].rid)
}

/// Each of these ids is that of a row of the table, and none is listed twice.
pub open spec fn name_rows(table: TableView, rids: Seq<RowId>) -> bool {
    &&& rids.no_duplicates()
    &&& forall|k: int| 0 <= k < rids.len() ==> table.get(#[trigger] rids[k]) is Some
}

/// No two rows of a table have the same id, and each of its indexes leads to a
/// row at most once and to none that is not there.
pub open spec fn ids_hold(table: TableView) -> bool {
    &&& row_ids(table).no_duplicates()
    &&& forall|i: int|
        0 <= i < table.indexes.len() ==> name_rows(
            table,
            entry_ids((#[trigger] table.indexes[i]).entries),
        )
    &&& forall|i: int|
        0 <= i < table.expression_indexes.len() ==> path_index_holds(
            table,
            #[trigger] table.expression_indexes[i],
        )
}

/// An index on a JSON path leads to a row at most once and to none that is not
/// there.
pub open spec fn path_index_holds(table: TableView, index: ExpressionIndexMetaView) -> bool {
    name_rows(table, entry_ids(index.entries)) && name_rows(table, index.empty_rids)
}

/// The ids of the rows from `i` on that hold a key in a column.
pub open spec fn holding_ids(rows: Seq<StoredRowView>, column: int, key: ValueView, i: int) -> Seq<
    RowId,
>
    decreases rows.len() - i,
{
    if i < 0 || i >= rows.len() {
        Seq::empty()
    } else if rows[i].values[column] == key {
        seq![rows[i].rid] + holding_ids(rows, column, key, i + 1)
    } else {
        holding_ids(rows, column, key, i + 1)
    }
}

/// An index leads, under each key, to the rows that hold it, in storage order.
pub open spec fn index_agrees(table: TableView, column: Seq<char>) -> bool {
    table.index_on(column) matches Some(k) ==> table.schema.column_index(column) matches Some(at)
        ==> forall|key: ValueView|
        !(key is Empty) ==> #[trigger] lookup_from(table.indexes[k].entries, key, 0) == holding_ids(
            table.rows,
            at,
            key,
            0,
        )
}

/// The ids of every table hold, and its indexes lead to the rows that hold their
/// keys.
pub open spec fn indexes_agree(catalog: CatalogView) -> bool {
    &&& forall|t: int| 0 <= t < catalog.tables.len() ==> ids_hold(#[trigger] catalog.tables[t])
    &&& forall|t: int, column: Seq<char>|
        0 <= t < catalog.tables.len() ==> #[trigger] index_agrees(catalog.tables[t], column)
}

/// The ids of a table that is found hold, and its indexes lead to the rows that
/// hold their keys.
pub proof fn found_table_agrees(catalog: CatalogView, name: Seq<char>, column: Seq<char>)
    requires
        indexes_agree(catalog),
    ensures
        catalog.table(name) matches Some(table) ==> ids_hold(table) && index_agrees(table, column),
{
    first_where_found(catalog.table_names(), is_name(name));
}

/// The row of a row's id is that row.
pub proof fn own_id_is_found(table: TableView, i: int)
    requires
        row_ids(table).no_duplicates(),
        0 <= i < table.rows.len(),
    ensures
        table.get(table.rows[i].rid) == Some(table.rows[i].values),
{
    let ids = row_ids(table);
    let rid = table.rows[i].rid;
    assert forall|j: int| 0 <= j < i implies !has_rid(rid)(#[trigger] table.rows[j]) by {
        assert(ids[j] == table.rows[j].rid && ids[i] == rid);
    }
    first_where_is(table.rows, has_rid(rid), i);
}

/// Every row of every table has a value for each of its columns.
pub open spec fn catalog_fits(catalog: CatalogView) -> bool {
    forall|t: int| 0 <= t < catalog.tables.len() ==> table_fits(#[trigger] catalog.tables[t])
}

/// A table of a fitting catalog fits.
pub proof fn found_table_fits(catalog: CatalogView, name: Seq<char>)
    requires
        catalog_fits(catalog),
    ensures
        catalog.table(name) matches Some(table) ==> table_fits(table),
{
    first_where_found(catalog.table_names(), is_name(name));
}

/// A row of a fitting table fits.
pub proof fn found_row_fits(table: TableView, rid: RowId)
    requires
        table_fits(table),
    ensures
        table.get(rid) matches Some(row) ==> row.len() == table.schema.columns.len(),
{
    first_where_found(table.rows, has_rid(rid));
}

/// The rows that an index on a column leads to under a key.
pub fn lookup_rids(entries: &Vec<IndexEntry>, key: &Value) -> (rids: Vec<RowId>)
    ensures
        rids@ == lookup_from(entries.deep_view(), key.deep_view(), 0),
{
    let ghost (views, k) = (entries.deep_view(), key.deep_view());
    let ghost all = lookup_from(views, k, 0);
    let mut rids: Vec<RowId> = Vec::new();
    let mut i: usize = 0;
    assert(rids@ + all =~= all);
    while i < entries.len()
        invariant
            i <= entries.len(),
            views == entries.deep_view(),
            k == key.deep_view(),
            rids@ + lookup_from(views, k, i as int) == all,
        decreases entries.len() - i,
    {
        let ghost before = rids@;
        assert(views[i as int] == entries[i as int].deep_view());
        if entries[i].key.same(key) {
            rids.push(entries[i].rid);
            assert(rids@ + lookup_from(views, k, i + 1) =~= before + lookup_from(
                views,
                k,
                i as int,
            ));
        }
        i = i + 1;
    }
    assert(rids@ =~= all);
    rids
}

fn path_lookup_rids<
    E: Fn(&Expr, &Vec<Value>, &Vec<String>) -> Value,
    C: Fn(&Value, &Value) -> Order,
    F: Fn(FloatOp) -> u64,
>(scalars: &Scalars<E, C, F>, entries: &Vec<IndexEntry>, key: &Value) -> (rids: Vec<RowId>)
    requires
        scalars.ok(),
    ensures
        rids@ == path_lookup_from(scalars.ordering(), entries.deep_view(), key.deep_view(), 0),
{
    let ghost (order, views, k) = (scalars.ordering(), entries.deep_view(), key.deep_view());
    let ghost all = path_lookup_from(order, views, k, 0);
    let mut rids: Vec<RowId> = Vec::new();
    let mut i: usize = 0;
    assert(rids@ + all =~= all);
    while i < entries.len()
        invariant
            i <= entries.len(),
            scalars.ok(),
            order == scalars.ordering(),
            views == entries.deep_view(),
            k == key.deep_view(),
            rids@ + path_lookup_from(order, views, k, i as int) == all,
        decreases entries.len() - i,
    {
        let ghost before = rids@;
        assert(views[i as int] == entries[i as int].deep_view());
        if scalars.order_values(&entries[i].key, key) == Order::Equal {
            rids.push(entries[i].rid);
            assert(rids@ + path_lookup_from(order, views, k, i + 1) =~= before + path_lookup_from(
                order,
                views,
                k,
                i as int,
            ));
        }
        i = i + 1;
    }
    assert(rids@ =~= all);
    rids
}

fn between_rids<
    E: Fn(&Expr, &Vec<Value>, &Vec<String>) -> Value,
    C: Fn(&Value, &Value) -> Order,
    F: Fn(FloatOp) -> u64,
>(
    scalars: &Scalars<E, C, F>,
    entries: &Vec<IndexEntry>,
    start: &Option<Value>,
    end: &Option<Value>,
) -> (rids: Vec<RowId>)
    requires
        scalars.ok(),
    ensures
        rids@ == between_from(
            scalars.ordering(),
            entries.deep_view(),
            start.deep_view(),
            end.deep_view(),
            0,
        ),
{
    let ghost (order, views, s, e) = (
        scalars.ordering(),
        entries.deep_view(),
        start.deep_view(),
        end.deep_view(),
    );
    let ghost all = between_from(order, views, s, e, 0);
    let mut rids: Vec<RowId> = Vec::new();
    let mut i: usize = 0;
    assert(rids@ + all =~= all);
    while i < entries.len()
        invariant
            i <= entries.len(),
            scalars.ok(),
            order == scalars.ordering(),
            views == entries.deep_view(),
            s == start.deep_view(),
            e == end.deep_view(),
            rids@ + between_from(order, views, s, e, i as int) == all,
        decreases entries.len() - i,
    {
        let ghost before = rids@;
        assert(views[i as int] == entries[i as int].deep_view());
        if range_matches(scalars, &entries[i].key, start, true, end, true) {
            rids.push(entries[i].rid);
            assert(rids@ + between_from(order, views, s, e, i + 1) =~= before + between_from(
                order,
                views,
                s,
                e,
                i as int,
            ));
        }
        i = i + 1;
    }
    assert(rids@ =~= all);
    rids
}

fn is_left_out(key: &Value, bound: &Option<Value>, inclusive: bool) -> (out: bool)
    ensures
        out == left_out(key.deep_view(), bound.deep_view(), inclusive),
{
    if inclusive {
        return false;
    }
    match bound {
        Some(value) => value.same(key),
        None => false,
    }
}

fn unique_rids<
    E: Fn(&Expr, &Vec<Value>, &Vec<String>) -> Value,
    C: Fn(&Value, &Value) -> Order,
    F: Fn(FloatOp) -> u64,
    P: Fn() -> Result<(), QueryError>,
>(
    scalars: &Scalars<E, C, F>,
    entries: &Vec<IndexEntry>,
    start: &Option<Value>,
    start_inclusive: bool,
    end: &Option<Value>,
    end_inclusive: bool,
    poll: &P,
) -> (rids: Result<Vec<RowId>, QueryError>)
    requires
        call_requires(*poll, ()),
        scalars.ok(),
    ensures
        match rids {
            Ok(rids) => rids@ == unique_from(
                scalars.ordering(),
                entries.deep_view(),
                start.deep_view(),
                start_inclusive,
                end.deep_view(),
                end_inclusive,
                0,
            ),
            Err(error) => call_ensures(*poll, (), Err(error)),
        },
{
    let ghost (order, views, s, e) = (
        scalars.ordering(),
        entries.deep_view(),
        start.deep_view(),
        end.deep_view(),
    );
    let ghost all = unique_from(order, views, s, start_inclusive, e, end_inclusive, 0);
    let mut rids: Vec<RowId> = Vec::new();
    let mut i: usize = 0;
    assert(rids@ + all =~= all);
    while i < entries.len()
        invariant
            call_requires(*poll, ()),
            i <= entries.len(),
            scalars.ok(),
            order == scalars.ordering(),
            views == entries.deep_view(),
            s == start.deep_view(),
            e == end.deep_view(),
            rids@ + unique_from(order, views, s, start_inclusive, e, end_inclusive, i as int)
                == all,
        decreases entries.len() - i,
    {
        poll()?;
        let ghost before = rids@;
        assert(views[i as int] == entries[i as int].deep_view());
        if range_matches(scalars, &entries[i].key, start, true, end, true) && !is_left_out(
            &entries[i].key,
            start,
            start_inclusive,
        ) && !is_left_out(&entries[i].key, end, end_inclusive) {
            rids.push(entries[i].rid);
            assert(rids@ + unique_from(
                order,
                views,
                s,
                start_inclusive,
                e,
                end_inclusive,
                i + 1,
            ) =~= before + unique_from(
                order,
                views,
                s,
                start_inclusive,
                e,
                end_inclusive,
                i as int,
            ));
        }
        i = i + 1;
    }
    assert(rids@ =~= all);
    Ok(rids)
}

fn within_rids<
    E: Fn(&Expr, &Vec<Value>, &Vec<String>) -> Value,
    C: Fn(&Value, &Value) -> Order,
    F: Fn(FloatOp) -> u64,
    P: Fn() -> Result<(), QueryError>,
>(
    scalars: &Scalars<E, C, F>,
    table: &Table,
    rids: &Vec<RowId>,
    column: usize,
    start: &Option<Value>,
    start_inclusive: bool,
    end: &Option<Value>,
    end_inclusive: bool,
    poll: &P,
) -> (kept: Result<Vec<RowId>, QueryError>)
    requires
        call_requires(*poll, ()),
        scalars.ok(),
        table_fits(table.deep_view()),
        column < table.schema.columns.len(),
    ensures
        match kept {
            Ok(kept) => kept@ == meeting_from(
                table.deep_view(),
                rids@,
                column_within(
                    scalars.ordering(),
                    column as int,
                    start.deep_view(),
                    start_inclusive,
                    end.deep_view(),
                    end_inclusive,
                ),
                0,
            ),
            Err(error) => call_ensures(*poll, (), Err(error)),
        },
{
    let ghost view = table.deep_view();
    let ghost f = column_within(
        scalars.ordering(),
        column as int,
        start.deep_view(),
        start_inclusive,
        end.deep_view(),
        end_inclusive,
    );
    let ghost all = meeting_from(view, rids@, f, 0);
    let mut kept: Vec<RowId> = Vec::new();
    let mut i: usize = 0;
    assert(kept@ + all =~= all);
    while i < rids.len()
        invariant
            call_requires(*poll, ()),
            i <= rids.len(),
            scalars.ok(),
            view == table.deep_view(),
            table_fits(view),
            column < view.schema.columns.len(),
            f == column_within(
                scalars.ordering(),
                column as int,
                start.deep_view(),
                start_inclusive,
                end.deep_view(),
                end_inclusive,
            ),
            kept@ + meeting_from(view, rids@, f, i as int) == all,
        decreases rids.len() - i,
    {
        poll()?;
        let ghost before = kept@;
        proof {
            found_row_fits(view, rids[i as int]);
        }
        match table.get(rids[i]) {
            Some(row) => {
                assert(row.deep_view().len() == row.len());
                if !row[column].is_empty() && range_matches(
                    scalars,
                    &row[column],
                    start,
                    start_inclusive,
                    end,
                    end_inclusive,
                ) {
                    kept.push(rids[i]);
                    assert(f(row.deep_view()));
                    assert(kept@ + meeting_from(view, rids@, f, i + 1) =~= before + meeting_from(
                        view,
                        rids@,
                        f,
                        i as int,
                    ));
                } else {
                    assert(!f(row.deep_view()));
                }
            },
            None => {},
        }
        i = i + 1;
    }
    assert(kept@ =~= all);
    Ok(kept)
}

fn path_within_rids<
    E: Fn(&Expr, &Vec<Value>, &Vec<String>) -> Value,
    C: Fn(&Value, &Value) -> Order,
    F: Fn(FloatOp) -> u64,
    P: Fn() -> Result<(), QueryError>,
>(
    scalars: &Scalars<E, C, F>,
    table: &Table,
    columns: &Vec<String>,
    rids: &Vec<RowId>,
    expr: &Expr,
    start: &Option<Value>,
    start_inclusive: bool,
    end: &Option<Value>,
    end_inclusive: bool,
    poll: &P,
) -> (kept: Result<Vec<RowId>, QueryError>)
    requires
        call_requires(*poll, ()),
        scalars.ok(),
    ensures
        match kept {
            Ok(kept) => kept@ == meeting_from(
                table.deep_view(),
                rids@,
                expr_within(
                    scalars.values(),
                    scalars.ordering(),
                    expr.deep_view(),
                    columns.deep_view(),
                    start.deep_view(),
                    start_inclusive,
                    end.deep_view(),
                    end_inclusive,
                ),
                0,
            ),
            Err(error) => call_ensures(*poll, (), Err(error)),
        },
{
    let ghost view = table.deep_view();
    let ghost f = expr_within(
        scalars.values(),
        scalars.ordering(),
        expr.deep_view(),
        columns.deep_view(),
        start.deep_view(),
        start_inclusive,
        end.deep_view(),
        end_inclusive,
    );
    let ghost all = meeting_from(view, rids@, f, 0);
    let mut kept: Vec<RowId> = Vec::new();
    let mut i: usize = 0;
    assert(kept@ + all =~= all);
    while i < rids.len()
        invariant
            call_requires(*poll, ()),
            i <= rids.len(),
            scalars.ok(),
            view == table.deep_view(),
            f == expr_within(
                scalars.values(),
                scalars.ordering(),
                expr.deep_view(),
                columns.deep_view(),
                start.deep_view(),
                start_inclusive,
                end.deep_view(),
                end_inclusive,
            ),
            kept@ + meeting_from(view, rids@, f, i as int) == all,
        decreases rids.len() - i,
    {
        poll()?;
        let ghost before = kept@;
        match table.get(rids[i]) {
            Some(row) => {
                let value = scalars.eval_expr(expr, row, columns);
                if !value.is_empty() && range_matches(
                    scalars,
                    &value,
                    start,
                    start_inclusive,
                    end,
                    end_inclusive,
                ) {
                    kept.push(rids[i]);
                    assert(f(row.deep_view()));
                    assert(kept@ + meeting_from(view, rids@, f, i + 1) =~= before + meeting_from(
                        view,
                        rids@,
                        f,
                        i as int,
                    ));
                } else {
                    assert(!f(row.deep_view()));
                }
            },
            None => {},
        }
        i = i + 1;
    }
    assert(kept@ =~= all);
    Ok(kept)
}

/// The rows of these ids that exist.
pub fn fetch_rows<P: Fn() -> Result<(), QueryError>>(
    table: &Table,
    rids: &Vec<RowId>,
    poll: &P,
) -> (rows: Result<Vec<Vec<Value>>, QueryError>)
    requires
        call_requires(*poll, ()),
    ensures
        match rows {
            Ok(rows) => rows.deep_view() == fetched_from(table.deep_view(), rids@, 0),
            Err(error) => call_ensures(*poll, (), Err(error)),
        },
{
    let ghost view = table.deep_view();
    let ghost all = fetched_from(view, rids@, 0);
    let mut rows: Vec<Vec<Value>> = Vec::new();
    let mut i: usize = 0;
    assert(rows.deep_view() + all =~= all);
    while i < rids.len()
        invariant
            call_requires(*poll, ()),
            i <= rids.len(),
            view == table.deep_view(),
            rows.deep_view() + fetched_from(view, rids@, i as int) == all,
        decreases rids.len() - i,
    {
        poll()?;
        let ghost before = rows.deep_view();
        match table.get(rids[i]) {
            Some(row) => {
                rows.push(clone_row(row));
                assert(rows.deep_view() =~= before.push(row.deep_view()));
                assert(rows.deep_view() + fetched_from(view, rids@, i + 1) =~= before
                    + fetched_from(view, rids@, i as int));
            },
            None => {},
        }
        i = i + 1;
    }
    assert(rows.deep_view() =~= all);
    Ok(rows)
}

/// The value of a bound, if there is one.
pub open spec fn bound_value(bound: Option<(ExprView, bool)>) -> Result<Option<ValueView>, ErrorView> {
    match bound {
        None => Ok(None),
        Some((key, _)) => match literal_of(key) {
            Ok(value) => Ok(Some(value)),
            Err(e) => Err(e),
        },
    }
}

/// Whether the range includes its bound; no bound counts as included.
pub open spec fn bound_inclusive(bound: Option<(ExprView, bool)>) -> bool {
    match bound {
        None => true,
        Some((_, inclusive)) => inclusive,
    }
}

fn value_of_bound(bound: &Option<(Expr, bool)>) -> (value: Result<Option<Value>, QueryError>)
    ensures
        outcome(value) == bound_value(bound.deep_view()),
{
    match bound {
        None => Ok(None),
        Some((key, _)) => {
            let value = literal_to_value(key)?;
            Ok(Some(value))
        },
    }
}

fn bound_is_inclusive(bound: &Option<(Expr, bool)>) -> (inclusive: bool)
    ensures
        inclusive == bound_inclusive(bound.deep_view()),
{
    match bound {
        None => true,
        Some((_, inclusive)) => *inclusive,
    }
}

/// The rows that an index scan leads to; none where there is no such index, or
/// where the scan has no bound on a unique index.
pub open spec fn scan_rids(
    catalog: CatalogView,
    eval: EvalModel,
    order: OrderModel,
    scan: PlanView,
) -> Result<Option<Seq<RowId>>, ErrorView> {
    match scan {
        PlanView::IndexScan { table, column, key } => match catalog.index(table, column) {
            None => Ok(None),
            Some(index) => match literal_of(key) {
                Err(e) => Err(e),
                Ok(key) => Ok(Some(lookup_from(index.entries, key, 0))),
            },
        },
        PlanView::ExprIndexScan { table, path, key } => match catalog.expression_index(table, path) {
            None => Ok(None),
            Some(index) => match literal_of(key) {
                Err(e) => Err(e),
                Ok(key) => Ok(
                    Some(
                        if key is Empty {
                            index.empty_rids
                        } else {
                            path_lookup_from(order, index.entries, key, 0)
                        },
                    ),
                ),
            },
        },
        PlanView::RangeScan { table, column, start, end } => match catalog.table(table) {
            None => Ok(None),
            Some(found) => match (bound_value(start), bound_value(end)) {
                (Err(e), _) => Err(e),
                (_, Err(e)) => Err(e),
                (Ok(s), Ok(e)) => match catalog.index(table, column) {
                    None => Ok(None),
                    Some(index) => if index.unique {
                        if s is None && e is None {
                            Ok(None)
                        } else {
                            Ok(
                                Some(
                                    unique_from(
                                        order,
                                        index.entries,
                                        s,
                                        bound_inclusive(start),
                                        e,
                                        bound_inclusive(end),
                                        0,
                                    ),
                                ),
                            )
                        }
                    } else {
                        match found.schema.column_index(column) {
                            None => Err(no_column_error(column)),
                            Some(at) => Ok(
                                Some(
                                    meeting_from(
                                        found,
                                        between_from(order, index.entries, s, e, 0),
                                        column_within(
                                            order,
                                            at,
                                            s,
                                            bound_inclusive(start),
                                            e,
                                            bound_inclusive(end),
                                        ),
                                        0,
                                    ),
                                ),
                            ),
                        }
                    },
                },
            },
        },
        PlanView::ExprRangeScan { table, path, start, end } => match catalog.expression_index(
            table,
            path,
        ) {
            None => Ok(None),
            Some(index) => match (bound_value(start), bound_value(end)) {
                (Err(e), _) => Err(e),
                (_, Err(e)) => Err(e),
                (Ok(s), Ok(e)) => match catalog.table(table) {
                    None => Err(ErrorView::TableNotFound(table)),
                    Some(found) => Ok(
                        Some(
                            meeting_from(
                                found,
                                between_from(order, index.entries, s, e, 0),
                                expr_within(
                                    eval,
                                    order,
                                    path_expr(path),
                                    found.schema.column_names(),
                                    s,
                                    bound_inclusive(start),
                                    e,
                                    bound_inclusive(end),
                                ),
                                0,
                            ),
                        ),
                    ),
                },
            },
        },
        _ => Ok(None),
    }
}

/// What a result of [`index_scan_rids`] stands for.
pub open spec fn rids_outcome(result: Result<Option<Vec<RowId>>, QueryError>) -> Result<
    Option<Seq<RowId>>,
    ErrorView,
> {
    match result {
        Ok(Some(rids)) => Ok(Some(rids@)),
        Ok(None) => Ok(None),
        Err(e) => Err(e.deep_view()),
    }
}

/// The rows that an index scan leads to.
pub fn index_scan_rids<
    E: Fn(&Expr, &Vec<Value>, &Vec<String>) -> Value,
    C: Fn(&Value, &Value) -> Order,
    F: Fn(FloatOp) -> u64,
    P: Fn() -> Result<(), QueryError>,
>(
    catalog: &Catalog,
    scalars: &Scalars<E, C, F>,
    scan: &PlanNode,
    poll: &P,
) -> (rids: Result<Option<Vec<RowId>>, QueryError>)
    requires
        scalars.ok(),
        call_requires(*poll, ()),
        catalog_fits(catalog.deep_view()),
    ensures
        rids_outcome(rids) == scan_rids(
            catalog.deep_view(),
            scalars.values(),
            scalars.ordering(),
            scan.deep_view(),
        ) || stopped(rids, *poll),
{
    match scan {
        PlanNode::IndexScan { table, column, key } => {
            let index = match catalog.index(table, column) {
                Some(index) => index,
                None => {
                    return Ok(None);
                },
            };
            let key = literal_to_value(key)?;
            Ok(Some(lookup_rids(&index.entries, &key)))
        },
        PlanNode::ExprIndexScan { table, path, key } => {
            let index = match catalog.resolve_expression_index(table, path) {
                Some(index) => index,
                None => {
                    return Ok(None);
                },
            };
            let key = literal_to_value(key)?;
            if key.is_empty() {
                Ok(Some(clone_rids(&index.empty_rids)))
            } else {
                Ok(Some(path_lookup_rids(scalars, &index.entries, &key)))
            }
        },
        PlanNode::RangeScan { table, column, start, end } => {
            proof {
                found_table_fits(catalog.deep_view(), table@);
            }
            let found = match catalog.table(table) {
                Some(found) => found,
                None => {
                    return Ok(None);
                },
            };
            let from = value_of_bound(start)?;
            let to = value_of_bound(end)?;
            let index = match catalog.index(table, column) {
                Some(index) => index,
                None => {
                    return Ok(None);
                },
            };
            if index.unique {
                if from.is_none() && to.is_none() {
                    return Ok(None);
                }
                let rids = unique_rids(
                    scalars,
                    &index.entries,
                    &from,
                    bound_is_inclusive(start),
                    &to,
                    bound_is_inclusive(end),
                    poll,
                )?;
                return Ok(Some(rids));
            }
            let at: usize = match found.schema.column_index(column) {
                Some(at) => at,
                None => {
                    return Err(QueryError::no_column(column));
                },
            };
            let candidates = between_rids(scalars, &index.entries, &from, &to);
            let rids = within_rids(
                scalars,
                found,
                &candidates,
                at,
                &from,
                bound_is_inclusive(start),
                &to,
                bound_is_inclusive(end),
                poll,
            )?;
            Ok(Some(rids))
        },
        PlanNode::ExprRangeScan { table, path, start, end } => {
            let index = match catalog.resolve_expression_index(table, path) {
                Some(index) => index,
                None => {
                    return Ok(None);
                },
            };
            let from = value_of_bound(start)?;
            let to = value_of_bound(end)?;
            let found = match catalog.table(table) {
                Some(found) => found,
                None => {
                    return Err(QueryError::TableNotFound(table.clone()));
                },
            };
            let candidates = between_rids(scalars, &index.entries, &from, &to);
            let columns = found.schema.column_names();
            let expr = stored_json_path_expr(path);
            let rids = path_within_rids(
                scalars,
                found,
                &columns,
                &candidates,
                &expr,
                &from,
                bound_is_inclusive(start),
                &to,
                bound_is_inclusive(end),
                poll,
            )?;
            Ok(Some(rids))
        },
        _ => Ok(None),
    }
}

/// Every row of a table, in storage order.
pub open spec fn table_rows(table: TableView) -> Seq<Seq<ValueView>> {
    Seq::new(table.rows.len(), |i: int| table.rows[i].values)
}

/// Every row of a table, in storage order.
pub fn scan_rows<P: Fn() -> Result<(), QueryError>>(
    table: &Table,
    poll: &P,
) -> (rows: Result<Vec<Vec<Value>>, QueryError>)
    requires
        call_requires(*poll, ()),
    ensures
        match rows {
            Ok(rows) => {
                &&& rows.deep_view() == table_rows(table.deep_view())
                &&& rows.len() == table.rows.len()
            },
            Err(error) => call_ensures(*poll, (), Err(error)),
        },
{
    let mut rows: Vec<Vec<Value>> = Vec::new();
    let mut i: usize = 0;
    while i < table.rows.len()
        invariant
            call_requires(*poll, ()),
            i <= table.rows.len(),
            rows.len() == i,
            forall|j: int|
                0 <= j < i ==> (#[trigger] rows[j]).deep_view() == table.rows[j].values.deep_view(),
        decreases table.rows.len() - i,
    {
        poll()?;
        rows.push(clone_row(&table.rows[i].values));
        i = i + 1;
    }
    assert(rows.deep_view() =~= table_rows(table.deep_view()));
    Ok(rows)
}

/// The rows of a table under the names of its columns.
pub open spec fn table_answer(table: TableView, rows: Seq<Seq<ValueView>>) -> ResultView {
    ResultView::Rows { columns: table.schema.column_names(), rows }
}

/// What an equality lookup answers: the rows that the index leads to, or,
/// without an index, those on which the column equals the key.
pub open spec fn index_scan_answer(
    catalog: CatalogView,
    eval: EvalModel,
    table: Seq<char>,
    column: Seq<char>,
    key: ExprView,
) -> Result<ResultView, ErrorView> {
    match literal_of(key) {
        Err(e) => Err(e),
        Ok(value) => match catalog.table(table) {
            None => Err(ErrorView::TableNotFound(table)),
            Some(found) => match catalog.index(table, column) {
                Some(index) => Ok(
                    table_answer(
                        found,
                        fetched_from(found, lookup_from(index.entries, value, 0), 0),
                    ),
                ),
                None => if found.schema.column_index(column) is None {
                    Err(no_column_error(column))
                } else {
                    Ok(
                        table_answer(
                            found,
                            filtered(
                                eval,
                                binary(ExprView::Field(column), BinOp::Eq, key),
                                table_rows(found),
                                found.schema.column_names(),
                            ),
                        ),
                    )
                },
            },
        },
    }
}

/// Answer an equality lookup.
pub fn execute_index_scan<
    E: Fn(&Expr, &Vec<Value>, &Vec<String>) -> Value,
    C: Fn(&Value, &Value) -> Order,
    F: Fn(FloatOp) -> u64,
    P: Fn() -> Result<(), QueryError>,
>(
    catalog: &Catalog,
    scalars: &Scalars<E, C, F>,
    table: &String,
    column: &String,
    key: &Expr,
    poll: &P,
) -> (result: Result<QueryResult, QueryError>)
    requires
        scalars.ok(),
        call_requires(*poll, ()),
    ensures
        answered(
            result,
            index_scan_answer(
                catalog.deep_view(),
                scalars.values(),
                table@,
                column@,
                key.deep_view(),
            ),
            *poll,
        ),
{
    let value = literal_to_value(key)?;
    let found = match catalog.table(table) {
        Some(found) => found,
        None => {
            return Err(QueryError::TableNotFound(table.clone()));
        },
    };
    let columns = found.schema.column_names();
    match catalog.index(table, column) {
        Some(index) => {
            let rids = lookup_rids(&index.entries, &value);
            let rows = fetch_rows(found, &rids, poll)?;
            return Ok(QueryResult::Rows { columns, rows });
        },
        None => {},
    }
    if found.schema.column_index(column).is_none() {
        return Err(QueryError::no_column(column));
    }
    let subject = Expr::Field(column.clone());
    assert(subject.deep_view() == ExprView::Field(column@));
    let predicate = Expr::BinaryOp(
        Box::new(subject),
        BinOp::Eq,
        Box::new(clone_expr(key)),
    );
    let all = scan_rows(found, poll)?;
    let rows = filter_rows(scalars, &predicate, all, &columns, poll)?;
    Ok(QueryResult::Rows { columns, rows })
}

/// What a range lookup answers: the rows that the index leads to, or, without
/// an index or a bound, those on which the column lies within the range.
pub open spec fn range_scan_answer(
    catalog: CatalogView,
    eval: EvalModel,
    order: OrderModel,
    table: Seq<char>,
    column: Seq<char>,
    start: Option<(ExprView, bool)>,
    end: Option<(ExprView, bool)>,
) -> Result<ResultView, ErrorView> {
    match catalog.table(table) {
        None => Err(ErrorView::TableNotFound(table)),
        Some(found) => match (bound_value(start), bound_value(end)) {
            (Err(e), _) => Err(e),
            (_, Err(e)) => Err(e),
            (Ok(s), Ok(e)) => if s is None && e is None && catalog.is_index_unique(table, column)
                == Some(true) {
                Ok(table_answer(found, table_rows(found)))
            } else if (s is Some || e is Some) && catalog.index(table, column) is Some {
                match scan_rids(
                    catalog,
                    eval,
                    order,
                    PlanView::RangeScan { table, column, start, end },
                ) {
                    Err(e) => Err(e),
                    Ok(Some(rids)) => Ok(table_answer(found, fetched_from(found, rids, 0))),
                    Ok(None) => Ok(table_answer(found, Seq::empty())),
                }
            } else if found.schema.column_index(column) is None {
                Err(no_column_error(column))
            } else {
                Ok(
                    table_answer(
                        found,
                        filtered(
                            eval,
                            range_predicate(ExprView::Field(column), start, end),
                            table_rows(found),
                            found.schema.column_names(),
                        ),
                    ),
                )
            },
        },
    }
}

/// Answer a range lookup.
pub fn execute_range_scan<
    E: Fn(&Expr, &Vec<Value>, &Vec<String>) -> Value,
    C: Fn(&Value, &Value) -> Order,
    F: Fn(FloatOp) -> u64,
    P: Fn() -> Result<(), QueryError>,
>(
    catalog: &Catalog,
    scalars: &Scalars<E, C, F>,
    scan: &PlanNode,
    table: &String,
    column: &String,
    start: &Option<(Expr, bool)>,
    end: &Option<(Expr, bool)>,
    poll: &P,
) -> (result: Result<QueryResult, QueryError>)
    requires
        scalars.ok(),
        call_requires(*poll, ()),
        catalog_fits(catalog.deep_view()),
        scan.deep_view() == (PlanView::RangeScan {
            table: table@,
            column: column@,
            start: start.deep_view(),
            end: end.deep_view(),
        }),
    ensures
        answered(
            result,
            range_scan_answer(
                catalog.deep_view(),
                scalars.values(),
                scalars.ordering(),
                table@,
                column@,
                start.deep_view(),
                end.deep_view(),
            ),
            *poll,
        ),
{
    let found = match catalog.table(table) {
        Some(found) => found,
        None => {
            return Err(QueryError::TableNotFound(table.clone()));
        },
    };
    let columns = found.schema.column_names();
    let from = value_of_bound(start)?;
    let to = value_of_bound(end)?;
    let bounded: bool = from.is_some() || to.is_some();
    match catalog.is_index_unique(table, column) {
        Some(unique) => {
            if bounded {
                let rids = index_scan_rids(catalog, scalars, scan, poll)?;
                match rids {
                    Some(rids) => {
                        let rows = fetch_rows(found, &rids, poll)?;
                        return Ok(QueryResult::Rows { columns, rows });
                    },
                    None => {
                        let rows: Vec<Vec<Value>> = Vec::new();
                        assert(rows.deep_view() =~= Seq::<Seq<ValueView>>::empty());
                        return Ok(QueryResult::Rows { columns, rows });
                    },
                }
            }
            if unique {
                return Ok(QueryResult::Rows { columns, rows: scan_rows(found, poll)? });
            }
        },
        None => {},
    }
    if found.schema.column_index(column).is_none() {
        return Err(QueryError::no_column(column));
    }
    let predicate = synthesize_range_predicate(column, start, end);
    let all = scan_rows(found, poll)?;
    let rows = filter_rows(scalars, &predicate, all, &columns, poll)?;
    Ok(QueryResult::Rows { columns, rows })
}

/// At most `limit` elements, after the first `offset`.
pub open spec fn slice<A>(s: Seq<A>, offset: int, limit: int) -> Seq<A> {
    let from = if offset < s.len() {
        offset
    } else {
        s.len() as int
    };
    let to = if from + limit < s.len() {
        from + limit
    } else {
        s.len() as int
    };
    s.subrange(from, to)
}

fn slice_rids(rids: &Vec<RowId>, offset: usize, limit: usize) -> (sliced: Vec<RowId>)
    ensures
        sliced@ == slice(rids@, offset as int, limit as int),
{
    let from: usize = if offset < rids.len() {
        offset
    } else {
        rids.len()
    };
    let to: usize = if limit < rids.len() - from {
        from + limit
    } else {
        rids.len()
    };
    let mut sliced: Vec<RowId> = Vec::new();
    let mut i: usize = from;
    while i < to
        invariant
            from <= i <= to <= rids.len(),
            sliced@ == rids@.subrange(from as int, i as int),
        decreases to - i,
    {
        sliced.push(rids[i]);
        assert(sliced@ =~= rids@.subrange(from as int, i + 1));
        i = i + 1;
    }
    sliced
}

/// Every field is a bare column.
pub open spec fn all_bare(fields: Seq<ProjectFieldView>, i: int) -> bool
    decreases fields.len() - i,
{
    i < 0 || i >= fields.len() || (fields[i].expr is Field && all_bare(fields, i + 1))
}

/// The positions of bare columns from field `i` on; an error for the first that
/// the table lacks.
pub open spec fn bare_positions(table: TableView, fields: Seq<ProjectFieldView>, i: int) -> Result<
    Seq<int>,
    ErrorView,
>
    decreases fields.len() - i,
{
    if i < 0 || i >= fields.len() {
        Ok(Seq::empty())
    } else {
        let name = fields[i].expr->Field_0;
        match table.schema.column_index(name) {
            None => Err(
                ErrorView::ColumnNotFound { table: table.schema.table_name, column: name },
            ),
            Some(at) => prefixed(seq![at], bare_positions(table, fields, i + 1)),
        }
    }
}

/// The names under which bare columns come out.
pub open spec fn bare_names(fields: Seq<ProjectFieldView>) -> Seq<Seq<char>> {
    Seq::new(
        fields.len(),
        |i: int|
            match fields[i].alias {
                Some(alias) => alias,
                None => fields[i].expr->Field_0,
            },
    )
}

/// Whether every field is a bare column.
pub fn fields_all_bare(fields: &Vec<ProjectField>) -> (bare: bool)
    ensures
        bare == all_bare(fields.deep_view(), 0),
        bare ==> forall|i: int| 0 <= i < fields.len() ==> (#[trigger] fields[i]).expr is Field,
{
    let ghost views = fields.deep_view();
    let mut i: usize = 0;
    while i < fields.len()
        invariant
            i <= fields.len(),
            views == fields.deep_view(),
            all_bare(views, 0) == all_bare(views, i as int),
            forall|j: int| 0 <= j < i ==> (#[trigger] fields[j]).expr is Field,
        decreases fields.len() - i,
    {
        assert(views[i as int] == fields[i as int].deep_view());
        if !matches!(&fields[i].expr, Expr::Field(_)) {
            return false;
        }
        i = i + 1;
    }
    true
}

/// Find bare columns, with the names under which they come out.
pub fn resolve_bare(table: &Table, fields: &Vec<ProjectField>) -> (resolved: Result<
    (Vec<usize>, Vec<String>),
    QueryError,
>)
    requires
        forall|i: int| 0 <= i < fields.len() ==> (#[trigger] fields[i]).expr is Field,
    ensures
        match resolved {
            Ok((positions, names)) => bare_positions(table.deep_view(), fields.deep_view(), 0)
                == Ok::<Seq<int>, ErrorView>(ints(positions@)) && names.deep_view() == bare_names(
                fields.deep_view(),
            ) && forall|i: int|
                0 <= i < positions.len() ==> (#[trigger] positions[i])
                    < table.schema.columns.len(),
            Err(e) => bare_positions(table.deep_view(), fields.deep_view(), 0) == Err::<
                Seq<int>,
                ErrorView,
            >(e.deep_view()),
        },
{
    let ghost (view, views) = (table.deep_view(), fields.deep_view());
    let ghost all = bare_positions(view, views, 0);
    let mut positions: Vec<usize> = Vec::new();
    let mut names: Vec<String> = Vec::new();
    let mut i: usize = 0;
    assert(prefixed(ints(positions@), all) == all) by {
        assert(all matches Ok(rest) ==> ints(positions@) + rest =~= rest);
    }
    while i < fields.len()
        invariant
            i <= fields.len(),
            view == table.deep_view(),
            views == fields.deep_view(),
            forall|j: int| 0 <= j < fields.len() ==> (#[trigger] fields[j]).expr is Field,
            all == prefixed(ints(positions@), bare_positions(view, views, i as int)),
            all == bare_positions(view, views, 0),
            names.len() == i,
            forall|j: int| 0 <= j < i ==> (#[trigger] names[j])@ == bare_names(views)[j],
            forall|j: int|
                0 <= j < positions.len() ==> (#[trigger] positions[j])
                    < table.schema.columns.len(),
        decreases fields.len() - i,
    {
        let ghost before = ints(positions@);
        assert(views[i as int] == fields[i as int].deep_view());
        assert(fields[i as int].expr is Field);
        match &fields[i].expr {
            Expr::Field(name) => {
                let at: usize = match table.schema.column_index(name) {
                    Some(at) => at,
                    None => {
                        return Err(
                            QueryError::ColumnNotFound {
                                table: table.schema.table_name.clone(),
                                column: name.clone(),
                            },
                        );
                    },
                };
                positions.push(at);
                assert(ints(positions@) =~= before.push(at as int));
                assert(bare_positions(view, views, i + 1) matches Ok(rest) ==> before + (seq![
                    at as int,
                ] + rest) =~= before.push(at as int) + rest);
                let shown = match &fields[i].alias {
                    Some(alias) => alias.clone(),
                    None => name.clone(),
                };
                names.push(shown);
            },
            _ => {
                assert(false);
            },
        }
        i = i + 1;
    }
    assert(ints(positions@) + Seq::<int>::empty() =~= ints(positions@));
    assert(names.deep_view() =~= bare_names(views));
    Ok((positions, names))
}

/// The rows that a scan of an index on a JSON path leads to, and the range that
/// they are still to be tested for.
pub struct PathScan {
    pub rids: Seq<RowId>,
    pub range: Option<(Option<ValueView>, bool, Option<ValueView>, bool)>,
}

/// The error for a limit that is no count.
pub open spec fn path_limit_error() -> ErrorView {
    ErrorView::Execution("expression-index limit must be a non-negative integer"@)
}

/// The error for an offset that is no count.
pub open spec fn path_offset_error() -> ErrorView {
    ErrorView::Execution("expression-index offset must be a non-negative integer"@)
}

/// The rows that a scan of an index on a JSON path leads to.
pub open spec fn path_scan_of(
    order: OrderModel,
    index: ExpressionIndexMetaView,
    plan: PlanView,
) -> Result<PathScan, ErrorView> {
    match plan {
        PlanView::ExprIndexScan { key, .. } => match literal_of(key) {
            Err(e) => Err(e),
            Ok(key) => Ok(
                PathScan {
                    rids: if key is Empty {
                        index.empty_rids
                    } else {
                        path_lookup_from(order, index.entries, key, 0)
                    },
                    range: None,
                },
            ),
        },
        PlanView::ExprRangeScan { start, end, .. } => match (bound_value(start), bound_value(end)) {
            (Err(e), _) => Err(e),
            (_, Err(e)) => Err(e),
            (Ok(s), Ok(e)) => Ok(
                PathScan {
                    rids: between_from(order, index.entries, s, e, 0),
                    range: Some((s, bound_inclusive(start), e, bound_inclusive(end))),
                },
            ),
        },
        PlanView::OrderedExprIndexScan { descending, limit, offset, .. } => match limit {
            ExprView::Literal(LiteralView::Int(limit)) => {
                let skip = match offset {
                    None => Some(0int),
                    Some(ExprView::Literal(LiteralView::Int(n))) => if n >= 0 {
                        Some(n as int)
                    } else {
                        None
                    },
                    Some(_) => None,
                };
                match skip {
                    None => Err(path_offset_error()),
                    Some(skip) => if limit < 0 {
                        Err(path_limit_error())
                    } else {
                        Ok(
                            PathScan {
                                rids: slice(
                                    if descending {
                                        index.descending
                                    } else {
                                        index.ascending
                                    },
                                    skip,
                                    limit as int,
                                ),
                                range: None,
                            },
                        )
                    },
                }
            },
            _ => Err(path_limit_error()),
        },
        _ => Ok(PathScan { rids: Seq::empty(), range: None }),
    }
}

/// The test that a scan still makes of each row, the path read off the whole
/// row or off its own column alone.
pub open spec fn path_test(
    eval: EvalModel,
    order: OrderModel,
    table: TableView,
    path: StoredJsonPathView,
    root: Option<int>,
    range: Option<(Option<ValueView>, bool, Option<ValueView>, bool)>,
) -> spec_fn(Seq<ValueView>) -> bool {
    |row: Seq<ValueView>|
        match range {
            None => true,
            Some((s, si, e, ei)) => {
                let value = match root {
                    None => eval(path_expr(path), row, table.schema.column_names()),
                    Some(root) => eval(path_expr(path), seq![row[root]], seq![path.column]),
                };
                !(value is Empty) && in_range(order, value, s, si, e, ei)
            },
        }
}

/// The rows at these positions of their columns.
pub open spec fn projected(rows: Seq<Seq<ValueView>>, positions: Seq<int>) -> Seq<Seq<ValueView>> {
    Seq::new(rows.len(), |i: int| pick(rows[i], positions))
}

/// The table and the path of a scan of an index on a JSON path.
pub open spec fn path_of(plan: PlanView) -> Option<(Seq<char>, StoredJsonPathView)> {
    match plan {
        PlanView::ExprIndexScan { table, path, .. } => Some((table, path)),
        PlanView::ExprRangeScan { table, path, .. } => Some((table, path)),
        PlanView::OrderedExprIndexScan { table, path, .. } => Some((table, path)),
        _ => None,
    }
}

/// What a scan of an index on a JSON path answers, with a projection of bare
/// columns or without one; none where there is no such index, or where the
/// projection computes something.
pub open spec fn path_plan_answer(
    catalog: CatalogView,
    eval: EvalModel,
    order: OrderModel,
    plan: PlanView,
    fields: Option<Seq<ProjectFieldView>>,
) -> Result<Option<ResultView>, ErrorView> {
    match path_of(plan) {
        None => Ok(None),
        Some((table, path)) => match (
            catalog.expression_index(table, path),
            catalog.table(table),
        ) {
            (Some(index), Some(found)) => match fields {
                Some(fields) => if !all_bare(fields, 0) {
                    Ok(None)
                } else {
                    match bare_positions(found, fields, 0) {
                        Err(e) => Err(e),
                        Ok(positions) => match path_scan_of(order, index, plan) {
                            Err(e) => Err(e),
                            Ok(scan) => match found.schema.column_index(path.column) {
                                None => Err(
                                    ErrorView::ColumnNotFound { table, column: path.column },
                                ),
                                Some(root) => Ok(
                                    Some(
                                        ResultView::Rows {
                                            columns: bare_names(fields),
                                            rows: projected(
                                                fetched_from(
                                                    found,
                                                    meeting_from(
                                                        found,
                                                        scan.rids,
                                                        path_test(
                                                            eval,
                                                            order,
                                                            found,
                                                            path,
                                                            Some(root),
                                                            scan.range,
                                                        ),
                                                        0,
                                                    ),
                                                    0,
                                                ),
                                                positions,
                                            ),
                                        },
                                    ),
                                ),
                            },
                        },
                    }
                },
                None => match path_scan_of(order, index, plan) {
                    Err(e) => Err(e),
                    Ok(scan) => match found.schema.column_index(path.column) {
                        None => Err(ErrorView::ColumnNotFound { table, column: path.column }),
                        Some(root) => Ok(
                            Some(
                                table_answer(
                                    found,
                                    fetched_from(
                                        found,
                                        meeting_from(
                                            found,
                                            scan.rids,
                                            path_test(
                                                eval,
                                                order,
                                                found,
                                                path,
                                                None,
                                                scan.range,
                                            ),
                                            0,
                                        ),
                                        0,
                                    ),
                                ),
                            ),
                        ),
                    },
                },
            },
            _ => Ok(None),
        },
    }
}

/// The range that the rows of a scan are still to be tested for.
struct OpenRange {
    start: Option<Value>,
    start_inclusive: bool,
    end: Option<Value>,
    end_inclusive: bool,
}

spec fn range_view(range: Option<OpenRange>) -> Option<
    (Option<ValueView>, bool, Option<ValueView>, bool),
> {
    match range {
        Some(r) => Some(
            (r.start.deep_view(), r.start_inclusive, r.end.deep_view(), r.end_inclusive),
        ),
        None => None,
    }
}

fn scan_path_index<
    E: Fn(&Expr, &Vec<Value>, &Vec<String>) -> Value,
    C: Fn(&Value, &Value) -> Order,
    F: Fn(FloatOp) -> u64,
>(
    scalars: &Scalars<E, C, F>,
    index: &ExpressionIndexMeta,
    plan: &PlanNode,
) -> (scanned: Result<(Vec<RowId>, Option<OpenRange>), QueryError>)
    requires
        scalars.ok(),
    ensures
        match scanned {
            Ok((rids, range)) => path_scan_of(
                scalars.ordering(),
                index.deep_view(),
                plan.deep_view(),
            ) == Ok::<PathScan, ErrorView>(
                PathScan { rids: rids@, range: range_view(range) },
            ),
            Err(e) => path_scan_of(scalars.ordering(), index.deep_view(), plan.deep_view()) == Err::<
                PathScan,
                ErrorView,
            >(e.deep_view()),
        },
{
    match plan {
        PlanNode::ExprIndexScan { key, .. } => {
            let key = literal_to_value(key)?;
            if key.is_empty() {
                Ok((clone_rids(&index.empty_rids), None))
            } else {
                Ok((path_lookup_rids(scalars, &index.entries, &key), None))
            }
        },
        PlanNode::ExprRangeScan { start, end, .. } => {
            let from = value_of_bound(start)?;
            let to = value_of_bound(end)?;
            let rids = between_rids(scalars, &index.entries, &from, &to);
            Ok(
                (
                    rids,
                    Some(
                        OpenRange {
                            start: from,
                            start_inclusive: bound_is_inclusive(start),
                            end: to,
                            end_inclusive: bound_is_inclusive(end),
                        },
                    ),
                ),
            )
        },
        PlanNode::OrderedExprIndexScan { descending, limit, offset, .. } => {
            let count: i64 = match limit {
                Expr::Literal(Literal::Int(count)) => *count,
                _ => {
                    return Err(
                        QueryError::execution(
                            "expression-index limit must be a non-negative integer",
                        ),
                    );
                },
            };
            let skip: i64 = match offset {
                None => 0,
                Some(Expr::Literal(Literal::Int(n))) => *n,
                Some(_) => -1,
            };
            if skip < 0 {
                return Err(
                    QueryError::execution("expression-index offset must be a non-negative integer"),
                );
            }
            if count < 0 {
                return Err(
                    QueryError::execution("expression-index limit must be a non-negative integer"),
                );
            }
            let listed = if *descending {
                &index.descending
            } else {
                &index.ascending
            };
            let held: usize = listed.len();
            let sliced = slice_rids(listed, clamp(skip as u64), clamp(count as u64));
            assert(held == listed@.len());
            assert(sliced@ =~= slice(listed@, skip as int, count as int));
            Ok((sliced, None))
        },
        _ => {
            let rids: Vec<RowId> = Vec::new();
            assert(rids@ =~= Seq::<RowId>::empty());
            Ok((rids, None))
        },
    }
}

/// A count, held to what a list can have.
pub fn clamp(n: u64) -> (count: usize)
    ensures
        count == (if n > usize::MAX {
            usize::MAX as int
        } else {
            n as int
        }),
{
    if n > usize::MAX as u64 {
        usize::MAX
    } else {
        n as usize
    }
}

fn meeting_rids<
    E: Fn(&Expr, &Vec<Value>, &Vec<String>) -> Value,
    C: Fn(&Value, &Value) -> Order,
    F: Fn(FloatOp) -> u64,
    P: Fn() -> Result<(), QueryError>,
>(
    scalars: &Scalars<E, C, F>,
    table: &Table,
    path: &StoredJsonPath,
    root: Option<usize>,
    rids: &Vec<RowId>,
    range: &Option<OpenRange>,
    poll: &P,
) -> (kept: Result<Vec<RowId>, QueryError>)
    requires
        call_requires(*poll, ()),
        scalars.ok(),
        table_fits(table.deep_view()),
        root matches Some(at) ==> at < table.schema.columns.len(),
    ensures
        match kept {
            Ok(kept) => kept@ == meeting_from(
                table.deep_view(),
                rids@,
                path_test(
                    scalars.values(),
                    scalars.ordering(),
                    table.deep_view(),
                    path.deep_view(),
                    match root {
                        Some(at) => Some(at as int),
                        None => None,
                    },
                    range_view(*range),
                ),
                0,
            ),
            Err(error) => call_ensures(*poll, (), Err(error)),
        },
{
    let ghost view = table.deep_view();
    let ghost at_root = match root {
        Some(at) => Some(at as int),
        None => None,
    };
    let ghost f = path_test(
        scalars.values(),
        scalars.ordering(),
        view,
        path.deep_view(),
        at_root,
        range_view(*range),
    );
    let columns = table.schema.column_names();
    let expr = stored_json_path_expr(path);
    let mut own: Vec<String> = Vec::new();
    own.push(path.column.clone());
    assert(own.deep_view() =~= seq![path.column@]);
    let ghost all = meeting_from(view, rids@, f, 0);
    let mut kept: Vec<RowId> = Vec::new();
    let mut i: usize = 0;
    assert(kept@ + all =~= all);
    while i < rids.len()
        invariant
            call_requires(*poll, ()),
            i <= rids.len(),
            scalars.ok(),
            view == table.deep_view(),
            table_fits(view),
            root matches Some(at) ==> at < view.schema.columns.len(),
            at_root == (match root {
                Some(at) => Some(at as int),
                None => None,
            }),
            f == path_test(
                scalars.values(),
                scalars.ordering(),
                view,
                path.deep_view(),
                at_root,
                range_view(*range),
            ),
            columns.deep_view() == view.schema.column_names(),
            expr.deep_view() == path_expr(path.deep_view()),
            own.deep_view() == seq![path.column@],
            kept@ + meeting_from(view, rids@, f, i as int) == all,
        decreases rids.len() - i,
    {
        poll()?;
        let ghost before = kept@;
        proof {
            found_row_fits(view, rids[i as int]);
        }
        match table.get(rids[i]) {
            Some(row) => {
                assert(row.deep_view().len() == row.len());
                let keep: bool = match range {
                    None => true,
                    Some(r) => {
                        let value = match root {
                            None => scalars.eval_expr(&expr, row, &columns),
                            Some(at) => {
                                let mut alone: Vec<Value> = Vec::new();
                                alone.push(row[at].clone());
                                assert(alone.deep_view() =~= seq![row.deep_view()[at as int]]);
                                scalars.eval_expr(&expr, &alone, &own)
                            },
                        };
                        !value.is_empty() && range_matches(
                            scalars,
                            &value,
                            &r.start,
                            r.start_inclusive,
                            &r.end,
                            r.end_inclusive,
                        )
                    },
                };
                assert(keep == f(row.deep_view()));
                if keep {
                    kept.push(rids[i]);
                    assert(kept@ + meeting_from(view, rids@, f, i + 1) =~= before + meeting_from(
                        view,
                        rids@,
                        f,
                        i as int,
                    ));
                }
            },
            None => {},
        }
        i = i + 1;
    }
    assert(kept@ =~= all);
    Ok(kept)
}

/// Each row, reduced to the columns at these positions.
pub fn project_positions(rows: &Vec<Vec<Value>>, positions: &Vec<usize>) -> (cut: Vec<Vec<Value>>)
    requires
        forall|r: int, k: int|
            0 <= r < rows.len() && 0 <= k < positions.len() ==> #[trigger] positions[k]
                < (#[trigger] rows[r]).len(),
    ensures
        cut.deep_view() == projected(rows.deep_view(), ints(positions@)),
{
    let mut cut: Vec<Vec<Value>> = Vec::new();
    let mut i: usize = 0;
    while i < rows.len()
        invariant
            i <= rows.len(),
            forall|r: int, k: int|
                0 <= r < rows.len() && 0 <= k < positions.len() ==> #[trigger] positions[k]
                    < (#[trigger] rows[r]).len(),
            cut.len() == i,
            forall|j: int|
                0 <= j < i ==> (#[trigger] cut[j]).deep_view() == pick(
                    rows[j].deep_view(),
                    ints(positions@),
                ),
        decreases rows.len() - i,
    {
        assert(forall|k: int| 0 <= k < positions.len() ==> #[trigger] positions[k] < rows[i as int].len());
        cut.push(pick_values(&rows[i], positions));
        i = i + 1;
    }
    assert(cut.deep_view() =~= projected(rows.deep_view(), ints(positions@)));
    cut
}

proof fn fetched_rows_fit(table: TableView, rids: Seq<RowId>, i: int)
    requires
        table_fits(table),
        0 <= i,
    ensures
        forall|k: int|
            0 <= k < fetched_from(table, rids, i).len() ==> (#[trigger] fetched_from(
                table,
                rids,
                i,
            )[k]).len() == table.schema.columns.len(),
    decreases rids.len() - i,
{
    if i < rids.len() {
        fetched_rows_fit(table, rids, i + 1);
        found_row_fits(table, rids[i]);
        let rest = fetched_from(table, rids, i + 1);
        let all = fetched_from(table, rids, i);
        assert forall|k: int| 0 <= k < all.len() implies (#[trigger] all[k]).len()
            == table.schema.columns.len() by {
            match table.get(rids[i]) {
                Some(row) => {
                    if k > 0 {
                        assert(all[k] == rest[k - 1]);
                    }
                },
                None => {
                    assert(all[k] == rest[k]);
                },
            }
        }
    }
}

/// What an optional result stands for.
pub open spec fn opt_outcome(result: Result<Option<QueryResult>, QueryError>) -> Result<
    Option<ResultView>,
    ErrorView,
> {
    match result {
        Ok(Some(r)) => Ok(Some(r.deep_view())),
        Ok(None) => Ok(None),
        Err(e) => Err(e.deep_view()),
    }
}

/// Answer a scan of an index on a JSON path, with a projection of bare columns
/// or without one.
pub fn execute_expression_index_plan<
    E: Fn(&Expr, &Vec<Value>, &Vec<String>) -> Value,
    C: Fn(&Value, &Value) -> Order,
    F: Fn(FloatOp) -> u64,
    P: Fn() -> Result<(), QueryError>,
>(
    catalog: &Catalog,
    scalars: &Scalars<E, C, F>,
    plan: &PlanNode,
    projected_fields: Option<&Vec<ProjectField>>,
    poll: &P,
) -> (result: Result<Option<QueryResult>, QueryError>)
    requires
        scalars.ok(),
        call_requires(*poll, ()),
        catalog_fits(catalog.deep_view()),
    ensures
        opt_outcome(result) == path_plan_answer(
            catalog.deep_view(),
            scalars.values(),
            scalars.ordering(),
            plan.deep_view(),
            match projected_fields {
                Some(fields) => Some(fields.deep_view()),
                None => None,
            },
        ) || stopped(result, *poll),
{
    let (table, path) = match plan {
        PlanNode::ExprIndexScan { table, path, .. } => (table, path),
        PlanNode::ExprRangeScan { table, path, .. } => (table, path),
        PlanNode::OrderedExprIndexScan { table, path, .. } => (table, path),
        _ => {
            return Ok(None);
        },
    };
    let index = match catalog.resolve_expression_index(table, path) {
        Some(index) => index,
        None => {
            return Ok(None);
        },
    };
    proof {
        found_table_fits(catalog.deep_view(), table@);
    }
    let found = match catalog.table(table) {
        Some(found) => found,
        None => {
            return Ok(None);
        },
    };
    let mut projection: Option<(Vec<usize>, Vec<String>)> = None;
    match projected_fields {
        Some(fields) => {
            if !fields_all_bare(fields) {
                return Ok(None);
            }
            let resolved = resolve_bare(found, fields)?;
            projection = Some(resolved);
        },
        None => {},
    }
    let (rids, range) = scan_path_index(scalars, index, plan)?;
    let root: usize = match found.schema.column_index(&path.column) {
        Some(root) => root,
        None => {
            return Err(
                QueryError::ColumnNotFound { table: table.clone(), column: path.column.clone() },
            );
        },
    };
    match projection {
        Some((positions, columns)) => {
            let kept = meeting_rids(scalars, found, path, Some(root), &rids, &range, poll)?;
            let rows = fetch_rows(found, &kept, poll)?;
            proof {
                fetched_rows_fit(found.deep_view(), kept@, 0);
                assert forall|r: int, k: int|
                    0 <= r < rows.len() && 0 <= k < positions.len() implies #[trigger] positions[k]
                    < (#[trigger] rows[r]).len() by {
                    assert(rows.deep_view()[r] == rows[r].deep_view());
                    assert(rows[r].deep_view().len() == rows[r].len());
                }
            }
            Ok(Some(QueryResult::Rows { columns, rows: project_positions(&rows, &positions) }))
        },
        None => {
            let kept = meeting_rids(scalars, found, path, None, &rids, &range, poll)?;
            let rows = fetch_rows(found, &kept, poll)?;
            Ok(Some(QueryResult::Rows { columns: found.schema.column_names(), rows }))
        },
    }
}

/// A row holds on the columns that the predicate refers to, read alone.
pub open spec fn sparse_test(eval: EvalModel, predicate: ExprView, columns: Seq<Seq<char>>) -> spec_fn(
    Seq<ValueView>,
) -> bool {
    |row: Seq<ValueView>|
        {
            let at = read_positions(predicate, columns, 0);
            is_true(eval(predicate, pick(row, at), pick(columns, at)))
        }
}

/// What a filter over an equality lookup answers when each row is tested on the
/// columns of the predicate alone; none where the predicate holds a subquery or
/// the scan is no equality lookup in an index.
pub open spec fn residual_answer(
    catalog: CatalogView,
    eval: EvalModel,
    order: OrderModel,
    input: PlanView,
    predicate: ExprView,
) -> Result<Option<ResultView>, ErrorView> {
    if holds_subquery(predicate) || !(input is IndexScan || input is ExprIndexScan) {
        Ok(None)
    } else {
        let table = match input {
            PlanView::IndexScan { table, .. } => table,
            PlanView::ExprIndexScan { table, .. } => table,
            _ => Seq::empty(),
        };
        match scan_rids(catalog, eval, order, input) {
            Err(e) => Err(e),
            Ok(None) => Ok(None),
            Ok(Some(rids)) => match catalog.table(table) {
                None => Err(ErrorView::TableNotFound(table)),
                Some(found) => Ok(
                    Some(
                        table_answer(
                            found,
                            fetched_from(
                                found,
                                meeting_from(
                                    found,
                                    rids,
                                    sparse_test(eval, predicate, found.schema.column_names()),
                                    0,
                                ),
                                0,
                            ),
                        ),
                    ),
                ),
            },
        }
    }
}

/// The ids of the rows on which a predicate holds, each tested on the columns of
/// the predicate alone.
pub fn sparse_rids<
    E: Fn(&Expr, &Vec<Value>, &Vec<String>) -> Value,
    C: Fn(&Value, &Value) -> Order,
    F: Fn(FloatOp) -> u64,
    P: Fn() -> Result<(), QueryError>,
>(
    scalars: &Scalars<E, C, F>,
    table: &Table,
    rids: &Vec<RowId>,
    predicate: &Expr,
    poll: &P,
) -> (kept: Result<Vec<RowId>, QueryError>)
    requires
        call_requires(*poll, ()),
        scalars.ok(),
        table_fits(table.deep_view()),
    ensures
        match kept {
            Ok(kept) => kept@ == meeting_from(
                table.deep_view(),
                rids@,
                sparse_test(
                    scalars.values(),
                    predicate.deep_view(),
                    table.deep_view().schema.column_names(),
                ),
                0,
            ),
            Err(error) => call_ensures(*poll, (), Err(error)),
        },
{
    let ghost view = table.deep_view();
    let columns = table.schema.column_names();
    let positions = predicate_column_indices_json(predicate, &columns);
    let ghost at = read_positions(predicate.deep_view(), columns.deep_view(), 0);
    let mut names: Vec<String> = Vec::new();
    let mut k: usize = 0;
    while k < positions.len()
        invariant
            k <= positions.len(),
            forall|j: int| 0 <= j < positions.len() ==> (#[trigger] positions[j]) < columns.len(),
            names.len() == k,
            forall|j: int|
                0 <= j < k ==> (#[trigger] names[j])@ == columns[positions[j] as int]@,
        decreases positions.len() - k,
    {
        names.push(columns[positions[k]].clone());
        k = k + 1;
    }
    assert(names.deep_view() =~= pick(columns.deep_view(), at));
    let ghost f = sparse_test(scalars.values(), predicate.deep_view(), columns.deep_view());
    let ghost all = meeting_from(view, rids@, f, 0);
    let mut kept: Vec<RowId> = Vec::new();
    let mut i: usize = 0;
    assert(kept@ + all =~= all);
    while i < rids.len()
        invariant
            call_requires(*poll, ()),
            i <= rids.len(),
            scalars.ok(),
            view == table.deep_view(),
            table_fits(view),
            columns.len() == view.schema.columns.len(),
            at == read_positions(predicate.deep_view(), columns.deep_view(), 0),
            ints(positions@) == at,
            forall|j: int| 0 <= j < positions.len() ==> (#[trigger] positions[j]) < columns.len(),
            names.deep_view() == pick(columns.deep_view(), at),
            f == sparse_test(scalars.values(), predicate.deep_view(), columns.deep_view()),
            kept@ + meeting_from(view, rids@, f, i as int) == all,
        decreases rids.len() - i,
    {
        poll()?;
        let ghost before = kept@;
        proof {
            found_row_fits(view, rids[i as int]);
        }
        match table.get(rids[i]) {
            Some(row) => {
                assert(row.deep_view().len() == row.len());
                let sparse = pick_values(row, &positions);
                if scalars.eval_predicate(predicate, &sparse, &names) {
                    assert(f(row.deep_view()));
                    kept.push(rids[i]);
                    assert(kept@ + meeting_from(view, rids@, f, i + 1) =~= before + meeting_from(
                        view,
                        rids@,
                        f,
                        i as int,
                    ));
                } else {
                    assert(!f(row.deep_view()));
                }
            },
            None => {},
        }
        i = i + 1;
    }
    assert(kept@ =~= all);
    Ok(kept)
}

/// Answer a filter over an equality lookup, testing each row on the columns of
/// the predicate alone.
pub fn try_filter_index_residual_fast<
    E: Fn(&Expr, &Vec<Value>, &Vec<String>) -> Value,
    C: Fn(&Value, &Value) -> Order,
    F: Fn(FloatOp) -> u64,
    P: Fn() -> Result<(), QueryError>,
>(
    catalog: &Catalog,
    scalars: &Scalars<E, C, F>,
    input: &PlanNode,
    predicate: &Expr,
    poll: &P,
) -> (result: Result<Option<QueryResult>, QueryError>)
    requires
        scalars.ok(),
        call_requires(*poll, ()),
        catalog_fits(catalog.deep_view()),
    ensures
        opt_outcome(result) == residual_answer(
            catalog.deep_view(),
            scalars.values(),
            scalars.ordering(),
            input.deep_view(),
            predicate.deep_view(),
        ) || stopped(result, *poll),
{
    if contains_subquery(predicate) {
        return Ok(None);
    }
    let table = match input {
        PlanNode::IndexScan { table, .. } => table,
        PlanNode::ExprIndexScan { table, .. } => table,
        _ => {
            return Ok(None);
        },
    };
    let rids = match index_scan_rids(catalog, scalars, input, poll)? {
        Some(rids) => rids,
        None => {
            return Ok(None);
        },
    };
    proof {
        found_table_fits(catalog.deep_view(), table@);
    }
    let found = match catalog.table(table) {
        Some(found) => found,
        None => {
            return Err(QueryError::TableNotFound(table.clone()));
        },
    };
    let kept = sparse_rids(scalars, found, &rids, predicate, poll)?;
    let rows = fetch_rows(found, &kept, poll)?;
    Ok(Some(QueryResult::Rows { columns: found.schema.column_names(), rows }))
}

/// Evaluating a predicate needs no more than the columns that it refers to.
pub open spec fn reads_what_it_mentions(eval: EvalModel) -> bool {
    forall|expr: ExprView, row: Seq<ValueView>, columns: Seq<Seq<char>>|
        row.len() == columns.len() ==> #[trigger] eval(expr, row, columns) == eval(
            expr,
            pick(row, read_positions(expr, columns, 0)),
            pick(columns, read_positions(expr, columns, 0)),
        )
}

/// Testing rows on the columns of the predicate alone keeps the rows that the
/// filter keeps, in the same order.
pub proof fn sparse_test_keeps_the_answer(
    eval: EvalModel,
    predicate: ExprView,
    table: TableView,
    rids: Seq<RowId>,
    i: int,
)
    requires
        reads_what_it_mentions(eval),
        table_fits(table),
        0 <= i,
    ensures
        fetched_from(
            table,
            meeting_from(
                table,
                rids,
                sparse_test(eval, predicate, table.schema.column_names()),
                i,
            ),
            0,
        ) == filtered(
            eval,
            predicate,
            fetched_from(table, rids, i),
            table.schema.column_names(),
        ),
    decreases rids.len() - i,
{
    let columns = table.schema.column_names();
    let f = sparse_test(eval, predicate, columns);
    if i < rids.len() {
        sparse_test_keeps_the_answer(eval, predicate, table, rids, i + 1);
        found_row_fits(table, rids[i]);
        let rest = fetched_from(table, rids, i + 1);
        let kept = meeting_from(table, rids, f, i + 1);
        match table.get(rids[i]) {
            Some(row) => {
                assert(eval(predicate, row, columns) == eval(
                    predicate,
                    pick(row, read_positions(predicate, columns, 0)),
                    pick(columns, read_positions(predicate, columns, 0)),
                ));
                filtered_head(eval, predicate, row, rest, columns);
                if f(row) {
                    fetched_head(table, rids[i], kept);
                }
            },
            None => {},
        }
    } else {
        assert(filtered(eval, predicate, Seq::empty(), columns) =~= Seq::empty());
    }
}

proof fn fetched_head(table: TableView, rid: RowId, rids: Seq<RowId>)
    requires
        table.get(rid) is Some,
    ensures
        fetched_from(table, seq![rid] + rids, 0) == seq![table.get(rid)->0] + fetched_from(
            table,
            rids,
            0,
        ),
{
    fetched_shift(table, rid, rids, 0);
}

proof fn fetched_shift(table: TableView, rid: RowId, rids: Seq<RowId>, i: int)
    requires
        0 <= i,
    ensures
        fetched_from(table, seq![rid] + rids, i + 1) == fetched_from(table, rids, i),
    decreases rids.len() - i,
{
    if i < rids.len() {
        fetched_shift(table, rid, rids, i + 1);
        assert((seq![rid] + rids)[i + 1] == rids[i]);
    }
}

proof fn filtered_head(
    eval: EvalModel,
    predicate: ExprView,
    row: Seq<ValueView>,
    rest: Seq<Seq<ValueView>>,
    columns: Seq<Seq<char>>,
)
    ensures
        filtered(eval, predicate, seq![row] + rest, columns) == (if is_true(
            eval(predicate, row, columns),
        ) {
            seq![row]
        } else {
            Seq::empty()
        }) + filtered(eval, predicate, rest, columns),
    decreases rest.len(),
{
    let all = seq![row] + rest;
    if rest.len() == 0 {
        assert(all.drop_last() =~= Seq::empty());
        assert(all.last() == row);
        assert(filtered(eval, predicate, Seq::empty(), columns) =~= Seq::empty());
    } else {
        filtered_head(eval, predicate, row, rest.drop_last(), columns);
        assert(all.drop_last() =~= seq![row] + rest.drop_last());
        assert(all.last() == rest.last());
    }
    assert(filtered(eval, predicate, all, columns) =~= (if is_true(
        eval(predicate, row, columns),
    ) {
        seq![row]
    } else {
        Seq::empty()
    }) + filtered(eval, predicate, rest, columns));
}

} // verus!
