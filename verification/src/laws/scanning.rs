//! Which rows a lookup in an index answers.

use vstd::prelude::*;

use crate::aggregate::RowId;
use crate::catalog::{
    has_rid, CatalogView, ExpressionIndexMetaView, IndexEntryView, StoredRowView, TableView,
};
use crate::error::{Budget, ErrorView, ResultView};
use crate::expr::{BinOp, ExprView, LiteralView};
use crate::index::{
    all_bare, bare_names, bare_positions, between_from, column_within, fetched_from,
    found_table_agrees, holding_ids, indexes_agree, lookup_from, meeting_from, own_id_is_found,
    path_lookup_from, path_plan_answer, path_scan_of, path_test, projected, row_ids, slice,
    table_rows, unique_from,
};
use crate::join::and_is_conjunction;
use crate::laws::changing::{denoted, literals_denote};
use crate::laws::filtering::{filters_agree, images_take_first, predicates_keep_what_holds};
use crate::laws::naming::{columns_are_found, held, is_column, names_lead_to_columns};
use crate::lower::path_expr;
use crate::plan::{PlanView, ProjectFieldView, StoredJsonPathView};
use crate::read::{answer, path_answer};
use crate::scalars::{EvalModel, Order, OrderModel};
use crate::seqs::first_where_found;
use crate::session::SessionModel;
use crate::value::ValueView;

verus! {

/// Row `i` is the first of this id.
pub open spec fn is_stored_at(table: TableView, rid: RowId, i: int) -> bool {
    &&& 0 <= i < table.rows.len()
    &&& table.rows[i].rid == rid
    &&& forall|j: int| 0 <= j < i ==> (#[trigger] table.rows[j]).rid != rid
}

/// What the row of an id holds, where there is one.
pub open spec fn stored(table: TableView, rid: RowId) -> Option<Seq<ValueView>> {
    if exists|i: int| is_stored_at(table, rid, i) {
        Some(table.rows[choose|i: int| is_stored_at(table, rid, i)].values)
    } else {
        None
    }
}

/// What the rows of these ids hold, in the order of the ids; an id without a row is
/// passed over.
pub open spec fn rows_under(table: TableView, rids: Seq<RowId>) -> Seq<Seq<ValueView>> {
    rids.filter(|rid: RowId| stored(table, rid) is Some).map_values(
        |rid: RowId| stored(table, rid)->0,
    )
}

/// A value lies above or at a bound, and below or at another.
pub open spec fn lies_within(
    order: OrderModel,
    value: ValueView,
    start: Option<(ValueView, bool)>,
    end: Option<(ValueView, bool)>,
) -> bool {
    &&& start matches Some((bound, inclusive)) ==> order(value, bound) == Order::Greater || (
    inclusive && order(value, bound) == Order::Equal)
    &&& end matches Some((bound, inclusive)) ==> order(value, bound) == Order::Less || (inclusive
        && order(value, bound) == Order::Equal)
}

/// The bound with its literal read.
pub open spec fn bound_of(bound: Option<(ExprView, bool)>) -> Option<(ValueView, bool)> {
    match bound {
        Some((key, inclusive)) => Some((denoted(key)->0, inclusive)),
        None => None,
    }
}

/// The bound, itself included.
pub open spec fn closed_bound(bound: Option<(ValueView, bool)>) -> Option<(ValueView, bool)> {
    match bound {
        Some((value, _)) => Some((value, true)),
        None => None,
    }
}

/// The value is a bound that is not included.
pub open spec fn is_open_bound(bound: Option<(ValueView, bool)>, value: ValueView) -> bool {
    bound == Some((value, false))
}

/// The rows of a table as they are stored.
pub open spec fn all_rows(table: TableView) -> Seq<Seq<ValueView>> {
    table.rows.map_values(|row: StoredRowView| row.values)
}

/// An id leads to the first row of that id.
pub proof fn ids_lead_to_rows(table: TableView, rid: RowId)
    ensures
        table.get(rid) == stored(table, rid),
{
    first_where_found(table.rows, has_rid(rid));
    match crate::seqs::first_where(table.rows, has_rid(rid)) {
        Some(i) => {
            assert forall|j: int| 0 <= j < i implies (#[trigger] table.rows[j]).rid != rid by {
                assert(!has_rid(rid)(table.rows[j]));
            }
            assert(is_stored_at(table, rid, i));
            let k = choose|k: int| is_stored_at(table, rid, k);
            if k < i {
                assert(table.rows[k].rid != rid);
            } else if i < k {
                assert(table.rows[i].rid != rid);
            }
        },
        None => {
            assert forall|i: int| !is_stored_at(table, rid, i) by {
                if 0 <= i < table.rows.len() {
                    assert(!has_rid(rid)(table.rows[i]));
                }
            }
        },
    }
}

proof fn fetching_reads_ids(table: TableView, rids: Seq<RowId>, i: int)
    requires
        0 <= i <= rids.len(),
    ensures
        fetched_from(table, rids, i) == rows_under(table, rids.skip(i)),
    decreases rids.len() - i,
{
    images_take_first(
        rids,
        |rid: RowId| stored(table, rid) is Some,
        |rid: RowId| stored(table, rid)->0,
        i,
    );
    if i < rids.len() {
        ids_lead_to_rows(table, rids[i]);
        fetching_reads_ids(table, rids, i + 1);
    }
}

/// Fetching ids reads their rows.
pub proof fn fetches_read_ids(table: TableView, rids: Seq<RowId>)
    ensures
        fetched_from(table, rids, 0) == rows_under(table, rids),
{
    fetching_reads_ids(table, rids, 0);
    assert(rids.skip(0) =~= rids);
}

proof fn meeting_tests_rows(
    table: TableView,
    rids: Seq<RowId>,
    condition: spec_fn(Seq<ValueView>) -> bool,
    i: int,
)
    requires
        0 <= i <= rids.len(),
    ensures
        meeting_from(table, rids, condition, i) == rids.skip(i).filter(
            |rid: RowId| stored(table, rid) matches Some(row) && condition(row),
        ),
    decreases rids.len() - i,
{
    let test = |rid: RowId| stored(table, rid) matches Some(row) && condition(row);
    images_take_first(rids, test, |rid: RowId| rid, i);
    assert(rids.skip(i).filter(test).map_values(|rid: RowId| rid) =~= rids.skip(i).filter(test));
    if i < rids.len() {
        ids_lead_to_rows(table, rids[i]);
        meeting_tests_rows(table, rids, condition, i + 1);
        assert(rids.skip(i + 1).filter(test).map_values(|rid: RowId| rid) =~= rids.skip(
            i + 1,
        ).filter(test));
    }
}

/// Testing ids keeps those whose row meets the condition.
pub proof fn tests_keep_what_meets(
    table: TableView,
    rids: Seq<RowId>,
    condition: spec_fn(Seq<ValueView>) -> bool,
)
    ensures
        meeting_from(table, rids, condition, 0) == rids.filter(
            |rid: RowId| stored(table, rid) matches Some(row) && condition(row),
        ),
{
    meeting_tests_rows(table, rids, condition, 0);
    assert(rids.skip(0) =~= rids);
}

proof fn looking_up_filters(entries: Seq<IndexEntryView>, key: ValueView, i: int)
    requires
        0 <= i <= entries.len(),
    ensures
        lookup_from(entries, key, i) == entries.skip(i).filter(
            |entry: IndexEntryView| entry.key == key,
        ).map_values(|entry: IndexEntryView| entry.rid),
    decreases entries.len() - i,
{
    images_take_first(
        entries,
        |entry: IndexEntryView| entry.key == key,
        |entry: IndexEntryView| entry.rid,
        i,
    );
    if i < entries.len() {
        looking_up_filters(entries, key, i + 1);
    }
}

proof fn looking_up_a_path_filters(
    order: OrderModel,
    entries: Seq<IndexEntryView>,
    key: ValueView,
    i: int,
)
    requires
        0 <= i <= entries.len(),
    ensures
        path_lookup_from(order, entries, key, i) == entries.skip(i).filter(
            |entry: IndexEntryView| order(entry.key, key) == Order::Equal,
        ).map_values(|entry: IndexEntryView| entry.rid),
    decreases entries.len() - i,
{
    images_take_first(
        entries,
        |entry: IndexEntryView| order(entry.key, key) == Order::Equal,
        |entry: IndexEntryView| entry.rid,
        i,
    );
    if i < entries.len() {
        looking_up_a_path_filters(order, entries, key, i + 1);
    }
}

proof fn between_filters(
    order: OrderModel,
    entries: Seq<IndexEntryView>,
    start: Option<(ValueView, bool)>,
    end: Option<(ValueView, bool)>,
    s: Option<ValueView>,
    e: Option<ValueView>,
    i: int,
)
    requires
        0 <= i <= entries.len(),
        s == (match start {
            Some((value, _)) => Some(value),
            None => None,
        }),
        e == (match end {
            Some((value, _)) => Some(value),
            None => None,
        }),
    ensures
        between_from(order, entries, s, e, i) == entries.skip(i).filter(
            |entry: IndexEntryView|
                lies_within(order, entry.key, closed_bound(start), closed_bound(end)),
        ).map_values(|entry: IndexEntryView| entry.rid),
    decreases entries.len() - i,
{
    images_take_first(
        entries,
        |entry: IndexEntryView|
            lies_within(order, entry.key, closed_bound(start), closed_bound(end)),
        |entry: IndexEntryView| entry.rid,
        i,
    );
    if i < entries.len() {
        between_filters(order, entries, start, end, s, e, i + 1);
    }
}

proof fn unique_filters(
    order: OrderModel,
    entries: Seq<IndexEntryView>,
    start: Option<(ValueView, bool)>,
    end: Option<(ValueView, bool)>,
    s: Option<ValueView>,
    si: bool,
    e: Option<ValueView>,
    ei: bool,
    i: int,
)
    requires
        0 <= i <= entries.len(),
        match start {
            Some((value, inclusive)) => s == Some(value) && si == inclusive,
            None => s is None && si,
        },
        match end {
            Some((value, inclusive)) => e == Some(value) && ei == inclusive,
            None => e is None && ei,
        },
    ensures
        unique_from(order, entries, s, si, e, ei, i) == entries.skip(i).filter(
            |entry: IndexEntryView|
                lies_within(order, entry.key, closed_bound(start), closed_bound(end))
                    && !is_open_bound(start, entry.key) && !is_open_bound(end, entry.key),
        ).map_values(|entry: IndexEntryView| entry.rid),
    decreases entries.len() - i,
{
    images_take_first(
        entries,
        |entry: IndexEntryView|
            lies_within(order, entry.key, closed_bound(start), closed_bound(end))
                && !is_open_bound(start, entry.key) && !is_open_bound(end, entry.key),
        |entry: IndexEntryView| entry.rid,
        i,
    );
    if i < entries.len() {
        unique_filters(order, entries, start, end, s, si, e, ei, i + 1);
    }
}

proof fn holders_are_rows(table: TableView, column: int, key: ValueView, i: int)
    requires
        row_ids(table).no_duplicates(),
        0 <= i <= table.rows.len(),
    ensures
        rows_under(table, holding_ids(table.rows, column, key, i)) == table.rows.skip(i).filter(
            |row: StoredRowView| row.values[column] == key,
        ).map_values(|row: StoredRowView| row.values),
    decreases table.rows.len() - i,
{
    let test = |row: StoredRowView| row.values[column] == key;
    let is_there = |rid: RowId| stored(table, rid) is Some;
    let read = |rid: RowId| stored(table, rid)->0;
    images_take_first(table.rows, test, |row: StoredRowView| row.values, i);
    let rids = holding_ids(table.rows, column, key, i);
    if i < table.rows.len() {
        holders_are_rows(table, column, key, i + 1);
        let rest = holding_ids(table.rows, column, key, i + 1);
        if test(table.rows[i]) {
            own_id_is_found(table, i);
            ids_lead_to_rows(table, table.rows[i].rid);
            images_take_first(rids, is_there, read, 0);
            assert(rids.skip(0) =~= rids);
            assert(rids.skip(1) =~= rest);
        }
    } else {
        images_take_first(rids, is_there, read, 0);
        assert(rids.skip(0) =~= rids);
    }
}

proof fn filter_then_read(rows: Seq<StoredRowView>, f: spec_fn(Seq<ValueView>) -> bool)
    ensures
        rows.filter(|row: StoredRowView| f(row.values)).map_values(|row: StoredRowView| row.values)
            == rows.map_values(|row: StoredRowView| row.values).filter(f),
    decreases rows.len(),
{
    reveal(Seq::filter);
    let read = |row: StoredRowView| row.values;
    let test = |row: StoredRowView| f(row.values);
    let made = rows.filter(test).map_values(read);
    if rows.len() > 0 {
        let less = rows.drop_last();
        filter_then_read(less, f);
        assert(rows.map_values(read).drop_last() =~= less.map_values(read));
        assert(rows.map_values(read).last() == rows.last().values);
        if test(rows.last()) {
            assert(made =~= less.filter(test).map_values(read).push(rows.last().values));
        }
    } else {
        assert(made =~= Seq::empty());
        assert(rows.map_values(read) =~= Seq::empty());
    }
}

/// An equality lookup in an index that leads to the rows that hold its keys answers
/// exactly the rows that hold the key, in storage order.
pub proof fn index_scans_answer_holders(
    catalog: CatalogView,
    model: SessionModel,
    table: Seq<char>,
    column: Seq<char>,
    key: ExprView,
    budget: Budget,
)
    requires
        indexes_agree(catalog),
        catalog.index(table, column) is Some,
        catalog.table(table)->0.schema.column_index(column) is Some,
        denoted(key) matches Some(value) && !(value is Empty),
    ensures
        ({
            let found = catalog.table(table)->0;
            answer(catalog, model, PlanView::IndexScan { table, column, key }, budget) == Ok::<
                (ResultView, Budget),
                ErrorView,
            >(
                (
                    ResultView::Rows {
                        columns: found.schema.column_names(),
                        rows: all_rows(found).filter(
                            |row: Seq<ValueView>|
                                held(found.schema, row, column) == denoted(key)->0,
                        ),
                    },
                    budget,
                ),
            )
        }),
{
    let found = catalog.table(table)->0;
    let value = denoted(key)->0;
    let entries = catalog.index(table, column)->0.entries;
    literals_denote(key);
    found_table_agrees(catalog, table, column);
    names_lead_to_columns(found.schema, column);
    let at = found.schema.column_index(column)->0;
    assert(lookup_from(entries, value, 0) == holding_ids(found.rows, at, value, 0));
    let rids = holding_ids(found.rows, at, value, 0);
    fetches_read_ids(found, rids);
    holders_are_rows(found, at, value, 0);
    assert(found.rows.skip(0) =~= found.rows);
    let plain = |row: Seq<ValueView>| row[at] == value;
    filter_then_read(found.rows, plain);
    let stated = |row: Seq<ValueView>| held(found.schema, row, column) == value;
    assert forall|i: int| 0 <= i < all_rows(found).len() implies plain(
        #[trigger] all_rows(found)[i],
    ) == stated(all_rows(found)[i]) by {
        columns_are_found(found.schema, all_rows(found)[i], column, at);
    }
    filters_agree(all_rows(found), plain, stated);
    same_test(found.rows, at, value);
}

proof fn same_test(rows: Seq<StoredRowView>, at: int, value: ValueView)
    ensures
        rows.filter(|row: StoredRowView| row.values[at] == value) == rows.filter(
            |row: StoredRowView| (|values: Seq<ValueView>| values[at] == value)(row.values),
        ),
{
    filters_agree(
        rows,
        |row: StoredRowView| row.values[at] == value,
        |row: StoredRowView| (|values: Seq<ValueView>| values[at] == value)(row.values),
    );
}

/// An equality lookup without its index answers the rows on which the column
/// equals the key.
pub proof fn unindexed_lookups_answer_equals(
    catalog: CatalogView,
    model: SessionModel,
    table: Seq<char>,
    column: Seq<char>,
    key: ExprView,
    budget: Budget,
)
    requires
        catalog.table(table) matches Some(found) && found.schema.column_index(column) is Some,
        catalog.index(table, column) is None,
        denoted(key) is Some,
    ensures
        ({
            let found = catalog.table(table)->0;
            let columns = found.schema.column_names();
            answer(catalog, model, PlanView::IndexScan { table, column, key }, budget) == Ok::<
                (ResultView, Budget),
                ErrorView,
            >(
                (
                    ResultView::Rows {
                        columns,
                        rows: all_rows(found).filter(
                            |row: Seq<ValueView>|
                                (model.scalars.eval)(
                                    ExprView::BinaryOp(
                                        Box::new(ExprView::Field(column)),
                                        BinOp::Eq,
                                        Box::new(key),
                                    ),
                                    row,
                                    columns,
                                ) == ValueView::Bool(true),
                        ),
                    },
                    budget,
                ),
            )
        }),
{
    let found = catalog.table(table)->0;
    literals_denote(key);
    assert(table_rows(found) =~= all_rows(found));
    predicates_keep_what_holds(
        model.scalars.eval,
        ExprView::BinaryOp(Box::new(ExprView::Field(column)), BinOp::Eq, Box::new(key)),
        all_rows(found),
        found.schema.column_names(),
    );
}

/// The comparisons that a range asks of a subject are true on a row.
pub open spec fn meets_bounds(
    eval: EvalModel,
    subject: ExprView,
    start: Option<(ExprView, bool)>,
    end: Option<(ExprView, bool)>,
    row: Seq<ValueView>,
    columns: Seq<Seq<char>>,
) -> bool {
    &&& start matches Some((key, inclusive)) ==> eval(
        ExprView::BinaryOp(
            Box::new(subject),
            if inclusive {
                BinOp::Gte
            } else {
                BinOp::Gt
            },
            Box::new(key),
        ),
        row,
        columns,
    ) == ValueView::Bool(true)
    &&& end matches Some((key, inclusive)) ==> eval(
        ExprView::BinaryOp(
            Box::new(subject),
            if inclusive {
                BinOp::Lte
            } else {
                BinOp::Lt
            },
            Box::new(key),
        ),
        row,
        columns,
    ) == ValueView::Bool(true)
}

/// A range lookup without its index answers the rows on which the column meets both
/// bounds.
pub proof fn unindexed_ranges_answer_what_meets_the_bounds(
    catalog: CatalogView,
    model: SessionModel,
    table: Seq<char>,
    column: Seq<char>,
    start: Option<(ExprView, bool)>,
    end: Option<(ExprView, bool)>,
    budget: Budget,
)
    requires
        catalog.table(table) matches Some(found) && found.schema.column_index(column) is Some,
        catalog.index(table, column) is None,
        start matches Some((key, _)) ==> denoted(key) is Some,
        end matches Some((key, _)) ==> denoted(key) is Some,
        and_is_conjunction(model.scalars.eval),
        forall|row: Seq<ValueView>, columns: Seq<Seq<char>>| #[trigger]
            (model.scalars.eval)(ExprView::Literal(LiteralView::Bool(true)), row, columns)
                == ValueView::Bool(true),
    ensures
        ({
            let found = catalog.table(table)->0;
            let columns = found.schema.column_names();
            answer(catalog, model, PlanView::RangeScan { table, column, start, end }, budget)
                == Ok::<(ResultView, Budget), ErrorView>(
                (
                    ResultView::Rows {
                        columns,
                        rows: all_rows(found).filter(
                            |row: Seq<ValueView>|
                                meets_bounds(
                                    model.scalars.eval,
                                    ExprView::Field(column),
                                    start,
                                    end,
                                    row,
                                    columns,
                                ),
                        ),
                    },
                    budget,
                ),
            )
        }),
{
    let found = catalog.table(table)->0;
    let columns = found.schema.column_names();
    let eval = model.scalars.eval;
    match start {
        Some((key, _)) => literals_denote(key),
        None => {},
    }
    match end {
        Some((key, _)) => literals_denote(key),
        None => {},
    }
    let rows = all_rows(found);
    assert(table_rows(found) =~= rows);
    let condition = crate::lower::range_predicate(ExprView::Field(column), start, end);
    predicates_keep_what_holds(eval, condition, rows, columns);
    let stated = |row: Seq<ValueView>|
        meets_bounds(eval, ExprView::Field(column), start, end, row, columns);
    let tested = |row: Seq<ValueView>| eval(condition, row, columns) == ValueView::Bool(true);
    assert forall|i: int| 0 <= i < rows.len() implies tested(#[trigger] rows[i]) == stated(
        rows[i],
    ) by {}
    filters_agree(rows, tested, stated);
}

/// A range lookup in an index reads the rows of its entries in the order of the
/// entries. Those of a unique index are taken whose key lies between the bounds and
/// is no bound that the range leaves out; those of another, whose key lies between
/// the bounds and whose row holds a value that lies within the range.
pub proof fn range_scans_answer_what_lies_within(
    catalog: CatalogView,
    model: SessionModel,
    table: Seq<char>,
    column: Seq<char>,
    start: Option<(ExprView, bool)>,
    end: Option<(ExprView, bool)>,
    budget: Budget,
)
    requires
        catalog.index(table, column) is Some,
        catalog.table(table)->0.schema.column_index(column) is Some,
        start is Some || end is Some,
        start matches Some((key, _)) ==> denoted(key) is Some,
        end matches Some((key, _)) ==> denoted(key) is Some,
    ensures
        ({
            let found = catalog.table(table)->0;
            let index = catalog.index(table, column)->0;
            let order = model.scalars.order;
            let (low, high) = (bound_of(start), bound_of(end));
            let rids = if index.unique {
                index.entries.filter(
                    |entry: IndexEntryView|
                        lies_within(order, entry.key, closed_bound(low), closed_bound(high))
                            && !is_open_bound(low, entry.key) && !is_open_bound(high, entry.key),
                ).map_values(|entry: IndexEntryView| entry.rid)
            } else {
                index.entries.filter(
                    |entry: IndexEntryView|
                        lies_within(order, entry.key, closed_bound(low), closed_bound(high)),
                ).map_values(|entry: IndexEntryView| entry.rid).filter(
                    |rid: RowId|
                        stored(found, rid) matches Some(row) && !(held(found.schema, row, column)
                            is Empty) && lies_within(
                            order,
                            held(found.schema, row, column),
                            low,
                            high,
                        ),
                )
            };
            answer(catalog, model, PlanView::RangeScan { table, column, start, end }, budget)
                == Ok::<(ResultView, Budget), ErrorView>(
                (
                    ResultView::Rows {
                        columns: found.schema.column_names(),
                        rows: rows_under(found, rids),
                    },
                    budget,
                ),
            )
        }),
{
    let found = catalog.table(table)->0;
    let index = catalog.index(table, column)->0;
    let order = model.scalars.order;
    let (low, high) = (bound_of(start), bound_of(end));
    match start {
        Some((key, _)) => literals_denote(key),
        None => {},
    }
    match end {
        Some((key, _)) => literals_denote(key),
        None => {},
    }
    names_lead_to_columns(found.schema, column);
    let at = found.schema.column_index(column)->0;
    let (s, e) = (
        crate::index::bound_value(start)->Ok_0,
        crate::index::bound_value(end)->Ok_0,
    );
    let (si, ei) = (crate::index::bound_inclusive(start), crate::index::bound_inclusive(end));
    assert(index.entries.skip(0) =~= index.entries);
    if index.unique {
        unique_filters(order, index.entries, low, high, s, si, e, ei, 0);
        fetches_read_ids(found, unique_from(order, index.entries, s, si, e, ei, 0));
    } else {
        between_filters(order, index.entries, low, high, s, e, 0);
        let rids = between_from(order, index.entries, s, e, 0);
        let condition = column_within(order, at, s, si, e, ei);
        tests_keep_what_meets(found, rids, condition);
        let tested = |rid: RowId| stored(found, rid) matches Some(row) && condition(row);
        let stated = |rid: RowId|
            stored(found, rid) matches Some(row) && !(held(found.schema, row, column) is Empty)
                && lies_within(order, held(found.schema, row, column), low, high);
        assert forall|i: int| 0 <= i < rids.len() implies tested(#[trigger] rids[i]) == stated(
            rids[i],
        ) by {
            match stored(found, rids[i]) {
                Some(row) => columns_are_found(found.schema, row, column, at),
                None => {},
            }
        }
        filters_agree(rids, tested, stated);
        fetches_read_ids(found, meeting_from(found, rids, condition, 0));
    }
}

/// A JSON path, read off its column.
pub open spec fn path_read(path: StoredJsonPathView) -> ExprView {
    ExprView::JsonPath { base: Box::new(ExprView::Field(path.column)), segments: path.segments }
}

/// The ids that a scan of an index on a JSON path leads to, before any test: those
/// whose key compares equal to the one looked up, or, for null, those without a
/// value; those whose key lies between the bounds; or a part of all of them in
/// order.
pub open spec fn path_ids(
    order: OrderModel,
    index: ExpressionIndexMetaView,
    scan: PlanView,
) -> Seq<RowId> {
    match scan {
        PlanView::ExprIndexScan { key, .. } => match denoted(key)->0 {
            ValueView::Empty => index.empty_rids,
            value => index.entries.filter(
                |entry: IndexEntryView| order(entry.key, value) == Order::Equal,
            ).map_values(|entry: IndexEntryView| entry.rid),
        },
        PlanView::ExprRangeScan { start, end, .. } => index.entries.filter(
            |entry: IndexEntryView|
                lies_within(
                    order,
                    entry.key,
                    closed_bound(bound_of(start)),
                    closed_bound(bound_of(end)),
                ),
        ).map_values(|entry: IndexEntryView| entry.rid),
        PlanView::OrderedExprIndexScan { descending, limit, offset, .. } => {
            let all = if descending {
                index.descending
            } else {
                index.ascending
            };
            let (skipped, taken) = (skipped_by(offset), taken_by(limit));
            Seq::new(
                (if all.len() <= skipped {
                    0
                } else if all.len() - skipped < taken {
                    all.len() - skipped
                } else {
                    taken
                }) as nat,
                |i: int| all[skipped + i],
            )
        },
        _ => Seq::empty(),
    }
}

/// How many an offset skips.
pub open spec fn skipped_by(offset: Option<ExprView>) -> int {
    match offset {
        Some(ExprView::Literal(LiteralView::Int(n))) => n as int,
        _ => 0,
    }
}

/// How many a limit takes.
pub open spec fn taken_by(limit: ExprView) -> int {
    match limit {
        ExprView::Literal(LiteralView::Int(n)) => n as int,
        _ => 0,
    }
}

/// The literals of a scan of an index on a JSON path can be read, and its bounds
/// are counts.
pub open spec fn is_sound_path_scan(scan: PlanView) -> bool {
    match scan {
        PlanView::ExprIndexScan { key, .. } => denoted(key) is Some,
        PlanView::ExprRangeScan { start, end, .. } => (start matches Some((key, _)) ==> denoted(key)
            is Some) && (end matches Some((key, _)) ==> denoted(key) is Some),
        PlanView::OrderedExprIndexScan { limit, offset, .. } => (
        limit matches ExprView::Literal(LiteralView::Int(n)) && n >= 0) && (
        offset matches Some(count) ==> (count matches ExprView::Literal(LiteralView::Int(n)) && n
            >= 0)),
        _ => false,
    }
}

/// The table and the path that a scan of an index on a JSON path is over.
pub open spec fn path_scanned(scan: PlanView) -> (Seq<char>, StoredJsonPathView) {
    match scan {
        PlanView::ExprIndexScan { table, path, .. } => (table, path),
        PlanView::ExprRangeScan { table, path, .. } => (table, path),
        PlanView::OrderedExprIndexScan { table, path, .. } => (table, path),
        _ => arbitrary(),
    }
}

/// What the path has on a row passes the bounds of a range scan; every row passes
/// another scan.
pub open spec fn passes_bounds(order: OrderModel, scan: PlanView, value: ValueView) -> bool {
    scan matches PlanView::ExprRangeScan { start, end, .. } ==> !(value is Empty) && lies_within(
        order,
        value,
        bound_of(start),
        bound_of(end),
    )
}

proof fn path_scan_leads(order: OrderModel, index: ExpressionIndexMetaView, scan: PlanView)
    requires
        is_sound_path_scan(scan),
    ensures
        path_scan_of(order, index, scan) matches Ok(led) && led.rids == path_ids(order, index, scan)
            && (match scan {
            PlanView::ExprRangeScan { start, end, .. } => led.range == Some(
                (
                    crate::index::bound_value(start)->Ok_0,
                    crate::index::bound_inclusive(start),
                    crate::index::bound_value(end)->Ok_0,
                    crate::index::bound_inclusive(end),
                ),
            ) && crate::index::bound_value(start) is Ok && crate::index::bound_value(end) is Ok,
            _ => led.range is None,
        }),
{
    assert(index.entries.skip(0) =~= index.entries);
    match scan {
        PlanView::ExprIndexScan { key, .. } => {
            literals_denote(key);
            looking_up_a_path_filters(order, index.entries, denoted(key)->0, 0);
        },
        PlanView::ExprRangeScan { start, end, .. } => {
            match start {
                Some((key, _)) => literals_denote(key),
                None => {},
            }
            match end {
                Some((key, _)) => literals_denote(key),
                None => {},
            }
            between_filters(
                order,
                index.entries,
                bound_of(start),
                bound_of(end),
                crate::index::bound_value(start)->Ok_0,
                crate::index::bound_value(end)->Ok_0,
                0,
            );
        },
        PlanView::OrderedExprIndexScan { descending, limit, offset, .. } => {
            let all = if descending {
                index.descending
            } else {
                index.ascending
            };
            assert(slice(all, skipped_by(offset), taken_by(limit)) =~= path_ids(
                order,
                index,
                scan,
            ));
        },
        _ => {},
    }
}

proof fn tested_ids_read(
    table: TableView,
    rids: Seq<RowId>,
    condition: spec_fn(Seq<ValueView>) -> bool,
    test: spec_fn(Seq<ValueView>) -> bool,
)
    requires
        forall|i: int|
            0 <= i < rids.len() ==> (stored(table, #[trigger] rids[i]) matches Some(row)
                ==> condition(row) == test(row)),
    ensures
        fetched_from(table, meeting_from(table, rids, condition, 0), 0) == rows_under(
            table,
            rids.filter(|rid: RowId| stored(table, rid) matches Some(row) && test(row)),
        ),
{
    tests_keep_what_meets(table, rids, condition);
    filters_agree(
        rids,
        |rid: RowId| stored(table, rid) matches Some(row) && condition(row),
        |rid: RowId| stored(table, rid) matches Some(row) && test(row),
    );
    fetches_read_ids(table, meeting_from(table, rids, condition, 0));
}

proof fn path_plans_lead(
    catalog: CatalogView,
    eval: EvalModel,
    order: OrderModel,
    scan: PlanView,
)
    requires
        is_sound_path_scan(scan),
        catalog.expression_index(path_scanned(scan).0, path_scanned(scan).1) is Some,
        catalog.table(path_scanned(scan).0)->0.schema.column_index(path_scanned(scan).1.column)
            is Some,
    ensures
        ({
            let (table, path) = path_scanned(scan);
            let found = catalog.table(table)->0;
            let index = catalog.expression_index(table, path)->0;
            let columns = found.schema.column_names();
            path_plan_answer(catalog, eval, order, scan, None) == Ok::<
                Option<ResultView>,
                ErrorView,
            >(
                Some(
                    ResultView::Rows {
                        columns,
                        rows: rows_under(
                            found,
                            path_ids(order, index, scan).filter(
                                |rid: RowId|
                                    stored(found, rid) matches Some(row) && passes_bounds(
                                        order,
                                        scan,
                                        eval(path_read(path), row, columns),
                                    ),
                            ),
                        ),
                    },
                ),
            )
        }),
{
    let (table, path) = path_scanned(scan);
    let found = catalog.table(table)->0;
    let index = catalog.expression_index(table, path)->0;
    let columns = found.schema.column_names();
    path_scan_leads(order, index, scan);
    let led = path_scan_of(order, index, scan)->Ok_0;
    assert(path_expr(path) == path_read(path));
    match scan {
        PlanView::ExprRangeScan { start, end, .. } => {
            match start {
                Some((key, _)) => literals_denote(key),
                None => {},
            }
            match end {
                Some((key, _)) => literals_denote(key),
                None => {},
            }
        },
        _ => {},
    }
    tested_ids_read(
        found,
        led.rids,
        path_test(eval, order, found, path, None, led.range),
        |row: Seq<ValueView>|
            passes_bounds(order, scan, eval(path_read(path), row, columns)),
    );
    let test = |row: Seq<ValueView>|
        passes_bounds(order, scan, eval(path_read(path), row, columns));
    filters_agree(
        led.rids,
        |rid: RowId| stored(found, rid) matches Some(row) && test(row),
        |rid: RowId|
            stored(found, rid) matches Some(row) && passes_bounds(
                order,
                scan,
                eval(path_read(path), row, columns),
            ),
    );
}

/// A scan of an index on a JSON path reads the rows that the index leads to, in its
/// order; a range scan takes of them those whose path has a value within the
/// range.
pub proof fn path_scans_answer_what_they_lead_to(
    catalog: CatalogView,
    model: SessionModel,
    scan: PlanView,
    budget: Budget,
)
    requires
        is_sound_path_scan(scan),
        catalog.expression_index(path_scanned(scan).0, path_scanned(scan).1) is Some,
        catalog.table(path_scanned(scan).0)->0.schema.column_index(path_scanned(scan).1.column)
            is Some,
    ensures
        ({
            let (table, path) = path_scanned(scan);
            let found = catalog.table(table)->0;
            let index = catalog.expression_index(table, path)->0;
            let columns = found.schema.column_names();
            answer(catalog, model, scan, budget) == Ok::<(ResultView, Budget), ErrorView>(
                (
                    ResultView::Rows {
                        columns,
                        rows: rows_under(
                            found,
                            path_ids(model.scalars.order, index, scan).filter(
                                |rid: RowId|
                                    stored(found, rid) matches Some(row) && passes_bounds(
                                        model.scalars.order,
                                        scan,
                                        (model.scalars.eval)(path_read(path), row, columns),
                                    ),
                            ),
                        ),
                    },
                    budget,
                ),
            )
        }),
{
    path_plans_lead(catalog, model.scalars.eval, model.scalars.order, scan);
    match scan {
        PlanView::ExprIndexScan { .. } => {
            assert(answer(catalog, model, scan, budget) == path_answer(
                catalog,
                model,
                scan,
                budget,
            ));
        },
        PlanView::ExprRangeScan { .. } => {
            assert(answer(catalog, model, scan, budget) == path_answer(
                catalog,
                model,
                scan,
                budget,
            ));
        },
        PlanView::OrderedExprIndexScan { .. } => {
            assert(answer(catalog, model, scan, budget) == path_answer(
                catalog,
                model,
                scan,
                budget,
            ));
        },
        _ => {},
    }
}

/// The positions of bare columns are those of their names.
pub proof fn bare_columns_are_named(
    table: TableView,
    fields: Seq<ProjectFieldView>,
    i: int,
)
    requires
        0 <= i <= fields.len(),
    ensures
        bare_positions(table, fields, i) matches Ok(ats) ==> ats.len() == fields.len() - i
            && forall|k: int|
            0 <= k < ats.len() ==> is_column(
                table.schema,
                fields[i + k].expr->Field_0,
                #[trigger] ats[k],
            ),
    decreases fields.len() - i,
{
    if i < fields.len() {
        bare_columns_are_named(table, fields, i + 1);
        names_lead_to_columns(table.schema, fields[i].expr->Field_0);
        match (bare_positions(table, fields, i), bare_positions(table, fields, i + 1)) {
            (Ok(all), Ok(rest)) => {
                assert forall|k: int| 0 <= k < all.len() implies is_column(
                    table.schema,
                    fields[i + k].expr->Field_0,
                    #[trigger] all[k],
                ) by {
                    if k > 0 {
                        assert(all[k] == rest[k - 1]);
                        assert(fields[i + 1 + (k - 1)] == fields[i + k]);
                    }
                }
            },
            _ => {},
        }
    }
}

proof fn bare_fields(fields: Seq<ProjectFieldView>, i: int)
    requires
        0 <= i <= fields.len(),
        forall|k: int| 0 <= k < fields.len() ==> (#[trigger] fields[k]).expr is Field,
    ensures
        all_bare(fields, i),
    decreases fields.len() - i,
{
    if i < fields.len() {
        assert(fields[i].expr is Field);
        bare_fields(fields, i + 1);
    }
}

/// Columns projected from a scan of an index on a JSON path: of each row that it
/// leads to, what the row holds in those columns, under their names or aliases. The
/// path is read off its own column alone.
pub proof fn projected_path_scans_answer_columns(
    catalog: CatalogView,
    model: SessionModel,
    scan: PlanView,
    fields: Seq<ProjectFieldView>,
    budget: Budget,
)
    requires
        is_sound_path_scan(scan),
        catalog.expression_index(path_scanned(scan).0, path_scanned(scan).1) is Some,
        catalog.table(path_scanned(scan).0)->0.schema.column_index(path_scanned(scan).1.column)
            is Some,
        forall|k: int| 0 <= k < fields.len() ==> (#[trigger] fields[k]).expr is Field,
        answer(
            catalog,
            model,
            PlanView::Project { input: Box::new(scan), fields },
            budget,
        ) is Ok,
    ensures
        ({
            let (table, path) = path_scanned(scan);
            let found = catalog.table(table)->0;
            let index = catalog.expression_index(table, path)->0;
            answer(
                catalog,
                model,
                PlanView::Project { input: Box::new(scan), fields },
                budget,
            ) == Ok::<(ResultView, Budget), ErrorView>(
                (
                    ResultView::Rows {
                        columns: fields.map_values(
                            |field: ProjectFieldView|
                                match field.alias {
                                    Some(alias) => alias,
                                    None => field.expr->Field_0,
                                },
                        ),
                        rows: rows_under(
                            found,
                            path_ids(model.scalars.order, index, scan).filter(
                                |rid: RowId|
                                    stored(found, rid) matches Some(row) && passes_bounds(
                                        model.scalars.order,
                                        scan,
                                        (model.scalars.eval)(
                                            path_read(path),
                                            seq![held(found.schema, row, path.column)],
                                            seq![path.column],
                                        ),
                                    ),
                            ),
                        ).map_values(
                            |row: Seq<ValueView>|
                                fields.map_values(
                                    |field: ProjectFieldView|
                                        held(found.schema, row, field.expr->Field_0),
                                ),
                        ),
                    },
                    budget,
                ),
            )
        }),
{
    let (table, path) = path_scanned(scan);
    let found = catalog.table(table)->0;
    let index = catalog.expression_index(table, path)->0;
    let (eval, order) = (model.scalars.eval, model.scalars.order);
    path_scan_leads(order, index, scan);
    let led = path_scan_of(order, index, scan)->Ok_0;
    bare_fields(fields, 0);
    bare_columns_are_named(found, fields, 0);
    names_lead_to_columns(found.schema, path.column);
    let root = found.schema.column_index(path.column)->0;
    match scan {
        PlanView::ExprRangeScan { start, end, .. } => {
            match start {
                Some((key, _)) => literals_denote(key),
                None => {},
            }
            match end {
                Some((key, _)) => literals_denote(key),
                None => {},
            }
        },
        _ => {},
    }
    let condition = path_test(eval, order, found, path, Some(root), led.range);
    let test = |row: Seq<ValueView>|
        passes_bounds(
            order,
            scan,
            eval(path_read(path), seq![held(found.schema, row, path.column)], seq![path.column]),
        );
    assert forall|i: int| 0 <= i < led.rids.len() implies (stored(
        found,
        #[trigger] led.rids[i],
    ) matches Some(row) ==> condition(row) == test(row)) by {
        match stored(found, led.rids[i]) {
            Some(row) => columns_are_found(found.schema, row, path.column, root),
            None => {},
        }
    }
    tested_ids_read(found, led.rids, condition, test);
    filters_agree(
        led.rids,
        |rid: RowId| stored(found, rid) matches Some(row) && test(row),
        |rid: RowId|
            stored(found, rid) matches Some(row) && passes_bounds(
                order,
                scan,
                eval(
                    path_read(path),
                    seq![held(found.schema, row, path.column)],
                    seq![path.column],
                ),
            ),
    );
    let positions = bare_positions(found, fields, 0)->Ok_0;
    let rows = fetched_from(found, meeting_from(found, led.rids, condition, 0), 0);
    let made = projected(rows, positions);
    let stated = rows.map_values(
        |row: Seq<ValueView>|
            fields.map_values(
                |field: ProjectFieldView| held(found.schema, row, field.expr->Field_0),
            ),
    );
    assert forall|r: int| 0 <= r < rows.len() implies #[trigger] made[r] == stated[r] by {
        assert forall|k: int| 0 <= k < fields.len() implies #[trigger] made[r][k]
            == stated[r][k] by {
            assert(is_column(found.schema, fields[0 + k].expr->Field_0, positions[k]));
            columns_are_found(found.schema, rows[r], fields[k].expr->Field_0, positions[k]);
        }
        assert(made[r] =~= stated[r]);
    }
    assert(made =~= stated);
    assert(bare_names(fields) =~= fields.map_values(
        |field: ProjectFieldView|
            match field.alias {
                Some(alias) => alias,
                None => field.expr->Field_0,
            },
    ));
}

} // verus!
