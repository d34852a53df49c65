//! What deleting rows takes away, leaves and returns.

use vstd::prelude::*;

use crate::aggregate::RowId;
use crate::catalog::{
    first_on_path, has_rid, CatalogView, ExpressionIndexMetaView, IndexEntryView, StoredRowView,
    TableView,
};
use crate::engine::{replied, statement_decision, EngineModel, EngineState};
use crate::error::{Budget, ErrorView, ResultView};
use crate::expr::ExprView;
use crate::index::{
    between_from, bound_inclusive, bound_value, column_within, entry_ids, fetched_from,
    found_table_agrees, holding_ids, ids_hold, indexes_agree, lookup_from, meeting_from,
    name_rows, own_id_is_found, path_index_holds, path_lookup_from, row_ids, scan_rids,
    unique_from,
};
use crate::lower::{in_range, index_scan_table, literal_of};
use crate::mutate::{delete_decision, equal_rids_from, kept_rids_from, mutation_rids, then_dirty};
use crate::operators::contains_after_push;
use crate::plan::{PlanView, StoredJsonPathView};
use crate::scalars::{total_order, EvalModel, Order, OrderModel};
use crate::seqs::{first_where, first_where_found, is_name};
use crate::session::SessionModel;
use crate::storage::{DecisionView, ReplyView, StorageOpView};
use crate::value::ValueView;

verus! {

/// Deleting with and without returning the rows comes to the same steps and
/// leaves the same budget; with returning, the answer is what the rows held, and
/// without, how many there were. The one fails where the other fails.
pub proof fn deletes_agree(
    catalog: CatalogView,
    model: SessionModel,
    input: PlanView,
    table: Seq<char>,
    budget: Budget,
)
    ensures
        match (
            delete_decision(catalog, model, input, table, true, budget),
            delete_decision(catalog, model, input, table, false, budget),
        ) {
            (
                Ok((DecisionView::Write { ops, reply }, left)),
                Ok((DecisionView::Write { ops: silent_ops, reply: silent }, silent_left)),
            ) => {
                let found = catalog.table(table)->0;
                let rids = mutation_rids(catalog, model, input, table, budget)->Ok_0.0;
                &&& ops == silent_ops
                &&& left == silent_left
                &&& ops == then_dirty(seq![StorageOpView::Delete { table, rids }], table)
                &&& reply == (ReplyView::Fixed {
                    result: ResultView::Rows {
                        columns: found.schema.column_names(),
                        rows: fetched_from(found, rids, 0),
                    },
                })
                &&& silent is Deleted
            },
            (Err(error), Err(silent)) => error == silent,
            _ => false,
        },
{
}

/// The rows that are left when those of these ids are deleted.
pub open spec fn rows_left(rows: Seq<StoredRowView>, rids: Seq<RowId>) -> Seq<StoredRowView>
    decreases rows.len(),
{
    if rows.len() == 0 {
        Seq::empty()
    } else {
        let rest = rows_left(rows.drop_last(), rids);
        if rids.contains(rows.last().rid) {
            rest
        } else {
            rest.push(rows.last())
        }
    }
}

/// What is deleted is what is returned: a row for each id, with the values that
/// it held, and as many as the table has fewer afterwards.
pub proof fn deleted_rows_are_returned(table: TableView, rids: Seq<RowId>)
    requires
        row_ids(table).no_duplicates(),
        name_rows(table, rids),
    ensures
        fetched_from(table, rids, 0).len() == rids.len(),
        forall|k: int|
            0 <= k < rids.len() ==> Some(#[trigger] fetched_from(table, rids, 0)[k]) == table.get(
                rids[k],
            ),
        rows_left(table.rows, rids).len() + rids.len() == table.rows.len(),
{
    fetched_all(table, rids, 0);
    let ids = row_ids(table);
    assert forall|k: int| 0 <= k < rids.len() implies ids.contains(#[trigger] rids[k]) by {
        first_where_found(table.rows, has_rid(rids[k]));
        let i = first_where(table.rows, has_rid(rids[k]))->0;
        assert(ids[i] == rids[k]);
    }
    left_count(table.rows, rids);
}

/// A row is left if and only if its id is not among those that are deleted.
pub proof fn other_rows_are_left(rows: Seq<StoredRowView>, rids: Seq<RowId>, row: StoredRowView)
    ensures
        rows_left(rows, rids).contains(row) <==> rows.contains(row) && !rids.contains(row.rid),
    decreases rows.len(),
{
    if rows.len() > 0 {
        let less = rows.drop_last();
        let last = rows.last();
        let rest = rows_left(less, rids);
        other_rows_are_left(less, rids, row);
        assert(rows.contains(row) <==> less.contains(row) || row == last) by {
            if less.contains(row) {
                let i = choose|i: int| 0 <= i < less.len() && less[i] == row;
                assert(rows[i] == row);
            }
            if row == last {
                assert(rows[rows.len() - 1] == row);
            }
            if rows.contains(row) {
                let i = choose|i: int| 0 <= i < rows.len() && rows[i] == row;
                if i < less.len() {
                    assert(less[i] == row);
                }
            }
        }
        contains_after_push(rest, last);
    }
}

proof fn fetched_all(table: TableView, rids: Seq<RowId>, i: int)
    requires
        0 <= i <= rids.len(),
        name_rows(table, rids),
    ensures
        fetched_from(table, rids, i).len() == rids.len() - i,
        forall|k: int|
            0 <= k < rids.len() - i ==> Some(#[trigger] fetched_from(table, rids, i)[k])
                == table.get(rids[i + k]),
    decreases rids.len() - i,
{
    if i < rids.len() {
        fetched_all(table, rids, i + 1);
        let rest = fetched_from(table, rids, i + 1);
        let all = fetched_from(table, rids, i);
        assert(table.get(rids[i]) is Some);
        assert forall|k: int| 0 <= k < rids.len() - i implies Some(#[trigger] all[k]) == table.get(
            rids[i + k],
        ) by {
            if k > 0 {
                assert(all[k] == rest[k - 1]);
                assert(rids[i + 1 + (k - 1)] == rids[i + k]);
            }
        }
    }
}

proof fn left_count(rows: Seq<StoredRowView>, rids: Seq<RowId>)
    requires
        Seq::new(rows.len(), |i: int| rows[i].rid).no_duplicates(),
        rids.no_duplicates(),
        forall|k: int|
            0 <= k < rids.len() ==> Seq::new(rows.len(), |i: int| rows[i].rid).contains(
                #[trigger] rids[k],
            ),
    ensures
        rows_left(rows, rids).len() + rids.len() == rows.len(),
    decreases rows.len(),
{
    let ids = Seq::new(rows.len(), |i: int| rows[i].rid);
    if rows.len() == 0 {
        if rids.len() > 0 {
            assert(ids.contains(rids[0]));
        }
    } else {
        let less = rows.drop_last();
        let last = rows.last().rid;
        let less_ids = Seq::new(less.len(), |i: int| less[i].rid);
        assert(less_ids =~= ids.drop_last());
        assert(ids[rows.len() - 1] == last);
        if rids.contains(last) {
            let at = choose|k: int| 0 <= k < rids.len() && rids[k] == last;
            let fewer = rids.remove(at);
            assert forall|a: int, b: int|
                0 <= a < fewer.len() && 0 <= b < fewer.len() && a != b implies fewer[a]
                != fewer[b] by {
                let x = if a < at { a } else { a + 1 };
                let y = if b < at { b } else { b + 1 };
                assert(fewer[a] == rids[x] && fewer[b] == rids[y]);
            }
            assert forall|k: int| 0 <= k < fewer.len() implies less_ids.contains(
                #[trigger] fewer[k],
            ) by {
                let x = if k < at { k } else { k + 1 };
                assert(fewer[k] == rids[x]);
                assert(ids.contains(rids[x]));
                let i = choose|i: int| 0 <= i < ids.len() && ids[i] == rids[x];
                assert(i != rows.len() - 1);
                assert(less_ids[i] == fewer[k]);
            }
            left_count(less, fewer);
            assert forall|i: int| 0 <= i < less.len() implies (#[trigger] less[i]).rid != last by {
                assert(ids[i] == less[i].rid);
                assert(ids[i] != ids[rows.len() - 1]);
            }
            same_left(less, rids, fewer, last, at);
        } else {
            assert forall|k: int| 0 <= k < rids.len() implies less_ids.contains(
                #[trigger] rids[k],
            ) by {
                assert(ids.contains(rids[k]));
                let i = choose|i: int| 0 <= i < ids.len() && ids[i] == rids[k];
                assert(i != rows.len() - 1);
                assert(less_ids[i] == rids[k]);
            }
            left_count(less, rids);
        }
    }
}

/// An id that no row has makes no difference to what is left.
proof fn same_left(
    rows: Seq<StoredRowView>,
    rids: Seq<RowId>,
    fewer: Seq<RowId>,
    gone: RowId,
    at: int,
)
    requires
        0 <= at < rids.len(),
        rids[at] == gone,
        fewer == rids.remove(at),
        forall|i: int| 0 <= i < rows.len() ==> (#[trigger] rows[i]).rid != gone,
    ensures
        rows_left(rows, rids) == rows_left(rows, fewer),
    decreases rows.len(),
{
    if rows.len() > 0 {
        let less = rows.drop_last();
        assert forall|i: int| 0 <= i < less.len() implies (#[trigger] less[i]).rid != gone by {
            assert(rows[i] == less[i]);
        }
        same_left(less, rids, fewer, gone, at);
        let id = rows.last().rid;
        assert(rows[rows.len() - 1].rid != gone);
        if rids.contains(id) {
            let k = choose|k: int| 0 <= k < rids.len() && rids[k] == id;
            let x = if k < at { k } else { k - 1 };
            assert(fewer[x] == id);
        }
        if fewer.contains(id) {
            let k = choose|k: int| 0 <= k < fewer.len() && fewer[k] == id;
            let x = if k < at { k } else { k + 1 };
            assert(rids[x] == id);
        }
    }
}

/// Ids taken, each once, from a list from position `i` on.
spec fn drawn(sub: Seq<RowId>, all: Seq<RowId>, i: int) -> bool {
    &&& sub.no_duplicates()
    &&& forall|k: int|
        0 <= k < sub.len() ==> exists|j: int| i <= j < all.len() && all[j] == #[trigger] sub[k]
}

proof fn drawn_on(rest: Seq<RowId>, all: Seq<RowId>, i: int)
    requires
        all.no_duplicates(),
        0 <= i < all.len(),
        drawn(rest, all, i + 1),
    ensures
        drawn(rest, all, i),
        drawn(seq![all[i]] + rest, all, i),
{
    let more = seq![all[i]] + rest;
    assert forall|k: int| 0 <= k < rest.len() implies exists|j: int|
        i <= j < all.len() && all[j] == #[trigger] rest[k] by {
        let j = choose|j: int| i + 1 <= j < all.len() && all[j] == rest[k];
        assert(i <= j < all.len() && all[j] == rest[k]);
    }
    assert forall|k: int| 0 <= k < more.len() implies exists|j: int|
        i <= j < all.len() && all[j] == #[trigger] more[k] by {
        if k == 0 {
            assert(all[i] == more[0]);
        } else {
            assert(more[k] == rest[k - 1]);
            let j = choose|j: int| i + 1 <= j < all.len() && all[j] == rest[k - 1];
            assert(i <= j < all.len() && all[j] == more[k]);
        }
    }
    assert forall|a: int, b: int| 0 <= a < more.len() && 0 <= b < more.len() && a != b implies more[a]
        != more[b] by {
        if a > 0 {
            assert(more[a] == rest[a - 1]);
        }
        if b > 0 {
            assert(more[b] == rest[b - 1]);
        }
        if a == 0 {
            let j = choose|j: int| i + 1 <= j < all.len() && all[j] == rest[b - 1];
            assert(all[j] != all[i]);
        } else if b == 0 {
            let j = choose|j: int| i + 1 <= j < all.len() && all[j] == rest[a - 1];
            assert(all[j] != all[i]);
        }
    }
}

proof fn drawn_name_rows(table: TableView, sub: Seq<RowId>, all: Seq<RowId>)
    requires
        drawn(sub, all, 0),
        name_rows(table, all),
    ensures
        name_rows(table, sub),
{
    assert forall|k: int| 0 <= k < sub.len() implies table.get(#[trigger] sub[k]) is Some by {
        let j = choose|j: int| 0 <= j < all.len() && all[j] == sub[k];
        assert(table.get(all[j]) is Some);
    }
}

proof fn lookup_drawn(entries: Seq<IndexEntryView>, key: ValueView, i: int)
    requires
        0 <= i,
        entry_ids(entries).no_duplicates(),
    ensures
        drawn(lookup_from(entries, key, i), entry_ids(entries), i),
    decreases entries.len() - i,
{
    if i < entries.len() {
        lookup_drawn(entries, key, i + 1);
        drawn_on(lookup_from(entries, key, i + 1), entry_ids(entries), i);
    }
}

proof fn path_lookup_drawn(order: OrderModel, entries: Seq<IndexEntryView>, key: ValueView, i: int)
    requires
        0 <= i,
        entry_ids(entries).no_duplicates(),
    ensures
        drawn(path_lookup_from(order, entries, key, i), entry_ids(entries), i),
    decreases entries.len() - i,
{
    if i < entries.len() {
        path_lookup_drawn(order, entries, key, i + 1);
        drawn_on(path_lookup_from(order, entries, key, i + 1), entry_ids(entries), i);
    }
}

proof fn between_drawn(
    order: OrderModel,
    entries: Seq<IndexEntryView>,
    start: Option<ValueView>,
    end: Option<ValueView>,
    i: int,
)
    requires
        0 <= i,
        entry_ids(entries).no_duplicates(),
    ensures
        drawn(between_from(order, entries, start, end, i), entry_ids(entries), i),
    decreases entries.len() - i,
{
    if i < entries.len() {
        between_drawn(order, entries, start, end, i + 1);
        drawn_on(between_from(order, entries, start, end, i + 1), entry_ids(entries), i);
    }
}

proof fn unique_drawn(
    order: OrderModel,
    entries: Seq<IndexEntryView>,
    start: Option<ValueView>,
    start_inclusive: bool,
    end: Option<ValueView>,
    end_inclusive: bool,
    i: int,
)
    requires
        0 <= i,
        entry_ids(entries).no_duplicates(),
    ensures
        drawn(
            unique_from(order, entries, start, start_inclusive, end, end_inclusive, i),
            entry_ids(entries),
            i,
        ),
    decreases entries.len() - i,
{
    if i < entries.len() {
        unique_drawn(order, entries, start, start_inclusive, end, end_inclusive, i + 1);
        drawn_on(
            unique_from(order, entries, start, start_inclusive, end, end_inclusive, i + 1),
            entry_ids(entries),
            i,
        );
    }
}

proof fn meeting_drawn(
    table: TableView,
    rids: Seq<RowId>,
    condition: spec_fn(Seq<ValueView>) -> bool,
    i: int,
)
    requires
        0 <= i,
        rids.no_duplicates(),
    ensures
        drawn(meeting_from(table, rids, condition, i), rids, i),
    decreases rids.len() - i,
{
    if i < rids.len() {
        meeting_drawn(table, rids, condition, i + 1);
        drawn_on(meeting_from(table, rids, condition, i + 1), rids, i);
    }
}

proof fn kept_drawn(eval: EvalModel, predicate: Option<ExprView>, table: TableView, i: int)
    requires
        0 <= i,
        row_ids(table).no_duplicates(),
    ensures
        drawn(kept_rids_from(eval, predicate, table, i), row_ids(table), i),
    decreases table.rows.len() - i,
{
    if i < table.rows.len() {
        kept_drawn(eval, predicate, table, i + 1);
        drawn_on(kept_rids_from(eval, predicate, table, i + 1), row_ids(table), i);
    }
}

proof fn equal_drawn(table: TableView, rows: Seq<Seq<ValueView>>, i: int)
    requires
        0 <= i,
        row_ids(table).no_duplicates(),
    ensures
        drawn(equal_rids_from(table, rows, i), row_ids(table), i),
    decreases table.rows.len() - i,
{
    if i < table.rows.len() {
        equal_drawn(table, rows, i + 1);
        drawn_on(equal_rids_from(table, rows, i + 1), row_ids(table), i);
    }
}

proof fn own_ids_name_rows(table: TableView)
    requires
        row_ids(table).no_duplicates(),
    ensures
        name_rows(table, row_ids(table)),
{
    let ids = row_ids(table);
    assert forall|k: int| 0 <= k < ids.len() implies table.get(#[trigger] ids[k]) is Some by {
        assert(has_rid(ids[k])(table.rows[k]));
        first_where_found(table.rows, has_rid(ids[k]));
    }
}

proof fn path_index_is_listed(indexes: Seq<ExpressionIndexMetaView>, path: StoredJsonPathView)
    ensures
        first_on_path(indexes, path) matches Some(index) ==> indexes.contains(index),
    decreases indexes.len(),
{
    if indexes.len() > 0 {
        let less = indexes.drop_last();
        path_index_is_listed(less, path);
        match first_on_path(less, path) {
            Some(index) => {
                let i = choose|i: int| 0 <= i < less.len() && less[i] == index;
                assert(indexes[i] == index);
            },
            None => {
                assert(indexes[indexes.len() - 1] == indexes.last());
            },
        }
    }
}

proof fn scans_name_rows(
    catalog: CatalogView,
    eval: EvalModel,
    order: OrderModel,
    scan: PlanView,
    table: Seq<char>,
)
    requires
        catalog.table(table) matches Some(found) ==> ids_hold(found),
        scan matches PlanView::IndexScan { table: t, .. } ==> t == table,
        scan matches PlanView::RangeScan { table: t, .. } ==> t == table,
        scan matches PlanView::ExprIndexScan { table: t, .. } ==> t == table,
        scan matches PlanView::ExprRangeScan { table: t, .. } ==> t == table,
    ensures
        scan_rids(catalog, eval, order, scan) matches Ok(Some(rids)) ==> catalog.table(
            table,
        ) is Some && name_rows(catalog.table(table)->0, rids),
{
    if catalog.table(table) is Some {
        let found = catalog.table(table)->0;
        assert forall|entries: Seq<IndexEntryView>, key: ValueView|
            name_rows(found, entry_ids(entries)) implies name_rows(
            found,
            #[trigger] lookup_from(entries, key, 0),
        ) by {
            lookup_drawn(entries, key, 0);
            drawn_name_rows(found, lookup_from(entries, key, 0), entry_ids(entries));
        }
        assert forall|entries: Seq<IndexEntryView>, key: ValueView|
            name_rows(found, entry_ids(entries)) implies name_rows(
            found,
            #[trigger] path_lookup_from(order, entries, key, 0),
        ) by {
            path_lookup_drawn(order, entries, key, 0);
            drawn_name_rows(found, path_lookup_from(order, entries, key, 0), entry_ids(entries));
        }
        assert forall|entries: Seq<IndexEntryView>, s: Option<ValueView>, e: Option<ValueView>|
            name_rows(found, entry_ids(entries)) implies name_rows(
            found,
            #[trigger] between_from(order, entries, s, e, 0),
        ) by {
            between_drawn(order, entries, s, e, 0);
            drawn_name_rows(found, between_from(order, entries, s, e, 0), entry_ids(entries));
        }
        assert forall|
            entries: Seq<IndexEntryView>,
            s: Option<ValueView>,
            si: bool,
            e: Option<ValueView>,
            ei: bool,
        |
            name_rows(found, entry_ids(entries)) implies name_rows(
            found,
            #[trigger] unique_from(order, entries, s, si, e, ei, 0),
        ) by {
            unique_drawn(order, entries, s, si, e, ei, 0);
            drawn_name_rows(found, unique_from(order, entries, s, si, e, ei, 0), entry_ids(entries));
        }
        assert forall|rids: Seq<RowId>, condition: spec_fn(Seq<ValueView>) -> bool|
            name_rows(found, rids) implies name_rows(
            found,
            #[trigger] meeting_from(found, rids, condition, 0),
        ) by {
            meeting_drawn(found, rids, condition, 0);
            drawn_name_rows(found, meeting_from(found, rids, condition, 0), rids);
        }
        match scan {
            PlanView::IndexScan { column, .. } => index_holds(catalog, table, column),
            PlanView::RangeScan { column, .. } => index_holds(catalog, table, column),
            PlanView::ExprIndexScan { path, .. } => path_holds(catalog, table, path),
            PlanView::ExprRangeScan { path, .. } => path_holds(catalog, table, path),
            _ => {},
        }
    }
}

proof fn index_holds(catalog: CatalogView, table: Seq<char>, column: Seq<char>)
    requires
        catalog.table(table) matches Some(found) && ids_hold(found),
    ensures
        catalog.index(table, column) matches Some(index) ==> name_rows(
            catalog.table(table)->0,
            entry_ids(index.entries),
        ),
{
    let found = catalog.table(table)->0;
    let columns = Seq::new(found.indexes.len(), |i: int| found.indexes[i].column);
    first_where_found(columns, is_name(column));
    match found.index_on(column) {
        Some(i) => {
            assert(name_rows(found, entry_ids(found.indexes[i].entries)));
        },
        None => {},
    }
}

proof fn path_holds(catalog: CatalogView, table: Seq<char>, path: StoredJsonPathView)
    requires
        catalog.table(table) matches Some(found) && ids_hold(found),
    ensures
        catalog.expression_index(table, path) matches Some(index) ==> path_index_holds(
            catalog.table(table)->0,
            index,
        ),
{
    let found = catalog.table(table)->0;
    path_index_is_listed(found.expression_indexes, path);
    match catalog.expression_index(table, path) {
        Some(index) => {
            let i = choose|i: int|
                0 <= i < found.expression_indexes.len() && found.expression_indexes[i] == index;
            assert(path_index_holds(found, found.expression_indexes[i]));
        },
        None => {},
    }
}

/// What a statement changes are rows of its table, each once, whatever way they
/// are found.
pub proof fn changes_name_rows(
    catalog: CatalogView,
    model: SessionModel,
    input: PlanView,
    table: Seq<char>,
    budget: Budget,
)
    requires
        catalog.table(table) matches Some(found) ==> ids_hold(found),
    ensures
        mutation_rids(catalog, model, input, table, budget) matches Ok((rids, _)) ==> catalog.table(
            table,
        ) is Some && name_rows(catalog.table(table)->0, rids),
{
    let eval = model.scalars.eval;
    let order = model.scalars.order;
    if index_scan_table(input) == Some(table) {
        scans_name_rows(catalog, eval, order, input, table);
    }
    match input {
        PlanView::Filter { input: inner, .. } => {
            if index_scan_table(*inner) == Some(table) {
                scans_name_rows(catalog, eval, order, *inner, table);
            }
        },
        _ => {},
    }
    if catalog.table(table) is Some {
        let found = catalog.table(table)->0;
        own_ids_name_rows(found);
        assert forall|predicate: Option<ExprView>| name_rows(
            found,
            #[trigger] kept_rids_from(eval, predicate, found, 0),
        ) by {
            kept_drawn(eval, predicate, found, 0);
            drawn_name_rows(found, kept_rids_from(eval, predicate, found, 0), row_ids(found));
        }
        assert forall|rows: Seq<Seq<ValueView>>| name_rows(
            found,
            #[trigger] equal_rids_from(found, rows, 0),
        ) by {
            equal_drawn(found, rows, 0);
            drawn_name_rows(found, equal_rids_from(found, rows, 0), row_ids(found));
        }
        assert forall|rids: Seq<RowId>, condition: spec_fn(Seq<ValueView>) -> bool|
            name_rows(found, rids) implies name_rows(
            found,
            #[trigger] meeting_from(found, rids, condition, 0),
        ) by {
            meeting_drawn(found, rids, condition, 0);
            drawn_name_rows(found, meeting_from(found, rids, condition, 0), rids);
        }
        match input {
            PlanView::IndexScan { column, .. } => {
                index_holds(catalog, table, column);
                assert forall|entries: Seq<IndexEntryView>, key: ValueView|
                    name_rows(found, entry_ids(entries)) implies name_rows(
                    found,
                    #[trigger] lookup_from(entries, key, 0),
                ) by {
                    lookup_drawn(entries, key, 0);
                    drawn_name_rows(found, lookup_from(entries, key, 0), entry_ids(entries));
                }
            },
            _ => {},
        }
    }
}

/// The rows that a delete returns are those that it removes: one for each id
/// that is deleted, with what the row of that id held, and the table has that
/// many rows fewer afterwards.
pub proof fn deletes_return_what_they_remove(
    catalog: CatalogView,
    model: SessionModel,
    input: PlanView,
    table: Seq<char>,
    budget: Budget,
)
    requires
        catalog.table(table) matches Some(found) ==> ids_hold(found),
    ensures
        delete_decision(catalog, model, input, table, true, budget) matches Ok(
            (DecisionView::Write { ops, reply }, _),
        ) ==> {
            let found = catalog.table(table)->0;
            let rids = mutation_rids(catalog, model, input, table, budget)->Ok_0.0;
            &&& ops[0] == (StorageOpView::Delete { table, rids })
            &&& reply matches ReplyView::Fixed { result: ResultView::Rows { columns: _, rows } }
                && rows.len() == rids.len() && (forall|k: int|
                0 <= k < rows.len() ==> Some(#[trigger] rows[k]) == found.get(rids[k]))
                && rows_left(found.rows, rids).len() + rows.len() == found.rows.len()
        },
{
    changes_name_rows(catalog, model, input, table, budget);
    match (catalog.table(table), mutation_rids(catalog, model, input, table, budget)) {
        (Some(found), Ok((rids, _))) => deleted_rows_are_returned(found, rids),
        _ => {},
    }
}

/// An id is listed where it comes first or among the rest.
proof fn listed_next(rid: RowId, first: RowId, rest: Seq<RowId>)
    ensures
        (seq![first] + rest).contains(rid) <==> rid == first || rest.contains(rid),
{
    let all = seq![first] + rest;
    if all.contains(rid) {
        let k = choose|k: int| 0 <= k < all.len() && all[k] == rid;
        if k > 0 {
            assert(rest[k - 1] == rid);
        }
    }
    if rid == first {
        assert(all[0] == rid);
    }
    if rest.contains(rid) {
        let k = choose|k: int| 0 <= k < rest.len() && rest[k] == rid;
        assert(all[k + 1] == rid);
    }
}

/// A row is among those that hold a key if and only if it holds it.
proof fn holders_are_listed(table: TableView, column: int, key: ValueView, i: int, r: int)
    requires
        row_ids(table).no_duplicates(),
        0 <= i <= table.rows.len(),
        0 <= r < table.rows.len(),
    ensures
        holding_ids(table.rows, column, key, i).contains(table.rows[r].rid) <==> i <= r
            && table.rows[r].values[column] == key,
    decreases table.rows.len() - i,
{
    if i < table.rows.len() {
        holders_are_listed(table, column, key, i + 1, r);
        let ids = row_ids(table);
        assert(ids[i] == table.rows[i].rid && ids[r] == table.rows[r].rid);
        listed_next(
            table.rows[r].rid,
            table.rows[i].rid,
            holding_ids(table.rows, column, key, i + 1),
        );
    }
}

/// An id that is found under a key stands in an entry with that key.
proof fn found_in_entry(entries: Seq<IndexEntryView>, key: ValueView, i: int, rid: RowId) -> (at: int)
    requires
        0 <= i <= entries.len(),
        lookup_from(entries, key, i).contains(rid),
    ensures
        i <= at < entries.len(),
        entries[at].key == key,
        entries[at].rid == rid,
    decreases entries.len() - i,
{
    if i < entries.len() {
        if entries[i].key == key {
            listed_next(rid, entries[i].rid, lookup_from(entries, key, i + 1));
            if rid == entries[i].rid {
                i
            } else {
                found_in_entry(entries, key, i + 1, rid)
            }
        } else {
            found_in_entry(entries, key, i + 1, rid)
        }
    } else {
        i
    }
}

proof fn between_lists(
    order: OrderModel,
    entries: Seq<IndexEntryView>,
    start: Option<ValueView>,
    end: Option<ValueView>,
    i: int,
    at: int,
)
    requires
        0 <= i <= at < entries.len(),
        in_range(order, entries[at].key, start, true, end, true),
    ensures
        between_from(order, entries, start, end, i).contains(entries[at].rid),
    decreases at - i,
{
    let rest = between_from(order, entries, start, end, i + 1);
    listed_next(entries[at].rid, entries[i].rid, rest);
    if i < at {
        between_lists(order, entries, start, end, i + 1, at);
    }
}

proof fn unique_lists(
    order: OrderModel,
    entries: Seq<IndexEntryView>,
    start: Option<ValueView>,
    start_inclusive: bool,
    end: Option<ValueView>,
    end_inclusive: bool,
    i: int,
    at: int,
)
    requires
        total_order(order),
        0 <= i <= at < entries.len(),
        in_range(order, entries[at].key, start, start_inclusive, end, end_inclusive),
    ensures
        unique_from(order, entries, start, start_inclusive, end, end_inclusive, i).contains(
            entries[at].rid,
        ),
    decreases at - i,
{
    let rest = unique_from(order, entries, start, start_inclusive, end, end_inclusive, i + 1);
    let key = entries[at].key;
    listed_next(entries[at].rid, entries[i].rid, rest);
    if i < at {
        unique_lists(order, entries, start, start_inclusive, end, end_inclusive, i + 1, at);
    } else {
        assert(order(key, key) == Order::Equal);
    }
}

proof fn meeting_lists(
    table: TableView,
    rids: Seq<RowId>,
    condition: spec_fn(Seq<ValueView>) -> bool,
    i: int,
    at: int,
)
    requires
        0 <= i <= at < rids.len(),
        table.get(rids[at]) matches Some(row) && condition(row),
    ensures
        meeting_from(table, rids, condition, i).contains(rids[at]),
    decreases at - i,
{
    let rest = meeting_from(table, rids, condition, i + 1);
    listed_next(rids[at], rids[i], rest);
    if i < at {
        meeting_lists(table, rids, condition, i + 1, at);
    }
}

/// An update or delete that looks a key up in an index changes every row that
/// holds the key, and no other.
pub proof fn lookups_miss_no_row(
    catalog: CatalogView,
    model: SessionModel,
    table: Seq<char>,
    column: Seq<char>,
    key: ExprView,
    budget: Budget,
    r: int,
)
    requires
        indexes_agree(catalog),
        catalog.index(table, column) is Some,
        catalog.table(table)->0.schema.column_index(column) is Some,
        literal_of(key) matches Ok(value) && !(value is Empty),
        0 <= r < catalog.table(table)->0.rows.len(),
    ensures
        ({
            let found = catalog.table(table)->0;
            let at = found.schema.column_index(column)->0;
            mutation_rids(
                catalog,
                model,
                PlanView::IndexScan { table, column, key },
                table,
                budget,
            ) matches Ok((rids, _)) && (rids.contains(found.rows[r].rid)
                <==> found.rows[r].values[at] == literal_of(key)->Ok_0)
        }),
{
    let found = catalog.table(table)->0;
    let at = found.schema.column_index(column)->0;
    let value = literal_of(key)->Ok_0;
    found_table_agrees(catalog, table, column);
    let entries = catalog.index(table, column)->0.entries;
    assert(lookup_from(entries, value, 0) == holding_ids(found.rows, at, value, 0));
    holders_are_listed(found, at, value, 0, r);
}

/// An update or delete that looks a range of values up in an index changes every
/// row whose value lies within the range.
pub proof fn ranges_miss_no_row(
    catalog: CatalogView,
    model: SessionModel,
    scan: PlanView,
    budget: Budget,
    r: int,
)
    requires
        total_order(model.scalars.order),
        indexes_agree(catalog),
        scan matches PlanView::RangeScan { table, column, start, end } && catalog.index(
            table,
            column,
        ) is Some && 0 <= r < catalog.table(table)->0.rows.len() && bound_value(start) is Ok
            && bound_value(end) is Ok && (catalog.table(table)->0.schema.column_index(
            column,
        ) matches Some(at) && column_within(
            model.scalars.order,
            at,
            bound_value(start)->Ok_0,
            bound_inclusive(start),
            bound_value(end)->Ok_0,
            bound_inclusive(end),
        )(catalog.table(table)->0.rows[r].values)),
    ensures
        scan_rids(catalog, model.scalars.eval, model.scalars.order, scan) matches Ok(Some(_))
            ==> mutation_rids(catalog, model, scan, scan->RangeScan_table, budget) matches Ok(
            (rids, _),
        ) && rids.contains(catalog.table(scan->RangeScan_table)->0.rows[r].rid),
{
    match scan {
        PlanView::RangeScan { table, column, start, end } => {
            let order = model.scalars.order;
            let found = catalog.table(table)->0;
            let at = found.schema.column_index(column)->0;
            let row = found.rows[r];
            let key = row.values[at];
            let (s, e) = (bound_value(start)->Ok_0, bound_value(end)->Ok_0);
            let index = catalog.index(table, column)->0;
            found_table_agrees(catalog, table, column);
            assert(lookup_from(index.entries, key, 0) == holding_ids(found.rows, at, key, 0));
            holders_are_listed(found, at, key, 0, r);
            let k = found_in_entry(index.entries, key, 0, row.rid);
            if index.unique {
                unique_lists(
                    order,
                    index.entries,
                    s,
                    bound_inclusive(start),
                    e,
                    bound_inclusive(end),
                    0,
                    k,
                );
            } else {
                let between = between_from(order, index.entries, s, e, 0);
                let within = column_within(
                    order,
                    at,
                    s,
                    bound_inclusive(start),
                    e,
                    bound_inclusive(end),
                );
                between_lists(order, index.entries, s, e, 0, k);
                let b = choose|b: int| 0 <= b < between.len() && between[b] == row.rid;
                own_id_is_found(found, r);
                meeting_lists(found, between, within, 0, b);
            }
        },
        _ => {},
    }
}

/// Two statements that delete the same rows, one of which returns them, come to
/// the same steps from the same state: one removes rows of the table, each named
/// once; the one answers with what each of them held, and the other, told by the
/// storage that so many were removed, with how many there are; and the table has
/// that many rows fewer afterwards.
pub proof fn delete_statements_agree(
    state: EngineState,
    model: EngineModel,
    input: PlanView,
    table: Seq<char>,
    budget: Budget,
)
    requires
        indexes_agree(state.catalog),
    ensures
        statement_decision(
            state,
            model,
            PlanView::Delete { input: Box::new(input), table, returning: true },
            budget,
        ) matches Ok((DecisionView::Write { ops, reply }, left)) ==> {
            let found = state.catalog.table(table)->0;
            &&& statement_decision(
                state,
                model,
                PlanView::Delete { input: Box::new(input), table, returning: false },
                budget,
            ) == Ok::<(DecisionView, Budget), ErrorView>(
                (DecisionView::Write { ops, reply: ReplyView::Deleted }, left),
            )
            &&& ops.len() > 0
            &&& ops[0] matches StorageOpView::Delete { table: t, rids }
            &&& t == table
            &&& name_rows(found, rids)
            &&& reply matches ReplyView::Fixed { result: ResultView::Rows { columns: _, rows } }
            &&& rows.len() == rids.len()
            &&& forall|k: int|
                0 <= k < rows.len() ==> Some(#[trigger] rows[k]) == found.get(rids[k])
            &&& rows_left(found.rows, rids).len() + rows.len() == found.rows.len()
            &&& replied(ReplyView::Deleted, Seq::empty(), rows.len() as u64, 0)
                == ResultView::Modified(rows.len() as u64)
        },
{
    found_table_agrees(state.catalog, table, Seq::empty());
    deletes_agree(state.catalog, model.session, input, table, budget);
    deletes_return_what_they_remove(state.catalog, model.session, input, table, budget);
    changes_name_rows(state.catalog, model.session, input, table, budget);
}

} // verus!
