//! What statements over materialized views come to.

use vstd::prelude::*;

use crate::catalog::CatalogView;
use crate::error::{ErrorView, ResultView};
use crate::laws::filtering::images_take_first;
use crate::seqs::{first_where_found, is_name};
use crate::storage::{DecisionView, StorageOpView, ViewDefView};
use crate::value::{TypeId, ValueView};
use crate::views::{
    create_view_decision, dependents_from, dirtied, drop_table_decision, drop_view_decision,
    fill_new_view, is_dirty, refill_view, refresh_view_decision, row_misfit, rows_misfit,
    stale_from, statement_tables, stored_source, types_from, unknown_types, view_at, view_names,
    view_schema, ParseModel, StatementView,
};

verus! {

/// View `v` is the first of this name.
pub open spec fn is_view(views: Seq<ViewDefView>, name: Seq<char>, v: int) -> bool {
    &&& 0 <= v < views.len()
    &&& views[v].name == name
    &&& forall|j: int| 0 <= j < v ==> (#[trigger] views[j]).name != name
}

/// A name leads to the first view of that name.
pub proof fn names_lead_to_views(views: Seq<ViewDefView>, name: Seq<char>)
    ensures
        view_at(views, name) matches Some(v) ==> is_view(views, name, v),
        view_at(views, name) is None ==> forall|v: int|
            0 <= v < views.len() ==> (#[trigger] views[v]).name != name,
{
    let names = view_names(views);
    first_where_found(names, is_name(name));
    match view_at(views, name) {
        Some(v) => {
            assert(names[v] == views[v].name);
            assert forall|j: int| 0 <= j < v implies (#[trigger] views[j]).name != name by {
                assert(!is_name(name)(names[j]));
            }
        },
        None => {
            assert forall|v: int| 0 <= v < views.len() implies (
            #[trigger] views[v]).name != name by {
                assert(!is_name(name)(names[v]));
            }
        },
    }
}

proof fn dependents_filter(views: Seq<ViewDefView>, table: Seq<char>, i: int)
    requires
        0 <= i <= views.len(),
    ensures
        dependents_from(views, table, i) == views.skip(i).filter(
            |view: ViewDefView| view.depends_on.contains(table),
        ).map_values(|view: ViewDefView| view.name),
    decreases views.len() - i,
{
    images_take_first(
        views,
        |view: ViewDefView| view.depends_on.contains(table),
        |view: ViewDefView| view.name,
        i,
    );
    if i < views.len() {
        dependents_filter(views, table, i + 1);
    }
}

/// The dependents of a table are the views that depend on it, in their order; and a
/// change to the table makes those views stale and no other, and nothing else about
/// them changes.
pub proof fn dependents_are_made_stale(views: Seq<ViewDefView>, table: Seq<char>)
    ensures
        dependents_from(views, table, 0) == views.filter(
            |view: ViewDefView| view.depends_on.contains(table),
        ).map_values(|view: ViewDefView| view.name),
        dirtied(views, table) == views.map_values(
            |view: ViewDefView|
                ViewDefView {
                    name: view.name,
                    query: view.query,
                    depends_on: view.depends_on,
                    dirty: view.dirty || view.depends_on.contains(table),
                },
        ),
{
    dependents_filter(views, table, 0);
    assert(views.skip(0) =~= views);
    let stated = views.map_values(
        |view: ViewDefView|
            ViewDefView {
                name: view.name,
                query: view.query,
                depends_on: view.depends_on,
                dirty: view.dirty || view.depends_on.contains(table),
            },
    );
    assert(dirtied(views, table) =~= stated);
}

/// The tables of a query are its source and what it joins, and those of a union the
/// tables of both its sides.
pub proof fn statements_read_their_tables(
    source: Seq<char>,
    joins: Seq<Seq<char>>,
    left: StatementView,
    right: StatementView,
)
    ensures
        statement_tables(StatementView::Query { source, joins }).len() == joins.len() + 1,
        statement_tables(StatementView::Query { source, joins })[0] == source,
        statement_tables(StatementView::Query { source, joins }).skip(1) == joins,
        statement_tables(
            StatementView::Union { left: Box::new(left), right: Box::new(right) },
        ).to_set() == statement_tables(left).to_set() + statement_tables(right).to_set(),
{
    let query = StatementView::Query { source, joins };
    assert(statement_tables(query).skip(1) =~= joins);
    let (a, b) = (statement_tables(left), statement_tables(right));
    let both = StatementView::Union { left: Box::new(left), right: Box::new(right) };
    assert(statement_tables(both) == a + b);
    assert forall|t: Seq<char>| (a + b).to_set().contains(t) <==> (a.to_set()
        + b.to_set()).contains(t) by {
        if a.contains(t) {
            let k = choose|k: int| 0 <= k < a.len() && a[k] == t;
            assert((a + b)[k] == t);
        }
        if b.contains(t) {
            let k = choose|k: int| 0 <= k < b.len() && b[k] == t;
            assert((a + b)[a.len() + k] == t);
        }
    }
    assert((a + b).to_set() =~= a.to_set() + b.to_set());
}

/// A view is declared by running its source, unless there is one of its name; it is
/// refreshed by running the source that it is stored with, and dropped with its
/// table.
pub proof fn views_are_kept_by_name(
    views: Seq<ViewDefView>,
    parser: ParseModel,
    name: Seq<char>,
    query: Seq<char>,
    v: int,
)
    ensures
        (forall|k: int| 0 <= k < views.len() ==> (#[trigger] views[k]).name != name)
            ==> create_view_decision(views, name, query) == Ok::<DecisionView, ErrorView>(
            DecisionView::RunSource { view: name, query, create: true },
        ) && refresh_view_decision(views, parser, name) is Err && drop_view_decision(views, name)
            is Err,
        is_view(views, name, v) ==> {
            &&& create_view_decision(views, name, query) is Err
            &&& refresh_view_decision(views, parser, name) == (match parser(views[v].query) {
                Ok(_) => Ok::<DecisionView, ErrorView>(
                    DecisionView::RunSource { view: name, query: views[v].query, create: false },
                ),
                Err(why) => Err(stored_source(parser, name, views[v].query)->Err_0),
            })
            &&& drop_view_decision(views, name) matches Ok(DecisionView::Write { ops, .. })
            &&& ops == seq![
                StorageOpView::UnregisterView { name },
                StorageOpView::DropTable { name },
            ]
        },
{
    names_lead_to_views(views, name);
    if is_view(views, name, v) {
        match view_at(views, name) {
            Some(w) => {
                if w < v {
                    assert(views[w].name != name);
                } else if v < w {
                    assert(views[v].name != name);
                }
            },
            None => {
                assert(views[v].name != name);
            },
        }
    }
    if forall|k: int| 0 <= k < views.len() ==> (#[trigger] views[k]).name != name {
        match view_at(views, name) {
            Some(w) => {
                assert(views[w].name != name);
            },
            None => {},
        }
    }
}

/// A new view gets a table of the columns of what its source answered, the rows of
/// that, and then its entry among the views, up to date and with the tables that
/// its source reads.
pub proof fn new_views_hold_what_their_source_answered(
    parser: ParseModel,
    in_transaction: bool,
    name: Seq<char>,
    query: Seq<char>,
    columns: Seq<Seq<char>>,
    rows: Seq<Seq<ValueView>>,
    c: int,
)
    ensures
        fill_new_view(
            parser,
            in_transaction,
            name,
            query,
            ResultView::Rows { columns, rows },
        ) matches Ok(decision) ==> {
            &&& decision matches DecisionView::Write { ops, reply: _ }
            &&& parser(query) matches Ok(statement)
            &&& ops.len() == (if in_transaction {
                3int
            } else {
                4
            })
            &&& ops[0] matches StorageOpView::CreateTable { schema, defaults, auto_columns }
            &&& schema.table_name == name
            &&& schema.columns.len() == columns.len()
            &&& defaults.len() == columns.len()
            &&& auto_columns.len() == columns.len()
            &&& 0 <= c < columns.len() ==> {
                &&& schema.columns[c].name == columns[c]
                &&& !schema.columns[c].required
                &&& schema.columns[c].position == c as u16
                &&& defaults[c] is None
                &&& !auto_columns[c]
            }
            &&& ops[1] == (StorageOpView::Insert { table: name, rows })
            &&& !in_transaction ==> ops[2] == StorageOpView::CommitStatement
            &&& ops.last() == (StorageOpView::RegisterView {
                view: ViewDefView {
                    name,
                    query,
                    depends_on: statement_tables(statement),
                    dirty: false,
                },
            })
        },
{
}

/// The values of column `c` of the first rows and the values before it in row `r`
/// have the type that is known of the column, if it is known.
proof fn types_are_seen(
    name: Seq<char>,
    columns: Seq<Seq<char>>,
    rows: Seq<Seq<ValueView>>,
    r: int,
    c: int,
    types: Seq<Option<TypeId>>,
    k: int,
)
    requires
        0 <= r,
        0 <= c,
        types.len() == columns.len(),
        0 <= k < columns.len(),
    ensures
        types_from(name, columns, rows, r, c, types) matches Ok(after) ==> after.len()
            == columns.len() && (types[k] is Some ==> after[k] == types[k]) && (after[k] is Some
            && types[k] is None ==> exists|q: int|
            r <= q < rows.len() && k < (#[trigger] rows[q]).len() && Some(rows[q][k].type_id())
                == after[k] && rows[q][k] != ValueView::Empty),
    decreases rows.len() - r, columns.len() - c,
{
    if r < rows.len() {
        if c >= columns.len() || c >= rows[r].len() {
            types_are_seen(name, columns, rows, r + 1, 0, types, k);
        } else {
            let t = rows[r][c].type_id();
            if t is Empty {
                types_are_seen(name, columns, rows, r, c + 1, types, k);
            } else {
                match types[c] {
                    None => {
                        types_are_seen(
                            name,
                            columns,
                            rows,
                            r,
                            c + 1,
                            types.update(c, Some(t)),
                            k,
                        );
                        if c == k {
                            assert(r <= r < rows.len() && k < rows[r].len());
                        }
                    },
                    Some(known) => {
                        if known == t {
                            types_are_seen(name, columns, rows, r, c + 1, types, k);
                        }
                    },
                }
            }
        }
    }
}

/// The type of a view's column is that of a value that its source answered there;
/// where there is none, the column holds strings.
pub proof fn view_columns_have_the_types_of_their_values(
    name: Seq<char>,
    columns: Seq<Seq<char>>,
    rows: Seq<Seq<ValueView>>,
    c: int,
)
    requires
        0 <= c < columns.len(),
    ensures
        view_schema(name, columns, rows) matches Ok(schema) ==> {
            ||| schema.columns[c].type_id == TypeId::Str
            ||| exists|r: int|
                0 <= r < rows.len() && c < (#[trigger] rows[r]).len() && rows[r][c].type_id()
                    == schema.columns[c].type_id && rows[r][c] != ValueView::Empty
        },
{
    types_are_seen(name, columns, rows, 0, 0, unknown_types(columns.len()), c);
}

proof fn misfits_are_found(
    name: Seq<char>,
    schema: crate::catalog::SchemaView,
    row: Seq<ValueView>,
    c: int,
)
    requires
        0 <= c <= row.len(),
        row.len() == schema.columns.len(),
    ensures
        row_misfit(name, schema, row, c) is None <==> forall|k: int|
            c <= k < row.len() ==> row[k] == ValueView::Empty || (#[trigger] row[k]).type_id()
                == schema.columns[k].type_id,
    decreases row.len() - c,
{
    if c < row.len() {
        misfits_are_found(name, schema, row, c + 1);
        assert(row[c].type_id() is Empty <==> row[c] == ValueView::Empty);
    }
}

proof fn misfit_rows_are_found(
    name: Seq<char>,
    schema: crate::catalog::SchemaView,
    rows: Seq<Seq<ValueView>>,
    r: int,
)
    requires
        0 <= r <= rows.len(),
    ensures
        rows_misfit(name, schema, rows, r) is None <==> forall|q: int|
            r <= q < rows.len() ==> row_fits(schema, #[trigger] rows[q]),
    decreases rows.len() - r,
{
    if r < rows.len() {
        misfit_rows_are_found(name, schema, rows, r + 1);
        if rows[r].len() == schema.columns.len() {
            misfits_are_found(name, schema, rows[r], 0);
        }
    }
}

/// A row has a value for each column, each missing or of the type of its column.
pub open spec fn row_fits(schema: crate::catalog::SchemaView, row: Seq<ValueView>) -> bool {
    &&& row.len() == schema.columns.len()
    &&& forall|k: int|
        0 <= k < row.len() ==> row[k] == ValueView::Empty || (#[trigger] row[k]).type_id()
            == schema.columns[k].type_id
}

/// A view is filled anew if and only if each row fits the table behind it; then the
/// rows that are there are cleared and the new ones stored, and the view is held for
/// up to date.
pub proof fn views_are_refilled_with_what_fits(
    catalog: CatalogView,
    in_transaction: bool,
    name: Seq<char>,
    columns: Seq<Seq<char>>,
    rows: Seq<Seq<ValueView>>,
)
    requires
        catalog.table(name) is Some,
    ensures
        ({
            let schema = catalog.table(name)->0.schema;
            match refill_view(catalog, in_transaction, name, ResultView::Rows { columns, rows }) {
                Ok(decision) => {
                    &&& forall|r: int| 0 <= r < rows.len() ==> row_fits(schema, #[trigger] rows[r])
                    &&& decision matches DecisionView::Write { ops, reply: _ }
                    &&& ops == (if in_transaction {
                        seq![
                            StorageOpView::Clear { table: name },
                            StorageOpView::Insert { table: name, rows },
                            StorageOpView::MarkCleanInMemory { name },
                        ]
                    } else {
                        seq![
                            StorageOpView::Clear { table: name },
                            StorageOpView::Insert { table: name, rows },
                            StorageOpView::CommitStatement,
                            StorageOpView::MarkClean { name },
                        ]
                    })
                },
                Err(_) => exists|r: int|
                    0 <= r < rows.len() && !row_fits(schema, #[trigger] rows[r]),
            }
        }),
{
    let schema = catalog.table(name)->0.schema;
    misfit_rows_are_found(name, schema, rows, 0);
    match refill_view(catalog, in_transaction, name, ResultView::Rows { columns, rows }) {
        Ok(DecisionView::Write { ops, .. }) => {
            if in_transaction {
                assert(ops =~= seq![
                    StorageOpView::Clear { table: name },
                    StorageOpView::Insert { table: name, rows },
                    StorageOpView::MarkCleanInMemory { name },
                ]);
            } else {
                assert(ops =~= seq![
                    StorageOpView::Clear { table: name },
                    StorageOpView::Insert { table: name, rows },
                    StorageOpView::CommitStatement,
                    StorageOpView::MarkClean { name },
                ]);
            }
        },
        _ => {},
    }
}

proof fn stale_comes_first(views: Seq<ViewDefView>, tables: Seq<Seq<char>>, i: int)
    requires
        0 <= i <= tables.len(),
    ensures
        match stale_from(views, tables, i) {
            None => forall|k: int| i <= k < tables.len() ==> !is_dirty(views, #[trigger] tables[k]),
            Some(name) => exists|k: int|
                i <= k < tables.len() && #[trigger] tables[k] == name && is_dirty(views, name)
                    && forall|j: int| i <= j < k ==> !is_dirty(views, #[trigger] tables[j]),
        },
    decreases tables.len() - i,
{
    if i < tables.len() {
        if is_dirty(views, tables[i]) {
            assert(tables[i] == tables[i]);
        } else {
            stale_comes_first(views, tables, i + 1);
            match stale_from(views, tables, i + 1) {
                Some(name) => {
                    let k = choose|k: int|
                        i + 1 <= k < tables.len() && #[trigger] tables[k] == name && is_dirty(
                            views,
                            name,
                        ) && forall|j: int|
                            i + 1 <= j < k ==> !is_dirty(views, #[trigger] tables[j]);
                    assert(tables[k] == name);
                },
                None => {},
            }
        }
    }
}

/// Among tables, the stale view that is found is the first of them that is one: the
/// first view of its name is out of date.
pub proof fn the_first_stale_view_is_found(views: Seq<ViewDefView>, tables: Seq<Seq<char>>)
    ensures
        match stale_from(views, tables, 0) {
            None => forall|k: int, v: int|
                0 <= k < tables.len() && #[trigger] is_view(views, tables[k], v) ==> !views[v].dirty,
            Some(name) => exists|k: int, v: int|
                0 <= k < tables.len() && tables[k] == name && #[trigger] is_view(
                    views,
                    tables[k],
                    v,
                ) && views[v].dirty,
        },
{
    stale_comes_first(views, tables, 0);
    match stale_from(views, tables, 0) {
        None => {
            assert forall|k: int, v: int|
                0 <= k < tables.len() && #[trigger] is_view(views, tables[k], v) implies !(
            views[v].dirty) by {
                names_lead_to_views(views, tables[k]);
                assert(!is_dirty(views, tables[k]));
                match view_at(views, tables[k]) {
                    Some(w) => {
                        if w < v {
                            assert(views[w].name != tables[k]);
                        } else if v < w {
                            assert(views[v].name != tables[k]);
                        }
                    },
                    None => {
                        assert(views[v].name != tables[k]);
                    },
                }
            }
        },
        Some(name) => {
            let k = choose|k: int| 0 <= k < tables.len() && #[trigger] tables[k] == name;
            names_lead_to_views(views, name);
            let v = view_at(views, name)->0;
            assert(is_view(views, tables[k], v) && views[v].dirty);
        },
    }
}

/// Dropping a type drops its table and makes the views over it stale; one that is
/// not there is passed over where that is asked for.
pub proof fn dropped_types_leave_their_views_stale(
    catalog: CatalogView,
    views: Seq<ViewDefView>,
    name: Seq<char>,
    if_exists: bool,
)
    ensures
        match drop_table_decision(catalog, views, name, if_exists) {
            DecisionView::Write { ops, reply: _ } => (if_exists ==> catalog.table(name) is Some)
                && ops == seq![
                StorageOpView::DropTable { name },
                StorageOpView::MarkDependentsDirty { table: name },
            ],
            decision => if_exists && catalog.table(name) is None && decision is Answer,
        },
{
}

} // verus!
