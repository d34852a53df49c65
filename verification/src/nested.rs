//! Nested projections: the rows of another table, as a JSON array in each row of
//! a result.

use vstd::prelude::*;

use crate::aggregate::RowId;
use crate::catalog::{Catalog, CatalogView, SchemaView, Table, TableView};
use crate::coerce::prefixed;
use crate::error::{outcome, Budget, ErrorView, QueryError, QueryResult, ResultView};
use crate::expr::{Expr, ExprView, Literal, LiteralView};
use crate::group::{group_positions, ints, pick, pick_values, short_row_error};
use crate::index::{
    catalog_fits, clamp, fetch_rows, fetched_from, found_table_agrees, found_table_fits,
    holding_ids, index_agrees, indexes_agree, lookup_from, lookup_rids, own_id_is_found,
    project_positions, projected, row_ids, scan_rows, slice, table_fits, table_rows,
};
use crate::json::{json_string, json_value, push_json_string, push_json_value};
use crate::keys::KeyTable;
use crate::links::{child_index_probe_pays_off, probe_pays_off};
use crate::ordering::{row_order, sort_by_keys, sorted_positions};
use crate::plan::{
    nested_field_view, nested_fields_view, nested_view, NestedField, NestedFieldView,
    NestedProjectField, NestedProjectFieldView, NestedProjection, NestedProjectionView,
    ScalarLinkField, ScalarLinkHop, ScalarLinkHopView, ScalarLinkResolved,
};
use crate::scalars::{is_true, EvalModel, FloatOp, Order, OrderModel, Scalars};
use crate::seqs::{
    firsts, firsts_are_distinct, name_position, positions_are_positions, positions_of,
};
use crate::session::{answered_within, hold_charge, Holding, HoldingView, SizeModel, Sizes};
use crate::sort::sorts;
use crate::text::{join, join_texts, position, push_text};
use crate::value::{clone_row, clone_rows, Value, ValueView};
use crate::window::pick_rows;
use crate::wording::{words as worded, Subject, SubjectView, Wording, WordingModel};

verus! {

/// What a nested projection reads: the tables, and how values are computed,
/// ordered, worded and counted.
pub struct NestedScope {
    pub catalog: CatalogView,
    pub eval: EvalModel,
    pub order: OrderModel,
    pub words: WordingModel,
    pub sizes: SizeModel,
}

/// How many keys, at most, each row of a scan is tested against.
pub const SCAN_KEY_FILTER_MAX_KEYS: usize = 1024;

/// The column that a field of a nested projection reads.
pub open spec fn field_column(field: NestedFieldView) -> Seq<char> {
    match field {
        NestedFieldView::Scalar { column, .. } => column,
        NestedFieldView::Nested(inner) => inner.parent_key,
    }
}

/// The name of a field in its object.
pub open spec fn field_name(field: NestedFieldView) -> Seq<char> {
    match field {
        NestedFieldView::Scalar { key, .. } => key,
        NestedFieldView::Nested(inner) => inner.name,
    }
}

/// The columns that a level reads: the key that correlates, those of the
/// fields and those that order.
pub open spec fn level_columns(nested: NestedProjectionView) -> Seq<Seq<char>> {
    seq![nested.child_key] + Seq::new(
        nested.fields.len(),
        |i: int| field_column(nested.fields[i]),
    ) + Seq::new(nested.order.len(), |i: int| nested.order[i].0)
}

/// The positions of the columns from name `i` on; an error for the first that
/// is missing.
pub open spec fn column_positions(
    schema: SchemaView,
    table: Seq<char>,
    names: Seq<Seq<char>>,
    i: int,
) -> Result<Seq<int>, ErrorView>
    decreases names.len() - i,
{
    if i < 0 || i >= names.len() {
        Ok(Seq::empty())
    } else {
        match schema.column_index(names[i]) {
            None => Err(ErrorView::ColumnNotFound { table, column: names[i] }),
            Some(at) => prefixed(seq![at], column_positions(schema, table, names, i + 1)),
        }
    }
}

/// A bound on how many rows each array holds.
pub open spec fn nested_count(name: Seq<char>, what: Seq<char>, bound: Option<ExprView>) -> Result<
    Option<int>,
    ErrorView,
> {
    match bound {
        None => Ok(None),
        Some(ExprView::Literal(LiteralView::Int(n))) => if n >= 0 {
            Ok(Some(n as int))
        } else {
            Err(nested_count_error(name, what))
        },
        Some(_) => Err(nested_count_error(name, what)),
    }
}

/// The error for a bound that is no count.
pub open spec fn nested_count_error(name: Seq<char>, what: Seq<char>) -> ErrorView {
    ErrorView::Execution(
        "nested projection `"@ + name + "` "@ + what
            + " must be a non-negative integer literal"@,
    )
}

/// Why a level of a nested projection is refused, whatever rows there are.
pub open spec fn own_error(catalog: CatalogView, nested: NestedProjectionView) -> Option<ErrorView> {
    match catalog.schema(nested.table) {
        None => Some(ErrorView::TableNotFound(nested.table)),
        Some(schema) => match column_positions(schema, nested.table, level_columns(nested), 0) {
            Err(e) => Some(e),
            Ok(_) => match nested_count(nested.name, "limit"@, nested.limit) {
                Err(e) => Some(e),
                Ok(_) => match nested_count(nested.name, "offset"@, nested.offset) {
                    Err(e) => Some(e),
                    Ok(_) => None,
                },
            },
        },
    }
}

/// Why a nested projection is refused, whatever rows there are.
pub open spec fn level_error(catalog: CatalogView, nested: NestedProjectionView) -> Option<ErrorView>
    decreases nested, 0int,
{
    match own_error(catalog, nested) {
        Some(e) => Some(e),
        None => inner_error(catalog, nested.fields, 0),
    }
}

/// Why one of the deeper levels from field `i` on is refused.
pub open spec fn inner_error(catalog: CatalogView, fields: Seq<NestedFieldView>, i: int) -> Option<
    ErrorView,
>
    decreases fields, fields.len() - i,
{
    if i < 0 || i >= fields.len() {
        None
    } else {
        match fields[i] {
            NestedFieldView::Scalar { .. } => inner_error(catalog, fields, i + 1),
            NestedFieldView::Nested(inner) => match level_error(catalog, *inner) {
                Some(e) => Some(e),
                None => inner_error(catalog, fields, i + 1),
            },
        }
    }
}

/// The rows from `i` on that hold `key` in this column.
pub open spec fn having_from(rows: Seq<Seq<ValueView>>, column: int, key: ValueView, i: int) -> Seq<
    Seq<ValueView>,
>
    decreases rows.len() - i,
{
    if i < 0 || i >= rows.len() {
        Seq::empty()
    } else if rows[i][column] == key {
        seq![rows[i]] + having_from(rows, column, key, i + 1)
    } else {
        having_from(rows, column, key, i + 1)
    }
}

/// The rows from `i` on that meet a residual condition, if there is one.
pub open spec fn meeting_rows(
    eval: EvalModel,
    residual: Option<ExprView>,
    columns: Seq<Seq<char>>,
    rows: Seq<Seq<ValueView>>,
    i: int,
) -> Seq<Seq<ValueView>>
    decreases rows.len() - i,
{
    if i < 0 || i >= rows.len() {
        Seq::empty()
    } else if residual matches Some(r) ==> is_true(eval(r, rows[i], columns)) {
        seq![rows[i]] + meeting_rows(eval, residual, columns, rows, i + 1)
    } else {
        meeting_rows(eval, residual, columns, rows, i + 1)
    }
}

/// The children of a parent key: the rows of the table that hold it, and meet
/// the residual condition. A missing key has none.
pub open spec fn children(
    scope: NestedScope,
    table: TableView,
    nested: NestedProjectionView,
    key_at: int,
    key: ValueView,
) -> Seq<Seq<ValueView>> {
    if key is Empty {
        Seq::empty()
    } else {
        meeting_rows(
            scope.eval,
            nested.residual,
            table.schema.column_names(),
            having_from(table_rows(table), key_at, key, 0),
            0,
        )
    }
}

/// The values by which a level orders its rows.
pub open spec fn order_keys(rows: Seq<Seq<ValueView>>, ats: Seq<int>) -> Seq<Seq<ValueView>> {
    Seq::new(rows.len(), |i: int| pick(rows[i], ats))
}

/// The directions in which a level orders its rows.
pub open spec fn level_directions(nested: NestedProjectionView) -> Seq<Option<bool>> {
    Seq::new(nested.order.len(), |i: int| Some(nested.order[i].1))
}

/// The rows of a bucket in order, cut to the bounds.
pub open spec fn arranged_rows(
    order: OrderModel,
    nested: NestedProjectionView,
    order_ats: Seq<int>,
    rows: Seq<Seq<ValueView>>,
) -> Seq<Seq<ValueView>> {
    let positions = ints(
        sorted_positions(order, order_keys(rows, order_ats), level_directions(nested)),
    );
    let sorted = pick(rows, positions);
    let offset = match nested_count(nested.name, "offset"@, nested.offset) {
        Ok(Some(n)) => n,
        _ => 0,
    };
    match nested_count(nested.name, "limit"@, nested.limit) {
        Ok(Some(n)) => slice(sorted, offset, n),
        _ => slice(sorted, offset, sorted.len() as int),
    }
}

/// The JSON array of a parent key: an object for each of its children, in
/// order, cut to the bounds.
pub open spec fn level_array(scope: NestedScope, nested: NestedProjectionView, key: ValueView) -> Seq<
    char,
>
    decreases nested, 0int, 0int,
{
    match scope.catalog.table(nested.table) {
        None => "[]"@,
        Some(table) => {
            let ats = column_positions(
                table.schema,
                nested.table,
                level_columns(nested),
                0,
            )->Ok_0;
            let fields = nested.fields.len() as int;
            let rows = arranged_rows(
                scope.order,
                nested,
                ats.subrange(1 + fields, ats.len() as int),
                children(scope, table, nested, ats[0], key),
            );
            "["@ + join_texts(
                objects_from(scope, nested.fields, ats.subrange(1, 1 + fields), rows, 0),
                ","@,
            ) + "]"@
        },
    }
}

/// The JSON objects of the rows from `k` on.
pub open spec fn objects_from(
    scope: NestedScope,
    fields: Seq<NestedFieldView>,
    ats: Seq<int>,
    rows: Seq<Seq<ValueView>>,
    k: int,
) -> Seq<Seq<char>>
    decreases fields, 1int, rows.len() - k,
{
    if k < 0 || k >= rows.len() {
        Seq::empty()
    } else {
        seq![
            "{"@ + join_texts(members_from(scope, fields, ats, rows[k], 0), ","@) + "}"@,
        ] + objects_from(scope, fields, ats, rows, k + 1)
    }
}

/// The members of the JSON object of a row from field `i` on: the value of a
/// column, or the array of a deeper level.
pub open spec fn members_from(
    scope: NestedScope,
    fields: Seq<NestedFieldView>,
    ats: Seq<int>,
    row: Seq<ValueView>,
    i: int,
) -> Seq<Seq<char>>
    decreases fields, 0int, fields.len() - i,
{
    if i < 0 || i >= fields.len() {
        Seq::empty()
    } else {
        seq![
            json_string(field_name(fields[i])) + ":"@ + (match fields[i] {
                NestedFieldView::Scalar { .. } => json_value(scope.words, row[ats[i]]),
                NestedFieldView::Nested(inner) => level_array(scope, *inner, row[ats[i]]),
            }),
        ] + members_from(scope, fields, ats, row, i + 1)
    }
}

/// The rows from `i` on that hold something in this column.
pub open spec fn holding_from(rows: Seq<Seq<ValueView>>, column: int, i: int) -> Seq<Seq<ValueView>>
    decreases rows.len() - i,
{
    if i < 0 || i >= rows.len() {
        Seq::empty()
    } else if rows[i][column] is Empty {
        holding_from(rows, column, i + 1)
    } else {
        seq![rows[i]] + holding_from(rows, column, i + 1)
    }
}

/// The children of the first `n` keys, one bucket after another.
pub open spec fn buckets_of(
    scope: NestedScope,
    table: TableView,
    nested: NestedProjectionView,
    key_at: int,
    keys: Seq<ValueView>,
    n: int,
) -> Seq<Seq<ValueView>>
    decreases n,
{
    if n <= 0 {
        Seq::empty()
    } else {
        buckets_of(scope, table, nested, key_at, keys, n - 1) + children(
            scope,
            table,
            nested,
            key_at,
            keys[n - 1],
        )
    }
}

/// Whether only the children of the keys are held: each key is looked up, or
/// the keys are few enough to test each row of a scan against them.
pub open spec fn holds_children_only(
    catalog: CatalogView,
    nested: NestedProjectionView,
    n_keys: int,
) -> bool {
    n_keys <= SCAN_KEY_FILTER_MAX_KEYS || probe_pays_off(
        catalog,
        nested.table,
        nested.child_key,
        n_keys,
    )
}

/// The rows that a level holds: the children of its keys, or every row that is
/// some key's child.
pub open spec fn held_rows(
    scope: NestedScope,
    table: TableView,
    nested: NestedProjectionView,
    key_at: int,
    keys: Seq<ValueView>,
) -> Seq<Seq<ValueView>> {
    if holds_children_only(scope.catalog, nested, keys.len() as int) {
        buckets_of(scope, table, nested, key_at, keys, keys.len() as int)
    } else {
        meeting_rows(
            scope.eval,
            nested.residual,
            table.schema.column_names(),
            holding_from(table_rows(table), key_at, 0),
            0,
        )
    }
}

/// The one value of each key.
pub open spec fn key_values(keys: Seq<Seq<ValueView>>) -> Seq<ValueView> {
    Seq::new(keys.len(), |k: int| keys[k][0])
}

/// The budget that assembling a level for `keys` leaves: the columns that it
/// reads of the rows that it holds are counted, and deeper levels are assembled
/// for the keys that those rows refer to.
pub open spec fn level_budget(
    scope: NestedScope,
    nested: NestedProjectionView,
    keys: Seq<ValueView>,
    budget: Budget,
) -> Result<Budget, ErrorView>
    decreases nested, 0int,
{
    match own_error(scope.catalog, nested) {
        Some(e) => Err(e),
        None => {
            let table = scope.catalog.table(nested.table)->0;
            let ats = column_positions(
                table.schema,
                nested.table,
                level_columns(nested),
                0,
            )->Ok_0;
            let held = held_rows(scope, table, nested, ats[0], keys);
            let charged = if keys.len() == 0 {
                Ok(budget)
            } else {
                hold_charge(scope.sizes, HoldingView::Rows(projected(held, ats)), budget)
            };
            match charged {
                Err(e) => Err(e),
                Ok(left) => inner_budget(
                    scope,
                    nested.fields,
                    ats.subrange(1, 1 + nested.fields.len() as int),
                    held,
                    0,
                    left,
                ),
            }
        },
    }
}

/// The budget that assembling the deeper levels from field `i` on leaves.
pub open spec fn inner_budget(
    scope: NestedScope,
    fields: Seq<NestedFieldView>,
    ats: Seq<int>,
    rows: Seq<Seq<ValueView>>,
    i: int,
    budget: Budget,
) -> Result<Budget, ErrorView>
    decreases fields, fields.len() - i,
{
    if i < 0 || i >= fields.len() {
        Ok(budget)
    } else {
        match fields[i] {
            NestedFieldView::Scalar { .. } => inner_budget(scope, fields, ats, rows, i + 1, budget),
            NestedFieldView::Nested(inner) => match level_budget(
                scope,
                *inner,
                key_values(distinct_values(rows, ats[i], rows.len() as int)),
                budget,
            ) {
                Err(e) => Err(e),
                Ok(left) => inner_budget(scope, fields, ats, rows, i + 1, left),
            },
        }
    }
}

/// A level that is assembled is refused for nothing.
proof fn assembled_levels_stand(
    scope: NestedScope,
    nested: NestedProjectionView,
    keys: Seq<ValueView>,
    budget: Budget,
)
    requires
        level_budget(scope, nested, keys, budget) is Ok,
    ensures
        level_error(scope.catalog, nested) is None,
    decreases nested, 0int,
{
    let table = scope.catalog.table(nested.table)->0;
    let ats = column_positions(table.schema, nested.table, level_columns(nested), 0)->Ok_0;
    let held = held_rows(scope, table, nested, ats[0], keys);
    let left = if keys.len() == 0 {
        budget
    } else {
        hold_charge(scope.sizes, HoldingView::Rows(projected(held, ats)), budget)->Ok_0
    };
    assembled_fields_stand(
        scope,
        nested.fields,
        ats.subrange(1, 1 + nested.fields.len() as int),
        held,
        0,
        left,
    );
}

proof fn assembled_fields_stand(
    scope: NestedScope,
    fields: Seq<NestedFieldView>,
    ats: Seq<int>,
    rows: Seq<Seq<ValueView>>,
    i: int,
    budget: Budget,
)
    requires
        inner_budget(scope, fields, ats, rows, i, budget) is Ok,
    ensures
        inner_error(scope.catalog, fields, i) is None,
    decreases fields, fields.len() - i,
{
    if 0 <= i < fields.len() {
        match fields[i] {
            NestedFieldView::Scalar { .. } => {
                assembled_fields_stand(scope, fields, ats, rows, i + 1, budget);
            },
            NestedFieldView::Nested(inner) => {
                let keys = key_values(distinct_values(rows, ats[i], rows.len() as int));
                assembled_levels_stand(scope, *inner, keys, budget);
                let left = level_budget(scope, *inner, keys, budget)->Ok_0;
                assembled_fields_stand(scope, fields, ats, rows, i + 1, left);
            },
        }
    }
}

/// Fetching an id and then others is fetching its row and then theirs.
proof fn fetched_next(table: TableView, rid: RowId, rest: Seq<RowId>, i: int)
    requires
        0 <= i <= rest.len(),
    ensures
        fetched_from(table, seq![rid] + rest, i + 1) == fetched_from(table, rest, i),
    decreases rest.len() - i,
{
    if i < rest.len() {
        assert((seq![rid] + rest)[i + 1] == rest[i]);
        fetched_next(table, rid, rest, i + 1);
    }
}

/// The rows of the ids that hold a key are the rows that hold it.
proof fn holding_rows_are_fetched(table: TableView, column: int, key: ValueView, i: int)
    requires
        row_ids(table).no_duplicates(),
        0 <= i <= table.rows.len(),
    ensures
        fetched_from(table, holding_ids(table.rows, column, key, i), 0) == having_from(
            table_rows(table),
            column,
            key,
            i,
        ),
    decreases table.rows.len() - i,
{
    if i < table.rows.len() {
        holding_rows_are_fetched(table, column, key, i + 1);
        assert(table_rows(table)[i] == table.rows[i].values);
        if table.rows[i].values[column] == key {
            let rest = holding_ids(table.rows, column, key, i + 1);
            own_id_is_found(table, i);
            fetched_next(table, table.rows[i].rid, rest, 0);
            assert((seq![table.rows[i].rid] + rest)[0] == table.rows[i].rid);
        }
    }
}

fn read_count(nested: &NestedProjection, what: &str, bound: &Option<Expr>) -> (count: Result<
    Option<u64>,
    QueryError,
>)
    ensures
        match count {
            Ok(Some(n)) => nested_count(nested.name@, what@, bound.deep_view()) == Ok::<
                Option<int>,
                ErrorView,
            >(Some(n as int)),
            Ok(None) => nested_count(nested.name@, what@, bound.deep_view()) == Ok::<
                Option<int>,
                ErrorView,
            >(None),
            Err(e) => nested_count(nested.name@, what@, bound.deep_view()) == Err::<
                Option<int>,
                ErrorView,
            >(e.deep_view()),
        },
{
    match bound {
        None => {
            return Ok(None);
        },
        Some(Expr::Literal(Literal::Int(n))) => {
            if *n >= 0 {
                return Ok(Some(*n as u64));
            }
        },
        Some(_) => {},
    }
    let mut message = "nested projection `".to_owned();
    push_text(&mut message, nested.name.as_str());
    push_text(&mut message, "` ");
    push_text(&mut message, what);
    push_text(&mut message, " must be a non-negative integer literal");
    Err(QueryError::Execution(message))
}

fn collect_level_columns(nested: &NestedProjection) -> (names: Vec<String>)
    ensures
        names.deep_view() == level_columns(nested.deep_view()),
{
    let ghost view = nested.deep_view();
    let mut names: Vec<String> = Vec::new();
    names.push(nested.child_key.clone());
    let ghost parts = Seq::new(view.fields.len(), |i: int| field_column(view.fields[i]));
    let ghost tail = Seq::new(view.order.len(), |i: int| view.order[i].0);
    let mut i: usize = 0;
    assert(names.deep_view() =~= seq![view.child_key] + parts.take(0));
    while i < nested.fields.len()
        invariant
            i <= nested.fields.len(),
            view == nested.deep_view(),
            parts == Seq::new(view.fields.len(), |i: int| field_column(view.fields[i])),
            names.deep_view() == seq![view.child_key] + parts.take(i as int),
        decreases nested.fields.len() - i,
    {
        assert(view.fields[i as int] == nested_field_view(nested.fields[i as int]));
        let column = match &nested.fields[i] {
            NestedField::Scalar { column, .. } => column.clone(),
            NestedField::Nested(inner) => inner.parent_key.clone(),
        };
        assert(column@ == parts[i as int]);
        let ghost before = names.deep_view();
        let ghost shown = column@;
        names.push(column);
        assert(names.deep_view() =~= before.push(shown));
        assert(names.deep_view() =~= seq![view.child_key] + parts.take(i + 1));
        i = i + 1;
    }
    assert(parts.take(nested.fields.len() as int) =~= parts);
    let mut k: usize = 0;
    assert(names.deep_view() =~= seq![view.child_key] + parts + tail.take(0));
    while k < nested.order.len()
        invariant
            k <= nested.order.len(),
            view == nested.deep_view(),
            tail == Seq::new(view.order.len(), |i: int| view.order[i].0),
            names.deep_view() == seq![view.child_key] + parts + tail.take(k as int),
        decreases nested.order.len() - k,
    {
        let ghost before = names.deep_view();
        assert(view.order[k as int].0 == nested.order[k as int].0@);
        names.push(nested.order[k].0.clone());
        assert(names.deep_view() =~= before.push(tail[k as int]));
        assert(names.deep_view() =~= seq![view.child_key] + parts + tail.take(k + 1));
        k = k + 1;
    }
    assert(tail.take(nested.order.len() as int) =~= tail);
    names
}

fn resolve_columns(table: &Table, name: &String, names: &Vec<String>) -> (ats: Result<
    Vec<usize>,
    QueryError,
>)
    ensures
        match ats {
            Ok(ats) => column_positions(
                table.deep_view().schema,
                name@,
                names.deep_view(),
                0,
            ) == Ok::<Seq<int>, ErrorView>(ints(ats@)) && ats.len() == names.len() && forall|
                k: int,
            |
                0 <= k < ats.len() ==> (#[trigger] ats[k]) < table.schema.columns.len(),
            Err(e) => column_positions(table.deep_view().schema, name@, names.deep_view(), 0)
                == Err::<Seq<int>, ErrorView>(e.deep_view()),
        },
{
    let ghost (schema, views) = (table.deep_view().schema, names.deep_view());
    let ghost all = column_positions(schema, name@, views, 0);
    let mut ats: Vec<usize> = Vec::new();
    let mut i: usize = 0;
    assert(prefixed(ints(ats@), all) == all) by {
        assert(all matches Ok(rest) ==> ints(ats@) + rest =~= rest);
    }
    while i < names.len()
        invariant
            i <= names.len(),
            schema == table.deep_view().schema,
            views == names.deep_view(),
            all == column_positions(schema, name@, views, 0),
            all == prefixed(ints(ats@), column_positions(schema, name@, views, i as int)),
            ats.len() == i,
            forall|k: int| 0 <= k < ats.len() ==> (#[trigger] ats[k]) < table.schema.columns.len(),
        decreases names.len() - i,
    {
        let ghost before = ints(ats@);
        assert(views[i as int] == names[i as int]@);
        match table.schema.column_index(&names[i]) {
            Some(at) => {
                ats.push(at);
                assert(ints(ats@) =~= before.push(at as int));
                assert(column_positions(schema, name@, views, i + 1) matches Ok(rest) ==> before + (
                seq![at as int] + rest) =~= before.push(at as int) + rest);
            },
            None => {
                return Err(
                    QueryError::ColumnNotFound { table: name.clone(), column: names[i].clone() },
                );
            },
        }
        i = i + 1;
    }
    assert(ints(ats@) + Seq::<int>::empty() =~= ints(ats@));
    Ok(ats)
}

/// The rows of a list that meet a residual condition.
fn keep_meeting<
    E: Fn(&Expr, &Vec<Value>, &Vec<String>) -> Value,
    C: Fn(&Value, &Value) -> Order,
    F: Fn(FloatOp) -> u64,
>(
    scalars: &Scalars<E, C, F>,
    residual: &Option<Expr>,
    columns: &Vec<String>,
    rows: Vec<Vec<Value>>,
) -> (kept: Vec<Vec<Value>>)
    requires
        scalars.ok(),
    ensures
        kept.deep_view() == meeting_rows(
            scalars.values(),
            residual.deep_view(),
            columns.deep_view(),
            rows.deep_view(),
            0,
        ),
{
    let ghost (eval, r, names, views) = (
        scalars.values(),
        residual.deep_view(),
        columns.deep_view(),
        rows.deep_view(),
    );
    let ghost all = meeting_rows(eval, r, names, views, 0);
    let mut kept: Vec<Vec<Value>> = Vec::new();
    let mut i: usize = 0;
    assert(kept.deep_view() + all =~= all);
    while i < rows.len()
        invariant
            i <= rows.len(),
            scalars.ok(),
            eval == scalars.values(),
            r == residual.deep_view(),
            names == columns.deep_view(),
            views == rows.deep_view(),
            kept.deep_view() + meeting_rows(eval, r, names, views, i as int) == all,
        decreases rows.len() - i,
    {
        let ghost before = kept.deep_view();
        assert(views[i as int] == rows[i as int].deep_view());
        let keep: bool = match residual {
            Some(condition) => scalars.eval_predicate(condition, &rows[i], columns),
            None => true,
        };
        if keep {
            kept.push(clone_row(&rows[i]));
            assert(kept.deep_view() =~= before.push(views[i as int]));
            assert(kept.deep_view() + meeting_rows(eval, r, names, views, i + 1) =~= before
                + meeting_rows(eval, r, names, views, i as int));
        }
        i = i + 1;
    }
    assert(kept.deep_view() =~= all);
    kept
}

/// The rows that hold a key are those at the positions of the key.
proof fn having_is_picked(
    rows: Seq<Seq<ValueView>>,
    column: int,
    key: ValueView,
    n: int,
)
    requires
        0 <= n <= rows.len(),
    ensures
        pick(
            rows,
            positions_of(
                Seq::new(n as nat, |i: int| seq![rows[i][column]]),
                seq![key],
            ),
        ) + having_from(rows, column, key, n) == having_from(rows, column, key, 0),
    decreases n,
{
    let keys = Seq::new(n as nat, |i: int| seq![rows[i][column]]);
    if n == 0 {
        assert(pick(rows, positions_of(keys, seq![key])) =~= Seq::empty());
        assert(Seq::<Seq<ValueView>>::empty() + having_from(rows, column, key, 0) =~= having_from(
            rows,
            column,
            key,
            0,
        ));
    } else {
        having_is_picked(rows, column, key, n - 1);
        let before = Seq::new((n - 1) as nat, |i: int| seq![rows[i][column]]);
        assert(keys.drop_last() =~= before);
        let last = seq![rows[n - 1][column]];
        assert(keys.last() == last);
        assert((last == seq![key]) == (rows[n - 1][column] == key)) by {
            if last == seq![key] {
                assert(last[0] == seq![key][0]);
            }
        }
        let picked = pick(rows, positions_of(keys, seq![key]));
        let prior = pick(rows, positions_of(before, seq![key]));
        if rows[n - 1][column] == key {
            assert(picked =~= prior.push(rows[n - 1]));
        } else {
            assert(picked =~= prior);
        }
        assert(picked + having_from(rows, column, key, n) =~= prior + having_from(
            rows,
            column,
            key,
            n - 1,
        ));
    }
}

/// The rows that the children of several keys are taken from: those of each key
/// by looking it up in an index, or all of them after one scan.
fn gather_having<P: Fn() -> Result<(), QueryError>>(
    catalog: &Catalog,
    table: &Table,
    name: &String,
    column: &String,
    key_at: usize,
    keys: &Vec<Value>,
    poll: &P,
) -> (gathered: Result<Vec<Vec<Vec<Value>>>, QueryError>)
    requires
        call_requires(*poll, ()),
        catalog_fits(catalog.deep_view()),
        indexes_agree(catalog.deep_view()),
        catalog.deep_view().table(name@) == Some(table.deep_view()),
        table.deep_view().schema.column_index(column@) == Some(key_at as int),
        key_at < table.schema.columns.len(),
    ensures
        match gathered {
            Ok(gathered) => gathered.len() == keys.len() && forall|k: int|
                0 <= k < keys.len() && !(keys[k].deep_view() is Empty) ==> (
                #[trigger] gathered[k]).deep_view() == having_from(
                    table_rows(table.deep_view()),
                    key_at as int,
                    keys[k].deep_view(),
                    0,
                ),
            Err(error) => call_ensures(*poll, (), Err(error)),
        },
{
    let ghost view = table.deep_view();
    let ghost all = table_rows(view);
    proof {
        found_table_fits(catalog.deep_view(), name@);
        found_table_agrees(catalog.deep_view(), name@, column@);
    }
    let mut gathered: Vec<Vec<Vec<Value>>> = Vec::new();
    let probing: bool = child_index_probe_pays_off(
        catalog,
        name,
        column,
        keys.len(),
    );
    match catalog.index(name, column) {
        Some(index) => {
            if probing {
                let mut k: usize = 0;
                while k < keys.len()
                    invariant
                        call_requires(*poll, ()),
                        k <= keys.len(),
                        view == table.deep_view(),
                        all == table_rows(view),
                        key_at < view.schema.columns.len(),
                        view.schema.column_index(column@) == Some(key_at as int),
                        catalog.deep_view().table(name@) == Some(view),
                        catalog.deep_view().index(name@, column@) == Some(
                            index.deep_view(),
                        ),
                        index_agrees(view, column@),
                        row_ids(view).no_duplicates(),
                        gathered.len() == k,
                        forall|j: int|
                            0 <= j < k && !(keys[j].deep_view() is Empty) ==> (
                            #[trigger] gathered[j]).deep_view() == having_from(
                                all,
                                key_at as int,
                                keys[j].deep_view(),
                                0,
                            ),
                    decreases keys.len() - k,
                {
                    let rids = lookup_rids(&index.entries, &keys[k]);
                    proof {
                        let at = view.index_on(column@)->0;
                        assert(view.indexes[at] == index.deep_view());
                        let key = keys[k as int].deep_view();
                        if !(key is Empty) {
                            holding_rows_are_fetched(view, key_at as int, key, 0);
                            assert(fetched_from(
                                view,
                                lookup_from(view.indexes[at].entries, key, 0),
                                0,
                            ) == having_from(all, key_at as int, key, 0));
                        }
                    }
                    let rows = fetch_rows(table, &rids, poll)?;
                    gathered.push(rows);
                    k = k + 1;
                }
                return Ok(gathered);
            }
        },
        None => {},
    }
    let rows = scan_rows(table, poll)?;
    let mut singles: Vec<Vec<Value>> = Vec::new();
    let mut i: usize = 0;
    while i < rows.len()
        invariant
            call_requires(*poll, ()),
            i <= rows.len(),
            rows.deep_view() == all,
            all == table_rows(view),
            table_fits(view),
            key_at < view.schema.columns.len(),
            singles.len() == i,
            forall|j: int|
                0 <= j < i ==> (#[trigger] singles[j]).deep_view() == seq![all[j][key_at as int]],
        decreases rows.len() - i,
    {
        poll()?;
        assert(all[i as int] == rows[i as int].deep_view());
        assert(rows.deep_view().len() == rows.len());
        assert(view.rows[i as int].values.len() == view.schema.columns.len());
        assert(all[i as int].len() == rows[i as int].len());
        let mut single: Vec<Value> = Vec::new();
        single.push(rows[i][key_at].clone());
        assert(single.deep_view() =~= seq![all[i as int][key_at as int]]);
        singles.push(single);
        i = i + 1;
    }
    let ghost single_keys = Seq::new(all.len(), |j: int| seq![all[j][key_at as int]]);
    assert(rows.deep_view().len() == rows.len());
    assert(singles.deep_view() =~= single_keys);
    let (found, members) = group_positions(&singles);
    let mut k: usize = 0;
    while k < keys.len()
        invariant
            call_requires(*poll, ()),
            k <= keys.len(),
            rows.deep_view() == all,
            single_keys == Seq::new(all.len(), |j: int| seq![all[j][key_at as int]]),
            found.wf(),
            found@ == firsts(single_keys),
            members.len() == found@.len(),
            forall|g: int|
                0 <= g < members.len() ==> ints((#[trigger] members[g])@) == positions_of(
                    single_keys,
                    found@[g],
                ),
            gathered.len() == k,
            forall|j: int|
                0 <= j < k && !(keys[j].deep_view() is Empty) ==> (#[trigger] gathered[j]).deep_view()
                    == having_from(all, key_at as int, keys[j].deep_view(), 0),
        decreases keys.len() - k,
    {
        poll()?;
        let ghost key = keys[k as int].deep_view();
        let mut single: Vec<Value> = Vec::new();
        single.push(keys[k].clone());
        assert(single.deep_view() =~= seq![key]);
        proof {
            having_is_picked(all, key_at as int, key, all.len() as int);
            positions_are_positions(single_keys, seq![key]);
            assert(having_from(all, key_at as int, key, all.len() as int) =~= Seq::empty());
            assert(pick(all, positions_of(single_keys, seq![key])) =~= having_from(
                all,
                key_at as int,
                key,
                0,
            ));
        }
        let picked = match found.find(&single) {
            Some(g) => {
                proof {
                    assert(found@[g as int] == seq![key]);
                    assert forall|p: int| 0 <= p < members[g as int].len() implies (
                    #[trigger] members[g as int][p]) < rows.len() by {
                        assert(ints(members[g as int]@)[p] == members[g as int][p] as int);
                        assert(rows.deep_view().len() == rows.len());
                    }
                }
                pick_rows(&rows, &members[g])
            },
            None => {
                let none: Vec<Vec<Value>> = Vec::new();
                proof {
                    firsts_are_distinct(single_keys);
                    assert(!single_keys.contains(seq![key]));
                    assert(none.deep_view() =~= Seq::<Seq<ValueView>>::empty());
                    let at = positions_of(single_keys, seq![key]);
                    if at.len() > 0 {
                        assert(single_keys[at[0]] == seq![key]);
                        assert(false);
                    }
                    assert(pick(all, at) =~= Seq::empty());
                }
                none
            },
        };
        gathered.push(picked);
        k = k + 1;
    }
    Ok(gathered)
}

/// The distinct values of a column, without the missing ones, in the order of
/// their first appearance.
pub open spec fn distinct_values(rows: Seq<Seq<ValueView>>, column: int, n: int) -> Seq<Seq<ValueView>>
    decreases n,
{
    if n <= 0 {
        Seq::empty()
    } else {
        let before = distinct_values(rows, column, n - 1);
        let value = rows[n - 1][column];
        if value is Empty || before.contains(seq![value]) {
            before
        } else {
            before.push(seq![value])
        }
    }
}

/// The distinct values of a column, without the missing ones.
pub fn distinct_non_null(rows: &Vec<Vec<Value>>, column: usize) -> (keys: KeyTable)
    requires
        forall|i: int| 0 <= i < rows.len() ==> column < (#[trigger] rows[i]).len(),
    ensures
        keys.wf(),
        keys@ == distinct_values(rows.deep_view(), column as int, rows.len() as int),
{
    let ghost views = rows.deep_view();
    let mut keys = KeyTable::new();
    let mut i: usize = 0;
    while i < rows.len()
        invariant
            i <= rows.len(),
            views == rows.deep_view(),
            forall|j: int| 0 <= j < rows.len() ==> column < (#[trigger] rows[j]).len(),
            keys.wf(),
            keys@ == distinct_values(views, column as int, i as int),
        decreases rows.len() - i,
    {
        assert(views[i as int] == rows[i as int].deep_view());
        assert(column < rows[i as int].len());
        if !rows[i][column].is_empty() {
            let mut single: Vec<Value> = Vec::new();
            single.push(rows[i][column].clone());
            assert(single.deep_view() =~= seq![views[i as int][column as int]]);
            let number: usize = keys.find_or_insert(single);
        }
        i = i + 1;
    }
    keys
}

/// Every value that is not missing is among the distinct ones, and each of
/// those is one value.
proof fn distinct_values_hold(rows: Seq<Seq<ValueView>>, column: int, n: int)
    requires
        0 <= n <= rows.len(),
    ensures
        forall|j: int|
            0 <= j < n && !(rows[j][column] is Empty) ==> distinct_values(
                rows,
                column,
                n,
            ).contains(seq![#[trigger] rows[j][column]]),
        forall|k: int|
            0 <= k < distinct_values(rows, column, n).len() ==> (#[trigger] distinct_values(
                rows,
                column,
                n,
            )[k]).len() == 1 && !(distinct_values(rows, column, n)[k][0] is Empty),
    decreases n,
{
    if n > 0 {
        distinct_values_hold(rows, column, n - 1);
        let before = distinct_values(rows, column, n - 1);
        let after = distinct_values(rows, column, n);
        let value = rows[n - 1][column];
        assert forall|j: int| 0 <= j < n && !(rows[j][column] is Empty) implies after.contains(
            seq![#[trigger] rows[j][column]],
        ) by {
            let single = seq![rows[j][column]];
            if j < n - 1 {
                assert(before.contains(single));
                let k = choose|k: int| 0 <= k < before.len() && before[k] == single;
                assert(after[k] == single);
            } else if !before.contains(single) {
                assert(after[before.len() as int] == single);
            }
        }
    }
}

/// The one value of each key.
fn single_values(keys: &KeyTable) -> (values: Vec<Value>)
    requires
        keys.wf(),
        forall|k: int| 0 <= k < keys@.len() ==> (#[trigger] keys@[k]).len() == 1,
    ensures
        values.len() == keys@.len(),
        forall|k: int| 0 <= k < values.len() ==> (#[trigger] values[k]).deep_view() == keys@[k][0],
{
    let mut values: Vec<Value> = Vec::new();
    let mut k: usize = 0;
    while k < keys.len()
        invariant
            k <= keys@.len(),
            keys.wf(),
            forall|j: int| 0 <= j < keys@.len() ==> (#[trigger] keys@[j]).len() == 1,
            values.len() == k,
            forall|j: int|
                0 <= j < k ==> (#[trigger] values[j]).deep_view() == keys@[j][0],
        decreases keys@.len() - k,
    {
        let key = keys.key(k);
        assert(key.deep_view().len() == key.len());
        assert(key.deep_view()[0] == key[0].deep_view());
        values.push(key[0].clone());
        k = k + 1;
    }
    values
}

/// The arrays of a deeper level, under the keys that they belong to.
struct Arrays {
    keys: KeyTable,
    texts: Vec<String>,
}

/// The arrays are those of `inner`, one for each key.
spec fn arrays_hold(scope: NestedScope, inner: NestedProjectionView, arrays: Arrays) -> bool {
    &&& arrays.keys.wf()
    &&& arrays.texts.len() == arrays.keys@.len()
    &&& forall|k: int|
        0 <= k < arrays.keys@.len() ==> (#[trigger] arrays.keys@[k]).len() == 1
            && arrays.texts[k]@ == level_array(scope, inner, arrays.keys@[k][0])
}

/// Each deeper level has its arrays, for every key that a row refers to.
spec fn sources_hold(
    scope: NestedScope,
    fields: Seq<NestedFieldView>,
    ats: Seq<int>,
    sources: Seq<Option<Arrays>>,
    rows: Seq<Seq<ValueView>>,
    n: int,
) -> bool {
    forall|i: int|
        #![trigger fields[i]]
        0 <= i < n ==> match fields[i] {
            NestedFieldView::Scalar { .. } => true,
            NestedFieldView::Nested(inner) => sources[i] matches Some(arrays) && arrays_hold(
                scope,
                *inner,
                arrays,
            ) && forall|r: int|
                0 <= r < rows.len() && !(rows[r][ats[i]] is Empty) ==> arrays.keys@.contains(
                    seq![#[trigger] rows[r][ats[i]]],
                ),
        }
}

/// A missing key has no children.
proof fn missing_key_is_empty(scope: NestedScope, nested: NestedProjectionView, text: Seq<char>)
    requires
        level_error(scope.catalog, nested) is None,
        text == "[]"@,
    ensures
        level_array(scope, nested, ValueView::Empty) == text,
{
    reveal_strlit("[]");
    reveal_strlit("[");
    reveal_strlit("]");
    let table = scope.catalog.table(nested.table)->0;
    let ats = column_positions(table.schema, nested.table, level_columns(nested), 0)->Ok_0;
    let fields = nested.fields.len() as int;
    let none = children(scope, table, nested, ats[0], ValueView::Empty);
    let order_ats = ats.subrange(1 + fields, ats.len() as int);
    let keys = order_keys(none, order_ats);
    let by = row_order(scope.order, level_directions(nested));
    empty_sorts(keys, by);
    assert(ints(sorted_positions(scope.order, keys, level_directions(nested))) =~= Seq::empty());
    let rows = arranged_rows(scope.order, nested, order_ats, none);
    assert(rows =~= Seq::empty());
    assert("["@ + Seq::<char>::empty() + "]"@ =~= "[]"@);
}

/// Nothing sorts to nothing.
proof fn empty_sorts(
    keys: Seq<Seq<ValueView>>,
    by: spec_fn(Seq<ValueView>, Seq<ValueView>) -> Order,
)
    requires
        keys.len() == 0,
    ensures
        forall|positions: Seq<usize>| #[trigger] sorts(positions, keys, by) ==> positions.len() == 0,
        sorts(Seq::empty(), keys, by),
{
}

/// The array of a key that a row refers to.
fn push_array(out: &mut String, arrays: &Arrays, value: &Value, scope: Ghost<NestedScope>, inner: Ghost<
    NestedProjectionView,
>)
    requires
        arrays_hold(scope@, inner@, *arrays),
        level_error(scope@.catalog, inner@) is None,
        !(value.deep_view() is Empty) ==> arrays.keys@.contains(seq![value.deep_view()]),
    ensures
        final(out)@ == old(out)@ + level_array(scope@, inner@, value.deep_view()),
{
    if value.is_empty() {
        proof {
            missing_key_is_empty(scope@, inner@, "[]"@);
        }
        push_text(out, "[]");
        return;
    }
    let mut single: Vec<Value> = Vec::new();
    single.push(value.clone());
    assert(single.deep_view() =~= seq![value.deep_view()]);
    match arrays.keys.find(&single) {
        Some(k) => {
            assert(arrays.keys@[k as int][0] == value.deep_view());
            push_text(out, arrays.texts[k].as_str());
        },
        None => {
            assert(false);
        },
    }
}

/// No deeper level is refused.
proof fn inner_levels_stand(catalog: CatalogView, fields: Seq<NestedFieldView>, i: int, k: int)
    requires
        0 <= i <= k < fields.len(),
        inner_error(catalog, fields, i) is None,
    ensures
        fields[k] matches NestedFieldView::Nested(inner) ==> level_error(catalog, *inner) is None,
    decreases k - i,
{
    if i < k {
        inner_levels_stand(catalog, fields, i + 1, k);
    }
}

fn row_object<T: Fn(Subject) -> Option<String>>(
    wording: &Wording<T>,
    fields: &Vec<NestedField>,
    ats: &Vec<usize>,
    sources: &Vec<Option<Arrays>>,
    row: &Vec<Value>,
    scope: Ghost<NestedScope>,
    rows: Ghost<Seq<Seq<ValueView>>>,
    at: Ghost<int>,
) -> (object: String)
    requires
        wording.ok(),
        scope@.words == wording.model@,
        ats.len() == fields.len(),
        sources.len() == fields.len(),
        forall|k: int| 0 <= k < ats.len() ==> (#[trigger] ats[k]) < row.len(),
        inner_error(scope@.catalog, nested_fields_view(fields@), 0) is None,
        0 <= at@ < rows@.len(),
        rows@[at@] == row.deep_view(),
        sources_hold(
            scope@,
            nested_fields_view(fields@),
            ints(ats@),
            sources@,
            rows@,
            fields.len() as int,
        ),
    ensures
        object@ == "{"@ + join_texts(
            members_from(
                scope@,
                nested_fields_view(fields@),
                ints(ats@),
                row.deep_view(),
                0,
            ),
            ","@,
        ) + "}"@,
{
    let ghost views = nested_fields_view(fields@);
    let ghost where_at = ints(ats@);
    let ghost shown = row.deep_view();
    let ghost all = members_from(scope@, views, where_at, shown, 0);
    let mut members: Vec<String> = Vec::new();
    let mut i: usize = 0;
    assert(members.deep_view() + all =~= all);
    while i < fields.len()
        invariant
            i <= fields.len(),
            wording.ok(),
            scope@.words == wording.model@,
            views == nested_fields_view(fields@),
            where_at == ints(ats@),
            shown == row.deep_view(),
            ats.len() == fields.len(),
            sources.len() == fields.len(),
            forall|k: int| 0 <= k < ats.len() ==> (#[trigger] ats[k]) < row.len(),
            inner_error(scope@.catalog, views, 0) is None,
            0 <= at@ < rows@.len(),
            rows@[at@] == shown,
            sources_hold(scope@, views, where_at, sources@, rows@, fields.len() as int),
            members.deep_view() + members_from(scope@, views, where_at, shown, i as int) == all,
        decreases fields.len() - i,
    {
        let ghost before = members.deep_view();
        assert(views[i as int] == nested_field_view(fields[i as int]));
        let column: usize = ats[i];
        assert(where_at[i as int] == column as int);
        assert(shown[column as int] == row[column as int].deep_view());
        let mut member = String::new();
        match &fields[i] {
            NestedField::Scalar { key, .. } => {
                push_json_string(&mut member, key.as_str());
                push_text(&mut member, ":");
                push_json_value(&mut member, wording, &row[column]);
                assert(member@ =~= json_string(key@) + ":"@ + json_value(
                    scope@.words,
                    shown[column as int],
                ));
            },
            NestedField::Nested(inner) => {
                let ghost inner_view = nested_view(**inner);
                proof {
                    inner_levels_stand(scope@.catalog, views, 0, i as int);
                    assert(views[i as int] == NestedFieldView::Nested(Box::new(inner_view)));
                    assert(sources@[i as int] is Some);
                    assert(rows@[at@][where_at[i as int]] == shown[column as int]);
                }
                push_json_string(&mut member, inner.name.as_str());
                push_text(&mut member, ":");
                match &sources[i] {
                    Some(arrays) => {
                        push_array(&mut member, arrays, &row[column], scope, Ghost(inner_view));
                    },
                    None => {
                        assert(false);
                    },
                }
                assert(member@ =~= json_string(inner.name@) + ":"@ + level_array(
                    scope@,
                    inner_view,
                    shown[column as int],
                ));
            },
        }
        let ghost text = member@;
        members.push(member);
        assert(members.deep_view() =~= before.push(text));
        assert(members.deep_view() + members_from(scope@, views, where_at, shown, i + 1) =~= before
            + members_from(scope@, views, where_at, shown, i as int));
        i = i + 1;
    }
    assert(members.deep_view() =~= all);
    let mut object = "{".to_owned();
    let list = join(&members, ",");
    push_text(&mut object, list.as_str());
    push_text(&mut object, "}");
    object
}

/// A part of a list of positions.
fn cut_positions(ats: &Vec<usize>, from: usize, to: usize) -> (cut: Vec<usize>)
    requires
        from <= to <= ats.len(),
    ensures
        ints(cut@) == ints(ats@).subrange(from as int, to as int),
        cut.len() == to - from,
        forall|k: int| 0 <= k < cut.len() ==> #[trigger] cut[k] == ats[from + k],
{
    let mut cut: Vec<usize> = Vec::new();
    let mut i: usize = from;
    while i < to
        invariant
            from <= i <= to <= ats.len(),
            cut.len() == i - from,
            forall|k: int| 0 <= k < cut.len() ==> #[trigger] cut[k] == ats[from + k],
        decreases to - i,
    {
        cut.push(ats[i]);
        i = i + 1;
    }
    assert(ints(cut@) =~= ints(ats@).subrange(from as int, to as int));
    cut
}

/// The directions in which a level orders its rows.
fn collect_directions(nested: &NestedProjection) -> (directions: Vec<Option<bool>>)
    ensures
        directions@ == level_directions(nested.deep_view()),
        directions.len() == nested.order.len(),
{
    let ghost view = nested.deep_view();
    let mut directions: Vec<Option<bool>> = Vec::new();
    let mut i: usize = 0;
    while i < nested.order.len()
        invariant
            i <= nested.order.len(),
            view == nested.deep_view(),
            directions.len() == i,
            forall|j: int| 0 <= j < i ==> #[trigger] directions[j] == Some(view.order[j].1),
        decreases nested.order.len() - i,
    {
        assert(view.order[i as int].1 == nested.order[i as int].1);
        directions.push(Some(nested.order[i].1));
        i = i + 1;
    }
    assert(directions@ =~= level_directions(view));
    directions
}

/// The array of one bucket: its rows in order, cut to the bounds, each as an
/// object.
fn bucket_array<
    E: Fn(&Expr, &Vec<Value>, &Vec<String>) -> Value,
    C: Fn(&Value, &Value) -> Order,
    F: Fn(FloatOp) -> u64,
    T: Fn(Subject) -> Option<String>,
    P: Fn() -> Result<(), QueryError>,
>(
    scalars: &Scalars<E, C, F>,
    wording: &Wording<T>,
    poll: &P,
    nested: &NestedProjection,
    field_ats: &Vec<usize>,
    order_ats: &Vec<usize>,
    limit: Option<u64>,
    offset: u64,
    sources: &Vec<Option<Arrays>>,
    flat: &Vec<Vec<Value>>,
    start: usize,
    end: usize,
    scope: Ghost<NestedScope>,
    width: Ghost<int>,
) -> (array: Result<String, QueryError>)
    requires
        scalars.ok(),
        wording.ok(),
        call_requires(*poll, ()),
        scope@.words == wording.model@,
        scope@.order == scalars.ordering(),
        start <= end <= flat.len(),
        field_ats.len() == nested.fields.len(),
        order_ats.len() == nested.order.len(),
        sources.len() == nested.fields.len(),
        forall|r: int| 0 <= r < flat.len() ==> (#[trigger] flat[r]).len() == width@,
        forall|k: int| 0 <= k < field_ats.len() ==> (#[trigger] field_ats[k]) < width@,
        forall|k: int| 0 <= k < order_ats.len() ==> (#[trigger] order_ats[k]) < width@,
        inner_error(scope@.catalog, nested_fields_view(nested.fields@), 0) is None,
        sources_hold(
            scope@,
            nested_fields_view(nested.fields@),
            ints(field_ats@),
            sources@,
            flat.deep_view(),
            nested.fields.len() as int,
        ),
        nested_count(nested.name@, "limit"@, nested.limit.deep_view()) == Ok::<
            Option<int>,
            ErrorView,
        >(
            match limit {
                Some(n) => Some(n as int),
                None => None,
            },
        ),
        offset == (match nested_count(nested.name@, "offset"@, nested.offset.deep_view()) {
            Ok(Some(n)) => n,
            _ => 0,
        }),
    ensures
        match array {
            Ok(text) => text@ == "["@ + join_texts(
                objects_from(
                    scope@,
                    nested_fields_view(nested.fields@),
                    ints(field_ats@),
                    arranged_rows(
                        scope@.order,
                        nested.deep_view(),
                        ints(order_ats@),
                        flat.deep_view().subrange(start as int, end as int),
                    ),
                    0,
                ),
                ","@,
            ) + "]"@,
            Err(e) => call_ensures(*poll, (), Err(e)),
        },
{
    let ghost views = nested_fields_view(nested.fields@);
    let ghost bucket = flat.deep_view().subrange(start as int, end as int);
    let ghost where_at = ints(field_ats@);
    let directions = collect_directions(nested);
    let mut keys: Vec<Vec<Value>> = Vec::new();
    let mut i: usize = start;
    while i < end
        invariant
            start <= i <= end <= flat.len(),
            forall|r: int| 0 <= r < flat.len() ==> (#[trigger] flat[r]).len() == width@,
            forall|k: int| 0 <= k < order_ats.len() ==> (#[trigger] order_ats[k]) < width@,
            keys.len() == i - start,
            forall|j: int|
                0 <= j < keys.len() ==> (#[trigger] keys[j]).len() == order_ats.len()
                    && keys[j].deep_view() == pick(
                    flat[start + j].deep_view(),
                    ints(order_ats@),
                ),
        decreases end - i,
    {
        assert(flat[i as int].len() == width@);
        keys.push(pick_values(&flat[i], order_ats));
        i = i + 1;
    }
    assert(keys.deep_view() =~= order_keys(bucket, ints(order_ats@)));
    let positions = sort_by_keys(scalars, &keys, &directions, poll)?;
    let ghost sorted = pick(bucket, ints(positions@));
    proof {
        assert(positions.len() == bucket.len());
        assert forall|p: int| 0 <= p < positions.len() implies (#[trigger] positions[p])
            < bucket.len() by {}
    }
    let n: usize = positions.len();
    let skip: usize = clamp(offset);
    let from: usize = if skip < n {
        skip
    } else {
        n
    };
    let to: usize = match limit {
        Some(count) => {
            let take: usize = clamp(count);
            if take < n - from {
                from + take
            } else {
                n
            }
        },
        None => n,
    };
    let ghost arranged = arranged_rows(scope@.order, nested.deep_view(), ints(order_ats@), bucket);
    assert(arranged =~= sorted.subrange(from as int, to as int));
    let ghost all = objects_from(scope@, views, where_at, arranged, 0);
    let mut objects: Vec<String> = Vec::new();
    let mut p: usize = from;
    assert(objects.deep_view() + all =~= all);
    while p < to
        invariant
            from <= p <= to <= n,
            n == positions.len(),
            wording.ok(),
            scope@.words == wording.model@,
            start <= end <= flat.len(),
            bucket == flat.deep_view().subrange(start as int, end as int),
            forall|q: int| 0 <= q < positions.len() ==> (#[trigger] positions[q]) < bucket.len(),
            sorted == pick(bucket, ints(positions@)),
            arranged == sorted.subrange(from as int, to as int),
            views == nested_fields_view(nested.fields@),
            where_at == ints(field_ats@),
            field_ats.len() == nested.fields.len(),
            sources.len() == nested.fields.len(),
            forall|r: int| 0 <= r < flat.len() ==> (#[trigger] flat[r]).len() == width@,
            forall|k: int| 0 <= k < field_ats.len() ==> (#[trigger] field_ats[k]) < width@,
            inner_error(scope@.catalog, views, 0) is None,
            sources_hold(
                scope@,
                views,
                where_at,
                sources@,
                flat.deep_view(),
                nested.fields.len() as int,
            ),
            objects.deep_view() + objects_from(scope@, views, where_at, arranged, p - from) == all,
        decreases to - p,
    {
        let ghost before = objects.deep_view();
        assert(positions[p as int] < bucket.len());
        let r: usize = start + positions[p];
        assert(flat.deep_view()[r as int] == flat[r as int].deep_view());
        assert(flat[r as int].len() == width@);
        assert(arranged[p - from] == flat[r as int].deep_view()) by {
            assert(ints(positions@)[p as int] == positions[p as int] as int);
        }
        let object = row_object(
            wording,
            &nested.fields,
            field_ats,
            sources,
            &flat[r],
            scope,
            Ghost(flat.deep_view()),
            Ghost(r as int),
        );
        let ghost text = object@;
        objects.push(object);
        assert(objects.deep_view() =~= before.push(text));
        assert(objects.deep_view() + objects_from(scope@, views, where_at, arranged, p + 1 - from)
            =~= before + objects_from(scope@, views, where_at, arranged, p - from));
        p = p + 1;
    }
    assert(objects.deep_view() =~= all);
    let mut array = "[".to_owned();
    let list = join(&objects, ",");
    push_text(&mut array, list.as_str());
    push_text(&mut array, "]");
    Ok(array)
}

proof fn rows_having_fit(rows: Seq<Seq<ValueView>>, column: int, key: ValueView, i: int, width: nat)
    requires
        0 <= i,
        forall|r: int| 0 <= r < rows.len() ==> (#[trigger] rows[r]).len() == width,
    ensures
        forall|r: int|
            0 <= r < having_from(rows, column, key, i).len() ==> (#[trigger] having_from(
                rows,
                column,
                key,
                i,
            )[r]).len() == width,
    decreases rows.len() - i,
{
    if i < rows.len() {
        rows_having_fit(rows, column, key, i + 1, width);
        let rest = having_from(rows, column, key, i + 1);
        let all = having_from(rows, column, key, i);
        assert forall|r: int| 0 <= r < all.len() implies (#[trigger] all[r]).len() == width by {
            if rows[i][column] == key {
                if r > 0 {
                    assert(all[r] == rest[r - 1]);
                }
            } else {
                assert(all[r] == rest[r]);
            }
        }
    }
}

proof fn rows_meeting_fit(
    eval: EvalModel,
    residual: Option<ExprView>,
    columns: Seq<Seq<char>>,
    rows: Seq<Seq<ValueView>>,
    i: int,
    width: nat,
)
    requires
        0 <= i,
        forall|r: int| 0 <= r < rows.len() ==> (#[trigger] rows[r]).len() == width,
    ensures
        forall|r: int|
            0 <= r < meeting_rows(eval, residual, columns, rows, i).len() ==> (
            #[trigger] meeting_rows(eval, residual, columns, rows, i)[r]).len() == width,
    decreases rows.len() - i,
{
    if i < rows.len() {
        rows_meeting_fit(eval, residual, columns, rows, i + 1, width);
        let rest = meeting_rows(eval, residual, columns, rows, i + 1);
        let all = meeting_rows(eval, residual, columns, rows, i);
        assert forall|r: int| 0 <= r < all.len() implies (#[trigger] all[r]).len() == width by {
            if residual matches Some(condition) ==> is_true(eval(condition, rows[i], columns)) {
                if r > 0 {
                    assert(all[r] == rest[r - 1]);
                }
            } else {
                assert(all[r] == rest[r]);
            }
        }
    }
}

proof fn having_rows_stand(rows: Seq<Seq<ValueView>>, column: int, key: ValueView, i: int)
    requires
        0 <= i,
    ensures
        forall|r: int|
            0 <= r < having_from(rows, column, key, i).len() ==> {
                let row = #[trigger] having_from(rows, column, key, i)[r];
                row[column] == key && rows.contains(row)
            },
    decreases rows.len() - i,
{
    if i < rows.len() {
        having_rows_stand(rows, column, key, i + 1);
        let rest = having_from(rows, column, key, i + 1);
        let all = having_from(rows, column, key, i);
        assert forall|r: int| 0 <= r < all.len() implies {
            let row = #[trigger] all[r];
            row[column] == key && rows.contains(row)
        } by {
            if rows[i][column] == key {
                if r > 0 {
                    assert(all[r] == rest[r - 1]);
                } else {
                    assert(rows[i] == all[r]);
                }
            } else {
                assert(all[r] == rest[r]);
            }
        }
    }
}

proof fn meeting_rows_stand(
    eval: EvalModel,
    residual: Option<ExprView>,
    columns: Seq<Seq<char>>,
    rows: Seq<Seq<ValueView>>,
    i: int,
)
    requires
        0 <= i,
    ensures
        forall|r: int|
            0 <= r < meeting_rows(eval, residual, columns, rows, i).len() ==> {
                let row = #[trigger] meeting_rows(eval, residual, columns, rows, i)[r];
                rows.contains(row) && (residual matches Some(c) ==> is_true(eval(c, row, columns)))
            },
    decreases rows.len() - i,
{
    if i < rows.len() {
        meeting_rows_stand(eval, residual, columns, rows, i + 1);
        let rest = meeting_rows(eval, residual, columns, rows, i + 1);
        let all = meeting_rows(eval, residual, columns, rows, i);
        assert forall|r: int| 0 <= r < all.len() implies {
            let row = #[trigger] all[r];
            rows.contains(row) && (residual matches Some(c) ==> is_true(eval(c, row, columns)))
        } by {
            if residual matches Some(c) ==> is_true(eval(c, rows[i], columns)) {
                if r > 0 {
                    assert(all[r] == rest[r - 1]);
                } else {
                    assert(rows[i] == all[r]);
                }
            } else {
                assert(all[r] == rest[r]);
            }
        }
    }
}

proof fn holding_row_is_there(rows: Seq<Seq<ValueView>>, column: int, i: int, j: int)
    requires
        0 <= i <= j < rows.len(),
        !(rows[j][column] is Empty),
    ensures
        holding_from(rows, column, i).contains(rows[j]),
    decreases j - i,
{
    let all = holding_from(rows, column, i);
    if i == j {
        assert(all[0] == rows[j]);
    } else {
        holding_row_is_there(rows, column, i + 1, j);
        let rest = holding_from(rows, column, i + 1);
        let k = choose|k: int| 0 <= k < rest.len() && rest[k] == rows[j];
        if rows[i][column] is Empty {
            assert(all[k] == rows[j]);
        } else {
            assert(all[k + 1] == rows[j]);
        }
    }
}

proof fn meeting_row_is_there(
    eval: EvalModel,
    residual: Option<ExprView>,
    columns: Seq<Seq<char>>,
    rows: Seq<Seq<ValueView>>,
    i: int,
    j: int,
)
    requires
        0 <= i <= j < rows.len(),
        residual matches Some(c) ==> is_true(eval(c, rows[j], columns)),
    ensures
        meeting_rows(eval, residual, columns, rows, i).contains(rows[j]),
    decreases j - i,
{
    let all = meeting_rows(eval, residual, columns, rows, i);
    if i == j {
        assert(all[0] == rows[j]);
    } else {
        meeting_row_is_there(eval, residual, columns, rows, i + 1, j);
        let rest = meeting_rows(eval, residual, columns, rows, i + 1);
        let k = choose|k: int| 0 <= k < rest.len() && rest[k] == rows[j];
        if residual matches Some(c) ==> is_true(eval(c, rows[i], columns)) {
            assert(all[k + 1] == rows[j]);
        } else {
            assert(all[k] == rows[j]);
        }
    }
}

/// The children of a key are among the rows that a level holds, however it
/// gathers them.
proof fn children_are_held(
    scope: NestedScope,
    table: TableView,
    nested: NestedProjectionView,
    key_at: int,
    keys: Seq<ValueView>,
    n: int,
)
    requires
        0 <= n <= keys.len(),
    ensures
        forall|r: int|
            0 <= r < buckets_of(scope, table, nested, key_at, keys, n).len() ==> meeting_rows(
                scope.eval,
                nested.residual,
                table.schema.column_names(),
                holding_from(table_rows(table), key_at, 0),
                0,
            ).contains(#[trigger] buckets_of(scope, table, nested, key_at, keys, n)[r]),
    decreases n,
{
    if n > 0 {
        children_are_held(scope, table, nested, key_at, keys, n - 1);
        let before = buckets_of(scope, table, nested, key_at, keys, n - 1);
        let all = buckets_of(scope, table, nested, key_at, keys, n);
        let key = keys[n - 1];
        let bucket = children(scope, table, nested, key_at, key);
        let columns = table.schema.column_names();
        let rows = table_rows(table);
        let having = having_from(rows, key_at, key, 0);
        let holding = holding_from(rows, key_at, 0);
        let full = meeting_rows(scope.eval, nested.residual, columns, holding, 0);
        having_rows_stand(rows, key_at, key, 0);
        meeting_rows_stand(scope.eval, nested.residual, columns, having, 0);
        assert forall|r: int| 0 <= r < all.len() implies full.contains(#[trigger] all[r]) by {
            if r < before.len() {
                assert(all[r] == before[r]);
            } else {
                let row = bucket[r - before.len()];
                assert(all[r] == row);
                assert(having.contains(row));
                let h = choose|h: int| 0 <= h < having.len() && having[h] == row;
                assert(rows.contains(having[h]));
                let j = choose|j: int| 0 <= j < rows.len() && rows[j] == row;
                holding_row_is_there(rows, key_at, 0, j);
                let k = choose|k: int| 0 <= k < holding.len() && holding[k] == row;
                meeting_row_is_there(scope.eval, nested.residual, columns, holding, 0, k);
            }
        }
    }
}

/// The rows that hold something in this column.
fn keep_holding(rows: Vec<Vec<Value>>, column: usize) -> (kept: Vec<Vec<Value>>)
    requires
        forall|r: int| 0 <= r < rows.len() ==> column < (#[trigger] rows[r]).len(),
    ensures
        kept.deep_view() == holding_from(rows.deep_view(), column as int, 0),
{
    let ghost views = rows.deep_view();
    let ghost all = holding_from(views, column as int, 0);
    let mut kept: Vec<Vec<Value>> = Vec::new();
    let mut i: usize = 0;
    assert(kept.deep_view() + all =~= all);
    while i < rows.len()
        invariant
            i <= rows.len(),
            views == rows.deep_view(),
            forall|r: int| 0 <= r < rows.len() ==> column < (#[trigger] rows[r]).len(),
            kept.deep_view() + holding_from(views, column as int, i as int) == all,
        decreases rows.len() - i,
    {
        let ghost before = kept.deep_view();
        assert(views[i as int] == rows[i as int].deep_view());
        assert(column < rows[i as int].len());
        if !rows[i][column].is_empty() {
            let copy = clone_row(&rows[i]);
            kept.push(copy);
            assert(kept.deep_view() =~= before.push(views[i as int]));
        }
        assert(kept.deep_view() + holding_from(views, column as int, i + 1) =~= before
            + holding_from(views, column as int, i as int));
        i = i + 1;
    }
    assert(kept.deep_view() =~= all);
    kept
}

/// Bucket `k` of `flat`, which goes from `starts[k]` to `starts[k + 1]`, holds the
/// children of key `k`.
spec fn buckets_stand(
    scope: NestedScope,
    table: TableView,
    nested: NestedProjectionView,
    key_at: int,
    keys: Seq<ValueView>,
    flat: Seq<Seq<ValueView>>,
    starts: Seq<usize>,
) -> bool {
    &&& starts.len() == keys.len() + 1
    &&& forall|k: int|
        0 <= k < keys.len() ==> starts[k] <= starts[k + 1] <= flat.len() && flat.subrange(
            #[trigger] starts[k] as int,
            starts[k + 1] as int,
        ) == children(scope, table, nested, key_at, keys[k])
}

/// The children of every key, one bucket after another.
fn gather_children<
    E: Fn(&Expr, &Vec<Value>, &Vec<String>) -> Value,
    C: Fn(&Value, &Value) -> Order,
    F: Fn(FloatOp) -> u64,
    P: Fn() -> Result<(), QueryError>,
>(
    catalog: &Catalog,
    scalars: &Scalars<E, C, F>,
    table: &Table,
    nested: &NestedProjection,
    key_at: usize,
    keys: &Vec<Value>,
    scope: Ghost<NestedScope>,
    poll: &P,
) -> (gathered: Result<(Vec<Vec<Value>>, Vec<usize>), QueryError>)
    requires
        scalars.ok(),
        call_requires(*poll, ()),
        catalog_fits(catalog.deep_view()),
        indexes_agree(catalog.deep_view()),
        catalog.deep_view().table(nested.table@) == Some(table.deep_view()),
        table.deep_view().schema.column_index(nested.child_key@) == Some(key_at as int),
        key_at < table.schema.columns.len(),
        scope@.eval == scalars.values(),
    ensures
        match gathered {
            Ok((flat, starts)) => {
                &&& flat.deep_view() == buckets_of(
                    scope@,
                    table.deep_view(),
                    nested.deep_view(),
                    key_at as int,
                    keys.deep_view(),
                    keys.len() as int,
                )
                &&& forall|r: int|
                    0 <= r < flat.len() ==> (#[trigger] flat[r]).len()
                        == table.schema.columns.len()
                &&& buckets_stand(
                    scope@,
                    table.deep_view(),
                    nested.deep_view(),
                    key_at as int,
                    keys.deep_view(),
                    flat.deep_view(),
                    starts@,
                )
            },
            Err(error) => call_ensures(*poll, (), Err(error)),
        },
{
    let ghost view = table.deep_view();
    let ghost wanted = nested.deep_view();
    let columns = table.schema.column_names();
    let mut flat: Vec<Vec<Value>> = Vec::new();
    let mut starts: Vec<usize> = Vec::new();
    starts.push(0);
    assert(flat.deep_view() =~= Seq::<Seq<ValueView>>::empty());
    if keys.len() == 0 {
        return Ok((flat, starts));
    }
    let mut having = gather_having(
        catalog,
        table,
        &nested.table,
        &nested.child_key,
        key_at,
        keys,
        poll,
    )?;
    proof {
        found_table_fits(catalog.deep_view(), nested.table@);
        assert forall|r: int| 0 <= r < table_rows(view).len() implies (
        #[trigger] table_rows(view)[r]).len() == view.schema.columns.len() by {
            assert(table_rows(view)[r] == view.rows[r].values);
        }
    }
    let mut k: usize = 0;
    while k < keys.len()
        invariant
            call_requires(*poll, ()),
            k <= keys.len(),
            scalars.ok(),
            scope@.eval == scalars.values(),
            view == table.deep_view(),
            wanted == nested.deep_view(),
            columns.deep_view() == view.schema.column_names(),
            key_at < view.schema.columns.len(),
            forall|r: int|
                0 <= r < table_rows(view).len() ==> (#[trigger] table_rows(view)[r]).len()
                    == view.schema.columns.len(),
            having.len() == keys.len(),
            forall|j: int|
                k <= j < keys.len() && !(keys[j].deep_view() is Empty) ==> (
                #[trigger] having[j]).deep_view() == having_from(
                    table_rows(view),
                    key_at as int,
                    keys[j].deep_view(),
                    0,
                ),
            flat.deep_view() == buckets_of(
                scope@,
                view,
                wanted,
                key_at as int,
                keys.deep_view(),
                k as int,
            ),
            starts.len() == k + 1,
            starts[k as int] == flat.len(),
            forall|r: int|
                0 <= r < flat.len() ==> (#[trigger] flat[r]).len() == view.schema.columns.len(),
            forall|j: int|
                0 <= j < k ==> starts[j] <= starts[j + 1] <= flat.len()
                    && flat.deep_view().subrange(
                    #[trigger] starts[j] as int,
                    starts[j + 1] as int,
                ) == children(scope@, view, wanted, key_at as int, keys[j].deep_view()),
        decreases keys.len() - k,
    {
        poll()?;
        let ghost key = keys[k as int].deep_view();
        let ghost before = flat.deep_view();
        let ghost rows_before = flat@;
        let ghost starts_before = starts@;
        let ghost expected = children(scope@, view, wanted, key_at as int, key);
        let mut bucket: Vec<Vec<Value>> = Vec::new();
        if keys[k].is_empty() {
            assert(bucket.deep_view() =~= expected);
        } else {
            let mut rows: Vec<Vec<Value>> = Vec::new();
            rows.append(&mut having[k]);
            assert(rows.deep_view() =~= having_from(table_rows(view), key_at as int, key, 0));
            bucket = keep_meeting(scalars, &nested.residual, &columns, rows);
            proof {
                rows_having_fit(
                    table_rows(view),
                    key_at as int,
                    key,
                    0,
                    view.schema.columns.len(),
                );
                rows_meeting_fit(
                    scope@.eval,
                    wanted.residual,
                    view.schema.column_names(),
                    having_from(table_rows(view), key_at as int, key, 0),
                    0,
                    view.schema.columns.len(),
                );
            }
        }
        let ghost added = bucket@;
        proof {
            assert forall|r: int| 0 <= r < added.len() implies (#[trigger] added[r]).len()
                == view.schema.columns.len() by {
                assert(bucket.deep_view()[r] == added[r].deep_view());
                assert(added[r].deep_view().len() == added[r].len());
            }
        }
        flat.append(&mut bucket);
        starts.push(flat.len());
        proof {
            assert(flat@ =~= rows_before + added);
            assert(flat.deep_view() =~= before + expected);
            assert(keys.deep_view()[k as int] == key);
            assert forall|j: int| 0 <= j < k + 1 implies starts[j] <= starts[j + 1] <= flat.len()
                && flat.deep_view().subrange(
                #[trigger] starts[j] as int,
                starts[j + 1] as int,
            ) == children(scope@, view, wanted, key_at as int, keys[j].deep_view()) by {
                assert(starts[j] == starts_before[j]);
                if j < k {
                    assert(starts[j + 1] == starts_before[j + 1]);
                    assert(flat.deep_view().subrange(starts[j] as int, starts[j + 1] as int)
                        =~= before.subrange(
                        starts_before[j] as int,
                        starts_before[j + 1] as int,
                    ));
                } else {
                    assert(flat.deep_view().subrange(starts[j] as int, starts[j + 1] as int)
                        =~= expected);
                }
            }
        }
        k = k + 1;
    }
    assert(buckets_stand(
        scope@,
        view,
        wanted,
        key_at as int,
        keys.deep_view(),
        flat.deep_view(),
        starts@,
    )) by {
        assert(keys.deep_view().len() == keys.len());
        assert(flat.deep_view().len() == flat.len());
        assert forall|j: int| 0 <= j < keys.len() implies keys.deep_view()[j]
            == #[trigger] keys[j].deep_view() by {}
    }
    Ok((flat, starts))
}

/// The rows that a level holds, given the children of its keys.
fn hold_rows<
    E: Fn(&Expr, &Vec<Value>, &Vec<String>) -> Value,
    C: Fn(&Value, &Value) -> Order,
    F: Fn(FloatOp) -> u64,
    P: Fn() -> Result<(), QueryError>,
>(
    scalars: &Scalars<E, C, F>,
    table: &Table,
    nested: &NestedProjection,
    key_at: usize,
    flat: &Vec<Vec<Value>>,
    few: bool,
    scope: Ghost<NestedScope>,
    keys: Ghost<Seq<ValueView>>,
    poll: &P,
) -> (held: Result<Vec<Vec<Value>>, QueryError>)
    requires
        scalars.ok(),
        call_requires(*poll, ()),
        scope@.eval == scalars.values(),
        table_fits(table.deep_view()),
        key_at < table.schema.columns.len(),
        few == holds_children_only(scope@.catalog, nested.deep_view(), keys@.len() as int),
        flat.deep_view() == buckets_of(
            scope@,
            table.deep_view(),
            nested.deep_view(),
            key_at as int,
            keys@,
            keys@.len() as int,
        ),
        forall|r: int|
            0 <= r < flat.len() ==> (#[trigger] flat[r]).len() == table.schema.columns.len(),
    ensures
        match held {
            Ok(held) => {
                &&& held.deep_view() == held_rows(
                    scope@,
                    table.deep_view(),
                    nested.deep_view(),
                    key_at as int,
                    keys@,
                )
                &&& forall|r: int|
                    0 <= r < held.len() ==> (#[trigger] held[r]).len()
                        == table.schema.columns.len()
                &&& forall|r: int|
                    0 <= r < flat.deep_view().len() ==> held.deep_view().contains(
                        #[trigger] flat.deep_view()[r],
                    )
            },
            Err(error) => call_ensures(*poll, (), Err(error)),
        },
{
    let ghost view = table.deep_view();
    let ghost all = table_rows(view);
    let held = if few {
        clone_rows(flat)
    } else {
        let columns = table.schema.column_names();
        let rows = scan_rows(table, poll)?;
        proof {
            assert forall|r: int| 0 <= r < rows.len() implies key_at < (#[trigger] rows[r]).len() by {
                assert(rows.deep_view()[r] == rows[r].deep_view());
                assert(view.rows[r].values.len() == view.schema.columns.len());
                assert(rows[r].deep_view().len() == rows[r].len());
            }
            children_are_held(
                scope@,
                view,
                nested.deep_view(),
                key_at as int,
                keys@,
                keys@.len() as int,
            );
            assert forall|r: int| 0 <= r < all.len() implies (#[trigger] all[r]).len()
                == view.schema.columns.len() by {
                assert(all[r] == view.rows[r].values);
            }
            rows_holding_fit(all, key_at as int, 0, view.schema.columns.len());
            rows_meeting_fit(
                scope@.eval,
                nested.deep_view().residual,
                view.schema.column_names(),
                holding_from(all, key_at as int, 0),
                0,
                view.schema.columns.len(),
            );
        }
        let holding = keep_holding(rows, key_at);
        keep_meeting(scalars, &nested.residual, &columns, holding)
    };
    proof {
        assert forall|r: int| 0 <= r < held.len() implies (#[trigger] held[r]).len()
            == table.schema.columns.len() by {
            assert(held.deep_view()[r] == held[r].deep_view());
            assert(held[r].deep_view().len() == held[r].len());
            if few {
                assert(flat.deep_view()[r] == flat[r].deep_view());
                assert(flat[r].deep_view().len() == flat[r].len());
            }
        }
        if few {
            assert forall|r: int| 0 <= r < flat.deep_view().len() implies held.deep_view().contains(
                #[trigger] flat.deep_view()[r],
            ) by {
                assert(held.deep_view()[r] == flat.deep_view()[r]);
            }
        }
    }
    Ok(held)
}

proof fn rows_holding_fit(rows: Seq<Seq<ValueView>>, column: int, i: int, width: nat)
    requires
        0 <= i,
        forall|r: int| 0 <= r < rows.len() ==> (#[trigger] rows[r]).len() == width,
    ensures
        forall|r: int|
            0 <= r < holding_from(rows, column, i).len() ==> (#[trigger] holding_from(
                rows,
                column,
                i,
            )[r]).len() == width,
    decreases rows.len() - i,
{
    if i < rows.len() {
        rows_holding_fit(rows, column, i + 1, width);
        let rest = holding_from(rows, column, i + 1);
        let all = holding_from(rows, column, i);
        assert forall|r: int| 0 <= r < all.len() implies (#[trigger] all[r]).len() == width by {
            if rows[i][column] is Empty {
                assert(all[r] == rest[r]);
            } else if r > 0 {
                assert(all[r] == rest[r - 1]);
            }
        }
    }
}

/// The arrays of every key of a level: its children are gathered, deeper levels
/// are assembled for the keys that they refer to, and each bucket becomes one
/// JSON array.
#[verifier::spinoff_prover]
#[verifier::rlimit(40)]
pub fn assemble_nested_arrays<
    E: Fn(&Expr, &Vec<Value>, &Vec<String>) -> Value,
    C: Fn(&Value, &Value) -> Order,
    F: Fn(FloatOp) -> u64,
    T: Fn(Subject) -> Option<String>,
    S: Fn(Holding) -> usize,
    P: Fn() -> Result<(), QueryError>,
>(
    catalog: &Catalog,
    scalars: &Scalars<E, C, F>,
    wording: &Wording<T>,
    sizes: &Sizes<S>,
    poll: &P,
    nested: &NestedProjection,
    keys: &Vec<Value>,
    budget: &mut Budget,
) -> (arrays: Result<Vec<String>, QueryError>)
    requires
        scalars.ok(),
        wording.ok(),
        sizes.ok(),
        call_requires(*poll, ()),
        catalog_fits(catalog.deep_view()),
        indexes_agree(catalog.deep_view()),
    ensures
        ({
            let expected = level_budget(
                nested_scope(catalog, scalars, wording, sizes),
                nested.deep_view(),
                keys.deep_view(),
                *old(budget),
            );
            match arrays {
                Ok(texts) => expected == Ok::<Budget, ErrorView>(*final(budget)) && level_error(
                    catalog.deep_view(),
                    nested.deep_view(),
                ) is None && texts.len() == keys.len() && forall|k: int|
                    0 <= k < keys.len() ==> (#[trigger] texts[k])@ == level_array(
                        nested_scope(catalog, scalars, wording, sizes),
                        nested.deep_view(),
                        keys[k].deep_view(),
                    ),
                Err(e) => expected == Err::<Budget, ErrorView>(e.deep_view()) || call_ensures(
                    *poll,
                    (),
                    Err(e),
                ),
            }
        }),
    decreases nested,
{
    let ghost scope = nested_scope(catalog, scalars, wording, sizes);
    let ghost view = nested.deep_view();
    let ghost views = nested_fields_view(nested.fields@);
    let table = match catalog.table(&nested.table) {
        Some(table) => table,
        None => {
            return Err(QueryError::TableNotFound(nested.table.clone()));
        },
    };
    let ghost found = table.deep_view();
    let names = collect_level_columns(nested);
    assert(names.deep_view().len() == names.len());
    let ats = resolve_columns(table, &nested.table, &names)?;
    let limit = read_count(nested, "limit", &nested.limit)?;
    let offset = read_count(nested, "offset", &nested.offset)?;
    let skip: u64 = match offset {
        Some(n) => n,
        None => 0,
    };
    let width: usize = nested.fields.len();
    assert(level_columns(view).len() == 1 + width + nested.order.len());
    let field_ats = cut_positions(&ats, 1, 1 + width);
    let order_ats = cut_positions(&ats, 1 + width, ats.len());
    let ghost all_ats = ints(ats@);
    proof {
        assert(level_columns(view)[0] == view.child_key);
        assert(all_ats[0] == ats[0] as int);
        assert(found.schema.column_index(view.child_key) == Some(ats[0] as int)) by {
            first_position(found.schema, view.table, level_columns(view));
        }
    }
    let (flat, starts) = gather_children(
        catalog,
        scalars,
        table,
        nested,
        ats[0],
        keys,
        Ghost(scope),
        poll,
    )?;
    assert(all_ats[0] == ats[0] as int);
    assert(keys.deep_view().len() == keys.len());
    let few: bool = keys.len() <= SCAN_KEY_FILTER_MAX_KEYS || child_index_probe_pays_off(
        catalog,
        &nested.table,
        &nested.child_key,
        keys.len(),
    );
    proof {
        found_table_fits(catalog.deep_view(), nested.table@);
    }
    let held = hold_rows(
        scalars,
        table,
        nested,
        ats[0],
        &flat,
        few,
        Ghost(scope),
        Ghost(keys.deep_view()),
        poll,
    )?;
    let ghost shown = held.deep_view();
    if keys.len() > 0 {
        let narrow = project_positions(&held, &ats);
        sizes.charge(Holding::Rows(&narrow), budget)?;
    }
    let ghost goal = level_budget(scope, view, keys.deep_view(), *old(budget));
    proof {
        assert(ints(field_ats@) == all_ats.subrange(1, 1 + view.fields.len() as int));
        assert(goal == inner_budget(scope, views, ints(field_ats@), shown, 0, *budget));
    }
    let mut sources: Vec<Option<Arrays>> = Vec::new();
    let mut i: usize = 0;
    while i < nested.fields.len()
        invariant
            i <= nested.fields.len(),
            scalars.ok(),
            wording.ok(),
            call_requires(*poll, ()),
            catalog_fits(catalog.deep_view()),
            indexes_agree(catalog.deep_view()),
            scope == nested_scope(catalog, scalars, wording, sizes),
            view == nested.deep_view(),
            views == nested_fields_view(nested.fields@),
            sizes.ok(),
            goal == inner_budget(scope, views, ints(field_ats@), shown, i as int, *budget),
            goal == level_budget(scope, view, keys.deep_view(), *old(budget)),
            shown == held.deep_view(),
            forall|r: int|
                0 <= r < held.len() ==> (#[trigger] held[r]).len() == table.schema.columns.len(),
            forall|r: int|
                0 <= r < flat.deep_view().len() ==> shown.contains(#[trigger] flat.deep_view()[r]),
            field_ats.len() == nested.fields.len(),
            forall|k: int|
                0 <= k < field_ats.len() ==> (#[trigger] field_ats[k]) < table.schema.columns.len(),
            forall|r: int|
                0 <= r < flat.len() ==> (#[trigger] flat[r]).len() == table.schema.columns.len(),
            sources.len() == i,
            sources_hold(scope, views, ints(field_ats@), sources@, flat.deep_view(), i as int),
        decreases nested.fields.len() - i,
    {
        assert(views[i as int] == nested_field_view(nested.fields[i as int]));
        let ghost before = sources@;
        let column: usize = field_ats[i];
        assert(ints(field_ats@)[i as int] == column as int);
        match &nested.fields[i] {
            NestedField::Scalar { .. } => {
                sources.push(None);
            },
            NestedField::Nested(inner) => {
                let ghost inner_view = nested_view(**inner);
                assert(inner.deep_view() == inner_view);
                assert(forall|r: int| 0 <= r < held.len() ==> column < (#[trigger] held[r]).len());
                let found_keys = distinct_non_null(&held, column);
                proof {
                    assert(shown.len() == held.len());
                    distinct_values_hold(shown, column as int, held.len() as int);
                }
                let values = single_values(&found_keys);
                proof {
                    assert(values.deep_view() =~= key_values(found_keys@));
                    assert forall|r: int|
                        0 <= r < flat.deep_view().len() && !(flat.deep_view()[r][column as int]
                            is Empty) implies found_keys@.contains(
                        seq![#[trigger] flat.deep_view()[r][column as int]],
                    ) by {
                        let row = flat.deep_view()[r];
                        assert(shown.contains(row));
                        let j = choose|j: int| 0 <= j < shown.len() && shown[j] == row;
                        assert(found_keys@.contains(seq![shown[j][column as int]]));
                    }
                }
                let texts = assemble_nested_arrays(
                    catalog,
                    scalars,
                    wording,
                    sizes,
                    poll,
                    inner,
                    &values,
                    budget,
                )?;
                let arrays = Arrays { keys: found_keys, texts };
                assert(arrays_hold(scope, inner_view, arrays));
                sources.push(Some(arrays));
            },
        }
        proof {
            assert forall|j: int|
                #![trigger views[j]]
                0 <= j < i + 1 implies match views[j] {
                NestedFieldView::Scalar { .. } => true,
                NestedFieldView::Nested(inner) => sources@[j] matches Some(arrays) && arrays_hold(
                    scope,
                    *inner,
                    arrays,
                ) && forall|r: int|
                    0 <= r < flat.deep_view().len() && !(flat.deep_view()[r][ints(field_ats@)[j]]
                        is Empty) ==> arrays.keys@.contains(
                        seq![#[trigger] flat.deep_view()[r][ints(field_ats@)[j]]],
                    ),
            } by {
                if j < i {
                    assert(sources@[j] == before[j]);
                }
            }
        }
        i = i + 1;
    }
    assert(level_error(catalog.deep_view(), view) is None && inner_error(
        catalog.deep_view(),
        views,
        0,
    ) is None) by {
        assembled_levels_stand(scope, view, keys.deep_view(), *old(budget));
    }
    let mut arrays: Vec<String> = Vec::new();
    let mut k: usize = 0;
    while k < keys.len()
        invariant
            k <= keys.len(),
            scalars.ok(),
            wording.ok(),
            call_requires(*poll, ()),
            scope == nested_scope(catalog, scalars, wording, sizes),
            view == nested.deep_view(),
            views == nested_fields_view(nested.fields@),
            found == table.deep_view(),
            catalog.deep_view().table(nested.table@) == Some(found),
            level_error(catalog.deep_view(), view) is None,
            inner_error(catalog.deep_view(), views, 0) is None,
            level_budget(scope, view, keys.deep_view(), *old(budget)) == Ok::<Budget, ErrorView>(
                *budget,
            ),
            column_positions(found.schema, view.table, level_columns(view), 0) == Ok::<
                Seq<int>,
                ErrorView,
            >(all_ats),
            all_ats == ints(ats@),
            ats.len() == 1 + nested.fields.len() + nested.order.len(),
            ints(field_ats@) == all_ats.subrange(1, 1 + nested.fields.len() as int),
            ints(order_ats@) == all_ats.subrange(
                1 + nested.fields.len() as int,
                all_ats.len() as int,
            ),
            field_ats.len() == nested.fields.len(),
            order_ats.len() == nested.order.len(),
            sources.len() == nested.fields.len(),
            forall|r: int|
                0 <= r < flat.len() ==> (#[trigger] flat[r]).len() == table.schema.columns.len(),
            forall|j: int|
                0 <= j < field_ats.len() ==> (#[trigger] field_ats[j]) < table.schema.columns.len(),
            forall|j: int|
                0 <= j < order_ats.len() ==> (#[trigger] order_ats[j]) < table.schema.columns.len(),
            sources_hold(
                scope,
                views,
                ints(field_ats@),
                sources@,
                flat.deep_view(),
                nested.fields.len() as int,
            ),
            nested_count(nested.name@, "limit"@, nested.limit.deep_view()) == Ok::<
                Option<int>,
                ErrorView,
            >(
                match limit {
                    Some(n) => Some(n as int),
                    None => None,
                },
            ),
            skip == (match nested_count(nested.name@, "offset"@, nested.offset.deep_view()) {
                Ok(Some(n)) => n,
                _ => 0,
            }),
            keys.deep_view().len() == keys.len(),
            buckets_stand(
                scope,
                found,
                view,
                all_ats[0],
                keys.deep_view(),
                flat.deep_view(),
                starts@,
            ),
            arrays.len() == k,
            forall|j: int|
                0 <= j < k ==> (#[trigger] arrays[j])@ == level_array(
                    scope,
                    view,
                    keys[j].deep_view(),
                ),
        decreases keys.len() - k,
    {
        assert(keys.deep_view()[k as int] == keys[k as int].deep_view());
        assert(flat.deep_view().len() == flat.len());
        assert(starts[k as int] <= starts[k + 1]);
        let array = bucket_array(
            scalars,
            wording,
            poll,
            nested,
            &field_ats,
            &order_ats,
            limit,
            skip,
            &sources,
            &flat,
            starts[k],
            starts[k + 1],
            Ghost(scope),
            Ghost(table.schema.columns.len() as int),
        )?;
        assert(array@ == level_array(scope, view, keys[k as int].deep_view()));
        arrays.push(array);
        k = k + 1;
    }
    Ok(arrays)
}

/// The first of the positions is that of the first name.
proof fn first_position(schema: SchemaView, table: Seq<char>, names: Seq<Seq<char>>)
    requires
        names.len() > 0,
        column_positions(schema, table, names, 0) is Ok,
    ensures
        schema.column_index(names[0]) == Some(column_positions(schema, table, names, 0)->Ok_0[0]),
{
    match schema.column_index(names[0]) {
        Some(at) => {
            let rest = column_positions(schema, table, names, 1)->Ok_0;
            assert((seq![at] + rest)[0] == at);
        },
        None => {},
    }
}

/// What a nested projection reads.
pub open spec fn nested_scope<
    E: Fn(&Expr, &Vec<Value>, &Vec<String>) -> Value,
    C: Fn(&Value, &Value) -> Order,
    F: Fn(FloatOp) -> u64,
    T: Fn(Subject) -> Option<String>,
    S: Fn(Holding) -> usize,
>(
    catalog: &Catalog,
    scalars: &Scalars<E, C, F>,
    wording: &Wording<T>,
    sizes: &Sizes<S>,
) -> NestedScope {
    NestedScope {
        catalog: catalog.deep_view(),
        eval: scalars.values(),
        order: scalars.ordering(),
        words: wording.model@,
        sizes: sizes.model@,
    }
}

/// The value of the first row from `i` on that repeats an earlier one's, missing
/// values aside.
pub open spec fn duplicate_from(rows: Seq<Seq<ValueView>>, column: int, i: int) -> Option<ValueView>
    decreases rows.len() - i,
{
    if i < 0 || i >= rows.len() {
        None
    } else if !(rows[i][column] is Empty) && exists|j: int|
        0 <= j < i && #[trigger] rows[j][column] == rows[i][column] {
        Some(rows[i][column])
    } else {
        duplicate_from(rows, column, i + 1)
    }
}

/// The error for a hop through a key that is not unique.
pub open spec fn repeated_key_error(
    words: WordingModel,
    link: Seq<char>,
    hop: ScalarLinkHopView,
    key: ValueView,
) -> ErrorView {
    ErrorView::Execution(
        "scalar link `"@ + link + "`: key column `"@ + hop.table + "."@ + hop.key_col
            + "` is not unique (duplicate value "@ + worded(
            words,
            SubjectView::Value(key),
        ) + "); a scalar link requires a unique target key"@,
    )
}

/// Whether a hop looks its keys up: its key is unique, and looking up pays off.
pub open spec fn hop_probes(catalog: CatalogView, hop: ScalarLinkHopView, n_keys: int) -> bool {
    catalog.is_index_unique(hop.table, hop.key_col) == Some(true) && probe_pays_off(
        catalog,
        hop.table,
        hop.key_col,
        n_keys,
    )
}

/// The rows that looking up the first `n` keys finds: one for each that leads
/// somewhere.
pub open spec fn found_rows(table: TableView, key_at: int, keys: Seq<ValueView>, n: int) -> Seq<
    Seq<ValueView>,
>
    decreases n,
{
    if n <= 0 {
        Seq::empty()
    } else {
        let before = found_rows(table, key_at, keys, n - 1);
        let rows = having_from(table_rows(table), key_at, keys[n - 1], 0);
        if rows.len() == 0 {
            before
        } else {
            before.push(rows[0])
        }
    }
}

/// The budget that a hop for `keys` leaves: the keys and the values that it
/// holds are counted. It is refused where its table or a column is missing, or
/// where it scans and its key is not unique.
pub open spec fn hop_budget(
    scope: NestedScope,
    link: Seq<char>,
    hop: ScalarLinkHopView,
    keys: Seq<ValueView>,
    budget: Budget,
) -> Result<Budget, ErrorView> {
    match scope.catalog.table(hop.table) {
        None => Err(ErrorView::TableNotFound(hop.table)),
        Some(table) => match (
            table.schema.column_index(hop.key_col),
            table.schema.column_index(hop.out_col),
        ) {
            (None, _) => Err(ErrorView::ColumnNotFound { table: hop.table, column: hop.key_col }),
            (_, None) => Err(ErrorView::ColumnNotFound { table: hop.table, column: hop.out_col }),
            (Some(key_at), Some(out_at)) => {
                let probes = hop_probes(scope.catalog, hop, keys.len() as int);
                let held = if probes {
                    found_rows(table, key_at, keys, keys.len() as int)
                } else {
                    holding_from(table_rows(table), key_at, 0)
                };
                match hold_charge(
                    scope.sizes,
                    HoldingView::Rows(projected(held, seq![key_at, out_at])),
                    budget,
                ) {
                    Err(e) => Err(e),
                    Ok(left) => if probes {
                        Ok(left)
                    } else {
                        match duplicate_from(table_rows(table), key_at, 0) {
                            Some(key) => Err(repeated_key_error(scope.words, link, hop, key)),
                            None => Ok(left),
                        }
                    },
                }
            },
        },
    }
}

/// Each value as a row of its own.
pub open spec fn single_rows(values: Seq<ValueView>) -> Seq<Seq<ValueView>> {
    Seq::new(values.len(), |k: int| seq![values[k]])
}

/// The keys that hop `i` is taken for: what the hops before it reach, each once.
pub open spec fn needed_keys(
    catalog: CatalogView,
    hops: Seq<ScalarLinkHopView>,
    keys: Seq<ValueView>,
    i: int,
) -> Seq<ValueView> {
    key_values(
        distinct_values(
            single_rows(Seq::new(keys.len(), |k: int| link_value(catalog, hops, keys[k], i))),
            0,
            keys.len() as int,
        ),
    )
}

/// The budget that the hops from `i` on leave.
pub open spec fn hops_budget(
    scope: NestedScope,
    link: Seq<char>,
    hops: Seq<ScalarLinkHopView>,
    keys: Seq<ValueView>,
    i: int,
    budget: Budget,
) -> Result<Budget, ErrorView>
    decreases hops.len() - i,
{
    if i < 0 || i >= hops.len() {
        Ok(budget)
    } else {
        match hop_budget(
            scope,
            link,
            hops[i],
            needed_keys(scope.catalog, hops, keys, i),
            budget,
        ) {
            Err(e) => Err(e),
            Ok(left) => hops_budget(scope, link, hops, keys, i + 1, left),
        }
    }
}

/// What a hop reaches: the value of the row that holds the key; nothing where
/// the key is missing or leads nowhere.
pub open spec fn hop_value(catalog: CatalogView, hop: ScalarLinkHopView, key: ValueView) -> ValueView {
    match catalog.table(hop.table) {
        None => ValueView::Empty,
        Some(table) => {
            let key_at = table.schema.column_index(hop.key_col)->0;
            let out_at = table.schema.column_index(hop.out_col)->0;
            let rows = having_from(table_rows(table), key_at, key, 0);
            if key is Empty || rows.len() == 0 {
                ValueView::Empty
            } else {
                rows[0][out_at]
            }
        },
    }
}

/// What a path over links reaches from `key`, after its first `n` hops.
pub open spec fn link_value(
    catalog: CatalogView,
    hops: Seq<ScalarLinkHopView>,
    key: ValueView,
    n: int,
) -> ValueView
    decreases n,
{
    if n <= 0 {
        key
    } else {
        hop_value(catalog, hops[n - 1], link_value(catalog, hops, key, n - 1))
    }
}

/// The first value that repeats an earlier one, missing values aside.
pub fn find_duplicate(rows: &Vec<Vec<Value>>, column: usize) -> (repeated: Option<Value>)
    requires
        forall|i: int| 0 <= i < rows.len() ==> column < (#[trigger] rows[i]).len(),
    ensures
        repeated.deep_view() == duplicate_from(rows.deep_view(), column as int, 0),
{
    let ghost views = rows.deep_view();
    let mut seen = KeyTable::new();
    let mut i: usize = 0;
    while i < rows.len()
        invariant
            i <= rows.len(),
            views == rows.deep_view(),
            forall|j: int| 0 <= j < rows.len() ==> column < (#[trigger] rows[j]).len(),
            seen.wf(),
            duplicate_from(views, column as int, 0) == duplicate_from(
                views,
                column as int,
                i as int,
            ),
            forall|j: int|
                0 <= j < i && !(views[j][column as int] is Empty) ==> seen@.contains(
                    seq![#[trigger] views[j][column as int]],
                ),
            forall|k: int|
                0 <= k < seen@.len() ==> exists|j: int|
                    0 <= j < i && seq![#[trigger] views[j][column as int]] == #[trigger] seen@[k],
        decreases rows.len() - i,
    {
        assert(views[i as int] == rows[i as int].deep_view());
        assert(column < rows[i as int].len());
        if !rows[i][column].is_empty() {
            let ghost value = views[i as int][column as int];
            let ghost before = seen@;
            let mut single: Vec<Value> = Vec::new();
            single.push(rows[i][column].clone());
            assert(single.deep_view() =~= seq![value]);
            match seen.find(&single) {
                Some(k) => {
                    proof {
                        let j = choose|j: int|
                            0 <= j < i && seq![#[trigger] views[j][column as int]] == seen@[k as int];
                        assert(seq![views[j][column as int]][0] == seq![value][0]);
                        assert(views[j][column as int] == value);
                    }
                    return Some(rows[i][column].clone());
                },
                None => {},
            }
            proof {
                if exists|j: int|
                    0 <= j < i && #[trigger] views[j][column as int]
                        == views[i as int][column as int] {
                    let j = choose|j: int|
                        0 <= j < i && #[trigger] views[j][column as int]
                            == views[i as int][column as int];
                    assert(seen@.contains(seq![views[j][column as int]]));
                    assert(false);
                }
            }
            let number: usize = seen.find_or_insert(single);
            proof {
                assert(seen@ == before.push(seq![value]));
                assert forall|j: int|
                    0 <= j < i + 1 && !(views[j][column as int] is Empty) implies seen@.contains(
                    seq![#[trigger] views[j][column as int]],
                ) by {
                    let one = seq![views[j][column as int]];
                    if j < i {
                        assert(before.contains(one));
                        let k = choose|k: int| 0 <= k < before.len() && before[k] == one;
                        assert(seen@[k] == one);
                    } else {
                        assert(seen@[before.len() as int] == one);
                    }
                }
                assert forall|k: int| 0 <= k < seen@.len() implies exists|j: int|
                    0 <= j < i + 1 && seq![#[trigger] views[j][column as int]]
                        == #[trigger] seen@[k] by {
                    if k < before.len() {
                        assert(before[k] == seen@[k]);
                        let j = choose|j: int|
                            0 <= j < i && seq![#[trigger] views[j][column as int]] == before[k];
                        assert(seq![views[j][column as int]] == seen@[k]);
                    } else {
                        assert(seq![views[i as int][column as int]] == seen@[k]);
                    }
                }
            }
        }
        i = i + 1;
    }
    None
}

/// One hop for several keys.
fn follow_hop<
    E: Fn(&Expr, &Vec<Value>, &Vec<String>) -> Value,
    C: Fn(&Value, &Value) -> Order,
    F: Fn(FloatOp) -> u64,
    T: Fn(Subject) -> Option<String>,
    S: Fn(Holding) -> usize,
    P: Fn() -> Result<(), QueryError>,
>(
    catalog: &Catalog,
    scalars: &Scalars<E, C, F>,
    wording: &Wording<T>,
    sizes: &Sizes<S>,
    poll: &P,
    link: &String,
    hop: &ScalarLinkHop,
    keys: &Vec<Value>,
    budget: &mut Budget,
) -> (reached: Result<Vec<Value>, QueryError>)
    requires
        scalars.ok(),
        wording.ok(),
        sizes.ok(),
        call_requires(*poll, ()),
        catalog_fits(catalog.deep_view()),
        indexes_agree(catalog.deep_view()),
        forall|k: int| 0 <= k < keys.len() ==> !((#[trigger] keys[k]).deep_view() is Empty),
    ensures
        ({
            let expected = hop_budget(
                nested_scope(catalog, scalars, wording, sizes),
                link@,
                hop.deep_view(),
                keys.deep_view(),
                *old(budget),
            );
            match reached {
                Ok(values) => expected == Ok::<Budget, ErrorView>(*final(budget)) && values.len()
                    == keys.len() && forall|k: int|
                    0 <= k < keys.len() ==> (#[trigger] values[k]).deep_view() == hop_value(
                        catalog.deep_view(),
                        hop.deep_view(),
                        keys[k].deep_view(),
                    ),
                Err(e) => expected == Err::<Budget, ErrorView>(e.deep_view()) || call_ensures(
                    *poll,
                    (),
                    Err(e),
                ),
            }
        }),
{
    let table = match catalog.table(&hop.table) {
        Some(table) => table,
        None => {
            return Err(QueryError::TableNotFound(hop.table.clone()));
        },
    };
    let ghost view = table.deep_view();
    let key_at: usize = match table.schema.column_index(&hop.key_col) {
        Some(at) => at,
        None => {
            return Err(
                QueryError::ColumnNotFound { table: hop.table.clone(), column: hop.key_col.clone() },
            );
        },
    };
    let out_at: usize = match table.schema.column_index(&hop.out_col) {
        Some(at) => at,
        None => {
            return Err(
                QueryError::ColumnNotFound { table: hop.table.clone(), column: hop.out_col.clone() },
            );
        },
    };
    proof {
        found_table_fits(catalog.deep_view(), hop.table@);
        assert(keys.deep_view().len() == keys.len());
    }
    let unique: bool = match catalog.is_index_unique(&hop.table, &hop.key_col) {
        Some(unique) => unique,
        None => false,
    };
    let probes: bool = unique && child_index_probe_pays_off(
        catalog,
        &hop.table,
        &hop.key_col,
        keys.len(),
    );
    let gathered = gather_having(catalog, table, &hop.table, &hop.key_col, key_at, keys, poll)?;
    let mut pair: Vec<usize> = Vec::new();
    pair.push(key_at);
    pair.push(out_at);
    assert(ints(pair@) =~= seq![key_at as int, out_at as int]);
    if probes {
        let held = first_rows(table, key_at, keys, &gathered);
        let narrow = project_positions(&held, &pair);
        sizes.charge(Holding::Rows(&narrow), budget)?;
    } else {
        let rows = scan_rows(table, poll)?;
        proof {
            assert forall|i: int| 0 <= i < rows.len() implies key_at < (#[trigger] rows[i]).len() by {
                assert(rows.deep_view()[i] == rows[i].deep_view());
                assert(view.rows[i].values.len() == view.schema.columns.len());
                assert(rows[i].deep_view().len() == rows[i].len());
            }
        }
        let repeated = find_duplicate(&rows, key_at);
        let held = keep_holding(rows, key_at);
        proof {
            let all = table_rows(view);
            assert forall|r: int| 0 <= r < all.len() implies (#[trigger] all[r]).len()
                == view.schema.columns.len() by {
                assert(all[r] == view.rows[r].values);
            }
            rows_holding_fit(all, key_at as int, 0, view.schema.columns.len());
            assert forall|r: int| 0 <= r < held.len() implies (#[trigger] held[r]).len()
                == table.schema.columns.len() by {
                assert(held.deep_view()[r] == held[r].deep_view());
                assert(held[r].deep_view().len() == held[r].len());
            }
        }
        let narrow = project_positions(&held, &pair);
        sizes.charge(Holding::Rows(&narrow), budget)?;
        match repeated {
            Some(key) => {
                let mut message = "scalar link `".to_owned();
                push_text(&mut message, link.as_str());
                push_text(&mut message, "`: key column `");
                push_text(&mut message, hop.table.as_str());
                push_text(&mut message, ".");
                push_text(&mut message, hop.key_col.as_str());
                push_text(&mut message, "` is not unique (duplicate value ");
                let spelled = wording.word(Subject::Value(&key));
                push_text(&mut message, spelled.as_str());
                push_text(&mut message, "); a scalar link requires a unique target key");
                return Err(QueryError::Execution(message));
            },
            None => {},
        }
    }
    Ok(hop_results(table, hop, key_at, out_at, keys, &gathered, Ghost(catalog.deep_view())))
}

/// The first row of each key that leads somewhere.
fn first_rows(
    table: &Table,
    key_at: usize,
    keys: &Vec<Value>,
    gathered: &Vec<Vec<Vec<Value>>>,
) -> (held: Vec<Vec<Value>>)
    requires
        table_fits(table.deep_view()),
        gathered.len() == keys.len(),
        forall|j: int|
            0 <= j < keys.len() ==> (#[trigger] gathered[j]).deep_view() == having_from(
                table_rows(table.deep_view()),
                key_at as int,
                keys[j].deep_view(),
                0,
            ),
    ensures
        held.deep_view() == found_rows(
            table.deep_view(),
            key_at as int,
            keys.deep_view(),
            keys.len() as int,
        ),
        forall|r: int|
            0 <= r < held.len() ==> (#[trigger] held[r]).len() == table.schema.columns.len(),
{
    let ghost view = table.deep_view();
    let ghost all = table_rows(view);
    proof {
        assert forall|r: int| 0 <= r < all.len() implies (#[trigger] all[r]).len()
            == view.schema.columns.len() by {
            assert(all[r] == view.rows[r].values);
        }
    }
    let mut held: Vec<Vec<Value>> = Vec::new();
    let mut k: usize = 0;
    assert(held.deep_view() =~= Seq::<Seq<ValueView>>::empty());
    while k < keys.len()
        invariant
            k <= keys.len(),
            view == table.deep_view(),
            all == table_rows(view),
            gathered.len() == keys.len(),
            forall|j: int|
                0 <= j < keys.len() ==> (#[trigger] gathered[j]).deep_view() == having_from(
                    all,
                    key_at as int,
                    keys[j].deep_view(),
                    0,
                ),
            forall|r: int|
                0 <= r < all.len() ==> (#[trigger] all[r]).len() == view.schema.columns.len(),
            held.deep_view() == found_rows(view, key_at as int, keys.deep_view(), k as int),
            forall|r: int|
                0 <= r < held.len() ==> (#[trigger] held[r]).len() == table.schema.columns.len(),
        decreases keys.len() - k,
    {
        let ghost before = held.deep_view();
        let ghost key = keys[k as int].deep_view();
        let ghost rows = having_from(all, key_at as int, key, 0);
        assert(keys.deep_view()[k as int] == key);
        assert(gathered[k as int].deep_view() == rows);
        assert(rows.len() == gathered[k as int].len());
        if gathered[k].len() > 0 {
            proof {
                rows_having_fit(all, key_at as int, key, 0, view.schema.columns.len());
                assert(rows[0] == gathered[k as int][0].deep_view());
            }
            let row = clone_row(&gathered[k][0]);
            assert(row.deep_view().len() == row.len());
            held.push(row);
            assert(held.deep_view() =~= before.push(rows[0]));
        }
        k = k + 1;
    }
    held
}

/// What a hop reaches from each key.
fn hop_results(
    table: &Table,
    hop: &ScalarLinkHop,
    key_at: usize,
    out_at: usize,
    keys: &Vec<Value>,
    gathered: &Vec<Vec<Vec<Value>>>,
    catalog: Ghost<CatalogView>,
) -> (reached: Vec<Value>)
    requires
        table_fits(table.deep_view()),
        catalog@.table(hop.table@) == Some(table.deep_view()),
        table.deep_view().schema.column_index(hop.key_col@) == Some(key_at as int),
        table.deep_view().schema.column_index(hop.out_col@) == Some(out_at as int),
        key_at < table.schema.columns.len(),
        out_at < table.schema.columns.len(),
        gathered.len() == keys.len(),
        forall|j: int|
            0 <= j < keys.len() ==> (#[trigger] gathered[j]).deep_view() == having_from(
                table_rows(table.deep_view()),
                key_at as int,
                keys[j].deep_view(),
                0,
            ),
        forall|k: int| 0 <= k < keys.len() ==> !((#[trigger] keys[k]).deep_view() is Empty),
    ensures
        reached.len() == keys.len(),
        forall|k: int|
            0 <= k < keys.len() ==> (#[trigger] reached[k]).deep_view() == hop_value(
                catalog@,
                hop.deep_view(),
                keys[k].deep_view(),
            ),
{
    let ghost view = table.deep_view();
    let mut reached: Vec<Value> = Vec::new();
    let mut k: usize = 0;
    while k < keys.len()
        invariant
            k <= keys.len(),
            view == table.deep_view(),
            table_fits(view),
            catalog@.table(hop.table@) == Some(view),
            view.schema.column_index(hop.key_col@) == Some(key_at as int),
            view.schema.column_index(hop.out_col@) == Some(out_at as int),
            key_at < view.schema.columns.len(),
            out_at < view.schema.columns.len(),
            gathered.len() == keys.len(),
            forall|j: int|
                0 <= j < keys.len() ==> !((#[trigger] keys[j]).deep_view() is Empty),
            forall|j: int|
                0 <= j < keys.len() ==> (#[trigger] gathered[j]).deep_view() == having_from(
                    table_rows(view),
                    key_at as int,
                    keys[j].deep_view(),
                    0,
                ),
            reached.len() == k,
            forall|j: int|
                0 <= j < k ==> (#[trigger] reached[j]).deep_view() == hop_value(
                    catalog@,
                    hop.deep_view(),
                    keys[j].deep_view(),
                ),
        decreases keys.len() - k,
    {
        let ghost key = keys[k as int].deep_view();
        let ghost rows = having_from(table_rows(view), key_at as int, key, 0);
        assert(gathered[k as int].deep_view() == rows);
        assert(rows.len() == gathered[k as int].len());
        let value = if gathered[k].len() == 0 {
            Value::Empty
        } else {
            proof {
                assert forall|r: int| 0 <= r < table_rows(view).len() implies (
                #[trigger] table_rows(view)[r]).len() == view.schema.columns.len() by {
                    assert(table_rows(view)[r] == view.rows[r].values);
                }
                rows_having_fit(table_rows(view), key_at as int, key, 0, view.schema.columns.len());
                assert(rows[0] == gathered[k as int][0].deep_view());
                assert(rows[0].len() == gathered[k as int][0].len());
            }
            gathered[k][0][out_at].clone()
        };
        reached.push(value);
        k = k + 1;
    }
    reached
}

/// Each value as a row of its own.
fn as_single_rows(values: &Vec<Value>) -> (rows: Vec<Vec<Value>>)
    ensures
        rows.deep_view() == single_rows(values.deep_view()),
        rows.len() == values.len(),
        forall|r: int| 0 <= r < rows.len() ==> (#[trigger] rows[r]).len() == 1,
{
    let ghost views = values.deep_view();
    let mut rows: Vec<Vec<Value>> = Vec::new();
    let mut k: usize = 0;
    while k < values.len()
        invariant
            k <= values.len(),
            views == values.deep_view(),
            rows.len() == k,
            forall|r: int|
                0 <= r < k ==> (#[trigger] rows[r]).deep_view() == seq![views[r]] && rows[r].len()
                    == 1,
        decreases values.len() - k,
    {
        assert(views[k as int] == values[k as int].deep_view());
        let mut single: Vec<Value> = Vec::new();
        single.push(values[k].clone());
        assert(single.deep_view() =~= seq![views[k as int]]);
        rows.push(single);
        k = k + 1;
    }
    assert(rows.deep_view() =~= single_rows(views));
    rows
}

/// What a path over links reaches from each key.
pub fn build_scalar_link_maps<
    E: Fn(&Expr, &Vec<Value>, &Vec<String>) -> Value,
    C: Fn(&Value, &Value) -> Order,
    F: Fn(FloatOp) -> u64,
    T: Fn(Subject) -> Option<String>,
    S: Fn(Holding) -> usize,
    P: Fn() -> Result<(), QueryError>,
>(
    catalog: &Catalog,
    scalars: &Scalars<E, C, F>,
    wording: &Wording<T>,
    sizes: &Sizes<S>,
    poll: &P,
    link: &ScalarLinkField,
    resolved: &ScalarLinkResolved,
    fk_keys: &Vec<Value>,
    budget: &mut Budget,
) -> (reached: Result<Vec<Value>, QueryError>)
    requires
        scalars.ok(),
        wording.ok(),
        sizes.ok(),
        call_requires(*poll, ()),
        catalog_fits(catalog.deep_view()),
        indexes_agree(catalog.deep_view()),
    ensures
        ({
            let expected = hops_budget(
                nested_scope(catalog, scalars, wording, sizes),
                link.name@,
                resolved.hops.deep_view(),
                fk_keys.deep_view(),
                0,
                *old(budget),
            );
            match reached {
                Ok(values) => expected == Ok::<Budget, ErrorView>(*final(budget)) && values.len()
                    == fk_keys.len() && forall|k: int|
                    0 <= k < fk_keys.len() ==> (#[trigger] values[k]).deep_view() == link_value(
                        catalog.deep_view(),
                        resolved.hops.deep_view(),
                        fk_keys[k].deep_view(),
                        resolved.hops.len() as int,
                    ),
                Err(e) => expected == Err::<Budget, ErrorView>(e.deep_view()) || call_ensures(
                    *poll,
                    (),
                    Err(e),
                ),
            }
        }),
{
    let ghost scope = nested_scope(catalog, scalars, wording, sizes);
    let ghost (cat, keys, hops) = (
        catalog.deep_view(),
        fk_keys.deep_view(),
        resolved.hops.deep_view(),
    );
    let ghost goal = hops_budget(scope, link.name@, hops, keys, 0, *budget);
    let mut current = clone_row(fk_keys);
    assert(current.len() == fk_keys.len()) by {
        assert(current.deep_view().len() == current.len());
        assert(fk_keys.deep_view().len() == fk_keys.len());
    }
    assert forall|k: int| 0 <= k < fk_keys.len() implies (#[trigger] current[k]).deep_view()
        == link_value(cat, hops, fk_keys[k].deep_view(), 0) by {
        assert(current.deep_view()[k] == current[k].deep_view());
        assert(fk_keys.deep_view()[k] == fk_keys[k].deep_view());
    }
    let mut i: usize = 0;
    while i < resolved.hops.len()
        invariant
            i <= resolved.hops.len(),
            scalars.ok(),
            wording.ok(),
            sizes.ok(),
            call_requires(*poll, ()),
            catalog_fits(catalog.deep_view()),
            indexes_agree(catalog.deep_view()),
            scope == nested_scope(catalog, scalars, wording, sizes),
            cat == catalog.deep_view(),
            keys == fk_keys.deep_view(),
            hops == resolved.hops.deep_view(),
            goal == hops_budget(scope, link.name@, hops, keys, 0, *old(budget)),
            goal == hops_budget(scope, link.name@, hops, keys, i as int, *budget),
            current.len() == fk_keys.len(),
            forall|k: int|
                0 <= k < fk_keys.len() ==> (#[trigger] current[k]).deep_view() == link_value(
                    cat,
                    hops,
                    fk_keys[k].deep_view(),
                    i as int,
                ),
        decreases resolved.hops.len() - i,
    {
        assert(hops[i as int] == resolved.hops[i as int].deep_view());
        assert(hops.len() == resolved.hops.len());
        let rows = as_single_rows(&current);
        let needed = distinct_non_null(&rows, 0);
        let ghost shown = rows.deep_view();
        proof {
            assert(shown.len() == rows.len());
            assert(current.deep_view() =~= Seq::new(
                keys.len(),
                |k: int| link_value(cat, hops, keys[k], i as int),
            )) by {
                assert(keys.len() == fk_keys.len());
                assert forall|k: int| 0 <= k < keys.len() implies #[trigger] current.deep_view()[k]
                    == link_value(cat, hops, keys[k], i as int) by {
                    assert(current[k].deep_view() == link_value(
                        cat,
                        hops,
                        fk_keys[k].deep_view(),
                        i as int,
                    ));
                    assert(keys[k] == fk_keys[k].deep_view());
                }
            }
            distinct_values_hold(shown, 0, rows.len() as int);
        }
        let values = single_values(&needed);
        proof {
            assert(values.deep_view() =~= key_values(needed@));
            assert(values.deep_view() == needed_keys(cat, hops, keys, i as int));
            assert forall|k: int| 0 <= k < values.len() implies !((
            #[trigger] values[k]).deep_view() is Empty) by {
                assert(values[k].deep_view() == needed@[k][0]);
            }
        }
        let reached = follow_hop(
            catalog,
            scalars,
            wording,
            sizes,
            poll,
            &link.name,
            &resolved.hops[i],
            &values,
            budget,
        )?;
        let mut next: Vec<Value> = Vec::new();
        let mut k: usize = 0;
        while k < current.len()
            invariant
                k <= current.len(),
                current.len() == fk_keys.len(),
                current.len() == rows.len(),
                i < resolved.hops.len(),
                hops.len() == resolved.hops.len(),
                hops[i as int] == resolved.hops[i as int].deep_view(),
                shown == single_rows(current.deep_view()),
                shown.len() == rows.len(),
                needed.wf(),
                needed@ == distinct_values(shown, 0, rows.len() as int),
                forall|j: int|
                    0 <= j < rows.len() && !(shown[j][0] is Empty) ==> needed@.contains(
                        seq![#[trigger] shown[j][0]],
                    ),
                values.len() == needed@.len(),
                forall|j: int|
                    0 <= j < values.len() ==> (#[trigger] values[j]).deep_view() == needed@[j][0],
                reached.len() == values.len(),
                forall|j: int|
                    0 <= j < values.len() ==> (#[trigger] reached[j]).deep_view() == hop_value(
                        cat,
                        hops[i as int],
                        values[j].deep_view(),
                    ),
                forall|j: int|
                    0 <= j < fk_keys.len() ==> (#[trigger] current[j]).deep_view() == link_value(
                        cat,
                        hops,
                        fk_keys[j].deep_view(),
                        i as int,
                    ),
                next.len() == k,
                forall|j: int|
                    0 <= j < k ==> (#[trigger] next[j]).deep_view() == link_value(
                        cat,
                        hops,
                        fk_keys[j].deep_view(),
                        i + 1,
                    ),
            decreases current.len() - k,
        {
            let ghost key = current[k as int].deep_view();
            assert(current.deep_view()[k as int] == key);
            assert(shown[k as int][0] == key);
            let value = if current[k].is_empty() {
                Value::Empty
            } else {
                let mut single: Vec<Value> = Vec::new();
                single.push(current[k].clone());
                assert(single.deep_view() =~= seq![key]);
                match needed.find(&single) {
                    Some(at) => {
                        assert(needed@[at as int][0] == key);
                        assert(values[at as int].deep_view() == key);
                        reached[at].clone()
                    },
                    None => {
                        assert(needed@.contains(seq![shown[k as int][0]]));
                        assert(false);
                        Value::Empty
                    },
                }
            };
            assert(value.deep_view() == hop_value(cat, hops[i as int], key));
            next.push(value);
            k = k + 1;
        }
        current = next;
        i = i + 1;
    }
    Ok(current)
}

/// A missing key reaches nothing, however far the path goes.
pub proof fn missing_key_reaches_nothing(catalog: CatalogView, hops: Seq<ScalarLinkHopView>, n: int)
    ensures
        link_value(catalog, hops, ValueView::Empty, n) == ValueView::Empty,
    decreases n,
{
    if n > 0 {
        missing_key_reaches_nothing(catalog, hops, n - 1);
    }
}

/// How JSON text is stored: the bytes of the document, or why it is refused.
pub type DocumentModel = spec_fn(Seq<char>) -> Result<Seq<u8>, Seq<char>>;

/// The storage form of JSON text, as the embedding program supplies it, with the
/// function that it computes.
pub struct Documents<J> {
    pub run: J,
    pub model: Ghost<DocumentModel>,
}

/// `run` returns, and returns what `model` says.
pub open spec fn stores_as<J: Fn(&String) -> Result<Vec<u8>, String>>(
    run: J,
    model: DocumentModel,
) -> bool {
    &&& forall|text: &String| #[trigger] call_requires(run, (text,))
    &&& forall|text: &String, result: Result<Vec<u8>, String>| #[trigger]
        call_ensures(run, (text,), result) ==> match result {
            Ok(bytes) => model(text@) == Ok::<Seq<u8>, Seq<char>>(bytes@),
            Err(m) => model(text@) == Err::<Seq<u8>, Seq<char>>(m@),
        }
}

impl<J: Fn(&String) -> Result<Vec<u8>, String>> Documents<J> {
    /// The storage form is total and a function of the text.
    pub open spec fn ok(&self) -> bool {
        stores_as(self.run, self.model@)
    }

    /// A storage form that is a function of the text.
    pub fn new(run: J) -> (documents: Self)
        requires
            exists|model: DocumentModel| #[trigger] stores_as(run, model),
        ensures
            documents.ok(),
            documents.run == run,
    {
        let ghost model = choose|model: DocumentModel| #[trigger] stores_as(run, model);
        Documents { run, model: Ghost(model) }
    }

    /// The document that a JSON text stands for.
    pub fn parse(&self, text: &String) -> (document: Result<Vec<u8>, String>)
        requires
            self.ok(),
        ensures
            match document {
                Ok(bytes) => (self.model@)(text@) == Ok::<Seq<u8>, Seq<char>>(bytes@),
                Err(m) => (self.model@)(text@) == Err::<Seq<u8>, Seq<char>>(m@),
            },
    {
        let document = (self.run)(text);
        document
    }
}

/// What a nesting projection reads of its parent rows.
pub struct ParentView {
    pub columns: Seq<Seq<char>>,
    pub rows: Seq<Seq<ValueView>>,
}

/// The keys that the parent rows hold in a column, each once.
pub open spec fn parent_keys(parent: ParentView, column: int) -> Seq<ValueView> {
    key_values(distinct_values(parent.rows, column, parent.rows.len() as int))
}

/// The budget that building a field of a nesting projection leaves, or why it is
/// refused.
pub open spec fn field_budget(
    scope: NestedScope,
    parent: ParentView,
    field: NestedProjectFieldView,
    budget: Budget,
) -> Result<Budget, ErrorView> {
    match field {
        NestedProjectFieldView::Plain(_) => Ok(budget),
        NestedProjectFieldView::Nested(nested) => match name_position(
            parent.columns,
            nested.parent_key,
        ) {
            None => Err(
                ErrorView::Execution(
                    "nested projection `"@ + nested.name + "` outer column `"@ + nested.parent_key
                        + "` not found"@,
                ),
            ),
            Some(at) => level_budget(scope, nested, parent_keys(parent, at), budget),
        },
        NestedProjectFieldView::Link(link) => match link.resolved {
            None => Err(
                ErrorView::Execution(
                    "scalar link path `"@ + link.name + "` was not resolved before execution"@,
                ),
            ),
            Some(resolved) => match name_position(parent.columns, resolved.first_fk) {
                None => Err(
                    ErrorView::Execution(
                        "scalar link `"@ + link.name + "` FK column `"@ + resolved.first_fk
                            + "` not found on the outer scan"@,
                    ),
                ),
                Some(at) => hops_budget(
                    scope,
                    link.name,
                    resolved.hops,
                    parent_keys(parent, at),
                    0,
                    budget,
                ),
            },
        },
    }
}

/// The budget that building the fields from `i` on leaves.
pub open spec fn fields_budget(
    scope: NestedScope,
    parent: ParentView,
    fields: Seq<NestedProjectFieldView>,
    i: int,
    budget: Budget,
) -> Result<Budget, ErrorView>
    decreases fields.len() - i,
{
    if i < 0 || i >= fields.len() {
        Ok(budget)
    } else {
        match field_budget(scope, parent, fields[i], budget) {
            Err(e) => Err(e),
            Ok(left) => fields_budget(scope, parent, fields, i + 1, left),
        }
    }
}

/// The value of a field on a parent row: an expression, the document of an
/// array, or what a path over links reaches.
pub open spec fn nesting_value(
    scope: NestedScope,
    documents: DocumentModel,
    columns: Seq<Seq<char>>,
    field: NestedProjectFieldView,
    row: Seq<ValueView>,
) -> Result<ValueView, ErrorView> {
    match field {
        NestedProjectFieldView::Plain(plain) => Ok((scope.eval)(plain.expr, row, columns)),
        NestedProjectFieldView::Nested(nested) => {
            let key = row[name_position(columns, nested.parent_key)->0];
            match documents(level_array(scope, nested, key)) {
                Ok(bytes) => Ok(ValueView::Json(bytes)),
                Err(m) => Err(
                    ErrorView::Execution(
                        "nested projection `"@ + nested.name + "` produced invalid JSON: "@ + m,
                    ),
                ),
            }
        },
        NestedProjectFieldView::Link(link) => {
            let resolved = link.resolved->0;
            let key = row[name_position(columns, resolved.first_fk)->0];
            Ok(link_value(scope.catalog, resolved.hops, key, resolved.hops.len() as int))
        },
    }
}

/// The values of the fields from `i` on.
pub open spec fn nesting_values(
    scope: NestedScope,
    documents: DocumentModel,
    columns: Seq<Seq<char>>,
    fields: Seq<NestedProjectFieldView>,
    row: Seq<ValueView>,
    i: int,
) -> Result<Seq<ValueView>, ErrorView>
    decreases fields.len() - i,
{
    if i < 0 || i >= fields.len() {
        Ok(Seq::empty())
    } else {
        match nesting_value(scope, documents, columns, fields[i], row) {
            Ok(value) => prefixed(
                seq![value],
                nesting_values(scope, documents, columns, fields, row, i + 1),
            ),
            Err(e) => Err(e),
        }
    }
}

/// The rows of a nesting projection from parent row `k` on.
pub open spec fn nesting_rows(
    scope: NestedScope,
    documents: DocumentModel,
    parent: ParentView,
    fields: Seq<NestedProjectFieldView>,
    k: int,
) -> Result<Seq<Seq<ValueView>>, ErrorView>
    decreases parent.rows.len() - k,
{
    if k < 0 || k >= parent.rows.len() {
        Ok(Seq::empty())
    } else {
        match nesting_values(scope, documents, parent.columns, fields, parent.rows[k], 0) {
            Ok(row) => prefixed(seq![row], nesting_rows(scope, documents, parent, fields, k + 1)),
            Err(e) => Err(e),
        }
    }
}

/// The name under which a field comes out.
pub open spec fn nesting_name(words: WordingModel, field: NestedProjectFieldView) -> Seq<char> {
    match field {
        NestedProjectFieldView::Plain(plain) => match plain.alias {
            Some(alias) => alias,
            None => worded(words, SubjectView::Name(plain.expr)),
        },
        NestedProjectFieldView::Nested(nested) => nested.name,
        NestedProjectFieldView::Link(link) => link.name,
    }
}

/// Every row has a value for every column.
pub open spec fn rows_cover(rows: Seq<Seq<ValueView>>, columns: Seq<Seq<char>>) -> bool {
    forall|i: int| 0 <= i < rows.len() ==> (#[trigger] rows[i]).len() >= columns.len()
}

fn check_cover(rows: &Vec<Vec<Value>>, columns: &Vec<String>) -> (cover: Result<(), QueryError>)
    ensures
        match cover {
            Ok(_) => rows_cover(rows.deep_view(), columns.deep_view()),
            Err(error) => !rows_cover(rows.deep_view(), columns.deep_view()) && error.deep_view()
                == short_row_error(),
        },
{
    let ghost all = rows.deep_view();
    let mut i: usize = 0;
    while i < rows.len()
        invariant
            i <= rows.len(),
            all == rows.deep_view(),
            forall|r: int| 0 <= r < i ==> (#[trigger] all[r]).len() >= columns.deep_view().len(),
        decreases rows.len() - i,
    {
        assert(all[i as int] == rows[i as int].deep_view());
        assert(columns.deep_view().len() == columns.len());
        if rows[i].len() < columns.len() {
            return Err(QueryError::execution("a row has no value for a column that is looked up"));
        }
        i = i + 1;
    }
    Ok(())
}

/// The error for a nesting projection over something that is no rows.
pub open spec fn nesting_input_error() -> ErrorView {
    ErrorView::Execution("nested projection requires row input"@)
}

/// What a nesting projection answers, and the budget it leaves. A row without a
/// value for some column is an error.
pub open spec fn nesting_answer(
    scope: NestedScope,
    documents: DocumentModel,
    parent: ResultView,
    fields: Seq<NestedProjectFieldView>,
    budget: Budget,
) -> Result<(ResultView, Budget), ErrorView> {
    match parent {
        ResultView::Rows { columns, rows } => if !rows_cover(rows, columns) {
            Err(short_row_error())
        } else {
            let shown = ParentView { columns, rows };
            match fields_budget(scope, shown, fields, 0, budget) {
                Err(e) => Err(e),
                Ok(left) => match nesting_rows(scope, documents, shown, fields, 0) {
                    Ok(rows) => Ok(
                        (
                            ResultView::Rows {
                                columns: Seq::new(
                                    fields.len(),
                                    |i: int| nesting_name(scope.words, fields[i]),
                                ),
                                rows,
                            },
                            left,
                        ),
                    ),
                    Err(e) => Err(e),
                },
            }
        },
        _ => Err(nesting_input_error()),
    }
}

/// What a field needs for each parent row: the arrays or the values under the
/// keys that the parent rows hold in one column.
enum FieldBuild {
    Plain,
    Arrays { column: usize, arrays: Arrays },
    Values { column: usize, keys: KeyTable, values: Vec<Value> },
}

spec fn build_holds(
    scope: NestedScope,
    parent: ParentView,
    field: NestedProjectFieldView,
    build: FieldBuild,
) -> bool {
    match (field, build) {
        (NestedProjectFieldView::Plain(_), FieldBuild::Plain) => true,
        (NestedProjectFieldView::Nested(nested), FieldBuild::Arrays { column, arrays }) => {
            &&& name_position(parent.columns, nested.parent_key) == Some(column as int)
            &&& column < parent.columns.len()
            &&& level_error(scope.catalog, nested) is None
            &&& arrays_hold(scope, nested, arrays)
            &&& forall|r: int|
                0 <= r < parent.rows.len() && !(parent.rows[r][column as int] is Empty)
                    ==> arrays.keys@.contains(seq![#[trigger] parent.rows[r][column as int]])
        },
        (
            NestedProjectFieldView::Link(link),
            FieldBuild::Values { column, keys, values },
        ) => {
            &&& link.resolved is Some
            &&& name_position(parent.columns, (link.resolved->0).first_fk) == Some(column as int)
            &&& column < parent.columns.len()
            &&& keys.wf()
            &&& values.len() == keys@.len()
            &&& forall|k: int|
                0 <= k < keys@.len() ==> (#[trigger] keys@[k]).len() == 1 && values[k].deep_view()
                    == link_value(
                    scope.catalog,
                    (link.resolved->0).hops,
                    keys@[k][0],
                    (link.resolved->0).hops.len() as int,
                )
            &&& forall|r: int|
                0 <= r < parent.rows.len() && !(parent.rows[r][column as int] is Empty)
                    ==> keys@.contains(seq![#[trigger] parent.rows[r][column as int]])
        },
        _ => false,
    }
}

fn build_field<
    E: Fn(&Expr, &Vec<Value>, &Vec<String>) -> Value,
    C: Fn(&Value, &Value) -> Order,
    F: Fn(FloatOp) -> u64,
    T: Fn(Subject) -> Option<String>,
    S: Fn(Holding) -> usize,
    P: Fn() -> Result<(), QueryError>,
>(
    catalog: &Catalog,
    scalars: &Scalars<E, C, F>,
    wording: &Wording<T>,
    sizes: &Sizes<S>,
    poll: &P,
    columns: &Vec<String>,
    rows: &Vec<Vec<Value>>,
    field: &NestedProjectField,
    budget: &mut Budget,
) -> (build: Result<FieldBuild, QueryError>)
    requires
        scalars.ok(),
        wording.ok(),
        sizes.ok(),
        call_requires(*poll, ()),
        catalog_fits(catalog.deep_view()),
        indexes_agree(catalog.deep_view()),
        forall|r: int| 0 <= r < rows.len() ==> (#[trigger] rows[r]).len() >= columns.len(),
    ensures
        ({
            let scope = nested_scope(catalog, scalars, wording, sizes);
            let parent = ParentView { columns: columns.deep_view(), rows: rows.deep_view() };
            let expected = field_budget(scope, parent, field.deep_view(), *old(budget));
            match build {
                Ok(build) => expected == Ok::<Budget, ErrorView>(*final(budget)) && build_holds(
                    scope,
                    parent,
                    field.deep_view(),
                    build,
                ),
                Err(e) => expected == Err::<Budget, ErrorView>(e.deep_view()) || call_ensures(
                    *poll,
                    (),
                    Err(e),
                ),
            }
        }),
{
    let ghost scope = nested_scope(catalog, scalars, wording, sizes);
    let ghost parent = ParentView { columns: columns.deep_view(), rows: rows.deep_view() };
    let ghost views = rows.deep_view();
    match field {
        NestedProjectField::Plain(_) => Ok(FieldBuild::Plain),
        NestedProjectField::Nested(nested) => {
            let column: usize = match position(columns, &nested.parent_key) {
                Some(at) => at,
                None => {
                    let mut message = "nested projection `".to_owned();
                    push_text(&mut message, nested.name.as_str());
                    push_text(&mut message, "` outer column `");
                    push_text(&mut message, nested.parent_key.as_str());
                    push_text(&mut message, "` not found");
                    return Err(QueryError::Execution(message));
                },
            };
            assert(forall|r: int| 0 <= r < rows.len() ==> column < (#[trigger] rows[r]).len());
            let keys = distinct_non_null(rows, column);
            proof {
                assert(views.len() == rows.len());
                distinct_values_hold(views, column as int, rows.len() as int);
            }
            let values = single_values(&keys);
            assert(values.deep_view() =~= parent_keys(parent, column as int));
            let texts = assemble_nested_arrays(
                catalog,
                scalars,
                wording,
                sizes,
                poll,
                nested,
                &values,
                budget,
            )?;
            let arrays = Arrays { keys, texts };
            assert(arrays_hold(scope, nested.deep_view(), arrays));
            Ok(FieldBuild::Arrays { column, arrays })
        },
        NestedProjectField::Link(link) => {
            let resolved = match &link.resolved {
                Some(resolved) => resolved,
                None => {
                    let mut message = "scalar link path `".to_owned();
                    push_text(&mut message, link.name.as_str());
                    push_text(&mut message, "` was not resolved before execution");
                    return Err(QueryError::Execution(message));
                },
            };
            let column: usize = match position(columns, &resolved.first_fk) {
                Some(at) => at,
                None => {
                    let mut message = "scalar link `".to_owned();
                    push_text(&mut message, link.name.as_str());
                    push_text(&mut message, "` FK column `");
                    push_text(&mut message, resolved.first_fk.as_str());
                    push_text(&mut message, "` not found on the outer scan");
                    return Err(QueryError::Execution(message));
                },
            };
            assert(forall|r: int| 0 <= r < rows.len() ==> column < (#[trigger] rows[r]).len());
            let keys = distinct_non_null(rows, column);
            proof {
                assert(views.len() == rows.len());
                distinct_values_hold(views, column as int, rows.len() as int);
            }
            let fks = single_values(&keys);
            assert(fks.deep_view() =~= parent_keys(parent, column as int));
            let values = build_scalar_link_maps(
                catalog,
                scalars,
                wording,
                sizes,
                poll,
                link,
                resolved,
                &fks,
                budget,
            )?;
            assert(resolved.hops.deep_view().len() == resolved.hops.len());
            Ok(FieldBuild::Values { column, keys, values })
        },
    }
}

fn field_value<
    E: Fn(&Expr, &Vec<Value>, &Vec<String>) -> Value,
    C: Fn(&Value, &Value) -> Order,
    F: Fn(FloatOp) -> u64,
    J: Fn(&String) -> Result<Vec<u8>, String>,
>(
    scalars: &Scalars<E, C, F>,
    documents: &Documents<J>,
    columns: &Vec<String>,
    field: &NestedProjectField,
    build: &FieldBuild,
    row: &Vec<Value>,
    scope: Ghost<NestedScope>,
    parent: Ghost<ParentView>,
    at: Ghost<int>,
) -> (value: Result<Value, QueryError>)
    requires
        scalars.ok(),
        documents.ok(),
        scope@.eval == scalars.values(),
        parent@.columns == columns.deep_view(),
        0 <= at@ < parent@.rows.len(),
        parent@.rows[at@] == row.deep_view(),
        row.len() >= columns.len(),
        build_holds(scope@, parent@, field.deep_view(), *build),
    ensures
        outcome(value) == nesting_value(
            scope@,
            documents.model@,
            columns.deep_view(),
            field.deep_view(),
            row.deep_view(),
        ),
{
    match (field, build) {
        (NestedProjectField::Plain(plain), FieldBuild::Plain) => Ok(
            scalars.eval_expr(&plain.expr, row, columns),
        ),
        (NestedProjectField::Nested(nested), FieldBuild::Arrays { column, arrays }) => {
            assert(parent@.rows[at@][*column as int] == row[*column as int].deep_view());
            let mut text = String::new();
            push_array(&mut text, arrays, &row[*column], scope, Ghost(nested.deep_view()));
            assert(text@ =~= level_array(
                scope@,
                nested.deep_view(),
                row.deep_view()[*column as int],
            ));
            match documents.parse(&text) {
                Ok(bytes) => Ok(Value::Json(bytes)),
                Err(reason) => {
                    let mut message = "nested projection `".to_owned();
                    push_text(&mut message, nested.name.as_str());
                    push_text(&mut message, "` produced invalid JSON: ");
                    push_text(&mut message, reason.as_str());
                    Err(QueryError::Execution(message))
                },
            }
        },
        (NestedProjectField::Link(link), FieldBuild::Values { column, keys, values }) => {
            assert(parent@.rows[at@][*column as int] == row[*column as int].deep_view());
            let ghost hops = (link.deep_view().resolved->0).hops;
            if row[*column].is_empty() {
                proof {
                    missing_key_reaches_nothing(scope@.catalog, hops, hops.len() as int);
                }
                return Ok(Value::Empty);
            }
            let mut single: Vec<Value> = Vec::new();
            single.push(row[*column].clone());
            assert(single.deep_view() =~= seq![row[*column as int].deep_view()]);
            match keys.find(&single) {
                Some(k) => {
                    assert(keys@[k as int][0] == row[*column as int].deep_view());
                    Ok(values[k].clone())
                },
                None => {
                    assert(false);
                    Ok(Value::Empty)
                },
            }
        },
        _ => {
            assert(false);
            Ok(Value::Empty)
        },
    }
}

fn nesting_columns<T: Fn(Subject) -> Option<String>>(
    wording: &Wording<T>,
    fields: &Vec<NestedProjectField>,
) -> (names: Vec<String>)
    requires
        wording.ok(),
    ensures
        names.deep_view() == Seq::new(
            fields.deep_view().len(),
            |i: int| nesting_name(wording.model@, fields.deep_view()[i]),
        ),
{
    let ghost views = fields.deep_view();
    let mut names: Vec<String> = Vec::new();
    let mut i: usize = 0;
    while i < fields.len()
        invariant
            i <= fields.len(),
            wording.ok(),
            views == fields.deep_view(),
            names.len() == i,
            forall|j: int|
                0 <= j < i ==> (#[trigger] names[j])@ == nesting_name(wording.model@, views[j]),
        decreases fields.len() - i,
    {
        assert(views[i as int] == fields[i as int].deep_view());
        let name = match &fields[i] {
            NestedProjectField::Plain(plain) => match &plain.alias {
                Some(alias) => alias.clone(),
                None => wording.word(Subject::Name(&plain.expr)),
            },
            NestedProjectField::Nested(nested) => nested.name.clone(),
            NestedProjectField::Link(link) => link.name.clone(),
        };
        names.push(name);
        i = i + 1;
    }
    assert(names.deep_view() =~= Seq::new(
        views.len(),
        |i: int| nesting_name(wording.model@, views[i]),
    ));
    names
}

/// Answer a nesting projection over its parent rows. A parent row is never
/// dropped.
pub fn execute_nested_project<
    E: Fn(&Expr, &Vec<Value>, &Vec<String>) -> Value,
    C: Fn(&Value, &Value) -> Order,
    F: Fn(FloatOp) -> u64,
    T: Fn(Subject) -> Option<String>,
    J: Fn(&String) -> Result<Vec<u8>, String>,
    S: Fn(Holding) -> usize,
    P: Fn() -> Result<(), QueryError>,
>(
    catalog: &Catalog,
    scalars: &Scalars<E, C, F>,
    wording: &Wording<T>,
    documents: &Documents<J>,
    sizes: &Sizes<S>,
    poll: &P,
    parent: QueryResult,
    fields: &Vec<NestedProjectField>,
    budget: &mut Budget,
) -> (result: Result<QueryResult, QueryError>)
    requires
        scalars.ok(),
        wording.ok(),
        documents.ok(),
        sizes.ok(),
        call_requires(*poll, ()),
        catalog_fits(catalog.deep_view()),
        indexes_agree(catalog.deep_view()),
    ensures
        answered_within(
            result,
            *final(budget),
            nesting_answer(
                nested_scope(catalog, scalars, wording, sizes),
                documents.model@,
                parent.deep_view(),
                fields.deep_view(),
                *old(budget),
            ),
            *poll,
        ),
{
    let ghost scope = nested_scope(catalog, scalars, wording, sizes);
    let ghost views = fields.deep_view();
    let ghost docs = documents.model@;
    match parent {
        QueryResult::Rows { columns, rows } => {
            let ghost shown = ParentView { columns: columns.deep_view(), rows: rows.deep_view() };
            check_cover(&rows, &columns)?;
            proof {
                assert forall|r: int| 0 <= r < rows.len() implies (#[trigger] rows[r]).len()
                    >= columns.len() by {
                    assert(rows.deep_view()[r] == rows[r].deep_view());
                    assert(rows[r].deep_view().len() == rows[r].len());
                    assert(columns.deep_view().len() == columns.len());
                }
            }
            let ghost goal = fields_budget(scope, shown, views, 0, *budget);
            let mut builds: Vec<FieldBuild> = Vec::new();
            let mut i: usize = 0;
            while i < fields.len()
                invariant
                    i <= fields.len(),
                    scalars.ok(),
                    wording.ok(),
                    call_requires(*poll, ()),
                    catalog_fits(catalog.deep_view()),
                    indexes_agree(catalog.deep_view()),
                    scope == nested_scope(catalog, scalars, wording, sizes),
                    views == fields.deep_view(),
                    shown == (ParentView {
                        columns: columns.deep_view(),
                        rows: rows.deep_view(),
                    }),
                    forall|r: int|
                        0 <= r < rows.len() ==> (#[trigger] rows[r]).len() >= columns.len(),
                    parent.deep_view() == (ResultView::Rows {
                        columns: shown.columns,
                        rows: shown.rows,
                    }),
                    sizes.ok(),
                    goal == fields_budget(scope, shown, views, 0, *old(budget)),
                    goal == fields_budget(scope, shown, views, i as int, *budget),
                    builds.len() == i,
                    forall|j: int|
                        0 <= j < i ==> build_holds(scope, shown, views[j], #[trigger] builds[j]),
                decreases fields.len() - i,
            {
                assert(views[i as int] == fields[i as int].deep_view());
                let build = build_field(
                    catalog,
                    scalars,
                    wording,
                    sizes,
                    poll,
                    &columns,
                    &rows,
                    &fields[i],
                    budget,
                )?;
                builds.push(build);
                i = i + 1;
            }
            let names = nesting_columns(wording, fields);
            let ghost all = nesting_rows(scope, docs, shown, views, 0);
            let mut out: Vec<Vec<Value>> = Vec::new();
            let mut k: usize = 0;
            assert(prefixed(out.deep_view(), all) == all) by {
                assert(all matches Ok(rest) ==> out.deep_view() + rest =~= rest);
            }
            while k < rows.len()
                invariant
                    k <= rows.len(),
                    scalars.ok(),
                    documents.ok(),
                    docs == documents.model@,
                    scope == nested_scope(catalog, scalars, wording, sizes),
                    views == fields.deep_view(),
                    shown == (ParentView {
                        columns: columns.deep_view(),
                        rows: rows.deep_view(),
                    }),
                    forall|r: int|
                        0 <= r < rows.len() ==> (#[trigger] rows[r]).len() >= columns.len(),
                    builds.len() == fields.len(),
                    forall|j: int|
                        0 <= j < builds.len() ==> build_holds(
                            scope,
                            shown,
                            views[j],
                            #[trigger] builds[j],
                        ),
                    fields_budget(scope, shown, views, 0, *old(budget)) == Ok::<
                        Budget,
                        ErrorView,
                    >(*budget),
                    all == nesting_rows(scope, docs, shown, views, 0),
                    all == prefixed(
                        out.deep_view(),
                        nesting_rows(scope, docs, shown, views, k as int),
                    ),
                    parent.deep_view() == (ResultView::Rows {
                        columns: shown.columns,
                        rows: shown.rows,
                    }),
                decreases rows.len() - k,
            {
                let ghost before = out.deep_view();
                assert(rows.deep_view()[k as int] == rows[k as int].deep_view());
                assert(rows.deep_view().len() == rows.len());
                assert(rows[k as int].len() >= columns.len());
                let row = nest_row(
                    scalars,
                    documents,
                    &columns,
                    fields,
                    &builds,
                    &rows[k],
                    Ghost(scope),
                    Ghost(shown),
                    Ghost(k as int),
                )?;
                let ghost made = row.deep_view();
                out.push(row);
                assert(out.deep_view() =~= before.push(made));
                assert(nesting_rows(scope, docs, shown, views, k + 1) matches Ok(rest) ==> before + (
                seq![made] + rest) =~= before.push(made) + rest);
                k = k + 1;
            }
            assert(rows.deep_view().len() == rows.len());
            assert(out.deep_view() + Seq::<Seq<ValueView>>::empty() =~= out.deep_view());
            Ok(QueryResult::Rows { columns: names, rows: out })
        },
        _ => Err(QueryError::execution("nested projection requires row input")),
    }
}

fn nest_row<
    E: Fn(&Expr, &Vec<Value>, &Vec<String>) -> Value,
    C: Fn(&Value, &Value) -> Order,
    F: Fn(FloatOp) -> u64,
    J: Fn(&String) -> Result<Vec<u8>, String>,
>(
    scalars: &Scalars<E, C, F>,
    documents: &Documents<J>,
    columns: &Vec<String>,
    fields: &Vec<NestedProjectField>,
    builds: &Vec<FieldBuild>,
    row: &Vec<Value>,
    scope: Ghost<NestedScope>,
    parent: Ghost<ParentView>,
    at: Ghost<int>,
) -> (made: Result<Vec<Value>, QueryError>)
    requires
        scalars.ok(),
        documents.ok(),
        scope@.eval == scalars.values(),
        parent@.columns == columns.deep_view(),
        0 <= at@ < parent@.rows.len(),
        parent@.rows[at@] == row.deep_view(),
        row.len() >= columns.len(),
        builds.len() == fields.len(),
        forall|j: int|
            0 <= j < builds.len() ==> build_holds(
                scope@,
                parent@,
                fields.deep_view()[j],
                #[trigger] builds[j],
            ),
    ensures
        outcome(made) == nesting_values(
            scope@,
            documents.model@,
            columns.deep_view(),
            fields.deep_view(),
            row.deep_view(),
            0,
        ),
{
    let ghost (views, docs, names, shown) = (
        fields.deep_view(),
        documents.model@,
        columns.deep_view(),
        row.deep_view(),
    );
    let ghost all = nesting_values(scope@, docs, names, views, shown, 0);
    let mut made: Vec<Value> = Vec::new();
    let mut i: usize = 0;
    assert(prefixed(made.deep_view(), all) == all) by {
        assert(all matches Ok(rest) ==> made.deep_view() + rest =~= rest);
    }
    while i < fields.len()
        invariant
            i <= fields.len(),
            scalars.ok(),
            documents.ok(),
            scope@.eval == scalars.values(),
            views == fields.deep_view(),
            docs == documents.model@,
            names == columns.deep_view(),
            shown == row.deep_view(),
            parent@.columns == columns.deep_view(),
            0 <= at@ < parent@.rows.len(),
            parent@.rows[at@] == row.deep_view(),
            row.len() >= columns.len(),
            builds.len() == fields.len(),
            forall|j: int|
                0 <= j < builds.len() ==> build_holds(
                    scope@,
                    parent@,
                    views[j],
                    #[trigger] builds[j],
                ),
            all == nesting_values(scope@, docs, names, views, shown, 0),
            all == prefixed(
                made.deep_view(),
                nesting_values(scope@, docs, names, views, shown, i as int),
            ),
        decreases fields.len() - i,
    {
        let ghost before = made.deep_view();
        assert(views[i as int] == fields[i as int].deep_view());
        assert(build_holds(scope@, parent@, views[i as int], builds[i as int]));
        let value = field_value(
            scalars,
            documents,
            columns,
            &fields[i],
            &builds[i],
            row,
            scope,
            parent,
            at,
        )?;
        let ghost one = value.deep_view();
        made.push(value);
        assert(made.deep_view() =~= before.push(one));
        assert(nesting_values(scope@, docs, names, views, shown, i + 1) matches Ok(rest) ==> before + (
        seq![one] + rest) =~= before.push(one) + rest);
        i = i + 1;
    }
    assert(made.deep_view() + Seq::<ValueView>::empty() =~= made.deep_view());
    Ok(made)
}

/// A nesting projection keeps its parent rows: it answers one row for each, with
/// a value for each field.
pub proof fn nesting_keeps_parent_rows(
    scope: NestedScope,
    documents: DocumentModel,
    parent: ParentView,
    fields: Seq<NestedProjectFieldView>,
    k: int,
)
    requires
        0 <= k <= parent.rows.len(),
    ensures
        nesting_rows(scope, documents, parent, fields, k) matches Ok(rows) ==> rows.len()
            == parent.rows.len() - k && forall|r: int|
            0 <= r < rows.len() ==> (#[trigger] rows[r]).len() == fields.len(),
    decreases parent.rows.len() - k,
{
    if k < parent.rows.len() {
        nesting_keeps_parent_rows(scope, documents, parent, fields, k + 1);
        nesting_fills_row(scope, documents, parent.columns, fields, parent.rows[k], 0);
        match (
            nesting_rows(scope, documents, parent, fields, k),
            nesting_rows(scope, documents, parent, fields, k + 1),
        ) {
            (Ok(all), Ok(rest)) => {
                assert forall|r: int| 0 <= r < all.len() implies (#[trigger] all[r]).len()
                    == fields.len() by {
                    if r > 0 {
                        assert(all[r] == rest[r - 1]);
                    }
                }
            },
            _ => {},
        }
    }
}

proof fn nesting_fills_row(
    scope: NestedScope,
    documents: DocumentModel,
    columns: Seq<Seq<char>>,
    fields: Seq<NestedProjectFieldView>,
    row: Seq<ValueView>,
    i: int,
)
    requires
        0 <= i <= fields.len(),
    ensures
        nesting_values(scope, documents, columns, fields, row, i) matches Ok(values) ==> values.len()
            == fields.len() - i,
    decreases fields.len() - i,
{
    if i < fields.len() {
        nesting_fills_row(scope, documents, columns, fields, row, i + 1);
    }
}

} // verus!
