//! What the arrays of a nested projection hold.

use vstd::prelude::*;

use crate::catalog::{CatalogView, SchemaView, StoredRowView, TableView};
use crate::error::{Budget, ResultView};
use crate::expr::{ExprView, LiteralView};
use crate::group::{ints, pick};
use crate::index::table_rows;
use crate::json::{json_string, json_value};
use crate::laws::filtering::{filter_takes_first, filters_agree, filters_compose};
use crate::laws::naming::{columns_are_found, held, is_column, names_lead_to_columns};
use crate::laws::sorting::{in_stable_order, sorting_is_stable};
use crate::nested::{
    arranged_rows, children, column_positions, distinct_values, field_budget, fields_budget,
    having_from, hop_value, level_array, level_columns, level_directions, link_value,
    meeting_rows, members_from, nesting_answer, nesting_rows, nesting_values, objects_from,
    order_keys, own_error, DocumentModel, NestedScope, ParentView,
};
use crate::ordering::sorted_positions;
use crate::plan::{NestedFieldView, NestedProjectFieldView, NestedProjectionView, ScalarLinkHopView};
use crate::scalars::{total_order, EvalModel};
use crate::seqs::{first_where_found, is_name, name_position};
use crate::text::join_texts;
use crate::value::ValueView;

verus! {

/// Texts one after another, with a comma between two.
pub open spec fn comma_separated(parts: Seq<Seq<char>>) -> Seq<char>
    decreases parts.len(),
{
    if parts.len() == 0 {
        Seq::empty()
    } else if parts.len() == 1 {
        parts[0]
    } else {
        parts[0] + ","@ + comma_separated(parts.skip(1))
    }
}

/// The bound that a literal gives; none where there is no literal.
pub open spec fn counted(bound: Option<ExprView>) -> Option<int> {
    match bound {
        Some(ExprView::Literal(LiteralView::Int(n))) => Some(n as int),
        _ => None,
    }
}

/// How many of `count` rows are left after the first `offset`, at most `limit`.
pub open spec fn cut(count: int, offset: Option<int>, limit: Option<int>) -> int {
    let skipped = match offset {
        Some(k) => k,
        None => 0,
    };
    let rest = if count > skipped {
        count - skipped
    } else {
        0
    };
    match limit {
        Some(n) => if n < rest {
            n
        } else {
            rest
        },
        None => rest,
    }
}

/// The objects of the rows within a level's bounds.
pub open spec fn objects_within(
    scope: NestedScope,
    schema: SchemaView,
    nested: NestedProjectionView,
    ordered: Seq<Seq<ValueView>>,
) -> Seq<Seq<char>> {
    let (offset, limit) = (counted(nested.offset), counted(nested.limit));
    Seq::new(
        cut(ordered.len() as int, offset, limit) as nat,
        |i: int|
            object_text(
                scope,
                schema,
                nested.fields,
                ordered[i + (match offset {
                    Some(k) => k,
                    None => 0,
                })],
            ),
    )
}

/// The rows of a table that hold a parent's key and meet the level's condition, as
/// they are stored.
pub open spec fn rows_of_parent(
    scope: NestedScope,
    table: TableView,
    nested: NestedProjectionView,
    key: ValueView,
) -> Seq<Seq<ValueView>> {
    table.rows.map_values(|row: StoredRowView| row.values).filter(
        |row: Seq<ValueView>|
            !(key is Empty) && held(table.schema, row, nested.child_key) == key && (
            nested.residual matches Some(condition) ==> (scope.eval)(
                condition,
                row,
                table.schema.column_names(),
            ) == ValueView::Bool(true)),
    )
}

/// The values by which a level orders a row.
pub open spec fn ordered_by(
    schema: SchemaView,
    nested: NestedProjectionView,
    row: Seq<ValueView>,
) -> Seq<ValueView> {
    Seq::new(nested.order.len(), |i: int| held(schema, row, nested.order[i].0))
}

/// `ordered` holds the rows at these positions, which are in the order that the
/// level asks for.
pub open spec fn arranged_at(
    scope: NestedScope,
    schema: SchemaView,
    nested: NestedProjectionView,
    rows: Seq<Seq<ValueView>>,
    ordered: Seq<Seq<ValueView>>,
    positions: Seq<int>,
) -> bool {
    &&& in_stable_order(
        scope.order,
        rows.map_values(|row: Seq<ValueView>| ordered_by(schema, nested, row)),
        Seq::new(nested.order.len(), |i: int| Some(nested.order[i].1)),
        positions,
    )
    &&& ordered == positions.map_values(|p: int| rows[p])
}

/// `ordered` holds the rows in the order that the level asks for.
pub open spec fn arranges(
    scope: NestedScope,
    schema: SchemaView,
    nested: NestedProjectionView,
    rows: Seq<Seq<ValueView>>,
    ordered: Seq<Seq<ValueView>>,
) -> bool {
    exists|positions: Seq<int>| #[trigger]
        arranged_at(scope, schema, nested, rows, ordered, positions)
}

/// A member of an object: the value of a column, or the array of a deeper level
/// for what the row holds in the key of that level.
pub open spec fn member_text(
    scope: NestedScope,
    schema: SchemaView,
    field: NestedFieldView,
    row: Seq<ValueView>,
) -> Seq<char> {
    match field {
        NestedFieldView::Scalar { key, column } => json_string(key) + ":"@ + json_value(
            scope.words,
            held(schema, row, column),
        ),
        NestedFieldView::Nested(inner) => json_string(inner.name) + ":"@ + level_array(
            scope,
            *inner,
            held(schema, row, inner.parent_key),
        ),
    }
}

/// The object of a row: a member for each field, in their order.
pub open spec fn object_text(
    scope: NestedScope,
    schema: SchemaView,
    fields: Seq<NestedFieldView>,
    row: Seq<ValueView>,
) -> Seq<char> {
    "{"@ + comma_separated(
        fields.map_values(|field: NestedFieldView| member_text(scope, schema, field, row)),
    ) + "}"@
}

/// A text that follows others follows a comma.
proof fn comma_separated_grows(parts: Seq<Seq<char>>, last: Seq<char>)
    ensures
        comma_separated(parts.push(last)) == (if parts.len() == 0 {
            last
        } else {
            comma_separated(parts) + ","@ + last
        }),
    decreases parts.len(),
{
    let all = parts.push(last);
    reveal_with_fuel(comma_separated, 2);
    if parts.len() == 1 {
        assert(all.skip(1) =~= seq![last]);
    } else if parts.len() > 1 {
        let rest = parts.skip(1);
        assert(all.skip(1) =~= rest.push(last));
        comma_separated_grows(rest, last);
        assert(parts[0] + ","@ + (comma_separated(rest) + ","@ + last) =~= parts[0] + ","@
            + comma_separated(rest) + ","@ + last);
    }
}

/// Joining texts with a comma puts one between any two that follow each other.
pub proof fn joining_separates(parts: Seq<Seq<char>>)
    ensures
        join_texts(parts, ","@) == comma_separated(parts),
    decreases parts.len(),
{
    if parts.len() > 1 {
        joining_separates(parts.drop_last());
        comma_separated_grows(parts.drop_last(), parts.last());
        assert(parts.drop_last().push(parts.last()) =~= parts);
    }
}

proof fn holding_is_filtering(rows: Seq<Seq<ValueView>>, column: int, key: ValueView, i: int)
    requires
        0 <= i <= rows.len(),
    ensures
        having_from(rows, column, key, i) == rows.skip(i).filter(
            |row: Seq<ValueView>| row[column] == key,
        ),
    decreases rows.len() - i,
{
    let test = |row: Seq<ValueView>| row[column] == key;
    if i < rows.len() {
        holding_is_filtering(rows, column, key, i + 1);
        assert(rows.skip(i) =~= seq![rows[i]] + rows.skip(i + 1));
        filter_takes_first(rows[i], rows.skip(i + 1), test);
        assert(Seq::<Seq<ValueView>>::empty() + rows.skip(i + 1).filter(test)
            =~= rows.skip(i + 1).filter(test));
    } else {
        reveal(Seq::filter);
        assert(rows.skip(i) =~= Seq::empty());
    }
}

proof fn meeting_is_filtering(
    eval: EvalModel,
    residual: Option<ExprView>,
    columns: Seq<Seq<char>>,
    rows: Seq<Seq<ValueView>>,
    i: int,
)
    requires
        0 <= i <= rows.len(),
    ensures
        meeting_rows(eval, residual, columns, rows, i) == rows.skip(i).filter(
            |row: Seq<ValueView>|
                residual matches Some(condition) ==> eval(condition, row, columns)
                    == ValueView::Bool(true),
        ),
    decreases rows.len() - i,
{
    let test = |row: Seq<ValueView>|
        residual matches Some(condition) ==> eval(condition, row, columns) == ValueView::Bool(true);
    if i < rows.len() {
        meeting_is_filtering(eval, residual, columns, rows, i + 1);
        assert(rows.skip(i) =~= seq![rows[i]] + rows.skip(i + 1));
        filter_takes_first(rows[i], rows.skip(i + 1), test);
        assert(Seq::<Seq<ValueView>>::empty() + rows.skip(i + 1).filter(test)
            =~= rows.skip(i + 1).filter(test));
    } else {
        reveal(Seq::filter);
        assert(rows.skip(i) =~= Seq::empty());
    }
}

proof fn filter_of_none<A>(s: Seq<A>, test: spec_fn(A) -> bool)
    requires
        forall|a: A| !#[trigger] test(a),
    ensures
        s.filter(test) == Seq::<A>::empty(),
    decreases s.len(),
{
    reveal(Seq::filter);
    if s.len() > 0 {
        filter_of_none(s.drop_last(), test);
    }
}

/// The children of a parent's key are the rows of the table that hold it and meet
/// the level's condition, in storage order.
pub proof fn children_are_rows_of_parent(
    scope: NestedScope,
    table: TableView,
    nested: NestedProjectionView,
    key_at: int,
    key: ValueView,
)
    requires
        is_column(table.schema, nested.child_key, key_at),
    ensures
        children(scope, table, nested, key_at, key) == rows_of_parent(scope, table, nested, key),
{
    let rows = table_rows(table);
    let names = table.schema.column_names();
    assert(rows =~= table.rows.map_values(|row: StoredRowView| row.values));
    let both = |row: Seq<ValueView>|
        !(key is Empty) && held(table.schema, row, nested.child_key) == key && (
        nested.residual matches Some(condition) ==> (scope.eval)(condition, row, names)
            == ValueView::Bool(true));
    if key is Empty {
        filter_of_none(rows, both);
    } else {
        let holds = |row: Seq<ValueView>| row[key_at] == key;
        let meets = |row: Seq<ValueView>|
            nested.residual matches Some(condition) ==> (scope.eval)(condition, row, names)
                == ValueView::Bool(true);
        holding_is_filtering(rows, key_at, key, 0);
        assert(rows.skip(0) =~= rows);
        let held_by = having_from(rows, key_at, key, 0);
        meeting_is_filtering(scope.eval, nested.residual, names, held_by, 0);
        assert(held_by.skip(0) =~= held_by);
        assert forall|i: int| 0 <= i < rows.len() implies both(#[trigger] rows[i]) == (holds(rows[i])
            && meets(rows[i])) by {
            columns_are_found(table.schema, rows[i], nested.child_key, key_at);
        }
        filters_compose(rows, holds, meets, both);
    }
}

/// The positions of the columns that a level reads are those of their names.
proof fn positions_are_columns(
    schema: SchemaView,
    table: Seq<char>,
    names: Seq<Seq<char>>,
    i: int,
)
    requires
        0 <= i <= names.len(),
    ensures
        column_positions(schema, table, names, i) matches Ok(ats) ==> ats.len() == names.len() - i
            && forall|k: int|
            0 <= k < ats.len() ==> is_column(schema, names[i + k], #[trigger] ats[k]),
    decreases names.len() - i,
{
    if i < names.len() {
        positions_are_columns(schema, table, names, i + 1);
        names_lead_to_columns(schema, names[i]);
        match (
            column_positions(schema, table, names, i),
            column_positions(schema, table, names, i + 1),
        ) {
            (Ok(all), Ok(rest)) => {
                assert forall|k: int| 0 <= k < all.len() implies is_column(
                    schema,
                    names[i + k],
                    #[trigger] all[k],
                ) by {
                    if k > 0 {
                        assert(all[k] == rest[k - 1]);
                        assert(is_column(schema, names[i + 1 + (k - 1)], rest[k - 1]));
                    }
                }
            },
            _ => {},
        }
    }
}

proof fn members_are_fields(
    scope: NestedScope,
    schema: SchemaView,
    fields: Seq<NestedFieldView>,
    ats: Seq<int>,
    row: Seq<ValueView>,
    i: int,
)
    requires
        0 <= i <= fields.len(),
        ats.len() == fields.len(),
        forall|k: int|
            0 <= k < fields.len() ==> is_column(
                schema,
                match #[trigger] fields[k] {
                    NestedFieldView::Scalar { column, .. } => column,
                    NestedFieldView::Nested(inner) => inner.parent_key,
                },
                ats[k],
            ),
    ensures
        members_from(scope, fields, ats, row, i) == fields.map_values(
            |field: NestedFieldView| member_text(scope, schema, field, row),
        ).skip(i),
    decreases fields.len() - i,
{
    let all = fields.map_values(|field: NestedFieldView| member_text(scope, schema, field, row));
    if i < fields.len() {
        members_are_fields(scope, schema, fields, ats, row, i + 1);
        match fields[i] {
            NestedFieldView::Scalar { column, .. } => columns_are_found(schema, row, column, ats[i]),
            NestedFieldView::Nested(inner) => columns_are_found(
                schema,
                row,
                inner.parent_key,
                ats[i],
            ),
        }
        assert(all.skip(i) =~= seq![all[i]] + all.skip(i + 1));
    } else {
        assert(all.skip(i) =~= Seq::empty());
    }
}

proof fn objects_are_rows(
    scope: NestedScope,
    schema: SchemaView,
    fields: Seq<NestedFieldView>,
    ats: Seq<int>,
    rows: Seq<Seq<ValueView>>,
    k: int,
)
    requires
        0 <= k <= rows.len(),
        ats.len() == fields.len(),
        forall|f: int|
            0 <= f < fields.len() ==> is_column(
                schema,
                match #[trigger] fields[f] {
                    NestedFieldView::Scalar { column, .. } => column,
                    NestedFieldView::Nested(inner) => inner.parent_key,
                },
                ats[f],
            ),
    ensures
        objects_from(scope, fields, ats, rows, k) == rows.map_values(
            |row: Seq<ValueView>| object_text(scope, schema, fields, row),
        ).skip(k),
    decreases rows.len() - k,
{
    let all = rows.map_values(|row: Seq<ValueView>| object_text(scope, schema, fields, row));
    if k < rows.len() {
        objects_are_rows(scope, schema, fields, ats, rows, k + 1);
        members_are_fields(scope, schema, fields, ats, rows[k], 0);
        let members = fields.map_values(
            |field: NestedFieldView| member_text(scope, schema, field, rows[k]),
        );
        assert(members.skip(0) =~= members);
        joining_separates(members);
        assert(all.skip(k) =~= seq![all[k]] + all.skip(k + 1));
    } else {
        assert(all.skip(k) =~= Seq::empty());
    }
}

/// The array that a level holds for a parent's key: of the rows of that parent,
/// in the order that the level asks for, it has an object for each of those that
/// come after the first `offset`, up to `limit` of them, and no other.
pub proof fn arrays_hold_the_ordered_rows_within_bounds(
    scope: NestedScope,
    table: TableView,
    nested: NestedProjectionView,
    key: ValueView,
) -> (ordered: Seq<Seq<ValueView>>)
    requires
        own_error(scope.catalog, nested) is None,
        scope.catalog.table(nested.table) == Some(table),
        total_order(scope.order),
        table.rows.len() <= usize::MAX,
    ensures
        ({
            let rows = rows_of_parent(scope, table, nested, key);
            let objects = objects_within(scope, table.schema, nested, ordered);
            &&& arranges(scope, table.schema, nested, rows, ordered)
            &&& ordered.len() == rows.len()
            &&& level_array(scope, nested, key) == "["@ + comma_separated(objects) + "]"@
            &&& objects.len() == cut(
                rows.len() as int,
                counted(nested.offset),
                counted(nested.limit),
            )
            &&& counted(nested.limit) matches Some(n) ==> objects.len() <= n
        }),
{
    let schema = table.schema;
    let names = level_columns(nested);
    let fields = nested.fields.len() as int;
    positions_are_columns(schema, nested.table, names, 0);
    let ats = column_positions(schema, nested.table, names, 0)->Ok_0;
    let rows = rows_of_parent(scope, table, nested, key);
    assert(names[0] == nested.child_key);
    assert(is_column(schema, names[0int + 0int], ats[0]));
    children_are_rows_of_parent(scope, table, nested, ats[0], key);
    let stored = table.rows.map_values(|row: StoredRowView| row.values);
    filter_is_shorter(
        stored,
        |row: Seq<ValueView>|
            !(key is Empty) && held(schema, row, nested.child_key) == key && (
            nested.residual matches Some(condition) ==> (scope.eval)(
                condition,
                row,
                schema.column_names(),
            ) == ValueView::Bool(true)),
    );
    let order_ats = ats.subrange(1 + fields, ats.len() as int);
    let keys = order_keys(rows, order_ats);
    let stated = rows.map_values(|row: Seq<ValueView>| ordered_by(schema, nested, row));
    assert forall|i: int| 0 <= i < rows.len() implies #[trigger] keys[i] == stated[i] by {
        assert forall|k: int| 0 <= k < nested.order.len() implies #[trigger] keys[i][k]
            == stated[i][k] by {
            assert(is_column(schema, names[0 + (1 + fields + k)], ats[1 + fields + k]));
            assert(names[1 + fields + k] == nested.order[k].0);
            columns_are_found(schema, rows[i], nested.order[k].0, ats[1 + fields + k]);
        }
        assert(keys[i] =~= stated[i]);
    }
    assert(keys =~= stated);
    let directions = level_directions(nested);
    assert(directions =~= Seq::new(nested.order.len(), |i: int| Some(nested.order[i].1)));
    sorting_is_stable(scope.order, keys, directions);
    let positions = ints(sorted_positions(scope.order, keys, directions));
    let ordered = positions.map_values(|p: int| rows[p]);
    assert(pick(rows, positions) =~= ordered);
    assert(arranged_at(scope, schema, nested, rows, ordered, positions));
    let kept = arranged_rows(scope.order, nested, order_ats, rows);
    let (offset, limit) = (counted(nested.offset), counted(nested.limit));
    let skipped = match offset {
        Some(k) => k,
        None => 0,
    };
    let length = cut(rows.len() as int, offset, limit);
    assert(kept =~= Seq::new(length as nat, |i: int| ordered[skipped + i]));
    let field_ats = ats.subrange(1, 1 + fields);
    assert forall|f: int| 0 <= f < nested.fields.len() implies is_column(
        schema,
        match #[trigger] nested.fields[f] {
            NestedFieldView::Scalar { column, .. } => column,
            NestedFieldView::Nested(inner) => inner.parent_key,
        },
        field_ats[f],
    ) by {
        assert(is_column(schema, names[0 + (1 + f)], ats[1 + f]));
    }
    objects_are_rows(scope, schema, nested.fields, field_ats, kept, 0);
    let objects = kept.map_values(
        |row: Seq<ValueView>| object_text(scope, schema, nested.fields, row),
    );
    assert(objects.skip(0) =~= objects);
    joining_separates(objects);
    assert(objects =~= objects_within(scope, schema, nested, ordered));
    ordered
}

/// A filter keeps no more than there is.
pub proof fn filter_is_shorter<A>(s: Seq<A>, test: spec_fn(A) -> bool)
    ensures
        s.filter(test).len() <= s.len(),
    decreases s.len(),
{
    reveal(Seq::filter);
    if s.len() > 0 {
        filter_is_shorter(s.drop_last(), test);
    }
}

/// What a hop leads to from a key: what the first row of its table that holds the
/// key has in the column asked for; nothing where the key is missing or no row
/// holds it.
pub open spec fn reached(
    catalog: CatalogView,
    hop: ScalarLinkHopView,
    key: ValueView,
) -> ValueView {
    match catalog.table(hop.table) {
        None => ValueView::Empty,
        Some(table) => {
            let rows = table.rows.map_values(|row: StoredRowView| row.values).filter(
                |row: Seq<ValueView>| held(table.schema, row, hop.key_col) == key,
            );
            if key == ValueView::Empty || rows.len() == 0 {
                ValueView::Empty
            } else {
                held(table.schema, rows[0], hop.out_col)
            }
        },
    }
}

/// The columns of a hop are there, if its table is.
pub open spec fn hop_stands(catalog: CatalogView, hop: ScalarLinkHopView) -> bool {
    catalog.table(hop.table) matches Some(table) ==> table.schema.column_index(hop.key_col) is Some
        && table.schema.column_index(hop.out_col) is Some
}

/// A hop reaches what the first row that holds its key has.
pub proof fn hops_reach_the_first_holder(
    catalog: CatalogView,
    hop: ScalarLinkHopView,
    key: ValueView,
)
    requires
        hop_stands(catalog, hop),
    ensures
        hop_value(catalog, hop, key) == reached(catalog, hop, key),
{
    match catalog.table(hop.table) {
        None => {},
        Some(table) => {
            let rows = table_rows(table);
            assert(rows =~= table.rows.map_values(|row: StoredRowView| row.values));
            names_lead_to_columns(table.schema, hop.key_col);
            names_lead_to_columns(table.schema, hop.out_col);
            let key_at = table.schema.column_index(hop.key_col)->0;
            let out_at = table.schema.column_index(hop.out_col)->0;
            holding_is_filtering(rows, key_at, key, 0);
            assert(rows.skip(0) =~= rows);
            let plain = |row: Seq<ValueView>| row[key_at] == key;
            let stated = |row: Seq<ValueView>| held(table.schema, row, hop.key_col) == key;
            assert forall|i: int| 0 <= i < rows.len() implies plain(#[trigger] rows[i]) == stated(
                rows[i],
            ) by {
                columns_are_found(table.schema, rows[i], hop.key_col, key_at);
            }
            filters_agree(rows, plain, stated);
            let found = rows.filter(stated);
            if found.len() > 0 {
                columns_are_found(table.schema, found[0], hop.out_col, out_at);
            }
        },
    }
}

/// A path over links takes its hops one after the other, each from what the one
/// before it reached.
pub proof fn links_take_their_hops_in_turn(
    catalog: CatalogView,
    hops: Seq<ScalarLinkHopView>,
    key: ValueView,
    n: int,
)
    requires
        0 <= n <= hops.len(),
        forall|i: int| 0 <= i < hops.len() ==> hop_stands(catalog, #[trigger] hops[i]),
    ensures
        link_value(catalog, hops, key, n) == hops.take(n).fold_left(
            key,
            |from: ValueView, hop: ScalarLinkHopView| reached(catalog, hop, from),
        ),
    decreases n,
{
    if n > 0 {
        links_take_their_hops_in_turn(catalog, hops, key, n - 1);
        hops_reach_the_first_holder(
            catalog,
            hops[n - 1],
            link_value(catalog, hops, key, n - 1),
        );
        assert(hops.take(n).drop_last() =~= hops.take(n - 1));
        assert(hops.take(n).last() == hops[n - 1]);
    }
}

/// What a field of a nesting projection has on a parent row: the value of an
/// expression, the document of the array of a level for the key that the row holds,
/// or what a path over links reaches from it.
pub open spec fn holds_field(
    scope: NestedScope,
    documents: DocumentModel,
    columns: Seq<Seq<char>>,
    field: NestedProjectFieldView,
    row: Seq<ValueView>,
    value: ValueView,
) -> bool {
    match field {
        NestedProjectFieldView::Plain(plain) => value == (scope.eval)(plain.expr, row, columns),
        NestedProjectFieldView::Nested(nested) => exists|c: int|
            {
                &&& 0 <= c < columns.len() && #[trigger] columns[c] == nested.parent_key
                &&& documents(level_array(scope, nested, row[c])) matches Ok(bytes)
                &&& value == ValueView::Json(bytes)
            },
        NestedProjectFieldView::Link(link) => link.resolved matches Some(resolved) && exists|c: int|
            {
                &&& 0 <= c < columns.len() && #[trigger] columns[c] == resolved.first_fk
                &&& value == link_value(
                    scope.catalog,
                    resolved.hops,
                    row[c],
                    resolved.hops.len() as int,
                )
            },
    }
}

/// There is a budget within which a field is built.
pub open spec fn is_built(
    scope: NestedScope,
    parent: ParentView,
    field: NestedProjectFieldView,
) -> bool {
    exists|budget: Budget| #[trigger] field_budget(scope, parent, field, budget) is Ok
}

proof fn nesting_values_hold(
    scope: NestedScope,
    documents: DocumentModel,
    parent: ParentView,
    fields: Seq<NestedProjectFieldView>,
    row: Seq<ValueView>,
    i: int,
)
    requires
        0 <= i <= fields.len(),
        forall|f: int|
            0 <= f < fields.len() ==> is_built(scope, parent, #[trigger] fields[f]),
    ensures
        nesting_values(scope, documents, parent.columns, fields, row, i) matches Ok(values)
            ==> values.len() == fields.len() - i && forall|f: int|
            0 <= f < values.len() ==> holds_field(
                scope,
                documents,
                parent.columns,
                fields[i + f],
                row,
                #[trigger] values[f],
            ),
    decreases fields.len() - i,
{
    let columns = parent.columns;
    if i < fields.len() {
        nesting_values_hold(scope, documents, parent, fields, row, i + 1);
        assert(is_built(scope, parent, fields[i]));
        match fields[i] {
            NestedProjectFieldView::Plain(_) => {},
            NestedProjectFieldView::Nested(nested) => {
                first_where_found(columns, is_name(nested.parent_key));
                assert(columns[name_position(columns, nested.parent_key)->0]
                    == nested.parent_key);
            },
            NestedProjectFieldView::Link(link) => {
                let first_fk = link.resolved->0.first_fk;
                first_where_found(columns, is_name(first_fk));
                assert(columns[name_position(columns, first_fk)->0] == first_fk);
            },
        }
        match (
            nesting_values(scope, documents, columns, fields, row, i),
            nesting_values(scope, documents, columns, fields, row, i + 1),
        ) {
            (Ok(all), Ok(rest)) => {
                assert forall|f: int| 0 <= f < all.len() implies holds_field(
                    scope,
                    documents,
                    columns,
                    fields[i + f],
                    row,
                    #[trigger] all[f],
                ) by {
                    if f > 0 {
                        assert(all[f] == rest[f - 1]);
                        assert(fields[i + 1 + (f - 1)] == fields[i + f]);
                    }
                }
            },
            _ => {},
        }
    }
}

proof fn budgets_are_found(
    scope: NestedScope,
    parent: ParentView,
    fields: Seq<NestedProjectFieldView>,
    i: int,
    budget: Budget,
    f: int,
)
    requires
        0 <= i <= f < fields.len(),
        fields_budget(scope, parent, fields, i, budget) is Ok,
    ensures
        is_built(scope, parent, fields[f]),
    decreases f - i,
{
    let left = field_budget(scope, parent, fields[i], budget)->Ok_0;
    if i < f {
        budgets_are_found(scope, parent, fields, i + 1, left, f);
    } else {
        assert(field_budget(scope, parent, fields[f], budget) is Ok);
    }
}

proof fn nesting_rows_hold(
    scope: NestedScope,
    documents: DocumentModel,
    parent: ParentView,
    fields: Seq<NestedProjectFieldView>,
    k: int,
)
    requires
        0 <= k <= parent.rows.len(),
        forall|f: int|
            0 <= f < fields.len() ==> is_built(scope, parent, #[trigger] fields[f]),
    ensures
        nesting_rows(scope, documents, parent, fields, k) matches Ok(rows) ==> rows.len()
            == parent.rows.len() - k && forall|r: int|
            0 <= r < rows.len() ==> holds_fields(
                scope,
                documents,
                parent.columns,
                fields,
                parent.rows[k + r],
                #[trigger] rows[r],
            ),
    decreases parent.rows.len() - k,
{
    if k < parent.rows.len() {
        nesting_rows_hold(scope, documents, parent, fields, k + 1);
        nesting_values_hold(scope, documents, parent, fields, parent.rows[k], 0);
        match (
            nesting_rows(scope, documents, parent, fields, k),
            nesting_rows(scope, documents, parent, fields, k + 1),
        ) {
            (Ok(all), Ok(rest)) => {
                assert forall|r: int| 0 <= r < all.len() implies holds_fields(
                    scope,
                    documents,
                    parent.columns,
                    fields,
                    parent.rows[k + r],
                    #[trigger] all[r],
                ) by {
                    if r > 0 {
                        assert(all[r] == rest[r - 1]);
                        assert(parent.rows[k + 1 + (r - 1)] == parent.rows[k + r]);
                    } else {
                        assert forall|f: int| 0 <= f < fields.len() implies holds_field(
                            scope,
                            documents,
                            parent.columns,
                            #[trigger] fields[f],
                            parent.rows[k],
                            all[0][f],
                        ) by {
                            assert(fields[0 + f] == fields[f]);
                        }
                    }
                }
            },
            _ => {},
        }
    }
}

/// A row holds what each field has on the parent row.
pub open spec fn holds_fields(
    scope: NestedScope,
    documents: DocumentModel,
    columns: Seq<Seq<char>>,
    fields: Seq<NestedProjectFieldView>,
    parent: Seq<ValueView>,
    row: Seq<ValueView>,
) -> bool {
    &&& row.len() == fields.len()
    &&& forall|f: int|
        0 <= f < fields.len() ==> holds_field(
            scope,
            documents,
            columns,
            #[trigger] fields[f],
            parent,
            row[f],
        )
}

/// A nesting projection answers a row for each parent row, in their order, with
/// what each field has on it, under the names of the fields.
pub proof fn nesting_answers_each_field(
    scope: NestedScope,
    documents: DocumentModel,
    columns: Seq<Seq<char>>,
    rows: Seq<Seq<ValueView>>,
    fields: Seq<NestedProjectFieldView>,
    budget: Budget,
)
    ensures
        nesting_answer(
            scope,
            documents,
            ResultView::Rows { columns, rows },
            fields,
            budget,
        ) matches Ok((result, _)) ==> {
            &&& result matches ResultView::Rows { columns: names, rows: made }
            &&& names.len() == fields.len()
            &&& forall|f: int|
                0 <= f < fields.len() ==> match #[trigger] fields[f] {
                    NestedProjectFieldView::Plain(plain) => plain.alias matches Some(alias)
                        ==> names[f] == alias,
                    NestedProjectFieldView::Nested(nested) => names[f] == nested.name,
                    NestedProjectFieldView::Link(link) => names[f] == link.name,
                }
            &&& made.len() == rows.len()
            &&& forall|r: int|
                0 <= r < rows.len() ==> holds_fields(
                    scope,
                    documents,
                    columns,
                    fields,
                    rows[r],
                    #[trigger] made[r],
                )
        },
{
    let parent = ParentView { columns, rows };
    if nesting_answer(scope, documents, ResultView::Rows { columns, rows }, fields, budget) is Ok {
        assert forall|f: int| 0 <= f < fields.len() implies is_built(
            scope,
            parent,
            #[trigger] fields[f],
        ) by {
            budgets_are_found(scope, parent, fields, 0, budget, f);
        }
        nesting_rows_hold(scope, documents, parent, fields, 0);
        let made = nesting_rows(scope, documents, parent, fields, 0)->Ok_0;
        assert forall|r: int| 0 <= r < rows.len() implies holds_fields(
            scope,
            documents,
            columns,
            fields,
            rows[r],
            #[trigger] made[r],
        ) by {
            assert(parent.rows[0 + r] == rows[r]);
        }
    }
}

/// The keys that the parent rows hold in a column: each once, in the order of their
/// first appearance, and no null.
pub proof fn parent_keys_are_each_key_once(
    rows: Seq<Seq<ValueView>>,
    column: int,
    n: int,
    key: ValueView,
)
    requires
        0 <= n <= rows.len(),
    ensures
        ({
            let keys = distinct_values(rows, column, n);
            &&& keys.no_duplicates()
            &&& keys.contains(seq![key]) <==> key != ValueView::Empty && exists|r: int|
                0 <= r < n && (#[trigger] rows[r])[column] == key
        }),
    decreases n,
{
    if n > 0 {
        let before = distinct_values(rows, column, n - 1);
        let value = rows[n - 1][column];
        parent_keys_are_each_key_once(rows, column, n - 1, key);
        parent_keys_are_each_key_once(rows, column, n - 1, value);
        let keys = distinct_values(rows, column, n);
        if !(value is Empty || before.contains(seq![value])) {
            assert(keys == before.push(seq![value]));
            assert(keys.contains(seq![key]) <==> before.contains(seq![key]) || key == value) by {
                if before.contains(seq![key]) {
                    let k = choose|k: int| 0 <= k < before.len() && before[k] == seq![key];
                    assert(keys[k] == seq![key]);
                }
                if key == value {
                    assert(keys[before.len() as int] == seq![key]);
                }
                if keys.contains(seq![key]) {
                    let k = choose|k: int| 0 <= k < keys.len() && keys[k] == seq![key];
                    if k < before.len() {
                        assert(before[k] == seq![key]);
                    } else {
                        assert(seq![key][0] == seq![value][0]);
                    }
                }
            }
        }
        if exists|r: int| 0 <= r < n && (#[trigger] rows[r])[column] == key {
            let r = choose|r: int| 0 <= r < n && (#[trigger] rows[r])[column] == key;
            if r < n - 1 {
                assert(rows[r][column] == key);
            }
        }
        if exists|r: int| 0 <= r < n - 1 && (#[trigger] rows[r])[column] == key {
            let r = choose|r: int| 0 <= r < n - 1 && (#[trigger] rows[r])[column] == key;
            assert(rows[r][column] == key);
        }
        if key == value {
            assert(rows[n - 1][column] == key);
        }
    }
}

} // verus!
