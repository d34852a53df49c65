//! What statements that declare and change types come to.

use vstd::prelude::*;

use crate::catalog::{CatalogView, ColumnDefView, LinkDefView};
use crate::coerce::CoerceModel;
use crate::define::{
    add_index_decision, add_unique_decision, alter_decision, columns_from,
    create_table_decision, drop_index_decision, link_decision, settings_from, unique_ops_from,
    TypeModel,
};
use crate::error::{ErrorView, ResultView};
use crate::expr::ExprView;
use crate::index::table_rows;
use crate::laws::changing::denoted;
use crate::laws::filtering::images_take_first;
use crate::laws::naming::{columns_are_found, held, is_column, names_lead_to_columns};
use crate::nested::duplicate_from;
use crate::plan::{AlterActionView, FieldDefView, IndexTargetView, StoredJsonPathView};
use crate::storage::{DecisionView, ReplyView, StorageOpView};
use crate::value::{TypeId, ValueView};
use crate::wording::WordingModel;

verus! {

proof fn columns_are_declared(types: TypeModel, fields: Seq<FieldDefView>, i: int)
    requires
        0 <= i <= fields.len(),
    ensures
        columns_from(types, fields, i) matches Ok(columns) ==> columns.len() == fields.len() - i
            && forall|k: int|
            0 <= k < columns.len() ==> {
                &&& (#[trigger] columns[k]).name == fields[i + k].name
                &&& columns[k].required == fields[i + k].required
                &&& columns[k].position == (i + k) as u16
                &&& types(fields[i + k].declared) == Ok::<TypeId, Seq<char>>(columns[k].type_id)
            },
    decreases fields.len() - i,
{
    if i < fields.len() {
        columns_are_declared(types, fields, i + 1);
        match (columns_from(types, fields, i), columns_from(types, fields, i + 1)) {
            (Ok(all), Ok(rest)) => {
                assert forall|k: int| 0 <= k < all.len() implies {
                    &&& (#[trigger] all[k]).name == fields[i + k].name
                    &&& all[k].required == fields[i + k].required
                    &&& all[k].position == (i + k) as u16
                    &&& types(fields[i + k].declared) == Ok::<TypeId, Seq<char>>(all[k].type_id)
                } by {
                    if k > 0 {
                        assert(all[k] == rest[k - 1]);
                        assert(fields[i + 1 + (k - 1)] == fields[i + k]);
                    }
                }
            },
            _ => {},
        }
    }
}

/// The default that a column takes of the literal that its field declares, and
/// whether the column numbers itself.
pub open spec fn is_set(
    coerce: CoerceModel,
    field: FieldDefView,
    column: ColumnDefView,
    default: Option<ValueView>,
    auto: bool,
) -> bool {
    &&& match field.default_value {
        None => default is None,
        Some(literal) => default matches Some(value) && coerce(
            denoted(ExprView::Literal(literal))->0,
            column,
        ) == Ok::<ValueView, Seq<char>>(value),
    }
    &&& auto == field.auto_increment
    &&& auto ==> column.type_id == TypeId::Int && default is None
}

proof fn settings_are_declared(
    coerce: CoerceModel,
    fields: Seq<FieldDefView>,
    columns: Seq<ColumnDefView>,
    i: int,
)
    requires
        0 <= i <= fields.len(),
    ensures
        settings_from(coerce, fields, columns, i) matches Ok(settings) ==> settings.len()
            == fields.len() - i && forall|k: int|
            0 <= k < settings.len() ==> is_set(
                coerce,
                fields[i + k],
                columns[i + k],
                (#[trigger] settings[k]).0,
                settings[k].1,
            ),
    decreases fields.len() - i,
{
    if i < fields.len() {
        settings_are_declared(coerce, fields, columns, i + 1);
        match (
            settings_from(coerce, fields, columns, i),
            settings_from(coerce, fields, columns, i + 1),
        ) {
            (Ok(all), Ok(rest)) => {
                assert forall|k: int| 0 <= k < all.len() implies is_set(
                    coerce,
                    fields[i + k],
                    columns[i + k],
                    (#[trigger] all[k]).0,
                    all[k].1,
                ) by {
                    if k > 0 {
                        assert(all[k] == rest[k - 1]);
                        assert(fields[i + 1 + (k - 1)] == fields[i + k]);
                        assert(columns[i + 1 + (k - 1)] == columns[i + k]);
                    }
                }
            },
            _ => {},
        }
    }
}

proof fn unique_fields_are_indexed(table: Seq<char>, fields: Seq<FieldDefView>, i: int)
    requires
        0 <= i <= fields.len(),
    ensures
        unique_ops_from(table, fields, i) == fields.skip(i).filter(
            |field: FieldDefView| field.unique,
        ).map_values(
            |field: FieldDefView|
                StorageOpView::CreateIndex { table, column: field.name, unique: true },
        ),
    decreases fields.len() - i,
{
    images_take_first(
        fields,
        |field: FieldDefView| field.unique,
        |field: FieldDefView|
            StorageOpView::CreateIndex { table, column: field.name, unique: true },
        i,
    );
    if i < fields.len() {
        unique_fields_are_indexed(table, fields, i + 1);
    }
}

/// Declaring a type that is not there makes its table, with a column for each field
/// in their order, of the type that the field names, with its default; and then a
/// unique index for each field that asks for one.
pub proof fn new_types_have_their_fields(
    catalog: CatalogView,
    coerce: CoerceModel,
    types: TypeModel,
    name: Seq<char>,
    fields: Seq<FieldDefView>,
    if_not_exists: bool,
    k: int,
)
    requires
        catalog.table(name) is None,
        0 <= k < fields.len(),
    ensures
        create_table_decision(catalog, coerce, types, name, fields, if_not_exists) matches Ok(
            decision,
        ) ==> {
            &&& decision matches DecisionView::Write { ops, reply }
            &&& reply == (ReplyView::Fixed { result: ResultView::Created(name) })
            &&& ops.len() > 0
            &&& ops[0] matches StorageOpView::CreateTable { schema, defaults, auto_columns }
            &&& schema.table_name == name
            &&& schema.columns.len() == fields.len()
            &&& defaults.len() == fields.len()
            &&& auto_columns.len() == fields.len()
            &&& schema.columns[k].name == fields[k].name
            &&& schema.columns[k].required == fields[k].required
            &&& schema.columns[k].position == k as u16
            &&& types(fields[k].declared) == Ok::<TypeId, Seq<char>>(schema.columns[k].type_id)
            &&& is_set(coerce, fields[k], schema.columns[k], defaults[k], auto_columns[k])
            &&& ops.skip(1) == fields.filter(|field: FieldDefView| field.unique).map_values(
                |field: FieldDefView|
                    StorageOpView::CreateIndex { table: name, column: field.name, unique: true },
            )
        },
{
    match create_table_decision(catalog, coerce, types, name, fields, if_not_exists) {
        Ok(DecisionView::Write { ops, .. }) => {
            columns_are_declared(types, fields, 0);
            let columns = columns_from(types, fields, 0)->Ok_0;
            settings_are_declared(coerce, fields, columns, 0);
            let settings = settings_from(coerce, fields, columns, 0)->Ok_0;
            assert(columns[k].name == fields[0 + k].name);
            assert(is_set(coerce, fields[0 + k], columns[0 + k], settings[k].0, settings[k].1));
            unique_fields_are_indexed(name, fields, 0);
            assert(fields.skip(0) =~= fields);
            assert(ops.skip(1) =~= unique_ops_from(name, fields, 0));
        },
        _ => {},
    }
}

/// Declaring a type that is there is refused, or passed over where that is asked
/// for; nothing is written either way.
pub proof fn types_are_declared_once(
    catalog: CatalogView,
    coerce: CoerceModel,
    types: TypeModel,
    name: Seq<char>,
    fields: Seq<FieldDefView>,
    if_not_exists: bool,
)
    requires
        catalog.table(name) is Some,
    ensures
        create_table_decision(catalog, coerce, types, name, fields, if_not_exists) == (
        if if_not_exists {
            Ok::<DecisionView, ErrorView>(
                DecisionView::Answer {
                    result: ResultView::Executed {
                        message: "type '"@ + name + "' already exists (skipped)"@,
                    },
                },
            )
        } else {
            Err(ErrorView::Execution("cannot create type '"@ + name + "': it already exists"@))
        }),
{
}

/// A column that is added stands after those that are there, with the type that its
/// name stands for; a column that is dropped is dropped by its name, and where that
/// is asked for only if it is there.
pub proof fn columns_are_added_last_and_dropped_by_name(
    catalog: CatalogView,
    types: TypeModel,
    words: WordingModel,
    table: Seq<char>,
    name: Seq<char>,
    declared: Seq<char>,
    required: bool,
    if_exists: bool,
)
    requires
        catalog.table(table) is Some,
    ensures
        ({
            let schema = catalog.table(table)->0.schema;
            &&& alter_decision(
                catalog,
                types,
                words,
                table,
                AlterActionView::AddColumn { name, declared, required },
            ) == (match types(declared) {
                Err(message) => Err::<DecisionView, ErrorView>(ErrorView::TypeError(message)),
                Ok(type_id) => Ok(
                    DecisionView::Write {
                        ops: seq![
                            StorageOpView::AddColumn {
                                table,
                                column: ColumnDefView {
                                    name,
                                    type_id,
                                    required,
                                    position: schema.columns.len() as u16,
                                },
                            },
                        ],
                        reply: ReplyView::Fixed {
                            result: ResultView::Executed {
                                message: "column '"@ + name + "' added to '"@ + table + "'"@,
                            },
                        },
                    },
                ),
            })
            &&& alter_decision(
                catalog,
                types,
                words,
                table,
                AlterActionView::DropColumn { name, if_exists },
            ) == Ok::<DecisionView, ErrorView>(
                if if_exists && (forall|c: int| !#[trigger] is_column(schema, name, c)) {
                    DecisionView::Answer {
                        result: ResultView::Executed {
                            message: "column '"@ + name + "' does not exist on '"@ + table
                                + "' (skipped)"@,
                        },
                    }
                } else {
                    DecisionView::Write {
                        ops: seq![StorageOpView::DropColumn { table, name }],
                        reply: ReplyView::Fixed {
                            result: ResultView::Executed {
                                message: "column '"@ + name + "' dropped from '"@ + table + "'"@,
                            },
                        },
                    }
                },
            )
        }),
{
    let schema = catalog.table(table)->0.schema;
    names_lead_to_columns(schema, name);
    if schema.column_index(name) is Some {
        assert(is_column(schema, name, schema.column_index(name)->0));
    }
}

/// A link is declared with what its statement says of it, whichever statement that
/// is.
pub proof fn links_are_declared_as_said(
    catalog: CatalogView,
    types: TypeModel,
    words: WordingModel,
    owner: Seq<char>,
    name: Seq<char>,
    target: Seq<char>,
    local_key: Seq<char>,
    target_key: Seq<char>,
)
    ensures
        ({
            let declared = DecisionView::Write {
                ops: seq![
                    StorageOpView::CreateLink {
                        link: LinkDefView {
                            owner_type: owner,
                            name,
                            target_type: target,
                            local_key,
                            target_key,
                        },
                    },
                ],
                reply: ReplyView::Fixed {
                    result: ResultView::Executed {
                        message: "link '"@ + name + "' added to '"@ + owner + "'"@,
                    },
                },
            };
            &&& link_decision(owner, name, target, local_key, target_key) == declared
            &&& alter_decision(
                catalog,
                types,
                words,
                owner,
                AlterActionView::AddLink { name, target, local_key, target_key },
            ) == Ok::<DecisionView, ErrorView>(declared)
        }),
{
}

/// Two rows hold the same value in a column, and it is no null.
pub open spec fn repeats_value(
    catalog: CatalogView,
    table: Seq<char>,
    column: Seq<char>,
    i: int,
    j: int,
) -> bool {
    let found = catalog.table(table)->0;
    let first = held(found.schema, found.rows[i].values, column);
    &&& 0 <= i < j < found.rows.len()
    &&& first != ValueView::Empty
    &&& first == held(found.schema, found.rows[j].values, column)
}

proof fn duplicates_repeat(rows: Seq<Seq<ValueView>>, at: int, k: int)
    requires
        0 <= k <= rows.len(),
    ensures
        duplicate_from(rows, at, k) is Some <==> exists|i: int, j: int|
            #![trigger rows[i], rows[j]]
            0 <= i < j < rows.len() && k <= j && rows[i][at] != ValueView::Empty && rows[i][at]
                == rows[j][at],
    decreases rows.len() - k,
{
    if k < rows.len() {
        duplicates_repeat(rows, at, k + 1);
        if !(rows[k][at] is Empty) && exists|j: int|
            0 <= j < k && #[trigger] rows[j][at] == rows[k][at] {
            let i = choose|j: int| 0 <= j < k && #[trigger] rows[j][at] == rows[k][at];
            assert(0 <= i < k && rows[i][at] == rows[k][at]);
        } else {
            if exists|i: int, j: int|
                #![trigger rows[i], rows[j]]
                0 <= i < j < rows.len() && k <= j && rows[i][at] != ValueView::Empty && rows[i][at]
                    == rows[j][at] {
                let (i, j) = choose|i: int, j: int|
                    #![trigger rows[i], rows[j]]
                    0 <= i < j < rows.len() && k <= j && rows[i][at] != ValueView::Empty
                        && rows[i][at] == rows[j][at];
                if j == k {
                    assert(rows[i][at] == rows[k][at]);
                }
                assert(k + 1 <= j);
            }
        }
    }
}

/// A unique index on a column without an index is made if and only if no two rows
/// hold the same value in it, nulls aside.
pub proof fn unique_indexes_are_made_over_distinct_values(
    catalog: CatalogView,
    words: WordingModel,
    table: Seq<char>,
    column: Seq<char>,
    if_not_exists: bool,
)
    requires
        catalog.index(table, column) is None,
        catalog.table(table) matches Some(found) && found.schema.column_index(column) is Some,
    ensures
        match add_unique_decision(
            catalog,
            words,
            table,
            IndexTargetView::Column(column),
            if_not_exists,
        ) {
            Ok(decision) => (forall|i: int, j: int|
                !#[trigger] repeats_value(catalog, table, column, i, j)) && decision == (
            DecisionView::Write {
                ops: seq![StorageOpView::CreateIndex { table, column, unique: true }],
                reply: ReplyView::Fixed {
                    result: ResultView::Executed {
                        message: "unique index on '"@ + table + "."@ + column + "' created"@,
                    },
                },
            }),
            Err(_) => exists|i: int, j: int| #[trigger]
                repeats_value(catalog, table, column, i, j),
        },
{
    let found = catalog.table(table)->0;
    names_lead_to_columns(found.schema, column);
    let at = found.schema.column_index(column)->0;
    let rows = table_rows(found);
    duplicates_repeat(rows, at, 0);
    assert forall|r: int| 0 <= r < found.rows.len() implies held(
        found.schema,
        (#[trigger] found.rows[r]).values,
        column,
    ) == rows[r][at] by {
        columns_are_found(found.schema, found.rows[r].values, column, at);
    }
    if duplicate_from(rows, at, 0) is Some {
        let (i, j) = choose|i: int, j: int|
            #![trigger rows[i], rows[j]]
            0 <= i < j < rows.len() && 0 <= j && rows[i][at] != ValueView::Empty && rows[i][at]
                == rows[j][at];
        assert(found.rows[i].values == rows[i] && found.rows[j].values == rows[j]);
        assert(repeats_value(catalog, table, column, i, j));
    } else {
        assert forall|i: int, j: int| !#[trigger] repeats_value(
            catalog,
            table,
            column,
            i,
            j,
        ) by {
            if repeats_value(catalog, table, column, i, j) {
                assert(found.rows[i].values == rows[i] && found.rows[j].values == rows[j]);
                assert(rows[i][at] == rows[j][at]);
            }
        }
    }
}

/// An index is added by its column or path, and none twice; a unique one on
/// something that has an index is refused, or passed over where that is asked for.
/// An index is dropped by its path alone.
pub proof fn indexes_are_added_once(
    catalog: CatalogView,
    words: WordingModel,
    table: Seq<char>,
    column: Seq<char>,
    path: StoredJsonPathView,
)
    ensures
        add_index_decision(catalog, table, IndexTargetView::Column(column)) matches
            DecisionView::Write { ops, .. } && ops == seq![
            StorageOpView::CreateIndex { table, column, unique: false },
        ],
        match catalog.expression_index(table, path) {
            None => {
                &&& add_index_decision(catalog, table, IndexTargetView::JsonPath(path)) == (
                DecisionView::Write {
                    ops: seq![StorageOpView::CreatePathIndex { table, path, unique: false }],
                    reply: ReplyView::PathIndex { table, unique: false },
                })
                &&& add_unique_decision(
                    catalog,
                    words,
                    table,
                    IndexTargetView::JsonPath(path),
                    false,
                ) == Ok::<DecisionView, ErrorView>(
                    DecisionView::Write {
                        ops: seq![StorageOpView::CreatePathIndex { table, path, unique: true }],
                        reply: ReplyView::PathIndex { table, unique: true },
                    },
                )
                &&& drop_index_decision(catalog, table, IndexTargetView::JsonPath(path), false)
                    is Err
                &&& drop_index_decision(catalog, table, IndexTargetView::JsonPath(path), true)
                    matches Ok(DecisionView::Answer { .. })
            },
            Some(index) => {
                &&& add_index_decision(catalog, table, IndexTargetView::JsonPath(path)) is Answer
                &&& add_unique_decision(
                    catalog,
                    words,
                    table,
                    IndexTargetView::JsonPath(path),
                    false,
                ) is Err
                &&& add_unique_decision(
                    catalog,
                    words,
                    table,
                    IndexTargetView::JsonPath(path),
                    true,
                ) matches Ok(DecisionView::Answer { .. })
                &&& drop_index_decision(catalog, table, IndexTargetView::JsonPath(path), false)
                    matches Ok(DecisionView::Write { ops, .. }) && ops == seq![
                    StorageOpView::DropPathIndex { table, index_id: index.index_id },
                ]
            },
        },
        catalog.index(table, column) is Some ==> add_unique_decision(
            catalog,
            words,
            table,
            IndexTargetView::Column(column),
            false,
        ) is Err && (add_unique_decision(
            catalog,
            words,
            table,
            IndexTargetView::Column(column),
            true,
        ) matches Ok(DecisionView::Answer { .. })),
        drop_index_decision(catalog, table, IndexTargetView::Column(column), true) is Err,
        drop_index_decision(catalog, table, IndexTargetView::Column(column), false) is Err,
{
}

/// What changes a type goes by what the change says.
pub proof fn changes_go_by_their_action(
    catalog: CatalogView,
    types: TypeModel,
    words: WordingModel,
    table: Seq<char>,
    target: IndexTargetView,
    flag: bool,
)
    ensures
        alter_decision(
            catalog,
            types,
            words,
            table,
            AlterActionView::AddIndex { target, if_not_exists: flag },
        ) == Ok::<DecisionView, ErrorView>(add_index_decision(catalog, table, target)),
        alter_decision(
            catalog,
            types,
            words,
            table,
            AlterActionView::AddUnique { target, if_not_exists: flag },
        ) == add_unique_decision(catalog, words, table, target, flag),
        alter_decision(
            catalog,
            types,
            words,
            table,
            AlterActionView::DropIndex { target, if_exists: flag },
        ) == drop_index_decision(catalog, table, target, flag),
{
}

} // verus!
