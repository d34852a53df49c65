//! What the statements that declare types, indexes and links have the storage
//! do.

use vstd::prelude::*;

use crate::catalog::{
    Catalog, CatalogView, ColumnDef, ColumnDefView, LinkDef, LinkDefView, Schema, SchemaView,
};
use crate::coerce::{
    coerced_value, literal_value, prefixed, value_of_literal, CoerceModel, Coercion,
};
use crate::error::{outcome, ErrorView, QueryError, QueryResult, ResultView};
use crate::index::{catalog_fits, found_table_fits, scan_rows, table_rows};
use crate::nested::{duplicate_from, find_duplicate};
use crate::plan::{
    AlterAction, AlterActionView, FieldDef, FieldDefView, IndexTarget, IndexTargetView,
};
use crate::session::answered;
use crate::storage::{Decision, DecisionView, Reply, ReplyView, StorageOp, StorageOpView};
use crate::text::{decimal, push_decimal, push_text};
use crate::value::{TypeId, Value, ValueView};
use crate::wording::{words, Subject, SubjectView, Wording, WordingModel};

verus! {

/// The type that a name stands for, or why there is none.
pub type TypeModel = spec_fn(Seq<char>) -> Result<TypeId, Seq<char>>;

/// `run` returns, and returns what `model` says.
pub open spec fn types_as<N: Fn(&String) -> Result<TypeId, String>>(run: N, model: TypeModel) -> bool {
    &&& forall|name: &String| #[trigger] call_requires(run, (name,))
    &&& forall|name: &String, found: Result<TypeId, String>| #[trigger]
        call_ensures(run, (name,), found) ==> match found {
            Ok(t) => model(name@) == Ok::<TypeId, Seq<char>>(t),
            Err(m) => model(name@) == Err::<TypeId, Seq<char>>(m@),
        }
}

/// The names of types, as the embedding program spells them, with the function
/// that it computes.
pub struct TypeNames<N> {
    pub run: N,
    pub model: Ghost<TypeModel>,
}

/// The type that a name stands for, or a type error.
pub open spec fn named_type(model: TypeModel, name: Seq<char>) -> Result<TypeId, ErrorView> {
    match model(name) {
        Ok(t) => Ok(t),
        Err(message) => Err(ErrorView::TypeError(message)),
    }
}

impl<N: Fn(&String) -> Result<TypeId, String>> TypeNames<N> {
    /// The spelling is total and a function of the name.
    pub open spec fn ok(&self) -> bool {
        types_as(self.run, self.model@)
    }

    /// A spelling that is a function of the name.
    pub fn new(run: N) -> (names: Self)
        requires
            exists|model: TypeModel| #[trigger] types_as(run, model),
        ensures
            names.ok(),
            names.run == run,
    {
        let ghost model = choose|model: TypeModel| #[trigger] types_as(run, model);
        TypeNames { run, model: Ghost(model) }
    }

    /// The type that a name stands for.
    pub fn find(&self, name: &String) -> (found: Result<TypeId, QueryError>)
        requires
            self.ok(),
        ensures
            match found {
                Ok(t) => named_type(self.model@, name@) == Ok::<TypeId, ErrorView>(t),
                Err(error) => named_type(self.model@, name@) == Err::<TypeId, ErrorView>(
                    error.deep_view(),
                ),
            },
    {
        match (self.run)(name) {
            Ok(t) => Ok(t),
            Err(message) => Err(QueryError::TypeError(message)),
        }
    }
}

/// A text around a name.
pub fn around(before: &str, name: &String, after: &str) -> (text: String)
    ensures
        text@ == before@ + name@ + after@,
{
    let mut text = before.to_owned();
    push_text(&mut text, name.as_str());
    push_text(&mut text, after);
    text
}

/// A text around two names.
pub fn around_two(before: &str, first: &String, between: &str, second: &String, after: &str) -> (text:
    String)
    ensures
        text@ == before@ + first@ + between@ + second@ + after@,
{
    let mut text = around(before, first, between);
    push_text(&mut text, second.as_str());
    push_text(&mut text, after);
    text
}

/// The answer that a statement was carried out.
pub open spec fn told(message: Seq<char>) -> DecisionView {
    DecisionView::Answer { result: ResultView::Executed { message } }
}

/// One step of the storage, and the answer that it was carried out.
pub open spec fn done(op: StorageOpView, message: Seq<char>) -> DecisionView {
    DecisionView::Write {
        ops: seq![op],
        reply: ReplyView::Fixed { result: ResultView::Executed { message } },
    }
}

fn tell(message: String) -> (decision: Decision)
    ensures
        decision.deep_view() == told(message@),
{
    Decision::Answer { result: QueryResult::Executed { message } }
}

fn one(op: StorageOp) -> (ops: Vec<StorageOp>)
    ensures
        ops.deep_view() == seq![op.deep_view()],
{
    let mut ops: Vec<StorageOp> = Vec::new();
    ops.push(op);
    assert(ops.deep_view() =~= seq![op.deep_view()]);
    ops
}

fn carry_out(op: StorageOp, message: String) -> (decision: Decision)
    ensures
        decision.deep_view() == done(op.deep_view(), message@),
{
    Decision::Write {
        ops: one(op),
        reply: Reply::Fixed { result: QueryResult::Executed { message } },
    }
}

/// The columns of the fields from `i` on.
pub open spec fn columns_from(types: TypeModel, fields: Seq<FieldDefView>, i: int) -> Result<
    Seq<ColumnDefView>,
    ErrorView,
>
    decreases fields.len() - i,
{
    if i < 0 || i >= fields.len() {
        Ok(Seq::empty())
    } else {
        match named_type(types, fields[i].declared) {
            Err(error) => Err(error),
            Ok(type_id) => prefixed(
                seq![
                    ColumnDefView {
                        name: fields[i].name,
                        type_id,
                        required: fields[i].required,
                        position: i as u16,
                    },
                ],
                columns_from(types, fields, i + 1),
            ),
        }
    }
}

fn declare_columns<N: Fn(&String) -> Result<TypeId, String>>(
    types: &TypeNames<N>,
    fields: &Vec<FieldDef>,
) -> (columns: Result<Vec<ColumnDef>, QueryError>)
    requires
        types.ok(),
    ensures
        outcome(columns) == columns_from(types.model@, fields.deep_view(), 0),
        columns matches Ok(made) ==> made.len() == fields.len(),
{
    let ghost model = types.model@;
    let ghost views = fields.deep_view();
    let ghost all = columns_from(model, views, 0);
    let mut columns: Vec<ColumnDef> = Vec::new();
    let mut i: usize = 0;
    assert(prefixed(columns.deep_view(), all) == all) by {
        assert(all matches Ok(rest) ==> columns.deep_view() + rest =~= rest);
    }
    while i < fields.len()
        invariant
            types.ok(),
            i <= fields.len(),
            model == types.model@,
            views == fields.deep_view(),
            columns.len() == i,
            all == columns_from(model, views, 0),
            all == prefixed(columns.deep_view(), columns_from(model, views, i as int)),
        decreases fields.len() - i,
    {
        assert(views[i as int] == fields[i as int].deep_view());
        let type_id = types.find(&fields[i].declared)?;
        let column = ColumnDef {
            name: fields[i].name.clone(),
            type_id,
            required: fields[i].required,
            position: #[verifier::truncate]
            (i as u16),
        };
        let ghost before = columns.deep_view();
        let ghost shown = column.deep_view();
        columns.push(column);
        assert(columns.deep_view() =~= before.push(shown));
        assert(columns_from(model, views, i + 1) matches Ok(rest) ==> before + (seq![shown] + rest)
            =~= before.push(shown) + rest);
        i = i + 1;
    }
    assert(columns.deep_view() + Seq::<ColumnDefView>::empty() =~= columns.deep_view());
    Ok(columns)
}

/// The error for a column that numbers itself without being an integer.
pub open spec fn auto_type_error(name: Seq<char>) -> ErrorView {
    ErrorView::TypeError("auto column '"@ + name + "' must be of type int"@)
}

/// The error for a column that numbers itself and declares a default.
pub open spec fn auto_default_error(name: Seq<char>) -> ErrorView {
    ErrorView::TypeError("auto column '"@ + name + "' cannot also declare a default"@)
}

/// The default of a field as its column stores it, and whether the column
/// numbers itself.
pub open spec fn setting(coerce: CoerceModel, field: FieldDefView, column: ColumnDefView) -> Result<
    (Option<ValueView>, bool),
    ErrorView,
> {
    let default = match field.default_value {
        None => Ok(None),
        Some(literal) => match coerced_value(coerce, literal_value(literal), column) {
            Ok(value) => Ok(Some(value)),
            Err(error) => Err(error),
        },
    };
    match default {
        Err(error) => Err(error),
        Ok(default) => if !field.auto_increment {
            Ok((default, false))
        } else if !(column.type_id is Int) {
            Err(auto_type_error(field.name))
        } else if field.default_value is Some {
            Err(auto_default_error(field.name))
        } else {
            Ok((default, true))
        },
    }
}

/// The settings of the fields from `i` on.
pub open spec fn settings_from(
    coerce: CoerceModel,
    fields: Seq<FieldDefView>,
    columns: Seq<ColumnDefView>,
    i: int,
) -> Result<Seq<(Option<ValueView>, bool)>, ErrorView>
    decreases fields.len() - i,
{
    if i < 0 || i >= fields.len() {
        Ok(Seq::empty())
    } else {
        match setting(coerce, fields[i], columns[i]) {
            Err(error) => Err(error),
            Ok(one) => prefixed(seq![one], settings_from(coerce, fields, columns, i + 1)),
        }
    }
}

fn field_setting<K: Fn(&Value, &ColumnDef) -> Result<Value, String>>(
    coercion: &Coercion<K>,
    field: &FieldDef,
    column: &ColumnDef,
) -> (set: Result<(Option<Value>, bool), QueryError>)
    requires
        coercion.ok(),
    ensures
        match set {
            Ok((default, auto)) => setting(
                coercion.model@,
                field.deep_view(),
                column.deep_view(),
            ) == Ok::<(Option<ValueView>, bool), ErrorView>((default.deep_view(), auto)),
            Err(error) => setting(coercion.model@, field.deep_view(), column.deep_view()) == Err::<
                (Option<ValueView>, bool),
                ErrorView,
            >(error.deep_view()),
        },
{
    let default = match &field.default_value {
        None => None,
        Some(literal) => Some(coercion.coerce_value(&value_of_literal(literal), column)?),
    };
    if !field.auto_increment {
        return Ok((default, false));
    }
    match column.type_id {
        TypeId::Int => {},
        _ => {
            return Err(
                QueryError::TypeError(around("auto column '", &field.name, "' must be of type int")),
            );
        },
    }
    if field.default_value.is_some() {
        return Err(
            QueryError::TypeError(
                around("auto column '", &field.name, "' cannot also declare a default"),
            ),
        );
    }
    Ok((default, true))
}

/// The defaults among settings.
pub open spec fn set_defaults(settings: Seq<(Option<ValueView>, bool)>) -> Seq<Option<ValueView>> {
    Seq::new(settings.len(), |i: int| settings[i].0)
}

/// Which columns number themselves.
pub open spec fn set_autos(settings: Seq<(Option<ValueView>, bool)>) -> Seq<bool> {
    Seq::new(settings.len(), |i: int| settings[i].1)
}

fn declare_settings<K: Fn(&Value, &ColumnDef) -> Result<Value, String>>(
    coercion: &Coercion<K>,
    fields: &Vec<FieldDef>,
    columns: &Vec<ColumnDef>,
) -> (settings: Result<(Vec<Option<Value>>, Vec<bool>), QueryError>)
    requires
        coercion.ok(),
        columns.len() == fields.len(),
    ensures
        match settings {
            Ok((defaults, autos)) => settings_from(
                coercion.model@,
                fields.deep_view(),
                columns.deep_view(),
                0,
            ) matches Ok(all) && defaults.deep_view() == set_defaults(all) && autos@ == set_autos(
                all,
            ),
            Err(error) => settings_from(
                coercion.model@,
                fields.deep_view(),
                columns.deep_view(),
                0,
            ) == Err::<Seq<(Option<ValueView>, bool)>, ErrorView>(error.deep_view()),
        },
{
    let ghost coerce = coercion.model@;
    let ghost views = fields.deep_view();
    let ghost cols = columns.deep_view();
    let ghost all = settings_from(coerce, views, cols, 0);
    let ghost mut shown = Seq::<(Option<ValueView>, bool)>::empty();
    let mut defaults: Vec<Option<Value>> = Vec::new();
    let mut autos: Vec<bool> = Vec::new();
    let mut i: usize = 0;
    proof {
        assert(prefixed(shown, all) == all) by {
            assert(all matches Ok(rest) ==> shown + rest =~= rest);
        }
        assert(defaults.deep_view() =~= set_defaults(shown));
        assert(autos@ =~= set_autos(shown));
    }
    while i < fields.len()
        invariant
            coercion.ok(),
            i <= fields.len(),
            columns.len() == fields.len(),
            coerce == coercion.model@,
            views == fields.deep_view(),
            cols == columns.deep_view(),
            all == settings_from(coerce, views, cols, 0),
            all == prefixed(shown, settings_from(coerce, views, cols, i as int)),
            defaults.deep_view() == set_defaults(shown),
            autos@ == set_autos(shown),
        decreases fields.len() - i,
    {
        assert(views[i as int] == fields[i as int].deep_view());
        assert(cols[i as int] == columns[i as int].deep_view());
        let (default, auto) = field_setting(coercion, &fields[i], &columns[i])?;
        let ghost before = shown;
        let ghost one = (default.deep_view(), auto);
        let ghost known = defaults.deep_view();
        let ghost flags = autos@;
        defaults.push(default);
        autos.push(auto);
        proof {
            shown = before.push(one);
            assert(defaults.deep_view() =~= known.push(one.0));
            assert(defaults.deep_view() =~= set_defaults(shown));
            assert(autos@ =~= set_autos(shown));
            assert(settings_from(coerce, views, cols, i + 1) matches Ok(rest) ==> before + (seq![one]
                + rest) =~= before.push(one) + rest);
        }
        i = i + 1;
    }
    assert(shown + Seq::<(Option<ValueView>, bool)>::empty() =~= shown);
    Ok((defaults, autos))
}

/// The steps that index the unique fields from `i` on.
pub open spec fn unique_ops_from(table: Seq<char>, fields: Seq<FieldDefView>, i: int) -> Seq<StorageOpView>
    decreases fields.len() - i,
{
    if i < 0 || i >= fields.len() {
        Seq::empty()
    } else {
        let rest = unique_ops_from(table, fields, i + 1);
        if fields[i].unique {
            seq![StorageOpView::CreateIndex { table, column: fields[i].name, unique: true }] + rest
        } else {
            rest
        }
    }
}

fn index_unique_fields(ops: Vec<StorageOp>, table: &String, fields: &Vec<FieldDef>) -> (all: Vec<
    StorageOp,
>)
    ensures
        all.deep_view() == ops.deep_view() + unique_ops_from(table@, fields.deep_view(), 0),
{
    let ghost views = fields.deep_view();
    let ghost goal = ops.deep_view() + unique_ops_from(table@, views, 0);
    let mut all = ops;
    let mut i: usize = 0;
    while i < fields.len()
        invariant
            i <= fields.len(),
            views == fields.deep_view(),
            goal == all.deep_view() + unique_ops_from(table@, views, i as int),
        decreases fields.len() - i,
    {
        assert(views[i as int] == fields[i as int].deep_view());
        if fields[i].unique {
            let op = StorageOp::CreateIndex {
                table: table.clone(),
                column: fields[i].name.clone(),
                unique: true,
            };
            let ghost before = all.deep_view();
            let ghost shown = op.deep_view();
            let ghost rest = unique_ops_from(table@, views, i + 1);
            all.push(op);
            assert(all.deep_view() =~= before.push(shown));
            assert(before + (seq![shown] + rest) =~= before.push(shown) + rest);
        }
        i = i + 1;
    }
    assert(all.deep_view() + Seq::<StorageOpView>::empty() =~= all.deep_view());
    all
}

/// What declaring a type comes to.
pub open spec fn create_table_decision(
    catalog: CatalogView,
    coerce: CoerceModel,
    types: TypeModel,
    name: Seq<char>,
    fields: Seq<FieldDefView>,
    if_not_exists: bool,
) -> Result<DecisionView, ErrorView> {
    if catalog.schema(name) is Some {
        if if_not_exists {
            Ok(told("type '"@ + name + "' already exists (skipped)"@))
        } else {
            Err(ErrorView::Execution("cannot create type '"@ + name + "': it already exists"@))
        }
    } else {
        match columns_from(types, fields, 0) {
            Err(error) => Err(error),
            Ok(columns) => match settings_from(coerce, fields, columns, 0) {
                Err(error) => Err(error),
                Ok(settings) => Ok(
                    DecisionView::Write {
                        ops: seq![
                            StorageOpView::CreateTable {
                                schema: SchemaView { table_name: name, columns },
                                defaults: set_defaults(settings),
                                auto_columns: set_autos(settings),
                            },
                        ] + unique_ops_from(name, fields, 0),
                        reply: ReplyView::Fixed { result: ResultView::Created(name) },
                    },
                ),
            },
        }
    }
}

/// Decide the declaration of a type.
pub fn decide_create_table<
    K: Fn(&Value, &ColumnDef) -> Result<Value, String>,
    N: Fn(&String) -> Result<TypeId, String>,
>(
    catalog: &Catalog,
    coercion: &Coercion<K>,
    types: &TypeNames<N>,
    name: &String,
    fields: &Vec<FieldDef>,
    if_not_exists: bool,
) -> (decision: Result<Decision, QueryError>)
    requires
        coercion.ok(),
        types.ok(),
    ensures
        outcome(decision) == create_table_decision(
            catalog.deep_view(),
            coercion.model@,
            types.model@,
            name@,
            fields.deep_view(),
            if_not_exists,
        ),
{
    if catalog.schema(name).is_some() {
        if if_not_exists {
            return Ok(tell(around("type '", name, "' already exists (skipped)")));
        }
        return Err(
            QueryError::Execution(around("cannot create type '", name, "': it already exists")),
        );
    }
    let columns = declare_columns(types, fields)?;
    let (defaults, auto_columns) = declare_settings(coercion, fields, &columns)?;
    let schema = Schema { table_name: name.clone(), columns };
    let ops = index_unique_fields(
        one(StorageOp::CreateTable { schema, defaults, auto_columns }),
        name,
        fields,
    );
    Ok(
        Decision::Write {
            ops,
            reply: Reply::Fixed { result: QueryResult::Created(name.clone()) },
        },
    )
}

/// What declaring a link comes to.
pub open spec fn link_decision(
    owner: Seq<char>,
    name: Seq<char>,
    target: Seq<char>,
    local_key: Seq<char>,
    target_key: Seq<char>,
) -> DecisionView {
    done(
        StorageOpView::CreateLink {
            link: LinkDefView {
                owner_type: owner,
                name,
                target_type: target,
                local_key,
                target_key,
            },
        },
        "link '"@ + name + "' added to '"@ + owner + "'"@,
    )
}

/// Decide the declaration of a link.
pub fn create_link_from_parts(
    owner: &String,
    name: &String,
    target: &String,
    local_key: &String,
    target_key: &String,
) -> (decision: Decision)
    ensures
        decision.deep_view() == link_decision(owner@, name@, target@, local_key@, target_key@),
{
    carry_out(
        StorageOp::CreateLink {
            link: LinkDef {
                owner_type: owner.clone(),
                name: name.clone(),
                target_type: target.clone(),
                local_key: local_key.clone(),
                target_key: target_key.clone(),
            },
        },
        around_two("link '", name, "' added to '", owner, "'"),
    )
}

/// What adding a column comes to.
pub open spec fn add_column_decision(
    catalog: CatalogView,
    types: TypeModel,
    table: Seq<char>,
    name: Seq<char>,
    declared: Seq<char>,
    required: bool,
) -> Result<DecisionView, ErrorView> {
    match catalog.schema(table) {
        None => Err(ErrorView::TableNotFound(table)),
        Some(schema) => match named_type(types, declared) {
            Err(error) => Err(error),
            Ok(type_id) => Ok(
                done(
                    StorageOpView::AddColumn {
                        table,
                        column: ColumnDefView {
                            name,
                            type_id,
                            required,
                            position: schema.columns.len() as u16,
                        },
                    },
                    "column '"@ + name + "' added to '"@ + table + "'"@,
                ),
            ),
        },
    }
}

/// What dropping a column comes to.
pub open spec fn drop_column_decision(
    catalog: CatalogView,
    table: Seq<char>,
    name: Seq<char>,
    if_exists: bool,
) -> DecisionView {
    let present = match catalog.schema(table) {
        Some(schema) => schema.column_index(name) is Some,
        None => false,
    };
    if if_exists && !present {
        told("column '"@ + name + "' does not exist on '"@ + table + "' (skipped)"@)
    } else {
        done(
            StorageOpView::DropColumn { table, name },
            "column '"@ + name + "' dropped from '"@ + table + "'"@,
        )
    }
}

/// The answer that an index on a JSON path is already there.
pub open spec fn path_index_exists(index_id: u64, table: Seq<char>) -> DecisionView {
    told("expression index "@ + decimal(index_id as nat) + " on '"@ + table + "' already exists (skipped)"@)
}

/// What adding an index comes to.
pub open spec fn add_index_decision(
    catalog: CatalogView,
    table: Seq<char>,
    target: IndexTargetView,
) -> DecisionView {
    match target {
        IndexTargetView::Column(column) => done(
            StorageOpView::CreateIndex { table, column, unique: false },
            "index on '"@ + table + "."@ + column + "' created"@,
        ),
        IndexTargetView::JsonPath(path) => match catalog.expression_index(table, path) {
            Some(index) => path_index_exists(index.index_id, table),
            None => DecisionView::Write {
                ops: seq![StorageOpView::CreatePathIndex { table, path, unique: false }],
                reply: ReplyView::PathIndex { table, unique: false },
            },
        },
    }
}

/// What adding a unique index comes to: the values that are there must differ.
pub open spec fn add_unique_decision(
    catalog: CatalogView,
    model: WordingModel,
    table: Seq<char>,
    target: IndexTargetView,
    if_not_exists: bool,
) -> Result<DecisionView, ErrorView> {
    match target {
        IndexTargetView::JsonPath(path) => match catalog.expression_index(table, path) {
            Some(index) => if if_not_exists {
                Ok(path_index_exists(index.index_id, table))
            } else {
                Err(
                    ErrorView::Execution(
                        "cannot add unique expression index on "@ + table
                            + ": path already indexed"@,
                    ),
                )
            },
            None => Ok(
                DecisionView::Write {
                    ops: seq![StorageOpView::CreatePathIndex { table, path, unique: true }],
                    reply: ReplyView::PathIndex { table, unique: true },
                },
            ),
        },
        IndexTargetView::Column(column) => if catalog.index(table, column) is Some {
            if if_not_exists {
                Ok(told("index on '"@ + table + "."@ + column + "' already exists (skipped)"@))
            } else {
                Err(
                    ErrorView::Execution(
                        "cannot add unique on "@ + table + "."@ + column
                            + ": column already indexed"@,
                    ),
                )
            }
        } else {
            match catalog.table(table) {
                None => Err(ErrorView::TableNotFound(table)),
                Some(found) => match found.schema.column_index(column) {
                    None => Err(ErrorView::ColumnNotFound { table, column }),
                    Some(at) => match duplicate_from(table_rows(found), at, 0) {
                        Some(value) => Err(
                            ErrorView::Execution(
                                "cannot add unique on "@ + table + "."@ + column
                                    + ": duplicate value "@ + words(
                                    model,
                                    SubjectView::Value(value),
                                ) + " exists"@,
                            ),
                        ),
                        None => Ok(
                            done(
                                StorageOpView::CreateIndex { table, column, unique: true },
                                "unique index on '"@ + table + "."@ + column + "' created"@,
                            ),
                        ),
                    },
                },
            }
        },
    }
}

/// What dropping an index comes to.
pub open spec fn drop_index_decision(
    catalog: CatalogView,
    table: Seq<char>,
    target: IndexTargetView,
    if_exists: bool,
) -> Result<DecisionView, ErrorView> {
    match target {
        IndexTargetView::Column(_) => Err(
            ErrorView::Execution("dropping stored-column indexes is not supported"@),
        ),
        IndexTargetView::JsonPath(path) => match catalog.expression_index(table, path) {
            None => if if_exists {
                Ok(told("expression index on '"@ + table + "' does not exist (skipped)"@))
            } else {
                Err(ErrorView::Execution("expression index on '"@ + table + "' does not exist"@))
            },
            Some(index) => Ok(
                done(
                    StorageOpView::DropPathIndex { table, index_id: index.index_id },
                    "expression index "@ + decimal(index.index_id as nat) + " on '"@ + table
                        + "' dropped"@,
                ),
            ),
        },
    }
}

/// What changing a type comes to.
pub open spec fn alter_decision(
    catalog: CatalogView,
    types: TypeModel,
    model: WordingModel,
    table: Seq<char>,
    action: AlterActionView,
) -> Result<DecisionView, ErrorView> {
    match action {
        AlterActionView::AddColumn { name, declared, required } => add_column_decision(
            catalog,
            types,
            table,
            name,
            declared,
            required,
        ),
        AlterActionView::DropColumn { name, if_exists } => Ok(
            drop_column_decision(catalog, table, name, if_exists),
        ),
        AlterActionView::AddIndex { target, if_not_exists: _ } => Ok(
            add_index_decision(catalog, table, target),
        ),
        AlterActionView::AddUnique { target, if_not_exists } => add_unique_decision(
            catalog,
            model,
            table,
            target,
            if_not_exists,
        ),
        AlterActionView::DropIndex { target, if_exists } => drop_index_decision(
            catalog,
            table,
            target,
            if_exists,
        ),
        AlterActionView::AddLink { name, target, local_key, target_key } => Ok(
            link_decision(table, name, target, local_key, target_key),
        ),
    }
}

fn numbered(before: &str, index_id: u64, between: &str, table: &String, after: &str) -> (text: String)
    ensures
        text@ == before@ + decimal(index_id as nat) + between@ + table@ + after@,
{
    let mut text = before.to_owned();
    push_decimal(&mut text, index_id);
    push_text(&mut text, between);
    push_text(&mut text, table.as_str());
    push_text(&mut text, after);
    text
}

fn decide_add_unique<
    T: Fn(Subject) -> Option<String>,
    P: Fn() -> Result<(), QueryError>,
>(
    catalog: &Catalog,
    wording: &Wording<T>,
    table: &String,
    target: &IndexTarget,
    if_not_exists: bool,
    poll: &P,
) -> (decision: Result<Decision, QueryError>)
    requires
        wording.ok(),
        call_requires(*poll, ()),
        catalog_fits(catalog.deep_view()),
    ensures
        answered(
            decision,
            add_unique_decision(
                catalog.deep_view(),
                wording.model@,
                table@,
                target.deep_view(),
                if_not_exists,
            ),
            *poll,
        ),
{
    let column = match target {
        IndexTarget::Column(column) => column,
        IndexTarget::JsonPath(path) => {
            match catalog.resolve_expression_index(table, path) {
                Some(index) => {
                    if if_not_exists {
                        return Ok(
                            tell(
                                numbered(
                                    "expression index ",
                                    index.index_id,
                                    " on '",
                                    table,
                                    "' already exists (skipped)",
                                ),
                            ),
                        );
                    }
                    return Err(
                        QueryError::Execution(
                            around(
                                "cannot add unique expression index on ",
                                table,
                                ": path already indexed",
                            ),
                        ),
                    );
                },
                None => {},
            }
            match poll() {
                Ok(_) => {},
                Err(error) => {
                    return Err(error);
                },
            }
            let op = StorageOp::CreatePathIndex {
                table: table.clone(),
                path: path.clone(),
                unique: true,
            };
            return Ok(
                Decision::Write {
                    ops: one(op),
                    reply: Reply::PathIndex { table: table.clone(), unique: true },
                },
            );
        },
    };
    if catalog.index(table, column).is_some() {
        if if_not_exists {
            return Ok(
                tell(around_two("index on '", table, ".", column, "' already exists (skipped)")),
            );
        }
        return Err(
            QueryError::Execution(
                around_two("cannot add unique on ", table, ".", column, ": column already indexed"),
            ),
        );
    }
    let found = match catalog.table(table) {
        Some(found) => found,
        None => {
            return Err(QueryError::TableNotFound(table.clone()));
        },
    };
    let at: usize = match found.schema.column_index(column) {
        Some(at) => at,
        None => {
            return Err(
                QueryError::ColumnNotFound { table: table.clone(), column: column.clone() },
            );
        },
    };
    let ghost view = found.deep_view();
    proof {
        found_table_fits(catalog.deep_view(), table@);
    }
    let rows = scan_rows(found, poll)?;
    proof {
        assert forall|r: int| 0 <= r < rows.len() implies at < (#[trigger] rows[r]).len() by {
            assert(rows.deep_view()[r] == rows[r].deep_view());
            assert(view.rows[r].values.len() == view.schema.columns.len());
            assert(rows[r].deep_view().len() == rows[r].len());
        }
    }
    match find_duplicate(&rows, at) {
        Some(value) => {
            let mut message = around_two(
                "cannot add unique on ",
                table,
                ".",
                column,
                ": duplicate value ",
            );
            let spelled = wording.word(Subject::Value(&value));
            push_text(&mut message, spelled.as_str());
            push_text(&mut message, " exists");
            return Err(QueryError::Execution(message));
        },
        None => {},
    }
    match poll() {
        Ok(_) => {},
        Err(error) => {
            return Err(error);
        },
    }
    let op = StorageOp::CreateIndex { table: table.clone(), column: column.clone(), unique: true };
    Ok(carry_out(op, around_two("unique index on '", table, ".", column, "' created")))
}

fn decide_add_index<P: Fn() -> Result<(), QueryError>>(
    catalog: &Catalog,
    table: &String,
    target: &IndexTarget,
    poll: &P,
) -> (decision: Result<Decision, QueryError>)
    requires
        call_requires(*poll, ()),
    ensures
        answered(
            decision,
            Ok(add_index_decision(catalog.deep_view(), table@, target.deep_view())),
            *poll,
        ),
{
    match target {
        IndexTarget::Column(column) => {
            match poll() {
                Ok(_) => {},
                Err(error) => {
                    return Err(error);
                },
            }
            let op = StorageOp::CreateIndex {
                table: table.clone(),
                column: column.clone(),
                unique: false,
            };
            Ok(carry_out(op, around_two("index on '", table, ".", column, "' created")))
        },
        IndexTarget::JsonPath(path) => {
            match catalog.resolve_expression_index(table, path) {
                Some(index) => {
                    return Ok(
                        tell(
                            numbered(
                                "expression index ",
                                index.index_id,
                                " on '",
                                table,
                                "' already exists (skipped)",
                            ),
                        ),
                    );
                },
                None => {},
            }
            match poll() {
                Ok(_) => {},
                Err(error) => {
                    return Err(error);
                },
            }
            let op = StorageOp::CreatePathIndex {
                table: table.clone(),
                path: path.clone(),
                unique: false,
            };
            Ok(
                Decision::Write {
                    ops: one(op),
                    reply: Reply::PathIndex { table: table.clone(), unique: false },
                },
            )
        },
    }
}

fn decide_drop_index<P: Fn() -> Result<(), QueryError>>(
    catalog: &Catalog,
    table: &String,
    target: &IndexTarget,
    if_exists: bool,
    poll: &P,
) -> (decision: Result<Decision, QueryError>)
    requires
        call_requires(*poll, ()),
    ensures
        answered(
            decision,
            drop_index_decision(catalog.deep_view(), table@, target.deep_view(), if_exists),
            *poll,
        ),
{
    let path = match target {
        IndexTarget::Column(_) => {
            return Err(QueryError::execution("dropping stored-column indexes is not supported"));
        },
        IndexTarget::JsonPath(path) => path,
    };
    match catalog.resolve_expression_index(table, path) {
        None => {
            if if_exists {
                return Ok(
                    tell(around("expression index on '", table, "' does not exist (skipped)")),
                );
            }
            Err(
                QueryError::Execution(around("expression index on '", table, "' does not exist")),
            )
        },
        Some(index) => {
            match poll() {
                Ok(_) => {},
                Err(error) => {
                    return Err(error);
                },
            }
            let op = StorageOp::DropPathIndex { table: table.clone(), index_id: index.index_id };
            Ok(
                carry_out(
                    op,
                    numbered("expression index ", index.index_id, " on '", table, "' dropped"),
                ),
            )
        },
    }
}

/// Decide the change of a type.
pub fn decide_alter<
    N: Fn(&String) -> Result<TypeId, String>,
    T: Fn(Subject) -> Option<String>,
    P: Fn() -> Result<(), QueryError>,
>(
    catalog: &Catalog,
    types: &TypeNames<N>,
    wording: &Wording<T>,
    table: &String,
    action: &AlterAction,
    poll: &P,
) -> (decision: Result<Decision, QueryError>)
    requires
        types.ok(),
        wording.ok(),
        call_requires(*poll, ()),
        catalog_fits(catalog.deep_view()),
    ensures
        answered(
            decision,
            alter_decision(
                catalog.deep_view(),
                types.model@,
                wording.model@,
                table@,
                action.deep_view(),
            ),
            *poll,
        ),
{
    match action {
        AlterAction::AddColumn { name, declared, required } => {
            let schema = match catalog.schema(table) {
                Some(schema) => schema,
                None => {
                    return Err(QueryError::TableNotFound(table.clone()));
                },
            };
            assert(schema.deep_view().columns.len() == schema.columns.len());
            let type_id = types.find(declared)?;
            let count: usize = schema.columns.len();
            let column = ColumnDef {
                name: name.clone(),
                type_id,
                required: *required,
                position: #[verifier::truncate]
                (count as u16),
            };
            Ok(
                carry_out(
                    StorageOp::AddColumn { table: table.clone(), column },
                    around_two("column '", name, "' added to '", table, "'"),
                ),
            )
        },
        AlterAction::DropColumn { name, if_exists } => {
            let present: bool = match catalog.schema(table) {
                Some(schema) => schema.column_index(name).is_some(),
                None => false,
            };
            if *if_exists && !present {
                return Ok(
                    tell(
                        around_two("column '", name, "' does not exist on '", table, "' (skipped)"),
                    ),
                );
            }
            Ok(
                carry_out(
                    StorageOp::DropColumn { table: table.clone(), name: name.clone() },
                    around_two("column '", name, "' dropped from '", table, "'"),
                ),
            )
        },
        AlterAction::AddIndex { target, if_not_exists: _ } => decide_add_index(
            catalog,
            table,
            target,
            poll,
        ),
        AlterAction::AddUnique { target, if_not_exists } => decide_add_unique(
            catalog,
            wording,
            table,
            target,
            *if_not_exists,
            poll,
        ),
        AlterAction::DropIndex { target, if_exists } => decide_drop_index(
            catalog,
            table,
            target,
            *if_exists,
            poll,
        ),
        AlterAction::AddLink { name, target, local_key, target_key } => Ok(
            create_link_from_parts(table, name, target, local_key, target_key),
        ),
    }
}

/// A unique index is only made where the values that are there differ.
pub proof fn unique_index_needs_distinct_values(
    catalog: CatalogView,
    model: WordingModel,
    table: Seq<char>,
    column: Seq<char>,
    i: int,
    j: int,
)
    requires
        catalog.table(table) is Some,
        (catalog.table(table)->0).schema.column_index(column) is Some,
        ({
            let rows = table_rows(catalog.table(table)->0);
            let at = (catalog.table(table)->0).schema.column_index(column)->0;
            0 <= i < j < rows.len() && !(rows[j][at] is Empty) && rows[i][at] == rows[j][at]
        }),
        catalog.index(table, column) is None,
    ensures
        add_unique_decision(catalog, model, table, IndexTargetView::Column(column), false) is Err,
        add_unique_decision(catalog, model, table, IndexTargetView::Column(column), true) is Err,
{
    let rows = table_rows(catalog.table(table)->0);
    let at = (catalog.table(table)->0).schema.column_index(column)->0;
    duplicate_found(rows, at, i, j, 0);
}

proof fn duplicate_found(rows: Seq<Seq<ValueView>>, at: int, i: int, j: int, k: int)
    requires
        0 <= i < j < rows.len(),
        0 <= k <= j,
        !(rows[j][at] is Empty),
        rows[i][at] == rows[j][at],
    ensures
        duplicate_from(rows, at, k) is Some,
    decreases j - k,
{
    if k < j {
        duplicate_found(rows, at, i, j, k + 1);
    } else {
        assert(rows[i][at] == rows[k][at]);
    }
}

} // verus!
