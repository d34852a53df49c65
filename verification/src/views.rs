//! Materialized views: what they are filled with, and when they are out of
//! date.

use vstd::prelude::*;

use crate::catalog::{Catalog, CatalogView, ColumnDef, ColumnDefView, Schema, SchemaView};
use crate::define::{around, around_two, told};
use crate::error::{outcome, ErrorView, QueryError, QueryResult, ResultView};
use crate::links::{describe_view_list, view_list};
use crate::plan::{
    nested_field_view, nested_fields_view, NestedField, NestedFieldView, NestedProjectField,
    NestedProjectFieldView, NestedProjection, NestedProjectionView, PlanNode, PlanView,
};
use crate::read::{any_traces, link_fields, linked_fields, traces};
use crate::seqs::{name_position, name_position_is, name_position_none};
use crate::storage::{
    Decision, DecisionView, Reply, ReplyView, StorageOp, StorageOpView, ViewDef, ViewDefView,
};
use crate::text::{clone_texts, decimal, push_decimal, push_text};
use crate::value::{TypeId, Value, ValueView};

verus! {

/// A parsed statement, as far as a view depends on it: the tables that a query
/// and its joins read, and the two halves of a union.
#[derive(Debug, PartialEq, Eq)]
pub enum Statement {
    Query { source: String, joins: Vec<String> },
    Union { left: Box<Statement>, right: Box<Statement> },
    Other,
}

/// What a [`Statement`] stands for.
pub enum StatementView {
    Query { source: Seq<char>, joins: Seq<Seq<char>> },
    Union { left: Box<StatementView>, right: Box<StatementView> },
    Other,
}

/// What a statement stands for.
pub open spec fn statement_view(statement: Statement) -> StatementView
    decreases statement,
{
    match statement {
        Statement::Query { source, joins } => StatementView::Query {
            source: source@,
            joins: joins.deep_view(),
        },
        Statement::Union { left, right } => StatementView::Union {
            left: Box::new(statement_view(*left)),
            right: Box::new(statement_view(*right)),
        },
        Statement::Other => StatementView::Other,
    }
}

impl DeepView for Statement {
    type V = StatementView;

    open spec fn deep_view(&self) -> StatementView {
        statement_view(*self)
    }
}

/// The tables that a statement reads.
pub open spec fn statement_tables(statement: StatementView) -> Seq<Seq<char>>
    decreases statement,
{
    match statement {
        StatementView::Query { source, joins } => seq![source] + joins,
        StatementView::Union { left, right } => statement_tables(*left) + statement_tables(*right),
        StatementView::Other => Seq::empty(),
    }
}

fn append_names(names: Vec<String>, more: &Vec<String>) -> (both: Vec<String>)
    ensures
        both.deep_view() == names.deep_view() + more.deep_view(),
{
    let ghost start = names.deep_view();
    let ghost added = more.deep_view();
    let mut both = names;
    let mut i: usize = 0;
    assert(start + added.take(0) =~= start);
    while i < more.len()
        invariant
            i <= more.len(),
            added == more.deep_view(),
            both.deep_view() == start + added.take(i as int),
        decreases more.len() - i,
    {
        let ghost before = both.deep_view();
        both.push(more[i].clone());
        assert(both.deep_view() =~= before.push(added[i as int]));
        assert(added.take(i + 1) =~= added.take(i as int).push(added[i as int]));
        assert(both.deep_view() =~= start + added.take(i + 1));
        i = i + 1;
    }
    assert(added.take(added.len() as int) =~= added);
    both
}

fn one_name(name: &String) -> (names: Vec<String>)
    ensures
        names.deep_view() == seq![name@],
{
    let mut names: Vec<String> = Vec::new();
    names.push(name.clone());
    assert(names.deep_view() =~= seq![name@]);
    names
}

fn no_names() -> (names: Vec<String>)
    ensures
        names.deep_view() == Seq::<Seq<char>>::empty(),
{
    let names: Vec<String> = Vec::new();
    assert(names.deep_view() =~= Seq::<Seq<char>>::empty());
    names
}

/// The tables that a statement reads.
pub fn collect_statement_tables(statement: &Statement) -> (tables: Vec<String>)
    ensures
        tables.deep_view() == statement_tables(statement.deep_view()),
    decreases statement,
{
    match statement {
        Statement::Query { source, joins } => append_names(one_name(source), joins),
        Statement::Union { left, right } => {
            let first = collect_statement_tables(left);
            let second = collect_statement_tables(right);
            append_names(first, &second)
        },
        Statement::Other => no_names(),
    }
}

/// What a text parses as, or why it does not.
pub type ParseModel = spec_fn(Seq<char>) -> Result<StatementView, Seq<char>>;

/// `run` returns, and returns what `model` says.
pub open spec fn parses_as<G: Fn(&String) -> Result<Statement, String>>(run: G, model: ParseModel) -> bool {
    &&& forall|text: &String| #[trigger] call_requires(run, (text,))
    &&& forall|text: &String, parsed: Result<Statement, String>| #[trigger]
        call_ensures(run, (text,), parsed) ==> match parsed {
            Ok(statement) => model(text@) == Ok::<StatementView, Seq<char>>(statement.deep_view()),
            Err(message) => model(text@) == Err::<StatementView, Seq<char>>(message@),
        }
}

/// The parser, as the embedding program supplies it, with the function that it
/// computes.
pub struct Parser<G> {
    pub run: G,
    pub model: Ghost<ParseModel>,
}

impl<G: Fn(&String) -> Result<Statement, String>> Parser<G> {
    /// The parser is total and a function of the text.
    pub open spec fn ok(&self) -> bool {
        parses_as(self.run, self.model@)
    }

    /// A parser that is a function of the text.
    pub fn new(run: G) -> (parser: Self)
        requires
            exists|model: ParseModel| #[trigger] parses_as(run, model),
        ensures
            parser.ok(),
            parser.run == run,
    {
        let ghost model = choose|model: ParseModel| #[trigger] parses_as(run, model);
        Parser { run, model: Ghost(model) }
    }
}

/// The error for a view whose source no longer parses.
pub open spec fn unreadable_source_error(name: Seq<char>, why: Seq<char>) -> ErrorView {
    ErrorView::ViewError(
        "materialized view '"@ + name
            + "' has a stored source query that no longer parses ("@ + why
            + "). It was written by an older release whose source-text reconstruction was lossy, so the view cannot be refreshed and its rows cannot be trusted. Re-create it: `drop view "@
            + name + "`, then `materialize "@ + name + " as <the original query>`."@,
    )
}

/// The stored source of a view, parsed.
pub open spec fn stored_source(model: ParseModel, name: Seq<char>, source: Seq<char>) -> Result<
    StatementView,
    ErrorView,
> {
    match model(source) {
        Ok(statement) => Ok(statement),
        Err(why) => Err(unreadable_source_error(name, why)),
    }
}

/// Parse the stored source of a view: a source that does not parse is refused,
/// for a view over it could never be found out of date.
pub fn parse_stored_view_source<G: Fn(&String) -> Result<Statement, String>>(
    parser: &Parser<G>,
    name: &String,
    source: &String,
) -> (parsed: Result<Statement, QueryError>)
    requires
        parser.ok(),
    ensures
        outcome(parsed) == stored_source(parser.model@, name@, source@),
{
    match (parser.run)(source) {
        Ok(statement) => Ok(statement),
        Err(why) => {
            let mut message = around_two(
                "materialized view '",
                name,
                "' has a stored source query that no longer parses (",
                &why,
                "). It was written by an older release whose source-text reconstruction was lossy, so the view cannot be refreshed and its rows cannot be trusted. Re-create it: `drop view ",
            );
            push_text(&mut message, name.as_str());
            push_text(&mut message, "`, then `materialize ");
            push_text(&mut message, name.as_str());
            push_text(&mut message, " as <the original query>`.");
            Err(QueryError::ViewError(message))
        },
    }
}

/// The tables that a view depends on.
pub open spec fn view_deps(model: ParseModel, name: Seq<char>, query: Seq<char>) -> Result<
    Seq<Seq<char>>,
    ErrorView,
> {
    match stored_source(model, name, query) {
        Ok(statement) => Ok(statement_tables(statement)),
        Err(error) => Err(error),
    }
}

/// The tables that a view depends on.
pub fn extract_view_deps<G: Fn(&String) -> Result<Statement, String>>(
    parser: &Parser<G>,
    name: &String,
    query: &String,
) -> (deps: Result<Vec<String>, QueryError>)
    requires
        parser.ok(),
    ensures
        outcome(deps) == view_deps(parser.model@, name@, query@),
{
    let statement = parse_stored_view_source(parser, name, query)?;
    Ok(collect_statement_tables(&statement))
}

/// Both halves of a union can make a view over it out of date.
pub proof fn union_depends_on_both_halves(left: StatementView, right: StatementView, table: Seq<char>)
    requires
        statement_tables(left).contains(table) || statement_tables(right).contains(table),
    ensures
        statement_tables(
            (StatementView::Union { left: Box::new(left), right: Box::new(right) }),
        ).contains(table),
{
    let (a, b) = (statement_tables(left), statement_tables(right));
    let both = StatementView::Union { left: Box::new(left), right: Box::new(right) };
    assert(statement_tables(both) == a + b);
    if a.contains(table) {
        let i = choose|i: int| 0 <= i < a.len() && a[i] == table;
        assert((a + b)[i] == table);
    } else {
        let i = choose|i: int| 0 <= i < b.len() && b[i] == table;
        assert((a + b)[a.len() + i] == table);
    }
}

/// The name of a type as a variant.
pub open spec fn variant_name(t: TypeId) -> Seq<char> {
    match t {
        TypeId::Int => "Int"@,
        TypeId::Float => "Float"@,
        TypeId::Bool => "Bool"@,
        TypeId::Str => "Str"@,
        TypeId::DateTime => "DateTime"@,
        TypeId::Uuid => "Uuid"@,
        TypeId::Bytes => "Bytes"@,
        TypeId::Json => "Json"@,
        TypeId::Empty => "Empty"@,
    }
}

fn variant_text(t: TypeId) -> (text: &'static str)
    ensures
        text@ == variant_name(t),
{
    match t {
        TypeId::Int => "Int",
        TypeId::Float => "Float",
        TypeId::Bool => "Bool",
        TypeId::Str => "Str",
        TypeId::DateTime => "DateTime",
        TypeId::Uuid => "Uuid",
        TypeId::Bytes => "Bytes",
        TypeId::Json => "Json",
        TypeId::Empty => "Empty",
    }
}

/// The error for a column whose values are of two types.
pub open spec fn mixed_error(name: Seq<char>, column: Seq<char>, first: TypeId, second: TypeId) -> ErrorView {
    ErrorView::ViewError(
        "materialized view '"@ + name + "' column '"@ + column
            + "' mixes value types across rows ("@ + variant_name(first) + " and "@ + variant_name(
            second,
        ) + "); make the projection produce one type per column"@,
    )
}

/// The types of the columns, as far as they are known, after the values from
/// column `c` of row `r` on.
pub open spec fn types_from(
    name: Seq<char>,
    columns: Seq<Seq<char>>,
    rows: Seq<Seq<ValueView>>,
    r: int,
    c: int,
    types: Seq<Option<TypeId>>,
) -> Result<Seq<Option<TypeId>>, ErrorView>
    decreases rows.len() - r, columns.len() - c,
{
    if r < 0 || c < 0 || r >= rows.len() {
        Ok(types)
    } else if c >= columns.len() || c >= rows[r].len() {
        types_from(name, columns, rows, r + 1, 0, types)
    } else {
        let t = rows[r][c].type_id();
        if t is Empty {
            types_from(name, columns, rows, r, c + 1, types)
        } else {
            match types[c] {
                None => types_from(name, columns, rows, r, c + 1, types.update(c, Some(t))),
                Some(known) => if known == t {
                    types_from(name, columns, rows, r, c + 1, types)
                } else {
                    Err(mixed_error(name, columns[c], known, t))
                },
            }
        }
    }
}

/// No type is known.
pub open spec fn unknown_types(n: nat) -> Seq<Option<TypeId>> {
    Seq::new(n, |i: int| None::<TypeId>)
}

/// The schema of the table behind a view; a column without a value anywhere
/// holds strings.
pub open spec fn typed_schema(name: Seq<char>, columns: Seq<Seq<char>>, types: Seq<Option<TypeId>>) -> SchemaView {
    SchemaView {
        table_name: name,
        columns: Seq::new(
            columns.len(),
            |i: int|
                ColumnDefView {
                    name: columns[i],
                    type_id: match types[i] {
                        Some(t) => t,
                        None => TypeId::Str,
                    },
                    required: false,
                    position: i as u16,
                },
        ),
    }
}

/// The schema of the table behind a view: one type for each column, whatever the
/// row.
pub open spec fn view_schema(
    name: Seq<char>,
    columns: Seq<Seq<char>>,
    rows: Seq<Seq<ValueView>>,
) -> Result<SchemaView, ErrorView> {
    match types_from(name, columns, rows, 0, 0, unknown_types(columns.len())) {
        Err(error) => Err(error),
        Ok(types) => Ok(typed_schema(name, columns, types)),
    }
}

fn derive_types(name: &String, columns: &Vec<String>, rows: &Vec<Vec<Value>>) -> (types: Result<
    Vec<Option<TypeId>>,
    QueryError,
>)
    ensures
        match types {
            Ok(types) => types_from(
                name@,
                columns.deep_view(),
                rows.deep_view(),
                0,
                0,
                unknown_types(columns.deep_view().len()),
            ) == Ok::<Seq<Option<TypeId>>, ErrorView>(types@) && types.len() == columns.len(),
            Err(error) => types_from(
                name@,
                columns.deep_view(),
                rows.deep_view(),
                0,
                0,
                unknown_types(columns.deep_view().len()),
            ) == Err::<Seq<Option<TypeId>>, ErrorView>(error.deep_view()),
        },
{
    let ghost cols = columns.deep_view();
    let ghost all = rows.deep_view();
    let mut types: Vec<Option<TypeId>> = Vec::new();
    let mut k: usize = 0;
    while k < columns.len()
        invariant
            k <= columns.len(),
            types.len() == k,
            forall|j: int| 0 <= j < k ==> types[j] is None,
        decreases columns.len() - k,
    {
        types.push(None);
        k = k + 1;
    }
    let ghost start = unknown_types(cols.len());
    let ghost goal = types_from(name@, cols, all, 0, 0, start);
    assert(types@ =~= start);
    let mut r: usize = 0;
    while r < rows.len()
        invariant
            r <= rows.len(),
            cols == columns.deep_view(),
            all == rows.deep_view(),
            types.len() == columns.len(),
            start == unknown_types(cols.len()),
            goal == types_from(name@, cols, all, 0, 0, start),
            goal == types_from(name@, cols, all, r as int, 0, types@),
        decreases rows.len() - r,
    {
        let row = &rows[r];
        assert(all[r as int] == row.deep_view());
        let mut c: usize = 0;
        while c < columns.len() && c < row.len()
            invariant
                r < rows.len(),
                row.deep_view() == all[r as int],
                c <= columns.len(),
                c <= row.len(),
                cols == columns.deep_view(),
                all == rows.deep_view(),
                types.len() == columns.len(),
                start == unknown_types(cols.len()),
                goal == types_from(name@, cols, all, 0, 0, start),
                goal == types_from(name@, cols, all, r as int, c as int, types@),
            decreases columns.len() - c,
        {
            assert(all[r as int][c as int] == row[c as int].deep_view());
            let t = row[c].type_id();
            match t {
                TypeId::Empty => {},
                _ => {
                    match types[c] {
                        None => {
                            let ghost before = types@;
                            types.set(c, Some(t));
                            assert(types@ =~= before.update(c as int, Some(t)));
                        },
                        Some(known) => {
                            if known != t {
                                let mut message = around_two(
                                    "materialized view '",
                                    name,
                                    "' column '",
                                    &columns[c],
                                    "' mixes value types across rows (",
                                );
                                push_text(&mut message, variant_text(known));
                                push_text(&mut message, " and ");
                                push_text(&mut message, variant_text(t));
                                push_text(
                                    &mut message,
                                    "); make the projection produce one type per column",
                                );
                                return Err(QueryError::ViewError(message));
                            }
                        },
                    }
                },
            }
            c = c + 1;
        }
        r = r + 1;
    }
    Ok(types)
}

/// The schema of the table behind a view.
pub fn derive_view_schema(name: &String, columns: &Vec<String>, rows: &Vec<Vec<Value>>) -> (schema:
    Result<Schema, QueryError>)
    ensures
        outcome(schema) == view_schema(name@, columns.deep_view(), rows.deep_view()),
        schema matches Ok(made) ==> made.columns.len() == columns.len(),
{
    let types = derive_types(name, columns, rows)?;
    let ghost cols = columns.deep_view();
    let ghost made = typed_schema(name@, cols, types@);
    let mut defs: Vec<ColumnDef> = Vec::new();
    let mut i: usize = 0;
    while i < columns.len()
        invariant
            i <= columns.len(),
            types.len() == columns.len(),
            cols == columns.deep_view(),
            made == typed_schema(name@, cols, types@),
            defs.len() == i,
            forall|j: int| 0 <= j < i ==> (#[trigger] defs[j]).deep_view() == made.columns[j],
        decreases columns.len() - i,
    {
        let type_id = match types[i] {
            Some(t) => t,
            None => TypeId::Str,
        };
        defs.push(
            ColumnDef {
                name: columns[i].clone(),
                type_id,
                required: false,
                position: #[verifier::truncate]
                (i as u16),
            },
        );
        i = i + 1;
    }
    let schema = Schema { table_name: name.clone(), columns: defs };
    assert(schema.deep_view().columns =~= made.columns);
    Ok(schema)
}

/// A value may stand in a column: it is missing or of the column's type.
pub open spec fn stands_in(value: ValueView, column: ColumnDefView) -> bool {
    value.type_id() is Empty || value.type_id() == column.type_id
}

/// The table behind a new view can hold every row of its source.
pub proof fn view_schema_holds_rows(
    name: Seq<char>,
    columns: Seq<Seq<char>>,
    rows: Seq<Seq<ValueView>>,
    r: int,
    c: int,
)
    requires
        0 <= r < rows.len(),
        0 <= c < columns.len(),
        c < rows[r].len(),
    ensures
        view_schema(name, columns, rows) matches Ok(schema) ==> stands_in(
            rows[r][c],
            schema.columns[c],
        ),
{
    let start = unknown_types(columns.len());
    match types_from(name, columns, rows, 0, 0, start) {
        Ok(types) => {
            if !(rows[r][c].type_id() is Empty) {
                types_hold(name, columns, rows, 0, 0, start, r, c);
            }
        },
        Err(_) => {},
    }
}

proof fn types_keep(
    name: Seq<char>,
    columns: Seq<Seq<char>>,
    rows: Seq<Seq<ValueView>>,
    r: int,
    c: int,
    types: Seq<Option<TypeId>>,
    k: int,
)
    requires
        types.len() == columns.len(),
        0 <= k < columns.len(),
        types[k] is Some,
    ensures
        types_from(name, columns, rows, r, c, types) matches Ok(end) ==> end[k] == types[k],
    decreases rows.len() - r, columns.len() - c,
{
    if r < 0 || c < 0 || r >= rows.len() {
    } else if c >= columns.len() || c >= rows[r].len() {
        types_keep(name, columns, rows, r + 1, 0, types, k);
    } else {
        let t = rows[r][c].type_id();
        if t is Empty {
            types_keep(name, columns, rows, r, c + 1, types, k);
        } else {
            match types[c] {
                None => {
                    types_keep(name, columns, rows, r, c + 1, types.update(c, Some(t)), k);
                },
                Some(known) => {
                    if known == t {
                        types_keep(name, columns, rows, r, c + 1, types, k);
                    }
                },
            }
        }
    }
}

proof fn types_hold(
    name: Seq<char>,
    columns: Seq<Seq<char>>,
    rows: Seq<Seq<ValueView>>,
    r: int,
    c: int,
    types: Seq<Option<TypeId>>,
    row: int,
    column: int,
)
    requires
        types.len() == columns.len(),
        0 <= r <= row < rows.len(),
        0 <= c,
        0 <= column < columns.len(),
        column < rows[row].len(),
        r < row || c <= column,
        !(rows[row][column].type_id() is Empty),
    ensures
        types_from(name, columns, rows, r, c, types) matches Ok(end) ==> end[column] == Some(
            rows[row][column].type_id(),
        ),
    decreases rows.len() - r, columns.len() - c,
{
    if c >= columns.len() || c >= rows[r].len() {
        types_hold(name, columns, rows, r + 1, 0, types, row, column);
    } else {
        let t = rows[r][c].type_id();
        if r == row && c == column {
            match types[c] {
                None => {
                    types_keep(name, columns, rows, r, c + 1, types.update(c, Some(t)), column);
                },
                Some(known) => {
                    if known == t {
                        types_keep(name, columns, rows, r, c + 1, types, column);
                    }
                },
            }
        } else if t is Empty {
            types_hold(name, columns, rows, r, c + 1, types, row, column);
        } else {
            match types[c] {
                None => {
                    types_hold(
                        name,
                        columns,
                        rows,
                        r,
                        c + 1,
                        types.update(c, Some(t)),
                        row,
                        column,
                    );
                },
                Some(known) => {
                    if known == t {
                        types_hold(name, columns, rows, r, c + 1, types, row, column);
                    }
                },
            }
        }
    }
}

/// The error for a refreshed row of another width.
pub open spec fn width_error(name: Seq<char>, got: nat, stored: nat) -> ErrorView {
    ErrorView::ViewError(
        "refresh of materialized view '"@ + name + "' produced rows with "@ + decimal(got)
            + " columns but the view stores "@ + decimal(stored)
            + "; drop and recreate the view"@,
    )
}

/// The error for a refreshed value of another type.
pub open spec fn class_error(name: Seq<char>, t: TypeId, column: ColumnDefView) -> ErrorView {
    ErrorView::ViewError(
        "refresh of materialized view '"@ + name + "' produced a "@ + variant_name(t)
            + " in column '"@ + column.name + "' but the view stores "@ + variant_name(
            column.type_id,
        ) + "; drop and recreate the view to change its column types"@,
    )
}

/// The error for the first value from column `c` on that may not stand there.
pub open spec fn row_misfit(name: Seq<char>, schema: SchemaView, row: Seq<ValueView>, c: int) -> Option<
    ErrorView,
>
    decreases row.len() - c,
{
    if c < 0 || c >= row.len() {
        None
    } else if !stands_in(row[c], schema.columns[c]) {
        Some(class_error(name, row[c].type_id(), schema.columns[c]))
    } else {
        row_misfit(name, schema, row, c + 1)
    }
}

/// The error for the first row from `r` on that the table behind a view cannot
/// hold.
pub open spec fn rows_misfit(name: Seq<char>, schema: SchemaView, rows: Seq<Seq<ValueView>>, r: int) -> Option<
    ErrorView,
>
    decreases rows.len() - r,
{
    if r < 0 || r >= rows.len() {
        None
    } else if rows[r].len() != schema.columns.len() {
        Some(width_error(name, rows[r].len(), schema.columns.len()))
    } else {
        match row_misfit(name, schema, rows[r], 0) {
            Some(error) => Some(error),
            None => rows_misfit(name, schema, rows, r + 1),
        }
    }
}

fn check_row(name: &String, schema: &Schema, row: &Vec<Value>) -> (checked: Result<(), QueryError>)
    requires
        row.len() == schema.columns.len(),
    ensures
        match checked {
            Ok(_) => row_misfit(name@, schema.deep_view(), row.deep_view(), 0) is None,
            Err(error) => row_misfit(name@, schema.deep_view(), row.deep_view(), 0) == Some(
                error.deep_view(),
            ),
        },
{
    let ghost shown = schema.deep_view();
    let ghost view = row.deep_view();
    let mut c: usize = 0;
    while c < row.len()
        invariant
            c <= row.len(),
            row.len() == schema.columns.len(),
            shown == schema.deep_view(),
            view == row.deep_view(),
            row_misfit(name@, shown, view, 0) == row_misfit(name@, shown, view, c as int),
        decreases row.len() - c,
    {
        let column = &schema.columns[c];
        assert(shown.columns[c as int] == column.deep_view());
        assert(view[c as int] == row[c as int].deep_view());
        let t = row[c].type_id();
        let missing: bool = match t {
            TypeId::Empty => true,
            _ => false,
        };
        if !missing && t != column.type_id {
            let mut message = around(
                "refresh of materialized view '",
                name,
                "' produced a ",
            );
            push_text(&mut message, variant_text(t));
            push_text(&mut message, " in column '");
            push_text(&mut message, column.name.as_str());
            push_text(&mut message, "' but the view stores ");
            push_text(&mut message, variant_text(column.type_id));
            push_text(&mut message, "; drop and recreate the view to change its column types");
            return Err(QueryError::ViewError(message));
        }
        c = c + 1;
    }
    Ok(())
}

fn check_rows(name: &String, schema: &Schema, rows: &Vec<Vec<Value>>) -> (checked: Result<
    (),
    QueryError,
>)
    ensures
        match checked {
            Ok(_) => rows_misfit(name@, schema.deep_view(), rows.deep_view(), 0) is None,
            Err(error) => rows_misfit(name@, schema.deep_view(), rows.deep_view(), 0) == Some(
                error.deep_view(),
            ),
        },
{
    let ghost shown = schema.deep_view();
    let ghost all = rows.deep_view();
    let mut r: usize = 0;
    while r < rows.len()
        invariant
            r <= rows.len(),
            shown == schema.deep_view(),
            all == rows.deep_view(),
            rows_misfit(name@, shown, all, 0) == rows_misfit(name@, shown, all, r as int),
        decreases rows.len() - r,
    {
        proof {
            assert(all[r as int] == rows[r as int].deep_view());
            assert(all[r as int].len() == rows[r as int].len());
            assert(shown.columns.len() == schema.columns.len());
        }
        if rows[r].len() != schema.columns.len() {
            let mut message = around(
                "refresh of materialized view '",
                name,
                "' produced rows with ",
            );
            push_decimal(&mut message, rows[r].len() as u64);
            push_text(&mut message, " columns but the view stores ");
            push_decimal(&mut message, schema.columns.len() as u64);
            push_text(&mut message, "; drop and recreate the view");
            return Err(QueryError::ViewError(message));
        }
        check_row(name, schema, &rows[r])?;
        r = r + 1;
    }
    Ok(())
}

/// The names of views.
pub open spec fn view_names(views: Seq<ViewDefView>) -> Seq<Seq<char>> {
    Seq::new(views.len(), |i: int| views[i].name)
}

/// The view of this name.
pub open spec fn view_at(views: Seq<ViewDefView>, name: Seq<char>) -> Option<int> {
    name_position(view_names(views), name)
}

/// Find the view of this name.
pub fn find_view(views: &Vec<ViewDef>, name: &String) -> (at: Option<usize>)
    ensures
        match at {
            Some(i) => i < views.len() && view_at(views.deep_view(), name@) == Some(i as int),
            None => view_at(views.deep_view(), name@) is None,
        },
{
    let ghost names = view_names(views.deep_view());
    let mut i: usize = 0;
    while i < views.len()
        invariant
            i <= views.len(),
            names == view_names(views.deep_view()),
            forall|j: int| 0 <= j < i ==> #[trigger] names[j] != name@,
        decreases views.len() - i,
    {
        assert(names[i as int] == views[i as int].name@);
        if views[i].name == *name {
            proof {
                name_position_is(names, name@, i as int);
            }
            return Some(i);
        }
        i = i + 1;
    }
    proof {
        assert(names.len() == views.len());
        name_position_none(names, name@);
    }
    None
}

/// A view depends on a table.
pub open spec fn depends_on(view: ViewDefView, table: Seq<char>) -> bool {
    view.depends_on.contains(table)
}

/// The views from `i` on that depend on a table.
pub open spec fn dependents_from(views: Seq<ViewDefView>, table: Seq<char>, i: int) -> Seq<Seq<char>>
    decreases views.len() - i,
{
    if i < 0 || i >= views.len() {
        Seq::empty()
    } else {
        let rest = dependents_from(views, table, i + 1);
        if depends_on(views[i], table) {
            seq![views[i].name] + rest
        } else {
            rest
        }
    }
}

/// The views, those out of date that depend on a table.
pub open spec fn dirtied(views: Seq<ViewDefView>, table: Seq<char>) -> Seq<ViewDefView> {
    Seq::new(
        views.len(),
        |i: int|
            if depends_on(views[i], table) {
                ViewDefView { dirty: true, ..views[i] }
            } else {
                views[i]
            },
    )
}

fn names_contain(names: &Vec<String>, name: &String) -> (contain: bool)
    ensures
        contain == names.deep_view().contains(name@),
{
    let mut i: usize = 0;
    while i < names.len()
        invariant
            i <= names.len(),
            forall|j: int| 0 <= j < i ==> #[trigger] names.deep_view()[j] != name@,
        decreases names.len() - i,
    {
        if names[i] == *name {
            assert(names.deep_view()[i as int] == name@);
            return true;
        }
        i = i + 1;
    }
    assert(names.deep_view().len() == names.len());
    false
}

/// The views that depend on a table.
pub fn dependents_of(views: &Vec<ViewDef>, table: &String) -> (names: Vec<String>)
    ensures
        names.deep_view() == dependents_from(views.deep_view(), table@, 0),
{
    let ghost all = views.deep_view();
    let ghost goal = dependents_from(all, table@, 0);
    let mut names: Vec<String> = Vec::new();
    let mut i: usize = 0;
    assert(names.deep_view() + goal =~= goal);
    while i < views.len()
        invariant
            i <= views.len(),
            all == views.deep_view(),
            goal == names.deep_view() + dependents_from(all, table@, i as int),
        decreases views.len() - i,
    {
        assert(all[i as int] == views[i as int].deep_view());
        if names_contain(&views[i].depends_on, table) {
            let name = views[i].name.clone();
            let ghost before = names.deep_view();
            let ghost shown = name@;
            let ghost rest = dependents_from(all, table@, i + 1);
            names.push(name);
            assert(names.deep_view() =~= before.push(shown));
            assert(before + (seq![shown] + rest) =~= before.push(shown) + rest);
        }
        i = i + 1;
    }
    assert(names.deep_view() + Seq::<Seq<char>>::empty() =~= names.deep_view());
    names
}

/// Record that the views that depend on a table are out of date.
pub fn mark_dependents_dirty(views: &mut Vec<ViewDef>, table: &String)
    ensures
        final(views).deep_view() == dirtied(old(views).deep_view(), table@),
{
    let ghost all = views.deep_view();
    let mut i: usize = 0;
    while i < views.len()
        invariant
            i <= views.len(),
            views.len() == all.len(),
            forall|j: int| 0 <= j < i ==> (#[trigger] views[j]).deep_view() == dirtied(all, table@)[j],
            forall|j: int| i <= j < views.len() ==> (#[trigger] views[j]).deep_view() == all[j],
        decreases views.len() - i,
    {
        assert(views[i as int].deep_view() == all[i as int]);
        let hit: bool = names_contain(&views[i].depends_on, table);
        if hit {
            let def = ViewDef {
                name: views[i].name.clone(),
                query: views[i].query.clone(),
                depends_on: clone_texts(&views[i].depends_on),
                dirty: true,
            };
            assert(def.deep_view() == dirtied(all, table@)[i as int]);
            views.set(i, def);
        }
        i = i + 1;
    }
    assert(views.deep_view() =~= dirtied(all, table@));
}

/// The message for a view that does not exist.
pub open spec fn no_view_message(name: Seq<char>) -> Seq<char> {
    "materialized view '"@ + name + "' not found"@
}

/// What declaring a view comes to: its source is run first.
pub open spec fn create_view_decision(views: Seq<ViewDefView>, name: Seq<char>, query: Seq<char>) -> Result<
    DecisionView,
    ErrorView,
> {
    if view_at(views, name) is Some {
        Err(ErrorView::ViewError("materialized view '"@ + name + "' already exists"@))
    } else {
        Ok(DecisionView::RunSource { view: name, query, create: true })
    }
}

/// Decide the declaration of a view.
pub fn create_view(views: &Vec<ViewDef>, name: &String, query: &String) -> (decision: Result<
    Decision,
    QueryError,
>)
    ensures
        outcome(decision) == create_view_decision(views.deep_view(), name@, query@),
{
    if find_view(views, name).is_some() {
        return Err(
            QueryError::ViewError(around("materialized view '", name, "' already exists")),
        );
    }
    Ok(Decision::RunSource { view: name.clone(), query: query.clone(), create: true })
}

/// What refreshing a view comes to: its source must be readable, and is run.
pub open spec fn refresh_view_decision(
    views: Seq<ViewDefView>,
    parser: ParseModel,
    name: Seq<char>,
) -> Result<DecisionView, ErrorView> {
    match view_at(views, name) {
        None => Err(ErrorView::Execution(no_view_message(name))),
        Some(i) => match stored_source(parser, name, views[i].query) {
            Err(error) => Err(error),
            Ok(_) => Ok(
                DecisionView::RunSource { view: name, query: views[i].query, create: false },
            ),
        },
    }
}

/// Decide the refresh of a view.
pub fn refresh_view<G: Fn(&String) -> Result<Statement, String>>(
    views: &Vec<ViewDef>,
    parser: &Parser<G>,
    name: &String,
) -> (decision: Result<Decision, QueryError>)
    requires
        parser.ok(),
    ensures
        outcome(decision) == refresh_view_decision(views.deep_view(), parser.model@, name@),
{
    let at: usize = match find_view(views, name) {
        Some(at) => at,
        None => {
            return Err(QueryError::Execution(around("materialized view '", name, "' not found")));
        },
    };
    assert(views.deep_view()[at as int] == views[at as int].deep_view());
    let _source = parse_stored_view_source(parser, name, &views[at].query)?;
    Ok(Decision::RunSource { view: name.clone(), query: views[at].query.clone(), create: false })
}

/// What dropping a view comes to.
pub open spec fn drop_view_decision(views: Seq<ViewDefView>, name: Seq<char>) -> Result<
    DecisionView,
    ErrorView,
> {
    if view_at(views, name) is None {
        Err(ErrorView::ViewError(no_view_message(name)))
    } else {
        Ok(
            DecisionView::Write {
                ops: seq![
                    StorageOpView::UnregisterView { name },
                    StorageOpView::DropTable { name },
                ],
                reply: ReplyView::Fixed {
                    result: ResultView::Executed {
                        message: "materialized view '"@ + name + "' dropped"@,
                    },
                },
            },
        )
    }
}

/// Decide the removal of a view.
pub fn drop_view(views: &Vec<ViewDef>, name: &String) -> (decision: Result<Decision, QueryError>)
    ensures
        outcome(decision) == drop_view_decision(views.deep_view(), name@),
{
    if find_view(views, name).is_none() {
        return Err(QueryError::ViewError(around("materialized view '", name, "' not found")));
    }
    let first = StorageOp::UnregisterView { name: name.clone() };
    let second = StorageOp::DropTable { name: name.clone() };
    let mut ops: Vec<StorageOp> = Vec::new();
    ops.push(first);
    ops.push(second);
    assert(ops.deep_view() =~= seq![
        StorageOpView::UnregisterView { name: name@ },
        StorageOpView::DropTable { name: name@ },
    ]);
    Ok(
        Decision::Write {
            ops,
            reply: Reply::Fixed {
                result: QueryResult::Executed {
                    message: around("materialized view '", name, "' dropped"),
                },
            },
        },
    )
}

/// No defaults.
pub open spec fn no_defaults(n: nat) -> Seq<Option<ValueView>> {
    Seq::new(n, |i: int| None::<ValueView>)
}

/// No column numbers itself.
pub open spec fn no_autos(n: nat) -> Seq<bool> {
    Seq::new(n, |i: int| false)
}

/// The rows are committed before anything vouches for them, unless a
/// transaction holds them back anyway.
pub open spec fn committed(in_transaction: bool) -> Seq<StorageOpView> {
    if in_transaction {
        Seq::empty()
    } else {
        seq![StorageOpView::CommitStatement]
    }
}

/// What filling a new view comes to.
pub open spec fn fill_new_view(
    parser: ParseModel,
    in_transaction: bool,
    name: Seq<char>,
    query: Seq<char>,
    result: ResultView,
) -> Result<DecisionView, ErrorView> {
    match result {
        ResultView::Rows { columns, rows } => match view_schema(name, columns, rows) {
            Err(error) => Err(error),
            Ok(schema) => match view_deps(parser, name, query) {
                Err(error) => Err(error),
                Ok(deps) => Ok(
                    DecisionView::Write {
                        ops: (seq![
                            StorageOpView::CreateTable {
                                schema,
                                defaults: no_defaults(columns.len()),
                                auto_columns: no_autos(columns.len()),
                            },
                            StorageOpView::Insert { table: name, rows },
                        ] + committed(in_transaction)).push(
                            StorageOpView::RegisterView {
                                view: ViewDefView { name, query, depends_on: deps, dirty: false },
                            },
                        ),
                        reply: ReplyView::Fixed {
                            result: ResultView::Executed {
                                message: "materialized view '"@ + name + "' created"@,
                            },
                        },
                    },
                ),
            },
        },
        _ => Err(ErrorView::Execution("view source query must be a SELECT"@)),
    }
}

/// How a refreshed view is held for up to date: within a transaction only until
/// the database is next opened.
pub open spec fn cleaned(in_transaction: bool, name: Seq<char>) -> StorageOpView {
    if in_transaction {
        StorageOpView::MarkCleanInMemory { name }
    } else {
        StorageOpView::MarkClean { name }
    }
}

/// What filling a view anew comes to: the rows must fit the table behind it, and
/// then take the place of those that are there.
pub open spec fn refill_view(
    catalog: CatalogView,
    in_transaction: bool,
    name: Seq<char>,
    result: ResultView,
) -> Result<DecisionView, ErrorView> {
    match result {
        ResultView::Rows { columns: _, rows } => match catalog.schema(name) {
            None => Err(
                ErrorView::ViewError("materialized view '"@ + name + "' has no backing table"@),
            ),
            Some(schema) => match rows_misfit(name, schema, rows, 0) {
                Some(error) => Err(error),
                None => Ok(
                    DecisionView::Write {
                        ops: (seq![
                            StorageOpView::Clear { table: name },
                            StorageOpView::Insert { table: name, rows },
                        ] + committed(in_transaction)).push(cleaned(in_transaction, name)),
                        reply: ReplyView::Fixed {
                            result: ResultView::Executed {
                                message: "materialized view '"@ + name + "' refreshed"@,
                            },
                        },
                    },
                ),
            },
        },
        _ => Err(ErrorView::Execution("view source query must be a SELECT"@)),
    }
}

fn blank_settings(n: usize) -> (settings: (Vec<Option<Value>>, Vec<bool>))
    ensures
        settings.0.deep_view() == no_defaults(n as nat),
        settings.1@ == no_autos(n as nat),
{
    let mut defaults: Vec<Option<Value>> = Vec::new();
    let mut autos: Vec<bool> = Vec::new();
    let mut i: usize = 0;
    while i < n
        invariant
            i <= n,
            defaults.len() == i,
            autos.len() == i,
            forall|j: int| 0 <= j < i ==> (#[trigger] defaults[j]).deep_view() is None,
            forall|j: int| 0 <= j < i ==> !(#[trigger] autos[j]),
        decreases n - i,
    {
        defaults.push(None);
        autos.push(false);
        i = i + 1;
    }
    assert(defaults.deep_view() =~= no_defaults(n as nat));
    assert(autos@ =~= no_autos(n as nat));
    (defaults, autos)
}

fn sequence_ops(first: StorageOp, second: StorageOp, in_transaction: bool, last: StorageOp) -> (ops: Vec<
    StorageOp,
>)
    ensures
        ops.deep_view() == (seq![first.deep_view(), second.deep_view()] + committed(
            in_transaction,
        )).push(last.deep_view()),
{
    let mut ops: Vec<StorageOp> = Vec::new();
    ops.push(first);
    ops.push(second);
    if !in_transaction {
        ops.push(StorageOp::CommitStatement);
    }
    ops.push(last);
    assert(ops.deep_view() =~= (seq![first.deep_view(), second.deep_view()] + committed(
        in_transaction,
    )).push(last.deep_view()));
    ops
}

/// Decide how a view is filled with the rows of its source.
pub fn fill_view<G: Fn(&String) -> Result<Statement, String>>(
    catalog: &Catalog,
    parser: &Parser<G>,
    in_transaction: bool,
    name: &String,
    query: &String,
    create: bool,
    result: QueryResult,
) -> (decision: Result<Decision, QueryError>)
    requires
        parser.ok(),
    ensures
        outcome(decision) == (if create {
            fill_new_view(parser.model@, in_transaction, name@, query@, result.deep_view())
        } else {
            refill_view(catalog.deep_view(), in_transaction, name@, result.deep_view())
        }),
{
    let (columns, rows) = match result {
        QueryResult::Rows { columns, rows } => (columns, rows),
        _ => {
            return Err(QueryError::execution("view source query must be a SELECT"));
        },
    };
    if create {
        let schema = derive_view_schema(name, &columns, &rows)?;
        let deps = extract_view_deps(parser, name, query)?;
        assert(columns.deep_view().len() == columns.len());
        let (defaults, auto_columns) = blank_settings(columns.len());
        let view = ViewDef {
            name: name.clone(),
            query: query.clone(),
            depends_on: deps,
            dirty: false,
        };
        let ops = sequence_ops(
            StorageOp::CreateTable { schema, defaults, auto_columns },
            StorageOp::Insert { table: name.clone(), rows },
            in_transaction,
            StorageOp::RegisterView { view },
        );
        return Ok(
            Decision::Write {
                ops,
                reply: Reply::Fixed {
                    result: QueryResult::Executed {
                        message: around("materialized view '", name, "' created"),
                    },
                },
            },
        );
    }
    let schema = match catalog.schema(name) {
        Some(schema) => schema,
        None => {
            return Err(
                QueryError::ViewError(around("materialized view '", name, "' has no backing table")),
            );
        },
    };
    check_rows(name, schema, &rows)?;
    let last = if in_transaction {
        StorageOp::MarkCleanInMemory { name: name.clone() }
    } else {
        StorageOp::MarkClean { name: name.clone() }
    };
    let ops = sequence_ops(
        StorageOp::Clear { table: name.clone() },
        StorageOp::Insert { table: name.clone(), rows },
        in_transaction,
        last,
    );
    Ok(
        Decision::Write {
            ops,
            reply: Reply::Fixed {
                result: QueryResult::Executed {
                    message: around("materialized view '", name, "' refreshed"),
                },
            },
        },
    )
}

/// Whatever records for good that a view is up to date comes after the commit of
/// its rows: every step that registers a view or marks one clean on disk is
/// preceded by the commit of the statement, or nothing is committed because a
/// transaction is open.
pub proof fn rows_are_committed_before_clean(
    catalog: CatalogView,
    parser: ParseModel,
    in_transaction: bool,
    name: Seq<char>,
    query: Seq<char>,
    result: ResultView,
    i: int,
)
    ensures
        fill_new_view(parser, in_transaction, name, query, result) matches Ok(DecisionView::Write {
            ops,
            ..
        }) ==> (0 <= i < ops.len() && ops[i] is RegisterView && !in_transaction ==> exists|k: int|
            0 <= k < i && #[trigger] ops[k] is CommitStatement),
        refill_view(catalog, in_transaction, name, result) matches Ok(DecisionView::Write {
            ops,
            ..
        }) ==> (0 <= i < ops.len() && ops[i] is MarkClean ==> exists|k: int|
            0 <= k < i && #[trigger] ops[k] is CommitStatement),
        refill_view(catalog, true, name, result) matches Ok(DecisionView::Write { ops, .. })
            ==> forall|k: int| 0 <= k < ops.len() ==> !(#[trigger] ops[k] is MarkClean),
{
    match fill_new_view(parser, in_transaction, name, query, result) {
        Ok(DecisionView::Write { ops, .. }) => {
            if !in_transaction {
                assert(ops[2] is CommitStatement);
            }
        },
        _ => {},
    }
    match refill_view(catalog, in_transaction, name, result) {
        Ok(DecisionView::Write { ops, .. }) => {
            if !in_transaction {
                assert(ops[2] is CommitStatement);
            }
        },
        _ => {},
    }
}

/// The tables that a nested projection and those within it read.
pub open spec fn nested_tables(nested: NestedProjectionView) -> Seq<Seq<char>>
    decreases nested,
{
    seq![nested.table] + nested_fields_tables(nested.fields, 0)
}

/// The tables that the nested fields from `i` on read.
pub open spec fn nested_fields_tables(fields: Seq<NestedFieldView>, i: int) -> Seq<Seq<char>>
    decreases fields, fields.len() - i,
{
    if i < 0 || i >= fields.len() {
        Seq::empty()
    } else {
        (match fields[i] {
            NestedFieldView::Scalar { .. } => Seq::empty(),
            NestedFieldView::Nested(inner) => nested_tables(*inner),
        }) + nested_fields_tables(fields, i + 1)
    }
}

/// The tables that the nested projections among the fields from `i` on read.
pub open spec fn child_tables(fields: Seq<NestedProjectFieldView>, i: int) -> Seq<Seq<char>>
    decreases fields.len() - i,
{
    if i < 0 || i >= fields.len() {
        Seq::empty()
    } else {
        (match fields[i] {
            NestedProjectFieldView::Nested(nested) => nested_tables(nested),
            _ => Seq::empty(),
        }) + child_tables(fields, i + 1)
    }
}

/// The tables that a plan scans as they are, in the order in which it does; a
/// view among them must be up to date.
pub open spec fn scanned_tables(catalog: CatalogView, plan: PlanView) -> Seq<Seq<char>>
    decreases plan,
{
    match plan {
        PlanView::SeqScan { table } => seq![table],
        PlanView::ExprIndexScan { table, path, .. } => if catalog.expression_index(table, path) is None {
            seq![table]
        } else {
            Seq::empty()
        },
        PlanView::ExprRangeScan { table, path, .. } => if catalog.expression_index(table, path) is None {
            seq![table]
        } else {
            Seq::empty()
        },
        PlanView::OrderedExprIndexScan { table, path, .. } => if catalog.expression_index(
            table,
            path,
        ) is None {
            seq![table]
        } else {
            Seq::empty()
        },
        PlanView::Filter { input, .. } => scanned_tables(catalog, *input),
        PlanView::Project { input, .. } => scanned_tables(catalog, *input),
        PlanView::Sort { input, .. } => scanned_tables(catalog, *input),
        PlanView::Limit { input, .. } => scanned_tables(catalog, *input),
        PlanView::Offset { input, .. } => scanned_tables(catalog, *input),
        PlanView::Distinct { input } => scanned_tables(catalog, *input),
        PlanView::Window { input, .. } => scanned_tables(catalog, *input),
        PlanView::Aggregate { input, provenance_alias, .. } => if provenance_alias is Some {
            Seq::empty()
        } else {
            scanned_tables(catalog, *input)
        },
        PlanView::GroupBy { input, aggregates, .. } => if traces(aggregates, 0) {
            Seq::empty()
        } else {
            scanned_tables(catalog, *input)
        },
        PlanView::NestedProject { input, fields } => (match linked_fields(
            catalog,
            *input,
            fields,
        ) {
            Ok(linked) => child_tables(linked, 0),
            Err(_) => Seq::empty(),
        }) + scanned_tables(catalog, *input),
        PlanView::NestedLoopJoin { left, right, .. } => scanned_tables(catalog, *left)
            + scanned_tables(catalog, *right),
        PlanView::Union { left, right, .. } => scanned_tables(catalog, *left) + scanned_tables(
            catalog,
            *right,
        ),
        _ => Seq::empty(),
    }
}

fn collect_nested_tables(nested: &NestedProjection) -> (tables: Vec<String>)
    ensures
        tables.deep_view() == nested_tables(nested.deep_view()),
    decreases nested,
{
    let inner = collect_field_tables(&nested.fields);
    append_names(one_name(&nested.table), &inner)
}

fn collect_field_tables(fields: &Vec<NestedField>) -> (tables: Vec<String>)
    ensures
        tables.deep_view() == nested_fields_tables(nested_fields_view(fields@), 0),
    decreases fields,
{
    let ghost views = nested_fields_view(fields@);
    let ghost goal = nested_fields_tables(views, 0);
    let mut tables = no_names();
    let mut i: usize = 0;
    assert(tables.deep_view() + goal =~= goal);
    while i < fields.len()
        invariant
            i <= fields.len(),
            views == nested_fields_view(fields@),
            goal == tables.deep_view() + nested_fields_tables(views, i as int),
        decreases fields.len() - i,
    {
        assert(views[i as int] == nested_field_view(fields[i as int]));
        let ghost before = tables.deep_view();
        let ghost rest = nested_fields_tables(views, i + 1);
        match &fields[i] {
            NestedField::Scalar { .. } => {
                assert(Seq::<Seq<char>>::empty() + rest =~= rest);
            },
            NestedField::Nested(inner) => {
                let more = collect_nested_tables(inner);
                let ghost shown = more.deep_view();
                tables = append_names(tables, &more);
                assert(before + (shown + rest) =~= (before + shown) + rest);
            },
        }
        i = i + 1;
    }
    assert(tables.deep_view() + Seq::<Seq<char>>::empty() =~= tables.deep_view());
    tables
}

/// The tables that the nested projections among the fields read.
pub fn collect_child_tables(fields: &Vec<NestedProjectField>) -> (tables: Vec<String>)
    ensures
        tables.deep_view() == child_tables(fields.deep_view(), 0),
{
    let ghost views = fields.deep_view();
    let ghost goal = child_tables(views, 0);
    let mut tables = no_names();
    let mut i: usize = 0;
    assert(tables.deep_view() + goal =~= goal);
    while i < fields.len()
        invariant
            i <= fields.len(),
            views == fields.deep_view(),
            goal == tables.deep_view() + child_tables(views, i as int),
        decreases fields.len() - i,
    {
        assert(views[i as int] == fields[i as int].deep_view());
        let ghost before = tables.deep_view();
        let ghost rest = child_tables(views, i + 1);
        match &fields[i] {
            NestedProjectField::Nested(nested) => {
                let more = collect_nested_tables(nested);
                let ghost shown = more.deep_view();
                tables = append_names(tables, &more);
                assert(before + (shown + rest) =~= (before + shown) + rest);
            },
            _ => {
                assert(Seq::<Seq<char>>::empty() + rest =~= rest);
            },
        }
        i = i + 1;
    }
    assert(tables.deep_view() + Seq::<Seq<char>>::empty() =~= tables.deep_view());
    tables
}

/// The tables that a plan scans as they are.
pub fn collect_scanned_tables(catalog: &Catalog, plan: &PlanNode) -> (tables: Vec<String>)
    ensures
        tables.deep_view() == scanned_tables(catalog.deep_view(), plan.deep_view()),
    decreases plan,
{
    match plan {
        PlanNode::SeqScan { table } => one_name(table),
        PlanNode::ExprIndexScan { table, path, .. } => if catalog.resolve_expression_index(
            table,
            path,
        ).is_none() {
            one_name(table)
        } else {
            no_names()
        },
        PlanNode::ExprRangeScan { table, path, .. } => if catalog.resolve_expression_index(
            table,
            path,
        ).is_none() {
            one_name(table)
        } else {
            no_names()
        },
        PlanNode::OrderedExprIndexScan { table, path, .. } => if catalog.resolve_expression_index(
            table,
            path,
        ).is_none() {
            one_name(table)
        } else {
            no_names()
        },
        PlanNode::Filter { input, .. } => collect_scanned_tables(catalog, input),
        PlanNode::Project { input, .. } => collect_scanned_tables(catalog, input),
        PlanNode::Sort { input, .. } => collect_scanned_tables(catalog, input),
        PlanNode::Limit { input, .. } => collect_scanned_tables(catalog, input),
        PlanNode::Offset { input, .. } => collect_scanned_tables(catalog, input),
        PlanNode::Distinct { input } => collect_scanned_tables(catalog, input),
        PlanNode::Window { input, .. } => collect_scanned_tables(catalog, input),
        PlanNode::Aggregate { input, provenance_alias, .. } => if provenance_alias.is_some() {
            no_names()
        } else {
            collect_scanned_tables(catalog, input)
        },
        PlanNode::GroupBy { input, aggregates, .. } => if any_traces(aggregates) {
            no_names()
        } else {
            collect_scanned_tables(catalog, input)
        },
        PlanNode::NestedProject { input, fields } => {
            let below = collect_scanned_tables(catalog, input);
            let first = match link_fields(catalog, input, fields) {
                Ok(Some(linked)) => collect_child_tables(&linked),
                Ok(None) => collect_child_tables(fields),
                Err(_) => no_names(),
            };
            append_names(first, &below)
        },
        PlanNode::NestedLoopJoin { left, right, .. } => {
            let first = collect_scanned_tables(catalog, left);
            let second = collect_scanned_tables(catalog, right);
            append_names(first, &second)
        },
        PlanNode::Union { left, right, .. } => {
            let first = collect_scanned_tables(catalog, left);
            let second = collect_scanned_tables(catalog, right);
            append_names(first, &second)
        },
        _ => no_names(),
    }
}

/// A table is a view that is out of date.
pub open spec fn is_dirty(views: Seq<ViewDefView>, table: Seq<char>) -> bool {
    view_at(views, table) matches Some(i) && views[i].dirty
}

/// The first of the tables from `i` on that is a view out of date.
pub open spec fn stale_from(views: Seq<ViewDefView>, tables: Seq<Seq<char>>, i: int) -> Option<Seq<char>>
    decreases tables.len() - i,
{
    if i < 0 || i >= tables.len() {
        None
    } else if is_dirty(views, tables[i]) {
        Some(tables[i])
    } else {
        stale_from(views, tables, i + 1)
    }
}

/// The view out of date that a plan reads first.
pub open spec fn stale_view(views: Seq<ViewDefView>, catalog: CatalogView, plan: PlanView) -> Option<
    Seq<char>,
> {
    stale_from(views, scanned_tables(catalog, plan), 0)
}

/// The first of the tables that is a view out of date.
pub fn find_stale_table(views: &Vec<ViewDef>, tables: &Vec<String>) -> (stale: Option<String>)
    ensures
        stale.deep_view() == stale_from(views.deep_view(), tables.deep_view(), 0),
{
    let ghost all = views.deep_view();
    let ghost names = tables.deep_view();
    let mut i: usize = 0;
    while i < tables.len()
        invariant
            i <= tables.len(),
            all == views.deep_view(),
            names == tables.deep_view(),
            stale_from(all, names, 0) == stale_from(all, names, i as int),
        decreases tables.len() - i,
    {
        assert(names[i as int] == tables[i as int]@);
        match find_view(views, &tables[i]) {
            Some(at) => {
                assert(all[at as int] == views[at as int].deep_view());
                if views[at].dirty {
                    return Some(tables[i].clone());
                }
            },
            None => {},
        }
        i = i + 1;
    }
    assert(names.len() == tables.len());
    None
}

/// The view out of date that a plan reads first.
pub fn find_stale_view(views: &Vec<ViewDef>, catalog: &Catalog, plan: &PlanNode) -> (stale: Option<
    String,
>)
    ensures
        stale.deep_view() == stale_view(views.deep_view(), catalog.deep_view(), plan.deep_view()),
{
    let tables = collect_scanned_tables(catalog, plan);
    find_stale_table(views, &tables)
}

/// What dropping a type comes to: the views over it lose their source.
pub open spec fn drop_table_decision(
    catalog: CatalogView,
    views: Seq<ViewDefView>,
    name: Seq<char>,
    if_exists: bool,
) -> DecisionView {
    let affected = dependents_from(views, name, 0);
    if if_exists && catalog.schema(name) is None {
        told("type '"@ + name + "' does not exist (skipped)"@)
    } else {
        DecisionView::Write {
            ops: seq![
                StorageOpView::DropTable { name },
                StorageOpView::MarkDependentsDirty { table: name },
            ],
            reply: ReplyView::Fixed {
                result: ResultView::Executed {
                    message: if affected.len() == 0 {
                        "table '"@ + name + "' dropped"@
                    } else {
                        "table '"@ + name + "' dropped; "@ + view_list(affected).0 + " "@
                            + view_list(affected).1
                            + " no source and will fail until dropped or recreated"@
                    },
                },
            },
        }
    }
}

/// Decide the removal of a type.
pub fn decide_drop_table(
    catalog: &Catalog,
    views: &Vec<ViewDef>,
    name: &String,
    if_exists: bool,
) -> (decision: Decision)
    ensures
        decision.deep_view() == drop_table_decision(
            catalog.deep_view(),
            views.deep_view(),
            name@,
            if_exists,
        ),
{
    if if_exists && catalog.schema(name).is_none() {
        return Decision::Answer {
            result: QueryResult::Executed {
                message: around("type '", name, "' does not exist (skipped)"),
            },
        };
    }
    let affected = dependents_of(views, name);
    assert(affected.deep_view().len() == affected.len());
    let message = if affected.len() == 0 {
        around("table '", name, "' dropped")
    } else {
        let (subject, verb) = describe_view_list(&affected);
        let mut message = around("table '", name, "' dropped; ");
        push_text(&mut message, subject.as_str());
        push_text(&mut message, " ");
        push_text(&mut message, verb);
        push_text(&mut message, " no source and will fail until dropped or recreated");
        message
    };
    let mut ops: Vec<StorageOp> = Vec::new();
    ops.push(StorageOp::DropTable { name: name.clone() });
    ops.push(StorageOp::MarkDependentsDirty { table: name.clone() });
    assert(ops.deep_view() =~= seq![
        StorageOpView::DropTable { name: name@ },
        StorageOpView::MarkDependentsDirty { table: name@ },
    ]);
    Decision::Write { ops, reply: Reply::Fixed { result: QueryResult::Executed { message } } }
}

} // verus!
