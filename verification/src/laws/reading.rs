//! What the steps of a plan that reads answer of what their input answers.

use vstd::prelude::*;

use crate::catalog::{CatalogView, ColumnDefView, LinkDefView, StoredRowView, TableView};
use crate::error::{Budget, ErrorView, ResultView};
use crate::expr::{ExprView, LiteralView, SortKeyView};
use crate::group::{ints, keys_of, pick};
use crate::index::table_rows;
use crate::laws::naming::{
    is_named, key_value, names_stand_for_one, references_read_what_they_name, referred_name,
};
use crate::laws::sorting::{in_stable_order, sorting_is_stable};
use crate::mentions::holds_subquery;
use crate::operators::{fresh_from, sort_columns, sort_directions};
use crate::ordering::sorted_positions;
use crate::plan::{PlanView, ProjectFieldView};
use crate::read::answer;
use crate::scalars::{total_order, EvalModel};
use crate::session::SessionModel;
use crate::value::{TypeId, ValueView};
use crate::window::order_exprs;

verus! {

/// A full scan answers every row of its table as it is stored, under the names of
/// the columns; under an alias, each name behind the alias. It takes nothing of
/// the budget.
pub proof fn scans_answer_the_stored_rows(
    catalog: CatalogView,
    model: SessionModel,
    table: Seq<char>,
    alias: Seq<char>,
    budget: Budget,
)
    ensures
        match catalog.table(table) {
            None => {
                let missing = Err::<(ResultView, Budget), ErrorView>(
                    ErrorView::TableNotFound(table),
                );
                &&& answer(catalog, model, PlanView::SeqScan { table }, budget) == missing
                &&& answer(catalog, model, PlanView::AliasScan { table, alias }, budget) == missing
            },
            Some(found) => {
                let rows = found.rows.map_values(|row: StoredRowView| row.values);
                let names = found.schema.columns.map_values(|column: ColumnDefView| column.name);
                &&& answer(catalog, model, PlanView::SeqScan { table }, budget) == Ok::<
                    (ResultView, Budget),
                    ErrorView,
                >((ResultView::Rows { columns: names, rows }, budget))
                &&& answer(catalog, model, PlanView::AliasScan { table, alias }, budget) == Ok::<
                    (ResultView, Budget),
                    ErrorView,
                >(
                    (
                        ResultView::Rows {
                            columns: names.map_values(|name: Seq<char>| alias + "."@ + name),
                            rows,
                        },
                        budget,
                    ),
                )
            },
        },
{
    match catalog.table(table) {
        None => {},
        Some(found) => {
            let names = found.schema.columns.map_values(|column: ColumnDefView| column.name);
            assert(table_rows(found) =~= found.rows.map_values(|row: StoredRowView| row.values));
            assert(found.schema.column_names() =~= names);
            assert(crate::provenance::scan_names(found, Some(alias)) =~= names.map_values(
                |name: Seq<char>| alias + "."@ + name,
            ));
        },
    }
}

/// A limit answers the first rows of its input, as many as it says or as there
/// are; an offset answers those that come after as many as it says.
pub proof fn limits_and_offsets_answer_a_part(
    catalog: CatalogView,
    model: SessionModel,
    input: PlanView,
    n: i64,
    budget: Budget,
)
    requires
        0 <= n <= usize::MAX,
        answer(catalog, model, input, budget) matches Ok((result, _)) && result is Rows,
    ensures
        ({
            let count = ExprView::Literal(LiteralView::Int(n));
            let input = Box::new(input);
            &&& answer(catalog, model, *input, budget) matches Ok(
                (ResultView::Rows { columns, rows }, left),
            )
            &&& answer(catalog, model, PlanView::Limit { input, count }, budget) matches Ok(
                (ResultView::Rows { columns: first_columns, rows: first }, first_left),
            )
            &&& answer(catalog, model, PlanView::Offset { input, count }, budget) matches Ok(
                (ResultView::Rows { columns: rest_columns, rows: rest }, rest_left),
            )
            &&& first_columns == columns && rest_columns == columns
            &&& first_left == left && rest_left == left
            &&& first.len() == (if n < rows.len() {
                n as int
            } else {
                rows.len() as int
            })
            &&& rest.len() == (if n < rows.len() {
                rows.len() - n
            } else {
                0
            })
            &&& forall|i: int| 0 <= i < first.len() ==> #[trigger] first[i] == rows[i]
            &&& forall|i: int| 0 <= i < rest.len() ==> #[trigger] rest[i] == rows[n + i]
        }),
{
}

/// A limit or an offset that is no integer literal is refused.
pub proof fn limits_and_offsets_must_be_integers(
    catalog: CatalogView,
    model: SessionModel,
    input: PlanView,
    count: ExprView,
    budget: Budget,
)
    requires
        !(count matches ExprView::Literal(LiteralView::Int(_))),
        answer(catalog, model, input, budget) is Ok,
    ensures
        answer(
            catalog,
            model,
            PlanView::Limit { input: Box::new(input), count },
            budget,
        ) == Err::<(ResultView, Budget), ErrorView>(
            ErrorView::Execution("limit must be integer literal"@),
        ),
        answer(
            catalog,
            model,
            PlanView::Offset { input: Box::new(input), count },
            budget,
        ) == Err::<(ResultView, Budget), ErrorView>(
            ErrorView::Execution("offset must be integer literal"@),
        ),
{
}

proof fn sort_columns_are_named(keys: Seq<SortKeyView>, columns: Seq<Seq<char>>, i: int)
    requires
        0 <= i <= keys.len(),
    ensures
        sort_columns(keys, columns, i) matches Ok(ats) ==> ats.len() == keys.len() - i && forall|
            k: int,
        |
            0 <= k < ats.len() ==> match referred_name(keys[i + k].expr) {
                Some(name) => #[trigger] ats[k] is Some && is_named(columns, name, ats[k]->0),
                None => ats[k] is None,
            },
    decreases keys.len() - i,
{
    if i < keys.len() {
        sort_columns_are_named(keys, columns, i + 1);
        match referred_name(keys[i].expr) {
            Some(name) => references_read_what_they_name(name, columns),
            None => {},
        }
        match (sort_columns(keys, columns, i), sort_columns(keys, columns, i + 1)) {
            (Ok(all), Ok(rest)) => {
                assert forall|k: int| 0 <= k < all.len() implies match referred_name(
                    keys[i + k].expr,
                ) {
                    Some(name) => #[trigger] all[k] is Some && is_named(columns, name, all[k]->0),
                    None => all[k] is None,
                } by {
                    if k > 0 {
                        assert(all[k] == rest[k - 1]);
                        assert(keys[i + 1 + (k - 1)] == keys[i + k]);
                    }
                }
            },
            _ => {},
        }
    }
}

/// The values of the keys of an `order` clause on a row.
pub open spec fn order_key(
    eval: EvalModel,
    keys: Seq<SortKeyView>,
    row: Seq<ValueView>,
    columns: Seq<Seq<char>>,
) -> Seq<ValueView> {
    keys.map_values(|key: SortKeyView| key_value(eval, key.expr, row, columns))
}

/// A sort answers the rows of its input, each once, in the order of its keys:
/// nulls last, and rows that tie in the order in which they come.
pub proof fn sort_plans_answer_in_stable_order(
    catalog: CatalogView,
    model: SessionModel,
    input: PlanView,
    keys: Seq<SortKeyView>,
    budget: Budget,
) -> (positions: Seq<int>)
    requires
        total_order(model.scalars.order),
        answer(catalog, model, input, budget) matches Ok((result, _)) && result is Rows,
        answer(catalog, model, PlanView::Sort { input: Box::new(input), keys }, budget) is Ok,
    ensures
        ({
            &&& answer(catalog, model, input, budget) matches Ok(
                (ResultView::Rows { columns, rows }, _),
            )
            &&& answer(
                catalog,
                model,
                PlanView::Sort { input: Box::new(input), keys },
                budget,
            ) matches Ok((ResultView::Rows { columns: names, rows: sorted }, _))
            &&& names == columns
            &&& in_stable_order(
                model.scalars.order,
                rows.map_values(
                    |row: Seq<ValueView>| order_key(model.scalars.eval, keys, row, columns),
                ),
                keys.map_values(|key: SortKeyView| Some(key.descending)),
                positions,
            )
            &&& sorted == positions.map_values(|p: int| rows[p])
        }),
{
    let eval = model.scalars.eval;
    let (columns, rows) = match answer(catalog, model, input, budget) {
        Ok((ResultView::Rows { columns, rows }, _)) => (columns, rows),
        _ => (Seq::empty(), Seq::empty()),
    };
    let ats = sort_columns(keys, columns, 0)->Ok_0;
    sort_columns_are_named(keys, columns, 0);
    let read = keys_of(eval, order_exprs(keys), ats, rows, columns);
    let stated = rows.map_values(|row: Seq<ValueView>| order_key(eval, keys, row, columns));
    assert forall|r: int| 0 <= r < rows.len() implies #[trigger] read[r] == stated[r] by {
        assert forall|k: int| 0 <= k < keys.len() implies #[trigger] read[r][k]
            == stated[r][k] by {
            match referred_name(keys[0 + k].expr) {
                Some(name) => {
                    assert(ats[k] is Some);
                    names_stand_for_one(columns, name, ats[k]->0);
                },
                None => {
                    assert(ats[k] is None);
                },
            }
        }
        assert(read[r] =~= stated[r]);
    }
    assert(read =~= stated);
    let directions = sort_directions(keys);
    assert(directions =~= keys.map_values(|key: SortKeyView| Some(key.descending)));
    sorting_is_stable(model.scalars.order, read, directions);
    let positions = ints(sorted_positions(model.scalars.order, read, directions));
    assert(pick(rows, positions) =~= positions.map_values(|p: int| rows[p]));
    positions
}

/// The rows of a projection: the value of each field on each row, under the names
/// of the fields: the alias, else the name that the field refers to, else `?`.
pub open spec fn each_field(
    eval: EvalModel,
    fields: Seq<ProjectFieldView>,
    columns: Seq<Seq<char>>,
    rows: Seq<Seq<ValueView>>,
) -> ResultView {
    ResultView::Rows {
        columns: fields.map_values(
            |field: ProjectFieldView|
                match field.alias {
                    Some(alias) => alias,
                    None => match referred_name(field.expr) {
                        Some(name) => name,
                        None => "?"@,
                    },
                },
        ),
        rows: rows.map_values(
            |row: Seq<ValueView>|
                fields.map_values(|field: ProjectFieldView| eval(field.expr, row, columns)),
        ),
    }
}

/// A plan reads a table in full, under a predicate without a subquery or under none.
pub open spec fn scans_plainly(
    plan: PlanView,
    table: Seq<char>,
    predicate: Option<ExprView>,
) -> bool {
    match predicate {
        None => plan == PlanView::SeqScan { table },
        Some(condition) => !holds_subquery(condition) && plan == (PlanView::Filter {
            input: Box::new(PlanView::SeqScan { table }),
            predicate: condition,
        }),
    }
}

/// The first `count` rows of a table in the order of one column.
pub open spec fn may_lead(input: PlanView) -> bool {
    &&& input matches PlanView::Limit { input: sorted, count }
    &&& count matches ExprView::Literal(LiteralView::Int(n)) && n >= 0
    &&& *sorted matches PlanView::Sort { input: scan, keys }
    &&& keys.len() == 1 && keys[0].expr is Field
    &&& exists|table: Seq<char>, predicate: Option<ExprView>|
        scans_plainly(*scan, table, predicate)
}

/// A projection of rows answers the value of each field on each of them. The first
/// rows of a table in the order of one column have a shorter way.
pub proof fn project_plans_answer_each_field(
    catalog: CatalogView,
    model: SessionModel,
    input: PlanView,
    fields: Seq<ProjectFieldView>,
    budget: Budget,
)
    requires
        !(input is ExprIndexScan || input is ExprRangeScan || input is OrderedExprIndexScan),
        !may_lead(input),
        answer(catalog, model, input, budget) matches Ok((result, _)) && result is Rows,
    ensures
        ({
            &&& answer(catalog, model, input, budget) matches Ok(
                (ResultView::Rows { columns, rows }, left),
            )
            &&& answer(
                catalog,
                model,
                PlanView::Project { input: Box::new(input), fields },
                budget,
            ) == Ok::<(ResultView, Budget), ErrorView>(
                (each_field(model.scalars.eval, fields, columns, rows), left),
            )
        }),
{
    if crate::fast::leading_answer(
        catalog,
        model.scalars,
        model.compiles,
        input,
        fields,
        budget,
    ) != Ok::<Option<(ResultView, Budget)>, ErrorView>(None) {
        match input {
            PlanView::Limit { input: sorted, .. } => match *sorted {
                PlanView::Sort { input: scan, .. } => {
                    let (table, predicate) = crate::fast::plain_scan(*scan)->0;
                    assert(scans_plainly(*scan, table, predicate));
                },
                _ => {},
            },
            _ => {},
        }
    }
    match answer(catalog, model, input, budget) {
        Ok((ResultView::Rows { columns, rows }, _)) => projections_hold_each_field(
            model.scalars.eval,
            fields,
            columns,
            rows,
        ),
        _ => {},
    }
}

/// What a projection makes of rows is each field of each of them.
pub proof fn projections_hold_each_field(
    eval: EvalModel,
    fields: Seq<ProjectFieldView>,
    columns: Seq<Seq<char>>,
    rows: Seq<Seq<ValueView>>,
)
    ensures
        crate::operators::project_answer(eval, fields, ResultView::Rows { columns, rows }) == Ok::<
            ResultView,
            ErrorView,
        >(each_field(eval, fields, columns, rows)),
{
    assert(crate::operators::output_names(fields) =~= fields.map_values(
        |field: ProjectFieldView|
            match field.alias {
                Some(alias) => alias,
                None => match referred_name(field.expr) {
                    Some(name) => name,
                    None => "?"@,
                },
            },
    ));
    let made = crate::operators::projection(eval, fields, rows, columns);
    let stated = rows.map_values(
        |row: Seq<ValueView>|
            fields.map_values(|field: ProjectFieldView| eval(field.expr, row, columns)),
    );
    assert forall|r: int| 0 <= r < rows.len() implies #[trigger] made[r] == stated[r] by {
        assert(made[r] =~= stated[r]);
    }
    assert(made =~= stated);
}

/// Each row of `rows` is at one of these positions of it or repeats the row at an
/// earlier one, and none of them repeats another: they are the first appearances,
/// in order.
pub open spec fn first_appearances(rows: Seq<Seq<ValueView>>, positions: Seq<int>) -> bool {
    &&& forall|i: int| 0 <= i < positions.len() ==> 0 <= #[trigger] positions[i] < rows.len()
    &&& forall|i: int, j: int|
        0 <= i < j < positions.len() ==> #[trigger] positions[i] < #[trigger] positions[j]
    &&& forall|r: int|
        #![trigger rows[r]]
        0 <= r < rows.len() ==> (positions.contains(r) <==> forall|q: int|
            0 <= q < r ==> #[trigger] rows[q] != rows[r])
}

/// The rows from `i` on that repeat no row before them are first appearances.
pub proof fn fresh_rows_appear_first(rows: Seq<Seq<ValueView>>, i: int)
    requires
        0 <= i <= rows.len(),
    ensures
        ({
            let fresh = fresh_from(rows, i);
            &&& forall|k: int| 0 <= k < fresh.len() ==> i <= #[trigger] fresh[k] < rows.len()
            &&& forall|a: int, b: int|
                0 <= a < b < fresh.len() ==> #[trigger] fresh[a] < #[trigger] fresh[b]
            &&& forall|r: int|
                #![trigger rows[r]]
                i <= r < rows.len() ==> (fresh.contains(r) <==> forall|q: int|
                    0 <= q < r ==> #[trigger] rows[q] != rows[r])
        }),
    decreases rows.len() - i,
{
    if i < rows.len() {
        fresh_rows_appear_first(rows, i + 1);
        let rest = fresh_from(rows, i + 1);
        let fresh = fresh_from(rows, i);
        let repeats = rows.take(i).contains(rows[i]);
        assert(repeats <==> exists|q: int| 0 <= q < i && #[trigger] rows[q] == rows[i]) by {
            if repeats {
                let q = choose|q: int| 0 <= q < i && rows.take(i)[q] == rows[i];
                assert(rows[q] == rows[i]);
            }
            if exists|q: int| 0 <= q < i && #[trigger] rows[q] == rows[i] {
                let q = choose|q: int| 0 <= q < i && #[trigger] rows[q] == rows[i];
                assert(rows.take(i)[q] == rows[i]);
            }
        }
        assert forall|k: int| 0 <= k < fresh.len() implies i <= #[trigger] fresh[k] < rows.len() by {
            if repeats {
                assert(rest[k] == fresh[k]);
            } else if k > 0 {
                assert(fresh[k] == rest[k - 1]);
            }
        }
        assert forall|a: int, b: int| 0 <= a < b < fresh.len() implies #[trigger] fresh[a]
            < #[trigger] fresh[b] by {
            if repeats {
                assert(rest[a] < rest[b]);
            } else {
                assert(fresh[b] == rest[b - 1]);
                if a > 0 {
                    assert(fresh[a] == rest[a - 1]);
                }
            }
        }
        assert forall|r: int|
            #![trigger rows[r]]
            i <= r < rows.len() implies (fresh.contains(r) <==> forall|q: int|
            0 <= q < r ==> #[trigger] rows[q] != rows[r]) by {
            if r > i {
                assert(rest.contains(r) <==> fresh.contains(r)) by {
                    if rest.contains(r) {
                        let k = choose|k: int| 0 <= k < rest.len() && rest[k] == r;
                        if repeats {
                            assert(fresh[k] == r);
                        } else {
                            assert(fresh[k + 1] == r);
                        }
                    }
                    if fresh.contains(r) {
                        let k = choose|k: int| 0 <= k < fresh.len() && fresh[k] == r;
                        if repeats {
                            assert(rest[k] == r);
                        } else {
                            assert(rest[k - 1] == r);
                        }
                    }
                }
            } else {
                if !repeats {
                    assert(fresh[0] == i);
                } else if fresh.contains(r) {
                    let k = choose|k: int| 0 <= k < fresh.len() && fresh[k] == r;
                    assert(rest[k] == r);
                }
            }
        }
    }
}

/// Distinct rows: those of the input that no row before them is equal to, in
/// their order.
pub proof fn distinct_plans_answer_first_appearances(
    catalog: CatalogView,
    model: SessionModel,
    input: PlanView,
    budget: Budget,
) -> (positions: Seq<int>)
    requires
        answer(catalog, model, input, budget) matches Ok((result, _)) && result is Rows,
    ensures
        ({
            &&& answer(catalog, model, input, budget) matches Ok(
                (ResultView::Rows { columns, rows }, left),
            )
            &&& first_appearances(rows, positions)
            &&& answer(
                catalog,
                model,
                PlanView::Distinct { input: Box::new(input) },
                budget,
            ) == Ok::<(ResultView, Budget), ErrorView>(
                (
                    ResultView::Rows { columns, rows: positions.map_values(|p: int| rows[p]) },
                    left,
                ),
            )
        }),
{
    let rows = match answer(catalog, model, input, budget) {
        Ok((ResultView::Rows { rows, .. }, _)) => rows,
        _ => Seq::empty(),
    };
    fresh_rows_appear_first(rows, 0);
    let positions = fresh_from(rows, 0);
    assert(pick(rows, positions) =~= positions.map_values(|p: int| rows[p]));
    positions
}

/// A union answers the rows of its left side and then those of its right side,
/// under the columns of the left; unless it takes all, only the first appearance
/// of each row.
pub proof fn union_plans_answer_both_sides(
    catalog: CatalogView,
    model: SessionModel,
    left: PlanView,
    right: PlanView,
    all: bool,
    budget: Budget,
) -> (positions: Seq<int>)
    requires
        answer(catalog, model, left, budget) matches Ok((first, rest)) && first is Rows && (answer(
            catalog,
            model,
            right,
            rest,
        ) matches Ok((second, _)) && second is Rows),
    ensures
        ({
            &&& answer(catalog, model, left, budget) matches Ok(
                (ResultView::Rows { columns, rows: first }, rest),
            )
            &&& answer(catalog, model, right, rest) matches Ok(
                (ResultView::Rows { columns: _, rows: second }, remaining),
            )
            &&& first_appearances(first + second, positions)
            &&& answer(
                catalog,
                model,
                PlanView::Union { left: Box::new(left), right: Box::new(right), all },
                budget,
            ) == Ok::<(ResultView, Budget), ErrorView>(
                (
                    ResultView::Rows {
                        columns,
                        rows: if all {
                            first + second
                        } else {
                            positions.map_values(|p: int| (first + second)[p])
                        },
                    },
                    remaining,
                ),
            )
        }),
{
    let (first, rest) = match answer(catalog, model, left, budget) {
        Ok((ResultView::Rows { rows, .. }, rest)) => (rows, rest),
        _ => (Seq::empty(), budget),
    };
    let second = match answer(catalog, model, right, rest) {
        Ok((ResultView::Rows { rows, .. }, _)) => rows,
        _ => Seq::empty(),
    };
    let both = first + second;
    fresh_rows_appear_first(both, 0);
    let positions = fresh_from(both, 0);
    assert(pick(both, positions) =~= positions.map_values(|p: int| both[p]));
    positions
}

/// The types are listed in the order of the catalog, each with the number of its
/// columns.
pub proof fn type_lists_name_each_table(catalog: CatalogView, model: SessionModel, budget: Budget)
    ensures
        answer(catalog, model, PlanView::ListTypes, budget) == Ok::<
            (ResultView, Budget),
            ErrorView,
        >(
            (
                ResultView::Rows {
                    columns: seq!["name"@, "columns"@],
                    rows: catalog.tables.map_values(
                        |table: TableView|
                            seq![
                                ValueView::Str(table.schema.table_name),
                                ValueView::Int(table.schema.columns.len() as i64),
                            ],
                    ),
                },
                budget,
            ),
        ),
{
    let told = crate::operators::types_answer(catalog);
    assert(told->rows =~= catalog.tables.map_values(
        |table: TableView|
            seq![
                ValueView::Str(table.schema.table_name),
                ValueView::Int(table.schema.columns.len() as i64),
            ],
    ));
}

/// The links are listed in the order of the catalog, each with where it starts and
/// where it leads.
pub proof fn link_lists_name_each_link(catalog: CatalogView, model: SessionModel, budget: Budget)
    ensures
        answer(catalog, model, PlanView::ListLinks, budget) == Ok::<
            (ResultView, Budget),
            ErrorView,
        >(
            (
                ResultView::Rows {
                    columns: seq!["type"@, "link"@, "target"@, "local_key"@, "target_key"@],
                    rows: catalog.links.map_values(
                        |link: LinkDefView|
                            seq![
                                ValueView::Str(link.owner_type),
                                ValueView::Str(link.name),
                                ValueView::Str(link.target_type),
                                ValueView::Str(link.local_key),
                                ValueView::Str(link.target_key),
                            ],
                    ),
                },
                budget,
            ),
        ),
{
    let told = crate::operators::links_answer(catalog);
    assert(told->rows =~= catalog.links.map_values(
        |link: LinkDefView|
            seq![
                ValueView::Str(link.owner_type),
                ValueView::Str(link.name),
                ValueView::Str(link.target_type),
                ValueView::Str(link.local_key),
                ValueView::Str(link.target_key),
            ],
    ));
}

/// A type is described column by column: its name, its type, whether it may be
/// null, and whether it has an index, or a unique one.
pub proof fn descriptions_tell_each_column(
    catalog: CatalogView,
    model: SessionModel,
    table: Seq<char>,
    budget: Budget,
    c: int,
)
    ensures
        match catalog.table(table) {
            None => answer(catalog, model, PlanView::Describe { table }, budget) == Err::<
                (ResultView, Budget),
                ErrorView,
            >(ErrorView::TableNotFound(table)),
            Some(found) => {
                &&& answer(catalog, model, PlanView::Describe { table }, budget) matches Ok(
                    (ResultView::Rows { columns, rows }, left),
                )
                &&& left == budget
                &&& columns == seq!["column"@, "type"@, "nullable"@, "index"@]
                &&& rows.len() == found.schema.columns.len()
                &&& 0 <= c < rows.len() ==> {
                    let column = found.schema.columns[c];
                    &&& rows[c].len() == 4
                    &&& rows[c][0] == ValueView::Str(column.name)
                    &&& rows[c][1] == ValueView::Str(
                        match column.type_id {
                            TypeId::Int => "int"@,
                            TypeId::Float => "float"@,
                            TypeId::Bool => "bool"@,
                            TypeId::Str => "str"@,
                            TypeId::DateTime => "datetime"@,
                            TypeId::Uuid => "uuid"@,
                            TypeId::Bytes => "bytes"@,
                            TypeId::Json => "json"@,
                            TypeId::Empty => "empty"@,
                        },
                    )
                    &&& rows[c][2] == ValueView::Bool(!column.required)
                    &&& rows[c][3] == ValueView::Str(
                        match catalog.index(table, column.name) {
                            None => ""@,
                            Some(index) => if index.unique {
                                "unique"@
                            } else {
                                "index"@
                            },
                        },
                    )
                }
            },
        },
{
}

} // verus!
