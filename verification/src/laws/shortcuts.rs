//! What the shorter ways to an answer come to.

use vstd::prelude::*;

use crate::aggregate::{aggregate_provenance_of, aggregate_rows_of};
use crate::catalog::{CatalogView, TableView};
use crate::error::{Budget, ErrorView, ResultView};
use crate::expr::{AggFunc, AggregateMode, ExprView, LiteralView, SortKeyView};
use crate::fast::{
    column_aggregate, column_values, leading_rows, numeric_column, present, scanned,
    single_keys,
};
use crate::group::{group_by_of, ints, pick, GroupAggView, GroupKeyView, GroupProvenanceView};
use crate::index::{
    bare_names, bare_positions, catalog_fits, fetched_from, found_table_fits, lookup_from,
    projected, reads_what_it_mentions, residual_answer, sparse_test_keeps_the_answer,
    table_rows,
};
use crate::laws::changing::{denoted, literals_denote};
use crate::laws::filtering::{filters_agree, predicates_keep_what_holds};
use crate::laws::grouping::filter_of_all;
use crate::laws::naming::{columns_are_found, held, is_column, names_lead_to_columns};
use crate::laws::reading::{each_field, projections_hold_each_field, scans_plainly};
use crate::laws::scanning::{all_rows, bare_columns_are_named};
use crate::laws::sorting::{in_stable_order, sorting_is_stable};
use crate::mentions::holds_subquery;
use crate::ordering::{leading_positions, row_order, row_order_is_total, sorted_positions};
use crate::plan::{PlanView, ProjectFieldView};
use crate::provenance::sourced;
use crate::read::{answer, traces};
use crate::scalars::{total_order, EvalModel, Order, OrderModel, ScalarModel};
use crate::session::{CompileModel, HoldingView, SessionModel};
use crate::sort::{
    comes_before, first_positions_begin_the_order, lists_first, positions_all_listed, sorts,
};
use crate::value::{TypeId, ValueView};

verus! {

/// The rows of a table on which a predicate is true; without one, all of them.
pub open spec fn rows_kept(
    eval: EvalModel,
    predicate: Option<ExprView>,
    table: TableView,
) -> Seq<Seq<ValueView>> {
    all_rows(table).filter(
        |row: Seq<ValueView>|
            predicate matches Some(condition) ==> eval(
                condition,
                row,
                table.schema.column_names(),
            ) == ValueView::Bool(true),
    )
}

proof fn scans_keep(eval: EvalModel, predicate: Option<ExprView>, table: TableView)
    ensures
        scanned(eval, predicate, table_rows(table), table.schema.column_names()) == rows_kept(
            eval,
            predicate,
            table,
        ),
{
    let rows = all_rows(table);
    let columns = table.schema.column_names();
    assert(table_rows(table) =~= rows);
    let test = |row: Seq<ValueView>|
        predicate matches Some(condition) ==> eval(condition, row, columns) == ValueView::Bool(true);
    match predicate {
        Some(condition) => {
            predicates_keep_what_holds(eval, condition, rows, columns);
            filters_agree(
                rows,
                |row: Seq<ValueView>| eval(condition, row, columns) == ValueView::Bool(true),
                test,
            );
        },
        None => filter_of_all(rows, test),
    }
}

/// A filter over an equality lookup in an index, which tests each row on the columns
/// of the predicate alone, answers the rows that the lookup answers and on which the
/// predicate is true.
pub proof fn filtered_lookups_answer_what_holds(
    catalog: CatalogView,
    model: SessionModel,
    table: Seq<char>,
    column: Seq<char>,
    key: ExprView,
    predicate: ExprView,
    budget: Budget,
)
    requires
        reads_what_it_mentions(model.scalars.eval),
        catalog_fits(catalog),
        !holds_subquery(predicate),
        catalog.index(table, column) is Some,
        denoted(key) is Some,
    ensures
        ({
            let scan = PlanView::IndexScan { table, column, key };
            &&& answer(catalog, model, scan, budget) matches Ok(
                (ResultView::Rows { columns, rows }, left),
            )
            &&& answer(
                catalog,
                model,
                PlanView::Filter { input: Box::new(scan), predicate },
                budget,
            ) == Ok::<(ResultView, Budget), ErrorView>(
                (
                    ResultView::Rows {
                        columns,
                        rows: rows.filter(
                            |row: Seq<ValueView>|
                                (model.scalars.eval)(predicate, row, columns) == ValueView::Bool(
                                    true,
                                ),
                        ),
                    },
                    left,
                ),
            )
        }),
{
    let eval = model.scalars.eval;
    let found = catalog.table(table)->0;
    literals_denote(key);
    found_table_fits(catalog, table);
    let rids = lookup_from(catalog.index(table, column)->0.entries, denoted(key)->0, 0);
    sparse_test_keeps_the_answer(eval, predicate, found, rids, 0);
    let rows = fetched_from(found, rids, 0);
    predicates_keep_what_holds(eval, predicate, rows, found.schema.column_names());
    let scan = PlanView::IndexScan { table, column, key };
    assert(residual_answer(catalog, eval, model.scalars.order, scan, predicate) matches Ok(
        Some(_),
    ));
}

/// The first of a stable order are those that [`lists_first`] lists.
proof fn orders_begin<T>(
    order: Seq<usize>,
    items: Seq<T>,
    model: spec_fn(T, T) -> Order,
    limit: int,
)
    requires
        sorts(order, items, model),
        0 <= limit,
        items.len() <= usize::MAX,
    ensures
        lists_first(
            order.take(
                if limit < items.len() {
                    limit
                } else {
                    items.len() as int
                },
            ),
            items,
            model,
            limit,
            items.len() as int,
        ),
{
    let n = items.len() as int;
    let m = if limit < n {
        limit
    } else {
        n
    };
    let first = order.take(m);
    assert forall|i: int| 0 <= i < first.len() implies #[trigger] first[i] < n by {
        assert(first[i] == order[i]);
    }
    assert forall|i: int, j: int|
        #![trigger first[i], first[j]]
        0 <= i < j < first.len() implies comes_before(
        items,
        model,
        first[i] as int,
        first[j] as int,
    ) by {
        assert(first[i] == order[i] && first[j] == order[j]);
    }
    assert forall|i: int, p: int|
        0 <= i < first.len() && 0 <= p < n && !(first.contains(p as usize)) implies #[trigger]
        comes_before(items, model, first[i] as int, p) by {
        positions_all_listed(order, n, p);
        let j = choose|j: int| 0 <= j < n && order[j] == p;
        if j < m {
            assert(first[j] == p as usize);
        }
        assert(first[i] == order[i]);
        assert(comes_before(items, model, order[i] as int, order[j] as int));
    }
}

/// The first positions in the order of keys begin the positions in that order.
pub proof fn leading_begins_sorting(
    order: OrderModel,
    keys: Seq<Seq<ValueView>>,
    directions: Seq<Option<bool>>,
    limit: int,
)
    requires
        total_order(order),
        keys.len() <= usize::MAX,
        0 <= limit,
    ensures
        in_stable_order(order, keys, directions, ints(sorted_positions(order, keys, directions))),
        leading_positions(order, keys, directions, limit) == sorted_positions(
            order,
            keys,
            directions,
        ).take(
            if limit < keys.len() {
                limit
            } else {
                keys.len() as int
            },
        ),
{
    let by = row_order(order, directions);
    row_order_is_total(order, directions);
    sorting_is_stable(order, keys, directions);
    let sorted = sorted_positions(order, keys, directions);
    orders_begin(sorted, keys, by, limit);
    let first = leading_positions(order, keys, directions, limit);
    assert(lists_first(first, keys, by, limit, keys.len() as int));
    first_positions_begin_the_order(first, sorted, keys, by, limit);
}

/// The first rows of an ordered scan that are answered without sorting all: the
/// rows that the predicate keeps, in the stable order of the column, as many as the
/// limit says or as there are, each with what it holds in the columns asked for.
pub proof fn leading_rows_begin_the_order(
    model: ScalarModel,
    compiles: CompileModel,
    table: TableView,
    predicate: Option<ExprView>,
    fields: Seq<ProjectFieldView>,
    sort_field: Seq<char>,
    descending: bool,
    limit: int,
    budget: Budget,
) -> (positions: Seq<int>)
    requires
        total_order(model.order),
        table.rows.len() <= usize::MAX,
        0 <= limit,
        leading_rows(
            model,
            compiles,
            table,
            predicate,
            fields,
            sort_field,
            descending,
            limit,
            budget,
        ) matches Ok(Some(_)),
    ensures
        ({
            let kept = rows_kept(model.eval, predicate, table);
            &&& in_stable_order(
                model.order,
                kept.map_values(
                    |row: Seq<ValueView>| seq![held(table.schema, row, sort_field)],
                ),
                seq![Some(descending)],
                positions,
            )
            &&& leading_rows(
                model,
                compiles,
                table,
                predicate,
                fields,
                sort_field,
                descending,
                limit,
                budget,
            ) matches Ok(Some((ResultView::Rows { columns, rows }, _)))
            &&& columns == fields.map_values(
                |field: ProjectFieldView|
                    match field.alias {
                        Some(alias) => alias,
                        None => field.expr->Field_0,
                    },
            )
            &&& rows.len() == (if limit < kept.len() {
                limit
            } else {
                kept.len() as int
            })
            &&& forall|i: int|
                0 <= i < rows.len() ==> #[trigger] rows[i] == fields.map_values(
                    |field: ProjectFieldView|
                        held(table.schema, kept[positions[i]], field.expr->Field_0),
                )
        }),
{
    let kept = rows_kept(model.eval, predicate, table);
    scans_keep(model.eval, predicate, table);
    crate::laws::nesting::filter_is_shorter(
        all_rows(table),
        |row: Seq<ValueView>|
            predicate matches Some(condition) ==> (model.eval)(
                condition,
                row,
                table.schema.column_names(),
            ) == ValueView::Bool(true),
    );
    names_lead_to_columns(table.schema, sort_field);
    let at = numeric_column(table, sort_field)->0;
    let keys = single_keys(column_values(kept, at));
    let stated = kept.map_values(|row: Seq<ValueView>| seq![held(table.schema, row, sort_field)]);
    assert forall|i: int| 0 <= i < kept.len() implies #[trigger] keys[i] == stated[i] by {
        columns_are_found(table.schema, kept[i], sort_field, at);
    }
    assert(keys =~= stated);
    leading_begins_sorting(model.order, keys, seq![Some(descending)], limit);
    let sorted = sorted_positions(model.order, keys, seq![Some(descending)]);
    let positions = ints(sorted);
    let first = leading_positions(model.order, keys, seq![Some(descending)], limit);
    bare_columns_are_named(table, fields, 0);
    let ats = bare_positions(table, fields, 0)->Ok_0;
    let picked = pick(kept, ints(first));
    let rows = projected(picked, ats);
    assert forall|i: int| 0 <= i < rows.len() implies #[trigger] rows[i] == fields.map_values(
        |field: ProjectFieldView| held(table.schema, kept[positions[i]], field.expr->Field_0),
    ) by {
        let told = fields.map_values(
            |field: ProjectFieldView| held(table.schema, kept[positions[i]], field.expr->Field_0),
        );
        assert(picked[i] == kept[positions[i]]);
        assert forall|k: int| 0 <= k < fields.len() implies #[trigger] rows[i][k] == told[k] by {
            assert(is_column(table.schema, fields[0 + k].expr->Field_0, ats[k]));
            columns_are_found(
                table.schema,
                kept[positions[i]],
                fields[k].expr->Field_0,
                ats[k],
            );
        }
        assert(rows[i] =~= told);
    }
    assert(bare_names(fields) =~= fields.map_values(
        |field: ProjectFieldView|
            match field.alias {
                Some(alias) => alias,
                None => field.expr->Field_0,
            },
    ));
    positions
}

proof fn nothing_present(values: Seq<ValueView>)
    ensures
        present(values) >= 0,
        present(values) == 0 <==> forall|i: int|
            0 <= i < values.len() ==> #[trigger] values[i] == ValueView::Empty,
    decreases values.len(),
{
    if values.len() > 0 {
        let less = values.drop_last();
        nothing_present(less);
        assert(forall|i: int| 0 <= i < less.len() ==> #[trigger] less[i] == values[i]);
        assert(values.last() == values[values.len() - 1]);
        if present(values) == 0 {
            assert forall|i: int| 0 <= i < values.len() implies #[trigger] values[i]
                == ValueView::Empty by {
                if i < less.len() {
                    assert(less[i] == ValueView::Empty);
                }
            }
        }
        if forall|i: int| 0 <= i < values.len() ==> #[trigger] values[i] == ValueView::Empty {
            assert forall|i: int| 0 <= i < less.len() implies #[trigger] less[i]
                == ValueView::Empty by {
                assert(values[i] == ValueView::Empty);
            }
            assert(values[values.len() - 1] == ValueView::Empty);
        }
    }
}

/// An aggregate that is read off one column answers what it answers over the rows
/// that the predicate keeps; but that the sum of a column of floats that holds
/// nothing on them is the float zero.
pub proof fn column_aggregates_take_the_rows_kept(
    model: ScalarModel,
    table: TableView,
    column: Seq<char>,
    function: AggFunc,
    predicate: Option<ExprView>,
)
    requires
        numeric_column(table, column) is Some,
    ensures
        ({
            let kept = rows_kept(model.eval, predicate, table);
            let at = numeric_column(table, column)->0;
            &&& is_column(table.schema, column, at)
            &&& table.schema.columns[at].type_id == TypeId::Int
                || table.schema.columns[at].type_id == TypeId::Float
            &&& column_aggregate(model, table, column, function, predicate) == (if function
                == AggFunc::Sum && table.schema.columns[at].type_id == TypeId::Float && (forall|
                i: int,
            |
                0 <= i < kept.len() ==> held(table.schema, #[trigger] kept[i], column)
                    == ValueView::Empty) {
                Ok::<ResultView, ErrorView>(ResultView::Scalar(ValueView::Float(0)))
            } else {
                aggregate_rows_of(
                    model,
                    function,
                    Some(ExprView::Field(column)),
                    table.schema.column_names(),
                    kept,
                )
            })
        }),
{
    let kept = rows_kept(model.eval, predicate, table);
    scans_keep(model.eval, predicate, table);
    names_lead_to_columns(table.schema, column);
    let at = numeric_column(table, column)->0;
    let values = column_values(kept, at);
    nothing_present(values);
    assert forall|i: int| 0 <= i < kept.len() implies held(
        table.schema,
        #[trigger] kept[i],
        column,
    ) == values[i] by {
        columns_are_found(table.schema, kept[i], column, at);
    }
    if forall|i: int|
        0 <= i < kept.len() ==> held(table.schema, #[trigger] kept[i], column)
            == ValueView::Empty {
        assert forall|i: int| 0 <= i < values.len() implies #[trigger] values[i]
            == ValueView::Empty by {
            assert(held(table.schema, kept[i], column) == ValueView::Empty);
        }
    } else {
        let i = choose|i: int|
            0 <= i < kept.len() && held(table.schema, #[trigger] kept[i], column)
                != ValueView::Empty;
        assert(values[i] != ValueView::Empty);
    }
}

/// A projection of the first rows of a table in the order of one column is answered
/// by the leading rows where they are found without sorting all, and otherwise by
/// each field of the rows that the slice answers.
pub proof fn ordered_slices_lead_where_they_can(
    catalog: CatalogView,
    model: SessionModel,
    scan: PlanView,
    table: Seq<char>,
    predicate: Option<ExprView>,
    found: TableView,
    name: Seq<char>,
    descending: bool,
    n: i64,
    fields: Seq<ProjectFieldView>,
    budget: Budget,
)
    requires
        scans_plainly(scan, table, predicate),
        catalog.table(table) == Some(found),
        0 <= n <= usize::MAX,
    ensures
        ({
            let slice = PlanView::Limit {
                input: Box::new(
                    PlanView::Sort {
                        input: Box::new(scan),
                        keys: seq![SortKeyView { expr: ExprView::Field(name), descending }],
                    },
                ),
                count: ExprView::Literal(LiteralView::Int(n)),
            };
            let answered = answer(
                catalog,
                model,
                PlanView::Project { input: Box::new(slice), fields },
                budget,
            );
            match leading_rows(
                model.scalars,
                model.compiles,
                found,
                predicate,
                fields,
                name,
                descending,
                n as int,
                budget,
            ) {
                Err(error) => answered == Err::<(ResultView, Budget), ErrorView>(error),
                Ok(Some(led)) => answered == Ok::<(ResultView, Budget), ErrorView>(led),
                Ok(None) => match answer(catalog, model, slice, budget) {
                    Err(error) => answered == Err::<(ResultView, Budget), ErrorView>(error),
                    Ok((ResultView::Rows { columns, rows }, left)) => answered == Ok::<
                        (ResultView, Budget),
                        ErrorView,
                    >((each_field(model.scalars.eval, fields, columns, rows), left)),
                    Ok(_) => true,
                },
            }
        }),
{
    let slice = PlanView::Limit {
        input: Box::new(
            PlanView::Sort {
                input: Box::new(scan),
                keys: seq![SortKeyView { expr: ExprView::Field(name), descending }],
            },
        ),
        count: ExprView::Literal(LiteralView::Int(n)),
    };
    match answer(catalog, model, slice, budget) {
        Ok((ResultView::Rows { columns, rows }, _)) => projections_hold_each_field(
            model.scalars.eval,
            fields,
            columns,
            rows,
        ),
        _ => {},
    }
}

/// An aggregate is read off one column of integers or floats of a table.
pub open spec fn reads_one_column(
    catalog: CatalogView,
    compiles: CompileModel,
    input: PlanView,
    argument: Option<ExprView>,
    table: Seq<char>,
    predicate: Option<ExprView>,
    at: int,
) -> bool {
    &&& scans_plainly(input, table, predicate)
    &&& catalog.table(table) matches Some(found)
    &&& compiles(predicate, found)
    &&& argument matches Some(ExprView::Field(column))
    &&& column != "*"@
    &&& is_column(found.schema, column, at)
    &&& found.schema.columns[at].type_id == TypeId::Int || found.schema.columns[at].type_id
        == TypeId::Float
}

/// An aggregate over a plan answers what it gives over the rows that the plan
/// answers. One that is read off one column of a table answers what it gives over
/// the rows that the predicate keeps, but that the sum of a column of floats that
/// holds nothing on them is the float zero.
pub proof fn aggregate_plans_take_the_rows_of_their_input(
    catalog: CatalogView,
    model: SessionModel,
    input: PlanView,
    function: AggFunc,
    argument: Option<ExprView>,
    mode: AggregateMode,
    table: Seq<char>,
    predicate: Option<ExprView>,
    at: int,
    budget: Budget,
)
    ensures
        ({
            let answered = answer(
                catalog,
                model,
                PlanView::Aggregate {
                    input: Box::new(input),
                    function,
                    argument,
                    mode,
                    provenance_alias: None,
                },
                budget,
            );
            &&& (forall|t: Seq<char>, p: Option<ExprView>, c: int|
                !reads_one_column(catalog, model.compiles, input, argument, t, p, c)) ==> match answer(
                catalog,
                model,
                input,
                budget,
            ) {
                Err(error) => answered == Err::<(ResultView, Budget), ErrorView>(error),
                Ok((ResultView::Rows { columns, rows }, left)) => match aggregate_rows_of(
                    model.scalars,
                    function,
                    argument,
                    columns,
                    rows,
                ) {
                    Err(error) => answered == Err::<(ResultView, Budget), ErrorView>(error),
                    Ok(result) => answered == Ok::<(ResultView, Budget), ErrorView>((result, left)),
                },
                Ok(_) => answered is Err,
            }
            &&& reads_one_column(
                catalog,
                model.compiles,
                input,
                argument,
                table,
                predicate,
                at,
            ) ==> {
                let found = catalog.table(table)->0;
                let column = argument->0->Field_0;
                let kept = rows_kept(model.scalars.eval, predicate, found);
                if function == AggFunc::Sum && found.schema.columns[at].type_id == TypeId::Float
                    && (forall|i: int|
                    0 <= i < kept.len() ==> held(found.schema, #[trigger] kept[i], column)
                        == ValueView::Empty) {
                    answered == Ok::<(ResultView, Budget), ErrorView>(
                        (ResultView::Scalar(ValueView::Float(0)), budget),
                    )
                } else {
                    match aggregate_rows_of(
                        model.scalars,
                        function,
                        argument,
                        found.schema.column_names(),
                        kept,
                    ) {
                        Err(error) => answered == Err::<(ResultView, Budget), ErrorView>(error),
                        Ok(result) => answered == Ok::<(ResultView, Budget), ErrorView>(
                            (result, budget),
                        ),
                    }
                }
            }
        }),
{
    match (crate::fast::plain_scan(input), argument) {
        (Some((t, p)), Some(ExprView::Field(column))) => {
            assert(scans_plainly(input, t, p));
            match catalog.table(t) {
                Some(found) => {
                    names_lead_to_columns(found.schema, column);
                    match numeric_column(found, column) {
                        Some(c) => {
                            column_aggregates_take_the_rows_kept(
                                model.scalars,
                                found,
                                column,
                                function,
                                p,
                            );
                            if (model.compiles)(p, found) && column != "*"@ {
                                assert(reads_one_column(
                                    catalog,
                                    model.compiles,
                                    input,
                                    argument,
                                    t,
                                    p,
                                    c,
                                ));
                            }
                        },
                        None => {},
                    }
                },
                None => {},
            }
        },
        _ => {},
    }
}

/// An aggregate that names a source, and a grouping with such an aggregate, take the
/// rows of their input with the stored rows behind them, once they fit in what the
/// input leaves of the budget.
pub proof fn traced_totals_take_the_traced_rows(
    catalog: CatalogView,
    model: SessionModel,
    input: PlanView,
    function: AggFunc,
    argument: Option<ExprView>,
    mode: AggregateMode,
    alias: Seq<char>,
    keys: Seq<GroupKeyView>,
    aggregates: Seq<GroupAggView>,
    having: Option<ExprView>,
    a: int,
    budget: Budget,
)
    requires
        0 <= a < aggregates.len(),
        aggregates[a].provenance_alias is Some,
    ensures
        ({
            let total = answer(
                catalog,
                model,
                PlanView::Aggregate {
                    input: Box::new(input),
                    function,
                    argument,
                    mode,
                    provenance_alias: Some(alias),
                },
                budget,
            );
            let groups = answer(
                catalog,
                model,
                PlanView::GroupBy { input: Box::new(input), keys, aggregates, having },
                budget,
            );
            match sourced(catalog, model, input, budget) {
                Err(error) => total == Err::<(ResultView, Budget), ErrorView>(error) && groups
                    == total,
                Ok((got, left)) => {
                    let size = (model.sizes)(HoldingView::Rows(got.rows));
                    let rest = Budget { used: (left.used + size) as usize, ..left };
                    if left.used + size <= left.limit {
                        &&& total == aggregate_provenance_of(
                            model.scalars,
                            function,
                            argument,
                            got,
                            alias,
                            rest,
                        )
                        &&& groups == group_by_of(
                            model.scalars,
                            got.columns,
                            got.rows,
                            Some(
                                GroupProvenanceView {
                                    source_aliases: got.source_aliases,
                                    rows: got.provenance,
                                },
                            ),
                            keys,
                            aggregates,
                            having,
                            rest,
                        )
                    } else {
                        total is Err && groups is Err
                    }
                },
            }
        }),
{
    tracing_is_found(aggregates, 0, a);
}

proof fn tracing_is_found(aggregates: Seq<GroupAggView>, i: int, a: int)
    requires
        0 <= i <= a < aggregates.len(),
        aggregates[a].provenance_alias is Some,
    ensures
        traces(aggregates, i),
    decreases a - i,
{
    if i < a {
        tracing_is_found(aggregates, i + 1, a);
    }
}

} // verus!
