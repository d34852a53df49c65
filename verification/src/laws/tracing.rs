//! Which stored rows stand behind the rows of a plan.

use vstd::prelude::*;

use crate::aggregate::ProvenanceView;
use crate::catalog::{CatalogView, ColumnDefView, StoredRowView};
use crate::error::{Budget, ErrorView};
use crate::expr::{ExprView, LiteralView, SortKeyView};
use crate::group::{ints, keys_of, pick};
use crate::index::table_rows;
use crate::laws::filtering::images_take_first;
use crate::laws::naming::referred_name;
use crate::laws::reading::{first_appearances, fresh_rows_appear_first};
use crate::laws::sorting::{in_stable_order, sorting_is_stable};
use crate::mentions::holds_subquery;
use crate::operators::{
    fresh_from, holding_from, projection, slice_positions, sort_directions, worded_names,
};
use crate::ordering::sorted_positions;
use crate::plan::{PlanView, ProjectFieldView};
use crate::provenance::{no_columns, scan_names, sourced, sourced_step};
use crate::scalars::{total_order, EvalModel};
use crate::session::SessionModel;
use crate::value::ValueView;
use crate::window::order_exprs;
use crate::wording::{words, SubjectView};

verus! {

/// The rows of `input` at these positions, with the stored rows behind them.
pub open spec fn traced_at(
    input: ProvenanceView,
    positions: Seq<int>,
    traced: ProvenanceView,
) -> bool {
    &&& traced.columns == input.columns
    &&& traced.source_aliases == input.source_aliases
    &&& traced.rows == positions.map_values(|p: int| input.rows[p])
    &&& traced.provenance == positions.map_values(|p: int| input.provenance[p])
}

/// The positions of a sequence of `n` elements.
pub open spec fn positions_to(n: nat) -> Seq<int> {
    Seq::new(n, |i: int| i)
}

proof fn holding_positions(
    eval: EvalModel,
    predicate: ExprView,
    rows: Seq<Seq<ValueView>>,
    columns: Seq<Seq<char>>,
    i: int,
)
    requires
        0 <= i <= rows.len(),
    ensures
        holding_from(eval, predicate, rows, columns, i) == positions_to(rows.len()).skip(i).filter(
            |p: int| eval(predicate, rows[p], columns) == ValueView::Bool(true),
        ),
    decreases rows.len() - i,
{
    let all = positions_to(rows.len());
    let test = |p: int| eval(predicate, rows[p], columns) == ValueView::Bool(true);
    images_take_first(all, test, |p: int| p, i);
    assert(all.skip(i).filter(test).map_values(|p: int| p) =~= all.skip(i).filter(test));
    if i < rows.len() {
        holding_positions(eval, predicate, rows, columns, i + 1);
        assert(all.skip(i + 1).filter(test).map_values(|p: int| p) =~= all.skip(i + 1).filter(
            test,
        ));
        assert(all[i] == i);
    }
}

/// A scan is traced to the stored rows that it reads, each row to its own id, under
/// the name of the table or the alias.
pub proof fn scans_are_traced_to_their_rows(
    catalog: CatalogView,
    model: SessionModel,
    table: Seq<char>,
    alias: Seq<char>,
    budget: Budget,
)
    requires
        catalog.table(table) is Some,
    ensures
        ({
            let found = catalog.table(table)->0;
            let rows = found.rows.map_values(|row: StoredRowView| row.values);
            let provenance = found.rows.map_values(|row: StoredRowView| seq![Some(row.rid)]);
            let names = found.schema.columns.map_values(|column: ColumnDefView| column.name);
            &&& sourced_step(catalog, model, PlanView::SeqScan { table }, budget) == Ok::<
                (ProvenanceView, Budget),
                ErrorView,
            >(
                (
                    ProvenanceView {
                        columns: names,
                        rows,
                        source_aliases: seq![table],
                        provenance,
                    },
                    budget,
                ),
            )
            &&& sourced_step(catalog, model, PlanView::AliasScan { table, alias }, budget) == Ok::<
                (ProvenanceView, Budget),
                ErrorView,
            >(
                (
                    ProvenanceView {
                        columns: names.map_values(|name: Seq<char>| alias + "."@ + name),
                        rows,
                        source_aliases: seq![alias],
                        provenance,
                    },
                    budget,
                ),
            )
        }),
{
    let found = catalog.table(table)->0;
    let names = found.schema.columns.map_values(|column: ColumnDefView| column.name);
    assert(table_rows(found) =~= found.rows.map_values(|row: StoredRowView| row.values));
    assert(found.schema.column_names() =~= names);
    assert(scan_names(found, Some(alias)) =~= names.map_values(
        |name: Seq<char>| alias + "."@ + name,
    ));
    assert(Seq::new(found.rows.len(), |i: int| seq![Some(found.rows[i].rid)])
        =~= found.rows.map_values(|row: StoredRowView| seq![Some(row.rid)]));
}

/// A filter is traced to the rows on which its predicate is true, and a slice to the
/// rows that it answers, each with the stored rows behind it.
pub proof fn filters_and_slices_are_traced_to_what_they_keep(
    catalog: CatalogView,
    model: SessionModel,
    input: PlanView,
    predicate: ExprView,
    n: i64,
    budget: Budget,
)
    requires
        !holds_subquery(predicate),
        0 <= n <= usize::MAX,
        sourced(catalog, model, input, budget) is Ok,
    ensures
        ({
            let count = ExprView::Literal(LiteralView::Int(n));
            let plan = Box::new(input);
            let (got, left) = sourced(catalog, model, input, budget)->Ok_0;
            let all = positions_to(got.rows.len());
            &&& sourced_step(
                catalog,
                model,
                PlanView::Filter { input: plan, predicate },
                budget,
            ) matches Ok((kept, kept_left))
            &&& kept_left == left
            &&& traced_at(
                got,
                all.filter(
                    |p: int|
                        (model.scalars.eval)(predicate, got.rows[p], got.columns)
                            == ValueView::Bool(true),
                ),
                kept,
            )
            &&& sourced_step(
                catalog,
                model,
                PlanView::Limit { input: plan, count },
                budget,
            ) matches Ok((first, first_left))
            &&& first_left == left
            &&& traced_at(
                got,
                all.take(
                    if n < all.len() {
                        n as int
                    } else {
                        all.len() as int
                    },
                ),
                first,
            )
            &&& sourced_step(
                catalog,
                model,
                PlanView::Offset { input: plan, count },
                budget,
            ) matches Ok((rest, rest_left))
            &&& rest_left == left
            &&& traced_at(
                got,
                all.skip(
                    if n < all.len() {
                        n as int
                    } else {
                        all.len() as int
                    },
                ),
                rest,
            )
        }),
{
    let (got, _) = sourced(catalog, model, input, budget)->Ok_0;
    let all = positions_to(got.rows.len());
    let len = got.rows.len() as int;
    holding_positions(model.scalars.eval, predicate, got.rows, got.columns, 0);
    assert(all.skip(0) =~= all);
    let cut = if n < all.len() {
        n as int
    } else {
        all.len() as int
    };
    let kept = holding_from(model.scalars.eval, predicate, got.rows, got.columns, 0);
    assert(pick(got.rows, kept) =~= kept.map_values(|p: int| got.rows[p]));
    assert(pick(got.provenance, kept) =~= kept.map_values(|p: int| got.provenance[p]));
    let first = slice_positions(len, 0, n as int);
    assert(first =~= all.take(cut));
    assert(pick(got.rows, first) =~= first.map_values(|p: int| got.rows[p]));
    assert(pick(got.provenance, first) =~= first.map_values(|p: int| got.provenance[p]));
    let rest = slice_positions(len, n as int, len);
    assert(rest =~= all.skip(cut));
    assert(pick(got.rows, rest) =~= rest.map_values(|p: int| got.rows[p]));
    assert(pick(got.provenance, rest) =~= rest.map_values(|p: int| got.provenance[p]));
}

/// A projection is traced row by row: each row has the values of the fields on the
/// row of the input, and the same stored rows behind it.
pub proof fn projections_are_traced_row_by_row(
    catalog: CatalogView,
    model: SessionModel,
    input: PlanView,
    fields: Seq<ProjectFieldView>,
    budget: Budget,
)
    requires
        sourced(catalog, model, input, budget) is Ok,
    ensures
        ({
            let (got, left) = sourced(catalog, model, input, budget)->Ok_0;
            sourced_step(
                catalog,
                model,
                PlanView::Project { input: Box::new(input), fields },
                budget,
            ) == Ok::<(ProvenanceView, Budget), ErrorView>(
                (
                    ProvenanceView {
                        columns: fields.map_values(
                            |field: ProjectFieldView|
                                match field.alias {
                                    Some(alias) => alias,
                                    None => match referred_name(field.expr) {
                                        Some(name) => name,
                                        None => words(model.words, SubjectView::Name(field.expr)),
                                    },
                                },
                        ),
                        rows: got.rows.map_values(
                            |row: Seq<ValueView>|
                                fields.map_values(
                                    |field: ProjectFieldView|
                                        (model.scalars.eval)(field.expr, row, got.columns),
                                ),
                        ),
                        source_aliases: got.source_aliases,
                        provenance: got.provenance,
                    },
                    left,
                ),
            )
        }),
{
    let (got, _) = sourced(catalog, model, input, budget)->Ok_0;
    let eval = model.scalars.eval;
    assert(worded_names(model.words, fields) =~= fields.map_values(
        |field: ProjectFieldView|
            match field.alias {
                Some(alias) => alias,
                None => match referred_name(field.expr) {
                    Some(name) => name,
                    None => words(model.words, SubjectView::Name(field.expr)),
                },
            },
    ));
    let made = projection(eval, fields, got.rows, got.columns);
    let stated = got.rows.map_values(
        |row: Seq<ValueView>|
            fields.map_values(|field: ProjectFieldView| eval(field.expr, row, got.columns)),
    );
    assert forall|r: int| 0 <= r < made.len() implies #[trigger] made[r] == stated[r] by {
        assert(made[r] =~= stated[r]);
    }
    assert(made =~= stated);
}

/// Distinct rows are traced to their first appearances, a union to its left side and
/// then its right, or to the first appearances among both.
pub proof fn distinct_rows_are_traced_to_first_appearances(
    catalog: CatalogView,
    model: SessionModel,
    left: PlanView,
    right: PlanView,
    budget: Budget,
) -> (found: (Seq<int>, Seq<int>))
    requires
        sourced(catalog, model, left, budget) is Ok,
        sourced(catalog, model, right, sourced(catalog, model, left, budget)->Ok_0.1) is Ok,
    ensures
        ({
            let (alone, among) = found;
            let (first, rest) = sourced(catalog, model, left, budget)->Ok_0;
            let (second, remaining) = sourced(catalog, model, right, rest)->Ok_0;
            let both = ProvenanceView {
                columns: first.columns,
                rows: first.rows + second.rows,
                source_aliases: first.source_aliases,
                provenance: first.provenance + second.provenance,
            };
            let fits = first.columns.len() == second.columns.len() && first.source_aliases
                == second.source_aliases;
            let (l, r) = (Box::new(left), Box::new(right));
            &&& first_appearances(first.rows, alone)
            &&& sourced_step(catalog, model, PlanView::Distinct { input: l }, budget) matches Ok(
                (kept, kept_left),
            )
            &&& kept_left == rest && traced_at(first, alone, kept)
            &&& first_appearances(both.rows, among)
            &&& sourced_step(
                catalog,
                model,
                PlanView::Union { left: l, right: r, all: true },
                budget,
            ) matches Ok((all, all_left)) ==> fits && all == both && all_left == remaining
            &&& sourced_step(
                catalog,
                model,
                PlanView::Union { left: l, right: r, all: false },
                budget,
            ) matches Ok((each, each_left)) ==> fits && traced_at(both, among, each) && each_left
                == remaining
            &&& fits ==> sourced_step(
                catalog,
                model,
                PlanView::Union { left: l, right: r, all: true },
                budget,
            ) is Ok && sourced_step(
                catalog,
                model,
                PlanView::Union { left: l, right: r, all: false },
                budget,
            ) is Ok
        }),
{
    let (first, rest) = sourced(catalog, model, left, budget)->Ok_0;
    let (second, _) = sourced(catalog, model, right, rest)->Ok_0;
    let rows = first.rows + second.rows;
    let behind = first.provenance + second.provenance;
    fresh_rows_appear_first(first.rows, 0);
    fresh_rows_appear_first(rows, 0);
    let alone = fresh_from(first.rows, 0);
    let among = fresh_from(rows, 0);
    assert(pick(first.rows, alone) =~= alone.map_values(|p: int| first.rows[p]));
    assert(pick(first.provenance, alone) =~= alone.map_values(|p: int| first.provenance[p]));
    assert(pick(rows, among) =~= among.map_values(|p: int| rows[p]));
    assert(pick(behind, among) =~= among.map_values(|p: int| behind[p]));
    (alone, among)
}

/// A sort is traced to the rows of its input in the stable order of its keys, each
/// with the stored rows behind it.
pub proof fn sorts_are_traced_in_stable_order(
    catalog: CatalogView,
    model: SessionModel,
    input: PlanView,
    keys: Seq<SortKeyView>,
    budget: Budget,
) -> (positions: Seq<int>)
    requires
        total_order(model.scalars.order),
        sourced(catalog, model, input, budget) is Ok,
        sourced_step(
            catalog,
            model,
            PlanView::Sort { input: Box::new(input), keys },
            budget,
        ) is Ok,
    ensures
        ({
            let (got, _) = sourced(catalog, model, input, budget)->Ok_0;
            &&& in_stable_order(
                model.scalars.order,
                got.rows.map_values(
                    |row: Seq<ValueView>|
                        keys.map_values(
                            |key: SortKeyView| (model.scalars.eval)(key.expr, row, got.columns),
                        ),
                ),
                keys.map_values(|key: SortKeyView| Some(key.descending)),
                positions,
            )
            &&& sourced_step(
                catalog,
                model,
                PlanView::Sort { input: Box::new(input), keys },
                budget,
            ) matches Ok((sorted, _))
            &&& traced_at(got, positions, sorted)
        }),
{
    let (got, _) = sourced(catalog, model, input, budget)->Ok_0;
    let eval = model.scalars.eval;
    let read = keys_of(eval, order_exprs(keys), no_columns(keys.len()), got.rows, got.columns);
    let stated = got.rows.map_values(
        |row: Seq<ValueView>|
            keys.map_values(|key: SortKeyView| eval(key.expr, row, got.columns)),
    );
    assert forall|r: int| 0 <= r < read.len() implies #[trigger] read[r] == stated[r] by {
        assert(read[r] =~= stated[r]);
    }
    assert(read =~= stated);
    let directions = sort_directions(keys);
    assert(directions =~= keys.map_values(|key: SortKeyView| Some(key.descending)));
    sorting_is_stable(model.scalars.order, read, directions);
    let positions = ints(sorted_positions(model.scalars.order, read, directions));
    assert(pick(got.rows, positions) =~= positions.map_values(|p: int| got.rows[p]));
    assert(pick(got.provenance, positions) =~= positions.map_values(|p: int| got.provenance[p]));
    positions
}

} // verus!
