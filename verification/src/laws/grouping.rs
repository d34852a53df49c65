//! What a grouping answers of each group.

use vstd::prelude::*;

use crate::aggregate::{agg_label, aggregate_of, contributions, free_totals_agree, no_budget};
use crate::catalog::CatalogView;
use crate::error::{Budget, ErrorView, ResultView};
use crate::expr::{AggFunc, ExprView};
use crate::group::{
    agg_exprs, agg_sources, group_by_of, group_row, group_rows, key_columns, key_exprs, keys_of,
    pick, read_column, GroupAggView, GroupInput, GroupKeyView, GroupProvenanceView,
};
use crate::laws::filtering::predicates_keep_what_holds;
use crate::laws::naming::{
    is_named, key_value, names_stand_for_one, references_read_what_they_name, referred_name,
};
use crate::laws::reading::{first_appearances, fresh_rows_appear_first};
use crate::operators::{distinct_keeps_firsts, fresh_from};
use crate::plan::PlanView;
use crate::read::{answer, traces};
use crate::scalars::{EvalModel, ScalarModel};
use crate::seqs::{firsts, positions_are_positions, positions_of};
use crate::session::SessionModel;
use crate::value::ValueView;

verus! {

/// What a key or an argument reads on a row: the column that it refers to, or else
/// what it evaluates to; a star is no reference.
pub open spec fn grouped_value(
    eval: EvalModel,
    expr: ExprView,
    row: Seq<ValueView>,
    columns: Seq<Seq<char>>,
) -> ValueView {
    if expr == ExprView::Field("*"@) {
        eval(expr, row, columns)
    } else {
        key_value(eval, expr, row, columns)
    }
}

/// The values of several keys on a row.
pub open spec fn grouped_values(
    eval: EvalModel,
    exprs: Seq<ExprView>,
    row: Seq<ValueView>,
    columns: Seq<Seq<char>>,
) -> Seq<ValueView> {
    exprs.map_values(|expr: ExprView| grouped_value(eval, expr, row, columns))
}

/// The rows of a group: those on which the keys have these values, as they come.
pub open spec fn rows_of_group(
    eval: EvalModel,
    keys: Seq<ExprView>,
    rows: Seq<Seq<ValueView>>,
    columns: Seq<Seq<char>>,
    key: Seq<ValueView>,
) -> Seq<Seq<ValueView>> {
    rows.filter(|row: Seq<ValueView>| grouped_values(eval, keys, row, columns) == key)
}

/// A cell holds what an aggregate gives over the rows of a group: how many they
/// are, for a count of all of them, or what it comes to over the values of its
/// argument on them.
pub open spec fn aggregates_group(
    model: ScalarModel,
    aggregate: GroupAggView,
    group: Seq<Seq<ValueView>>,
    columns: Seq<Seq<char>>,
    cell: ValueView,
) -> bool {
    if aggregate.function == AggFunc::Count && aggregate.argument == ExprView::Field("*"@) {
        cell == ValueView::Int(group.len() as i64)
    } else {
        aggregate_of(
            model,
            aggregate.function,
            group.map_values(
                |row: Seq<ValueView>| grouped_value(model.eval, aggregate.argument, row, columns),
            ),
            None,
            no_budget(),
        ) matches Ok((value, _)) && value == cell
    }
}

/// The columns of keys are those that they refer to.
pub proof fn key_columns_are_named(exprs: Seq<ExprView>, columns: Seq<Seq<char>>)
    ensures
        key_columns(exprs, columns) matches Ok(ats) ==> ats.len() == exprs.len() && forall|k: int|
            0 <= k < ats.len() ==> (if exprs[k] == ExprView::Field("*"@) || referred_name(exprs[k])
                is None {
                #[trigger] ats[k] is None
            } else {
                ats[k] is Some && is_named(columns, referred_name(exprs[k])->0, ats[k]->0)
            }),
    decreases exprs.len(),
{
    if exprs.len() > 0 {
        key_columns_are_named(exprs.drop_last(), columns);
        match referred_name(exprs.last()) {
            Some(name) => references_read_what_they_name(name, columns),
            None => {},
        }
        match (key_columns(exprs, columns), key_columns(exprs.drop_last(), columns)) {
            (Ok(all), Ok(before)) => {
                assert forall|k: int| 0 <= k < all.len() implies (if exprs[k] == ExprView::Field(
                    "*"@,
                ) || referred_name(exprs[k]) is None {
                    #[trigger] all[k] is None
                } else {
                    all[k] is Some && is_named(columns, referred_name(exprs[k])->0, all[k]->0)
                }) by {
                    if k < before.len() {
                        assert(all[k] == before[k]);
                        assert(exprs.drop_last()[k] == exprs[k]);
                    }
                }
            },
            _ => {},
        }
    }
}

/// What is read at the columns of keys is what the keys read.
pub proof fn keys_read_what_they_name(
    eval: EvalModel,
    exprs: Seq<ExprView>,
    ats: Seq<Option<int>>,
    rows: Seq<Seq<ValueView>>,
    columns: Seq<Seq<char>>,
)
    requires
        key_columns(exprs, columns) == Ok::<Seq<Option<int>>, ErrorView>(ats),
    ensures
        keys_of(eval, exprs, ats, rows, columns) == rows.map_values(
            |row: Seq<ValueView>| grouped_values(eval, exprs, row, columns),
        ),
        forall|k: int|
            0 <= k < exprs.len() ==> #[trigger] read_column(eval, exprs[k], ats[k], rows, columns)
                == rows.map_values(
                |row: Seq<ValueView>| grouped_value(eval, exprs[k], row, columns),
            ),
{
    key_columns_are_named(exprs, columns);
    let read = keys_of(eval, exprs, ats, rows, columns);
    let stated = rows.map_values(|row: Seq<ValueView>| grouped_values(eval, exprs, row, columns));
    assert forall|r: int| 0 <= r < rows.len() implies #[trigger] read[r] == stated[r] by {
        assert forall|k: int| 0 <= k < exprs.len() implies #[trigger] read[r][k]
            == stated[r][k] by {
            one_key_reads(eval, exprs, ats, rows[r], columns, k);
        }
        assert(read[r] =~= stated[r]);
    }
    assert(read =~= stated);
    assert forall|k: int| 0 <= k < exprs.len() implies #[trigger] read_column(
        eval,
        exprs[k],
        ats[k],
        rows,
        columns,
    ) == rows.map_values(|row: Seq<ValueView>| grouped_value(eval, exprs[k], row, columns)) by {
        let one = read_column(eval, exprs[k], ats[k], rows, columns);
        let told = rows.map_values(
            |row: Seq<ValueView>| grouped_value(eval, exprs[k], row, columns),
        );
        assert forall|r: int| 0 <= r < rows.len() implies #[trigger] one[r] == told[r] by {
            one_key_reads(eval, exprs, ats, rows[r], columns, k);
        }
        assert(one =~= told);
    }
}

proof fn one_key_reads(
    eval: EvalModel,
    exprs: Seq<ExprView>,
    ats: Seq<Option<int>>,
    row: Seq<ValueView>,
    columns: Seq<Seq<char>>,
    k: int,
)
    requires
        key_columns(exprs, columns) == Ok::<Seq<Option<int>>, ErrorView>(ats),
        0 <= k < exprs.len(),
    ensures
        crate::group::read_value(eval, exprs[k], ats[k], row, columns) == grouped_value(
            eval,
            exprs[k],
            row,
            columns,
        ),
{
    key_columns_are_named(exprs, columns);
    if ats[k] is Some {
        names_stand_for_one(columns, referred_name(exprs[k])->0, ats[k]->0);
    }
}

proof fn positions_lead_to_group(
    rows: Seq<Seq<ValueView>>,
    key_of_row: spec_fn(Seq<ValueView>) -> Seq<ValueView>,
    key: Seq<ValueView>,
)
    ensures
        positions_of(rows.map_values(key_of_row), key).map_values(|p: int| rows[p]) == rows.filter(
            |row: Seq<ValueView>| key_of_row(row) == key,
        ),
    decreases rows.len(),
{
    reveal(Seq::filter);
    let test = |row: Seq<ValueView>| key_of_row(row) == key;
    let keys = rows.map_values(key_of_row);
    let at = positions_of(keys, key);
    if rows.len() > 0 {
        let less = rows.drop_last();
        positions_lead_to_group(less, key_of_row, key);
        assert(keys.drop_last() =~= less.map_values(key_of_row));
        let before = positions_of(keys.drop_last(), key);
        positions_are_positions(keys.drop_last(), key);
        assert(before.map_values(|p: int| less[p]) =~= before.map_values(|p: int| rows[p]));
        assert(keys.last() == key_of_row(rows.last()));
        if keys.last() == key {
            assert(at.map_values(|p: int| rows[p]) =~= before.map_values(|p: int| rows[p]).push(
                rows.last(),
            ));
        }
    } else {
        assert(at.map_values(|p: int| rows[p]) =~= Seq::empty());
    }
}

proof fn no_sources(aggregates: Seq<GroupAggView>)
    requires
        forall|a: int|
            0 <= a < aggregates.len() ==> (#[trigger] aggregates[a]).provenance_alias is None,
    ensures
        agg_sources(aggregates, None) matches Ok(sources) && sources.len() == aggregates.len()
            && forall|a: int| 0 <= a < sources.len() ==> #[trigger] sources[a] is None,
    decreases aggregates.len(),
{
    if aggregates.len() > 0 {
        let less = aggregates.drop_last();
        assert forall|a: int| 0 <= a < less.len() implies (
        #[trigger] less[a]).provenance_alias is None by {
            assert(less[a] == aggregates[a]);
        }
        no_sources(less);
        assert(aggregates.last() == aggregates[aggregates.len() - 1]);
    }
}

proof fn aggregates_take_no_budget(
    model: ScalarModel,
    func: AggFunc,
    values: Seq<ValueView>,
    budget: Budget,
)
    ensures
        match (
            aggregate_of(model, func, values, None, budget),
            aggregate_of(model, func, values, None, no_budget()),
        ) {
            (Ok((value, left)), Ok((other, _))) => value == other && left == budget,
            (Err(error), Err(other)) => error == other,
            _ => false,
        },
{
    let taken = contributions(values, None, values.len() as int);
    let label = agg_label(func);
    free_totals_agree(model.float, label, true, taken, budget, no_budget());
    free_totals_agree(model.float, label, false, taken, budget, no_budget());
}

proof fn group_row_holds(
    model: ScalarModel,
    input: GroupInput,
    keys: Seq<ExprView>,
    key: Seq<ValueView>,
    members: Seq<int>,
    n: int,
    budget: Budget,
)
    requires
        0 <= n <= input.aggregates.len(),
        input.agg_sources.len() == input.aggregates.len(),
        forall|a: int|
            0 <= a < input.agg_sources.len() ==> #[trigger] input.agg_sources[a] is None,
        key_columns(agg_exprs(input.aggregates), input.columns) == Ok::<
            Seq<Option<int>>,
            ErrorView,
        >(input.agg_columns),
        forall|i: int| 0 <= i < members.len() ==> 0 <= #[trigger] members[i] < input.rows.len(),
        members.map_values(|p: int| input.rows[p]) == rows_of_group(
            model.eval,
            keys,
            input.rows,
            input.columns,
            key,
        ),
    ensures
        group_row(model, input, key, members, n, budget) matches Ok((row, left)) ==> {
            &&& left == budget
            &&& row.len() == key.len() + n
            &&& row.take(key.len() as int) == key
            &&& forall|a: int|
                0 <= a < n ==> aggregates_group(
                    model,
                    #[trigger] input.aggregates[a],
                    rows_of_group(model.eval, keys, input.rows, input.columns, key),
                    input.columns,
                    row[key.len() + a],
                )
        },
    decreases n,
{
    let group = rows_of_group(model.eval, keys, input.rows, input.columns, key);
    if n > 0 {
        group_row_holds(model, input, keys, key, members, n - 1, budget);
        match (
            group_row(model, input, key, members, n, budget),
            group_row(model, input, key, members, n - 1, budget),
        ) {
            (Ok((row, left)), Ok((before, held))) => {
                let agg = input.aggregates[n - 1];
                let exprs = agg_exprs(input.aggregates);
                assert(exprs[n - 1] == agg.argument);
                assert(input.agg_sources[n - 1] is None);
                keys_read_what_they_name(
                    model.eval,
                    exprs,
                    input.agg_columns,
                    input.rows,
                    input.columns,
                );
                let column = read_column(
                    model.eval,
                    exprs[n - 1],
                    input.agg_columns[n - 1],
                    input.rows,
                    input.columns,
                );
                let values = group.map_values(
                    |row: Seq<ValueView>|
                        grouped_value(model.eval, agg.argument, row, input.columns),
                );
                assert forall|i: int| 0 <= i < members.len() implies pick(column, members)[i]
                    == #[trigger] values[i] by {
                    assert(group[i] == input.rows[members[i]]);
                }
                assert(members.len() == group.len());
                assert(pick(column, members) =~= values);
                aggregates_take_no_budget(model, agg.function, values, held);
                assert(row.take(key.len() as int) =~= before.take(key.len() as int));
                assert forall|a: int| 0 <= a < n implies aggregates_group(
                    model,
                    #[trigger] input.aggregates[a],
                    group,
                    input.columns,
                    row[key.len() + a],
                ) by {
                    if a < n - 1 {
                        assert(row[key.len() + a] == before[key.len() + a]);
                    }
                }
            },
            _ => {},
        }
    } else {
        assert(key.take(key.len() as int) =~= key);
    }
}

proof fn group_rows_hold(
    model: ScalarModel,
    input: GroupInput,
    keys: Seq<ExprView>,
    row_keys: Seq<Seq<ValueView>>,
    n: int,
    budget: Budget,
)
    requires
        0 <= n <= firsts(row_keys).len(),
        input.agg_sources.len() == input.aggregates.len(),
        forall|a: int|
            0 <= a < input.agg_sources.len() ==> #[trigger] input.agg_sources[a] is None,
        key_columns(agg_exprs(input.aggregates), input.columns) == Ok::<
            Seq<Option<int>>,
            ErrorView,
        >(input.agg_columns),
        row_keys == input.rows.map_values(
            |row: Seq<ValueView>| grouped_values(model.eval, keys, row, input.columns),
        ),
    ensures
        group_rows(model, input, row_keys, n, budget) matches Ok((rows, left)) ==> {
            &&& left == budget
            &&& rows.len() == n
            &&& forall|g: int|
                0 <= g < n ==> holds_group(
                    model,
                    input.columns,
                    input.rows,
                    keys,
                    input.aggregates,
                    firsts(row_keys)[g],
                    #[trigger] rows[g],
                )
        },
    decreases n,
{
    if n > 0 {
        group_rows_hold(model, input, keys, row_keys, n - 1, budget);
        match (
            group_rows(model, input, row_keys, n, budget),
            group_rows(model, input, row_keys, n - 1, budget),
        ) {
            (Ok((rows, left)), Ok((before, held))) => {
                let key = firsts(row_keys)[n - 1];
                let members = positions_of(row_keys, key);
                positions_are_positions(row_keys, key);
                positions_lead_to_group(
                    input.rows,
                    |row: Seq<ValueView>| grouped_values(model.eval, keys, row, input.columns),
                    key,
                );
                let stated = |row: Seq<ValueView>|
                    grouped_values(model.eval, keys, row, input.columns) == key;
                crate::laws::filtering::filters_agree(
                    input.rows,
                    |row: Seq<ValueView>|
                        (|row: Seq<ValueView>|
                            grouped_values(model.eval, keys, row, input.columns))(row) == key,
                    stated,
                );
                group_row_holds(
                    model,
                    input,
                    keys,
                    key,
                    members,
                    input.aggregates.len() as int,
                    held,
                );
                assert forall|g: int| 0 <= g < n implies holds_group(
                    model,
                    input.columns,
                    input.rows,
                    keys,
                    input.aggregates,
                    firsts(row_keys)[g],
                    #[trigger] rows[g],
                ) by {
                    if g < n - 1 {
                        assert(rows[g] == before[g]);
                    }
                }
            },
            _ => {},
        }
    }
}

/// A row of a grouping: the key of its group, and then what each aggregate gives
/// over the rows of the group.
pub open spec fn holds_group(
    model: ScalarModel,
    columns: Seq<Seq<char>>,
    rows: Seq<Seq<ValueView>>,
    keys: Seq<ExprView>,
    aggregates: Seq<GroupAggView>,
    key: Seq<ValueView>,
    row: Seq<ValueView>,
) -> bool {
    let group = rows_of_group(model.eval, keys, rows, columns, key);
    &&& row.len() == key.len() + aggregates.len()
    &&& row.take(key.len() as int) == key
    &&& forall|a: int|
        0 <= a < aggregates.len() ==> aggregates_group(
            model,
            #[trigger] aggregates[a],
            group,
            columns,
            row[key.len() + a],
        )
}

/// A grouping answers one row for each key that the rows of its input have, in the
/// order in which the keys first appear: the key, and what each aggregate gives
/// over all the rows of that key and no other. It is kept where `having` is true
/// of it.
pub proof fn groupings_answer_each_key_once(
    model: ScalarModel,
    columns: Seq<Seq<char>>,
    rows: Seq<Seq<ValueView>>,
    keys: Seq<GroupKeyView>,
    aggregates: Seq<GroupAggView>,
    having: Option<ExprView>,
    budget: Budget,
) -> (positions: Seq<int>)
    requires
        forall|a: int|
            0 <= a < aggregates.len() ==> (#[trigger] aggregates[a]).provenance_alias is None,
        group_by_of(model, columns, rows, None, keys, aggregates, None, budget) is Ok,
    ensures
        ({
            let exprs = keys.map_values(|key: GroupKeyView| key.expr);
            let row_keys = rows.map_values(
                |row: Seq<ValueView>| grouped_values(model.eval, exprs, row, columns),
            );
            &&& first_appearances(row_keys, positions)
            &&& group_by_of(model, columns, rows, None, keys, aggregates, None, budget) matches Ok(
                (ResultView::Rows { columns: names, rows: groups }, left),
            )
            &&& left == budget
            &&& names == keys.map_values(|key: GroupKeyView| key.output_name)
                + aggregates.map_values(|agg: GroupAggView| agg.output_name)
            &&& groups.len() == positions.len()
            &&& forall|g: int|
                0 <= g < groups.len() ==> holds_group(
                    model,
                    columns,
                    rows,
                    exprs,
                    aggregates,
                    row_keys[positions[g]],
                    #[trigger] groups[g],
                )
            &&& group_by_of(model, columns, rows, None, keys, aggregates, having, budget) == Ok::<
                (ResultView, Budget),
                ErrorView,
            >(
                (
                    ResultView::Rows {
                        columns: names,
                        rows: groups.filter(
                            |row: Seq<ValueView>|
                                having matches Some(condition) ==> (model.eval)(
                                    condition,
                                    row,
                                    names,
                                ) == ValueView::Bool(true),
                        ),
                    },
                    left,
                ),
            )
        }),
{
    let exprs = key_exprs(keys);
    assert(exprs =~= keys.map_values(|key: GroupKeyView| key.expr));
    let key_ats = key_columns(exprs, columns)->Ok_0;
    let agg_ats = key_columns(agg_exprs(aggregates), columns)->Ok_0;
    no_sources(aggregates);
    let input = GroupInput {
        columns,
        rows,
        aggregates,
        agg_columns: agg_ats,
        agg_sources: agg_sources(aggregates, None)->Ok_0,
        provenance: None,
    };
    keys_read_what_they_name(model.eval, exprs, key_ats, rows, columns);
    let row_keys = keys_of(model.eval, exprs, key_ats, rows, columns);
    group_rows_hold(model, input, exprs, row_keys, firsts(row_keys).len() as int, budget);
    distinct_keeps_firsts(row_keys);
    fresh_rows_appear_first(row_keys, 0);
    let positions = fresh_from(row_keys, 0);
    let names = crate::group::group_columns(keys, aggregates);
    assert(names =~= keys.map_values(|key: GroupKeyView| key.output_name) + aggregates.map_values(
        |agg: GroupAggView| agg.output_name,
    ));
    let groups = group_rows(
        model,
        input,
        row_keys,
        firsts(row_keys).len() as int,
        budget,
    )->Ok_0.0;
    assert forall|g: int| 0 <= g < groups.len() implies holds_group(
        model,
        columns,
        rows,
        exprs,
        aggregates,
        row_keys[positions[g]],
        #[trigger] groups[g],
    ) by {
        assert(pick(row_keys, positions)[g] == firsts(row_keys)[g]);
    }
    let test = |row: Seq<ValueView>|
        having matches Some(condition) ==> (model.eval)(condition, row, names) == ValueView::Bool(
            true,
        );
    match having {
        Some(condition) => {
            predicates_keep_what_holds(model.eval, condition, groups, names);
            crate::laws::filtering::filters_agree(
                groups,
                |row: Seq<ValueView>|
                    (model.eval)(condition, row, names) == ValueView::Bool(true),
                test,
            );
        },
        None => filter_of_all(groups, test),
    }
    positions
}

/// A test that everything passes keeps everything.
pub proof fn filter_of_all<A>(s: Seq<A>, test: spec_fn(A) -> bool)
    requires
        forall|i: int| 0 <= i < s.len() ==> test(#[trigger] s[i]),
    ensures
        s.filter(test) == s,
    decreases s.len(),
{
    reveal(Seq::filter);
    if s.len() > 0 {
        let less = s.drop_last();
        assert forall|i: int| 0 <= i < less.len() implies test(#[trigger] less[i]) by {
            assert(less[i] == s[i]);
        }
        filter_of_all(less, test);
        assert(test(s[s.len() - 1]));
        assert(less.push(s.last()) =~= s);
    }
}

proof fn nothing_is_traced(aggregates: Seq<GroupAggView>, i: int)
    requires
        0 <= i,
        forall|a: int|
            0 <= a < aggregates.len() ==> (#[trigger] aggregates[a]).provenance_alias is None,
    ensures
        !traces(aggregates, i),
    decreases aggregates.len() - i,
{
    if i < aggregates.len() {
        assert(aggregates[i].provenance_alias is None);
        nothing_is_traced(aggregates, i + 1);
    }
}

/// A plan that groups what another answers answers what the grouping of those rows
/// does.
pub proof fn group_plans_group_their_input(
    catalog: CatalogView,
    model: SessionModel,
    input: PlanView,
    keys: Seq<GroupKeyView>,
    aggregates: Seq<GroupAggView>,
    having: Option<ExprView>,
    budget: Budget,
)
    requires
        forall|a: int|
            0 <= a < aggregates.len() ==> (#[trigger] aggregates[a]).provenance_alias is None,
        answer(catalog, model, input, budget) matches Ok((result, _)) && result is Rows,
        answer(
            catalog,
            model,
            PlanView::GroupBy { input: Box::new(input), keys, aggregates, having },
            budget,
        ) is Ok,
    ensures
        ({
            &&& answer(catalog, model, input, budget) matches Ok(
                (ResultView::Rows { columns, rows }, _),
            )
            &&& answer(
                catalog,
                model,
                PlanView::GroupBy { input: Box::new(input), keys, aggregates, having },
                budget,
            ) matches Ok((grouped, _))
            &&& group_by_of(
                model.scalars,
                columns,
                rows,
                None,
                keys,
                aggregates,
                having,
                no_budget(),
            ) matches Ok((result, _))
            &&& grouped == result
        }),
{
    nothing_is_traced(aggregates, 0);
}

/// The positions of the rows of a group, as they come.
pub open spec fn positions_of_group(
    eval: EvalModel,
    keys: Seq<ExprView>,
    rows: Seq<Seq<ValueView>>,
    columns: Seq<Seq<char>>,
    key: Seq<ValueView>,
) -> Seq<int> {
    Seq::new(rows.len(), |i: int| i).filter(
        |p: int| grouped_values(eval, keys, rows[p], columns) == key,
    )
}

/// The source under a name.
pub open spec fn source_named(provenance: GroupProvenanceView, name: Seq<char>) -> int {
    choose|s: int|
        0 <= s < provenance.source_aliases.len() && #[trigger] provenance.source_aliases[s] == name
}

/// A cell holds what an aggregate gives over the rows at some positions. One that
/// names a source takes the stored rows of that source behind them along.
pub open spec fn aggregates_traced(
    model: ScalarModel,
    aggregate: GroupAggView,
    rows: Seq<Seq<ValueView>>,
    columns: Seq<Seq<char>>,
    provenance: GroupProvenanceView,
    positions: Seq<int>,
    budget: Budget,
    cell: ValueView,
) -> bool {
    if aggregate.function == AggFunc::Count && aggregate.argument == ExprView::Field("*"@) {
        cell == ValueView::Int(positions.len() as i64)
    } else {
        aggregate_of(
            model,
            aggregate.function,
            positions.map_values(
                |p: int| grouped_value(model.eval, aggregate.argument, rows[p], columns),
            ),
            match aggregate.provenance_alias {
                None => None,
                Some(name) => Some(
                    positions.map_values(
                        |p: int| provenance.rows[p][source_named(provenance, name)],
                    ),
                ),
            },
            budget,
        ) matches Ok((value, _)) && value == cell
    }
}

/// A cell holds what an aggregate gives over the rows at some positions, out of some
/// budget.
pub open spec fn comes_to(
    model: ScalarModel,
    aggregate: GroupAggView,
    rows: Seq<Seq<ValueView>>,
    columns: Seq<Seq<char>>,
    provenance: GroupProvenanceView,
    positions: Seq<int>,
    cell: ValueView,
) -> bool {
    exists|budget: Budget| #[trigger]
        aggregates_traced(
            model,
            aggregate,
            rows,
            columns,
            provenance,
            positions,
            budget,
            cell,
        )
}

/// A row of a grouping with the stored rows behind it: the key of its group, and
/// then what each aggregate gives over the rows of the group.
pub open spec fn holds_traced_group(
    model: ScalarModel,
    columns: Seq<Seq<char>>,
    rows: Seq<Seq<ValueView>>,
    provenance: GroupProvenanceView,
    keys: Seq<ExprView>,
    aggregates: Seq<GroupAggView>,
    key: Seq<ValueView>,
    row: Seq<ValueView>,
) -> bool {
    &&& row.len() == key.len() + aggregates.len()
    &&& row.take(key.len() as int) == key
    &&& forall|a: int|
        0 <= a < aggregates.len() ==> comes_to(
            model,
            #[trigger] aggregates[a],
            rows,
            columns,
            provenance,
            positions_of_group(model.eval, keys, rows, columns, key),
            row[key.len() + a],
        )
}

proof fn positions_are_filtered(
    rows: Seq<Seq<ValueView>>,
    key_of_row: spec_fn(Seq<ValueView>) -> Seq<ValueView>,
    key: Seq<ValueView>,
)
    ensures
        positions_of(rows.map_values(key_of_row), key) == Seq::new(rows.len(), |i: int| i).filter(
            |p: int| key_of_row(rows[p]) == key,
        ),
    decreases rows.len(),
{
    reveal(Seq::filter);
    let keys = rows.map_values(key_of_row);
    let all = Seq::new(rows.len(), |i: int| i);
    let test = |p: int| key_of_row(rows[p]) == key;
    if rows.len() > 0 {
        let less = rows.drop_last();
        let fewer = Seq::new(less.len(), |i: int| i);
        let other = |p: int| key_of_row(less[p]) == key;
        positions_are_filtered(less, key_of_row, key);
        assert(keys.drop_last() =~= less.map_values(key_of_row));
        assert(all.drop_last() =~= fewer);
        assert forall|i: int| 0 <= i < fewer.len() implies other(#[trigger] fewer[i]) == test(
            fewer[i],
        ) by {
            assert(less[i] == rows[i]);
        }
        crate::laws::filtering::filters_agree(fewer, other, test);
        assert(all.last() == rows.len() - 1);
        assert(keys.last() == key_of_row(rows[rows.len() - 1]));
    } else {
        assert(all.filter(test) =~= Seq::empty());
    }
}

proof fn sources_are_named(aggregates: Seq<GroupAggView>, provenance: GroupProvenanceView)
    requires
        provenance.source_aliases.no_duplicates(),
    ensures
        agg_sources(aggregates, Some(provenance)) matches Ok(sources) ==> sources.len()
            == aggregates.len() && forall|a: int|
            0 <= a < sources.len() ==> (#[trigger] sources[a]) == (
            match aggregates[a].provenance_alias {
                None => None,
                Some(name) => Some(source_named(provenance, name)),
            }),
    decreases aggregates.len(),
{
    if aggregates.len() > 0 {
        let less = aggregates.drop_last();
        sources_are_named(less, provenance);
        match aggregates.last().provenance_alias {
            Some(name) => {
                let names = provenance.source_aliases;
                crate::seqs::first_where_found(names, crate::seqs::is_name(name));
                match crate::seqs::name_position(names, name) {
                    Some(s) => {
                        assert(names[s] == name);
                        assert(names[source_named(provenance, name)] == name);
                    },
                    None => {},
                }
            },
            None => {},
        }
        match (
            agg_sources(aggregates, Some(provenance)),
            agg_sources(less, Some(provenance)),
        ) {
            (Ok(all), Ok(before)) => {
                assert forall|a: int| 0 <= a < all.len() implies (#[trigger] all[a]) == (
                match aggregates[a].provenance_alias {
                    None => None,
                    Some(name) => Some(source_named(provenance, name)),
                }) by {
                    if a < before.len() {
                        assert(all[a] == before[a]);
                        assert(less[a] == aggregates[a]);
                    }
                }
            },
            _ => {},
        }
    }
}

proof fn traced_row_holds(
    model: ScalarModel,
    input: GroupInput,
    provenance: GroupProvenanceView,
    key: Seq<ValueView>,
    members: Seq<int>,
    n: int,
    budget: Budget,
)
    requires
        0 <= n <= input.aggregates.len(),
        input.provenance == Some(provenance),
        provenance.source_aliases.no_duplicates(),
        provenance.rows.len() == input.rows.len(),
        agg_sources(input.aggregates, Some(provenance)) == Ok::<Seq<Option<int>>, ErrorView>(
            input.agg_sources,
        ),
        key_columns(agg_exprs(input.aggregates), input.columns) == Ok::<
            Seq<Option<int>>,
            ErrorView,
        >(input.agg_columns),
        forall|i: int| 0 <= i < members.len() ==> 0 <= #[trigger] members[i] < input.rows.len(),
    ensures
        group_row(model, input, key, members, n, budget) matches Ok((row, _)) ==> {
            &&& row.len() == key.len() + n
            &&& row.take(key.len() as int) == key
            &&& forall|a: int|
                0 <= a < n ==> comes_to(
                    model,
                    #[trigger] input.aggregates[a],
                    input.rows,
                    input.columns,
                    provenance,
                    members,
                    row[key.len() + a],
                )
        },
    decreases n,
{
    if n > 0 {
        traced_row_holds(model, input, provenance, key, members, n - 1, budget);
        sources_are_named(input.aggregates, provenance);
        match (
            group_row(model, input, key, members, n, budget),
            group_row(model, input, key, members, n - 1, budget),
        ) {
            (Ok((row, _)), Ok((before, held))) => {
                let agg = input.aggregates[n - 1];
                let exprs = agg_exprs(input.aggregates);
                assert(exprs[n - 1] == agg.argument);
                key_columns_are_named(exprs, input.columns);
                keys_read_what_they_name(
                    model.eval,
                    exprs,
                    input.agg_columns,
                    input.rows,
                    input.columns,
                );
                let column = read_column(
                    model.eval,
                    exprs[n - 1],
                    input.agg_columns[n - 1],
                    input.rows,
                    input.columns,
                );
                assert(pick(column, members) =~= members.map_values(
                    |p: int| grouped_value(model.eval, agg.argument, input.rows[p], input.columns),
                ));
                match agg.provenance_alias {
                    Some(name) => {
                        let s = source_named(provenance, name);
                        assert(input.agg_sources[n - 1] == Some(s));
                        assert(pick(crate::group::source_column(provenance, s), members)
                            =~= members.map_values(|p: int| provenance.rows[p][s]));
                    },
                    None => {
                        assert(input.agg_sources[n - 1] is None);
                    },
                }
                assert(aggregates_traced(
                    model,
                    agg,
                    input.rows,
                    input.columns,
                    provenance,
                    members,
                    held,
                    row[key.len() + (n - 1)],
                ));
                assert(row.take(key.len() as int) =~= before.take(key.len() as int));
                assert forall|a: int| 0 <= a < n implies comes_to(
                    model,
                    #[trigger] input.aggregates[a],
                    input.rows,
                    input.columns,
                    provenance,
                    members,
                    row[key.len() + a],
                ) by {
                    if a < n - 1 {
                        assert(row[key.len() + a] == before[key.len() + a]);
                    }
                }
            },
            _ => {},
        }
    } else {
        assert(key.take(key.len() as int) =~= key);
    }
}

proof fn traced_rows_hold(
    model: ScalarModel,
    input: GroupInput,
    provenance: GroupProvenanceView,
    keys: Seq<ExprView>,
    row_keys: Seq<Seq<ValueView>>,
    n: int,
    budget: Budget,
)
    requires
        0 <= n <= firsts(row_keys).len(),
        input.provenance == Some(provenance),
        provenance.source_aliases.no_duplicates(),
        provenance.rows.len() == input.rows.len(),
        agg_sources(input.aggregates, Some(provenance)) == Ok::<Seq<Option<int>>, ErrorView>(
            input.agg_sources,
        ),
        key_columns(agg_exprs(input.aggregates), input.columns) == Ok::<
            Seq<Option<int>>,
            ErrorView,
        >(input.agg_columns),
        row_keys == input.rows.map_values(
            |row: Seq<ValueView>| grouped_values(model.eval, keys, row, input.columns),
        ),
    ensures
        group_rows(model, input, row_keys, n, budget) matches Ok((rows, _)) ==> {
            &&& rows.len() == n
            &&& forall|g: int|
                0 <= g < n ==> holds_traced_group(
                    model,
                    input.columns,
                    input.rows,
                    provenance,
                    keys,
                    input.aggregates,
                    firsts(row_keys)[g],
                    #[trigger] rows[g],
                )
        },
    decreases n,
{
    if n > 0 {
        traced_rows_hold(model, input, provenance, keys, row_keys, n - 1, budget);
        match (
            group_rows(model, input, row_keys, n, budget),
            group_rows(model, input, row_keys, n - 1, budget),
        ) {
            (Ok((rows, _)), Ok((before, held))) => {
                let key = firsts(row_keys)[n - 1];
                let members = positions_of(row_keys, key);
                positions_are_positions(row_keys, key);
                let of_row = |row: Seq<ValueView>|
                    grouped_values(model.eval, keys, row, input.columns);
                positions_are_filtered(input.rows, of_row, key);
                crate::laws::filtering::filters_agree(
                    Seq::new(input.rows.len(), |i: int| i),
                    |p: int| of_row(input.rows[p]) == key,
                    |p: int|
                        grouped_values(model.eval, keys, input.rows[p], input.columns) == key,
                );
                assert(members == positions_of_group(
                    model.eval,
                    keys,
                    input.rows,
                    input.columns,
                    key,
                ));
                traced_row_holds(
                    model,
                    input,
                    provenance,
                    key,
                    members,
                    input.aggregates.len() as int,
                    held,
                );
                assert forall|g: int| 0 <= g < n implies holds_traced_group(
                    model,
                    input.columns,
                    input.rows,
                    provenance,
                    keys,
                    input.aggregates,
                    firsts(row_keys)[g],
                    #[trigger] rows[g],
                ) by {
                    if g < n - 1 {
                        assert(rows[g] == before[g]);
                    }
                }
            },
            _ => {},
        }
    }
}

/// A grouping with the stored rows behind its input answers one row for each key, in
/// the order in which the keys first appear; an aggregate that names a source takes
/// along, for each row of the group, the stored row of that source behind it. What
/// `having` is true of is kept.
#[verifier::rlimit(50)]
pub proof fn traced_groupings_answer_each_key_once(
    model: ScalarModel,
    columns: Seq<Seq<char>>,
    rows: Seq<Seq<ValueView>>,
    provenance: GroupProvenanceView,
    keys: Seq<GroupKeyView>,
    aggregates: Seq<GroupAggView>,
    having: Option<ExprView>,
    budget: Budget,
) -> (positions: Seq<int>)
    requires
        provenance.source_aliases.no_duplicates(),
        provenance.rows.len() == rows.len(),
        group_by_of(
            model,
            columns,
            rows,
            Some(provenance),
            keys,
            aggregates,
            None,
            budget,
        ) is Ok,
    ensures
        ({
            let exprs = keys.map_values(|key: GroupKeyView| key.expr);
            let row_keys = rows.map_values(
                |row: Seq<ValueView>| grouped_values(model.eval, exprs, row, columns),
            );
            &&& first_appearances(row_keys, positions)
            &&& group_by_of(
                model,
                columns,
                rows,
                Some(provenance),
                keys,
                aggregates,
                None,
                budget,
            ) matches Ok((ResultView::Rows { columns: names, rows: groups }, left))
            &&& names == keys.map_values(|key: GroupKeyView| key.output_name)
                + aggregates.map_values(|agg: GroupAggView| agg.output_name)
            &&& groups.len() == positions.len()
            &&& forall|g: int|
                0 <= g < groups.len() ==> holds_traced_group(
                    model,
                    columns,
                    rows,
                    provenance,
                    exprs,
                    aggregates,
                    row_keys[positions[g]],
                    #[trigger] groups[g],
                )
            &&& group_by_of(
                model,
                columns,
                rows,
                Some(provenance),
                keys,
                aggregates,
                having,
                budget,
            ) == Ok::<(ResultView, Budget), ErrorView>(
                (
                    ResultView::Rows {
                        columns: names,
                        rows: groups.filter(
                            |row: Seq<ValueView>|
                                having matches Some(condition) ==> (model.eval)(
                                    condition,
                                    row,
                                    names,
                                ) == ValueView::Bool(true),
                        ),
                    },
                    left,
                ),
            )
        }),
{
    let exprs = key_exprs(keys);
    assert(exprs =~= keys.map_values(|key: GroupKeyView| key.expr));
    let key_ats = key_columns(exprs, columns)->Ok_0;
    let agg_ats = key_columns(agg_exprs(aggregates), columns)->Ok_0;
    let input = GroupInput {
        columns,
        rows,
        aggregates,
        agg_columns: agg_ats,
        agg_sources: agg_sources(aggregates, Some(provenance))->Ok_0,
        provenance: Some(provenance),
    };
    keys_read_what_they_name(model.eval, exprs, key_ats, rows, columns);
    let row_keys = keys_of(model.eval, exprs, key_ats, rows, columns);
    let count = firsts(row_keys).len() as int;
    traced_rows_hold(model, input, provenance, exprs, row_keys, count, budget);
    distinct_keeps_firsts(row_keys);
    fresh_rows_appear_first(row_keys, 0);
    let positions = fresh_from(row_keys, 0);
    let names = crate::group::group_columns(keys, aggregates);
    assert(names =~= keys.map_values(|key: GroupKeyView| key.output_name) + aggregates.map_values(
        |agg: GroupAggView| agg.output_name,
    ));
    let groups = group_rows(model, input, row_keys, count, budget)->Ok_0.0;
    assert forall|g: int| 0 <= g < groups.len() implies holds_traced_group(
        model,
        columns,
        rows,
        provenance,
        exprs,
        aggregates,
        row_keys[positions[g]],
        #[trigger] groups[g],
    ) by {
        assert(pick(row_keys, positions)[g] == firsts(row_keys)[g]);
    }
    let test = |row: Seq<ValueView>|
        having matches Some(condition) ==> (model.eval)(condition, row, names) == ValueView::Bool(
            true,
        );
    match having {
        Some(condition) => {
            predicates_keep_what_holds(model.eval, condition, groups, names);
            crate::laws::filtering::filters_agree(
                groups,
                |row: Seq<ValueView>|
                    (model.eval)(condition, row, names) == ValueView::Bool(true),
                test,
            );
        },
        None => filter_of_all(groups, test),
    }
    positions
}

} // verus!
