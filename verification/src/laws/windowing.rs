//! What a window computes on each row.

use vstd::prelude::*;

use crate::aggregate::{aggregate_of, no_budget};
use crate::catalog::CatalogView;
use crate::error::{Budget, ErrorView, ResultView};
use crate::expr::{AggFunc, ExprView, SortKeyView, WindowFunc};
use crate::group::{ints, key_columns, keys_of, read_column};
use crate::laws::grouping::{grouped_value, grouped_values, keys_read_what_they_name};
use crate::laws::sorting::{in_stable_order, sorting_is_stable};
use crate::ordering::sorted_positions;
use crate::plan::PlanView;
use crate::read::answer;
use crate::scalars::{total_order, ScalarModel};
use crate::session::SessionModel;
use crate::sort::positions_all_listed;
use crate::value::ValueView;
use crate::window::{
    argument_column, dense_rank, first_peer, frame, frame_aggregate, is_peer, order_exprs,
    partition_end, partition_start, place_of, window_cell, window_cells, window_directions,
    window_input, window_keys, window_step, windows_of, WindowDefView, WindowInput,
};

verus! {

/// The run of `keys` in which key `s` stands begins at `start`.
pub open spec fn begins_run(keys: Seq<Seq<ValueView>>, start: int, s: int) -> bool {
    &&& 0 <= start <= s
    &&& forall|i: int| start <= i <= s ==> #[trigger] keys[i] == keys[s]
    &&& start == 0 || keys[start - 1] != keys[s]
}

/// The run of `keys` in which key `s` stands ends before `end`.
pub open spec fn ends_run(keys: Seq<Seq<ValueView>>, s: int, end: int) -> bool {
    &&& s < end <= keys.len()
    &&& forall|i: int| s <= i < end ==> #[trigger] keys[i] == keys[s]
    &&& end == keys.len() || keys[end] != keys[s]
}

/// The rows in the order of a window: the partition and the order key of each.
pub struct WindowRows {
    pub rows: Seq<Seq<ValueView>>,
    pub partitions: Seq<Seq<ValueView>>,
    pub orders: Seq<Seq<ValueView>>,
}

/// The first row that ties with row `s` is `first`: from there on the rows have
/// the partition and the order key of row `s`.
pub open spec fn begins_tie(sorted: WindowRows, first: int, s: int) -> bool {
    &&& 0 <= first <= s
    &&& forall|i: int|
        first <= i <= s ==> #[trigger] sorted.partitions[i] == sorted.partitions[s]
            && sorted.orders[i] == sorted.orders[s]
    &&& first == 0 || sorted.partitions[first - 1] != sorted.partitions[s] || sorted.orders[first
        - 1] != sorted.orders[s]
}

/// How often the order key changes on the rows after `start` and up to `s`.
pub open spec fn key_changes(orders: Seq<Seq<ValueView>>, start: int, s: int) -> nat {
    Seq::new((s - start) as nat, |k: int| start + 1 + k).filter(
        |i: int| orders[i] != orders[i - 1],
    ).len()
}

/// The aggregate that a window takes over its frame.
pub open spec fn taken_over_frame(function: WindowFunc) -> AggFunc {
    match function {
        WindowFunc::Sum => AggFunc::Sum,
        WindowFunc::Avg => AggFunc::Avg,
        WindowFunc::Min => AggFunc::Min,
        WindowFunc::Max => AggFunc::Max,
        _ => AggFunc::Count,
    }
}

/// What a window holds on row `s` of its sorted rows, where the partition of the
/// row runs from `start` to before `end` and its ties begin at `first`: the number
/// of the row in its partition, its rank with or without gaps, or what an
/// aggregate gives over its frame. A window without an order takes the whole
/// partition as the frame, and one with an order the partition up to the row.
pub open spec fn windows_row(
    model: ScalarModel,
    def: WindowDefView,
    columns: Seq<Seq<char>>,
    sorted: WindowRows,
    start: int,
    first: int,
    end: int,
    s: int,
    cell: ValueView,
) -> bool {
    let to = if def.order_by.len() == 0 {
        end
    } else {
        s + 1
    };
    &&& begins_run(sorted.partitions, start, s)
    &&& ends_run(sorted.partitions, s, end)
    &&& begins_tie(sorted, first, s)
    &&& match def.function {
        WindowFunc::RowNumber => cell == ValueView::Int((s - start + 1) as i64),
        WindowFunc::Rank => cell == ValueView::Int((first - start + 1) as i64),
        WindowFunc::DenseRank => cell == ValueView::Int(
            (key_changes(sorted.orders, start, s) + 1) as i64,
        ),
        _ => if def.function is Count && (def.args.len() == 0 || def.args[0] == ExprView::Field(
            "*"@,
        )) {
            cell == ValueView::Int((to - start) as i64)
        } else {
            aggregate_of(
                model,
                taken_over_frame(def.function),
                if def.args.len() == 0 {
                    Seq::empty()
                } else {
                    sorted.rows.subrange(start, to).map_values(
                        |row: Seq<ValueView>| grouped_value(model.eval, def.args[0], row, columns),
                    )
                },
                None,
                no_budget(),
            ) matches Ok((value, _)) && value == cell
        },
    }
}

/// The rows at these positions, with the keys of the window on them.
pub open spec fn sorted_rows(
    model: ScalarModel,
    def: WindowDefView,
    columns: Seq<Seq<char>>,
    rows: Seq<Seq<ValueView>>,
    positions: Seq<int>,
) -> WindowRows {
    let sorted = positions.map_values(|p: int| rows[p]);
    WindowRows {
        rows: sorted,
        partitions: sorted.map_values(
            |row: Seq<ValueView>| grouped_values(model.eval, def.partition_by, row, columns),
        ),
        orders: sorted.map_values(
            |row: Seq<ValueView>|
                grouped_values(
                    model.eval,
                    def.order_by.map_values(|key: SortKeyView| key.expr),
                    row,
                    columns,
                ),
        ),
    }
}

proof fn partitions_begin(keys: Seq<Seq<ValueView>>, s: int)
    requires
        0 <= s < keys.len(),
    ensures
        begins_run(keys, partition_start(keys, s), s),
    decreases s,
{
    if s > 0 && keys[s] == keys[s - 1] {
        partitions_begin(keys, s - 1);
        let start = partition_start(keys, s - 1);
        assert forall|i: int| start <= i <= s implies #[trigger] keys[i] == keys[s] by {
            if i < s {
                assert(keys[i] == keys[s - 1]);
            }
        }
    }
}

proof fn partitions_end(keys: Seq<Seq<ValueView>>, s: int)
    requires
        0 <= s < keys.len(),
    ensures
        ends_run(keys, s, partition_end(keys, s)),
    decreases keys.len() - s,
{
    if s + 1 < keys.len() && keys[s + 1] == keys[s] {
        partitions_end(keys, s + 1);
        let end = partition_end(keys, s + 1);
        assert forall|i: int| s <= i < end implies #[trigger] keys[i] == keys[s] by {
            if i > s {
                assert(keys[i] == keys[s + 1]);
            }
        }
    }
}

proof fn ties_begin(input: WindowInput, sorted: WindowRows, s: int)
    requires
        input.partitions == sorted.partitions,
        input.orders == sorted.orders,
        0 <= s < sorted.partitions.len(),
        sorted.orders.len() == sorted.partitions.len(),
    ensures
        begins_tie(sorted, first_peer(input, s), s),
    decreases s,
{
    if is_peer(input, s) {
        ties_begin(input, sorted, s - 1);
        let first = first_peer(input, s - 1);
        assert forall|i: int| first <= i <= s implies #[trigger] sorted.partitions[i]
            == sorted.partitions[s] && sorted.orders[i] == sorted.orders[s] by {
            if i < s {
                assert(sorted.partitions[i] == sorted.partitions[s - 1]);
            }
        }
    }
}

proof fn changes_are_counted(input: WindowInput, s: int)
    requires
        0 <= s < input.partitions.len(),
        input.orders.len() == input.partitions.len(),
    ensures
        dense_rank(input, s) == key_changes(
            input.orders,
            partition_start(input.partitions, s),
            s,
        ) + 1,
    decreases s,
{
    reveal(Seq::filter);
    partitions_begin(input.partitions, s);
    let start = partition_start(input.partitions, s);
    let test = |i: int| input.orders[i] != input.orders[i - 1];
    let after = Seq::new((s - start) as nat, |k: int| start + 1 + k);
    if s > 0 && input.partitions[s] == input.partitions[s - 1] {
        changes_are_counted(input, s - 1);
        let before = Seq::new((s - 1 - start) as nat, |k: int| start + 1 + k);
        assert(after.drop_last() =~= before);
        assert(after.last() == s);
        assert(is_peer(input, s) == !test(s));
    } else {
        assert(after =~= Seq::empty());
    }
}

proof fn cells_are_windowed(
    model: ScalarModel,
    function: WindowFunc,
    input: WindowInput,
    n: int,
)
    requires
        0 <= n,
    ensures
        window_cells(model, function, input, n) matches Ok(cells) ==> cells.len() == n && forall|
            s: int,
        |
            0 <= s < n ==> window_cell(model, function, input, s) == Ok::<ValueView, ErrorView>(
                #[trigger] cells[s],
            ),
    decreases n,
{
    if n > 0 {
        cells_are_windowed(model, function, input, n - 1);
        match (
            window_cells(model, function, input, n),
            window_cells(model, function, input, n - 1),
        ) {
            (Ok(cells), Ok(before)) => {
                assert forall|s: int| 0 <= s < n implies window_cell(model, function, input, s)
                    == Ok::<ValueView, ErrorView>(#[trigger] cells[s]) by {
                    if s < n - 1 {
                        assert(cells[s] == before[s]);
                    }
                }
            },
            _ => {},
        }
    }
}

proof fn argument_reads(
    model: ScalarModel,
    args: Seq<ExprView>,
    rows: Seq<Seq<ValueView>>,
    columns: Seq<Seq<char>>,
)
    requires
        args.len() > 0,
        argument_column(args, columns) is Ok,
    ensures
        read_column(model.eval, args[0], argument_column(args, columns)->Ok_0, rows, columns)
            == rows.map_values(
            |row: Seq<ValueView>| grouped_value(model.eval, args[0], row, columns),
        ),
{
    let one = seq![args[0]];
    reveal_with_fuel(key_columns, 2);
    assert(one.drop_last() =~= Seq::empty());
    let ats = key_columns(one, columns)->Ok_0;
    keys_read_what_they_name(model.eval, one, ats, rows, columns);
    assert(ats[0] == argument_column(args, columns)->Ok_0);
    assert(read_column(model.eval, one[0], ats[0], rows, columns) == rows.map_values(
        |row: Seq<ValueView>| grouped_value(model.eval, one[0], row, columns),
    ));
    assert(rows.map_values(|row: Seq<ValueView>| grouped_value(model.eval, one[0], row, columns))
        =~= rows.map_values(|row: Seq<ValueView>| grouped_value(model.eval, args[0], row, columns)));
}

/// A window adds a column to the rows and leaves them as they are and in their
/// order. It orders them by its partition and then by its order keys, and row `r`
/// gets what the window holds at the place at which that order puts it.
pub proof fn windows_add_what_they_compute(
    model: ScalarModel,
    def: WindowDefView,
    columns: Seq<Seq<char>>,
    rows: Seq<Seq<ValueView>>,
    budget: Budget,
    r: int,
) -> (found: (Seq<int>, int, int, int, int))
    requires
        total_order(model.order),
        rows.len() <= usize::MAX,
        0 <= r < rows.len(),
        window_step(model, def, columns, rows, budget) is Ok,
    ensures
        ({
            let (positions, start, first, end, s) = found;
            let sorted = sorted_rows(model, def, columns, rows, positions);
            &&& in_stable_order(
                model.order,
                rows.map_values(
                    |row: Seq<ValueView>|
                        grouped_values(
                            model.eval,
                            def.partition_by + def.order_by.map_values(
                                |key: SortKeyView| key.expr,
                            ),
                            row,
                            columns,
                        ),
                ),
                def.partition_by.map_values(|expr: ExprView| None::<bool>)
                    + def.order_by.map_values(|key: SortKeyView| Some(key.descending)),
                positions,
            )
            &&& window_step(model, def, columns, rows, budget) matches Ok((wide, _))
            &&& wide.len() == rows.len()
            &&& wide[r].len() == rows[r].len() + 1
            &&& wide[r].drop_last() == rows[r]
            &&& 0 <= s < positions.len() && positions[s] == r
            &&& windows_row(model, def, columns, sorted, start, first, end, s, wide[r].last())
        }),
{
    let part_ats = key_columns(def.partition_by, columns)->Ok_0;
    let order_by = order_exprs(def.order_by);
    assert(order_by =~= def.order_by.map_values(|key: SortKeyView| key.expr));
    let order_ats = key_columns(order_by, columns)->Ok_0;
    let arg_at = argument_column(def.args, columns)->Ok_0;
    let partitions = keys_of(model.eval, def.partition_by, part_ats, rows, columns);
    let orders = keys_of(model.eval, order_by, order_ats, rows, columns);
    keys_read_what_they_name(model.eval, def.partition_by, part_ats, rows, columns);
    keys_read_what_they_name(model.eval, order_by, order_ats, rows, columns);
    let keys = window_keys(partitions, orders);
    let stated = rows.map_values(
        |row: Seq<ValueView>|
            grouped_values(
                model.eval,
                def.partition_by + def.order_by.map_values(|key: SortKeyView| key.expr),
                row,
                columns,
            ),
    );
    assert forall|i: int| 0 <= i < rows.len() implies #[trigger] keys[i] == stated[i] by {
        assert(keys[i] =~= stated[i]);
    }
    assert(keys =~= stated);
    let directions = window_directions(def);
    assert(directions =~= def.partition_by.map_values(|expr: ExprView| None::<bool>)
        + def.order_by.map_values(|key: SortKeyView| Some(key.descending)));
    sorting_is_stable(model.order, keys, directions);
    let order = sorted_positions(model.order, keys, directions);
    let positions = ints(order);
    let sorted = sorted_rows(model, def, columns, rows, positions);
    let input = window_input(
        model,
        def,
        columns,
        rows,
        partitions,
        orders,
        arg_at,
        order,
    );
    assert forall|i: int| 0 <= i < positions.len() implies 0 <= #[trigger] positions[i]
        < rows.len() by {
        assert(order[i] < keys.len());
    }
    assert(input.partitions =~= sorted.partitions);
    assert(input.orders =~= sorted.orders);
    cells_are_windowed(model, def.function, input, rows.len() as int);
    positions_all_listed(order, keys.len() as int, r);
    let s = place_of(order, r);
    assert(0 <= s < order.len() && order[s] == r);
    let cells = window_cells(model, def.function, input, rows.len() as int)->Ok_0;
    assert(window_cell(model, def.function, input, s) == Ok::<ValueView, ErrorView>(cells[s]));
    partitions_begin(sorted.partitions, s);
    partitions_end(sorted.partitions, s);
    ties_begin(input, sorted, s);
    changes_are_counted(input, s);
    let start = partition_start(sorted.partitions, s);
    let first = first_peer(input, s);
    let end = partition_end(sorted.partitions, s);
    let wide = window_step(model, def, columns, rows, budget)->Ok_0.0;
    assert(wide[r] == rows[r].push(cells[s]));
    assert(wide[r].drop_last() =~= rows[r]);
    if frame_aggregate(def.function) is Some {
        let to = if def.order_by.len() == 0 {
            end
        } else {
            s + 1
        };
        if def.args.len() > 0 {
            argument_reads(model, def.args, rows, columns);
            let values = sorted.rows.subrange(start, to).map_values(
                |row: Seq<ValueView>| grouped_value(model.eval, def.args[0], row, columns),
            );
            assert(frame(input, s) =~= values);
        }
    }
    (positions, start, first, end, s)
}

/// Several windows add their columns one after the other, each computed on the
/// rows as those before it leave them.
pub proof fn windows_follow_one_another(
    model: ScalarModel,
    windows: Seq<WindowDefView>,
    columns: Seq<Seq<char>>,
    rows: Seq<Seq<ValueView>>,
    budget: Budget,
)
    ensures
        windows_of(model, windows, 0, columns, rows, budget) == Ok::<
            (Seq<Seq<char>>, Seq<Seq<ValueView>>, Budget),
            ErrorView,
        >((columns, rows, budget)),
        windows.len() > 0 ==> windows_of(
            model,
            windows,
            windows.len() as int,
            columns,
            rows,
            budget,
        ) == (match windows_of(
            model,
            windows.drop_last(),
            windows.len() - 1,
            columns,
            rows,
            budget,
        ) {
            Err(error) => Err::<(Seq<Seq<char>>, Seq<Seq<ValueView>>, Budget), ErrorView>(error),
            Ok((names, wide, held)) => match window_step(
                model,
                windows.last(),
                names,
                wide,
                held,
            ) {
                Err(error) => Err(error),
                Ok((wider, left)) => Ok((names.push(windows.last().output_name), wider, left)),
            },
        }),
{
    if windows.len() > 0 {
        fewer_windows(model, windows, windows.drop_last(), windows.len() - 1, columns, rows, budget);
    }
}

proof fn fewer_windows(
    model: ScalarModel,
    a: Seq<WindowDefView>,
    b: Seq<WindowDefView>,
    n: int,
    columns: Seq<Seq<char>>,
    rows: Seq<Seq<ValueView>>,
    budget: Budget,
)
    requires
        0 <= n <= a.len(),
        n <= b.len(),
        forall|k: int| 0 <= k < n ==> #[trigger] a[k] == b[k],
    ensures
        windows_of(model, a, n, columns, rows, budget) == windows_of(
            model,
            b,
            n,
            columns,
            rows,
            budget,
        ),
    decreases n,
{
    if n > 0 {
        assert(a[n - 1] == b[n - 1]);
        fewer_windows(model, a, b, n - 1, columns, rows, budget);
    }
}

/// A plan with windows answers what its windows make of what its input answers.
pub proof fn window_plans_widen_their_input(
    catalog: CatalogView,
    model: SessionModel,
    input: PlanView,
    windows: Seq<WindowDefView>,
    budget: Budget,
)
    requires
        answer(catalog, model, input, budget) matches Ok((result, _)) && result is Rows,
    ensures
        ({
            &&& answer(catalog, model, input, budget) matches Ok(
                (ResultView::Rows { columns, rows }, left),
            )
            &&& answer(
                catalog,
                model,
                PlanView::Window { input: Box::new(input), windows },
                budget,
            ) == (match windows_of(
                model.scalars,
                windows,
                windows.len() as int,
                columns,
                rows,
                left,
            ) {
                Err(error) => Err::<(ResultView, Budget), ErrorView>(error),
                Ok((names, wide, rest)) => Ok(
                    (ResultView::Rows { columns: names, rows: wide }, rest),
                ),
            })
        }),
{
}

} // verus!
