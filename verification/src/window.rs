//! Window functions.

use vstd::prelude::*;

use crate::aggregate::{
    aggregate_of, aggregate_rows_of, aggregate_values, charged_total, contributions, evaluated,
    expr_is_star, extreme, is_star, no_budget, non_null, numeric_zero, NumericAgg, RowId,
};
use crate::error::{Budget, ErrorView, QueryError, QueryResult, ResultView};
use crate::expr::{
    clone_exprs, clone_sort_keys, exprs_view, sort_keys_view, AggFunc, AggregateMode, Expr,
    ExprView, SortKey, SortKeyView, WindowFunc,
};
use crate::group::{
    at_view, ats_view, check_reach, direct_column, ints, key_columns, keys_of,
    names_read_their_columns, pick, pick_values, read_column, read_keys, read_values,
    reads_by_name, resolve_columns, resolve_direct_group_expr, rows_reach, short_row_error,
};
use crate::ordering::{row_order, row_order_is_total, sort_by_keys, sorted_positions};
use crate::scalars::{total_order, FloatModel, FloatOp, Order, OrderModel, ScalarModel, Scalars};
use crate::sort::{
    comes_before, lists_positions, positions_all_listed, saturating_scratch, sort_charge,
    sorted_order_is_unique, sorts,
};
use crate::value::{clone_row, rows_same, Value, ValueView};

verus! {

/// One window column.
#[derive(Debug, PartialEq, Eq)]
pub struct WindowDef {
    pub function: WindowFunc,
    pub args: Vec<Expr>,
    pub mode: AggregateMode,
    pub partition_by: Vec<Expr>,
    pub order_by: Vec<SortKey>,
    pub output_name: String,
}

/// What a [`WindowDef`] stands for.
pub struct WindowDefView {
    pub function: WindowFunc,
    pub args: Seq<ExprView>,
    pub mode: AggregateMode,
    pub partition_by: Seq<ExprView>,
    pub order_by: Seq<SortKeyView>,
    pub output_name: Seq<char>,
}

impl DeepView for WindowDef {
    type V = WindowDefView;

    open spec fn deep_view(&self) -> WindowDefView {
        WindowDefView {
            function: self.function,
            args: exprs_view(self.args@),
            mode: self.mode,
            partition_by: exprs_view(self.partition_by@),
            order_by: sort_keys_view(self.order_by@),
            output_name: self.output_name@,
        }
    }
}

impl Clone for WindowDef {
    fn clone(&self) -> (copy: Self)
        ensures
            copy.deep_view() == self.deep_view(),
    {
        WindowDef {
            function: self.function,
            args: clone_exprs(&self.args),
            mode: self.mode,
            partition_by: clone_exprs(&self.partition_by),
            order_by: clone_sort_keys(&self.order_by),
            output_name: self.output_name.clone(),
        }
    }
}

/// The aggregate that a window function takes over its frame, if it takes one.
pub open spec fn frame_aggregate(function: WindowFunc) -> Option<AggFunc> {
    match function {
        WindowFunc::Sum => Some(AggFunc::Sum),
        WindowFunc::Avg => Some(AggFunc::Avg),
        WindowFunc::Count => Some(AggFunc::Count),
        WindowFunc::Min => Some(AggFunc::Min),
        WindowFunc::Max => Some(AggFunc::Max),
        _ => None,
    }
}

fn aggregate_for(function: WindowFunc) -> (func: Option<AggFunc>)
    ensures
        func == frame_aggregate(function),
{
    match function {
        WindowFunc::Sum => Some(AggFunc::Sum),
        WindowFunc::Avg => Some(AggFunc::Avg),
        WindowFunc::Count => Some(AggFunc::Count),
        WindowFunc::Min => Some(AggFunc::Min),
        WindowFunc::Max => Some(AggFunc::Max),
        _ => None,
    }
}

/// The rows of a window in sorted order: for each its partition key, its order
/// key and its argument.
pub struct WindowInput {
    pub partitions: Seq<Seq<ValueView>>,
    pub orders: Seq<Seq<ValueView>>,
    pub arguments: Option<Seq<ValueView>>,
    pub count_all: bool,
    pub whole: bool,
}

/// Where the partition of sorted row `s` begins: the row is the first of its
/// partition, or belongs to that of the row before it.
pub open spec fn partition_start(partitions: Seq<Seq<ValueView>>, s: int) -> int
    decreases s,
{
    if s <= 0 || partitions[s] != partitions[s - 1] {
        s
    } else {
        partition_start(partitions, s - 1)
    }
}

/// Where the partition of sorted row `s` ends.
pub open spec fn partition_end(partitions: Seq<Seq<ValueView>>, s: int) -> int
    decreases partitions.len() - s,
{
    if s + 1 >= partitions.len() || partitions[s + 1] != partitions[s] {
        s + 1
    } else {
        partition_end(partitions, s + 1)
    }
}

/// Sorted row `s` has the order key of the row before it, in the same partition.
pub open spec fn is_peer(input: WindowInput, s: int) -> bool {
    s > 0 && input.partitions[s] == input.partitions[s - 1] && input.orders[s] == input.orders[s - 1]
}

/// The first of the rows that tie with sorted row `s`.
pub open spec fn first_peer(input: WindowInput, s: int) -> int
    decreases s,
{
    if is_peer(input, s) {
        first_peer(input, s - 1)
    } else {
        s
    }
}

/// How many different order keys there are up to sorted row `s`, in its
/// partition.
pub open spec fn dense_rank(input: WindowInput, s: int) -> int
    decreases s,
{
    if is_peer(input, s) {
        dense_rank(input, s - 1)
    } else if s > 0 && input.partitions[s] == input.partitions[s - 1] {
        dense_rank(input, s - 1) + 1
    } else {
        1
    }
}

/// The argument values of the frame of sorted row `s`: its whole partition
/// where there is no order, else its partition up to the row itself.
pub open spec fn frame(input: WindowInput, s: int) -> Seq<ValueView> {
    let start = partition_start(input.partitions, s);
    let end = if input.whole { partition_end(input.partitions, s) } else { s + 1 };
    match input.arguments {
        Some(values) => values.subrange(start, end),
        None => Seq::empty(),
    }
}

/// The value of the window column on sorted row `s`.
pub open spec fn window_cell(
    model: ScalarModel,
    function: WindowFunc,
    input: WindowInput,
    s: int,
) -> Result<ValueView, ErrorView> {
    let start = partition_start(input.partitions, s);
    let end = if input.whole { partition_end(input.partitions, s) } else { s + 1 };
    match function {
        WindowFunc::RowNumber => Ok(ValueView::Int((s - start + 1) as i64)),
        WindowFunc::Rank => Ok(ValueView::Int((first_peer(input, s) - start + 1) as i64)),
        WindowFunc::DenseRank => Ok(ValueView::Int(dense_rank(input, s) as i64)),
        _ => if function is Count && input.count_all {
            Ok(ValueView::Int((end - start) as i64))
        } else {
            match aggregate_of(
                model,
                frame_aggregate(function)->0,
                frame(input, s),
                None,
                no_budget(),
            ) {
                Ok((value, _)) => Ok(value),
                Err(error) => Err(error),
            }
        },
    }
}

/// The window column on the first `n` sorted rows; the first error stands.
pub open spec fn window_cells(
    model: ScalarModel,
    function: WindowFunc,
    input: WindowInput,
    n: int,
) -> Result<Seq<ValueView>, ErrorView>
    decreases n,
{
    if n <= 0 {
        Ok(Seq::empty())
    } else {
        match window_cells(model, function, input, n - 1) {
            Err(error) => Err(error),
            Ok(cells) => match window_cell(model, function, input, n - 1) {
                Ok(value) => Ok(cells.push(value)),
                Err(error) => Err(error),
            },
        }
    }
}

proof fn window_cells_error_stays(
    model: ScalarModel,
    function: WindowFunc,
    input: WindowInput,
    k: int,
    n: int,
)
    requires
        0 <= k <= n,
        window_cells(model, function, input, k) is Err,
    ensures
        window_cells(model, function, input, n) == window_cells(model, function, input, k),
    decreases n,
{
    if k < n {
        window_cells_error_stays(model, function, input, k, n - 1);
    }
}

/// Every row of a partition has the same frame where the frame is the whole
/// partition.
proof fn partition_end_same(partitions: Seq<Seq<ValueView>>, s: int, t: int)
    requires
        0 <= s <= t < partitions.len(),
        forall|k: int| s <= k <= t ==> #[trigger] partitions[k] == partitions[s],
    ensures
        partition_end(partitions, s) == partition_end(partitions, t),
        t < partition_end(partitions, t) <= partitions.len(),
    decreases t - s, partitions.len() - t,
{
    if s < t {
        assert(partitions[s + 1] == partitions[s]);
        assert forall|k: int| s + 1 <= k <= t implies #[trigger] partitions[k] == partitions[s + 1] by {}
        partition_end_same(partitions, s + 1, t);
    } else {
        partition_end_bounds(partitions, t);
    }
}

proof fn partition_end_bounds(partitions: Seq<Seq<ValueView>>, s: int)
    requires
        0 <= s < partitions.len(),
    ensures
        s < partition_end(partitions, s) <= partitions.len(),
        forall|k: int|
            s <= k < partition_end(partitions, s) ==> #[trigger] partitions[k] == partitions[s],
    decreases partitions.len() - s,
{
    if !(s + 1 >= partitions.len() || partitions[s + 1] != partitions[s]) {
        partition_end_bounds(partitions, s + 1);
    }
}

/// The exec side of [`WindowInput`].
struct SortedRows {
    partitions: Vec<Vec<Value>>,
    orders: Vec<Vec<Value>>,
    arguments: Option<Vec<Value>>,
    count_all: bool,
    whole: bool,
}

impl SortedRows {
    spec fn input(&self) -> WindowInput {
        WindowInput {
            partitions: self.partitions.deep_view(),
            orders: self.orders.deep_view(),
            arguments: self.arguments.deep_view(),
            count_all: self.count_all,
            whole: self.whole,
        }
    }

    spec fn wf(&self) -> bool {
        &&& self.orders.len() == self.partitions.len()
        &&& self.arguments matches Some(values) ==> values.len() == self.partitions.len()
    }
}

/// The window column, where the frame is the whole partition: one aggregate for
/// each partition, given to each of its rows.
fn whole_partition_values<
    E: Fn(&Expr, &Vec<Value>, &Vec<String>) -> Value,
    C: Fn(&Value, &Value) -> Order,
    F: Fn(FloatOp) -> u64,
    P: Fn() -> Result<(), QueryError>,
>(scalars: &Scalars<E, C, F>, function: WindowFunc, sorted: &SortedRows, poll: &P) -> (cells: Result<
    Vec<Value>,
    QueryError,
>)
    requires
        scalars.ok(),
        call_requires(*poll, ()),
        sorted.wf(),
        sorted.whole,
        frame_aggregate(function) is Some,
    ensures
        match cells {
            Ok(cells) => window_cells(
                scalars.model@,
                function,
                sorted.input(),
                sorted.partitions.len() as int,
            ) == Ok::<Seq<ValueView>, ErrorView>(cells.deep_view()) && cells.len()
                == sorted.partitions.len(),
            Err(error) => window_cells(
                scalars.model@,
                function,
                sorted.input(),
                sorted.partitions.len() as int,
            ) == Err::<Seq<ValueView>, ErrorView>(error.deep_view()) || call_ensures(
                *poll,
                (),
                Err(error),
            ),
        },
{
    let n: usize = sorted.partitions.len();
    let ghost input = sorted.input();
    let ghost model = scalars.model@;
    let func = match aggregate_for(function) {
        Some(func) => func,
        None => AggFunc::Count,
    };
    let counting: bool = match function {
        WindowFunc::Count => true,
        _ => false,
    };
    let mut cells: Vec<Value> = Vec::new();
    let mut start: usize = 0;
    assert(cells.deep_view() =~= Seq::<ValueView>::empty());
    while start < n
        invariant
            scalars.ok(),
            call_requires(*poll, ()),
            sorted.wf(),
            sorted.whole,
            n == sorted.partitions.len(),
            input == sorted.input(),
            model == scalars.model@,
            frame_aggregate(function) == Some(func),
            counting == (function is Count),
            start <= n,
            start < n ==> partition_start(input.partitions, start as int) == start,
            cells.len() == start,
            window_cells(model, function, input, start as int) == Ok::<Seq<ValueView>, ErrorView>(
                cells.deep_view(),
            ),
        decreases n - start,
    {
        let mut end: usize = start + 1;
        while end < n && rows_same(&sorted.partitions[end], &sorted.partitions[start])
            invariant
                sorted.wf(),
                n == sorted.partitions.len(),
                input == sorted.input(),
                start < end <= n,
                partition_start(input.partitions, start as int) == start,
                forall|k: int|
                    start <= k < end ==> #[trigger] input.partitions[k] == input.partitions[
                        start as int],
            decreases n - end,
        {
            end = end + 1;
        }
        let ghost last = end - 1;
        proof {
            partition_end_same(input.partitions, start as int, last);
            assert(end < n ==> input.partitions[end as int] != input.partitions[start as int]);
            assert(partition_end(input.partitions, last) == end);
            assert forall|s: int| start <= s < end implies partition_start(input.partitions, s) == start
                && partition_end(input.partitions, s) == end by {
                same_partition(input.partitions, start as int, s);
                assert forall|k: int| s <= k <= last implies #[trigger] input.partitions[k]
                    == input.partitions[s] by {
                    assert(input.partitions[s] == input.partitions[start as int]);
                }
                partition_end_same(input.partitions, s, last);
            }
        }
        let value = if counting && sorted.count_all {
            Value::Int((end - start) as i64)
        } else {
            let mut values: Vec<Value> = Vec::new();
            match &sorted.arguments {
                Some(arguments) => {
                    let mut k: usize = start;
                    while k < end
                        invariant
                            start <= k <= end <= n,
                            arguments.len() == n,
                            values.len() == k - start,
                            forall|j: int|
                                0 <= j < k - start ==> (#[trigger] values[j]).deep_view()
                                    == arguments[start + j].deep_view(),
                        decreases end - k,
                    {
                        values.push(arguments[k].clone());
                        k = k + 1;
                    }
                    assert(values.deep_view() =~= input.arguments->0.subrange(
                        start as int,
                        end as int,
                    ));
                },
                None => {
                    assert(values.deep_view() =~= Seq::<ValueView>::empty());
                },
            }
            assert(values.deep_view() == frame(input, start as int));
            let sources: Option<Vec<Option<RowId>>> = None;
            let mut budget = Budget { used: 0, limit: 0 };
            match aggregate_values(scalars, func, &values, &sources, &mut budget, poll) {
                Ok(value) => value,
                Err(error) => {
                    proof {
                        if window_cell(model, function, input, start as int) is Err {
                            window_cells_error_stays(model, function, input, start + 1, n as int);
                        }
                    }
                    return Err(error);
                },
            }
        };
        let mut s: usize = start;
        while s < end
            invariant
                call_requires(*poll, ()),
                sorted.wf(),
                start <= s <= end <= n,
                input == sorted.input(),
                sorted.whole,
                frame_aggregate(function) == Some(func),
                forall|k: int|
                    start <= k < end ==> #[trigger] partition_start(input.partitions, k) == start
                        && partition_end(input.partitions, k) == end,
                window_cell(model, function, input, start as int) == Ok::<ValueView, ErrorView>(
                    value.deep_view(),
                ),
                cells.len() == s,
                window_cells(model, function, input, s as int) == Ok::<Seq<ValueView>, ErrorView>(
                    cells.deep_view(),
                ),
            decreases end - s,
        {
            poll()?;
            let ghost before = cells.deep_view();
            assert(partition_start(input.partitions, s as int) == start);
            assert(partition_start(input.partitions, start as int) == start);
            cells.push(value.clone());
            assert(cells.deep_view() =~= before.push(value.deep_view()));
            s = s + 1;
        }
        proof {
            if end < n {
                assert(input.partitions[last] == input.partitions[start as int]);
            }
        }
        start = end;
    }
    Ok(cells)
}

proof fn same_partition(partitions: Seq<Seq<ValueView>>, start: int, s: int)
    requires
        0 <= start <= s < partitions.len(),
        partition_start(partitions, start) == start,
        forall|k: int| start <= k <= s ==> #[trigger] partitions[k] == partitions[start],
    ensures
        partition_start(partitions, s) == start,
    decreases s - start,
{
    if start < s {
        assert(partitions[s] == partitions[start]);
        assert(partitions[s - 1] == partitions[start]);
        same_partition(partitions, start, s - 1);
    }
}

proof fn contributions_of_prefix(values: Seq<ValueView>, more: Seq<ValueView>, n: int)
    requires
        0 <= n <= values.len() <= more.len(),
        forall|i: int| 0 <= i < n ==> values[i] == more[i],
    ensures
        contributions(values, None, n) == contributions(more, None, n),
        contributions(values, None, n).len() <= n,
    decreases n,
{
    if n > 0 {
        contributions_of_prefix(values, more, n - 1);
    }
}

/// One more value in a list adds at most itself to the non-null values.
proof fn non_null_push(values: Seq<ValueView>, value: ValueView)
    ensures
        non_null(values.push(value)) == (if value is Empty {
            non_null(values)
        } else {
            non_null(values).push(value)
        }),
        non_null(values).len() <= values.len(),
{
    contributions_of_prefix(values, values.push(value), values.len() as int);
}

/// The window column of a ranking function.
fn rank_values<P: Fn() -> Result<(), QueryError>>(
    function: WindowFunc,
    sorted: &SortedRows,
    poll: &P,
    Ghost(model): Ghost<ScalarModel>,
) -> (cells: Result<Vec<Value>, QueryError>)
    requires
        call_requires(*poll, ()),
        sorted.wf(),
        frame_aggregate(function) is None,
    ensures
        match cells {
            Ok(cells) => window_cells(
                model,
                function,
                sorted.input(),
                sorted.partitions.len() as int,
            ) == Ok::<Seq<ValueView>, ErrorView>(cells.deep_view()) && cells.len()
                == sorted.partitions.len(),
            Err(error) => call_ensures(*poll, (), Err(error)),
        },
{
    let n: usize = sorted.partitions.len();
    let ghost input = sorted.input();
    let mut cells: Vec<Value> = Vec::new();
    let mut start: usize = 0;
    let mut first: usize = 0;
    let mut dense: usize = 0;
    let mut s: usize = 0;
    assert(cells.deep_view() =~= Seq::<ValueView>::empty());
    while s < n
        invariant
            call_requires(*poll, ()),
            sorted.wf(),
            n == sorted.partitions.len(),
            input == sorted.input(),
            frame_aggregate(function) is None,
            s <= n,
            s > 0 ==> start == partition_start(input.partitions, s - 1) && start < s,
            s > 0 ==> first == first_peer(input, s - 1) && start <= first < s,
            s > 0 ==> dense == dense_rank(input, s - 1),
            dense <= s,
            cells.len() == s,
            window_cells(model, function, input, s as int) == Ok::<Seq<ValueView>, ErrorView>(
                cells.deep_view(),
            ),
        decreases n - s,
    {
        poll()?;
        let same: bool = s > 0 && rows_same(&sorted.partitions[s], &sorted.partitions[s - 1]);
        let peer: bool = same && rows_same(&sorted.orders[s], &sorted.orders[s - 1]);
        if !same {
            start = s;
        }
        if !peer {
            first = s;
            if same {
                dense = dense + 1;
            } else {
                dense = 1;
            }
        }
        assert(start == partition_start(input.partitions, s as int));
        assert(first == first_peer(input, s as int));
        assert(dense == dense_rank(input, s as int));
        let value = match function {
            WindowFunc::RowNumber => Value::Int((s - start + 1) as i64),
            WindowFunc::Rank => Value::Int((first - start + 1) as i64),
            _ => Value::Int(dense as i64),
        };
        let ghost before = cells.deep_view();
        let ghost shown = value.deep_view();
        assert(window_cell(model, function, input, s as int) == Ok::<ValueView, ErrorView>(shown));
        cells.push(value);
        assert(cells.deep_view() =~= before.push(shown));
        s = s + 1;
    }
    Ok(cells)
}

/// The window column of an aggregate over a running frame: the aggregate of
/// each prefix of a partition, carried from row to row.
#[verifier::spinoff_prover]
#[verifier::rlimit(50)]
fn running_values<
    E: Fn(&Expr, &Vec<Value>, &Vec<String>) -> Value,
    C: Fn(&Value, &Value) -> Order,
    F: Fn(FloatOp) -> u64,
    P: Fn() -> Result<(), QueryError>,
>(scalars: &Scalars<E, C, F>, function: WindowFunc, sorted: &SortedRows, poll: &P) -> (cells: Result<
    Vec<Value>,
    QueryError,
>)
    requires
        scalars.ok(),
        call_requires(*poll, ()),
        sorted.wf(),
        !sorted.whole,
        frame_aggregate(function) is Some,
    ensures
        match cells {
            Ok(cells) => window_cells(
                scalars.model@,
                function,
                sorted.input(),
                sorted.partitions.len() as int,
            ) == Ok::<Seq<ValueView>, ErrorView>(cells.deep_view()) && cells.len()
                == sorted.partitions.len(),
            Err(error) => window_cells(
                scalars.model@,
                function,
                sorted.input(),
                sorted.partitions.len() as int,
            ) == Err::<Seq<ValueView>, ErrorView>(error.deep_view()) || call_ensures(
                *poll,
                (),
                Err(error),
            ),
        },
{
    let n: usize = sorted.partitions.len();
    let ghost input = sorted.input();
    let ghost model = scalars.model@;
    let label = match function {
        WindowFunc::Avg => "avg",
        _ => "sum",
    };
    let mut cells: Vec<Value> = Vec::new();
    let mut start: usize = 0;
    let mut total = NumericAgg::new();
    let mut count: usize = 0;
    let mut best: Option<usize> = None;
    let mut s: usize = 0;
    assert(cells.deep_view() =~= Seq::<ValueView>::empty());
    while s < n
        invariant
            scalars.ok(),
            call_requires(*poll, ()),
            sorted.wf(),
            !sorted.whole,
            n == sorted.partitions.len(),
            input == sorted.input(),
            model == scalars.model@,
            frame_aggregate(function) is Some,
            label@ == (if function is Avg { "avg"@ } else { "sum"@ }),
            s <= n,
            s == 0 ==> start == 0,
            s > 0 ==> start == partition_start(input.partitions, s - 1) && start < s,
            total.count <= s,
            count <= s,
            s > 0 ==> running_state(
                model,
                function,
                label@,
                running_frame(input, start as int, s as int),
                total,
                count,
                match best {
                    Some(b) => Some(input.arguments->0[b as int]),
                    None => None,
                },
            ),
            best matches Some(b) ==> input.arguments is Some && b < n,
            cells.len() == s,
            window_cells(model, function, input, s as int) == Ok::<Seq<ValueView>, ErrorView>(
                cells.deep_view(),
            ),
        decreases n - s,
    {
        poll()?;
        let same: bool = s > 0 && rows_same(&sorted.partitions[s], &sorted.partitions[s - 1]);
        if !same {
            start = s;
            total = NumericAgg::new();
            count = 0;
            best = None;
        }
        let ghost held = running_frame(input, start as int, s as int);
        let ghost now = running_frame(input, start as int, s + 1);
        proof {
            assert(start == partition_start(input.partitions, s as int));
            assert(frame(input, s as int) =~= now);
            if !same {
                assert(held =~= Seq::<ValueView>::empty());
                assert(non_null(held) =~= Seq::<ValueView>::empty());
            }
            assert(running_state(
                model,
                function,
                label@,
                held,
                total,
                count,
                match best {
                    Some(b) => Some(input.arguments->0[b as int]),
                    None => None,
                },
            ));
            match input.arguments {
                Some(values) => {
                    assert(now =~= held.push(values[s as int]));
                    non_null_push(held, values[s as int]);
                    if !(values[s as int] is Empty) {
                        assert(non_null(now).drop_last() =~= non_null(held));
                    }
                },
                None => {
                    assert(now =~= held);
                },
            }
        }
        match &sorted.arguments {
            Some(values) => {
                assert(values[s as int].deep_view() == input.arguments->0[s as int]);
                match function {
                    WindowFunc::Sum | WindowFunc::Avg => {
                        match total.push(scalars, label, &values[s]) {
                            Ok(_) => {},
                            Err(error) => {
                                proof {
                                    assert(!(values[s as int].deep_view() is Empty));
                                    assert(window_cell(model, function, input, s as int) is Err);
                                    window_cells_error_stays(
                                        model,
                                        function,
                                        input,
                                        s + 1,
                                        n as int,
                                    );
                                }
                                return Err(error);
                            },
                        }
                    },
                    WindowFunc::Count => {
                        if !values[s].is_empty() {
                            count = count + 1;
                        }
                    },
                    WindowFunc::Min | WindowFunc::Max => {
                        if !values[s].is_empty() {
                            let wanted = match function {
                                WindowFunc::Min => Order::Less,
                                _ => Order::Greater,
                            };
                            match best {
                                None => {
                                    best = Some(s);
                                },
                                Some(b) => {
                                    if scalars.order_values(&values[s], &values[b]) == wanted {
                                        best = Some(s);
                                    }
                                },
                            }
                        }
                    },
                    _ => {},
                }
            },
            None => {},
        }
        assert(running_state(
            model,
            function,
            label@,
            now,
            total,
            count,
            match best {
                Some(b) => Some(input.arguments->0[b as int]),
                None => None,
            },
        ));
        let value = match function {
            WindowFunc::Sum => {
                match total.sum(scalars, label) {
                    Ok(value) => value,
                    Err(error) => {
                        proof {
                            assert(window_cell(model, function, input, s as int) is Err);
                            window_cells_error_stays(model, function, input, s + 1, n as int);
                        }
                        return Err(error);
                    },
                }
            },
            WindowFunc::Avg => total.avg(scalars),
            WindowFunc::Count => {
                if sorted.count_all {
                    Value::Int((s - start + 1) as i64)
                } else {
                    Value::Int(count as i64)
                }
            },
            _ => {
                match best {
                    Some(b) => match &sorted.arguments {
                        Some(values) => values[b].clone(),
                        None => Value::Empty,
                    },
                    None => Value::Empty,
                }
            },
        };
        let ghost before = cells.deep_view();
        let ghost shown = value.deep_view();
        proof {
            charged_count(now, model.float);
            assert(window_cell(model, function, input, s as int) == Ok::<ValueView, ErrorView>(
                shown,
            ));
        }
        cells.push(value);
        assert(cells.deep_view() =~= before.push(shown));
        s = s + 1;
    }
    Ok(cells)
}

/// Counting takes no budget and cannot fail.
proof fn charged_count(values: Seq<ValueView>, floats: FloatModel)
    ensures
        charged_total(
            floats,
            "count"@,
            false,
            contributions(values, None, values.len() as int),
            0,
            no_budget(),
        ) == Ok::<(NumericAgg, Budget), ErrorView>((numeric_zero(), no_budget())),
{
    charged_count_of(contributions(values, None, values.len() as int), floats);
}

proof fn charged_count_of(values: Seq<ValueView>, floats: FloatModel)
    ensures
        charged_total(floats, "count"@, false, values, 0, no_budget()) == Ok::<
            (NumericAgg, Budget),
            ErrorView,
        >((numeric_zero(), no_budget())),
    decreases values.len(),
{
    if values.len() > 0 {
        charged_count_of(values.drop_last(), floats);
    }
}

/// The arguments of sorted rows `start .. end`.
spec fn running_frame(input: WindowInput, start: int, end: int) -> Seq<ValueView> {
    match input.arguments {
        Some(values) => values.subrange(start, end),
        None => Seq::empty(),
    }
}

/// What is carried from row to row stands for the aggregate of `values`.
spec fn running_state(
    model: ScalarModel,
    function: WindowFunc,
    label: Seq<char>,
    values: Seq<ValueView>,
    total: NumericAgg,
    count: usize,
    best: Option<ValueView>,
) -> bool {
    match function {
        WindowFunc::Sum | WindowFunc::Avg => charged_total(
            model.float,
            label,
            true,
            non_null(values),
            0,
            no_budget(),
        ) == Ok::<(NumericAgg, Budget), ErrorView>((total, no_budget())),
        WindowFunc::Count => count == non_null(values).len(),
        WindowFunc::Min => best == extreme(model.order, non_null(values), Order::Less),
        WindowFunc::Max => best == extreme(model.order, non_null(values), Order::Greater),
        _ => true,
    }
}

/// The expressions of an `order` clause.
pub open spec fn order_exprs(keys: Seq<SortKeyView>) -> Seq<ExprView> {
    Seq::new(keys.len(), |i: int| keys[i].expr)
}

/// The directions in which a window sorts: the partition keys as values, then
/// the keys of its `order` clause.
pub open spec fn window_directions(def: WindowDefView) -> Seq<Option<bool>> {
    Seq::new(def.partition_by.len(), |i: int| None::<bool>) + Seq::new(
        def.order_by.len(),
        |i: int| Some(def.order_by[i].descending),
    )
}

/// The sorted row at which input row `r` stands.
pub open spec fn place_of(positions: Seq<usize>, r: int) -> int {
    choose|s: int| 0 <= s < positions.len() && positions[s] == r
}

/// The column of a window's argument, if it has an argument that names one.
pub open spec fn argument_column(args: Seq<ExprView>, columns: Seq<Seq<char>>) -> Result<
    Option<int>,
    ErrorView,
> {
    if args.len() == 0 {
        Ok(None)
    } else {
        direct_column(args[0], columns)
    }
}

/// The sort keys of each row: its partition key, then its order key.
pub open spec fn window_keys(
    partitions: Seq<Seq<ValueView>>,
    orders: Seq<Seq<ValueView>>,
) -> Seq<Seq<ValueView>> {
    Seq::new(partitions.len(), |i: int| partitions[i] + orders[i])
}

/// The rows with one window column more, in the order in which they came, and
/// the budget after the sort. A row that ends before a column that is looked up
/// is an error.
pub open spec fn window_step(
    model: ScalarModel,
    def: WindowDefView,
    columns: Seq<Seq<char>>,
    rows: Seq<Seq<ValueView>>,
    budget: Budget,
) -> Result<(Seq<Seq<ValueView>>, Budget), ErrorView> {
    match key_columns(def.partition_by, columns) {
        Err(error) => Err(error),
        Ok(part_ats) => match key_columns(order_exprs(def.order_by), columns) {
            Err(error) => Err(error),
            Ok(order_ats) => match argument_column(def.args, columns) {
                Err(error) => Err(error),
                Ok(arg_at) => if !rows_reach(rows, part_ats) || !rows_reach(rows, order_ats)
                    || !rows_reach(rows, seq![arg_at]) {
                    Err(short_row_error())
                } else {
                    let partitions = keys_of(model.eval, def.partition_by, part_ats, rows, columns);
                    let orders = keys_of(
                        model.eval,
                        order_exprs(def.order_by),
                        order_ats,
                        rows,
                        columns,
                    );
                    let positions = sorted_positions(
                        model.order,
                        window_keys(partitions, orders),
                        window_directions(def),
                    );
                    let input = window_input(
                        model,
                        def,
                        columns,
                        rows,
                        partitions,
                        orders,
                        arg_at,
                        positions,
                    );
                    match sort_charge(budget, rows.len() as int) {
                        Err(error) => Err(error),
                        Ok(left) => match window_cells(
                            model,
                            def.function,
                            input,
                            rows.len() as int,
                        ) {
                            Err(error) => Err(error),
                            Ok(cells) => Ok(
                                (
                                    Seq::new(
                                        rows.len(),
                                        |r: int| rows[r].push(cells[place_of(positions, r)]),
                                    ),
                                    left,
                                ),
                            ),
                        },
                    }
                },
            },
        },
    }
}

/// What a window computes on: its rows in sorted order.
pub open spec fn window_input(
    model: ScalarModel,
    def: WindowDefView,
    columns: Seq<Seq<char>>,
    rows: Seq<Seq<ValueView>>,
    partitions: Seq<Seq<ValueView>>,
    orders: Seq<Seq<ValueView>>,
    arg_at: Option<int>,
    positions: Seq<usize>,
) -> WindowInput {
    WindowInput {
        partitions: pick(partitions, ints(positions)),
        orders: pick(orders, ints(positions)),
        arguments: if def.args.len() == 0 {
            None
        } else {
            Some(pick(read_column(model.eval, def.args[0], arg_at, rows, columns), ints(positions)))
        },
        count_all: def.args.len() == 0 || is_star(def.args[0]),
        whole: def.order_by.len() == 0 && frame_aggregate(def.function) is Some,
    }
}

/// The columns, the rows and the budget after the first `n` windows.
pub open spec fn windows_of(
    model: ScalarModel,
    defs: Seq<WindowDefView>,
    n: int,
    columns: Seq<Seq<char>>,
    rows: Seq<Seq<ValueView>>,
    budget: Budget,
) -> Result<(Seq<Seq<char>>, Seq<Seq<ValueView>>, Budget), ErrorView>
    decreases n,
{
    if n <= 0 {
        Ok((columns, rows, budget))
    } else {
        match windows_of(model, defs, n - 1, columns, rows, budget) {
            Err(error) => Err(error),
            Ok((cols, wide, left)) => match window_step(model, defs[n - 1], cols, wide, left) {
                Ok((next, left)) => Ok((cols.push(defs[n - 1].output_name), next, left)),
                Err(error) => Err(error),
            },
        }
    }
}

proof fn windows_error_stays(
    model: ScalarModel,
    defs: Seq<WindowDefView>,
    k: int,
    n: int,
    columns: Seq<Seq<char>>,
    rows: Seq<Seq<ValueView>>,
    budget: Budget,
)
    requires
        0 <= k <= n,
        windows_of(model, defs, k, columns, rows, budget) is Err,
    ensures
        windows_of(model, defs, n, columns, rows, budget) == windows_of(
            model,
            defs,
            k,
            columns,
            rows,
            budget,
        ),
    decreases n,
{
    if k < n {
        windows_error_stays(model, defs, k, n - 1, columns, rows, budget);
    }
}

fn expr_refs(exprs: &Vec<Expr>) -> (refs: Vec<&Expr>)
    ensures
        refs.deep_view() == exprs_view(exprs@),
        refs.len() == exprs.len(),
{
    let mut refs: Vec<&Expr> = Vec::new();
    let mut i: usize = 0;
    while i < exprs.len()
        invariant
            i <= exprs.len(),
            refs.len() == i,
            forall|j: int| 0 <= j < i ==> (#[trigger] refs[j]).deep_view() == exprs[j].deep_view(),
        decreases exprs.len() - i,
    {
        refs.push(&exprs[i]);
        i = i + 1;
    }
    assert(refs.deep_view() =~= exprs_view(exprs@));
    refs
}

/// The expressions of an `order` clause.
pub fn sort_key_refs(keys: &Vec<SortKey>) -> (refs: Vec<&Expr>)
    ensures
        refs.deep_view() == order_exprs(sort_keys_view(keys@)),
        refs.len() == keys.len(),
{
    let mut refs: Vec<&Expr> = Vec::new();
    let mut i: usize = 0;
    while i < keys.len()
        invariant
            i <= keys.len(),
            refs.len() == i,
            forall|j: int| 0 <= j < i ==> (#[trigger] refs[j]).deep_view() == keys[j].expr.deep_view(),
        decreases keys.len() - i,
    {
        refs.push(&keys[i].expr);
        i = i + 1;
    }
    assert(refs.deep_view() =~= order_exprs(sort_keys_view(keys@)));
    refs
}

fn directions_of(def: &WindowDef) -> (directions: Vec<Option<bool>>)
    ensures
        directions@ == window_directions(def.deep_view()),
{
    let ghost view = def.deep_view();
    let mut directions: Vec<Option<bool>> = Vec::new();
    let mut i: usize = 0;
    while i < def.partition_by.len()
        invariant
            i <= def.partition_by.len(),
            view == def.deep_view(),
            directions.len() == i,
            forall|j: int| 0 <= j < i ==> directions[j] == window_directions(view)[j],
        decreases def.partition_by.len() - i,
    {
        directions.push(None);
        i = i + 1;
    }
    i = 0;
    while i < def.order_by.len()
        invariant
            i <= def.order_by.len(),
            view == def.deep_view(),
            directions.len() == def.partition_by.len() + i,
            forall|j: int|
                0 <= j < def.partition_by.len() + i ==> directions[j] == window_directions(view)[j],
        decreases def.order_by.len() - i,
    {
        directions.push(Some(def.order_by[i].descending));
        i = i + 1;
    }
    assert(directions@ =~= window_directions(view));
    directions
}

/// The rows at `positions`.
pub fn pick_rows(rows: &Vec<Vec<Value>>, positions: &Vec<usize>) -> (picked: Vec<Vec<Value>>)
    requires
        forall|i: int| 0 <= i < positions.len() ==> (#[trigger] positions[i]) < rows.len(),
    ensures
        picked.deep_view() == pick(rows.deep_view(), ints(positions@)),
        picked.len() == positions.len(),
{
    let mut picked: Vec<Vec<Value>> = Vec::new();
    let mut i: usize = 0;
    while i < positions.len()
        invariant
            i <= positions.len(),
            picked.len() == i,
            forall|j: int| 0 <= j < positions.len() ==> (#[trigger] positions[j]) < rows.len(),
            forall|j: int|
                0 <= j < i ==> (#[trigger] picked[j]).deep_view() == rows[positions[j] as int].deep_view(),
        decreases positions.len() - i,
    {
        picked.push(clone_row(&rows[positions[i]]));
        i = i + 1;
    }
    assert(picked.deep_view() =~= pick(rows.deep_view(), ints(positions@)));
    picked
}

fn combine_keys(partitions: &Vec<Vec<Value>>, orders: &Vec<Vec<Value>>, width: usize) -> (keys: Vec<
    Vec<Value>,
>)
    requires
        partitions.len() == orders.len(),
        forall|i: int|
            0 <= i < partitions.len() ==> (#[trigger] partitions[i]).len() + orders[i].len() == width,
    ensures
        keys.deep_view() == window_keys(partitions.deep_view(), orders.deep_view()),
        keys.len() == partitions.len(),
        forall|i: int| 0 <= i < keys.len() ==> (#[trigger] keys[i]).len() == width,
{
    let mut keys: Vec<Vec<Value>> = Vec::new();
    let mut i: usize = 0;
    while i < partitions.len()
        invariant
            i <= partitions.len(),
            partitions.len() == orders.len(),
            forall|j: int|
                0 <= j < partitions.len() ==> (#[trigger] partitions[j]).len() + orders[j].len() == width,
            keys.len() == i,
            forall|j: int|
                0 <= j < i ==> (#[trigger] keys[j]).deep_view() == partitions[j].deep_view()
                    + orders[j].deep_view() && keys[j].len() == width,
        decreases partitions.len() - i,
    {
        let mut key = clone_row(&partitions[i]);
        let mut tail = clone_row(&orders[i]);
        key.append(&mut tail);
        assert(partitions[i as int].len() + orders[i as int].len() == width);
        assert(key.deep_view() =~= partitions[i as int].deep_view() + orders[i as int].deep_view());
        keys.push(key);
        i = i + 1;
    }
    assert(keys.deep_view() =~= window_keys(partitions.deep_view(), orders.deep_view()));
    keys
}

/// Add one value to the end of each row: row `r` gets the cell of its place.
fn append_cells<P: Fn() -> Result<(), QueryError>>(
    rows: Vec<Vec<Value>>,
    cells: &Vec<Value>,
    positions: &Vec<usize>,
    poll: &P,
) -> (wide: Result<Vec<Vec<Value>>, QueryError>)
    requires
        call_requires(*poll, ()),
        cells.len() == rows.len(),
        lists_positions(positions@, rows.len() as int),
    ensures
        match wide {
            Ok(wide) => wide.len() == rows.len() && wide.deep_view() == Seq::new(
                rows.deep_view().len(),
                |r: int| rows.deep_view()[r].push(cells.deep_view()[place_of(positions@, r)]),
            ),
            Err(error) => call_ensures(*poll, (), Err(error)),
        },
{
    let n: usize = rows.len();
    let ghost before = rows.deep_view();
    let ghost values = cells.deep_view();
    let mut places: Vec<usize> = Vec::new();
    let mut i: usize = 0;
    while i < n
        invariant
            i <= n,
            places.len() == i,
        decreases n - i,
    {
        places.push(0);
        i = i + 1;
    }
    let mut s: usize = 0;
    while s < n
        invariant
            s <= n,
            places.len() == n,
            lists_positions(positions@, n as int),
            forall|j: int| 0 <= j < s ==> places[#[trigger] positions[j] as int] == j,
        decreases n - s,
    {
        places.set(positions[s], s);
        s = s + 1;
    }
    proof {
        assert forall|r: int| 0 <= r < n implies (#[trigger] places[r]) == place_of(positions@, r)
            && places[r] < n by {
            positions_all_listed(positions@, n as int, r);
            let p = place_of(positions@, r);
            assert(places[positions[p] as int] == p);
        }
    }
    let mut wide = rows;
    let mut r: usize = 0;
    while r < n
        invariant
            call_requires(*poll, ()),
            r <= n,
            n == before.len(),
            wide.len() == n,
            cells.len() == n,
            places.len() == n,
            values == cells.deep_view(),
            forall|j: int|
                0 <= j < n ==> (#[trigger] places[j]) == place_of(positions@, j) && places[j] < n,
            forall|j: int|
                0 <= j < r ==> (#[trigger] wide[j]).deep_view() == before[j].push(
                    values[place_of(positions@, j)],
                ),
            forall|j: int| r <= j < n ==> (#[trigger] wide[j]).deep_view() == before[j],
        decreases n - r,
    {
        poll()?;
        let cell = cells[places[r]].clone();
        let ghost shown = cell.deep_view();
        wide[r].push(cell);
        assert(wide[r as int].deep_view() =~= before[r as int].push(shown));
        r = r + 1;
    }
    assert(wide.deep_view() =~= Seq::new(
        before.len(),
        |r: int| before[r].push(values[place_of(positions@, r)]),
    ));
    Ok(wide)
}

/// Compute one window column and add it to the rows.
#[verifier::spinoff_prover]
#[verifier::rlimit(40)]
fn execute_one_window<
    E: Fn(&Expr, &Vec<Value>, &Vec<String>) -> Value,
    C: Fn(&Value, &Value) -> Order,
    F: Fn(FloatOp) -> u64,
    P: Fn() -> Result<(), QueryError>,
>(
    scalars: &Scalars<E, C, F>,
    def: &WindowDef,
    columns: &Vec<String>,
    rows: Vec<Vec<Value>>,
    budget: &mut Budget,
    poll: &P,
) -> (result: Result<Vec<Vec<Value>>, QueryError>)
    requires
        scalars.ok(),
        call_requires(*poll, ()),
    ensures
        match result {
            Ok(wide) => window_step(
                scalars.model@,
                def.deep_view(),
                columns.deep_view(),
                rows.deep_view(),
                *old(budget),
            ) == Ok::<(Seq<Seq<ValueView>>, Budget), ErrorView>((wide.deep_view(), *final(budget)))
                && wide.len() == rows.len(),
            Err(error) => window_step(
                scalars.model@,
                def.deep_view(),
                columns.deep_view(),
                rows.deep_view(),
                *old(budget),
            ) == Err::<(Seq<Seq<ValueView>>, Budget), ErrorView>(error.deep_view()) || call_ensures(
                *poll,
                (),
                Err(error),
            ),
        },
{
    let ghost view = def.deep_view();
    let ghost model = scalars.model@;
    let n: usize = rows.len();
    let part_refs = expr_refs(&def.partition_by);
    let part_ats = resolve_columns(&part_refs, columns)?;
    let order_refs = sort_key_refs(&def.order_by);
    let order_ats = resolve_columns(&order_refs, columns)?;
    let arg_at: Option<usize> = if def.args.len() == 0 {
        None
    } else {
        resolve_direct_group_expr(&def.args[0], columns)?
    };
    let mut arg_ats: Vec<Option<usize>> = Vec::new();
    arg_ats.push(arg_at);
    assert(ats_view(arg_ats@) =~= seq![at_view(arg_at)]);
    check_reach(&rows, &part_ats)?;
    check_reach(&rows, &order_ats)?;
    check_reach(&rows, &arg_ats)?;
    let partitions = read_keys(scalars, &part_refs, &part_ats, &rows, columns, poll)?;
    let orders = read_keys(scalars, &order_refs, &order_ats, &rows, columns, poll)?;
    let directions = directions_of(def);
    let keys = combine_keys(&partitions, &orders, directions.len());
    if n >= 2 {
        let bytes: usize = saturating_scratch(n);
        budget.charge(bytes)?;
    }
    let positions = sort_by_keys(scalars, &keys, &directions, poll)?;
    let count_all: bool = def.args.len() == 0 || expr_is_star(&def.args[0]);
    let func = aggregate_for(def.function);
    let whole: bool = def.order_by.len() == 0 && func.is_some();
    let arguments: Option<Vec<Value>> = if def.args.len() == 0 {
        None
    } else {
        let values = read_values(scalars, &def.args[0], arg_at, &rows, columns, poll)?;
        Some(pick_values(&values, &positions))
    };
    let sorted = SortedRows {
        partitions: pick_rows(&partitions, &positions),
        orders: pick_rows(&orders, &positions),
        arguments,
        count_all,
        whole,
    };
    assert(sorted.input() == window_input(
        model,
        view,
        columns.deep_view(),
        rows.deep_view(),
        partitions.deep_view(),
        orders.deep_view(),
        at_view(arg_at),
        positions@,
    ));
    let cells = match func {
        None => rank_values(def.function, &sorted, poll, Ghost(model))?,
        Some(_) => if whole {
            whole_partition_values(scalars, def.function, &sorted, poll)?
        } else {
            running_values(scalars, def.function, &sorted, poll)?
        },
    };
    let ghost input_rows = rows.deep_view();
    let wide = append_cells(rows, &cells, &positions, poll)?;
    Ok(wide)
}

/// Compute window columns and add them to the rows, which keep their order.
/// Sorting takes its scratch space from `budget`; each row asks `poll`.
#[verifier::spinoff_prover]
pub fn execute_window<
    E: Fn(&Expr, &Vec<Value>, &Vec<String>) -> Value,
    C: Fn(&Value, &Value) -> Order,
    F: Fn(FloatOp) -> u64,
    P: Fn() -> Result<(), QueryError>,
>(
    scalars: &Scalars<E, C, F>,
    result: QueryResult,
    windows: &Vec<WindowDef>,
    budget: &mut Budget,
    poll: &P,
) -> (answer: Result<QueryResult, QueryError>)
    requires
        scalars.ok(),
        call_requires(*poll, ()),
    ensures
        match result.deep_view() {
            ResultView::Rows { columns, rows } => {
                let expected = windows_of(
                    scalars.model@,
                    windows.deep_view(),
                    windows.len() as int,
                    columns,
                    rows,
                    *old(budget),
                );
                match answer {
                    Ok(given) => expected matches Ok((cols, wide, left)) && given.deep_view() == (
                    ResultView::Rows { columns: cols, rows: wide }) && *final(budget) == left,
                    Err(error) => expected == Err::<
                        (Seq<Seq<char>>, Seq<Seq<ValueView>>, Budget),
                        ErrorView,
                    >(error.deep_view()) || call_ensures(*poll, (), Err(error)),
                }
            },
            _ => answer matches Err(error) && error.deep_view() == ErrorView::Execution(
                "window function requires row input"@,
            ),
        },
{
    let (mut columns, mut rows) = match result {
        QueryResult::Rows { columns, rows } => (columns, rows),
        _ => {
            return Err(QueryError::execution("window function requires row input"));
        },
    };
    let ghost model = scalars.model@;
    let ghost defs = windows.deep_view();
    let ghost cols = columns.deep_view();
    let ghost input = rows.deep_view();
    let ghost whole = *old(budget);
    let n: usize = rows.len();
    let mut i: usize = 0;
    while i < windows.len()
        invariant
            scalars.ok(),
            call_requires(*poll, ()),
            model == scalars.model@,
            defs == windows.deep_view(),
            result.deep_view() == (ResultView::Rows { columns: cols, rows: input }),
            i <= windows.len(),
            n == input.len(),
            rows.len() == n,
            whole == *old(budget),
            windows_of(model, defs, i as int, cols, input, whole) == Ok::<
                (Seq<Seq<char>>, Seq<Seq<ValueView>>, Budget),
                ErrorView,
            >((columns.deep_view(), rows.deep_view(), *budget)),
        decreases windows.len() - i,
    {
        let ghost old_rows = rows.deep_view();
        let ghost old_cols = columns.deep_view();
        let ghost left = *budget;
        match execute_one_window(scalars, &windows[i], &columns, rows, budget, poll) {
            Ok(wide) => {
                rows = wide;
            },
            Err(error) => {
                proof {
                    if window_step(model, defs[i as int], old_cols, old_rows, left) is Err {
                        windows_error_stays(
                            model,
                            defs,
                            i + 1,
                            windows.len() as int,
                            cols,
                            input,
                            whole,
                        );
                    }
                }
                return Err(error);
            },
        }
        columns.push(windows[i].output_name.clone());
        proof {
            assert(columns.deep_view() =~= old_cols.push(defs[i as int].output_name));
        }
        i = i + 1;
    }
    Ok(QueryResult::Rows { columns, rows })
}

/// A window without an order gives each row of a partition the scalar aggregate
/// of that partition's arguments.
pub proof fn whole_partition_agrees_with_scalar(
    model: ScalarModel,
    function: WindowFunc,
    input: WindowInput,
    s: int,
)
    requires
        input.whole,
        input.arguments is Some,
        frame_aggregate(function) is Some,
        !(function is Count && input.count_all),
        0 <= s < input.partitions.len(),
    ensures
        window_cell(model, function, input, s) == (match aggregate_of(
            model,
            frame_aggregate(function)->0,
            input.arguments->0.subrange(
                partition_start(input.partitions, s),
                partition_end(input.partitions, s),
            ),
            None,
            no_budget(),
        ) {
            Ok((value, _)) => Ok::<ValueView, ErrorView>(value),
            Err(error) => Err(error),
        }),
{
}

/// Two rows of one partition get the same value from a window without an order.
pub proof fn whole_partition_value_is_shared(
    model: ScalarModel,
    function: WindowFunc,
    input: WindowInput,
    s: int,
    t: int,
)
    requires
        input.whole,
        frame_aggregate(function) is Some,
        0 <= s <= t < input.partitions.len(),
        forall|k: int| s <= k <= t ==> #[trigger] input.partitions[k] == input.partitions[s],
    ensures
        window_cell(model, function, input, s) == window_cell(model, function, input, t),
{
    partition_end_same(input.partitions, s, t);
    partition_start_same(input.partitions, s, t);
}

proof fn partition_start_same(partitions: Seq<Seq<ValueView>>, s: int, t: int)
    requires
        0 <= s <= t < partitions.len(),
        forall|k: int| s <= k <= t ==> #[trigger] partitions[k] == partitions[s],
    ensures
        partition_start(partitions, s) == partition_start(partitions, t),
    decreases t - s,
{
    if s < t {
        assert(partitions[t] == partitions[s]);
        assert(partitions[t - 1] == partitions[s]);
        partition_start_same(partitions, s, t - 1);
    }
}

/// Ranks rise without gaps smaller than their ties: a row that ties with the one
/// before it has the same rank, and any other has its row number.
pub proof fn rank_follows_row_number(model: ScalarModel, input: WindowInput, s: int)
    requires
        0 < s < input.partitions.len(),
        input.partitions.len() <= i64::MAX,
        input.partitions[s] == input.partitions[s - 1],
    ensures
        is_peer(input, s) ==> window_cell(model, WindowFunc::Rank, input, s) == window_cell(
            model,
            WindowFunc::Rank,
            input,
            s - 1,
        ),
        !is_peer(input, s) ==> window_cell(model, WindowFunc::Rank, input, s) == window_cell(
            model,
            WindowFunc::RowNumber,
            input,
            s,
        ),
{
}

/// The positions of a sequence, as they come.
spec fn in_place(n: nat) -> Seq<usize> {
    Seq::new(n, |i: int| i as usize)
}

/// Rows without keys stay where they are when they are sorted.
proof fn keyless_rows_stay(order: OrderModel, keys: Seq<Seq<ValueView>>, directions: Seq<Option<bool>>)
    requires
        total_order(order),
        keys.len() <= usize::MAX,
        forall|i: int| 0 <= i < keys.len() ==> (#[trigger] keys[i]).len() == 0,
    ensures
        sorted_positions(order, keys, directions) == in_place(keys.len()),
{
    let model = row_order(order, directions);
    let identity = in_place(keys.len());
    row_order_is_total(order, directions);
    assert forall|i: int, j: int|
        #![trigger identity[i], identity[j]]
        0 <= i < j < keys.len() implies comes_before(
        keys,
        model,
        identity[i] as int,
        identity[j] as int,
    ) by {
        assert(keys[i] =~= keys[j]);
        assert(model(keys[i], keys[i]) == Order::Equal);
    }
    assert(sorts(identity, keys, model));
    sorted_order_is_unique(sorted_positions(order, keys, directions), identity, keys, model);
}

/// One partition holds every row where all partition keys are the same.
proof fn one_partition(partitions: Seq<Seq<ValueView>>, s: int)
    requires
        0 <= s < partitions.len(),
        forall|k: int| 0 <= k < partitions.len() ==> #[trigger] partitions[k] == partitions[0],
    ensures
        partition_start(partitions, s) == 0,
        partition_end(partitions, s) == partitions.len(),
{
    let last = partitions.len() - 1;
    assert forall|k: int| 0 <= k <= last implies #[trigger] partitions[k] == partitions[0] by {}
    partition_start_same(partitions, 0, s);
    partition_end_same(partitions, 0, last);
    partition_end_same(partitions, 0, s);
}

/// Where every cell is the same, so is the column, or the error.
proof fn same_cells(
    model: ScalarModel,
    function: WindowFunc,
    input: WindowInput,
    cell: Result<ValueView, ErrorView>,
    n: int,
)
    requires
        0 < n,
        forall|s: int| 0 <= s < n ==> #[trigger] window_cell(model, function, input, s) == cell,
    ensures
        match (window_cells(model, function, input, n), cell) {
            (Ok(cells), Ok(value)) => cells.len() == n && forall|s: int|
                0 <= s < n ==> #[trigger] cells[s] == value,
            (Err(error), Err(other)) => error == other,
            _ => false,
        },
    decreases n,
{
    assert(window_cell(model, function, input, n - 1) == cell);
    if n > 1 {
        same_cells(model, function, input, cell, n - 1);
    } else {
        assert(window_cells(model, function, input, 0) == Ok::<Seq<ValueView>, ErrorView>(
            Seq::empty(),
        ));
    }
}

/// A window over all rows, without partitions and without an order, gives every
/// row the scalar aggregate over the rows, or the same error: which of the two
/// is asked cannot change the answer.
pub proof fn whole_window_agrees_with_scalar(
    model: ScalarModel,
    def: WindowDefView,
    columns: Seq<Seq<char>>,
    rows: Seq<Seq<ValueView>>,
    budget: Budget,
)
    requires
        total_order(model.order),
        0 < rows.len() <= usize::MAX,
        def.partition_by.len() == 0,
        def.order_by.len() == 0,
        def.args.len() == 1,
        frame_aggregate(def.function) is Some,
        direct_column(def.args[0], columns) matches Ok(at) && reads_by_name(
            model.eval,
            def.args[0],
            at,
            rows,
            columns,
        ) && rows_reach(rows, seq![at]),
        sort_charge(budget, rows.len() as int) is Ok,
    ensures
        match aggregate_rows_of(
            model,
            frame_aggregate(def.function)->0,
            Some(def.args[0]),
            columns,
            rows,
        ) {
            Ok(result) => result matches ResultView::Scalar(value) && (windows_of(
                model,
                seq![def],
                1,
                columns,
                rows,
                budget,
            ) matches Ok((cols, wide, _)) && cols == columns.push(def.output_name) && wide
                == Seq::new(rows.len(), |r: int| rows[r].push(value))),
            Err(error) => windows_of(model, seq![def], 1, columns, rows, budget) == Err::<
                (Seq<Seq<char>>, Seq<Seq<ValueView>>, Budget),
                ErrorView,
            >(error),
        },
{
    let n = rows.len() as int;
    let at = direct_column(def.args[0], columns)->Ok_0;
    let none = Seq::<Option<int>>::empty();
    let partitions = keys_of(model.eval, def.partition_by, none, rows, columns);
    let orders = keys_of(model.eval, order_exprs(def.order_by), none, rows, columns);
    let keys = window_keys(partitions, orders);
    let positions = sorted_positions(model.order, keys, window_directions(def));
    assert(key_columns(def.partition_by, columns) == Ok::<Seq<Option<int>>, ErrorView>(none));
    assert(order_exprs(def.order_by).len() == 0);
    assert(key_columns(order_exprs(def.order_by), columns) == Ok::<Seq<Option<int>>, ErrorView>(
        none,
    ));
    keyless_rows_stay(model.order, keys, window_directions(def));
    let input = window_input(model, def, columns, rows, partitions, orders, at, positions);
    let values = evaluated(model.eval, def.args[0], rows, columns);
    names_read_their_columns(model.eval, def.args[0], at, rows, columns);
    assert(input.arguments->0 =~= values);
    assert forall|k: int| 0 <= k < input.partitions.len() implies #[trigger] input.partitions[k]
        == input.partitions[0] by {
        assert(input.partitions[k] =~= input.partitions[0]);
    }
    let cell = window_cell(model, def.function, input, 0);
    assert(values.subrange(0, n) =~= values);
    assert forall|s: int| 0 <= s < n implies #[trigger] window_cell(model, def.function, input, s)
        == cell by {
        one_partition(input.partitions, s);
        one_partition(input.partitions, 0);
    }
    one_partition(input.partitions, 0);
    same_cells(model, def.function, input, cell, n);
    assert(windows_of(model, seq![def], 0, columns, rows, budget) == Ok::<
        (Seq<Seq<char>>, Seq<Seq<ValueView>>, Budget),
        ErrorView,
    >((columns, rows, budget)));
    assert(seq![def][0] == def);
    match window_step(model, def, columns, rows, budget) {
        Ok((wide, _)) => {
            let value = cell->Ok_0;
            let expected = Seq::new(rows.len(), |r: int| rows[r].push(value));
            assert forall|r: int| 0 <= r < n implies wide[r] == expected[r] by {
                assert(positions[r] == r);
                let s = place_of(positions, r);
                assert(0 <= s < positions.len() && positions[s] == r);
            }
            assert(wide =~= expected);
        },
        Err(_) => {},
    }
}

} // verus!
