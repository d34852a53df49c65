//! What aggregates come to.

use vstd::prelude::*;

use crate::aggregate::{
    aggregate_of, aggregate_provenance_of, aggregate_rows_of, charged_total, contributes,
    contributions, evaluated, extreme, no_budget, non_null, non_numeric_error, NumericAgg,
    ProvenanceView, RowId, SYMMETRIC_RID_SET_ENTRY_BYTES,
};
use crate::error::{Budget, ErrorView, ResultView};
use crate::expr::{AggFunc, ExprView};
use crate::scalars::{total_order, FloatModel, FloatOp, Order, OrderModel, ScalarModel};
use crate::seqs::{firsts, firsts_are_distinct};
use crate::value::ValueView;

verus! {

/// The value at `i` is taken: it is not null and, where the stored rows behind the
/// values are known, it has one, and no value before it that is not null has the
/// same.
pub open spec fn is_taken(
    values: Seq<ValueView>,
    sources: Option<Seq<Option<RowId>>>,
    i: int,
) -> bool {
    &&& values[i] != ValueView::Empty
    &&& sources matches Some(rids) ==> rids[i] is Some && forall|j: int|
        0 <= j < i && values[j] != ValueView::Empty ==> #[trigger] rids[j] != rids[i]
}

/// The values that are taken, in their order.
pub open spec fn taken(values: Seq<ValueView>, sources: Option<Seq<Option<RowId>>>) -> Seq<
    ValueView,
> {
    Seq::new(values.len(), |i: int| i).filter(|i: int| is_taken(values, sources, i)).map_values(
        |i: int| values[i],
    )
}

/// The sum of the integers among the values.
pub open spec fn int_total(values: Seq<ValueView>) -> int {
    values.fold_left(
        0int,
        |sum: int, v: ValueView|
            match v {
                ValueView::Int(n) => sum + n,
                _ => sum,
            },
    )
}

/// The floats among the values, added one after the other.
pub open spec fn float_total(floats: FloatModel, values: Seq<ValueView>) -> u64 {
    values.fold_left(
        0u64,
        |sum: u64, v: ValueView|
            match v {
                ValueView::Float(bits) => floats(FloatOp::Sum(sum, bits)),
                _ => sum,
            },
    )
}

/// Every value is an int or a float.
pub open spec fn all_numbers(values: Seq<ValueView>) -> bool {
    forall|i: int| 0 <= i < values.len() ==> (#[trigger] values[i]) is Int || values[i] is Float
}

/// There is a float among the values.
pub open spec fn any_float(values: Seq<ValueView>) -> bool {
    exists|i: int| 0 <= i < values.len() && (#[trigger] values[i]) is Float
}

/// The budget holds the stored rows of this many values, where they are known.
pub open spec fn affords(sources: Option<Seq<Option<RowId>>>, n: nat, budget: Budget) -> bool {
    sources is Some ==> budget.used + 24 * n <= budget.limit
}

/// The budget after the stored rows of this many values, where they are known.
pub open spec fn spent(sources: Option<Seq<Option<RowId>>>, n: nat, budget: Budget) -> Budget {
    if sources is Some {
        Budget { used: (budget.used + 24 * n) as usize, limit: budget.limit }
    } else {
        budget
    }
}

proof fn first_positions_taken(values: Seq<ValueView>, sources: Option<Seq<Option<RowId>>>, n: int)
    requires
        0 <= n <= values.len(),
    ensures
        contributions(values, sources, n) == Seq::new(n as nat, |i: int| i).filter(
            |i: int| is_taken(values, sources, i),
        ).map_values(|i: int| values[i]),
    decreases n,
{
    reveal(Seq::filter);
    let test = |i: int| is_taken(values, sources, i);
    let all = Seq::new(n as nat, |i: int| i);
    if n > 0 {
        first_positions_taken(values, sources, n - 1);
        assert(all.drop_last() =~= Seq::new((n - 1) as nat, |i: int| i));
        assert(contributes(values, sources, n - 1) == is_taken(values, sources, n - 1));
        assert(contributions(values, sources, n) =~= all.filter(test).map_values(
            |i: int| values[i],
        ));
    } else {
        assert(all.filter(test).map_values(|i: int| values[i]) =~= Seq::empty());
    }
}

proof fn contributions_are_taken(values: Seq<ValueView>, sources: Option<Seq<Option<RowId>>>)
    ensures
        contributions(values, sources, values.len() as int) == taken(values, sources),
{
    first_positions_taken(values, sources, values.len() as int);
}

/// Without stored rows behind them, the values that are taken are those that are
/// not null.
pub proof fn all_but_nulls_are_taken(values: Seq<ValueView>)
    ensures
        taken(values, None) == values.filter(|v: ValueView| v != ValueView::Empty),
    decreases values.len(),
{
    contributions_are_taken(values, None);
    present_values(values, values.len() as int);
    assert(values.take(values.len() as int) =~= values);
}

proof fn present_values(values: Seq<ValueView>, n: int)
    requires
        0 <= n <= values.len(),
    ensures
        contributions(values, None, n) == values.take(n).filter(
            |v: ValueView| v != ValueView::Empty,
        ),
    decreases n,
{
    reveal(Seq::filter);
    if n > 0 {
        present_values(values, n - 1);
        assert(values.take(n).drop_last() =~= values.take(n - 1));
        assert(values.take(n).last() == values[n - 1]);
    } else {
        assert(values.take(0) =~= Seq::empty());
    }
}

proof fn total_bound(values: Seq<ValueView>)
    ensures
        -(values.len() * 0x8000_0000_0000_0000) <= int_total(values) <= values.len()
            * 0x8000_0000_0000_0000,
    decreases values.len(),
{
    if values.len() > 0 {
        total_bound(values.drop_last());
    }
}

proof fn totals_add_up(
    floats: FloatModel,
    label: Seq<char>,
    values: Seq<ValueView>,
    sources: Option<Seq<Option<RowId>>>,
    budget: Budget,
)
    requires
        all_numbers(values),
        values.len() <= u64::MAX,
        affords(sources, values.len(), budget),
        budget.used <= budget.limit,
    ensures
        charged_total(
            floats,
            label,
            true,
            values,
            (if sources is Some { SYMMETRIC_RID_SET_ENTRY_BYTES as int } else { 0 }),
            budget,
        ) == Ok::<(NumericAgg, Budget), ErrorView>(
            (
                NumericAgg {
                    int_sum: int_total(values) as i128,
                    float_sum: float_total(floats, values),
                    saw_float: any_float(values),
                    count: values.len() as u64,
                },
                spent(sources, values.len(), budget),
            ),
        ),
        i128::MIN <= int_total(values) <= i128::MAX,
    decreases values.len(),
{
    total_bound(values);
    if values.len() > 0 {
        let less = values.drop_last();
        assert forall|i: int| 0 <= i < less.len() implies (#[trigger] less[i]) is Int || less[i]
            is Float by {
            assert(values[i] == less[i]);
        }
        totals_add_up(floats, label, less, sources, budget);
        let last = values.last();
        assert(values[values.len() - 1] == last);
        assert(any_float(values) <==> any_float(less) || last is Float) by {
            if any_float(less) {
                let i = choose|i: int| 0 <= i < less.len() && (#[trigger] less[i]) is Float;
                assert(values[i] is Float);
            }
            if any_float(values) {
                let i = choose|i: int| 0 <= i < values.len() && (#[trigger] values[i]) is Float;
                if i < less.len() {
                    assert(less[i] is Float);
                }
            }
        }
    }
}

proof fn counts_add_up(
    floats: FloatModel,
    label: Seq<char>,
    values: Seq<ValueView>,
    sources: Option<Seq<Option<RowId>>>,
    budget: Budget,
)
    requires
        affords(sources, values.len(), budget),
        budget.used <= budget.limit,
    ensures
        charged_total(
            floats,
            label,
            false,
            values,
            (if sources is Some { SYMMETRIC_RID_SET_ENTRY_BYTES as int } else { 0 }),
            budget,
        ) matches Ok((_, left)) && left == spent(sources, values.len(), budget),
    decreases values.len(),
{
    if values.len() > 0 {
        counts_add_up(floats, label, values.drop_last(), sources, budget);
    }
}

proof fn refused_value_is_first(
    floats: FloatModel,
    label: Seq<char>,
    values: Seq<ValueView>,
    k: int,
    budget: Budget,
)
    requires
        0 <= k < values.len() <= u64::MAX,
        budget.used <= budget.limit,
        all_numbers(values.take(k)),
        !(values[k] is Int) && !(values[k] is Float) && values[k] != ValueView::Empty,
    ensures
        charged_total(floats, label, true, values, 0, budget) == Err::<
            (NumericAgg, Budget),
            ErrorView,
        >(non_numeric_error(label, values[k].type_id())),
    decreases values.len(),
{
    let less = values.drop_last();
    if k < less.len() {
        assert(less.take(k) =~= values.take(k));
        refused_value_is_first(floats, label, less, k, budget);
    } else {
        assert(less =~= values.take(k));
        totals_add_up(floats, label, less, None, budget);
    }
}

/// A count is the number of values that are taken: without stored rows, of those
/// that are not null.
pub proof fn counts_count_what_is_taken(
    model: ScalarModel,
    values: Seq<ValueView>,
    sources: Option<Seq<Option<RowId>>>,
    budget: Budget,
)
    requires
        budget.used <= budget.limit,
        affords(sources, taken(values, sources).len(), budget),
    ensures
        aggregate_of(model, AggFunc::Count, values, sources, budget) == Ok::<
            (ValueView, Budget),
            ErrorView,
        >(
            (
                ValueView::Int(taken(values, sources).len() as i64),
                spent(sources, taken(values, sources).len(), budget),
            ),
        ),
        sources is None ==> taken(values, sources) == values.filter(
            |v: ValueView| v != ValueView::Empty,
        ),
{
    contributions_are_taken(values, sources);
    all_but_nulls_are_taken(values);
    counts_add_up(model.float, "count"@, taken(values, sources), sources, budget);
}

/// A count of distinct values is the number of values that are not null, each
/// counted once.
pub proof fn distinct_counts_count_each_value_once(
    model: ScalarModel,
    values: Seq<ValueView>,
    sources: Option<Seq<Option<RowId>>>,
    budget: Budget,
)
    ensures
        aggregate_of(model, AggFunc::CountDistinct, values, sources, budget) == Ok::<
            (ValueView, Budget),
            ErrorView,
        >(
            (
                ValueView::Int(
                    values.filter(|v: ValueView| v != ValueView::Empty).to_set().len() as i64,
                ),
                budget,
            ),
        ),
{
    let present = values.filter(|v: ValueView| v != ValueView::Empty);
    contributions_are_taken(values, None);
    all_but_nulls_are_taken(values);
    assert(non_null(values) == present);
    firsts_are_distinct(present);
    let once = firsts(present);
    assert(once.to_set() =~= present.to_set()) by {
        assert forall|v: ValueView| once.contains(v) <==> present.contains(v) by {}
    }
    once.unique_seq_to_set();
}

/// A sum of ints and floats: an int where no float is taken and the sum is one, a
/// float where one is, and an error where the integers leave their type.
pub proof fn sums_add_what_is_taken(
    model: ScalarModel,
    values: Seq<ValueView>,
    sources: Option<Seq<Option<RowId>>>,
    budget: Budget,
)
    requires
        budget.used <= budget.limit,
        taken(values, sources).len() <= u64::MAX,
        affords(sources, taken(values, sources).len(), budget),
        all_numbers(taken(values, sources)),
    ensures
        ({
            let numbers = taken(values, sources);
            let left = spent(sources, numbers.len(), budget);
            aggregate_of(model, AggFunc::Sum, values, sources, budget) == (if any_float(numbers) {
                Ok::<(ValueView, Budget), ErrorView>(
                    (
                        ValueView::Float(
                            (model.float)(
                                FloatOp::Sum(
                                    float_total(model.float, numbers),
                                    (model.float)(FloatOp::FromInt(int_total(numbers) as i128)),
                                ),
                            ),
                        ),
                        left,
                    ),
                )
            } else if i64::MIN <= int_total(numbers) <= i64::MAX {
                Ok((ValueView::Int(int_total(numbers) as i64), left))
            } else {
                Err(
                    ErrorView::Execution(
                        "cannot compute "@ + "sum"@ + ": the integer total overflows int64"@,
                    ),
                )
            })
        }),
{
    contributions_are_taken(values, sources);
    totals_add_up(model.float, "sum"@, taken(values, sources), sources, budget);
}

/// An average is the float sum of what is taken divided by how many there are, and
/// null where nothing is.
pub proof fn averages_divide_what_is_taken(
    model: ScalarModel,
    values: Seq<ValueView>,
    sources: Option<Seq<Option<RowId>>>,
    budget: Budget,
)
    requires
        budget.used <= budget.limit,
        taken(values, sources).len() <= u64::MAX,
        affords(sources, taken(values, sources).len(), budget),
        all_numbers(taken(values, sources)),
    ensures
        ({
            let numbers = taken(values, sources);
            let left = spent(sources, numbers.len(), budget);
            aggregate_of(model, AggFunc::Avg, values, sources, budget) == Ok::<
                (ValueView, Budget),
                ErrorView,
            >(
                (
                    if numbers.len() == 0 {
                        ValueView::Empty
                    } else {
                        ValueView::Float(
                            (model.float)(
                                FloatOp::Quotient(
                                    (model.float)(
                                        FloatOp::Sum(
                                            float_total(model.float, numbers),
                                            (model.float)(
                                                FloatOp::FromInt(int_total(numbers) as i128),
                                            ),
                                        ),
                                    ),
                                    numbers.len() as u64,
                                ),
                            ),
                        )
                    },
                    left,
                ),
            )
        }),
{
    contributions_are_taken(values, sources);
    totals_add_up(model.float, "avg"@, taken(values, sources), sources, budget);
}

/// A sum or an average of a value that is no number is refused, with the first
/// such value.
pub proof fn only_numbers_are_added(
    model: ScalarModel,
    func: AggFunc,
    values: Seq<ValueView>,
    k: int,
    budget: Budget,
)
    requires
        func == AggFunc::Sum || func == AggFunc::Avg,
        budget.used <= budget.limit,
        ({
            let present = values.filter(|v: ValueView| v != ValueView::Empty);
            0 <= k < present.len() <= u64::MAX && all_numbers(present.take(k)) && !(
            present[k] is Int) && !(present[k] is Float)
        }),
    ensures
        aggregate_of(model, func, values, None, budget) == Err::<(ValueView, Budget), ErrorView>(
            non_numeric_error(
                (if func == AggFunc::Sum {
                    "sum"@
                } else {
                    "avg"@
                }),
                values.filter(|v: ValueView| v != ValueView::Empty)[k].type_id(),
            ),
        ),
{
    let test = |v: ValueView| v != ValueView::Empty;
    let present = values.filter(test);
    contributions_are_taken(values, None);
    all_but_nulls_are_taken(values);
    values.lemma_filter_pred(test, k);
    refused_value_is_first(model.float, "sum"@, present, k, budget);
    refused_value_is_first(model.float, "avg"@, present, k, budget);
}

proof fn extreme_stands_out(order: OrderModel, values: Seq<ValueView>, wanted: Order) -> (at: int)
    requires
        total_order(order),
        wanted == Order::Less || wanted == Order::Greater,
        values.len() > 0,
    ensures
        0 <= at < values.len(),
        extreme(order, values, wanted) == Some(values[at]),
        forall|i: int| 0 <= i < values.len() ==> order(#[trigger] values[i], values[at]) != wanted,
        forall|i: int| 0 <= i < at ==> order(values[at], #[trigger] values[i]) == wanted,
    decreases values.len(),
{
    let less = values.drop_last();
    let last = values.len() - 1;
    if less.len() == 0 {
        assert(extreme(order, less, wanted) is None);
        assert(order(values[0], values[0]) == Order::Equal);
        last
    } else {
        let before = extreme_stands_out(order, less, wanted);
        let best = less[before];
        assert(best == values[before]);
        if order(values.last(), best) == wanted {
            assert forall|i: int| 0 <= i < last implies order(values[last], #[trigger] values[i])
                == wanted by {
                assert(less[i] == values[i]);
                assert(order(less[i], best) != wanted);
                assert(order(values[i], best) == order(best, values[i]).spec_reversed());
                assert(order(values[last], best) == order(best, values[last]).spec_reversed());
                assert(order(values[last], values[i]) == order(
                    values[i],
                    values[last],
                ).spec_reversed());
                if wanted == Order::Less {
                    if order(values[i], values[last]) != Order::Greater {
                        assert(order(best, values[i]) != Order::Greater);
                        assert(order(best, values[last]) != Order::Greater);
                    }
                } else {
                    if order(values[last], values[i]) != Order::Greater {
                        assert(order(values[i], best) != Order::Greater);
                        assert(order(values[last], best) != Order::Greater);
                    }
                }
            }
            assert forall|i: int| 0 <= i < values.len() implies order(
                #[trigger] values[i],
                values[last],
            ) != wanted by {
                assert(order(values[last], values[last]) == Order::Equal);
                if i < last {
                    assert(order(values[last], values[i]) == wanted);
                    assert(order(values[i], values[last]) == order(
                        values[last],
                        values[i],
                    ).spec_reversed());
                }
            }
            last
        } else {
            assert forall|i: int| 0 <= i < values.len() implies order(
                #[trigger] values[i],
                values[before],
            ) != wanted by {
                if i < last {
                    assert(less[i] == values[i]);
                }
            }
            assert forall|i: int| 0 <= i < before implies order(values[before], #[trigger] values[i])
                == wanted by {
                assert(less[i] == values[i]);
            }
            before
        }
    }
}

/// The least and the greatest of values: one of them that is not null and to which
/// none is less, or greater, and the first of those; and null where all are.
pub proof fn extremes_stand_out(
    model: ScalarModel,
    func: AggFunc,
    values: Seq<ValueView>,
    sources: Option<Seq<Option<RowId>>>,
    budget: Budget,
)
    requires
        total_order(model.order),
        func == AggFunc::Min || func == AggFunc::Max,
    ensures
        ({
            let beyond = if func == AggFunc::Min {
                Order::Less
            } else {
                Order::Greater
            };
            &&& aggregate_of(model, func, values, sources, budget) matches Ok((best, left))
            &&& left == budget
            &&& (forall|i: int| 0 <= i < values.len() ==> #[trigger] values[i] == ValueView::Empty)
                <==> best == ValueView::Empty
            &&& best != ValueView::Empty ==> values.contains(best)
            &&& best != ValueView::Empty ==> forall|i: int|
                0 <= i < values.len() && #[trigger] values[i] != ValueView::Empty ==> (model.order)(
                    values[i],
                    best,
                ) != beyond
        }),
{
    let beyond = if func == AggFunc::Min {
        Order::Less
    } else {
        Order::Greater
    };
    let test = |v: ValueView| v != ValueView::Empty;
    let present = values.filter(test);
    contributions_are_taken(values, None);
    all_but_nulls_are_taken(values);
    assert(non_null(values) == present);
    assert forall|i: int| 0 <= i < values.len() && #[trigger] values[i] != ValueView::Empty implies present.contains(
        values[i],
    ) by {
        values.lemma_filter_contains(test, i);
    }
    if present.len() > 0 {
        let at = extreme_stands_out(model.order, present, beyond);
        values.lemma_filter_pred(test, at);
        values.lemma_filter_contains_rev(test, present[at]);
        let k = choose|k: int| 0 <= k < values.len() && values[k] == present[at];
        assert(values[k] != ValueView::Empty);
        assert forall|i: int| 0 <= i < values.len() && #[trigger] values[i] != ValueView::Empty implies (
        model.order)(values[i], present[at]) != beyond by {
            let j = choose|j: int| 0 <= j < present.len() && present[j] == values[i];
            assert((model.order)(present[j], present[at]) != beyond);
        }
    } else {
        assert forall|i: int| 0 <= i < values.len() implies #[trigger] values[i]
            == ValueView::Empty by {
            if values[i] != ValueView::Empty {
                assert(present.contains(values[i]));
            }
        }
    }
}

/// A scalar aggregate over rows is the aggregate of what its argument is on each of
/// them; a count without an argument counts the rows.
pub proof fn scalar_aggregates_take_every_row(
    model: ScalarModel,
    func: AggFunc,
    argument: ExprView,
    columns: Seq<Seq<char>>,
    rows: Seq<Seq<ValueView>>,
)
    ensures
        argument != ExprView::Field("*"@) || func != AggFunc::Count ==> aggregate_rows_of(
            model,
            func,
            Some(argument),
            columns,
            rows,
        ) == (match aggregate_of(
            model,
            func,
            rows.map_values(|row: Seq<ValueView>| (model.eval)(argument, row, columns)),
            None,
            no_budget(),
        ) {
            Ok((value, _)) => Ok::<ResultView, ErrorView>(ResultView::Scalar(value)),
            Err(error) => Err(error),
        }),
        aggregate_rows_of(model, AggFunc::Count, None, columns, rows) == Ok::<ResultView, ErrorView>(
            ResultView::Scalar(ValueView::Int(rows.len() as i64)),
        ),
        aggregate_rows_of(model, AggFunc::Count, Some(ExprView::Field("*"@)), columns, rows) == Ok::<
            ResultView,
            ErrorView,
        >(ResultView::Scalar(ValueView::Int(rows.len() as i64))),
{
    assert(evaluated(model.eval, argument, rows, columns) =~= rows.map_values(
        |row: Seq<ValueView>| (model.eval)(argument, row, columns),
    ));
}

/// A symmetric count, sum or average takes the argument of every row, with the
/// stored row that its source has behind it; the least, the greatest and the number
/// of distinct values need none.
pub proof fn symmetric_aggregates_take_every_row(
    model: ScalarModel,
    func: AggFunc,
    argument: ExprView,
    input: ProvenanceView,
    s: int,
    budget: Budget,
)
    requires
        input.source_aliases.no_duplicates(),
        0 <= s < input.source_aliases.len(),
    ensures
        func == AggFunc::Count || func == AggFunc::Sum || func == AggFunc::Avg
            ==> aggregate_provenance_of(
            model,
            func,
            Some(argument),
            input,
            input.source_aliases[s],
            budget,
        ) == (match aggregate_of(
            model,
            func,
            input.rows.map_values(
                |row: Seq<ValueView>| (model.eval)(argument, row, input.columns),
            ),
            Some(input.provenance.map_values(|rids: Seq<Option<RowId>>| rids[s])),
            budget,
        ) {
            Ok((value, left)) => Ok::<(ResultView, Budget), ErrorView>(
                (ResultView::Scalar(value), left),
            ),
            Err(error) => Err(error),
        }),
        func == AggFunc::Min || func == AggFunc::Max || func == AggFunc::CountDistinct
            ==> aggregate_provenance_of(
            model,
            func,
            Some(argument),
            input,
            input.source_aliases[s],
            budget,
        ) == (match aggregate_rows_of(model, func, Some(argument), input.columns, input.rows) {
            Ok(result) => Ok::<(ResultView, Budget), ErrorView>((result, budget)),
            Err(error) => Err(error),
        }),
{
    crate::seqs::name_position_is(input.source_aliases, input.source_aliases[s], s);
    assert(evaluated(model.eval, argument, input.rows, input.columns) =~= input.rows.map_values(
        |row: Seq<ValueView>| (model.eval)(argument, row, input.columns),
    ));
    assert(input.sources(s) =~= input.provenance.map_values(|rids: Seq<Option<RowId>>| rids[s]));
}

} // verus!
