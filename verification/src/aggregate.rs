//! Aggregates over a list of values, with or without the rows that they came
//! from.

use std::collections::HashSet;
use vstd::prelude::*;

use crate::error::{outcome, Budget, ErrorView, QueryError, QueryResult, ResultView};
use crate::expr::{AggFunc, Expr, ExprView};
use crate::keys::KeyTable;
use crate::scalars::{EvalModel, FloatModel, FloatOp, Order, OrderModel, ScalarModel, Scalars};
use crate::seqs::{firsts, firsts_are_distinct, name_position};
use crate::session::{answered, answered_within};
use crate::text::{position, push_text};
use crate::value::{TypeId, Value, ValueView};

verus! {

/// Where a row is stored.
#[derive(Debug, Clone, Copy, PartialEq, Eq, Structural)]
pub struct RowId {
    pub page_id: u32,
    pub slot_index: u16,
}

/// The bytes that one entry of a set of row ids takes.
pub const SYMMETRIC_RID_SET_ENTRY_BYTES: usize = 24;

/// The name of a type in messages.
pub open spec fn type_label(t: TypeId) -> Seq<char> {
    match t {
        TypeId::Int => "int"@,
        TypeId::Float => "float"@,
        TypeId::Bool => "bool"@,
        TypeId::Str => "str"@,
        TypeId::DateTime => "datetime"@,
        TypeId::Uuid => "uuid"@,
        TypeId::Bytes => "bytes"@,
        TypeId::Json => "json"@,
        TypeId::Empty => "empty"@,
    }
}

/// The name of a type in messages.
pub fn type_label_text(t: TypeId) -> (label: &'static str)
    ensures
        label@ == type_label(t),
{
    match t {
        TypeId::Int => "int",
        TypeId::Float => "float",
        TypeId::Bool => "bool",
        TypeId::Str => "str",
        TypeId::DateTime => "datetime",
        TypeId::Uuid => "uuid",
        TypeId::Bytes => "bytes",
        TypeId::Json => "json",
        TypeId::Empty => "empty",
    }
}

/// The name of an aggregate in messages.
pub open spec fn agg_label(func: AggFunc) -> Seq<char> {
    match func {
        AggFunc::Count => "count"@,
        AggFunc::CountDistinct => "countdistinct"@,
        AggFunc::Sum => "sum"@,
        AggFunc::Avg => "avg"@,
        AggFunc::Min => "min"@,
        AggFunc::Max => "max"@,
    }
}

/// The name of an aggregate in messages.
pub fn agg_label_text(func: AggFunc) -> (label: &'static str)
    ensures
        label@ == agg_label(func),
{
    match func {
        AggFunc::Count => "count",
        AggFunc::CountDistinct => "countdistinct",
        AggFunc::Sum => "sum",
        AggFunc::Avg => "avg",
        AggFunc::Min => "min",
        AggFunc::Max => "max",
    }
}

/// The error for a value that cannot be added.
pub open spec fn non_numeric_error(label: Seq<char>, t: TypeId) -> ErrorView {
    ErrorView::TypeError(
        label + " requires a numeric argument, but a "@ + type_label(t)
            + " value was aggregated"@,
    )
}

/// The error for an integer total that leaves `i64`.
pub open spec fn overflow_error(label: Seq<char>) -> ErrorView {
    ErrorView::Execution("cannot compute "@ + label + ": the integer total overflows int64"@)
}

fn non_numeric_agg_error(label: &str, value: &Value) -> (error: QueryError)
    ensures
        error.deep_view() == non_numeric_error(label@, value.deep_view().type_id()),
{
    let mut message = label.to_owned();
    push_text(&mut message, " requires a numeric argument, but a ");
    push_text(&mut message, type_label_text(value.type_id()));
    push_text(&mut message, " value was aggregated");
    QueryError::TypeError(message)
}

/// The error for an integer total that leaves `i64`, shared by every path.
pub fn agg_overflow_error(label: &str) -> (error: QueryError)
    ensures
        error.deep_view() == overflow_error(label@),
{
    let mut message = "cannot compute ".to_owned();
    push_text(&mut message, label);
    push_text(&mut message, ": the integer total overflows int64");
    QueryError::Execution(message)
}

/// A running total: the integers exactly, the floats as a float, and how many
/// values contributed.
#[derive(Debug, Clone, Copy, PartialEq, Eq, Structural)]
pub struct NumericAgg {
    pub int_sum: i128,
    pub float_sum: u64,
    pub saw_float: bool,
    pub count: u64,
}

/// The total of nothing. The bits of positive zero are zero.
pub open spec fn numeric_zero() -> NumericAgg {
    NumericAgg { int_sum: 0, float_sum: 0, saw_float: false, count: 0 }
}

/// The total with one more value. Null contributes nothing; a value that is
/// neither an int nor a float is an error.
pub open spec fn numeric_push(
    floats: FloatModel,
    label: Seq<char>,
    total: NumericAgg,
    value: ValueView,
) -> Result<NumericAgg, ErrorView> {
    match value {
        ValueView::Int(n) => if i128::MIN <= total.int_sum + n <= i128::MAX {
            Ok(
                NumericAgg {
                    int_sum: (total.int_sum + n) as i128,
                    count: (total.count + 1) as u64,
                    ..total
                },
            )
        } else {
            Err(overflow_error(label))
        },
        ValueView::Float(bits) => Ok(
            NumericAgg {
                float_sum: floats(FloatOp::Sum(total.float_sum, bits)),
                saw_float: true,
                count: (total.count + 1) as u64,
                ..total
            },
        ),
        ValueView::Empty => Ok(total),
        _ => Err(non_numeric_error(label, value.type_id())),
    }
}

/// The sum of a total: an int unless a float contributed.
pub open spec fn numeric_sum(
    floats: FloatModel,
    label: Seq<char>,
    total: NumericAgg,
) -> Result<ValueView, ErrorView> {
    if total.saw_float {
        Ok(
            ValueView::Float(
                floats(FloatOp::Sum(total.float_sum, floats(FloatOp::FromInt(total.int_sum)))),
            ),
        )
    } else if i64::MIN <= total.int_sum <= i64::MAX {
        Ok(ValueView::Int(total.int_sum as i64))
    } else {
        Err(overflow_error(label))
    }
}

/// The average of a total: a float, or null where nothing contributed.
pub open spec fn numeric_avg(floats: FloatModel, total: NumericAgg) -> ValueView {
    if total.count == 0 {
        ValueView::Empty
    } else {
        ValueView::Float(
            floats(
                FloatOp::Quotient(
                    floats(FloatOp::Sum(total.float_sum, floats(FloatOp::FromInt(total.int_sum)))),
                    total.count,
                ),
            ),
        )
    }
}

impl NumericAgg {
    /// The total of nothing.
    pub fn new() -> (total: NumericAgg)
        ensures
            total == numeric_zero(),
    {
        NumericAgg { int_sum: 0, float_sum: 0, saw_float: false, count: 0 }
    }

    /// Fold one value in. A value that is refused leaves the total as it was.
    pub fn push<
        E: Fn(&Expr, &Vec<Value>, &Vec<String>) -> Value,
        C: Fn(&Value, &Value) -> Order,
        F: Fn(FloatOp) -> u64,
    >(&mut self, scalars: &Scalars<E, C, F>, label: &str, value: &Value) -> (pushed: Result<
        (),
        QueryError,
    >)
        requires
            scalars.ok(),
            old(self).count < u64::MAX,
        ensures
            match pushed {
                Ok(_) => numeric_push(scalars.floats(), label@, *old(self), value.deep_view()) == Ok::<
                    NumericAgg,
                    ErrorView,
                >(*final(self)),
                Err(error) => numeric_push(scalars.floats(), label@, *old(self), value.deep_view())
                    == Err::<NumericAgg, ErrorView>(error.deep_view()) && *final(self) == *old(self),
            },
    {
        match value {
            Value::Int(n) => {
                match self.int_sum.checked_add(*n as i128) {
                    Some(sum) => {
                        self.int_sum = sum;
                    },
                    None => {
                        return Err(agg_overflow_error(label));
                    },
                }
            },
            Value::Float(bits) => {
                self.float_sum = scalars.float_op(FloatOp::Sum(self.float_sum, *bits));
                self.saw_float = true;
            },
            Value::Empty => {
                return Ok(());
            },
            other => {
                return Err(non_numeric_agg_error(label, other));
            },
        }
        self.count = self.count + 1;
        Ok(())
    }

    /// The sum.
    pub fn sum<
        E: Fn(&Expr, &Vec<Value>, &Vec<String>) -> Value,
        C: Fn(&Value, &Value) -> Order,
        F: Fn(FloatOp) -> u64,
    >(&self, scalars: &Scalars<E, C, F>, label: &str) -> (sum: Result<Value, QueryError>)
        requires
            scalars.ok(),
        ensures
            outcome(sum) == numeric_sum(scalars.floats(), label@, *self),
    {
        if self.saw_float {
            let ints: u64 = scalars.float_op(FloatOp::FromInt(self.int_sum));
            return Ok(Value::Float(scalars.float_op(FloatOp::Sum(self.float_sum, ints))));
        }
        if self.int_sum < i64::MIN as i128 || self.int_sum > i64::MAX as i128 {
            Err(agg_overflow_error(label))
        } else {
            Ok(Value::Int(self.int_sum as i64))
        }
    }

    /// The average.
    pub fn avg<
        E: Fn(&Expr, &Vec<Value>, &Vec<String>) -> Value,
        C: Fn(&Value, &Value) -> Order,
        F: Fn(FloatOp) -> u64,
    >(&self, scalars: &Scalars<E, C, F>) -> (avg: Value)
        requires
            scalars.ok(),
        ensures
            avg.deep_view() == numeric_avg(scalars.floats(), *self),
    {
        if self.count == 0 {
            Value::Empty
        } else {
            let ints: u64 = scalars.float_op(FloatOp::FromInt(self.int_sum));
            let total: u64 = scalars.float_op(FloatOp::Sum(self.float_sum, ints));
            Value::Float(scalars.float_op(FloatOp::Quotient(total, self.count)))
        }
    }
}

/// Row `i` contributes to a count, sum or average: its value is not null and,
/// where the source rows are known, its source row exists and has not
/// contributed before.
pub open spec fn contributes(
    values: Seq<ValueView>,
    sources: Option<Seq<Option<RowId>>>,
    i: int,
) -> bool {
    &&& !(values[i] is Empty)
    &&& match sources {
        None => true,
        Some(rids) => rids[i] is Some && forall|j: int|
            0 <= j < i && !(values[j] is Empty) ==> #[trigger] rids[j] != rids[i],
    }
}

/// The values of the first `n` rows that contribute.
pub open spec fn contributions(
    values: Seq<ValueView>,
    sources: Option<Seq<Option<RowId>>>,
    n: int,
) -> Seq<ValueView>
    decreases n,
{
    if n <= 0 {
        Seq::empty()
    } else if contributes(values, sources, n - 1) {
        contributions(values, sources, n - 1).push(values[n - 1])
    } else {
        contributions(values, sources, n - 1)
    }
}

/// The total of `values`, where each takes `bytes` of the budget first.
pub open spec fn charged_total(
    floats: FloatModel,
    label: Seq<char>,
    numeric: bool,
    values: Seq<ValueView>,
    bytes: int,
    budget: Budget,
) -> Result<(NumericAgg, Budget), ErrorView>
    decreases values.len(),
{
    if values.len() == 0 {
        Ok((numeric_zero(), budget))
    } else {
        match charged_total(floats, label, numeric, values.drop_last(), bytes, budget) {
            Err(error) => Err(error),
            Ok((total, held)) => if bytes > 0 && held.used + bytes > held.limit {
                Err(ErrorView::MemoryLimitExceeded { limit: held.limit })
            } else if !numeric {
                Ok((total, if bytes > 0 { held.after(bytes) } else { held }))
            } else {
                match numeric_push(floats, label, total, values.last()) {
                    Ok(next) => Ok((next, if bytes > 0 { held.after(bytes) } else { held })),
                    Err(error) => Err(error),
                }
            },
        }
    }
}

/// The values that are not null.
pub open spec fn non_null(values: Seq<ValueView>) -> Seq<ValueView> {
    contributions(values, None, values.len() as int)
}

/// The least or greatest of `values`, the earliest where several tie.
pub open spec fn extreme(order: OrderModel, values: Seq<ValueView>, wanted: Order) -> Option<ValueView>
    decreases values.len(),
{
    if values.len() == 0 {
        None
    } else {
        match extreme(order, values.drop_last(), wanted) {
            None => Some(values.last()),
            Some(best) => if order(values.last(), best) == wanted {
                Some(values.last())
            } else {
                Some(best)
            },
        }
    }
}

/// What an aggregate gives on `values`, and the budget that it leaves.
pub open spec fn aggregate_of(
    model: ScalarModel,
    func: AggFunc,
    values: Seq<ValueView>,
    sources: Option<Seq<Option<RowId>>>,
    budget: Budget,
) -> Result<(ValueView, Budget), ErrorView> {
    let label = agg_label(func);
    let bytes = if sources is Some { SYMMETRIC_RID_SET_ENTRY_BYTES as int } else { 0 };
    let taken = contributions(values, sources, values.len() as int);
    match func {
        AggFunc::Count => match charged_total(model.float, label, false, taken, bytes, budget) {
            Ok((_, held)) => Ok((ValueView::Int(taken.len() as i64), held)),
            Err(error) => Err(error),
        },
        AggFunc::Sum => match charged_total(model.float, label, true, taken, bytes, budget) {
            Ok((total, held)) => match numeric_sum(model.float, label, total) {
                Ok(sum) => Ok((sum, held)),
                Err(error) => Err(error),
            },
            Err(error) => Err(error),
        },
        AggFunc::Avg => match charged_total(model.float, label, true, taken, bytes, budget) {
            Ok((total, held)) => Ok((numeric_avg(model.float, total), held)),
            Err(error) => Err(error),
        },
        AggFunc::CountDistinct => Ok(
            (ValueView::Int(firsts(non_null(values)).len() as i64), budget),
        ),
        AggFunc::Min => Ok((or_null(extreme(model.order, non_null(values), Order::Less)), budget)),
        AggFunc::Max => Ok((or_null(extreme(model.order, non_null(values), Order::Greater)), budget)),
    }
}

/// The value, or null where there is none.
pub open spec fn or_null(value: Option<ValueView>) -> ValueView {
    match value {
        Some(v) => v,
        None => ValueView::Empty,
    }
}

/// The contributions of fewer rows begin those of more.
proof fn contributions_grow(
    values: Seq<ValueView>,
    sources: Option<Seq<Option<RowId>>>,
    i: int,
    n: int,
)
    requires
        0 <= i <= n,
    ensures
        contributions(values, sources, i).len() <= contributions(values, sources, n).len(),
        contributions(values, sources, i).len() <= i,
        contributions(values, sources, n).take(contributions(values, sources, i).len() as int)
            == contributions(values, sources, i),
    decreases n,
{
    let short = contributions(values, sources, i);
    if i == n {
        assert(short.take(short.len() as int) =~= short);
        if n > 0 {
            contributions_grow(values, sources, n - 1, n - 1);
        }
    } else {
        contributions_grow(values, sources, i, n - 1);
        let rest = contributions(values, sources, n - 1);
        assert(contributions(values, sources, n).take(short.len() as int) =~= rest.take(
            short.len() as int,
        ));
    }
}

/// An error on the first values is the error on all of them.
proof fn charged_total_error_stays(
    floats: FloatModel,
    label: Seq<char>,
    numeric: bool,
    values: Seq<ValueView>,
    bytes: int,
    budget: Budget,
    k: int,
)
    requires
        0 <= k <= values.len(),
        charged_total(floats, label, numeric, values.take(k), bytes, budget) is Err,
    ensures
        charged_total(floats, label, numeric, values, bytes, budget) == charged_total(
            floats,
            label,
            numeric,
            values.take(k),
            bytes,
            budget,
        ),
    decreases values.len(),
{
    if k == values.len() {
        assert(values.take(k) =~= values);
    } else {
        assert(values.drop_last().take(k) =~= values.take(k));
        charged_total_error_stays(floats, label, numeric, values.drop_last(), bytes, budget, k);
    }
}

/// The source rows as mathematics.
pub open spec fn sources_view(sources: Option<Vec<Option<RowId>>>) -> Option<Seq<Option<RowId>>> {
    match sources {
        Some(rids) => Some(rids@),
        None => None,
    }
}

/// The number that stands for a row id in a set.
spec fn packed(rid: RowId) -> int {
    rid.page_id * 65536 + rid.slot_index
}

fn pack(rid: RowId) -> (code: u64)
    ensures
        code == packed(rid),
{
    rid.page_id as u64 * 65536 + rid.slot_index as u64
}

/// `seen` holds the source rows of the non-null values before row `i`.
spec fn holds_sources(
    seen: Set<u64>,
    values: Seq<ValueView>,
    sources: Option<Seq<Option<RowId>>>,
    i: int,
) -> bool {
    sources matches Some(rids) ==> forall|code: u64| #[trigger]
        seen.contains(code) <==> exists|j: int|
            0 <= j < i && !(values[j] is Empty) && (#[trigger] rids[j]) is Some && packed(
                rids[j]->0,
            ) == code
}

/// Whether row `i` contributes, given the source rows that came before; takes
/// the source row's entry from the budget when it does.
fn accept_symmetric_contribution(
    value: &Value,
    i: usize,
    sources: &Option<Vec<Option<RowId>>>,
    seen: &mut HashSet<u64>,
    budget: &mut Budget,
    Ghost(values): Ghost<Seq<ValueView>>,
) -> (accepted: Result<bool, QueryError>)
    requires
        i < values.len(),
        value.deep_view() == values[i as int],
        sources_view(*sources) matches Some(rids) ==> rids.len() == values.len(),
        holds_sources(old(seen)@, values, sources_view(*sources), i as int),
    ensures
        match accepted {
            Ok(yes) => yes == contributes(values, sources_view(*sources), i as int)
                && holds_sources(final(seen)@, values, sources_view(*sources), i + 1)
                && *final(budget) == (if yes && *sources is Some {
                old(budget).after(SYMMETRIC_RID_SET_ENTRY_BYTES as int)
            } else {
                *old(budget)
            }) && (yes && *sources is Some ==> old(budget).used + SYMMETRIC_RID_SET_ENTRY_BYTES
                <= old(budget).limit),
            Err(error) => *sources is Some && contributes(values, sources_view(*sources), i as int)
                && old(budget).used + SYMMETRIC_RID_SET_ENTRY_BYTES > old(budget).limit
                && error.deep_view() == (ErrorView::MemoryLimitExceeded { limit: old(budget).limit }),
        },
{
    broadcast use vstd::std_specs::hash::group_hash_axioms;

    if value.is_empty() {
        return Ok(false);
    }
    match sources {
        None => Ok(true),
        Some(rids) => {
            let ghost before = seen@;
            match rids[i] {
                None => {
                    assert forall|code: u64| #[trigger] seen@.contains(code) <==> exists|j: int|
                        0 <= j < i + 1 && !(values[j] is Empty) && (#[trigger] rids@[j]) is Some
                            && packed(rids@[j]->0) == code by {
                        if seen@.contains(code) {
                            let j = choose|j: int|
                                0 <= j < i && !(values[j] is Empty) && (#[trigger] rids@[j]) is Some
                                    && packed(rids@[j]->0) == code;
                            assert(0 <= j < i + 1 && rids@[j] is Some);
                        }
                    }
                    Ok(false)
                },
                Some(rid) => {
                    let code: u64 = pack(rid);
                    let fresh = seen.insert(code);
                    proof {
                        assert(seen@ == before.insert(code));
                        assert(fresh == !before.contains(code));
                        assert forall|c: u64| #[trigger] seen@.contains(c) <==> exists|j: int|
                            0 <= j < i + 1 && !(values[j] is Empty) && (#[trigger] rids@[j]) is Some
                                && packed(rids@[j]->0) == c by {
                            if c == code {
                                assert(rids@[i as int] is Some && packed(rids@[i as int]->0) == c);
                            } else if before.contains(c) {
                                let j = choose|j: int|
                                    0 <= j < i && !(values[j] is Empty) && (#[trigger] rids@[j]) is Some
                                        && packed(rids@[j]->0) == c;
                                assert(0 <= j < i + 1 && rids@[j] is Some);
                            }
                        }
                        if fresh {
                            assert forall|j: int|
                                0 <= j < i && !(values[j] is Empty) implies #[trigger] rids@[j]
                                != rids@[i as int] by {
                                if rids@[j] == rids@[i as int] {
                                    assert(rids@[j] is Some && packed(rids@[j]->0) == code);
                                    assert(before.contains(code));
                                }
                            }
                        } else {
                            let j = choose|j: int|
                                0 <= j < i && !(values[j] is Empty) && (#[trigger] rids@[j]) is Some
                                    && packed(rids@[j]->0) == code;
                            assert(rids@[j]->0 == rid);
                            assert(rids@[j] == rids@[i as int]);
                        }
                    }
                    if !fresh {
                        return Ok(false);
                    }
                    match budget.charge(SYMMETRIC_RID_SET_ENTRY_BYTES) {
                        Ok(_) => Ok(true),
                        Err(error) => Err(error),
                    }
                },
            }
        },
    }
}

/// An aggregate of `values`, where `sources` gives the source row of each: a
/// source row that a join repeats contributes to a count, sum or average once.
/// Each value asks `poll`.
#[verifier::spinoff_prover]
pub fn aggregate_values<
    E: Fn(&Expr, &Vec<Value>, &Vec<String>) -> Value,
    C: Fn(&Value, &Value) -> Order,
    F: Fn(FloatOp) -> u64,
    P: Fn() -> Result<(), QueryError>,
>(
    scalars: &Scalars<E, C, F>,
    func: AggFunc,
    values: &Vec<Value>,
    sources: &Option<Vec<Option<RowId>>>,
    budget: &mut Budget,
    poll: &P,
) -> (result: Result<Value, QueryError>)
    requires
        scalars.ok(),
        call_requires(*poll, ()),
        sources_view(*sources) matches Some(rids) ==> rids.len() == values.len(),
    ensures
        answered_within(
            result,
            *final(budget),
            aggregate_of(
                scalars.model@,
                func,
                values.deep_view(),
                sources_view(*sources),
                *old(budget),
            ),
            *poll,
        ),
{
    match func {
        AggFunc::CountDistinct => {
            let n: usize = count_distinct(values, poll)?;
            Ok(Value::Int(n as i64))
        },
        AggFunc::Min => extreme_value(scalars, values, Order::Less, poll),
        AggFunc::Max => extreme_value(scalars, values, Order::Greater, poll),
        AggFunc::Count => {
            let (count, total) = total_values(scalars, func, values, sources, budget, poll)?;
            Ok(Value::Int(count as i64))
        },
        AggFunc::Sum => {
            let (count, total) = total_values(scalars, func, values, sources, budget, poll)?;
            total.sum(scalars, agg_label_text(func))
        },
        AggFunc::Avg => {
            let (count, total) = total_values(scalars, func, values, sources, budget, poll)?;
            Ok(total.avg(scalars))
        },
    }
}

fn total_values<
    E: Fn(&Expr, &Vec<Value>, &Vec<String>) -> Value,
    C: Fn(&Value, &Value) -> Order,
    F: Fn(FloatOp) -> u64,
    P: Fn() -> Result<(), QueryError>,
>(
    scalars: &Scalars<E, C, F>,
    func: AggFunc,
    values: &Vec<Value>,
    sources: &Option<Vec<Option<RowId>>>,
    budget: &mut Budget,
    poll: &P,
) -> (result: Result<(usize, NumericAgg), QueryError>)
    requires
        scalars.ok(),
        call_requires(*poll, ()),
        func is Count || func is Sum || func is Avg,
        sources_view(*sources) matches Some(rids) ==> rids.len() == values.len(),
    ensures
        ({
            let taken = contributions(
                values.deep_view(),
                sources_view(*sources),
                values.len() as int,
            );
            let bytes = if *sources is Some { SYMMETRIC_RID_SET_ENTRY_BYTES as int } else { 0 };
            let expected = charged_total(
                scalars.floats(),
                agg_label(func),
                !(func is Count),
                taken,
                bytes,
                *old(budget),
            );
            match result {
                Ok((count, total)) => count == taken.len() && expected == Ok::<
                    (NumericAgg, Budget),
                    ErrorView,
                >((total, *final(budget))),
                Err(error) => expected == Err::<(NumericAgg, Budget), ErrorView>(error.deep_view())
                    || call_ensures(*poll, (), Err(error)),
            }
        }),
{
    let label = agg_label_text(func);
    let numeric: bool = match func {
        AggFunc::Count => false,
        _ => true,
    };
    let ghost vals = values.deep_view();
    let ghost srcs = sources_view(*sources);
    let ghost bytes = if *sources is Some { SYMMETRIC_RID_SET_ENTRY_BYTES as int } else { 0 };
    let ghost start = *budget;
    let mut seen: HashSet<u64> = HashSet::new();
    let mut total = NumericAgg::new();
    let mut count: usize = 0;
    let mut i: usize = 0;
    while i < values.len()
        invariant
            scalars.ok(),
            call_requires(*poll, ()),
            i <= values.len(),
            vals == values.deep_view(),
            srcs == sources_view(*sources),
            srcs matches Some(rids) ==> rids.len() == values.len(),
            bytes == (if *sources is Some { SYMMETRIC_RID_SET_ENTRY_BYTES as int } else { 0 }),
            start == *old(budget),
            label@ == agg_label(func),
            numeric == !(func is Count),
            holds_sources(seen@, vals, srcs, i as int),
            count == contributions(vals, srcs, i as int).len(),
            count <= i,
            total.count <= i,
            charged_total(
                scalars.floats(),
                label@,
                numeric,
                contributions(vals, srcs, i as int),
                bytes,
                start,
            ) == Ok::<(NumericAgg, Budget), ErrorView>((total, *budget)),
        decreases values.len() - i,
    {
        poll()?;
        let ghost before = contributions(vals, srcs, i as int);
        let ghost after = contributions(vals, srcs, i + 1);
        let ghost whole = contributions(vals, srcs, vals.len() as int);
        proof {
            contributions_grow(vals, srcs, i as int, vals.len() as int);
            contributions_grow(vals, srcs, i + 1, vals.len() as int);
        }
        match accept_symmetric_contribution(
            &values[i],
            i,
            sources,
            &mut seen,
            budget,
            Ghost(vals),
        ) {
            Err(error) => {
                proof {
                    assert(after.drop_last() =~= before);
                    assert(charged_total(scalars.floats(), label@, numeric, after, bytes, start)
                        is Err);
                    charged_total_error_stays(
                        scalars.floats(),
                        label@,
                        numeric,
                        whole,
                        bytes,
                        start,
                        after.len() as int,
                    );
                }
                return Err(error);
            },
            Ok(accepted) => {
                if accepted {
                    assert(after.drop_last() =~= before);
                    assert(after.last() == vals[i as int]);
                    count = count + 1;
                    if numeric {
                        match total.push(scalars, label, &values[i]) {
                            Ok(_) => {},
                            Err(error) => {
                                proof {
                                    charged_total_error_stays(
                                        scalars.floats(),
                                        label@,
                                        numeric,
                                        whole,
                                        bytes,
                                        start,
                                        after.len() as int,
                                    );
                                }
                                return Err(error);
                            },
                        }
                    }
                }
            },
        }
        i = i + 1;
    }
    Ok((count, total))
}

/// How many distinct values there are, nulls aside.
fn count_distinct<P: Fn() -> Result<(), QueryError>>(values: &Vec<Value>, poll: &P) -> (n: Result<
    usize,
    QueryError,
>)
    requires
        call_requires(*poll, ()),
    ensures
        match n {
            Ok(n) => n == firsts(non_null(values.deep_view())).len(),
            Err(error) => call_ensures(*poll, (), Err(error)),
        },
{
    let ghost vals = values.deep_view();
    let mut table = KeyTable::new();
    let mut i: usize = 0;
    assert(table@ =~= firsts(contributions(vals, None, 0)).map_values(|v: ValueView| seq![v]));
    while i < values.len()
        invariant
            call_requires(*poll, ()),
            i <= values.len(),
            vals == values.deep_view(),
            table.wf(),
            table@ == firsts(contributions(vals, None, i as int)).map_values(|v: ValueView| seq![v]),
        decreases values.len() - i,
    {
        poll()?;
        let ghost before = contributions(vals, None, i as int);
        let ghost after = contributions(vals, None, i + 1);
        if !values[i].is_empty() {
            let mut key: Vec<Value> = Vec::new();
            key.push(values[i].clone());
            proof {
                assert(key.deep_view() =~= seq![vals[i as int]]);
                assert(after.drop_last() =~= before);
                firsts_are_distinct(before);
                let f = |v: ValueView| seq![v];
                assert(table@.contains(seq![vals[i as int]]) <==> firsts(before).contains(
                    vals[i as int],
                )) by {
                    if table@.contains(seq![vals[i as int]]) {
                        let k = choose|k: int|
                            0 <= k < table@.len() && table@[k] == seq![vals[i as int]];
                        assert(seq![firsts(before)[k]][0] == seq![vals[i as int]][0]);
                    }
                    if firsts(before).contains(vals[i as int]) {
                        let k = choose|k: int|
                            0 <= k < firsts(before).len() && firsts(before)[k] == vals[i as int];
                        assert(table@[k] == seq![vals[i as int]]);
                    }
                }
                assert(before.contains(vals[i as int]) <==> firsts(before).contains(vals[i as int]));
            }
            let number: usize = table.find_or_insert(key);
            assert(table@ =~= firsts(after).map_values(|v: ValueView| seq![v]));
        }
        i = i + 1;
    }
    Ok(table.len())
}

/// The least or greatest value, nulls aside, or null where there is none.
fn extreme_value<
    E: Fn(&Expr, &Vec<Value>, &Vec<String>) -> Value,
    C: Fn(&Value, &Value) -> Order,
    F: Fn(FloatOp) -> u64,
    P: Fn() -> Result<(), QueryError>,
>(scalars: &Scalars<E, C, F>, values: &Vec<Value>, wanted: Order, poll: &P) -> (best: Result<
    Value,
    QueryError,
>)
    requires
        scalars.ok(),
        call_requires(*poll, ()),
    ensures
        match best {
            Ok(best) => best.deep_view() == or_null(
                extreme(scalars.ordering(), non_null(values.deep_view()), wanted),
            ),
            Err(error) => call_ensures(*poll, (), Err(error)),
        },
{
    let ghost vals = values.deep_view();
    let mut best: Option<usize> = None;
    let mut i: usize = 0;
    while i < values.len()
        invariant
            scalars.ok(),
            call_requires(*poll, ()),
            i <= values.len(),
            vals == values.deep_view(),
            best matches Some(b) ==> b < values.len(),
            (match best {
                Some(b) => Some(vals[b as int]),
                None => None,
            }) == extreme(scalars.ordering(), contributions(vals, None, i as int), wanted),
        decreases values.len() - i,
    {
        poll()?;
        if !values[i].is_empty() {
            assert(contributions(vals, None, i + 1).drop_last() =~= contributions(
                vals,
                None,
                i as int,
            ));
            match best {
                None => {
                    best = Some(i);
                },
                Some(b) => {
                    if scalars.order_values(&values[i], &values[b]) == wanted {
                        best = Some(i);
                    }
                },
            }
        }
        i = i + 1;
    }
    match best {
        Some(b) => Ok(values[b].clone()),
        None => Ok(Value::Empty),
    }
}

/// Rows, each with the stored row that every source of the query gave it.
pub struct ProvenanceRows {
    pub columns: Vec<String>,
    pub rows: Vec<Vec<Value>>,
    pub source_aliases: Vec<String>,
    pub provenance: Vec<Vec<Option<RowId>>>,
}

/// What [`ProvenanceRows`] stands for.
pub struct ProvenanceView {
    pub columns: Seq<Seq<char>>,
    pub rows: Seq<Seq<ValueView>>,
    pub source_aliases: Seq<Seq<char>>,
    pub provenance: Seq<Seq<Option<RowId>>>,
}

/// The source rows of each row.
pub open spec fn provenance_view(provenance: Seq<Vec<Option<RowId>>>) -> Seq<Seq<Option<RowId>>> {
    Seq::new(provenance.len(), |i: int| provenance[i]@)
}

impl DeepView for ProvenanceRows {
    type V = ProvenanceView;

    open spec fn deep_view(&self) -> ProvenanceView {
        ProvenanceView {
            columns: self.columns.deep_view(),
            rows: self.rows.deep_view(),
            source_aliases: self.source_aliases.deep_view(),
            provenance: provenance_view(self.provenance@),
        }
    }
}

impl ProvenanceView {
    /// Every row has its provenance, with one entry for each source.
    pub open spec fn wf(self) -> bool {
        &&& self.provenance.len() == self.rows.len()
        &&& forall|i: int|
            0 <= i < self.provenance.len() ==> (#[trigger] self.provenance[i]).len()
                == self.source_aliases.len()
    }

    /// The stored rows of source `s`.
    pub open spec fn sources(self, s: int) -> Seq<Option<RowId>> {
        Seq::new(self.provenance.len(), |i: int| self.provenance[i][s])
    }
}

impl ProvenanceRows {
    /// The number of the source with this alias.
    pub fn source_index(&self, alias: &String) -> (at: Option<usize>)
        ensures
            match at {
                Some(i) => i < self.source_aliases.len() && name_position(
                    self.source_aliases.deep_view(),
                    alias@,
                ) == Some(i as int),
                None => name_position(self.source_aliases.deep_view(), alias@) is None,
            },
    {
        position(&self.source_aliases, alias)
    }

    /// The stored rows of source `s`.
    pub fn source_rows(&self, s: usize) -> (rids: Vec<Option<RowId>>)
        requires
            self.deep_view().wf(),
            s < self.source_aliases.len(),
        ensures
            rids@ == self.deep_view().sources(s as int),
    {
        let mut rids: Vec<Option<RowId>> = Vec::new();
        let mut i: usize = 0;
        let ghost view = self.deep_view();
        while i < self.provenance.len()
            invariant
                i <= self.provenance.len(),
                view == self.deep_view(),
                view.wf(),
                s < self.source_aliases.len(),
                rids.len() == i,
                forall|j: int| 0 <= j < i ==> #[trigger] rids[j] == view.provenance[j][s as int],
            decreases self.provenance.len() - i,
        {
            assert(view.provenance[i as int].len() == view.source_aliases.len());
            rids.push(self.provenance[i][s]);
            i = i + 1;
        }
        assert(rids@ =~= view.sources(s as int));
        rids
    }
}

/// The value of `expr` on each row.
pub open spec fn evaluated(
    eval: EvalModel,
    expr: ExprView,
    rows: Seq<Seq<ValueView>>,
    columns: Seq<Seq<char>>,
) -> Seq<ValueView> {
    Seq::new(rows.len(), |i: int| eval(expr, rows[i], columns))
}

/// The value of `expr` on each row, each of which asks `poll`.
pub fn eval_column<
    E: Fn(&Expr, &Vec<Value>, &Vec<String>) -> Value,
    C: Fn(&Value, &Value) -> Order,
    F: Fn(FloatOp) -> u64,
    P: Fn() -> Result<(), QueryError>,
>(
    scalars: &Scalars<E, C, F>,
    expr: &Expr,
    rows: &Vec<Vec<Value>>,
    columns: &Vec<String>,
    poll: &P,
) -> (values: Result<Vec<Value>, QueryError>)
    requires
        scalars.ok(),
        call_requires(*poll, ()),
    ensures
        match values {
            Ok(values) => values.deep_view() == evaluated(
                scalars.values(),
                expr.deep_view(),
                rows.deep_view(),
                columns.deep_view(),
            ) && values.len() == rows.len(),
            Err(error) => call_ensures(*poll, (), Err(error)),
        },
{
    let mut values: Vec<Value> = Vec::new();
    let mut i: usize = 0;
    while i < rows.len()
        invariant
            scalars.ok(),
            call_requires(*poll, ()),
            i <= rows.len(),
            values.len() == i,
            forall|j: int|
                0 <= j < i ==> (#[trigger] values[j]).deep_view() == (scalars.values())(
                    expr.deep_view(),
                    rows.deep_view()[j],
                    columns.deep_view(),
                ),
        decreases rows.len() - i,
    {
        poll()?;
        values.push(scalars.eval_expr(expr, &rows[i], columns));
        i = i + 1;
    }
    assert(values.deep_view() =~= evaluated(
        scalars.values(),
        expr.deep_view(),
        rows.deep_view(),
        columns.deep_view(),
    ));
    Ok(values)
}

/// A count of this argument counts rows, not values.
pub open spec fn counts_every_row(argument: Option<ExprView>) -> bool {
    argument is None || is_star(argument->0)
}

/// The argument that stands for the whole row.
pub open spec fn is_star(expr: ExprView) -> bool {
    expr == ExprView::Field("*"@)
}

/// Whether `expr` stands for the whole row.
pub fn expr_is_star(expr: &Expr) -> (star: bool)
    ensures
        star == is_star(expr.deep_view()),
{
    match expr {
        Expr::Field(name) => {
            let star = "*".to_owned();
            *name == star
        },
        _ => false,
    }
}

/// A budget for aggregates that take none.
pub open spec fn no_budget() -> Budget {
    Budget { used: 0, limit: 0 }
}

/// What a scalar aggregate answers over rows.
pub open spec fn aggregate_rows_of(
    model: ScalarModel,
    func: AggFunc,
    argument: Option<ExprView>,
    columns: Seq<Seq<char>>,
    rows: Seq<Seq<ValueView>>,
) -> Result<ResultView, ErrorView> {
    if func is Count && counts_every_row(argument) {
        Ok(ResultView::Scalar(ValueView::Int(rows.len() as i64)))
    } else if argument is None {
        Err(ErrorView::Execution(agg_label(func) + " requires an argument"@))
    } else {
        match aggregate_of(
            model,
            func,
            evaluated(model.eval, argument->0, rows, columns),
            None,
            no_budget(),
        ) {
            Ok((value, _)) => Ok(ResultView::Scalar(value)),
            Err(error) => Err(error),
        }
    }
}

/// A scalar aggregate over rows.
pub fn aggregate_rows<
    E: Fn(&Expr, &Vec<Value>, &Vec<String>) -> Value,
    C: Fn(&Value, &Value) -> Order,
    F: Fn(FloatOp) -> u64,
    P: Fn() -> Result<(), QueryError>,
>(
    scalars: &Scalars<E, C, F>,
    func: AggFunc,
    argument: Option<&Expr>,
    columns: &Vec<String>,
    rows: &Vec<Vec<Value>>,
    poll: &P,
) -> (result: Result<QueryResult, QueryError>)
    requires
        scalars.ok(),
        call_requires(*poll, ()),
    ensures
        answered(
            result,
            aggregate_rows_of(
                scalars.model@,
                func,
                argument.deep_view(),
                columns.deep_view(),
                rows.deep_view(),
            ),
            *poll,
        ),
{
    let every_row: bool = match argument {
        None => true,
        Some(expr) => expr_is_star(expr),
    };
    let counting: bool = match func {
        AggFunc::Count => true,
        _ => false,
    };
    if counting && every_row {
        return Ok(QueryResult::Scalar(Value::Int(rows.len() as i64)));
    }
    match argument {
        None => {
            let mut message = agg_label_text(func).to_owned();
            push_text(&mut message, " requires an argument");
            Err(QueryError::Execution(message))
        },
        Some(expr) => {
            let values = eval_column(scalars, expr, rows, columns, poll)?;
            let mut budget = Budget { used: 0, limit: 0 };
            let sources: Option<Vec<Option<RowId>>> = None;
            let value = aggregate_values(scalars, func, &values, &sources, &mut budget, poll)?;
            Ok(QueryResult::Scalar(value))
        },
    }
}

/// What a scalar aggregate answers over rows of a join, with each source row
/// counted once, and the budget that it leaves.
pub open spec fn aggregate_provenance_of(
    model: ScalarModel,
    func: AggFunc,
    argument: Option<ExprView>,
    input: ProvenanceView,
    alias: Seq<char>,
    budget: Budget,
) -> Result<(ResultView, Budget), ErrorView> {
    let source = name_position(input.source_aliases, alias);
    if func is Min || func is Max || func is CountDistinct {
        match aggregate_rows_of(model, func, argument, input.columns, input.rows) {
            Ok(result) => Ok((result, budget)),
            Err(error) => Err(error),
        }
    } else if argument is None {
        Err(
            ErrorView::Execution(
                "symmetric aggregate requires a source-valued argument; use raw"@,
            ),
        )
    } else if source is None {
        Err(ErrorView::Execution(missing_alias_message(alias)))
    } else {
        match aggregate_of(
            model,
            func,
            evaluated(model.eval, argument->0, input.rows, input.columns),
            Some(input.sources(source->0)),
            budget,
        ) {
            Ok((value, held)) => Ok((ResultView::Scalar(value), held)),
            Err(error) => Err(error),
        }
    }
}

/// The message for an alias that no source has.
pub open spec fn missing_alias_message(alias: Seq<char>) -> Seq<char> {
    "symmetric aggregate source alias '"@ + alias + "' is not present in its input"@
}

/// The error for an alias that no source has.
pub fn missing_alias_error(alias: &String) -> (error: QueryError)
    ensures
        error.deep_view() == ErrorView::Execution(missing_alias_message(alias@)),
{
    let mut message = "symmetric aggregate source alias '".to_owned();
    push_text(&mut message, alias.as_str());
    push_text(&mut message, "' is not present in its input");
    QueryError::Execution(message)
}

/// A scalar aggregate over rows of a join, with each source row counted once.
pub fn aggregate_rows_with_provenance<
    E: Fn(&Expr, &Vec<Value>, &Vec<String>) -> Value,
    C: Fn(&Value, &Value) -> Order,
    F: Fn(FloatOp) -> u64,
    P: Fn() -> Result<(), QueryError>,
>(
    scalars: &Scalars<E, C, F>,
    func: AggFunc,
    argument: Option<&Expr>,
    input: &ProvenanceRows,
    alias: &String,
    budget: &mut Budget,
    poll: &P,
) -> (result: Result<QueryResult, QueryError>)
    requires
        scalars.ok(),
        call_requires(*poll, ()),
        input.deep_view().wf(),
    ensures
        answered_within(
            result,
            *final(budget),
            aggregate_provenance_of(
                scalars.model@,
                func,
                argument.deep_view(),
                input.deep_view(),
                alias@,
                *old(budget),
            ),
            *poll,
        ),
{
    match func {
        AggFunc::Min | AggFunc::Max | AggFunc::CountDistinct => {
            return aggregate_rows(scalars, func, argument, &input.columns, &input.rows, poll);
        },
        _ => {},
    }
    let expr = match argument {
        Some(expr) => expr,
        None => {
            return Err(
                QueryError::execution(
                    "symmetric aggregate requires a source-valued argument; use raw",
                ),
            );
        },
    };
    let source: usize = match input.source_index(alias) {
        Some(source) => source,
        None => {
            return Err(missing_alias_error(alias));
        },
    };
    let values = eval_column(scalars, expr, &input.rows, &input.columns, poll)?;
    let sources = Some(input.source_rows(source));
    let value = aggregate_values(scalars, func, &values, &sources, budget, poll)?;
    Ok(QueryResult::Scalar(value))
}

/// A source row counts at most once in a symmetric aggregate: two rows that
/// contribute have different source rows.
pub proof fn source_rows_count_once(
    values: Seq<ValueView>,
    rids: Seq<Option<RowId>>,
    i: int,
    j: int,
)
    requires
        0 <= i < j < values.len(),
        contributes(values, Some(rids), i),
        contributes(values, Some(rids), j),
    ensures
        rids[i] != rids[j],
{
}

/// A source row with a value counts: some row of it contributes.
pub proof fn every_source_row_counts(
    values: Seq<ValueView>,
    rids: Seq<Option<RowId>>,
    i: int,
) -> (at: int)
    requires
        0 <= i < values.len(),
        !(values[i] is Empty),
        rids[i] is Some,
    ensures
        0 <= at <= i,
        contributes(values, Some(rids), at),
        rids[at] == rids[i],
    decreases i,
{
    if contributes(values, Some(rids), i) {
        i
    } else {
        let j = choose|j: int|
            0 <= j < i && !(values[j] is Empty) && #[trigger] rids[j] == rids[i];
        every_source_row_counts(values, rids, j)
    }
}

/// Where no source row is repeated, a symmetric aggregate counts what a raw one
/// counts.
pub proof fn unrepeated_rows_count_alike(
    values: Seq<ValueView>,
    rids: Seq<Option<RowId>>,
    n: int,
)
    requires
        0 <= n <= values.len(),
        rids.len() == values.len(),
        rids.no_duplicates(),
        forall|i: int| 0 <= i < rids.len() ==> (#[trigger] rids[i]) is Some,
    ensures
        contributions(values, Some(rids), n) == contributions(values, None, n),
    decreases n,
{
    if n > 0 {
        unrepeated_rows_count_alike(values, rids, n - 1);
        assert(rids[n - 1] is Some);
    }
}

/// A total that takes nothing of a budget is the same on every budget, and leaves
/// it as it is.
pub proof fn free_totals_agree(
    floats: FloatModel,
    label: Seq<char>,
    numeric: bool,
    values: Seq<ValueView>,
    a: Budget,
    b: Budget,
)
    ensures
        match (
            charged_total(floats, label, numeric, values, 0, a),
            charged_total(floats, label, numeric, values, 0, b),
        ) {
            (Ok((total, left)), Ok((other, rest))) => total == other && left == a && rest == b,
            (Err(error), Err(other)) => error == other,
            _ => false,
        },
    decreases values.len(),
{
    if values.len() > 0 {
        free_totals_agree(floats, label, numeric, values.drop_last(), a, b);
    }
}

/// The contributions of the first `n` rows do not depend on the rows after them.
proof fn later_rows_change_nothing(
    values: Seq<ValueView>,
    rids: Seq<Option<RowId>>,
    value: ValueView,
    rid: Option<RowId>,
    n: int,
)
    requires
        0 <= n <= values.len(),
        rids.len() == values.len(),
    ensures
        contributions(values.push(value), Some(rids.push(rid)), n) == contributions(
            values,
            Some(rids),
            n,
        ),
    decreases n,
{
    if n > 0 {
        later_rows_change_nothing(values, rids, value, rid, n - 1);
        let (more, longer) = (values.push(value), rids.push(rid));
        if contributes(values, Some(rids), n - 1) {
            assert forall|j: int| 0 <= j < n - 1 && !(more[j] is Empty) implies #[trigger] longer[j]
                != longer[n - 1] by {
                assert(longer[j] == rids[j] && more[j] == values[j]);
            }
            assert(contributes(more, Some(longer), n - 1));
        }
        if contributes(more, Some(longer), n - 1) {
            assert forall|j: int| 0 <= j < n - 1 && !(values[j] is Empty) implies #[trigger] rids[j]
                != rids[n - 1] by {
                assert(longer[j] == rids[j] && more[j] == values[j]);
            }
            assert(contributes(values, Some(rids), n - 1));
        }
    }
}

/// A symmetric count, sum or average stays as it is, and takes no more of the
/// budget, when a row is added that repeats the source row and the value of row
/// `i`, as a join does, or that has no source row.
pub proof fn repeated_source_rows_add_nothing(
    model: ScalarModel,
    func: AggFunc,
    argument: ExprView,
    input: ProvenanceView,
    alias: Seq<char>,
    row: Seq<ValueView>,
    sources: Seq<Option<RowId>>,
    i: int,
    budget: Budget,
)
    requires
        func is Count || func is Sum || func is Avg,
        input.rows.len() == input.provenance.len(),
        0 <= i < input.rows.len(),
        name_position(input.source_aliases, alias) matches Some(s) && (sources[s] is None || (
        sources[s] == input.provenance[i][s] && (model.eval)(argument, row, input.columns) == (
        model.eval)(argument, input.rows[i], input.columns))),
    ensures
        aggregate_provenance_of(
            model,
            func,
            Some(argument),
            (ProvenanceView {
                rows: input.rows.push(row),
                provenance: input.provenance.push(sources),
                ..input
            }),
            alias,
            budget,
        ) == aggregate_provenance_of(model, func, Some(argument), input, alias, budget),
{
    let s = name_position(input.source_aliases, alias)->0;
    let longer = ProvenanceView {
        rows: input.rows.push(row),
        provenance: input.provenance.push(sources),
        ..input
    };
    let n = input.rows.len() as int;
    let values = evaluated(model.eval, argument, input.rows, input.columns);
    let rids = input.sources(s);
    let value = (model.eval)(argument, row, input.columns);
    let more = evaluated(model.eval, argument, longer.rows, longer.columns);
    assert(more =~= values.push(value));
    assert(longer.sources(s) =~= rids.push(sources[s]));
    later_rows_change_nothing(values, rids, value, sources[s], n);
    assert(!contributes(more, Some(longer.sources(s)), n)) by {
        assert(more[n] == value);
        assert(longer.sources(s)[n] == sources[s]);
        if sources[s] is Some && !(value is Empty) {
            assert(values[i] == value);
            assert(more[i] == value);
            assert(longer.sources(s)[i] == rids[i]);
            assert(rids[i] == sources[s]);
        }
    }
    assert(contributions(more, Some(longer.sources(s)), n + 1) == contributions(
        values,
        Some(rids),
        n,
    ));
}

} // verus!
