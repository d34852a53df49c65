//! The order of rows by a list of keys.

use vstd::prelude::*;

use crate::error::QueryError;
use crate::expr::Expr;
use crate::scalars::{
    compare_order_values, order_clause, order_clause_is_total, total_order, FloatOp, Order,
    OrderModel, Scalars,
};
use crate::sort::{
    comes_before, first_positions, leading_order_is_unique, lists_first, sorted_order_is_unique,
    sorts, stable_order, Comparator,
};
use crate::value::{Value, ValueView};

verus! {

/// How one key orders two rows: by the order of values, or, as a key of an
/// `order` clause, with nulls last.
pub open spec fn key_order(
    order: OrderModel,
    left: ValueView,
    right: ValueView,
    direction: Option<bool>,
) -> Order {
    match direction {
        None => order(left, right),
        Some(descending) => order_clause(order, left, right, descending),
    }
}

/// How the first `n` keys order two rows: by the first that tells them apart.
pub open spec fn keys_order(
    order: OrderModel,
    left: Seq<ValueView>,
    right: Seq<ValueView>,
    directions: Seq<Option<bool>>,
    n: int,
) -> Order
    decreases n,
{
    if n <= 0 {
        Order::Equal
    } else {
        match keys_order(order, left, right, directions, n - 1) {
            Order::Equal => key_order(order, left[n - 1], right[n - 1], directions[n - 1]),
            decided => decided,
        }
    }
}

/// The order of rows by their keys.
pub open spec fn row_order(order: OrderModel, directions: Seq<Option<bool>>) -> spec_fn(
    Seq<ValueView>,
    Seq<ValueView>,
) -> Order {
    |a: Seq<ValueView>, b: Seq<ValueView>|
        keys_order(order, a, b, directions, directions.len() as int)
}

proof fn key_order_laws(
    order: OrderModel,
    direction: Option<bool>,
    a: ValueView,
    b: ValueView,
    c: ValueView,
)
    requires
        total_order(order),
    ensures
        key_order(order, a, a, direction) == Order::Equal,
        key_order(order, a, b, direction) == key_order(order, b, a, direction).spec_reversed(),
        key_order(order, a, b, direction) != Order::Greater && key_order(order, b, c, direction)
            != Order::Greater ==> key_order(order, a, c, direction) != Order::Greater,
{
    match direction {
        None => {
            assert(order(a, a) == Order::Equal);
            assert(order(a, b) == order(b, a).spec_reversed());
            assert(order(a, b) != Order::Greater && order(b, c) != Order::Greater ==> order(a, c)
                != Order::Greater);
        },
        Some(descending) => {
            order_clause_is_total(order, descending);
            let f = |x: ValueView, y: ValueView| order_clause(order, x, y, descending);
            assert(f(a, a) == Order::Equal);
            assert(f(a, b) == f(b, a).spec_reversed());
            assert(f(a, b) != Order::Greater && f(b, c) != Order::Greater ==> f(a, c)
                != Order::Greater);
        },
    }
}

proof fn keys_order_laws(
    order: OrderModel,
    directions: Seq<Option<bool>>,
    a: Seq<ValueView>,
    b: Seq<ValueView>,
    c: Seq<ValueView>,
    n: int,
)
    requires
        total_order(order),
        0 <= n,
    ensures
        keys_order(order, a, a, directions, n) == Order::Equal,
        keys_order(order, a, b, directions, n) == keys_order(
            order,
            b,
            a,
            directions,
            n,
        ).spec_reversed(),
        keys_order(order, a, b, directions, n) != Order::Greater && keys_order(
            order,
            b,
            c,
            directions,
            n,
        ) != Order::Greater ==> keys_order(order, a, c, directions, n) != Order::Greater,
        keys_order(order, a, b, directions, n) == Order::Equal && keys_order(
            order,
            b,
            c,
            directions,
            n,
        ) == Order::Equal ==> keys_order(order, a, c, directions, n) == Order::Equal,
        keys_order(order, a, b, directions, n) == Order::Less && keys_order(
            order,
            b,
            c,
            directions,
            n,
        ) != Order::Greater ==> keys_order(order, a, c, directions, n) == Order::Less,
        keys_order(order, a, b, directions, n) != Order::Greater && keys_order(
            order,
            b,
            c,
            directions,
            n,
        ) == Order::Less ==> keys_order(order, a, c, directions, n) == Order::Less,
    decreases n,
{
    if n > 0 {
        keys_order_laws(order, directions, a, b, c, n - 1);
        keys_order_laws(order, directions, c, a, b, n - 1);
        keys_order_laws(order, directions, b, c, a, n - 1);
        let d = directions[n - 1];
        let (x, y, z) = (a[n - 1], b[n - 1], c[n - 1]);
        key_order_laws(order, d, x, y, z);
        key_order_laws(order, d, y, z, x);
        key_order_laws(order, d, z, x, y);
        key_order_laws(order, d, x, z, y);
        key_order_laws(order, d, z, y, x);
        key_order_laws(order, d, y, x, z);
    }
}

/// Ordering rows by a list of keys is a total preorder.
pub proof fn row_order_is_total(order: OrderModel, directions: Seq<Option<bool>>)
    requires
        total_order(order),
    ensures
        total_order(row_order(order, directions)),
{
    let f = row_order(order, directions);
    let n = directions.len() as int;
    assert forall|a: Seq<ValueView>| #[trigger] f(a, a) == Order::Equal by {
        keys_order_laws(order, directions, a, a, a, n);
    }
    assert forall|a: Seq<ValueView>, b: Seq<ValueView>| #[trigger] f(a, b) == f(b, a).spec_reversed() by {
        keys_order_laws(order, directions, a, b, b, n);
    }
    assert forall|a: Seq<ValueView>, b: Seq<ValueView>, c: Seq<ValueView>|
        #![trigger f(a, b), f(b, c)]
        f(a, b) != Order::Greater && f(b, c) != Order::Greater implies f(a, c) != Order::Greater by {
        keys_order_laws(order, directions, a, b, c, n);
    }
}

/// How two rows are ordered by their keys.
pub fn compare_keys<
    E: Fn(&Expr, &Vec<Value>, &Vec<String>) -> Value,
    C: Fn(&Value, &Value) -> Order,
    F: Fn(FloatOp) -> u64,
>(
    scalars: &Scalars<E, C, F>,
    left: &Vec<Value>,
    right: &Vec<Value>,
    directions: &Vec<Option<bool>>,
) -> (order: Order)
    requires
        scalars.ok(),
        left.len() == directions.len(),
        right.len() == directions.len(),
    ensures
        order == keys_order(
            scalars.ordering(),
            left.deep_view(),
            right.deep_view(),
            directions@,
            directions.len() as int,
        ),
{
    let mut i: usize = 0;
    while i < directions.len()
        invariant
            scalars.ok(),
            i <= directions.len(),
            left.len() == directions.len(),
            right.len() == directions.len(),
            keys_order(
                scalars.ordering(),
                left.deep_view(),
                right.deep_view(),
                directions@,
                i as int,
            ) == Order::Equal,
        decreases directions.len() - i,
    {
        let decided = match directions[i] {
            None => scalars.order_values(&left[i], &right[i]),
            Some(descending) => compare_order_values(scalars, &left[i], &right[i], descending),
        };
        match decided {
            Order::Equal => {},
            _ => {
                proof {
                    keys_order_decided(
                        scalars.ordering(),
                        left.deep_view(),
                        right.deep_view(),
                        directions@,
                        i + 1,
                        directions.len() as int,
                    );
                }
                return decided;
            },
        }
        i = i + 1;
    }
    Order::Equal
}

proof fn keys_order_decided(
    order: OrderModel,
    left: Seq<ValueView>,
    right: Seq<ValueView>,
    directions: Seq<Option<bool>>,
    k: int,
    n: int,
)
    requires
        0 <= k <= n,
        keys_order(order, left, right, directions, k) != Order::Equal,
    ensures
        keys_order(order, left, right, directions, n) == keys_order(
            order,
            left,
            right,
            directions,
            k,
        ),
    decreases n,
{
    if k < n {
        keys_order_decided(order, left, right, directions, k, n - 1);
    }
}

/// The positions of rows in stable sorted order of their keys.
pub open spec fn sorted_positions(
    order: OrderModel,
    keys: Seq<Seq<ValueView>>,
    directions: Seq<Option<bool>>,
) -> Seq<usize> {
    choose|positions: Seq<usize>| #[trigger] sorts(positions, keys, row_order(order, directions))
}

/// The positions of rows in stable sorted order of their keys.
pub fn sort_by_keys<
    E: Fn(&Expr, &Vec<Value>, &Vec<String>) -> Value,
    C: Fn(&Value, &Value) -> Order,
    F: Fn(FloatOp) -> u64,
    P: Fn() -> Result<(), QueryError>,
>(
    scalars: &Scalars<E, C, F>,
    keys: &Vec<Vec<Value>>,
    directions: &Vec<Option<bool>>,
    poll: &P,
) -> (sorted: Result<Vec<usize>, QueryError>)
    requires
        scalars.ok(),
        call_requires(*poll, ()),
        forall|i: int| 0 <= i < keys.len() ==> (#[trigger] keys[i]).len() == directions.len(),
    ensures
        match sorted {
            Ok(order) => order@ == sorted_positions(
                scalars.ordering(),
                keys.deep_view(),
                directions@,
            ) && sorts(order@, keys.deep_view(), row_order(scalars.ordering(), directions@)),
            Err(error) => call_ensures(*poll, (), Err(error)),
        },
{
    let ghost order_model = scalars.ordering();
    let ghost views = keys.deep_view();
    let ghost by_view = row_order(order_model, directions@);
    let ghost model = |a: Vec<Value>, b: Vec<Value>| by_view(a.deep_view(), b.deep_view());
    let compare = |a: &Vec<Value>, b: &Vec<Value>| -> (order: Order)
        requires
            scalars.ok(),
            a.len() == directions.len(),
            b.len() == directions.len(),
        ensures
            order == keys_order(
                scalars.ordering(),
                a.deep_view(),
                b.deep_view(),
                directions@,
                directions.len() as int,
            ),
        { compare_keys(scalars, a, b, directions) };
    let comparator: Comparator<Vec<Value>, _> = Comparator::with_model(compare, Ghost(model));
    proof {
        row_order_is_total(order_model, directions@);
        assert(total_order(model)) by {
            assert forall|a: Vec<Value>| #[trigger] model(a, a) == Order::Equal by {
                assert(by_view(a.deep_view(), a.deep_view()) == Order::Equal);
            }
            assert forall|a: Vec<Value>, b: Vec<Value>| #[trigger] model(a, b) == model(
                b,
                a,
            ).spec_reversed() by {
                assert(by_view(a.deep_view(), b.deep_view()) == by_view(
                    b.deep_view(),
                    a.deep_view(),
                ).spec_reversed());
            }
            assert forall|a: Vec<Value>, b: Vec<Value>, c: Vec<Value>|
                #![trigger model(a, b), model(b, c)]
                model(a, b) != Order::Greater && model(b, c) != Order::Greater implies model(a, c)
                != Order::Greater by {
                let (x, y, z) = (a.deep_view(), b.deep_view(), c.deep_view());
                assert(by_view(x, y) != Order::Greater && by_view(y, z) != Order::Greater
                    ==> by_view(x, z) != Order::Greater);
            }
        }
        assert(comparator.ok(keys@));
    }
    let positions = stable_order(keys, &comparator, poll)?;
    proof {
        assert(sorts(positions@, views, by_view)) by {
            assert forall|i: int, j: int|
                #![trigger positions[i], positions[j]]
                0 <= i < j < views.len() implies comes_before(
                views,
                by_view,
                positions[i] as int,
                positions[j] as int,
            ) by {
                assert(comes_before(keys@, model, positions[i] as int, positions[j] as int));
                assert(views[positions[i] as int] == keys@[positions[i] as int].deep_view());
                assert(views[positions[j] as int] == keys@[positions[j] as int].deep_view());
            }
        }
        sorted_order_is_unique(
            positions@,
            sorted_positions(order_model, views, directions@),
            views,
            by_view,
        );
    }
    Ok(positions)
}

/// The positions of the first `limit` rows in stable sorted order of their keys,
/// found in one pass that never holds more than that many.
pub fn lead_by_keys<
    E: Fn(&Expr, &Vec<Value>, &Vec<String>) -> Value,
    C: Fn(&Value, &Value) -> Order,
    F: Fn(FloatOp) -> u64,
>(
    scalars: &Scalars<E, C, F>,
    keys: &Vec<Vec<Value>>,
    directions: &Vec<Option<bool>>,
    limit: usize,
) -> (first: Vec<usize>)
    requires
        scalars.ok(),
        forall|i: int| 0 <= i < keys.len() ==> (#[trigger] keys[i]).len() == directions.len(),
    ensures
        first@ == leading_positions(
            scalars.ordering(),
            keys.deep_view(),
            directions@,
            limit as int,
        ),
        first.len() == (if limit < keys.len() { limit } else { keys.len() }),
        forall|i: int| 0 <= i < first.len() ==> #[trigger] first[i] < keys.len(),
{
    let ghost order_model = scalars.ordering();
    let ghost views = keys.deep_view();
    let ghost by_view = row_order(order_model, directions@);
    let ghost model = |a: Vec<Value>, b: Vec<Value>| by_view(a.deep_view(), b.deep_view());
    let compare = |a: &Vec<Value>, b: &Vec<Value>| -> (order: Order)
        requires
            scalars.ok(),
            a.len() == directions.len(),
            b.len() == directions.len(),
        ensures
            order == keys_order(
                scalars.ordering(),
                a.deep_view(),
                b.deep_view(),
                directions@,
                directions.len() as int,
            ),
        { compare_keys(scalars, a, b, directions) };
    let comparator: Comparator<Vec<Value>, _> = Comparator::with_model(compare, Ghost(model));
    proof {
        row_order_is_total(order_model, directions@);
        assert(total_order(model)) by {
            assert forall|a: Vec<Value>| #[trigger] model(a, a) == Order::Equal by {
                assert(by_view(a.deep_view(), a.deep_view()) == Order::Equal);
            }
            assert forall|a: Vec<Value>, b: Vec<Value>| #[trigger] model(a, b) == model(
                b,
                a,
            ).spec_reversed() by {
                assert(by_view(a.deep_view(), b.deep_view()) == by_view(
                    b.deep_view(),
                    a.deep_view(),
                ).spec_reversed());
            }
            assert forall|a: Vec<Value>, b: Vec<Value>, c: Vec<Value>|
                #![trigger model(a, b), model(b, c)]
                model(a, b) != Order::Greater && model(b, c) != Order::Greater implies model(a, c)
                != Order::Greater by {
                let (x, y, z) = (a.deep_view(), b.deep_view(), c.deep_view());
                assert(by_view(x, y) != Order::Greater && by_view(y, z) != Order::Greater
                    ==> by_view(x, z) != Order::Greater);
            }
        }
        assert(comparator.ok(keys@));
    }
    let first = first_positions(keys, &comparator, limit);
    proof {
        assert(views.len() == keys.len());
        assert(lists_first(first@, views, by_view, limit as int, views.len() as int)) by {
            assert forall|i: int, j: int|
                #![trigger first[i], first[j]]
                0 <= i < j < first.len() implies comes_before(
                views,
                by_view,
                first[i] as int,
                first[j] as int,
            ) by {
                assert(comes_before(keys@, model, first[i] as int, first[j] as int));
                assert(views[first[i] as int] == keys@[first[i] as int].deep_view());
                assert(views[first[j] as int] == keys@[first[j] as int].deep_view());
            }
            assert forall|i: int, p: int|
                0 <= i < first.len() && 0 <= p < views.len() && !(first@.contains(p as usize)) implies
                #[trigger] comes_before(views, by_view, first[i] as int, p) by {
                assert(comes_before(keys@, model, first[i] as int, p));
                assert(views[first[i] as int] == keys@[first[i] as int].deep_view());
                assert(views[p] == keys@[p].deep_view());
            }
        }
        leading_order_is_unique(
            first@,
            leading_positions(order_model, views, directions@, limit as int),
            views,
            by_view,
            limit as int,
        );
    }
    first
}

/// The positions of the first `limit` rows in stable sorted order of their keys.
pub open spec fn leading_positions(
    order: OrderModel,
    keys: Seq<Seq<ValueView>>,
    directions: Seq<Option<bool>>,
    limit: int,
) -> Seq<usize> {
    choose|first: Seq<usize>| #[trigger]
        lists_first(first, keys, row_order(order, directions), limit, keys.len() as int)
}

} // verus!
