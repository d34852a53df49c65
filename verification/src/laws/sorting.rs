//! In which order sorted rows come.

use vstd::prelude::*;

use crate::group::ints;
use crate::ordering::{key_order, keys_order, row_order, row_order_is_total, sorted_positions};
use crate::scalars::{total_order, Order, OrderModel};
use crate::sort::{comes_before, sorts};
use crate::value::ValueView;

verus! {

/// One value comes before another: under an `order` key, values before nulls, and
/// among values the less, or, descending, the greater; under a plain key, the
/// less.
pub open spec fn value_before(
    order: OrderModel,
    a: ValueView,
    b: ValueView,
    direction: Option<bool>,
) -> bool {
    match direction {
        None => order(a, b) == Order::Less,
        Some(descending) => !(a is Empty) && (b is Empty || order(a, b) == (if descending {
            Order::Greater
        } else {
            Order::Less
        })),
    }
}

/// Neither of two values comes before the other.
pub open spec fn value_tied(
    order: OrderModel,
    a: ValueView,
    b: ValueView,
    direction: Option<bool>,
) -> bool {
    match direction {
        None => order(a, b) == Order::Equal,
        Some(_) => (a is Empty <==> b is Empty) && (a is Empty || order(a, b) == Order::Equal),
    }
}

/// Neither of two rows comes before the other by the first `n` keys.
pub open spec fn keys_tied(
    order: OrderModel,
    a: Seq<ValueView>,
    b: Seq<ValueView>,
    directions: Seq<Option<bool>>,
    n: int,
) -> bool {
    forall|k: int| 0 <= k < n ==> value_tied(order, a[k], b[k], #[trigger] directions[k])
}

/// The keys before key `k` leave two rows tied, and by key `k` the first comes
/// before the second.
pub open spec fn decided_by(
    order: OrderModel,
    a: Seq<ValueView>,
    b: Seq<ValueView>,
    directions: Seq<Option<bool>>,
    k: int,
) -> bool {
    keys_tied(order, a, b, directions, k) && value_before(order, a[k], b[k], directions[k])
}

/// One row comes before another: by the first key on which they are not tied.
pub open spec fn row_before(
    order: OrderModel,
    a: Seq<ValueView>,
    b: Seq<ValueView>,
    directions: Seq<Option<bool>>,
) -> bool {
    exists|k: int|
        0 <= k < directions.len() && #[trigger] decided_by(order, a, b, directions, k)
}

/// These positions are those of a sequence of `n` elements, each once.
pub open spec fn permutes(positions: Seq<int>, n: int) -> bool {
    &&& positions.len() == n
    &&& positions.no_duplicates()
    &&& forall|i: int| 0 <= i < n ==> 0 <= #[trigger] positions[i] < n
}

/// The positions of rows, each once and in the order of their keys; rows that are
/// tied stay in the order in which they come.
pub open spec fn in_stable_order(
    order: OrderModel,
    keys: Seq<Seq<ValueView>>,
    directions: Seq<Option<bool>>,
    positions: Seq<int>,
) -> bool {
    &&& permutes(positions, keys.len() as int)
    &&& forall|i: int, j: int|
        #![trigger positions[i], positions[j]]
        0 <= i < j < positions.len() ==> row_before(
            order,
            keys[positions[i]],
            keys[positions[j]],
            directions,
        ) || (positions[i] < positions[j] && keys_tied(
            order,
            keys[positions[i]],
            keys[positions[j]],
            directions,
            directions.len() as int,
        ))
}

proof fn keys_decide(
    order: OrderModel,
    a: Seq<ValueView>,
    b: Seq<ValueView>,
    directions: Seq<Option<bool>>,
    n: int,
)
    requires
        total_order(order),
        0 <= n <= directions.len(),
    ensures
        keys_order(order, a, b, directions, n) == Order::Less <==> exists|k: int|
            0 <= k < n && #[trigger] decided_by(order, a, b, directions, k),
        keys_order(order, a, b, directions, n) == Order::Equal <==> keys_tied(
            order,
            a,
            b,
            directions,
            n,
        ),
    decreases n,
{
    if n > 0 {
        keys_decide(order, a, b, directions, n - 1);
        let (x, y, d) = (a[n - 1], b[n - 1], directions[n - 1]);
        assert(order(x, y) == order(y, x).spec_reversed());
        assert(key_order(order, x, y, d) == Order::Less <==> value_before(order, x, y, d));
        assert(key_order(order, x, y, d) == Order::Equal <==> value_tied(order, x, y, d));
        assert(keys_tied(order, a, b, directions, n) <==> keys_tied(order, a, b, directions, n - 1)
            && value_tied(order, x, y, d));
        if keys_order(order, a, b, directions, n) == Order::Less {
            if keys_order(order, a, b, directions, n - 1) == Order::Less {
                let k = choose|k: int|
                    0 <= k < n - 1 && #[trigger] decided_by(order, a, b, directions, k);
                assert(0 <= k < n && decided_by(order, a, b, directions, k));
            } else {
                assert(decided_by(order, a, b, directions, n - 1));
            }
        }
        if exists|k: int| 0 <= k < n && #[trigger] decided_by(order, a, b, directions, k) {
            let k = choose|k: int| 0 <= k < n && #[trigger] decided_by(order, a, b, directions, k);
            if k < n - 1 {
                assert(0 <= k < n - 1 && decided_by(order, a, b, directions, k));
            }
        }
    }
}

/// Whatever orders items totally, there is a stable sorted order of them.
pub proof fn sorted_orders_exist<T>(items: Seq<T>, model: spec_fn(T, T) -> Order)
    requires
        total_order(model),
        items.len() <= usize::MAX,
    ensures
        exists|order: Seq<usize>| #[trigger] sorts(order, items, model),
    decreases items.len(),
{
    if items.len() == 0 {
        assert(sorts(Seq::empty(), items, model));
    } else {
        let less = items.drop_last();
        let n = less.len() as int;
        sorted_orders_exist(less, model);
        let order = choose|order: Seq<usize>| #[trigger] sorts(order, less, model);
        assert forall|i: int| 0 <= i < n implies #[trigger] less[i] == items[i] by {}
        let at = insertion_point(items, model, order, n, 0);
        let all = order.insert(at, n as usize);
        assert forall|i: int, j: int|
            #![trigger all[i], all[j]]
            0 <= i < j < items.len() implies comes_before(
            items,
            model,
            all[i] as int,
            all[j] as int,
        ) by {
            if i < at && j > at {
                assert(all[i] == order[i] && all[j] == order[j - 1]);
                assert(comes_before(less, model, order[i] as int, order[j - 1] as int));
            } else if i > at {
                assert(all[i] == order[i - 1] && all[j] == order[j - 1]);
                assert(comes_before(less, model, order[i - 1] as int, order[j - 1] as int));
            } else if j < at {
                assert(all[i] == order[i] && all[j] == order[j]);
                assert(comes_before(less, model, order[i] as int, order[j] as int));
            } else if i == at {
                assert(all[j] == order[j - 1]);
                assert(model(items[order[j - 1] as int], items[n]) == Order::Greater);
                assert(model(items[n], items[order[j - 1] as int]) == model(
                    items[order[j - 1] as int],
                    items[n],
                ).spec_reversed());
            } else {
                assert(all[i] == order[i]);
                assert(model(items[order[i] as int], items[n]) != Order::Greater);
            }
        }
        assert forall|i: int| 0 <= i < items.len() implies #[trigger] all[i] < items.len() by {
            if i > at {
                assert(all[i] == order[i - 1]);
            } else if i < at {
                assert(all[i] == order[i]);
            }
        }
        assert forall|i: int, j: int| 0 <= i < j < items.len() implies all[i] != all[j] by {
            let a = if i > at {
                order[i - 1]
            } else {
                order[i]
            };
            let b = if j > at {
                order[j - 1]
            } else {
                order[j]
            };
            assert(i != at ==> all[i] == a);
            assert(j != at ==> all[j] == b);
        }
        assert(sorts(all, items, model));
    }
}

proof fn insertion_point<T>(
    items: Seq<T>,
    model: spec_fn(T, T) -> Order,
    order: Seq<usize>,
    n: int,
    from: int,
) -> (at: int)
    requires
        total_order(model),
        n + 1 == items.len(),
        n < usize::MAX,
        sorts(order, items.drop_last(), model),
        0 <= from <= n,
        forall|i: int|
            0 <= i < from ==> model(items[#[trigger] order[i] as int], items[n]) != Order::Greater,
    ensures
        from <= at <= n,
        forall|i: int|
            0 <= i < at ==> model(items[#[trigger] order[i] as int], items[n]) != Order::Greater,
        forall|i: int|
            at <= i < n ==> model(items[#[trigger] order[i] as int], items[n]) == Order::Greater,
    decreases n - from,
{
    if from == n {
        n
    } else if model(items[order[from] as int], items[n]) != Order::Greater {
        insertion_point(items, model, order, n, from + 1)
    } else {
        let less = items.drop_last();
        assert forall|i: int| from <= i < n implies model(
            items[#[trigger] order[i] as int],
            items[n],
        ) == Order::Greater by {
            if i > from {
                let (a, b, c) = (items[order[from] as int], items[order[i] as int], items[n]);
                assert(comes_before(less, model, order[from] as int, order[i] as int));
                assert(less[order[from] as int] == a && less[order[i] as int] == b);
                assert(model(a, b) != Order::Greater);
                assert(model(b, c) != Order::Greater ==> model(a, c) != Order::Greater);
            }
        }
        from
    }
}

/// Sorting by keys lists the positions of the rows in stable order.
pub proof fn sorting_is_stable(
    order: OrderModel,
    keys: Seq<Seq<ValueView>>,
    directions: Seq<Option<bool>>,
)
    requires
        total_order(order),
        keys.len() <= usize::MAX,
    ensures
        in_stable_order(order, keys, directions, ints(sorted_positions(order, keys, directions))),
        sorts(sorted_positions(order, keys, directions), keys, row_order(order, directions)),
{
    let by = row_order(order, directions);
    row_order_is_total(order, directions);
    sorted_orders_exist(keys, by);
    let found = sorted_positions(order, keys, directions);
    assert(sorts(found, keys, by));
    let positions = ints(found);
    assert(permutes(positions, keys.len() as int)) by {
        assert forall|i: int, j: int|
            0 <= i < positions.len() && 0 <= j < positions.len() && i != j implies positions[i]
            != positions[j] by {
            assert(found[i] != found[j]);
        }
        assert forall|i: int| 0 <= i < keys.len() implies 0 <= #[trigger] positions[i]
            < keys.len() by {
            assert(found[i] < keys.len());
        }
    }
    assert forall|i: int, j: int|
        #![trigger positions[i], positions[j]]
        0 <= i < j < positions.len() implies row_before(
        order,
        keys[positions[i]],
        keys[positions[j]],
        directions,
    ) || (positions[i] < positions[j] && keys_tied(
        order,
        keys[positions[i]],
        keys[positions[j]],
        directions,
        directions.len() as int,
    )) by {
        assert(comes_before(keys, by, found[i] as int, found[j] as int));
        keys_decide(
            order,
            keys[positions[i]],
            keys[positions[j]],
            directions,
            directions.len() as int,
        );
    }
}

} // verus!
