//! Stable sorting that polls for cancellation, and the first rows of an order.

use vstd::prelude::*;
use vstd::set_lib::{lemma_int_range, lemma_len_subset, lemma_subset_equality};

use crate::error::{Budget, ErrorView, QueryError};
use crate::scalars::{total_order, Order};

verus! {

/// A comparison of two items, with the order that it computes.
#[verifier::reject_recursive_types(T)]
pub struct Comparator<T, K> {
    pub compare: K,
    pub model: Ghost<spec_fn(T, T) -> Order>,
}

/// `compare` returns on any two items of `items`, and returns what `model` says.
pub open spec fn compares_as<T, K: Fn(&T, &T) -> Order>(
    compare: K,
    items: Seq<T>,
    model: spec_fn(T, T) -> Order,
) -> bool {
    &&& forall|a: &T, b: &T|
        items.contains(*a) && items.contains(*b) ==> #[trigger] call_requires(compare, (a, b))
    &&& forall|a: &T, b: &T, order: Order| #[trigger]
        call_ensures(compare, (a, b), order) ==> order == model(*a, *b)
}

impl<T, K: Fn(&T, &T) -> Order> Comparator<T, K> {
    /// The comparison orders `items` totally.
    pub open spec fn ok(&self, items: Seq<T>) -> bool {
        &&& compares_as(self.compare, items, self.model@)
        &&& total_order(self.model@)
    }

    /// A comparison that orders every item totally.
    pub fn new(compare: K) -> (comparator: Self)
        requires
            forall|a: &T, b: &T| #[trigger] call_requires(compare, (a, b)),
            exists|model: spec_fn(T, T) -> Order| #[trigger]
                compares_as(compare, Seq::empty(), model) && total_order(model),
        ensures
            comparator.compare == compare,
            forall|items: Seq<T>| #[trigger] comparator.ok(items),
    {
        let ghost model = choose|model: spec_fn(T, T) -> Order| #[trigger]
            compares_as(compare, Seq::empty(), model) && total_order(model);
        Comparator { compare, model: Ghost(model) }
    }

    /// A comparison, together with what it computes.
    pub fn with_model(compare: K, model: Ghost<spec_fn(T, T) -> Order>) -> (comparator: Self)
        ensures
            comparator.compare == compare,
            comparator.model@ == model@,
    {
        Comparator { compare, model }
    }
}

/// Position `i` comes before position `j`: its item is less, or the two are
/// equal and it stood first.
pub open spec fn comes_before<T>(
    items: Seq<T>,
    model: spec_fn(T, T) -> Order,
    i: int,
    j: int,
) -> bool {
    ||| model(items[i], items[j]) == Order::Less
    ||| model(items[i], items[j]) == Order::Equal && i < j
}

/// `order` lists each position of a sequence of `n` items once.
pub open spec fn lists_positions(order: Seq<usize>, n: int) -> bool {
    &&& order.len() == n
    &&& forall|i: int| 0 <= i < n ==> #[trigger] order[i] < n
    &&& forall|i: int, j: int| 0 <= i < j < n ==> order[i] != order[j]
}

/// `order` lists the positions of `items` in stable sorted order.
pub open spec fn sorts<T>(
    order: Seq<usize>,
    items: Seq<T>,
    model: spec_fn(T, T) -> Order,
) -> bool {
    &&& lists_positions(order, items.len() as int)
    &&& forall|i: int, j: int|
        #![trigger order[i], order[j]]
        0 <= i < j < items.len() ==> comes_before(items, model, order[i] as int, order[j] as int)
}

/// The items at the positions that `order` lists.
pub open spec fn arranged<T>(items: Seq<T>, order: Seq<usize>) -> Seq<T> {
    Seq::new(order.len(), |i: int| items[order[i] as int])
}

/// `after` holds the items of `before`, in some order.
pub open spec fn rearranges<T>(before: Seq<T>, after: Seq<T>) -> bool {
    exists|order: Seq<usize>| #[trigger]
        lists_positions(order, before.len() as int) && after == arranged(before, order)
}

/// `after` is `before` in stable sorted order.
pub open spec fn sorted_from<T>(
    before: Seq<T>,
    after: Seq<T>,
    model: spec_fn(T, T) -> Order,
) -> bool {
    exists|order: Seq<usize>| #[trigger] sorts(order, before, model) && after == arranged(before, order)
}

/// Positions `start .. end` of `order` list the positions `start .. end` in
/// stable sorted order.
spec fn run_sorted<T>(
    order: Seq<usize>,
    items: Seq<T>,
    model: spec_fn(T, T) -> Order,
    start: int,
    end: int,
) -> bool {
    &&& forall|i: int| start <= i < end ==> start <= #[trigger] order[i] < end
    &&& forall|i: int, j: int|
        #![trigger order[i], order[j]]
        start <= i < j < end ==> comes_before(items, model, order[i] as int, order[j] as int)
}

/// Every run of `width` positions up to `limit` is sorted.
spec fn runs_sorted<T>(
    order: Seq<usize>,
    items: Seq<T>,
    model: spec_fn(T, T) -> Order,
    width: int,
    limit: int,
) -> bool {
    forall|k: int|
        #![trigger run_start(k, width)]
        0 <= k && run_start(k, width) < limit ==> run_sorted(
            order,
            items,
            model,
            run_start(k, width),
            run_end(k, width, items.len() as int),
        )
}

spec fn run_start(k: int, width: int) -> int {
    k * width
}

spec fn run_end(k: int, width: int, len: int) -> int {
    if k * width + width < len {
        k * width + width
    } else {
        len
    }
}

fn capped_sum(a: usize, b: usize, cap: usize) -> (sum: usize)
    ensures
        sum == (if a + b < cap { a + b } else { cap as int }),
{
    match a.checked_add(b) {
        Some(total) => if total < cap { total } else { cap },
        None => cap,
    }
}

proof fn comes_before_chain<T>(
    items: Seq<T>,
    model: spec_fn(T, T) -> Order,
    i: int,
    j: int,
    k: int,
)
    requires
        total_order(model),
        comes_before(items, model, i, j),
        comes_before(items, model, j, k),
    ensures
        comes_before(items, model, i, k),
{
    let (a, b, c) = (items[i], items[j], items[k]);
    assert(model(a, b) == model(b, a).spec_reversed());
    assert(model(b, c) == model(c, b).spec_reversed());
    assert(model(a, c) == model(c, a).spec_reversed());
    assert(model(a, b) != Order::Greater && model(b, c) != Order::Greater);
    assert(model(a, c) != Order::Greater);
    if model(a, c) == Order::Equal {
        assert(model(c, a) != Order::Greater);
        // c <= a <= b forces b equal to c, and b <= c <= a forces a equal to b.
        assert(model(c, a) != Order::Greater && model(a, b) != Order::Greater ==> model(c, b)
            != Order::Greater);
        assert(model(b, c) != Order::Greater && model(c, a) != Order::Greater ==> model(b, a)
            != Order::Greater);
    }
}

/// Merge the sorted runs `start .. mid` and `mid .. end` of `order` into the
/// same positions of `out`.
fn merge_runs<T, K: Fn(&T, &T) -> Order, P: Fn() -> Result<(), QueryError>>(
    items: &Vec<T>,
    comparator: &Comparator<T, K>,
    poll: &P,
    order: &Vec<usize>,
    out: &mut Vec<usize>,
    start: usize,
    mid: usize,
    end: usize,
) -> (merged: Result<(), QueryError>)
    requires
        comparator.ok(items@),
        call_requires(*poll, ()),
        order.len() == items.len(),
        old(out).len() == items.len(),
        start <= mid <= end <= items.len(),
        run_sorted(order@, items@, comparator.model@, start as int, mid as int),
        run_sorted(order@, items@, comparator.model@, mid as int, end as int),
    ensures
        final(out).len() == items.len(),
        forall|i: int| 0 <= i < start || end <= i < items.len() ==> final(out)[i] == old(out)[i],
        match merged {
            Ok(_) => run_sorted(
                final(out)@,
                items@,
                comparator.model@,
                start as int,
                end as int,
            ),
            Err(error) => call_ensures(*poll, (), Err(error)),
        },
{
    let mut left: usize = start;
    let mut right: usize = mid;
    let mut at: usize = start;
    let ghost model = comparator.model@;
    while left < mid || right < end
        invariant
            comparator.ok(items@),
            call_requires(*poll, ()),
            model == comparator.model@,
            order.len() == items.len(),
            out.len() == items.len(),
            start <= left <= mid <= right <= end <= items.len(),
            at - start == (left - start) + (right - mid),
            run_sorted(order@, items@, model, start as int, mid as int),
            run_sorted(order@, items@, model, mid as int, end as int),
            forall|i: int| 0 <= i < start || end <= i < items.len() ==> out[i] == old(out)[i],
            forall|i: int| start <= i < at ==> start <= #[trigger] out[i] < end,
            forall|i: int, j: int|
                #![trigger out[i], out[j]]
                start <= i < j < at ==> comes_before(items@, model, out[i] as int, out[j] as int),
            forall|i: int, j: int|
                #![trigger out[i], order[j]]
                start <= i < at && left <= j < mid ==> comes_before(
                    items@,
                    model,
                    out[i] as int,
                    order[j] as int,
                ),
            forall|i: int, j: int|
                #![trigger out[i], order[j]]
                start <= i < at && right <= j < end ==> comes_before(
                    items@,
                    model,
                    out[i] as int,
                    order[j] as int,
                ),
        decreases (mid - left) + (end - right),
    {
        match poll() {
            Ok(_) => {},
            Err(error) => {
                return Err(error);
            },
        }
        let take_left: bool = if left == mid {
            false
        } else if right == end {
            true
        } else {
            let a: usize = order[left];
            let b: usize = order[right];
            assert(items@.contains(items@[a as int]));
            assert(items@.contains(items@[b as int]));
            let compared = (comparator.compare)(&items[a], &items[b]);
            proof {
                assert(compared == model(items@[a as int], items@[b as int]));
                assert(model(items@[a as int], items@[b as int]) == model(
                    items@[b as int],
                    items@[a as int],
                ).spec_reversed());
                if compared != Order::Greater {
                    assert(comes_before(items@, model, a as int, b as int));
                } else {
                    assert(comes_before(items@, model, b as int, a as int));
                }
            }
            match compared {
                Order::Greater => false,
                _ => true,
            }
        };
        let ghost before = out@;
        if take_left {
            let taken: usize = order[left];
            out.set(at, taken);
            proof {
                assert forall|j: int| right <= j < end implies comes_before(
                    items@,
                    model,
                    taken as int,
                    #[trigger] order[j] as int,
                ) by {
                    if j > right {
                        comes_before_chain(
                            items@,
                            model,
                            taken as int,
                            order[right as int] as int,
                            order[j] as int,
                        );
                    }
                }
            }
            left = left + 1;
        } else {
            let taken: usize = order[right];
            out.set(at, taken);
            proof {
                assert forall|j: int| left <= j < mid implies comes_before(
                    items@,
                    model,
                    taken as int,
                    #[trigger] order[j] as int,
                ) by {
                    if j > left {
                        comes_before_chain(
                            items@,
                            model,
                            taken as int,
                            order[left as int] as int,
                            order[j] as int,
                        );
                    }
                }
            }
            right = right + 1;
        }
        at = at + 1;
    }
    Ok(())
}

/// The positions of `items` in stable sorted order: runs of one position, and
/// then of two, four and so on, merged pairwise. `poll` is asked before each
/// step and stops the sort with its error.
pub fn stable_order<T, K: Fn(&T, &T) -> Order, P: Fn() -> Result<(), QueryError>>(
    items: &Vec<T>,
    comparator: &Comparator<T, K>,
    poll: &P,
) -> (sorted: Result<Vec<usize>, QueryError>)
    requires
        comparator.ok(items@),
        call_requires(*poll, ()),
    ensures
        match sorted {
            Ok(order) => sorts(order@, items@, comparator.model@),
            Err(error) => call_ensures(*poll, (), Err(error)),
        },
{
    let len: usize = items.len();
    let mut order: Vec<usize> = Vec::new();
    let mut scratch: Vec<usize> = Vec::new();
    let mut i: usize = 0;
    while i < len
        invariant
            i <= len,
            order.len() == i,
            scratch.len() == i,
            forall|j: int| 0 <= j < i ==> #[trigger] order[j] == j,
        decreases len - i,
    {
        order.push(i);
        scratch.push(0);
        i = i + 1;
    }
    let ghost model = comparator.model@;
    let mut width: usize = 1;
    assert(runs_sorted(order@, items@, model, 1, len as int)) by {
        assert forall|k: int|
            #![trigger run_start(k, 1)]
            0 <= k && run_start(k, 1) < len as int implies run_sorted(
            order@,
            items@,
            model,
            run_start(k, 1),
            run_end(k, 1, len as int),
        ) by {
            assert(run_start(k, 1) == k);
        }
    }
    while width < len
        invariant
            comparator.ok(items@),
            call_requires(*poll, ()),
            model == comparator.model@,
            len == items.len(),
            order.len() == len,
            scratch.len() == len,
            1 <= width,
            runs_sorted(order@, items@, model, width as int, len as int),
        decreases len - width,
    {
        let step: usize = capped_sum(width, width, usize::MAX);
        let mut start: usize = 0;
        let ghost mut done: int = 0;
        while start < len
            invariant
                comparator.ok(items@),
                call_requires(*poll, ()),
                model == comparator.model@,
                len == items.len(),
                order.len() == len,
                scratch.len() == len,
                1 <= width < len,
                step == (if width + width < usize::MAX { width + width } else { usize::MAX as int }),
                start <= len,
                0 <= done,
                start == (if done * (2 * width) < len { done * (2 * width) } else { len as int }),
                runs_sorted(order@, items@, model, width as int, len as int),
                runs_sorted(scratch@, items@, model, 2 * width as int, start as int),
            decreases len - start,
        {
            let mid: usize = capped_sum(start, width, len);
            let end: usize = capped_sum(start, step, len);
            proof {
                let w = width as int;
                assert(start == done * (2 * w));
                assert(run_start(2 * done, w) == start) by (nonlinear_arith)
                    requires
                        start == done * (2 * w),
                        run_start(2 * done, w) == 2 * done * w,
                ;
                assert(run_sorted(order@, items@, model, start as int, mid as int));
                assert(run_start(2 * done + 1, w) == start + w) by (nonlinear_arith)
                    requires
                        start == done * (2 * w),
                        run_start(2 * done + 1, w) == (2 * done + 1) * w,
                ;
                assert(run_sorted(order@, items@, model, mid as int, end as int));
            }
            let ghost before = scratch@;
            match merge_runs(items, comparator, poll, &order, &mut scratch, start, mid, end) {
                Ok(_) => {},
                Err(error) => {
                    return Err(error);
                },
            }
            proof {
                let w2 = 2 * width as int;
                assert((done + 1) * w2 == done * w2 + w2) by (nonlinear_arith);
                assert forall|k: int|
                    #![trigger run_start(k, w2)]
                    0 <= k && run_start(k, w2) < end implies run_sorted(
                    scratch@,
                    items@,
                    model,
                    run_start(k, w2),
                    run_end(k, w2, len as int),
                ) by {
                    assert(k <= done) by (nonlinear_arith)
                        requires
                            run_start(k, w2) == k * w2,
                            run_start(k, w2) < end,
                            end <= done * w2 + w2,
                            w2 > 0,
                    ;
                    if k < done {
                        assert(k * w2 + w2 <= done * w2) by (nonlinear_arith)
                            requires
                                k < done,
                                w2 > 0,
                        ;
                        assert(run_start(k, w2) < start);
                        assert(run_sorted(
                            before,
                            items@,
                            model,
                            run_start(k, w2),
                            run_end(k, w2, len as int),
                        ));
                        assert(run_end(k, w2, len as int) <= start);
                        assert forall|i: int| run_start(k, w2) <= i < run_end(k, w2, len as int)
                            implies scratch[i] == before[i] by {
                            assert(0 <= run_start(k, w2)) by (nonlinear_arith)
                                requires
                                    run_start(k, w2) == k * w2,
                                    k >= 0,
                                    w2 > 0,
                            ;
                        }
                    } else {
                        assert(run_end(k, w2, len as int) == end);
                    }
                }
                done = done + 1;
            }
            start = end;
        }
        std::mem::swap(&mut order, &mut scratch);
        if step < len {
            width = step;
        } else {
            proof {
                assert(run_start(0, 2 * width as int) == 0);
                assert(run_sorted(order@, items@, model, 0, len as int));
                assert(runs_sorted(order@, items@, model, len as int, len as int)) by {
                    assert forall|k: int|
                        #![trigger run_start(k, len as int)]
                        0 <= k && run_start(k, len as int) < len as int implies run_sorted(
                        order@,
                        items@,
                        model,
                        run_start(k, len as int),
                        run_end(k, len as int, len as int),
                    ) by {
                        assert(k == 0) by (nonlinear_arith)
                            requires
                                run_start(k, len as int) == k * len,
                                run_start(k, len as int) < len,
                                k >= 0,
                                len > 0,
                        ;
                    }
                }
            }
            width = len;
        }
    }
    proof {
        if len > 0 {
            assert(run_start(0, width as int) == 0);
            assert(run_sorted(order@, items@, model, 0, len as int));
            assert forall|i: int, j: int| 0 <= i < j < len implies order[i] != order[j] by {
                assert(comes_before(items@, model, order[i] as int, order[j] as int));
                assert(model(items@[order[i] as int], items@[order[i] as int]) == Order::Equal);
            }
        }
    }
    Ok(order)
}

/// An order that lists each of `n` positions once leaves none out.
pub proof fn positions_all_listed(order: Seq<usize>, n: int, p: int)
    requires
        lists_positions(order, n),
        0 <= p < n,
    ensures
        exists|i: int| 0 <= i < n && order[i] == p,
{
    let ints = order.map_values(|x: usize| x as int);
    assert(ints.no_duplicates()) by {
        assert forall|i: int, j: int| 0 <= i < ints.len() && 0 <= j < ints.len() && i != j implies ints[i]
            != ints[j] by {
            if i < j {
                assert(order[i] != order[j]);
            } else {
                assert(order[j] != order[i]);
            }
        }
    }
    ints.unique_seq_to_set();
    let all = vstd::set_lib::set_int_range(0, n);
    lemma_int_range(0, n);
    assert(ints.to_set().subset_of(all)) by {
        assert forall|x: int| ints.to_set().contains(x) implies all.contains(x) by {
            let i = choose|i: int| 0 <= i < ints.len() && ints[i] == x;
            assert(order[i] < n);
        }
    }
    lemma_subset_equality(ints.to_set(), all);
    assert(ints.to_set().contains(p));
    let i = choose|i: int| 0 <= i < ints.len() && ints[i] == p;
    assert(order[i] == p);
}

/// The positions that are not yet where they belong.
spec fn misplaced(targets: Seq<usize>) -> Set<int> {
    vstd::set_lib::set_int_range(0, targets.len() as int).filter(|p: int| targets[p] != p)
}

/// Sort `values` in place, stably, and without moving an item before its place
/// is known. The two arrays of positions that this takes are charged to
/// `budget`; `poll` is asked throughout, and its error stops the sort with the
/// values in some order.
pub fn cooperative_stable_sort_by<T, K: Fn(&T, &T) -> Order, P: Fn() -> Result<(), QueryError>>(
    values: &mut Vec<T>,
    comparator: &Comparator<T, K>,
    budget: &mut Budget,
    poll: &P,
) -> (sorted: Result<(), QueryError>)
    requires
        comparator.ok(old(values)@),
        call_requires(*poll, ()),
    ensures
        match sorted {
            Ok(_) => sorted_from(old(values)@, final(values)@, comparator.model@) && (if old(
                values,
            ).len() < 2 {
                *final(budget) == *old(budget)
            } else {
                old(budget).used + scratch_bytes(old(values).len() as int) <= old(budget).limit
                    && *final(budget) == old(budget).after(scratch_bytes(old(values).len() as int))
            }),
            Err(error) => rearranges(old(values)@, final(values)@) && (call_ensures(
                *poll,
                (),
                Err(error),
            ) || error.deep_view() == (ErrorView::MemoryLimitExceeded { limit: old(budget).limit })
                && old(values).len() >= 2 && old(budget).used + scratch_bytes(
                old(values).len() as int,
            ) > old(budget).limit) && (*final(budget) == *old(budget) || *final(budget) == old(
                budget,
            ).after(scratch_bytes(old(values).len() as int))),
        },
{
    let ghost items = values@;
    let ghost model = comparator.model@;
    let len: usize = values.len();
    match poll() {
        Ok(_) => {},
        Err(error) => {
            proof {
                let order = Seq::new(items.len(), |i: int| i as usize);
                assert(lists_positions(order, items.len() as int));
                assert(arranged(items, order) =~= items);
            }
            return Err(error);
        },
    }
    if len < 2 {
        proof {
            let order = Seq::new(items.len(), |i: int| i as usize);
            assert(sorts(order, items, model));
            assert(arranged(items, order) =~= items);
        }
        return Ok(());
    }
    proof {
        let order = Seq::new(items.len(), |i: int| i as usize);
        assert(lists_positions(order, items.len() as int));
        assert(arranged(items, order) =~= items);
    }
    let bytes: usize = saturating_scratch(len);
    match budget.charge(bytes) {
        Ok(_) => {},
        Err(error) => {
            return Err(error);
        },
    }
    let order = match stable_order(values, comparator, poll) {
        Ok(order) => order,
        Err(error) => {
            return Err(error);
        },
    };
    let ghost target = arranged(items, order@);
    let mut scratch: Vec<usize> = Vec::new();
    let mut i: usize = 0;
    while i < len
        invariant
            i <= len,
            scratch.len() == i,
        decreases len - i,
    {
        scratch.push(0);
        i = i + 1;
    }
    let mut next: usize = 0;
    while next < len
        invariant
            call_requires(*poll, ()),
            items == old(values)@,
            *budget == old(budget).after(scratch_bytes(len as int)),
            old(budget).used + scratch_bytes(len as int) <= old(budget).limit,
            len >= 2,
            next <= len,
            len == items.len(),
            order.len() == len,
            scratch.len() == len,
            values@ == items,
            rearranges(items, values@),
            lists_positions(order@, len as int),
            forall|j: int| 0 <= j < next ==> scratch[#[trigger] order[j] as int] == j,
        decreases len - next,
    {
        match poll() {
            Ok(_) => {},
            Err(error) => {
                return Err(error);
            },
        }
        scratch.set(order[next], next);
        next = next + 1;
    }
    proof {
        assert forall|p: int| 0 <= p < len implies (#[trigger] scratch[p]) < len
            && order[scratch[p] as int] == p by {
            positions_all_listed(order@, len as int, p);
            let j = choose|j: int| 0 <= j < len && order[j] == p;
            assert(scratch[order[j] as int] == j);
        }
        assert forall|p: int, q: int| 0 <= p < q < len implies scratch[p] != scratch[q] by {
            assert(order[scratch[p] as int] == p);
            assert(order[scratch[q] as int] == q);
        }
        assert forall|p: int| 0 <= p < len implies target[#[trigger] scratch[p] as int] == values@[p] by {
            assert(order[scratch[p] as int] == p);
        }
    }
    let mut position: usize = 0;
    while position < len
        invariant
            call_requires(*poll, ()),
            items == old(values)@,
            *budget == old(budget).after(scratch_bytes(len as int)),
            old(budget).used + scratch_bytes(len as int) <= old(budget).limit,
            len >= 2,
            position <= len,
            len == items.len(),
            values.len() == len,
            target.len() == len,
            lists_positions(scratch@, len as int),
            forall|p: int| 0 <= p < len ==> target[#[trigger] scratch[p] as int] == values@[p],
            forall|p: int| 0 <= p < position ==> #[trigger] scratch[p] == p,
            target == arranged(items, order@),
            lists_positions(order@, len as int),
        decreases len - position,
    {
        while scratch[position] != position
            invariant
                call_requires(*poll, ()),
                items == old(values)@,
                *budget == old(budget).after(scratch_bytes(len as int)),
                old(budget).used + scratch_bytes(len as int) <= old(budget).limit,
                len >= 2,
                position < len,
                len == items.len(),
                values.len() == len,
                target.len() == len,
                lists_positions(scratch@, len as int),
                forall|p: int| 0 <= p < len ==> target[#[trigger] scratch[p] as int] == values@[p],
                forall|p: int| 0 <= p < position ==> #[trigger] scratch[p] == p,
                target == arranged(items, order@),
                lists_positions(order@, len as int),
            decreases misplaced(scratch@).len(),
        {
            match poll() {
                Ok(_) => {},
                Err(error) => {
                    proof {
                        let current = Seq::new(len as nat, |p: int| order[scratch[p] as int]);
                        assert(lists_positions(current, len as int)) by {
                            assert forall|p: int, q: int| 0 <= p < q < len implies current[p]
                                != current[q] by {
                                assert(scratch[p] != scratch[q]);
                                let (a, b) = (scratch[p] as int, scratch[q] as int);
                                if a < b {
                                    assert(order[a] != order[b]);
                                } else {
                                    assert(order[b] != order[a]);
                                }
                            }
                        }
                        assert(values@ =~= arranged(items, current)) by {
                            assert forall|p: int| 0 <= p < len implies values@[p] == #[trigger] arranged(
                                items,
                                current,
                            )[p] by {
                                assert(target[scratch[p] as int] == values@[p]);
                            }
                        }
                    }
                    return Err(error);
                },
            }
            let destination: usize = scratch[position];
            let ghost before = scratch@;
            let ghost values_before = values@;
            proof {
                if destination < position {
                    assert(scratch[destination as int] == destination);
                    assert(scratch[destination as int] != scratch[position as int]);
                }
            }
            swap_items(values, position, destination);
            let moved: usize = scratch[destination];
            scratch.set(position, moved);
            scratch.set(destination, destination);
            proof {
                assert(before[destination as int] != before[position as int]);
                assert forall|p: int, q: int| 0 <= p < q < len implies scratch[p] != scratch[q] by {
                    assert(before[p] != before[q]);
                    if p != position && p != destination {
                        if p < position {
                            assert(before[p] != before[position as int]);
                        } else {
                            assert(before[position as int] != before[p]);
                        }
                        if p < destination {
                            assert(before[p] != before[destination as int]);
                        } else {
                            assert(before[destination as int] != before[p]);
                        }
                    }
                    if q != position && q != destination {
                        if q < position {
                            assert(before[q] != before[position as int]);
                        } else {
                            assert(before[position as int] != before[q]);
                        }
                        if q < destination {
                            assert(before[q] != before[destination as int]);
                        } else {
                            assert(before[destination as int] != before[q]);
                        }
                    }
                }
                assert forall|p: int| 0 <= p < len implies target[#[trigger] scratch[p] as int]
                    == values@[p] by {
                    assert(target[before[position as int] as int] == values_before[position as int]);
                    assert(target[before[destination as int] as int]
                        == values_before[destination as int]);
                    assert(target[before[p] as int] == values_before[p]);
                }
                let old_set = misplaced(before);
                let new_set = misplaced(scratch@);
                lemma_int_range(0, len as int);
                assert(old_set.contains(destination as int));
                assert(new_set.subset_of(old_set.remove(destination as int))) by {
                    assert forall|p: int| new_set.contains(p) implies old_set.remove(
                        destination as int,
                    ).contains(p) by {
                        assert(p != destination);
                        if p == position {
                            assert(before[position as int] != position);
                        }
                    }
                }
                lemma_len_subset(new_set, old_set.remove(destination as int));
            }
        }
        position = position + 1;
    }
    assert(values@ =~= target) by {
        assert forall|p: int| 0 <= p < len implies values@[p] == #[trigger] target[p] by {
            assert(scratch[p] == p);
            assert(target[scratch[p] as int] == values@[p]);
        }
    }
    Ok(())
}

/// The bytes of two arrays of `len` positions, or the largest size there is.
pub open spec fn scratch_bytes(len: int) -> int {
    let bytes = len * (usize::BITS as int / 8) * 2;
    if bytes <= usize::MAX {
        bytes
    } else {
        usize::MAX as int
    }
}

/// The budget after the scratch space for sorting `n` rows; fewer than two need
/// none.
pub open spec fn sort_charge(budget: Budget, n: int) -> Result<Budget, ErrorView> {
    if n < 2 {
        Ok(budget)
    } else if budget.used + scratch_bytes(n) > budget.limit {
        Err(ErrorView::MemoryLimitExceeded { limit: budget.limit })
    } else {
        Ok(budget.after(scratch_bytes(n)))
    }
}

pub fn saturating_scratch(len: usize) -> (bytes: usize)
    ensures
        bytes == scratch_bytes(len as int),
{
    let word: usize = (usize::BITS / 8) as usize;
    proof {
        assert(len * word * 2 >= len * word) by (nonlinear_arith)
            requires
                len >= 0,
                word >= 0,
        ;
    }
    match len.checked_mul(word) {
        Some(one) => match one.checked_mul(2) {
            Some(both) => both,
            None => usize::MAX,
        },
        None => usize::MAX,
    }
}

/// `slice::swap` exchanges the items at `i` and `j` and leaves the others.
#[verifier::external_body]
fn swap_items<T>(values: &mut Vec<T>, i: usize, j: usize)
    requires
        i < old(values).len(),
        j < old(values).len(),
    ensures
        final(values)@ == old(values)@.update(i as int, old(values)@[j as int]).update(
            j as int,
            old(values)@[i as int],
        ),
{
    values.swap(i, j);
}

/// `first` lists the first `limit` of the first `seen` positions of `items`, in
/// stable sorted order: any other position comes after each of them.
pub open spec fn lists_first<T>(
    first: Seq<usize>,
    items: Seq<T>,
    model: spec_fn(T, T) -> Order,
    limit: int,
    seen: int,
) -> bool {
    &&& first.len() == (if limit < seen { limit } else { seen })
    &&& forall|i: int| 0 <= i < first.len() ==> #[trigger] first[i] < seen
    &&& forall|i: int, j: int|
        #![trigger first[i], first[j]]
        0 <= i < j < first.len() ==> comes_before(items, model, first[i] as int, first[j] as int)
    &&& forall|i: int, p: int|
        0 <= i < first.len() && 0 <= p < seen && !(first.contains(p as usize)) ==> #[trigger]
            comes_before(items, model, first[i] as int, p)
}

/// The first `limit` positions of `items` in stable sorted order, found in one
/// pass that never holds more than that many.
pub fn first_positions<T, K: Fn(&T, &T) -> Order>(
    items: &Vec<T>,
    comparator: &Comparator<T, K>,
    limit: usize,
) -> (first: Vec<usize>)
    requires
        comparator.ok(items@),
    ensures
        lists_first(first@, items@, comparator.model@, limit as int, items.len() as int),
{
    let mut first: Vec<usize> = Vec::new();
    let ghost model = comparator.model@;
    if limit == 0 {
        return first;
    }
    let mut p: usize = 0;
    while p < items.len()
        invariant
            comparator.ok(items@),
            model == comparator.model@,
            p <= items.len(),
            limit > 0,
            lists_first(first@, items@, model, limit as int, p as int),
        decreases items.len() - p,
    {
        let ghost before = first@;
        let mut at: usize = first.len();
        let mut settled: bool = false;
        while at > 0 && !settled
            invariant
                comparator.ok(items@),
                model == comparator.model@,
                p < items.len(),
                first@ == before,
                lists_first(before, items@, model, limit as int, p as int),
                at <= before.len(),
                forall|i: int|
                    at <= i < before.len() ==> comes_before(
                        items@,
                        model,
                        p as int,
                        #[trigger] before[i] as int,
                    ),
                settled ==> at > 0 && comes_before(items@, model, before[at - 1] as int, p as int),
            decreases at, (if settled { 0int } else { 1int }),
        {
            let q: usize = first[at - 1];
            assert(items@.contains(items@[p as int]));
            assert(items@.contains(items@[q as int]));
            let compared = (comparator.compare)(&items[p], &items[q]);
            assert(model(items@[q as int], items@[p as int]) == model(
                items@[p as int],
                items@[q as int],
            ).spec_reversed());
            match compared {
                Order::Less => {
                    at = at - 1;
                },
                _ => {
                    settled = true;
                },
            }
        }
        proof {
            assert forall|i: int| 0 <= i < at implies comes_before(
                items@,
                model,
                #[trigger] before[i] as int,
                p as int,
            ) by {
                if i < at - 1 {
                    comes_before_chain(
                        items@,
                        model,
                        before[i] as int,
                        before[at - 1] as int,
                        p as int,
                    );
                }
            }
        }
        if at < limit {
            first.insert(at, p);
            let ghost inserted = first@;
            proof {
                assert forall|i: int, j: int|
                    #![trigger inserted[i], inserted[j]]
                    0 <= i < j < inserted.len() implies comes_before(
                    items@,
                    model,
                    inserted[i] as int,
                    inserted[j] as int,
                ) by {
                    let bi = if i < at { i } else { i - 1 };
                    let bj = if j < at { j } else { j - 1 };
                    if i != at && j != at {
                        assert(inserted[i] == before[bi] && inserted[j] == before[bj]);
                    } else if i == at {
                        assert(inserted[j] == before[bj]);
                    } else {
                        assert(inserted[i] == before[bi]);
                    }
                }
                assert forall|i: int| 0 <= i < inserted.len() implies #[trigger] inserted[i] < p + 1 by {
                    if i < at {
                        assert(inserted[i] == before[i]);
                    } else if i > at {
                        assert(inserted[i] == before[i - 1]);
                    }
                }
            }
            if first.len() > limit {
                let dropped = first.pop();
                proof {
                    let out = inserted[limit as int] as int;
                    assert(first@ =~= inserted.take(limit as int));
                    assert forall|i: int, q: int|
                        0 <= i < first.len() && 0 <= q < p + 1 && !(first@.contains(
                            q as usize,
                        )) implies #[trigger] comes_before(items@, model, first[i] as int, q) by {
                        assert(first[i] == inserted[i]);
                        assert(comes_before(
                            items@,
                            model,
                            inserted[i] as int,
                            inserted[limit as int] as int,
                        ));
                        if q != out {
                            if q == p {
                                assert(inserted[at as int] == p);
                                assert(first[at as int] == p);
                            }
                            if before.contains(q as usize) {
                                let k = choose|k: int| 0 <= k < before.len() && before[k] == q;
                                let m = if k < at { k } else { k + 1 };
                                assert(inserted[m] == q);
                                if m < limit {
                                    assert(first[m] == q);
                                }
                            }
                            assert(!before.contains(q as usize));
                            if i == at {
                                if at < before.len() {
                                    comes_before_chain(
                                        items@,
                                        model,
                                        p as int,
                                        before[at as int] as int,
                                        q,
                                    );
                                }
                            } else if i < at {
                                assert(inserted[i] == before[i]);
                            } else {
                                assert(inserted[i] == before[i - 1]);
                            }
                        }
                    }
                }
            } else {
                proof {
                    assert forall|i: int, q: int|
                        0 <= i < first.len() && 0 <= q < p + 1 && !(first@.contains(
                            q as usize,
                        )) implies #[trigger] comes_before(items@, model, first[i] as int, q) by {
                        if q == p {
                            assert(first[at as int] == p);
                        } else {
                            if before.contains(q as usize) {
                                let k = choose|k: int| 0 <= k < before.len() && before[k] == q;
                                let m = if k < at { k } else { k + 1 };
                                assert(inserted[m] == q);
                            }
                            lemma_short_prefix_complete(before, p as int, q);
                        }
                    }
                }
            }
        } else {
            proof {
                assert forall|i: int, q: int|
                    0 <= i < first.len() && 0 <= q < p + 1 && !(first@.contains(q as usize)) implies
                    #[trigger] comes_before(items@, model, first[i] as int, q) by {
                    if q == p {
                        assert(comes_before(items@, model, before[i] as int, p as int));
                    }
                }
            }
        }
        p = p + 1;
    }
    first
}

/// A list of all of `n` positions leaves none out.
proof fn lemma_short_prefix_complete(list: Seq<usize>, n: int, q: int)
    requires
        0 <= q < n,
        list.len() == n,
        forall|i: int| 0 <= i < list.len() ==> #[trigger] list[i] < n,
        forall|i: int, j: int| 0 <= i < j < list.len() ==> list[i] != list[j],
    ensures
        list.contains(q as usize),
{
    assert(lists_positions(list, n));
    positions_all_listed(list, n, q);
}

/// No position comes before itself, and no two come before each other.
proof fn comes_before_strict<T>(items: Seq<T>, model: spec_fn(T, T) -> Order, i: int, j: int)
    requires
        total_order(model),
        comes_before(items, model, i, j),
    ensures
        i != j,
        !comes_before(items, model, j, i),
{
    assert(model(items[i], items[i]) == Order::Equal);
    if comes_before(items, model, j, i) {
        comes_before_chain(items, model, i, j, i);
    }
}

/// The first positions of an order are the beginning of the sorted order: a
/// query for the first `limit` rows answers what sorting all of them and
/// keeping `limit` would.
pub proof fn first_positions_begin_the_order<T>(
    first: Seq<usize>,
    order: Seq<usize>,
    items: Seq<T>,
    model: spec_fn(T, T) -> Order,
    limit: int,
)
    requires
        total_order(model),
        0 <= limit,
        sorts(order, items, model),
        lists_first(first, items, model, limit, items.len() as int),
    ensures
        first == order.take(first.len() as int),
{
    first_positions_agree_to(first, order, items, model, limit, first.len() as int);
    assert(first =~= order.take(first.len() as int));
}

proof fn first_positions_agree_to<T>(
    first: Seq<usize>,
    order: Seq<usize>,
    items: Seq<T>,
    model: spec_fn(T, T) -> Order,
    limit: int,
    k: int,
)
    requires
        total_order(model),
        0 <= limit,
        sorts(order, items, model),
        lists_first(first, items, model, limit, items.len() as int),
        0 <= k <= first.len(),
    ensures
        forall|i: int| 0 <= i < k ==> #[trigger] first[i] == order[i],
    decreases k,
{
    if k > 0 {
        first_positions_agree_to(first, order, items, model, limit, k - 1);
        let n = items.len() as int;
        let (p, q) = (order[k - 1], first[k - 1]);
        if p != q {
            positions_all_listed(order, n, q as int);
            let m = choose|m: int| 0 <= m < n && order[m] == q;
            if m < k - 1 {
                assert(first[m] == order[m]);
                assert(comes_before(items, model, first[m] as int, first[k - 1] as int));
                comes_before_strict(items, model, q as int, q as int);
            }
            assert(comes_before(items, model, order[k - 1] as int, order[m] as int));
            if first.contains(p) {
                let j = choose|j: int| 0 <= j < first.len() && first[j] == p;
                if j < k - 1 {
                    assert(first[j] == order[j]);
                    assert(order[j] != order[k - 1]);
                }
                assert(comes_before(items, model, first[k - 1] as int, first[j] as int));
            } else {
                assert(comes_before(items, model, first[k - 1] as int, p as int));
            }
            comes_before_strict(items, model, p as int, q as int);
        }
    }
}

/// The first positions are determined by their input: two lists of the first
/// `limit` positions of the same items are the same.
pub proof fn leading_order_is_unique<T>(
    a: Seq<usize>,
    b: Seq<usize>,
    items: Seq<T>,
    model: spec_fn(T, T) -> Order,
    limit: int,
)
    requires
        total_order(model),
        items.len() <= usize::MAX,
        0 <= limit,
        lists_first(a, items, model, limit, items.len() as int),
        lists_first(b, items, model, limit, items.len() as int),
    ensures
        a == b,
{
    leading_agree_to(a, b, items, model, limit, a.len() as int);
    assert(a =~= b);
}

proof fn leading_agree_to<T>(
    a: Seq<usize>,
    b: Seq<usize>,
    items: Seq<T>,
    model: spec_fn(T, T) -> Order,
    limit: int,
    k: int,
)
    requires
        total_order(model),
        0 <= limit,
        lists_first(a, items, model, limit, items.len() as int),
        lists_first(b, items, model, limit, items.len() as int),
        0 <= k <= a.len(),
    ensures
        forall|i: int| 0 <= i < k ==> #[trigger] a[i] == b[i],
    decreases k,
{
    if k > 0 {
        leading_agree_to(a, b, items, model, limit, k - 1);
        let (p, q) = (a[k - 1], b[k - 1]);
        if p != q {
            leading_comes_first(a, b, items, model, limit, k);
            leading_comes_first(b, a, items, model, limit, k);
            comes_before_strict(items, model, p as int, q as int);
        }
    }
}

proof fn leading_comes_first<T>(
    a: Seq<usize>,
    b: Seq<usize>,
    items: Seq<T>,
    model: spec_fn(T, T) -> Order,
    limit: int,
    k: int,
)
    requires
        total_order(model),
        lists_first(a, items, model, limit, items.len() as int),
        lists_first(b, items, model, limit, items.len() as int),
        0 < k <= a.len(),
        a.len() == b.len(),
        forall|i: int| 0 <= i < k - 1 ==> #[trigger] a[i] == b[i],
        a[k - 1] != b[k - 1],
    ensures
        comes_before(items, model, a[k - 1] as int, b[k - 1] as int),
{
    let q = b[k - 1];
    if a.contains(q) {
        let j = choose|j: int| 0 <= j < a.len() && a[j] == q;
        if j < k - 1 {
            assert(b[j] == q);
            assert(comes_before(items, model, b[j] as int, b[k - 1] as int));
            comes_before_strict(items, model, q as int, q as int);
        }
        assert(comes_before(items, model, a[k - 1] as int, a[j] as int));
    } else {
        assert(q < items.len());
        assert(comes_before(items, model, a[k - 1] as int, q as int));
    }
}

/// Sorting is determined by its input: two stable sorted orders of the same
/// items are the same.
pub proof fn sorted_order_is_unique<T>(
    a: Seq<usize>,
    b: Seq<usize>,
    items: Seq<T>,
    model: spec_fn(T, T) -> Order,
)
    requires
        total_order(model),
        sorts(a, items, model),
        sorts(b, items, model),
    ensures
        a == b,
{
    let n = items.len() as int;
    assert(lists_first(a, items, model, n, n)) by {
        assert forall|i: int, p: int|
            0 <= i < a.len() && 0 <= p < n && !(a.contains(p as usize)) implies #[trigger] comes_before(
            items,
            model,
            a[i] as int,
            p,
        ) by {
            positions_all_listed(a, n, p);
        }
    }
    first_positions_begin_the_order(a, b, items, model, n);
    assert(b.take(n) =~= b);
}

} // verus!
