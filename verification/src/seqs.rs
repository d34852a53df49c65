//! Sequences: first appearances, positions and distinct elements.

use vstd::prelude::*;

verus! {

/// The position of the first element of `s` for which `f` holds.
pub open spec fn first_where<A>(s: Seq<A>, f: spec_fn(A) -> bool) -> Option<int>
    decreases s.len(),
{
    if s.len() == 0 {
        None
    } else {
        match first_where(s.drop_last(), f) {
            Some(i) => Some(i),
            None => if f(s.last()) {
                Some(s.len() - 1)
            } else {
                None
            },
        }
    }
}

/// The position of the first of `names` that is `name`.
pub open spec fn name_position(names: Seq<Seq<char>>, name: Seq<char>) -> Option<int> {
    first_where(names, is_name(name))
}

/// Being `name`.
pub open spec fn is_name(name: Seq<char>) -> spec_fn(Seq<char>) -> bool {
    |c: Seq<char>| c == name
}

/// The elements of `s`, each once, in the order of their first appearance.
pub open spec fn firsts<A>(s: Seq<A>) -> Seq<A>
    decreases s.len(),
{
    if s.len() == 0 {
        Seq::empty()
    } else if s.drop_last().contains(s.last()) {
        firsts(s.drop_last())
    } else {
        firsts(s.drop_last()).push(s.last())
    }
}

/// The positions at which `x` stands in `s`, in order.
pub open spec fn positions_of<A>(s: Seq<A>, x: A) -> Seq<int>
    decreases s.len(),
{
    if s.len() == 0 {
        Seq::empty()
    } else if s.last() == x {
        positions_of(s.drop_last(), x).push(s.len() - 1)
    } else {
        positions_of(s.drop_last(), x)
    }
}

/// The first element for which `f` holds is the one that [`first_where`] finds.
pub proof fn first_where_is<A>(s: Seq<A>, f: spec_fn(A) -> bool, i: int)
    requires
        0 <= i < s.len(),
        f(s[i]),
        forall|j: int| 0 <= j < i ==> !f(#[trigger] s[j]),
    ensures
        first_where(s, f) == Some(i),
    decreases s.len(),
{
    if i < s.len() - 1 {
        first_where_is(s.drop_last(), f, i);
    } else {
        first_where_none(s.drop_last(), f);
    }
}

/// Where `f` holds of no element there is no first.
pub proof fn first_where_none<A>(s: Seq<A>, f: spec_fn(A) -> bool)
    requires
        forall|j: int| 0 <= j < s.len() ==> !f(#[trigger] s[j]),
    ensures
        first_where(s, f) is None,
    decreases s.len(),
{
    if s.len() > 0 {
        assert(!f(s[s.len() - 1]));
        assert forall|j: int| 0 <= j < s.drop_last().len() implies !f(#[trigger] s.drop_last()[j]) by {
            assert(!f(s[j]));
        }
        first_where_none(s.drop_last(), f);
    }
}

/// What [`first_where`] finds is the first element for which `f` holds.
pub proof fn first_where_found<A>(s: Seq<A>, f: spec_fn(A) -> bool)
    ensures
        match first_where(s, f) {
            Some(i) => 0 <= i < s.len() && f(s[i]) && forall|j: int| 0 <= j < i ==> !f(#[trigger] s[j]),
            None => forall|j: int| 0 <= j < s.len() ==> !f(#[trigger] s[j]),
        },
    decreases s.len(),
{
    if s.len() > 0 {
        first_where_found(s.drop_last(), f);
        let rest = s.drop_last();
        assert forall|j: int| 0 <= j < rest.len() implies #[trigger] s[j] == rest[j] by {}
    }
}

/// The distinct elements are the elements, and none of them occurs twice.
pub proof fn firsts_are_distinct<A>(s: Seq<A>)
    ensures
        firsts(s).no_duplicates(),
        forall|x: A| firsts(s).contains(x) <==> #[trigger] s.contains(x),
        firsts(s).len() <= s.len(),
    decreases s.len(),
{
    if s.len() > 0 {
        let rest = s.drop_last();
        firsts_are_distinct(rest);
        assert forall|x: A| firsts(s).contains(x) <==> #[trigger] s.contains(x) by {
            if s.contains(x) {
                let i = choose|i: int| 0 <= i < s.len() && s[i] == x;
                if i < rest.len() {
                    assert(rest[i] == x);
                    assert(rest.contains(x));
                    let j = choose|j: int| 0 <= j < firsts(rest).len() && firsts(rest)[j] == x;
                    assert(firsts(s)[j] == x);
                } else if !rest.contains(s.last()) {
                    assert(firsts(s)[firsts(rest).len() as int] == x);
                } else {
                    assert(firsts(rest).contains(x));
                }
            }
            if firsts(s).contains(x) {
                let j = choose|j: int| 0 <= j < firsts(s).len() && firsts(s)[j] == x;
                if j < firsts(rest).len() {
                    assert(firsts(rest)[j] == x);
                    assert(rest.contains(x));
                    let i = choose|i: int| 0 <= i < rest.len() && rest[i] == x;
                    assert(s[i] == x);
                } else {
                    assert(s[s.len() - 1] == x);
                }
            }
        }
    }
}

/// The positions of `x` are in order and are those at which it stands.
pub proof fn positions_are_positions<A>(s: Seq<A>, x: A)
    ensures
        forall|i: int|
            0 <= i < positions_of(s, x).len() ==> 0 <= #[trigger] positions_of(s, x)[i] < s.len()
                && s[positions_of(s, x)[i]] == x,
        forall|i: int, j: int|
            0 <= i < j < positions_of(s, x).len() ==> positions_of(s, x)[i] < positions_of(s, x)[j],
        forall|p: int|
            0 <= p < s.len() && #[trigger] s[p] == x ==> positions_of(s, x).contains(p),
        positions_of(s, x).len() <= s.len(),
    decreases s.len(),
{
    if s.len() > 0 {
        let rest = s.drop_last();
        positions_are_positions(rest, x);
        let ps = positions_of(s, x);
        let pr = positions_of(rest, x);
        assert forall|i: int| 0 <= i < ps.len() implies 0 <= #[trigger] ps[i] < s.len() && s[ps[i]] == x by {
            if i < pr.len() {
                assert(rest[pr[i]] == x);
            }
        }
        assert forall|p: int| 0 <= p < s.len() && #[trigger] s[p] == x implies ps.contains(p) by {
            if p < rest.len() {
                assert(rest[p] == x);
                let i = choose|i: int| 0 <= i < pr.len() && pr[i] == p;
                assert(ps[i] == p);
            } else {
                assert(ps[pr.len() as int] == p);
            }
        }
    }
}

/// The first of `names` that is `name` is the one that [`name_position`] finds.
pub proof fn name_position_is(names: Seq<Seq<char>>, name: Seq<char>, i: int)
    requires
        0 <= i < names.len(),
        names[i] == name,
        forall|j: int| 0 <= j < i ==> #[trigger] names[j] != name,
    ensures
        name_position(names, name) == Some(i),
{
    first_where_is(names, is_name(name), i);
}

/// A name that is absent has no position.
pub proof fn name_position_none(names: Seq<Seq<char>>, name: Seq<char>)
    requires
        forall|j: int| 0 <= j < names.len() ==> #[trigger] names[j] != name,
    ensures
        name_position(names, name) is None,
{
    first_where_none(names, is_name(name));
}

} // verus!
