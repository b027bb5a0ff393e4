//! Sorting by a key, largest first, with equal keys left in the order they came.
use vstd::prelude::*;

verus! {

/// How many of the first elements, in a sequence with the largest keys first,
/// have a key of at least `key`.
pub open spec fn place<T>(s: Seq<T>, rank: spec_fn(T) -> int, key: int) -> int
    decreases s.len(),
{
    if s.len() == 0 || rank(s[0]) < key {
        0
    } else {
        1 + place(s.skip(1), rank, key)
    }
}

/// A sequence with the largest keys first. Of two elements with one key, the one
/// that came first stays first.
pub open spec fn largest_first<T>(s: Seq<T>, rank: spec_fn(T) -> int) -> Seq<T>
    decreases s.len(),
{
    if s.len() == 0 {
        s
    } else {
        let before = largest_first(s.drop_last(), rank);
        before.insert(place(before, rank, rank(s.last())), s.last())
    }
}

/// Whether no key is larger than one before it.
pub open spec fn descending<T>(s: Seq<T>, rank: spec_fn(T) -> int) -> bool {
    forall|i: int, j: int| 0 <= i <= j < s.len() ==> rank(#[trigger] s[i]) >= rank(#[trigger] s[j])
}

/// Whether every key is smaller than the ones before it.
pub open spec fn strictly_descending<T>(s: Seq<T>, rank: spec_fn(T) -> int) -> bool {
    forall|i: int, j: int| 0 <= i < j < s.len() ==> rank(#[trigger] s[i]) > rank(#[trigger] s[j])
}

/// The place is in range, and parts the keys that are at least as large from the
/// one after them.
pub proof fn place_parts<T>(s: Seq<T>, rank: spec_fn(T) -> int, key: int)
    ensures
        0 <= place(s, rank, key) <= s.len(),
        forall|i: int| 0 <= i < place(s, rank, key) ==> rank(#[trigger] s[i]) >= key,
        place(s, rank, key) < s.len() ==> rank(s[place(s, rank, key)]) < key,
    decreases s.len(),
{
    if s.len() > 0 && rank(s[0]) >= key {
        place_parts(s.skip(1), rank, key);
        assert forall|i: int| 0 <= i < place(s, rank, key) implies rank(#[trigger] s[i]) >= key by {
            if i > 0 {
                assert(s[i] == s.skip(1)[i - 1]);
            }
        }
    }
}

/// A position that parts the keys so is the place.
pub proof fn place_is<T>(s: Seq<T>, rank: spec_fn(T) -> int, key: int, at: int)
    requires
        0 <= at <= s.len(),
        forall|i: int| 0 <= i < at ==> rank(#[trigger] s[i]) >= key,
        at < s.len() ==> rank(s[at]) < key,
    ensures
        place(s, rank, key) == at,
{
    place_parts(s, rank, key);
    let found = place(s, rank, key);
    if found < at {
        assert(rank(s[found]) >= key);
    }
    if at < found {
        assert(rank(s[at]) >= key);
    }
}

/// Sorting puts the largest keys first.
pub proof fn sorting_orders<T>(s: Seq<T>, rank: spec_fn(T) -> int)
    ensures
        descending(largest_first(s, rank), rank),
        largest_first(s, rank).len() == s.len(),
    decreases s.len(),
{
    if s.len() > 0 {
        sorting_orders(s.drop_last(), rank);
        let before = largest_first(s.drop_last(), rank);
        let at = place(before, rank, rank(s.last()));
        place_parts(before, rank, rank(s.last()));
        let sorted = largest_first(s, rank);
        assert forall|i: int, j: int| 0 <= i <= j < sorted.len() implies rank(#[trigger] sorted[i])
            >= rank(#[trigger] sorted[j]) by {
            if j > at {
                assert(sorted[j] == before[j - 1]);
                if at < before.len() {
                    assert(rank(before[at]) >= rank(before[j - 1]));
                }
            }
            if i > at {
                assert(sorted[i] == before[i - 1]);
            }
        }
    }
}

/// Sorting neither loses nor invents an element.
pub proof fn sorting_keeps_every_element<T>(s: Seq<T>, rank: spec_fn(T) -> int)
    ensures
        largest_first(s, rank).to_multiset() == s.to_multiset(),
    decreases s.len(),
{
    broadcast use vstd::seq_lib::group_to_multiset_ensures;

    if s.len() > 0 {
        sorting_keeps_every_element(s.drop_last(), rank);
        let before = largest_first(s.drop_last(), rank);
        place_parts(before, rank, rank(s.last()));
        assert(s =~= s.drop_last().push(s.last()));
        assert(largest_first(s, rank).to_multiset() =~= before.to_multiset().insert(s.last()));
        assert(s.to_multiset() =~= s.drop_last().to_multiset().insert(s.last()));
    }
}

proof fn filter_of_insert<T>(s: Seq<T>, at: int, x: T, keep: spec_fn(T) -> bool)
    requires
        0 <= at <= s.len(),
    ensures
        s.insert(at, x).filter(keep) == s.take(at).filter(keep) + (if keep(x) {
            seq![x]
        } else {
            Seq::empty()
        }) + s.skip(at).filter(keep),
        s.filter(keep) == s.take(at).filter(keep) + s.skip(at).filter(keep),
{
    let front = s.take(at);
    let back = s.skip(at);
    assert(s =~= front + back);
    assert(s.insert(at, x) =~= front + seq![x] + back);
    Seq::filter_distributes_over_add(front, back, keep);
    Seq::filter_distributes_over_add(front, seq![x], keep);
    Seq::filter_distributes_over_add(front + seq![x], back, keep);
    reveal_with_fuel(Seq::filter, 2);
    assert(seq![x].drop_last() =~= Seq::empty());
    assert(seq![x].filter(keep) =~= if keep(x) {
        seq![x]
    } else {
        Seq::empty()
    });
}

proof fn filter_to_nothing<T>(s: Seq<T>, keep: spec_fn(T) -> bool)
    requires
        forall|i: int| 0 <= i < s.len() ==> !keep(#[trigger] s[i]),
    ensures
        s.filter(keep) == Seq::<T>::empty(),
    decreases s.len(),
{
    reveal_with_fuel(Seq::filter, 1);
    if s.len() > 0 {
        assert(!keep(s[s.len() - 1]));
        assert forall|i: int| 0 <= i < s.drop_last().len() implies !keep(
            #[trigger] s.drop_last()[i],
        ) by {
            assert(s.drop_last()[i] == s[i]);
        }
        filter_to_nothing(s.drop_last(), keep);
    }
}

/// The elements that have a key.
pub open spec fn has_key<T>(rank: spec_fn(T) -> int, key: int) -> spec_fn(T) -> bool {
    |x: T| rank(x) == key
}

/// The elements of one key, in the order they come.
pub open spec fn of_key<T>(s: Seq<T>, rank: spec_fn(T) -> int, key: int) -> Seq<T> {
    s.filter(has_key(rank, key))
}

/// Sorting leaves the elements of any one key in the order they came.
pub proof fn sorting_is_stable<T>(s: Seq<T>, rank: spec_fn(T) -> int, key: int)
    ensures
        of_key(largest_first(s, rank), rank, key) == of_key(s, rank, key),
    decreases s.len(),
{
    let keep = has_key(rank, key);
    if s.len() > 0 {
        let before = largest_first(s.drop_last(), rank);
        let x = s.last();
        let at = place(before, rank, rank(x));
        sorting_is_stable(s.drop_last(), rank, key);
        sorting_orders(s.drop_last(), rank);
        place_parts(before, rank, rank(x));
        filter_of_insert(before, at, x, keep);
        let back = before.skip(at);
        if keep(x) {
            assert forall|i: int| 0 <= i < back.len() implies !keep(#[trigger] back[i]) by {
                assert(back[i] == before[at + i]);
                assert(rank(before[at]) >= rank(before[at + i]));
            }
            filter_to_nothing(back, keep);
        }
        reveal_with_fuel(Seq::filter, 1);
        assert(largest_first(s, rank).filter(keep) =~= s.filter(keep));
    } else {
        assert(largest_first(s, rank) =~= s);
    }
}

/// Sorting leaves a sequence alone that is in order already.
pub proof fn sorting_the_sorted<T>(s: Seq<T>, rank: spec_fn(T) -> int)
    requires
        descending(s, rank),
    ensures
        largest_first(s, rank) == s,
    decreases s.len(),
{
    if s.len() > 0 {
        let before = s.drop_last();
        assert forall|i: int, j: int| 0 <= i <= j < before.len() implies rank(#[trigger] before[i])
            >= rank(#[trigger] before[j]) by {
            assert(before[i] == s[i] && before[j] == s[j]);
        }
        sorting_the_sorted(before, rank);
        assert forall|i: int| 0 <= i < before.len() implies rank(#[trigger] before[i]) >= rank(
            s.last(),
        ) by {
            assert(before[i] == s[i]);
        }
        place_is(before, rank, rank(s.last()), before.len() as int);
        assert(largest_first(s, rank) =~= s);
    }
}

/// Sorting a sequence whose keys only grow turns it round.
pub proof fn sorting_the_reversed<T>(s: Seq<T>, rank: spec_fn(T) -> int)
    requires
        strictly_descending(s, rank),
    ensures
        largest_first(s.reverse(), rank) == s,
    decreases s.len(),
{
    if s.len() > 0 {
        let rest = s.skip(1);
        assert forall|i: int, j: int| 0 <= i < j < rest.len() implies rank(#[trigger] rest[i]) > rank(
            #[trigger] rest[j],
        ) by {
            assert(rest[i] == s[i + 1] && rest[j] == s[j + 1]);
        }
        sorting_the_reversed(rest, rank);
        assert(s.reverse().drop_last() =~= rest.reverse());
        assert(s.reverse().last() == s[0]);
        if rest.len() > 0 {
            assert(rest[0] == s[1]);
        }
        place_is(rest, rank, rank(s[0]), 0);
        assert(largest_first(s.reverse(), rank) =~= s);
    } else {
        assert(s.reverse() =~= s);
    }
}

/// What holds of every element still does once they are sorted.
pub proof fn sorting_keeps_a_property<T>(
    s: Seq<T>,
    rank: spec_fn(T) -> int,
    property: spec_fn(T) -> bool,
)
    requires
        forall|i: int| 0 <= i < s.len() ==> property(#[trigger] s[i]),
    ensures
        forall|i: int|
            0 <= i < largest_first(s, rank).len() ==> property(#[trigger] largest_first(s, rank)[i]),
    decreases s.len(),
{
    if s.len() > 0 {
        let front = s.drop_last();
        assert(forall|i: int| 0 <= i < front.len() ==> #[trigger] front[i] == s[i]);
        sorting_keeps_a_property(front, rank, property);
        let before = largest_first(front, rank);
        let at = place(before, rank, rank(s.last()));
        place_parts(before, rank, rank(s.last()));
        let sorted = largest_first(s, rank);
        assert forall|i: int| 0 <= i < sorted.len() implies property(#[trigger] sorted[i]) by {
            if i < at {
                assert(sorted[i] == before[i]);
            } else if i > at {
                assert(sorted[i] == before[i - 1]);
            } else {
                assert(property(s[s.len() - 1]));
            }
        }
    }
}

proof fn filter_keeps_the_first<T>(s: Seq<T>, keep: spec_fn(T) -> bool)
    requires
        s.len() > 0,
        keep(s[0]),
    ensures
        s.filter(keep) == seq![s[0]] + s.skip(1).filter(keep),
{
    assert(s =~= seq![s[0]] + s.skip(1));
    Seq::filter_distributes_over_add(seq![s[0]], s.skip(1), keep);
    reveal_with_fuel(Seq::filter, 2);
    assert(seq![s[0]].drop_last() =~= Seq::empty());
    assert(seq![s[0]].filter(keep) =~= seq![s[0]]);
}

proof fn filter_skips_the_first<T>(s: Seq<T>, keep: spec_fn(T) -> bool)
    requires
        s.len() > 0,
        !keep(s[0]),
    ensures
        s.filter(keep) == s.skip(1).filter(keep),
{
    assert(s =~= seq![s[0]] + s.skip(1));
    Seq::filter_distributes_over_add(seq![s[0]], s.skip(1), keep);
    filter_to_nothing(seq![s[0]], keep);
    assert(Seq::empty() + s.skip(1).filter(keep) =~= s.skip(1).filter(keep));
}

/// Whether two sequences hold the same elements of each key, in the same order.
pub open spec fn same_by_key<T>(s: Seq<T>, t: Seq<T>, rank: spec_fn(T) -> int) -> bool {
    forall|key: int| #[trigger] of_key(s, rank, key) == #[trigger] of_key(t, rank, key)
}

proof fn a_key_that_is_there<T>(s: Seq<T>, t: Seq<T>, rank: spec_fn(T) -> int)
    requires
        s.len() > 0,
        descending(t, rank),
        same_by_key(s, t, rank),
    ensures
        t.len() > 0,
        rank(t[0]) >= rank(s[0]),
{
    let key = rank(s[0]);
    let keep = has_key(rank, key);
    filter_keeps_the_first(s, keep);
    assert(of_key(s, rank, key) == of_key(t, rank, key));
    assert(t.filter(keep).len() > 0);
    if forall|i: int| 0 <= i < t.len() ==> !keep(#[trigger] t[i]) {
        filter_to_nothing(t, keep);
    }
    let i = choose|i: int| 0 <= i < t.len() && keep(#[trigger] t[i]);
    assert(rank(t[0]) >= rank(t[i]));
}

proof fn one_order_for_each<T>(s: Seq<T>, t: Seq<T>, rank: spec_fn(T) -> int)
    requires
        descending(s, rank),
        descending(t, rank),
        same_by_key(s, t, rank),
    ensures
        s == t,
    decreases s.len(),
{
    if s.len() == 0 {
        if t.len() > 0 {
            a_key_that_is_there(t, s, rank);
        }
        assert(s =~= t);
    } else {
        a_key_that_is_there(s, t, rank);
        a_key_that_is_there(t, s, rank);
        let key = rank(s[0]);
        let keep = has_key(rank, key);
        filter_keeps_the_first(s, keep);
        filter_keeps_the_first(t, keep);
        assert(of_key(s, rank, key) == of_key(t, rank, key));
        assert(s.filter(keep)[0] == s[0]);
        assert(t.filter(keep)[0] == t[0]);
        assert forall|other: int| #[trigger]
            of_key(s.skip(1), rank, other) == #[trigger] of_key(t.skip(1), rank, other) by {
            let chosen = has_key(rank, other);
            assert(of_key(s, rank, other) == of_key(t, rank, other));
            if other == key {
                filter_keeps_the_first(s, chosen);
                filter_keeps_the_first(t, chosen);
                assert(s.skip(1).filter(chosen) =~= s.filter(chosen).skip(1));
                assert(t.skip(1).filter(chosen) =~= t.filter(chosen).skip(1));
            } else {
                filter_skips_the_first(s, chosen);
                filter_skips_the_first(t, chosen);
            }
        }
        assert(forall|i: int| 0 <= i < s.skip(1).len() ==> #[trigger] s.skip(1)[i] == s[i + 1]);
        assert(forall|i: int| 0 <= i < t.skip(1).len() ==> #[trigger] t.skip(1)[i] == t[i + 1]);
        one_order_for_each(s.skip(1), t.skip(1), rank);
        assert(s =~= seq![s[0]] + s.skip(1));
        assert(t =~= seq![t[0]] + t.skip(1));
    }
}

/// Only the order of the elements that share a key has a say in how a sequence
/// sorts.
pub proof fn sorting_ignores_the_order_of_keys<T>(s: Seq<T>, t: Seq<T>, rank: spec_fn(T) -> int)
    requires
        same_by_key(s, t, rank),
    ensures
        largest_first(s, rank) == largest_first(t, rank),
{
    sorting_orders(s, rank);
    sorting_orders(t, rank);
    assert forall|key: int| #[trigger]
        of_key(largest_first(s, rank), rank, key) == #[trigger] of_key(
            largest_first(t, rank),
            rank,
            key,
        ) by {
        sorting_is_stable(s, rank, key);
        sorting_is_stable(t, rank, key);
        assert(of_key(s, rank, key) == of_key(t, rank, key));
    }
    one_order_for_each(largest_first(s, rank), largest_first(t, rank), rank);
}

} // verus!
