//! Putting things in order.
//!
//! Things are ordered by their places: `0` to `n - 1` name them, a ranking says which of two goes
//! first, and the answer is the places written in the order asked for.

use vstd::prelude::*;

verus! {

/// Whether the thing at one place goes before the thing at another.
pub type Precedence = spec_fn(int, int) -> bool;

/// Which of two things goes first.
pub trait Ranking {
    /// How many things there are.
    spec fn size(&self) -> nat;

    /// Which of two goes first.
    spec fn order(&self) -> Precedence;

    /// Whether one goes before another.
    fn goes_before(&self, a: usize, b: usize) -> (before: bool)
        requires
            a < self.size(),
            b < self.size(),
        ensures
            before == (self.order())(a as int, b as int),
    ;
}

/// Whether a ranking is one order: nothing goes before itself, two different things go one way
/// round, and what goes before what goes before a third goes before the third.
pub open spec fn is_one_order(n: nat, before: Precedence) -> bool {
    &&& forall|a: int| 0 <= a < n ==> !#[trigger] before(a, a)
    &&& forall|a: int, b: int|
        0 <= a < n && 0 <= b < n && a != b ==> #[trigger] before(
            a,
            b,
        ) || before(b, a)
    &&& forall|a: int, b: int, c: int|
        0 <= a < n && 0 <= b < n && 0 <= c < n
            && #[trigger] before(a, b) && #[trigger] before(b, c)
            ==> before(a, c)
}

/// Places as values of the model.
pub open spec fn places(list: Seq<usize>) -> Seq<int> {
    list.map_values(|p: usize| p as int)
}

/// Whether a list names each of `0` to `n - 1` exactly once.
pub open spec fn names_each_once(list: Seq<int>, n: nat) -> bool {
    &&& list.len() == n
    &&& list.no_duplicates()
    &&& forall|i: int| 0 <= i < n ==> 0 <= #[trigger] list[i] < n
}

/// Whether a list stands in the order of a ranking.
pub open spec fn in_order(before: Precedence, list: Seq<int>) -> bool {
    forall|i: int, j: int|
        0 <= i < j < list.len() ==> before(#[trigger] list[i], #[trigger] list[j])
}

/// What ordering promises: every place once, in order wherever the ranking is one order.
pub open spec fn is_ordering(n: nat, before: Precedence, list: Seq<int>) -> bool {
    &&& names_each_once(list, n)
    &&& is_one_order(n, before) ==> in_order(before, list)
}

/// Whether every place of a list is one the ranking knows.
spec fn known<R: Ranking>(ranking: &R, list: Seq<usize>) -> bool {
    forall|i: int| 0 <= i < list.len() ==> (#[trigger] list[i]) < ranking.size()
}

/// Merges two ordered stretches.
fn merge_stretches<R: Ranking>(ranking: &R, left: &Vec<usize>, right: &Vec<usize>) -> (merged: Vec<
    usize,
>)
    requires
        known(ranking, left@),
        known(ranking, right@),
        left@.no_duplicates(),
        right@.no_duplicates(),
        forall|x: usize| !(#[trigger] left@.contains(x) && right@.contains(x)),
        left@.len() + right@.len() <= usize::MAX,
        is_one_order(ranking.size(), ranking.order()) ==> in_order(ranking.order(), places(left@)) && in_order(ranking.order(),
            places(right@),
        ),
    ensures
        merged@.len() == left@.len() + right@.len(),
        merged@.no_duplicates(),
        forall|x: usize|
            #[trigger] merged@.contains(x) <==> left@.contains(x) || right@.contains(x),
        is_one_order(ranking.size(), ranking.order()) ==> in_order(ranking.order(), places(merged@)),
{
    let mut merged: Vec<usize> = Vec::new();
    let mut i: usize = 0;
    let mut j: usize = 0;
    while i < left.len() || j < right.len()
        invariant
            i <= left.len(),
            j <= right.len(),
            merged@.len() == i + j,
            left@.len() + right@.len() <= usize::MAX,
            known(ranking, left@),
            known(ranking, right@),
            left@.no_duplicates(),
            right@.no_duplicates(),
            forall|x: usize| !(#[trigger] left@.contains(x) && right@.contains(x)),
            is_one_order(ranking.size(), ranking.order()) ==> in_order(ranking.order(), places(left@)) && in_order(ranking.order(),
                places(right@),
            ),
            merged@.no_duplicates(),
            forall|k: int|
                0 <= k < merged@.len() ==> (exists|a: int| 0 <= a < i && left@[a] == #[trigger] merged@[k])
                    || (exists|b: int| 0 <= b < j && right@[b] == merged@[k]),
            forall|a: int| 0 <= a < i ==> merged@.contains(#[trigger] left@[a]),
            forall|b: int| 0 <= b < j ==> merged@.contains(#[trigger] right@[b]),
            is_one_order(ranking.size(), ranking.order()) ==> in_order(ranking.order(), places(merged@)),
            is_one_order(ranking.size(), ranking.order()) ==> forall|k: int, a: int|
                0 <= k < merged@.len() && i <= a < left@.len() ==> (ranking.order())(
                    #[trigger] merged@[k] as int,
                    #[trigger] left@[a] as int,
                ),
            is_one_order(ranking.size(), ranking.order()) ==> forall|k: int, b: int|
                0 <= k < merged@.len() && j <= b < right@.len() ==> (ranking.order())(
                    #[trigger] merged@[k] as int,
                    #[trigger] right@[b] as int,
                ),
        decreases left.len() - i + right.len() - j,
    {
        let ghost before = merged@;
        let from_right: bool = if i == left.len() {
            true
        } else if j == right.len() {
            false
        } else {
            ranking.goes_before(right[j], left[i])
        };
        let next: usize = if from_right {
            right[j]
        } else {
            left[i]
        };
        proof {
            // What is taken next was not taken before.
            if from_right {
                assert(right@.contains(next));
                assert forall|k: int| 0 <= k < before.len() implies before[k] != next by {
                    if exists|a: int| 0 <= a < i && left@[a] == before[k] {
                        let a = choose|a: int| 0 <= a < i && left@[a] == before[k];
                        assert(left@.contains(left@[a]));
                    }
                }
            } else {
                assert(left@.contains(next));
                assert forall|k: int| 0 <= k < before.len() implies before[k] != next by {
                    if exists|b: int| 0 <= b < j && right@[b] == before[k] {
                        let b = choose|b: int| 0 <= b < j && right@[b] == before[k];
                        assert(right@.contains(right@[b]));
                        assert(left@.contains(next) && right@.contains(next) ==> false);
                    }
                }
            }
            if i < left.len() && j < right.len() {
                assert(left@.contains(left@[i as int]));
                assert(right@.contains(right@[j as int]));
                assert(left@[i as int] != right@[j as int]);
            }
            if is_one_order(ranking.size(), ranking.order()) {
                // What is taken next goes before everything still waiting.
                assert forall|a: int| i <= a < left@.len() && left@[a] != next implies (ranking.order())(
                    next as int,
                    #[trigger] left@[a] as int,
                ) by {
                    if i < a {
                        assert(places(left@)[i as int] == left@[i as int]);
                        assert(places(left@)[a] == left@[a]);
                        assert((ranking.order())(left@[i as int] as int, left@[a] as int));
                    }
                }
                assert forall|b: int| j <= b < right@.len() && right@[b] != next implies (ranking.order())(
                    next as int,
                    #[trigger] right@[b] as int,
                ) by {
                    if j < b {
                        assert(places(right@)[j as int] == right@[j as int]);
                        assert(places(right@)[b] == right@[b]);
                        assert((ranking.order())(right@[j as int] as int, right@[b] as int));
                    }
                    if !from_right {
                        assert(!(ranking.order())(right@[j as int] as int, left@[i as int] as int));
                        assert((ranking.order())(left@[i as int] as int, right@[j as int] as int));
                    }
                }
            }
        }
        merged.push(next);
        if from_right {
            j += 1;
        } else {
            i += 1;
        }
        proof {
            assert(merged@ == before.push(next));
            assert forall|a: int| 0 <= a < i implies merged@.contains(#[trigger] left@[a]) by {
                if before.contains(left@[a]) {
                    let k = choose|k: int| 0 <= k < before.len() && before[k] == left@[a];
                    assert(merged@[k] == left@[a]);
                } else {
                    assert(merged@[before.len() as int] == left@[a]);
                }
            }
            assert forall|b: int| 0 <= b < j implies merged@.contains(#[trigger] right@[b]) by {
                if before.contains(right@[b]) {
                    let k = choose|k: int| 0 <= k < before.len() && before[k] == right@[b];
                    assert(merged@[k] == right@[b]);
                } else {
                    assert(merged@[before.len() as int] == right@[b]);
                }
            }
            if is_one_order(ranking.size(), ranking.order()) {
                assert forall|k: int, l: int| 0 <= k < l < merged@.len() implies (ranking.order())(
                    #[trigger] places(merged@)[k],
                    #[trigger] places(merged@)[l],
                ) by {
                    if l < before.len() {
                        assert(places(before)[k] == places(merged@)[k]);
                        assert(places(before)[l] == places(merged@)[l]);
                    } else {
                        assert(merged@[k] == before[k]);
                    }
                }
                assert forall|k: int, a: int| 0 <= k < merged@.len() && i <= a < left@.len() implies (ranking.order())(
                    #[trigger] merged@[k] as int,
                    #[trigger] left@[a] as int,
                ) by {
                    if k < before.len() {
                        assert(merged@[k] == before[k]);
                    } else if !from_right {
                        assert(left@[a] != left@[i - 1]);
                    } else {
                        assert(left@.contains(left@[a]));
                        assert(right@.contains(next));
                    }
                }
            }
        }
    }
    proof {
        assert forall|x: usize| #[trigger] merged@.contains(x) implies left@.contains(x)
            || right@.contains(x) by {
            let k = choose|k: int| 0 <= k < merged@.len() && merged@[k] == x;
            assert(merged@[k] == x);
        }
        assert forall|x: usize| left@.contains(x) || right@.contains(x) implies #[trigger] merged@.contains(
            x,
        ) by {
            if left@.contains(x) {
                let a = choose|a: int| 0 <= a < left@.len() && left@[a] == x;
                assert(left@[a] == x);
            } else {
                let b = choose|b: int| 0 <= b < right@.len() && right@[b] == x;
                assert(right@[b] == x);
            }
        }
    }
    merged
}

/// Orders the places from `from` up to `to`.
fn order_stretch<R: Ranking>(ranking: &R, from: usize, to: usize) -> (ordered: Vec<usize>)
    requires
        from <= to <= ranking.size(),
    ensures
        ordered@.len() == to - from,
        ordered@.no_duplicates(),
        forall|x: usize| #[trigger] ordered@.contains(x) <==> from <= x < to,
        is_one_order(ranking.size(), ranking.order()) ==> in_order(ranking.order(), places(ordered@)),
    decreases to - from,
{
    if to - from <= 1 {
        let mut ordered: Vec<usize> = Vec::new();
        if from < to {
            ordered.push(from);
            assert(ordered@[0] == from);
        }
        return ordered;
    }
    let middle: usize = from + (to - from) / 2;
    let left: Vec<usize> = order_stretch(ranking, from, middle);
    let right: Vec<usize> = order_stretch(ranking, middle, to);
    proof {
        assert forall|i: int| 0 <= i < left@.len() implies (#[trigger] left@[i]) < ranking.size() by {
            assert(left@.contains(left@[i]));
        }
        assert forall|i: int| 0 <= i < right@.len() implies (#[trigger] right@[i]) < ranking.size() by {
            assert(right@.contains(right@[i]));
        }
    }
    merge_stretches(ranking, &left, &right)
}

/// The places `0` to `n - 1`, in the order of a ranking.
pub fn ordered_places<R: Ranking>(ranking: &R, n: usize) -> (ordered: Vec<usize>)
    requires
        n == ranking.size(),
    ensures
        is_ordering(ranking.size(), ranking.order(), places(ordered@)),
{
    let ordered: Vec<usize> = order_stretch(ranking, 0, n);
    proof {
        assert forall|i: int| 0 <= i < n implies 0 <= #[trigger] places(ordered@)[i] < n by {
            assert(ordered@.contains(ordered@[i]));
        }
    }
    ordered
}

/// The first of an ordered list goes before everything else, so it is the same in every ordered
/// list of the same places.
proof fn lemma_same_first(n: nat, before: Precedence, one: Seq<int>, other: Seq<int>)
    requires
        is_one_order(n, before),
        in_order(before, one),
        in_order(before, other),
        one.len() > 0,
        other.len() > 0,
        forall|i: int| 0 <= i < one.len() ==> 0 <= #[trigger] one[i] < n,
        forall|i: int| 0 <= i < other.len() ==> 0 <= #[trigger] other[i] < n,
        forall|x: int| #[trigger] one.contains(x) <==> other.contains(x),
    ensures
        one[0] == other[0],
{
    if one[0] != other[0] {
        assert(one.contains(one[0]));
        assert(other.contains(other[0]));
        let i = choose|i: int| 0 <= i < other.len() && other[i] == one[0];
        let j = choose|j: int| 0 <= j < one.len() && one[j] == other[0];
        assert(one.contains(other[0]));
        assert(before(other[0], other[i]));
        assert(before(one[0], one[j]));
        assert(before(one[0], one[0]));
    }
}

/// Two ordered lists of the same places are the same list.
proof fn lemma_same_list(n: nat, before: Precedence, one: Seq<int>, other: Seq<int>)
    requires
        is_one_order(n, before),
        in_order(before, one),
        in_order(before, other),
        one.no_duplicates(),
        other.no_duplicates(),
        forall|i: int| 0 <= i < one.len() ==> 0 <= #[trigger] one[i] < n,
        forall|i: int| 0 <= i < other.len() ==> 0 <= #[trigger] other[i] < n,
        forall|x: int| #[trigger] one.contains(x) <==> other.contains(x),
    ensures
        one == other,
    decreases one.len(),
{
    if one.len() == 0 {
        if other.len() > 0 {
            assert(other.contains(other[0]));
            assert(one.contains(other[0]));
        }
        assert(one =~= other);
    } else {
        assert(one.contains(one[0]));
        assert(other.contains(one[0]));
        lemma_same_first(n, before, one, other);
        let a = one.drop_first();
        let b = other.drop_first();
        assert forall|x: int| #[trigger] a.contains(x) <==> b.contains(x) by {
            if a.contains(x) {
                let i = choose|i: int| 0 <= i < a.len() && a[i] == x;
                assert(one[i + 1] == x);
                assert(one.contains(x));
                let j = choose|j: int| 0 <= j < other.len() && other[j] == x;
                assert(j != 0);
                assert(b[j - 1] == x);
            }
            if b.contains(x) {
                let i = choose|i: int| 0 <= i < b.len() && b[i] == x;
                assert(other[i + 1] == x);
                assert(other.contains(x));
                assert(one.contains(x));
                let j = choose|j: int| 0 <= j < one.len() && one[j] == x;
                assert(j != 0);
                assert(a[j - 1] == x);
            }
        }
        assert forall|i: int, j: int| 0 <= i < j < a.len() implies before(
            #[trigger] a[i],
            #[trigger] a[j],
        ) by {
            assert(a[i] == one[i + 1] && a[j] == one[j + 1]);
        }
        assert forall|i: int, j: int| 0 <= i < j < b.len() implies before(
            #[trigger] b[i],
            #[trigger] b[j],
        ) by {
            assert(b[i] == other[i + 1] && b[j] == other[j + 1]);
        }
        lemma_same_list(n, before, a, b);
        assert(one =~= seq![one[0]] + a);
        assert(other =~= seq![other[0]] + b);
    }
}

/// A list that names each place once names every place.
pub proof fn lemma_names_every_place(list: Seq<int>, n: nat)
    requires
        names_each_once(list, n),
    ensures
        forall|x: int| #[trigger] list.contains(x) <==> 0 <= x < n,
{
    let named = list.to_set();
    let all = vstd::set_lib::set_int_range(0, n as int);
    list.unique_seq_to_set();
    vstd::set_lib::lemma_int_range(0, n as int);
    assert(named.subset_of(all));
    vstd::set_lib::lemma_subset_equality(named, all);
    assert forall|x: int| #[trigger] list.contains(x) <==> 0 <= x < n by {
        assert(named.contains(x) <==> all.contains(x));
    }
}

/// There is one ordering: where a ranking is one order, whoever orders the places by it gets the
/// same list.
pub proof fn law_one_ordering(n: nat, before: Precedence, one: Seq<int>, other: Seq<int>)
    requires
        is_one_order(n, before),
        is_ordering(n, before, one),
        is_ordering(n, before, other),
    ensures
        one == other,
{
    lemma_names_every_place(one, n);
    lemma_names_every_place(other, n);
    lemma_same_list(n, before, one, other);
}

/// Things written in the order their places are.
pub open spec fn at_places<T>(items: Seq<T>, list: Seq<int>) -> Seq<T> {
    Seq::new(list.len(), |i: int| items[list[i]])
}

/// Puts things in the order of their places.
pub fn rearranged<T>(items: Vec<T>, order: &Vec<usize>) -> (arranged: Vec<T>)
    requires
        names_each_once(places(order@), items@.len()),
    ensures
        arranged@ == at_places(items@, places(order@)),
{
    let ghost all = items@;
    let n: usize = items.len();
    let mut items: Vec<T> = items;
    let mut slots: Vec<Option<T>> = Vec::new();
    while items.len() > 0
        invariant
            items@ == all.take(items@.len() as int),
            items@.len() + slots@.len() == n,
            n == all.len(),
            forall|k: int| 0 <= k < slots@.len() ==> #[trigger] slots@[k] == Some(all[n - 1 - k]),
        decreases items.len(),
    {
        let last: Option<T> = items.pop();
        slots.push(last);
        assert(items@ =~= all.take(items@.len() as int));
    }
    let mut arranged: Vec<T> = Vec::new();
    let mut i: usize = 0;
    assert(arranged@ =~= at_places(all, places(order@)).take(0));
    assert forall|j: int| 0 <= j < n implies slots@[n - 1 - #[trigger] order@[j]] == Some(
        all[order@[j] as int],
    ) by {
        assert(0 <= places(order@)[j] < n);
        assert(slots@[n - 1 - order@[j]] == Some(all[n - 1 - (n - 1 - order@[j])]));
    }
    while i < n
        invariant
            i <= n,
            n == all.len(),
            n == order@.len(),
            slots@.len() == n,
            names_each_once(places(order@), n as nat),
            arranged@ == at_places(all, places(order@)).take(i as int),
            forall|j: int|
                i <= j < n ==> slots@[n - 1 - #[trigger] order@[j]] == Some(all[order@[j] as int]),
        decreases n - i,
    {
        let place: usize = order[i];
        assert(places(order@)[i as int] == place);
        assert(slots@[n - 1 - order@[i as int]] == Some(all[place as int]));
        let ghost before = slots@;
        let mut taken: Option<T> = None;
        std::mem::swap(&mut slots[n - 1 - place], &mut taken);
        assert forall|j: int| i < j < n implies slots@[n - 1 - #[trigger] order@[j]] == Some(
            all[order@[j] as int],
        ) by {
            assert(places(order@)[j] == order@[j]);
            assert(places(order@)[i as int] != places(order@)[j]);
            assert(before[n - 1 - order@[j]] == Some(all[order@[j] as int]));
        }
        arranged.push(taken.unwrap());
        i += 1;
        assert(at_places(all, places(order@)).take(i as int) =~= at_places(
            all,
            places(order@),
        ).take(i - 1).push(all[place as int]));
    }
    assert(at_places(all, places(order@)).take(n as int) =~= at_places(all, places(order@)));
    arranged
}

// ---------------------------------------------------------------------------
// By a key
// ---------------------------------------------------------------------------

/// Which of two goes first by its key. Things with the same key stay as they stand.
pub open spec fn key_before(keys: Seq<(u64, u128)>) -> Precedence {
    |a: int, b: int|
        {
            ||| keys[a].0 < keys[b].0
            ||| keys[a].0 == keys[b].0 && keys[a].1 < keys[b].1
            ||| keys[a] == keys[b] && a < b
        }
}

/// Whether a list of places follows the keys of the things at them.
pub open spec fn is_key_order(keys: Seq<(u64, u128)>, list: Seq<int>) -> bool {
    &&& names_each_once(list, keys.len())
    &&& in_order(key_before(keys), list)
}

/// Things ranked by a key.
struct KeyRanking<'a> {
    keys: &'a Vec<(u64, u128)>,
}

impl<'a> Ranking for KeyRanking<'a> {
    closed spec fn size(&self) -> nat {
        self.keys@.len()
    }

    closed spec fn order(&self) -> Precedence {
        key_before(self.keys@)
    }

    fn goes_before(&self, a: usize, b: usize) -> (before: bool) {
        let left: (u64, u128) = self.keys[a];
        let right: (u64, u128) = self.keys[b];
        left.0 < right.0 || (left.0 == right.0 && left.1 < right.1) || (left.0 == right.0 && left.1
            == right.1 && a < b)
    }
}

/// The places of things in the order of their keys.
pub fn places_by_key(keys: &Vec<(u64, u128)>) -> (list: Vec<usize>)
    ensures
        is_key_order(keys@, places(list@)),
{
    let ranking = KeyRanking { keys };
    let list: Vec<usize> = ordered_places(&ranking, keys.len());
    assert(is_one_order(keys@.len(), key_before(keys@)));
    list
}

/// A list of things has one order by their keys.
pub proof fn law_one_order_by_key(keys: Seq<(u64, u128)>, one: Seq<int>, other: Seq<int>)
    requires
        is_key_order(keys, one),
        is_key_order(keys, other),
    ensures
        one == other,
{
    assert(is_one_order(keys.len(), key_before(keys)));
    law_one_ordering(keys.len(), key_before(keys), one, other);
}

// ---------------------------------------------------------------------------
// Things that come in another order
// ---------------------------------------------------------------------------

/// One list of places looked up in another.
pub open spec fn through(list: Seq<int>, arrival: Seq<int>) -> Seq<int> {
    Seq::new(list.len(), |i: int| arrival[list[i]])
}

/// Looking each place up in a list that names each place once names each place once.
pub proof fn lemma_through_names_each_once(list: Seq<int>, arrival: Seq<int>, n: nat)
    requires
        names_each_once(list, n),
        names_each_once(arrival, n),
    ensures
        names_each_once(through(list, arrival), n),
{
    let whole = through(list, arrival);
    assert forall|i: int| 0 <= i < whole.len() implies 0 <= #[trigger] whole[i] < n by {
        assert(0 <= list[i] < n);
        assert(0 <= arrival[list[i]] < n);
    }
    assert forall|i: int, j: int| 0 <= i < j < whole.len() implies #[trigger] whole[i]
        != #[trigger] whole[j] by {
        assert(list[i] != list[j]);
        assert(0 <= list[i] < n && 0 <= list[j] < n);
        if list[i] < list[j] {
            assert(arrival[list[i]] != arrival[list[j]]);
        } else {
            assert(arrival[list[j]] != arrival[list[i]]);
        }
    }
}

/// Things with different keys come to the same order, in whatever order they arrive.
pub proof fn law_keys_settle_any_arrival<T>(
    keys: Seq<(u64, u128)>,
    things: Seq<T>,
    list: Seq<int>,
    arrival: Seq<int>,
    arrived_list: Seq<int>,
)
    requires
        things.len() == keys.len(),
        keys.no_duplicates(),
        names_each_once(arrival, keys.len()),
        is_key_order(keys, list),
        is_key_order(at_places(keys, arrival), arrived_list),
    ensures
        at_places(at_places(things, arrival), arrived_list) == at_places(things, list),
{
    let n = keys.len();
    let arrived = at_places(keys, arrival);
    let whole = through(arrived_list, arrival);
    lemma_through_names_each_once(arrived_list, arrival, n);
    assert forall|i: int, j: int| 0 <= i < j < whole.len() implies (key_before(keys))(
        #[trigger] whole[i],
        #[trigger] whole[j],
    ) by {
        let a = arrived_list[i];
        let b = arrived_list[j];
        assert((key_before(arrived))(a, b));
        assert(0 <= a < n && 0 <= b < n);
        assert(arrived[a] == keys[arrival[a]] && arrived[b] == keys[arrival[b]]);
        assert(whole[i] != whole[j]);
        assert(0 <= whole[i] < n && 0 <= whole[j] < n);
        assert(keys[whole[i]] != keys[whole[j]]);
    }
    law_one_order_by_key(keys, whole, list);
    assert(at_places(at_places(things, arrival), arrived_list) =~= at_places(things, list)) by {
        assert forall|i: int| 0 <= i < list.len() implies #[trigger] at_places(
            at_places(things, arrival),
            arrived_list,
        )[i] == things[list[i]] by {
            assert(0 <= arrived_list[i] < n);
            assert(whole[i] == list[i]);
        }
    }
}

// ---------------------------------------------------------------------------
// Sums
// ---------------------------------------------------------------------------

/// The sum of some numbers.
pub open spec fn sum_of(numbers: Seq<nat>) -> nat
    decreases numbers.len(),
{
    if numbers.len() == 0 {
        0
    } else {
        sum_of(numbers.drop_last()) + numbers.last()
    }
}

/// A sum is that of the other numbers and one of them.
proof fn lemma_total_without(numbers: Seq<nat>, place: int)
    requires
        0 <= place < numbers.len(),
    ensures
        sum_of(numbers) == sum_of(numbers.remove(place)) + numbers[place],
    decreases numbers.len(),
{
    if place == numbers.len() - 1 {
        assert(numbers.remove(place) =~= numbers.drop_last());
    } else {
        lemma_total_without(numbers.drop_last(), place);
        assert(numbers.remove(place).drop_last() =~= numbers.drop_last().remove(place));
        assert(numbers.remove(place).last() == numbers.last());
    }
}

/// Where a list that names each place once names the last one, and what it names without it.
proof fn lemma_without_last_place(list: Seq<int>, n: nat) -> (place: int)
    requires
        n > 0,
        names_each_once(list, n),
    ensures
        0 <= place < n,
        list[place] == n - 1,
        names_each_once(list.remove(place), (n - 1) as nat),
{
    lemma_names_every_place(list, n);
    assert(list.contains(n - 1));
    let place = choose|place: int| 0 <= place < list.len() && list[place] == n - 1;
    let rest = list.remove(place);
    assert forall|i: int| 0 <= i < n - 1 implies 0 <= #[trigger] rest[i] < n - 1 by {
        let from = if i < place {
            i
        } else {
            i + 1
        };
        assert(rest[i] == list[from]);
        assert(list[from] != list[place]);
    }
    assert forall|i: int, j: int|
        0 <= i < rest.len() && 0 <= j < rest.len() && i != j implies rest[i] != rest[j] by {
        let a = if i < place {
            i
        } else {
            i + 1
        };
        let b = if j < place {
            j
        } else {
            j + 1
        };
        assert(rest[i] == list[a] && rest[j] == list[b]);
    }
    place
}

/// A sum is the same in whatever order its numbers are taken.
pub proof fn law_a_sum_needs_no_order(numbers: Seq<nat>, list: Seq<int>)
    requires
        names_each_once(list, numbers.len()),
    ensures
        sum_of(at_places(numbers, list)) == sum_of(numbers),
    decreases numbers.len(),
{
    let taken = at_places(numbers, list);
    if numbers.len() > 0 {
        let place = lemma_without_last_place(list, numbers.len());
        law_a_sum_needs_no_order(numbers.drop_last(), list.remove(place));
        lemma_total_without(taken, place);
        assert(taken.remove(place) =~= at_places(numbers.drop_last(), list.remove(place)));
    } else {
        assert(taken =~= numbers);
    }
}

/// Putting things in another order loses none and repeats none.
pub proof fn law_an_ordering_keeps_everything<T>(items: Seq<T>, list: Seq<int>)
    requires
        names_each_once(list, items.len()),
    ensures
        at_places(items, list).to_multiset() == items.to_multiset(),
    decreases items.len(),
{
    broadcast use vstd::seq_lib::group_to_multiset_ensures;

    let taken = at_places(items, list);
    if items.len() > 0 {
        let place = lemma_without_last_place(list, items.len());
        let last = items.last();
        law_an_ordering_keeps_everything(items.drop_last(), list.remove(place));
        assert(taken.remove(place) =~= at_places(items.drop_last(), list.remove(place)));
        assert(items.remove(items.len() - 1) =~= items.drop_last());
        vstd::seq_lib::to_multiset_remove(taken, place);
        vstd::seq_lib::to_multiset_remove(items, items.len() - 1);
        assert(taken[place] == last);
        assert(taken.contains(last));
        assert(items.contains(last));
        assert(taken.to_multiset() =~= taken.to_multiset().remove(last).insert(last));
        assert(items.to_multiset() =~= items.to_multiset().remove(last).insert(last));
    } else {
        assert(taken =~= items);
    }
}

} // verus!
