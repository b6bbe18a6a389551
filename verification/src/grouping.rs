//! Things put together by the shard or the node that they are for.

use vstd::prelude::*;

verus! {

/// The place of the group of an identifier, or the number of groups where it has none.
pub open spec fn group_place<T>(groups: Seq<(u128, Seq<T>)>, id: u128) -> int
    decreases groups.len(),
{
    if groups.len() == 0 {
        0
    } else if groups[0].0 == id {
        0
    } else {
        1 + group_place(groups.skip(1), id)
    }
}

/// The place found for an identifier is the first that is its own.
pub proof fn lemma_group_place<T>(groups: Seq<(u128, Seq<T>)>, id: u128)
    ensures
        0 <= group_place(groups, id) <= groups.len(),
        group_place(groups, id) < groups.len() ==> groups[group_place(groups, id)].0 == id,
        forall|i: int| 0 <= i < group_place(groups, id) ==> #[trigger] groups[i].0 != id,
    decreases groups.len(),
{
    if groups.len() > 0 && groups[0].0 != id {
        let rest = groups.skip(1);
        lemma_group_place(rest, id);
        assert forall|i: int| 0 <= i < group_place(groups, id) implies #[trigger] groups[i].0
            != id by {
            if i > 0 {
                assert(rest[i - 1] == groups[i]);
            }
        }
    }
}

/// Groups with one more thing under its identifier.
pub open spec fn with_thing<T>(groups: Seq<(u128, Seq<T>)>, id: u128, thing: T) -> Seq<
    (u128, Seq<T>),
> {
    let place = group_place(groups, id);
    if place < groups.len() {
        groups.update(place, (id, groups[place].1.push(thing)))
    } else {
        groups.push((id, Seq::empty().push(thing)))
    }
}

/// How many things are grouped.
pub open spec fn things_grouped<T>(groups: Seq<(u128, Seq<T>)>) -> nat
    decreases groups.len(),
{
    if groups.len() == 0 {
        0
    } else {
        things_grouped(groups.drop_last()) + groups.last().1.len()
    }
}

/// Replacing a group changes the count by the difference in its size.
proof fn lemma_regrouped<T>(groups: Seq<(u128, Seq<T>)>, place: int, group: (u128, Seq<T>))
    requires
        0 <= place < groups.len(),
    ensures
        things_grouped(groups.update(place, group)) + groups[place].1.len() == things_grouped(
            groups,
        ) + group.1.len(),
    decreases groups.len(),
{
    let changed = groups.update(place, group);
    if place == groups.len() - 1 {
        assert(changed.drop_last() =~= groups.drop_last());
    } else {
        lemma_regrouped(groups.drop_last(), place, group);
        assert(changed.drop_last() =~= groups.drop_last().update(place, group));
    }
}

/// Grouping one more thing loses nothing and adds nothing else.
pub proof fn law_grouping_counts_every_thing<T>(groups: Seq<(u128, Seq<T>)>, id: u128, thing: T)
    ensures
        things_grouped(with_thing(groups, id, thing)) == things_grouped(groups) + 1,
{
    lemma_group_place(groups, id);
    let place = group_place(groups, id);
    if place < groups.len() {
        lemma_regrouped(groups, place, (id, groups[place].1.push(thing)));
    } else {
        assert(groups.push((id, Seq::empty().push(thing))).drop_last() =~= groups);
    }
}

/// Groups, as values of the model.
pub open spec fn id_groups<T>(groups: Seq<(u128, Vec<T>)>) -> Seq<(u128, Seq<T>)> {
    groups.map_values(|group: (u128, Vec<T>)| (group.0, group.1@))
}

/// Puts a thing with the others of its identifier.
pub fn group_thing<T>(groups: &mut Vec<(u128, Vec<T>)>, id: u128, thing: T)
    ensures
        id_groups(final(groups)@) == with_thing(id_groups(old(groups)@), id, thing),
{
    let ghost before = id_groups(groups@);
    proof {
        lemma_group_place(before, id);
    }
    let mut i: usize = 0;
    while i < groups.len()
        invariant
            i <= groups.len(),
            before == id_groups(groups@),
            before == id_groups(old(groups)@),
            0 <= group_place(before, id) <= before.len(),
            group_place(before, id) < before.len() ==> before[group_place(before, id)].0 == id,
            forall|k: int| 0 <= k < group_place(before, id) ==> #[trigger] before[k].0 != id,
            i <= group_place(before, id),
        decreases groups.len() - i,
    {
        assert(before[i as int].0 == groups@[i as int].0);
        if groups[i].0 == id {
            assert(group_place(before, id) == i);
            groups[i].1.push(thing);
            assert(id_groups(groups@) =~= before.update(
                i as int,
                (id, before[i as int].1.push(thing)),
            ));
            return;
        }
        i += 1;
    }
    let mut group: Vec<T> = Vec::new();
    group.push(thing);
    groups.push((id, group));
    assert(id_groups(groups@) =~= before.push((id, Seq::empty().push(thing))));
}

/// What stands beside an identifier in a list of pairs.
pub open spec fn paired<T>(pairs: Seq<(u128, T)>, id: u128) -> Option<T>
    decreases pairs.len(),
{
    if pairs.len() == 0 {
        None
    } else if pairs[0].0 == id {
        Some(pairs[0].1)
    } else {
        paired(pairs.skip(1), id)
    }
}

/// The place of the first pair of an identifier, if it has one.
pub fn pair_place<T>(pairs: &Vec<(u128, T)>, id: u128) -> (place: Option<usize>)
    ensures
        match place {
            Some(at) => at < pairs@.len() && paired(pairs@, id) == Some(pairs@[at as int].1),
            None => paired(pairs@, id) is None,
        },
{
    let mut i: usize = 0;
    assert(pairs@.skip(0) =~= pairs@);
    while i < pairs.len()
        invariant
            i <= pairs.len(),
            paired(pairs@, id) == paired(pairs@.skip(i as int), id),
        decreases pairs.len() - i,
    {
        assert(pairs@.skip(i as int)[0] == pairs@[i as int]);
        if pairs[i].0 == id {
            return Some(i);
        }
        assert(pairs@.skip(i as int).skip(1) =~= pairs@.skip(i + 1));
        i += 1;
    }
    None
}

/// Whether an identifier is in a list.
pub fn holds_id(list: &Vec<u128>, id: u128) -> (found: bool)
    ensures
        found == list@.contains(id),
{
    let mut i: usize = 0;
    while i < list.len()
        invariant
            i <= list.len(),
            forall|k: int| 0 <= k < i ==> list@[k] != id,
        decreases list.len() - i,
    {
        if list[i] == id {
            return true;
        }
        i += 1;
    }
    false
}

} // verus!
