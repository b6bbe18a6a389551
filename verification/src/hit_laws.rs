//! What holds of merged, paged and projected hits.

use vstd::prelude::*;
use crate::{hits, json, order, text};
use crate::hits::{SearchWindow, ShardHitV, SortOrder};
use crate::json::JsonV;
use crate::text::Standing;

verus! {

/// Ordering by score is one order: whatever the hits score, no two runs can merge them
/// differently.
pub proof fn law_scores_are_one_order(hits: Seq<JsonV>)
    ensures
        order::is_one_order(hits.len(), hits::merge_before(hits, None)),
{
}

/// The sort key a hit carries.
pub open spec fn sort_key(hit: JsonV) -> Option<JsonV> {
    hit.get(crate::hits::SORT_KEY_FIELD@)
}

/// A hit without the key that was asked to order on comes after every hit with one, whichever way
/// the order runs.
pub proof fn law_a_hit_without_its_key_comes_last(
    hits: Seq<JsonV>,
    order: SortOrder,
    with_key: int,
    without_key: int,
)
    requires
        sort_key(hits[with_key]) is Some,
        sort_key(hits[without_key]) is None,
    ensures
        hits::merge_before(hits, Some(order))(with_key, without_key),
        !hits::merge_before(hits, Some(order))(without_key, with_key),
{
}

/// Ordering by whole numbers is one order, hits without a key among them.
pub proof fn law_whole_keys_are_one_order(hits: Seq<JsonV>, order: SortOrder)
    requires
        forall|i: int|
            0 <= i < hits.len() ==> (sort_key(#[trigger] hits[i]) matches Some(key)
                ==> key.as_i64() is Some),
    ensures
        order::is_one_order(hits.len(), hits::merge_before(hits, Some(order))),
{
    let before = hits::merge_before(hits, Some(order));
    assert forall|a: int, b: int, c: int|
        0 <= a < hits.len() && 0 <= b < hits.len() && 0 <= c < hits.len() && #[trigger] before(a, b)
            && #[trigger] before(b, c) implies before(a, c) by {
        assert(sort_key(hits[a]) matches Some(key) ==> key.as_i64() is Some);
        assert(sort_key(hits[b]) matches Some(key) ==> key.as_i64() is Some);
        assert(sort_key(hits[c]) matches Some(key) ==> key.as_i64() is Some);
    }
    assert forall|a: int, b: int|
        0 <= a < hits.len() && 0 <= b < hits.len() && a != b implies #[trigger] before(a, b) || before(
        b,
        a,
    ) by {
        assert(sort_key(hits[a]) matches Some(key) ==> key.as_i64() is Some);
        assert(sort_key(hits[b]) matches Some(key) ==> key.as_i64() is Some);
    }
    assert forall|a: int| 0 <= a < hits.len() implies !#[trigger] before(a, a) by {
        assert(sort_key(hits[a]) matches Some(key) ==> key.as_i64() is Some);
    }
}

/// Ordering by texts is one order, hits without a key among them.
pub proof fn law_text_keys_are_one_order(hits: Seq<JsonV>, order: SortOrder)
    requires
        forall|i: int|
            0 <= i < hits.len() ==> (sort_key(#[trigger] hits[i]) matches Some(key) ==> key is Text),
    ensures
        order::is_one_order(hits.len(), hits::merge_before(hits, Some(order))),
{
    let before = hits::merge_before(hits, Some(order));
    assert forall|a: int, b: int, c: int|
        0 <= a < hits.len() && 0 <= b < hits.len() && 0 <= c < hits.len() && #[trigger] before(a, b)
            && #[trigger] before(b, c) implies before(a, c) by {
        assert(sort_key(hits[a]) matches Some(key) ==> key is Text);
        assert(sort_key(hits[b]) matches Some(key) ==> key is Text);
        assert(sort_key(hits[c]) matches Some(key) ==> key is Text);
        if let (Some(JsonV::Text(x)), Some(JsonV::Text(y)), Some(JsonV::Text(z))) = (
            sort_key(hits[a]),
            sort_key(hits[b]),
            sort_key(hits[c]),
        ) {
            text::lemma_text_order_flips(x, y);
            text::lemma_text_order_flips(y, x);
            text::lemma_text_order_flips(y, z);
            text::lemma_text_order_flips(z, y);
            text::lemma_text_order_flips(x, z);
            text::lemma_text_order_flips(z, x);
            if text::text_order(x, y) == Standing::Before && text::text_order(y, z) == Standing::Before {
                text::lemma_text_order_chains(x, y, z);
            }
            if text::text_order(z, y) == Standing::Before && text::text_order(y, x) == Standing::Before {
                text::lemma_text_order_chains(z, y, x);
            }
        }
    }
    assert forall|a: int, b: int|
        0 <= a < hits.len() && 0 <= b < hits.len() && a != b implies #[trigger] before(a, b) || before(
        b,
        a,
    ) by {
        assert(sort_key(hits[a]) matches Some(key) ==> key is Text);
        assert(sort_key(hits[b]) matches Some(key) ==> key is Text);
        if let (Some(JsonV::Text(x)), Some(JsonV::Text(y))) = (sort_key(hits[a]), sort_key(hits[b])) {
            text::lemma_text_order_flips(x, y);
            text::lemma_text_order_flips(y, x);
        }
    }
    assert forall|a: int| 0 <= a < hits.len() implies !#[trigger] before(a, a) by {
        assert(sort_key(hits[a]) matches Some(key) ==> key is Text);
        if let Some(JsonV::Text(x)) = sort_key(hits[a]) {
            text::lemma_text_order_flips(x, x);
        }
    }
}

/// Whether a sort key is compared as a double with any other such key: it is a number that is read as
/// one, and no signed whole number.
pub open spec fn is_double_key(key: JsonV) -> bool {
    hits::as_double(key) is Some && key.as_i64() is None
}

/// Ordering by doubles is one order, hits without a key among them.
pub proof fn law_double_keys_are_one_order(hits: Seq<JsonV>, order: SortOrder)
    requires
        forall|i: int|
            0 <= i < hits.len() ==> (sort_key(#[trigger] hits[i]) matches Some(key)
                ==> is_double_key(key)),
    ensures
        order::is_one_order(hits.len(), hits::merge_before(hits, Some(order))),
{
    let before = hits::merge_before(hits, Some(order));
    assert forall|a: int, b: int, c: int|
        0 <= a < hits.len() && 0 <= b < hits.len() && 0 <= c < hits.len() && #[trigger] before(a, b)
            && #[trigger] before(b, c) implies before(a, c) by {
        assert(sort_key(hits[a]) matches Some(key) ==> is_double_key(key));
        assert(sort_key(hits[b]) matches Some(key) ==> is_double_key(key));
        assert(sort_key(hits[c]) matches Some(key) ==> is_double_key(key));
    }
    assert forall|a: int, b: int|
        0 <= a < hits.len() && 0 <= b < hits.len() && a != b implies #[trigger] before(a, b) || before(
        b,
        a,
    ) by {
        assert(sort_key(hits[a]) matches Some(key) ==> is_double_key(key));
        assert(sort_key(hits[b]) matches Some(key) ==> is_double_key(key));
    }
    assert forall|a: int| 0 <= a < hits.len() implies !#[trigger] before(a, a) by {
        assert(sort_key(hits[a]) matches Some(key) ==> is_double_key(key));
    }
}

/// Whether hits can be told apart by what was asked to order on: by score always, and by a sort key
/// where the keys that are there are all signed whole numbers, all other numbers, or all texts.
pub open spec fn are_comparable(hits: Seq<JsonV>, sort: Option<SortOrder>) -> bool {
    ||| sort is None
    ||| forall|i: int|
        0 <= i < hits.len() ==> (sort_key(#[trigger] hits[i]) matches Some(key) ==> key.as_i64() is Some)
    ||| forall|i: int|
        0 <= i < hits.len() ==> (sort_key(#[trigger] hits[i]) matches Some(key) ==> is_double_key(key))
    ||| forall|i: int|
        0 <= i < hits.len() ==> (sort_key(#[trigger] hits[i]) matches Some(key) ==> key is Text)
}

/// Hits that can be told apart stand in one order.
pub proof fn law_comparable_hits_are_one_order(hits: Seq<JsonV>, sort: Option<SortOrder>)
    requires
        are_comparable(hits, sort),
    ensures
        order::is_one_order(hits.len(), hits::merge_before(hits, sort)),
{
    match sort {
        None => {
            law_scores_are_one_order(hits);
        },
        Some(order) => {
            if forall|i: int|
                0 <= i < hits.len() ==> (sort_key(#[trigger] hits[i]) matches Some(key)
                    ==> key.as_i64() is Some) {
                law_whole_keys_are_one_order(hits, order);
            } else if forall|i: int|
                0 <= i < hits.len() ==> (sort_key(#[trigger] hits[i]) matches Some(key)
                    ==> is_double_key(key)) {
                law_double_keys_are_one_order(hits, order);
            } else {
                law_text_keys_are_one_order(hits, order);
            }
        },
    }
}

/// An unpaged merge is all the hits in the order asked for: none is lost or repeated, each stands
/// before those it goes before, those that stand level keep the order of their sources and their
/// order within a source, and where a sort was asked for those without a key come last.
pub proof fn law_an_unpaged_merge_is_every_hit_in_order(
    hits: Seq<JsonV>,
    sort: Option<SortOrder>,
    whole: Seq<JsonV>,
    order: Seq<int>,
)
    requires
        are_comparable(hits, sort),
        hits.len() <= usize::MAX,
        hits::is_merge_page(
            whole,
            hits,
            sort,
            (SearchWindow { offset: 0, limit: hits.len() as usize }),
            order,
        ),
    ensures
        whole.to_multiset() == hits.to_multiset(),
        whole == order::at_places(hits, order),
        order::names_each_once(order, hits.len()),
        forall|i: int, j: int|
            0 <= i < j < whole.len() ==> match hits::primary_order(
                #[trigger] whole[i],
                #[trigger] whole[j],
                sort,
            ) {
                Standing::Before => true,
                Standing::Level => order[i] < order[j],
                Standing::After => false,
            },
        sort is Some ==> forall|i: int, j: int|
            0 <= i < j < whole.len() && sort_key(#[trigger] whole[i]) is None ==> sort_key(
                #[trigger] whole[j],
            ) is None,
{
    law_comparable_hits_are_one_order(hits, sort);
    let full = order::at_places(hits, order);
    assert(full.skip(0) =~= full);
    assert(whole =~= full);
    order::law_an_ordering_keeps_everything(hits, order);
    let before = hits::merge_before(hits, sort);
    assert forall|i: int, j: int| 0 <= i < j < whole.len() implies match hits::primary_order(
        #[trigger] whole[i],
        #[trigger] whole[j],
        sort,
    ) {
        Standing::Before => true,
        Standing::Level => order[i] < order[j],
        Standing::After => false,
    } by {
        assert(before(order[i], order[j]));
    }
}

/// Every page of a merge is that window of the unpaged one.
pub proof fn law_every_page_is_a_window_of_the_whole(
    hits: Seq<JsonV>,
    sort: Option<SortOrder>,
    window: SearchWindow,
    page: Seq<JsonV>,
    order: Seq<int>,
    whole: Seq<JsonV>,
    whole_order: Seq<int>,
)
    requires
        are_comparable(hits, sort),
        hits.len() <= usize::MAX,
        hits::is_merge_page(page, hits, sort, window, order),
        hits::is_merge_page(
            whole,
            hits,
            sort,
            (SearchWindow { offset: 0, limit: hits.len() as usize }),
            whole_order,
        ),
    ensures
        page == hits::window_of(whole, window),
{
    law_comparable_hits_are_one_order(hits, sort);
    order::law_one_ordering(hits.len(), hits::merge_before(hits, sort), order, whole_order);
    let full = order::at_places(hits, order);
    assert(full.skip(0) =~= full);
    assert(whole =~= full);
}

/// Where a hit of a source stands among the hits of all sources lined up.
pub open spec fn place_of(blocks: Seq<Seq<JsonV>>, block: int, position: int) -> int {
    blocks.take(block).flatten().len() + position
}

/// The order of the places is that of the sources first and of the positions within a source second.
pub proof fn law_places_follow_sources(
    blocks: Seq<Seq<JsonV>>,
    block: int,
    position: int,
    other_block: int,
    other_position: int,
)
    requires
        0 <= block < blocks.len(),
        0 <= position < blocks[block].len(),
        0 <= other_block < blocks.len(),
        0 <= other_position < blocks[other_block].len(),
    ensures
        0 <= place_of(blocks, block, position) < blocks.flatten().len(),
        blocks.flatten()[place_of(blocks, block, position)] == blocks[block][position],
        block < other_block || (block == other_block && position < other_position) ==> place_of(
            blocks,
            block,
            position,
        ) < place_of(blocks, other_block, other_position),
{
    lemma_block_stands(blocks, block);
    if block < other_block {
        lemma_block_stands(blocks.take(other_block), block);
        assert(blocks.take(other_block).take(block) =~= blocks.take(block));
    }
}

/// A source's hits stand together behind those of the sources before it.
proof fn lemma_block_stands(blocks: Seq<Seq<JsonV>>, block: int)
    requires
        0 <= block < blocks.len(),
    ensures
        ({
            let before = blocks.take(block).flatten().len() as int;
            &&& before + blocks[block].len() <= blocks.flatten().len()
            &&& blocks.flatten().subrange(before, before + blocks[block].len()) == blocks[block]
        }),
{
    let front = blocks.take(block);
    let back = blocks.skip(block);
    assert(front + back =~= blocks);
    vstd::seq_lib::lemma_flatten_concat(front, back);
    assert(back.first() == blocks[block]);
    assert(back.flatten() =~= back.first() + back.drop_first().flatten());
    assert(blocks.flatten().subrange(
        front.flatten().len() as int,
        front.flatten().len() as int + blocks[block].len(),
    ) =~= blocks[block]);
}

/// Merging is deterministic: the same hits, the same sort and the same window give the same page.
pub proof fn law_merge_is_deterministic(
    hits: Seq<JsonV>,
    sort: Option<SortOrder>,
    window: SearchWindow,
    page: Seq<JsonV>,
    order: Seq<int>,
    other_page: Seq<JsonV>,
    other_order: Seq<int>,
)
    requires
        order::is_one_order(hits.len(), hits::merge_before(hits, sort)),
        hits::is_merge_page(page, hits, sort, window, order),
        hits::is_merge_page(other_page, hits, sort, window, other_order),
    ensures
        page == other_page,
{
    order::law_one_ordering(hits.len(), hits::merge_before(hits, sort), order, other_order);
}

/// A truncated merge is a prefix of an untruncated one.
pub proof fn law_limited_merge_is_a_prefix(
    hits: Seq<JsonV>,
    sort: Option<SortOrder>,
    limit: usize,
    page: Seq<JsonV>,
    order: Seq<int>,
    longer_limit: usize,
    longer_page: Seq<JsonV>,
    longer_order: Seq<int>,
)
    requires
        order::is_one_order(hits.len(), hits::merge_before(hits, sort)),
        limit <= longer_limit,
        hits::is_merge_page(page, hits, sort, (SearchWindow { offset: 0, limit }), order),
        hits::is_merge_page(
            longer_page,
            hits,
            sort,
            (SearchWindow { offset: 0, limit: longer_limit }),
            longer_order,
        ),
    ensures
        page.is_prefix_of(longer_page),
        page.len() == limit || page == longer_page,
{
    order::law_one_ordering(hits.len(), hits::merge_before(hits, sort), order, longer_order);
    let full = order::at_places(hits, order);
    assert(full.skip(0) =~= full);
    assert(page =~= longer_page.take(page.len() as int));
    if page.len() < limit {
        assert(page =~= longer_page);
    }
}

/// A page of a merge is the middle of an unpaged one: what stands at a place of the page stands
/// that many places past the offset in the whole.
pub proof fn law_paged_merge_is_a_slice(
    hits: Seq<JsonV>,
    sort: Option<SortOrder>,
    window: SearchWindow,
    page: Seq<JsonV>,
    order: Seq<int>,
    whole: Seq<JsonV>,
    whole_order: Seq<int>,
)
    requires
        order::is_one_order(hits.len(), hits::merge_before(hits, sort)),
        hits.len() <= usize::MAX,
        hits::is_merge_page(page, hits, sort, window, order),
        hits::is_merge_page(
            whole,
            hits,
            sort,
            (SearchWindow { offset: 0, limit: hits.len() as usize }),
            whole_order,
        ),
    ensures
        whole.len() == hits.len(),
        forall|i: int| 0 <= i < page.len() ==> #[trigger] page[i] == whole[window.offset + i],
        page.len() == window.limit || page.len() == 0 || window.offset + page.len() == whole.len(),
        page.len() == 0 ==> window.limit == 0 || whole.len() <= window.offset,
{
    order::law_one_ordering(hits.len(), hits::merge_before(hits, sort), order, whole_order);
    let full = order::at_places(hits, order);
    assert(full.skip(0) =~= full);
    assert(whole =~= full);
}

/// Pages join up: a page and the one that starts where it ends are one longer page.
pub proof fn law_pages_join<T>(ordered: Seq<T>, offset: usize, first: usize, second: usize)
    requires
        offset + first + second <= usize::MAX,
    ensures
        hits::window_of(ordered, (SearchWindow { offset, limit: first })) + hits::window_of(
            ordered,
            (SearchWindow { offset: (offset + first) as usize, limit: second }),
        ) == hits::window_of(ordered, (SearchWindow { offset, limit: (first + second) as usize })),
{
    let a = hits::window_of(ordered, (SearchWindow { offset, limit: first }));
    let b = hits::window_of(
        ordered,
        (SearchWindow { offset: (offset + first) as usize, limit: second }),
    );
    let c = hits::window_of(ordered, (SearchWindow { offset, limit: (first + second) as usize }));
    assert(a + b =~= c);
}

// ---------------------------------------------------------------------------
// Projection
// ---------------------------------------------------------------------------

/// In entries whose keys are distinct, a key holds a value exactly where the two stand together.
proof fn lemma_value_under(entries: Seq<(Seq<char>, JsonV)>, key: Seq<char>)
    requires
        json::keys_distinct(entries),
    ensures
        forall|i: int|
            0 <= i < entries.len() && (#[trigger] entries[i]).0 == key ==> json::value_under(entries, key)
                == Some(entries[i].1),
        json::value_under(entries, key) is Some ==> exists|i: int|
            0 <= i < entries.len() && (#[trigger] entries[i]).0 == key,
{
    json::lemma_key_place(entries, key);
    assert forall|i: int| 0 <= i < entries.len() && (#[trigger] entries[i]).0 == key implies json::value_under(
        entries,
        key,
    ) == Some(entries[i].1) by {
        let p = json::key_place(entries, key);
        if i < p {
            assert(entries[i].0 != key);
        } else if p < i {
            assert(entries[p].0 != entries[i].0);
        }
    }
}

/// Taking a key out takes that key out and no other.
pub proof fn lemma_without_key(entries: Seq<(Seq<char>, JsonV)>, key: Seq<char>, other: Seq<char>)
    requires
        json::keys_distinct(entries),
    ensures
        json::keys_distinct(json::without_key(entries, key)),
        json::value_under(json::without_key(entries, key), other) == (if other == key {
            None
        } else {
            json::value_under(entries, other)
        }),
{
    let after = json::without_key(entries, key);
    json::lemma_key_place(entries, key);
    let p = json::key_place(entries, key);
    if json::has_key(entries, key) {
        assert forall|i: int, j: int| 0 <= i < j < after.len() implies (#[trigger] after[i]).0 != (
        #[trigger] after[j]).0 by {
            let x = if i == p {
                entries.len() - 1
            } else {
                i
            };
            let y = if j == p {
                entries.len() - 1
            } else {
                j
            };
            assert(after[i] == entries[x] && after[j] == entries[y]);
            if x < y {
                assert(entries[x].0 != entries[y].0);
            } else {
                assert(entries[y].0 != entries[x].0);
            }
        }
    }
    lemma_value_under(entries, other);
    lemma_value_under(after, other);
    if json::has_key(entries, key) {
        if json::value_under(after, other) is Some {
            let i = choose|i: int| 0 <= i < after.len() && (#[trigger] after[i]).0 == other;
            let x = if i == p {
                entries.len() - 1
            } else {
                i
            };
            assert(after[i] == entries[x]);
            assert(x != p);
            if other == key {
                if x < p {
                    assert(entries[x].0 != entries[p].0);
                } else {
                    assert(entries[p].0 != entries[x].0);
                }
            }
        } else if other != key && json::value_under(entries, other) is Some {
            let x = choose|i: int| 0 <= i < entries.len() && (#[trigger] entries[i]).0 == other;
            assert(x != p);
            let i = if x == entries.len() - 1 {
                p
            } else {
                x
            };
            assert(after[i] == entries[x]);
        }
    }
}

/// What is left once fields are taken out.
proof fn lemma_left_over(entries: Seq<(Seq<char>, JsonV)>, fields: Seq<Seq<char>>, key: Seq<char>)
    requires
        json::keys_distinct(entries),
    ensures
        json::keys_distinct(hits::left_over(entries, fields)),
        json::value_under(hits::left_over(entries, fields), key) == (if fields.contains(key) {
            None
        } else {
            json::value_under(entries, key)
        }),
    decreases fields.len(),
{
    if fields.len() > 0 {
        let front = fields.drop_last();
        lemma_left_over(entries, front, key);
        lemma_without_key(hits::left_over(entries, front), fields.last(), key);
        if front.contains(key) {
            let i = choose|i: int| 0 <= i < front.len() && front[i] == key;
            assert(fields[i] == key);
        }
        if fields.contains(key) && key != fields.last() {
            let i = choose|i: int| 0 <= i < fields.len() && fields[i] == key;
            assert(front[i] == key);
        }
        if key == fields.last() {
            assert(fields[fields.len() - 1] == key);
        }
    }
}

/// What is taken out.
proof fn lemma_requested(entries: Seq<(Seq<char>, JsonV)>, fields: Seq<Seq<char>>, key: Seq<char>)
    requires
        json::keys_distinct(entries),
    ensures
        json::keys_distinct(hits::requested(entries, fields)),
        json::value_under(hits::requested(entries, fields), key) == (if fields.contains(key) {
            json::value_under(entries, key)
        } else {
            None
        }),
    decreases fields.len(),
{
    if fields.len() > 0 {
        let front = fields.drop_last();
        let last = fields.last();
        lemma_requested(entries, front, key);
        lemma_left_over(entries, front, last);
        if let Some(value) = json::value_under(hits::left_over(entries, front), last) {
            json::lemma_with_entry_keeps_keys_distinct(hits::requested(entries, front), last, value);
            json::lemma_with_entry_read_back(hits::requested(entries, front), last, value, key);
        }
        if front.contains(key) {
            let i = choose|i: int| 0 <= i < front.len() && front[i] == key;
            assert(fields[i] == key);
        }
        if fields.contains(key) && key != last {
            let i = choose|i: int| 0 <= i < fields.len() && fields[i] == key;
            assert(front[i] == key);
        }
        if key == last {
            assert(fields[fields.len() - 1] == key);
        }
    }
}

/// What metadata adds.
proof fn lemma_with_metadata(
    kept: Seq<(Seq<char>, JsonV)>,
    others: Seq<(Seq<char>, JsonV)>,
    key: Seq<char>,
)
    requires
        json::keys_distinct(kept),
        json::keys_distinct(others),
    ensures
        json::keys_distinct(hits::with_metadata(kept, others)),
        json::value_under(hits::with_metadata(kept, others), key) == (if hits::is_metadata(key) && json::value_under(
            others,
            key,
        ) is Some {
            json::value_under(others, key)
        } else {
            json::value_under(kept, key)
        }),
    decreases others.len(),
{
    if others.len() > 0 {
        let front = others.drop_last();
        let last = others.last();
        assert forall|i: int, j: int| 0 <= i < j < front.len() implies (#[trigger] front[i]).0 != (
        #[trigger] front[j]).0 by {
            assert(front[i] == others[i] && front[j] == others[j]);
        }
        lemma_with_metadata(kept, front, key);
        if hits::is_metadata(last.0) {
            json::lemma_with_entry_keeps_keys_distinct(hits::with_metadata(kept, front), last.0, last.1);
            json::lemma_with_entry_read_back(hits::with_metadata(kept, front), last.0, last.1, key);
        }
        lemma_value_under(others, key);
        lemma_value_under(front, key);
        assert(others[others.len() - 1] == last);
        if json::value_under(front, key) is Some {
            let i = choose|i: int| 0 <= i < front.len() && (#[trigger] front[i]).0 == key;
            assert(others[i] == front[i]);
        } else if json::value_under(others, key) is Some && key != last.0 {
            let i = choose|i: int| 0 <= i < others.len() && (#[trigger] others[i]).0 == key;
            assert(front[i] == others[i]);
        }
    } else {
        json::lemma_key_place(others, key);
    }
}

/// A projection shows exactly what was asked for and the metadata: each as the document holds it,
/// and nothing else.
pub proof fn law_projection_shows_what_was_asked(
    entries: Seq<(Seq<char>, JsonV)>,
    fields: Seq<Seq<char>>,
    key: Seq<char>,
)
    requires
        json::keys_distinct(entries),
    ensures
        hits::projection(JsonV::Object(entries), fields).get(key) == (if fields.contains(key)
            || hits::is_metadata(key) {
            json::value_under(entries, key)
        } else {
            None
        }),
{
    lemma_left_over(entries, fields, key);
    lemma_requested(entries, fields, key);
    lemma_with_metadata(hits::requested(entries, fields), hits::left_over(entries, fields), key);
}

/// The keys of entries, in order.
pub open spec fn keys(entries: Seq<(Seq<char>, JsonV)>) -> Seq<Seq<char>> {
    entries.map_values(|entry: (Seq<char>, JsonV)| entry.0)
}

/// The requested fields stand in the order they were requested.
proof fn lemma_requested_in_order(entries: Seq<(Seq<char>, JsonV)>, fields: Seq<Seq<char>>)
    requires
        json::keys_distinct(entries),
        fields.no_duplicates(),
    ensures
        keys(hits::requested(entries, fields)) == fields.filter(|f: Seq<char>| json::has_key(entries, f)),
    decreases fields.len(),
{
    let present = |f: Seq<char>| json::has_key(entries, f);
    reveal(Seq::filter);
    if fields.len() > 0 {
        let front = fields.drop_last();
        let last = fields.last();
        lemma_requested_in_order(entries, front);
        lemma_left_over(entries, front, last);
        lemma_requested(entries, front, last);
        if front.contains(last) {
            let i = choose|i: int| 0 <= i < front.len() && front[i] == last;
            assert(fields[i] == fields[fields.len() - 1]);
        }
        assert(!front.contains(last));
        if let Some(value) = json::value_under(hits::left_over(entries, front), last) {
            assert(!json::has_key(hits::requested(entries, front), last));
            assert(keys(hits::requested(entries, fields)) =~= keys(hits::requested(entries, front)).push(last));
        }
        assert(keys(hits::requested(entries, fields)) =~= fields.filter(present));
    } else {
        assert(keys(hits::requested(entries, fields)) =~= fields.filter(present));
    }
}

/// Metadata goes behind what is already there.
proof fn lemma_metadata_goes_behind(
    kept: Seq<(Seq<char>, JsonV)>,
    others: Seq<(Seq<char>, JsonV)>,
)
    requires
        json::keys_distinct(kept),
        forall|i: int| 0 <= i < others.len() ==> !json::has_key(kept, (#[trigger] others[i]).0),
        json::keys_distinct(others),
    ensures
        kept.is_prefix_of(hits::with_metadata(kept, others)),
    decreases others.len(),
{
    if others.len() > 0 {
        let front = others.drop_last();
        let last = others.last();
        assert forall|i: int, j: int| 0 <= i < j < front.len() implies (#[trigger] front[i]).0 != (
        #[trigger] front[j]).0 by {
            assert(front[i] == others[i] && front[j] == others[j]);
        }
        assert forall|i: int| 0 <= i < front.len() implies !json::has_key(kept, (#[trigger] front[i]).0) by {
            assert(front[i] == others[i]);
        }
        lemma_metadata_goes_behind(kept, front);
        lemma_with_metadata(kept, front, last.0);
        lemma_value_under(front, last.0);
        assert(others[others.len() - 1] == last);
        if json::value_under(front, last.0) is Some {
            let i = choose|i: int| 0 <= i < front.len() && (#[trigger] front[i]).0 == last.0;
            assert(others[i].0 == others[others.len() - 1].0);
        }
        assert(!json::has_key(hits::with_metadata(kept, front), last.0));
        assert(kept =~= hits::with_metadata(kept, others).take(kept.len() as int));
    } else {
        assert(kept =~= hits::with_metadata(kept, others).take(kept.len() as int));
    }
}

/// A projection shows the fields in the order they were asked for, before any metadata.
pub proof fn law_projection_keeps_the_order_asked(
    entries: Seq<(Seq<char>, JsonV)>,
    fields: Seq<Seq<char>>,
)
    requires
        json::keys_distinct(entries),
        fields.no_duplicates(),
    ensures
        fields.filter(|f: Seq<char>| json::has_key(entries, f)).is_prefix_of(
            keys(hits::projection(JsonV::Object(entries), fields)->Object_0),
        ),
{
    let present = |f: Seq<char>| json::has_key(entries, f);
    let kept = hits::requested(entries, fields);
    let others = hits::left_over(entries, fields);
    lemma_requested_in_order(entries, fields);
    lemma_requested(entries, fields, Seq::empty());
    lemma_left_over(entries, fields, Seq::empty());
    assert forall|i: int| 0 <= i < others.len() implies !json::has_key(kept, (#[trigger] others[i]).0) by {
        let key = others[i].0;
        lemma_left_over(entries, fields, key);
        lemma_value_under(others, key);
        lemma_requested(entries, fields, key);
    }
    lemma_metadata_goes_behind(kept, others);
    let shown = hits::with_metadata(kept, others);
    assert(keys(kept) =~= keys(shown).take(keys(kept).len() as int));
}

/// Stripping takes the sort key out of every hit and leaves everything else as it was.
pub proof fn law_stripping_takes_only_the_sort_key(hit: Seq<(Seq<char>, JsonV)>, key: Seq<char>)
    requires
        json::keys_distinct(hit),
    ensures
        JsonV::Object(hit).without(crate::hits::SORT_KEY_FIELD@).get(key) == (if key
            == crate::hits::SORT_KEY_FIELD@ {
            None
        } else {
            JsonV::Object(hit).get(key)
        }),
{
    lemma_without_key(hit, crate::hits::SORT_KEY_FIELD@, key);
}

/// One node's hits come to the same order, in whatever order its shards answer: where the hits
/// stand in one order at all, only the order within each shard's own answer matters.
pub proof fn law_shards_may_answer_in_any_order(
    gathered: Seq<ShardHitV>,
    sort: Option<SortOrder>,
    ranked: Seq<ShardHitV>,
    order: Seq<int>,
    arrival: Seq<int>,
    arrived_ranked: Seq<ShardHitV>,
    arrived_order: Seq<int>,
)
    requires
        order::is_one_order(gathered.len(), hits::shard_hits_before(gathered, sort)),
        order::names_each_once(arrival, gathered.len()),
        forall|i: int, j: int|
            0 <= i < j < arrival.len() && gathered[arrival[i]].shard == gathered[arrival[j]].shard
                ==> #[trigger] arrival[i] < #[trigger] arrival[j],
        hits::is_shard_order(ranked, gathered, sort, order),
        hits::is_shard_order(arrived_ranked, order::at_places(gathered, arrival), sort, arrived_order),
    ensures
        arrived_ranked == ranked,
{
    let n = gathered.len();
    let arrived = order::at_places(gathered, arrival);
    let before = hits::shard_hits_before(gathered, sort);
    let arrived_before = hits::shard_hits_before(arrived, sort);
    assert forall|a: int, b: int| 0 <= a < n && 0 <= b < n implies #[trigger] arrived_before(a, b)
        == before(arrival[a], arrival[b]) by {
        assert(arrived[a] == gathered[arrival[a]] && arrived[b] == gathered[arrival[b]]);
        assert(0 <= arrival[a] < n && 0 <= arrival[b] < n);
        if arrived[a].shard == arrived[b].shard {
            if a < b {
                assert(arrival[a] < arrival[b]);
            } else if b < a {
                assert(arrival[b] < arrival[a]);
            }
        }
    }
    assert(order::is_one_order(n, arrived_before)) by {
        assert forall|a: int| 0 <= a < n implies !#[trigger] arrived_before(a, a) by {
            assert(!before(arrival[a], arrival[a]));
        }
        assert forall|a: int, b: int| 0 <= a < n && 0 <= b < n && a != b implies #[trigger]
            arrived_before(a, b) || arrived_before(b, a) by {
            if a < b {
                assert(arrival[a] != arrival[b]);
            } else {
                assert(arrival[b] != arrival[a]);
            }
            assert(before(arrival[a], arrival[b]) || before(arrival[b], arrival[a]));
            assert(arrived_before(b, a) == before(arrival[b], arrival[a]));
        }
        assert forall|a: int, b: int, c: int|
            0 <= a < n && 0 <= b < n && 0 <= c < n && #[trigger] arrived_before(a, b)
                && #[trigger] arrived_before(b, c) implies arrived_before(a, c) by {
            assert(before(arrival[a], arrival[b]) && before(arrival[b], arrival[c]));
            assert(arrived_before(a, c) == before(arrival[a], arrival[c]));
        }
    }
    let whole = order::through(arrived_order, arrival);
    order::lemma_through_names_each_once(arrived_order, arrival, n);
    assert forall|i: int, j: int| 0 <= i < j < whole.len() implies before(
        #[trigger] whole[i],
        #[trigger] whole[j],
    ) by {
        let a = arrived_order[i];
        let b = arrived_order[j];
        assert(arrived_before(a, b));
        assert(0 <= a < n && 0 <= b < n);
    }
    order::law_one_ordering(n, before, whole, order);
    assert(arrived_ranked =~= ranked) by {
        assert forall|i: int| 0 <= i < ranked.len() implies #[trigger] arrived_ranked[i]
            == ranked[i] by {
            assert(0 <= arrived_order[i] < n);
            assert(whole[i] == order[i]);
        }
    }
}

} // verus!
