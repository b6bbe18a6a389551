//! What a page asks of the sources that it is merged from.

use vstd::prelude::*;
use crate::{hits, order};
use crate::hits::{SearchWindow, SortOrder};
use crate::json::JsonV;
use crate::order::Precedence;
use crate::text::Standing;

verus! {

/// The first hits of each source, as many as it is asked for.
pub open spec fn first_of_each(blocks: Seq<Seq<JsonV>>, count: nat) -> Seq<Seq<JsonV>> {
    blocks.map_values(
        |block: Seq<JsonV>|
            if block.len() > count {
                block.take(count as int)
            } else {
                block
            },
    )
}

/// Whether each source lists its hits in the order that they are merged in.
pub open spec fn in_source_order(blocks: Seq<Seq<JsonV>>, sort: Option<SortOrder>) -> bool {
    forall|k: int, i: int, j: int|
        0 <= k < blocks.len() && 0 <= i < j < blocks[k].len() ==> hits::primary_order(
            #[trigger] blocks[k][i],
            #[trigger] blocks[k][j],
            sort,
        ) != Standing::After
}

/// How many hits of a source are among the first of each.
pub open spec fn kept_of(block: Seq<JsonV>, count: nat) -> nat {
    if block.len() > count {
        count
    } else {
        block.len()
    }
}

/// The places, among all hits, of the first of each source.
pub open spec fn places_kept(blocks: Seq<Seq<JsonV>>, count: nat) -> Seq<int>
    decreases blocks.len(),
{
    if blocks.len() == 0 {
        Seq::empty()
    } else {
        let start = blocks.drop_last().flatten().len() as int;
        places_kept(blocks.drop_last(), count) + Seq::new(
            kept_of(blocks.last(), count),
            |i: int| start + i,
        )
    }
}

/// Whether a place that is left out stands behind the first of its own source.
pub open spec fn stands_behind(
    hits: Seq<JsonV>,
    sort: Option<SortOrder>,
    place: int,
    start: int,
    count: nat,
) -> bool {
    &&& 0 <= start
    &&& start + count <= place < hits.len()
    &&& forall|q: int|
        start <= q < start + count ==> hits::primary_order(#[trigger] hits[q], hits[place], sort)
            != Standing::After
}

/// The hits of all sources are those of the first sources and those of the last.
proof fn lemma_last_block(blocks: Seq<Seq<JsonV>>)
    requires
        blocks.len() > 0,
    ensures
        blocks.flatten() == blocks.drop_last().flatten() + blocks.last(),
{
    blocks.drop_last().lemma_flatten_push(blocks.last());
    assert(blocks.drop_last().push(blocks.last()) =~= blocks);
}

/// The first of each source are the hits at their places, which rise; and a hit that is left out
/// stands behind the first of its own source.
proof fn lemma_places_kept(blocks: Seq<Seq<JsonV>>, sort: Option<SortOrder>, count: nat)
    requires
        in_source_order(blocks, sort),
    ensures
        ({
            let kept = places_kept(blocks, count);
            let all = blocks.flatten();
            &&& kept.len() <= all.len()
            &&& forall|i: int| 0 <= i < kept.len() ==> 0 <= #[trigger] kept[i] < all.len()
            &&& forall|i: int, j: int|
                0 <= i < j < kept.len() ==> #[trigger] kept[i] < #[trigger] kept[j]
            &&& first_of_each(blocks, count).flatten() == order::at_places(all, kept)
            &&& forall|p: int|
                0 <= p < all.len() && !#[trigger] kept.contains(p) ==> exists|start: int| #[trigger]
                    stands_behind(all, sort, p, start, count)
        }),
    decreases blocks.len(),
{
    let kept = places_kept(blocks, count);
    let all = blocks.flatten();
    let cut = first_of_each(blocks, count);
    if blocks.len() == 0 {
        assert(cut =~= Seq::empty());
        assert(order::at_places(all, kept) =~= cut.flatten());
    } else {
        let front = blocks.drop_last();
        let last = blocks.last();
        let before = places_kept(front, count);
        let start = front.flatten().len() as int;
        let shown = kept_of(last, count);
        assert forall|k: int, i: int, j: int|
            0 <= k < front.len() && 0 <= i < j < front[k].len() implies hits::primary_order(
            #[trigger] front[k][i],
            #[trigger] front[k][j],
            sort,
        ) != Standing::After by {
            assert(front[k] == blocks[k]);
            assert(blocks[k][i] == front[k][i] && blocks[k][j] == front[k][j]);
        }
        lemma_places_kept(front, sort, count);
        lemma_last_block(blocks);
        lemma_last_block(cut);
        assert(cut.drop_last() =~= first_of_each(front, count));
        assert(cut.last() =~= last.take(shown as int));
        assert forall|i: int| 0 <= i < kept.len() implies 0 <= #[trigger] kept[i] < all.len() by {
            if i < before.len() {
                assert(kept[i] == before[i]);
            }
        }
        assert forall|i: int, j: int| 0 <= i < j < kept.len() implies #[trigger] kept[i]
            < #[trigger] kept[j] by {
            if j < before.len() {
                assert(kept[i] == before[i] && kept[j] == before[j]);
            } else if i < before.len() {
                assert(kept[i] == before[i]);
            }
        }
        assert(cut.flatten() =~= order::at_places(all, kept)) by {
            assert forall|i: int| 0 <= i < kept.len() implies #[trigger] cut.flatten()[i]
                == all[kept[i]] by {
                if i < before.len() {
                    assert(kept[i] == before[i]);
                    assert(cut.drop_last().flatten()[i] == front.flatten()[before[i]]);
                } else {
                    assert(kept[i] == start + (i - before.len()));
                }
            }
        }
        assert forall|p: int| 0 <= p < all.len() && !#[trigger] kept.contains(p) implies exists|
            s: int,
        | #[trigger] stands_behind(all, sort, p, s, count) by {
            if p < start {
                if before.contains(p) {
                    let i = choose|i: int| 0 <= i < before.len() && before[i] == p;
                    assert(kept[i] == p);
                }
                let s = choose|s: int| #[trigger] stands_behind(front.flatten(), sort, p, s, count);
                assert forall|q: int| s <= q < s + count implies hits::primary_order(
                    #[trigger] all[q],
                    all[p],
                    sort,
                ) != Standing::After by {
                    assert(all[q] == front.flatten()[q] && all[p] == front.flatten()[p]);
                }
                assert(stands_behind(all, sort, p, s, count));
            } else {
                let at = p - start;
                if at < shown {
                    assert(kept[before.len() + at] == p);
                }
                assert forall|q: int| start <= q < start + count implies hits::primary_order(
                    #[trigger] all[q],
                    all[p],
                    sort,
                ) != Standing::After by {
                    let k = blocks.len() - 1;
                    assert(all[q] == blocks[k][q - start] && all[p] == blocks[k][at]);
                }
                assert(stands_behind(all, sort, p, start, count));
            }
        }
    }
}

/// A list in order that holds the first of another list in order starts as that one does.
proof fn lemma_orders_start_alike(
    n: nat,
    before: Precedence,
    order: Seq<int>,
    sub: Seq<int>,
    count: int,
)
    requires
        order::is_one_order(n, before),
        order::names_each_once(order, n),
        order::in_order(before, order),
        sub.no_duplicates(),
        forall|i: int| 0 <= i < sub.len() ==> 0 <= #[trigger] sub[i] < n,
        order::in_order(before, sub),
        0 <= count <= n,
        forall|i: int| 0 <= i < count ==> sub.contains(#[trigger] order[i]),
    ensures
        count <= sub.len(),
        forall|i: int| 0 <= i < count ==> sub[i] == #[trigger] order[i],
    decreases count,
{
    if count > 0 {
        let i = count - 1;
        lemma_orders_start_alike(n, before, order, sub, i);
        assert(sub.contains(order[i]));
        let j = choose|j: int| 0 <= j < sub.len() && sub[j] == order[i];
        if j < i {
            assert(sub[j] == order[j]);
        }
        if j > i {
            assert(before(sub[i], sub[j]));
            order::lemma_names_every_place(order, n);
            assert(order.contains(sub[i]));
            let l = choose|l: int| 0 <= l < order.len() && order[l] == sub[i];
            if l < i {
                assert(sub[l] == order[l]);
            }
            assert(l > i);
            assert(before(order[i], order[l]));
            assert(before(sub[i], sub[i]));
        }
    }
}

/// Whatever stands before `count` others in an order stands past the first `count`.
proof fn lemma_behind_many(
    n: nat,
    before: Precedence,
    order: Seq<int>,
    place: int,
    start: int,
    count: nat,
)
    requires
        order::is_one_order(n, before),
        order::names_each_once(order, n),
        order::in_order(before, order),
        0 <= place < n,
        order[place] < n,
        0 <= start,
        start + count <= n,
        forall|q: int| start <= q < start + count ==> #[trigger] before(q, order[place]),
    ensures
        count <= place,
{
    let ahead = vstd::set_lib::set_int_range(start, start + count as int);
    let first = order.take(place);
    vstd::set_lib::lemma_int_range(start, start + count as int);
    first.unique_seq_to_set();
    order::lemma_names_every_place(order, n);
    assert forall|q: int| #[trigger] ahead.contains(q) implies first.to_set().contains(q) by {
        assert(before(q, order[place]));
        assert(order.contains(q));
        let l = choose|l: int| 0 <= l < order.len() && order[l] == q;
        if l > place {
            assert(before(order[place], order[l]));
            assert(before(q, q));
        }
        if l == place {
            assert(before(q, q));
        }
        assert(first[l] == q);
    }
    vstd::set_lib::lemma_len_subset(ahead, first.to_set());
}

/// Every source need return no more than reaches to the end of the page, from the front of its own
/// order: the page merged from those hits is the page merged from all.
pub proof fn law_each_source_returns_enough(
    blocks: Seq<Seq<JsonV>>,
    sort: Option<SortOrder>,
    window: SearchWindow,
    count: nat,
    page: Seq<JsonV>,
    order: Seq<int>,
    cut_page: Seq<JsonV>,
    cut_order: Seq<int>,
)
    requires
        order::is_one_order(blocks.flatten().len(), hits::merge_before(blocks.flatten(), sort)),
        in_source_order(blocks, sort),
        window.offset + window.limit <= count,
        hits::is_merge_page(page, blocks.flatten(), sort, window, order),
        hits::is_merge_page(
            cut_page,
            first_of_each(blocks, count).flatten(),
            sort,
            window,
            cut_order,
        ),
    ensures
        cut_page == page,
{
    let all = blocks.flatten();
    let n = all.len();
    let kept = places_kept(blocks, count);
    let cut = first_of_each(blocks, count).flatten();
    let before = hits::merge_before(all, sort);
    let cut_before = hits::merge_before(cut, sort);
    lemma_places_kept(blocks, sort, count);
    assert(cut.len() == kept.len());
    assert forall|a: int, b: int| 0 <= a < kept.len() && 0 <= b < kept.len() implies #[trigger] cut_before(
        a,
        b,
    ) == before(kept[a], kept[b]) by {
        assert(cut[a] == all[kept[a]] && cut[b] == all[kept[b]]);
        if a < b {
            assert(kept[a] < kept[b]);
        } else if b < a {
            assert(kept[b] < kept[a]);
        }
    }
    assert(order::is_one_order(cut.len(), cut_before)) by {
        assert forall|a: int| 0 <= a < cut.len() implies !#[trigger] cut_before(a, a) by {
            assert(!before(kept[a], kept[a]));
        }
        assert forall|a: int, b: int|
            0 <= a < cut.len() && 0 <= b < cut.len() && a != b implies #[trigger] cut_before(a, b)
            || cut_before(b, a) by {
            if a < b {
                assert(kept[a] < kept[b]);
            } else {
                assert(kept[b] < kept[a]);
            }
            assert(before(kept[a], kept[b]) || before(kept[b], kept[a]));
            assert(cut_before(b, a) == before(kept[b], kept[a]));
        }
        assert forall|a: int, b: int, c: int|
            0 <= a < cut.len() && 0 <= b < cut.len() && 0 <= c < cut.len() && #[trigger] cut_before(
                a,
                b,
            ) && #[trigger] cut_before(b, c) implies cut_before(a, c) by {
            assert(before(kept[a], kept[b]) && before(kept[b], kept[c]));
        }
    }
    let sub = order::through(cut_order, kept);
    assert forall|i: int, j: int|
        0 <= i < sub.len() && 0 <= j < sub.len() && i != j implies sub[i] != sub[j] by {
        let a = cut_order[i];
        let b = cut_order[j];
        assert(a != b);
        if a < b {
            assert(kept[a] < kept[b]);
        } else {
            assert(kept[b] < kept[a]);
        }
    }
    assert forall|i: int| 0 <= i < sub.len() implies 0 <= #[trigger] sub[i] < n by {
        assert(0 <= cut_order[i] < kept.len());
    }
    assert forall|i: int, j: int| 0 <= i < j < sub.len() implies before(
        #[trigger] sub[i],
        #[trigger] sub[j],
    ) by {
        assert(cut_before(cut_order[i], cut_order[j]));
    }
    let reach: int = if count < n {
        count as int
    } else {
        n as int
    };
    assert forall|i: int| 0 <= i < reach implies sub.contains(#[trigger] order[i]) by {
        let p = order[i];
        if !kept.contains(p) {
            let start = choose|start: int| #[trigger] stands_behind(all, sort, p, start, count);
            assert forall|q: int| start <= q < start + count implies #[trigger] before(q, p) by {
                assert(hits::primary_order(all[q], all[p], sort) != Standing::After);
            }
            lemma_behind_many(n, before, order, i, start, count);
        }
        let a = choose|a: int| 0 <= a < kept.len() && kept[a] == p;
        order::lemma_names_every_place(cut_order, cut.len());
        assert(cut_order.contains(a));
        let j = choose|j: int| 0 <= j < cut_order.len() && cut_order[j] == a;
        assert(sub[j] == p);
    }
    lemma_orders_start_alike(n, before, order, sub, reach);
    let whole = order::at_places(all, order);
    let part = order::at_places(cut, cut_order);
    assert forall|i: int| 0 <= i < reach implies #[trigger] part[i] == whole[i] by {
        assert(sub[i] == order[i]);
        assert(part[i] == all[kept[cut_order[i]]]);
    }
    assert(part.len() == kept.len() && whole.len() == n);
    assert(hits::window_of(part, window) =~= hits::window_of(whole, window));
}

} // verus!
