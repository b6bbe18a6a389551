//! What a sorted page looks like to the one who reads it.

use vstd::prelude::*;
use crate::{hit_laws, hits, json, text};
use crate::hits::{SearchWindow, SortOrder};
use crate::json::{JsonV, NumV};
use crate::text::Standing;

verus! {

/// Whether a value is the whole number.
pub open spec fn is_whole(value: JsonV, number: int) -> bool {
    match value {
        JsonV::Number(NumV::Unsigned(n)) => number == n,
        JsonV::Number(NumV::Negative(n)) => number == n,
        _ => false,
    }
}

/// A page is a stretch of the merge that it is taken of.
proof fn lemma_page_in_order(
    hits: Seq<JsonV>,
    sort: Option<SortOrder>,
    window: SearchWindow,
    page: Seq<JsonV>,
    order: Seq<int>,
    i: int,
    j: int,
)
    requires
        hit_laws::are_comparable(hits, sort),
        hits::is_merge_page(page, hits, sort, window, order),
        0 <= i < j < page.len(),
    ensures
        hits::primary_order(page[i], page[j], sort) != Standing::After,
        hits.contains(page[i]),
        hits.contains(page[j]),
{
    hit_laws::law_comparable_hits_are_one_order(hits, sort);
    let before = hits::merge_before(hits, sort);
    let a = window.offset + i;
    let b = window.offset + j;
    assert(page[i] == hits[order[a]] && page[j] == hits[order[b]]);
    assert(before(order[a], order[b]));
}

/// A page sorted by a text field reads as a dictionary does, from the front or from the back: no key
/// stands behind one that it comes before.
pub proof fn law_a_text_sort_reads_as_a_dictionary(
    hits: Seq<JsonV>,
    order: SortOrder,
    window: SearchWindow,
    page: Seq<JsonV>,
    places: Seq<int>,
    i: int,
    j: int,
    key_i: Seq<char>,
    key_j: Seq<char>,
)
    requires
        forall|k: int|
            0 <= k < hits.len() ==> (hit_laws::sort_key(#[trigger] hits[k]) matches Some(key)
                ==> key is Text),
        hits::is_merge_page(page, hits, Some(order), window, places),
        0 <= i < j < page.len(),
        page[i].get("_sort_key"@) == Some(JsonV::Text(key_i)),
        page[j].get("_sort_key"@) == Some(JsonV::Text(key_j)),
    ensures
        order == SortOrder::Asc ==> !text::comes_before(key_j, key_i),
        order == SortOrder::Desc ==> !text::comes_before(key_i, key_j),
{
    lemma_page_in_order(hits, Some(order), window, page, places, i, j);
    text::law_texts_stand_as_in_a_dictionary(key_i, key_j);
}

/// A page sorted by whole numbers counts up, or down.
pub proof fn law_a_number_sort_counts(
    hits: Seq<JsonV>,
    order: SortOrder,
    window: SearchWindow,
    page: Seq<JsonV>,
    places: Seq<int>,
    i: int,
    j: int,
    key_i: JsonV,
    key_j: JsonV,
    number_i: int,
    number_j: int,
)
    requires
        forall|k: int|
            0 <= k < hits.len() ==> (hit_laws::sort_key(#[trigger] hits[k]) matches Some(key)
                ==> key.as_i64() is Some),
        hits::is_merge_page(page, hits, Some(order), window, places),
        0 <= i < j < page.len(),
        page[i].get("_sort_key"@) == Some(key_i),
        page[j].get("_sort_key"@) == Some(key_j),
        is_whole(key_i, number_i),
        is_whole(key_j, number_j),
    ensures
        order == SortOrder::Asc ==> number_i <= number_j,
        order == SortOrder::Desc ==> number_i >= number_j,
{
    lemma_page_in_order(hits, Some(order), window, page, places, i, j);
    let a = choose|a: int| 0 <= a < hits.len() && hits[a] == page[i];
    let b = choose|b: int| 0 <= b < hits.len() && hits[b] == page[j];
    assert(hit_laws::sort_key(hits[a]) == Some(key_i));
    assert(hit_laws::sort_key(hits[b]) == Some(key_j));
}

/// A page sorted by other numbers goes up by the doubles they are read as, or down.
pub proof fn law_a_double_sort_goes_by_value(
    hits: Seq<JsonV>,
    order: SortOrder,
    window: SearchWindow,
    page: Seq<JsonV>,
    places: Seq<int>,
    i: int,
    j: int,
    text_i: Seq<char>,
    text_j: Seq<char>,
    value_i: int,
    value_j: int,
)
    requires
        forall|k: int|
            0 <= k < hits.len() ==> (hit_laws::sort_key(#[trigger] hits[k]) matches Some(key)
                ==> hit_laws::is_double_key(key)),
        hits::is_merge_page(page, hits, Some(order), window, places),
        0 <= i < j < page.len(),
        page[i].get("_sort_key"@) == Some(JsonV::Number(NumV::Real(text_i))),
        page[j].get("_sort_key"@) == Some(JsonV::Number(NumV::Real(text_j))),
        json::double_of(text_i) == Some(value_i),
        json::double_of(text_j) == Some(value_j),
    ensures
        order == SortOrder::Asc ==> value_i <= value_j,
        order == SortOrder::Desc ==> value_i >= value_j,
{
    lemma_page_in_order(hits, Some(order), window, page, places, i, j);
}

/// A page without a sort has the best scores first; a hit that carries no number for its score counts
/// as zero.
pub proof fn law_the_best_scores_come_first(
    hits: Seq<JsonV>,
    window: SearchWindow,
    page: Seq<JsonV>,
    places: Seq<int>,
    i: int,
    j: int,
    text_i: Seq<char>,
    text_j: Seq<char>,
    value_i: int,
    value_j: int,
)
    requires
        hits::is_merge_page(page, hits, None, window, places),
        0 <= i < j < page.len(),
        page[i].get("_score"@) == Some(JsonV::Number(NumV::Real(text_i))) && json::double_of(text_i)
            == Some(value_i) || page[i].get("_score"@) is None && value_i == 0
            || page[i].get("_score"@) == Some(JsonV::Null) && value_i == 0,
        page[j].get("_score"@) == Some(JsonV::Number(NumV::Real(text_j))) && json::double_of(text_j)
            == Some(value_j) || page[j].get("_score"@) is None && value_j == 0
            || page[j].get("_score"@) == Some(JsonV::Null) && value_j == 0,
    ensures
        value_i >= value_j,
{
    lemma_page_in_order(hits, None, window, page, places, i, j);
}

/// Hits that carry no key come behind all that carry one, up or down.
pub proof fn law_a_keyless_hit_is_behind_the_keyed(
    hits: Seq<JsonV>,
    order: SortOrder,
    window: SearchWindow,
    page: Seq<JsonV>,
    places: Seq<int>,
    i: int,
    j: int,
)
    requires
        hit_laws::are_comparable(hits, Some(order)),
        hits::is_merge_page(page, hits, Some(order), window, places),
        0 <= i < j < page.len(),
        page[j].get("_sort_key"@) is Some,
    ensures
        page[i].get("_sort_key"@) is Some,
{
    lemma_page_in_order(hits, Some(order), window, page, places, i, j);
}

/// Hits that nothing tells apart stay in the order in which their sources gave them.
pub proof fn law_equal_keys_keep_their_places(
    hits: Seq<JsonV>,
    sort: Option<SortOrder>,
    window: SearchWindow,
    page: Seq<JsonV>,
    places: Seq<int>,
    i: int,
    j: int,
)
    requires
        hit_laws::are_comparable(hits, sort),
        hits::is_merge_page(page, hits, sort, window, places),
        0 <= i < j < page.len(),
        sort is Some ==> page[i].get("_sort_key"@) == page[j].get("_sort_key"@),
        sort is None ==> page[i].get("_score"@) == page[j].get("_score"@),
    ensures
        exists|a: int, b: int|
            0 <= a < b < hits.len() && #[trigger] hits[a] == page[i] && #[trigger] hits[b] == page[j],
{
    hit_laws::law_comparable_hits_are_one_order(hits, sort);
    let before = hits::merge_before(hits, sort);
    let a = places[window.offset + i];
    let b = places[window.offset + j];
    assert(hits[a] == page[i] && hits[b] == page[j]);
    assert(before(a, b));
    assert(hits::primary_order(hits[a], hits[b], sort) == Standing::Level) by {
        if sort is Some {
            match hits[a].get("_sort_key"@) {
                Some(key) => {
                    if let JsonV::Text(t) = key {
                        text::lemma_text_order_flips(t, t);
                    }
                },
                None => {},
            }
        }
    }
}

/// A page holds as many hits as the window asks for, as long as there are any, and the first of them
/// stands as far on as the window skips.
pub proof fn law_a_page_is_its_stretch_of_the_order(
    hits: Seq<JsonV>,
    sort: Option<SortOrder>,
    window: SearchWindow,
    page: Seq<JsonV>,
    places: Seq<int>,
)
    requires
        hits::is_merge_page(page, hits, sort, window, places),
    ensures
        page.len() <= window.limit,
        page.len() <= hits.len(),
        window.offset + window.limit <= hits.len() ==> page.len() == window.limit,
        window.offset < hits.len() < window.offset + window.limit ==> page.len() == hits.len()
            - window.offset,
        hits.len() <= window.offset ==> page.len() == 0,
        forall|i: int|
            0 <= i < page.len() ==> #[trigger] page[i] == hits[places[window.offset + i]],
{
}

} // verus!
