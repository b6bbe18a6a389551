//! What a streamed search asks for, takes in and answers.

use vstd::prelude::*;
use crate::{broadcast, broadcast_laws, errors, hits, json, order, search_laws, streaming, text};
use crate::hits::{SearchWindow, SortOrder};
use crate::json::{JsonV, NumV};
use crate::ops::ClientOp;
use crate::streaming::{StreamV, StreamingSearchResult};

verus! {

/// A streamed search is the search that was asked for, from its first hit and with the length that was
/// asked for; nothing else is streamed.
pub proof fn law_a_stream_asks_for_the_first_hits(op: ClientOp, default_limit: usize)
    ensures
        op matches ClientOp::Search { index, query, limit, fields, sort, .. } ==> {
            let length = if limit is Some {
                limit->0
            } else {
                default_limit
            };
            streaming::streamed(op, default_limit) == Some(
                (
                    ClientOp::Search { index, query, limit: Some(length), offset: None, fields, sort },
                    length,
                ),
            )
        },
        op matches ClientOp::Stream { index, query, limit, fields, sort } ==> {
            let length = if limit is Some {
                limit->0
            } else {
                default_limit
            };
            streaming::streamed(op, default_limit) == Some(
                (
                    ClientOp::Search { index, query, limit: Some(length), offset: None, fields, sort },
                    length,
                ),
            )
        },
        !(op is Search) && !(op is Stream) ==> streaming::streamed(op, default_limit) is None,
{
}

/// Whether a hit carries a number as its score.
pub open spec fn has_score(hit: JsonV) -> bool {
    hit.get("_score"@) matches Some(JsonV::Number(_))
}

/// The hits that a shard of this node contributes are those with a score, as they stand.
pub proof fn law_only_scored_hits_are_streamed(hits: Seq<JsonV>)
    ensures
        streaming::scored(hits) == hits.filter(|hit: JsonV| has_score(hit)),
    decreases hits.len(),
{
    reveal(Seq::filter);
    if hits.len() > 0 {
        law_only_scored_hits_are_streamed(hits.drop_last());
    }
}

/// A local answer adds its hits, each under the score that the shard gave it and otherwise as it is,
/// what it says matched, and its shard, once.
pub proof fn law_a_local_answer_is_streamed(before: StreamV, answer: StreamingSearchResult, key: Seq<char>)
    ensures
        answer matches StreamingSearchResult::Local { shard_id, hits, total_hits, .. } ==> {
            let after = streaming::streamed_with(before, answer);
            &&& after.sources == before.sources.push((0u64, shard_id))
            &&& after.blocks.len() == before.blocks.len() + 1
            &&& after.blocks.drop_last() == before.blocks
            &&& after.blocks.last().len() == hits@.len()
            &&& forall|i: int|
                0 <= i < hits@.len() ==> {
                    &&& !(hits@[i].1@ is Object) ==> #[trigger] after.blocks.last()[i] == hits@[i].1@
                    &&& hits@[i].1@ is Object && hits@[i].0.number is Some
                        ==> after.blocks.last()[i].get("_score"@) == Some(
                        JsonV::Number((hits@[i].0.number->0)@),
                    )
                    &&& hits@[i].1@ is Object && hits@[i].0.number is None
                        ==> after.blocks.last()[i].get("_score"@) == Some(
                        JsonV::Number(NumV::Unsigned(0)),
                    )
                    &&& key != "_score"@ ==> after.blocks.last()[i].get(key) == hits@[i].1@.get(key)
                }
            &&& after.collected == before.collected + hits@.len()
            &&& after.total_hits == before.total_hits + total_hits
            &&& after.local_shards.contains(shard_id)
            &&& forall|s: u128|
                s != shard_id ==> (#[trigger] after.local_shards.contains(s)
                    <==> before.local_shards.contains(s))
            &&& before.local_shards.no_duplicates() ==> after.local_shards.no_duplicates()
            &&& after.shards == after.local_shards.len()
            &&& after.contacted == before.contacted + 1
            &&& after.errors == before.errors
        },
{
    if let StreamingSearchResult::Local { shard_id, hits, total_hits, took_ms } = answer {
        let after = streaming::streamed_with(before, answer);
        assert(after.blocks.drop_last() =~= before.blocks);
        assert(after.blocks.last() == streaming::all_rescored(hits@));
        assert forall|i: int| 0 <= i < hits@.len() implies {
            &&& !(hits@[i].1@ is Object) ==> #[trigger] after.blocks.last()[i] == hits@[i].1@
            &&& hits@[i].1@ is Object && hits@[i].0.number is Some
                ==> after.blocks.last()[i].get("_score"@) == Some(
                JsonV::Number((hits@[i].0.number->0)@),
            )
            &&& hits@[i].1@ is Object && hits@[i].0.number is None
                ==> after.blocks.last()[i].get("_score"@) == Some(
                JsonV::Number(NumV::Unsigned(0)),
            )
            &&& key != "_score"@ ==> after.blocks.last()[i].get(key) == hits@[i].1@.get(key)
        } by {
            let doc = hits@[i].1@;
            assert(after.blocks.last()[i] == streaming::rescored(hits@[i].0, doc));
            if doc is Object {
                let put = JsonV::Number(
                    match hits::score_number(hits@[i].0) {
                        Some(number) => number,
                        None => NumV::Unsigned(0),
                    },
                );
                json::lemma_read_back(doc, "_score"@, put, "_score"@);
                json::lemma_read_back(doc, "_score"@, put, key);
            }
        }
        if !before.local_shards.contains(shard_id) {
            assert(after.local_shards[before.local_shards.len() as int] == shard_id);
            assert forall|s: u128| s != shard_id implies (#[trigger] after.local_shards.contains(s)
                <==> before.local_shards.contains(s)) by {
                if before.local_shards.contains(s) {
                    let k = choose|k: int|
                        0 <= k < before.local_shards.len() && before.local_shards[k] == s;
                    assert(after.local_shards[k] == s);
                }
                if after.local_shards.contains(s) {
                    let k = choose|k: int|
                        0 <= k < after.local_shards.len() && after.local_shards[k] == s;
                    assert(before.local_shards[k] == s);
                }
            }
        }
    }
}

/// A peer's answer adds the hits that it holds, as they are, what it says matched and how many shards
/// it says answered; a peer that failed adds its failure and nothing else.
pub proof fn law_a_peers_answer_is_streamed(before: StreamV, answer: StreamingSearchResult)
    ensures
        answer matches StreamingSearchResult::Remote { node_id, result: Ok(value) } ==> {
            let after = streaming::streamed_with(before, answer);
            &&& value@.get("hits"@) matches Some(JsonV::Array(found)) ==> after.sources
                == before.sources.push((1u64, node_id)) && after.blocks == before.blocks.push(found)
                && after.collected == before.collected + found.len()
            &&& !(value@.get("hits"@) matches Some(JsonV::Array(_))) ==> after.sources
                == before.sources && after.blocks == before.blocks && after.collected
                == before.collected
            &&& after.total_hits == before.total_hits + broadcast_laws::whole_under(
                value@,
                "total_hits"@,
            )
            &&& after.shards == before.shards + broadcast_laws::responded_in(value@)
            &&& after.local_shards == before.local_shards
            &&& after.contacted == before.contacted + 1
            &&& after.errors == before.errors
        },
        answer matches StreamingSearchResult::Remote { node_id, result: Err(error) } ==> {
            let after = streaming::streamed_with(before, answer);
            &&& after.sources == before.sources
            &&& after.blocks == before.blocks
            &&& after.collected == before.collected
            &&& after.total_hits == before.total_hits
            &&& after.shards == before.shards
            &&& after.local_shards == before.local_shards
            &&& after.contacted == before.contacted + 1
            &&& after.errors == before.errors.push(
                "Remote node "@ + text::uuid_chars(node_id) + " search failed: "@
                    + errors::error_text(error@),
            )
        },
{
}

/// A streamed answer holds the first hits of what was taken in, tells what matched, how many were asked
/// for, how long it took, and how many shards, nodes and failures stand behind it, each failure in its
/// own words.
pub proof fn law_a_streamed_answer_tells_what_was_taken_in(
    answer: JsonV,
    known: StreamV,
    sort: Option<SortOrder>,
    limit: usize,
    took_ms: u64,
    ranks: Seq<int>,
    page: Seq<JsonV>,
    order: Seq<int>,
)
    requires
        streaming::is_streamed_answer(answer, known, sort, limit, took_ms, ranks, page, order),
    ensures
        order::is_key_order(known.sources, ranks),
        hits::is_merge_page(
            page,
            order::at_places(known.blocks, ranks).flatten(),
            sort,
            (SearchWindow { offset: 0, limit }),
            order,
        ),
        answer.get("hits"@) == Some(JsonV::Array(page)),
        search_laws::is_count(answer.get("hits_returned"@), page.len()),
        search_laws::is_count(answer.get("total_hits"@), known.total_hits),
        search_laws::is_count(answer.get("limit"@), limit as nat),
        search_laws::is_count(answer.get("took_ms"@), took_ms as nat),
        answer.get("stats"@) matches Some(stats) && {
            &&& stats.get("shards"@) matches Some(asked) && {
                &&& search_laws::is_count(asked.get("total"@), known.shards)
                &&& known.errors.len() <= known.shards ==> search_laws::is_count(
                    asked.get("responded"@),
                    (known.shards - known.errors.len()) as nat,
                )
                &&& search_laws::is_count(asked.get("failed"@), known.errors.len())
            }
            &&& stats.get("nodes"@) matches Some(nodes) && search_laws::is_count(
                nodes.get("contacted"@),
                known.contacted,
            )
        },
        known.errors.len() == 0 ==> answer.get("errors"@) is None,
        known.errors.len() > 0 ==> broadcast_laws::lists_texts(answer.get("errors"@), known.errors),
{
    search_laws::lemma_part_names();
    reveal_strlit("shards");
    reveal_strlit("nodes");
    assert("shards"@.len() == 6 && "nodes"@.len() == 5);
    let body = streaming::streamed_body(page, limit, took_ms, known);
    let entries = body->Object_0;
    json::lemma_key_place_is(entries, "hits"@, 0);
    json::lemma_key_place_is(entries, "hits_returned"@, 1);
    json::lemma_key_place_is(entries, "total_hits"@, 2);
    json::lemma_key_place_is(entries, "limit"@, 3);
    json::lemma_key_place_is(entries, "took_ms"@, 4);
    json::lemma_key_place_is(entries, "stats"@, 5);
    json::lemma_key_place_is(entries, "errors"@, 6);
    let stats = broadcast::cluster_stats(known.shards, known.errors.len(), known.contacted);
    let outer = stats->Object_0;
    json::lemma_key_place_is(outer, "shards"@, 0);
    json::lemma_key_place_is(outer, "nodes"@, 1);
    let inner = outer[0].1->Object_0;
    json::lemma_key_place_is(inner, "total"@, 0);
    json::lemma_key_place_is(inner, "responded"@, 1);
    json::lemma_key_place_is(inner, "failed"@, 2);
    json::lemma_key_place_is(outer[1].1->Object_0, "contacted"@, 0);
    let told = errors::text_array(known.errors);
    json::lemma_read_back(body, "errors"@, told, "hits"@);
    json::lemma_read_back(body, "errors"@, told, "hits_returned"@);
    json::lemma_read_back(body, "errors"@, told, "total_hits"@);
    json::lemma_read_back(body, "errors"@, told, "limit"@);
    json::lemma_read_back(body, "errors"@, told, "took_ms"@);
    json::lemma_read_back(body, "errors"@, told, "stats"@);
    json::lemma_read_back(body, "errors"@, told, "errors"@);
}

} // verus!
