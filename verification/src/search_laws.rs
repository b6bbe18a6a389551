//! What the answer to a search says of what the shards reported.

use vstd::prelude::*;
use crate::{errors, hit_laws, hits, json, order, search, text};
use crate::errors::{DISCARDED_CLAUSES_FIELD, OrchestratorError};
use crate::hits::{SearchWindow, ShardHitV, SortOrder, SortSpec};
use crate::json::{Json, JsonV, NumV};
use crate::schema::SchemaV;
use crate::search::{GatherV, ShardOutcome};
use crate::text::Standing;

verus! {

// ---------------------------------------------------------------------------
// What was gathered
// ---------------------------------------------------------------------------

/// Whether a gathered hit is the one that a shard reported at a place of its own answer.
pub open spec fn is_reported(
    hit: ShardHitV,
    outcomes: Seq<(u128, ShardOutcome)>,
    shard: int,
    place: int,
) -> bool {
    &&& 0 <= shard < outcomes.len()
    &&& outcomes[shard].1 matches Ok(reply) && 0 <= place < reply.hits@.len() && {
        &&& hit.shard == outcomes[shard].0
        &&& hit.score == reply.hits@[place].score.order
        &&& hit.number is Some <==> reply.hits@[place].score.number is Some
        &&& reply.hits@[place].score.number matches Some(n) ==> hit.number == Some(n@)
        &&& hit.doc == reply.hits@[place].doc@
    }
}

/// Whether a gathered hit is one that a shard reported.
pub open spec fn was_reported(hit: ShardHitV, outcomes: Seq<(u128, ShardOutcome)>) -> bool {
    exists|shard: int, place: int| #[trigger] is_reported(hit, outcomes, shard, place)
}

/// What the shards that answered say, added up.
pub open spec fn totals_of(outcomes: Seq<(u128, ShardOutcome)>) -> Seq<nat> {
    outcomes.map_values(
        |outcome: (u128, ShardOutcome)|
            match outcome.1 {
                Ok(reply) => reply.total_hits as nat,
                Err(_) => 0nat,
            },
    )
}

/// How many hits each shard reported.
pub open spec fn counts_of(outcomes: Seq<(u128, ShardOutcome)>) -> Seq<nat> {
    outcomes.map_values(
        |outcome: (u128, ShardOutcome)|
            match outcome.1 {
                Ok(reply) => reply.hits@.len(),
                Err(_) => 0nat,
            },
    )
}

/// Every gathered hit is one that a shard reported, with that shard's identifier, its score and its
/// document; as many are gathered as were reported, and what matched is what the shards say matched.
pub proof fn law_what_is_gathered_was_reported(outcomes: Seq<(u128, ShardOutcome)>)
    ensures
        forall|k: int|
            0 <= k < search::gathered(outcomes).hits.len() ==> was_reported(
                #[trigger] search::gathered(outcomes).hits[k],
                outcomes,
            ),
        search::gathered(outcomes).hits.len() == order::sum_of(counts_of(outcomes)),
        search::gathered(outcomes).total == order::sum_of(totals_of(outcomes)),
        search::gathered(outcomes).answered + search::gathered(outcomes).failures.len()
            == outcomes.len(),
        forall|s: int|
            0 <= s < outcomes.len() ==> ((#[trigger] outcomes[s]).1 matches Err(error)
                ==> search::gathered(outcomes).failures.contains((outcomes[s].0, error@))),
        (exists|s: int| 0 <= s < outcomes.len() && (#[trigger] outcomes[s]).1 is Ok)
            <==> search::gathered(outcomes).answered > 0,
        search::gathered(outcomes).emptied <==> exists|s: int|
            0 <= s < outcomes.len() && ((#[trigger] outcomes[s]).1 matches Ok(reply)
                && reply.emptied),
    decreases outcomes.len(),
{
    if outcomes.len() > 0 {
        let shorter = outcomes.drop_last();
        let known = search::gathered(shorter);
        let all = search::gathered(outcomes);
        let last = outcomes.last();
        let n = shorter.len() as int;
        law_what_is_gathered_was_reported(shorter);
        assert(counts_of(outcomes).drop_last() =~= counts_of(shorter));
        assert(totals_of(outcomes).drop_last() =~= totals_of(shorter));
        assert(outcomes[n] == last);
        assert forall|k: int| 0 <= k < all.hits.len() implies was_reported(
            #[trigger] all.hits[k],
            outcomes,
        ) by {
            if k < known.hits.len() {
                assert(all.hits[k] == known.hits[k]);
                let (shard, place) = choose|shard: int, place: int| #[trigger]
                    is_reported(known.hits[k], shorter, shard, place);
                assert(shorter[shard] == outcomes[shard]);
                assert(is_reported(all.hits[k], outcomes, shard, place));
            } else {
                assert(is_reported(all.hits[k], outcomes, n, k - known.hits.len()));
            }
        }
        assert forall|s: int| 0 <= s < outcomes.len() implies ((#[trigger] outcomes[s]).1 matches Err(
            error,
        ) ==> all.failures.contains((outcomes[s].0, error@))) by {
            if let Err(error) = outcomes[s].1 {
                if s < n {
                    assert(shorter[s] == outcomes[s]);
                    assert(known.failures.contains((outcomes[s].0, error@)));
                    let i = choose|i: int|
                        0 <= i < known.failures.len() && known.failures[i] == (
                            outcomes[s].0,
                            error@,
                        );
                    assert(all.failures[i] == (outcomes[s].0, error@));
                } else {
                    assert(all.failures[known.failures.len() as int] == (outcomes[s].0, error@));
                }
            }
        }
        assert((exists|s: int| 0 <= s < outcomes.len() && (#[trigger] outcomes[s]).1 is Ok)
            <==> all.answered > 0) by {
            if exists|s: int| 0 <= s < outcomes.len() && (#[trigger] outcomes[s]).1 is Ok {
                let s = choose|s: int| 0 <= s < outcomes.len() && (#[trigger] outcomes[s]).1 is Ok;
                if s < n {
                    assert(shorter[s].1 is Ok);
                }
            }
            if known.answered > 0 {
                let s = choose|s: int| 0 <= s < shorter.len() && (#[trigger] shorter[s]).1 is Ok;
                assert(outcomes[s].1 is Ok);
            }
        }
        assert(all.emptied <==> exists|s: int|
            0 <= s < outcomes.len() && ((#[trigger] outcomes[s]).1 matches Ok(reply)
                && reply.emptied)) by {
            if known.emptied {
                let s = choose|s: int|
                    0 <= s < shorter.len() && ((#[trigger] shorter[s]).1 matches Ok(reply)
                        && reply.emptied);
                assert(outcomes[s] == shorter[s]);
            }
            if exists|s: int|
                0 <= s < outcomes.len() && ((#[trigger] outcomes[s]).1 matches Ok(reply)
                    && reply.emptied) {
                let s = choose|s: int|
                    0 <= s < outcomes.len() && ((#[trigger] outcomes[s]).1 matches Ok(reply)
                        && reply.emptied);
                if s < n {
                    assert(shorter[s] == outcomes[s]);
                }
            }
        }
    }
}

// ---------------------------------------------------------------------------
// One node's order
// ---------------------------------------------------------------------------

/// Whether one node's hits can be told apart: by score where every score compares, and by a sort key
/// where the keys that are there are all signed whole numbers, all other numbers, or all texts.
pub open spec fn shards_comparable(hits: Seq<ShardHitV>, sort: Option<SortOrder>) -> bool {
    match sort {
        None => forall|i: int| 0 <= i < hits.len() ==> (#[trigger] hits[i]).score is Some,
        Some(_) => {
            ||| forall|i: int|
                0 <= i < hits.len() ==> (hit_laws::sort_key((#[trigger] hits[i]).doc) matches Some(key)
                    ==> key.as_i64() is Some)
            ||| forall|i: int|
                0 <= i < hits.len() ==> (hit_laws::sort_key((#[trigger] hits[i]).doc) matches Some(key)
                    ==> hit_laws::is_double_key(key))
            ||| forall|i: int|
                0 <= i < hits.len() ==> (hit_laws::sort_key((#[trigger] hits[i]).doc) matches Some(key)
                    ==> key is Text)
        },
    }
}

/// One node's hits that can be told apart stand in one order.
#[verifier::rlimit(60)]
pub proof fn law_comparable_shard_hits_are_one_order(hits: Seq<ShardHitV>, sort: Option<SortOrder>)
    requires
        shards_comparable(hits, sort),
    ensures
        order::is_one_order(hits.len(), hits::shard_hits_before(hits, sort)),
{
    let before = hits::shard_hits_before(hits, sort);
    let docs = Seq::new(hits.len(), |i: int| hits[i].doc);
    if let Some(order) = sort {
        assert(hit_laws::are_comparable(docs, sort)) by {
            if forall|i: int|
                0 <= i < hits.len() ==> (hit_laws::sort_key((#[trigger] hits[i]).doc) matches Some(key)
                    ==> key.as_i64() is Some) {
                assert forall|i: int| 0 <= i < docs.len() implies (hit_laws::sort_key(
                    #[trigger] docs[i],
                ) matches Some(key) ==> key.as_i64() is Some) by {
                    assert(docs[i] == hits[i].doc);
                }
            } else if forall|i: int|
                0 <= i < hits.len() ==> (hit_laws::sort_key((#[trigger] hits[i]).doc) matches Some(key)
                    ==> hit_laws::is_double_key(key)) {
                assert forall|i: int| 0 <= i < docs.len() implies (hit_laws::sort_key(
                    #[trigger] docs[i],
                ) matches Some(key) ==> hit_laws::is_double_key(key)) by {
                    assert(docs[i] == hits[i].doc);
                }
            } else {
                assert forall|i: int| 0 <= i < docs.len() implies (hit_laws::sort_key(
                    #[trigger] docs[i],
                ) matches Some(key) ==> key is Text) by {
                    assert(docs[i] == hits[i].doc);
                }
            }
        }
        hit_laws::law_comparable_hits_are_one_order(docs, sort);
        let by_key = hits::merge_before(docs, sort);
        assert forall|a: int, b: int| 0 <= a < hits.len() && 0 <= b < hits.len() implies {
            let ab = hits::primary_order(#[trigger] docs[a], #[trigger] docs[b], sort);
            let ba = hits::primary_order(docs[b], docs[a], sort);
            &&& ab == Standing::Before <==> ba == Standing::After
            &&& ab == Standing::Level <==> ba == Standing::Level
        } by {
            lemma_keys_flip(docs[a], docs[b], order);
        }
        assert forall|a: int, b: int, c: int|
            0 <= a < hits.len() && 0 <= b < hits.len() && 0 <= c < hits.len()
                && #[trigger] before(a, b) && #[trigger] before(b, c) implies before(a, c) by {
            lemma_chain(docs, order, a, b, c);
        }
        assert forall|a: int, b: int|
            0 <= a < hits.len() && 0 <= b < hits.len() && a != b implies #[trigger] before(a, b)
            || before(b, a) by {
            assert(docs[a] == hits[a].doc && docs[b] == hits[b].doc);
            lemma_keys_flip(docs[a], docs[b], order);
        }
        assert forall|a: int| 0 <= a < hits.len() implies !#[trigger] before(a, a) by {
            assert(docs[a] == hits[a].doc);
            lemma_keys_flip(docs[a], docs[a], order);
        }
    } else {
        assert forall|a: int, b: int, c: int|
            0 <= a < hits.len() && 0 <= b < hits.len() && 0 <= c < hits.len()
                && #[trigger] before(a, b) && #[trigger] before(b, c) implies before(a, c) by {
            assert(hits[a].score is Some && hits[b].score is Some && hits[c].score is Some);
        }
        assert forall|a: int, b: int|
            0 <= a < hits.len() && 0 <= b < hits.len() && a != b implies #[trigger] before(a, b)
            || before(b, a) by {
            assert(hits[a].score is Some && hits[b].score is Some);
        }
        assert forall|a: int| 0 <= a < hits.len() implies !#[trigger] before(a, a) by {
            assert(hits[a].score is Some);
        }
    }
}

/// Taken the other way round, two keys stand the other way round.
proof fn lemma_keys_flip(a: JsonV, b: JsonV, order: SortOrder)
    ensures
        ({
            let ab = hits::primary_order(a, b, Some(order));
            let ba = hits::primary_order(b, a, Some(order));
            &&& ab == Standing::Before <==> ba == Standing::After
            &&& ab == Standing::After <==> ba == Standing::Before
            &&& ab == Standing::Level <==> ba == Standing::Level
        }),
{
    if let (Some(JsonV::Text(x)), Some(JsonV::Text(y))) = (hit_laws::sort_key(a), hit_laws::sort_key(b)) {
        text::lemma_text_order_flips(x, y);
        text::lemma_text_order_flips(y, x);
    }
}

/// Keys that can be told apart stand in a chain, those that stand level with each other too.
proof fn lemma_chain(docs: Seq<JsonV>, order: SortOrder, a: int, b: int, c: int)
    requires
        hit_laws::are_comparable(docs, Some(order)),
        0 <= a < docs.len(),
        0 <= b < docs.len(),
        0 <= c < docs.len(),
    ensures
        ({
            let ab = hits::primary_order(docs[a], docs[b], Some(order));
            let bc = hits::primary_order(docs[b], docs[c], Some(order));
            let ac = hits::primary_order(docs[a], docs[c], Some(order));
            &&& ab == Standing::Level ==> ac == bc
            &&& bc == Standing::Level ==> ac == ab
            &&& ab == Standing::Before && bc == Standing::Before ==> ac == Standing::Before
        }),
{
    let x = hit_laws::sort_key(docs[a]);
    let y = hit_laws::sort_key(docs[b]);
    let z = hit_laws::sort_key(docs[c]);
    if let (Some(JsonV::Text(p)), Some(JsonV::Text(q))) = (x, y) {
        text::lemma_text_order_flips(p, q);
        text::lemma_text_order_flips(q, p);
    }
    if let (Some(JsonV::Text(q)), Some(JsonV::Text(r))) = (y, z) {
        text::lemma_text_order_flips(q, r);
        text::lemma_text_order_flips(r, q);
    }
    if let (Some(JsonV::Text(p)), Some(JsonV::Text(q)), Some(JsonV::Text(r))) = (x, y, z) {
        text::lemma_text_order_flips(p, r);
        text::lemma_text_order_flips(r, p);
        if text::text_order(p, q) == Standing::Before && text::text_order(q, r) == Standing::Before {
            text::lemma_text_order_chains(p, q, r);
        }
        if text::text_order(r, q) == Standing::Before && text::text_order(q, p) == Standing::Before {
            text::lemma_text_order_chains(r, q, p);
        }
    }
    if forall|i: int|
        0 <= i < docs.len() ==> (hit_laws::sort_key(#[trigger] docs[i]) matches Some(key)
            ==> key.as_i64() is Some) {
        assert(hit_laws::sort_key(docs[a]) matches Some(key) ==> key.as_i64() is Some);
        assert(hit_laws::sort_key(docs[b]) matches Some(key) ==> key.as_i64() is Some);
        assert(hit_laws::sort_key(docs[c]) matches Some(key) ==> key.as_i64() is Some);
    } else if forall|i: int|
        0 <= i < docs.len() ==> (hit_laws::sort_key(#[trigger] docs[i]) matches Some(key)
            ==> hit_laws::is_double_key(key)) {
        assert(hit_laws::sort_key(docs[a]) matches Some(key) ==> hit_laws::is_double_key(key));
        assert(hit_laws::sort_key(docs[b]) matches Some(key) ==> hit_laws::is_double_key(key));
        assert(hit_laws::sort_key(docs[c]) matches Some(key) ==> hit_laws::is_double_key(key));
    } else {
        assert(hit_laws::sort_key(docs[a]) matches Some(key) ==> key is Text);
        assert(hit_laws::sort_key(docs[b]) matches Some(key) ==> key is Text);
        assert(hit_laws::sort_key(docs[c]) matches Some(key) ==> key is Text);
    }
}

// ---------------------------------------------------------------------------
// The answer
// ---------------------------------------------------------------------------

/// Whether a value is the count.
pub open spec fn is_count(value: Option<JsonV>, count: nat) -> bool {
    count <= u64::MAX ==> value == Some(JsonV::Number(NumV::Unsigned(count as u64)))
}

/// The hits that an answer holds.
pub open spec fn hits_in(answer: JsonV) -> Seq<JsonV> {
    match answer.get("hits"@) {
        Some(JsonV::Array(hits)) => hits,
        _ => Seq::empty(),
    }
}

/// What notes leave of a body under a key that is none of theirs.
pub proof fn lemma_notes_leave(
    body: JsonV,
    failures: Seq<Seq<char>>,
    notes: Seq<Seq<char>>,
    approximate: Option<Seq<char>>,
    key: Seq<char>,
)
    requires
        body is Object,
        key != "errors"@,
        key != "_discarded_clauses"@,
        key != "_approximate_sort"@,
    ensures
        errors::with_approximate_sort(
            errors::with_texts(
                errors::with_texts(body, "errors"@, failures),
                DISCARDED_CLAUSES_FIELD@,
                notes,
            ),
            approximate,
        ).get(key) == body.get(key),
{
    let one = errors::with_texts(body, "errors"@, failures);
    json::lemma_read_back(body, "errors"@, errors::text_array(failures), key);
    let two = errors::with_texts(one, DISCARDED_CLAUSES_FIELD@, notes);
    json::lemma_read_back(one, DISCARDED_CLAUSES_FIELD@, errors::text_array(notes), key);
    if let Some(name) = approximate {
        json::lemma_read_back(two, errors::APPROXIMATE_SORT_FIELD@, JsonV::Text(name), key);
    }
}

/// The names of an answer's parts are different names.
pub proof fn lemma_part_names()
    ensures
        "hits"@ != "errors"@ && "hits"@ != "_discarded_clauses"@ && "hits"@ != "_approximate_sort"@,
        "hits_returned"@ != "errors"@ && "hits_returned"@ != "_discarded_clauses"@ && "hits_returned"@
            != "_approximate_sort"@,
        "total_hits"@ != "errors"@ && "total_hits"@ != "_discarded_clauses"@ && "total_hits"@
            != "_approximate_sort"@,
        "limit"@ != "errors"@ && "limit"@ != "_discarded_clauses"@ && "limit"@ != "_approximate_sort"@,
        "offset"@ != "errors"@ && "offset"@ != "_discarded_clauses"@ && "offset"@
            != "_approximate_sort"@,
        "took_ms"@ != "errors"@ && "took_ms"@ != "_discarded_clauses"@ && "took_ms"@
            != "_approximate_sort"@,
        "stats"@ != "errors"@ && "stats"@ != "_discarded_clauses"@ && "stats"@ != "_approximate_sort"@,
        "errors"@ != "_discarded_clauses"@ && "errors"@ != "_approximate_sort"@,
        "_discarded_clauses"@ != "_approximate_sort"@,
        "hits"@ != "hits_returned"@ && "hits"@ != "total_hits"@ && "hits"@ != "limit"@ && "hits"@
            != "offset"@ && "hits"@ != "took_ms"@ && "hits"@ != "stats"@,
        "hits_returned"@ != "total_hits"@ && "hits_returned"@ != "limit"@ && "hits_returned"@
            != "offset"@ && "hits_returned"@ != "took_ms"@ && "hits_returned"@ != "stats"@,
        "total_hits"@ != "limit"@ && "total_hits"@ != "offset"@ && "total_hits"@ != "took_ms"@
            && "total_hits"@ != "stats"@,
        "limit"@ != "offset"@ && "limit"@ != "took_ms"@ && "limit"@ != "stats"@,
        "offset"@ != "took_ms"@ && "offset"@ != "stats"@,
        "took_ms"@ != "stats"@,
        "total"@ != "responded"@ && "total"@ != "failed"@ && "responded"@ != "failed"@,
{
    reveal_strlit("hits");
    reveal_strlit("hits_returned");
    reveal_strlit("total_hits");
    reveal_strlit("limit");
    reveal_strlit("offset");
    reveal_strlit("took_ms");
    reveal_strlit("stats");
    reveal_strlit("errors");
    reveal_strlit("_discarded_clauses");
    reveal_strlit("_approximate_sort");
    reveal_strlit("total");
    reveal_strlit("responded");
    reveal_strlit("failed");
    assert("hits"@.len() == 4 && "hits_returned"@.len() == 13 && "total_hits"@.len() == 10);
    assert("limit"@.len() == 5 && "offset"@.len() == 6 && "took_ms"@.len() == 7);
    assert("stats"@.len() == 5 && "errors"@.len() == 6 && "_discarded_clauses"@.len() == 18);
    assert("_approximate_sort"@.len() == 17);
    assert("limit"@[0] == 'l' && "stats"@[0] == 's' && "offset"@[0] == 'o' && "errors"@[0] == 'e');
    assert("total"@.len() == 5 && "responded"@.len() == 9 && "failed"@.len() == 6);
}

/// What stands under the keys of an answer's body.
proof fn lemma_body_reads(
    hits: Seq<JsonV>,
    total_hits: nat,
    window: SearchWindow,
    took_ms: u64,
    shards: nat,
    known: GatherV,
)
    ensures
        ({
            let body = search::answer_body(hits, total_hits, window, took_ms, shards, known);
            &&& body is Object
            &&& body.get("hits"@) == Some(JsonV::Array(hits))
            &&& is_count(body.get("hits_returned"@), hits.len())
            &&& is_count(body.get("total_hits"@), total_hits)
            &&& is_count(body.get("limit"@), window.limit as nat)
            &&& is_count(body.get("offset"@), window.offset as nat)
            &&& is_count(body.get("took_ms"@), took_ms as nat)
            &&& body.get("errors"@) is None
            &&& body.get("_discarded_clauses"@) is None
            &&& body.get("_approximate_sort"@) is None
            &&& body.get("stats"@) matches Some(stats) && stats.get("shards"@) matches Some(asked) && {
                &&& is_count(asked.get("total"@), shards)
                &&& is_count(asked.get("responded"@), known.answered)
                &&& is_count(asked.get("failed"@), known.failures.len())
            }
        }),
{
    lemma_part_names();
    let body = search::answer_body(hits, total_hits, window, took_ms, shards, known);
    let entries = body->Object_0;
    json::lemma_key_place_is(entries, "hits"@, 0);
    json::lemma_key_place_is(entries, "hits_returned"@, 1);
    json::lemma_key_place_is(entries, "total_hits"@, 2);
    json::lemma_key_place_is(entries, "limit"@, 3);
    json::lemma_key_place_is(entries, "offset"@, 4);
    json::lemma_key_place_is(entries, "took_ms"@, 5);
    json::lemma_key_place_is(entries, "stats"@, 6);
    json::lemma_key_place_is(entries, "errors"@, 7);
    json::lemma_key_place_is(entries, "_discarded_clauses"@, 7);
    json::lemma_key_place_is(entries, "_approximate_sort"@, 7);
    let stats = search::shard_stats(shards, known.answered, known.failures.len());
    let outer = stats->Object_0;
    json::lemma_key_place_is(outer, "shards"@, 0);
    let inner = outer[0].1->Object_0;
    json::lemma_key_place_is(inner, "total"@, 0);
    json::lemma_key_place_is(inner, "responded"@, 1);
    json::lemma_key_place_is(inner, "failed"@, 2);
}

/// An answer tells how many hits it holds, how many matched in all shards together, what page it is,
/// and how many shards were asked, answered and failed.
pub proof fn law_an_answer_counts_what_there_is(
    outcomes: Seq<(u128, ShardOutcome)>,
    answer: JsonV,
    schema: SchemaV,
    window: SearchWindow,
    fields: Option<Seq<Seq<char>>>,
    sort: Option<&SortSpec>,
    took_ms: u64,
    ranked: Seq<ShardHitV>,
    order: Seq<int>,
)
    requires
        search::is_answer(
            answer,
            search::gathered(outcomes),
            outcomes.len(),
            schema,
            window,
            fields,
            sort,
            took_ms,
            ranked,
            order,
        ),
    ensures
        answer.get("hits"@) == Some(JsonV::Array(hits_in(answer))),
        is_count(answer.get("hits_returned"@), hits_in(answer).len()),
        is_count(answer.get("total_hits"@), order::sum_of(totals_of(outcomes))),
        is_count(answer.get("limit"@), window.limit as nat),
        is_count(answer.get("offset"@), window.offset as nat),
        is_count(answer.get("took_ms"@), took_ms as nat),
        answer.get("stats"@) matches Some(stats) && stats.get("shards"@) matches Some(asked) && {
            &&& is_count(asked.get("total"@), outcomes.len())
            &&& is_count(
                asked.get("responded"@),
                (outcomes.len() - search::gathered(outcomes).failures.len()) as nat,
            )
            &&& is_count(asked.get("failed"@), search::gathered(outcomes).failures.len())
        },
        hits_in(answer).len() <= window.limit,
        order::sum_of(counts_of(outcomes)) <= window.offset ==> hits_in(answer).len() == 0,
        order::sum_of(counts_of(outcomes)) > window.offset ==> hits_in(answer).len() == if window.limit
            < order::sum_of(counts_of(outcomes)) - window.offset {
            window.limit as int
        } else {
            order::sum_of(counts_of(outcomes)) - window.offset
        },
{
    let known = search::gathered(outcomes);
    law_what_is_gathered_was_reported(outcomes);
    let shown = search::all_shown(hits::window_of(ranked, window), fields);
    lemma_body_reads(shown, known.total, window, took_ms, outcomes.len(), known);
    lemma_answer_reads(answer, known, outcomes.len(), schema, window, fields, sort, took_ms, ranked, order);
}

/// An answer holds what its body holds.
proof fn lemma_answer_reads(
    answer: JsonV,
    known: GatherV,
    shards: nat,
    schema: SchemaV,
    window: SearchWindow,
    fields: Option<Seq<Seq<char>>>,
    sort: Option<&SortSpec>,
    took_ms: u64,
    ranked: Seq<ShardHitV>,
    order: Seq<int>,
)
    requires
        search::is_answer(
            answer,
            known,
            shards,
            schema,
            window,
            fields,
            sort,
            took_ms,
            ranked,
            order,
        ),
    ensures
        ({
            let body = search::answer_body(
                search::all_shown(hits::window_of(ranked, window), fields),
                known.total,
                window,
                took_ms,
                shards,
                known,
            );
            &&& answer.get("hits"@) == body.get("hits"@)
            &&& answer.get("hits_returned"@) == body.get("hits_returned"@)
            &&& answer.get("total_hits"@) == body.get("total_hits"@)
            &&& answer.get("limit"@) == body.get("limit"@)
            &&& answer.get("offset"@) == body.get("offset"@)
            &&& answer.get("took_ms"@) == body.get("took_ms"@)
            &&& answer.get("stats"@) == body.get("stats"@)
        }),
        hits_in(answer) == search::all_shown(hits::window_of(ranked, window), fields),
{
    lemma_part_names();
    let shown = search::all_shown(hits::window_of(ranked, window), fields);
    let body = search::answer_body(shown, known.total, window, took_ms, shards, known);
    lemma_body_reads(shown, known.total, window, took_ms, shards, known);
    let failures = errors::shard_notes(known.failures);
    let notes = errors::distinct_in_order(known.notes) + search::projection_notes(
        schema,
        search::or_no_texts(fields),
    );
    lemma_notes_leave(body, failures, notes, known.approximate, "hits"@);
    lemma_notes_leave(body, failures, notes, known.approximate, "hits_returned"@);
    lemma_notes_leave(body, failures, notes, known.approximate, "total_hits"@);
    lemma_notes_leave(body, failures, notes, known.approximate, "limit"@);
    lemma_notes_leave(body, failures, notes, known.approximate, "offset"@);
    lemma_notes_leave(body, failures, notes, known.approximate, "took_ms"@);
    lemma_notes_leave(body, failures, notes, known.approximate, "stats"@);
}

/// Every hit of an answer is a hit that a shard reported: its score is the number that the shard gave
/// it, whatever is projected, and every field that is shown holds what the document holds.
pub proof fn law_a_hit_shows_its_score_and_its_document(
    outcomes: Seq<(u128, ShardOutcome)>,
    answer: JsonV,
    schema: SchemaV,
    window: SearchWindow,
    fields: Option<Seq<Seq<char>>>,
    sort: Option<&SortSpec>,
    took_ms: u64,
    ranked: Seq<ShardHitV>,
    order: Seq<int>,
    i: int,
) -> (origin: (int, int))
    requires
        search::is_answer(
            answer,
            search::gathered(outcomes),
            outcomes.len(),
            schema,
            window,
            fields,
            sort,
            took_ms,
            ranked,
            order,
        ),
        0 <= i < hits_in(answer).len(),
    ensures
        0 <= origin.0 < outcomes.len(),
        outcomes[origin.0].1 matches Ok(reply) && 0 <= origin.1 < reply.hits@.len() && ({
            let hit = hits_in(answer)[i];
            let reported = reply.hits@[origin.1];
            reported.doc@ matches JsonV::Object(entries) ==> json::keys_distinct(entries) ==> {
                &&& reported.score.number matches Some(number) ==> hit.get("_score"@) == Some(
                    JsonV::Number(number@),
                )
                &&& reported.score.number is None ==> hit.get("_score"@) == Some(JsonV::Null)
                &&& forall|key: Seq<char>|
                    key != "_score"@ && key != "_sort_key"@ && (fields matches Some(list) ==> list.contains(key))
                        ==> #[trigger] hit.get(key) == reported.doc@.get(key)
                &&& forall|key: Seq<char>|
                    (fields matches Some(list) && !list.contains(key)) && (key.len() == 0 || key[0]
                        != '_') ==> #[trigger] hit.get(key) is None
            }
        }),
{
    let known = search::gathered(outcomes);
    law_what_is_gathered_was_reported(outcomes);
    lemma_answer_reads(answer, known, outcomes.len(), schema, window, fields, sort, took_ms, ranked, order);
    let keyed = search::keyed(known.hits, sort, schema);
    let at = order[window.offset + i];
    let gathered = known.hits[at];
    assert(was_reported(known.hits[at], outcomes));
    let (shard, place) = choose|shard: int, place: int| #[trigger]
        is_reported(gathered, outcomes, shard, place);
    let hit = hits_in(answer)[i];
    assert(ranked[window.offset + i] == keyed[at]);
    assert(hit == search::shown(keyed[at], fields));
    let reply = outcomes[shard].1->Ok_0;
    let reported = reply.hits@[place];
    if let JsonV::Object(entries) = reported.doc@ {
        if json::keys_distinct(entries) {
            lemma_shown(gathered, keyed[at], fields, sort, schema, entries);
        }
    }
    (shard, place)
}

/// What is shown of a hit.
proof fn lemma_shown(
    gathered: ShardHitV,
    keyed: ShardHitV,
    fields: Option<Seq<Seq<char>>>,
    sort: Option<&SortSpec>,
    schema: SchemaV,
    entries: Seq<(Seq<char>, JsonV)>,
)
    requires
        gathered.doc == JsonV::Object(entries),
        json::keys_distinct(entries),
        keyed == (match sort {
            Some(spec) => ShardHitV {
                doc: search::stamped(gathered.doc, spec.field@, schema),
                ..gathered
            },
            None => gathered,
        }),
    ensures
        ({
            let hit = search::shown(keyed, fields);
            &&& gathered.number matches Some(number) ==> hit.get("_score"@) == Some(
                JsonV::Number(number),
            )
            &&& gathered.number is None ==> hit.get("_score"@) == Some(JsonV::Null)
            &&& forall|key: Seq<char>|
                key != "_score"@ && key != "_sort_key"@ && (fields matches Some(list) ==> list.contains(key))
                    ==> #[trigger] hit.get(key) == gathered.doc.get(key)
            &&& forall|key: Seq<char>|
                (fields matches Some(list) && !list.contains(key)) && (key.len() == 0 || key[0] != '_')
                    ==> #[trigger] hit.get(key) is None
        }),
{
    reveal_strlit("_score");
    let hit = search::shown(keyed, fields);
    assert(keyed.doc is Object);
    let stamped = keyed.doc->Object_0;
    assert(json::keys_distinct(stamped) && forall|key: Seq<char>|
        key != "_sort_key"@ ==> #[trigger] keyed.doc.get(key) == gathered.doc.get(key)) by {
        if let Some(spec) = sort {
            if let Some(raw) = search::sort_source(gathered.doc, spec.field@, schema) {
                if let Some(key) = search::sort_key_of(raw, schema.field(spec.field@)) {
                    json::lemma_with_entry_keeps_keys_distinct(entries, "_sort_key"@, key);
                    assert forall|other: Seq<char>| other != "_sort_key"@ implies #[trigger] keyed.doc.get(
                        other,
                    ) == gathered.doc.get(other) by {
                        json::lemma_with_entry_read_back(entries, "_sort_key"@, key, other);
                    }
                }
            }
        }
    }
    let number = match keyed.number {
        Some(n) => JsonV::Number(n),
        None => JsonV::Null,
    };
    let scored = json::with_entry(stamped, "_score"@, number);
    json::lemma_with_entry_keeps_keys_distinct(stamped, "_score"@, number);
    json::lemma_with_entry_read_back(stamped, "_score"@, number, "_score"@);
    assert forall|key: Seq<char>| true implies ({
        &&& key != "_score"@ && key != "_sort_key"@ && (fields matches Some(list) ==> list.contains(key))
            ==> #[trigger] hit.get(key) == gathered.doc.get(key)
        &&& (fields matches Some(list) && !list.contains(key)) && (key.len() == 0 || key[0] != '_')
            ==> hit.get(key) is None
    }) by {
        json::lemma_with_entry_read_back(stamped, "_score"@, number, key);
        if let Some(list) = fields {
            hit_laws::law_projection_shows_what_was_asked(scored, list, key);
        }
        assert(key != "_sort_key"@ ==> keyed.doc.get(key) == gathered.doc.get(key));
    }
    if let Some(list) = fields {
        hit_laws::law_projection_shows_what_was_asked(scored, list, "_score"@);
        assert("_score"@[0] == '_');
    }
}

/// Without a sort, the better of two scores comes first, as the shards reported them.
pub proof fn law_an_answer_has_the_best_first(
    outcomes: Seq<(u128, ShardOutcome)>,
    schema: SchemaV,
    ranked: Seq<ShardHitV>,
    order: Seq<int>,
    i: int,
    j: int,
)
    requires
        hits::is_shard_order(
            ranked,
            search::keyed(search::gathered(outcomes).hits, None, schema),
            None,
            order,
        ),
        shards_comparable(search::gathered(outcomes).hits, None),
        0 <= i < j < ranked.len(),
    ensures
        ranked[i].score->0 >= ranked[j].score->0,
        ranked[i].score == ranked[j].score ==> ranked[i].shard <= ranked[j].shard,
        was_reported(ranked[i], outcomes),
        was_reported(ranked[j], outcomes),
        ranked.to_multiset() == search::gathered(outcomes).hits.to_multiset(),
{
    let known = search::gathered(outcomes).hits;
    law_what_is_gathered_was_reported(outcomes);
    law_comparable_shard_hits_are_one_order(known, None);
    order::law_an_ordering_keeps_everything(known, order);
    let before = hits::shard_hits_before(known, None);
    assert(before(order[i], order[j]));
    assert(ranked[i] == known[order[i]] && ranked[j] == known[order[j]]);
    assert(known[order[i]].score is Some && known[order[j]].score is Some);
}

/// With a sort, texts read as a dictionary does and whole numbers count, up or down.
pub proof fn law_an_answer_is_sorted_as_asked(
    hits: Seq<ShardHitV>,
    sort: SortOrder,
    ranked: Seq<ShardHitV>,
    order: Seq<int>,
    i: int,
    j: int,
)
    requires
        hits::is_shard_order(ranked, hits, Some(sort), order),
        shards_comparable(hits, Some(sort)),
        0 <= i < j < ranked.len(),
    ensures
        ({
            let key_i = ranked[i].doc.get("_sort_key"@);
            let key_j = ranked[j].doc.get("_sort_key"@);
            &&& key_j is Some ==> key_i is Some
            &&& match (key_i, key_j) {
                (Some(JsonV::Text(a)), Some(JsonV::Text(b))) => match sort {
                    SortOrder::Asc => !text::comes_before(b, a),
                    SortOrder::Desc => !text::comes_before(a, b),
                },
                (
                    Some(JsonV::Number(NumV::Negative(a))),
                    Some(JsonV::Number(NumV::Negative(b))),
                ) => match sort {
                    SortOrder::Asc => a <= b,
                    SortOrder::Desc => a >= b,
                },
                (
                    Some(JsonV::Number(NumV::Unsigned(a))),
                    Some(JsonV::Number(NumV::Unsigned(b))),
                ) => a <= i64::MAX && b <= i64::MAX ==> match sort {
                    SortOrder::Asc => a <= b,
                    SortOrder::Desc => a >= b,
                },
                _ => true,
            }
            &&& key_i == key_j ==> ranked[i].shard <= ranked[j].shard
        }),
{
    law_comparable_shard_hits_are_one_order(hits, Some(sort));
    let before = hits::shard_hits_before(hits, Some(sort));
    assert(before(order[i], order[j]));
    assert(ranked[i] == hits[order[i]] && ranked[j] == hits[order[j]]);
    let x = ranked[i].doc.get("_sort_key"@);
    let y = ranked[j].doc.get("_sort_key"@);
    if let (Some(JsonV::Text(a)), Some(JsonV::Text(b))) = (x, y) {
        text::law_texts_stand_as_in_a_dictionary(a, b);
    }
    lemma_keys_flip(ranked[i].doc, ranked[j].doc, sort);
    lemma_keys_flip(ranked[i].doc, ranked[i].doc, sort);
}

/// A hit is sorted by what its document holds in the field that was asked for. A date goes by the
/// moment it names.
pub proof fn law_a_hit_is_sorted_by_its_field(
    doc: JsonV,
    field: Seq<char>,
    schema: SchemaV,
    value: JsonV,
)
    requires
        doc is Object,
        doc.get(field) == Some(value),
        field != "_sort_key"@,
    ensures
        (schema.field(field) is None || schema.field(field)->0.field_type !is Date)
            ==> search::stamped(doc, field, schema).get("_sort_key"@) == Some(value),
        schema.field(field) matches Some(def) && def.field_type is Date && value is Text
            && crate::validation::date_secs(value->Text_0) is Some ==> {
            let secs = crate::validation::date_secs(value->Text_0)->0;
            search::stamped(doc, field, schema).get("_sort_key"@) matches Some(key) && key.as_i64()
                == Some(secs)
        },
        search::stamped(doc, field, schema).get(field) == Some(value),
{
    let entries = doc->Object_0;
    if let Some(key) = search::sort_key_of(value, schema.field(field)) {
        json::lemma_with_entry_read_back(entries, "_sort_key"@, key, field);
    }
}

/// A search that no shard answered is refused where any failed, and so is one of which some shard
/// could run nothing; every other search is answered.
pub proof fn law_a_search_is_answered_where_any_shard_ran_it(
    outcome: Result<Json, OrchestratorError>,
    index: Seq<char>,
    outcomes: Seq<(u128, ShardOutcome)>,
    schema: SchemaV,
    window: SearchWindow,
    fields: Option<Seq<Seq<char>>>,
    sort: Option<&SortSpec>,
    took_ms: u64,
)
    requires
        search::is_search_outcome(
            outcome,
            index,
            search::gathered(outcomes),
            outcomes.len(),
            schema,
            window,
            fields,
            sort,
            took_ms,
        ),
    ensures
        outcome is Err <==> {
            ||| outcomes.len() > 0 && forall|s: int|
                0 <= s < outcomes.len() ==> (#[trigger] outcomes[s]).1 is Err
            ||| exists|s: int|
                0 <= s < outcomes.len() && ((#[trigger] outcomes[s]).1 matches Ok(reply)
                    && reply.emptied)
        },
        outcome matches Err(error) ==> error@ is NoShardAnswered || error@ is UnrunnableQuery,
        outcomes.len() > 0 && (forall|s: int|
            0 <= s < outcomes.len() ==> (#[trigger] outcomes[s]).1 is Err) ==> (outcome matches Err(
            error,
        ) && error@ is NoShardAnswered),
{
    law_what_is_gathered_was_reported(outcomes);
    let known = search::gathered(outcomes);
    errors::law_a_gather_is_refused_exactly_when_nothing_answered(
        index,
        known.answered,
        known.failures,
    );
    if known.answered > 0 {
        let s = choose|s: int| 0 <= s < outcomes.len() && (#[trigger] outcomes[s]).1 is Ok;
        assert(!(outcomes[s].1 is Err));
    } else {
        assert forall|s: int| 0 <= s < outcomes.len() implies (#[trigger] outcomes[s]).1 is Err by {
            assert(!(outcomes[s].1 is Ok));
        }
    }
}

/// A document that does not hold the field is sorted by its key, where the field is the key or another
/// name of it: by the name that documents bear the key under first. By any other field it is not sorted
/// and stays as it is, and so is a document whose date names no moment.
pub proof fn law_a_hit_is_sorted_by_its_key(doc: JsonV, field: Seq<char>, schema: SchemaV)
    requires
        doc is Object,
    ensures
        doc.get(field) is None && (field == "id"@ || (schema.field(field) matches Some(def)
            && def.is_shadow)) ==> {
            let borne = doc.get(schema.document_key());
            let held = if borne is Some {
                borne
            } else {
                doc.get("id"@)
            };
            &&& held is None ==> search::stamped(doc, field, schema) == doc
            &&& (schema.field(field) is None || schema.field(field)->0.field_type !is Date) ==> (
            held matches Some(value) ==> search::stamped(doc, field, schema).get("_sort_key"@) == Some(
                value,
            ))
        },
        doc.get(field) is None && field != "id"@ && !(schema.field(field) matches Some(def)
            && def.is_shadow) ==> search::stamped(doc, field, schema) == doc,
        (schema.field(field) matches Some(def) && def.field_type is Date) && (doc.get(field) matches Some(
            value,
        ) && !(value matches JsonV::Text(words) && crate::validation::date_secs(words) is Some))
            ==> search::stamped(doc, field, schema) == doc,
{
    let entries = doc->Object_0;
    if let Some(raw) = search::sort_source(doc, field, schema) {
        if let Some(key) = search::sort_key_of(raw, schema.field(field)) {
            json::lemma_with_entry_read_back(entries, "_sort_key"@, key, field);
        }
    }
}

} // verus!
