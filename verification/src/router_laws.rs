//! Where a request goes, and what the answers to changes and streams say.

use vstd::prelude::*;
use crate::{errors, hits, json, router, search_laws, text};
use crate::errors::ErrorV;
use crate::json::JsonV;
use crate::ops::ClientOp;
use crate::router::{RouteStep, RoutingDecision};

verus! {

/// A change goes to one place and is lost rather than sent everywhere; whatever else is decided, the
/// request goes where the decision says, and a search goes out as a stream where streams are asked for.
pub proof fn law_a_request_goes_where_it_was_decided(
    op: ClientOp,
    decision: RoutingDecision,
    streaming: bool,
)
    ensures
        decision is Local ==> router::step_for(op, decision, streaming) == Some(
            RouteStep::HandleHere,
        ),
        decision matches RoutingDecision::Remote { node_id, peer_addr } ==> router::step_for(
            op,
            decision,
            streaming,
        ) == Some(RouteStep::Forward { node_id, peer_addr }),
        decision is Broadcast ==> match op {
            ClientOp::Write { .. } => router::step_for(op, decision, streaming) is None,
            ClientOp::BulkWrite { .. } => router::step_for(op, decision, streaming) is None,
            ClientOp::Delete { .. } => router::step_for(op, decision, streaming) is None,
            ClientOp::BulkDelete { .. } => router::step_for(op, decision, streaming) is None,
            ClientOp::DeleteIndex { .. } => router::step_for(op, decision, streaming) is None,
            ClientOp::Search { .. } => router::step_for(op, decision, streaming) == Some(
                if streaming {
                    RouteStep::BroadcastStreaming
                } else {
                    RouteStep::Broadcast
                },
            ),
            ClientOp::Stream { .. } => router::step_for(op, decision, streaming) == Some(
                if streaming {
                    RouteStep::BroadcastStreaming
                } else {
                    RouteStep::Broadcast
                },
            ),
            _ => router::step_for(op, decision, streaming) == Some(RouteStep::Broadcast),
        },
{
}

/// What the operations are: which of them change, which search, which touch only what this node knows,
/// and which the workers take. Nothing both changes and searches, and nothing of the last two is a
/// change of a document.
pub proof fn law_an_operation_is_what_it_does(op: ClientOp)
    ensures
        op is Write ==> router::writes(op) && router::pool_takes(op) && !router::searches(op)
            && !router::stays_here(op),
        op is Delete ==> router::writes(op) && router::pool_takes(op) && !router::searches(op)
            && !router::stays_here(op),
        op is BulkWrite || op is BulkDelete || op is DeleteIndex ==> router::writes(op)
            && !router::pool_takes(op) && !router::searches(op) && !router::stays_here(op),
        op is Search || op is Stream ==> router::searches(op) && router::pool_takes(op)
            && !router::writes(op) && !router::stays_here(op),
        op is GetConfig || op is CreateConfig || op is UpdateSchema || op is ValidateQuery
            ==> router::stays_here(op) && !router::writes(op) && !router::searches(op)
            && !router::pool_takes(op),
        !(router::writes(op) && router::searches(op)),
        !(router::stays_here(op) && (router::writes(op) || router::searches(op))),
{
}

/// A write or a removal keeps to the worker of the key that the caller gives, where workers are kept
/// to; nothing else does.
pub proof fn law_a_change_keeps_to_its_worker(op: ClientOp)
    ensures
        router::preferred_key(op, false) is None,
        op matches ClientOp::Write { routing_key: Some(key), .. } ==> router::preferred_key(op, true)
            == Some(key@),
        op matches ClientOp::Delete { routing_key: Some(key), .. } ==> router::preferred_key(op, true)
            == Some(key@),
        op matches ClientOp::Write { routing_key: None, .. } ==> router::preferred_key(op, true) is None,
        op matches ClientOp::Delete { routing_key: None, .. } ==> router::preferred_key(op, true) is None,
        !(op is Write) && !(op is Delete) ==> router::preferred_key(op, true) is None,
{
}

/// A stream starts at the first hit and has as many as it asks for.
pub proof fn law_a_stream_starts_at_the_first_hit(op: ClientOp, default_limit: usize)
    ensures
        op matches ClientOp::Stream { limit: Some(n), .. } ==> router::page_of(op, default_limit).limit
            == n,
        op matches ClientOp::Stream { limit: None, .. } ==> router::page_of(op, default_limit).limit
            == default_limit,
        op is Stream ==> router::page_of(op, default_limit).offset == 0,
        op matches ClientOp::Search { limit: Some(n), .. } ==> router::page_of(op, default_limit).limit
            == n,
        op matches ClientOp::Search { limit: None, .. } ==> router::page_of(op, default_limit).limit
            == default_limit,
        op matches ClientOp::Search { offset: Some(n), .. } ==> router::page_of(op, default_limit).offset
            == n,
        op matches ClientOp::Search { offset: None, .. } ==> router::page_of(op, default_limit).offset
            == 0,
{
}

/// A key is answered here where a shard that lives here owns it, and only there.
pub proof fn law_a_key_is_answered_by_its_owner(
    has_key: bool,
    owner: Option<u128>,
    live: Set<u128>,
)
    ensures
        owner matches Some(shard) && has_key && live.contains(shard) ==> router::owned_here(
            has_key,
            owner,
            live,
        ),
        router::owned_here(has_key, owner, live) ==> has_key && (owner matches Some(shard)
            && live.contains(shard)),
{
}

/// The answer to a change names the document, what became of it, its version, and the shard.
pub proof fn law_a_change_is_told(id: Seq<char>, result: Seq<char>, version: u64, shard_id: u128)
    ensures
        ({
            let body = router::change_body(id, result, version, shard_id);
            &&& body.get("id"@) == Some(JsonV::Text(id))
            &&& body.get("result"@) == Some(JsonV::Text(result))
            &&& search_laws::is_count(body.get("version"@), version as nat)
            &&& body.get("shard_id"@) == Some(JsonV::Text(text::uuid_chars(shard_id)))
        }),
{
    reveal_strlit("id");
    reveal_strlit("result");
    reveal_strlit("version");
    reveal_strlit("shard_id");
    assert("id"@.len() == 2 && "result"@.len() == 6 && "version"@.len() == 7 && "shard_id"@.len() == 8);
    let entries = router::change_body(id, result, version, shard_id)->Object_0;
    json::lemma_key_place_is(entries, "id"@, 0);
    json::lemma_key_place_is(entries, "result"@, 1);
    json::lemma_key_place_is(entries, "version"@, 2);
    json::lemma_key_place_is(entries, "shard_id"@, 3);
}

/// The answer to a dropped index names it and tells from how many shards of how many it is gone, and
/// one line for every shard that failed, with the shard and its own words.
pub proof fn law_a_dropped_index_is_told(
    index: Seq<char>,
    dropped: nat,
    shards: nat,
    failures: Seq<(u128, ErrorV)>,
)
    ensures
        ({
            let body = router::drop_body(index, dropped, shards, failures);
            &&& body.get("success"@) == Some(JsonV::Bool(true))
            &&& body.get("index"@) == Some(JsonV::Text(index))
            &&& search_laws::is_count(body.get("deleted_from_shards"@), dropped)
            &&& search_laws::is_count(body.get("total_shards"@), shards)
            &&& body.get("errors"@) matches Some(JsonV::Array(lines)) && {
                &&& lines.len() == failures.len()
                &&& forall|i: int|
                    0 <= i < failures.len() ==> #[trigger] lines[i] == JsonV::Text(
                        "shard "@ + text::uuid_chars(failures[i].0) + ": "@ + errors::error_text(
                            failures[i].1,
                        ),
                    )
            }
        }),
{
    reveal_strlit("success");
    reveal_strlit("index");
    reveal_strlit("deleted_from_shards");
    reveal_strlit("total_shards");
    reveal_strlit("errors");
    assert("success"@.len() == 7 && "index"@.len() == 5 && "deleted_from_shards"@.len() == 19);
    assert("total_shards"@.len() == 12 && "errors"@.len() == 6);
    let entries = router::drop_body(index, dropped, shards, failures)->Object_0;
    json::lemma_key_place_is(entries, "success"@, 0);
    json::lemma_key_place_is(entries, "index"@, 1);
    json::lemma_key_place_is(entries, "deleted_from_shards"@, 2);
    json::lemma_key_place_is(entries, "total_shards"@, 3);
    json::lemma_key_place_is(entries, "errors"@, 4);
}

/// Taking a key out of an object leaves what the others hold.
proof fn lemma_without_reads(entries: Seq<(Seq<char>, JsonV)>, key: Seq<char>, other: Seq<char>)
    requires
        json::keys_distinct(entries),
    ensures
        !json::has_key(json::without_key(entries, key), key),
        other != key ==> json::value_under(json::without_key(entries, key), other)
            == json::value_under(entries, other),
{
    let left = json::without_key(entries, key);
    json::lemma_key_place(entries, key);
    json::lemma_key_place(left, key);
    json::lemma_key_place(entries, other);
    let gone = json::key_place(entries, key);
    if json::has_key(entries, key) {
        let last = entries.len() - 1;
        assert forall|i: int| 0 <= i < left.len() implies (#[trigger] left[i]) == (if i == gone {
            entries[last]
        } else {
            entries[i]
        }) by {}
        assert forall|i: int| 0 <= i < left.len() implies (#[trigger] left[i]).0 != key by {
            if i == gone {
                assert(entries[gone].0 != entries[last].0);
            } else if i < gone {
                assert(entries[i].0 != entries[gone].0);
            } else {
                assert(entries[gone].0 != entries[i].0);
            }
        }
        if other != key {
            let seen = json::key_place(entries, other);
            if seen < entries.len() {
                let now = if seen == last {
                    gone
                } else {
                    seen
                };
                assert(left[now].0 == other);
                assert forall|j: int| 0 <= j < now implies (#[trigger] left[j]).0 != other by {
                    if j == gone {
                        assert(entries[seen].0 != entries[last].0);
                    } else if j < seen {
                        assert(entries[j].0 != entries[seen].0);
                    } else {
                        assert(entries[seen].0 != entries[j].0);
                    }
                }
                json::lemma_key_place_is(left, other, now);
            } else {
                assert forall|j: int| 0 <= j < left.len() implies (#[trigger] left[j]).0 != other by {
                    if j == gone {
                        assert(entries[last].0 != other);
                    } else {
                        assert(entries[j].0 != other);
                    }
                }
                json::lemma_key_place_is(left, other, left.len() as int);
            }
        }
    }
}

/// The last line of a stream says all that the answer says but the hits themselves, marks itself as the
/// last, and tells how many hits went before it.
pub proof fn law_a_stream_closes_with_its_account(answer: JsonV, key: Seq<char>)
    requires
        answer matches JsonV::Object(entries) && json::keys_distinct(entries),
    ensures
        router::footer_of(answer).get("hits"@) is None,
        router::footer_of(answer).get("_footer"@) == Some(JsonV::Bool(true)),
        answer.get("hits_returned"@) is None ==> search_laws::is_count(
            router::footer_of(answer).get("hits_returned"@),
            search_laws::hits_in(answer).len(),
        ),
        answer.get("hits_returned"@) is Some ==> router::footer_of(answer).get("hits_returned"@)
            == answer.get("hits_returned"@),
        key != "hits"@ && key != "_footer"@ && key != "hits_returned"@ ==> router::footer_of(answer).get(
            key,
        ) == answer.get(key),
{
    reveal_strlit("hits");
    reveal_strlit("_footer");
    reveal_strlit("hits_returned");
    assert("hits"@.len() == 4 && "_footer"@.len() == 7 && "hits_returned"@.len() == 13);
    let entries = answer->Object_0;
    let bare = JsonV::Object(json::without_key(entries, "hits"@));
    let marked = bare.with("_footer"@, JsonV::Bool(true));
    let count = crate::search::count_value(router::hits_in(answer).len());
    lemma_without_reads(entries, "hits"@, key);
    lemma_without_reads(entries, "hits"@, "hits_returned"@);
    json::lemma_read_back(bare, "_footer"@, JsonV::Bool(true), "hits"@);
    json::lemma_read_back(bare, "_footer"@, JsonV::Bool(true), "_footer"@);
    json::lemma_read_back(bare, "_footer"@, JsonV::Bool(true), "hits_returned"@);
    json::lemma_read_back(bare, "_footer"@, JsonV::Bool(true), key);
    json::lemma_read_back(marked, "hits_returned"@, count, "hits"@);
    json::lemma_read_back(marked, "hits_returned"@, count, "_footer"@);
    json::lemma_read_back(marked, "hits_returned"@, count, "hits_returned"@);
    json::lemma_read_back(marked, "hits_returned"@, count, key);
}

/// A stream has a line for every hit of the answer, in the answer's order, each the hit as it is
/// written and the end of the line, and the account behind them.
pub proof fn law_a_stream_has_a_line_for_every_hit(answer: JsonV)
    ensures
        router::lines_of(answer).len() == search_laws::hits_in(answer).len() + 1,
        forall|i: int|
            0 <= i < search_laws::hits_in(answer).len() ==> #[trigger] router::lines_of(answer)[i]
                == json::json_chars(search_laws::hits_in(answer)[i]) + "\n"@,
        router::lines_of(answer).last() == json::json_chars(router::footer_of(answer)) + "\n"@,
{
}

/// A failed stream says that it failed and why.
pub proof fn law_a_failed_stream_says_why(message: Seq<char>)
    ensures
        router::failure_value(message).get("_error"@) == Some(JsonV::Bool(true)),
        router::failure_value(message).get("message"@) == Some(JsonV::Text(message)),
{
    reveal_strlit("_error");
    reveal_strlit("message");
    assert("_error"@.len() == 6 && "message"@.len() == 7);
    let entries = router::failure_value(message)->Object_0;
    json::lemma_key_place_is(entries, "_error"@, 0);
    json::lemma_key_place_is(entries, "message"@, 1);
}

/// What a node sends out of a search has no sort keys in its hits, and is otherwise as it was.
pub proof fn law_an_answer_is_stripped_of_its_sort_keys(answer: JsonV, key: Seq<char>, i: int)
    requires
        answer is Object,
        answer.get("hits"@) matches Some(JsonV::Array(found)) && forall|k: int|
            0 <= k < found.len() ==> ((#[trigger] found[k]) matches JsonV::Object(entries)
                && json::keys_distinct(entries)),
        0 <= i < search_laws::hits_in(answer).len(),
    ensures
        ({
            let bare = hits::stripped(answer);
            &&& key != "hits"@ ==> bare.get(key) == answer.get(key)
            &&& search_laws::hits_in(bare).len() == search_laws::hits_in(answer).len()
            &&& search_laws::hits_in(bare)[i].get("_sort_key"@) is None
            &&& key != "_sort_key"@ ==> search_laws::hits_in(bare)[i].get(key)
                == search_laws::hits_in(answer)[i].get(key)
        }),
{
    let found = search_laws::hits_in(answer);
    let put = JsonV::Array(hits::without_sort_keys(found));
    json::lemma_read_back(answer, "hits"@, put, key);
    json::lemma_read_back(answer, "hits"@, put, "hits"@);
    let entries = found[i]->Object_0;
    lemma_without_reads(entries, "_sort_key"@, key);
    assert(found[i] is Object);
}

} // verus!
