//! A search whose answers are taken as they arrive.

use vstd::prelude::*;
use vstd::string::*;
use crate::{broadcast, errors, hits, json, order, search, text};
use crate::broadcast::{
    number_at, peers_to_ask, read_shards_answered, take_hits, write_cluster_stats,
};
use crate::errors::{ErrorV, OrchestratorError, attach_shard_errors};
use crate::grouping::holds_id;
use crate::hits::{Score, SearchWindow, SortOrder, SortSpec, order_hit_blocks};
use crate::json::{Json, JsonNumber, JsonV, NumV, entry};
use crate::ops::ClientOp;
use crate::order::{places_by_key, rearranged};
use crate::text::uuid_text;

verus! {

/// One answer to a streamed search.
pub enum StreamingSearchResult {
    /// This node's own.
    Local { shard_id: u128, hits: Vec<(Score, Json)>, total_hits: usize, took_ms: u64 },
    /// A peer's, or why it gave none.
    Remote { node_id: u128, result: Result<Json, OrchestratorError> },
}

/// What a streamed search asks of every node, and how many hits it is for: the limit that was asked
/// for or the default, from the front on. None where an operation is no search.
pub open spec fn streamed(op: ClientOp, default_limit: usize) -> Option<(ClientOp, usize)> {
    match op {
        ClientOp::Search { index, query, limit, offset: _, fields, sort } => Some(
            streamed_search(index, query, limit_or(limit, default_limit), fields, sort),
        ),
        ClientOp::Stream { index, query, limit, fields, sort } => Some(
            streamed_search(index, query, limit_or(limit, default_limit), fields, sort),
        ),
        _ => None,
    }
}

/// The limit asked for, or the default.
pub open spec fn limit_or(limit: Option<usize>, default_limit: usize) -> usize {
    match limit {
        Some(asked) => asked,
        None => default_limit,
    }
}

/// A search of so many hits from the front on.
pub open spec fn streamed_search(
    index: String,
    query: String,
    limit: usize,
    fields: Option<Vec<String>>,
    sort: Option<SortSpec>,
) -> (ClientOp, usize) {
    (ClientOp::Search { index, query, limit: Some(limit), offset: None, fields, sort }, limit)
}

/// What a streamed search asks of every node, and how many hits it is for. An operation that is no
/// search comes back as it was.
///
/// The caller is handed the whole result as it is produced, so that there is no page to take and
/// nothing is skipped.
pub fn stream_request(op: ClientOp, default_limit: usize) -> (asked: Result<
    (ClientOp, usize),
    ClientOp,
>)
    ensures
        match asked {
            Ok(request) => streamed(op, default_limit) == Some(request),
            Err(back) => streamed(op, default_limit) is None && back == op,
        },
{
    match op {
        ClientOp::Search { index, query, limit, offset: _, fields, sort } => {
            let limit: usize = match limit {
                Some(asked) => asked,
                None => default_limit,
            };
            Ok((
                ClientOp::Search { index, query, limit: Some(limit), offset: None, fields, sort },
                limit,
            ))
        },
        ClientOp::Stream { index, query, limit, fields, sort } => {
            let limit: usize = match limit {
                Some(asked) => asked,
                None => default_limit,
            };
            Ok((
                ClientOp::Search { index, query, limit: Some(limit), offset: None, fields, sort },
                limit,
            ))
        },
        other => Err(other),
    }
}

/// The hits of an answer that carry a score.
pub open spec fn scored(hits: Seq<JsonV>) -> Seq<JsonV>
    decreases hits.len(),
{
    if hits.len() == 0 {
        Seq::empty()
    } else {
        let before = scored(hits.drop_last());
        match hits.last().get("_score"@) {
            Some(JsonV::Number(_)) => before.push(hits.last()),
            _ => before,
        }
    }
}

/// The hits of this node's own answer that carry a score, and how many hits there are in all.
pub fn local_hits(answer: &Json) -> (found: (Vec<Json>, u64))
    ensures
        json::models(found.0@) == scored(
            match broadcast::items_of(answer@.get("hits"@)) {
                Some(hits) => hits,
                None => Seq::empty(),
            },
        ),
        found.1 == broadcast::or_zero(broadcast::number_of(answer@.get("total_hits"@))),
{
    let total: u64 = match number_at(answer, "total_hits") {
        Some(n) => n,
        None => 0,
    };
    let mut kept: Vec<Json> = Vec::new();
    assert(json::models(kept@) =~= Seq::empty());
    let items: &Vec<Json> = match answer.get("hits") {
        Some(value) => match value.as_array() {
            Some(items) => items,
            None => {
                return (kept, total);
            },
        },
        None => {
            return (kept, total);
        },
    };
    let ghost all = json::models(items@);
    let mut i: usize = 0;
    while i < items.len()
        invariant
            i <= items.len(),
            all == json::models(items@),
            json::models(kept@) == scored(all.take(i as int)),
        decreases items.len() - i,
    {
        proof {
            assert(all.take(i + 1).drop_last() =~= all.take(i as int));
            assert(all.take(i + 1).last() == items@[i as int]@);
        }
        if let Some(score) = items[i].get("_score") {
            proof {
                json::lemma_model_by_parts(*score);
            }
            if let Json::Number(_) = score {
                let ghost before = kept@;
                kept.push(items[i].clone());
                assert(json::models(kept@) =~= json::models(before).push(all[i as int]));
            }
        }
        i += 1;
    }
    assert(all.take(items.len() as int) =~= all);
    (kept, total)
}

// ---------------------------------------------------------------------------
// Asking peers
// ---------------------------------------------------------------------------

/// Which peers of a streamed search have been asked: the first ones, in the order in which they are
/// known, and no more at once than a width allows.
pub struct FanOut {
    /// How many may be asked in all.
    pub peers: usize,
    /// How many may be asked at once.
    pub width: usize,
    /// How many have been asked.
    pub asked: usize,
    /// How many of those have yet to answer.
    pub running: usize,
}

/// What holds of the asking at any time: there is room for one, no more are waited for than there is
/// room for, and no more are asked than there are.
pub open spec fn fan_holds(fan: FanOut) -> bool {
    &&& fan.width >= 1
    &&& fan.running <= fan.width
    &&& fan.running <= fan.asked <= fan.peers
}

impl FanOut {
    /// Before anyone is asked.
    pub fn new(known: usize, fanout_limit: usize, width: usize) -> (fan: FanOut)
        ensures
            fan_holds(fan),
            fan == (FanOut {
                peers: if known < fanout_limit {
                    known
                } else {
                    fanout_limit
                },
                width: if width < 1 {
                    1
                } else {
                    width
                },
                asked: 0,
                running: 0,
            }),
    {
        FanOut {
            peers: peers_to_ask(known, fanout_limit),
            width: if width < 1 {
                1
            } else {
                width
            },
            asked: 0,
            running: 0,
        }
    }

    /// The place of the next peer to ask, if there is one and there is room for it.
    pub fn ask_next(&mut self) -> (peer: Option<usize>)
        requires
            fan_holds(*old(self)),
        ensures
            fan_holds(*final(self)),
            old(self).asked < old(self).peers && old(self).running < old(self).width ==> peer == Some(
                old(self).asked,
            ) && *final(self) == (FanOut {
                asked: (old(self).asked + 1) as usize,
                running: (old(self).running + 1) as usize,
                ..*old(self)
            }),
            !(old(self).asked < old(self).peers && old(self).running < old(self).width)
                ==> peer is None && *final(self) == *old(self),
    {
        if self.asked < self.peers && self.running < self.width {
            let place: usize = self.asked;
            self.asked = self.asked + 1;
            self.running = self.running + 1;
            Some(place)
        } else {
            None
        }
    }

    /// Notes that a peer has answered, or will not.
    pub fn answered(&mut self)
        requires
            fan_holds(*old(self)),
            old(self).running > 0,
        ensures
            fan_holds(*final(self)),
            *final(self) == (FanOut { running: (old(self).running - 1) as usize, ..*old(self) }),
    {
        self.running = self.running - 1;
    }

    /// Whether every peer has been asked and has answered.
    pub fn is_done(&self) -> (done: bool)
        ensures
            done == (self.asked == self.peers && self.running == 0),
    {
        self.asked == self.peers && self.running == 0
    }
}

/// No peer is passed over: as long as the asking is not done, a peer is being waited for or the next
/// one can be asked.
pub proof fn law_asking_peers_never_stalls(fan: FanOut)
    requires
        fan_holds(fan),
        !(fan.asked == fan.peers && fan.running == 0),
    ensures
        fan.running > 0 || fan.asked < fan.peers && fan.running < fan.width,
{
}

// ---------------------------------------------------------------------------
// Taking answers
// ---------------------------------------------------------------------------

/// Where hits come from: this node's shards before its peers, each by its identifier.
pub open spec fn source_key(local: bool, id: u128) -> (u64, u128) {
    (
        if local {
            0
        } else {
            1
        },
        id,
    )
}

/// What is known once some answers have been taken.
pub struct StreamV {
    pub sources: Seq<(u64, u128)>,
    pub blocks: Seq<Seq<JsonV>>,
    pub collected: nat,
    pub total_hits: nat,
    pub shards: nat,
    pub local_shards: Seq<u128>,
    pub contacted: nat,
    pub errors: Seq<Seq<char>>,
}

/// A hit of this node with its score written into it.
pub open spec fn rescored(score: Score, doc: JsonV) -> JsonV {
    match doc {
        JsonV::Object(_) => doc.with(
            "_score"@,
            JsonV::Number(
                match hits::score_number(score) {
                    Some(number) => number,
                    None => NumV::Unsigned(0),
                },
            ),
        ),
        _ => doc,
    }
}

/// Hits of this node with their scores written into them.
pub open spec fn all_rescored(hits: Seq<(Score, Json)>) -> Seq<JsonV> {
    hits.map_values(|hit: (Score, Json)| rescored(hit.0, hit.1@))
}

/// What is said of a peer that gave no answer.
pub open spec fn peer_note(node_id: u128, error: ErrorV) -> Seq<char> {
    "Remote node "@ + text::uuid_chars(node_id) + " search failed: "@ + errors::error_text(error)
}

/// What is known once one more answer has been taken.
pub open spec fn streamed_with(before: StreamV, answer: StreamingSearchResult) -> StreamV {
    match answer {
        StreamingSearchResult::Local { shard_id, hits, total_hits, took_ms: _ } => {
            let seen = if before.local_shards.contains(shard_id) {
                before.local_shards
            } else {
                before.local_shards.push(shard_id)
            };
            StreamV {
                sources: before.sources.push(source_key(true, shard_id)),
                blocks: before.blocks.push(all_rescored(hits@)),
                collected: before.collected + hits@.len(),
                total_hits: before.total_hits + total_hits as nat,
                shards: seen.len(),
                local_shards: seen,
                contacted: before.contacted + 1,
                errors: before.errors,
            }
        },
        StreamingSearchResult::Remote { node_id, result } => match result {
            Ok(value) => {
                let block = broadcast::items_of(value@.get("hits"@));
                StreamV {
                    sources: if block is Some {
                        before.sources.push(source_key(false, node_id))
                    } else {
                        before.sources
                    },
                    blocks: if block is Some {
                        before.blocks.push(block->0)
                    } else {
                        before.blocks
                    },
                    collected: before.collected + if block is Some {
                        block->0.len()
                    } else {
                        0
                    },
                    total_hits: before.total_hits + broadcast::or_zero(broadcast::number_of(value@.get("total_hits"@))),
                    shards: before.shards + broadcast::or_zero(broadcast::shards_answered(value@)),
                    local_shards: before.local_shards,
                    contacted: before.contacted + 1,
                    errors: before.errors,
                }
            },
            Err(error) => StreamV {
                contacted: before.contacted + 1,
                errors: before.errors.push(peer_note(node_id, error@)),
                ..before
            },
        },
    }
}

/// The answers to a streamed search, taken so far.
pub struct StreamedSearch {
    pub sources: Vec<(u64, u128)>,
    pub blocks: Vec<Vec<Json>>,
    /// How many hits have been taken.
    pub hits_collected: u64,
    pub total_hits_sum: u64,
    pub shards_queried: u64,
    pub local_shards: Vec<u128>,
    pub nodes_contacted: u64,
    pub errors: Vec<String>,
}

impl View for StreamedSearch {
    type V = StreamV;

    open spec fn view(&self) -> StreamV {
        StreamV {
            sources: self.sources@,
            blocks: hits::block_models(self.blocks@),
            collected: self.hits_collected as nat,
            total_hits: self.total_hits_sum as nat,
            shards: self.shards_queried as nat,
            local_shards: self.local_shards@,
            contacted: self.nodes_contacted as nat,
            errors: text::texts(self.errors@),
        }
    }
}

/// Writes its score into each hit of this node.
fn rescore(hits: Vec<(Score, Json)>) -> (block: Vec<Json>)
    ensures
        json::models(block@) == all_rescored(hits@),
        block@.len() == hits@.len(),
{
    let ghost wanted = all_rescored(hits@);
    let mut block: Vec<Json> = Vec::new();
    assert(json::models(block@) =~= wanted.take(0));
    for hit in it: hits
        invariant
            it.seq() == hits@,
            wanted == all_rescored(hits@),
            block@.len() == it.index(),
            json::models(block@) == wanted.take(it.index() as int),
    {
        let ghost place = it.index() as int;
        let ghost before = block@;
        assert(hit == hits@[place]);
        let (score, unscored) = hit;
        let mut doc: Json = unscored;
        proof {
            json::lemma_model_by_parts(doc);
        }
        let object: bool = match &doc {
            Json::Object(_) => true,
            _ => false,
        };
        if object {
            let number: Json = match score.number {
                Some(n) => Json::Number(n),
                None => Json::Number(JsonNumber::Unsigned(0)),
            };
            proof {
                json::lemma_model_by_parts(number);
            }
            doc.put("_score", number);
        }
        block.push(doc);
        assert(json::models(block@) =~= json::models(before).push(wanted[place]));
        assert(wanted.take(place + 1) =~= wanted.take(place).push(wanted[place]));
    }
    assert(wanted.take(hits@.len() as int) =~= wanted);
    block
}

/// Whether one more answer still fits machine words.
pub open spec fn stream_fits(before: StreamV, answer: StreamingSearchResult) -> bool {
    let after = streamed_with(before, answer);
    &&& after.collected <= u64::MAX
    &&& after.total_hits <= u64::MAX
    &&& after.shards <= u64::MAX
    &&& after.contacted <= u64::MAX
}

impl StreamedSearch {
    /// No answer yet.
    pub fn new() -> (stream: StreamedSearch)
        ensures
            stream@ == (StreamV {
                sources: Seq::empty(),
                blocks: Seq::empty(),
                collected: 0,
                total_hits: 0,
                shards: 0,
                local_shards: Seq::empty(),
                contacted: 0,
                errors: Seq::empty(),
            }),
    {
        let stream = StreamedSearch {
            sources: Vec::new(),
            blocks: Vec::new(),
            hits_collected: 0,
            total_hits_sum: 0,
            shards_queried: 0,
            local_shards: Vec::new(),
            nodes_contacted: 0,
            errors: Vec::new(),
        };
        assert(hits::block_models(stream.blocks@) =~= Seq::empty());
        assert(text::texts(stream.errors@) =~= Seq::empty());
        stream
    }

    /// Whether to stop before the answer at hand is taken: the page is full and nothing more is to
    /// come.
    pub fn stops_here(&self, limit: usize, early: bool, nothing_pending: bool) -> (stops: bool)
        ensures
            stops == (early && self@.collected >= limit && nothing_pending),
    {
        early && self.hits_collected >= limit as u64 && nothing_pending
    }

    /// Takes one answer.
    ///
    /// A local shard counts once however often it answers, and it counts though nothing matched. A
    /// peer's own count of its shards is added. A peer that failed is noted.
    pub fn take(&mut self, answer: StreamingSearchResult)
        requires
            stream_fits(old(self)@, answer),
        ensures
            final(self)@ == streamed_with(old(self)@, answer),
    {
        match answer {
            StreamingSearchResult::Local { shard_id, hits, total_hits, took_ms: _ } => {
                let ghost blocks_before = self.blocks@;
                let count: u64 = hits.len() as u64;
                let block: Vec<Json> = rescore(hits);
                self.hits_collected = self.hits_collected + count;
                if !holds_id(&self.local_shards, shard_id) {
                    self.local_shards.push(shard_id);
                }
                self.sources.push((0, shard_id));
                self.blocks.push(block);
                assert(hits::block_models(self.blocks@) =~= hits::block_models(blocks_before).push(
                    json::models(block@),
                ));
                self.total_hits_sum = self.total_hits_sum + total_hits as u64;
                self.shards_queried = self.local_shards.len() as u64;
                self.nodes_contacted = self.nodes_contacted + 1;
            },
            StreamingSearchResult::Remote { node_id, result } => {
                self.nodes_contacted = self.nodes_contacted + 1;
                match result {
                    Ok(value) => {
                        if let Some(total) = number_at(&value, "total_hits") {
                            self.total_hits_sum = self.total_hits_sum + total;
                        }
                        if let Some(count) = read_shards_answered(&value) {
                            self.shards_queried = self.shards_queried + count;
                        }
                        let ghost blocks_before = self.blocks@;
                        if let Some(block) = take_hits(value) {
                            assert(json::models(block@).len() == block@.len());
                            self.hits_collected = self.hits_collected + block.len() as u64;
                            self.sources.push((1, node_id));
                            self.blocks.push(block);
                            assert(hits::block_models(self.blocks@) =~= hits::block_models(blocks_before).push(
                                json::models(block@),
                            ));
                        }
                    },
                    Err(error) => {
                        let ghost before = self.errors@;
                        let mut note: String = String::from_str("Remote node ");
                        note.append(uuid_text(node_id).as_str());
                        note.append(" search failed: ");
                        note.append(error.message().as_str());
                        self.errors.push(note);
                        assert(text::texts(self.errors@) =~= text::texts(before).push(
                            peer_note(node_id, error@),
                        ));
                    },
                }
            },
        }
    }
}

// ---------------------------------------------------------------------------
// The answer
// ---------------------------------------------------------------------------

/// The body of a streamed answer.
pub open spec fn streamed_body(page: Seq<JsonV>, limit: usize, took_ms: u64, known: StreamV) -> JsonV {
    JsonV::Object(
        seq![
            ("hits"@, JsonV::Array(page)),
            ("hits_returned"@, search::count_value(page.len())),
            ("total_hits"@, search::count_value(known.total_hits)),
            ("limit"@, search::count_value(limit as nat)),
            ("took_ms"@, search::count_value(took_ms as nat)),
            ("stats"@, broadcast::cluster_stats(known.shards, known.errors.len(), known.contacted)),
        ],
    )
}

/// Whether a value is the answer to a streamed search.
pub open spec fn is_streamed_answer(
    answer: JsonV,
    known: StreamV,
    sort: Option<SortOrder>,
    limit: usize,
    took_ms: u64,
    ranks: Seq<int>,
    page: Seq<JsonV>,
    order: Seq<int>,
) -> bool {
    &&& order::is_key_order(known.sources, ranks)
    &&& hits::is_merge_page(
        page,
        order::at_places(known.blocks, ranks).flatten(),
        sort,
        (SearchWindow { offset: 0, limit }),
        order,
    )
    &&& answer == errors::with_texts(
        streamed_body(page, limit, took_ms, known),
        "errors"@,
        known.errors,
    )
}

/// Answers a streamed search.
///
/// The blocks are ranked by where they come from, not by which of them came first, so that a tie
/// between two hits is settled the same way on every run.
pub fn answer_stream(
    stream: StreamedSearch,
    sort: Option<&SortSpec>,
    limit: usize,
    took_ms: u64,
) -> (answer: Json)
    requires
        stream@.sources.len() == stream@.blocks.len(),
    ensures
        exists|ranks: Seq<int>, page: Seq<JsonV>, order: Seq<int>| #[trigger]
            is_streamed_answer(
                answer@,
                stream@,
                hits::direction(sort),
                limit,
                took_ms,
                ranks,
                page,
                order,
            ),
{
    let ghost known = stream@;
    let window: SearchWindow = SearchWindow::first(limit);
    let ranks: Vec<usize> = places_by_key(&stream.sources);
    let ghost given = stream.blocks@;
    let blocks: Vec<Vec<Json>> = rearranged(stream.blocks, &ranks);
    let ghost ranked = blocks@;
    assert(hits::block_models(ranked) =~= order::at_places(known.blocks, order::places(ranks@)));
    let page: Vec<Json> = order_hit_blocks(blocks, sort, window);
    let ghost shown_page = json::models(page@);
    let ghost order = choose|order: Seq<int>| #[trigger]
        hits::is_merge_page(shown_page, hits::lined_up(ranked), hits::direction(sort), window, order);
    let count: usize = page.len();
    let failed: u64 = stream.errors.len() as u64;
    let parts: Vec<(String, Json)> = vec![
        entry("hits", Json::list(page)),
        entry("hits_returned", Json::count(count)),
        entry("total_hits", Json::unsigned(stream.total_hits_sum)),
        entry("limit", Json::count(limit)),
        entry("took_ms", Json::unsigned(took_ms)),
        entry("stats", write_cluster_stats(stream.shards_queried, failed, stream.nodes_contacted)),
    ];
    proof {
        assert(json::entry_models(parts@) =~= seq![
            ("hits"@, JsonV::Array(shown_page)),
            ("hits_returned"@, search::count_value(shown_page.len())),
            ("total_hits"@, search::count_value(known.total_hits)),
            ("limit"@, search::count_value(limit as nat)),
            ("took_ms"@, search::count_value(took_ms as nat)),
            ("stats"@, broadcast::cluster_stats(known.shards, known.errors.len(), known.contacted)),
        ]);
    }
    let mut answer: Json = Json::object(parts);
    attach_shard_errors(&mut answer, stream.errors);
    assert(is_streamed_answer(
        answer@,
        known,
        hits::direction(sort),
        limit,
        took_ms,
        order::places(ranks@),
        shown_page,
        order,
    ));
    answer
}

/// Every block has its source, whatever answers are taken.
pub proof fn law_every_block_has_its_source(before: StreamV, answer: StreamingSearchResult)
    requires
        before.sources.len() == before.blocks.len(),
    ensures
        streamed_with(before, answer).sources.len() == streamed_with(before, answer).blocks.len(),
{
}

/// The blocks of a streamed search are merged in the same order, in whatever order they arrive,
/// where no source gives two.
pub proof fn law_sources_may_answer_in_any_order(
    known: StreamV,
    ranks: Seq<int>,
    arrival: Seq<int>,
    arrived: StreamV,
    arrived_ranks: Seq<int>,
)
    requires
        known.sources.len() == known.blocks.len(),
        known.sources.no_duplicates(),
        order::names_each_once(arrival, known.sources.len()),
        arrived.sources == order::at_places(known.sources, arrival),
        arrived.blocks == order::at_places(known.blocks, arrival),
        order::is_key_order(known.sources, ranks),
        order::is_key_order(arrived.sources, arrived_ranks),
    ensures
        order::at_places(arrived.blocks, arrived_ranks) == order::at_places(known.blocks, ranks),
{
    order::law_keys_settle_any_arrival(known.sources, known.blocks, ranks, arrival, arrived_ranks);
}

} // verus!
