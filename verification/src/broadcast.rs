//! What a node makes of the answers of its peers.

use vstd::prelude::*;
use vstd::string::*;
use crate::{errors, hits, json, order, search, text};
use crate::errors::{
    APPROXIMATE_SORT_FIELD, DISCARDED_CLAUSES_FIELD, ErrorV, IoKind, OrchestratorError,
    attach_approximate_sort, attach_discarded, push_distinct,
};
use crate::hits::{SearchWindow, SortOrder, SortSpec, order_hit_blocks};
use crate::json::{Json, JsonV, entry, take_entry};
use crate::ops::ClientOp;
use crate::text::{count_text, uuid_text};
use crate::order::{places_by_key, rearranged};

verus! {

// ---------------------------------------------------------------------------
// What is sent
// ---------------------------------------------------------------------------

/// The page that a broadcast answers with.
pub open spec fn page_asked(op: ClientOp, default_limit: usize) -> SearchWindow {
    match op {
        ClientOp::Search { limit, offset, .. } => SearchWindow {
            offset: match offset {
                Some(n) => n,
                None => 0,
            },
            limit: match limit {
                Some(n) => n,
                None => default_limit,
            },
        },
        _ => SearchWindow { offset: 0, limit: default_limit },
    }
}

/// The page that a broadcast answers with, read off the operation before it is widened.
pub fn broadcast_window(op: &ClientOp, default_limit: usize) -> (window: SearchWindow)
    ensures
        window == page_asked(*op, default_limit),
{
    match op {
        ClientOp::Search { limit, offset, .. } => {
            let skipped: usize = match offset {
                Some(n) => *n,
                None => 0,
            };
            let wanted: usize = match limit {
                Some(n) => *n,
                None => default_limit,
            };
            SearchWindow { offset: skipped, limit: wanted }
        },
        _ => SearchWindow::first(default_limit),
    }
}

/// An operation as it is sent to every node.
pub open spec fn widened(op: ClientOp, window: SearchWindow) -> ClientOp {
    match op {
        ClientOp::Search { index, query, limit: _, offset: _, fields, sort } => ClientOp::Search {
            index,
            query,
            limit: Some(hits::window_reach(window)),
            offset: None,
            fields,
            sort,
        },
        other => other,
    }
}

/// Widens an operation before it is fanned out.
///
/// Every node is asked for the whole page from the front of its own order, and the skip is applied
/// once, after the blocks have been merged. A node that skipped hits of its own would drop rows
/// that belong on this page.
pub fn widen(op: ClientOp, window: SearchWindow) -> (sent: ClientOp)
    ensures
        sent == widened(op, window),
{
    match op {
        ClientOp::Search { index, query, limit: _, offset: _, fields, sort } => ClientOp::Search {
            index,
            query,
            limit: Some(window.fetch_count()),
            offset: None,
            fields,
            sort,
        },
        other => other,
    }
}

/// However many nodes a widened operation travels through, it is widened once: what is sent on is
/// what was received, as long as the page it asks for fits a machine word.
pub proof fn law_widening_is_done_once(op: ClientOp, default_limit: usize)
    requires
        page_asked(op, default_limit).offset + page_asked(op, default_limit).limit <= usize::MAX,
    ensures
        ({
            let sent = widened(op, page_asked(op, default_limit));
            widened(sent, page_asked(sent, default_limit)) == sent
        }),
{
}

/// How many peers an operation is sent to.
pub fn peers_to_ask(known: usize, fanout_limit: usize) -> (count: usize)
    ensures
        count == (if known < fanout_limit {
            known
        } else {
            fanout_limit
        }),
{
    if known < fanout_limit {
        known
    } else {
        fanout_limit
    }
}

// ---------------------------------------------------------------------------
// Reading an answer
// ---------------------------------------------------------------------------

/// What an optional value holds under a key.
pub open spec fn held(value: Option<JsonV>, key: Seq<char>) -> Option<JsonV> {
    match value {
        Some(v) => v.get(key),
        None => None,
    }
}

/// The whole number an optional value is.
pub open spec fn number_of(value: Option<JsonV>) -> Option<u64> {
    match value {
        Some(v) => v.as_u64(),
        None => None,
    }
}

/// The items of an optional value.
pub open spec fn items_of(value: Option<JsonV>) -> Option<Seq<JsonV>> {
    match value {
        Some(v) => v.as_array(),
        None => None,
    }
}

/// The text an optional value is.
pub open spec fn text_of_value(value: Option<JsonV>) -> Option<Seq<char>> {
    match value {
        Some(v) => v.as_text(),
        None => None,
    }
}

/// The number under a key of a value.
pub fn number_at(value: &Json, key: &str) -> (number: Option<u64>)
    ensures
        number == number_of(value@.get(key@)),
{
    match value.get(key) {
        Some(found) => found.as_u64(),
        None => None,
    }
}

/// The text under a key of a value.
pub fn text_at<'a>(value: &'a Json, key: &str) -> (text: Option<&'a String>)
    ensures
        match text {
            Some(found) => text_of_value(value@.get(key@)) == Some(found@),
            None => text_of_value(value@.get(key@)) is None,
        },
{
    match value.get(key) {
        Some(found) => found.as_text(),
        None => None,
    }
}

/// How many shards answered, by an answer's own account.
pub open spec fn shards_answered(answer: JsonV) -> Option<u64> {
    number_of(held(held(answer.get("stats"@), "shards"@), "responded"@))
}

/// How many shards answered, by an answer's own account.
pub fn read_shards_answered(answer: &Json) -> (count: Option<u64>)
    ensures
        count == shards_answered(answer@),
{
    match answer.get("stats") {
        Some(stats) => match stats.get("shards") {
            Some(shards) => number_at(shards, "responded"),
            None => None,
        },
        None => None,
    }
}

/// The texts among some values.
pub open spec fn texts_among(items: Seq<JsonV>) -> Seq<Seq<char>>
    decreases items.len(),
{
    if items.len() == 0 {
        Seq::empty()
    } else {
        let before = texts_among(items.drop_last());
        match items.last().as_text() {
            Some(text) => before.push(text),
            None => before,
        }
    }
}

/// The clauses that an answer says were dropped.
pub open spec fn notes_of(answer: JsonV) -> Seq<Seq<char>> {
    match items_of(answer.get(DISCARDED_CLAUSES_FIELD@)) {
        Some(items) => texts_among(items),
        None => Seq::empty(),
    }
}

/// The clauses that some answers say were dropped.
pub open spec fn notes_of_all(answers: Seq<JsonV>) -> Seq<Seq<char>>
    decreases answers.len(),
{
    if answers.len() == 0 {
        Seq::empty()
    } else {
        notes_of_all(answers.drop_last()) + notes_of(answers.last())
    }
}

/// Adds the clauses that an answer says were dropped, each of them once.
fn add_notes(out: &mut Vec<String>, answer: &Json, seen: Ghost<Seq<Seq<char>>>)
    requires
        text::texts(old(out)@) == errors::distinct_in_order(seen@),
    ensures
        text::texts(final(out)@) == errors::distinct_in_order(seen@ + notes_of(answer@)),
{
    assert(seen@ + Seq::<Seq<char>>::empty() =~= seen@);
    let items: &Vec<Json> = match answer.get(DISCARDED_CLAUSES_FIELD) {
        Some(value) => match value.as_array() {
            Some(items) => items,
            None => {
                return;
            },
        },
        None => {
            return;
        },
    };
    let ghost all = json::models(items@);
    let mut i: usize = 0;
    assert(texts_among(all.take(0)) =~= Seq::empty());
    while i < items.len()
        invariant
            i <= items.len(),
            all == json::models(items@),
            text::texts(out@) == errors::distinct_in_order(seen@ + texts_among(all.take(i as int))),
        decreases items.len() - i,
    {
        proof {
            assert(all.take(i + 1).drop_last() =~= all.take(i as int));
            assert(all.take(i + 1).last() == items@[i as int]@);
        }
        if let Some(note) = items[i].as_text() {
            proof {
                let longer = seen@ + texts_among(all.take(i + 1));
                assert(longer.drop_last() =~= seen@ + texts_among(all.take(i as int)));
                assert(longer.last() == note@);
            }
            push_distinct(out, note.as_str());
        }
        i += 1;
    }
    assert(all.take(items.len() as int) =~= all);
}

/// The distinct dropped clauses of some answers.
pub fn collect_discarded(responses: &Vec<Json>) -> (notes: Vec<String>)
    ensures
        text::texts(notes@) == errors::distinct_in_order(notes_of_all(json::models(responses@))),
{
    let mut notes: Vec<String> = Vec::new();
    let ghost all = json::models(responses@);
    assert(text::texts(notes@) =~= Seq::empty());
    let mut i: usize = 0;
    while i < responses.len()
        invariant
            i <= responses.len(),
            all == json::models(responses@),
            text::texts(notes@) == errors::distinct_in_order(notes_of_all(all.take(i as int))),
        decreases responses.len() - i,
    {
        proof {
            assert(all.take(i + 1).drop_last() =~= all.take(i as int));
            assert(all.take(i + 1).last() == responses@[i as int]@);
        }
        add_notes(&mut notes, &responses[i], Ghost(notes_of_all(all.take(i as int))));
        i += 1;
    }
    assert(all.take(responses.len() as int) =~= all);
    notes
}

/// The field whose order is approximate, by the first of some answers that names one.
pub open spec fn first_approximate(answers: Seq<JsonV>) -> Option<Seq<char>>
    decreases answers.len(),
{
    if answers.len() == 0 {
        None
    } else {
        let before = first_approximate(answers.drop_last());
        if before is Some {
            before
        } else {
            text_of_value(answers.last().get(APPROXIMATE_SORT_FIELD@))
        }
    }
}

/// The approximated field of some answers, if any of them reports one.
///
/// Every node ran the same sort on the same field, so the first answer wins: a node whose shards
/// are all empty reports nothing.
pub fn collect_approximate_sort(responses: &Vec<Json>) -> (field: Option<String>)
    ensures
        errors::opt_text(field) == first_approximate(json::models(responses@)),
{
    let ghost all = json::models(responses@);
    let mut i: usize = 0;
    while i < responses.len()
        invariant
            i <= responses.len(),
            all == json::models(responses@),
            first_approximate(all.take(i as int)) is None,
        decreases responses.len() - i,
    {
        proof {
            assert(all.take(i + 1).drop_last() =~= all.take(i as int));
            assert(all.take(i + 1).last() == responses@[i as int]@);
        }
        if let Some(field) = text_at(&responses[i], APPROXIMATE_SORT_FIELD) {
            proof {
                lemma_first_approximate_stays(all, i + 1);
            }
            return Some(field.clone());
        }
        i += 1;
    }
    assert(all.take(responses.len() as int) =~= all);
    None
}

/// A field once named stays named.
proof fn lemma_first_approximate_stays(answers: Seq<JsonV>, count: int)
    requires
        0 <= count <= answers.len(),
        first_approximate(answers.take(count)) is Some,
    ensures
        first_approximate(answers) == first_approximate(answers.take(count)),
    decreases answers.len(),
{
    if count < answers.len() {
        let shorter = answers.drop_last();
        assert(shorter.take(count) =~= answers.take(count));
        lemma_first_approximate_stays(shorter, count);
    } else {
        assert(answers.take(count) =~= answers);
    }
}

// ---------------------------------------------------------------------------
// Merging searches
// ---------------------------------------------------------------------------

/// What is known once some nodes have answered a search.
pub struct MergeV {
    pub blocks: Seq<Seq<JsonV>>,
    pub shards: nat,
    pub total_hits: nat,
    pub notes: Seq<Seq<char>>,
    pub approximate: Option<Seq<char>>,
    pub contacted: nat,
    pub took_ms: Option<u64>,
    pub failed: nat,
}

/// A count, none counted as nothing.
pub open spec fn or_zero(count: Option<u64>) -> nat {
    match count {
        Some(n) => n as nat,
        None => 0,
    }
}

/// The longer of two times.
pub open spec fn longest(before: Option<u64>, took: Option<u64>) -> Option<u64> {
    match (before, took) {
        (Some(a), Some(b)) => Some(
            if a >= b {
                a
            } else {
                b
            },
        ),
        (None, Some(b)) => Some(b),
        (_, None) => before,
    }
}

/// What is known once one more node has answered a search, or has not.
pub open spec fn merged_with(before: MergeV, answer: Option<JsonV>) -> MergeV {
    match answer {
        Some(value) => MergeV {
            blocks: match items_of(value.get("hits"@)) {
                Some(hits) => before.blocks.push(hits),
                None => before.blocks,
            },
            shards: before.shards + or_zero(shards_answered(value)),
            total_hits: before.total_hits + or_zero(number_of(value.get("total_hits"@))),
            notes: before.notes + notes_of(value),
            approximate: if before.approximate is Some {
                before.approximate
            } else {
                text_of_value(value.get(APPROXIMATE_SORT_FIELD@))
            },
            contacted: before.contacted + 1,
            took_ms: longest(before.took_ms, number_of(value.get("took_ms"@))),
            failed: before.failed,
        },
        None => MergeV { failed: before.failed + 1, ..before },
    }
}

/// What is known once every node has answered a search, or has not: this node first, then each
/// peer in the order in which it was asked.
pub open spec fn merged(answers: Seq<Option<JsonV>>) -> MergeV
    decreases answers.len(),
{
    if answers.len() == 0 {
        MergeV {
            blocks: Seq::empty(),
            shards: 0,
            total_hits: 0,
            notes: Seq::empty(),
            approximate: None,
            contacted: 0,
            took_ms: None,
            failed: 0,
        }
    } else {
        merged_with(merged(answers.drop_last()), answers.last())
    }
}

/// Optional answers, as values of the model.
pub open spec fn answer_models(answers: Seq<Option<Json>>) -> Seq<Option<JsonV>> {
    answers.map_values(
        |answer: Option<Json>|
            match answer {
                Some(value) => Some(value@),
                None => None,
            },
    )
}

/// What the nodes of a cluster answered to a search, put together.
pub struct BroadcastStats {
    pub blocks: Vec<Vec<Json>>,
    pub total_shards_queried: u64,
    pub nodes_contacted: u64,
    pub max_took_ms: Option<u64>,
    pub total_hits_sum: u64,
    pub discarded: Vec<String>,
    pub approximate_sort: Option<String>,
    pub failed: u64,
}

impl BroadcastStats {
    /// Whether this is what is known, with each note kept once.
    pub open spec fn is(&self, known: MergeV) -> bool {
        &&& hits::block_models(self.blocks@) == known.blocks
        &&& self.total_shards_queried == known.shards
        &&& self.nodes_contacted == known.contacted
        &&& self.max_took_ms == known.took_ms
        &&& self.total_hits_sum == known.total_hits
        &&& text::texts(self.discarded@) == errors::distinct_in_order(known.notes)
        &&& errors::opt_text(self.approximate_sort) == known.approximate
        &&& self.failed == known.failed
    }

    /// Adds what one node answered.
    fn push_hits(&mut self, answer: Json, known: Ghost<MergeV>)
        requires
            old(self).is(known@),
            merged_with(known@, Some(answer@)).shards <= u64::MAX,
            merged_with(known@, Some(answer@)).total_hits <= u64::MAX,
            known@.contacted < u64::MAX,
        ensures
            final(self).is(merged_with(known@, Some(answer@))),
    {
        let ghost value = answer@;
        if let Some(count) = read_shards_answered(&answer) {
            self.total_shards_queried = self.total_shards_queried + count;
        }
        if let Some(total) = number_at(&answer, "total_hits") {
            self.total_hits_sum = self.total_hits_sum + total;
        }
        add_notes(&mut self.discarded, &answer, Ghost(known@.notes));
        if self.approximate_sort.is_none() {
            self.approximate_sort = match text_at(&answer, APPROXIMATE_SORT_FIELD) {
                Some(field) => Some(field.clone()),
                None => None,
            };
        }
        self.nodes_contacted = self.nodes_contacted + 1;
        if let Some(took) = number_at(&answer, "took_ms") {
            self.max_took_ms = match self.max_took_ms {
                Some(longest) => if longest >= took {
                    Some(longest)
                } else {
                    Some(took)
                },
                None => Some(took),
            };
        }
        let ghost before = self.blocks@;
        if let Some(block) = take_hits(answer) {
            self.blocks.push(block);
            assert(hits::block_models(self.blocks@) =~= hits::block_models(before).push(json::models(block@)));
        }
    }
}

/// Takes the hits out of an answer.
pub fn take_hits(answer: Json) -> (hits: Option<Vec<Json>>)
    ensures
        match hits {
            Some(block) => items_of(answer@.get("hits"@)) == Some(json::models(block@)),
            None => items_of(answer@.get("hits"@)) is None,
        },
{
    broadcast use json::lemma_model_by_parts;

    match answer {
        Json::Object(held_entries) => {
            let mut entries: Vec<(String, Json)> = held_entries;
            match take_entry(&mut entries, "hits") {
                Some(found) => match found {
                    Json::Array(block) => Some(block),
                    _ => None,
                },
                None => None,
            }
        },
        _ => None,
    }
}

/// Puts together what the nodes of a cluster answered to a search.
pub fn merge_answers(answers: Vec<Option<Json>>) -> (stats: BroadcastStats)
    requires
        merged(answer_models(answers@)).shards <= u64::MAX,
        merged(answer_models(answers@)).total_hits <= u64::MAX,
    ensures
        stats.is(merged(answer_models(answers@))),
{
    let mut stats = BroadcastStats {
        blocks: Vec::new(),
        total_shards_queried: 0,
        nodes_contacted: 0,
        max_took_ms: None,
        total_hits_sum: 0,
        discarded: Vec::new(),
        approximate_sort: None,
        failed: 0,
    };
    let ghost all = answer_models(answers@);
    let count: usize = answers.len();
    assert(hits::block_models(stats.blocks@) =~= Seq::empty());
    assert(text::texts(stats.discarded@) =~= Seq::empty());
    for answer in it: answers
        invariant
            it.seq() == answers@,
            all == answer_models(answers@),
            count == all.len(),
            stats.is(merged(all.take(it.index() as int))),
            merged(all).shards <= u64::MAX,
            merged(all).total_hits <= u64::MAX,
    {
        let ghost place = it.index() as int;
        assert(answer == answers@[place]);
        proof {
            assert(all.take(place + 1).drop_last() =~= all.take(place));
            assert(all.take(place + 1).last() == all[place]);
            lemma_merge_grows(all, place);
            lemma_merge_grows(all, place + 1);
        }
        match answer {
            Some(value) => {
                stats.push_hits(value, Ghost(merged(all.take(place))));
            },
            None => {
                stats.failed = stats.failed + 1;
            },
        }
    }
    assert(all.take(all.len() as int) =~= all);
    stats
}

/// What is known of the first nodes is at most what is known of all.
proof fn lemma_merge_grows(answers: Seq<Option<JsonV>>, count: int)
    requires
        0 <= count <= answers.len(),
    ensures
        merged(answers.take(count)).shards <= merged(answers).shards,
        merged(answers.take(count)).total_hits <= merged(answers).total_hits,
        merged(answers.take(count)).contacted + merged(answers.take(count)).failed == count,
    decreases answers.len(), count,
{
    if count < answers.len() {
        let shorter = answers.drop_last();
        lemma_merge_grows(shorter, count);
        assert(shorter.take(count) =~= answers.take(count));
    } else {
        assert(answers.take(count) =~= answers);
        if count > 0 {
            lemma_merge_grows(answers, count - 1);
            assert(answers.drop_last() =~= answers.take(count - 1));
        }
    }
}

/// How many shards and nodes were asked, answered and failed.
pub open spec fn cluster_stats(shards: nat, failed: nat, contacted: nat) -> JsonV {
    JsonV::Object(
        seq![
            (
                "shards"@,
                JsonV::Object(
                    seq![
                        ("total"@, search::count_value(shards)),
                        (
                            "responded"@,
                            search::count_value(
                                if shards >= failed {
                                    (shards - failed) as nat
                                } else {
                                    0
                                },
                            ),
                        ),
                        ("failed"@, search::count_value(failed)),
                    ],
                ),
            ),
            ("nodes"@, JsonV::Object(seq![("contacted"@, search::count_value(contacted))])),
        ],
    )
}

/// How many shards and nodes were asked, answered and failed.
pub fn write_cluster_stats(shards: u64, failed: u64, contacted: u64) -> (stats: Json)
    ensures
        stats@ == cluster_stats(shards as nat, failed as nat, contacted as nat),
{
    let responded: u64 = if shards >= failed {
        shards - failed
    } else {
        0
    };
    let counts: Vec<(String, Json)> = vec![
        entry("total", Json::unsigned(shards)),
        entry("responded", Json::unsigned(responded)),
        entry("failed", Json::unsigned(failed)),
    ];
    let nodes: Vec<(String, Json)> = vec![entry("contacted", Json::unsigned(contacted))];
    proof {
        assert(json::entry_models(counts@) =~= seq![
            ("total"@, search::count_value(shards as nat)),
            ("responded"@, search::count_value(responded as nat)),
            ("failed"@, search::count_value(failed as nat)),
        ]);
        assert(json::entry_models(nodes@) =~= seq![("contacted"@, search::count_value(contacted as nat))]);
    }
    let ghost shard_part = JsonV::Object(json::entry_models(counts@));
    let ghost node_part = JsonV::Object(json::entry_models(nodes@));
    let parts: Vec<(String, Json)> = vec![
        entry("shards", Json::object(counts)),
        entry("nodes", Json::object(nodes)),
    ];
    assert(json::entry_models(parts@) =~= seq![("shards"@, shard_part), ("nodes"@, node_part)]);
    Json::object(parts)
}

/// The body of a merged answer.
pub open spec fn merged_body(
    page: Seq<JsonV>,
    window: SearchWindow,
    took_ms: u64,
    known: MergeV,
) -> JsonV {
    JsonV::Object(
        seq![
            ("hits"@, JsonV::Array(page)),
            ("hits_returned"@, search::count_value(page.len())),
            ("total_hits"@, search::count_value(known.total_hits)),
            ("limit"@, search::count_value(window.limit as nat)),
            ("offset"@, search::count_value(window.offset as nat)),
            ("took_ms"@, search::count_value(took_ms as nat)),
            ("stats"@, cluster_stats(known.shards, known.failed, known.contacted)),
        ],
    )
}

/// Whether a value is the merged answer of the nodes of a cluster.
pub open spec fn is_merged_answer(
    answer: JsonV,
    known: MergeV,
    sort: Option<SortOrder>,
    window: SearchWindow,
    elapsed_ms: u64,
    page: Seq<JsonV>,
    order: Seq<int>,
) -> bool {
    &&& hits::is_merge_page(page, known.blocks.flatten(), sort, window, order)
    &&& answer == errors::with_approximate_sort(
        errors::with_texts(
            merged_body(
                page,
                window,
                match known.took_ms {
                    Some(took) => took,
                    None => elapsed_ms,
                },
                known,
            ),
            DISCARDED_CLAUSES_FIELD@,
            errors::distinct_in_order(known.notes),
        ),
        known.approximate,
    )
}

/// Answers a search from the answers of the nodes of a cluster: this node first, then each peer in
/// the order in which it was asked. A node that failed or did not answer in time gives none.
///
/// The blocks are merged into one order, ties going to the node that comes first, and the window is
/// taken once.
pub fn answer_broadcast_search(
    answers: Vec<Option<Json>>,
    sort: Option<&SortSpec>,
    window: SearchWindow,
    elapsed_ms: u64,
) -> (answer: Json)
    requires
        merged(answer_models(answers@)).shards <= u64::MAX,
        merged(answer_models(answers@)).total_hits <= u64::MAX,
    ensures
        exists|page: Seq<JsonV>, order: Seq<int>| #[trigger]
            is_merged_answer(
                answer@,
                merged(answer_models(answers@)),
                hits::direction(sort),
                window,
                elapsed_ms,
                page,
                order,
            ),
{
    let ghost known = merged(answer_models(answers@));
    let stats: BroadcastStats = merge_answers(answers);
    let ghost blocks = stats.blocks@;
    let page: Vec<Json> = order_hit_blocks(stats.blocks, sort, window);
    let ghost shown_page = json::models(page@);
    let ghost order = choose|order: Seq<int>| #[trigger]
        hits::is_merge_page(shown_page, hits::lined_up(blocks), hits::direction(sort), window, order);
    let count: usize = page.len();
    let took_ms: u64 = match stats.max_took_ms {
        Some(took) => took,
        None => elapsed_ms,
    };
    let parts: Vec<(String, Json)> = vec![
        entry("hits", Json::list(page)),
        entry("hits_returned", Json::count(count)),
        entry("total_hits", Json::unsigned(stats.total_hits_sum)),
        entry("limit", Json::count(window.limit)),
        entry("offset", Json::count(window.offset)),
        entry("took_ms", Json::unsigned(took_ms)),
        entry(
            "stats",
            write_cluster_stats(stats.total_shards_queried, stats.failed, stats.nodes_contacted),
        ),
    ];
    proof {
        assert(json::entry_models(parts@) =~= seq![
            ("hits"@, JsonV::Array(shown_page)),
            ("hits_returned"@, search::count_value(shown_page.len())),
            ("total_hits"@, search::count_value(known.total_hits)),
            ("limit"@, search::count_value(window.limit as nat)),
            ("offset"@, search::count_value(window.offset as nat)),
            ("took_ms"@, search::count_value(took_ms as nat)),
            ("stats"@, cluster_stats(known.shards, known.failed, known.contacted)),
        ]);
    }
    let mut answer: Json = Json::object(parts);
    attach_discarded(&mut answer, stats.discarded);
    attach_approximate_sort(&mut answer, stats.approximate_sort);
    assert(is_merged_answer(
        answer@,
        known,
        hits::direction(sort),
        window,
        elapsed_ms,
        shown_page,
        order,
    ));
    answer
}

/// Puts answers back into the order in which the peers were asked, whatever order they came in.
pub fn in_dispatch_order<T>(answers: Vec<(usize, T)>) -> (ordered: Vec<T>)
    ensures
        exists|order: Seq<int>| #[trigger] is_dispatch_order(answers@, ordered@, order),
{
    let ghost all = answers@;
    let mut keys: Vec<(u64, u128)> = Vec::new();
    let mut values: Vec<T> = Vec::new();
    for answer in it: answers
        invariant
            it.seq() == all,
            keys@.len() == it.index(),
            values@.len() == it.index(),
            forall|k: int| 0 <= k < it.index() ==> #[trigger] keys@[k] == (all[k].0 as u64, 0u128),
            forall|k: int| 0 <= k < it.index() ==> #[trigger] values@[k] == all[k].1,
    {
        assert(answer == all[it.index() as int]);
        let (ordinal, value) = answer;
        keys.push((ordinal as u64, 0u128));
        values.push(value);
    }
    let list: Vec<usize> = places_by_key(&keys);
    let ghost given = values@;
    let ordered: Vec<T> = rearranged(values, &list);
    proof {
        assert(keys@ =~= dispatch_keys(all));
        assert(ordered@ =~= order::at_places(all, order::places(list@)).map_values(|pair: (usize, T)| pair.1))
            by {
            assert forall|i: int| 0 <= i < list@.len() implies #[trigger] ordered@[i] == all[list@[i] as int].1
                by {
                assert(order::places(list@)[i] == list@[i]);
            }
        }
        assert(is_dispatch_order(all, ordered@, order::places(list@)));
    }
    ordered
}

/// The ordinals of answers, as keys to order them by.
pub open spec fn dispatch_keys<T>(answers: Seq<(usize, T)>) -> Seq<(u64, u128)> {
    answers.map_values(|answer: (usize, T)| (answer.0 as u64, 0u128))
}

/// Whether answers are the given ones in the order of their ordinals.
pub open spec fn is_dispatch_order<T>(
    answers: Seq<(usize, T)>,
    ordered: Seq<T>,
    order: Seq<int>,
) -> bool {
    &&& order::is_key_order(dispatch_keys(answers), order)
    &&& ordered == order::at_places(answers, order).map_values(|answer: (usize, T)| answer.1)
}

/// Answers with each thing mapped.
pub open spec fn mapped_answers<T, U>(answers: Seq<(usize, T)>, f: spec_fn(T) -> U) -> Seq<(usize, U)> {
    answers.map_values(|answer: (usize, T)| (answer.0, f(answer.1)))
}

/// Answers stand in their order whatever is read of them.
pub proof fn lemma_dispatch_order_maps<T, U>(
    answers: Seq<(usize, T)>,
    ordered: Seq<T>,
    order: Seq<int>,
    f: spec_fn(T) -> U,
)
    requires
        is_dispatch_order(answers, ordered, order),
    ensures
        is_dispatch_order(mapped_answers(answers, f), ordered.map_values(f), order),
{
    assert(dispatch_keys(mapped_answers(answers, f)) =~= dispatch_keys(answers));
    assert(ordered.map_values(f) =~= order::at_places(mapped_answers(answers, f), order).map_values(
        |answer: (usize, U)| answer.1,
    )) by {
        assert forall|i: int| 0 <= i < order.len() implies #[trigger] ordered.map_values(f)[i] == f(
            answers[order[i]].1,
        ) by {
            assert(0 <= order[i] < answers.len());
        }
    }
}

/// Answers come to the same order, in whatever order they arrive, where each peer was asked once.
pub proof fn law_peers_may_answer_in_any_order<T>(
    answers: Seq<(usize, T)>,
    ordered: Seq<T>,
    order: Seq<int>,
    arrival: Seq<int>,
    arrived_ordered: Seq<T>,
    arrived_order: Seq<int>,
)
    requires
        forall|i: int, j: int|
            0 <= i < j < answers.len() ==> (#[trigger] answers[i]).0 != (#[trigger] answers[j]).0,
        order::names_each_once(arrival, answers.len()),
        is_dispatch_order(answers, ordered, order),
        is_dispatch_order(order::at_places(answers, arrival), arrived_ordered, arrived_order),
    ensures
        arrived_ordered == ordered,
{
    let keys = dispatch_keys(answers);
    assert(keys.no_duplicates()) by {
        assert forall|i: int, j: int| 0 <= i < keys.len() && 0 <= j < keys.len() && i != j implies keys[i]
            != keys[j] by {
            if i < j {
                assert(answers[i].0 != answers[j].0);
            } else {
                assert(answers[j].0 != answers[i].0);
            }
        }
    }
    assert(dispatch_keys(order::at_places(answers, arrival)) =~= order::at_places(keys, arrival));
    order::law_keys_settle_any_arrival(keys, answers, order, arrival, arrived_order);
}

// ---------------------------------------------------------------------------
// Merging writes, and everything else
// ---------------------------------------------------------------------------

/// How many items some answers say were written.
pub open spec fn items_written(answers: Seq<JsonV>) -> nat
    decreases answers.len(),
{
    if answers.len() == 0 {
        0
    } else {
        items_written(answers.drop_last()) + or_zero(
            number_of(answers.last().get("items_written"@)),
        )
    }
}

/// The errors that some answers report, in the order of the answers.
pub open spec fn errors_reported(answers: Seq<JsonV>) -> Seq<JsonV>
    decreases answers.len(),
{
    if answers.len() == 0 {
        Seq::empty()
    } else {
        errors_reported(answers.drop_last()) + match items_of(answers.last().get("errors"@)) {
            Some(items) => items,
            None => Seq::empty(),
        }
    }
}

/// What is answered to a write that was sent to every node.
pub open spec fn write_outcome(answers: Seq<JsonV>, failed: nat) -> JsonV {
    JsonV::Object(
        seq![
            ("success"@, JsonV::Bool(failed == 0 && errors_reported(answers).len() == 0)),
            ("nodes_contacted"@, search::count_value(answers.len() + failed)),
            ("nodes_succeeded"@, search::count_value(answers.len())),
            ("nodes_failed"@, search::count_value(failed)),
            ("items_written"@, search::count_value(items_written(answers))),
            ("errors"@, JsonV::Array(errors_reported(answers))),
        ],
    )
}

/// Adding up what the first answers say was written stays below what all of them say.
proof fn lemma_written_grows(answers: Seq<JsonV>, count: int)
    requires
        0 <= count <= answers.len(),
    ensures
        items_written(answers.take(count)) <= items_written(answers),
    decreases answers.len(),
{
    if count < answers.len() {
        let shorter = answers.drop_last();
        lemma_written_grows(shorter, count);
        assert(shorter.take(count) =~= answers.take(count));
    } else {
        assert(answers.take(count) =~= answers);
    }
}

/// Adds copies of values to a list.
pub fn append_copies(list: &mut Vec<Json>, items: &Vec<Json>)
    ensures
        json::models(final(list)@) == json::models(old(list)@) + json::models(items@),
{
    let ghost before = json::models(list@);
    let ghost all = json::models(items@);
    let mut i: usize = 0;
    assert(before + all.take(0) =~= before);
    while i < items.len()
        invariant
            i <= items.len(),
            all == json::models(items@),
            json::models(list@) == before + all.take(i as int),
        decreases items.len() - i,
    {
        let ghost so_far = list@;
        list.push(items[i].clone());
        i += 1;
        assert(json::models(list@) =~= json::models(so_far).push(all[i - 1]));
        assert(before + all.take(i as int) =~= (before + all.take(i - 1)).push(all[i - 1]));
    }
    assert(all.take(items.len() as int) =~= all);
}

/// Answers a write that was sent to every node, from the answers that came and the number of nodes
/// that failed.
pub fn answer_broadcast_write(answers: &Vec<Json>, failed: u64) -> (answer: Json)
    requires
        items_written(json::models(answers@)) <= u64::MAX,
        answers@.len() + failed <= u64::MAX,
    ensures
        answer@ == write_outcome(json::models(answers@), failed as nat),
{
    let ghost all = json::models(answers@);
    let mut written: u64 = 0;
    let mut errors: Vec<Json> = Vec::new();
    let mut i: usize = 0;
    assert(json::models(errors@) =~= errors_reported(all.take(0)));
    while i < answers.len()
        invariant
            i <= answers.len(),
            all == json::models(answers@),
            items_written(all) <= u64::MAX,
            written == items_written(all.take(i as int)),
            json::models(errors@) == errors_reported(all.take(i as int)),
        decreases answers.len() - i,
    {
        proof {
            assert(all.take(i + 1).drop_last() =~= all.take(i as int));
            assert(all.take(i + 1).last() == answers@[i as int]@);
            lemma_written_grows(all, i + 1);
        }
        if let Some(n) = number_at(&answers[i], "items_written") {
            written = written + n;
        }
        assert(json::models(errors@) + Seq::<JsonV>::empty() =~= json::models(errors@));
        if let Some(value) = answers[i].get("errors") {
            if let Some(items) = value.as_array() {
                append_copies(&mut errors, items);
            }
        }
        i += 1;
    }
    assert(all.take(answers.len() as int) =~= all);
    let succeeded: u64 = answers.len() as u64;
    let ghost reported = json::models(errors@);
    let success: bool = failed == 0 && errors.len() == 0;
    let parts: Vec<(String, Json)> = vec![
        entry("success", Json::Bool(success)),
        entry("nodes_contacted", Json::unsigned(succeeded + failed)),
        entry("nodes_succeeded", Json::unsigned(succeeded)),
        entry("nodes_failed", Json::unsigned(failed)),
        entry("items_written", Json::unsigned(written)),
        entry("errors", Json::list(errors)),
    ];
    proof {
        json::lemma_model_by_parts(Json::Bool(success));
        assert(json::entry_models(parts@) =~= seq![
            ("success"@, JsonV::Bool(failed == 0 && reported.len() == 0)),
            ("nodes_contacted"@, search::count_value((succeeded + failed) as nat)),
            ("nodes_succeeded"@, search::count_value(succeeded as nat)),
            ("nodes_failed"@, search::count_value(failed as nat)),
            ("items_written"@, search::count_value(written as nat)),
            ("errors"@, JsonV::Array(reported)),
        ]);
    }
    Json::object(parts)
}

/// Answers any other operation that was sent to every node: with the first answer that came, in the
/// order in which the nodes were asked.
pub fn answer_broadcast_other(answers: Vec<Json>) -> (answer: Result<Json, OrchestratorError>)
    ensures
        match answer {
            Ok(value) => answers@.len() > 0 && value@ == answers@[0]@,
            Err(error) => answers@.len() == 0 && error@ == ErrorV::Io(
                IoKind::Other,
                "broadcast failed: no successful responses"@,
            ),
        },
{
    if answers.len() > 0 {
        Ok(answers[0].clone())
    } else {
        Err(OrchestratorError::other("broadcast failed: no successful responses"))
    }
}

/// The answers that came, in the order in which the nodes were asked, and how many did not.
pub open spec fn answers_that_came(answers: Seq<Option<JsonV>>) -> (Seq<JsonV>, nat)
    decreases answers.len(),
{
    if answers.len() == 0 {
        (Seq::empty(), 0)
    } else {
        let (came, failed) = answers_that_came(answers.drop_last());
        match answers.last() {
            Some(value) => (came.push(value), failed),
            None => (came, failed + 1),
        }
    }
}

/// Parts the answers that came from those that did not.
pub fn part_answers(answers: Vec<Option<Json>>) -> (parted: (Vec<Json>, u64))
    ensures
        json::models(parted.0@) == answers_that_came(answer_models(answers@)).0,
        parted.1 == answers_that_came(answer_models(answers@)).1,
        parted.0@.len() + parted.1 == answers@.len(),
{
    let ghost all = answer_models(answers@);
    let count: usize = answers.len();
    let mut came: Vec<Json> = Vec::new();
    let mut failed: u64 = 0;
    assert(json::models(came@) =~= Seq::empty());
    for answer in it: answers
        invariant
            it.seq() == answers@,
            count == answers@.len(),
            all == answer_models(answers@),
            json::models(came@) == answers_that_came(all.take(it.index() as int)).0,
            failed == answers_that_came(all.take(it.index() as int)).1,
            came@.len() + failed == it.index(),
    {
        let ghost place = it.index() as int;
        assert(answer == answers@[place]);
        assert(all.take(place + 1).drop_last() =~= all.take(place));
        assert(all.take(place + 1).last() == all[place]);
        match answer {
            Some(value) => {
                let ghost before = came@;
                came.push(value);
                assert(json::models(came@) =~= json::models(before).push(value@));
            },
            None => {
                failed = failed + 1;
            },
        }
    }
    assert(all.take(all.len() as int) =~= all);
    (came, failed)
}

// ---------------------------------------------------------------------------
// One peer
// ---------------------------------------------------------------------------

/// How many times a peer is tried: as often as the configuration says, once at least.
pub fn remote_attempts(configured: usize) -> (attempts: usize)
    ensures
        attempts == (if configured == 0 {
            1
        } else {
            configured
        }),
{
    if configured == 0 {
        1
    } else {
        configured
    }
}

/// What is said of an operation that did not reach a peer.
pub open spec fn given_up(attempts: nat, last: Seq<char>) -> Seq<char> {
    "remote routing failed after "@ + text::decimal(attempts) + " attempts: "@ + last
}

/// What is said of an operation that did not reach a peer.
fn giving_up_reason(attempts: usize, last: &str) -> (reason: String)
    ensures
        reason@ == given_up(attempts as nat, last@),
{
    let mut reason: String = String::from_str("remote routing failed after ");
    reason.append(count_text(attempts).as_str());
    reason.append(" attempts: ");
    reason.append(last);
    reason
}

/// What is done once a peer was tried.
#[derive(Debug)]
pub enum RemoteStep {
    /// The peer's answer is the answer.
    Answer(Json),
    /// The peer is tried again, for this attempt.
    Retry { attempt: usize },
    /// The peer is given up for this reason, and this is the answer.
    GiveUp { reason: String, error: OrchestratorError },
}

/// What is done once a peer was tried for an attempt, counted from one: its first answer is taken, and
/// it is given up once every attempt has failed, with what went wrong last.
pub fn after_attempt(attempt: usize, attempts: usize, outcome: Result<Json, OrchestratorError>) -> (step:
    RemoteStep)
    ensures
        match outcome {
            Ok(answer) => step == RemoteStep::Answer(answer),
            Err(last) => if attempt < attempts {
                step == (RemoteStep::Retry { attempt: (attempt + 1) as usize })
            } else {
                step matches RemoteStep::GiveUp { reason, error } && reason@ == given_up(
                    attempts as nat,
                    errors::error_text(last@),
                ) && error@ == ErrorV::Io(IoKind::Other, reason@)
            },
        },
{
    match outcome {
        Ok(answer) => RemoteStep::Answer(answer),
        Err(last) => {
            if attempt < attempts {
                return RemoteStep::Retry { attempt: attempt + 1 };
            }
            let reason: String = giving_up_reason(attempts, last.message().as_str());
            let error: OrchestratorError = OrchestratorError::other(reason.as_str());
            RemoteStep::GiveUp { reason, error }
        },
    }
}

/// Why a peer could not be reached at all.
pub fn remote_not_found(node_id: u128) -> (error: OrchestratorError)
    ensures
        error@ == ErrorV::Io(
            IoKind::Other,
            "remote orchestrator for node "@ + text::uuid_chars(node_id) + " not found"@,
        ),
{
    let mut reason: String = String::from_str("remote orchestrator for node ");
    reason.append(uuid_text(node_id).as_str());
    reason.append(" not found");
    OrchestratorError::other(reason.as_str())
}

} // verus!
