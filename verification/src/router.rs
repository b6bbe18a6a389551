//! Which way an operation goes, and how its answer leaves.

use vstd::prelude::*;
use vstd::string::*;
use crate::{broadcast, errors, hits, json, routing, search, text, validation};
use crate::errors::{ErrorV, IoKind, OrchestratorError};
use crate::hits::{SearchWindow, strip_sort_keys};
use crate::json::{Json, JsonV, entry, json_text, take_entry};
use crate::ops::{ClientOp, WriteRequest};
use crate::placement::ShardPlacement;
use crate::routing::effective_routing_key;
use crate::schema::IndexSchema;
use crate::text::{join_texts, uuid_text};
use crate::validation::{SchemaValidationResult, StoreRefusals, VerdictV, validate_document};

verus! {

// ---------------------------------------------------------------------------
// Kinds of operations
// ---------------------------------------------------------------------------

/// Whether an operation changes data.
pub open spec fn writes(op: ClientOp) -> bool {
    op is Write || op is BulkWrite || op is Delete || op is BulkDelete || op is DeleteIndex
}

/// Whether an operation changes data.
pub fn is_write_operation(op: &ClientOp) -> (write: bool)
    ensures
        write == writes(*op),
{
    match op {
        ClientOp::Write { .. } => true,
        ClientOp::BulkWrite { .. } => true,
        ClientOp::Delete { .. } => true,
        ClientOp::BulkDelete { .. } => true,
        ClientOp::DeleteIndex { .. } => true,
        _ => false,
    }
}

/// Whether an operation searches.
pub open spec fn searches(op: ClientOp) -> bool {
    op is Search || op is Stream
}

/// Whether an operation searches.
pub fn is_search(op: &ClientOp) -> (search: bool)
    ensures
        search == searches(*op),
{
    match op {
        ClientOp::Search { .. } => true,
        ClientOp::Stream { .. } => true,
        _ => false,
    }
}

/// Whether an operation is done on the node it reaches, wherever the data lies.
pub open spec fn stays_here(op: ClientOp) -> bool {
    op is GetConfig || op is CreateConfig || op is UpdateSchema || op is ValidateQuery
}

/// Whether an operation is done on the node it reaches, wherever the data lies.
pub fn is_metadata_operation(op: &ClientOp) -> (metadata: bool)
    ensures
        metadata == stays_here(*op),
{
    match op {
        ClientOp::GetConfig { .. } => true,
        ClientOp::CreateConfig { .. } => true,
        ClientOp::UpdateSchema { .. } => true,
        ClientOp::ValidateQuery { .. } => true,
        _ => false,
    }
}

/// Whether the worker pool can take an operation. The others need what only the node itself owns.
pub open spec fn pool_takes(op: ClientOp) -> bool {
    op is Write || op is Delete || op is Search || op is Stream
}

/// Whether the worker pool can take an operation.
pub fn is_worker_eligible(op: &ClientOp) -> (eligible: bool)
    ensures
        eligible == pool_takes(*op),
{
    match op {
        ClientOp::Write { .. } => true,
        ClientOp::Delete { .. } => true,
        ClientOp::Search { .. } => true,
        ClientOp::Stream { .. } => true,
        _ => false,
    }
}

/// The key whose shard an operation prefers a worker by. A search asks every shard and prefers none.
pub open spec fn preferred_key(op: ClientOp, enabled: bool) -> Option<Seq<char>> {
    if enabled {
        match op {
            ClientOp::Write { index: _, id: _, routing_key, doc: _ } => errors::opt_text(routing_key),
            ClientOp::Delete { index: _, id: _, routing_key } => errors::opt_text(routing_key),
            _ => None,
        }
    } else {
        None
    }
}

/// The key whose shard an operation prefers a worker by.
pub fn affinity_key(op: &ClientOp, enabled: bool) -> (key: Option<&String>)
    ensures
        match key {
            Some(k) => preferred_key(*op, enabled) == Some(k@),
            None => preferred_key(*op, enabled) is None,
        },
{
    if !enabled {
        return None;
    }
    match op {
        ClientOp::Write { routing_key, .. } => match routing_key {
            Some(key) => Some(key),
            None => None,
        },
        ClientOp::Delete { routing_key, .. } => match routing_key {
            Some(key) => Some(key),
            None => None,
        },
        _ => None,
    }
}

/// The page that a search on one node answers with. A stream carries the whole result, so it skips
/// nothing.
pub open spec fn page_of(op: ClientOp, default_limit: usize) -> SearchWindow {
    match op {
        ClientOp::Stream { index: _, query: _, limit, fields: _, sort: _ } => SearchWindow {
            offset: 0,
            limit: match limit {
                Some(n) => n,
                None => default_limit,
            },
        },
        _ => broadcast::page_asked(op, default_limit),
    }
}

/// The page that a search on one node answers with.
pub fn local_window(op: &ClientOp, default_limit: usize) -> (window: SearchWindow)
    ensures
        window == page_of(*op, default_limit),
{
    match op {
        ClientOp::Stream { limit, .. } => {
            let wanted: usize = match limit {
                Some(n) => *n,
                None => default_limit,
            };
            SearchWindow::first(wanted)
        },
        _ => crate::broadcast::broadcast_window(op, default_limit),
    }
}

// ---------------------------------------------------------------------------
// The way
// ---------------------------------------------------------------------------

/// Where an operation is to be done.
#[derive(Debug, PartialEq, Eq)]
pub enum RoutingDecision {
    /// On this node.
    Local,
    /// On every node.
    Broadcast,
    /// On one other node.
    Remote { node_id: u128, peer_addr: String },
}

/// Whether a key is known to be this node's own, given the shard that owns it.
pub open spec fn owned_here(has_key: bool, owner: Option<u128>, live: Set<u128>) -> bool {
    has_key && owner is Some && live.contains(owner->0)
}

/// Answers that this node owns a key, from what is already known, or leaves the question open.
///
/// Only a key whose shard serves on this node is answered here. An operation without one asks every
/// node, and how many there are is not known here.
pub fn resolve_local(has_key: bool, owner: Option<u128>, placement: &ShardPlacement) -> (decision:
    Option<RoutingDecision>)
    ensures
        decision == (if owned_here(has_key, owner, placement.live()) {
            Some(RoutingDecision::Local)
        } else {
            None
        }),
{
    match owner {
        Some(shard) => if has_key && placement.is_local(shard) {
            Some(RoutingDecision::Local)
        } else {
            None
        },
        None => None,
    }
}

/// What is done with an operation.
#[derive(Debug, PartialEq, Eq)]
pub enum RouteStep {
    /// It is done on this node.
    HandleHere,
    /// It is sent to every node, and the answers are taken as they come.
    BroadcastStreaming,
    /// It is sent to every node.
    Broadcast,
    /// It is sent to one other node.
    Forward { node_id: u128, peer_addr: String },
}

/// What is done with an operation that is to be done there.
pub open spec fn step_for(op: ClientOp, decision: RoutingDecision, streaming: bool) -> Option<
    RouteStep,
> {
    match decision {
        RoutingDecision::Local => Some(RouteStep::HandleHere),
        RoutingDecision::Broadcast => if writes(op) {
            None
        } else if streaming && searches(op) {
            Some(RouteStep::BroadcastStreaming)
        } else {
            Some(RouteStep::Broadcast)
        },
        RoutingDecision::Remote { node_id, peer_addr } => Some(
            RouteStep::Forward { node_id, peer_addr },
        ),
    }
}

/// Decides what is done with an operation. One that changes data is never sent to every node: it
/// belongs to one shard, and would otherwise be written more than once.
pub fn plan_route(op: &ClientOp, decision: RoutingDecision, streaming: bool) -> (step: Result<
    RouteStep,
    OrchestratorError,
>)
    ensures
        match step {
            Ok(s) => step_for(*op, decision, streaming) == Some(s),
            Err(error) => step_for(*op, decision, streaming) is None && error@ == ErrorV::Io(
                IoKind::NotFound,
                "Write operation cannot be broadcast - routing failed"@,
            ),
        },
{
    match decision {
        RoutingDecision::Local => Ok(RouteStep::HandleHere),
        RoutingDecision::Broadcast => {
            if is_write_operation(op) {
                Err(
                    OrchestratorError::not_found(
                        "Write operation cannot be broadcast - routing failed",
                    ),
                )
            } else if streaming && is_search(op) {
                Ok(RouteStep::BroadcastStreaming)
            } else {
                Ok(RouteStep::Broadcast)
            }
        },
        RoutingDecision::Remote { node_id, peer_addr } => Ok(
            RouteStep::Forward { node_id, peer_addr },
        ),
    }
}

/// A write is never sent to every node, whatever is decided and however the node is configured.
pub proof fn law_a_write_is_never_broadcast(
    op: ClientOp,
    decision: RoutingDecision,
    streaming: bool,
)
    requires
        writes(op),
    ensures
        step_for(op, decision, streaming) != Some(RouteStep::Broadcast),
        step_for(op, decision, streaming) != Some(RouteStep::BroadcastStreaming),
{
}

/// Why an operation could not be routed.
pub fn routing_failure(reason: &str) -> (error: OrchestratorError)
    ensures
        error@ == ErrorV::Io(IoKind::Other, "routing failed: "@ + reason@),
{
    let mut message: String = String::from_str("routing failed: ");
    message.append(reason);
    OrchestratorError::other(message.as_str())
}

/// Takes the sort keys off an answer that leaves for a caller. A caller that merges answers itself
/// keeps them.
pub fn finish_answer(op_searches: bool, keep_sort_keys: bool, answer: &mut Json)
    ensures
        final(answer)@ == (if op_searches && !keep_sort_keys {
            hits::stripped(old(answer)@)
        } else {
            old(answer)@
        }),
{
    if op_searches && !keep_sort_keys {
        strip_sort_keys(answer);
    }
}

// ---------------------------------------------------------------------------
// One document
// ---------------------------------------------------------------------------

/// What is done with a write of one document.
#[derive(Debug, PartialEq, Eq)]
pub enum WriteStep {
    /// It is written, routed by this key.
    Write { routing_key: Option<String> },
    /// The schema has to grow first.
    NeedsGrowth,
}

/// Judges a write of one document against the schema of its index.
///
/// Where the schema covers the document it is written; where it does not, or where there is none
/// yet, the schema has to grow first. A document that the schema cannot hold is refused.
pub fn judge_write(
    has_shards: bool,
    schema: &IndexSchema,
    id: &str,
    routing_key: Option<String>,
    doc: &Json,
    refusals: &StoreRefusals,
) -> (step: Result<WriteStep, OrchestratorError>)
    ensures
        !has_shards ==> (step matches Err(error) && error@ == ErrorV::Io(
            IoKind::NotFound,
            "No shards"@,
        )),
        has_shards && schema@.fields.len() == 0 ==> step matches Ok(WriteStep::NeedsGrowth),
        has_shards && schema@.fields.len() > 0 ==> exists|verdict: VerdictV| #[trigger]
            validation::is_verdict(verdict, id@, doc@, schema@, refusals@) && match verdict.error {
                Some(reason) => step matches Err(error) && error@ == ErrorV::Io(
                    IoKind::InvalidData,
                    reason,
                ),
                None => if verdict.needs_evolution {
                    step matches Ok(WriteStep::NeedsGrowth)
                } else {
                    step matches Ok(WriteStep::Write { routing_key: key }) && errors::opt_text(key) == Some(
                        routing::write_key(schema@, id@, errors::opt_text(routing_key), doc@),
                    )
                },
            },
{
    if !has_shards {
        return Err(OrchestratorError::not_found("No shards"));
    }
    if schema.fields.len() == 0 {
        assert(schema@.fields.len() == 0);
        return Ok(WriteStep::NeedsGrowth);
    }
    let verdict: SchemaValidationResult = validate_document(id, doc, schema, refusals);
    let ghost judged = verdict@;
    assert(validation::is_verdict(judged, id@, doc@, schema@, refusals@));
    match verdict.validation_error {
        Some(reason) => Err(OrchestratorError::io(IoKind::InvalidData, reason)),
        None => {
            if verdict.needs_evolution {
                Ok(WriteStep::NeedsGrowth)
            } else {
                Ok(
                    WriteStep::Write {
                        routing_key: effective_routing_key(schema, id, routing_key, doc),
                    },
                )
            }
        },
    }
}

/// The reasons alone of some refusals.
pub open spec fn bare_reasons(refused: Seq<(usize, String)>) -> Seq<Seq<char>> {
    refused.map_values(|r: (usize, String)| r.1@)
}

/// Why a document was refused once the schema had grown for it, if it was. It is the only one, so
/// its place in the batch adds nothing.
pub fn growth_refusal(refused: &Vec<(usize, String)>) -> (refusal: Option<OrchestratorError>)
    ensures
        match refusal {
            None => refused@.len() == 0,
            Some(error) => refused@.len() > 0 && error@ == ErrorV::Io(
                IoKind::InvalidData,
                text::joined(bare_reasons(refused@), "; "@),
            ),
        },
{
    if refused.len() == 0 {
        return None;
    }
    let ghost all = bare_reasons(refused@);
    let mut reasons: Vec<String> = Vec::new();
    let mut i: usize = 0;
    assert(text::texts(reasons@) =~= all.take(0));
    while i < refused.len()
        invariant
            i <= refused.len(),
            all == bare_reasons(refused@),
            text::texts(reasons@) == all.take(i as int),
        decreases refused.len() - i,
    {
        let ghost before = reasons@;
        reasons.push(refused[i].1.clone());
        i += 1;
        assert(text::texts(reasons@) =~= text::texts(before).push(all[i - 1]));
        assert(all.take(i as int) =~= all.take(i - 1).push(all[i - 1]));
    }
    assert(all.take(refused.len() as int) =~= all);
    Some(OrchestratorError::io(IoKind::InvalidData, join_texts(&reasons, "; ")))
}

/// What a shard is asked to write.
pub fn write_request(index: &str, id: &str, routing_key: Option<String>, doc: Json) -> (request:
    WriteRequest)
    ensures
        request.index@ == index@,
        request.id@ == id@,
        request.routing_key@ == (match errors::opt_text(routing_key) {
            Some(key) => key,
            None => Seq::empty(),
        }),
        request.doc == doc,
{
    let key: String = match routing_key {
        Some(key) => key,
        None => {
            proof {
                reveal_strlit("");
                assert(""@ =~= Seq::empty());
            }
            String::from_str("")
        },
    };
    WriteRequest { index: String::from_str(index), id: String::from_str(id), routing_key: key, doc }
}

/// What changing one document answers.
pub open spec fn change_body(
    id: Seq<char>,
    result: Seq<char>,
    version: u64,
    shard_id: u128,
) -> JsonV {
    JsonV::Object(
        seq![
            ("id"@, JsonV::Text(id)),
            ("result"@, JsonV::Text(result)),
            ("version"@, search::count_value(version as nat)),
            ("shard_id"@, JsonV::Text(text::uuid_chars(shard_id))),
        ],
    )
}

/// What changing one document answers.
fn change_response(id: &str, result: &str, version: u64, shard_id: u128) -> (response: Json)
    ensures
        response@ == change_body(id@, result@, version, shard_id),
{
    let parts: Vec<(String, Json)> = vec![
        entry("id", Json::text(id)),
        entry("result", Json::text(result)),
        entry("version", Json::unsigned(version)),
        entry("shard_id", Json::text(uuid_text(shard_id).as_str())),
    ];
    assert(json::entry_models(parts@) =~= seq![
        ("id"@, JsonV::Text(id@)),
        ("result"@, JsonV::Text(result@)),
        ("version"@, search::count_value(version as nat)),
        ("shard_id"@, JsonV::Text(text::uuid_chars(shard_id))),
    ]);
    Json::object(parts)
}

/// What writing one document answers.
pub fn write_response(id: &str, version: u64, shard_id: u128) -> (response: Json)
    ensures
        response@ == change_body(id@, "created"@, version, shard_id),
{
    change_response(id, "created", version, shard_id)
}

/// What removing one document answers.
pub fn delete_response(id: &str, version: u64, shard_id: u128) -> (response: Json)
    ensures
        response@ == change_body(id@, "deleted"@, version, shard_id),
{
    change_response(id, "deleted", version, shard_id)
}

// ---------------------------------------------------------------------------
// Dropping an index
// ---------------------------------------------------------------------------

/// What is said of the shards that could not drop an index.
pub open spec fn drop_notes(failures: Seq<(u128, ErrorV)>) -> Seq<Seq<char>> {
    failures.map_values(
        |failure: (u128, ErrorV)|
            "shard "@ + text::uuid_chars(failure.0) + ": "@ + errors::error_text(failure.1),
    )
}

/// What dropping an index answers.
pub open spec fn drop_body(
    index: Seq<char>,
    dropped: nat,
    shards: nat,
    failures: Seq<(u128, ErrorV)>,
) -> JsonV {
    JsonV::Object(
        seq![
            ("success"@, JsonV::Bool(true)),
            ("index"@, JsonV::Text(index)),
            ("deleted_from_shards"@, search::count_value(dropped)),
            ("total_shards"@, search::count_value(shards)),
            ("errors"@, errors::text_array(drop_notes(failures))),
        ],
    )
}

/// What dropping an index answers, from what its shards did.
pub fn drop_response(
    index: &str,
    dropped: usize,
    shards: usize,
    failures: &Vec<(u128, OrchestratorError)>,
) -> (response: Json)
    ensures
        response@ == drop_body(
            index@,
            dropped as nat,
            shards as nat,
            errors::failure_models(failures@),
        ),
{
    let ghost all = errors::failure_models(failures@);
    let ghost wanted = drop_notes(all);
    let mut notes: Vec<String> = Vec::new();
    let mut i: usize = 0;
    assert(text::texts(notes@) =~= wanted.take(0));
    while i < failures.len()
        invariant
            i <= failures.len(),
            all == errors::failure_models(failures@),
            wanted == drop_notes(all),
            text::texts(notes@) == wanted.take(i as int),
        decreases failures.len() - i,
    {
        let ghost before = notes@;
        let mut note: String = String::from_str("shard ");
        note.append(uuid_text(failures[i].0).as_str());
        note.append(": ");
        note.append(failures[i].1.message().as_str());
        assert(note@ == wanted[i as int]);
        notes.push(note);
        i += 1;
        assert(text::texts(notes@) =~= text::texts(before).push(wanted[i - 1]));
        assert(wanted.take(i as int) =~= wanted.take(i - 1).push(wanted[i - 1]));
    }
    assert(wanted.take(failures.len() as int) =~= wanted);
    let yes: Json = Json::Bool(true);
    proof {
        json::lemma_model_by_parts(yes);
    }
    let parts: Vec<(String, Json)> = vec![
        entry("success", yes),
        entry("index", Json::text(index)),
        entry("deleted_from_shards", Json::count(dropped)),
        entry("total_shards", Json::count(shards)),
        entry("errors", Json::text_list(&notes)),
    ];
    assert(json::entry_models(parts@) =~= seq![
        ("success"@, JsonV::Bool(true)),
        ("index"@, JsonV::Text(index@)),
        ("deleted_from_shards"@, search::count_value(dropped as nat)),
        ("total_shards"@, search::count_value(shards as nat)),
        ("errors"@, errors::text_array(wanted)),
    ]);
    Json::object(parts)
}

// ---------------------------------------------------------------------------
// Line by line
// ---------------------------------------------------------------------------

/// A value on a line of its own.
pub open spec fn line_of(value: JsonV) -> Seq<char> {
    json::json_chars(value) + "\n"@
}

/// A value on a line of its own.
fn write_line(value: &Json) -> (line: String)
    ensures
        line@ == line_of(value@),
{
    let mut line: String = json_text(value);
    line.append("\n");
    line
}

/// What is left of an answer once its hits have been written, for the last line.
pub open spec fn footer_of(answer: JsonV) -> JsonV {
    match answer {
        JsonV::Object(entries) => {
            let marked = JsonV::Object(json::without_key(entries, "hits"@)).with(
                "_footer"@,
                JsonV::Bool(true),
            );
            if marked.get("hits_returned"@) is Some {
                marked
            } else {
                marked.with("hits_returned"@, search::count_value(hits_in(answer).len()))
            }
        },
        _ => answer,
    }
}

/// The hits of an answer, none where it has no list of them.
pub open spec fn hits_in(answer: JsonV) -> Seq<JsonV> {
    match broadcast::items_of(answer.get("hits"@)) {
        Some(hits) => hits,
        None => Seq::empty(),
    }
}

/// An answer line by line: each hit on a line of its own, and a last line with everything else.
pub open spec fn lines_of(answer: JsonV) -> Seq<Seq<char>> {
    hits_in(answer).map_values(|hit: JsonV| line_of(hit)).push(line_of(footer_of(answer)))
}

/// Writes an answer line by line.
pub fn stream_lines(answer: Json) -> (lines: Vec<String>)
    ensures
        text::texts(lines@) == lines_of(answer@),
{
    broadcast use json::lemma_model_by_parts;

    let ghost whole = answer@;
    let mut hits: Vec<Json> = Vec::new();
    assert(json::models(hits@) =~= Seq::empty());
    let mut rest: Json = answer;
    let mut object: bool = false;
    if let Json::Object(held_entries) = rest {
        let mut entries: Vec<(String, Json)> = held_entries;
        if let Some(found) = take_entry(&mut entries, "hits") {
            if let Json::Array(items) = found {
                hits = items;
            }
        }
        rest = Json::Object(entries);
        object = true;
    }
    assert(json::models(hits@) == hits_in(whole));
    let count: usize = hits.len();
    let ghost wanted = hits_in(whole).map_values(|hit: JsonV| line_of(hit));
    let mut lines: Vec<String> = Vec::new();
    let mut i: usize = 0;
    assert(text::texts(lines@) =~= wanted.take(0));
    while i < hits.len()
        invariant
            i <= hits.len(),
            json::models(hits@) == hits_in(whole),
            wanted == hits_in(whole).map_values(|hit: JsonV| line_of(hit)),
            text::texts(lines@) == wanted.take(i as int),
        decreases hits.len() - i,
    {
        let ghost before = lines@;
        assert(hits@[i as int]@ == hits_in(whole)[i as int]);
        lines.push(write_line(&hits[i]));
        i += 1;
        assert(text::texts(lines@) =~= text::texts(before).push(wanted[i - 1]));
        assert(wanted.take(i as int) =~= wanted.take(i - 1).push(wanted[i - 1]));
    }
    assert(wanted.take(hits.len() as int) =~= wanted);
    if object {
        let yes: Json = Json::Bool(true);
        proof {
            json::lemma_model_by_parts(yes);
        }
        rest.put("_footer", yes);
        if rest.get("hits_returned").is_none() {
            rest.put("hits_returned", Json::count(count));
        }
    }
    assert(rest@ == footer_of(whole));
    let ghost before = lines@;
    lines.push(write_line(&rest));
    assert(text::texts(lines@) =~= text::texts(before).push(line_of(footer_of(whole))));
    lines
}

/// An answer line by line has a line for each hit and one more.
pub proof fn law_every_hit_has_its_line(answer: JsonV)
    ensures
        lines_of(answer).len() == hits_in(answer).len() + 1,
        forall|i: int|
            0 <= i < hits_in(answer).len() ==> #[trigger] lines_of(answer)[i] == line_of(
                hits_in(answer)[i],
            ),
        lines_of(answer).last() == line_of(footer_of(answer)),
{
}

/// What a failed search answers line by line.
pub open spec fn failure_value(message: Seq<char>) -> JsonV {
    JsonV::Object(seq![("_error"@, JsonV::Bool(true)), ("message"@, JsonV::Text(message))])
}

/// What a failed search answers line by line.
pub fn failure_line(error: &OrchestratorError) -> (line: String)
    ensures
        line@ == line_of(failure_value(errors::error_text(error@))),
{
    let yes: Json = Json::Bool(true);
    proof {
        json::lemma_model_by_parts(yes);
    }
    let parts: Vec<(String, Json)> = vec![
        entry("_error", yes),
        entry("message", Json::text(error.message().as_str())),
    ];
    assert(json::entry_models(parts@) =~= seq![
        ("_error"@, JsonV::Bool(true)),
        ("message"@, JsonV::Text(errors::error_text(error@))),
    ]);
    write_line(&Json::object(parts))
}

} // verus!
