//! What travels between nodes, shards and workers: batches, listings, broadcasts, streams, queues.

use cameodb_server::broadcast::{
    after_attempt, answer_broadcast_other, answer_broadcast_search, answer_broadcast_write,
    broadcast_window, collect_approximate_sort, collect_discarded, in_dispatch_order, part_answers,
    peers_to_ask, remote_attempts, remote_not_found, widen, RemoteStep,
};
use cameodb_server::bulk::{
    address_batches, bulk_write_response, hand_on, open_account, place_documents, plan_bulk_write,
    LocalOutcome, RemoteOutcome,
};
use cameodb_server::bulk_delete::{
    bulk_delete_response, keys_of_removals, plan_bulk_delete, removed_there, Removed,
};
use cameodb_server::catalog::{
    answer_listing, empty_listing, list_index, listing_time, total_by_index, ShardIndexStats,
};
use cameodb_server::cluster_catalog::answer_cluster_listing;
use cameodb_server::describe::{
    create_config_response, declare_document_key, describe_fields, identity_response,
    no_shards_for_schema, schema_not_found, schema_response, validate_query_response, QueryVerdict,
    UNCHECKED_QUERY_NOTE,
};
use cameodb_server::channels::{Inbox, Offer, Queues};
use cameodb_server::dispatch::{
    after_offer, OrchestratorWorkerTx, PoolCounters, Probe, ProbeStep, Undelivered,
};
use cameodb_server::engine::{plan_engine, EngineStep};
use cameodb_server::errors::{IoKind, OrchestratorError, StoreError};
use cameodb_server::hits::{Score, SearchWindow, SortOrder, SortSpec};
use cameodb_server::json::{entry, Json, JsonNumber};
use cameodb_server::ops::{
    BatchWriteRequest, ClientOp, DeletePayload, DocPayload, SearchHit, SearchReply, WriteRequest,
};
use cameodb_server::placement::{CoreLayout, ShardPlacement};
use cameodb_server::router::{
    affinity_key, delete_response, drop_response, failure_line, finish_answer, growth_refusal,
    is_metadata_operation, is_write_operation, judge_write, plan_route, resolve_local, stream_lines, write_response,
    RouteStep, RoutingDecision, WriteStep,
};
use cameodb_server::schema::{FieldDef, IndexSchema, TantivyFieldType};
use cameodb_server::schema_update::{
    after_plan, describe_schema_refusal, merge_schema_verdicts, schema_update_response,
    SchemaFieldUpdate, UpdateStep,
};
use cameodb_server::search::{answer_search, empty_answer, prepare_search};
use cameodb_server::streaming::{
    answer_stream, stream_request, FanOut, StreamedSearch, StreamingSearchResult,
};
use cameodb_server::validation::StoreRefusals;
use cameodb_server::worker_loop::{WorkerEvent, WorkerLoop, WorkerStep};
use cameodb_server::writer::{
    answer_writes, batch_ops, delete_ops, drain_waiting, search_error, share_out, sort_commands,
    store_failure, supervise, take_waiting, write_op, StorageCommand, SupervisorAction, SupervisorEvent,
    SupervisorState, WalOp,
};
use cameodb_server::writer_round::{answer_batches, note_published, plan_round, StoreStep};

fn object(entries: Vec<(&str, Json)>) -> Json {
    Json::object(entries.into_iter().map(|(k, v)| entry(k, v)).collect())
}

fn text(t: &str) -> Json {
    Json::text(t)
}

fn texts(list: &[&str]) -> Vec<String> {
    list.iter().map(|t| t.to_string()).collect()
}

fn text_under(value: &Json, key: &str) -> String {
    value.get(key).and_then(|v| v.as_text()).cloned().unwrap_or_default()
}

fn number(value: &Json, key: &str) -> Option<u64> {
    value.get(key).and_then(|v| v.as_u64())
}

fn payload(id: &str, key: Option<&str>, doc: Json) -> DocPayload {
    DocPayload { id: id.to_string(), routing_key: key.map(|k| k.to_string()), doc }
}

fn plain(id: &str) -> DocPayload {
    payload(id, None, object(vec![("title", text(id))]))
}

fn other(message: &str) -> OrchestratorError {
    OrchestratorError::Io { kind: IoKind::Other, message: message.to_string() }
}

// ---------------------------------------------------------------------------
// Bulk writes
// ---------------------------------------------------------------------------

#[test]
fn every_document_of_a_batch_is_planned_or_explained() {
    let schema = IndexSchema::default();
    let docs = vec![plain("a"), plain("b"), plain("c"), plain("d")];
    let refused = vec![(1, "bad field".to_string())];
    let placed = place_documents(docs, &refused, &schema);
    assert_eq!(placed.iter().map(|p| p.position).collect::<Vec<_>>(), vec![0, 2, 3]);
    assert_eq!(placed[1].routing_key.as_deref(), Some("c"));

    // Shard 7 is here, shard 8 on node 80, shard 9 nobody's.
    let owners = vec![Some(7), Some(8), Some(9)];
    let plan = plan_bulk_write(placed, &owners, None, &vec![7], &vec![(8, 80)]);
    assert_eq!(plan.local.len(), 1);
    assert_eq!((plan.local[0].0, plan.local[0].1.len()), (7, 1));
    assert_eq!((plan.remote[0].0, plan.remote[0].1.len()), (80, 1));
    assert_eq!(plan.unclaimed.len(), 1);
    assert!(plan.unclaimed[0].starts_with("document 3: shard "));
    assert!(plan.unclaimed[0].ends_with(" owns this document and no node claims that shard"));

    let (batches, _peers, unaddressed) = address_batches(plan.remote, &vec![]);
    assert!(batches.is_empty());
    assert_eq!(unaddressed.len(), 1);
    assert!(unaddressed[0].starts_with("document 2: node "));

    let account = open_account(&refused, plan.unrouted, plan.unclaimed, unaddressed);
    assert_eq!(account.errors[0], "document 1: bad field");
    assert_eq!(account.errors.len(), 3);
}

#[test]
fn a_batch_is_accounted_for_item_by_item() {
    let mut account = open_account(&vec![], vec![], vec![], vec![]);
    account.add_local(LocalOutcome { shard_id: 7, positions: vec![0, 1], outcome: Ok(2) });
    account.add_local(LocalOutcome {
        shard_id: 7,
        positions: vec![2],
        outcome: Err(other("full")),
    });
    account.add_remote(RemoteOutcome {
        node_id: 80,
        positions: vec![3, 4],
        answer: Ok(object(vec![
            ("items_written", Json::count(1)),
            ("errors", Json::list(vec![text("document 1: bad")])),
        ])),
    });
    account.add_remote(RemoteOutcome {
        node_id: 80,
        positions: vec![5],
        answer: Err(other("gone")),
    });
    assert_eq!(account.written, 3);
    assert_eq!(account.errors.len(), 3);
    assert!(account.errors[0].starts_with("document 2: shard "));
    assert_eq!(account.errors[1], "document 4: bad");
    assert!(account.errors[2].starts_with("document 5: forwarding to node "));
    let response = bulk_write_response(&account, 6, 12);
    assert_eq!(number(&response, "items_written"), Some(3));
    assert_eq!(number(&response, "items_received"), Some(6));
    assert_eq!(number(&response, "duration_ms"), Some(12));
}

#[test]
fn a_batch_is_handed_on_with_its_positions() {
    let placed = place_documents(vec![plain("a"), plain("b")], &vec![], &IndexSchema::default());
    let (positions, docs) = hand_on(placed);
    assert_eq!(positions, vec![0, 1]);
    assert_eq!(docs.len(), 2);
    assert_eq!(docs[1].id, "b");
}

// ---------------------------------------------------------------------------
// Bulk deletes
// ---------------------------------------------------------------------------

#[test]
fn every_removal_is_planned_or_explained() {
    let docs = || {
        vec![
            DeletePayload::Id("a".to_string()),
            DeletePayload::Id("".to_string()),
            DeletePayload::Id("c".to_string()),
        ]
    };
    let keys = keys_of_removals(&docs(), &IndexSchema::default());
    assert_eq!(keys[0], Ok("a".to_string()));
    assert_eq!(keys[1], Err("an entry carried an empty id".to_string()));
    let owners = vec![Some(7), None, Some(8)];
    let plan = plan_bulk_delete(docs(), &keys, &owners, None, &vec![7], &vec![(8, 80)]);
    assert_eq!(plan.local, vec![(7, texts(&["a"]))]);
    assert_eq!(plan.remote.len(), 1);
    assert_eq!(plan.errors, texts(&["an entry carried an empty id"]));

    let mut removed = Removed { deleted: 0, errors: plan.errors };
    removed.add_local(Ok(1));
    removed.add_remote(Err(other("gone")));
    removed.add_unaddressed(0);
    assert_eq!(removed.deleted, 1);
    assert_eq!(removed.errors[1], "remote forwarding failed: io error: gone");
    assert_eq!(
        removed.errors[2],
        "no peer address for node 00000000-0000-0000-0000-000000000000"
    );
    let groups = || {
        vec![
            (1, vec![DeletePayload::Id("x".to_string())]),
            (2, vec![DeletePayload::Id("y".to_string())]),
        ]
    };
    let parts = removed.address_removals(groups(), &vec![(2, "peer".to_string())]);
    assert_eq!(parts.len(), 1);
    assert_eq!((parts[0].0, parts[0].1[0].id()), (2, "y"));
    assert_eq!(
        removed.errors[3],
        "no peer address for node 00000000-0000-0000-0000-000000000001"
    );
    let response = bulk_delete_response(&removed, 3, 5);
    assert_eq!(number(&response, "items_deleted"), Some(1));
    assert_eq!(number(&response, "items_received"), Some(3));
    assert_eq!(removed_there(&response), 1);
}

// ---------------------------------------------------------------------------
// Searches
// ---------------------------------------------------------------------------

fn score(n: i64) -> Score {
    Score { order: Some(n), number: Some(JsonNumber::Unsigned(n as u64)) }
}

fn reply(hits: Vec<(i64, &str)>, total: usize) -> SearchReply {
    SearchReply {
        hits: hits
            .into_iter()
            .map(|(n, title)| SearchHit { score: score(n), doc: object(vec![("title", text(title))]) })
            .collect(),
        total_hits: total,
        discarded: vec![],
        approximate_sort: None,
        emptied: false,
    }
}

fn titles(answer: &Json) -> Vec<String> {
    answer
        .get("hits")
        .and_then(|h| h.as_array())
        .unwrap()
        .iter()
        .map(|h| text_under(h, "title"))
        .collect()
}

#[test]
fn a_search_merges_its_shards() {
    let schema = IndexSchema::default();
    let outcomes = || {
        vec![
            (1, Ok(reply(vec![(5, "b"), (1, "d")], 2))),
            (2, Ok(reply(vec![(9, "a"), (3, "c")], 7))),
        ]
    };
    let window = SearchWindow { offset: 1, limit: 2 };
    let answer =
        answer_search("books", &schema, window, &None, None, outcomes(), 3).unwrap();
    assert_eq!(titles(&answer), vec!["b", "c"]);
    assert_eq!(number(&answer, "total_hits"), Some(9));
    assert_eq!(number(&answer, "hits_returned"), Some(2));
    let mut turned = outcomes();
    turned.reverse();
    let again = answer_search("books", &schema, window, &None, None, turned, 3).unwrap();
    assert_eq!(answer, again, "which shard answers first changes nothing");
}

#[test]
fn a_search_that_lost_every_clause_is_refused() {
    let schema = IndexSchema::default();
    let mut gone = reply(vec![], 0);
    gone.emptied = true;
    gone.discarded = texts(&["nosuch:x"]);
    let error = answer_search(
        "books",
        &schema,
        SearchWindow::first(10),
        &None,
        None,
        vec![(1, Ok(gone))],
        0,
    )
    .unwrap_err();
    assert_eq!(error, OrchestratorError::UnrunnableQuery { notes: "nosuch:x".to_string() });
    let partial = answer_search(
        "books",
        &schema,
        SearchWindow::first(10),
        &None,
        None,
        vec![(1, Ok(reply(vec![(1, "a")], 1))), (2, Err(other("disk")))],
        0,
    )
    .unwrap();
    assert_eq!(partial.get("errors").and_then(|e| e.as_array()).unwrap().len(), 1);
    assert_eq!(number(&empty_answer(), "total_hits"), Some(0));
    let unsortable = SortSpec { field: "nosuch".to_string(), order: SortOrder::Asc };
    assert!(prepare_search(&schema, &None, Some(&unsortable)).is_ok(), "nothing is declared yet");
    let mut declared = IndexSchema::default();
    declared.put_field("title", FieldDef::new("title".to_string(), TantivyFieldType::Text));
    assert!(prepare_search(&declared, &None, Some(&unsortable)).is_err());
}

#[test]
fn a_broadcast_asks_for_the_page_and_skips_once() {
    let op = ClientOp::Search {
        index: "books".to_string(),
        query: "rust".to_string(),
        limit: Some(10),
        offset: Some(30),
        fields: None,
        sort: None,
    };
    let window = broadcast_window(&op, 5);
    assert_eq!(window, SearchWindow { offset: 30, limit: 10 });
    match widen(op, window) {
        ClientOp::Search { limit, offset, .. } => assert_eq!((limit, offset), (Some(40), None)),
        other => panic!("{other:?}"),
    }
    assert_eq!(peers_to_ask(7, 3), 3);
    assert_eq!(peers_to_ask(2, 3), 2);
    assert_eq!(in_dispatch_order(vec![(2, 'c'), (0, 'a'), (1, 'b')]), vec!['a', 'b', 'c']);
}

#[test]
fn a_broadcast_merges_its_nodes() {
    let node = |hits: Vec<(&str, &str)>, total: usize| {
        Some(object(vec![
            (
                "hits",
                Json::list(
                    hits.into_iter()
                        .map(|(t, s)| object(vec![("title", text(t)), ("_score", Json::decimal(s))]))
                        .collect(),
                ),
            ),
            ("total_hits", Json::count(total)),
            ("took_ms", Json::count(4)),
        ]))
    };
    let answer = answer_broadcast_search(
        vec![node(vec![("a", "0.5")], 1), None, node(vec![("b", "0.75")], 2)],
        None,
        SearchWindow::first(10),
        9,
    );
    assert_eq!(titles(&answer), vec!["b", "a"]);
    assert_eq!(number(&answer, "total_hits"), Some(3));

    let written = answer_broadcast_write(
        &vec![object(vec![("items_written", Json::count(2))])],
        1,
    );
    assert_eq!(written.get("success"), Some(&Json::Bool(false)));
    assert_eq!(number(&written, "nodes_contacted"), Some(2));
    assert_eq!(
        answer_broadcast_other(vec![]),
        Err(OrchestratorError::Io {
            kind: IoKind::Other,
            message: "broadcast failed: no successful responses".to_string()
        })
    );
    let (kept, failed) = part_answers(vec![Some(Json::Null), None]);
    assert_eq!((kept.len(), failed), (1, 1));
    assert_eq!(remote_attempts(0), 1);
    assert!(matches!(after_attempt(1, 3, Ok(Json::Null)), RemoteStep::Answer(Json::Null)));
    assert!(matches!(
        after_attempt(2, 3, Err(other("timed out"))),
        RemoteStep::Retry { attempt: 3 }
    ));
    match after_attempt(3, 3, Err(other("timed out"))) {
        RemoteStep::GiveUp { reason, error } => {
            assert_eq!(reason, "remote routing failed after 3 attempts: io error: timed out");
            assert_eq!(error.message(), format!("io error: {reason}"));
        }
        step => panic!("given up after three attempts: {step:?}"),
    }
    assert!(remote_not_found(0).message().contains("remote orchestrator for node "));
}

#[test]
fn a_stream_asks_every_node_from_the_front() {
    let search = |limit: Option<usize>, offset: Option<usize>| ClientOp::Search {
        index: "books".to_string(),
        query: "dune".to_string(),
        limit,
        offset,
        fields: None,
        sort: None,
    };
    let stream = ClientOp::Stream {
        index: "books".to_string(),
        query: "dune".to_string(),
        limit: Some(3),
        fields: None,
        sort: None,
    };
    let asked = |op: ClientOp| match stream_request(op, 10) {
        Ok((ClientOp::Search { index, limit, offset, .. }, hits)) => {
            Some((index, limit, offset, hits))
        }
        _ => None,
    };
    let books = || "books".to_string();
    assert_eq!(asked(search(None, Some(5))), Some((books(), Some(10), None, 10)));
    assert_eq!(asked(search(Some(7), None)), Some((books(), Some(7), None, 7)));
    assert_eq!(asked(stream), Some((books(), Some(3), None, 3)));
    assert!(matches!(
        stream_request(ClientOp::GetIdentity, 10),
        Err(ClientOp::GetIdentity)
    ));
}

#[test]
fn a_stream_merges_its_sources_in_their_order() {
    let local = |shard: u128, title: &str| StreamingSearchResult::Local {
        shard_id: shard,
        hits: vec![(score(1), object(vec![("title", text(title))]))],
        total_hits: 1,
        took_ms: 1,
    };
    let run = |order: Vec<StreamingSearchResult>| {
        let mut stream = StreamedSearch::new();
        for result in order {
            stream.take(result);
        }
        answer_stream(stream, None, 10, 2)
    };
    let one = run(vec![local(1, "a"), local(2, "b")]);
    let two = run(vec![local(2, "b"), local(1, "a")]);
    assert_eq!(titles(&one), titles(&two));
    assert_eq!(number(&one, "hits_returned"), Some(2));
    let mut failing = StreamedSearch::new();
    failing.take(StreamingSearchResult::Remote { node_id: 0, result: Err(other("gone")) });
    assert!(failing.errors[0].starts_with("Remote node "));
    assert!(failing.errors[0].ends_with(" search failed: io error: gone"));
}

// ---------------------------------------------------------------------------
// Descriptions and listings
// ---------------------------------------------------------------------------

#[test]
fn a_schema_is_described_field_by_field() {
    let mut schema = IndexSchema::default();
    schema.put_field("title", FieldDef::new("title".to_string(), TantivyFieldType::Text));
    declare_document_key(&mut schema);
    let fields = describe_fields(&schema, &texts(&["title"]), &texts(&[]));
    assert_eq!(text_under(&fields[0], "name"), "id");
    assert_eq!(text_under(&fields[1], "name"), "title");
    assert_eq!(fields[1].get("searchable"), Some(&Json::Bool(true)));
    assert_eq!(fields[1].get("sortable"), Some(&Json::Bool(false)));
    let response = schema_response("books", &schema, &texts(&[]), &texts(&[]));
    assert_eq!(number(&response, "field_count"), Some(2));
    let created = create_config_response("books", &schema);
    assert_eq!(created.get("acknowledged"), Some(&Json::Bool(true)));
    assert!(schema_not_found("books").message().contains("Schema for index 'books' not found"));
    assert!(no_shards_for_schema("books").message().contains("No shards initialized"));
    assert_eq!(number(&identity_response(0, "n1", 3), "total_shards"), Some(3));
}

#[test]
fn a_query_that_was_not_checked_is_not_called_valid() {
    let unchecked = validate_query_response("books", "x limit 5", "x", &None);
    assert_eq!(unchecked.get("valid"), Some(&Json::Null));
    assert_eq!(text_under(&unchecked, "note"), UNCHECKED_QUERY_NOTE);
    assert_eq!(text_under(&unchecked, "normalized_query"), "x");
    let verdict = QueryVerdict {
        valid: false,
        normalized_query: "y".to_string(),
        syntax_errors: texts(&["stray"]),
        discarded: vec![],
    };
    let checked = validate_query_response("books", "x", "x", &Some(verdict));
    assert_eq!(checked.get("valid"), Some(&Json::Bool(false)));
    assert!(checked.get("note").is_none());
}

#[test]
fn one_shard_cannot_refuse_a_schema_update_for_all() {
    let verdict = |applied: &[&str], unknown: &[&str]| SchemaFieldUpdate {
        applied: texts(applied),
        unchanged: vec![],
        unknown: texts(unknown),
        pending_reindex: vec![],
    };
    let merged = merge_schema_verdicts(&vec![verdict(&[], &["b", "a"]), verdict(&["a"], &["b"])]);
    assert_eq!(merged.applied, texts(&["a"]));
    assert_eq!(merged.unknown, texts(&["b"]));
    let refused = merge_schema_verdicts(&vec![verdict(&[], &["b"])]);
    assert!(refused.is_rejected());
    assert_eq!(
        describe_schema_refusal(&refused),
        "Schema update refused, nothing was changed: no such field in this schema: b"
    );
    let response = schema_update_response("books", &refused);
    assert_eq!(response.get("acknowledged"), Some(&Json::Bool(false)));
    assert_eq!(after_plan("books", &refused), UpdateStep::Refuse(response));
    assert_eq!(after_plan("books", &verdict(&["a"], &[])), UpdateStep::Apply);
}

fn shard_stats(name: &str, documents: u64) -> ShardIndexStats {
    ShardIndexStats {
        name: name.to_string(),
        document_count: documents,
        redb_bytes: 10,
        tantivy_bytes: 5,
        tantivy_index_exists: true,
        warm: true,
        searchable_fields: texts(&["title"]),
        sortable_fields: vec![],
    }
}

#[test]
fn a_listing_totals_its_shards() {
    let totals =
        total_by_index(&vec![shard_stats("b", 1), shard_stats("a", 2), shard_stats("b", 3)]);
    let of = |name: &str| &totals.iter().find(|t| t.0 == name).unwrap().1;
    assert_eq!(of("b").document_count, 4);
    assert_eq!(of("b").shard_count, 2);
    assert_eq!(of("a").document_count, 2);
    let listed = list_index("b", of("b"), true, None);
    assert_eq!(number(&listed, "total_size_bytes"), Some(30));
    let listing = answer_listing(
        vec![("b".to_string(), listed), ("a".to_string(), list_index("a", of("a"), false, None))],
        0,
        "n1",
        2,
        7,
    );
    let names: Vec<String> = listing
        .get("indexes")
        .and_then(|i| i.as_array())
        .unwrap()
        .iter()
        .map(|i| text_under(i, "name"))
        .collect();
    assert_eq!(names, vec!["a", "b"]);
    assert_eq!(number(&empty_listing(0, "n1"), "total_indexes"), Some(0));
    assert_eq!(listing_time(&vec![3, 9], &vec![4]), 13);
}

#[test]
fn a_field_that_one_node_can_search_the_cluster_can() {
    let node = |searchable: bool, documents: usize| {
        object(vec![
            ("node_id", text("n")),
            (
                "indexes",
                Json::list(vec![object(vec![
                    ("name", text("books")),
                    ("document_count", Json::count(documents)),
                    (
                        "fields",
                        Json::list(vec![object(vec![
                            ("name", text("title")),
                            ("searchable", Json::Bool(searchable)),
                            ("sortable", Json::Bool(false)),
                        ])]),
                    ),
                ])]),
            ),
        ])
    };
    let answer = answer_cluster_listing(&vec![node(false, 2), node(true, 3)], 1, false);
    let indexes = answer.get("indexes").and_then(|i| i.as_array()).unwrap();
    assert_eq!(number(&indexes[0], "document_count"), Some(5));
    let fields = indexes[0].get("fields").and_then(|f| f.as_array()).unwrap();
    assert_eq!(fields[0].get("searchable"), Some(&Json::Bool(true)));
    assert_eq!(fields[0].get("sortable"), Some(&Json::Bool(false)));
}

// ---------------------------------------------------------------------------
// Routing operations
// ---------------------------------------------------------------------------

fn write_op_of(key: Option<&str>) -> ClientOp {
    ClientOp::Write {
        index: "books".to_string(),
        id: "d1".to_string(),
        routing_key: key.map(|k| k.to_string()),
        doc: object(vec![("title", text("Dune"))]),
    }
}

#[test]
fn a_write_is_never_broadcast() {
    let op = write_op_of(Some("k"));
    assert!(is_write_operation(&op));
    assert_eq!(
        plan_route(&op, RoutingDecision::Broadcast, true),
        Err(OrchestratorError::Io {
            kind: IoKind::NotFound,
            message: "Write operation cannot be broadcast - routing failed".to_string()
        })
    );
    assert_eq!(plan_route(&op, RoutingDecision::Local, true), Ok(RouteStep::HandleHere));
    assert_eq!(affinity_key(&op, true), Some(&"k".to_string()));
    assert_eq!(affinity_key(&op, false), None);
    let mut placement = ShardPlacement::new();
    let layout = CoreLayout::resolve(Some(2), vec![]);
    placement.assign(7, &layout, false);
    placement.activate(7);
    assert_eq!(resolve_local(true, Some(7), &placement), Some(RoutingDecision::Local));
    assert_eq!(resolve_local(true, Some(8), &placement), None);
}

#[test]
fn an_op_the_engine_declines_comes_back_whole() {
    let op = || ClientOp::BulkWrite {
        index: "books".to_string(),
        docs: vec![payload("b1", None, object(vec![("title", text("Dune"))]))],
    };
    match plan_engine(op(), 10) {
        EngineStep::Defer(ClientOp::BulkWrite { index, docs }) => {
            assert_eq!(index, "books");
            assert_eq!(docs.len(), 1, "the documents have to survive the round trip");
            assert_eq!(docs[0].doc, object(vec![("title", text("Dune"))]));
        }
        other => panic!("the op came back as a different op: {other:?}"),
    }
}

#[test]
fn a_metadata_op_defers_rather_than_failing() {
    let step = plan_engine(ClientOp::GetConfig { index: "books".to_string() }, 10);
    assert!(
        matches!(step, EngineStep::Defer(ClientOp::GetConfig { .. })),
        "a metadata op must be deferred to the actor, carrying its own op"
    );
    match plan_engine(
        ClientOp::Search {
            index: "books".to_string(),
            query: "rust".to_string(),
            limit: None,
            offset: Some(4),
            fields: None,
            sort: None,
        },
        10,
    ) {
        EngineStep::Search { window, .. } => {
            assert_eq!(window, SearchWindow { offset: 4, limit: 10 });
        }
        other => panic!("{other:?}"),
    }
}

#[test]
fn a_write_is_judged_before_it_is_sent() {
    let mut schema = IndexSchema::default();
    schema.put_field("title", FieldDef::new("title".to_string(), TantivyFieldType::Text));
    let doc = object(vec![("title", text("Dune"))]);
    assert_eq!(
        judge_write(true, &schema, "d1", None, &doc, &StoreRefusals::none()),
        Ok(WriteStep::Write { routing_key: Some("d1".to_string()) })
    );
    let grown = object(vec![("year", Json::unsigned(1965))]);
    assert_eq!(judge_write(true, &schema, "d1", None, &grown, &StoreRefusals::none()), Ok(WriteStep::NeedsGrowth));
    assert!(judge_write(false, &schema, "d1", None, &doc, &StoreRefusals::none()).is_err());
    assert!(judge_write(true, &schema, "", None, &doc, &StoreRefusals::none()).is_err());
    assert!(growth_refusal(&vec![]).is_none());
    assert!(growth_refusal(&vec![(0, "bad".to_string())]).is_some());
    let zero = "00000000-0000-0000-0000-000000000000";
    assert_eq!(text_under(&write_response("d1", 3, 0), "shard_id"), zero);
    assert_eq!(text_under(&delete_response("d1", 3, 0), "result"), "deleted");
    let dropped = drop_response("books", 1, 2, &vec![(0, other("busy"))]);
    assert_eq!(dropped.get("success"), Some(&Json::Bool(true)));
    assert_eq!(number(&dropped, "deleted_from_shards"), Some(1));
    assert_eq!(
        dropped.get("errors"),
        Some(&Json::list(vec![text(&format!("shard {zero}: io error: busy"))]))
    );
}

#[test]
fn an_answer_is_streamed_line_by_line() {
    let answer = object(vec![
        ("hits", Json::list(vec![object(vec![("title", text("a"))]), text("b")])),
        ("hits_returned", Json::count(2)),
        ("total_hits", Json::count(2)),
    ]);
    let lines = stream_lines(answer);
    assert_eq!(lines.len(), 3);
    assert_eq!(lines[0].trim_end(), "{\"title\":\"a\"}");
    assert!(lines[2].contains("_footer"));
    assert!(failure_line(&other("gone")).contains("\"message\":\"io error: gone\""));
    let keyed = object(vec![("_sort_key", Json::count(1))]);
    let mut kept = object(vec![("hits", Json::list(vec![keyed]))]);
    finish_answer(true, true, &mut kept);
    assert!(kept.get("hits").unwrap().as_array().unwrap()[0].get("_sort_key").is_some());
    finish_answer(true, false, &mut kept);
    assert!(kept.get("hits").unwrap().as_array().unwrap()[0].get("_sort_key").is_none());
}

// ---------------------------------------------------------------------------
// Queues and workers
// ---------------------------------------------------------------------------

fn pool(capacity: usize) -> (OrchestratorWorkerTx<u32>, Vec<tokio::sync::mpsc::Receiver<u32>>) {
    let mut workers = Vec::new();
    let mut queues = Vec::new();
    for _ in 0..2 {
        let (tx, rx) = tokio::sync::mpsc::channel(capacity);
        workers.push(tx);
        queues.push(rx);
    }
    let pool = OrchestratorWorkerTx {
        workers: Queues::new(workers),
        queue_capacity: capacity,
        pinning_requested: false,
        core_aligned: false,
        core_layout: CoreLayout::resolve(Some(2), vec![]),
    };
    (pool, queues)
}

#[test]
fn a_full_worker_passes_a_job_on() {
    let (mut pool, mut queues) = pool(1);
    let mut counters = PoolCounters::idle(2);
    assert!(pool.try_send(1, &mut counters).is_ok());
    assert!(pool.try_send(2, &mut counters).is_ok());
    let refused = pool.try_send(3, &mut counters).unwrap_err();
    assert_eq!((refused.job, refused.full), (3, true));
    assert_eq!(queues[0].try_recv(), Ok(1));
    assert_eq!(queues[1].try_recv(), Ok(2));
    drop(queues);
    let gone = pool.try_send(4, &mut counters).unwrap_err();
    assert_eq!((gone.job, gone.full), (4, false));
    assert_eq!(counters.dispatch.round_robin_sends, 4, "every attempt is counted");
    assert_eq!(counters.dispatch.actor_mailbox_fallbacks, 1);
}

#[test]
fn an_affine_job_goes_to_the_worker_of_its_shard() {
    let (mut pool, mut queues) = pool(4);
    let mut counters = PoolCounters::idle(2);
    let mut placement = ShardPlacement::new();
    let layout = CoreLayout::resolve(Some(2), vec![]);
    placement.assign(10, &layout, false);
    placement.assign(11, &layout, false);
    for job in 0..3 {
        assert!(pool.try_send_affine(job, Some(11), &placement, &mut counters).is_ok());
    }
    assert!(queues[0].try_recv().is_err());
    assert_eq!(queues[1].try_recv(), Ok(0));
    assert_eq!(counters.dispatch.affine_sends, 3);
    let report = pool.snapshot(&counters, vec![]);
    assert_eq!((report.worker_count, report.workers.len()), (2, 2));
}

#[test]
fn a_full_worker_of_a_shard_is_passed_over_for_its_neighbour() {
    let (mut pool, mut queues) = pool(1);
    let mut counters = PoolCounters::idle(2);
    let mut placement = ShardPlacement::new();
    let layout = CoreLayout::resolve(Some(2), vec![]);
    placement.assign(10, &layout, false);
    for job in 0..2 {
        assert!(pool.try_send_affine(job, Some(10), &placement, &mut counters).is_ok());
    }
    assert_eq!(queues[0].try_recv(), Ok(0));
    assert_eq!(queues[1].try_recv(), Ok(1));
    assert_eq!(counters.dispatch.affine_sends, 1);
    assert_eq!(counters.dispatch.affine_full_fallbacks, 1);
}

#[test]
fn an_answer_of_a_queue_decides_where_a_job_goes_next() {
    assert_eq!(
        after_offer::<u32>(4, 1, 3, false, Offer::Taken),
        ProbeStep::Done(Probe::Delivered { worker: 2, offset: 1 })
    );
    assert_eq!(
        after_offer(4, 0, 3, false, Offer::Full(7)),
        ProbeStep::Next { offset: 1, job: 7, full: true }
    );
    assert_eq!(
        after_offer(4, 1, 3, true, Offer::Closed(7)),
        ProbeStep::Next { offset: 2, job: 7, full: true }
    );
    assert_eq!(
        after_offer(4, 2, 3, false, Offer::Closed(7)),
        ProbeStep::Done(Probe::Refused(Undelivered { job: 7, full: false }))
    );
}

#[test]
fn a_round_of_taking_ends_at_its_limit() {
    let (tx, rx) = tokio::sync::mpsc::channel(400);
    let mut inbox = Inbox::new(rx);
    for n in 1..=300u32 {
        tx.try_send(n).unwrap();
    }
    let commands = drain_waiting(0, &mut inbox);
    assert_eq!(commands, (0..=256).collect::<Vec<u32>>());
    assert_eq!(drain_waiting(0, &mut inbox).len(), 45);

    let mut commands = vec![1];
    assert!(take_waiting(&mut commands, Some(2)));
    assert!(!take_waiting(&mut commands, None));
    assert_eq!(commands, vec![1, 2]);
}

#[test]
fn a_writer_takes_what_waits_and_sorts_it() {
    let (tx, rx) = tokio::sync::mpsc::channel(8);
    let mut inbox = Inbox::new(rx);
    for n in 2..5u32 {
        tx.try_send(n).unwrap();
    }
    assert_eq!(drain_waiting(1u32, &mut inbox), vec![1, 2, 3, 4]);
    assert_eq!(drain_waiting(5u32, &mut inbox), vec![5]);

    let put = |id: &str| WalOp::Put { id: id.to_string(), json_blob: None };
    let round = sort_commands(vec![
        StorageCommand::Write { index: "a".to_string(), op: put("1"), reply: 1 },
        StorageCommand::Write { index: "b".to_string(), op: put("2"), reply: 2 },
        StorageCommand::Write { index: "a".to_string(), op: put("3"), reply: 3 },
        StorageCommand::Commit { index: "a".to_string(), reply: 4 },
        StorageCommand::Shutdown,
    ]);
    assert_eq!(round.writes.len(), 2);
    assert_eq!(round.writes[0].1.len(), 2);
    assert_eq!(round.commits.len(), 1);
    assert!(round.shutdown);
    assert_eq!(
        answer_writes(vec!['x', 'y'], &Ok(vec![7, 8])),
        vec![('x', Ok(7)), ('y', Ok(8))]
    );
    let shares = share_out(&vec![2, 1], &vec![1, 2, 3], 2);
    assert_eq!(shares[0].0, vec![1, 2]);
    assert_eq!(shares[1].0, vec![3]);
}

#[test]
fn a_request_becomes_operations_of_the_log() {
    let request = |id: &str| WriteRequest {
        index: "books".to_string(),
        id: id.to_string(),
        routing_key: "k".to_string(),
        doc: Json::Null,
    };
    let (index, op) = write_op(request("d1")).unwrap();
    assert_eq!(index, "books");
    assert!(matches!(op, WalOp::Put { id, .. } if id == "d1"));
    assert!(write_op(request("")).is_err());
    let (_, ops) =
        batch_ops(BatchWriteRequest { index: "books".to_string(), docs: vec![plain("a")] });
    assert_eq!(ops.len(), 1);
    assert_eq!(delete_ops(texts(&["a"])), vec![WalOp::Delete { id: "a".to_string() }]);
    assert_eq!(
        search_error(StoreError::QueryParser("bad".to_string())),
        OrchestratorError::Io { kind: IoKind::InvalidInput, message: "bad".to_string() }
    );
    assert!(matches!(
        store_failure(StoreError::Other("x".to_string())),
        OrchestratorError::Io { .. }
    ));
}

#[test]
fn a_supervisor_commits_once_the_index_goes_quiet() {
    let step = |state, event| supervise(state, event);
    assert_eq!(
        step(SupervisorState::Waiting, SupervisorEvent::Signal),
        (SupervisorState::Waiting, SupervisorAction::Wait)
    );
    assert_eq!(
        step(SupervisorState::Waiting, SupervisorEvent::IdleTimeout),
        (SupervisorState::Sending, SupervisorAction::SendCommit)
    );
    assert_eq!(
        step(SupervisorState::Sending, SupervisorEvent::Sent),
        (SupervisorState::AwaitingReply, SupervisorAction::AwaitReply)
    );
    assert_eq!(
        step(SupervisorState::AwaitingReply, SupervisorEvent::Committed),
        (SupervisorState::Stopped, SupervisorAction::RemoveAndStop)
    );
    assert_eq!(
        step(SupervisorState::AwaitingReply, SupervisorEvent::CommitFailed),
        (SupervisorState::Waiting, SupervisorAction::Wait)
    );
    assert_eq!(
        step(SupervisorState::Sending, SupervisorEvent::SendFailed),
        (SupervisorState::Stopped, SupervisorAction::Stop)
    );
}

/// Runs jobs through a worker that answers one whenever it can take no more, and tells how many ran at
/// once at most, and how many were answered.
fn run_jobs(width: usize, jobs: usize) -> (usize, usize) {
    let mut worker = WorkerLoop::new(width);
    let (mut waiting, mut peak, mut answered) = (jobs, 0, 0);
    loop {
        let event = match worker.step() {
            WorkerStep::TakeJobs if waiting > 0 => WorkerEvent::Received,
            WorkerStep::TakeJobs => WorkerEvent::Closed,
            WorkerStep::AwaitAnswer => WorkerEvent::Answered,
            WorkerStep::Stop => return (peak, answered),
        };
        assert!(worker.allows(event));
        worker.note(event);
        match event {
            WorkerEvent::Received => waiting -= 1,
            WorkerEvent::Answered => answered += 1,
            WorkerEvent::Closed => {}
        }
        peak = peak.max(worker.running);
    }
}

#[test]
fn a_worker_runs_several_operations_at_once() {
    let (peak, answered) = run_jobs(4, 4);
    assert_eq!(answered, 4, "every operation is answered");
    assert_eq!(peak, 4, "four jobs and a width of four should have overlapped");
}

#[test]
fn a_worker_never_exceeds_its_width() {
    let (peak, answered) = run_jobs(2, 8);
    assert_eq!(answered, 8, "every operation is answered");
    assert_eq!(peak, 2, "a width of two must never run three at once");
}

#[test]
fn shutdown_answers_operations_it_already_accepted() {
    let mut worker = WorkerLoop::new(4);
    for _ in 0..4 {
        worker.note(WorkerEvent::Received);
    }
    assert!(!worker.allows(WorkerEvent::Closed), "a shutdown is read once there is room");
    worker.note(WorkerEvent::Answered);
    worker.note(WorkerEvent::Closed);
    for nth in 1..4 {
        assert_eq!(
            worker.step(),
            WorkerStep::AwaitAnswer,
            "operation {nth} was accepted and then abandoned at shutdown"
        );
        worker.note(WorkerEvent::Answered);
    }
    assert_eq!(worker.step(), WorkerStep::Stop);
}

#[test]
fn a_worker_carries_its_width_and_drains_before_it_stops() {
    let mut worker = WorkerLoop::new(2);
    assert_eq!(worker.step(), WorkerStep::TakeJobs);
    worker.note(WorkerEvent::Received);
    worker.note(WorkerEvent::Received);
    assert!(!worker.allows(WorkerEvent::Received), "a width of two must never run three at once");
    assert_eq!(worker.step(), WorkerStep::AwaitAnswer);
    worker.note(WorkerEvent::Answered);
    worker.note(WorkerEvent::Closed);
    assert_eq!(worker.step(), WorkerStep::AwaitAnswer, "what was accepted is still answered");
    worker.note(WorkerEvent::Answered);
    assert_eq!(worker.step(), WorkerStep::Stop);
    assert_eq!(WorkerLoop::new(0).width, 1);
}

#[test]
fn a_question_about_a_schema_is_answered_where_it_arrives() {
    let validate = ClientOp::ValidateQuery { index: "books".to_string(), query: "dune".to_string() };
    assert!(is_metadata_operation(&validate));
    assert!(is_metadata_operation(&ClientOp::GetConfig { index: "books".to_string() }));
    assert!(is_metadata_operation(&ClientOp::UpdateSchema {
        index: "books".to_string(),
        field_updates: vec![],
    }));
    assert!(!is_metadata_operation(&ClientOp::ListIndexes { include_data_size: false }));
}

fn put(id: &str) -> WalOp {
    WalOp::Put { id: id.to_string(), json_blob: None }
}

#[test]
fn a_round_writes_then_publishes_then_drops() {
    let index = |name: &str| name.to_string();
    let round = sort_commands(vec![
        StorageCommand::DeleteIndex { index: index("a"), delete_schema: true, reply: 1 },
        StorageCommand::Commit { index: index("a"), reply: 2 },
        StorageCommand::Write { index: index("a"), op: put("x"), reply: 3 },
        StorageCommand::EvictWriter { index: index("b"), reply: 4 },
        StorageCommand::BatchWrite { index: index("a"), ops: vec![put("y"), put("z")], reply: 5 },
        StorageCommand::Write { index: index("b"), op: put("v"), reply: 6 },
        StorageCommand::Write { index: index("a"), op: put("w"), reply: 7 },
        StorageCommand::BatchWrite { index: index("a"), ops: vec![put("u")], reply: 8 },
        StorageCommand::BatchWrite { index: index("b"), ops: vec![], reply: 9 },
    ]);
    let steps = plan_round(round);
    assert_eq!(steps.len(), 7);
    match &steps[0] {
        StoreStep::ApplyWrites { index, ops, replies } => {
            assert_eq!(index, "a");
            assert_eq!(*ops, vec![put("x"), put("w")]);
            assert_eq!(*replies, vec![3, 7]);
        }
        _ => panic!("two writes to one index take one transaction"),
    }
    match &steps[1] {
        StoreStep::ApplyWrite { index, op, reply } => {
            assert_eq!((index.as_str(), op, *reply), ("b", &put("v"), 6));
        }
        _ => panic!("one write goes by itself"),
    }
    match &steps[2] {
        StoreStep::ApplyBatches { index, ops, counts, replies } => {
            assert_eq!(index, "a");
            assert_eq!(*ops, vec![put("y"), put("z"), put("u")]);
            assert_eq!((counts, replies), (&vec![2, 1], &vec![5, 8]));
        }
        _ => panic!("two batches for one index take one transaction"),
    }
    assert!(matches!(&steps[3], StoreStep::ApplyBatch { reply: 9, .. }));
    assert!(matches!(&steps[4], StoreStep::Commit { reply: 2, .. }));
    assert!(matches!(&steps[5], StoreStep::Evict { reply: 4, .. }));
    assert!(matches!(&steps[6], StoreStep::DropIndex { delete_schema: true, reply: 1, .. }));
}

#[test]
fn batches_put_together_are_answered_apart() {
    let counts = vec![2usize, 1];
    let answers = answer_batches(&counts, vec!["p", "q"], &Ok((vec![7, 8, 9], 2)));
    assert_eq!(answers.len(), 2);
    assert_eq!(answers[0], ("p", Ok((vec![7, 8], 1))));
    assert_eq!(answers[1], ("q", Ok((vec![9], 1))));
    let failed = answer_batches(&counts, vec!["p", "q"], &Err(StoreError::Other("full".to_string())));
    assert_eq!(failed[0], ("p", Err(StoreError::Serialization("full".to_string()))));
    assert_eq!(failed[1], ("q", Err(StoreError::Serialization("full".to_string()))));
}

#[test]
fn an_index_is_warmed_once_a_round() {
    let mut published: Vec<String> = Vec::new();
    note_published(&mut published, "a", true);
    note_published(&mut published, "b", false);
    note_published(&mut published, "a", true);
    assert_eq!(published, vec!["a".to_string()]);
}

#[test]
fn peers_are_asked_in_order_and_never_too_many_at_once() {
    let mut fan = FanOut::new(5, 4, 2);
    assert_eq!(fan.ask_next(), Some(0));
    assert_eq!(fan.ask_next(), Some(1));
    assert_eq!(fan.ask_next(), None, "the width is taken");
    fan.answered();
    assert_eq!(fan.ask_next(), Some(2));
    fan.answered();
    fan.answered();
    assert!(!fan.is_done());
    assert_eq!(fan.ask_next(), Some(3));
    assert_eq!(fan.ask_next(), None, "the fan-out limit is reached");
    fan.answered();
    assert!(fan.is_done());
    assert_eq!(FanOut::new(3, 9, 0).ask_next(), Some(0), "one can always be asked");
}

#[test]
fn notes_of_several_nodes_are_told_once() {
    let one = object(vec![("_discarded_clauses", Json::list(vec![text("a"), text("b")]))]);
    let other = object(vec![
        ("_discarded_clauses", Json::list(vec![text("b"), Json::Null, text("c")])),
        ("_approximate_sort", text("title")),
    ]);
    let answers = vec![one, object(vec![]), other];
    assert_eq!(collect_discarded(&answers), texts(&["a", "b", "c"]));
    assert_eq!(collect_approximate_sort(&answers), Some("title".to_string()));
    assert_eq!(collect_approximate_sort(&vec![Json::Null]), None);
}
