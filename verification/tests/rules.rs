//! Text, numbers, validation, evolution, errors, routing and what a node is made of.

use cameodb_server::errors::{
    is_caller_error, shard_error_notes, IoKind, OrchestratorError, RemoteError, StoreError,
};
use cameodb_server::evolution::{
    close_judgement, evolve_schema, open_load, summarize, validate_documents, validates_inline,
    INLINE_VALIDATION_MAX_DOCS,
};
use cameodb_server::chance::IdSource;
use cameodb_server::hits::{
    compare_hits_primary, order_shard_hits, Score, SearchWindow, SortOrder, SortSpec,
};
use cameodb_server::ip::{reads_as_address, reads_as_loopback};
use cameodb_server::json::{entry, json_text, Json, JsonNumber};
use cameodb_server::names::list_names;
use cameodb_server::node::{
    check_proposal, discover_shards, generate_balanced_shard_id, has_room, in_id_order, ring_name,
    shard_of_directory, shards_to_serve, stop_outcome, NodeConfig, ShardStop,
};
use cameodb_server::ops::DocPayload;
use cameodb_server::placement::{
    hydration_concurrency, pinned_core, plan_pool, read_thread_count, CoreLayout, ShardPlacement,
    UNPINNED,
};
use cameodb_server::routing::{
    balances, derive_routing_key_from_doc, directory_index, extract_routing_value,
    least_loaded_directory, orchestrator_remote_name, route_write, shard_directory_name,
};
use cameodb_server::schema::{FieldDef, IndexSchema, TantivyFieldType};
use cameodb_server::search::unknown_projection_fields;
use cameodb_server::text::{
    compare_texts, decimal_text, join_texts, lower_text, parse_count, trim_text, Standing,
};
use cameodb_server::validation::{
    byte_value_error, facet_path_error, infer_field_type, is_naive_date, is_naive_datetime,
    parse_date_to_timestamp_secs, questions_for_store, unstorable_value, unusable_document_identity,
    validate_document, StoreRefusals,
};

fn object(entries: Vec<(&str, Json)>) -> Json {
    Json::object(entries.into_iter().map(|(k, v)| entry(k, v)).collect())
}

fn schema_of(fields: &[(&str, TantivyFieldType)]) -> IndexSchema {
    let mut schema = IndexSchema::default();
    for (name, kind) in fields {
        schema.put_field(name, FieldDef::new(name.to_string(), kind.clone()));
    }
    schema
}

// ---------------------------------------------------------------------------
// Text and numbers
// ---------------------------------------------------------------------------

#[test]
fn a_uuid_is_written_and_read_back() {
    let id = uuid::Uuid::new_v4();
    assert_eq!(ring_name(id.as_u128()), id.simple().to_string()[..3].to_string());
    assert_eq!(orchestrator_remote_name(id.as_u128()), format!("orchestrator-{id}"));
    assert_eq!(shard_of_directory(&shard_directory_name(id.as_u128())), Some(id.as_u128()));
    assert_eq!(shard_of_directory("shard-not-a-uuid"), None);
}

#[test]
fn texts_compare_character_by_character() {
    assert_eq!(compare_texts("a", "b"), Standing::Before);
    assert_eq!(compare_texts("b", "a"), Standing::After);
    assert_eq!(compare_texts("a", "a"), Standing::Level);
    assert_eq!(compare_texts("", "a"), Standing::Before);
    assert_eq!(compare_texts("Z", "a"), Standing::Before);
    assert_eq!(join_texts(&vec!["a".to_string(), "b".to_string()], ", "), "a, b");
    assert_eq!(join_texts(&vec![], ", "), "");
    assert_eq!(decimal_text(u64::MAX), u64::MAX.to_string());
    assert_eq!(parse_count("12"), Some(12));
    assert_eq!(parse_count("+12"), Some(12));
    assert_eq!(parse_count(""), None);
    assert_eq!(parse_count("99999999999999999999999"), None);
    assert_eq!(trim_text("\u{a0} a b \n"), "a b");
    assert_eq!(lower_text("\u{c9}A-Z"), "\u{c9}a-z");
}

#[test]
fn a_value_is_written_as_compact_json() {
    let value = object(vec![
        ("a\"b", Json::text("line\nbreak \u{e9}")),
        ("n", Json::whole(-7)),
        ("r", Json::decimal("1.5")),
        ("l", Json::list(vec![Json::Null, Json::Bool(true), Json::unsigned(3)])),
        ("o", object(vec![])),
    ]);
    assert_eq!(
        json_text(&value),
        "{\"a\\\"b\":\"line\\nbreak \u{e9}\",\"n\":-7,\"r\":1.5,\"l\":[null,true,3],\"o\":{}}"
    );
}

#[test]
fn an_address_reads_as_std_reads_it() {
    for text in [
        "127.0.0.1", "0.0.0.0", "255.255.255.255", "256.0.0.1", "1.2.3", "01.2.3.4", "::1", "::",
        "1::2", "1:2:3:4:5:6:7:8", "1:2:3:4:5:6:7", "::ffff:127.0.0.1", "fe80::1%eth0", "", "a",
        "1:2:3:4:5:6:7:8:9", "::1::", "12345::", "1.2.3.4.5", "::1.2.3.4", "1::1.2.3.4.5",
    ] {
        assert_eq!(
            reads_as_address(text),
            text.parse::<core::net::IpAddr>().is_ok(),
            "{text:?} reads otherwise"
        );
        assert_eq!(
            reads_as_loopback(text),
            text.parse::<core::net::IpAddr>().map(|a| a.is_loopback()).unwrap_or(false),
            "{text:?} is loopback otherwise"
        );
    }
}

#[test]
fn names_are_listed_with_the_key_first() {
    let names = |list: &[&str]| -> Vec<String> { list.iter().map(|n| n.to_string()).collect() };
    assert_eq!(list_names(names(&["title", "id", "abc"]), true), names(&["id", "abc", "title"]));
    assert_eq!(list_names(names(&["title", "id", "abc"]), false), names(&["abc", "id", "title"]));
}

// ---------------------------------------------------------------------------
// Values
// ---------------------------------------------------------------------------

#[test]
fn a_type_is_inferred_from_the_value() {
    for (value, kind) in [
        (Json::Bool(true), TantivyFieldType::Boolean),
        (Json::unsigned(1), TantivyFieldType::I64),
        (Json::whole(-1), TantivyFieldType::I64),
        (Json::unsigned(u64::MAX), TantivyFieldType::U64),
        (Json::decimal("1.5"), TantivyFieldType::F64),
        (Json::text("2024-03-10T00:00:00Z"), TantivyFieldType::Date),
        (Json::text("10.0.0.1"), TantivyFieldType::Ip),
        (Json::text("plain words"), TantivyFieldType::Text),
        (object(vec![]), TantivyFieldType::Json),
    ] {
        assert_eq!(infer_field_type(&value), kind, "{value:?}");
    }
}

#[test]
fn a_date_reads_in_every_form() {
    let noon = parse_date_to_timestamp_secs("2020-06-01T12:00:00Z").unwrap();
    assert_eq!(noon, 1_591_012_800);
    assert_eq!(parse_date_to_timestamp_secs("2020-06-01 12:00:00"), Some(noon));
    assert_eq!(parse_date_to_timestamp_secs("2020-06-01T12:00"), Some(noon));
    assert_eq!(parse_date_to_timestamp_secs("2020-06-01T14:00:00+02:00"), Some(noon));
    assert_eq!(parse_date_to_timestamp_secs("2020-06-01"), Some(noon - 12 * 3600));
    assert_eq!(parse_date_to_timestamp_secs("20200601"), Some(noon - 12 * 3600));
    assert_eq!(parse_date_to_timestamp_secs("yesterday"), None);
    assert!(is_naive_datetime("2020-06-01 12:00") && !is_naive_datetime("2020-06-01"));
    assert!(is_naive_date("2020/06/01") && !is_naive_date("2020-13-01"));
}

#[test]
fn a_value_that_its_field_cannot_hold_is_told() {
    let refusals = StoreRefusals {
        bytes: vec![("256".to_string(), "256 is no byte".to_string())],
        facets: vec![("a/b".to_string(), "a/b is no facet".to_string())],
    };
    assert_eq!(byte_value_error(&Json::unsigned(255), &refusals), None);
    assert_eq!(
        byte_value_error(&Json::unsigned(256), &refusals).as_deref(),
        Some("256 is no byte")
    );
    assert_eq!(facet_path_error("/a/b", &refusals), None);
    assert_eq!(facet_path_error("a/b", &refusals).as_deref(), Some("a/b is no facet"));

    let why = |kind: TantivyFieldType, value: Json| unstorable_value("n", &kind, &value, &refusals);
    assert_eq!(why(TantivyFieldType::I64, Json::unsigned(3)), None);
    assert_eq!(
        why(TantivyFieldType::I64, Json::text("x")).as_deref(),
        Some("Type mismatch for field 'n': expected I64, got Text")
    );
    assert_eq!(why(TantivyFieldType::I64, Json::Null), None);
    assert_eq!(why(TantivyFieldType::Text, Json::list(vec![Json::Bool(true)])), None);
    let numbers = |items: Vec<u64>| Json::list(items.into_iter().map(Json::unsigned).collect());
    assert_eq!(why(TantivyFieldType::I64, numbers(vec![9, 12])), None, "each is a value of it");
    assert!(why(TantivyFieldType::I64, Json::list(vec![Json::unsigned(9), Json::text("x")])).is_some());
    assert_eq!(why(TantivyFieldType::Bytes, numbers(vec![1, 255])), None);
    assert_eq!(
        why(TantivyFieldType::Bytes, numbers(vec![1, 256])).as_deref(),
        Some("field 'n': 256 is no byte")
    );
    assert_eq!(
        why(TantivyFieldType::Bytes, Json::unsigned(1)).as_deref(),
        Some("Type mismatch for field 'n': expected Bytes, got I64")
    );
    assert_eq!(why(TantivyFieldType::Facet, Json::text("/a/b")), None);
    assert_eq!(
        why(TantivyFieldType::Facet, Json::list(vec![Json::text("/c"), Json::text("a/b")])).as_deref(),
        Some("field 'n': a/b is no facet")
    );
}

#[test]
fn the_store_is_asked_of_bytes_and_facets_only() {
    let schema = schema_of(&[
        ("raw", TantivyFieldType::Bytes),
        ("path", TantivyFieldType::Facet),
        ("more", TantivyFieldType::Facet),
        ("title", TantivyFieldType::Text),
    ]);
    let doc = object(vec![
        ("raw", Json::list(vec![Json::unsigned(1), Json::text("x")])),
        ("path", Json::text("/a")),
        ("title", Json::text("/t")),
        ("more", Json::list(vec![Json::text("/b"), Json::Null, Json::text("c")])),
        ("unknown", Json::text("/u")),
    ]);
    let questions = questions_for_store(&doc, &schema);
    assert_eq!(questions.bytes, vec![Json::unsigned(1), Json::text("x")]);
    assert_eq!(questions.facets, vec!["/a".to_string(), "/b".to_string(), "c".to_string()]);
    assert_eq!(questions_for_store(&Json::Null, &schema).bytes, vec![]);
}

#[test]
fn a_document_is_named_by_its_key() {
    let body = object(vec![("title", Json::text("Dune"))]);
    assert_eq!(unusable_document_identity("d1", &body), None);
    assert!(unusable_document_identity("", &body).unwrap().contains("non-empty 'id'"));
    let other = object(vec![("id", Json::text("d2"))]);
    assert!(unusable_document_identity("d1", &other).unwrap().contains("but its body says id="));
    assert_eq!(unusable_document_identity("d2", &other), None);
}

#[test]
fn a_document_with_a_new_field_needs_a_grown_schema() {
    let schema = schema_of(&[("title", TantivyFieldType::Text)]);
    let known = validate_document("d1", &object(vec![("title", Json::text("x"))]), &schema, &StoreRefusals::none());
    assert!(!known.needs_evolution && known.validation_error.is_none());
    let grown = validate_document("d1", &object(vec![("year", Json::unsigned(1))]), &schema, &StoreRefusals::none());
    assert!(grown.needs_evolution);
    assert_eq!(grown.new_fields, vec![("year".to_string(), TantivyFieldType::I64)]);
    let wrong = validate_document("d1", &Json::text("no object"), &schema, &StoreRefusals::none());
    assert_eq!(wrong.validation_error.as_deref(), Some("Document body must be a JSON object"));
}

fn learn(mut schema: IndexSchema, doc: &Json) -> IndexSchema {
    for (name, value) in doc.as_object().unwrap() {
        if schema.field(name).is_none() {
            let mut field = FieldDef::new(name.clone(), infer_field_type(value));
            field.indexed = false;
            schema.put_field(name, field);
        }
    }
    schema
}

#[test]
fn a_load_judges_each_document_and_learns_what_is_new() {
    let docs = vec![
        DocPayload {
            id: "a".to_string(),
            routing_key: None,
            doc: object(vec![("title", Json::text("x"))]),
        },
        DocPayload { id: "".to_string(), routing_key: None, doc: object(vec![]) },
        DocPayload {
            id: "c".to_string(),
            routing_key: None,
            doc: object(vec![("year", Json::unsigned(1))]),
        },
    ];
    let mut schema = schema_of(&[("title", TantivyFieldType::Text)]);
    let opening = open_load(&docs, &mut schema, learn);
    assert!(!opening.is_initial_creation && !opening.must_persist);
    let summary = summarize(&validate_documents(&docs, &schema, &StoreRefusals::none()));
    assert_eq!((summary.total_docs, summary.valid_docs), (3, 2));
    assert_eq!(summary.errors.len(), 1);
    assert_eq!(summary.errors[0].0, 1);
    assert!(summary.evolution_needed);
    assert!(close_judgement(&mut schema, &summary, false));
    assert!(!schema.field("year").unwrap().indexed, "a field that arrives late has no column");

    let mut fresh = IndexSchema::default();
    let first = open_load(&docs, &mut fresh, learn);
    assert!(first.is_initial_creation && first.must_persist);
    assert!(fresh.field("title").unwrap().indexed && fresh.field("year").unwrap().indexed);
    assert!(!evolve_schema(&mut fresh, &vec![], false));
    assert!(validates_inline(INLINE_VALIDATION_MAX_DOCS));
    assert!(!validates_inline(INLINE_VALIDATION_MAX_DOCS + 1));
}

// ---------------------------------------------------------------------------
// Errors
// ---------------------------------------------------------------------------

#[test]
fn an_error_says_what_it_is() {
    let io = || OrchestratorError::Io { kind: IoKind::InvalidInput, message: "bad".to_string() };
    assert_eq!(io().message(), "io error: bad");
    assert_eq!(OrchestratorError::Identity("x".to_string()).message(), "identity error: x");
    assert_eq!(
        OrchestratorError::ShardLimitExceeded { current: 8, max: 8 }.message(),
        "shard limit exceeded: 8/8"
    );
    assert_eq!(
        OrchestratorError::ShardAlreadyExists { shard_id: 0 }.message(),
        "shard already exists: 00000000-0000-0000-0000-000000000000"
    );
    assert!(is_caller_error(&io()));
    assert!(!is_caller_error(&OrchestratorError::Io {
        kind: IoKind::Other,
        message: "disk".to_string()
    }));
    assert!(is_caller_error(&OrchestratorError::Storage(StoreError::InvalidFieldValue(
        "x".to_string()
    ))));
    assert_eq!(
        shard_error_notes(&vec![(0, io())]),
        vec!["Shard 00000000-0000-0000-0000-000000000000: io error: bad".to_string()]
    );
}

#[test]
fn a_refusal_stays_a_refusal_across_nodes() {
    let sent = RemoteError::tell(OrchestratorError::Io {
        kind: IoKind::NotFound,
        message: "gone".to_string(),
    });
    match sent.take() {
        OrchestratorError::Io { kind, message } => {
            assert_eq!((kind, message.as_str()), (IoKind::Other, "gone"));
        }
        other => panic!("{other:?}"),
    }
    let refused = RemoteError::tell(OrchestratorError::UnsortableField {
        field: "f".to_string(),
        reason: "r".to_string(),
    });
    assert!(is_caller_error(&refused.take()));
}

// ---------------------------------------------------------------------------
// Routing
// ---------------------------------------------------------------------------

#[test]
fn a_write_goes_to_the_owner_of_its_key() {
    assert_eq!(route_write(Some("k"), Some(7), Some(1)), Ok(7));
    assert_eq!(route_write(Some("k"), None, Some(1)), Ok(1));
    assert_eq!(
        route_write(Some("k"), None, None),
        Err(OrchestratorError::Io {
            kind: IoKind::NotFound,
            message: "No shard selected".to_string()
        })
    );
    assert_eq!(
        route_write(None, Some(7), Some(1)),
        Err(OrchestratorError::Io {
            kind: IoKind::InvalidInput,
            message: "Missing routing key for write".to_string()
        })
    );
    assert_eq!(
        orchestrator_remote_name(0),
        "orchestrator-00000000-0000-0000-0000-000000000000"
    );
}

#[test]
fn a_routing_value_is_read_as_text() {
    let doc = object(vec![
        ("a", Json::text("x")),
        ("b", Json::unsigned(5)),
        ("c", Json::Bool(true)),
        ("d", Json::Null),
        ("e", Json::text("")),
    ]);
    assert_eq!(extract_routing_value(&doc, "a").as_deref(), Some("x"));
    assert_eq!(extract_routing_value(&doc, "b").as_deref(), Some("5"));
    assert_eq!(extract_routing_value(&doc, "d"), None);
    assert_eq!(extract_routing_value(&doc, "z"), None);
    let one = derive_routing_key_from_doc(&doc);
    assert!(one.is_some());
    assert_eq!(one, derive_routing_key_from_doc(&doc));
}

#[test]
fn a_document_without_a_key_stands_for_its_own() {
    let named = object(vec![("title", Json::text("Dune")), ("id", Json::text("d1"))]);
    assert_eq!(derive_routing_key_from_doc(&named).as_deref(), Some("d1"));
    let numbered = object(vec![("id", Json::unsigned(7))]);
    assert_eq!(derive_routing_key_from_doc(&numbered).as_deref(), Some("7b226964223a377d"));
    assert_eq!(derive_routing_key_from_doc(&Json::Null).as_deref(), Some("6e756c6c"));
    let long = derive_routing_key_from_doc(&Json::text(&"a".repeat(200))).unwrap();
    assert_eq!(long, format!("22{}", "61".repeat(63)));
}

#[test]
fn a_shard_stays_in_its_directory() {
    let id = uuid::Uuid::new_v4();
    let first = u64::from_be_bytes(id.as_bytes()[..8].try_into().unwrap()) as usize;
    assert_eq!(directory_index(id.as_u128(), 3), first % 3);
    assert_eq!(shard_directory_name(id.as_u128()), format!("shard-{id}"));
    assert_eq!(shard_of_directory(&format!("shard-{id}")), Some(id.as_u128()));
    assert_eq!(shard_of_directory("shard-x"), None);
    assert_eq!(shard_of_directory("other"), None);
    assert_eq!(least_loaded_directory(&vec![], 3), Some(0));
    assert_eq!(least_loaded_directory(&vec![], 0), None);
}

#[test]
fn a_new_shard_goes_to_the_emptiest_directory() {
    let shards: Vec<u128> = (0..5u128).map(|n| n << 64).collect();
    let target = least_loaded_directory(&shards, 3).unwrap();
    let mut source = IdSource::new();
    let id = generate_balanced_shard_id(&shards, 3, 100_000, &mut source).unwrap();
    assert_eq!(directory_index(id, 3), target);
    assert!(balances(id, &shards, 3));
    let other = generate_balanced_shard_id(&shards, 3, 100_000, &mut source).unwrap();
    assert_eq!(generate_balanced_shard_id(&shards, 3, 0, &mut source), None);
    assert_ne!(id, other, "identifiers are drawn at random");
    assert_eq!(uuid::Uuid::from_u128(id).get_version_num(), 4);
}

#[test]
fn shards_are_discovered_once_and_proposed_within_limits() {
    let a = uuid::Uuid::new_v4();
    let name = format!("shard-{a}");
    assert_eq!(
        discover_shards(&vec![name.clone(), "logs".to_string(), name]),
        vec![a.as_u128()]
    );
    assert_eq!(in_id_order(vec![3, 1, 2]), vec![1, 2, 3]);
    assert!(has_room(7, 8) && !has_room(8, 8));
    assert_eq!(check_proposal(&vec![1], 8, 2), Ok(()));
    assert_eq!(
        check_proposal(&vec![1], 8, 1),
        Err(OrchestratorError::ShardAlreadyExists { shard_id: 1 })
    );
    assert_eq!(
        check_proposal(&vec![1, 2], 2, 3),
        Err(OrchestratorError::ShardLimitExceeded { current: 2, max: 2 })
    );
    assert_eq!(ring_name(a.as_u128()), a.to_string()[..3].to_string());
}

#[test]
fn a_stop_tells_every_shard_that_did_not() {
    assert_eq!(stop_outcome(&vec![(1, ShardStop::Done)]), Ok(()));
    let error = stop_outcome(&vec![
        (0, ShardStop::TimedOut),
        (0, ShardStop::Done),
        (0, ShardStop::TaskFailed("boom".to_string())),
    ])
    .unwrap_err();
    let zero = uuid::Uuid::nil();
    assert_eq!(
        error.message(),
        format!(
            "io error: Shutdown errors: Shard {zero} storage shutdown timed out after 30s; Shard \
             {zero} shutdown task failed: boom"
        )
    );
}

#[test]
fn a_node_stores_where_it_is_told() {
    let mut config = NodeConfig::default();
    assert!(!config.writer_core_affinity && !config.shard_affine_dispatch);
    assert!(!config.worker_core_affinity);
    assert_eq!(config.storage_path_candidates(), vec!["./data/cameodb".to_string()]);
    config.storage_paths = vec![];
    config.storage_path = "/x".to_string();
    assert_eq!(config.storage_path_candidates(), vec!["/x".to_string()]);
    let storage = config.shard_storage("/x/shard-1");
    assert_eq!(storage.shard_path, "/x/shard-1");
    assert_eq!(storage.indexer_memory_budget, 16 * 1024 * 1024);
    assert_eq!(storage.total_memory_limit_bytes, 2048 * 1024 * 1024);
}

#[test]
fn threads_are_counted_from_the_machine() {
    assert_eq!(read_thread_count(0, 8), 4);
    assert_eq!(read_thread_count(0, 2), 2);
    assert_eq!(read_thread_count(6, 2), 6);
    assert!(hydration_concurrency(8, 3) <= 3);
    assert_eq!(pinned_core(UNPINNED), None);
    assert_eq!(pinned_core(3), Some(3));
    let plan = plan_pool(&CoreLayout::resolve(Some(8), vec![]), 4, false, true, true);
    assert!(!plan.pin_workers && plan.worker_count >= 1);
}

#[test]
fn a_shard_beyond_the_cores_wraps() {
    let layout = CoreLayout::resolve(Some(2), vec![4, 6, 8]);
    let mut placement = ShardPlacement::new();
    assert_eq!(placement.assign(1, &layout, true).1.target_core, Some(4));
    assert_eq!(placement.assign(2, &layout, true).1.target_core, Some(6));
    assert_eq!(placement.assign(3, &layout, true).1.target_core, Some(4));
    assert_eq!(placement.len(), 3);
}

// ---------------------------------------------------------------------------
// Hits
// ---------------------------------------------------------------------------

#[test]
fn a_window_is_checked_by_what_it_fetches() {
    assert_eq!(
        SearchWindow::checked(None, None, 10, 100),
        Ok(SearchWindow { offset: 0, limit: 10 })
    );
    assert!(SearchWindow::checked(Some(10), Some(90), 10, 100).is_ok());
    let refusal = SearchWindow::checked(Some(10), Some(91), 10, 100).unwrap_err();
    assert!(refusal.contains("= 101 is above the maximum of 100"), "{refusal}");
    assert!(SearchWindow::checked(None, Some(100), 10, 100).is_err());
}

#[test]
fn numbers_of_every_kind_compare_as_numbers() {
    let hit = |score: Json| object(vec![("_score", score)]);
    let order = |a: Json, b: Json| compare_hits_primary(&hit(a), &hit(b), None);
    assert_eq!(order(Json::decimal("2.0"), Json::decimal("1e-3")), std::cmp::Ordering::Less);
    assert_eq!(order(Json::decimal("0.5"), Json::unsigned(1)), std::cmp::Ordering::Greater);
    assert_eq!(order(Json::decimal("1.0"), Json::unsigned(1)), std::cmp::Ordering::Equal);
}

#[test]
fn a_shard_tie_is_broken_by_the_shard() {
    let score = |n: i64| Score { order: Some(n), number: Some(JsonNumber::Unsigned(n as u64)) };
    let mut hits = vec![
        (2u128, score(1), Json::text("c")),
        (1u128, score(1), Json::text("b")),
        (2u128, score(9), Json::text("a")),
    ];
    order_shard_hits(&mut hits, None);
    let docs: Vec<&Json> = hits.iter().map(|h| &h.2).collect();
    assert_eq!(docs, vec![&Json::text("a"), &Json::text("b"), &Json::text("c")]);
    let key = |k: u64| object(vec![("_sort_key", Json::unsigned(k))]);
    let mut keyed = vec![(1u128, score(9), key(1)), (2u128, score(1), key(5))];
    let sort = SortSpec { field: "x".to_string(), order: SortOrder::Desc };
    order_shard_hits(&mut keyed, Some(&sort));
    assert_eq!(keyed[0].2, key(5));
}

#[test]
fn a_projection_of_an_unknown_field_is_noted() {
    let schema = schema_of(&[("title", TantivyFieldType::Text)]);
    let notes = unknown_projection_fields(
        &schema,
        &Some(vec![
            "title".to_string(),
            "nosuch".to_string(),
            "shard_id".to_string(),
            "_score".to_string(),
        ]),
    );
    assert_eq!(notes.len(), 1);
    assert!(notes[0].starts_with("'return nosuch' names a field this index does not have"));
    assert!(unknown_projection_fields(&schema, &None).is_empty());
}

#[test]
fn a_node_serves_the_first_shards_that_started() {
    let found = vec![(1u128, Some("a")), (2, None), (3, Some("b")), (4, Some("c"))];
    assert_eq!(shards_to_serve(found.clone(), 2), vec![(1, "a"), (3, "b")]);
    assert_eq!(shards_to_serve(found.clone(), 9), vec![(1, "a"), (3, "b"), (4, "c")]);
    assert_eq!(shards_to_serve(found, 0), vec![]);
}
