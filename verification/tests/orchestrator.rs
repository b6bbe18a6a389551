//! Routing, placement, sampling, projection, merging and reasons.

use std::cmp::Ordering;
use std::collections::HashSet;

use cameodb_server::errors::{no_shard_answered, IoKind, OrchestratorError};
use cameodb_server::evolution::{
    enhanced_schema_sampling, mark_initial_fields_indexed, SCHEMA_SAMPLE_LIMIT,
};
use cameodb_server::hits::{
    apply_field_projection, compare_hits_by_field, order_hit_blocks, strip_sort_keys, Score,
    SearchWindow, SortOrder, SortSpec, SORT_KEY_FIELD,
};
use cameodb_server::json::{entry, Json};
use cameodb_server::ops::{DeletePayload, DocPayload};
use cameodb_server::placement::{CoreLayout, ShardPlacement, UNPINNED};
use cameodb_server::reasons::{remote_rejections, split_document_reason};
use cameodb_server::routing::{effective_delete_routing_key, effective_routing_key};
use cameodb_server::schema::{FieldDef, IndexSchema, TantivyFieldType};
use cameodb_server::search::{
    normalize_projection_fields, normalize_sort_key, stamp_sort_keys, unsortable_sort_field,
};
use cameodb_server::validation::infer_field_type;
use uuid::Uuid;

fn object(entries: Vec<(&str, Json)>) -> Json {
    Json::object(entries.into_iter().map(|(k, v)| entry(k, v)).collect())
}

fn text(t: &str) -> Json {
    Json::text(t)
}

fn names(list: &[&str]) -> Vec<String> {
    list.iter().map(|n| n.to_string()).collect()
}

fn new_shard() -> u128 {
    Uuid::new_v4().as_u128()
}

fn layout() -> CoreLayout {
    CoreLayout::resolve(Some(8), (0..8).collect())
}

// ---------------------------------------------------------------------------
// Routing
// ---------------------------------------------------------------------------

fn tenanted() -> IndexSchema {
    let mut schema = IndexSchema::default();
    schema.put_field(
        "tenant_id",
        FieldDef::new("tenant_id".to_string(), TantivyFieldType::String),
    );
    schema.set_routing_field("tenant_id".to_string()).expect("the field exists");
    schema
}

#[test]
fn the_routing_key_comes_from_the_document_before_the_caller() {
    let schema = tenanted();
    let doc = object(vec![
        ("id", text("d1")),
        ("tenant_id", text("acme")),
        ("title", text("Dune")),
    ]);

    assert_eq!(
        effective_routing_key(&schema, "d1", Some("d1".to_string()), &doc).as_deref(),
        Some("acme"),
        "the schema's routing field decides, even against an explicit routing_key"
    );
    assert_eq!(
        effective_routing_key(&schema, "d1", None, &doc).as_deref(),
        Some("acme"),
        "and with no routing_key at all"
    );

    let bare = object(vec![("id", text("d1")), ("title", text("Dune"))]);
    assert_eq!(
        effective_routing_key(&schema, "d1", Some("caller".to_string()), &bare).as_deref(),
        Some("caller"),
        "the caller's key is honoured only where the document is silent"
    );
    assert_eq!(
        effective_routing_key(&schema, "d1", None, &bare).as_deref(),
        Some("d1"),
        "then the id"
    );
    assert!(
        effective_routing_key(&schema, "", None, &bare).is_some(),
        "and finally a hash of the document, so an unkeyed write is still deterministic"
    );

    let default_schema = IndexSchema::default();
    assert_eq!(
        effective_routing_key(&default_schema, "d1", None, &bare).as_deref(),
        Some("d1"),
        "routing_field defaults to `id`"
    );
}

#[test]
fn a_delete_entry_reads_as_a_bare_id_or_as_an_object() {
    let parsed: Vec<DeletePayload> = [
        text("b1"),
        object(vec![("id", text("b2"))]),
        object(vec![("id", text("b3")), ("routing_key", text("acme"))]),
    ]
    .iter()
    .map(|value| DeletePayload::from_json(value).expect("both shapes deserialize"))
    .collect();

    let seen: Vec<(&str, Option<&str>)> =
        parsed.iter().map(|entry| (entry.id(), entry.routing_key())).collect();
    assert_eq!(seen, vec![("b1", None), ("b2", None), ("b3", Some("acme"))]);

    assert_eq!(parsed[0].to_json(), text("b1"));

    assert!(
        DeletePayload::from_json(&object(vec![("document", text("b1"))])).is_none(),
        "an entry that names no id is refused rather than read as something else"
    );
}

#[test]
fn a_delete_routes_by_the_id_unless_the_index_routes_by_something_else() {
    let default_schema = IndexSchema::default();
    assert_eq!(
        effective_delete_routing_key(&default_schema, "d1", None).expect("routable"),
        "d1"
    );

    let mut shadow = IndexSchema::default();
    shadow.add_shadow_field("sha1".to_string(), TantivyFieldType::String);
    shadow.set_routing_field("sha1".to_string()).expect("the field exists");
    assert!(shadow.is_shadow_field("sha1"));
    assert_eq!(
        effective_delete_routing_key(&shadow, "abc123", None).expect("routable"),
        "abc123"
    );

    let tenanted = tenanted();
    let refused = effective_delete_routing_key(&tenanted, "d1", None)
        .expect_err("a keyless delete on a tenant index cannot be routed");
    let message = refused.message();
    assert!(
        message.contains("tenant_id"),
        "the refusal must name the field to supply: {message}"
    );
    assert!(message.contains("id:d1"), "and how to find its value: {message}");
    assert!(
        matches!(&refused, OrchestratorError::Io { kind, .. } if *kind == IoKind::InvalidInput),
        "InvalidInput is what is answered as the caller's error"
    );

    assert_eq!(
        effective_delete_routing_key(&tenanted, "d1", Some("acme".to_string())).expect("routable"),
        "acme"
    );
    assert_eq!(
        effective_delete_routing_key(&default_schema, "d1", Some("acme".to_string()))
            .expect("routable"),
        "acme"
    );
}

// ---------------------------------------------------------------------------
// Placement
// ---------------------------------------------------------------------------

#[test]
fn every_shard_gets_its_own_worker_until_the_pool_runs_out() {
    let mut placement = ShardPlacement::default();
    let layout = layout();
    let shards: Vec<u128> = (0..4).map(|_| new_shard()).collect();
    for &shard in &shards {
        placement.assign(shard, &layout, false);
    }

    let workers = 8;
    let assigned: HashSet<usize> =
        shards.iter().map(|shard| placement.ordinal(*shard).unwrap() % workers).collect();

    assert_eq!(
        assigned.len(),
        shards.len(),
        "four shards must reach four distinct workers, not collide onto fewer"
    );
}

#[test]
fn shards_past_the_worker_count_wrap_evenly() {
    let mut placement = ShardPlacement::default();
    let layout = layout();
    let shards: Vec<u128> = (0..16).map(|_| new_shard()).collect();
    for &shard in &shards {
        placement.assign(shard, &layout, false);
    }

    let workers = 8;
    let mut per_worker = vec![0usize; workers];
    for shard in &shards {
        per_worker[placement.ordinal(*shard).unwrap() % workers] += 1;
    }

    assert!(
        per_worker.iter().all(|count| *count == 2),
        "16 shards over 8 workers should be 2 each, got {per_worker:?}"
    );
}

#[test]
fn an_ordinal_survives_later_shards_arriving() {
    let mut placement = ShardPlacement::default();
    let layout = layout();
    let first = new_shard();
    let ordinal = placement.assign(first, &layout, false).0;

    for _ in 0..5 {
        placement.assign(new_shard(), &layout, false);
    }
    assert_eq!(placement.assign(first, &layout, false).0, ordinal);
    assert_eq!(placement.ordinal(first), Some(ordinal));
}

#[test]
fn placement_claims_only_shards_that_actually_started() {
    let mut placement = ShardPlacement::default();
    let layout = layout();
    let serving = new_shard();
    let failed_to_hydrate = new_shard();

    placement.assign(serving, &layout, false);
    placement.activate(serving);
    placement.assign(failed_to_hydrate, &layout, false);

    assert!(placement.is_local(serving));
    assert!(
        !placement.is_local(failed_to_hydrate),
        "an ordinal is not a claim; only a started shard is"
    );
    assert!(!placement.is_local(new_shard()));
    assert!(
        placement.ordinal(failed_to_hydrate).is_some(),
        "the ordinal is still spent — reusing it would move a live writer's core"
    );
}

#[test]
fn a_requested_core_is_not_reported_as_a_taken_one() {
    let mut placement = ShardPlacement::default();
    let layout = layout();
    let shard = new_shard();

    placement.assign(shard, &layout, true);
    placement.activate(shard);

    let before = &placement.report(&vec![UNPINNED])[0];
    assert_eq!(before.core_id, None, "nothing has pinned yet, so no core is taken");
    if layout.pinning_available() {
        assert!(
            before.target_core_id.is_some(),
            "but one was requested, and that has to be visible too"
        );
    }

    // Stand in for the writer thread reporting success.
    let after = &placement.report(&vec![3])[0];
    assert_eq!(after.core_id, Some(3));
    assert!(after.serving);
}

#[test]
fn the_report_shows_a_shard_that_holds_an_ordinal_without_serving() {
    let mut placement = ShardPlacement::default();
    let layout = layout();
    let serving = new_shard();
    let stalled = new_shard();

    placement.assign(serving, &layout, true);
    placement.activate(serving);
    placement.assign(stalled, &layout, true);

    let report = placement.report(&vec![UNPINNED, UNPINNED]);
    assert_eq!(report.len(), 2, "both shards appear");
    assert_eq!(report[0].ordinal, 0, "report is ordered by ordinal");
    assert_eq!(report[1].ordinal, 1);
    assert!(report[0].serving);
    assert!(!report[1].serving);
}

#[test]
fn no_core_is_requested_when_pinning_is_off() {
    let mut placement = ShardPlacement::default();
    let shard = new_shard();
    placement.assign(shard, &layout(), false);

    let report = placement.report(&vec![UNPINNED]);
    assert_eq!(report[0].target_core_id, None);
    assert_eq!(report[0].core_id, None);
}

#[test]
fn the_core_layout_never_exceeds_the_cpu_budget() {
    for layout in [
        layout(),
        CoreLayout::resolve(Some(2), (0..8).collect()),
        CoreLayout::resolve(Some(0), vec![5]),
        CoreLayout::resolve(None, vec![]),
    ] {
        assert!(layout.budget() >= 1);
        let pinnable: HashSet<usize> = (0..100).filter_map(|o| layout.core_for(o)).collect();
        assert!(
            pinnable.len() <= layout.budget(),
            "pinnable cores ({}) must not exceed the budget ({})",
            pinnable.len(),
            layout.budget()
        );
        if layout.pinning_available() {
            // Ordinals past the end wrap rather than falling off it.
            assert!(layout.core_for(pinnable.len() * 3 + 1).is_some());
        } else {
            assert!(layout.core_for(0).is_none());
        }
    }
}

// ---------------------------------------------------------------------------
// Sampling
// ---------------------------------------------------------------------------

/// How a store learns from a document: it declares the fields it did not know, without a column, and
/// leaves the document key to the index it will create.
fn learn(mut schema: IndexSchema, doc: &Json) -> IndexSchema {
    for (name, value) in doc.as_object().unwrap() {
        if name != "id" && schema.field(name).is_none() {
            let mut field = FieldDef::new(name.clone(), infer_field_type(value));
            field.indexed = false;
            field.stored = false;
            schema.put_field(name, field);
        }
    }
    schema
}

fn payload(id: &str, doc: Json) -> DocPayload {
    DocPayload { id: id.to_string(), routing_key: None, doc }
}

#[test]
fn fields_inferred_when_the_index_is_created_are_searchable() {
    let schema = enhanced_schema_sampling(
        &vec![payload(
            "d1",
            object(vec![
                ("id", text("d1")),
                ("title", text("hello")),
                ("year", Json::unsigned(2024)),
            ]),
        )],
        SCHEMA_SAMPLE_LIMIT,
        learn,
    );

    for name in ["title", "year"] {
        let field =
            schema.field(name).unwrap_or_else(|| panic!("{name} should have been inferred"));
        assert!(field.indexed, "{name} has to be searchable");
        assert!(!field.stored, "only id belongs in tantivy's stored fields");
    }
}

#[test]
fn nothing_inferred_is_stored_in_tantivy() {
    let schema = enhanced_schema_sampling(
        &vec![payload("d1", object(vec![("id", text("d1")), ("title", text("hello"))]))],
        SCHEMA_SAMPLE_LIMIT,
        learn,
    );

    assert!(schema.field("id").is_none(), "id is seeded by the storage layer, not inferred");
    assert!(
        schema.fields.iter().all(|(_, field)| !field.stored),
        "an inferred field is indexed, never stored"
    );
}

#[test]
fn a_shadow_field_survives_initial_creation_untouched() {
    let mut schema = IndexSchema::default();
    schema.add_shadow_field("sha1".to_string(), TantivyFieldType::Text);
    let mut title = FieldDef::new("title".to_string(), TantivyFieldType::Text);
    title.indexed = false;
    title.stored = false;
    schema.put_field("title", title);

    mark_initial_fields_indexed(&mut schema);

    let shadow = schema.field("sha1").unwrap();
    assert!(!shadow.indexed, "a shadow field is never indexed");
    assert!(!shadow.stored, "a shadow field is never stored");
    assert!(schema.field("title").unwrap().indexed, "ordinary fields still are");
}

#[test]
fn normalize_projection_fields_rewrites_id_to_the_shadow_name() {
    let mut shadow = IndexSchema::default();
    shadow.add_shadow_field("sha1".to_string(), TantivyFieldType::String);
    shadow.put_field("title", FieldDef::new("title".to_string(), TantivyFieldType::String));

    assert_eq!(
        normalize_projection_fields(&shadow, &names(&["id", "title"])),
        vec!["sha1".to_string(), "title".to_string()],
        "`id` is rewritten to the shadow name; other fields are left alone"
    );
    assert_eq!(
        normalize_projection_fields(&shadow, &names(&["sha1"])),
        vec!["sha1".to_string()],
        "the shadow name is already the name hits carry, so it is a no-op"
    );
    assert_eq!(
        normalize_projection_fields(&shadow, &vec![]),
        Vec::<String>::new(),
        "an empty projection stays empty"
    );

    let plain = IndexSchema::default();
    assert_eq!(
        normalize_projection_fields(&plain, &names(&["id", "title"])),
        vec!["id".to_string(), "title".to_string()],
        "on a plain index the key is `id`, so the rewrite is identity"
    );
}

// ---------------------------------------------------------------------------
// Projection
// ---------------------------------------------------------------------------

fn rust_book(more: Vec<(&str, Json)>) -> Json {
    let mut entries = vec![("title", text("Rust Programming")), ("author", text("John Doe"))];
    entries.extend(more);
    object(entries)
}

fn keys(value: &Json) -> Vec<&str> {
    value.as_object().unwrap().iter().map(|(k, _)| k.as_str()).collect()
}

#[test]
fn test_apply_field_projection_single_field() {
    let doc = rust_book(vec![
        ("year", Json::unsigned(2024)),
        ("_score", Json::decimal("0.95")),
        ("_id", text("abc123")),
    ]);
    let result = apply_field_projection(doc, &names(&["title"]));

    assert_eq!(result.get("title").unwrap(), &text("Rust Programming"));
    assert_eq!(result.get("_score").unwrap(), &Json::decimal("0.95"));
    assert_eq!(result.get("_id").unwrap(), &text("abc123"));
    assert!(result.get("author").is_none());
    assert!(result.get("year").is_none());
}

#[test]
fn test_apply_field_projection_multiple_fields() {
    let doc = rust_book(vec![
        ("year", Json::unsigned(2024)),
        ("isbn", text("123-456")),
        ("_score", Json::decimal("0.95")),
    ]);
    let result = apply_field_projection(doc, &names(&["title", "author"]));

    assert_eq!(result.get("title").unwrap(), &text("Rust Programming"));
    assert_eq!(result.get("author").unwrap(), &text("John Doe"));
    assert_eq!(result.get("_score").unwrap(), &Json::decimal("0.95"));
    assert!(result.get("year").is_none());
    assert!(result.get("isbn").is_none());
}

#[test]
fn test_apply_field_projection_preserves_all_metadata() {
    let doc = rust_book(vec![
        ("_score", Json::decimal("0.95")),
        ("_id", text("doc123")),
        ("_timestamp", Json::unsigned(1234567890)),
        ("_shard_id", text("abc123")),
    ]);
    let result = apply_field_projection(doc, &names(&["title"]));

    assert_eq!(result.get("title").unwrap(), &text("Rust Programming"));
    assert_eq!(result.get("_score").unwrap(), &Json::decimal("0.95"));
    assert_eq!(result.get("_id").unwrap(), &text("doc123"));
    assert_eq!(result.get("_timestamp").unwrap(), &Json::unsigned(1234567890));
    assert_eq!(result.get("_shard_id").unwrap(), &text("abc123"));
    assert!(result.get("author").is_none());
}

#[test]
fn test_apply_field_projection_nonexistent_field() {
    let doc = rust_book(vec![("_score", Json::decimal("0.95"))]);
    let result = apply_field_projection(doc, &names(&["title", "nonexistent"]));

    assert_eq!(result.get("title").unwrap(), &text("Rust Programming"));
    assert_eq!(result.get("_score").unwrap(), &Json::decimal("0.95"));
    assert!(result.get("nonexistent").is_none());
    assert!(result.get("author").is_none());
}

#[test]
fn test_apply_field_projection_empty_fields() {
    let doc = rust_book(vec![("_score", Json::decimal("0.95"))]);
    let result = apply_field_projection(doc, &vec![]);

    assert_eq!(result.get("_score").unwrap(), &Json::decimal("0.95"));
    assert!(result.get("title").is_none());
    assert!(result.get("author").is_none());
}

#[test]
fn test_apply_field_projection_non_object() {
    let result = apply_field_projection(text("not an object"), &names(&["title"]));
    assert_eq!(result, text("not an object"));
}

#[test]
fn test_apply_field_projection_nested_fields() {
    let doc = object(vec![
        ("title", text("Rust Programming")),
        (
            "author",
            object(vec![("name", text("John Doe")), ("email", text("john@example.com"))]),
        ),
        ("_score", Json::decimal("0.95")),
    ]);
    let result = apply_field_projection(doc, &names(&["author"]));

    assert_eq!(result.get("author").unwrap().get("name").unwrap(), &text("John Doe"));
    assert_eq!(result.get("author").unwrap().get("email").unwrap(), &text("john@example.com"));
    assert_eq!(result.get("_score").unwrap(), &Json::decimal("0.95"));
    assert!(result.get("title").is_none());
}

#[test]
fn test_apply_field_projection_preserves_user_order() {
    let doc = object(vec![
        ("id", text("doc1")),
        ("title", text("Rust Programming")),
        ("author", text("John Doe")),
        ("year", Json::unsigned(2024)),
        ("_score", Json::decimal("0.95")),
    ]);
    let result = apply_field_projection(doc, &names(&["year", "title", "author"]));
    assert_eq!(keys(&result), vec!["year", "title", "author", "_score"]);
}

#[test]
fn test_apply_field_projection_order_with_sort_key() {
    let doc = object(vec![
        ("id", text("doc1")),
        ("title", text("Rust Programming")),
        ("author", text("John Doe")),
        ("year", Json::unsigned(2024)),
        ("_sort_key", Json::unsigned(2024)),
        ("_score", Json::decimal("1.0")),
        ("shard_id", text("abc-123")),
    ]);
    let mut result = apply_field_projection(doc, &names(&["year", "title", "author"]));
    result.remove(SORT_KEY_FIELD);
    assert_eq!(keys(&result), vec!["year", "title", "author", "_score"]);
}

#[test]
fn test_apply_field_projection_order_without_sort_key() {
    let doc = object(vec![
        ("id", text("doc1")),
        ("title", text("Rust Programming")),
        ("author", text("John Doe")),
        ("year", Json::unsigned(2024)),
        ("_score", Json::decimal("1.0")),
        ("shard_id", text("abc-123")),
    ]);
    let result = apply_field_projection(doc, &names(&["year", "title", "author"]));
    assert_eq!(keys(&result), vec!["year", "title", "author", "_score"]);
}

// ---------------------------------------------------------------------------
// Merging
// ---------------------------------------------------------------------------

fn titles(hits: &[Json]) -> Vec<String> {
    hits.iter()
        .map(|h| h.get("title").and_then(|t| t.as_text()).cloned().unwrap_or_default())
        .collect()
}

fn keyed(title: &str, key: u64) -> Json {
    object(vec![("title", text(title)), ("_sort_key", Json::unsigned(key))])
}

fn scored(title: &str, score: &str) -> Json {
    object(vec![("title", text(title)), ("_score", Json::decimal(score))])
}

fn by_year(order: SortOrder) -> SortSpec {
    SortSpec { field: "year".to_string(), order }
}

#[test]
fn a_merge_interleaves_nodes_by_sort_key_without_the_sort_field() {
    let spec = by_year(SortOrder::Desc);
    let hits = order_hit_blocks(
        vec![
            vec![keyed("a", 2020), keyed("c", 2018)],
            vec![keyed("d", 2024), keyed("b", 2022)],
        ],
        Some(&spec),
        SearchWindow::first(10),
    );
    assert_eq!(titles(&hits), vec!["d", "b", "a", "c"]);
}

#[test]
fn a_merge_sorts_ascending_and_puts_a_missing_key_last() {
    let spec = by_year(SortOrder::Asc);
    let hits = order_hit_blocks(
        vec![
            vec![keyed("b", 2022), object(vec![("title", text("missing"))])],
            vec![keyed("a", 2018)],
        ],
        Some(&spec),
        SearchWindow::first(10),
    );
    assert_eq!(titles(&hits), vec!["a", "b", "missing"]);
}

#[test]
fn a_tie_falls_back_to_source_rank_and_then_to_position() {
    let spec = by_year(SortOrder::Desc);
    let blocks = vec![
        vec![keyed("a1", 2020), keyed("a2", 2020)],
        vec![keyed("b1", 2020), keyed("b2", 2020)],
    ];
    let hits = order_hit_blocks(blocks.clone(), Some(&spec), SearchWindow::first(10));
    assert_eq!(titles(&hits), vec!["a1", "a2", "b1", "b2"]);

    let swapped = vec![blocks[1].clone(), blocks[0].clone()];
    let hits = order_hit_blocks(swapped, Some(&spec), SearchWindow::first(10));
    assert_eq!(titles(&hits), vec!["b1", "b2", "a1", "a2"]);
}

fn tied_blocks() -> Vec<Vec<Json>> {
    vec![
        vec![scored("a1", "1.0"), scored("a2", "1.0")],
        vec![scored("b1", "1.0"), scored("b2", "2.0")],
    ]
}

#[test]
fn a_limited_merge_is_a_prefix_of_the_unlimited_one() {
    let full = titles(&order_hit_blocks(tied_blocks(), None, SearchWindow::first(10)));
    for limit in 1..=full.len() {
        let page = titles(&order_hit_blocks(tied_blocks(), None, SearchWindow::first(limit)));
        assert_eq!(page, full[..limit], "limit {limit} is not a prefix");
    }
}

#[test]
fn decimal_sort_keys_are_ordered_by_value() {
    let priced = |title: &str, key: &str| {
        object(vec![("title", text(title)), ("_sort_key", Json::decimal(key))])
    };
    let blocks = vec![
        vec![priced("c", "10.5"), object(vec![("title", text("none"))])],
        vec![priced("b", "9.25"), priced("a", "-0.5")],
    ];
    let spec = by_year(SortOrder::Asc);
    let hits = order_hit_blocks(blocks, Some(&spec), SearchWindow::first(10));
    assert_eq!(titles(&hits), vec!["a", "b", "c", "none"]);
}

#[test]
fn a_hit_without_a_score_counts_as_zero() {
    let blocks = vec![
        vec![scored("low", "-0.5"), object(vec![("title", text("none"))])],
        vec![scored("high", "0.5"), scored("zero", "0.0")],
    ];
    let hits = order_hit_blocks(blocks, None, SearchWindow::first(10));
    assert_eq!(titles(&hits), vec!["high", "none", "zero", "low"]);
}

#[test]
fn search_window_fetch_count_is_offset_plus_limit() {
    assert_eq!(SearchWindow::first(10).fetch_count(), 10);
    assert_eq!(SearchWindow { offset: 30, limit: 10 }.fetch_count(), 40);
    // Saturating: a huge offset does not overflow.
    assert_eq!(SearchWindow { offset: usize::MAX, limit: 1 }.fetch_count(), usize::MAX);
}

#[test]
fn search_window_apply_takes_the_right_slice() {
    let hits: Vec<usize> = (0..100).collect();
    let page = SearchWindow { offset: 30, limit: 10 }.apply(hits);
    assert_eq!(page, (30..40usize).collect::<Vec<_>>());
}

#[test]
fn search_window_apply_clamps_to_available() {
    let hits: Vec<usize> = vec![1, 2, 3];
    assert_eq!(SearchWindow { offset: 0, limit: 10 }.apply(hits.clone()), vec![1usize, 2, 3]);
    assert_eq!(SearchWindow { offset: 2, limit: 10 }.apply(hits.clone()), vec![3usize]);
    assert_eq!(SearchWindow { offset: 5, limit: 10 }.apply(hits), Vec::<usize>::new());
}

#[test]
fn a_paged_merge_returns_the_right_slice_of_the_full_order() {
    let full = titles(&order_hit_blocks(tied_blocks(), None, SearchWindow::first(10)));
    let page =
        titles(&order_hit_blocks(tied_blocks(), None, SearchWindow { offset: 2, limit: 2 }));
    assert_eq!(page, full[2..4].to_vec());
}

#[test]
fn compare_hits_by_field_distinguishes_large_i64_keys() {
    let big = 9_007_199_254_740_992i64; // 2^53
    let bigger = big + 1; // not representable distinctly as f64
    let a = object(vec![("_sort_key", Json::whole(bigger))]);
    let b = object(vec![("_sort_key", Json::whole(big))]);
    assert_eq!(
        compare_hits_by_field(&a, &b, "_sort_key", SortOrder::Asc),
        Ordering::Greater
    );
}

#[test]
fn normalize_sort_key_converts_dates_to_epoch_seconds() {
    let date_def = FieldDef::new("published".to_string(), TantivyFieldType::Date);

    let early = normalize_sort_key(&text("2018-11-30"), Some(&date_def)).unwrap();
    let late = normalize_sort_key(&text("2024-03-10T00:00:00Z"), Some(&date_def)).unwrap();

    assert!(early.as_i64().is_some(), "date key should be numeric, got {early:?}");
    assert!(
        early.as_i64().unwrap() < late.as_i64().unwrap(),
        "chronological order must hold numerically"
    );

    // Unparseable date → no key (hit will sort last).
    assert!(normalize_sort_key(&text("not-a-date"), Some(&date_def)).is_none());
}

#[test]
fn normalize_sort_key_passes_through_non_date_values() {
    let numeric_def = FieldDef::new("year".to_string(), TantivyFieldType::I64);
    assert_eq!(
        normalize_sort_key(&Json::unsigned(2020), Some(&numeric_def)).unwrap(),
        Json::unsigned(2020)
    );
    // No schema entry → passthrough.
    assert_eq!(normalize_sort_key(&text("hello"), None).unwrap(), text("hello"));
}

#[test]
fn stamp_sort_keys_injects_normalized_date_key() {
    let mut schema = IndexSchema::default();
    schema.put_field("published", FieldDef::new("published".to_string(), TantivyFieldType::Date));
    let spec = SortSpec { field: "published".to_string(), order: SortOrder::Asc };
    let mut hits = vec![(
        Uuid::nil().as_u128(),
        Score { order: Some(1), number: None },
        object(vec![("title", text("x")), ("published", text("2020-06-01"))]),
    )];
    stamp_sort_keys(&mut hits, &spec, &schema);
    let key = hits[0].2.get(SORT_KEY_FIELD).expect("sort key stamped");
    assert!(key.as_i64().is_some());
}

#[test]
fn strip_sort_keys_removes_only_the_metadata_key() {
    let hit = |title: &str, score: &str, key: u64| {
        object(vec![
            ("title", text(title)),
            ("_score", Json::decimal(score)),
            ("_sort_key", Json::unsigned(key)),
        ])
    };
    let mut response = object(vec![
        ("hits", Json::list(vec![hit("a", "1.0", 2020), hit("b", "0.9", 2018)])),
        ("hits_returned", Json::unsigned(2)),
    ]);
    strip_sort_keys(&mut response);
    let hits = response.get("hits").and_then(|h| h.as_array()).unwrap();
    for hit in hits {
        assert!(hit.get(SORT_KEY_FIELD).is_none(), "_sort_key must be stripped");
        assert!(hit.get("_score").is_some(), "other metadata preserved");
        assert!(hit.get("title").is_some(), "content preserved");
    }
}

// ---------------------------------------------------------------------------
// Refusals
// ---------------------------------------------------------------------------

fn shadow_field(name: &str) -> FieldDef {
    let mut def = FieldDef::new(name.to_string(), TantivyFieldType::Text);
    def.indexed = false;
    def.is_shadow = true;
    def
}

fn ascending(field: &str) -> SortSpec {
    SortSpec { field: field.to_string(), order: SortOrder::Asc }
}

#[test]
fn a_retired_seq_column_in_the_schema_record_does_not_make_it_sortable() {
    let mut schema = IndexSchema::default();
    for (name, field_type) in [
        ("rank", TantivyFieldType::U64),
        ("title", TantivyFieldType::Text),
        ("flag", TantivyFieldType::Boolean),
        ("_seq", TantivyFieldType::U64),
    ] {
        schema.put_field(name, FieldDef::new(name.to_string(), field_type));
    }
    schema.put_field("doi", shadow_field("doi"));

    let refused = |field: &str| unsortable_sort_field(&schema, Some(&ascending(field)));

    assert!(refused("_seq").is_some(), "a legacy _seq column must not be sortable");
    assert!(
        refused("flag").is_some(),
        "a non-text field with no fast column must not be sortable"
    );
    assert!(
        refused("no_such_field").is_some(),
        "a name absent from the schema must not be sortable"
    );

    for field in ["rank", "title", "id", "doi"] {
        assert!(
            refused(field).is_none(),
            "'{field}' must still sort: a fast column, a text field, the key, and the key's \
             shadow name"
        );
    }
}

#[test]
fn a_declared_fast_on_a_type_with_no_column_is_still_refused() {
    let mut schema = IndexSchema::default();
    for (name, field_type) in [
        ("flag", TantivyFieldType::Boolean),
        ("addr", TantivyFieldType::Ip),
        ("blob", TantivyFieldType::Json),
        ("category", TantivyFieldType::Facet),
        ("raw", TantivyFieldType::Bytes),
        ("rank", TantivyFieldType::U64),
    ] {
        let mut def = FieldDef::new(name.to_string(), field_type);
        def.fast = Some(true);
        schema.put_field(name, def);
    }

    let refusal = |field: &str| unsortable_sort_field(&schema, Some(&ascending(field)));

    for field in ["flag", "addr", "blob", "category", "raw"] {
        let Some(OrchestratorError::UnsortableField { reason, .. }) = refusal(field) else {
            panic!("'{field}' declares a column its type cannot carry and must be refused");
        };
        assert!(
            reason.contains("cannot give it one"),
            "the reason must not ask for a declaration that already exists: {reason}"
        );
    }

    assert!(
        refusal("rank").is_none(),
        "a u64 field declared fast does carry a column and must still sort"
    );
}

#[test]
fn a_gather_that_answered_nowhere_refuses_and_says_whose_fault_it_was() {
    let shard = Uuid::nil().as_u128();
    let refused =
        |kind, message: &str| (shard, OrchestratorError::Io { kind, message: message.to_string() });

    assert!(
        no_shard_answered(
            "papers",
            1,
            &vec![refused(IoKind::InvalidInput, "field not found: x")]
        )
        .is_none(),
        "a partial answer is still an answer"
    );
    assert!(
        no_shard_answered("papers", 0, &vec![]).is_none(),
        "no shards and no failures is an empty index, not a refusal"
    );

    let Some(OrchestratorError::NoShardAnswered { index, reasons, caller_error }) =
        no_shard_answered(
            "papers",
            0,
            &vec![
                refused(IoKind::InvalidInput, "field not found: added"),
                refused(IoKind::InvalidInput, "field not found: added"),
            ],
        )
    else {
        panic!("a gather no shard could answer must refuse");
    };
    assert_eq!(index, "papers");
    assert_eq!(reasons, "field not found: added");
    assert!(caller_error, "a field the index has no column for is the request's to fix");

    let Some(OrchestratorError::NoShardAnswered { caller_error, .. }) = no_shard_answered(
        "papers",
        0,
        &vec![
            refused(IoKind::InvalidInput, "field not found: added"),
            refused(IoKind::PermissionDenied, "cannot open index"),
        ],
    ) else {
        panic!("still a refusal");
    };
    assert!(!caller_error, "a shard that could not read its data is this node's problem");
}

// ---------------------------------------------------------------------------
// Reasons
// ---------------------------------------------------------------------------

#[test]
fn a_peers_reasons_are_renumbered_into_this_batch() {
    let node = Uuid::nil();
    // Positions 4 and 9 of the caller's batch were the ones forwarded.
    let reasons = vec!["document 1: bad field".to_string()];
    assert_eq!(
        remote_rejections(node.as_u128(), &vec![4, 9], 1, &reasons),
        vec!["document 9: bad field".to_string()],
        "the peer's document 1 is the caller's document 9"
    );
}

#[test]
fn a_peers_batch_level_reason_is_attributed_rather_than_dropped() {
    let node = Uuid::nil();
    let reasons = vec!["index is read-only".to_string()];
    assert_eq!(
        remote_rejections(node.as_u128(), &vec![0, 1], 1, &reasons),
        vec![format!("node {node}: index is read-only")]
    );
}

#[test]
fn a_position_outside_this_batch_is_not_taken_as_one() {
    let node = Uuid::nil();
    let reasons = vec!["document 7: bad field".to_string()];
    let rejections = remote_rejections(node.as_u128(), &vec![0, 1], 1, &reasons);
    assert_eq!(rejections.len(), 1);
    assert!(
        rejections[0].starts_with(&format!("node {node}:")),
        "it is kept as what the node said, not renumbered onto a document: {rejections:?}"
    );
}

#[test]
fn a_shortfall_a_peer_did_not_explain_is_still_reported() {
    let node = Uuid::nil();
    // Three forwarded, one written, and the node gave only one reason for the other two.
    let reasons = vec!["document 0: bad field".to_string()];
    let rejections = remote_rejections(node.as_u128(), &vec![10, 11, 12], 1, &reasons);
    assert_eq!(rejections.len(), 2, "one reason per document not written: {rejections:?}");
    assert_eq!(rejections[0], "document 10: bad field");
    assert!(
        rejections[1].contains("neither written nor refused"),
        "and the one it did not explain says so: {rejections:?}"
    );
}

#[test]
fn nothing_is_reported_for_a_batch_the_peer_wrote_whole() {
    let node = Uuid::nil().as_u128();
    assert!(remote_rejections(node, &vec![0, 1, 2], 3, &vec![]).is_empty());
    // More reasons than documents unwritten cannot inflate the count either.
    assert!(
        remote_rejections(node, &vec![0], 1, &vec!["document 0: stale".to_string()]).is_empty(),
        "a reason for a document the node also says it wrote is not an extra rejection"
    );
}

#[test]
fn a_document_reason_is_split_only_when_that_is_what_it_is() {
    assert_eq!(split_document_reason("document 12: because"), Some((12, "because")));
    assert_eq!(split_document_reason("documents 12: because"), None);
    assert_eq!(split_document_reason("document twelve: because"), None);
    assert_eq!(split_document_reason("index is read-only"), None);
}
