//! The tools: trimming, searching several indexes, describing the catalogue, resources.

use cameodb_server::analysis::analyze_query;
use cameodb_server::discovery::{
    catalog_stats, describe_index, list_indexes, merge_parser_verdict, one_index_stats,
    schema_to_validate, validate_query,
};
use cameodb_server::errors::{APPROXIMATE_SORT_FIELD, DISCARDED_CLAUSES_FIELD};
use cameodb_server::field_info::{
    absent_index_reason, catalogue_entry, enrich_index_entry, extract_field_info,
    extract_field_names, field_query_hint, SyntaxHints,
};
use cameodb_server::governance::{record_tool_call, Caller, ToolCall};
use cameodb_server::hits::{SortOrder, SortSpec};
use cameodb_server::json::{entry, json_text, Json};
use cameodb_server::ops::ClientOp;
use cameodb_server::resources::{
    list_resources, permit_read, plan_read, schema_of_description, ResourceRead,
};
use cameodb_server::tool_search::{
    answer_federated_search, answer_index_search, asks_for_absence, check_effective_limit,
    explain_search_error, plan_federated_search, plan_index_search, IndexOutcome, IndexReply,
    IndexSearch, QueryKeywords, APPROXIMATE_SORT_NOTE_FIELD,
};
use cameodb_server::trimming::cap_response_bytes;
use cameodb_server::words::{count_bytes, words};

fn object(entries: Vec<(&str, Json)>) -> Json {
    Json::object(entries.into_iter().map(|(k, v)| entry(k, v)).collect())
}

fn list(texts: &[&str]) -> Json {
    Json::list(texts.iter().map(|t| Json::text(t)).collect())
}

fn text_under(value: &Json, key: &str) -> String {
    value.get(key).and_then(|v| v.as_text()).cloned().unwrap_or_default()
}

// ---------------------------------------------------------------------------
// Trimming
// ---------------------------------------------------------------------------

fn response_with(hits: usize) -> Json {
    let items: Vec<Json> = (0..hits)
        .map(|n| {
            object(vec![
                ("id", Json::text(&format!("d{n:03}"))),
                ("body", Json::text(&"x".repeat(100))),
            ])
        })
        .collect();
    object(vec![
        ("hits", Json::list(items)),
        ("hits_returned", Json::count(hits)),
        ("total_hits", Json::count(5_000)),
        ("limit", Json::count(100)),
    ])
}

fn hits_in(response: &Json) -> &Vec<Json> {
    response.get("hits").and_then(|v| v.as_array()).expect("hits")
}

fn number(response: &Json, key: &str) -> Option<u64> {
    response.get(key).and_then(|v| v.as_u64())
}

#[test]
fn a_response_that_fits_is_untouched() {
    let mut response = response_with(3);
    let before = response.clone();
    cap_response_bytes(&mut response, 1024 * 1024);
    assert_eq!(response, before);
    assert!(response.get("_truncated").is_none());
    assert!(response.get("_omitted_hits").is_none());
}

#[test]
fn an_oversized_response_is_trimmed_and_says_so() {
    let mut response = response_with(50);
    cap_response_bytes(&mut response, 1_000);

    let kept = hits_in(&response).len();
    assert!(kept > 0 && kept < 50, "kept {kept} of 50");
    assert_eq!(number(&response, "hits_returned"), Some(kept as u64));
    assert_eq!(response.get("_truncated"), Some(&Json::Bool(true)));
    assert_eq!(number(&response, "_omitted_hits"), Some((50 - kept) as u64));
    assert_eq!(number(&response, "total_hits"), Some(5_000));
    let warning = text_under(&response, "_warning");
    assert!(
        warning.contains("Narrow the query"),
        "the trim should say what to do about it: {response:?}"
    );
    assert!(
        warning.contains("1000 bytes"),
        "the trim should name the bound it hit, so an operator knows which knob: {warning}"
    );

    let size = json_text(&response).len();
    assert!(size < 1_000 + 600, "trimmed to {size} bytes against an allowance of 1000");
}

#[test]
fn a_trimmed_response_writes_its_hits_anew() {
    let mut response = Json::object(vec![
        ("hits".to_string(), Json::list(vec![Json::text("a"), Json::text("b")])),
        ("limit".to_string(), Json::count(2)),
        ("total_hits".to_string(), Json::count(2)),
    ]);
    cap_response_bytes(&mut response, 1);
    let Json::Object(entries) = &response else { panic!("an object") };
    let keys: Vec<&str> = entries.iter().map(|(key, _)| key.as_str()).collect();
    assert_eq!(
        keys,
        ["total_hits", "limit", "hits", "hits_returned", "_truncated", "_omitted_hits", "_warning"]
    );
}

#[test]
fn a_trim_keeps_the_highest_ranked_hits() {
    let mut response = response_with(20);
    cap_response_bytes(&mut response, 800);
    let ids: Vec<String> = hits_in(&response).iter().map(|hit| text_under(hit, "id")).collect();
    assert!(ids.len() > 1 && ids.len() < 20, "kept {}", ids.len());
    let expected: Vec<String> = (0..ids.len()).map(|n| format!("d{n:03}")).collect();
    assert_eq!(ids, expected, "the trim did not keep a prefix of the order");
}

#[test]
fn a_single_oversized_hit_is_still_returned() {
    let mut response = response_with(5);
    cap_response_bytes(&mut response, 1);
    assert_eq!(hits_in(&response).len(), 1);
    assert_eq!(response.get("_truncated"), Some(&Json::Bool(true)));
    assert_eq!(number(&response, "_omitted_hits"), Some(4));
}

#[test]
fn an_empty_response_is_never_reported_as_trimmed() {
    let mut response = response_with(0);
    cap_response_bytes(&mut response, 1);
    assert!(response.get("_truncated").is_none());
    assert_eq!(number(&response, "hits_returned"), Some(0));
}

#[test]
fn a_trim_counts_every_byte_and_comma() {
    // Each hit is `"aé"`: five bytes, and a comma.
    let hits = vec![Json::text("a\u{e9}"), Json::text("a\u{e9}"), Json::text("a\u{e9}")];
    let mut response = object(vec![("hits", Json::list(hits))]);
    // The envelope is `{}`, so that two hits take 2 + 6 + 6 bytes.
    cap_response_bytes(&mut response, 14);
    assert_eq!(hits_in(&response).len(), 2);
    let hits = vec![Json::text("a\u{e9}"), Json::text("a\u{e9}"), Json::text("a\u{e9}")];
    let mut response = object(vec![("hits", Json::list(hits))]);
    cap_response_bytes(&mut response, 13);
    assert_eq!(hits_in(&response).len(), 1);
}

#[test]
fn what_is_no_list_of_hits_is_dropped() {
    let mut response = object(vec![("hits", Json::text("none")), ("took", Json::count(1))]);
    cap_response_bytes(&mut response, 10);
    assert_eq!(response, object(vec![("took", Json::count(1))]));
    let mut plain = Json::text("plain");
    cap_response_bytes(&mut plain, 1);
    assert_eq!(plain, Json::text("plain"));
}

#[test]
fn bytes_are_counted_in_utf8() {
    assert_eq!(count_bytes(""), 0);
    assert_eq!(count_bytes("a\u{e9}\u{20ac}\u{1f600}"), 1 + 2 + 3 + 4);
    assert_eq!(words(" a \u{2003}bc\n"), vec!["a", "bc"]);
}

// ---------------------------------------------------------------------------
// Searching
// ---------------------------------------------------------------------------

fn keywords(query: &str) -> QueryKeywords {
    QueryKeywords { query: query.to_string(), limit: None, fields: None, sort: None }
}

fn named(index: &str) -> IndexSearch {
    IndexSearch { index: index.to_string(), fields: None, sort: None }
}

fn by(field: &str, order: SortOrder) -> SortSpec {
    SortSpec { field: field.to_string(), order }
}

#[test]
fn a_limit_above_the_maximum_is_refused_through_either_door() {
    assert_eq!(check_effective_limit(None, 10), Ok(()));
    assert_eq!(check_effective_limit(Some(10), 10), Ok(()));
    let refusal = "limit 11 is above the maximum of 10; ask for at most that many and narrow the \
                   query to reach the rest";
    assert_eq!(check_effective_limit(Some(11), 10), Err(refusal.to_string()));

    let mut inline = keywords("rust");
    inline.limit = Some(11);
    assert_eq!(plan_index_search(named("docs"), &inline, None, 10), Err(refusal.to_string()));
    assert!(plan_index_search(named("docs"), &inline, Some(5), 10).is_ok());
    assert!(plan_federated_search(vec![named("docs")], &inline, None, 7, 10).is_err());
}

#[test]
fn what_the_caller_passes_goes_before_what_the_query_says() {
    let mut inline = keywords("rust");
    inline.limit = Some(3);
    inline.fields = Some(vec!["body".to_string()]);
    inline.sort = Some(by("year", SortOrder::Asc));
    let request = IndexSearch {
        index: "docs".to_string(),
        fields: Some(vec!["title".to_string()]),
        sort: Some(by("score", SortOrder::Desc)),
    };
    assert_eq!(
        plan_index_search(request, &inline, Some(5), 10),
        Ok(ClientOp::Search {
            index: "docs".to_string(),
            query: "rust".to_string(),
            limit: Some(5),
            offset: None,
            fields: Some(vec!["title".to_string()]),
            sort: Some(by("score", SortOrder::Desc)),
        })
    );
    assert_eq!(
        plan_index_search(named("docs"), &inline, None, 10),
        Ok(ClientOp::Search {
            index: "docs".to_string(),
            query: "rust".to_string(),
            limit: Some(3),
            offset: None,
            fields: Some(vec!["body".to_string()]),
            sort: Some(by("year", SortOrder::Asc)),
        })
    );
}

#[test]
fn a_federated_plan_merges_by_the_first_sort_named() {
    let plan = plan_federated_search(
        vec![
            named("a"),
            IndexSearch {
                index: "b".to_string(),
                fields: None,
                sort: Some(by("year", SortOrder::Desc)),
            },
        ],
        &keywords("rust"),
        None,
        7,
        10,
    )
    .unwrap_or_else(|message| panic!("{message}"));
    assert_eq!(plan.limit, 7);
    assert_eq!(plan.sort, Some(by("year", SortOrder::Desc)));
    assert_eq!(plan.searches.len(), 2);
    assert_eq!(plan.searches[0].0, "a");
    assert_eq!(
        plan.searches[1].1,
        ClientOp::Search {
            index: "b".to_string(),
            query: "rust".to_string(),
            limit: None,
            offset: None,
            fields: None,
            sort: Some(by("year", SortOrder::Desc)),
        }
    );
}

fn answered(total: usize, hits: Vec<Json>) -> Json {
    object(vec![
        ("hits_returned", Json::count(hits.len())),
        ("total_hits", Json::count(total)),
        ("hits", Json::list(hits)),
    ])
}

fn scored(id: &str, score: &str) -> Json {
    object(vec![("id", Json::text(id)), ("_score", Json::decimal(score))])
}

#[test]
fn an_empty_answer_of_an_absent_index_is_refused() {
    let reason = absent_index_reason("docs", Some("Schema for index 'docs' not found"));
    assert_eq!(reason.as_deref(), Some("Index 'docs' not found"));
    assert_eq!(absent_index_reason("docs", Some("disk on fire")), None);
    assert_eq!(absent_index_reason("docs", None), None);
    assert_eq!(
        answer_index_search(answered(0, vec![]), reason.clone(), "rust", 10_000),
        Err("Index 'docs' not found".to_string())
    );
    // An index that found something exists, whatever is said of it.
    assert!(answer_index_search(answered(1, vec![]), reason, "rust", 10_000).is_ok());
}

#[test]
fn an_empty_answer_is_advised_on() {
    let plain = answer_index_search(answered(0, vec![]), None, "rust", 10_000).unwrap();
    assert!(plain.get("_warning").is_none());
    let narrowed = answer_index_search(answered(0, vec![]), None, "a AND b", 10_000).unwrap();
    assert!(text_under(&narrowed, "_warning").contains("`AND`"));
    let full =
        answer_index_search(answered(1, vec![scored("a", "1.0")]), None, "a AND b", 10_000).unwrap();
    assert!(full.get("_warning").is_none());
}

#[test]
fn an_answer_to_another_query_is_refused_and_an_approximate_one_noted() {
    let mut response = answered(1, vec![scored("a", "1.0")]);
    response.put(APPROXIMATE_SORT_FIELD, Json::text("title"));
    let noted = answer_index_search(response.clone(), None, "rust", 10_000).unwrap();
    assert!(text_under(&noted, APPROXIMATE_SORT_NOTE_FIELD)
        .starts_with("These hits are sorted on 'title'"));
    response.put(DISCARDED_CLAUSES_FIELD, list(&["nosuch:x"]));
    let refused = answer_index_search(response, None, "rust", 10_000).unwrap_err();
    assert!(refused.contains("  - nosuch:x\n"));
}

#[test]
fn an_absent_index_is_asked_about_where_nothing_matched() {
    assert!(asks_for_absence(&answered(0, vec![])));
    assert!(asks_for_absence(&object(vec![])));
    assert!(!asks_for_absence(&answered(1, vec![scored("a", "1.0")])));
}

#[test]
fn an_error_about_a_missing_field_lists_the_fields() {
    let config = Some(object(vec![(
        "fields",
        object(vec![("title", Json::Null), ("body", Json::Null)]),
    )]));
    assert_eq!(
        explain_search_error("unknown field 'x'", "docs", &config),
        "unknown field 'x'\n\nFields available in 'docs': [title, body]"
    );
    assert_eq!(explain_search_error("timed out", "docs", &config), "timed out");
    assert_eq!(explain_search_error("unknown field 'x'", "docs", &None), "unknown field 'x'");
    assert_eq!(
        explain_search_error("unknown field 'x'", "books", &Some(books())),
        "unknown field 'x'\n\nFields available in 'books': [title, year, note]"
    );
    let described = Some(object(vec![("fields", Json::list(vec![]))]));
    assert_eq!(explain_search_error("unknown field 'x'", "docs", &described), "unknown field 'x'");
}

fn outcome(index: &str, response: Json) -> IndexOutcome {
    IndexOutcome {
        index: index.to_string(),
        reply: IndexReply::Answered { response, absent: None },
    }
}

fn failed(index: &str, message: &str) -> IndexOutcome {
    IndexOutcome {
        index: index.to_string(),
        reply: IndexReply::Failed { message: message.to_string(), config: None },
    }
}

#[test]
fn a_federated_merge_does_not_depend_on_who_answers_first() {
    let a = || answered(2, vec![scored("a1", "0.5"), scored("a2", "0.25")]);
    let b = || answered(3, vec![scored("b1", "0.5"), scored("b2", "0.75")]);
    let one = answer_federated_search(
        vec![(0, outcome("a", a())), (1, outcome("b", b()))],
        None,
        3,
        "rust",
        100_000,
    )
    .unwrap();
    let other = answer_federated_search(
        vec![(1, outcome("b", b())), (0, outcome("a", a()))],
        None,
        3,
        "rust",
        100_000,
    )
    .unwrap();
    assert_eq!(one, other);
    let ids: Vec<String> = hits_in(&one).iter().map(|hit| text_under(hit, "id")).collect();
    assert_eq!(ids, vec!["b2", "a1", "b1"]);
    assert_eq!(text_under(&hits_in(&one)[0], "_index_source"), "b");
    assert_eq!(number(&one, "total_hits"), Some(5));
    assert_eq!(number(&one, "hits_returned"), Some(3));
    assert_eq!(number(&one, "limit"), Some(3));
    assert!(one.get("errors").is_none());
}

#[test]
fn a_federated_merge_sorts_on_the_key_and_strips_it() {
    let hit = |id: &str, key: u64| {
        object(vec![("id", Json::text(id)), ("_sort_key", Json::unsigned(key))])
    };
    let sort = by("year", SortOrder::Desc);
    let answer = answer_federated_search(
        vec![
            (0, outcome("a", answered(2, vec![hit("a1", 2001), hit("a2", 1999)]))),
            (1, outcome("b", answered(1, vec![hit("b1", 2000)]))),
        ],
        Some(&sort),
        10,
        "rust",
        100_000,
    )
    .unwrap();
    let ids: Vec<String> = hits_in(&answer).iter().map(|hit| text_under(hit, "id")).collect();
    assert_eq!(ids, vec!["a1", "b1", "a2"]);
    assert!(hits_in(&answer).iter().all(|hit| hit.get("_sort_key").is_none()));
}

#[test]
fn an_index_that_fails_does_not_sink_the_others() {
    let answer = answer_federated_search(
        vec![
            (0, failed("a", "timed out")),
            (1, outcome("b", answered(1, vec![scored("b1", "1.0")]))),
            (
                2,
                IndexOutcome {
                    index: "c".to_string(),
                    reply: IndexReply::Answered {
                        response: answered(0, vec![]),
                        absent: Some("Index 'c' not found".to_string()),
                    },
                },
            ),
        ],
        None,
        10,
        "rust",
        100_000,
    )
    .unwrap();
    assert_eq!(
        answer.get("errors"),
        Some(&Json::list(vec![
            object(vec![("index", Json::text("a")), ("error", Json::text("timed out"))]),
            object(vec![("index", Json::text("c")), ("error", Json::text("Index 'c' not found"))]),
        ]))
    );
    assert_eq!(hits_in(&answer).len(), 1);
}

#[test]
fn a_search_that_no_index_answers_fails() {
    assert_eq!(
        answer_federated_search(
            vec![(0, failed("a", "timed out")), (1, failed("b", "gone"))],
            None,
            10,
            "rust",
            100_000,
        ),
        Err("no index in this search could be read — a: timed out; b: gone".to_string())
    );
    assert!(answer_federated_search(vec![], None, 10, "rust", 100_000).is_ok());
}

#[test]
fn a_dropped_clause_refuses_the_whole_merge() {
    let mut response = answered(1, vec![]);
    response.put(DISCARDED_CLAUSES_FIELD, list(&["x:y"]));
    let refusal = answer_federated_search(
        vec![(0, failed("a", "timed out")), (1, outcome("b", response))],
        None,
        10,
        "rust",
        100_000,
    )
    .unwrap_err();
    assert!(refusal.starts_with("index 'b': Query rejected:"));
}

// ---------------------------------------------------------------------------
// Discovery
// ---------------------------------------------------------------------------

fn hints() -> SyntaxHints {
    SyntaxHints {
        shadow_field: "names the identifier".to_string(),
        by_type: vec![
            ("text".to_string(), "terms and phrases".to_string()),
            ("i64".to_string(), "ranges".to_string()),
        ],
        other: "exact values".to_string(),
    }
}

fn field(name: &str, kind: &str, searchable: bool) -> Json {
    object(vec![
        ("name", Json::text(name)),
        ("type", Json::text(kind)),
        ("searchable", Json::Bool(searchable)),
    ])
}

fn books() -> Json {
    object(vec![
        ("name", Json::text("books")),
        ("document_count", Json::count(12)),
        ("field_count", Json::count(3)),
        ("total_size_bytes", Json::count(100)),
        ("description", Json::text("what was printed")),
        (
            "fields",
            Json::list(vec![
                field("title", "text", true),
                field("year", "i64", true),
                field("note", "text", false),
                object(vec![("type", Json::text("text"))]),
            ]),
        ),
    ])
}

fn listing() -> Json {
    object(vec![
        (
            "indexes",
            Json::list(vec![
                books(),
                object(vec![
                    ("name", Json::text("articles")),
                    ("document_count", Json::count(30)),
                    ("field_count", Json::count(1)),
                ]),
                object(vec![("document_count", Json::count(1))]),
            ]),
        ),
        ("node_name", Json::text("n1")),
    ])
}

#[test]
fn a_field_is_read_with_its_defaults() {
    let infos = extract_field_info(&books());
    assert_eq!(extract_field_names(&books()), vec!["title", "year", "note"]);
    assert!(infos[0].indexed && !infos[0].fast && !infos[0].is_shadow && !infos[0].sortable);
    assert!(infos[0].is_queryable() && !infos[2].is_queryable());
    assert_eq!(extract_field_info(&Json::Null), vec![]);
    let shadow = extract_field_info(&object(vec![(
        "fields",
        Json::list(vec![object(vec![
            ("name", Json::text("isbn")),
            ("shadow", Json::Bool(true)),
            ("searchable", Json::Bool(false)),
            ("returned_as", Json::text("isbn")),
        ])]),
    )]));
    assert!(shadow[0].is_queryable());
    assert_eq!(shadow[0].field_type, "text");
    assert_eq!(field_query_hint(&hints(), &shadow[0]), "names the identifier");
    assert_eq!(field_query_hint(&hints(), &infos[1]), "ranges");
}

#[test]
fn an_index_is_described_with_one_hint_per_type() {
    let described = describe_index(&listing(), "books", &hints()).unwrap();
    assert_eq!(
        described.get("query_hints"),
        Some(&Json::list(vec![
            object(vec![("type", Json::text("i64")), ("query_hint", Json::text("ranges"))]),
            object(vec![
                ("type", Json::text("text")),
                ("query_hint", Json::text("terms and phrases")),
            ]),
        ]))
    );
    assert_eq!(
        describe_index(&listing(), "films", &hints()),
        Err("Index 'films' not found".to_string())
    );
    let odd = object(vec![("fields", Json::list(vec![field("x", "geo", true)]))]);
    assert_eq!(
        enrich_index_entry(odd, &hints()).get("query_hints"),
        Some(&Json::list(vec![object(vec![
            ("type", Json::text("geo")),
            ("query_hint", Json::text("exact values")),
        ])]))
    );
}

#[test]
fn the_catalogue_lists_what_choosing_needs() {
    assert_eq!(
        catalogue_entry(&books()),
        object(vec![
            ("index", Json::text("books")),
            ("document_count", Json::count(12)),
            ("field_count", Json::count(3)),
            ("field_names", list(&["title", "year", "note"])),
            ("description", Json::text("what was printed")),
        ])
    );
    let catalogue = list_indexes(&listing());
    assert_eq!(number(&catalogue, "total_indexes"), Some(3));
    assert_eq!(catalogue.get("node_id"), Some(&Json::Null));
    assert_eq!(text_under(&catalogue, "node_name"), "n1");
}

#[test]
fn a_query_is_held_against_the_fields() {
    let infos = extract_field_info(&books());
    let analysis = analyze_query("(title:\"x AND note:y tit:z zzz:1 LIMIT 5", &infos, &hints());
    assert_eq!(analysis.get("recognized_fields"), Some(&list(&["title"])));
    let analysis = analyze_query("(title:x AND note:y TIT:z zzz:1 LIMIT 5", &infos, &hints());
    assert_eq!(analysis.get("recognized_fields"), Some(&list(&["title"])));
    assert_eq!(analysis.get("not_indexed_fields"), Some(&list(&["note"])));
    assert_eq!(analysis.get("unknown_fields"), Some(&list(&["TIT", "zzz"])));
    assert_eq!(
        analysis.get("field_hints"),
        Some(&Json::list(vec![object(vec![
            ("field", Json::text("title")),
            ("type", Json::text("text")),
            ("hint", Json::text("terms and phrases")),
        ])]))
    );
    assert_eq!(
        analysis.get("warnings"),
        Some(&list(&[
            "Unbalanced parentheses: 1 opening vs 0 closing.",
            "Field 'note' exists but is not indexed. Queries against it will not match.",
            "Unknown field 'zzz'. Available queryable fields: title, year.",
        ]))
    );
    assert_eq!(
        analysis.get("suggestions"),
        Some(&list(&[
            "Query uses inline 'limit'. You can also pass limit via the tool's 'limit' parameter.",
            "Unknown field 'TIT'. Did you mean: title?",
        ]))
    );
    let bare = analyze_query("a:\"b return c", &vec![], &hints());
    assert_eq!(
        bare.get("warnings"),
        Some(&list(&["Unbalanced quotes detected. Phrase queries require matching double quotes."]))
    );
    assert_eq!(bare.get("unknown_fields"), Some(&list(&["a"])));
}

#[test]
fn the_parser_has_the_last_word() {
    let infos = extract_field_info(&books());
    let mut analysis = analyze_query("title:x", &infos, &hints());
    merge_parser_verdict(
        &mut analysis,
        &object(vec![
            ("valid", Json::Bool(false)),
            ("syntax_errors", list(&["stray ')'"])),
            ("normalized_query", Json::text("title:x")),
            ("discarded", list(&[])),
        ]),
    );
    assert_eq!(analysis.get("parses"), Some(&Json::Bool(false)));
    assert_eq!(analysis.get("discarded_clauses"), Some(&list(&[])));
    assert_eq!(
        analysis.get("warnings"),
        Some(&list(&[
            "Query does not parse: stray ')'. The clause it names was dropped, so a search with \
             this query would answer a different question."
        ]))
    );

    // An unchecked query is not a passing one.
    let mut unchecked = analyze_query("title:x", &infos, &hints());
    merge_parser_verdict(&mut unchecked, &object(vec![("valid", Json::Null)]));
    assert_eq!(unchecked.get("parses"), Some(&Json::Null));
    assert_eq!(unchecked.get("syntax_errors"), Some(&list(&[])));

    // A dropped clause is no syntax error.
    let mut dropped = analyze_query("title:x", &infos, &hints());
    merge_parser_verdict(&mut dropped, &object(vec![("valid", Json::Bool(false))]));
    assert_eq!(dropped.get("parses"), Some(&Json::Bool(true)));
    assert!(dropped.get("note").is_none());
}

#[test]
fn a_validation_tells_fields_and_verdict() {
    let answer = validate_query(
        &Some("books".to_string()),
        &Some("TI".to_string()),
        &Some("title:x".to_string()),
        &Some(books()),
        &Some(object(vec![("valid", Json::Bool(true))])),
        &hints(),
        Json::text("the syntax"),
    )
    .unwrap();
    assert_eq!(text_under(&answer, "index"), "books");
    assert_eq!(text_under(&answer, "syntax_reference"), "the syntax");
    assert_eq!(answer.get("searchable_field_names"), Some(&list(&["title", "year", "note"])));
    let suggested = answer.get("field_suggestions").and_then(|v| v.as_array()).unwrap();
    assert_eq!(suggested.len(), 1);
    assert_eq!(text_under(&suggested[0], "name"), "title");
    let available = answer.get("available_fields").and_then(|v| v.as_array()).unwrap();
    assert_eq!(available.len(), 3);
    assert_eq!(available[2].get("queryable"), Some(&Json::Bool(false)));
    assert_eq!(text_under(&available[1], "query_hint"), "ranges");
    let analysis = answer.get("query_analysis").unwrap();
    assert_eq!(analysis.get("parses"), Some(&Json::Bool(true)));

    let nothing = validate_query(&None, &None, &None, &None, &None, &hints(), Json::Null).unwrap();
    assert_eq!(nothing.get("index"), Some(&Json::Null));
    assert_eq!(nothing.get("query_analysis"), Some(&Json::Null));
    let torn = Some("caf\u{e9}".to_string());
    assert_eq!(validate_query(&None, &None, &torn, &None, &None, &hints(), Json::Null), None);
}

#[test]
fn an_index_without_a_schema_is_refused_only_where_it_is_absent() {
    assert_eq!(
        schema_to_validate("docs", Json::Null, Some("index not found")),
        Err("Index 'docs' not found".to_string())
    );
    assert_eq!(schema_to_validate("docs", Json::Null, Some("busy")), Ok(Json::Null));
    assert_eq!(schema_to_validate("docs", books(), Some("not found")), Ok(books()));
}

#[test]
fn statistics_total_what_the_listing_holds() {
    let stats = catalog_stats(&listing(), &hints());
    assert_eq!(text_under(&stats, "scope"), "all_indexes");
    assert_eq!(number(&stats, "total_indexes"), Some(3));
    assert_eq!(number(&stats, "total_documents"), Some(43));
    assert_eq!(number(&stats, "total_size_bytes"), Some(100));
    assert_eq!(number(&stats, "total_fields"), Some(4));
    let names: Vec<String> = stats
        .get("indexes")
        .and_then(|v| v.as_array())
        .unwrap()
        .iter()
        .map(|item| text_under(item, "name"))
        .collect();
    assert_eq!(names, vec!["", "articles", "books"]);

    let one = one_index_stats("books", books());
    assert_eq!(text_under(&one, "scope"), "single_index");
    assert_eq!(number(&one, "field_count"), Some(3));
    assert_eq!(one.get("stats"), Some(&books()));
}

// ---------------------------------------------------------------------------
// Resources
// ---------------------------------------------------------------------------

#[test]
fn every_listed_uri_reads_its_index() {
    let mut entries = listing();
    entries.put("indexes", Json::list(vec![books()]));
    let resources = list_resources(&list_indexes(&entries)).unwrap();
    let uris: Vec<String> =
        resources.as_array().unwrap().iter().map(|r| text_under(r, "uri")).collect();
    assert_eq!(
        uris,
        vec![
            "cameodb://indexes",
            "cameodb://indexes/books",
            "cameodb://indexes/books/schema",
            "cameodb://indexes/books/stats",
        ]
    );
    assert_eq!(plan_read(&uris[0]), Ok(ResourceRead::Catalogue));
    assert_eq!(plan_read(&uris[1]), Ok(ResourceRead::Description("books".to_string())));
    assert_eq!(plan_read(&uris[2]), Ok(ResourceRead::Schema("books".to_string())));
    assert_eq!(plan_read(&uris[3]), Ok(ResourceRead::Stats("books".to_string())));
    assert_eq!(
        plan_read("file:///etc"),
        Err("Unsupported resource URI: file:///etc".to_string())
    );
    assert_eq!(
        list_resources(&list_indexes(&listing())),
        Err("Index entry missing index name".to_string())
    );
}

#[test]
fn a_read_is_refused_by_the_index_it_names() {
    let read = plan_read("cameodb://indexes/payroll/schema").unwrap();
    assert_eq!(read.index(), Some("payroll"));
    assert_eq!(
        permit_read(read, false),
        Err("this key is not permitted on index 'payroll'".to_string())
    );
    assert_eq!(permit_read(ResourceRead::Catalogue, false), Ok(ResourceRead::Catalogue));
    let stats = || ResourceRead::Stats("books".to_string());
    assert_eq!(permit_read(stats(), true), Ok(stats()));
    assert_eq!(Some(&schema_of_description(&books())), books().get("fields"));
    assert_eq!(schema_of_description(&object(vec![])), Json::Null);
    let schema = object(vec![("schema", Json::text("as written"))]);
    assert_eq!(schema_of_description(&schema), Json::text("as written"));
}

// ---------------------------------------------------------------------------
// Governance
// ---------------------------------------------------------------------------

#[test]
fn a_tool_call_is_one_line_where_a_trail_is_kept() {
    let call = || ToolCall {
        tool: "search_index".to_string(),
        index: Some("books".to_string()),
        query: Some("rust".to_string()),
        error: None,
    };
    let caller = || Caller { key_id: Some("k1".to_string()), label: None, role: None };
    assert_eq!(record_tool_call(call(), caller(), false, true), None);
    let line = record_tool_call(call(), caller(), true, false).unwrap();
    assert_eq!((line.tool.as_str(), line.query, line.refused), ("search_index", None, None));
    let line = record_tool_call(call(), caller(), true, true).unwrap();
    assert_eq!(line.query.as_deref(), Some("rust"));
    assert_eq!(line.caller.key_id.as_deref(), Some("k1"));
}
