//! What a caller is told when a result is not what it expected.

use cameodb_server::diagnostics::{
    approximate_sort_note, extract_query_fields, names_a_missing_field, paged_past_the_end,
    query_cuts_cleanly, refuse_if_clauses_discarded, with_valid_fields, zero_results_advice,
};
use cameodb_server::errors::attach_discarded;
use cameodb_server::json::{entry, Json};

#[test]
fn a_query_with_nothing_narrowing_it_gets_no_warning() {
    for query in [
        "rust",
        "title:rust",
        "quarterly revenue report",
        "title:rust title:go",
        "title:rust limit 5",
        "status: IN [active pending]",
        "year:[2020 TO 2024]",
        "(title:rust OR title:go)",
    ] {
        assert_eq!(
            zero_results_advice(query),
            None,
            "{query:?} was diagnosed as narrowed when nothing in it narrows"
        );
    }
}

#[test]
fn the_advice_names_only_what_the_query_contains() {
    let phrase = zero_results_advice(r#"title:"exact phrase""#).expect("a phrase narrows");
    assert!(phrase.contains("quoted phrase"), "{phrase}");
    assert!(!phrase.contains("`AND`"), "the query has no AND to broaden: {phrase}");

    let conjunction = zero_results_advice("title:rust AND year:2024").expect("AND narrows");
    assert!(conjunction.contains("`AND`"), "{conjunction}");
    assert!(!conjunction.contains("quoted"), "the query has no quotes to remove: {conjunction}");

    let both = zero_results_advice(r#"title:"exact phrase" AND year:2024"#).expect("both narrow");
    assert!(
        both.contains("quoted phrase") && both.contains("`AND`"),
        "both apply and both should be said: {both}"
    );
}

#[test]
fn required_and_excluded_clauses_are_recognised_as_narrowing() {
    let required = zero_results_advice("+title:rust +year:2024").expect("`+` requires");
    assert!(required.contains("required"), "{required}");

    for query in ["title:rust -tag:draft", "title:rust NOT tag:draft"] {
        let excluded = zero_results_advice(query).expect("an exclusion narrows");
        assert!(
            excluded.contains("excluded"),
            "{query:?} excludes documents and the advice missed it: {excluded}"
        );
    }
}

#[test]
fn inline_modifiers_are_stripped_before_the_query_is_read() {
    assert_eq!(zero_results_advice("rust limit 5"), None);
    assert!(
        zero_results_advice(r#"title:"a b" limit 5"#).is_some(),
        "stripping the modifier must not take the phrase with it"
    );
}

#[test]
fn a_sort_error_is_not_read_as_a_missing_field() {
    assert!(!names_a_missing_field(
        "Field 'year' is not marked as FAST. Only FAST fields support sorting."
    ));
}

#[test]
fn a_missing_field_is_still_recognised_however_the_engine_words_it() {
    for error in [
        "Field 'nosuch' does not exist in schema",
        "FieldDoesNotExist(\"nosuch\")",
        "Query error: unknown field 'nosuch'",
        "Field 'nosuch' is not declared as indexed",
    ] {
        assert!(names_a_missing_field(error), "the interceptor stopped recognising: {error}");
    }
}

#[test]
fn the_field_list_is_appended_rather_than_replacing_the_error() {
    let original = "Field 'titel' does not exist in schema";
    let enriched =
        with_valid_fields(original, "docs", &vec!["title".to_string(), "body".to_string()]);

    assert!(
        enriched.starts_with(original),
        "the engine's own message must survive: {enriched}"
    );
    assert!(
        enriched.contains("title, body") && enriched.contains("docs"),
        "the caller needs the real fields and the index they belong to: {enriched}"
    );
    assert_eq!(
        enriched,
        "Field 'titel' does not exist in schema\n\nFields available in 'docs': [title, body]"
    );
}

#[test]
fn a_conjunction_is_a_word_of_its_own() {
    assert_eq!(zero_results_advice("status:ANDROID"), None);
    assert_eq!(
        zero_results_advice("a AND b").as_deref(),
        Some(
            "Every `AND` clause has to match the same document. Try `OR` between them, or drop the \
             narrowest clause."
        )
    );
    assert_eq!(zero_results_advice(""), None);
    assert!(zero_results_advice("a\u{3000}AND\tb").is_some());
}

#[test]
fn reasons_are_told_in_one_line_each_once() {
    let all = zero_results_advice("+a -b \"c d\" AND NOT e").expect("everything narrows");
    assert_eq!(all.matches("A quoted phrase").count(), 1);
    assert_eq!(all.matches("Every `AND` clause").count(), 1);
    assert_eq!(all.matches("A `+clause`").count(), 1);
    assert_eq!(all.matches("An excluded clause").count(), 1);
    assert!(all.contains("between them. Every `AND`"));
}

#[test]
fn a_page_past_the_end_names_the_last_offset() {
    assert_eq!(paged_past_the_end(0, 10), None);
    assert_eq!(paged_past_the_end(9, 10), None);
    assert_eq!(paged_past_the_end(20, 0), None);
    assert_eq!(
        paged_past_the_end(20, 10).as_deref(),
        Some(
            "This page is empty because it starts past the end of the result: offset 20 with 10 \
             matching document(s). The last document is at offset 9."
        )
    );
    assert!(paged_past_the_end(10, 10).is_some());
}

#[test]
fn an_approximate_order_is_named_by_its_field() {
    let note = approximate_sort_note("title");
    assert!(note.starts_with("These hits are sorted on 'title', which has no fast column"));
    assert!(note.ends_with("declared `fast` before the index is built."));
}

#[test]
fn a_response_with_dropped_clauses_is_refused() {
    let mut response = Json::object(vec![entry("total_hits", Json::count(3))]);
    assert_eq!(refuse_if_clauses_discarded(&response), Ok(()));
    attach_discarded(&mut response, vec!["first".to_string(), "second".to_string()]);
    assert_eq!(
        refuse_if_clauses_discarded(&response),
        Err(
            "Query rejected: part of this query could not be interpreted and was dropped, so the \
             results would not be the ones asked for.\n  - first\n  - second\n\nRewrite the query \
             and retry. `validate_query` lists the fields this index actually has, with the \
             operators each field's type supports."
                .to_string()
        )
    );
}

#[test]
fn a_query_names_fields_outside_phrases() {
    assert_eq!(
        extract_query_fields("title:rust AND (year:[2020 TO 2024] OR title:go)"),
        vec!["title", "year"]
    );
    assert_eq!(extract_query_fields("\"not:this\" but:that"), vec!["but"]);
    assert_eq!(extract_query_fields("meta.author_name:x limit:5 AND:y"), vec!["meta.author_name"]);
    assert_eq!(extract_query_fields("\"never closed title:x"), Vec::<String>::new());
    assert_eq!(extract_query_fields("a b c"), Vec::<String>::new());
    assert_eq!(extract_query_fields("_seq:1 9lives:2"), vec!["_seq", "9lives"]);
}

#[test]
fn a_query_of_wide_characters_may_not_cut() {
    assert!(query_cuts_cleanly("title:rust"));
    assert!(!query_cuts_cleanly("title:caf\u{e9}"));
    assert!(query_cuts_cleanly("title:\"caf\u{e9}\""));
    // The word behind a two-byte character starts one byte before where it stands.
    assert!(query_cuts_cleanly("\u{ab} title:x"));
    assert_eq!(extract_query_fields("\u{ab} title:x"), vec![" titl"]);
    // Here it starts inside a character.
    assert!(!query_cuts_cleanly("\u{ab}title:x"));
}

#[test]
fn queries_beside_each_other_name_the_fields_of_both() {
    let one = "title:\"a b:c\" year:3";
    let other = "year:4 OR author:x Limit:2";
    assert_eq!(extract_query_fields(one), vec!["title", "year"]);
    assert_eq!(extract_query_fields(other), vec!["year", "author"]);
    assert_eq!(
        extract_query_fields(&format!("{one} {other}")),
        vec!["title", "year", "author"]
    );
}
