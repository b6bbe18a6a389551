//! Describing the catalogue: what indexes exist, what is in them, and whether a query fits.

use vstd::prelude::*;
use vstd::string::*;
use crate::{analysis, broadcast, catalog, diagnostics, errors, field_info, json, search, text, words};
use crate::analysis::analyze_query;
use crate::broadcast::{number_at, text_at};
use crate::catalog::values_by_name;
use crate::diagnostics::query_cuts_cleanly;
use crate::field_info::{
    FieldInfo, FieldInfoV, HintsV, SyntaxHints, absent_index_reason, catalogue_entry,
    copy_or_null, enrich_index_entry, entry_of, extract_field_info, extract_field_names,
    field_query_hint, names_of_infos, not_found_message,
};
use crate::json::{Json, JsonV, NumV, entry};
use crate::text::{contains_part, same_text};
use crate::words::small_letters;

verus! {

// ---------------------------------------------------------------------------
// One index and all of them
// ---------------------------------------------------------------------------

/// The entries of a listing.
pub open spec fn listed_entries(listing: JsonV) -> Seq<JsonV> {
    match broadcast::items_of(listing.get("indexes"@)) {
        Some(items) => items,
        None => Seq::empty(),
    }
}

/// Whether an entry of a listing is that of an index.
pub open spec fn is_named(entry: JsonV, index: Seq<char>) -> bool {
    broadcast::text_of_value(entry.get("name"@)) == Some(index)
}

/// The first entry of an index, from a place of a listing on.
pub open spec fn entry_named_from(entries: Seq<JsonV>, index: Seq<char>, from: int) -> Option<JsonV>
    decreases entries.len() - from,
{
    if from < 0 || from >= entries.len() {
        None
    } else if is_named(entries[from], index) {
        Some(entries[from])
    } else {
        entry_named_from(entries, index, from + 1)
    }
}

/// The entry that a listing holds of an index.
pub open spec fn listed_entry(listing: JsonV, index: Seq<char>) -> Option<JsonV> {
    entry_named_from(listed_entries(listing), index, 0)
}

/// The entry that a listing holds of an index.
fn find_entry<'a>(listing: &'a Json, index: &str) -> (found: Option<&'a Json>)
    ensures
        match found {
            Some(item) => listed_entry(listing@, index@) == Some(item@),
            None => listed_entry(listing@, index@) is None,
        },
{
    let items: &Vec<Json> = match listing.get("indexes") {
        Some(value) => match value.as_array() {
            Some(items) => items,
            None => {
                return None;
            },
        },
        None => {
            return None;
        },
    };
    let mut i: usize = 0;
    while i < items.len()
        invariant
            i <= items.len(),
            listed_entries(listing@) == json::models(items@),
            listed_entry(listing@, index@) == entry_named_from(json::models(items@), index@, i as int),
        decreases items.len() - i,
    {
        let named: bool = match text_at(&items[i], "name") {
            Some(name) => same_text(name.as_str(), index),
            None => false,
        };
        if named {
            return Some(&items[i]);
        }
        i += 1;
    }
    None
}

/// Whether a description is that of an index that a listing holds, with its hints.
pub open spec fn is_index_description(
    described: JsonV,
    listing: JsonV,
    index: Seq<char>,
    hints: HintsV,
) -> bool {
    match listed_entry(listing, index) {
        Some(listed) => is_enriched_entry(described, listed, hints),
        None => false,
    }
}

/// Describes one index, out of a listing of all.
pub fn describe_index(listing: &Json, index: &str, hints: &SyntaxHints) -> (described: Result<
    Json,
    String,
>)
    ensures
        match described {
            Ok(value) => is_index_description(value@, listing@, index@, hints@),
            Err(message) => listed_entry(listing@, index@) is None && message@ == field_info::not_found_text(
                index@,
            ),
        },
{
    match find_entry(listing, index) {
        Some(item) => {
            let described: Json = enrich_index_entry(item.clone(), hints);
            assert(is_enriched_entry(described@, item@, hints@));
            Ok(described)
        },
        None => Err(not_found_message(index)),
    }
}

/// The entries of a listing, as the catalogue lists them.
pub open spec fn catalogued_entries(listing: JsonV) -> Seq<JsonV> {
    listed_entries(listing).map_values(|entry: JsonV| field_info::catalogued(entry))
}

/// The catalogue of a listing.
pub open spec fn catalogue_of(listing: JsonV) -> JsonV {
    JsonV::Object(
        seq![
            ("indexes"@, JsonV::Array(catalogued_entries(listing))),
            ("total_indexes"@, search::count_value(listed_entries(listing).len())),
            ("node_id"@, field_info::held_or_null(listing, "node_id"@)),
            ("node_name"@, field_info::held_or_null(listing, "node_name"@)),
            ("total_shards"@, field_info::held_or_null(listing, "total_shards"@)),
            ("took_ms"@, field_info::held_or_null(listing, "took_ms"@)),
        ],
    )
}

/// Lists the indexes of a listing that already holds no others than the caller may see. What is kept
/// of each is what choosing between them needs.
pub fn list_indexes(listing: &Json) -> (catalogue: Json)
    ensures
        catalogue@ == catalogue_of(listing@),
{
    let mut entries: Vec<Json> = Vec::new();
    let ghost all = catalogued_entries(listing@);
    if let Some(value) = listing.get("indexes") {
        if let Some(items) = value.as_array() {
            let mut i: usize = 0;
            assert(json::models(entries@) =~= all.take(0));
            while i < items.len()
                invariant
                    i <= items.len(),
                    listed_entries(listing@) == json::models(items@),
                    all == catalogued_entries(listing@),
                    json::models(entries@) == all.take(i as int),
                decreases items.len() - i,
            {
                let ghost before = entries@;
                entries.push(catalogue_entry(&items[i]));
                assert(json::models(entries@) =~= json::models(before).push(all[i as int]));
                i += 1;
                assert(json::models(entries@) =~= all.take(i as int));
            }
            assert(all.take(items.len() as int) =~= all);
        }
    }
    assert(json::models(entries@) =~= all);
    let total: usize = entries.len();
    assert(total == listed_entries(listing@).len()) by {
        assert(json::models(entries@).len() == total);
    }
    let parts: Vec<(String, Json)> = vec![
        entry("indexes", Json::list(entries)),
        entry("total_indexes", Json::count(total)),
        entry("node_id", copy_or_null(listing, "node_id")),
        entry("node_name", copy_or_null(listing, "node_name")),
        entry("total_shards", copy_or_null(listing, "total_shards")),
        entry("took_ms", copy_or_null(listing, "took_ms")),
    ];
    assert(json::entry_models(parts@) =~= seq![
        ("indexes"@, JsonV::Array(all)),
        ("total_indexes"@, search::count_value(listed_entries(listing@).len())),
        ("node_id"@, field_info::held_or_null(listing@, "node_id"@)),
        ("node_name"@, field_info::held_or_null(listing@, "node_name"@)),
        ("total_shards"@, field_info::held_or_null(listing@, "total_shards"@)),
        ("took_ms"@, field_info::held_or_null(listing@, "took_ms"@)),
    ]);
    Json::object(parts)
}

// ---------------------------------------------------------------------------
// Validating a query
// ---------------------------------------------------------------------------

/// What is said of a query that does not parse.
pub open spec fn parse_warning(text: Seq<char>) -> Seq<char> {
    "Query does not parse: "@ + text
        + ". The clause it names was dropped, so a search with this query would answer a different question."@
}

/// What is said of each syntax error.
pub open spec fn parse_warnings(errors: Seq<Seq<char>>) -> Seq<JsonV> {
    errors.map_values(|text: Seq<char>| JsonV::Text(parse_warning(text)))
}

/// The syntax errors that the parser reports.
pub open spec fn reported_errors(parsed: JsonV) -> JsonV {
    match parsed.get("syntax_errors"@) {
        Some(errors) => errors,
        None => JsonV::Array(Seq::empty()),
    }
}

/// Whether a query parses, null where it was not checked: an unchecked query is not a passing one.
pub open spec fn parses_value(parsed: JsonV) -> JsonV {
    match parsed.get("valid"@) {
        None => JsonV::Null,
        Some(JsonV::Null) => JsonV::Null,
        Some(_) => JsonV::Bool(
            match reported_errors(parsed).as_array() {
                Some(errors) => errors.len() == 0,
                None => true,
            },
        ),
    }
}

/// A value with what another holds under a key, where it holds it.
pub open spec fn with_held(value: JsonV, key: Seq<char>, from: JsonV, under: Seq<char>) -> JsonV {
    match from.get(under) {
        Some(found) => value.with(key, found),
        None => value,
    }
}

/// An analysis with a warning for each syntax error, where both are lists.
pub open spec fn with_parse_warnings(analysis: JsonV, errors: JsonV) -> JsonV {
    match (analysis.get("warnings"@), errors) {
        (Some(JsonV::Array(warnings)), JsonV::Array(list)) => analysis.with(
            "warnings"@,
            JsonV::Array(warnings + parse_warnings(broadcast::texts_among(list))),
        ),
        _ => analysis,
    }
}

/// An analysis with the parser's verdict folded into it.
pub open spec fn merged_verdict(analysis: JsonV, parsed: JsonV) -> JsonV {
    let told = analysis.with("parses"@, parses_value(parsed)).with(
        "syntax_errors"@,
        reported_errors(parsed),
    );
    let normalized = with_held(told, "normalized_query"@, parsed, "normalized_query"@);
    let discarded = with_held(normalized, "discarded_clauses"@, parsed, "discarded"@);
    let noted = with_held(discarded, "note"@, parsed, "note"@);
    with_parse_warnings(noted, reported_errors(parsed))
}

/// Copies what another value holds under a key, where it holds it.
fn put_held(value: &mut Json, key: &str, from: &Json, under: &str)
    ensures
        final(value)@ == with_held(old(value)@, key@, from@, under@),
{
    if let Some(found) = from.get(under) {
        value.put(key, found.clone());
    }
}

/// Warns of each syntax error.
fn warn_of_errors(analysis: &mut Json, errors: &Json)
    ensures
        final(analysis)@ == with_parse_warnings(old(analysis)@, errors@),
{
    let list: &Vec<Json> = match errors.as_array() {
        Some(list) => list,
        None => {
            return ;
        },
    };
    let mut warnings: Vec<Json> = match analysis.get("warnings") {
        Some(value) => match value.as_array() {
            Some(held) => {
                let copy: Json = value.clone();
                match copy {
                    Json::Array(items) => {
                        proof {
                            json::lemma_model_by_parts(copy);
                        }
                        items
                    },
                    _ => {
                        return ;
                    },
                }
            },
            None => {
                return ;
            },
        },
        None => {
            return ;
        },
    };
    let ghost held = json::models(warnings@);
    let texts_found: Vec<String> = crate::diagnostics::read_texts(list);
    let ghost more = parse_warnings(text::texts(texts_found@));
    let mut i: usize = 0;
    assert(json::models(warnings@) =~= held + more.take(0));
    while i < texts_found.len()
        invariant
            i <= texts_found.len(),
            more == parse_warnings(text::texts(texts_found@)),
            json::models(warnings@) == held + more.take(i as int),
        decreases texts_found.len() - i,
    {
        let mut message: String = String::from_str("Query does not parse: ");
        message.append(texts_found[i].as_str());
        message.append(
            ". The clause it names was dropped, so a search with this query would answer a different question.",
        );
        let ghost before = warnings@;
        let warning: Json = Json::Text(message);
        warnings.push(warning);
        assert(json::models(warnings@) =~= json::models(before).push(more[i as int]));
        i += 1;
        assert(json::models(warnings@) =~= held + more.take(i as int));
    }
    assert(more.take(texts_found.len() as int) =~= more);
    analysis.put("warnings", Json::list(warnings));
}

/// Folds the engine's parse of a query into the analysis of its text. The parser decides whether the
/// query runs; the analysis holds what the parser never offers.
pub fn merge_parser_verdict(analysis: &mut Json, parsed: &Json)
    ensures
        final(analysis)@ == merged_verdict(old(analysis)@, parsed@),
{
    let syntax_errors: Json = match parsed.get("syntax_errors") {
        Some(errors) => errors.clone(),
        None => Json::list(Vec::new()),
    };
    proof {
        assert(json::models(Seq::<Json>::empty()) =~= Seq::<JsonV>::empty());
        assert(syntax_errors@ == reported_errors(parsed@));
    }
    let parses: Json = match parsed.get("valid") {
        None => Json::Null,
        Some(Json::Null) => Json::Null,
        Some(_) => {
            let clean: bool = match syntax_errors.as_array() {
                Some(errors) => errors.len() == 0,
                None => true,
            };
            Json::Bool(clean)
        },
    };
    assert(parses@ == parses_value(parsed@));
    analysis.put("parses", parses);
    analysis.put("syntax_errors", syntax_errors.clone());
    put_held(analysis, "normalized_query", parsed, "normalized_query");
    put_held(analysis, "discarded_clauses", parsed, "discarded");
    put_held(analysis, "note", parsed, "note");
    warn_of_errors(analysis, &syntax_errors);
}

/// What is shown of a field, but for its hint.
pub open spec fn field_entries(info: FieldInfoV) -> Seq<(Seq<char>, JsonV)> {
    seq![
        ("name"@, JsonV::Text(info.name)),
        ("type"@, JsonV::Text(info.field_type)),
        ("indexed"@, JsonV::Bool(info.indexed)),
        ("fast"@, JsonV::Bool(info.fast)),
        ("sortable"@, JsonV::Bool(info.sortable)),
        ("shadow"@, JsonV::Bool(info.is_shadow)),
        ("searchable"@, JsonV::Bool(info.searchable)),
        ("queryable"@, JsonV::Bool(field_info::queryable(info))),
    ]
}

/// What is shown of a field, but for its hint.
fn show_field(info: &FieldInfo) -> (parts: Vec<(String, Json)>)
    ensures
        json::entry_models(parts@) == field_entries(info@),
{
    let parts: Vec<(String, Json)> = vec![
        entry_of("name", info.name.as_str()),
        entry_of("type", info.field_type.as_str()),
        entry("indexed", Json::Bool(info.indexed)),
        entry("fast", Json::Bool(info.fast)),
        entry("sortable", Json::Bool(info.sortable)),
        entry("shadow", Json::Bool(info.is_shadow)),
        entry("searchable", Json::Bool(info.searchable)),
        entry("queryable", Json::Bool(info.is_queryable())),
    ];
    assert(json::entry_models(parts@) =~= field_entries(info@));
    parts
}

/// Whether a field's name holds what was typed of it, in whatever case.
pub open spec fn fits_partial(info: FieldInfoV, partial: Seq<char>) -> bool {
    text::holds_part(words::in_small_letters(info.name), words::in_small_letters(partial))
}

/// The fields whose names hold what was typed, as they are suggested.
pub open spec fn suggested_fields(infos: Seq<FieldInfoV>, partial: Seq<char>) -> Seq<JsonV>
    decreases infos.len(),
{
    if infos.len() == 0 {
        Seq::empty()
    } else {
        let before = suggested_fields(infos.drop_last(), partial);
        if fits_partial(infos.last(), partial) {
            before.push(JsonV::Object(field_entries(infos.last())))
        } else {
            before
        }
    }
}

/// Suggests the fields whose names hold what was typed.
pub fn suggest_fields(infos: &Vec<FieldInfo>, partial: &str) -> (suggested: Vec<Json>)
    ensures
        json::models(suggested@) == suggested_fields(field_info::info_models(infos@), partial@),
{
    let ghost all = field_info::info_models(infos@);
    let small_partial: String = small_letters(partial);
    let mut suggested: Vec<Json> = Vec::new();
    let mut i: usize = 0;
    assert(json::models(suggested@) =~= suggested_fields(all.take(0), partial@));
    while i < infos.len()
        invariant
            i <= infos.len(),
            all == field_info::info_models(infos@),
            small_partial@ == words::in_small_letters(partial@),
            json::models(suggested@) == suggested_fields(all.take(i as int), partial@),
        decreases infos.len() - i,
    {
        proof {
            assert(all.take(i + 1).drop_last() =~= all.take(i as int));
            assert(all.take(i + 1).last() == infos@[i as int]@);
        }
        let small_name: String = small_letters(infos[i].name.as_str());
        if contains_part(small_name.as_str(), small_partial.as_str()) {
            let ghost before = suggested@;
            suggested.push(Json::object(show_field(&infos[i])));
            assert(json::models(suggested@) =~= json::models(before).push(
                JsonV::Object(field_entries(infos@[i as int]@)),
            ));
        }
        i += 1;
    }
    assert(all.take(infos.len() as int) =~= all);
    suggested
}

/// What is shown of a field that a query may name.
pub open spec fn available_field(info: FieldInfoV, hints: HintsV) -> JsonV {
    let shown = JsonV::Object(
        field_entries(info).push(("query_hint"@, JsonV::Text(field_info::field_hint(hints, info)))),
    );
    match info.description {
        Some(text) => shown.with("description"@, JsonV::Text(text)),
        None => shown,
    }
}

/// The fields that a query may name: all but the sequence number that every document carries.
pub open spec fn available_fields(infos: Seq<FieldInfoV>, hints: HintsV) -> Seq<JsonV>
    decreases infos.len(),
{
    if infos.len() == 0 {
        Seq::empty()
    } else {
        let before = available_fields(infos.drop_last(), hints);
        if infos.last().name == "_seq"@ {
            before
        } else {
            before.push(available_field(infos.last(), hints))
        }
    }
}

/// Shows the fields that a query may name. The name of the identifier is among them: it is the one
/// field answered without the search index.
pub fn show_available(infos: &Vec<FieldInfo>, hints: &SyntaxHints) -> (shown: Vec<Json>)
    ensures
        json::models(shown@) == available_fields(field_info::info_models(infos@), hints@),
{
    let ghost all = field_info::info_models(infos@);
    let mut shown: Vec<Json> = Vec::new();
    let mut i: usize = 0;
    assert(json::models(shown@) =~= available_fields(all.take(0), hints@));
    while i < infos.len()
        invariant
            i <= infos.len(),
            all == field_info::info_models(infos@),
            json::models(shown@) == available_fields(all.take(i as int), hints@),
        decreases infos.len() - i,
    {
        let info: &FieldInfo = &infos[i];
        proof {
            assert(all.take(i + 1).drop_last() =~= all.take(i as int));
            assert(all.take(i + 1).last() == info@);
        }
        if !same_text(info.name.as_str(), "_seq") {
            let mut parts: Vec<(String, Json)> = show_field(info);
            let hint: String = field_query_hint(hints, info);
            let ghost plain = parts@;
            parts.push(entry_of("query_hint", hint.as_str()));
            assert(json::entry_models(parts@) =~= json::entry_models(plain).push(
                ("query_hint"@, JsonV::Text(field_info::field_hint(hints@, info@))),
            ));
            let mut value: Json = Json::object(parts);
            if let Some(text) = &info.description {
                value.put("description", Json::text(text.as_str()));
            }
            let ghost before = shown@;
            shown.push(value);
            assert(json::models(shown@) =~= json::models(before).push(available_field(info@, hints@)));
        }
        i += 1;
    }
    assert(all.take(infos.len() as int) =~= all);
    shown
}

/// The schema to validate against, as it was read, or why there is none: an index that is not there is
/// refused rather than described as having no fields.
pub fn schema_to_validate(index: &str, schema: Json, failure: Option<&str>) -> (kept: Result<
    Json,
    String,
>)
    ensures
        match kept {
            Ok(value) => value@ == schema@ && (schema@ is Null ==> field_info::absence(
                index@,
                match failure {
                    Some(message) => Some(message@),
                    None => None,
                },
            ) is None),
            Err(reason) => schema@ is Null && field_info::absence(
                index@,
                match failure {
                    Some(message) => Some(message@),
                    None => None,
                },
            ) == Some(reason@),
        },
{
    broadcast use json::lemma_model_by_parts;

    if let Json::Null = schema {
        if let Some(reason) = absent_index_reason(index, failure) {
            return Err(reason);
        }
    }
    Ok(schema)
}

/// The fields of a schema that may be absent.
pub open spec fn infos_if_read(schema: Option<JsonV>) -> Seq<FieldInfoV> {
    match schema {
        Some(value) => field_info::field_infos(value),
        None => Seq::empty(),
    }
}

/// What is suggested for what was typed, nothing where nothing was.
pub open spec fn suggestions_for(infos: Seq<FieldInfoV>, partial: Option<Seq<char>>) -> Seq<JsonV> {
    match partial {
        Some(text) => suggested_fields(infos, text),
        None => Seq::empty(),
    }
}

/// The analysis of a query that may be absent, with the parser's verdict where there is one.
pub open spec fn analysis_value(
    query: Option<Seq<char>>,
    infos: Seq<FieldInfoV>,
    hints: HintsV,
    parsed: Option<JsonV>,
) -> JsonV {
    match (query, parsed) {
        (Some(text), Some(verdict)) => merged_verdict(analysis::analysis_of(text, infos, hints), verdict),
        (Some(text), None) => analysis::analysis_of(text, infos, hints),
        (None, _) => JsonV::Null,
    }
}

/// A text, or null.
pub open spec fn text_or_null(text: Option<Seq<char>>) -> JsonV {
    match text {
        Some(t) => JsonV::Text(t),
        None => JsonV::Null,
    }
}

/// A text, or null.
fn name_or_null(text: &Option<String>) -> (value: Json)
    ensures
        value@ == text_or_null(errors::opt_text(*text)),
{
    match text {
        Some(t) => Json::text(t.as_str()),
        None => Json::Null,
    }
}

/// Analyses a query that may be absent. None where its words cannot be cut out of it.
fn analyze_if_given(
    query: &Option<String>,
    infos: &Vec<FieldInfo>,
    hints: &SyntaxHints,
    parsed: &Option<Json>,
) -> (analysis: Option<Json>)
    ensures
        analysis is None <==> (query is Some && !diagnostics::cuts_cleanly(query->0@)),
        analysis matches Some(value) ==> value@ == analysis_value(
            errors::opt_text(*query),
            field_info::info_models(infos@),
            hints@,
            search::opt_json(*parsed),
        ),
{
    match query {
        Some(text) => {
            if !query_cuts_cleanly(text.as_str()) {
                return None;
            }
            let mut analysis: Json = analyze_query(text.as_str(), infos, hints);
            if let Some(verdict) = parsed {
                merge_parser_verdict(&mut analysis, verdict);
            }
            Some(analysis)
        },
        None => Some(Json::Null),
    }
}

/// What validating a query answers.
pub open spec fn validation_of(
    index: Option<Seq<char>>,
    partial: Option<Seq<char>>,
    query: Option<Seq<char>>,
    schema: Option<JsonV>,
    parsed: Option<JsonV>,
    hints: HintsV,
    syntax: JsonV,
) -> JsonV {
    let infos = infos_if_read(schema);
    JsonV::Object(
        seq![
            ("index"@, text_or_null(index)),
            ("field_suggestions"@, JsonV::Array(suggestions_for(infos, partial))),
            ("query_analysis"@, analysis_value(query, infos, hints, parsed)),
            ("syntax_reference"@, syntax),
            ("available_fields"@, JsonV::Array(available_fields(infos, hints))),
            ("searchable_field_names"@, errors::text_array(field_info::info_names(infos))),
        ],
    )
}

/// Answers a request to validate a query, or a part of one, against an index that may be named.
/// `schema` is that index's, and `parsed` is the engine's verdict on the query; both are absent where
/// no index is named. None where the query's words cannot be cut out of it.
pub fn validate_query(
    index: &Option<String>,
    partial_field: &Option<String>,
    query: &Option<String>,
    schema: &Option<Json>,
    parsed: &Option<Json>,
    hints: &SyntaxHints,
    syntax: Json,
) -> (answer: Option<Json>)
    ensures
        answer is None <==> (query is Some && !diagnostics::cuts_cleanly(query->0@)),
        answer matches Some(value) ==> value@ == validation_of(
            errors::opt_text(*index),
            errors::opt_text(*partial_field),
            errors::opt_text(*query),
            search::opt_json(*schema),
            search::opt_json(*parsed),
            hints@,
            syntax@,
        ),
{
    let ghost told = syntax@;
    let infos: Vec<FieldInfo> = match schema {
        Some(value) => extract_field_info(value),
        None => Vec::new(),
    };
    assert(field_info::info_models(infos@) =~= infos_if_read(search::opt_json(*schema)));
    let ghost known = field_info::info_models(infos@);
    let suggestions: Vec<Json> = match partial_field {
        Some(partial) => suggest_fields(&infos, partial.as_str()),
        None => Vec::new(),
    };
    assert(json::models(suggestions@) =~= suggestions_for(known, errors::opt_text(*partial_field)));
    let analysis: Json = match analyze_if_given(query, &infos, hints, parsed) {
        Some(analysis) => analysis,
        None => {
            return None;
        },
    };
    assert(analysis@ == analysis_value(errors::opt_text(*query), known, hints@, search::opt_json(*parsed)));
    let named: Json = name_or_null(index);
    let available: Vec<Json> = show_available(&infos, hints);
    let names: Vec<String> = names_of_infos(&infos);
    let parts: Vec<(String, Json)> = vec![
        entry("index", named),
        entry("field_suggestions", Json::list(suggestions)),
        entry("query_analysis", analysis),
        entry("syntax_reference", syntax),
        entry("available_fields", Json::list(available)),
        entry("searchable_field_names", Json::text_list(&names)),
    ];
    assert(json::entry_models(parts@) =~= seq![
        ("index"@, text_or_null(errors::opt_text(*index))),
        ("field_suggestions"@, JsonV::Array(suggestions_for(known, errors::opt_text(*partial_field)))),
        (
            "query_analysis"@,
            analysis_value(errors::opt_text(*query), known, hints@, search::opt_json(*parsed)),
        ),
        ("syntax_reference"@, told),
        ("available_fields"@, JsonV::Array(available_fields(known, hints@))),
        ("searchable_field_names"@, errors::text_array(field_info::info_names(known))),
    ]);
    Some(Json::object(parts))
}

// ---------------------------------------------------------------------------
// Statistics
// ---------------------------------------------------------------------------

/// The statistics of one index.
pub open spec fn single_index_stats(index: Seq<char>, details: JsonV) -> JsonV {
    let names = field_info::info_names(field_info::field_infos(details));
    JsonV::Object(
        seq![
            ("scope"@, JsonV::Text("single_index"@)),
            ("index"@, JsonV::Text(index)),
            ("field_count"@, search::count_value(names.len())),
            ("field_names"@, errors::text_array(names)),
            ("stats"@, details),
        ],
    )
}

/// The statistics of one index, out of its description.
pub fn one_index_stats(index: &str, details: Json) -> (stats: Json)
    ensures
        stats@ == single_index_stats(index@, details@),
{
    let ghost given = details@;
    let names: Vec<String> = extract_field_names(&details);
    assert(text::texts(names@).len() == names@.len());
    let parts: Vec<(String, Json)> = vec![
        entry_of("scope", "single_index"),
        entry_of("index", index),
        entry("field_count", Json::count(names.len())),
        entry("field_names", Json::text_list(&names)),
        entry("stats", details),
    ];
    assert(json::entry_models(parts@) =~= seq![
        ("scope"@, JsonV::Text("single_index"@)),
        ("index"@, JsonV::Text(index@)),
        ("field_count"@, search::count_value(text::texts(names@).len())),
        ("field_names"@, errors::text_array(text::texts(names@))),
        ("stats"@, given),
    ]);
    Json::object(parts)
}

/// The sum of what some entries hold under a key.
pub open spec fn total_under(entries: Seq<JsonV>, key: Seq<char>) -> nat
    decreases entries.len(),
{
    if entries.len() == 0 {
        0
    } else {
        total_under(entries.drop_last(), key) + broadcast::or_zero(broadcast::number_of(entries.last().get(key)))
    }
}

/// Whether the sums over a listing fit the numbers that they are told in.
pub open spec fn totals_fit(entries: Seq<JsonV>) -> bool {
    &&& total_under(entries, "document_count"@) <= u64::MAX
    &&& total_under(entries, "total_size_bytes"@) <= u64::MAX
    &&& total_under(entries, "field_count"@) <= usize::MAX
}

/// The sum of the first entries is no more than the whole.
proof fn lemma_total_of_first(entries: Seq<JsonV>, key: Seq<char>, count: int)
    requires
        0 <= count <= entries.len(),
    ensures
        total_under(entries.take(count), key) <= total_under(entries, key),
    decreases entries.len() - count,
{
    if count < entries.len() {
        lemma_total_of_first(entries, key, count + 1);
        assert(entries.take(count + 1).drop_last() =~= entries.take(count));
    } else {
        assert(entries.take(count) =~= entries);
    }
}

/// The sum of what some entries hold under a key.
fn add_up(entries: &Vec<Json>, key: &str) -> (total: u64)
    requires
        total_under(json::models(entries@), key@) <= u64::MAX,
    ensures
        total == total_under(json::models(entries@), key@),
{
    let ghost all = json::models(entries@);
    let mut total: u64 = 0;
    let mut i: usize = 0;
    assert(all.take(0) =~= Seq::empty());
    while i < entries.len()
        invariant
            i <= entries.len(),
            all == json::models(entries@),
            total_under(all, key@) <= u64::MAX,
            total == total_under(all.take(i as int), key@),
        decreases entries.len() - i,
    {
        proof {
            assert(all.take(i + 1).drop_last() =~= all.take(i as int));
            assert(all.take(i + 1).last() == entries@[i as int]@);
            lemma_total_of_first(all, key@, i + 1);
        }
        let number: u64 = match number_at(&entries[i], key) {
            Some(n) => n,
            None => 0,
        };
        total += number;
        i += 1;
    }
    assert(all.take(entries.len() as int) =~= all);
    total
}

/// Whether each entry is that of a listing with its hints.
pub open spec fn are_enriched(enriched: Seq<JsonV>, entries: Seq<JsonV>, hints: HintsV) -> bool {
    &&& enriched.len() == entries.len()
    &&& forall|i: int|
        0 <= i < entries.len() ==> #[trigger] is_enriched_entry(enriched[i], entries[i], hints)
}

/// Whether an entry is another with its hints.
pub open spec fn is_enriched_entry(enriched: JsonV, entry: JsonV, hints: HintsV) -> bool {
    exists|types: Seq<Seq<char>>| #[trigger] field_info::is_enriched(enriched, entry, hints, types)
}

/// What an entry is ordered by: entries without a name first, the others by their names.
pub open spec fn name_key(entry: JsonV) -> Seq<char> {
    match broadcast::text_of_value(entry.get("name"@)) {
        Some(name) => "="@ + name,
        None => Seq::empty(),
    }
}

/// Entries beside what they are ordered by.
pub open spec fn keyed_entries(entries: Seq<JsonV>) -> Seq<(Seq<char>, JsonV)> {
    entries.map_values(|entry: JsonV| (name_key(entry), entry))
}

/// Whether an answer tells the totals of a listing, and its entries by name, each with its hints.
pub open spec fn is_catalog_stats(
    stats: JsonV,
    listing: JsonV,
    hints: HintsV,
    enriched: Seq<JsonV>,
    shown: Seq<JsonV>,
    listed: Seq<Seq<char>>,
    order: Seq<int>,
) -> bool {
    let entries = listed_entries(listing);
    &&& are_enriched(enriched, entries, hints)
    &&& catalog::is_in_name_order(shown, keyed_entries(enriched), false, listed, order)
    &&& stats == JsonV::Object(
        seq![
            ("scope"@, JsonV::Text("all_indexes"@)),
            ("total_indexes"@, search::count_value(entries.len())),
            (
                "total_documents"@,
                JsonV::Number(NumV::Unsigned(total_under(entries, "document_count"@) as u64)),
            ),
            (
                "total_size_bytes"@,
                JsonV::Number(NumV::Unsigned(total_under(entries, "total_size_bytes"@) as u64)),
            ),
            ("total_fields"@, search::count_value(total_under(entries, "field_count"@))),
            ("indexes"@, JsonV::Array(shown)),
        ],
    )
}

/// Adds their hints to the entries of a listing.
fn enrich_entries(listing: &Json, hints: &SyntaxHints) -> (enriched: Vec<Json>)
    ensures
        are_enriched(json::models(enriched@), listed_entries(listing@), hints@),
{
    let mut enriched: Vec<Json> = Vec::new();
    if let Some(value) = listing.get("indexes") {
        if let Some(items) = value.as_array() {
            let ghost all = json::models(items@);
            let mut i: usize = 0;
            while i < items.len()
                invariant
                    i <= items.len(),
                    all == json::models(items@),
                    enriched@.len() == i,
                    forall|k: int|
                        0 <= k < i ==> #[trigger] is_enriched_entry(
                            json::models(enriched@)[k],
                            all[k],
                            hints@,
                        ),
                decreases items.len() - i,
            {
                let ghost before = json::models(enriched@);
                let richer: Json = enrich_index_entry(items[i].clone(), hints);
                assert(is_enriched_entry(richer@, all[i as int], hints@));
                enriched.push(richer);
                assert forall|k: int| 0 <= k < i + 1 implies #[trigger] is_enriched_entry(
                    json::models(enriched@)[k],
                    all[k],
                    hints@,
                ) by {
                    if k < i {
                        assert(json::models(enriched@)[k] == before[k]);
                    }
                }
                i += 1;
            }
        }
    }
    enriched
}

/// The totals of a listing that already holds no other indexes than the caller may see, and its
/// entries by name, so that the totals count no document that the caller cannot read.
pub fn catalog_stats(listing: &Json, hints: &SyntaxHints) -> (stats: Json)
    requires
        totals_fit(listed_entries(listing@)),
    ensures
        exists|
            enriched: Seq<JsonV>,
            shown: Seq<JsonV>,
            listed: Seq<Seq<char>>,
            order: Seq<int>,
        | #[trigger]
            is_catalog_stats(stats@, listing@, hints@, enriched, shown, listed, order),
{
    let enriched: Vec<Json> = enrich_entries(listing, hints);
    let ghost all = json::models(enriched@);
    let ghost entries = listed_entries(listing@);
    proof {
        reveal_strlit("query_hints");
        reveal_strlit("document_count");
        reveal_strlit("total_size_bytes");
        reveal_strlit("field_count");
        assert("query_hints"@[0] == 'q' && "field_count"@[0] == 'f');
        lemma_hints_change_no_total(all, entries, hints@, "document_count"@);
        lemma_hints_change_no_total(all, entries, hints@, "total_size_bytes"@);
        lemma_hints_change_no_total(all, entries, hints@, "field_count"@);
    }
    let count: usize = enriched.len();
    let documents: u64 = add_up(&enriched, "document_count");
    let bytes: u64 = add_up(&enriched, "total_size_bytes");
    let fields: u64 = add_up(&enriched, "field_count");
    let mut keyed: Vec<(String, Json)> = Vec::new();
    for item in it: enriched
        invariant
            it.seq() == enriched@,
            all == json::models(enriched@),
            keyed@.len() == it.index(),
            forall|k: int|
                0 <= k < it.index() ==> (#[trigger] keyed@[k]).0@ == name_key(all[k])
                    && keyed@[k].1@ == all[k],
    {
        assert(item == enriched@[it.index() as int]);
        let key: String = match text_at(&item, "name") {
            Some(name) => {
                let mut key: String = String::from_str("=");
                key.append(name.as_str());
                key
            },
            None => String::new(),
        };
        assert(key@ =~= name_key(item@));
        keyed.push((key, item));
    }
    assert(json::entry_models(keyed@) =~= keyed_entries(all));
    let values: Vec<Json> = values_by_name(keyed, false);
    let ghost shown = json::models(values@);
    let ghost (listed, order) = choose|listed: Seq<Seq<char>>, order: Seq<int>| #[trigger]
        catalog::is_in_name_order(shown, keyed_entries(all), false, listed, order);
    assert(all.len() == entries.len());
    let parts: Vec<(String, Json)> = vec![
        entry_of("scope", "all_indexes"),
        entry("total_indexes", Json::count(count)),
        entry("total_documents", Json::unsigned(documents)),
        entry("total_size_bytes", Json::unsigned(bytes)),
        entry("total_fields", Json::unsigned(fields)),
        entry("indexes", Json::list(values)),
    ];
    assert(json::entry_models(parts@) =~= seq![
        ("scope"@, JsonV::Text("all_indexes"@)),
        ("total_indexes"@, search::count_value(entries.len())),
        (
            "total_documents"@,
            JsonV::Number(NumV::Unsigned(total_under(entries, "document_count"@) as u64)),
        ),
        (
            "total_size_bytes"@,
            JsonV::Number(NumV::Unsigned(total_under(entries, "total_size_bytes"@) as u64)),
        ),
        ("total_fields"@, search::count_value(total_under(entries, "field_count"@))),
        ("indexes"@, JsonV::Array(shown)),
    ]);
    let stats: Json = Json::object(parts);
    assert(is_catalog_stats(stats@, listing@, hints@, all, shown, listed, order));
    stats
}

/// Adding hints changes no total, since it writes one key that nothing is summed under.
proof fn lemma_hints_change_no_total(
    enriched: Seq<JsonV>,
    entries: Seq<JsonV>,
    hints: HintsV,
    key: Seq<char>,
)
    requires
        are_enriched(enriched, entries, hints),
        key != "query_hints"@,
    ensures
        total_under(enriched, key) == total_under(entries, key),
    decreases entries.len(),
{
    if entries.len() > 0 {
        let last = entries.len() - 1;
        assert(is_enriched_entry(enriched[last], entries[last], hints));
        assert forall|i: int| 0 <= i < last implies #[trigger] is_enriched_entry(
            enriched.drop_last()[i],
            entries.drop_last()[i],
            hints,
        ) by {
            assert(is_enriched_entry(enriched[i], entries[i], hints));
        }
        lemma_hints_change_no_total(enriched.drop_last(), entries.drop_last(), hints, key);
        let types = choose|types: Seq<Seq<char>>| #[trigger]
            field_info::is_enriched(enriched[last], entries[last], hints, types);
        if entries[last] is Object {
            json::lemma_read_back(
                entries[last],
                "query_hints"@,
                JsonV::Array(field_info::type_hint_values(hints, types)),
                key,
            );
        }
    }
}

} // verus!
