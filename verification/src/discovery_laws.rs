//! What the discovery tools say of indexes, queries and fields.

use vstd::prelude::*;
use crate::{
    analysis, broadcast, broadcast_laws, catalog_laws, diagnostics, discovery, field_info, json, order,
    resources, search_laws, text, words,
};
use crate::analysis::Reference;
use crate::field_info::{FieldInfoV, HintsV};
use crate::json::JsonV;

verus! {

// ---------------------------------------------------------------------------
// Indexes
// ---------------------------------------------------------------------------

/// The indexes that a listing holds.
pub open spec fn indexes_in(listing: JsonV) -> Seq<JsonV> {
    match listing.get("indexes"@) {
        Some(JsonV::Array(items)) => items,
        _ => Seq::empty(),
    }
}

/// An index is described by the first entry under its name, and is not found where there is none.
pub proof fn law_an_index_is_found_by_its_name(listing: JsonV, index: Seq<char>)
    ensures
        discovery::listed_entry(listing, index) matches Some(entry) ==> entry.get("name"@) == Some(
            JsonV::Text(index),
        ) && indexes_in(listing).contains(entry),
        discovery::listed_entry(listing, index) is None ==> forall|i: int|
            0 <= i < indexes_in(listing).len() ==> (#[trigger] indexes_in(listing)[i]).get("name"@)
                != Some(JsonV::Text(index)),
{
    lemma_named_from(indexes_in(listing), index, 0);
}

/// Looking from a place finds an entry under the name from there on.
proof fn lemma_named_from(entries: Seq<JsonV>, index: Seq<char>, from: int)
    requires
        0 <= from,
    ensures
        discovery::entry_named_from(entries, index, from) matches Some(entry) ==> entry.get("name"@)
            == Some(JsonV::Text(index)) && entries.contains(entry),
        discovery::entry_named_from(entries, index, from) is None ==> forall|i: int|
            from <= i < entries.len() ==> (#[trigger] entries[i]).get("name"@) != Some(
                JsonV::Text(index),
            ),
    decreases entries.len() - from,
{
    if from < entries.len() {
        assert(entries.contains(entries[from]));
        if !discovery::is_named(entries[from], index) {
            lemma_named_from(entries, index, from + 1);
        }
    }
}

/// A catalog holds an entry for every listed index, in the order they are listed, counts them, and says
/// of the node what the listing says.
pub proof fn law_a_catalog_holds_every_index(listing: JsonV)
    ensures
        ({
            let catalog = discovery::catalogue_of(listing);
            &&& catalog.get("indexes"@) matches Some(JsonV::Array(entries)) && entries.len()
                == indexes_in(listing).len() && forall|i: int|
                0 <= i < entries.len() ==> #[trigger] entries[i] == field_info::catalogued(
                    indexes_in(listing)[i],
                )
            &&& search_laws::is_count(catalog.get("total_indexes"@), indexes_in(listing).len())
            &&& listing.get("node_id"@) matches Some(value) ==> catalog.get("node_id"@) == Some(value)
            &&& listing.get("node_name"@) matches Some(value) ==> catalog.get("node_name"@) == Some(
                value,
            )
            &&& listing.get("total_shards"@) matches Some(value) ==> catalog.get("total_shards"@)
                == Some(value)
            &&& listing.get("took_ms"@) matches Some(value) ==> catalog.get("took_ms"@) == Some(value)
        }),
{
    reveal_strlit("indexes");
    reveal_strlit("total_indexes");
    reveal_strlit("node_id");
    reveal_strlit("node_name");
    reveal_strlit("total_shards");
    reveal_strlit("took_ms");
    assert("indexes"@.len() == 7 && "total_indexes"@.len() == 13 && "node_id"@.len() == 7);
    assert("node_name"@.len() == 9 && "total_shards"@.len() == 12 && "took_ms"@.len() == 7);
    assert("indexes"@[0] == 'i' && "node_id"@[0] == 'n' && "took_ms"@[0] == 't');
    let entries = discovery::catalogue_of(listing)->Object_0;
    json::lemma_key_place_is(entries, "indexes"@, 0);
    json::lemma_key_place_is(entries, "total_indexes"@, 1);
    json::lemma_key_place_is(entries, "node_id"@, 2);
    json::lemma_key_place_is(entries, "node_name"@, 3);
    json::lemma_key_place_is(entries, "total_shards"@, 4);
    json::lemma_key_place_is(entries, "took_ms"@, 5);
}

/// What is added up under a key is what the entries say under it.
pub proof fn law_a_total_is_what_the_entries_say(entries: Seq<JsonV>, key: Seq<char>)
    ensures
        discovery::total_under(entries, key) == order::sum_of(
            entries.map_values(|entry: JsonV| broadcast_laws::whole_under(entry, key)),
        ),
    decreases entries.len(),
{
    let says = |entry: JsonV| broadcast_laws::whole_under(entry, key);
    if entries.len() > 0 {
        let rest = entries.drop_last();
        law_a_total_is_what_the_entries_say(rest, key);
        assert(entries.map_values(says).drop_last() =~= rest.map_values(says));
    }
}

/// The statistics of all indexes count them and add up their documents, bytes and fields.
pub proof fn law_statistics_add_up_the_indexes(
    stats: JsonV,
    listing: JsonV,
    hints: HintsV,
    enriched: Seq<JsonV>,
    shown: Seq<JsonV>,
    listed: Seq<Seq<char>>,
    order: Seq<int>,
)
    requires
        discovery::is_catalog_stats(stats, listing, hints, enriched, shown, listed, order),
    ensures
        ({
            let entries = indexes_in(listing);
            &&& search_laws::is_count(stats.get("total_indexes"@), entries.len())
            &&& search_laws::is_count(
                stats.get("total_documents"@),
                order::sum_of(
                    entries.map_values(
                        |entry: JsonV| broadcast_laws::whole_under(entry, "document_count"@),
                    ),
                ),
            )
            &&& search_laws::is_count(
                stats.get("total_size_bytes"@),
                order::sum_of(
                    entries.map_values(
                        |entry: JsonV| broadcast_laws::whole_under(entry, "total_size_bytes"@),
                    ),
                ),
            )
            &&& search_laws::is_count(
                stats.get("total_fields"@),
                order::sum_of(
                    entries.map_values(
                        |entry: JsonV| broadcast_laws::whole_under(entry, "field_count"@),
                    ),
                ),
            )
            &&& stats.get("indexes"@) == Some(JsonV::Array(shown))
            &&& shown.len() == entries.len()
        }),
{
    let entries = indexes_in(listing);
    law_a_total_is_what_the_entries_say(entries, "document_count"@);
    law_a_total_is_what_the_entries_say(entries, "total_size_bytes"@);
    law_a_total_is_what_the_entries_say(entries, "field_count"@);
    reveal_strlit("scope");
    reveal_strlit("total_indexes");
    reveal_strlit("total_documents");
    reveal_strlit("total_size_bytes");
    reveal_strlit("total_fields");
    reveal_strlit("indexes");
    assert("scope"@.len() == 5 && "total_indexes"@.len() == 13 && "total_documents"@.len() == 15);
    assert("total_size_bytes"@.len() == 16 && "total_fields"@.len() == 12 && "indexes"@.len() == 7);
    let parts = stats->Object_0;
    json::lemma_key_place_is(parts, "scope"@, 0);
    json::lemma_key_place_is(parts, "total_indexes"@, 1);
    json::lemma_key_place_is(parts, "total_documents"@, 2);
    json::lemma_key_place_is(parts, "total_size_bytes"@, 3);
    json::lemma_key_place_is(parts, "total_fields"@, 4);
    json::lemma_key_place_is(parts, "indexes"@, 5);
}

// ---------------------------------------------------------------------------
// Queries
// ---------------------------------------------------------------------------

/// A query parses where it could be checked and no error was reported; one that could not be checked
/// neither does nor does not.
pub proof fn law_a_query_parses_where_nothing_is_reported(parsed: JsonV)
    ensures
        parsed.get("valid"@) is None || parsed.get("valid"@) == Some(JsonV::Null)
            ==> discovery::parses_value(parsed) == JsonV::Null,
        parsed.get("valid"@) is Some && parsed.get("valid"@) != Some(JsonV::Null) ==> (
        parsed.get("syntax_errors"@) matches Some(JsonV::Array(errors)) ==> discovery::parses_value(
            parsed,
        ) == JsonV::Bool(errors.len() == 0)),
        parsed.get("valid"@) is Some && parsed.get("valid"@) != Some(JsonV::Null) && parsed.get(
            "syntax_errors"@,
        ) is None ==> discovery::parses_value(parsed) == JsonV::Bool(true),
{
}

/// How often a character occurs in a text is how many of its places hold it.
pub proof fn law_a_character_is_counted_at_its_places(whole: Seq<char>, c: char)
    ensures
        analysis::count_of(whole, c) == whole.filter(|d: char| d == c).len(),
    decreases whole.len(),
{
    reveal(Seq::filter);
    if whole.len() > 0 {
        law_a_character_is_counted_at_its_places(whole.drop_last(), c);
    }
}

/// A query is warned of where its quotes do not pair, and where it does not close what it opens.
pub proof fn law_a_query_is_warned_of_what_does_not_pair(query: Seq<char>)
    ensures
        ({
            let quotes = query.filter(|d: char| d == '"').len();
            let opened = query.filter(|d: char| d == '(').len();
            let closed = query.filter(|d: char| d == ')').len();
            let warnings = analysis::structural_warnings(query);
            &&& warnings.len() == (if quotes % 2 != 0 {
                1int
            } else {
                0int
            }) + (if opened != closed {
                1int
            } else {
                0int
            })
            &&& quotes % 2 != 0 ==> warnings[0] == analysis::QUOTE_WARNING@
            &&& opened != closed ==> warnings.last() == analysis::parentheses_warning(opened, closed)
        }),
{
    law_a_character_is_counted_at_its_places(query, '"');
    law_a_character_is_counted_at_its_places(query, '(');
    law_a_character_is_counted_at_its_places(query, ')');
}

/// Whether a field of this name can be queried.
pub open spec fn some_queryable(infos: Seq<FieldInfoV>, name: Seq<char>) -> bool {
    exists|i: int|
        0 <= i < infos.len() && (#[trigger] infos[i]).name == name && (infos[i].searchable
            || infos[i].is_shadow)
}

/// Whether there is a field of this name.
pub open spec fn some_named(infos: Seq<FieldInfoV>, name: Seq<char>) -> bool {
    exists|i: int| 0 <= i < infos.len() && (#[trigger] infos[i]).name == name
}

/// The names that can be queried are those of the fields that can.
proof fn lemma_queryable_names(infos: Seq<FieldInfoV>, name: Seq<char>)
    ensures
        analysis::queryable_names(infos).contains(name) <==> some_queryable(infos, name),
    decreases infos.len(),
{
    if infos.len() > 0 {
        let rest = infos.drop_last();
        lemma_queryable_names(rest, name);
        let before = analysis::queryable_names(rest);
        let all = analysis::queryable_names(infos);
        assert(infos[rest.len() as int] == infos.last());
        if before.contains(name) {
            let k = choose|k: int| 0 <= k < before.len() && before[k] == name;
            assert(all[k] == name);
            let i = choose|i: int|
                0 <= i < rest.len() && (#[trigger] rest[i]).name == name && (rest[i].searchable
                    || rest[i].is_shadow);
            assert(infos[i] == rest[i]);
        } else {
            if all.contains(name) {
                let k = choose|k: int| 0 <= k < all.len() && all[k] == name;
                if k < before.len() {
                    assert(before[k] == name);
                }
            }
            if some_queryable(infos, name) {
                let i = choose|i: int|
                    0 <= i < infos.len() && (#[trigger] infos[i]).name == name && (
                    infos[i].searchable || infos[i].is_shadow);
                if i < rest.len() {
                    assert(rest[i] == infos[i]);
                } else {
                    assert(all[before.len() as int] == name);
                }
            }
        }
    } else {
        assert(!analysis::queryable_names(infos).contains(name));
    }
}

/// A name that a query uses is recognized where a field of that name can be queried, known but not
/// indexed where there is one that cannot, and unknown where there is none.
pub proof fn law_a_name_is_what_its_field_is(infos: Seq<FieldInfoV>, name: Seq<char>)
    ensures
        some_queryable(infos, name) ==> analysis::reference(infos, name) == Reference::Recognized,
        !some_queryable(infos, name) && some_named(infos, name) ==> analysis::reference(infos, name)
            == Reference::NotIndexed,
        !some_named(infos, name) ==> analysis::reference(infos, name) == Reference::Unknown,
{
    lemma_queryable_names(infos, name);
    let all = field_info::info_names(infos);
    if some_named(infos, name) {
        let i = choose|i: int| 0 <= i < infos.len() && (#[trigger] infos[i]).name == name;
        assert(all[i] == name);
    }
    if all.contains(name) {
        let k = choose|k: int| 0 <= k < all.len() && all[k] == name;
        assert(infos[k].name == name);
    }
    if some_queryable(infos, name) {
        let i = choose|i: int|
            0 <= i < infos.len() && (#[trigger] infos[i]).name == name && (infos[i].searchable
                || infos[i].is_shadow);
        assert(infos[i].name == name);
    }
}

/// The names of a kind are the names that are of it, as they stand.
pub proof fn law_names_are_sorted_by_what_they_are(
    names: Seq<Seq<char>>,
    infos: Seq<FieldInfoV>,
    wanted: Reference,
)
    ensures
        analysis::names_that_are(names, infos, wanted) == names.filter(
            |name: Seq<char>| analysis::reference(infos, name) == wanted,
        ),
    decreases names.len(),
{
    reveal(Seq::filter);
    if names.len() > 0 {
        law_names_are_sorted_by_what_they_are(names.drop_last(), infos, wanted);
    }
}

/// An unknown name is told with the names that are close to it: those that hold it, and those that it
/// holds, in small letters.
pub proof fn law_close_names_hold_each_other(known: Seq<Seq<char>>, unknown: Seq<char>)
    ensures
        analysis::close_names(known, unknown) == known.filter(
            |name: Seq<char>|
                text::holds_part(words::in_small_letters(name), words::in_small_letters(unknown))
                    || text::holds_part(
                    words::in_small_letters(unknown),
                    words::in_small_letters(name),
                ),
        ),
    decreases known.len(),
{
    reveal(Seq::filter);
    if known.len() > 0 {
        law_close_names_hold_each_other(known.drop_last(), unknown);
    }
}

/// The fields that are suggested are those whose names hold what was typed, in small letters, each as
/// it is, and no other.
pub proof fn law_suggested_fields_hold_what_was_typed(infos: Seq<FieldInfoV>, partial: Seq<char>)
    ensures
        discovery::suggested_fields(infos, partial) == infos.filter(
            |info: FieldInfoV|
                text::holds_part(
                    words::in_small_letters(info.name),
                    words::in_small_letters(partial),
                ),
        ).map_values(|info: FieldInfoV| JsonV::Object(discovery::field_entries(info))),
    decreases infos.len(),
{
    reveal(Seq::filter);
    let fits = |info: FieldInfoV|
        text::holds_part(words::in_small_letters(info.name), words::in_small_letters(partial));
    let shown = |info: FieldInfoV| JsonV::Object(discovery::field_entries(info));
    if infos.len() > 0 {
        law_suggested_fields_hold_what_was_typed(infos.drop_last(), partial);
    }
    assert(discovery::suggested_fields(infos, partial) =~= infos.filter(fits).map_values(shown));
}

/// Every field is available but the engine's own.
pub proof fn law_every_field_is_available_but_the_engines_own(infos: Seq<FieldInfoV>, hints: HintsV)
    ensures
        discovery::available_fields(infos, hints) == infos.filter(
            |info: FieldInfoV| info.name != "_seq"@,
        ).map_values(|info: FieldInfoV| discovery::available_field(info, hints)),
    decreases infos.len(),
{
    reveal(Seq::filter);
    let own = |info: FieldInfoV| info.name != "_seq"@;
    let shown = |info: FieldInfoV| discovery::available_field(info, hints);
    if infos.len() > 0 {
        law_every_field_is_available_but_the_engines_own(infos.drop_last(), hints);
    }
    assert(discovery::available_fields(infos, hints) =~= infos.filter(own).map_values(shown));
}

/// A shown field says of itself what it is.
pub proof fn law_a_shown_field_says_what_it_is(info: FieldInfoV)
    ensures
        ({
            let shown = JsonV::Object(discovery::field_entries(info));
            &&& shown.get("name"@) == Some(JsonV::Text(info.name))
            &&& shown.get("type"@) == Some(JsonV::Text(info.field_type))
            &&& shown.get("indexed"@) == Some(JsonV::Bool(info.indexed))
            &&& shown.get("fast"@) == Some(JsonV::Bool(info.fast))
            &&& shown.get("sortable"@) == Some(JsonV::Bool(info.sortable))
            &&& shown.get("shadow"@) == Some(JsonV::Bool(info.is_shadow))
            &&& shown.get("searchable"@) == Some(JsonV::Bool(info.searchable))
            &&& shown.get("queryable"@) == Some(JsonV::Bool(info.searchable || info.is_shadow))
        }),
{
    reveal_strlit("name");
    reveal_strlit("type");
    reveal_strlit("indexed");
    reveal_strlit("fast");
    reveal_strlit("sortable");
    reveal_strlit("shadow");
    reveal_strlit("searchable");
    reveal_strlit("queryable");
    assert("name"@.len() == 4 && "type"@.len() == 4 && "indexed"@.len() == 7 && "fast"@.len() == 4);
    assert("sortable"@.len() == 8 && "shadow"@.len() == 6 && "searchable"@.len() == 10);
    assert("queryable"@.len() == 9);
    assert("name"@[0] == 'n' && "type"@[0] == 't' && "fast"@[0] == 'f');
    let entries = discovery::field_entries(info);
    json::lemma_key_place_is(entries, "name"@, 0);
    json::lemma_key_place_is(entries, "type"@, 1);
    json::lemma_key_place_is(entries, "indexed"@, 2);
    json::lemma_key_place_is(entries, "fast"@, 3);
    json::lemma_key_place_is(entries, "sortable"@, 4);
    json::lemma_key_place_is(entries, "shadow"@, 5);
    json::lemma_key_place_is(entries, "searchable"@, 6);
    json::lemma_key_place_is(entries, "queryable"@, 7);
}

// ---------------------------------------------------------------------------
// Resources
// ---------------------------------------------------------------------------

/// A resource tells where it is, what it is called, what it is, and that it is JSON.
pub proof fn law_a_resource_tells_where_it_is(uri: Seq<char>, name: Seq<char>, words: Seq<char>)
    ensures
        ({
            let told = resources::descriptor(uri, name, words);
            &&& told.get("uri"@) == Some(JsonV::Text(uri))
            &&& told.get("name"@) == Some(JsonV::Text(name))
            &&& told.get("description"@) == Some(JsonV::Text(words))
            &&& told.get("mimeType"@) == Some(JsonV::Text("application/json"@))
        }),
{
    reveal_strlit("uri");
    reveal_strlit("name");
    reveal_strlit("description");
    reveal_strlit("mimeType");
    assert("uri"@.len() == 3 && "name"@.len() == 4 && "description"@.len() == 11);
    assert("mimeType"@.len() == 8);
    let entries = resources::descriptor(uri, name, words)->Object_0;
    json::lemma_key_place_is(entries, "uri"@, 0);
    json::lemma_key_place_is(entries, "name"@, 1);
    json::lemma_key_place_is(entries, "description"@, 2);
    json::lemma_key_place_is(entries, "mimeType"@, 3);
}

/// The resources are the catalog and three of every index, in the order of the catalog; they cannot be
/// listed where an entry names no index.
pub proof fn law_every_index_has_three_resources(entries: Seq<JsonV>, i: int)
    ensures
        resources::resources_of(entries) is None <==> exists|j: int|
            0 <= j < entries.len() && !((#[trigger] entries[j]).get("index"@) matches Some(
                JsonV::Text(_),
            )),
        resources::resources_of(entries) matches Some(listed) ==> {
            &&& listed.len() == 1 + 3 * entries.len()
            &&& listed[0].get("uri"@) == Some(JsonV::Text("cameodb://indexes"@))
            &&& 0 <= i < entries.len() ==> (entries[i].get("index"@) matches Some(JsonV::Text(index))
                && {
                &&& listed[1 + 3 * i].get("uri"@) == Some(
                    JsonV::Text("cameodb://indexes/"@ + index),
                )
                &&& listed[2 + 3 * i].get("uri"@) == Some(
                    JsonV::Text("cameodb://indexes/"@ + index + "/schema"@),
                )
                &&& listed[3 + 3 * i].get("uri"@) == Some(
                    JsonV::Text("cameodb://indexes/"@ + index + "/stats"@),
                )
            })
        },
    decreases entries.len(),
{
    if entries.len() > 0 {
        let rest = entries.drop_last();
        let n = rest.len() as int;
        let last = entries.last();
        law_every_index_has_three_resources(rest, i);
        assert(entries[n] == last);
        if exists|j: int|
            0 <= j < rest.len() && !((#[trigger] rest[j]).get("index"@) matches Some(JsonV::Text(_))) {
            let j = choose|j: int|
                0 <= j < rest.len() && !((#[trigger] rest[j]).get("index"@) matches Some(
                    JsonV::Text(_),
                ));
            assert(entries[j] == rest[j]);
        }
        if exists|j: int|
            0 <= j < entries.len() && !((#[trigger] entries[j]).get("index"@) matches Some(
                JsonV::Text(_),
            )) {
            let j = choose|j: int|
                0 <= j < entries.len() && !((#[trigger] entries[j]).get("index"@) matches Some(
                    JsonV::Text(_),
                ));
            if j < n {
                assert(rest[j] == entries[j]);
            }
        }
        if let (Some(before), Some(index)) = (
            resources::resources_of(rest),
            resources::entry_index(last),
        ) {
            let own = resources::index_resources(index);
            let listed = resources::resources_of(entries)->0;
            assert(listed == before + own);
            assert(listed[0] == before[0]);
            let words = "Metadata resource for CameoDB index '"@ + index + "'."@;
            law_a_resource_tells_where_it_is(
                "cameodb://indexes/"@ + index,
                "Index "@ + index,
                words,
            );
            law_a_resource_tells_where_it_is(
                "cameodb://indexes/"@ + index + "/schema"@,
                "Index "@ + index + " Schema"@,
                "Schema resource for CameoDB index '"@ + index + "'."@,
            );
            law_a_resource_tells_where_it_is(
                "cameodb://indexes/"@ + index + "/stats"@,
                "Index "@ + index + " Statistics"@,
                "Statistics resource for CameoDB index '"@ + index + "'."@,
            );
            if 0 <= i < n {
                assert(rest[i] == entries[i]);
                assert(listed[1 + 3 * i] == before[1 + 3 * i]);
                assert(listed[2 + 3 * i] == before[2 + 3 * i]);
                assert(listed[3 + 3 * i] == before[3 + 3 * i]);
            } else if i == n {
                assert(listed[1 + 3 * i] == own[0]);
                assert(listed[2 + 3 * i] == own[1]);
                assert(listed[3 + 3 * i] == own[2]);
            }
        }
    } else {
        law_a_resource_tells_where_it_is(
            "cameodb://indexes"@,
            "CameoDB Index Catalog"@,
            "Every CameoDB index, with its description, document count and field names. Per-index schema is at cameodb://indexes/{index}."@,
        );
    }
}

/// Only what begins as an index's address does is one, and everything that does is.
pub proof fn law_only_an_index_address_is_read(uri: Seq<char>)
    ensures
        uri == "cameodb://indexes"@ ==> resources::read_of(uri) == Some(resources::ReadV::Catalogue),
        uri != "cameodb://indexes"@ ==> (resources::read_of(uri) is Some
            <==> "cameodb://indexes/"@.is_prefix_of(uri)),
{
    let start = "cameodb://indexes/"@;
    if start.is_prefix_of(uri) {
        assert(uri.subrange(0, start.len() as int) =~= start);
    }
}

/// The schema of a described index is the one it holds under that name, and its fields where it holds
/// none.
pub proof fn law_a_schema_is_what_the_description_holds(details: JsonV)
    ensures
        details.get("schema"@) matches Some(known) ==> resources::schema_in(details) == known,
        details.get("schema"@) is None ==> (details.get("fields"@) matches Some(fields)
            ==> resources::schema_in(details) == fields),
        details.get("schema"@) is None && details.get("fields"@) is None ==> resources::schema_in(
            details,
        ) == JsonV::Null,
{
}

/// The names of an analysis's parts are different names.
proof fn lemma_analysis_names()
    ensures
        "query"@.len() == 5,
        "recognized_fields"@.len() == 17,
        "unknown_fields"@.len() == 14,
        "not_indexed_fields"@.len() == 18,
        "field_hints"@.len() == 11,
        "warnings"@.len() == 8,
        "suggestions"@.len() == 11,
        "field_hints"@[0] == 'f',
        "suggestions"@[0] == 's',
        "parses"@.len() == 6,
        "syntax_errors"@.len() == 13,
        "normalized_query"@.len() == 16,
        "discarded_clauses"@.len() == 17,
        "discarded_clauses"@[0] == 'd',
        "recognized_fields"@[0] == 'r',
        "note"@.len() == 4,
{
    reveal_strlit("query");
    reveal_strlit("recognized_fields");
    reveal_strlit("unknown_fields");
    reveal_strlit("not_indexed_fields");
    reveal_strlit("field_hints");
    reveal_strlit("warnings");
    reveal_strlit("suggestions");
    reveal_strlit("parses");
    reveal_strlit("syntax_errors");
    reveal_strlit("normalized_query");
    reveal_strlit("discarded_clauses");
    reveal_strlit("note");
}

/// An analysis tells the query, and every name that it uses under what that name is; it is warned of
/// what does not pair, of names that are not indexed and of unknown ones, and suggests names that are
/// close.
pub proof fn law_an_analysis_tells_every_name(query: Seq<char>, infos: Seq<FieldInfoV>, hints: HintsV)
    ensures
        ({
            let told = analysis::analysis_of(query, infos, hints);
            let names = diagnostics::query_fields(query);
            &&& told.get("query"@) == Some(JsonV::Text(query))
            &&& broadcast_laws::lists_texts(
                told.get("recognized_fields"@),
                names.filter(
                    |name: Seq<char>| analysis::reference(infos, name) == Reference::Recognized,
                ),
            )
            &&& broadcast_laws::lists_texts(
                told.get("unknown_fields"@),
                names.filter(
                    |name: Seq<char>| analysis::reference(infos, name) == Reference::Unknown,
                ),
            )
            &&& broadcast_laws::lists_texts(
                told.get("not_indexed_fields"@),
                names.filter(
                    |name: Seq<char>| analysis::reference(infos, name) == Reference::NotIndexed,
                ),
            )
            &&& broadcast_laws::lists_texts(
                told.get("warnings"@),
                analysis::structural_warnings(query) + names.filter(
                    |name: Seq<char>| analysis::reference(infos, name) == Reference::NotIndexed,
                ).map_values(
                    |name: Seq<char>|
                        "Field '"@ + name
                            + "' exists but is not indexed. Queries against it will not match."@,
                ) + analysis::unknown_warnings(
                    if infos.len() == 0 {
                        Seq::empty()
                    } else {
                        names.filter(
                            |name: Seq<char>| analysis::reference(infos, name) == Reference::Unknown,
                        )
                    },
                    analysis::queryable_names(infos),
                ),
            )
            &&& told.get("suggestions"@) is Some
            &&& told.get("field_hints"@) is Some
        }),
{
    lemma_analysis_names();
    let names = diagnostics::query_fields(query);
    law_names_are_sorted_by_what_they_are(names, infos, Reference::Recognized);
    law_names_are_sorted_by_what_they_are(names, infos, Reference::Unknown);
    law_names_are_sorted_by_what_they_are(names, infos, Reference::NotIndexed);
    let entries = analysis::analysis_of(query, infos, hints)->Object_0;
    json::lemma_key_place_is(entries, "query"@, 0);
    json::lemma_key_place_is(entries, "recognized_fields"@, 1);
    json::lemma_key_place_is(entries, "unknown_fields"@, 2);
    json::lemma_key_place_is(entries, "not_indexed_fields"@, 3);
    json::lemma_key_place_is(entries, "field_hints"@, 4);
    json::lemma_key_place_is(entries, "warnings"@, 5);
    json::lemma_key_place_is(entries, "suggestions"@, 6);
    let not_indexed = names.filter(
        |name: Seq<char>| analysis::reference(infos, name) == Reference::NotIndexed,
    );
    assert(analysis::not_indexed_warnings(not_indexed) =~= not_indexed.map_values(
        |name: Seq<char>|
            "Field '"@ + name + "' exists but is not indexed. Queries against it will not match."@,
    ));
}

/// An unknown name with close ones is suggested them, and one without is warned of with every name that
/// there is; each is told exactly once.
pub proof fn law_an_unknown_name_is_told_once(unknown: Seq<Seq<char>>, known: Seq<Seq<char>>)
    ensures
        analysis::unknown_suggestions(unknown, known).len() + analysis::unknown_warnings(
            unknown,
            known,
        ).len() == unknown.len(),
        analysis::unknown_suggestions(unknown, known) == unknown.filter(
            |name: Seq<char>| analysis::close_names(known, name).len() > 0,
        ).map_values(
            |name: Seq<char>|
                "Unknown field '"@ + name + "'. Did you mean: "@ + text::joined(
                    analysis::close_names(known, name),
                    ", "@,
                ) + "?"@,
        ),
        analysis::unknown_warnings(unknown, known) == unknown.filter(
            |name: Seq<char>| analysis::close_names(known, name).len() == 0,
        ).map_values(
            |name: Seq<char>|
                "Unknown field '"@ + name + "'. Available queryable fields: "@ + text::joined(
                    known,
                    ", "@,
                ) + "."@,
        ),
    decreases unknown.len(),
{
    reveal(Seq::filter);
    let close = |name: Seq<char>| analysis::close_names(known, name).len() > 0;
    let far = |name: Seq<char>| analysis::close_names(known, name).len() == 0;
    let meant = |name: Seq<char>|
        "Unknown field '"@ + name + "'. Did you mean: "@ + text::joined(
            analysis::close_names(known, name),
            ", "@,
        ) + "?"@;
    let there = |name: Seq<char>|
        "Unknown field '"@ + name + "'. Available queryable fields: "@ + text::joined(known, ", "@)
            + "."@;
    if unknown.len() > 0 {
        law_an_unknown_name_is_told_once(unknown.drop_last(), known);
    }
    assert(analysis::unknown_suggestions(unknown, known) =~= unknown.filter(close).map_values(meant));
    assert(analysis::unknown_warnings(unknown, known) =~= unknown.filter(far).map_values(there));
}

/// What a parser says of a query is added to what is known of it: whether it parses, its errors, what
/// it comes to, what was dropped and what is noted; every error becomes a warning behind the others.
pub proof fn law_a_parsers_verdict_is_added(told: JsonV, parsed: JsonV)
    requires
        told is Object,
    ensures
        ({
            let both = discovery::merged_verdict(told, parsed);
            &&& both.get("parses"@) == Some(discovery::parses_value(parsed))
            &&& parsed.get("syntax_errors"@) matches Some(errors) ==> both.get("syntax_errors"@)
                == Some(errors)
            &&& parsed.get("normalized_query"@) matches Some(value) ==> both.get("normalized_query"@)
                == Some(value)
            &&& parsed.get("discarded"@) matches Some(value) ==> both.get("discarded_clauses"@)
                == Some(value)
            &&& parsed.get("note"@) matches Some(value) ==> both.get("note"@) == Some(value)
            &&& both.get("query"@) == told.get("query"@)
            &&& both.get("recognized_fields"@) == told.get("recognized_fields"@)
            &&& (told.get("warnings"@), parsed.get("syntax_errors"@)) matches (
                Some(JsonV::Array(before)),
                Some(JsonV::Array(errors)),
            ) ==> (both.get("warnings"@) matches Some(JsonV::Array(after)) && after.len()
                == before.len() + broadcast::texts_among(errors).len() && before.is_prefix_of(after))
        }),
{
    lemma_analysis_names();
    let one = told.with("parses"@, discovery::parses_value(parsed));
    let two = one.with("syntax_errors"@, discovery::reported_errors(parsed));
    lemma_put(told, "parses"@, discovery::parses_value(parsed));
    lemma_put(one, "syntax_errors"@, discovery::reported_errors(parsed));
    let three = discovery::with_held(two, "normalized_query"@, parsed, "normalized_query"@);
    if let Some(value) = parsed.get("normalized_query"@) {
        lemma_put(two, "normalized_query"@, value);
    }
    let four = discovery::with_held(three, "discarded_clauses"@, parsed, "discarded"@);
    if let Some(value) = parsed.get("discarded"@) {
        lemma_put(three, "discarded_clauses"@, value);
    }
    let five = discovery::with_held(four, "note"@, parsed, "note"@);
    if let Some(value) = parsed.get("note"@) {
        lemma_put(four, "note"@, value);
    }
    if let (Some(JsonV::Array(before)), JsonV::Array(errors)) = (
        five.get("warnings"@),
        discovery::reported_errors(parsed),
    ) {
        let more = discovery::parse_warnings(broadcast::texts_among(errors));
        lemma_put(five, "warnings"@, JsonV::Array(before + more));
        assert((before + more).subrange(0, before.len() as int) =~= before);
    }
}

/// What an object holds of an analysis's parts after one of them is written.
proof fn lemma_put(value: JsonV, key: Seq<char>, put: JsonV)
    requires
        value is Object,
    ensures
        value.with(key, put) is Object,
        forall|asked: Seq<char>| #[trigger]
            value.with(key, put).get(asked) == (if asked == key {
                Some(put)
            } else {
                value.get(asked)
            }),
{
    assert forall|asked: Seq<char>| #[trigger] value.with(key, put).get(asked) == (if asked == key {
        Some(put)
    } else {
        value.get(asked)
    }) by {
        json::lemma_read_back(value, key, put, asked);
    }
    json::lemma_read_back(value, key, put, key);
}

/// A validation names the index, suggests fields where a part of a name was typed, analyses the query
/// where there is one, and shows the fields that there are.
pub proof fn law_a_validation_tells_the_fields(
    index: Option<Seq<char>>,
    partial: Option<Seq<char>>,
    query: Option<Seq<char>>,
    known: Option<JsonV>,
    parsed: Option<JsonV>,
    hints: HintsV,
    syntax: JsonV,
)
    ensures
        ({
            let told = discovery::validation_of(index, partial, query, known, parsed, hints, syntax);
            let infos = if known is Some {
                field_info::field_infos(known->0)
            } else {
                Seq::empty()
            };
            &&& index matches Some(name) ==> told.get("index"@) == Some(JsonV::Text(name))
            &&& index is None ==> told.get("index"@) == Some(JsonV::Null)
            &&& partial matches Some(words) ==> told.get("field_suggestions"@) == Some(
                JsonV::Array(discovery::suggested_fields(infos, words)),
            )
            &&& partial is None ==> told.get("field_suggestions"@) == Some(JsonV::Array(Seq::empty()))
            &&& query is None ==> told.get("query_analysis"@) == Some(JsonV::Null)
            &&& query matches Some(words) ==> {
                &&& parsed is None ==> told.get("query_analysis"@) == Some(
                    analysis::analysis_of(words, infos, hints),
                )
                &&& parsed matches Some(verdict) ==> told.get("query_analysis"@) == Some(
                    discovery::merged_verdict(analysis::analysis_of(words, infos, hints), verdict),
                )
            }
            &&& told.get("syntax_reference"@) == Some(syntax)
            &&& told.get("available_fields"@) == Some(
                JsonV::Array(discovery::available_fields(infos, hints)),
            )
            &&& broadcast_laws::lists_texts(
                told.get("searchable_field_names"@),
                infos.map_values(|info: FieldInfoV| info.name),
            )
        }),
{
    reveal_strlit("index");
    reveal_strlit("field_suggestions");
    reveal_strlit("query_analysis");
    reveal_strlit("syntax_reference");
    reveal_strlit("available_fields");
    reveal_strlit("searchable_field_names");
    assert("index"@.len() == 5 && "field_suggestions"@.len() == 17 && "query_analysis"@.len() == 14);
    assert("syntax_reference"@.len() == 16 && "available_fields"@.len() == 16);
    assert("searchable_field_names"@.len() == 22);
    assert("syntax_reference"@[0] == 's' && "available_fields"@[0] == 'a');
    let entries = discovery::validation_of(
        index,
        partial,
        query,
        known,
        parsed,
        hints,
        syntax,
    )->Object_0;
    json::lemma_key_place_is(entries, "index"@, 0);
    json::lemma_key_place_is(entries, "field_suggestions"@, 1);
    json::lemma_key_place_is(entries, "query_analysis"@, 2);
    json::lemma_key_place_is(entries, "syntax_reference"@, 3);
    json::lemma_key_place_is(entries, "available_fields"@, 4);
    json::lemma_key_place_is(entries, "searchable_field_names"@, 5);
}

/// The statistics of one index name it, count and name its fields, and hold what is known of it.
pub proof fn law_one_index_has_its_statistics(index: Seq<char>, details: JsonV)
    ensures
        ({
            let told = discovery::single_index_stats(index, details);
            let names = field_info::field_infos(details).map_values(|info: FieldInfoV| info.name);
            &&& told.get("index"@) == Some(JsonV::Text(index))
            &&& search_laws::is_count(told.get("field_count"@), names.len())
            &&& broadcast_laws::lists_texts(told.get("field_names"@), names)
            &&& told.get("stats"@) == Some(details)
        }),
{
    reveal_strlit("scope");
    reveal_strlit("index");
    reveal_strlit("field_count");
    reveal_strlit("field_names");
    reveal_strlit("stats");
    assert("scope"@.len() == 5 && "index"@.len() == 5 && "field_count"@.len() == 11);
    assert("field_names"@.len() == 11 && "stats"@.len() == 5);
    assert("scope"@[1] == 'c' && "index"@[1] == 'n' && "stats"@[1] == 't');
    assert("field_count"@[6] == 'c' && "field_names"@[6] == 'n');
    let entries = discovery::single_index_stats(index, details)->Object_0;
    json::lemma_key_place_is(entries, "scope"@, 0);
    json::lemma_key_place_is(entries, "index"@, 1);
    json::lemma_key_place_is(entries, "field_count"@, 2);
    json::lemma_key_place_is(entries, "field_names"@, 3);
    json::lemma_key_place_is(entries, "stats"@, 4);
}

/// The statistics of all indexes stand by their names, as in a dictionary.
pub proof fn law_statistics_stand_by_name(
    stats: JsonV,
    listing: JsonV,
    hints: HintsV,
    enriched: Seq<JsonV>,
    shown: Seq<JsonV>,
    listed: Seq<Seq<char>>,
    order: Seq<int>,
    i: int,
    j: int,
)
    requires
        discovery::is_catalog_stats(stats, listing, hints, enriched, shown, listed, order),
        0 <= i < j < shown.len(),
    ensures
        (shown[i].get("name"@), shown[j].get("name"@)) matches (
            Some(JsonV::Text(x)),
            Some(JsonV::Text(y)),
        ) ==> x == y || text::comes_before(x, y),
{
    let keyed = discovery::keyed_entries(enriched);
    catalog_laws::law_a_catalog_stands_by_name(shown, keyed, false, listed, order, i, j);
    assert(keyed[order[i]] == (discovery::name_key(enriched[order[i]]), enriched[order[i]]));
    assert(keyed[order[j]] == (discovery::name_key(enriched[order[j]]), enriched[order[j]]));
    if let (Some(JsonV::Text(x)), Some(JsonV::Text(y))) = (
        shown[i].get("name"@),
        shown[j].get("name"@),
    ) {
        reveal_strlit("=");
        let a = "="@ + x;
        let b = "="@ + y;
        assert(a.drop_first() =~= x);
        assert(b.drop_first() =~= y);
        assert(a[0] == b[0]);
        assert(text::text_order(a, b) == text::text_order(x, y));
        text::law_texts_stand_as_in_a_dictionary(a, b);
        text::law_texts_stand_as_in_a_dictionary(x, y);
    }
}

} // verus!
