//! What is read in a query, and what is said of one that went wrong.

use vstd::prelude::*;
use crate::{diagnostics, errors, field_info, json, search_laws, text, words};
use crate::field_info::{FieldInfoV, HintsV};
use crate::json::JsonV;

verus! {

// ---------------------------------------------------------------------------
// Words
// ---------------------------------------------------------------------------

/// Words read from a place are those of what stands from there on.
proof fn lemma_words_shift(whole: Seq<char>, from: int, by: int)
    requires
        0 <= by <= from <= whole.len(),
    ensures
        words::words_from(whole, from) == words::words_from(whole.skip(by), from - by),
    decreases whole.len() - from,
{
    let rest = whole.skip(by);
    lemma_after_space_shift(whole, from, by);
    words::lemma_after_space(whole, from);
    let start = text::after_space(whole, from);
    if start < whole.len() {
        lemma_space_shift(whole, start, by);
        words::lemma_space_from(whole, start);
        let end = words::space_from(whole, start);
        assert(whole.subrange(start, end) =~= rest.subrange(start - by, end - by));
        lemma_words_shift(whole, end, by);
    }
}

/// Blanks are passed over the same from either count.
proof fn lemma_after_space_shift(whole: Seq<char>, from: int, by: int)
    requires
        0 <= by <= from <= whole.len(),
    ensures
        text::after_space(whole, from) == text::after_space(whole.skip(by), from - by) + by,
    decreases whole.len() - from,
{
    if from < whole.len() && text::is_space(whole[from]) {
        lemma_after_space_shift(whole, from + 1, by);
    }
}

/// The next blank is the same from either count.
proof fn lemma_space_shift(whole: Seq<char>, from: int, by: int)
    requires
        0 <= by <= from <= whole.len(),
    ensures
        words::space_from(whole, from) == words::space_from(whole.skip(by), from - by) + by,
    decreases whole.len() - from,
{
    if from < whole.len() && !text::is_space(whole[from]) {
        lemma_space_shift(whole, from + 1, by);
    }
}

/// A run without blanks goes on to its end.
proof fn lemma_run(whole: Seq<char>, from: int, end: int)
    requires
        0 <= from <= end <= whole.len(),
        forall|i: int| from <= i < end ==> !text::is_space(#[trigger] whole[i]),
        end < whole.len() ==> text::is_space(whole[end]),
    ensures
        words::space_from(whole, from) == end,
    decreases end - from,
{
    if from < end {
        assert(!text::is_space(whole[from]));
        lemma_run(whole, from + 1, end);
    }
}

/// A word is a run without blanks: it ends at the first blank, the next begins behind it, and a blank
/// before it makes no word.
pub proof fn law_a_word_ends_at_a_blank(word: Seq<char>, blank: char, rest: Seq<char>)
    requires
        word.len() > 0,
        forall|i: int| 0 <= i < word.len() ==> !text::is_space(#[trigger] word[i]),
        text::is_space(blank),
    ensures
        words::words_of(Seq::empty()).len() == 0,
        words::words_of(word) == seq![word],
        words::words_of(seq![blank] + rest) == words::words_of(rest),
        words::words_of(word + seq![blank] + rest) == seq![word] + words::words_of(rest),
{
    let alone = word;
    assert(text::after_space(alone, 0) == 0) by {
        assert(!text::is_space(alone[0]));
    }
    lemma_run(alone, 0, alone.len() as int);
    assert(alone.subrange(0, alone.len() as int) =~= word);
    assert(words::words_from(alone, alone.len() as int).len() == 0) by {
        words::lemma_after_space(alone, alone.len() as int);
    }
    assert(words::words_of(alone) =~= seq![word]);
    let led = seq![blank] + rest;
    assert(led.skip(1) =~= rest);
    lemma_leading_blank(led);
    let whole = word + seq![blank] + rest;
    let n = word.len() as int;
    assert(!text::is_space(whole[0])) by {
        assert(whole[0] == word[0]);
    }
    assert(text::after_space(whole, 0) == 0);
    assert forall|i: int| 0 <= i < n implies !text::is_space(#[trigger] whole[i]) by {
        assert(whole[i] == word[i]);
    }
    assert(whole[n] == blank);
    lemma_run(whole, 0, n);
    assert(whole.subrange(0, n) =~= word);
    lemma_words_shift(whole, n, n);
    assert(whole.skip(n) =~= led);
}

/// A blank in front changes no word.
proof fn lemma_leading_blank(led: Seq<char>)
    requires
        led.len() > 0,
        text::is_space(led[0]),
    ensures
        words::words_of(led) == words::words_of(led.skip(1)),
{
    lemma_words_shift(led, 1, 1);
    words::lemma_after_space(led, 0);
    words::lemma_after_space(led, 1);
    assert(text::after_space(led, 0) == text::after_space(led, 1));
    assert(words::words_from(led, 0) =~= words::words_from(led, 1));
}

/// A text takes as many bytes as its parts together, and a plain character takes one.
pub proof fn law_a_text_takes_the_bytes_of_its_parts(one: Seq<char>, other: Seq<char>)
    ensures
        words::byte_length(one + other) == words::byte_length(one) + words::byte_length(other),
        words::is_ascii_text(one) ==> words::byte_length(one) == one.len(),
        one.len() <= words::byte_length(one) <= 4 * one.len(),
    decreases one.len() + other.len(),
{
    if other.len() > 0 {
        let rest = other.drop_last();
        assert((one + other).drop_last() =~= one + rest);
        law_a_text_takes_the_bytes_of_its_parts(one, rest);
    } else {
        assert(one + other =~= one);
        if one.len() > 0 {
            law_a_text_takes_the_bytes_of_its_parts(one.drop_last(), other);
            if words::is_ascii_text(one) {
                assert((one[one.len() - 1] as int) < 128);
                assert forall|i: int| 0 <= i < one.drop_last().len() implies (
                #[trigger] one.drop_last()[i] as int) < 128 by {
                    assert((one[i] as int) < 128);
                }
            }
        }
    }
}

// ---------------------------------------------------------------------------
// The fields of a query
// ---------------------------------------------------------------------------

/// What was found stays found.
proof fn lemma_found_stays(query: Seq<char>, from: int, found: Seq<Seq<char>>, name: Seq<char>)
    requires
        found.contains(name),
        0 <= from,
    ensures
        diagnostics::fields_from(query, from, found).contains(name),
    decreases query.len() + 1 - from,
{
    if from < query.len() {
        diagnostics::lemma_piece_end(query, from);
        let word = diagnostics::word_at(query, from);
        let k = choose|k: int| 0 <= k < found.len() && found[k] == name;
        assert(found.push(word)[k] == name);
        lemma_found_stays(query, diagnostics::piece_end(query, from), found, name);
        lemma_found_stays(query, diagnostics::piece_end(query, from), found.push(word), name);
    }
}

/// A name goes on to the first character that is no part of one.
proof fn lemma_name_goes_on(query: Seq<char>, from: int, end: int)
    requires
        0 <= from <= end <= query.len(),
        forall|i: int| from <= i < end ==> diagnostics::in_name(#[trigger] query[i]),
        end < query.len() ==> !diagnostics::in_name(query[end]),
    ensures
        diagnostics::name_end(query, from) == end,
    decreases end - from,
{
    if from < end {
        assert(diagnostics::in_name(query[from]));
        lemma_name_goes_on(query, from + 1, end);
    }
}

/// A word before a colon is a field of the query, unless the query language has it for itself.
pub proof fn law_a_word_before_a_colon_is_a_field(name: Seq<char>, rest: Seq<char>)
    requires
        name.len() > 0,
        words::is_ascii_text(name),
        words::is_ascii_text(rest),
        diagnostics::starts_name(name[0]),
        forall|i: int| 0 <= i < name.len() ==> diagnostics::in_name(#[trigger] name[i]),
    ensures
        !diagnostics::is_reserved(name) ==> diagnostics::query_fields(name + seq![':'] + rest).contains(
            name,
        ),
{
    let query = name + seq![':'] + rest;
    let n = name.len() as int;
    assert forall|i: int| 0 <= i < query.len() implies (#[trigger] query[i] as int) < 128 by {
        if i < n {
            assert(query[i] == name[i]);
        } else if i > n {
            assert(query[i] == rest[i - n - 1]);
        }
    }
    assert forall|i: int| 0 <= i < n implies diagnostics::in_name(#[trigger] query[i]) by {
        assert(query[i] == name[i]);
    }
    assert(query[n] == ':');
    lemma_name_goes_on(query, 0, n);
    diagnostics::law_an_ascii_query_cuts_cleanly(query, 0);
    assert(query.subrange(0, n) =~= name);
    assert(query[0] == name[0]);
    if !diagnostics::is_reserved(name) {
        let found = Seq::<Seq<char>>::empty().push(name);
        assert(found[0] == name);
        diagnostics::lemma_piece_end(query, 0);
        lemma_found_stays(query, diagnostics::piece_end(query, 0), found, name);
    }
}

/// A phrase in quotes names no field, whatever stands in it.
pub proof fn law_a_quoted_phrase_names_no_field(phrase: Seq<char>)
    requires
        forall|i: int| 0 <= i < phrase.len() ==> #[trigger] phrase[i] != '"',
    ensures
        diagnostics::query_fields(seq!['"'] + phrase + seq!['"']).len() == 0,
{
    let query = seq!['"'] + phrase + seq!['"'];
    let end: int = phrase.len() as int + 1;
    assert forall|i: int| 1 <= i < end implies #[trigger] query[i] != '"' by {
        assert(query[i] == phrase[i - 1]);
    }
    assert(query[end] == '"');
    lemma_quote_goes_on(query, 1, end);
    assert(diagnostics::piece_end(query, 0) == query.len());
    assert(query[0] == '"');
    let none = Seq::<Seq<char>>::empty();
    assert(diagnostics::fields_from(query, query.len() as int, none) == none);
    assert(diagnostics::fields_from(query, 0, none) == diagnostics::fields_from(
        query,
        query.len() as int,
        none,
    ));
}

/// A phrase goes on to its closing quote.
proof fn lemma_quote_goes_on(query: Seq<char>, from: int, end: int)
    requires
        0 <= from <= end < query.len(),
        forall|i: int| from <= i < end ==> #[trigger] query[i] != '"',
        query[end] == '"',
    ensures
        diagnostics::quote_from(query, from) == end,
    decreases end - from,
{
    if from < end {
        assert(query[from] != '"');
        lemma_quote_goes_on(query, from + 1, end);
    }
}

/// The words that the query language has for itself, in capitals or not, are its operators and its two
/// keywords, and no other.
pub proof fn law_the_reserved_words_are_the_languages_own(word: Seq<char>)
    ensures
        diagnostics::is_reserved(word) <==> seq![
            "and"@,
            "or"@,
            "not"@,
            "to"@,
            "return"@,
            "limit"@,
        ].contains(text::lowered(word)),
{
    let own = seq!["and"@, "or"@, "not"@, "to"@, "return"@, "limit"@];
    assert(own[0] == "and"@ && own[1] == "or"@ && own[2] == "not"@ && own[3] == "to"@);
    assert(own[4] == "return"@ && own[5] == "limit"@);
}

// ---------------------------------------------------------------------------
// Advice and refusals
// ---------------------------------------------------------------------------

/// A query that found nothing is advised on every way in which it narrows: a phrase, a joined clause, a
/// required one and an excluded one.
pub proof fn law_every_narrowing_is_advised_on(query: Seq<char>)
    ensures
        ({
            let list = words::words_of(query);
            let said = diagnostics::narrowings(query);
            &&& said.contains(diagnostics::PHRASE_ADVICE@) <== query.contains('"')
            &&& said.contains(diagnostics::AND_ADVICE@) <== list.contains("AND"@)
            &&& said.contains(diagnostics::REQUIRED_ADVICE@) <== (exists|i: int|
                0 <= i < list.len() && (#[trigger] list[i]).len() > 0 && list[i][0] == '+')
            &&& said.contains(diagnostics::EXCLUDED_ADVICE@) <== (exists|i: int|
                0 <= i < list.len() && (((#[trigger] list[i]).len() > 0 && list[i][0] == '-') || list[i]
                    == "NOT"@))
            &&& said.len() == (if query.contains('"') {
                1int
            } else {
                0
            }) + (if list.contains("AND"@) {
                1int
            } else {
                0
            }) + (if exists|i: int|
                0 <= i < list.len() && (#[trigger] list[i]).len() > 0 && list[i][0] == '+' {
                1int
            } else {
                0
            }) + (if exists|i: int|
                0 <= i < list.len() && (((#[trigger] list[i]).len() > 0 && list[i][0] == '-') || list[i]
                    == "NOT"@) {
                1int
            } else {
                0
            })
            &&& diagnostics::advice_on(query) is Some <==> said.len() > 0
            &&& said.len() > 0 ==> diagnostics::advice_on(query) == Some(text::joined(said, " "@))
        }),
{
    let list = words::words_of(query);
    let one = diagnostics::said_if(query.contains('"'), diagnostics::PHRASE_ADVICE@);
    let two = diagnostics::said_if(list.contains("AND"@), diagnostics::AND_ADVICE@);
    let three = diagnostics::said_if(
        diagnostics::requires_a_clause(list),
        diagnostics::REQUIRED_ADVICE@,
    );
    let four = diagnostics::said_if(
        diagnostics::excludes_a_clause(list),
        diagnostics::EXCLUDED_ADVICE@,
    );
    let said = diagnostics::narrowings(query);
    assert(said == one + two + three + four);
    assert(diagnostics::requires_a_clause(list) <==> exists|i: int|
        0 <= i < list.len() && (#[trigger] list[i]).len() > 0 && list[i][0] == '+') by {
        if exists|i: int|
            0 <= i < list.len() && (#[trigger] list[i]).len() > 0 && list[i][0] == '+' {
            let i = choose|i: int|
                0 <= i < list.len() && (#[trigger] list[i]).len() > 0 && list[i][0] == '+';
            assert(diagnostics::opens_with(list[i], '+'));
        }
    }
    assert(diagnostics::excludes_a_clause(list) <==> exists|i: int|
        0 <= i < list.len() && (((#[trigger] list[i]).len() > 0 && list[i][0] == '-') || list[i]
            == "NOT"@)) by {
        if exists|i: int|
            0 <= i < list.len() && (((#[trigger] list[i]).len() > 0 && list[i][0] == '-') || list[i]
                == "NOT"@) {
            let i = choose|i: int|
                0 <= i < list.len() && (((#[trigger] list[i]).len() > 0 && list[i][0] == '-')
                    || list[i] == "NOT"@);
            assert(diagnostics::opens_with(list[i], '-') || list[i] == "NOT"@);
        }
    }
    if query.contains('"') {
        assert(said[0] == diagnostics::PHRASE_ADVICE@);
    }
    if list.contains("AND"@) {
        assert(said[one.len() as int] == diagnostics::AND_ADVICE@);
    }
    if diagnostics::requires_a_clause(list) {
        assert(said[(one + two).len() as int] == diagnostics::REQUIRED_ADVICE@);
    }
    if diagnostics::excludes_a_clause(list) {
        assert(said[(one + two + three).len() as int] == diagnostics::EXCLUDED_ADVICE@);
    }
}

/// A page is past the end where it starts behind the last hit of a search that has any.
pub proof fn law_a_page_is_past_the_end_behind_the_last_hit(offset: nat, total_hits: nat)
    ensures
        diagnostics::past_the_end(offset, total_hits) is Some <==> total_hits > 0 && offset
            >= total_hits,
{
}

/// An error tells of a missing field where it says so in one of the ways that the engine says it.
pub proof fn law_an_error_tells_of_a_missing_field(error: Seq<char>)
    ensures
        diagnostics::reports_missing_field(error) <==> exists|place: int|
            is_said_at(error, place),
{
    text::law_a_part_has_a_place(error, "does not exist"@);
    text::law_a_part_has_a_place(error, "FieldDoesNotExist"@);
    text::law_a_part_has_a_place(error, "unknown field"@);
    text::law_a_part_has_a_place(error, "not declared as indexed"@);
    if diagnostics::reports_missing_field(error) {
        let place = if text::holds_part(error, "does not exist"@) {
            choose|place: int| #[trigger] text::occurs_at(error, "does not exist"@, place)
        } else if text::holds_part(error, "FieldDoesNotExist"@) {
            choose|place: int| #[trigger] text::occurs_at(error, "FieldDoesNotExist"@, place)
        } else if text::holds_part(error, "unknown field"@) {
            choose|place: int| #[trigger] text::occurs_at(error, "unknown field"@, place)
        } else {
            choose|place: int| #[trigger] text::occurs_at(error, "not declared as indexed"@, place)
        };
        assert(is_said_at(error, place));
    }
}

/// Whether the engine's words for a missing field stand at a place.
pub open spec fn is_said_at(error: Seq<char>, place: int) -> bool {
    ||| text::occurs_at(error, "does not exist"@, place)
    ||| text::occurs_at(error, "FieldDoesNotExist"@, place)
    ||| text::occurs_at(error, "unknown field"@, place)
    ||| text::occurs_at(error, "not declared as indexed"@, place)
}

/// A text stands in what is joined from it and others.
proof fn lemma_joined_holds(parts: Seq<Seq<char>>, separator: Seq<char>, i: int) -> (place: int)
    requires
        0 <= i < parts.len(),
    ensures
        text::occurs_at(text::joined(parts, separator), parts[i], place),
    decreases parts.len(),
{
    let whole = text::joined(parts, separator);
    if parts.len() == 1 {
        assert(whole.subrange(0, whole.len() as int) =~= parts[i]);
        0
    } else {
        let rest = parts.drop_last();
        let front = text::joined(rest, separator);
        if i < rest.len() {
            let place = lemma_joined_holds(rest, separator, i);
            assert(rest[i] == parts[i]);
            assert(whole.subrange(place, place + parts[i].len()) =~= front.subrange(
                place,
                place + parts[i].len(),
            ));
            place
        } else {
            let place = (front.len() + separator.len()) as int;
            assert(whole.subrange(place, place + parts[i].len()) =~= parts[i]);
            place
        }
    }
}

/// A query is refused where a clause of it was dropped, and the refusal tells every note on one.
pub proof fn law_a_refusal_tells_every_dropped_clause(notes: Seq<Seq<char>>, i: int) -> (place: int)
    ensures
        diagnostics::refusal_of(notes) is Some <==> notes.len() > 0,
        0 <= i < notes.len() ==> text::occurs_at(
            diagnostics::refusal_of(notes)->0,
            "  - "@ + notes[i],
            place,
        ),
{
    if 0 <= i < notes.len() {
        let list = diagnostics::bulleted(notes);
        let inner = text::joined(list, "\n"@);
        let at = lemma_joined_holds(list, "\n"@, i);
        let whole = diagnostics::refusal_of(notes)->0;
        let head = "Query rejected: part of this query could not be interpreted and was dropped, so the results would not be the ones asked for.\n"@;
        let part = "  - "@ + notes[i];
        assert(list[i] == part);
        let place = head.len() + at;
        assert(whole.subrange(place, place + part.len()) =~= inner.subrange(at, at + part.len()));
        place
    } else {
        0
    }
}

// ---------------------------------------------------------------------------
// Hints and entries
// ---------------------------------------------------------------------------

/// A field is hinted at by its type, a shadow as a shadow, and a type without a hint of its own as any
/// other.
pub proof fn law_a_field_is_hinted_at_by_its_type(hints: HintsV, info: FieldInfoV, i: int)
    requires
        0 <= i <= hints.by_type.len(),
        forall|j: int| 0 <= j < i ==> (#[trigger] hints.by_type[j]).0 != info.field_type,
        i < hints.by_type.len() ==> hints.by_type[i].0 == info.field_type,
    ensures
        info.is_shadow ==> field_info::field_hint(hints, info) == hints.shadow_field,
        !info.is_shadow && i < hints.by_type.len() ==> field_info::field_hint(hints, info)
            == hints.by_type[i].1,
        !info.is_shadow && i == hints.by_type.len() ==> field_info::field_hint(hints, info)
            == hints.other,
{
    lemma_hint_from(hints, info.field_type, 0, i);
}

/// Looking from a place finds the first hint for the type from there on.
proof fn lemma_hint_from(hints: HintsV, field_type: Seq<char>, from: int, i: int)
    requires
        0 <= from <= i <= hints.by_type.len(),
        forall|j: int| from <= j < i ==> (#[trigger] hints.by_type[j]).0 != field_type,
        i < hints.by_type.len() ==> hints.by_type[i].0 == field_type,
    ensures
        field_info::hint_from(hints.by_type, field_type, hints.other, from) == (if i
            < hints.by_type.len() {
            hints.by_type[i].1
        } else {
            hints.other
        }),
    decreases i - from,
{
    if from < i {
        assert(hints.by_type[from].0 != field_type);
        lemma_hint_from(hints, field_type, from + 1, i);
    }
}

/// The fields of a description are its entries that have a name, as they stand.
pub proof fn law_a_description_is_read_field_by_field(defs: Seq<JsonV>)
    ensures
        field_info::infos_of(defs) == defs.filter(
            |def: JsonV| field_info::info_of(def).name.len() > 0,
        ).map_values(|def: JsonV| field_info::info_of(def)),
    decreases defs.len(),
{
    reveal(Seq::filter);
    let named = |def: JsonV| field_info::info_of(def).name.len() > 0;
    let read = |def: JsonV| field_info::info_of(def);
    if defs.len() > 0 {
        law_a_description_is_read_field_by_field(defs.drop_last());
    }
    assert(field_info::infos_of(defs) =~= defs.filter(named).map_values(read));
}

/// A catalog entry names the index, counts its documents as the description does, and names its fields.
pub proof fn law_a_catalog_entry_names_the_fields(description: JsonV)
    ensures
        ({
            let entry = field_info::catalogued(description);
            let names = field_info::field_infos(description).map_values(
                |info: FieldInfoV| info.name,
            );
            &&& description.get("name"@) matches Some(name) ==> entry.get("index"@) == Some(name)
            &&& description.get("document_count"@) matches Some(count) ==> entry.get(
                "document_count"@,
            ) == Some(count)
            &&& search_laws::is_count(entry.get("field_count"@), names.len())
            &&& entry.get("field_names"@) == Some(errors::text_array(names))
            &&& description.get("description"@) matches Some(words) ==> entry.get("description"@)
                == Some(words)
            &&& description.get("description"@) is None ==> entry.get("description"@) is None
        }),
{
    reveal_strlit("index");
    reveal_strlit("document_count");
    reveal_strlit("field_count");
    reveal_strlit("field_names");
    reveal_strlit("description");
    assert("index"@.len() == 5 && "document_count"@.len() == 14 && "field_count"@.len() == 11);
    assert("field_names"@.len() == 11 && "description"@.len() == 11);
    assert("field_count"@[6] == 'c' && "field_names"@[6] == 'n');
    assert("description"@[0] == 'd' && "field_count"@[0] == 'f' && "field_names"@[0] == 'f');
    let names = field_info::info_names(field_info::field_infos(description));
    let listed = JsonV::Object(
        seq![
            ("index"@, field_info::held_or_null(description, "name"@)),
            ("document_count"@, field_info::held_or_null(description, "document_count"@)),
            ("field_count"@, crate::search::count_value(names.len())),
            ("field_names"@, errors::text_array(names)),
        ],
    );
    let entries = listed->Object_0;
    json::lemma_key_place_is(entries, "index"@, 0);
    json::lemma_key_place_is(entries, "document_count"@, 1);
    json::lemma_key_place_is(entries, "field_count"@, 2);
    json::lemma_key_place_is(entries, "field_names"@, 3);
    json::lemma_key_place_is(entries, "description"@, 4);
    if let Some(words) = description.get("description"@) {
        json::lemma_read_back(listed, "description"@, words, "index"@);
        json::lemma_read_back(listed, "description"@, words, "document_count"@);
        json::lemma_read_back(listed, "description"@, words, "field_count"@);
        json::lemma_read_back(listed, "description"@, words, "field_names"@);
        json::lemma_read_back(listed, "description"@, words, "description"@);
    }
}

/// An index is absent where a failure says that it was not found, and is then told by its name.
pub proof fn law_an_index_is_absent_where_it_was_not_found(
    index: Seq<char>,
    failure: Option<Seq<char>>,
)
    ensures
        field_info::absence(index, failure) is Some <==> (failure matches Some(words)
            && text::holds_part(words, "not found"@)),
        field_info::absence(index, failure) matches Some(told) ==> told == "Index '"@ + index
            + "' not found"@,
{
}

} // verus!
