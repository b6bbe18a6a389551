//! Telling a caller why a result is not what it expected.

use vstd::prelude::*;
use vstd::string::*;
use crate::{broadcast, errors, json, text, words};
use crate::errors::DISCARDED_CLAUSES_FIELD;
use crate::json::Json;
use crate::text::{
    chars_of, contains_part, count_text, holds_text, join_texts, lower_text, same_text,
};
use crate::words::{cut_bytes, letter_or_digit, words};

verus! {

// ---------------------------------------------------------------------------
// Empty results
// ---------------------------------------------------------------------------

/// What is said of a phrase.
pub const PHRASE_ADVICE: &'static str =
    "A quoted phrase matches only that exact run of terms, in that order. Try the terms unquoted, or `field:\"a b\"~2` to allow words between them.";

/// What is said of a conjunction.
pub const AND_ADVICE: &'static str =
    "Every `AND` clause has to match the same document. Try `OR` between them, or drop the narrowest clause.";

/// What is said of a required clause.
pub const REQUIRED_ADVICE: &'static str =
    "A `+clause` is required rather than optional, so every one of them has to match. Drop the `+` from the clauses that are not essential.";

/// What is said of an excluded clause.
pub const EXCLUDED_ADVICE: &'static str =
    "An excluded clause removes every document matching it, however well the rest of the query fits. Check that the exclusion is not taking the answer with it.";

/// Whether a word starts with a character.
pub open spec fn opens_with(word: Seq<char>, c: char) -> bool {
    word.len() > 0 && word[0] == c
}

/// Whether some word makes its clause required.
pub open spec fn requires_a_clause(list: Seq<Seq<char>>) -> bool {
    exists|i: int| 0 <= i < list.len() && opens_with(#[trigger] list[i], '+')
}

/// Whether some word makes its clause excluded.
pub open spec fn excludes_a_clause(list: Seq<Seq<char>>) -> bool {
    exists|i: int|
        0 <= i < list.len() && (opens_with(#[trigger] list[i], '-') || list[i] == "NOT"@)
}

/// A text alone, where it applies.
pub open spec fn said_if(applies: bool, text: Seq<char>) -> Seq<Seq<char>> {
    if applies {
        seq![text]
    } else {
        Seq::empty()
    }
}

/// What narrows a query, construct by construct. Terms do not: they are alternatives, so that a query
/// of terms alone that found nothing matched none of them.
pub open spec fn narrowings(text: Seq<char>) -> Seq<Seq<char>> {
    said_if(text.contains('"'), PHRASE_ADVICE@) + said_if(words::words_of(text).contains("AND"@), AND_ADVICE@)
        + said_if(requires_a_clause(words::words_of(text)), REQUIRED_ADVICE@) + said_if(
        excludes_a_clause(words::words_of(text)),
        EXCLUDED_ADVICE@,
    )
}

/// Why a search that matched nothing may have asked for less than it meant to.
pub open spec fn advice_on(text: Seq<char>) -> Option<Seq<char>> {
    if narrowings(text).len() == 0 {
        None
    } else {
        Some(text::joined(narrowings(text), " "@))
    }
}

/// Whether a text holds a character.
fn holds_char(text: &str, c: char) -> (holds: bool)
    ensures
        holds == text@.contains(c),
{
    let chars: Vec<char> = chars_of(text);
    let mut i: usize = 0;
    while i < chars.len()
        invariant
            i <= chars.len(),
            chars@ == text@,
            forall|k: int| 0 <= k < i ==> #[trigger] chars@[k] != c,
        decreases chars.len() - i,
    {
        if chars[i] == c {
            assert(text@[i as int] == c);
            return true;
        }
        i += 1;
    }
    false
}

/// Whether a text starts with a character.
fn starts_with_char(text: &str, c: char) -> (starts: bool)
    ensures
        starts == opens_with(text@, c),
{
    let chars: Vec<char> = chars_of(text);
    chars.len() > 0 && chars[0] == c
}

/// Why a search that matched nothing may have asked for less than it meant to, or none when the query
/// gives no reason to think so. The text is the query's without its inline modifiers, so that `limit`
/// and `sort` are not read as terms.
pub fn zero_results_advice(text: &str) -> (advice: Option<String>)
    ensures
        errors::opt_text(advice) == advice_on(text@),
{
    let tokens: Vec<String> = words(text);
    let ghost list = text::texts(tokens@);
    let mut required: bool = false;
    let mut excluded: bool = false;
    let mut i: usize = 0;
    while i < tokens.len()
        invariant
            i <= tokens.len(),
            list == text::texts(tokens@),
            required == requires_a_clause(list.take(i as int)),
            excluded == excludes_a_clause(list.take(i as int)),
        decreases tokens.len() - i,
    {
        let ghost earlier = list.take(i as int);
        let ghost now = list.take(i + 1);
        let plus: bool = starts_with_char(tokens[i].as_str(), '+');
        let minus: bool = starts_with_char(tokens[i].as_str(), '-') || same_text(
            tokens[i].as_str(),
            "NOT",
        );
        proof {
            assert(now[i as int] == list[i as int]);
            if required {
                let k = choose|k: int|
                    0 <= k < earlier.len() && opens_with(#[trigger] earlier[k], '+');
                assert(opens_with(now[k], '+'));
            }
            if excluded {
                let k = choose|k: int|
                    0 <= k < earlier.len() && (opens_with(#[trigger] earlier[k], '-') || earlier[k]
                        == "NOT"@);
                assert(now[k] == earlier[k]);
            }
            if requires_a_clause(now) {
                let k = choose|k: int| 0 <= k < now.len() && opens_with(#[trigger] now[k], '+');
                if k < i {
                    assert(opens_with(earlier[k], '+'));
                }
            }
            if excludes_a_clause(now) {
                let k = choose|k: int|
                    0 <= k < now.len() && (opens_with(#[trigger] now[k], '-') || now[k] == "NOT"@);
                if k < i {
                    assert(earlier[k] == now[k]);
                }
            }
        }
        required = required || plus;
        excluded = excluded || minus;
        i += 1;
    }
    assert(list.take(tokens.len() as int) =~= list);
    let mut reasons: Vec<String> = Vec::new();
    if holds_char(text, '"') {
        reasons.push(String::from_str(PHRASE_ADVICE));
    }
    assert(text::texts(reasons@) =~= said_if(text@.contains('"'), PHRASE_ADVICE@));
    let ghost one = reasons@;
    if holds_text(&tokens, "AND") {
        reasons.push(String::from_str(AND_ADVICE));
    }
    assert(text::texts(reasons@) =~= text::texts(one) + said_if(list.contains("AND"@), AND_ADVICE@));
    let ghost two = reasons@;
    if required {
        reasons.push(String::from_str(REQUIRED_ADVICE));
    }
    assert(text::texts(reasons@) =~= text::texts(two) + said_if(requires_a_clause(list), REQUIRED_ADVICE@));
    let ghost three = reasons@;
    if excluded {
        reasons.push(String::from_str(EXCLUDED_ADVICE));
    }
    assert(text::texts(reasons@) =~= text::texts(three) + said_if(excludes_a_clause(list), EXCLUDED_ADVICE@));
    assert(text::texts(reasons@) =~= narrowings(text@));
    if reasons.len() == 0 {
        None
    } else {
        Some(join_texts(&reasons, " "))
    }
}

/// A query gets advice exactly when it holds a phrase, a conjunction, a required clause or an excluded
/// one.
pub proof fn law_only_a_narrowed_query_gets_advice(text: Seq<char>)
    ensures
        advice_on(text) is Some <==> text.contains('"') || words::words_of(text).contains("AND"@)
            || requires_a_clause(words::words_of(text)) || excludes_a_clause(words::words_of(text)),
{
}

/// What is said of an empty page of a query that matched.
pub open spec fn past_the_end(offset: nat, total_hits: nat) -> Option<Seq<char>> {
    if offset == 0 || total_hits == 0 || offset < total_hits {
        None
    } else {
        Some(
            "This page is empty because it starts past the end of the result: offset "@ + text::decimal(
                offset,
            ) + " with "@ + text::decimal(total_hits)
                + " matching document(s). The last document is at offset "@ + text::decimal(
                (total_hits - 1) as nat,
            ) + "."@,
        )
    }
}

/// Why an empty page came back from a query that matched, or none when it did not page past the end.
/// Names the last offset that holds a hit.
pub fn paged_past_the_end(offset: usize, total_hits: usize) -> (reason: Option<String>)
    ensures
        errors::opt_text(reason) == past_the_end(offset as nat, total_hits as nat),
{
    if offset == 0 || total_hits == 0 || offset < total_hits {
        return None;
    }
    let mut message: String = String::from_str(
        "This page is empty because it starts past the end of the result: offset ",
    );
    message.append(count_text(offset).as_str());
    message.append(" with ");
    message.append(count_text(total_hits).as_str());
    message.append(" matching document(s). The last document is at offset ");
    message.append(count_text(total_hits - 1).as_str());
    message.append(".");
    Some(message)
}

/// What is said of an order that is approximate.
pub open spec fn approximate_sort_text(field: Seq<char>) -> Seq<char> {
    "These hits are sorted on '"@ + field
        + "', which has no fast column, so the order is the alphabetical order of the highest-scoring candidates rather than of everything that matched — the alphabetically first document may be absent entirely, and paging deeper re-orders a different sample rather than continuing this one. `describe_index` reports `sortable: false` for such a field. An exact order needs the field declared `fast` before the index is built."@
}

/// What an approximate order means for the caller holding it.
pub fn approximate_sort_note(field: &str) -> (note: String)
    ensures
        note@ == approximate_sort_text(field@),
{
    let mut note: String = String::from_str("These hits are sorted on '");
    note.append(field);
    note.append(
        "', which has no fast column, so the order is the alphabetical order of the highest-scoring candidates rather than of everything that matched — the alphabetically first document may be absent entirely, and paging deeper re-orders a different sample rather than continuing this one. `describe_index` reports `sortable: false` for such a field. An exact order needs the field declared `fast` before the index is built.",
    );
    note
}

// ---------------------------------------------------------------------------
// Errors
// ---------------------------------------------------------------------------

/// Whether an engine error reports a field the schema does not have. It goes by specific signals
/// rather than by the word "field", which stands in unrelated errors too.
pub open spec fn reports_missing_field(error: Seq<char>) -> bool {
    ||| text::holds_part(error, "does not exist"@)
    ||| text::holds_part(error, "FieldDoesNotExist"@)
    ||| text::holds_part(error, "unknown field"@)
    ||| text::holds_part(error, "not declared as indexed"@)
}

/// Whether an engine error reports a field the schema does not have.
pub fn names_a_missing_field(error: &str) -> (missing: bool)
    ensures
        missing == reports_missing_field(error@),
{
    contains_part(error, "does not exist") || contains_part(error, "FieldDoesNotExist")
        || contains_part(error, "unknown field") || contains_part(error, "not declared as indexed")
}

/// An engine error with an index's fields behind it.
pub open spec fn error_with_fields(
    error: Seq<char>,
    index: Seq<char>,
    names: Seq<Seq<char>>,
) -> Seq<char> {
    error + "\n\nFields available in '"@ + index + "': ["@ + text::joined(names, ", "@) + "]"@
}

/// Appends an index's fields to an engine error, which stays as it is.
pub fn with_valid_fields(error: &str, index: &str, field_names: &Vec<String>) -> (message: String)
    ensures
        message@ == error_with_fields(error@, index@, text::texts(field_names@)),
{
    let mut message: String = String::from_str(error);
    message.append("\n\nFields available in '");
    message.append(index);
    message.append("': [");
    message.append(join_texts(field_names, ", ").as_str());
    message.append("]");
    message
}

/// The engine's own words stand in front, unchanged.
pub proof fn law_an_error_keeps_its_words(
    error: Seq<char>,
    index: Seq<char>,
    names: Seq<Seq<char>>,
)
    ensures
        text::begins_with(error_with_fields(error, index, names), error),
{
    assert(error_with_fields(error, index, names).subrange(0, error.len() as int) =~= error);
}

/// The texts among some values.
pub fn read_texts(items: &Vec<Json>) -> (found: Vec<String>)
    ensures
        text::texts(found@) == broadcast::texts_among(json::models(items@)),
{
    let ghost all = json::models(items@);
    let mut found: Vec<String> = Vec::new();
    let mut i: usize = 0;
    assert(text::texts(found@) =~= broadcast::texts_among(all.take(0)));
    while i < items.len()
        invariant
            i <= items.len(),
            all == json::models(items@),
            text::texts(found@) == broadcast::texts_among(all.take(i as int)),
        decreases items.len() - i,
    {
        proof {
            assert(all.take(i + 1).drop_last() =~= all.take(i as int));
            assert(all.take(i + 1).last() == items@[i as int]@);
        }
        if let Some(text) = items[i].as_text() {
            let ghost before = found@;
            found.push(text.clone());
            assert(text::texts(found@) =~= text::texts(before).push(text@));
        }
        i += 1;
    }
    assert(all.take(items.len() as int) =~= all);
    found
}

/// Notes as lines of a list.
pub open spec fn bulleted(notes: Seq<Seq<char>>) -> Seq<Seq<char>> {
    notes.map_values(|note: Seq<char>| "  - "@ + note)
}

/// What is said of dropped clauses.
pub open spec fn refusal_of(notes: Seq<Seq<char>>) -> Option<Seq<char>> {
    if notes.len() == 0 {
        None
    } else {
        Some(
            "Query rejected: part of this query could not be interpreted and was dropped, so the results would not be the ones asked for.\n"@
                + text::joined(bulleted(notes), "\n"@)
                + "\n\nRewrite the query and retry. `validate_query` lists the fields this index actually has, with the operators each field's type supports."@,
        )
    }
}

/// Refuses a search response that carries dropped clauses: its hits are real, but they answer a wider
/// query than the caller wrote.
pub fn refuse_if_clauses_discarded(response: &Json) -> (verdict: Result<(), String>)
    ensures
        match verdict {
            Ok(_) => refusal_of(broadcast::notes_of(response@)) is None,
            Err(message) => refusal_of(broadcast::notes_of(response@)) == Some(message@),
        },
{
    let discarded: Vec<String> = match response.get(DISCARDED_CLAUSES_FIELD) {
        Some(value) => match value.as_array() {
            Some(notes) => read_texts(notes),
            None => Vec::new(),
        },
        None => Vec::new(),
    };
    assert(text::texts(discarded@) =~= broadcast::notes_of(response@));
    if discarded.len() == 0 {
        return Ok(());
    }
    let ghost all = bulleted(text::texts(discarded@));
    let mut lines: Vec<String> = Vec::new();
    let mut i: usize = 0;
    assert(text::texts(lines@) =~= all.take(0));
    while i < discarded.len()
        invariant
            i <= discarded.len(),
            all == bulleted(text::texts(discarded@)),
            text::texts(lines@) == all.take(i as int),
        decreases discarded.len() - i,
    {
        let mut line: String = String::from_str("  - ");
        line.append(discarded[i].as_str());
        let ghost before = lines@;
        lines.push(line);
        assert(text::texts(lines@) =~= text::texts(before).push(all[i as int]));
        i += 1;
        assert(text::texts(lines@) =~= all.take(i as int));
    }
    assert(all.take(discarded.len() as int) =~= all);
    let mut message: String = String::from_str(
        "Query rejected: part of this query could not be interpreted and was dropped, so the results would not be the ones asked for.\n",
    );
    message.append(join_texts(&lines, "\n").as_str());
    message.append(
        "\n\nRewrite the query and retry. `validate_query` lists the fields this index actually has, with the operators each field's type supports.",
    );
    Err(message)
}

// ---------------------------------------------------------------------------
// Field references
// ---------------------------------------------------------------------------

/// Whether a character can start a field name.
pub open spec fn starts_name(c: char) -> bool {
    words::is_letter_or_digit(c) || c == '_'
}

/// Whether a character can stand in a field name.
pub open spec fn in_name(c: char) -> bool {
    words::is_letter_or_digit(c) || c == '_' || c == '.'
}

/// The first place of a query, from a place on, that no field name goes over, or its end.
pub open spec fn name_end(query: Seq<char>, from: int) -> int
    decreases query.len() - from,
{
    if from < 0 || from >= query.len() || !in_name(query[from]) {
        from
    } else {
        name_end(query, from + 1)
    }
}

/// The first place of a query, from a place on, that holds a double quote, or its end.
pub open spec fn quote_from(query: Seq<char>, from: int) -> int
    decreases query.len() - from,
{
    if from < 0 || from >= query.len() || query[from] == '"' {
        from
    } else {
        quote_from(query, from + 1)
    }
}

/// A name goes on from its start, and no further than the query.
pub proof fn lemma_name_end(query: Seq<char>, from: int)
    requires
        0 <= from <= query.len(),
    ensures
        from <= name_end(query, from) <= query.len(),
        from < query.len() && in_name(query[from]) ==> from < name_end(query, from),
    decreases query.len() - from,
{
    if from < query.len() && in_name(query[from]) {
        lemma_name_end(query, from + 1);
    }
}

/// A phrase goes on from its start, and no further than the query.
pub proof fn lemma_quote_from(query: Seq<char>, from: int)
    requires
        0 <= from <= query.len(),
    ensures
        from <= quote_from(query, from) <= query.len(),
    decreases query.len() - from,
{
    if from < query.len() && query[from] != '"' {
        lemma_quote_from(query, from + 1);
    }
}

/// Where reading goes on behind the piece of a query that starts at a place: a phrase, a name with
/// its colon, or one character.
pub open spec fn piece_end(query: Seq<char>, from: int) -> int {
    if query[from] == '"' {
        quote_from(query, from + 1) + 1
    } else if starts_name(query[from]) {
        let end = name_end(query, from);
        if end < query.len() && query[end] == ':' {
            end + 1
        } else {
            end
        }
    } else {
        from + 1
    }
}

/// A piece is never empty.
pub proof fn lemma_piece_end(query: Seq<char>, from: int)
    requires
        0 <= from < query.len(),
    ensures
        from < piece_end(query, from) <= query.len() + 1,
{
    lemma_name_end(query, from);
    lemma_quote_from(query, from + 1);
}

/// Whether a word is one of the query language's own.
pub open spec fn is_reserved(word: Seq<char>) -> bool {
    let small_word = text::lowered(word);
    ||| small_word == "and"@
    ||| small_word == "or"@
    ||| small_word == "not"@
    ||| small_word == "to"@
    ||| small_word == "return"@
    ||| small_word == "limit"@
}

/// The word that stands at a place of a query: what its bytes from there up to the word's end hold,
/// the two places counted in characters.
pub open spec fn word_at(query: Seq<char>, from: int) -> Seq<char> {
    words::byte_cut(query, from as nat, name_end(query, from) as nat)
}

/// The fields that a query names, behind those found before a place of it.
pub open spec fn fields_from(query: Seq<char>, from: int, found: Seq<Seq<char>>) -> Seq<Seq<char>>
    decreases query.len() + 1 - from,
    via fields_from_shrinks
{
    if from < 0 || from >= query.len() {
        found
    } else {
        let end = name_end(query, from);
        let word = word_at(query, from);
        if query[from] != '"' && starts_name(query[from]) && end < query.len() && query[end] == ':'
            && !is_reserved(word) && !found.contains(word) {
            fields_from(query, piece_end(query, from), found.push(word))
        } else {
            fields_from(query, piece_end(query, from), found)
        }
    }
}

#[via_fn]
proof fn fields_from_shrinks(query: Seq<char>, from: int, found: Seq<Seq<char>>) {
    if 0 <= from < query.len() {
        lemma_piece_end(query, from);
    }
}

/// The fields that a query names, each once, in the order in which it names them first.
pub open spec fn query_fields(query: Seq<char>) -> Seq<Seq<char>> {
    fields_from(query, 0, Seq::empty())
}

/// Whether every word of a query, from a place on, starts and ends where its bytes start a character.
pub open spec fn cuts_from(query: Seq<char>, from: int) -> bool
    decreases query.len() + 1 - from,
    via cuts_from_shrinks
{
    if from < 0 || from >= query.len() {
        true
    } else {
        &&& query[from] != '"' && starts_name(query[from]) ==> words::is_cut(
            query,
            from as nat,
            name_end(query, from) as nat,
        )
        &&& cuts_from(query, piece_end(query, from))
    }
}

#[via_fn]
proof fn cuts_from_shrinks(query: Seq<char>, from: int) {
    if 0 <= from < query.len() {
        lemma_piece_end(query, from);
    }
}

/// Whether a query's words can be cut out of it. Every ASCII query's can.
pub open spec fn cuts_cleanly(query: Seq<char>) -> bool {
    cuts_from(query, 0)
}

/// An ASCII query's words can be cut out of it, from any place on.
proof fn lemma_ascii_cuts(query: Seq<char>, from: int)
    requires
        words::is_ascii_text(query),
        0 <= from <= query.len() + 1,
    ensures
        cuts_from(query, from),
    decreases query.len() + 1 - from,
{
    if from < query.len() {
        lemma_piece_end(query, from);
        lemma_name_end(query, from);
        words::law_ascii_bytes_are_places(query, from, name_end(query, from));
        lemma_ascii_cuts(query, piece_end(query, from));
    }
}

/// An ASCII query's words can be cut out of it, and each is the word as it stands there.
pub proof fn law_an_ascii_query_cuts_cleanly(query: Seq<char>, from: int)
    requires
        words::is_ascii_text(query),
        0 <= from < query.len(),
    ensures
        cuts_cleanly(query),
        word_at(query, from) == query.subrange(from, name_end(query, from)),
{
    lemma_ascii_cuts(query, 0);
    lemma_name_end(query, from);
    words::law_ascii_bytes_are_places(query, from, name_end(query, from));
}

// ---------------------------------------------------------------------------
// What holds of the fields a query names
// ---------------------------------------------------------------------------

/// Fields found so far are each found once and are none of the query language's own words.
proof fn lemma_fields_from_are_names(query: Seq<char>, from: int, found: Seq<Seq<char>>)
    requires
        0 <= from <= query.len() + 1,
        found.no_duplicates(),
        forall|i: int| 0 <= i < found.len() ==> !is_reserved(#[trigger] found[i]),
    ensures
        fields_from(query, from, found).no_duplicates(),
        forall|i: int|
            0 <= i < fields_from(query, from, found).len() ==> !is_reserved(
                #[trigger] fields_from(query, from, found)[i],
            ),
    decreases query.len() + 1 - from,
{
    if from < query.len() {
        lemma_piece_end(query, from);
        let end = name_end(query, from);
        let word = word_at(query, from);
        if query[from] != '"' && starts_name(query[from]) && end < query.len() && query[end] == ':'
            && !is_reserved(word) && !found.contains(word) {
            lemma_fields_from_are_names(query, piece_end(query, from), found.push(word));
        } else {
            lemma_fields_from_are_names(query, piece_end(query, from), found);
        }
    }
}

/// No field is named twice, and none is a word of the query language, in whatever case it is written.
pub proof fn law_a_query_names_fields_once(query: Seq<char>, place: int)
    requires
        0 <= place < query_fields(query).len(),
    ensures
        query_fields(query).no_duplicates(),
        !is_reserved(query_fields(query)[place]),
{
    lemma_fields_from_are_names(query, 0, Seq::empty());
}

/// How many double quotes a query holds from a place on.
pub open spec fn quotes_from(query: Seq<char>, from: int) -> nat
    decreases query.len() - from,
{
    if from < 0 || from >= query.len() {
        0
    } else if query[from] == '"' {
        quotes_from(query, from + 1) + 1
    } else {
        quotes_from(query, from + 1)
    }
}

/// Names that are not known yet, in their order.
pub open spec fn fresh(names: Seq<Seq<char>>, known: Seq<Seq<char>>) -> Seq<Seq<char>>
    decreases names.len(),
{
    if names.len() == 0 {
        Seq::empty()
    } else if known.contains(names.last()) {
        fresh(names.drop_last(), known)
    } else {
        fresh(names.drop_last(), known).push(names.last())
    }
}

/// What is fresh is what is among the names and not known.
proof fn lemma_fresh(names: Seq<Seq<char>>, known: Seq<Seq<char>>, name: Seq<char>)
    ensures
        fresh(names, known).contains(name) <==> names.contains(name) && !known.contains(name),
    decreases names.len(),
{
    if names.len() > 0 {
        let front = names.drop_last();
        let last = names.last();
        lemma_fresh(front, known, name);
        assert(names =~= front.push(last));
        assert(names.contains(name) <==> front.contains(name) || name == last) by {
            if front.contains(name) {
                let i = choose|i: int| 0 <= i < front.len() && front[i] == name;
                assert(names[i] == name);
            }
            if name == last {
                assert(names[names.len() - 1] == name);
            }
            if names.contains(name) && name != last {
                let i = choose|i: int| 0 <= i < names.len() && names[i] == name;
                assert(front[i] == name);
            }
        }
        let so_far = fresh(front, known);
        let more = so_far.push(last);
        assert(more.contains(name) <==> so_far.contains(name) || name == last) by {
            if so_far.contains(name) {
                let i = choose|i: int| 0 <= i < so_far.len() && so_far[i] == name;
                assert(more[i] == name);
            }
            if name == last {
                assert(more[so_far.len() as int] == name);
            }
            if more.contains(name) && name != last {
                let i = choose|i: int| 0 <= i < more.len() && more[i] == name;
                assert(so_far[i] == name);
            }
        }
    }
}

/// A query, a space and another query.
pub open spec fn beside(one: Seq<char>, other: Seq<char>) -> Seq<char> {
    one + seq![' '] + other
}

/// A name of the first query ends where it ends in that query alone.
proof fn lemma_name_end_in_front(one: Seq<char>, other: Seq<char>, from: int)
    requires
        0 <= from <= one.len(),
    ensures
        name_end(beside(one, other), from) == name_end(one, from),
        quotes_from(one, from) == quotes_from(one, name_end(one, from)),
    decreases one.len() - from,
{
    let both = beside(one, other);
    assert(both[one.len() as int] == ' ');
    if from < one.len() {
        assert(both[from] == one[from]);
        if in_name(one[from]) {
            lemma_name_end_in_front(one, other, from + 1);
        }
    }
}

/// A phrase of the first query that is closed ends where it ends in that query alone.
proof fn lemma_quote_in_front(one: Seq<char>, other: Seq<char>, from: int)
    requires
        0 <= from <= one.len(),
        quotes_from(one, from) % 2 == 1,
    ensures
        quote_from(beside(one, other), from) == quote_from(one, from),
        from <= quote_from(one, from) < one.len(),
        quotes_from(one, quote_from(one, from) + 1) % 2 == 0,
    decreases one.len() - from,
{
    let both = beside(one, other);
    if from < one.len() {
        assert(both[from] == one[from]);
        if one[from] != '"' {
            lemma_quote_in_front(one, other, from + 1);
        }
    }
}

/// The pieces of the first query are read as they are read alone.
proof fn lemma_fields_in_front(one: Seq<char>, other: Seq<char>, from: int, found: Seq<Seq<char>>)
    requires
        words::is_ascii_text(one),
        words::is_ascii_text(other),
        0 <= from <= one.len(),
        quotes_from(one, from) % 2 == 0,
    ensures
        fields_from(beside(one, other), from, found) == fields_from(
            beside(one, other),
            one.len() as int,
            fields_from(one, from, found),
        ),
    decreases one.len() - from,
{
    let both = beside(one, other);
    lemma_beside_is_ascii(one, other);
    if from < one.len() {
        assert(both[from] == one[from]);
        assert(both[one.len() as int] == ' ');
        lemma_piece_end(one, from);
        let next = piece_end(one, from);
        if one[from] == '"' {
            lemma_quote_in_front(one, other, from + 1);
            assert(piece_end(both, from) == next);
            lemma_fields_in_front(one, other, next, found);
        } else if starts_name(one[from]) {
            let end = name_end(one, from);
            lemma_name_end(one, from);
            lemma_name_end_in_front(one, other, from);
            if end < one.len() {
                assert(both[end] == one[end]);
            }
            assert(piece_end(both, from) == next);
            law_an_ascii_query_cuts_cleanly(one, from);
            law_an_ascii_query_cuts_cleanly(both, from);
            assert(both.subrange(from, end) =~= one.subrange(from, end));
            let word = word_at(one, from);
            assert(quotes_from(one, next) % 2 == 0);
            if end < one.len() && one[end] == ':' && !is_reserved(word) && !found.contains(word) {
                lemma_fields_in_front(one, other, next, found.push(word));
            } else {
                lemma_fields_in_front(one, other, next, found);
            }
        } else {
            lemma_fields_in_front(one, other, next, found);
        }
    }
}

/// Two ASCII queries beside each other are ASCII.
proof fn lemma_beside_is_ascii(one: Seq<char>, other: Seq<char>)
    requires
        words::is_ascii_text(one),
        words::is_ascii_text(other),
    ensures
        words::is_ascii_text(beside(one, other)),
{
    let both = beside(one, other);
    assert forall|i: int| 0 <= i < both.len() implies (#[trigger] both[i] as int) < 128 by {
        if i < one.len() {
            assert(both[i] == one[i]);
        } else if i > one.len() {
            assert(both[i] == other[i - one.len() - 1]);
        }
    }
}

/// A name or a phrase of the second query ends as far on as the second query stands behind the first.
proof fn lemma_ends_behind(one: Seq<char>, other: Seq<char>, from: int)
    requires
        0 <= from <= other.len(),
    ensures
        name_end(beside(one, other), one.len() + 1 + from) == one.len() + 1 + name_end(other, from),
        quote_from(beside(one, other), one.len() + 1 + from) == one.len() + 1 + quote_from(
            other,
            from,
        ),
    decreases other.len() - from,
{
    if from < other.len() {
        assert(beside(one, other)[one.len() + 1 + from] == other[from]);
        lemma_ends_behind(one, other, from + 1);
    }
}

/// The pieces of the second query name what they name alone, but for what the first has named.
proof fn lemma_fields_behind(
    one: Seq<char>,
    other: Seq<char>,
    from: int,
    known: Seq<Seq<char>>,
    found: Seq<Seq<char>>,
)
    requires
        words::is_ascii_text(one),
        words::is_ascii_text(other),
        0 <= from <= other.len() + 1,
    ensures
        fields_from(beside(one, other), one.len() + 1 + from, known + fresh(found, known)) == known
            + fresh(fields_from(other, from, found), known),
    decreases other.len() + 1 - from,
{
    let both = beside(one, other);
    let at = one.len() + 1 + from;
    let so_far = known + fresh(found, known);
    if from < other.len() {
        lemma_beside_is_ascii(one, other);
        lemma_piece_end(other, from);
        lemma_ends_behind(one, other, from);
        lemma_ends_behind(one, other, from + 1);
        assert(both[at] == other[from]);
        let end = name_end(other, from);
        let next = piece_end(other, from);
        lemma_name_end(other, from);
        if end < other.len() {
            assert(both[one.len() + 1 + end] == other[end]);
        }
        assert(piece_end(both, at) == one.len() + 1 + next);
        law_an_ascii_query_cuts_cleanly(other, from);
        law_an_ascii_query_cuts_cleanly(both, at);
        assert(both.subrange(at, one.len() + 1 + end) =~= other.subrange(from, end));
        let word = word_at(other, from);
        lemma_fresh(found, known, word);
        assert(so_far.contains(word) <==> known.contains(word) || fresh(found, known).contains(word)) by {
            if known.contains(word) {
                let i = choose|i: int| 0 <= i < known.len() && known[i] == word;
                assert(so_far[i] == word);
            }
            if fresh(found, known).contains(word) {
                let i = choose|i: int|
                    0 <= i < fresh(found, known).len() && fresh(found, known)[i] == word;
                assert(so_far[known.len() + i] == word);
            }
            if so_far.contains(word) {
                let i = choose|i: int| 0 <= i < so_far.len() && so_far[i] == word;
                if i < known.len() {
                    assert(known[i] == word);
                } else {
                    assert(fresh(found, known)[i - known.len()] == word);
                }
            }
        }
        if other[from] != '"' && starts_name(other[from]) && end < other.len() && other[end] == ':'
            && !is_reserved(word) && !found.contains(word) {
            assert(found.push(word).drop_last() =~= found);
            if !known.contains(word) {
                assert(so_far.push(word) =~= known + fresh(found.push(word), known));
            }
            lemma_fields_behind(one, other, next, known, found.push(word));
        } else {
            lemma_fields_behind(one, other, next, known, found);
        }
    }
}

/// A query put together out of two names the fields of the first and then those of the second that
/// are new, where every phrase of the first is closed.
pub proof fn law_queries_beside_each_other_name_both(one: Seq<char>, other: Seq<char>)
    requires
        words::is_ascii_text(one),
        words::is_ascii_text(other),
        quotes_from(one, 0) % 2 == 0,
    ensures
        query_fields(beside(one, other)) == query_fields(one) + fresh(
            query_fields(other),
            query_fields(one),
        ),
{
    let both = beside(one, other);
    let known = query_fields(one);
    lemma_fields_in_front(one, other, 0, Seq::empty());
    assert(both[one.len() as int] == ' ');
    assert(piece_end(both, one.len() as int) == one.len() + 1);
    assert(known + fresh(Seq::empty(), known) =~= known);
    lemma_fields_behind(one, other, 0, known, Seq::empty());
}

// ---------------------------------------------------------------------------
// Reading field references
// ---------------------------------------------------------------------------

/// Whether a word is one of the query language's own.
fn reserved_word(word: &str) -> (reserved: bool)
    ensures
        reserved == is_reserved(word@),
{
    let small_word: String = lower_text(word);
    let s: &str = small_word.as_str();
    same_text(s, "and") || same_text(s, "or") || same_text(s, "not") || same_text(s, "to")
        || same_text(s, "return") || same_text(s, "limit")
}

/// The first place of a query, from a place on, that no field name goes over, or its end.
fn find_name_end(chars: &Vec<char>, from: usize) -> (end: usize)
    requires
        from <= chars@.len(),
    ensures
        end == name_end(chars@, from as int),
        from <= end <= chars@.len(),
{
    let mut end: usize = from;
    while end < chars.len() && (letter_or_digit(chars[end]) || chars[end] == '_' || chars[end] == '.')
        invariant
            from <= end <= chars.len(),
            name_end(chars@, from as int) == name_end(chars@, end as int),
        decreases chars.len() - end,
    {
        end += 1;
    }
    end
}

/// The first place of a query, from a place on, that holds a double quote, or its end.
fn find_quote(chars: &Vec<char>, from: usize) -> (end: usize)
    requires
        from <= chars@.len(),
    ensures
        end == quote_from(chars@, from as int),
        from <= end <= chars@.len(),
{
    let mut end: usize = from;
    while end < chars.len() && chars[end] != '"'
        invariant
            from <= end <= chars.len(),
            quote_from(chars@, from as int) == quote_from(chars@, end as int),
        decreases chars.len() - end,
    {
        end += 1;
    }
    end
}

/// Reads the fields that a query names, or none where some word cannot be cut out of it.
fn read_fields(query: &str) -> (fields: Option<Vec<String>>)
    ensures
        fields is Some <==> cuts_cleanly(query@),
        fields matches Some(list) ==> text::texts(list@) == query_fields(query@),
{
    let chars: Vec<char> = chars_of(query);
    let mut fields: Vec<String> = Vec::new();
    let mut i: usize = 0;
    assert(text::texts(fields@) =~= Seq::empty());
    while i < chars.len()
        invariant
            chars@ == query@,
            i <= chars@.len(),
            cuts_cleanly(query@) == cuts_from(query@, i as int),
            query_fields(query@) == fields_from(query@, i as int, text::texts(fields@)),
        decreases chars.len() - i,
    {
        proof {
            lemma_piece_end(query@, i as int);
        }
        let c: char = chars[i];
        if c == '"' {
            let end: usize = find_quote(&chars, i + 1);
            if end == chars.len() {
                proof {
                    assert(fields_from(query@, piece_end(query@, i as int), text::texts(fields@)) == text::texts(
                        fields@,
                    ));
                    assert(cuts_from(query@, piece_end(query@, i as int)));
                }
                return Some(fields);
            }
            i = end + 1;
        } else if letter_or_digit(c) || c == '_' {
            let end: usize = find_name_end(&chars, i);
            match cut_bytes(&chars, i, end) {
                Some(word) => {
                    if end < chars.len() && chars[end] == ':' {
                        if !reserved_word(word.as_str()) && !holds_text(&fields, word.as_str()) {
                            let ghost before = fields@;
                            fields.push(word);
                            assert(text::texts(fields@) =~= text::texts(before).push(word@));
                        }
                        i = end + 1;
                    } else {
                        proof {
                            lemma_name_end(query@, i as int);
                        }
                        i = end;
                    }
                },
                None => {
                    return None;
                },
            }
        } else {
            i += 1;
        }
    }
    Some(fields)
}

/// Whether a query's words can be cut out of it.
pub fn query_cuts_cleanly(query: &str) -> (clean: bool)
    ensures
        clean == cuts_cleanly(query@),
{
    read_fields(query).is_some()
}

/// The fields that a query names, each once, in the order in which it names them first. What stands
/// in a phrase names nothing, and neither do the words of the query language.
pub fn extract_query_fields(query: &str) -> (fields: Vec<String>)
    requires
        cuts_cleanly(query@),
    ensures
        text::texts(fields@) == query_fields(query@),
{
    match read_fields(query) {
        Some(fields) => fields,
        None => Vec::new(),
    }
}

} // verus!
