//! What a query's text alone says about it, held against the fields of an index.

use vstd::prelude::*;
use vstd::string::*;
use crate::{diagnostics, errors, field_info, json, text, words};
use crate::diagnostics::extract_query_fields;
use crate::field_info::{
    FieldInfo, FieldInfoV, HintsV, SyntaxHints, entry_of, field_query_hint, names_of_infos,
};
use crate::json::{Json, JsonV, entry};
use crate::text::{
    chars_of, contains_part, count_text, holds_text, join_texts, lower_text, same_text,
};
use crate::words::{small_letters, words};

verus! {

// ---------------------------------------------------------------------------
// Structure
// ---------------------------------------------------------------------------

/// How often a character stands in a text.
pub open spec fn count_of(text: Seq<char>, c: char) -> nat
    decreases text.len(),
{
    if text.len() == 0 {
        0
    } else {
        count_of(text.drop_last(), c) + (if text.last() == c {
            1nat
        } else {
            0nat
        })
    }
}

/// How often a character stands in a text.
fn count_char(text: &str, c: char) -> (n: usize)
    ensures
        n == count_of(text@, c),
{
    let chars: Vec<char> = chars_of(text);
    let mut n: usize = 0;
    let mut i: usize = 0;
    assert(text@.take(0) =~= Seq::empty());
    while i < chars.len()
        invariant
            i <= chars.len(),
            chars@ == text@,
            n == count_of(text@.take(i as int), c),
            n <= i,
        decreases chars.len() - i,
    {
        proof {
            assert(text@.take(i + 1).drop_last() =~= text@.take(i as int));
            assert(text@.take(i + 1).last() == text@[i as int]);
        }
        if chars[i] == c {
            n += 1;
        }
        i += 1;
    }
    assert(text@.take(i as int) =~= text@);
    n
}

/// What is said of quotes that do not pair up.
pub const QUOTE_WARNING: &'static str =
    "Unbalanced quotes detected. Phrase queries require matching double quotes.";

/// What is said of an inline projection.
pub const RETURN_SUGGESTION: &'static str =
    "Query uses inline 'return' for field projection. You can also pass fields via the tool's 'fields' parameter.";

/// What is said of an inline limit.
pub const LIMIT_SUGGESTION: &'static str =
    "Query uses inline 'limit'. You can also pass limit via the tool's 'limit' parameter.";

/// What is said of parentheses that do not pair up.
pub open spec fn parentheses_warning(open: nat, close: nat) -> Seq<char> {
    "Unbalanced parentheses: "@ + text::decimal(open) + " opening vs "@ + text::decimal(close) + " closing."@
}

/// What is wrong with how a query is put together.
pub open spec fn structural_warnings(query: Seq<char>) -> Seq<Seq<char>> {
    diagnostics::said_if(count_of(query, '"') % 2 != 0, QUOTE_WARNING@) + diagnostics::said_if(
        count_of(query, '(') != count_of(query, ')'),
        parentheses_warning(count_of(query, '('), count_of(query, ')')),
    )
}

/// Whether a word stands in a list, in whatever case.
pub open spec fn holds_any_case(list: Seq<Seq<char>>, word: Seq<char>) -> bool {
    exists|i: int| 0 <= i < list.len() && text::lowered(#[trigger] list[i]) == word
}

/// What a query writes inline that a tool takes as a parameter.
pub open spec fn inline_suggestions(query: Seq<char>) -> Seq<Seq<char>> {
    diagnostics::said_if(holds_any_case(words::words_of(query), "return"@), RETURN_SUGGESTION@) + diagnostics::said_if(
        holds_any_case(words::words_of(query), "limit"@),
        LIMIT_SUGGESTION@,
    )
}

/// Whether a word stands in a list, in whatever case.
fn holds_word(list: &Vec<String>, word: &str) -> (holds: bool)
    ensures
        holds == holds_any_case(text::texts(list@), word@),
{
    let mut i: usize = 0;
    while i < list.len()
        invariant
            i <= list.len(),
            forall|k: int| 0 <= k < i ==> text::lowered(#[trigger] text::texts(list@)[k]) != word@,
        decreases list.len() - i,
    {
        if same_text(lower_text(list[i].as_str()).as_str(), word) {
            assert(text::lowered(text::texts(list@)[i as int]) == word@);
            return true;
        }
        i += 1;
    }
    false
}

/// What is wrong with how a query is put together.
fn check_structure(query: &str) -> (warnings: Vec<String>)
    ensures
        text::texts(warnings@) == structural_warnings(query@),
{
    let mut warnings: Vec<String> = Vec::new();
    if count_char(query, '"') % 2 != 0 {
        warnings.push(String::from_str(QUOTE_WARNING));
    }
    assert(text::texts(warnings@) =~= diagnostics::said_if(count_of(query@, '"') % 2 != 0, QUOTE_WARNING@));
    let ghost one = warnings@;
    let open: usize = count_char(query, '(');
    let close: usize = count_char(query, ')');
    if open != close {
        let mut warning: String = String::from_str("Unbalanced parentheses: ");
        warning.append(count_text(open).as_str());
        warning.append(" opening vs ");
        warning.append(count_text(close).as_str());
        warning.append(" closing.");
        warnings.push(warning);
    }
    assert(text::texts(warnings@) =~= text::texts(one) + diagnostics::said_if(
        open != close,
        parentheses_warning(open as nat, close as nat),
    ));
    warnings
}

/// What a query writes inline that a tool takes as a parameter.
fn check_inline(query: &str) -> (suggestions: Vec<String>)
    ensures
        text::texts(suggestions@) == inline_suggestions(query@),
{
    let parts: Vec<String> = words(query);
    let mut suggestions: Vec<String> = Vec::new();
    let has_return: bool = holds_word(&parts, "return");
    if has_return {
        suggestions.push(String::from_str(RETURN_SUGGESTION));
    }
    assert(text::texts(suggestions@) =~= diagnostics::said_if(has_return, RETURN_SUGGESTION@));
    let ghost one = suggestions@;
    let has_limit: bool = holds_word(&parts, "limit");
    if has_limit {
        suggestions.push(String::from_str(LIMIT_SUGGESTION));
    }
    assert(text::texts(suggestions@) =~= text::texts(one) + diagnostics::said_if(has_limit, LIMIT_SUGGESTION@));
    suggestions
}

// ---------------------------------------------------------------------------
// Field references
// ---------------------------------------------------------------------------

/// The names of the fields that a query can reach.
pub open spec fn queryable_names(infos: Seq<FieldInfoV>) -> Seq<Seq<char>>
    decreases infos.len(),
{
    if infos.len() == 0 {
        Seq::empty()
    } else {
        let before = queryable_names(infos.drop_last());
        if field_info::queryable(infos.last()) {
            before.push(infos.last().name)
        } else {
            before
        }
    }
}

/// The names of the fields that a query can reach.
fn names_to_query(infos: &Vec<FieldInfo>) -> (names: Vec<String>)
    ensures
        text::texts(names@) == queryable_names(field_info::info_models(infos@)),
{
    let ghost all = field_info::info_models(infos@);
    let mut names: Vec<String> = Vec::new();
    let mut i: usize = 0;
    assert(text::texts(names@) =~= queryable_names(all.take(0)));
    while i < infos.len()
        invariant
            i <= infos.len(),
            all == field_info::info_models(infos@),
            text::texts(names@) == queryable_names(all.take(i as int)),
        decreases infos.len() - i,
    {
        proof {
            assert(all.take(i + 1).drop_last() =~= all.take(i as int));
            assert(all.take(i + 1).last() == infos@[i as int]@);
        }
        if infos[i].is_queryable() {
            let ghost before = names@;
            names.push(infos[i].name.clone());
            assert(text::texts(names@) =~= text::texts(before).push(infos@[i as int]@.name));
        }
        i += 1;
    }
    assert(all.take(infos.len() as int) =~= all);
    names
}

/// A name that a query can reach is the name of a field.
proof fn lemma_queryable_is_known(infos: Seq<FieldInfoV>, name: Seq<char>)
    requires
        queryable_names(infos).contains(name),
    ensures
        field_info::info_names(infos).contains(name),
    decreases infos.len(),
{
    if infos.len() > 0 {
        let before = queryable_names(infos.drop_last());
        if before.contains(name) {
            lemma_queryable_is_known(infos.drop_last(), name);
            let k = choose|k: int|
                0 <= k < field_info::info_names(infos.drop_last()).len() && field_info::info_names(infos.drop_last())[k]
                    == name;
            assert(field_info::info_names(infos)[k] == name);
        } else {
            assert(queryable_names(infos).last() == name);
            assert(field_info::info_names(infos)[infos.len() - 1] == name);
        }
    }
}

/// What a query's reference to a field comes to.
pub enum Reference {
    /// A field that a query can reach.
    Recognized,
    /// A field that no query reaches.
    NotIndexed,
    /// No field at all.
    Unknown,
}

/// What a reference to a name comes to.
pub open spec fn reference(infos: Seq<FieldInfoV>, name: Seq<char>) -> Reference {
    if queryable_names(infos).contains(name) {
        Reference::Recognized
    } else if field_info::info_names(infos).contains(name) {
        Reference::NotIndexed
    } else {
        Reference::Unknown
    }
}

/// Those of some names whose reference comes to one thing.
pub open spec fn names_that_are(
    names: Seq<Seq<char>>,
    infos: Seq<FieldInfoV>,
    wanted: Reference,
) -> Seq<Seq<char>>
    decreases names.len(),
{
    if names.len() == 0 {
        Seq::empty()
    } else {
        let before = names_that_are(names.drop_last(), infos, wanted);
        if reference(infos, names.last()) == wanted {
            before.push(names.last())
        } else {
            before
        }
    }
}

/// The first field of a name, from a place of a list on.
pub open spec fn field_named_from(infos: Seq<FieldInfoV>, name: Seq<char>, from: int) -> Option<
    FieldInfoV,
>
    decreases infos.len() - from,
{
    if from < 0 || from >= infos.len() {
        None
    } else if infos[from].name == name {
        Some(infos[from])
    } else {
        field_named_from(infos, name, from + 1)
    }
}

/// The first field of a name.
fn find_field<'a>(infos: &'a Vec<FieldInfo>, name: &str) -> (found: Option<&'a FieldInfo>)
    ensures
        match found {
            Some(info) => field_named_from(field_info::info_models(infos@), name@, 0) == Some(info@),
            None => field_named_from(field_info::info_models(infos@), name@, 0) is None,
        },
{
    let mut i: usize = 0;
    while i < infos.len()
        invariant
            i <= infos.len(),
            field_named_from(field_info::info_models(infos@), name@, 0) == field_named_from(
                field_info::info_models(infos@),
                name@,
                i as int,
            ),
        decreases infos.len() - i,
    {
        if same_text(infos[i].name.as_str(), name) {
            return Some(&infos[i]);
        }
        i += 1;
    }
    None
}

/// What a field supports, as it is shown beside a reference to it.
pub open spec fn reference_hint(hints: HintsV, name: Seq<char>, info: FieldInfoV) -> JsonV {
    JsonV::Object(
        seq![
            ("field"@, JsonV::Text(name)),
            ("type"@, JsonV::Text(info.field_type)),
            ("hint"@, JsonV::Text(field_info::field_hint(hints, info))),
        ],
    )
}

/// What the fields of some names support, as it is shown.
pub open spec fn reference_hints(
    hints: HintsV,
    infos: Seq<FieldInfoV>,
    names: Seq<Seq<char>>,
) -> Seq<JsonV>
    decreases names.len(),
{
    if names.len() == 0 {
        Seq::empty()
    } else {
        let before = reference_hints(hints, infos, names.drop_last());
        match field_named_from(infos, names.last(), 0) {
            Some(info) => before.push(reference_hint(hints, names.last(), info)),
            None => before,
        }
    }
}

/// What is said of a field that no query reaches.
pub open spec fn not_indexed_warning(name: Seq<char>) -> Seq<char> {
    "Field '"@ + name + "' exists but is not indexed. Queries against it will not match."@
}

/// What is said of fields that no query reaches.
pub open spec fn not_indexed_warnings(names: Seq<Seq<char>>) -> Seq<Seq<char>> {
    names.map_values(|name: Seq<char>| not_indexed_warning(name))
}

/// The references of a query, by what they come to.
struct Sorted {
    recognized: Vec<String>,
    unknown: Vec<String>,
    not_indexed: Vec<String>,
    hints: Vec<Json>,
    warnings: Vec<String>,
}

/// Sorts a query's references by what they come to.
fn sort_references(fields: &Vec<String>, infos: &Vec<FieldInfo>, hints: &SyntaxHints) -> (sorted:
    Sorted)
    ensures
        text::texts(sorted.recognized@) == names_that_are(
            text::texts(fields@),
            field_info::info_models(infos@),
            Reference::Recognized,
        ),
        text::texts(sorted.unknown@) == names_that_are(
            text::texts(fields@),
            field_info::info_models(infos@),
            Reference::Unknown,
        ),
        text::texts(sorted.not_indexed@) == names_that_are(
            text::texts(fields@),
            field_info::info_models(infos@),
            Reference::NotIndexed,
        ),
        json::models(sorted.hints@) == reference_hints(
            hints@,
            field_info::info_models(infos@),
            text::texts(sorted.recognized@),
        ),
        text::texts(sorted.warnings@) == not_indexed_warnings(text::texts(sorted.not_indexed@)),
{
    let ghost all = text::texts(fields@);
    let ghost known = field_info::info_models(infos@);
    let to_query: Vec<String> = names_to_query(infos);
    let every: Vec<String> = names_of_infos(infos);
    let mut recognized: Vec<String> = Vec::new();
    let mut unknown: Vec<String> = Vec::new();
    let mut not_indexed: Vec<String> = Vec::new();
    let mut shown: Vec<Json> = Vec::new();
    let mut warnings: Vec<String> = Vec::new();
    let mut i: usize = 0;
    proof {
        assert(text::texts(recognized@) =~= names_that_are(all.take(0), known, Reference::Recognized));
        assert(text::texts(unknown@) =~= names_that_are(all.take(0), known, Reference::Unknown));
        assert(text::texts(not_indexed@) =~= names_that_are(all.take(0), known, Reference::NotIndexed));
        assert(json::models(shown@) =~= reference_hints(hints@, known, text::texts(recognized@)));
        assert(text::texts(warnings@) =~= not_indexed_warnings(text::texts(not_indexed@)));
    }
    while i < fields.len()
        invariant
            i <= fields.len(),
            all == text::texts(fields@),
            known == field_info::info_models(infos@),
            text::texts(to_query@) == queryable_names(known),
            text::texts(every@) == field_info::info_names(known),
            text::texts(recognized@) == names_that_are(all.take(i as int), known, Reference::Recognized),
            text::texts(unknown@) == names_that_are(all.take(i as int), known, Reference::Unknown),
            text::texts(not_indexed@) == names_that_are(all.take(i as int), known, Reference::NotIndexed),
            json::models(shown@) == reference_hints(hints@, known, text::texts(recognized@)),
            text::texts(warnings@) == not_indexed_warnings(text::texts(not_indexed@)),
        decreases fields.len() - i,
    {
        let name: &str = fields[i].as_str();
        proof {
            assert(all.take(i + 1).drop_last() =~= all.take(i as int));
            assert(all.take(i + 1).last() == name@);
        }
        if holds_text(&to_query, name) {
            let ghost before = recognized@;
            recognized.push(String::from_str(name));
            proof {
                assert(text::texts(recognized@) =~= text::texts(before).push(name@));
                assert(text::texts(recognized@).drop_last() =~= text::texts(before));
            }
            if let Some(info) = find_field(infos, name) {
                let hint: String = field_query_hint(hints, info);
                let parts: Vec<(String, Json)> = vec![
                    entry_of("field", name),
                    entry_of("type", info.field_type.as_str()),
                    entry_of("hint", hint.as_str()),
                ];
                assert(json::entry_models(parts@) =~= seq![
                    ("field"@, JsonV::Text(name@)),
                    ("type"@, JsonV::Text(info@.field_type)),
                    ("hint"@, JsonV::Text(field_info::field_hint(hints@, info@))),
                ]);
                let ghost held = shown@;
                shown.push(Json::object(parts));
                assert(json::models(shown@) =~= json::models(held).push(
                    reference_hint(hints@, name@, info@),
                ));
            }
        } else if holds_text(&every, name) {
            let ghost before = not_indexed@;
            not_indexed.push(String::from_str(name));
            assert(text::texts(not_indexed@) =~= text::texts(before).push(name@));
            let mut warning: String = String::from_str("Field '");
            warning.append(name);
            warning.append("' exists but is not indexed. Queries against it will not match.");
            let ghost held = warnings@;
            warnings.push(warning);
            assert(text::texts(warnings@) =~= not_indexed_warnings(text::texts(not_indexed@))) by {
                assert(text::texts(warnings@) =~= text::texts(held).push(not_indexed_warning(name@)));
            }
        } else {
            let ghost before = unknown@;
            unknown.push(String::from_str(name));
            assert(text::texts(unknown@) =~= text::texts(before).push(name@));
        }
        i += 1;
    }
    assert(all.take(fields.len() as int) =~= all);
    Sorted { recognized, unknown, not_indexed, hints: shown, warnings }
}

// ---------------------------------------------------------------------------
// Unknown fields
// ---------------------------------------------------------------------------

/// Whether two names are close: one holds the other, in whatever case.
pub open spec fn is_close(known: Seq<char>, unknown: Seq<char>) -> bool {
    text::holds_part(words::in_small_letters(known), words::in_small_letters(unknown)) || text::holds_part(
        words::in_small_letters(unknown),
        words::in_small_letters(known),
    )
}

/// Those of some names that are close to an unknown one.
pub open spec fn close_names(known: Seq<Seq<char>>, unknown: Seq<char>) -> Seq<Seq<char>>
    decreases known.len(),
{
    if known.len() == 0 {
        Seq::empty()
    } else {
        let before = close_names(known.drop_last(), unknown);
        if is_close(known.last(), unknown) {
            before.push(known.last())
        } else {
            before
        }
    }
}

/// Those of some names that are close to an unknown one.
fn find_close(known: &Vec<String>, unknown: &str) -> (close: Vec<String>)
    ensures
        text::texts(close@) == close_names(text::texts(known@), unknown@),
{
    let ghost all = text::texts(known@);
    let small_unknown: String = small_letters(unknown);
    let mut close: Vec<String> = Vec::new();
    let mut i: usize = 0;
    assert(text::texts(close@) =~= close_names(all.take(0), unknown@));
    while i < known.len()
        invariant
            i <= known.len(),
            all == text::texts(known@),
            small_unknown@ == words::in_small_letters(unknown@),
            text::texts(close@) == close_names(all.take(i as int), unknown@),
        decreases known.len() - i,
    {
        proof {
            assert(all.take(i + 1).drop_last() =~= all.take(i as int));
            assert(all.take(i + 1).last() == known@[i as int]@);
        }
        let small_known: String = small_letters(known[i].as_str());
        if contains_part(small_known.as_str(), small_unknown.as_str()) || contains_part(
            small_unknown.as_str(),
            small_known.as_str(),
        ) {
            let ghost before = close@;
            close.push(known[i].clone());
            assert(text::texts(close@) =~= text::texts(before).push(known@[i as int]@));
        }
        i += 1;
    }
    assert(all.take(known.len() as int) =~= all);
    close
}

/// What is suggested in place of unknown names that others are close to.
pub open spec fn unknown_suggestions(
    unknown: Seq<Seq<char>>,
    known: Seq<Seq<char>>,
) -> Seq<Seq<char>>
    decreases unknown.len(),
{
    if unknown.len() == 0 {
        Seq::empty()
    } else {
        let before = unknown_suggestions(unknown.drop_last(), known);
        let close = close_names(known, unknown.last());
        if close.len() > 0 {
            before.push(
                "Unknown field '"@ + unknown.last() + "'. Did you mean: "@ + text::joined(close, ", "@)
                    + "?"@,
            )
        } else {
            before
        }
    }
}

/// What is said of unknown names that none is close to.
pub open spec fn unknown_warnings(unknown: Seq<Seq<char>>, known: Seq<Seq<char>>) -> Seq<Seq<char>>
    decreases unknown.len(),
{
    if unknown.len() == 0 {
        Seq::empty()
    } else {
        let before = unknown_warnings(unknown.drop_last(), known);
        let close = close_names(known, unknown.last());
        if close.len() > 0 {
            before
        } else {
            before.push(
                "Unknown field '"@ + unknown.last() + "'. Available queryable fields: "@ + text::joined(
                    known,
                    ", "@,
                ) + "."@,
            )
        }
    }
}

/// Says of each unknown name which others are close to it, or that none is.
fn explain_unknown(
    unknown: &Vec<String>,
    known: &Vec<String>,
    suggestions: &mut Vec<String>,
    warnings: &mut Vec<String>,
)
    ensures
        text::texts(final(suggestions)@) == text::texts(old(suggestions)@) + unknown_suggestions(
            text::texts(unknown@),
            text::texts(known@),
        ),
        text::texts(final(warnings)@) == text::texts(old(warnings)@) + unknown_warnings(
            text::texts(unknown@),
            text::texts(known@),
        ),
{
    let ghost all = text::texts(unknown@);
    let ghost names = text::texts(known@);
    let ghost suggested = text::texts(suggestions@);
    let ghost warned = text::texts(warnings@);
    let mut i: usize = 0;
    assert(text::texts(suggestions@) =~= suggested + unknown_suggestions(all.take(0), names));
    assert(text::texts(warnings@) =~= warned + unknown_warnings(all.take(0), names));
    while i < unknown.len()
        invariant
            i <= unknown.len(),
            all == text::texts(unknown@),
            names == text::texts(known@),
            text::texts(suggestions@) == suggested + unknown_suggestions(all.take(i as int), names),
            text::texts(warnings@) == warned + unknown_warnings(all.take(i as int), names),
        decreases unknown.len() - i,
    {
        proof {
            assert(all.take(i + 1).drop_last() =~= all.take(i as int));
            assert(all.take(i + 1).last() == unknown@[i as int]@);
        }
        let close: Vec<String> = find_close(known, unknown[i].as_str());
        assert(text::texts(close@).len() == close@.len());
        let mut text: String = String::from_str("Unknown field '");
        text.append(unknown[i].as_str());
        if close.len() > 0 {
            text.append("'. Did you mean: ");
            text.append(join_texts(&close, ", ").as_str());
            text.append("?");
            let ghost before = suggestions@;
            suggestions.push(text);
            assert(text::texts(suggestions@) =~= text::texts(before).push(text@));
            assert(text::texts(suggestions@) =~= suggested + unknown_suggestions(all.take(i + 1), names));
        } else {
            text.append("'. Available queryable fields: ");
            text.append(join_texts(known, ", ").as_str());
            text.append(".");
            let ghost before = warnings@;
            warnings.push(text);
            assert(text::texts(warnings@) =~= text::texts(before).push(text@));
            assert(text::texts(warnings@) =~= warned + unknown_warnings(all.take(i + 1), names));
        }
        i += 1;
    }
    assert(all.take(unknown.len() as int) =~= all);
}

// ---------------------------------------------------------------------------
// The whole analysis
// ---------------------------------------------------------------------------

/// The names in a query that are no field, where the index has fields to hold them against.
pub open spec fn unknown_to_explain(query: Seq<char>, infos: Seq<FieldInfoV>) -> Seq<Seq<char>> {
    if infos.len() == 0 {
        Seq::empty()
    } else {
        names_that_are(diagnostics::query_fields(query), infos, Reference::Unknown)
    }
}

/// What an analysis warns of.
pub open spec fn analysis_warnings(query: Seq<char>, infos: Seq<FieldInfoV>) -> Seq<Seq<char>> {
    structural_warnings(query) + not_indexed_warnings(
        names_that_are(diagnostics::query_fields(query), infos, Reference::NotIndexed),
    ) + unknown_warnings(unknown_to_explain(query, infos), queryable_names(infos))
}

/// What an analysis suggests.
pub open spec fn analysis_suggestions(query: Seq<char>, infos: Seq<FieldInfoV>) -> Seq<Seq<char>> {
    inline_suggestions(query) + unknown_suggestions(
        unknown_to_explain(query, infos),
        queryable_names(infos),
    )
}

/// What a query's text alone says about it.
pub open spec fn analysis_of(query: Seq<char>, infos: Seq<FieldInfoV>, hints: HintsV) -> JsonV {
    let fields = diagnostics::query_fields(query);
    let recognized = names_that_are(fields, infos, Reference::Recognized);
    JsonV::Object(
        seq![
            ("query"@, JsonV::Text(query)),
            ("recognized_fields"@, errors::text_array(recognized)),
            ("unknown_fields"@, errors::text_array(names_that_are(fields, infos, Reference::Unknown))),
            ("not_indexed_fields"@, errors::text_array(names_that_are(fields, infos, Reference::NotIndexed))),
            ("field_hints"@, JsonV::Array(reference_hints(hints, infos, recognized))),
            ("warnings"@, errors::text_array(analysis_warnings(query, infos))),
            ("suggestions"@, errors::text_array(analysis_suggestions(query, infos))),
        ],
    )
}

/// Analyses a query by its text alone.
pub fn analyze_query(query: &str, field_infos: &Vec<FieldInfo>, hints: &SyntaxHints) -> (analysis:
    Json)
    requires
        diagnostics::cuts_cleanly(query@),
    ensures
        analysis@ == analysis_of(query@, field_info::info_models(field_infos@), hints@),
{
    let ghost infos = field_info::info_models(field_infos@);
    let mut warnings: Vec<String> = check_structure(query);
    let mut suggestions: Vec<String> = check_inline(query);
    let referenced: Vec<String> = extract_query_fields(query);
    let sorted: Sorted = sort_references(&referenced, field_infos, hints);
    let mut more: Vec<String> = sorted.warnings;
    let ghost first = warnings@;
    let ghost second = more@;
    warnings.append(&mut more);
    assert(text::texts(warnings@) =~= text::texts(first) + text::texts(second));
    let known: Vec<String> = names_to_query(field_infos);
    if field_infos.len() > 0 {
        explain_unknown(&sorted.unknown, &known, &mut suggestions, &mut warnings);
    } else {
        assert(text::texts(warnings@) =~= text::texts(warnings@) + unknown_warnings(
            unknown_to_explain(query@, infos),
            queryable_names(infos),
        ));
        assert(text::texts(suggestions@) =~= text::texts(suggestions@) + unknown_suggestions(
            unknown_to_explain(query@, infos),
            queryable_names(infos),
        ));
    }
    assert(text::texts(warnings@) =~= analysis_warnings(query@, infos));
    assert(text::texts(suggestions@) =~= analysis_suggestions(query@, infos));
    let parts: Vec<(String, Json)> = vec![
        entry_of("query", query),
        entry("recognized_fields", Json::text_list(&sorted.recognized)),
        entry("unknown_fields", Json::text_list(&sorted.unknown)),
        entry("not_indexed_fields", Json::text_list(&sorted.not_indexed)),
        entry("field_hints", Json::list(sorted.hints)),
        entry("warnings", Json::text_list(&warnings)),
        entry("suggestions", Json::text_list(&suggestions)),
    ];
    assert(json::entry_models(parts@) =~= seq![
        ("query"@, JsonV::Text(query@)),
        (
            "recognized_fields"@,
            errors::text_array(names_that_are(diagnostics::query_fields(query@), infos, Reference::Recognized)),
        ),
        (
            "unknown_fields"@,
            errors::text_array(names_that_are(diagnostics::query_fields(query@), infos, Reference::Unknown)),
        ),
        (
            "not_indexed_fields"@,
            errors::text_array(names_that_are(diagnostics::query_fields(query@), infos, Reference::NotIndexed)),
        ),
        (
            "field_hints"@,
            JsonV::Array(
                reference_hints(
                    hints@,
                    infos,
                    names_that_are(diagnostics::query_fields(query@), infos, Reference::Recognized),
                ),
            ),
        ),
        ("warnings"@, errors::text_array(analysis_warnings(query@, infos))),
        ("suggestions"@, errors::text_array(analysis_suggestions(query@, infos))),
    ]);
    Json::object(parts)
}

/// Every field that a query names is recognized, unknown, or known and out of a query's reach, and
/// only one of these.
pub proof fn law_every_reference_is_accounted_for(
    query: Seq<char>,
    infos: Seq<FieldInfoV>,
    name: Seq<char>,
)
    requires
        diagnostics::query_fields(query).contains(name),
    ensures
        names_that_are(diagnostics::query_fields(query), infos, Reference::Recognized).contains(name)
            <==> reference(infos, name) is Recognized,
        names_that_are(diagnostics::query_fields(query), infos, Reference::NotIndexed).contains(name)
            <==> reference(infos, name) is NotIndexed,
        names_that_are(diagnostics::query_fields(query), infos, Reference::Unknown).contains(name) <==> reference(
            infos,
            name,
        ) is Unknown,
        reference(infos, name) is Recognized ==> field_named_from(infos, name, 0) is Some,
        reference(infos, name) is Unknown ==> !field_info::info_names(infos).contains(name),
{
    lemma_names_that_are(diagnostics::query_fields(query), infos, Reference::Recognized, name);
    lemma_names_that_are(diagnostics::query_fields(query), infos, Reference::NotIndexed, name);
    lemma_names_that_are(diagnostics::query_fields(query), infos, Reference::Unknown, name);
    if reference(infos, name) is Recognized {
        lemma_queryable_is_known(infos, name);
        let k = choose|k: int| 0 <= k < field_info::info_names(infos).len() && field_info::info_names(infos)[k] == name;
        lemma_field_is_named(infos, name, 0, k);
    }
}

/// A name stands among those that are one thing exactly when its reference comes to it.
proof fn lemma_names_that_are(
    names: Seq<Seq<char>>,
    infos: Seq<FieldInfoV>,
    wanted: Reference,
    name: Seq<char>,
)
    requires
        names.contains(name),
    ensures
        names_that_are(names, infos, wanted).contains(name) <==> reference(infos, name) == wanted,
    decreases names.len(),
{
    lemma_only_names_that_are(names, infos, wanted);
    let before = names_that_are(names.drop_last(), infos, wanted);
    if reference(infos, name) == wanted {
        if names.last() == name {
            assert(before.push(name).last() == name);
        } else {
            let k = choose|k: int| 0 <= k < names.len() && names[k] == name;
            assert(names.drop_last()[k] == name);
            lemma_names_that_are(names.drop_last(), infos, wanted, name);
            let j = choose|j: int| 0 <= j < before.len() && before[j] == name;
            assert(names_that_are(names, infos, wanted)[j] == name);
        }
    }
}

/// Only names whose reference comes to the wanted thing are picked.
proof fn lemma_only_names_that_are(
    names: Seq<Seq<char>>,
    infos: Seq<FieldInfoV>,
    wanted: Reference,
)
    ensures
        forall|i: int|
            0 <= i < names_that_are(names, infos, wanted).len() ==> reference(
                infos,
                #[trigger] names_that_are(names, infos, wanted)[i],
            ) == wanted,
    decreases names.len(),
{
    if names.len() > 0 {
        lemma_only_names_that_are(names.drop_last(), infos, wanted);
    }
}

/// A name that some field has names a field.
proof fn lemma_field_is_named(infos: Seq<FieldInfoV>, name: Seq<char>, from: int, place: int)
    requires
        0 <= from <= place < infos.len(),
        infos[place].name == name,
    ensures
        field_named_from(infos, name, from) is Some,
    decreases place - from,
{
    if infos[from].name != name {
        lemma_field_is_named(infos, name, from + 1, place);
    }
}

} // verus!
