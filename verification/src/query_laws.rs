//! What a search may ask of a schema, and what its answer notes.

use vstd::prelude::*;
use crate::{broadcast_laws, engine, errors, hits, json, ops, schema, search, search_laws, text};
use crate::engine::EngineStep;
use crate::errors::{DISCARDED_CLAUSES_FIELD, ErrorV};
use crate::hits::{SearchWindow, ShardHitV, SortSpec};
use crate::json::{JsonV, NumV};
use crate::ops::{ClientOp, DeleteV};
use crate::schema::{FieldV, SchemaV, TantivyFieldType};
use crate::search::ShardOutcome;

verus! {

// ---------------------------------------------------------------------------
// What a schema says of its fields
// ---------------------------------------------------------------------------

/// Whether a field counts or tells a moment.
pub open spec fn counts(field: FieldV) -> bool {
    ||| field.field_type == TantivyFieldType::I64
    ||| field.field_type == TantivyFieldType::U64
    ||| field.field_type == TantivyFieldType::F64
    ||| field.field_type == TantivyFieldType::Date
}

/// Whether a field holds words.
pub open spec fn holds_words(field: FieldV) -> bool {
    field.field_type == TantivyFieldType::Text || field.field_type == TantivyFieldType::String
}

/// A field that counts is fast unless it is declared not to be, one that holds words where it is
/// declared to be, and no other ever is.
pub proof fn law_a_counting_field_is_fast(field: FieldV)
    ensures
        counts(field) ==> (schema::declared_fast(field) <==> field.fast != Some(false)),
        holds_words(field) ==> (schema::declared_fast(field) <==> field.fast == Some(true)),
        !counts(field) && !holds_words(field) ==> !schema::declared_fast(field),
        schema::type_can_be_fast(field.field_type) <==> counts(field) || holds_words(field),
{
}

/// The shadows of a schema are the fields declared as such, as they stand.
pub proof fn law_shadows_are_the_fields_declared_so(fields: Seq<(Seq<char>, FieldV)>)
    ensures
        schema::shadow_names_of(fields) == fields.filter(
            |field: (Seq<char>, FieldV)| field.1.is_shadow,
        ).map_values(|field: (Seq<char>, FieldV)| field.0),
    decreases fields.len(),
{
    reveal(Seq::filter);
    let shadow = |field: (Seq<char>, FieldV)| field.1.is_shadow;
    let name = |field: (Seq<char>, FieldV)| field.0;
    if fields.len() > 0 {
        law_shadows_are_the_fields_declared_so(fields.drop_last());
    }
    assert(schema::shadow_names_of(fields) =~= fields.filter(shadow).map_values(name));
}

/// Documents bear their key under the first shadow, and under its own name where there is none.
pub proof fn law_documents_bear_their_key_under_the_first_shadow(known: SchemaV, i: int)
    requires
        0 <= i <= known.fields.len(),
        forall|j: int| 0 <= j < i ==> !(#[trigger] known.fields[j]).1.is_shadow,
        i < known.fields.len() ==> known.fields[i].1.is_shadow,
    ensures
        i < known.fields.len() ==> known.document_key() == known.fields[i].0,
        i == known.fields.len() ==> known.document_key() == "id"@,
{
    lemma_first_shadow(known.fields, i);
}

/// The first of the shadow names is that of the first shadow.
proof fn lemma_first_shadow(fields: Seq<(Seq<char>, FieldV)>, i: int)
    requires
        0 <= i <= fields.len(),
        forall|j: int| 0 <= j < i ==> !(#[trigger] fields[j]).1.is_shadow,
        i < fields.len() ==> fields[i].1.is_shadow,
    ensures
        i < fields.len() ==> schema::shadow_names_of(fields).len() > 0 && schema::shadow_names_of(
            fields,
        )[0] == fields[i].0,
        i == fields.len() ==> schema::shadow_names_of(fields).len() == 0,
    decreases fields.len(),
{
    if fields.len() > 0 {
        let rest = fields.drop_last();
        let n = rest.len() as int;
        if i < n {
            assert(rest[i] == fields[i]);
            lemma_first_shadow(rest, i);
        } else {
            assert forall|j: int| 0 <= j < n implies !(#[trigger] rest[j]).1.is_shadow by {
                assert(rest[j] == fields[j]);
            }
            lemma_first_shadow(rest, n);
            if i > n {
                assert(!fields[n].1.is_shadow);
            }
        }
    }
}

// ---------------------------------------------------------------------------
// Sorts and projections
// ---------------------------------------------------------------------------

/// A search can be sorted by the key, by what the key is called, by words, and by what counts unless it
/// is declared not fast; it is refused by name for every other field of an index that has any.
pub proof fn law_a_sort_is_refused_where_nothing_can_sort(known: SchemaV, field: Seq<char>)
    ensures
        known.fields.len() == 0 ==> search::sort_refusal(known, field) is None,
        field == "id"@ ==> search::sort_refusal(known, field) is None,
        known.field(field) matches Some(def) ==> {
            &&& def.is_shadow ==> search::sort_refusal(known, field) is None
            &&& holds_words(def) && field != "_seq"@ ==> search::sort_refusal(known, field) is None
            &&& counts(def) && def.fast != Some(false) && field != "_seq"@ ==> search::sort_refusal(
                known,
                field,
            ) is None
            &&& known.fields.len() > 0 && field != "id"@ && !def.is_shadow && !holds_words(def) && !(
            counts(def) && def.fast != Some(false)) ==> search::sort_refusal(known, field) is Some
        },
        known.fields.len() > 0 && field != "id"@ && known.field(field) is None
            ==> search::sort_refusal(known, field) is Some,
        known.fields.len() > 0 && field == "_seq"@ && !known.is_shadow(field) ==> search::sort_refusal(
            known,
            field,
        ) is Some,
        search::sort_refusal(known, field) matches Some(error) ==> (
        error matches ErrorV::UnsortableField(named, _) && named == field),
{
    reveal_strlit("id");
    reveal_strlit("_seq");
    assert("id"@.len() == 2 && "_seq"@.len() == 4);
}

/// Whether a field can be shown: what an answer adds itself, the shard, and what the schema declares.
pub open spec fn can_be_shown(known: SchemaV, field: Seq<char>) -> bool {
    ||| field.len() > 0 && field[0] == '_'
    ||| field == "shard_id"@
    ||| known.field(field) is Some
}

/// Every field that is asked for and cannot be shown is noted by its name, in the order they are asked
/// for, and no other is; nothing is noted of an index that declares nothing.
pub proof fn law_a_field_that_cannot_be_shown_is_noted(known: SchemaV, fields: Seq<Seq<char>>)
    ensures
        known.fields.len() == 0 ==> search::projection_notes(known, fields).len() == 0,
        known.fields.len() > 0 ==> search::projection_notes(known, fields) == fields.filter(
            |field: Seq<char>| !can_be_shown(known, field),
        ).map_values(
            |field: Seq<char>|
                "'return "@ + field
                    + "' names a field this index does not have, so the clause had no effect; if it was meant as query text, quote it or drop the keyword"@,
        ),
    decreases fields.len(),
{
    reveal(Seq::filter);
    let unknown = |field: Seq<char>| !can_be_shown(known, field);
    let note = |field: Seq<char>|
        "'return "@ + field
            + "' names a field this index does not have, so the clause had no effect; if it was meant as query text, quote it or drop the keyword"@;
    if fields.len() > 0 {
        law_a_field_that_cannot_be_shown_is_noted(known, fields.drop_last());
    }
    if known.fields.len() > 0 {
        assert(search::projection_notes(known, fields) =~= fields.filter(unknown).map_values(note));
    }
}

/// A field is asked for under its own name, and the key under the name that documents bear it by.
pub proof fn law_the_key_is_asked_for_as_documents_bear_it(known: SchemaV, fields: Seq<Seq<char>>, i: int)
    requires
        0 <= i < fields.len(),
    ensures
        search::carried_names(known, fields).len() == fields.len(),
        fields[i] == "id"@ ==> search::carried_names(known, fields)[i] == known.document_key(),
        fields[i] != "id"@ ==> search::carried_names(known, fields)[i] == fields[i],
{
}

// ---------------------------------------------------------------------------
// Notes
// ---------------------------------------------------------------------------

/// Whether a shard that answered dropped a clause with this note.
pub open spec fn some_drops(outcomes: Seq<(u128, ShardOutcome)>, note: Seq<char>) -> bool {
    exists|i: int|
        0 <= i < outcomes.len() && ((#[trigger] outcomes[i]).1 matches Ok(reply) && text::texts(
            reply.discarded@,
        ).contains(note))
}

/// The notes of a gather are those of the shards that answered.
pub proof fn law_every_note_of_a_shard_is_gathered(
    outcomes: Seq<(u128, ShardOutcome)>,
    note: Seq<char>,
)
    ensures
        search::gathered(outcomes).notes.contains(note) <==> some_drops(outcomes, note),
    decreases outcomes.len(),
{
    if outcomes.len() > 0 {
        let rest = outcomes.drop_last();
        let before = search::gathered(rest).notes;
        let all = search::gathered(outcomes).notes;
        law_every_note_of_a_shard_is_gathered(rest, note);
        assert(outcomes[rest.len() as int] == outcomes.last());
        if let Ok(reply) = outcomes.last().1 {
            let told = text::texts(reply.discarded@);
            assert(all == before + told);
            if before.contains(note) {
                let k = choose|k: int| 0 <= k < before.len() && before[k] == note;
                assert(all[k] == note);
            }
            if told.contains(note) {
                let k = choose|k: int| 0 <= k < told.len() && told[k] == note;
                assert(all[before.len() + k] == note);
            }
            if all.contains(note) {
                let k = choose|k: int| 0 <= k < all.len() && all[k] == note;
                if k < before.len() {
                    assert(before[k] == note);
                } else {
                    assert(told[k - before.len()] == note);
                }
            }
        }
        if some_drops(rest, note) {
            let i = choose|i: int|
                0 <= i < rest.len() && ((#[trigger] rest[i]).1 matches Ok(reply) && text::texts(
                    reply.discarded@,
                ).contains(note));
            assert(outcomes[i] == rest[i]);
        }
        if some_drops(outcomes, note) {
            let i = choose|i: int|
                0 <= i < outcomes.len() && ((#[trigger] outcomes[i]).1 matches Ok(reply)
                    && text::texts(reply.discarded@).contains(note));
            if i < rest.len() {
                assert(rest[i] == outcomes[i]);
            }
        }
    } else {
        assert(!search::gathered(outcomes).notes.contains(note));
    }
}

/// Whether a shard says that its sort is approximate.
pub open spec fn says_approximate(outcome: (u128, ShardOutcome)) -> bool {
    outcome.1 matches Ok(reply) && reply.approximate_sort is Some
}

/// The sort of a gather is approximate by the field that the first shard to say so names, and exact
/// where none does.
pub proof fn law_the_first_approximate_shard_is_told(outcomes: Seq<(u128, ShardOutcome)>, i: int)
    requires
        0 <= i <= outcomes.len(),
        forall|j: int| 0 <= j < i ==> !says_approximate(#[trigger] outcomes[j]),
        i < outcomes.len() ==> says_approximate(outcomes[i]),
    ensures
        i < outcomes.len() ==> (outcomes[i].1 matches Ok(reply) && search::gathered(
            outcomes,
        ).approximate == Some(reply.approximate_sort->0@)),
        i == outcomes.len() ==> search::gathered(outcomes).approximate is None,
    decreases outcomes.len(),
{
    if outcomes.len() > 0 {
        let rest = outcomes.drop_last();
        let n = rest.len() as int;
        if i < n {
            assert(rest[i] == outcomes[i]);
            law_the_first_approximate_shard_is_told(rest, i);
        } else {
            assert forall|j: int| 0 <= j < n implies !says_approximate(#[trigger] rest[j]) by {
                assert(rest[j] == outcomes[j]);
            }
            law_the_first_approximate_shard_is_told(rest, n);
            assert(outcomes[n] == outcomes.last());
            if i > n {
                assert(!says_approximate(outcomes[n]));
            }
        }
    }
}

/// An answer tells every shard that failed, every clause that a shard dropped, once, every field that
/// cannot be shown, and the field that a sort is approximate by; where there is nothing of these to
/// tell it tells nothing.
pub proof fn law_an_answer_tells_what_went_wrong(
    outcomes: Seq<(u128, ShardOutcome)>,
    answer: JsonV,
    known: SchemaV,
    window: SearchWindow,
    fields: Option<Seq<Seq<char>>>,
    sort: Option<&SortSpec>,
    took_ms: u64,
    ranked: Seq<ShardHitV>,
    order: Seq<int>,
)
    requires
        search::is_answer(
            answer,
            search::gathered(outcomes),
            outcomes.len(),
            known,
            window,
            fields,
            sort,
            took_ms,
            ranked,
            order,
        ),
    ensures
        ({
            let gather = search::gathered(outcomes);
            let asked = if fields is Some {
                fields->0
            } else {
                Seq::empty()
            };
            let notes = errors::distinct_in_order(gather.notes) + search::projection_notes(
                known,
                asked,
            );
            &&& gather.failures.len() == 0 ==> answer.get("errors"@) is None
            &&& gather.failures.len() > 0 ==> broadcast_laws::lists_texts(
                answer.get("errors"@),
                gather.failures.map_values(
                    |failure: (u128, ErrorV)|
                        "Shard "@ + text::uuid_chars(failure.0) + ": "@ + errors::error_text(failure.1),
                ),
            )
            &&& notes.len() == 0 ==> answer.get("_discarded_clauses"@) is None
            &&& notes.len() > 0 ==> broadcast_laws::lists_texts(
                answer.get("_discarded_clauses"@),
                notes,
            )
            &&& gather.approximate is None ==> answer.get("_approximate_sort"@) is None
            &&& gather.approximate matches Some(field) ==> answer.get("_approximate_sort"@) == Some(
                JsonV::Text(field),
            )
        }),
{
    search_laws::lemma_part_names();
    let gather = search::gathered(outcomes);
    let shown = search::all_shown(hits::window_of(ranked, window), fields);
    let body = search::answer_body(shown, gather.total, window, took_ms, outcomes.len(), gather);
    let entries = body->Object_0;
    json::lemma_key_place_is(entries, "errors"@, 7);
    json::lemma_key_place_is(entries, "_discarded_clauses"@, 7);
    json::lemma_key_place_is(entries, "_approximate_sort"@, 7);
    let failures = errors::shard_notes(gather.failures);
    let notes = errors::distinct_in_order(gather.notes) + search::projection_notes(
        known,
        search::or_no_texts(fields),
    );
    let one = errors::with_texts(body, "errors"@, failures);
    let two = errors::with_texts(one, DISCARDED_CLAUSES_FIELD@, notes);
    json::lemma_read_back(body, "errors"@, errors::text_array(failures), "errors"@);
    json::lemma_read_back(body, "errors"@, errors::text_array(failures), "_discarded_clauses"@);
    json::lemma_read_back(body, "errors"@, errors::text_array(failures), "_approximate_sort"@);
    let list = errors::text_array(notes);
    json::lemma_read_back(one, "_discarded_clauses"@, list, "errors"@);
    json::lemma_read_back(one, "_discarded_clauses"@, list, "_discarded_clauses"@);
    json::lemma_read_back(one, "_discarded_clauses"@, list, "_approximate_sort"@);
    if let Some(field) = gather.approximate {
        let put = JsonV::Text(field);
        json::lemma_read_back(two, "_approximate_sort"@, put, "errors"@);
        json::lemma_read_back(two, "_approximate_sort"@, put, "_discarded_clauses"@);
        json::lemma_read_back(two, "_approximate_sort"@, put, "_approximate_sort"@);
    }
}

/// A node without shards answers that there is nothing.
pub proof fn law_a_node_without_shards_has_nothing()
    ensures
        search::answer_without_shards().get("hits"@) == Some(JsonV::Array(Seq::empty())),
        search::answer_without_shards().get("hits_returned"@) == Some(
            JsonV::Number(NumV::Unsigned(0)),
        ),
        search::answer_without_shards().get("total_hits"@) == Some(JsonV::Number(NumV::Unsigned(0))),
{
    search_laws::lemma_part_names();
    let entries = search::answer_without_shards()->Object_0;
    json::lemma_key_place_is(entries, "hits"@, 0);
    json::lemma_key_place_is(entries, "hits_returned"@, 1);
    json::lemma_key_place_is(entries, "total_hits"@, 2);
}

// ---------------------------------------------------------------------------
// Requests
// ---------------------------------------------------------------------------

/// A removal is named by its identifier alone, or by an object that gives it and the key that its
/// write went by; nothing else names one.
pub proof fn law_a_removal_is_named_by_its_identifier(value: JsonV)
    ensures
        value matches JsonV::Text(id) ==> ops::delete_entry(value) == Some(
            DeleteV { id, routing_key: None },
        ),
        value is Object ==> (value.get("id"@) matches Some(JsonV::Text(id)) ==> {
            &&& value.get("routing_key"@) matches Some(JsonV::Text(key)) ==> ops::delete_entry(value)
                == Some(DeleteV { id, routing_key: Some(key) })
            &&& value.get("routing_key"@) is None || value.get("routing_key"@) == Some(JsonV::Null)
                ==> ops::delete_entry(value) == Some(DeleteV { id, routing_key: None })
        }),
        value is Object && !(value.get("id"@) matches Some(JsonV::Text(_))) ==> ops::delete_entry(
            value,
        ) is None,
        !(value is Object) && !(value is Text) ==> ops::delete_entry(value) is None,
{
}

/// The engine is handed what was asked, as it was asked: a search with its page, a stream from its
/// first hit, a write and a removal with their keys.
pub proof fn law_the_engine_is_handed_what_was_asked(op: ClientOp, default_limit: usize)
    ensures
        op matches ClientOp::Write { index, id, routing_key, doc } ==> engine::engine_step(
            op,
            default_limit,
        ) == (EngineStep::Write { index, id, routing_key, doc }),
        op matches ClientOp::Delete { index, id, routing_key } ==> engine::engine_step(
            op,
            default_limit,
        ) == (EngineStep::Delete { index, id, routing_key }),
        op matches ClientOp::Search { index, query, limit, offset, fields, sort } ==> (
        engine::engine_step(op, default_limit) matches EngineStep::Search {
            index: i,
            query: q,
            window,
            fields: f,
            sort: s,
        } && {
            &&& i == index && q == query && f == fields && s == sort
            &&& limit matches Some(n) ==> window.limit == n
            &&& limit is None ==> window.limit == default_limit
            &&& offset matches Some(n) ==> window.offset == n
            &&& offset is None ==> window.offset == 0
        }),
        op matches ClientOp::Stream { index, query, limit, fields, sort } ==> (
        engine::engine_step(op, default_limit) matches EngineStep::Search {
            index: i,
            query: q,
            window,
            fields: f,
            sort: s,
        } && {
            &&& i == index && q == query && f == fields && s == sort
            &&& limit matches Some(n) ==> window.limit == n
            &&& limit is None ==> window.limit == default_limit
            &&& window.offset == 0
        }),
{
}

} // verus!
