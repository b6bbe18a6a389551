//! How a schema grows from what its documents bring, and how a change of it is told.

use vstd::prelude::*;
use crate::{broadcast_laws, evolution, json, schema, schema_update, text};
use crate::json::JsonV;
use crate::ops::DocPayload;
use crate::schema::{FieldV, TantivyFieldType};
use crate::schema_update::{Part, SchemaFieldUpdate};
use crate::validation::VerdictV;

verus! {

// ---------------------------------------------------------------------------
// What a batch brings
// ---------------------------------------------------------------------------

/// The failures of a batch are the documents that were refused, each at its own place and for its own
/// reason, in the order of the batch.
pub proof fn law_every_refused_document_is_told(verdicts: Seq<VerdictV>)
    ensures
        ({
            let failures = evolution::failures_among(verdicts);
            &&& forall|k: int|
                0 <= k < failures.len() ==> 0 <= (#[trigger] failures[k]).0 < verdicts.len()
                    && verdicts[failures[k].0].error == Some(failures[k].1)
            &&& forall|i: int|
                0 <= i < verdicts.len() ==> ((#[trigger] verdicts[i]).error matches Some(why)
                    ==> failures.contains((i, why)))
            &&& forall|j: int, k: int|
                0 <= j < k < failures.len() ==> (#[trigger] failures[j]).0 < (#[trigger] failures[k]).0
        }),
    decreases verdicts.len(),
{
    if verdicts.len() > 0 {
        let rest = verdicts.drop_last();
        let n = rest.len() as int;
        law_every_refused_document_is_told(rest);
        let before = evolution::failures_among(rest);
        let failures = evolution::failures_among(verdicts);
        assert(verdicts[n] == verdicts.last());
        assert forall|k: int| 0 <= k < failures.len() implies 0 <= (#[trigger] failures[k]).0
            < verdicts.len() && verdicts[failures[k].0].error == Some(failures[k].1) by {
            if k < before.len() {
                assert(failures[k] == before[k]);
                assert(rest[before[k].0] == verdicts[before[k].0]);
            }
        }
        assert forall|i: int| 0 <= i < verdicts.len() implies ((#[trigger] verdicts[i]).error matches Some(
            why,
        ) ==> failures.contains((i, why))) by {
            if let Some(why) = verdicts[i].error {
                if i < n {
                    assert(rest[i] == verdicts[i]);
                    assert(before.contains((i, why)));
                    let k = choose|k: int| 0 <= k < before.len() && before[k] == (i, why);
                    assert(failures[k] == (i, why));
                } else {
                    assert(failures[before.len() as int] == (i, why));
                }
            }
        }
        assert forall|j: int, k: int| 0 <= j < k < failures.len() implies (#[trigger] failures[j]).0 < (
        #[trigger] failures[k]).0 by {
            assert(failures[j] == before[j]);
            if k < before.len() {
                assert(failures[k] == before[k]);
            }
        }
    }
}

/// Whether a document of the batch brings the field: one that was let in, and that brings anything.
pub open spec fn some_brings(
    verdicts: Seq<VerdictV>,
    field: (Seq<char>, TantivyFieldType),
) -> bool {
    exists|i: int|
        0 <= i < verdicts.len() && (#[trigger] verdicts[i]).error is None
            && verdicts[i].needs_evolution && verdicts[i].new_fields.contains(field)
}

/// Adding fields adds those that are not there yet.
proof fn lemma_with_new(
    list: Seq<(Seq<char>, TantivyFieldType)>,
    more: Seq<(Seq<char>, TantivyFieldType)>,
    field: (Seq<char>, TantivyFieldType),
)
    ensures
        evolution::with_new(list, more).contains(field) <==> list.contains(field) || more.contains(
            field,
        ),
        list.no_duplicates() ==> evolution::with_new(list, more).no_duplicates(),
    decreases more.len(),
{
    if more.len() > 0 {
        let rest = more.drop_last();
        lemma_with_new(list, rest, field);
        let before = evolution::with_new(list, rest);
        let all = evolution::with_new(list, more);
        if before.contains(field) {
            let k = choose|k: int| 0 <= k < before.len() && before[k] == field;
            assert(all[k] == field);
        }
        if more.contains(field) {
            let k = choose|k: int| 0 <= k < more.len() && more[k] == field;
            if k < rest.len() {
                assert(rest[k] == field);
            } else if !before.contains(field) {
                assert(all[before.len() as int] == field);
            }
        }
        if rest.contains(field) {
            let k = choose|k: int| 0 <= k < rest.len() && rest[k] == field;
            assert(more[k] == field);
        }
        if all.contains(field) && !before.contains(field) {
            let k = choose|k: int| 0 <= k < all.len() && all[k] == field;
            assert(k >= before.len()) by {
                if k < before.len() {
                    assert(before[k] == field);
                }
            }
            assert(more[more.len() - 1] == field);
        }
    } else {
        assert(!more.contains(field));
    }
}

/// A batch brings the fields that its admitted documents bring, each once, and no other.
pub proof fn law_a_batch_brings_what_its_documents_bring(
    verdicts: Seq<VerdictV>,
    field: (Seq<char>, TantivyFieldType),
)
    ensures
        evolution::brought_fields(verdicts).contains(field) <==> some_brings(verdicts, field),
        evolution::brought_fields(verdicts).no_duplicates(),
    decreases verdicts.len(),
{
    if verdicts.len() > 0 {
        let rest = verdicts.drop_last();
        let last = verdicts.last();
        law_a_batch_brings_what_its_documents_bring(rest, field);
        lemma_with_new(evolution::brought_fields(rest), last.new_fields, field);
        assert(verdicts[rest.len() as int] == last);
        if some_brings(rest, field) {
            let i = choose|i: int|
                0 <= i < rest.len() && (#[trigger] rest[i]).error is None && rest[i].needs_evolution
                    && rest[i].new_fields.contains(field);
            assert(verdicts[i] == rest[i]);
        }
        if some_brings(verdicts, field) {
            let i = choose|i: int|
                0 <= i < verdicts.len() && (#[trigger] verdicts[i]).error is None
                    && verdicts[i].needs_evolution && verdicts[i].new_fields.contains(field);
            if i < rest.len() {
                assert(rest[i] == verdicts[i]);
            }
        }
    } else {
        assert(!evolution::brought_fields(verdicts).contains(field));
    }
}

/// A schema is sampled from the first documents, as many as are asked for where there are so many.
pub proof fn law_a_sample_is_the_first_documents(docs: Seq<DocPayload>, limit: usize)
    ensures
        evolution::sample_of(docs, limit).is_prefix_of(docs),
        docs.len() <= limit ==> evolution::sample_of(docs, limit) == docs,
        docs.len() > limit ==> evolution::sample_of(docs, limit).len() == limit,
{
    assert(evolution::sample_of(docs, limit) =~= docs.subrange(
        0,
        evolution::sample_of(docs, limit).len() as int,
    ));
}

/// Making a field searchable indexes it, and stores it where it is the key; nothing else of it changes,
/// and a shadow stays as it is.
pub proof fn law_making_searchable_changes_nothing_else(name: Seq<char>, field: FieldV)
    ensures
        field.is_shadow ==> evolution::made_searchable(name, field) == field,
        !field.is_shadow ==> {
            let made = evolution::made_searchable(name, field);
            &&& made.indexed
            &&& made.stored <==> name == "id"@
            &&& made.name == field.name
            &&& made.field_type == field.field_type
            &&& made.fast == field.fast
            &&& !made.is_shadow
            &&& made.description == field.description
            &&& made.tokenizer == field.tokenizer
        },
{
}

/// A field that grows has the type that it was brought with, last where it was brought more than once;
/// it is searched where the index is new, stored where it is the key, and no shadow. Nothing grows that
/// was not brought.
pub proof fn law_a_grown_field_has_the_type_it_was_brought_with(
    fields: Seq<(Seq<char>, FieldV)>,
    new_fields: Seq<(Seq<char>, TantivyFieldType)>,
    is_initial_creation: bool,
    name: Seq<char>,
    i: int,
)
    requires
        !json::has_key(fields, name),
        0 <= i <= new_fields.len(),
        i < new_fields.len() ==> new_fields[i].0 == name,
        forall|j: int| i < j < new_fields.len() ==> (#[trigger] new_fields[j]).0 != name,
        i == new_fields.len() ==> forall|j: int|
            0 <= j < new_fields.len() ==> (#[trigger] new_fields[j]).0 != name,
    ensures
        i == new_fields.len() ==> !json::has_key(
            evolution::grown(fields, new_fields, is_initial_creation),
            name,
        ),
        i < new_fields.len() ==> (json::value_under(
            evolution::grown(fields, new_fields, is_initial_creation),
            name,
        ) matches Some(field) && {
            &&& field.name == name
            &&& field.field_type == new_fields[i].1
            &&& field.indexed == is_initial_creation
            &&& field.stored <==> name == "id"@
            &&& !field.is_shadow
            &&& field.fast is None
            &&& field.description is None
            &&& field.tokenizer is None
        }),
    decreases new_fields.len(),
{
    if new_fields.len() > 0 {
        let rest = new_fields.drop_last();
        let n = rest.len() as int;
        let (last_name, last_type) = new_fields.last();
        let before = evolution::grown(fields, rest, is_initial_creation);
        let put = FieldV {
            indexed: is_initial_creation,
            ..schema::plain_field(last_name, last_type)
        };
        json::lemma_with_entry_read_back(before, last_name, put, name);
        if i < n {
            assert(rest[i] == new_fields[i]);
            assert forall|j: int| i < j < rest.len() implies (#[trigger] rest[j]).0 != name by {
                assert(rest[j] == new_fields[j]);
            }
            law_a_grown_field_has_the_type_it_was_brought_with(
                fields,
                rest,
                is_initial_creation,
                name,
                i,
            );
            assert(new_fields[n].0 != name);
        } else if i > n {
            assert forall|j: int| 0 <= j < rest.len() implies (#[trigger] rest[j]).0 != name by {
                assert(rest[j] == new_fields[j]);
            }
            law_a_grown_field_has_the_type_it_was_brought_with(
                fields,
                rest,
                is_initial_creation,
                name,
                n,
            );
            assert(new_fields[n].0 != name);
        }
    }
}

// ---------------------------------------------------------------------------
// A change of the schema
// ---------------------------------------------------------------------------

/// Whether any shard lists the name in a part of its verdict.
pub open spec fn any_lists(
    verdicts: Seq<SchemaFieldUpdate>,
    part: Part,
    name: Seq<char>,
) -> bool {
    exists|i: int|
        0 <= i < verdicts.len() && schema_update::part_of(#[trigger] verdicts[i], part).contains(name)
}

/// What some shard lists is what any shard lists.
proof fn lemma_any_lists(verdicts: Seq<SchemaFieldUpdate>, part: Part, name: Seq<char>)
    ensures
        schema_update::some_shard_lists(verdicts, part, name) <==> any_lists(verdicts, part, name),
    decreases verdicts.len(),
{
    if verdicts.len() > 0 {
        let rest = verdicts.drop_last();
        lemma_any_lists(rest, part, name);
        assert(verdicts[rest.len() as int] == verdicts.last());
        if any_lists(rest, part, name) {
            let i = choose|i: int|
                0 <= i < rest.len() && schema_update::part_of(#[trigger] rest[i], part).contains(name);
            assert(verdicts[i] == rest[i]);
        }
        if any_lists(verdicts, part, name) {
            let i = choose|i: int|
                0 <= i < verdicts.len() && schema_update::part_of(
                    #[trigger] verdicts[i],
                    part,
                ).contains(name);
            if i < rest.len() {
                assert(rest[i] == verdicts[i]);
            }
        }
    }
}

/// A field was changed where any shard changed it, stayed where some shard left it and none changed it,
/// is unknown where no shard knows it, and waits for a rebuild where any shard waits for one.
pub proof fn law_a_change_is_what_the_shards_made_of_it(
    merged: SchemaFieldUpdate,
    verdicts: Seq<SchemaFieldUpdate>,
    name: Seq<char>,
)
    requires
        schema_update::is_common_verdict(merged, verdicts),
    ensures
        text::texts(merged.applied@).contains(name) <==> exists|i: int|
            0 <= i < verdicts.len() && text::texts((#[trigger] verdicts[i]).applied@).contains(name),
        text::texts(merged.unchanged@).contains(name) <==> (exists|i: int|
            0 <= i < verdicts.len() && text::texts((#[trigger] verdicts[i]).unchanged@).contains(name))
            && !(exists|i: int|
            0 <= i < verdicts.len() && text::texts((#[trigger] verdicts[i]).applied@).contains(name)),
        text::texts(merged.unknown@).contains(name) <==> verdicts.len() > 0 && forall|i: int|
            0 <= i < verdicts.len() ==> text::texts((#[trigger] verdicts[i]).unknown@).contains(name),
        text::texts(merged.pending_reindex@).contains(name) <==> exists|i: int|
            0 <= i < verdicts.len() && text::texts((#[trigger] verdicts[i]).pending_reindex@).contains(
                name,
            ),
{
    lemma_any_lists(verdicts, Part::Applied, name);
    lemma_any_lists(verdicts, Part::Unchanged, name);
    lemma_any_lists(verdicts, Part::PendingReindex, name);
    assert(any_lists(verdicts, Part::Applied, name) <==> exists|i: int|
        0 <= i < verdicts.len() && text::texts((#[trigger] verdicts[i]).applied@).contains(name)) by {
        if exists|i: int|
            0 <= i < verdicts.len() && text::texts((#[trigger] verdicts[i]).applied@).contains(name) {
            let i = choose|i: int|
                0 <= i < verdicts.len() && text::texts((#[trigger] verdicts[i]).applied@).contains(
                    name,
                );
            assert(schema_update::part_of(verdicts[i], Part::Applied).contains(name));
        }
    }
    assert(any_lists(verdicts, Part::Unchanged, name) <==> exists|i: int|
        0 <= i < verdicts.len() && text::texts((#[trigger] verdicts[i]).unchanged@).contains(name)) by {
        if exists|i: int|
            0 <= i < verdicts.len() && text::texts((#[trigger] verdicts[i]).unchanged@).contains(name) {
            let i = choose|i: int|
                0 <= i < verdicts.len() && text::texts((#[trigger] verdicts[i]).unchanged@).contains(
                    name,
                );
            assert(schema_update::part_of(verdicts[i], Part::Unchanged).contains(name));
        }
    }
    assert(any_lists(verdicts, Part::PendingReindex, name) <==> exists|i: int|
        0 <= i < verdicts.len() && text::texts((#[trigger] verdicts[i]).pending_reindex@).contains(
            name,
        )) by {
        if exists|i: int|
            0 <= i < verdicts.len() && text::texts((#[trigger] verdicts[i]).pending_reindex@).contains(
                name,
            ) {
            let i = choose|i: int|
                0 <= i < verdicts.len() && text::texts(
                    (#[trigger] verdicts[i]).pending_reindex@,
                ).contains(name);
            assert(schema_update::part_of(verdicts[i], Part::PendingReindex).contains(name));
        }
    }
}

/// The answer to a change of the schema says whether it was made, which fields it changed and which it
/// left, the unknown ones with the reason where it was refused, and those that wait where it was not.
pub proof fn law_a_change_of_the_schema_is_told(index: Seq<char>, outcome: SchemaFieldUpdate)
    ensures
        ({
            let body = schema_update::update_body(index, outcome);
            let refused = outcome.unknown@.len() > 0;
            &&& body.get("acknowledged"@) == Some(JsonV::Bool(!refused))
            &&& body.get("index"@) == Some(JsonV::Text(index))
            &&& broadcast_laws::lists_texts(body.get("updated_fields"@), text::texts(outcome.applied@))
            &&& broadcast_laws::lists_texts(
                body.get("unchanged_fields"@),
                text::texts(outcome.unchanged@),
            )
            &&& refused ==> broadcast_laws::lists_texts(
                body.get("unknown_fields"@),
                text::texts(outcome.unknown@),
            ) && body.get("reason"@) == Some(
                JsonV::Text(schema_update::refusal_text(text::texts(outcome.unknown@))),
            )
            &&& !refused ==> body.get("unknown_fields"@) is None && body.get("reason"@) is None
            &&& !refused && outcome.pending_reindex@.len() > 0 ==> broadcast_laws::lists_texts(
                body.get("pending_reindex_fields"@),
                text::texts(outcome.pending_reindex@),
            ) && body.get("note"@) == Some(
                JsonV::Text(schema_update::pending_text(text::texts(outcome.pending_reindex@))),
            )
            &&& refused || outcome.pending_reindex@.len() == 0 ==> body.get(
                "pending_reindex_fields"@,
            ) is None && body.get("note"@) is None
        }),
{
    reveal_strlit("acknowledged");
    reveal_strlit("index");
    reveal_strlit("updated_fields");
    reveal_strlit("unchanged_fields");
    reveal_strlit("unknown_fields");
    reveal_strlit("reason");
    reveal_strlit("pending_reindex_fields");
    reveal_strlit("note");
    assert("acknowledged"@.len() == 12 && "index"@.len() == 5 && "updated_fields"@.len() == 14);
    assert("unchanged_fields"@.len() == 16 && "unknown_fields"@.len() == 14 && "reason"@.len() == 6);
    assert("pending_reindex_fields"@.len() == 22 && "note"@.len() == 4);
    assert("updated_fields"@[1] == 'p' && "unknown_fields"@[1] == 'n');
    let entries = schema_update::update_body(index, outcome)->Object_0;
    json::lemma_key_place_is(entries, "acknowledged"@, 0);
    json::lemma_key_place_is(entries, "index"@, 1);
    json::lemma_key_place_is(entries, "updated_fields"@, 2);
    json::lemma_key_place_is(entries, "unchanged_fields"@, 3);
    let end = entries.len() as int;
    if outcome.unknown@.len() > 0 {
        json::lemma_key_place_is(entries, "unknown_fields"@, 4);
        json::lemma_key_place_is(entries, "reason"@, 5);
        json::lemma_key_place_is(entries, "pending_reindex_fields"@, end);
        json::lemma_key_place_is(entries, "note"@, end);
    } else {
        json::lemma_key_place_is(entries, "unknown_fields"@, end);
        json::lemma_key_place_is(entries, "reason"@, end);
        if outcome.pending_reindex@.len() > 0 {
            json::lemma_key_place_is(entries, "pending_reindex_fields"@, 4);
            json::lemma_key_place_is(entries, "note"@, 5);
        } else {
            json::lemma_key_place_is(entries, "pending_reindex_fields"@, end);
            json::lemma_key_place_is(entries, "note"@, end);
        }
    }
}

} // verus!
