//! One node's answer to a search: what its shards are asked and what is made of their answers.

use vstd::prelude::*;
use vstd::string::*;
use crate::{errors, hits, json, schema, text, validation};
use crate::errors::{
    DISCARDED_CLAUSES_FIELD, ErrorV, OrchestratorError, attach_approximate_sort,
    attach_discarded, attach_shard_errors, no_shard_answered, push_distinct, shard_error_notes,
};
use crate::hits::{
    SORT_KEY_FIELD, Score, SearchWindow, ShardHitV, SortSpec, apply_field_projection,
    names_metadata, order_shard_hits,
};
use crate::json::{Json, JsonV, NumV, entry};
use crate::ops::{SearchHit, SearchReply, SearchRequest};
use crate::schema::{FieldDef, FieldV, IndexSchema, SchemaV, TantivyFieldType};
use crate::text::{join_texts, same_text};
use crate::validation::parse_date_to_timestamp_secs;

verus! {

// ---------------------------------------------------------------------------
// Before any shard is asked
// ---------------------------------------------------------------------------

/// What is said of a projected field that an index does not have.
pub open spec fn projection_note(field: Seq<char>) -> Seq<char> {
    "'return "@ + field
        + "' names a field this index does not have, so the clause had no effect; if it was meant as query text, quote it or drop the keyword"@
}

/// The name of the shard that a hit comes from, which the response itself adds.
pub const SHARD_ID_FIELD: &'static str = "shard_id";

/// Whether a name can be projected: the index has it, or the response itself adds it.
pub open spec fn can_be_projected(schema: SchemaV, field: Seq<char>) -> bool {
    hits::is_metadata(field) || field == SHARD_ID_FIELD@ || json::has_key(schema.fields, field)
}

/// The notes on projected fields that an index does not have.
pub open spec fn projection_notes(schema: SchemaV, fields: Seq<Seq<char>>) -> Seq<Seq<char>>
    decreases fields.len(),
{
    if fields.len() == 0 || schema.fields.len() == 0 {
        Seq::empty()
    } else {
        let before = projection_notes(schema, fields.drop_last());
        if can_be_projected(schema, fields.last()) {
            before
        } else {
            before.push(projection_note(fields.last()))
        }
    }
}

/// An optional list of texts, as a value of the model.
pub open spec fn opt_texts(list: Option<Vec<String>>) -> Option<Seq<Seq<char>>> {
    match list {
        Some(l) => Some(text::texts(l@)),
        None => None,
    }
}

/// The texts of an optional list, none where there is no list.
pub open spec fn or_no_texts(list: Option<Seq<Seq<char>>>) -> Seq<Seq<char>> {
    match list {
        Some(l) => l,
        None => Seq::empty(),
    }
}

/// Notes for projected fields the index does not have.
///
/// A projection drops an unknown field without complaint. Metadata and the shard are added by the
/// response itself and so can always be asked for. Nothing is said for an index that declares nothing yet, where
/// every field would look unknown.
pub fn unknown_projection_fields(schema: &IndexSchema, fields: &Option<Vec<String>>) -> (notes: Vec<
    String,
>)
    ensures
        text::texts(notes@) == projection_notes(schema@, or_no_texts(opt_texts(*fields))),
{
    let mut notes: Vec<String> = Vec::new();
    if schema.fields.len() == 0 {
        assert(schema@.fields.len() == 0);
        assert(text::texts(notes@) =~= Seq::empty());
        return notes;
    }
    if let Some(list) = fields {
        let ghost all = text::texts(list@);
        let mut i: usize = 0;
        assert(text::texts(notes@) =~= projection_notes(schema@, all.take(0)));
        while i < list.len()
            invariant
                i <= list.len(),
                all == text::texts(list@),
                schema@.fields.len() > 0,
                text::texts(notes@) == projection_notes(schema@, all.take(i as int)),
            decreases list.len() - i,
        {
            let field: &String = &list[i];
            proof {
                assert(all.take(i + 1).drop_last() =~= all.take(i as int));
                assert(all.take(i + 1).last() == field@);
            }
            if !names_metadata(field.as_str()) && !same_text(field.as_str(), SHARD_ID_FIELD)
                && schema.field(field.as_str()).is_none() {
                let ghost before = notes@;
                let mut note: String = String::from_str("'return ");
                note.append(field.as_str());
                note.append(
                    "' names a field this index does not have, so the clause had no effect; if it was meant as query text, quote it or drop the keyword",
                );
                notes.push(note);
                assert(text::texts(notes@) =~= text::texts(before).push(projection_note(field@)));
            }
            i += 1;
        }
        assert(all.take(list.len() as int) =~= all);
    } else {
        assert(text::texts(notes@) =~= Seq::empty());
    }
    notes
}

/// A projected name as the documents carry it.
pub open spec fn carried_name(schema: SchemaV, field: Seq<char>) -> Seq<char> {
    if field == "id"@ {
        schema.document_key()
    } else {
        field
    }
}

/// A projection as the documents can answer it.
pub open spec fn carried_names(schema: SchemaV, fields: Seq<Seq<char>>) -> Seq<Seq<char>> {
    fields.map_values(|field: Seq<char>| carried_name(schema, field))
}

/// The projection as the documents can answer it.
///
/// On an index whose document key goes by another name, hits carry that name and no `id`, so a
/// projection naming `id` is rewritten to it. Everywhere else it stays as it is.
pub fn normalize_projection_fields(schema: &IndexSchema, fields: &Vec<String>) -> (names: Vec<
    String,
>)
    ensures
        text::texts(names@) == carried_names(schema@, text::texts(fields@)),
{
    let key: String = schema.document_key_field();
    let mut names: Vec<String> = Vec::new();
    let ghost wanted = carried_names(schema@, text::texts(fields@));
    let mut i: usize = 0;
    while i < fields.len()
        invariant
            i <= fields.len(),
            key@ == schema@.document_key(),
            wanted == carried_names(schema@, text::texts(fields@)),
            text::texts(names@) == wanted.take(i as int),
        decreases fields.len() - i,
    {
        let ghost before = names@;
        let name: String = if same_text(fields[i].as_str(), "id") {
            key.clone()
        } else {
            fields[i].clone()
        };
        assert(name@ == wanted[i as int]);
        names.push(name);
        i += 1;
        assert(text::texts(names@) =~= text::texts(before).push(wanted[i - 1]));
        assert(wanted.take(i as int) =~= wanted.take(i - 1).push(wanted[i - 1]));
    }
    assert(wanted.take(fields.len() as int) =~= wanted);
    names
}

/// Why an index cannot be ordered by a field, if it cannot.
pub open spec fn sort_refusal(schema: SchemaV, field: Seq<char>) -> Option<ErrorV> {
    if schema.fields.len() == 0 || field == "id"@ || schema.is_shadow(field) {
        None
    } else if field == "_seq"@ {
        Some(
            ErrorV::UnsortableField(field, "the field is internal and no index reports it"@),
        )
    } else {
        match schema.field(field) {
            None => Some(
                ErrorV::UnsortableField(field, "the index has no column of that name"@),
            ),
            Some(def) => if schema::declared_fast(def) || def.field_type == TantivyFieldType::Text
                || def.field_type == TantivyFieldType::String {
                None
            } else if !schema::type_can_be_fast(def.field_type) {
                Some(
                    ErrorV::UnsortableField(
                        field,
                        "a "@ + schema::listed_type(def.field_type)
                            + " field has no column to sort on, and declaring it fast cannot give it one"@,
                    ),
                )
            } else {
                Some(
                    ErrorV::UnsortableField(
                        field,
                        "a "@ + schema::listed_type(def.field_type)
                            + " field must be declared fast to sort, and this one is not"@,
                    ),
                )
            },
        }
    }
}

/// An optional error, as a value of the model.
pub open spec fn opt_error(error: Option<OrchestratorError>) -> Option<ErrorV> {
    match error {
        Some(e) => Some(e@),
        None => None,
    }
}

/// Refuses to order by a field.
fn refuse_sort(field: &String, reason: String) -> (refusal: Option<OrchestratorError>)
    ensures
        opt_error(refusal) == Some(ErrorV::UnsortableField(field@, reason@)),
{
    Some(OrchestratorError::UnsortableField { field: field.clone(), reason })
}

/// The sort an index cannot answer, if the caller asked for one.
///
/// A sort fails in every shard or in none, so a refusal the engine is certain to issue is issued
/// before any shard is asked. What may be sorted on: a field with a column, a text field without
/// one (approximately), the document key, and any other name for it. Nothing is refused for an
/// index that declares nothing yet.
pub fn unsortable_sort_field(schema: &IndexSchema, sort: Option<&SortSpec>) -> (refusal: Option<
    OrchestratorError,
>)
    ensures
        opt_error(refusal) == match sort {
            Some(spec) => sort_refusal(schema@, spec.field@),
            None => None,
        },
{
    let field: &String = match sort {
        Some(spec) => &spec.field,
        None => {
            return None;
        },
    };
    if schema.fields.len() == 0 {
        assert(schema@.fields.len() == 0);
        return None;
    }
    assert(schema@.fields.len() > 0);
    if same_text(field.as_str(), "id") || schema.is_shadow_field(field.as_str()) {
        return None;
    }
    if same_text(field.as_str(), "_seq") {
        return refuse_sort(
            field,
            String::from_str("the field is internal and no index reports it"),
        );
    }
    match schema.field(field.as_str()) {
        None => refuse_sort(field, String::from_str("the index has no column of that name")),
        Some(def) => {
            if def.is_fast() {
                return None;
            }
            match def.field_type {
                TantivyFieldType::Text => {
                    return None;
                },
                TantivyFieldType::String => {
                    return None;
                },
                _ => {},
            }
            let mut reason: String = String::from_str("a ");
            reason.append(def.field_type.name());
            if !FieldDef::can_be_fast(&def.field_type) {
                reason.append(
                    " field has no column to sort on, and declaring it fast cannot give it one",
                );
            } else {
                reason.append(" field must be declared fast to sort, and this one is not");
            }
            refuse_sort(field, reason)
        },
    }
}

/// What every shard is asked: the whole window from the front, because any of them may hold all of
/// it. The skip is applied once, after the merge.
pub fn shard_search_request(
    index: &str,
    query: &str,
    window: SearchWindow,
    sort: Option<&SortSpec>,
) -> (request: SearchRequest)
    ensures
        request.index@ == index@,
        request.query@ == query@,
        request.limit == Some(hits::window_reach(window)),
        match sort {
            Some(spec) => request.sort matches Some(asked) && asked.field@ == spec.field@
                && asked.order == spec.order,
            None => request.sort is None,
        },
{
    let asked: Option<SortSpec> = match sort {
        Some(spec) => Some(spec.clone()),
        None => None,
    };
    SearchRequest {
        index: String::from_str(index),
        query: String::from_str(query),
        limit: Some(window.fetch_count()),
        sort: asked,
    }
}

// ---------------------------------------------------------------------------
// Sort keys
// ---------------------------------------------------------------------------

/// The sort key of a value: a date by the moment it stands for, anything else as it is.
pub open spec fn sort_key_of(value: JsonV, field: Option<FieldV>) -> Option<JsonV> {
    match field {
        Some(def) if def.field_type == TantivyFieldType::Date => match value {
            JsonV::Text(text) => match validation::date_secs(text) {
                Some(secs) => Some(
                    JsonV::Number(
                        if secs >= 0 {
                            NumV::Unsigned(secs as u64)
                        } else {
                            NumV::Negative(secs)
                        },
                    ),
                ),
                None => None,
            },
            _ => None,
        },
        _ => Some(value),
    }
}

/// An optional value, as a value of the model.
pub open spec fn opt_json(value: Option<Json>) -> Option<JsonV> {
    match value {
        Some(v) => Some(v@),
        None => None,
    }
}

/// An optional field, as a value of the model.
pub open spec fn opt_field(field: Option<&FieldDef>) -> Option<FieldV> {
    match field {
        Some(f) => Some(f@),
        None => None,
    }
}

/// Produces a comparable sort key for a hit's raw field value.
///
/// Dates become seconds, so that they order by time whatever form they are written in. Every other
/// value stays as it is. None where a date cannot be read, in which case the hit goes last.
pub fn normalize_sort_key(value: &Json, field_def: Option<&FieldDef>) -> (key: Option<Json>)
    ensures
        opt_json(key) == sort_key_of(value@, opt_field(field_def)),
{
    if let Some(def) = field_def {
        if let TantivyFieldType::Date = def.field_type {
            return match value {
                Json::Text(text) => match parse_date_to_timestamp_secs(text.as_str()) {
                    Some(secs) => Some(Json::whole(secs)),
                    None => None,
                },
                _ => None,
            };
        }
    }
    Some(value.clone())
}

/// The value a hit is sorted by: under the name the caller sorted by, or, where that is a name for
/// the document key, under the name the hit carries the key under.
pub open spec fn sort_source(doc: JsonV, field: Seq<char>, schema: SchemaV) -> Option<JsonV> {
    if doc.get(field) is Some {
        doc.get(field)
    } else if field == "id"@ || schema.is_shadow(field) {
        if doc.get(schema.document_key()) is Some {
            doc.get(schema.document_key())
        } else {
            doc.get("id"@)
        }
    } else {
        None
    }
}

/// A document with its sort key written into it, where it has one.
pub open spec fn stamped(doc: JsonV, field: Seq<char>, schema: SchemaV) -> JsonV {
    match sort_source(doc, field, schema) {
        Some(raw) => match sort_key_of(raw, schema.field(field)) {
            Some(key) => doc.with(SORT_KEY_FIELD@, key),
            None => doc,
        },
        None => doc,
    }
}

/// Hits with their sort keys written into them.
pub open spec fn all_stamped(hits: Seq<ShardHitV>, field: Seq<char>, schema: SchemaV) -> Seq<
    ShardHitV,
> {
    hits.map_values(
        |hit: ShardHitV| ShardHitV { doc: stamped(hit.doc, field, schema), ..hit },
    )
}

/// The sort key of one document.
fn key_for(doc: &Json, field: &str, by_key: bool, key_name: &str, def: Option<&FieldDef>) -> (key:
    Option<Json>)
    ensures
        opt_json(key) == ({
            let source = if doc@.get(field@) is Some {
                doc@.get(field@)
            } else if by_key {
                if doc@.get(key_name@) is Some {
                    doc@.get(key_name@)
                } else {
                    doc@.get("id"@)
                }
            } else {
                None
            };
            match source {
                Some(raw) => sort_key_of(raw, opt_field(def)),
                None => None,
            }
        }),
{
    if let Some(raw) = doc.get(field) {
        return normalize_sort_key(raw, def);
    }
    if by_key {
        if let Some(raw) = doc.get(key_name) {
            return normalize_sort_key(raw, def);
        }
        if let Some(raw) = doc.get("id") {
            return normalize_sort_key(raw, def);
        }
    }
    None
}

/// Writes the sort key into each gathered hit, so that every later merge has a key to order by
/// that no projection removes.
///
/// The key is read under the name the document carries, which is not always the name the caller
/// sorted by: an index whose document key goes by another name answers with that name in place of
/// `id`.
pub fn stamp_sort_keys(
    hits: &mut Vec<(u128, Score, Json)>,
    spec: &SortSpec,
    schema: &IndexSchema,
)
    ensures
        hits::shard_hits(final(hits)@) == all_stamped(hits::shard_hits(old(hits)@), spec.field@, schema@),
{
    let ghost start = hits::shard_hits(hits@);
    let by_key: bool = same_text(spec.field.as_str(), "id") || schema.is_shadow_field(
        spec.field.as_str(),
    );
    let key_name: String = schema.document_key_field();
    let def: Option<&FieldDef> = schema.field(spec.field.as_str());
    assert(opt_field(def) == schema@.field(spec.field@));
    let mut i: usize = 0;
    while i < hits.len()
        invariant
            i <= hits.len(),
            hits@.len() == start.len(),
            by_key == (spec.field@ == "id"@ || schema@.is_shadow(spec.field@)),
            key_name@ == schema@.document_key(),
            opt_field(def) == schema@.field(spec.field@),
            forall|k: int|
                0 <= k < i ==> #[trigger] hits::shard_hits(hits@)[k] == all_stamped(
                    start,
                    spec.field@,
                    schema@,
                )[k],
            forall|k: int| i <= k < start.len() ==> #[trigger] hits::shard_hits(hits@)[k] == start[k],
        decreases hits.len() - i,
    {
        let ghost before = hits@;
        assert(hits::shard_hits(before)[i as int] == start[i as int]);
        let key: Option<Json> = key_for(
            &hits[i].2,
            spec.field.as_str(),
            by_key,
            key_name.as_str(),
            def,
        );
        if let Some(value) = key {
            hits[i].2.put(SORT_KEY_FIELD, value);
        }
        proof {
            assert(hits@[i as int].2@ == stamped(start[i as int].doc, spec.field@, schema@));
            assert(hits::shard_hits(hits@) =~= hits::shard_hits(before).update(
                i as int,
                all_stamped(start, spec.field@, schema@)[i as int],
            ));
        }
        i += 1;
    }
    assert(hits::shard_hits(hits@) =~= all_stamped(start, spec.field@, schema@));
}

// ---------------------------------------------------------------------------
// What the shards answered
// ---------------------------------------------------------------------------

/// What a shard answered, or why it did not.
pub type ShardOutcome = Result<SearchReply, OrchestratorError>;

/// What is known once some shards have answered.
pub struct GatherV {
    pub hits: Seq<ShardHitV>,
    pub failures: Seq<(u128, ErrorV)>,
    pub answered: nat,
    pub total: nat,
    pub notes: Seq<Seq<char>>,
    pub approximate: Option<Seq<char>>,
    pub emptied: bool,
}

/// The hits of one shard.
pub open spec fn hits_of(shard: u128, hits: Seq<SearchHit>) -> Seq<ShardHitV> {
    hits.map_values(
        |hit: SearchHit|
            ShardHitV {
                shard,
                score: hit.score.order,
                number: hits::score_number(hit.score),
                doc: hit.doc@,
            },
    )
}

/// What is known once one more shard has answered.
pub open spec fn gathered_with(before: GatherV, shard: u128, outcome: ShardOutcome) -> GatherV {
    match outcome {
        Ok(reply) => GatherV {
            hits: before.hits + hits_of(shard, reply.hits@),
            failures: before.failures,
            answered: before.answered + 1,
            total: before.total + reply.total_hits as nat,
            notes: before.notes + text::texts(reply.discarded@),
            approximate: if before.approximate is Some {
                before.approximate
            } else {
                errors::opt_text(reply.approximate_sort)
            },
            emptied: before.emptied || reply.emptied,
        },
        Err(error) => GatherV { failures: before.failures.push((shard, error@)), ..before },
    }
}

/// What is known once every shard has answered, in the order the answers came.
pub open spec fn gathered(outcomes: Seq<(u128, ShardOutcome)>) -> GatherV
    decreases outcomes.len(),
{
    if outcomes.len() == 0 {
        GatherV {
            hits: Seq::empty(),
            failures: Seq::empty(),
            answered: 0,
            total: 0,
            notes: Seq::empty(),
            approximate: None,
            emptied: false,
        }
    } else {
        gathered_with(gathered(outcomes.drop_last()), outcomes.last().0, outcomes.last().1)
    }
}

/// What the shards of a node answered, put together.
pub struct Gather {
    pub hits: Vec<(u128, Score, Json)>,
    pub failures: Vec<(u128, OrchestratorError)>,
    pub answered: usize,
    pub total: usize,
    pub discarded: Vec<String>,
    pub approximate: Option<String>,
    pub emptied: bool,
}

impl Gather {
    /// Whether this is what is known, with each note kept once.
    pub open spec fn is(&self, known: GatherV) -> bool {
        &&& hits::shard_hits(self.hits@) == known.hits
        &&& errors::failure_models(self.failures@) == known.failures
        &&& self.answered == known.answered
        &&& self.total == known.total
        &&& text::texts(self.discarded@) == errors::distinct_in_order(known.notes)
        &&& errors::opt_text(self.approximate) == known.approximate
        &&& self.emptied == known.emptied
    }

    /// Adds what one shard answered.
    ///
    /// Every shard parses the same query, so each note is kept once. Every shard runs the same
    /// sort, so the first that reports an approximate order describes the whole answer. One shard
    /// that could run nothing of the query is enough for the query to count as emptied.
    fn add_reply(&mut self, shard: u128, reply: SearchReply, known: Ghost<GatherV>)
        requires
            old(self).is(known@),
            known@.total + reply.total_hits <= usize::MAX,
            known@.answered < usize::MAX,
        ensures
            final(self).is(gathered_with(known@, shard, Ok(reply))),
    {
        let ghost hits_before = hits::shard_hits(self.hits@);
        let ghost wanted = hits_of(shard, reply.hits@);
        for hit in it: reply.hits
            invariant
                it.seq() == reply.hits@,
                wanted == hits_of(shard, reply.hits@),
                hits::shard_hits(self.hits@) == hits_before + wanted.take(it.index() as int),
                self.failures == old(self).failures,
                self.answered == old(self).answered,
                self.total == old(self).total,
                self.discarded == old(self).discarded,
                self.approximate == old(self).approximate,
                self.emptied == old(self).emptied,
        {
            let ghost before = self.hits@;
            let ghost place = it.index() as int;
            assert(hit == reply.hits@[place]);
            self.hits.push((shard, hit.score, hit.doc));
            assert(hits::shard_hits(self.hits@) =~= hits::shard_hits(before).push(wanted[place]));
            assert(wanted.take(place + 1) =~= wanted.take(place).push(wanted[place]));
            assert(hits_before + wanted.take(place + 1) =~= (hits_before + wanted.take(
                place,
            )).push(wanted[place]));
        }
        assert(wanted.take(reply.hits@.len() as int) =~= wanted);
        let ghost all = text::texts(reply.discarded@);
        let ghost notes_before = known@.notes;
        assert(notes_before + all.take(0) =~= notes_before);
        let mut i: usize = 0;
        while i < reply.discarded.len()
            invariant
                i <= reply.discarded.len(),
                all == text::texts(reply.discarded@),
                text::texts(self.discarded@) == errors::distinct_in_order(notes_before + all.take(i as int)),
                hits::shard_hits(self.hits@) == hits_before + wanted,
                self.failures == old(self).failures,
                self.answered == old(self).answered,
                self.total == old(self).total,
                self.approximate == old(self).approximate,
                self.emptied == old(self).emptied,
            decreases reply.discarded.len() - i,
        {
            proof {
                let longer = notes_before + all.take(i + 1);
                assert(longer.drop_last() =~= notes_before + all.take(i as int));
                assert(longer.last() == all[i as int]);
            }
            push_distinct(&mut self.discarded, reply.discarded[i].as_str());
            i += 1;
        }
        assert(all.take(reply.discarded@.len() as int) =~= all);
        if self.approximate.is_none() {
            self.approximate = reply.approximate_sort;
        }
        self.emptied = self.emptied || reply.emptied;
        self.total = self.total + reply.total_hits;
        self.answered = self.answered + 1;
    }
}

/// Puts together what the shards of a node answered.
pub fn gather_outcomes(outcomes: Vec<(u128, ShardOutcome)>) -> (gather: Gather)
    requires
        gathered(outcomes@).total <= usize::MAX,
    ensures
        gather.is(gathered(outcomes@)),
{
    let mut gather = Gather {
        hits: Vec::new(),
        failures: Vec::new(),
        answered: 0,
        total: 0,
        discarded: Vec::new(),
        approximate: None,
        emptied: false,
    };
    let ghost all = outcomes@;
    let count: usize = outcomes.len();
    assert(hits::shard_hits(gather.hits@) =~= Seq::empty());
    assert(errors::failure_models(gather.failures@) =~= Seq::empty());
    assert(text::texts(gather.discarded@) =~= Seq::empty());
    for outcome in it: outcomes
        invariant
            it.seq() == all,
            count == all.len(),
            gather.is(gathered(all.take(it.index() as int))),
            gathered(all).total <= usize::MAX,
    {
        let ghost place = it.index() as int;
        let ghost known = gathered(all.take(place));
        assert(outcome == all[place]);
        proof {
            assert(all.take(place + 1).drop_last() =~= all.take(place));
            assert(all.take(place + 1).last() == all[place]);
            lemma_gather_grows(all, place);
            lemma_gather_grows(all, place + 1);
        }
        let (shard, answer) = outcome;
        match answer {
            Ok(reply) => {
                gather.add_reply(shard, reply, Ghost(known));
            },
            Err(error) => {
                let ghost before = gather.failures@;
                gather.failures.push((shard, error));
                assert(errors::failure_models(gather.failures@) =~= errors::failure_models(before).push(
                    (shard, error@),
                ));
            },
        }
    }
    assert(all.take(all.len() as int) =~= all);
    gather
}

/// What is known of the first shards is at most what is known of all.
proof fn lemma_gather_grows(outcomes: Seq<(u128, ShardOutcome)>, count: int)
    requires
        0 <= count <= outcomes.len(),
    ensures
        gathered(outcomes.take(count)).total <= gathered(outcomes).total,
        gathered(outcomes.take(count)).answered <= count,
    decreases outcomes.len(), count,
{
    if count < outcomes.len() {
        let shorter = outcomes.drop_last();
        lemma_gather_grows(shorter, count);
        assert(shorter.take(count) =~= outcomes.take(count));
    } else {
        assert(outcomes.take(count) =~= outcomes);
        if count > 0 {
            lemma_gather_grows(outcomes, count - 1);
            assert(outcomes.drop_last() =~= outcomes.take(count - 1));
        }
    }
}

// ---------------------------------------------------------------------------
// The answer
// ---------------------------------------------------------------------------

/// A hit as the answer shows it: with its score, and then only with what was asked for.
pub open spec fn shown(hit: ShardHitV, fields: Option<Seq<Seq<char>>>) -> JsonV {
    let scored = match hit.doc {
        JsonV::Object(_) => hit.doc.with(
            "_score"@,
            match hit.number {
                Some(number) => JsonV::Number(number),
                None => JsonV::Null,
            },
        ),
        _ => hit.doc,
    };
    match fields {
        Some(list) => hits::projection(scored, list),
        None => scored,
    }
}

/// A page of hits as the answer shows it.
pub open spec fn all_shown(hits: Seq<ShardHitV>, fields: Option<Seq<Seq<char>>>) -> Seq<JsonV> {
    hits.map_values(|hit: ShardHitV| shown(hit, fields))
}

/// A count, as a value.
pub open spec fn count_value(count: nat) -> JsonV {
    JsonV::Number(NumV::Unsigned(count as u64))
}

/// How many shards were asked, answered and failed.
pub open spec fn shard_stats(total: nat, answered: nat, failed: nat) -> JsonV {
    JsonV::Object(
        seq![
            (
                "shards"@,
                JsonV::Object(
                    seq![
                        ("total"@, count_value(total)),
                        ("responded"@, count_value(answered)),
                        ("failed"@, count_value(failed)),
                    ],
                ),
            ),
        ],
    )
}

/// The body of an answer.
pub open spec fn answer_body(
    hits: Seq<JsonV>,
    total_hits: nat,
    window: SearchWindow,
    took_ms: u64,
    shards: nat,
    known: GatherV,
) -> JsonV {
    JsonV::Object(
        seq![
            ("hits"@, JsonV::Array(hits)),
            ("hits_returned"@, count_value(hits.len())),
            ("total_hits"@, count_value(total_hits)),
            ("limit"@, count_value(window.limit as nat)),
            ("offset"@, count_value(window.offset as nat)),
            ("took_ms"@, count_value(took_ms as nat)),
            ("stats"@, shard_stats(shards, known.answered, known.failures.len())),
        ],
    )
}

/// What a node that holds no shard answers.
pub open spec fn answer_without_shards() -> JsonV {
    JsonV::Object(
        seq![
            ("hits"@, JsonV::Array(Seq::empty())),
            ("hits_returned"@, count_value(0)),
            ("total_hits"@, count_value(0)),
            ("took_ms"@, count_value(0)),
        ],
    )
}

/// The hits in the order in which they are ranked, with their sort keys written into them.
pub open spec fn keyed(hits: Seq<ShardHitV>, sort: Option<&SortSpec>, schema: SchemaV) -> Seq<
    ShardHitV,
> {
    match sort {
        Some(spec) => all_stamped(hits, spec.field@, schema),
        None => hits,
    }
}

/// Whether a value is the answer to a search that some shard ran.
pub open spec fn is_answer(
    answer: JsonV,
    known: GatherV,
    shards: nat,
    schema: SchemaV,
    window: SearchWindow,
    fields: Option<Seq<Seq<char>>>,
    sort: Option<&SortSpec>,
    took_ms: u64,
    ranked: Seq<ShardHitV>,
    order: Seq<int>,
) -> bool {
    &&& hits::is_shard_order(ranked, keyed(known.hits, sort, schema), hits::direction(sort), order)
    &&& answer == errors::with_approximate_sort(
        errors::with_texts(
            errors::with_texts(
                answer_body(
                    all_shown(hits::window_of(ranked, window), fields),
                    known.total,
                    window,
                    took_ms,
                    shards,
                    known,
                ),
                "errors"@,
                errors::shard_notes(known.failures),
            ),
            DISCARDED_CLAUSES_FIELD@,
            errors::distinct_in_order(known.notes) + projection_notes(schema, or_no_texts(fields)),
        ),
        known.approximate,
    )
}

/// Shows a page of hits.
fn show_hits(page: Vec<(u128, Score, Json)>, fields: &Option<Vec<String>>) -> (shown_hits: Vec<
    Json,
>)
    ensures
        json::models(shown_hits@) == all_shown(hits::shard_hits(page@), opt_texts(*fields)),
{
    let ghost all = hits::shard_hits(page@);
    let ghost wanted = all_shown(all, opt_texts(*fields));
    let mut shown_hits: Vec<Json> = Vec::new();
    assert(json::models(shown_hits@) =~= wanted.take(0));
    for hit in it: page
        invariant
            it.seq() == page@,
            all == hits::shard_hits(page@),
            wanted == all_shown(all, opt_texts(*fields)),
            json::models(shown_hits@) == wanted.take(it.index() as int),
    {
        let ghost place = it.index() as int;
        let ghost before = shown_hits@;
        assert(hit == page@[place]);
        let (_shard, score, unscored) = hit;
        let mut doc: Json = unscored;
        proof {
            json::lemma_model_by_parts(doc);
        }
        let object: bool = match &doc {
            Json::Object(_) => true,
            _ => false,
        };
        if object {
            let number: Json = match score.number {
                Some(n) => Json::Number(n),
                None => Json::Null,
            };
            proof {
                json::lemma_model_by_parts(number);
            }
            doc.put("_score", number);
        }
        let visible: Json = match fields {
            Some(list) => apply_field_projection(doc, list),
            None => doc,
        };
        assert(visible@ == shown(all[place], opt_texts(*fields)));
        shown_hits.push(visible);
        assert(json::models(shown_hits@) =~= json::models(before).push(wanted[place]));
        assert(wanted.take(place + 1) =~= wanted.take(place).push(wanted[place]));
    }
    assert(wanted.take(all.len() as int) =~= wanted);
    shown_hits
}

/// Builds the body of an answer.
fn write_body(
    hits: Vec<Json>,
    window: SearchWindow,
    took_ms: u64,
    shards: usize,
    gather: &Gather,
    known: Ghost<GatherV>,
) -> (body: Json)
    requires
        gather.is(GatherV { hits: hits::shard_hits(gather.hits@), ..known@ }),
    ensures
        body@ == answer_body(json::models(hits@), known@.total, window, took_ms, shards as nat, known@),
{
    let count: usize = hits.len();
    let failed: usize = gather.failures.len();
    let counts: Vec<(String, Json)> = vec![
        entry("total", Json::count(shards)),
        entry("responded", Json::count(gather.answered)),
        entry("failed", Json::count(failed)),
    ];
    proof {
        assert(errors::failure_models(gather.failures@).len() == gather.failures@.len());
        assert(json::entry_models(counts@) =~= seq![
            ("total"@, count_value(shards as nat)),
            ("responded"@, count_value(known@.answered)),
            ("failed"@, count_value(known@.failures.len())),
        ]);
    }
    let stats: Vec<(String, Json)> = vec![entry("shards", Json::object(counts))];
    proof {
        assert(JsonV::Object(json::entry_models(stats@)) == shard_stats(
            shards as nat,
            known@.answered,
            known@.failures.len(),
        )) by {
            assert(json::entry_models(stats@) =~= seq![
                (
                    "shards"@,
                    JsonV::Object(
                        seq![
                            ("total"@, count_value(shards as nat)),
                            ("responded"@, count_value(known@.answered)),
                            ("failed"@, count_value(known@.failures.len())),
                        ],
                    ),
                ),
            ]);
        }
    }
    let ghost listed = json::models(hits@);
    let parts: Vec<(String, Json)> = vec![
        entry("hits", Json::list(hits)),
        entry("hits_returned", Json::count(count)),
        entry("total_hits", Json::count(gather.total)),
        entry("limit", Json::count(window.limit)),
        entry("offset", Json::count(window.offset)),
        entry("took_ms", Json::unsigned(took_ms)),
        entry("stats", Json::object(stats)),
    ];
    proof {
        assert(json::entry_models(parts@) =~= seq![
            ("hits"@, JsonV::Array(listed)),
            ("hits_returned"@, count_value(listed.len())),
            ("total_hits"@, count_value(known@.total)),
            ("limit"@, count_value(window.limit as nat)),
            ("offset"@, count_value(window.offset as nat)),
            ("took_ms"@, count_value(took_ms as nat)),
            ("stats"@, shard_stats(shards as nat, known@.answered, known@.failures.len())),
        ]);
    }
    Json::object(parts)
}

/// What a node that holds no shard answers to a search.
pub fn empty_answer() -> (answer: Json)
    ensures
        answer@ == answer_without_shards(),
{
    let none: Vec<Json> = Vec::new();
    let ghost listed = json::models(none@);
    let parts: Vec<(String, Json)> = vec![
        entry("hits", Json::list(none)),
        entry("hits_returned", Json::count(0)),
        entry("total_hits", Json::count(0)),
        entry("took_ms", Json::count(0)),
    ];
    proof {
        assert(listed =~= Seq::empty());
        assert(json::entry_models(parts@) =~= seq![
            ("hits"@, JsonV::Array(Seq::empty())),
            ("hits_returned"@, count_value(0)),
            ("total_hits"@, count_value(0)),
            ("took_ms"@, count_value(0)),
        ]);
    }
    Json::object(parts)
}

/// The projection to answer with, or why the search is refused before any shard is asked.
///
/// A sort the index cannot answer fails in every shard, and a gather would report that as a
/// partial failure. It is refused here instead, as the bad request it is.
pub fn prepare_search(
    schema: &IndexSchema,
    fields: &Option<Vec<String>>,
    sort: Option<&SortSpec>,
) -> (prepared: Result<Option<Vec<String>>, OrchestratorError>)
    ensures
        match prepared {
            Ok(names) => {
                &&& (sort matches Some(spec) ==> sort_refusal(schema@, spec.field@) is None)
                &&& match *fields {
                    Some(list) => opt_texts(names) == Some(carried_names(schema@, text::texts(list@))),
                    None => names is None,
                }
            },
            Err(refusal) => sort matches Some(spec) && sort_refusal(schema@, spec.field@) == Some(
                refusal@,
            ),
        },
{
    if let Some(refusal) = unsortable_sort_field(schema, sort) {
        return Err(refusal);
    }
    match fields {
        Some(list) => Ok(Some(normalize_projection_fields(schema, list))),
        None => Ok(None),
    }
}

/// Whether an outcome is what a search whose shards answered this way comes to.
pub open spec fn is_search_outcome(
    outcome: Result<Json, OrchestratorError>,
    index: Seq<char>,
    known: GatherV,
    shards: nat,
    schema: SchemaV,
    window: SearchWindow,
    fields: Option<Seq<Seq<char>>>,
    sort: Option<&SortSpec>,
    took_ms: u64,
) -> bool {
    let refusal = errors::gather_refusal(index, known.answered, known.failures);
    if refusal is Some {
        outcome matches Err(error) && refusal == Some(error@)
    } else if known.emptied {
        outcome matches Err(error) && error@ == ErrorV::UnrunnableQuery(
            text::joined(errors::distinct_in_order(known.notes), "; "@),
        )
    } else {
        outcome matches Ok(answer) && exists|ranked: Seq<ShardHitV>, order: Seq<int>| #[trigger]
            is_answer(
                answer@,
                known,
                shards,
                schema,
                window,
                fields,
                sort,
                took_ms,
                ranked,
                order,
            )
    }
}

/// Answers a search from what the shards of a node answered.
///
/// Where nothing ran, the search is refused rather than answered with the empty page that a
/// partial outage would produce. Where nothing of the query survived the parse in some shard, it
/// is refused too: the zero it produces is not a negative result. Otherwise the hits are ranked,
/// the window is taken once, and only then does a projection drop what was not asked for.
pub fn answer_search(
    index: &str,
    schema: &IndexSchema,
    window: SearchWindow,
    fields: &Option<Vec<String>>,
    sort: Option<&SortSpec>,
    outcomes: Vec<(u128, ShardOutcome)>,
    took_ms: u64,
) -> (outcome: Result<Json, OrchestratorError>)
    requires
        gathered(outcomes@).total <= usize::MAX,
    ensures
        is_search_outcome(
            outcome,
            index@,
            gathered(outcomes@),
            outcomes@.len(),
            schema@,
            window,
            opt_texts(*fields),
            sort,
            took_ms,
        ),
{
    let ghost known = gathered(outcomes@);
    let shards: usize = outcomes.len();
    let gather: Gather = gather_outcomes(outcomes);
    if let Some(refusal) = no_shard_answered(index, gather.answered, &gather.failures) {
        return Err(refusal);
    }
    if gather.emptied {
        return Err(
            OrchestratorError::UnrunnableQuery { notes: join_texts(&gather.discarded, "; ") },
        );
    }
    let mut gather = gather;
    let mut hits: Vec<(u128, Score, Json)> = Vec::new();
    std::mem::swap(&mut gather.hits, &mut hits);
    if let Some(spec) = sort {
        stamp_sort_keys(&mut hits, spec, schema);
    }
    assert(hits::shard_hits(hits@) == keyed(known.hits, sort, schema@));
    let ghost unranked = hits::shard_hits(hits@);
    order_shard_hits(&mut hits, sort);
    let ghost ranked = hits::shard_hits(hits@);
    let ghost order = choose|order: Seq<int>| #[trigger]
        hits::is_shard_order(ranked, unranked, hits::direction(sort), order);
    let ghost all = hits@;
    let page: Vec<(u128, Score, Json)> = window.apply(hits);
    assert(hits::shard_hits(hits::window_of(all, window)) =~= hits::window_of(hits::shard_hits(all), window));
    let shown_hits: Vec<Json> = show_hits(page, fields);
    let errors: Vec<String> = shard_error_notes(&gather.failures);
    let mut answer: Json = write_body(
        shown_hits,
        window,
        took_ms,
        shards,
        &gather,
        Ghost(known),
    );
    attach_shard_errors(&mut answer, errors);
    let mut unknown: Vec<String> = unknown_projection_fields(schema, fields);
    let ghost missing = text::texts(unknown@);
    let ghost noted = text::texts(gather.discarded@);
    let mut discarded: Vec<String> = gather.discarded;
    let ghost listed = discarded@ + unknown@;
    discarded.append(&mut unknown);
    assert(text::texts(listed) =~= noted + missing);
    attach_discarded(&mut answer, discarded);
    attach_approximate_sort(&mut answer, gather.approximate);
    assert(is_answer(
        answer@,
        known,
        shards as nat,
        schema@,
        window,
        opt_texts(*fields),
        sort,
        took_ms,
        ranked,
        order,
    ));
    Ok(answer)
}

} // verus!
