//! How an index comes to know its fields.

use vstd::prelude::*;
use vstd::string::*;
use crate::{json, schema, validation};
use crate::json::Json;
use crate::ops::{DocPayload, DocV};
use crate::schema::{FieldDef, FieldV, IndexSchema, SchemaV, TantivyFieldType};
use crate::text::same_text;
use crate::validation::{SchemaValidationResult, StoreRefusals, VerdictV, validate_document};

verus! {

/// How many documents of a first load are looked at for the types of its fields.
pub const SCHEMA_SAMPLE_LIMIT: usize = 200;

/// The largest batch that is validated where it arrives rather than fanned out.
pub const INLINE_VALIDATION_MAX_DOCS: usize = 64;

/// Documents, as values of the model.
pub open spec fn doc_models(docs: Seq<DocPayload>) -> Seq<DocV> {
    docs.map_values(|doc: DocPayload| doc@)
}

// ---------------------------------------------------------------------------
// The first load
// ---------------------------------------------------------------------------

/// A field made searchable because its index is about to be built.
pub open spec fn made_searchable(name: Seq<char>, field: FieldV) -> FieldV {
    if field.is_shadow {
        field
    } else {
        FieldV { indexed: true, stored: name == "id"@, ..field }
    }
}

/// Fields made searchable because their index is about to be built.
pub open spec fn all_made_searchable(fields: Seq<(Seq<char>, FieldV)>) -> Seq<
    (Seq<char>, FieldV),
> {
    fields.map_values(
        |field: (Seq<char>, FieldV)| (field.0, made_searchable(field.0, field.1)),
    )
}

/// Makes every field of a not-yet-created index searchable, apart from other names for the key.
///
/// The search index is fixed when it is created, so this is the last moment a field can be made
/// searchable. Only the document key is kept in it: hits are rebuilt from the stored documents.
pub fn mark_initial_fields_indexed(schema: &mut IndexSchema)
    ensures
        final(schema)@ == (SchemaV {
            fields: all_made_searchable(old(schema)@.fields),
            ..old(schema)@
        }),
{
    let ghost start = schema@;
    let mut i: usize = 0;
    while i < schema.fields.len()
        invariant
            i <= schema.fields.len(),
            schema.fields@.len() == start.fields.len(),
            schema@.routing_field == start.routing_field,
            schema@.description == start.description,
            forall|k: int|
                0 <= k < i ==> #[trigger] schema::field_models(schema.fields@)[k] == all_made_searchable(
                    start.fields,
                )[k],
            forall|k: int|
                i <= k < start.fields.len() ==> #[trigger] schema::field_models(schema.fields@)[k]
                    == start.fields[k],
        decreases schema.fields.len() - i,
    {
        let ghost before = schema.fields@;
        assert(schema::field_models(before)[i as int] == start.fields[i as int]);
        let name: String = schema.fields[i].0.clone();
        let mut field: FieldDef = schema.fields[i].1.clone();
        if !field.is_shadow {
            field.indexed = true;
            field.stored = same_text(name.as_str(), "id");
        }
        assert(field@ == made_searchable(name@, before[i as int].1@));
        let ghost marked = (name@, field@);
        schema.fields.set(i, (name, field));
        assert(schema::field_models(schema.fields@) =~= schema::field_models(before).update(i as int, marked));
        i += 1;
    }
    assert(schema::field_models(schema.fields@) =~= all_made_searchable(start.fields));
}

/// The documents of a load that are looked at.
pub open spec fn sample_of(docs: Seq<DocPayload>, limit: usize) -> Seq<DocPayload> {
    if limit < docs.len() {
        docs.take(limit as int)
    } else {
        docs
    }
}

/// Whether a store that knows one schema may come to know another from a document.
pub open spec fn may_learn<F: Fn(IndexSchema, &Json) -> IndexSchema>(
    learn: F,
    before: IndexSchema,
    doc: DocPayload,
    after: IndexSchema,
) -> bool {
    call_ensures(learn, (before, &doc.doc), after)
}

/// Whether schemas are what a store that knows nothing comes to know from documents, one document
/// after the other.
pub open spec fn is_course<F: Fn(IndexSchema, &Json) -> IndexSchema>(
    learn: F,
    docs: Seq<DocPayload>,
    course: Seq<IndexSchema>,
) -> bool {
    &&& course.len() == docs.len() + 1
    &&& course[0]@ == (SchemaV { fields: Seq::empty(), routing_field: None, description: None })
    &&& forall|i: int|
        0 <= i < docs.len() ==> may_learn(learn, course[i], #[trigger] docs[i], course[i + 1])
}

/// Whether a schema is what the first documents of a load show, for an index that is about to be
/// created: what the store learns from them, made searchable.
pub open spec fn is_sampled<F: Fn(IndexSchema, &Json) -> IndexSchema>(
    learn: F,
    docs: Seq<DocPayload>,
    limit: usize,
    sampled: SchemaV,
) -> bool {
    exists|course: Seq<IndexSchema>| #[trigger]
        is_course(learn, sample_of(docs, limit), course) && sampled == (SchemaV {
            fields: all_made_searchable(course.last()@.fields),
            ..course.last()@
        })
}

/// Declares what the first documents of a load show, for an index that is about to be created.
///
/// `learn` is how the store learns from one document. It declares a field it did not know as one that
/// no query reaches, which is right for its usual caller and not here.
pub fn enhanced_schema_sampling<F: Fn(IndexSchema, &Json) -> IndexSchema>(
    docs: &Vec<DocPayload>,
    sample_limit: usize,
    learn: F,
) -> (schema: IndexSchema)
    requires
        forall|schema: IndexSchema, doc: &Json| #[trigger] call_requires(learn, (schema, doc)),
    ensures
        is_sampled(learn, docs@, sample_limit, schema@),
{
    let mut schema: IndexSchema = IndexSchema::default();
    let ghost mut course: Seq<IndexSchema> = seq![schema];
    let mut sampled: usize = 0;
    proof {
        assert(schema@.fields =~= Seq::empty());
        assert(docs@.take(0) =~= Seq::empty());
    }
    while sampled < docs.len() && sampled < sample_limit
        invariant
            sampled <= docs.len(),
            sampled <= sample_limit,
            forall|schema: IndexSchema, doc: &Json| #[trigger] call_requires(learn, (schema, doc)),
            is_course(learn, docs@.take(sampled as int), course),
            course.last() == schema,
        decreases docs.len() - sampled,
    {
        let ghost before = course;
        let ghost known = schema;
        schema = learn(schema, &docs[sampled].doc);
        proof {
            let longer = docs@.take(sampled + 1);
            assert(may_learn(learn, known, docs@[sampled as int], schema));
            course = before.push(schema);
            assert forall|i: int| 0 <= i < longer.len() implies may_learn(
                learn,
                course[i],
                #[trigger] longer[i],
                course[i + 1],
            ) by {
                if i < sampled {
                    assert(docs@.take(sampled as int)[i] == longer[i]);
                }
            }
        }
        sampled += 1;
    }
    proof {
        assert(docs@.take(sampled as int) =~= sample_of(docs@, sample_limit));
    }
    let ghost learned = schema@;
    mark_initial_fields_indexed(&mut schema);
    proof {
        assert(is_course(learn, sample_of(docs@, sample_limit), course));
        assert(course.last()@ == learned);
    }
    schema
}

/// What a load found before any of its documents is judged.
#[derive(Debug, Clone, Copy, PartialEq, Eq, Structural)]
pub struct Opening {
    /// Whether the index is being created by this load.
    pub is_initial_creation: bool,
    /// Whether what the index declares has to be saved before anything is written.
    pub must_persist: bool,
}

/// Whether a schema that declared nothing is one that a load has taught.
pub open spec fn is_taught<F: Fn(IndexSchema, &Json) -> IndexSchema>(
    learn: F,
    docs: Seq<DocPayload>,
    before: SchemaV,
    after: SchemaV,
) -> bool {
    exists|sampled: SchemaV| #[trigger]
        is_sampled(learn, docs, SCHEMA_SAMPLE_LIMIT, sampled) && after == (SchemaV {
            fields: sampled.fields,
            ..before
        })
}

/// Opens a load: an index that declares nothing is taught by the load itself.
///
/// What was learned has to be saved before the load reaches a shard, because the search index is
/// fixed by what is saved when it is created.
pub fn open_load<F: Fn(IndexSchema, &Json) -> IndexSchema>(
    docs: &Vec<DocPayload>,
    schema: &mut IndexSchema,
    learn: F,
) -> (opening: Opening)
    requires
        forall|schema: IndexSchema, doc: &Json| #[trigger] call_requires(learn, (schema, doc)),
    ensures
        opening.is_initial_creation == (docs@.len() > 0 && old(schema)@.fields.len() == 0),
        !opening.is_initial_creation ==> final(schema)@ == old(schema)@,
        opening.is_initial_creation ==> is_taught(learn, docs@, old(schema)@, final(schema)@),
        opening.must_persist == (opening.is_initial_creation && final(schema)@.fields.len() > 0),
{
    if docs.len() == 0 || schema.fields.len() > 0 {
        return Opening { is_initial_creation: false, must_persist: false };
    }
    let sampled: IndexSchema = enhanced_schema_sampling(docs, SCHEMA_SAMPLE_LIMIT, learn);
    let ghost shown = sampled@;
    let count: usize = sampled.fields.len();
    schema.fields = sampled.fields;
    proof {
        assert(is_sampled(learn, docs@, SCHEMA_SAMPLE_LIMIT, shown));
    }
    Opening { is_initial_creation: true, must_persist: count > 0 }
}

// ---------------------------------------------------------------------------
// Judging a batch
// ---------------------------------------------------------------------------

/// What a batch of documents was judged to be.
#[derive(Debug, Clone, PartialEq, Eq)]
pub struct SchemaValidationSummary {
    pub total_docs: usize,
    pub valid_docs: usize,
    pub evolution_needed: bool,
    /// The fields the index has yet to hear of, each with each of its types once.
    pub all_new_fields: Vec<(String, TantivyFieldType)>,
    /// Each document that failed, by its position in the batch, with the reason.
    pub errors: Vec<(usize, String)>,
}

/// Verdicts, as values of the model.
pub open spec fn verdict_models(results: Seq<SchemaValidationResult>) -> Seq<VerdictV> {
    results.map_values(|result: SchemaValidationResult| result@)
}

/// Positions and reasons, as values of the model.
pub open spec fn error_models(errors: Seq<(usize, String)>) -> Seq<(int, Seq<char>)> {
    errors.map_values(|error: (usize, String)| (error.0 as int, error.1@))
}

/// The failures among verdicts, by position.
pub open spec fn failures_among(verdicts: Seq<VerdictV>) -> Seq<(int, Seq<char>)>
    decreases verdicts.len(),
{
    if verdicts.len() == 0 {
        Seq::empty()
    } else {
        let before = failures_among(verdicts.drop_last());
        match verdicts.last().error {
            Some(why) => before.push((verdicts.len() - 1, why)),
            None => before,
        }
    }
}

/// Entries added to a list that does not hold them yet.
pub open spec fn with_new(
    list: Seq<(Seq<char>, TantivyFieldType)>,
    more: Seq<(Seq<char>, TantivyFieldType)>,
) -> Seq<(Seq<char>, TantivyFieldType)>
    decreases more.len(),
{
    if more.len() == 0 {
        list
    } else {
        let before = with_new(list, more.drop_last());
        if before.contains(more.last()) {
            before
        } else {
            before.push(more.last())
        }
    }
}

/// The fields that documents which can be written bring.
pub open spec fn brought_fields(verdicts: Seq<VerdictV>) -> Seq<(Seq<char>, TantivyFieldType)>
    decreases verdicts.len(),
{
    if verdicts.len() == 0 {
        Seq::empty()
    } else {
        let before = brought_fields(verdicts.drop_last());
        let last = verdicts.last();
        if last.error is None && last.needs_evolution {
            with_new(before, last.new_fields)
        } else {
            before
        }
    }
}

/// Whether any document that can be written brings a field.
pub open spec fn brings_fields(verdicts: Seq<VerdictV>) -> bool {
    exists|i: int|
        0 <= i < verdicts.len() && (#[trigger] verdicts[i]).error is None
            && verdicts[i].needs_evolution
}

/// Adds a name and type to a list that does not hold them yet.
fn push_new(list: &mut Vec<(String, TantivyFieldType)>, name: &String, field_type: TantivyFieldType)
    ensures
        validation::typed_names(final(list)@) == (if validation::typed_names(old(list)@).contains((name@, field_type)) {
            validation::typed_names(old(list)@)
        } else {
            validation::typed_names(old(list)@).push((name@, field_type))
        }),
{
    let ghost before = list@;
    let mut i: usize = 0;
    while i < list.len()
        invariant
            i <= list.len(),
            list@ == before,
            forall|k: int| 0 <= k < i ==> validation::typed_names(before)[k] != (name@, field_type),
        decreases list.len() - i,
    {
        if list[i].1 == field_type && same_text(list[i].0.as_str(), name.as_str()) {
            assert(validation::typed_names(before)[i as int] == (name@, field_type));
            return;
        }
        i += 1;
    }
    list.push((name.clone(), field_type));
    assert(validation::typed_names(list@) =~= validation::typed_names(before).push((name@, field_type)));
}

/// Sums up the verdicts on a batch.
///
/// A verdict's place is the place of the document it judged. Every document is either valid or has
/// its reason.
pub fn summarize(results: &Vec<SchemaValidationResult>) -> (summary: SchemaValidationSummary)
    ensures
        summary.total_docs == results@.len(),
        error_models(summary.errors@) == failures_among(verdict_models(results@)),
        summary.valid_docs + summary.errors@.len() == summary.total_docs,
        summary.evolution_needed == brings_fields(verdict_models(results@)),
        validation::typed_names(summary.all_new_fields@) == brought_fields(verdict_models(results@)),
{
    let ghost all = verdict_models(results@);
    let mut valid_docs: usize = 0;
    let mut evolution_needed: bool = false;
    let mut all_new_fields: Vec<(String, TantivyFieldType)> = Vec::new();
    let mut errors: Vec<(usize, String)> = Vec::new();
    let mut i: usize = 0;
    assert(error_models(errors@) =~= failures_among(all.take(0)));
    assert(validation::typed_names(all_new_fields@) =~= brought_fields(all.take(0)));
    while i < results.len()
        invariant
            i <= results.len(),
            all == verdict_models(results@),
            valid_docs + errors@.len() == i,
            error_models(errors@) == failures_among(all.take(i as int)),
            evolution_needed == brings_fields(all.take(i as int)),
            validation::typed_names(all_new_fields@) == brought_fields(all.take(i as int)),
        decreases results.len() - i,
    {
        let result: &SchemaValidationResult = &results[i];
        let ghost so_far = all.take(i + 1);
        proof {
            assert(so_far.drop_last() =~= all.take(i as int));
            assert(so_far.last() == result@);
            if brings_fields(all.take(i as int)) {
                let k = choose|k: int|
                    0 <= k < i && (#[trigger] all.take(i as int)[k]).error is None && all.take(
                        i as int,
                    )[k].needs_evolution;
                assert(so_far[k] == all.take(i as int)[k]);
            }
            if brings_fields(so_far) {
                let k = choose|k: int|
                    0 <= k < so_far.len() && (#[trigger] so_far[k]).error is None
                        && so_far[k].needs_evolution;
                if k < i {
                    assert(all.take(i as int)[k] == so_far[k]);
                }
            }
        }
        match &result.validation_error {
            Some(why) => {
                let ghost before = errors@;
                errors.push((i, why.clone()));
                assert(error_models(errors@) =~= error_models(before).push((i as int, why@)));
            },
            None => {
                valid_docs += 1;
                if result.needs_evolution {
                    evolution_needed = true;
                    assert(so_far[i as int] == result@);
                    let ghost before = validation::typed_names(all_new_fields@);
                    let ghost added = validation::typed_names(result.new_fields@);
                    let mut j: usize = 0;
                    assert(added.take(0) =~= Seq::empty());
                    while j < result.new_fields.len()
                        invariant
                            j <= result.new_fields.len(),
                            added == validation::typed_names(result.new_fields@),
                            validation::typed_names(all_new_fields@) == with_new(before, added.take(j as int)),
                        decreases result.new_fields.len() - j,
                    {
                        proof {
                            assert(added.take(j + 1).drop_last() =~= added.take(j as int));
                            assert(added.take(j + 1).last() == added[j as int]);
                        }
                        push_new(
                            &mut all_new_fields,
                            &result.new_fields[j].0,
                            result.new_fields[j].1,
                        );
                        j += 1;
                    }
                    assert(added.take(result.new_fields.len() as int) =~= added);
                }
            },
        }
        i += 1;
    }
    assert(all.take(results.len() as int) =~= all);
    SchemaValidationSummary {
        total_docs: results.len(),
        valid_docs,
        evolution_needed,
        all_new_fields,
        errors,
    }
}

/// Judges every document of a batch, each by itself and in order.
///
/// Where the work runs is decided by [`validates_inline`] and by nothing else: a document gets the
/// same verdict in a batch of one and in a batch of ten thousand.
pub fn validate_documents(
    docs: &Vec<DocPayload>,
    schema: &IndexSchema,
    refusals: &StoreRefusals,
) -> (results: Vec<SchemaValidationResult>)
    ensures
        results@.len() == docs@.len(),
        forall|i: int|
            0 <= i < docs@.len() ==> validation::is_verdict(
                (#[trigger] results@[i])@,
                docs@[i].id@,
                docs@[i].doc@,
                schema@,
                refusals@,
            ),
{
    let mut results: Vec<SchemaValidationResult> = Vec::new();
    let mut i: usize = 0;
    while i < docs.len()
        invariant
            i <= docs.len(),
            results@.len() == i,
            forall|k: int|
                0 <= k < i ==> validation::is_verdict(
                    (#[trigger] results@[k])@,
                    docs@[k].id@,
                    docs@[k].doc@,
                    schema@,
                    refusals@,
                ),
        decreases docs.len() - i,
    {
        results.push(validate_document(docs[i].id.as_str(), &docs[i].doc, schema, refusals));
        i += 1;
    }
    results
}

/// Whether a batch is small enough to be judged where it arrives.
pub fn validates_inline(docs: usize) -> (inline: bool)
    ensures
        inline == (docs <= INLINE_VALIDATION_MAX_DOCS),
{
    docs <= INLINE_VALIDATION_MAX_DOCS
}

// ---------------------------------------------------------------------------
// Later fields
// ---------------------------------------------------------------------------

/// Fields after the ones that were not declared are added: searchable only while the index is
/// being created.
pub open spec fn grown(
    fields: Seq<(Seq<char>, FieldV)>,
    new_fields: Seq<(Seq<char>, TantivyFieldType)>,
    is_initial_creation: bool,
) -> Seq<(Seq<char>, FieldV)>
    decreases new_fields.len(),
{
    if new_fields.len() == 0 {
        fields
    } else {
        let before = grown(fields, new_fields.drop_last(), is_initial_creation);
        let (name, field_type) = new_fields.last();
        if json::has_key(fields, name) {
            before
        } else {
            json::with_entry(
                before,
                name,
                FieldV { indexed: is_initial_creation, ..schema::plain_field(name, field_type) },
            )
        }
    }
}

/// Whether any of several fields is not declared.
pub open spec fn names_new(
    fields: Seq<(Seq<char>, FieldV)>,
    new_fields: Seq<(Seq<char>, TantivyFieldType)>,
) -> bool {
    exists|i: int| 0 <= i < new_fields.len() && !json::has_key(fields, (#[trigger] new_fields[i]).0)
}

/// Adds the fields that validation discovered. Says whether there were any to add, in which case
/// what the index declares has to be saved.
pub fn evolve_schema(
    schema: &mut IndexSchema,
    new_fields: &Vec<(String, TantivyFieldType)>,
    is_initial_creation: bool,
) -> (must_persist: bool)
    ensures
        final(schema)@ == (SchemaV {
            fields: grown(old(schema)@.fields, validation::typed_names(new_fields@), is_initial_creation),
            ..old(schema)@
        }),
        must_persist == names_new(old(schema)@.fields, validation::typed_names(new_fields@)),
        old(schema)@.well_formed() ==> final(schema)@.well_formed(),
{
    let known: IndexSchema = schema.clone();
    let ghost start = schema@;
    let ghost all = validation::typed_names(new_fields@);
    let mut must_persist: bool = false;
    let mut i: usize = 0;
    assert(all.take(0) =~= Seq::empty());
    while i < new_fields.len()
        invariant
            i <= new_fields.len(),
            all == validation::typed_names(new_fields@),
            known@ == start,
            schema@ == (SchemaV {
                fields: grown(start.fields, all.take(i as int), is_initial_creation),
                ..start
            }),
            must_persist == names_new(start.fields, all.take(i as int)),
            start.well_formed() ==> schema@.well_formed(),
        decreases new_fields.len() - i,
    {
        let name: &String = &new_fields[i].0;
        let ghost so_far = all.take(i + 1);
        proof {
            assert(so_far.drop_last() =~= all.take(i as int));
            assert(so_far.last() == (name@, new_fields@[i as int].1));
            if names_new(start.fields, all.take(i as int)) {
                let k = choose|k: int|
                    0 <= k < i && !json::has_key(start.fields, (#[trigger] all.take(i as int)[k]).0);
                assert(so_far[k] == all.take(i as int)[k]);
            }
            if names_new(start.fields, so_far) {
                let k = choose|k: int|
                    0 <= k < so_far.len() && !json::has_key(start.fields, (#[trigger] so_far[k]).0);
                if k < i {
                    assert(all.take(i as int)[k] == so_far[k]);
                }
            }
        }
        if known.field(name.as_str()).is_none() {
            let mut field: FieldDef = FieldDef::new(name.clone(), new_fields[i].1);
            field.indexed = is_initial_creation;
            schema.put_field(name.as_str(), field);
            must_persist = true;
            assert(!json::has_key(start.fields, so_far[i as int].0));
        }
        i += 1;
    }
    assert(all.take(new_fields.len() as int) =~= all);
    must_persist
}

/// Growing never touches a field that is declared, and declares every field that was not.
pub proof fn law_growing_keeps_what_is_declared(
    fields: Seq<(Seq<char>, FieldV)>,
    new_fields: Seq<(Seq<char>, TantivyFieldType)>,
    is_initial_creation: bool,
    name: Seq<char>,
)
    ensures
        json::has_key(fields, name) ==> json::value_under(
            grown(fields, new_fields, is_initial_creation),
            name,
        ) == json::value_under(fields, name),
        !json::has_key(fields, name) && (exists|i: int|
            0 <= i < new_fields.len() && (#[trigger] new_fields[i]).0 == name) ==> (json::value_under(
            grown(fields, new_fields, is_initial_creation),
            name,
        ) matches Some(field) && field.indexed == is_initial_creation),
    decreases new_fields.len(),
{
    if new_fields.len() > 0 {
        let front = new_fields.drop_last();
        let (last, field_type) = new_fields.last();
        law_growing_keeps_what_is_declared(fields, front, is_initial_creation, name);
        let before = grown(fields, front, is_initial_creation);
        if !json::has_key(fields, last) {
            json::lemma_with_entry_read_back(
                before,
                last,
                FieldV { indexed: is_initial_creation, ..schema::plain_field(last, field_type) },
                name,
            );
        }
        if name != last && (exists|i: int|
            0 <= i < new_fields.len() && (#[trigger] new_fields[i]).0 == name) {
            let i = choose|i: int| 0 <= i < new_fields.len() && (#[trigger] new_fields[i]).0 == name;
            assert(front[i] == new_fields[i]);
        }
    }
}

/// Whether every field can be searched, and only the document key is kept in the search index, apart
/// from other names for the key.
pub open spec fn all_searchable(fields: Seq<(Seq<char>, FieldV)>) -> bool {
    forall|i: int|
        0 <= i < fields.len() && !(#[trigger] fields[i]).1.is_shadow ==> fields[i].1.indexed
            && fields[i].1.stored == (fields[i].0 == "id"@)
}

/// One load makes one kind of field: whatever the load that creates an index brings, among the
/// documents that are looked at first or behind them, can be searched, and nothing of it but the
/// document key is kept in the search index.
pub proof fn law_a_new_index_searches_every_field(
    learned: Seq<(Seq<char>, FieldV)>,
    new_fields: Seq<(Seq<char>, TantivyFieldType)>,
)
    ensures
        all_searchable(grown(all_made_searchable(learned), new_fields, true)),
    decreases new_fields.len(),
{
    let fields = all_made_searchable(learned);
    if new_fields.len() > 0 {
        law_a_new_index_searches_every_field(learned, new_fields.drop_last());
        let before = grown(fields, new_fields.drop_last(), true);
        json::lemma_key_place(before, new_fields.last().0);
    }
}

/// Closes a load's judgement: where documents bring fields, the index learns them. Says whether
/// what it declares has to be saved.
pub fn close_judgement(
    schema: &mut IndexSchema,
    summary: &SchemaValidationSummary,
    is_initial_creation: bool,
) -> (must_persist: bool)
    ensures
        final(schema)@ == (if summary.evolution_needed {
            SchemaV {
                fields: grown(
                    old(schema)@.fields,
                    validation::typed_names(summary.all_new_fields@),
                    is_initial_creation,
                ),
                ..old(schema)@
            }
        } else {
            old(schema)@
        }),
        must_persist == (summary.evolution_needed && names_new(
            old(schema)@.fields,
            validation::typed_names(summary.all_new_fields@),
        )),
        old(schema)@.well_formed() ==> final(schema)@.well_formed(),
{
    if summary.evolution_needed {
        evolve_schema(schema, &summary.all_new_fields, is_initial_creation)
    } else {
        false
    }
}

} // verus!
