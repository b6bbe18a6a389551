//! What callers get back, stated of whatever the functions return.

use vstd::prelude::*;
use crate::{
    broadcast, bulk, bulk_delete, errors, evolution, governance, growth_laws, hits, json, node,
    placement, resources, router, routing, schema_laws, search, search_laws, text, tool_search,
    validation, write_laws, writer, writer_round,
};
use crate::broadcast::RemoteStep;
use crate::bulk::Placed;
use crate::errors::{ErrorV, IoKind, OrchestratorError, StoreError};
use crate::evolution::SchemaValidationSummary;
use crate::governance::{Caller, ToolCall, ToolRecord};
use crate::hits::{SearchWindow, ShardHitV, SortOrder, SortSpec};
use crate::json::{Json, JsonV};
use crate::ops::{DeletePayload, DocPayload, SearchRequest, WriteRequest};
use crate::placement::{CoreLayout, PoolPlan};
use crate::resources::ResourceRead;
use crate::router::WriteStep;
use crate::schema::{IndexSchema, TantivyFieldType};
use crate::search::ShardOutcome;
use crate::text::Standing;
use crate::validation::{SchemaValidationResult, StoreRefusals};
use crate::writer::WalOp;

verus! {

// ---------------------------------------------------------------------------
// Searches
// ---------------------------------------------------------------------------

/// Whether a hit shows a reported one: under the score that the shard gave it, with what its document
/// holds of the fields that are asked for, and nothing of the others.
pub open spec fn shows_reported(
    hit: JsonV,
    outcomes: Seq<(u128, ShardOutcome)>,
    fields: Option<Vec<String>>,
    shard: int,
    place: int,
) -> bool {
    &&& 0 <= shard < outcomes.len()
    &&& outcomes[shard].1 matches Ok(reply) && 0 <= place < reply.hits@.len() && ({
        let reported = reply.hits@[place];
        reported.doc@ matches JsonV::Object(entries) ==> json::keys_distinct(entries) ==> {
            &&& reported.score.number matches Some(number) ==> hit.get("_score"@) == Some(
                JsonV::Number(number@),
            )
            &&& reported.score.number is None ==> hit.get("_score"@) == Some(JsonV::Null)
            &&& forall|key: Seq<char>|
                key != "_score"@ && key != "_sort_key"@ && (fields matches Some(list) ==> text::texts(
                    list@,
                ).contains(key)) ==> #[trigger] hit.get(key) == reported.doc@.get(key)
            &&& forall|key: Seq<char>|
                (fields matches Some(list) && !text::texts(list@).contains(key)) && (key.len() == 0
                    || key[0] != '_') ==> #[trigger] hit.get(key) is None
        }
    })
}

/// Whether a hit shows some reported one.
pub open spec fn shows_some(
    hit: JsonV,
    outcomes: Seq<(u128, ShardOutcome)>,
    fields: Option<Vec<String>>,
) -> bool {
    exists|shard: int, place: int| #[trigger] shows_reported(hit, outcomes, fields, shard, place)
}

/// Every hit that a search answers with is one that a shard reported, under its score and as its
/// document has it; there are no more of them than were asked for, and the answer counts them.
pub proof fn law_a_search_answers_with_what_was_reported(
    index: &str,
    schema: IndexSchema,
    window: SearchWindow,
    fields: Option<Vec<String>>,
    sort: Option<&SortSpec>,
    outcomes: Vec<(u128, ShardOutcome)>,
    took_ms: u64,
    outcome: Result<Json, OrchestratorError>,
)
    requires
        call_ensures(
            search::answer_search,
            (index, &schema, window, &fields, sort, outcomes, took_ms),
            outcome,
        ),
    ensures
        outcome matches Ok(answer) ==> {
            let shown = search_laws::hits_in(answer@);
            &&& forall|i: int|
                0 <= i < shown.len() ==> shows_some(#[trigger] shown[i], outcomes@, fields)
            &&& shown.len() <= window.limit
            &&& search_laws::is_count(answer@.get("hits_returned"@), shown.len())
            &&& search_laws::is_count(
                answer@.get("total_hits"@),
                crate::order::sum_of(search_laws::totals_of(outcomes@)),
            )
        },
        (outcomes@.len() > 0 && forall|i: int| 0 <= i < outcomes@.len() ==> (#[trigger] outcomes@[i]).1 is Err)
            ==> outcome is Err,
        (forall|i: int|
            0 <= i < outcomes@.len() ==> ((#[trigger] outcomes@[i]).1 matches Ok(reply)
                && !reply.emptied)) ==> outcome is Ok,
{
    let known = search::gathered(outcomes@);
    let names = search::opt_texts(fields);
    search_laws::law_what_is_gathered_was_reported(outcomes@);
    errors::law_a_gather_is_refused_exactly_when_nothing_answered(
        index@,
        known.answered,
        known.failures,
    );
    if let Ok(answer) = outcome {
        let (ranked, order) = choose|ranked: Seq<ShardHitV>, order: Seq<int>| #[trigger]
            search::is_answer(
                answer@,
                known,
                outcomes@.len(),
                schema@,
                window,
                names,
                sort,
                took_ms,
                ranked,
                order,
            );
        search_laws::law_an_answer_counts_what_there_is(
            outcomes@,
            answer@,
            schema@,
            window,
            names,
            sort,
            took_ms,
            ranked,
            order,
        );
        let shown = search_laws::hits_in(answer@);
        assert forall|i: int| 0 <= i < shown.len() implies shows_some(
            #[trigger] shown[i],
            outcomes@,
            fields,
        ) by {
            let origin = search_laws::law_a_hit_shows_its_score_and_its_document(
                outcomes@,
                answer@,
                schema@,
                window,
                names,
                sort,
                took_ms,
                ranked,
                order,
                i,
            );
            assert(shows_reported(shown[i], outcomes@, fields, origin.0, origin.1));
        }
    }
    if outcomes@.len() > 0 && forall|i: int|
        0 <= i < outcomes@.len() ==> (#[trigger] outcomes@[i]).1 is Err {
        assert(outcomes@[0].1 is Err);
        if known.answered > 0 {
            let s = choose|s: int| 0 <= s < outcomes@.len() && (#[trigger] outcomes@[s]).1 is Ok;
            assert(outcomes@[s].1 is Err);
        }
    }
    if forall|i: int|
        0 <= i < outcomes@.len() ==> ((#[trigger] outcomes@[i]).1 matches Ok(reply) && !reply.emptied) {
        if outcomes@.len() > 0 {
            assert(outcomes@[0].1 is Ok);
        }
        if known.emptied {
            let s = choose|s: int|
                0 <= s < outcomes@.len() && ((#[trigger] outcomes@[s]).1 matches Ok(reply)
                    && reply.emptied);
            assert(!(outcomes@[s].1->Ok_0.emptied));
        }
    }
}

/// By a field that holds texts, the hit that comes first is the one whose text comes first in a
/// dictionary, or last where the order is turned; by one that holds whole numbers, the smaller or the
/// larger. A hit without the field comes after one with it.
pub proof fn law_hits_stand_by_their_field(
    a: Json,
    b: Json,
    field: &str,
    order: SortOrder,
    standing: Standing,
)
    requires
        call_ensures(hits::stand_by_field, (&a, &b, field, order), standing),
    ensures
        (a@.get(field@), b@.get(field@)) matches (Some(JsonV::Text(x)), Some(JsonV::Text(y))) ==> {
            &&& order == SortOrder::Asc ==> (standing == Standing::Before <==> text::comes_before(x, y))
            &&& order == SortOrder::Desc ==> (standing == Standing::Before <==> text::comes_before(
                y,
                x,
            ))
            &&& standing == Standing::Level <==> x == y
        },
        (a@.get(field@), b@.get(field@)) matches (Some(x), Some(y)) ==> x.as_i64() is Some
            && y.as_i64() is Some ==> {
            &&& order == SortOrder::Asc ==> (standing == Standing::Before <==> x.as_i64()->0
                < y.as_i64()->0)
            &&& order == SortOrder::Desc ==> (standing == Standing::Before <==> x.as_i64()->0
                > y.as_i64()->0)
            &&& standing == Standing::Level <==> x.as_i64()->0 == y.as_i64()->0
        },
        a@.get(field@) is Some && b@.get(field@) is None ==> standing == Standing::Before,
        a@.get(field@) is None && b@.get(field@) is Some ==> standing == Standing::After,
        a@.get(field@) is None && b@.get(field@) is None ==> standing == Standing::Level,
{
    if let (Some(JsonV::Text(x)), Some(JsonV::Text(y))) = (a@.get(field@), b@.get(field@)) {
        text::law_texts_stand_as_in_a_dictionary(x, y);
    }
}

/// A search is prepared with the fields as documents bear them, and refused where its sort is.
pub proof fn law_a_search_is_prepared(
    schema: IndexSchema,
    fields: Option<Vec<String>>,
    sort: Option<&SortSpec>,
    prepared: Result<Option<Vec<String>>, OrchestratorError>,
)
    requires
        call_ensures(search::prepare_search, (&schema, &fields, sort), prepared),
    ensures
        prepared is Err <==> (sort matches Some(asked) && search::sort_refusal(
            schema@,
            asked.field@,
        ) is Some),
        prepared matches Err(error) ==> error@ is UnsortableField,
        prepared matches Ok(names) ==> {
            &&& fields is None ==> names is None
            &&& fields matches Some(list) ==> (names matches Some(carried) && carried@.len()
                == list@.len() && forall|i: int|
                0 <= i < list@.len() ==> (#[trigger] carried@[i])@ == (if list@[i]@ == "id"@ {
                    schema@.document_key()
                } else {
                    list@[i]@
                }))
        },
{
    if let Ok(names) = prepared {
        if let Some(list) = fields {
            let carried = names->0;
            let want = search::carried_names(schema@, text::texts(list@));
            assert(text::texts(carried@) == want);
            assert forall|i: int| 0 <= i < list@.len() implies (#[trigger] carried@[i])@ == (
            if list@[i]@ == "id"@ {
                schema@.document_key()
            } else {
                list@[i]@
            }) by {
                assert(text::texts(carried@)[i] == want[i]);
            }
            assert(text::texts(carried@).len() == want.len());
        }
    }
    if let Some(asked) = sort {
        crate::query_laws::law_a_sort_is_refused_where_nothing_can_sort(schema@, asked.field@);
    }
}

/// A shard is asked the same words of the same index, for as many hits as reach to the end of the page,
/// in the same order.
pub proof fn law_a_shard_is_asked_up_to_the_end_of_the_page(
    index: &str,
    query: &str,
    window: SearchWindow,
    sort: Option<&SortSpec>,
    request: SearchRequest,
)
    requires
        call_ensures(search::shard_search_request, (index, query, window, sort), request),
    ensures
        request.index@ == index@,
        request.query@ == query@,
        window.offset + window.limit <= usize::MAX ==> request.limit == Some(
            (window.offset + window.limit) as usize,
        ),
        sort is None ==> request.sort is None,
        sort matches Some(asked) ==> (request.sort matches Some(sent) && sent.field@ == asked.field@
            && sent.order == asked.order),
{
}

// ---------------------------------------------------------------------------
// Writes and removals
// ---------------------------------------------------------------------------

/// The documents of a batch that are not refused are placed, each once, at its own position, as it
/// came, and under the key that it goes by: what it holds in the routing field first, then what the
/// caller says, then its identifier.
pub proof fn law_documents_are_placed_by_what_they_hold(
    docs: Vec<DocPayload>,
    refused: Vec<(usize, String)>,
    schema: IndexSchema,
    placed: Vec<Placed>,
)
    requires
        call_ensures(bulk::place_documents, (docs, &refused, &schema), placed),
        docs@.len() <= usize::MAX,
    ensures
        forall|k: int|
            0 <= k < placed@.len() ==> is_placed_document(#[trigger] placed@[k], docs@, schema),
        forall|j: int, k: int|
            0 <= j < k < placed@.len() ==> (#[trigger] placed@[j]).position < (
            #[trigger] placed@[k]).position,
        forall|k: int, r: int|
            0 <= k < placed@.len() && 0 <= r < refused@.len() ==> (#[trigger] placed@[k]).position != (
            #[trigger] refused@[r]).0,
        forall|p: int|
            0 <= p < docs@.len() && (forall|r: int|
                0 <= r < refused@.len() ==> (#[trigger] refused@[r]).0 != p) ==> #[trigger] is_there(
                placed@,
                p,
            ),
{
    let positions = bulk::refused_positions(refused@);
    let models = bulk::placed_models(placed@);
    write_laws::law_a_batch_is_placed_document_by_document(schema@, docs@, positions);
    assert forall|k: int| 0 <= k < placed@.len() implies is_placed_document(
        #[trigger] placed@[k],
        docs@,
        schema,
    ) by {
        assert(models[k] == placed@[k]@);
        assert(write_laws::is_placed(models[k], schema@, docs@, positions));
    }
    assert forall|j: int, k: int| 0 <= j < k < placed@.len() implies (#[trigger] placed@[j]).position < (
    #[trigger] placed@[k]).position by {
        assert(models[j].position < models[k].position);
    }
    assert forall|k: int, r: int| 0 <= k < placed@.len() && 0 <= r < refused@.len() implies (
    #[trigger] placed@[k]).position != (#[trigger] refused@[r]).0 by {
        assert(write_laws::is_placed(models[k], schema@, docs@, positions));
        assert(positions[r] == refused@[r].0);
        assert(!positions.contains(models[k].position));
    }
    assert forall|p: int|
        0 <= p < docs@.len() && (forall|r: int|
            0 <= r < refused@.len() ==> (#[trigger] refused@[r]).0 != p) implies #[trigger] is_there(
        placed@,
        p,
    ) by {
        if positions.contains(p as usize) {
            let r = choose|r: int| 0 <= r < positions.len() && positions[r] == p as usize;
            assert(refused@[r].0 == p);
        }
        assert(write_laws::stands_among(models, p));
        let k = choose|k: int| 0 <= k < models.len() && (#[trigger] models[k]).position == p;
        assert(placed@[k].position == p);
    }
}

/// Whether a placed document is the one at its position, under the key that it goes by.
pub open spec fn is_placed_document(
    placed: Placed,
    docs: Seq<DocPayload>,
    schema: IndexSchema,
) -> bool {
    let p = placed.position as int;
    &&& 0 <= p < docs.len()
    &&& placed.doc.id@ == docs[p].id@
    &&& placed.doc.doc@ == docs[p].doc@
    &&& placed.routing_key matches Some(key) && write_laws::is_write_key(
        key@,
        schema@,
        docs[p].id@,
        match docs[p].routing_key {
            Some(given) => Some(given@),
            None => None,
        },
        docs[p].doc@,
    )
}

/// Whether the document at a position is placed.
pub open spec fn is_there(placed: Seq<Placed>, position: int) -> bool {
    exists|k: int| 0 <= k < placed.len() && (#[trigger] placed[k]).position == position
}

/// A removal goes by the key that its caller gives; without one by its identifier, where the index is
/// routed by it. One without an identifier has no key.
pub proof fn law_removals_go_by_the_callers_keys(
    docs: Vec<DeletePayload>,
    schema: IndexSchema,
    keys: Vec<Result<String, String>>,
    i: int,
)
    requires
        call_ensures(bulk_delete::keys_of_removals, (&docs, &schema), keys),
        0 <= i < docs@.len(),
    ensures
        keys@.len() == docs@.len(),
        docs@[i] matches DeletePayload::Keyed { id, routing_key: Some(given) } ==> !text::is_blank(id@)
            ==> (keys@[i] matches Ok(key) && key@ == given@),
        docs@[i] matches DeletePayload::Keyed { id, routing_key: None } ==> !text::is_blank(id@)
            && write_laws::routing_field(schema@) == "id"@ ==> (keys@[i] matches Ok(key) && key@ == id@),
        docs@[i] matches DeletePayload::Id(id) ==> !text::is_blank(id@) && write_laws::routing_field(
            schema@,
        ) == "id"@ ==> (keys@[i] matches Ok(key) && key@ == id@),
        docs@[i] matches DeletePayload::Id(id) ==> text::is_blank(id@) ==> keys@[i] is Err,
        docs@[i] matches DeletePayload::Keyed { id, .. } ==> text::is_blank(id@) ==> keys@[i] is Err,
{
    assert(bulk_delete::is_key(keys@[i], bulk_delete::removal_key(schema@, docs@[i]@)));
    write_laws::law_a_removal_of_a_batch_goes_as_it_goes_alone(schema@, docs@[i], keys@[i]);
    if let DeletePayload::Id(id) = docs@[i] {
        write_laws::law_a_removal_goes_by_the_callers_key(schema@, id@, None);
    }
    if let DeletePayload::Keyed { id, routing_key } = docs@[i] {
        write_laws::law_a_removal_goes_by_the_callers_key(schema@, id@, None);
    }
}

/// A write alone goes by what its document says, then by what the caller says, then by the identifier.
pub proof fn law_a_lone_write_goes_by_its_document(
    schema: IndexSchema,
    id: &str,
    given: Option<String>,
    doc: Json,
    key: Option<String>,
)
    requires
        call_ensures(routing::effective_routing_key, (&schema, id, given, &doc), key),
    ensures
        key matches Some(found) && write_laws::is_write_key(
            found@,
            schema@,
            id@,
            match given {
                Some(own) => Some(own@),
                None => None,
            },
            doc@,
        ),
{
    write_laws::law_a_write_goes_by_its_document(schema@, id@, errors::opt_text(given), doc@);
}

/// A removal alone goes by the key that its caller gives, and by the identifier where the index is
/// routed by it; otherwise it is refused as the caller's fault.
pub proof fn law_a_lone_removal_goes_by_the_callers_key(
    schema: IndexSchema,
    id: &str,
    given: Option<String>,
    key: Result<String, OrchestratorError>,
)
    requires
        call_ensures(routing::effective_delete_routing_key, (&schema, id, given), key),
    ensures
        given matches Some(own) ==> (key matches Ok(found) && found@ == own@),
        given is None && write_laws::routing_field(schema@) == "id"@ ==> (key matches Ok(found) && found@
            == id@),
        given is None && write_laws::routing_field(schema@) != "id"@ && !(schema@.field(
            write_laws::routing_field(schema@),
        ) matches Some(def) && def.is_shadow) ==> (key matches Err(error) && (error@ matches ErrorV::Io(
            kind,
            _,
        ) && kind == IoKind::InvalidInput)),
{
    write_laws::law_a_removal_goes_by_the_callers_key(schema@, id@, errors::opt_text(given));
}

/// A declared type holds a value of its own type, a keyword any text, and a whole number one with a
/// fraction; nothing else.
pub proof fn law_a_type_holds_its_own(
    declared: TantivyFieldType,
    inferred: TantivyFieldType,
    holds: bool,
)
    requires
        call_ensures(validation::scalar_type_is_storable, (&declared, &inferred), holds),
    ensures
        declared == inferred ==> holds,
        declared == TantivyFieldType::String && inferred == TantivyFieldType::Text ==> holds,
        declared == TantivyFieldType::I64 && inferred == TantivyFieldType::F64 ==> holds,
        declared == TantivyFieldType::U64 && inferred == TantivyFieldType::F64 ==> holds,
        declared != inferred && declared != TantivyFieldType::String && declared
            != TantivyFieldType::I64 && declared != TantivyFieldType::U64 ==> !holds,
        declared == TantivyFieldType::String && inferred != TantivyFieldType::Text && inferred
            != TantivyFieldType::String ==> !holds,
        declared == TantivyFieldType::I64 && inferred != TantivyFieldType::F64 && inferred
            != TantivyFieldType::I64 ==> !holds,
        declared == TantivyFieldType::U64 && inferred != TantivyFieldType::F64 && inferred
            != TantivyFieldType::U64 ==> !holds,
{
}

/// A date field holds a text that is a date, an address field one that is an address, a truth value
/// field a truth value, and a number field no text and no truth value.
pub proof fn law_a_value_is_stored_where_it_reads_as_its_type(
    field: &str,
    declared: TantivyFieldType,
    value: Json,
    refusals: StoreRefusals,
    why: Option<String>,
)
    requires
        call_ensures(validation::unstorable_value, (field, &declared, &value, &refusals), why),
    ensures
        value@ is Null ==> why is None,
        declared == TantivyFieldType::Text || declared == TantivyFieldType::Json ==> why is None,
        declared == TantivyFieldType::Date ==> (value@ matches JsonV::Text(words) ==> (why is None
            <==> validation::date_secs(words) is Some)),
        declared == TantivyFieldType::Ip ==> (value@ matches JsonV::Text(words) ==> (why is None
            <==> crate::ip::is_address(words) && validation::date_secs(words) is None)),
        declared == TantivyFieldType::Boolean && !(value@ is Null) && !(value@ is Array) ==> (why is None
            <==> value@ is Bool),
        (declared == TantivyFieldType::I64 || declared == TantivyFieldType::U64 || declared
            == TantivyFieldType::F64) && (value@ is Text || value@ is Bool || value@ is Object)
            ==> why is Some,
        declared == TantivyFieldType::Date && (value@ is Number || value@ is Bool || value@ is Object)
            ==> why is Some,
{
    if !(value@ is Null) && !(value@ is Array) {
        schema_laws::law_a_field_holds_values_of_its_type(field@, declared, value@, refusals@);
    }
}

/// A write is refused on a node without shards, grows a schema that knows nothing, and goes by its key
/// where it can be written as it is.
pub proof fn law_a_write_is_judged_before_it_is_written(
    has_shards: bool,
    schema: IndexSchema,
    id: &str,
    given: Option<String>,
    doc: Json,
    refusals: StoreRefusals,
    step: Result<WriteStep, OrchestratorError>,
)
    requires
        call_ensures(
            router::judge_write,
            (has_shards, &schema, id, given, &doc, &refusals),
            step,
        ),
    ensures
        !has_shards ==> (step matches Err(error) && (error@ matches ErrorV::Io(kind, _) && kind
            == IoKind::NotFound)),
        has_shards && schema@.fields.len() == 0 ==> step matches Ok(WriteStep::NeedsGrowth),
        has_shards && schema@.fields.len() > 0 ==> {
            &&& step matches Err(error) ==> (error@ matches ErrorV::Io(kind, _) && kind
                == IoKind::InvalidData)
            &&& step matches Ok(WriteStep::Write { routing_key }) ==> (routing_key matches Some(key)
                && write_laws::is_write_key(
                key@,
                schema@,
                id@,
                match given {
                    Some(own) => Some(own@),
                    None => None,
                },
                doc@,
            ))
            &&& id@.len() == 0 || !(doc@ is Object) ==> step is Err
        },
{
    write_laws::law_a_write_goes_by_its_document(schema@, id@, errors::opt_text(given), doc@);
}

/// A batch that was refused anything while a schema grew is refused, as the caller's fault.
pub proof fn law_growth_is_refused_where_anything_was(
    refused: Vec<(usize, String)>,
    refusal: Option<OrchestratorError>,
)
    requires
        call_ensures(router::growth_refusal, (&refused,), refusal),
    ensures
        refusal is Some <==> refused@.len() > 0,
        refusal matches Some(error) ==> (error@ matches ErrorV::Io(kind, _) && kind
            == IoKind::InvalidData),
{
}

/// A write is put under its identifier, or its document's own, as it came, and is the caller's fault
/// where it has neither.
pub proof fn law_a_write_is_put_under_its_identifier(
    request: WriteRequest,
    op: Result<(String, WalOp), OrchestratorError>,
)
    requires
        call_ensures(writer::write_op, (request,), op),
    ensures
        request.id@.len() > 0 ==> (op matches Ok((index, WalOp::Put { id, json_blob })) && index@
            == request.index@ && id@ == request.id@ && json_blob == Some(request.doc)),
        op matches Ok((index, put)) ==> put is Put && index@ == request.index@,
        op matches Err(error) ==> request.id@.len() == 0 && (error@ matches ErrorV::Io(kind, _) && kind
            == IoKind::InvalidData),
{
}

/// Every caller that waits for a write has its own answer: the sequence that the store gave it, or the
/// store's failure in its own words.
pub proof fn law_every_waiting_caller_is_answered<R>(
    replies: Vec<R>,
    outcome: Result<Vec<u64>, StoreError>,
    answers: Vec<(R, Result<u64, StoreError>)>,
)
    requires
        call_ensures(writer::answer_writes::<R>, (replies, &outcome), answers),
    ensures
        outcome matches Ok(sequences) ==> sequences@.len() == replies@.len() ==> {
            &&& answers@.len() == replies@.len()
            &&& forall|i: int|
                0 <= i < answers@.len() ==> (#[trigger] answers@[i]).0 == replies@[i] && answers@[i].1
                    == Ok::<u64, StoreError>(sequences@[i])
        },
        outcome matches Err(error) ==> {
            &&& answers@.len() == replies@.len()
            &&& forall|i: int|
                0 <= i < answers@.len() ==> (#[trigger] answers@[i]).0 == replies@[i]
                    && answers@[i].1 is Err
        },
{
    assert forall|i: int| 0 <= i < answers@.len() implies writer::write_answer_is(
        (#[trigger] answers@[i]).1,
        outcome,
        i,
    ) && answers@[i].0 == replies@[i] by {}
}

// ---------------------------------------------------------------------------
// Peers
// ---------------------------------------------------------------------------

/// A peer that answered is not asked again; one that failed is asked again while attempts are left, and
/// given up behind the last.
pub proof fn law_a_peer_is_asked_again_while_attempts_are_left(
    attempt: usize,
    attempts: usize,
    outcome: Result<Json, OrchestratorError>,
    step: RemoteStep,
)
    requires
        call_ensures(broadcast::after_attempt, (attempt, attempts, outcome), step),
    ensures
        outcome matches Ok(answer) ==> step == RemoteStep::Answer(answer),
        outcome is Err && attempt < attempts ==> (step matches RemoteStep::Retry { attempt: next }
            && next == attempt + 1),
        outcome is Err && attempt >= attempts ==> (step matches RemoteStep::GiveUp { error, .. } && (
        error@ matches ErrorV::Io(kind, _) && kind == IoKind::Other)),
{
}

/// Of several answers that say the same the first is taken, and none is an error.
pub proof fn law_the_first_answer_is_taken(
    answers: Vec<Json>,
    answer: Result<Json, OrchestratorError>,
)
    requires
        call_ensures(broadcast::answer_broadcast_other, (answers,), answer),
    ensures
        answers@.len() > 0 ==> (answer matches Ok(value) && value@ == answers@[0]@),
        answers@.len() == 0 ==> answer is Err,
{
}

/// As many peers are asked as are known, and no more than may be.
pub proof fn law_no_more_peers_are_asked_than_may_be(known: usize, limit: usize, count: usize)
    requires
        call_ensures(broadcast::peers_to_ask, (known, limit), count),
    ensures
        count <= known,
        count <= limit,
        count == known || count == limit,
{
}

/// A peer is asked as often as is configured, and once at least.
pub proof fn law_a_peer_is_asked_once_at_least(configured: usize, attempts: usize)
    requires
        call_ensures(broadcast::remote_attempts, (configured,), attempts),
    ensures
        attempts >= 1,
        configured > 0 ==> attempts == configured,
{
}

// ---------------------------------------------------------------------------
// The node
// ---------------------------------------------------------------------------

/// A shard is taken on where the node does not hold it yet and has room for it.
pub proof fn law_a_shard_is_taken_on_where_there_is_room(
    shards: Vec<u128>,
    max_shards: usize,
    shard: u128,
    verdict: Result<(), OrchestratorError>,
)
    requires
        call_ensures(node::check_proposal, (&shards, max_shards, shard), verdict),
    ensures
        verdict is Ok <==> !shards@.contains(shard) && shards@.len() < max_shards,
        shards@.contains(shard) ==> (verdict matches Err(error) && error@
            == ErrorV::ShardAlreadyExists(shard)),
        !shards@.contains(shard) && shards@.len() >= max_shards ==> (verdict matches Err(error)
            && error@ is ShardLimitExceeded),
{
}

/// No more shards are served than may be, and every one of them started.
pub proof fn law_no_more_shards_are_served_than_may_be<T>(
    found: Vec<(u128, Option<T>)>,
    max_shards: usize,
    served: Vec<(u128, T)>,
)
    requires
        call_ensures(node::shards_to_serve::<T>, (found, max_shards), served),
    ensures
        served@.len() <= max_shards,
        served@.is_prefix_of(
            found@.filter(|shard: (u128, Option<T>)| shard.1 is Some).map_values(
                |shard: (u128, Option<T>)| (shard.0, shard.1->0),
            ),
        ),
        found@.filter(|shard: (u128, Option<T>)| shard.1 is Some).len() <= max_shards ==> served@.len()
            == found@.filter(|shard: (u128, Option<T>)| shard.1 is Some).len(),
{
    crate::node_laws::law_what_started_is_served(found@);
    let all = node::those_started(found@);
    assert(all.subrange(0, served@.len() as int) =~= served@);
}

/// A pool keeps to the cores where jobs keep to shards and writers to cores; its workers are pinned
/// where that is asked for too and there is anything to pin them to.
pub proof fn law_a_pool_keeps_to_the_cores_where_asked(
    layout: CoreLayout,
    shards: usize,
    affine: bool,
    writers: bool,
    workers: bool,
    plan: PoolPlan,
)
    requires
        call_ensures(placement::plan_pool, (&layout, shards, affine, writers, workers), plan),
        layout.wf(),
    ensures
        plan.core_aligned <==> affine && writers,
        plan.pin_workers <==> affine && writers && workers && layout.pinnable().len() > 0,
        affine && writers ==> plan.worker_count == layout.core_budget(),
        !(affine && writers) && 1 <= shards <= layout.core_budget() ==> plan.worker_count == 2 * shards,
        !(affine && writers) && shards > layout.core_budget() ==> plan.worker_count == 2
            * layout.core_budget(),
        plan.worker_count >= 1,
        plan.queue_capacity >= 1,
{
}

/// As many threads read as are configured; where none are, half the processors do, and two at least.
pub proof fn law_reading_takes_half_the_processors(search_threads: usize, cpus: usize, threads: usize)
    requires
        call_ensures(placement::read_thread_count, (search_threads, cpus), threads),
    ensures
        search_threads > 0 ==> threads == search_threads,
        search_threads == 0 && cpus >= 4 ==> threads == cpus / 2,
        search_threads == 0 && cpus < 4 ==> threads == 2,
{
}

/// A tool call is recorded where there is a trail, under who called it and what was refused, and with
/// its words only where words are kept.
pub proof fn law_a_tool_call_is_recorded(
    call: ToolCall,
    caller: Caller,
    audited: bool,
    keeps_words: bool,
    record: Option<ToolRecord>,
)
    requires
        call_ensures(governance::record_tool_call, (call, caller, audited, keeps_words), record),
    ensures
        record is Some <==> audited,
        record matches Some(line) ==> {
            &&& line.tool == call.tool
            &&& line.caller == caller
            &&& line.index == call.index
            &&& line.refused == call.error
            &&& keeps_words ==> line.query == call.query
            &&& !keeps_words ==> line.query is None
        },
{
}

/// A resource of an index is read where the key permits it; the catalog always is.
pub proof fn law_a_resource_is_read_where_permitted(
    read: ResourceRead,
    allowed: bool,
    permitted: Result<ResourceRead, String>,
)
    requires
        call_ensures(resources::permit_read, (read, allowed), permitted),
    ensures
        permitted is Ok <==> allowed || read is Catalogue,
        permitted matches Ok(kept) ==> kept == read,
{
}

/// A search by a tool is refused where a clause of it was dropped, or where it matched nothing and
/// names an absence; every other is answered.
pub proof fn law_a_tool_search_is_answered_where_nothing_was_dropped(
    response: Json,
    absent: Option<String>,
    words: &str,
    max_bytes: usize,
    answer: Result<Json, String>,
)
    requires
        call_ensures(tool_search::answer_index_search, (response, absent, words, max_bytes), answer),
    ensures
        broadcast::notes_of(response@).len() > 0 ==> answer is Err,
        broadcast::notes_of(response@).len() == 0 ==> (answer is Err
            <==> crate::broadcast_laws::whole_under(response@, "total_hits"@) == 0 && absent is Some),
        broadcast::notes_of(response@).len() == 0 ==> (answer matches Err(message) ==> absent is Some
            && message@ == absent->0@),
{
}

// ---------------------------------------------------------------------------
// Pages and batches
// ---------------------------------------------------------------------------

/// A page is the one that was asked for, from the start and of the usual length where it is not said,
/// and is refused where it reaches further than may be reached.
pub proof fn law_a_page_is_refused_where_it_reaches_too_far(
    limit: Option<usize>,
    offset: Option<usize>,
    default_limit: usize,
    max: usize,
    window: Result<SearchWindow, String>,
)
    requires
        call_ensures(SearchWindow::checked, (limit, offset, default_limit, max), window),
    ensures
        ({
            let first = if offset is Some {
                offset->0
            } else {
                0usize
            };
            let length = if limit is Some {
                limit->0
            } else {
                default_limit
            };
            &&& window matches Ok(page) ==> page.offset == first && page.limit == length
            &&& window is Ok && first + length <= usize::MAX ==> first + length <= max
            &&& first + length <= max ==> window is Ok
            &&& length > max ==> window is Err
        }),
{
}

/// A batch is summed up as it was judged: every document is counted, every refusal told at its place,
/// and it brings fields where an admitted document does.
pub proof fn law_a_batch_is_summed_up(
    results: Vec<SchemaValidationResult>,
    summary: SchemaValidationSummary,
    i: int,
)
    requires
        call_ensures(evolution::summarize, (&results,), summary),
        0 <= i < results@.len(),
    ensures
        summary.total_docs == results@.len(),
        summary.valid_docs + summary.errors@.len() == results@.len(),
        results@[i].validation_error matches Some(why) ==> exists|k: int|
            0 <= k < summary.errors@.len() && (#[trigger] summary.errors@[k]).0 == i
                && summary.errors@[k].1@ == why@,
        results@[i].validation_error is None && results@[i].needs_evolution
            ==> summary.evolution_needed,
{
    let verdicts = evolution::verdict_models(results@);
    growth_laws::law_every_refused_document_is_told(verdicts);
    assert(verdicts[i] == results@[i]@);
    if let Some(why) = results@[i].validation_error {
        let told = evolution::error_models(summary.errors@);
        assert(verdicts[i].error == Some(why@));
        assert(told.contains((i, why@)));
        let k = choose|k: int| 0 <= k < told.len() && told[k] == (i, why@);
        assert(summary.errors@[k].0 == i && summary.errors@[k].1@ == why@);
    }
}

/// Every caller that waits for a batch has its own answer: the stretch of the sequences that its batch
/// took, or the store's failure.
pub proof fn law_every_waiting_batch_is_answered<R>(
    counts: Vec<usize>,
    replies: Vec<R>,
    outcome: Result<(Vec<u64>, usize), StoreError>,
    answers: Vec<(R, Result<(Vec<u64>, usize), StoreError>)>,
    i: int,
)
    requires
        call_ensures(writer_round::answer_batches::<R>, (&counts, replies, &outcome), answers),
        counts@.len() == replies@.len(),
        0 <= i < replies@.len(),
    ensures
        answers@.len() == replies@.len(),
        answers@[i].0 == replies@[i],
        outcome is Err ==> answers@[i].1 is Err,
        outcome matches Ok((sequences, _)) ==> writer::total_of(counts@) <= sequences@.len() ==> (
        answers@[i].1 matches Ok((own, _)) && own@ == sequences@.subrange(
            writer::total_of(counts@.take(i)) as int,
            writer::total_of(counts@.take(i)) + counts@[i],
        )),
{
    assert(answers@[i].0 == replies@[i] && writer_round::batch_answer_is(
        answers@[i].1,
        outcome,
        counts@,
        i,
    ));
}

} // verus!
