//! The two search tools, and the merge that makes a federated one answerable.

use vstd::prelude::*;
use vstd::string::*;
use crate::{
    broadcast, describe, diagnostics, errors, field_info, hits, json, order, search, text, trimming,
};
use crate::broadcast::{in_dispatch_order, number_at, text_at};
use crate::diagnostics::{
    approximate_sort_note, names_a_missing_field, refuse_if_clauses_discarded, with_valid_fields,
    zero_results_advice,
};
use crate::errors::APPROXIMATE_SORT_FIELD;
use crate::field_info::{entry_of, extract_field_names};
use crate::hits::{SearchWindow, SortOrder, SortSpec, order_hit_blocks, strip_hits};
use crate::json::{Json, JsonV, entry};
use crate::ops::ClientOp;
use crate::text::{copy_texts, count_text, join_texts};
use crate::trimming::cap_response_bytes;

verus! {

/// How many of a federated search's indexes are queried at once. Each is a scatter-gather over that
/// index's shards, so that an uncapped fan-out would let one request occupy every shard worker.
pub const MAX_CONCURRENT_INDEX_SEARCHES: usize = 8;

/// What a note on an approximate order stands under.
pub const APPROXIMATE_SORT_NOTE_FIELD: &'static str = "_approximate_sort_note";

// ---------------------------------------------------------------------------
// Asking
// ---------------------------------------------------------------------------

/// An index to search, as a caller of the tools names it.
#[derive(Debug, PartialEq, Eq)]
pub struct IndexSearch {
    pub index: String,
    pub fields: Option<Vec<String>>,
    pub sort: Option<SortSpec>,
}

/// A query taken apart: its text, and what it asks for inline.
#[derive(Debug, PartialEq, Eq)]
pub struct QueryKeywords {
    /// The query without its inline modifiers.
    pub query: String,
    pub limit: Option<usize>,
    pub fields: Option<Vec<String>>,
    pub sort: Option<SortSpec>,
}

/// A sort, as a value of the model.
pub open spec fn sort_model(sort: SortSpec) -> (Seq<char>, SortOrder) {
    (sort.field@, sort.order)
}

/// An optional sort, as a value of the model.
pub open spec fn opt_sort(sort: Option<SortSpec>) -> Option<(Seq<char>, SortOrder)> {
    match sort {
        Some(s) => Some(sort_model(s)),
        None => None,
    }
}

/// The first of two optional values that is there.
pub open spec fn first_of<T>(a: Option<T>, b: Option<T>) -> Option<T> {
    if a is Some {
        a
    } else {
        b
    }
}

/// Copies an optional sort.
fn copy_sort(sort: &Option<SortSpec>) -> (copy: Option<SortSpec>)
    ensures
        opt_sort(copy) == opt_sort(*sort),
{
    match sort {
        Some(s) => Some(s.clone()),
        None => None,
    }
}

/// Copies an optional list of texts.
fn copy_fields(fields: &Option<Vec<String>>) -> (copy: Option<Vec<String>>)
    ensures
        search::opt_texts(copy) == search::opt_texts(*fields),
{
    match fields {
        Some(list) => Some(copy_texts(list)),
        None => None,
    }
}

/// What is said of a limit above the maximum.
pub open spec fn limit_refusal(limit: Option<usize>, max: usize) -> Option<Seq<char>> {
    match limit {
        Some(asked) => if asked > max {
            Some(
                "limit "@ + text::decimal(asked as nat) + " is above the maximum of "@ + text::decimal(max as nat)
                    + "; ask for at most that many and narrow the query to reach the rest"@,
            )
        } else {
            None
        },
        None => None,
    }
}

/// Refuses a limit above what the tools advertise. It is asked of the limit that the search will run
/// with, because the query's text is a second door to the same number.
pub fn check_effective_limit(limit: Option<usize>, max_search_limit: usize) -> (verdict: Result<
    (),
    String,
>)
    ensures
        match verdict {
            Ok(_) => limit_refusal(limit, max_search_limit) is None,
            Err(message) => limit_refusal(limit, max_search_limit) == Some(message@),
        },
{
    match limit {
        Some(asked) => if asked > max_search_limit {
            let mut message: String = String::from_str("limit ");
            message.append(count_text(asked).as_str());
            message.append(" is above the maximum of ");
            message.append(count_text(max_search_limit).as_str());
            message.append("; ask for at most that many and narrow the query to reach the rest");
            Err(message)
        } else {
            Ok(())
        },
        None => Ok(()),
    }
}

/// Whether an operation searches an index for a query, from the front: what the caller passed goes
/// before what the query asks for inline.
pub open spec fn is_index_search(
    op: ClientOp,
    index: Seq<char>,
    fields: Option<Seq<Seq<char>>>,
    sort: Option<(Seq<char>, SortOrder)>,
    keywords: QueryKeywords,
    limit: Option<usize>,
) -> bool {
    match op {
        ClientOp::Search { index: i, query: q, limit: l, offset: o, fields: f, sort: s } => {
            &&& i@ == index
            &&& q@ == keywords.query@
            &&& l == limit
            &&& o is None
            &&& search::opt_texts(f) == first_of(fields, search::opt_texts(keywords.fields))
            &&& opt_sort(s) == first_of(sort, opt_sort(keywords.sort))
        },
        _ => false,
    }
}

/// Makes the operation that searches one index.
fn make_search(
    index: String,
    fields: Option<Vec<String>>,
    sort: Option<SortSpec>,
    keywords: &QueryKeywords,
    limit: Option<usize>,
) -> (op: ClientOp)
    ensures
        is_index_search(op, index@, search::opt_texts(fields), opt_sort(sort), *keywords, limit),
{
    let fields: Option<Vec<String>> = match fields {
        Some(list) => Some(list),
        None => copy_fields(&keywords.fields),
    };
    let sort: Option<SortSpec> = match sort {
        Some(s) => Some(s),
        None => copy_sort(&keywords.sort),
    };
    ClientOp::Search { index, query: keywords.query.clone(), limit, offset: None, fields, sort }
}

/// The limit that a search runs with.
pub open spec fn effective_limit(limit: Option<usize>, keywords: QueryKeywords) -> Option<usize> {
    first_of(limit, keywords.limit)
}

/// Plans a search of one index, or refuses it.
pub fn plan_index_search(
    request: IndexSearch,
    keywords: &QueryKeywords,
    limit: Option<usize>,
    max_search_limit: usize,
) -> (plan: Result<ClientOp, String>)
    ensures
        match plan {
            Ok(op) => limit_refusal(effective_limit(limit, *keywords), max_search_limit) is None
                && is_index_search(
                op,
                request.index@,
                search::opt_texts(request.fields),
                opt_sort(request.sort),
                *keywords,
                effective_limit(limit, *keywords),
            ),
            Err(message) => limit_refusal(effective_limit(limit, *keywords), max_search_limit)
                == Some(message@),
        },
{
    let final_limit: Option<usize> = match limit {
        Some(n) => Some(n),
        None => keywords.limit,
    };
    match check_effective_limit(final_limit, max_search_limit) {
        Ok(_) => {},
        Err(message) => {
            return Err(message);
        },
    }
    Ok(make_search(request.index, request.fields, request.sort, keywords, final_limit))
}

// ---------------------------------------------------------------------------
// Answering for one index
// ---------------------------------------------------------------------------

/// What is told of how many documents matched.
pub open spec fn matched(response: JsonV) -> nat {
    broadcast::or_zero(broadcast::number_of(response.get("total_hits"@)))
}

/// A response with advice, where it holds no hit and its query gives reason for some.
pub open spec fn with_advice(response: JsonV, returned: nat, text: Seq<char>) -> JsonV {
    match diagnostics::advice_on(text) {
        Some(advice) => if returned == 0 {
            response.with("_warning"@, JsonV::Text(advice))
        } else {
            response
        },
        None => response,
    }
}

/// A response with a note on its order, where the order on a field is approximate.
pub open spec fn with_sort_note(response: JsonV, field: Option<Seq<char>>) -> JsonV {
    match field {
        Some(name) => response.with(
            APPROXIMATE_SORT_NOTE_FIELD@,
            JsonV::Text(diagnostics::approximate_sort_text(name)),
        ),
        None => response,
    }
}

/// What a caller is told of one index's answer.
pub open spec fn told_answer(response: JsonV, text: Seq<char>, max_bytes: nat) -> JsonV {
    let returned = broadcast::or_zero(broadcast::number_of(response.get("hits_returned"@)));
    let advised = with_advice(response, returned, text);
    let field = broadcast::text_of_value(response.get(APPROXIMATE_SORT_FIELD@));
    trimming::capped(with_sort_note(advised, field), max_bytes)
}

/// Adds advice to a response without hits.
fn advise(response: &mut Json, returned: u64, text: &str)
    ensures
        final(response)@ == with_advice(old(response)@, returned as nat, text@),
{
    if returned == 0 {
        if let Some(advice) = zero_results_advice(text) {
            response.put("_warning", Json::Text(advice));
        }
    }
}

/// Adds a note to a response whose order is approximate.
fn note_sort(response: &mut Json, field: &Option<String>)
    ensures
        final(response)@ == with_sort_note(old(response)@, errors::opt_text(*field)),
{
    if let Some(name) = field {
        response.put(APPROXIMATE_SORT_NOTE_FIELD, Json::Text(approximate_sort_note(name.as_str())));
    }
}

/// Answers a search of one index, or says why there is no answer: a clause was dropped, so that the
/// hits answer another query; or nothing matched and the index is not there.
///
/// `absent` is why the index is absent, asked only where nothing matched. `text` is the query's without
/// its inline modifiers.
pub fn answer_index_search(
    response: Json,
    absent: Option<String>,
    text: &str,
    max_response_bytes: usize,
) -> (answer: Result<Json, String>)
    ensures
        match answer {
            Ok(value) => {
                &&& diagnostics::refusal_of(broadcast::notes_of(response@)) is None
                &&& matched(response@) == 0 ==> absent is None
                &&& value@ == told_answer(response@, text@, max_response_bytes as nat)
            },
            Err(message) => match diagnostics::refusal_of(broadcast::notes_of(response@)) {
                Some(refusal) => message@ == refusal,
                None => matched(response@) == 0 && errors::opt_text(absent) == Some(message@),
            },
        },
{
    let ghost given = response@;
    let mut response: Json = response;
    match refuse_if_clauses_discarded(&response) {
        Ok(_) => {},
        Err(refusal) => {
            return Err(refusal);
        },
    }
    if asks_for_absence(&response) {
        if let Some(reason) = absent {
            return Err(reason);
        }
    }
    let returned: u64 = match number_at(&response, "hits_returned") {
        Some(n) => n,
        None => 0,
    };
    let field: Option<String> = match text_at(&response, APPROXIMATE_SORT_FIELD) {
        Some(name) => Some(name.clone()),
        None => None,
    };
    advise(&mut response, returned, text);
    note_sort(&mut response, &field);
    cap_response_bytes(&mut response, max_response_bytes);
    Ok(response)
}

/// The keys of an object.
pub open spec fn keys_of(entries: Seq<(Seq<char>, JsonV)>) -> Seq<Seq<char>> {
    entries.map_values(|entry: (Seq<char>, JsonV)| entry.0)
}

/// The fields that a schema names, where it names any: those that it lists, or the keys that they
/// stand under.
pub open spec fn schema_names(config: Option<JsonV>) -> Option<Seq<Seq<char>>> {
    match config {
        Some(schema) => match schema.get("fields"@) {
            Some(JsonV::Object(entries)) => Some(keys_of(entries)),
            _ => if field_info::field_infos(schema).len() > 0 {
                Some(field_info::info_names(field_info::field_infos(schema)))
            } else {
                None
            },
        },
        None => None,
    }
}

/// What a caller is told of a search that failed: the engine's own words, with the index's fields
/// behind them where they report a field that it does not have.
pub open spec fn told_error(error: Seq<char>, index: Seq<char>, config: Option<JsonV>) -> Seq<char> {
    match schema_names(config) {
        Some(names) => if diagnostics::reports_missing_field(error) {
            diagnostics::error_with_fields(error, index, names)
        } else {
            error
        },
        None => error,
    }
}

/// The keys of an object.
fn read_keys(entries: &Vec<(String, Json)>) -> (names: Vec<String>)
    ensures
        text::texts(names@) == keys_of(json::entry_models(entries@)),
{
    let ghost all = keys_of(json::entry_models(entries@));
    let mut names: Vec<String> = Vec::new();
    let mut i: usize = 0;
    assert(text::texts(names@) =~= all.take(0));
    while i < entries.len()
        invariant
            i <= entries.len(),
            all == keys_of(json::entry_models(entries@)),
            text::texts(names@) == all.take(i as int),
        decreases entries.len() - i,
    {
        let ghost before = names@;
        names.push(entries[i].0.clone());
        assert(text::texts(names@) =~= text::texts(before).push(all[i as int]));
        i += 1;
        assert(text::texts(names@) =~= all.take(i as int));
    }
    assert(all.take(entries.len() as int) =~= all);
    names
}

/// Explains why a search failed. `config` is the index's schema, asked for only where the error
/// reports a field that the index does not have.
pub fn explain_search_error(error: &str, index: &str, config: &Option<Json>) -> (message: String)
    ensures
        message@ == told_error(error@, index@, search::opt_json(*config)),
{
    if names_a_missing_field(error) {
        if let Some(schema) = config {
            if let Some(fields) = schema.get("fields") {
                if let Some(entries) = fields.as_object() {
                    return with_valid_fields(error, index, &read_keys(entries));
                }
            }
            let names: Vec<String> = extract_field_names(schema);
            assert(text::texts(names@).len() == names@.len());
            if names.len() > 0 {
                return with_valid_fields(error, index, &names);
            }
        }
    }
    String::from_str(error)
}

/// An error that reports a missing field is answered with the fields that there are: explained with
/// the schema as a node answers it, it names every field that the schema lists.
pub proof fn law_a_missing_field_is_answered_with_the_fields(
    error: Seq<char>,
    index: Seq<char>,
    description: Option<Seq<char>>,
    fields: Seq<JsonV>,
)
    requires
        diagnostics::reports_missing_field(error),
        field_info::infos_of(fields).len() > 0,
    ensures
        told_error(error, index, Some(describe::schema_body(index, description, fields)))
            == diagnostics::error_with_fields(
            error,
            index,
            field_info::info_names(field_info::infos_of(fields)),
        ),
{
    reveal_strlit("name");
    reveal_strlit("description");
    reveal_strlit("field_count");
    reveal_strlit("fields");
    let schema = describe::schema_body(index, description, fields);
    if let JsonV::Object(entries) = schema {
        assert("name"@.len() == 4 && "description"@.len() == 11 && "field_count"@.len() == 11);
        assert("fields"@.len() == 6);
        json::lemma_key_place_is(entries, "fields"@, entries.len() - 1);
    }
}

/// Whether it has to be asked if an index is there at all: only a search that matched nothing looks
/// the same either way.
pub fn asks_for_absence(response: &Json) -> (asks: bool)
    ensures
        asks == (matched(response@) == 0),
{
    match number_at(response, "total_hits") {
        Some(n) => n == 0,
        None => true,
    }
}

// ---------------------------------------------------------------------------
// Asking several indexes
// ---------------------------------------------------------------------------

/// A search of several indexes, planned.
pub struct FederatedPlan {
    /// The indexes in the order named, each with the operation that searches it.
    pub searches: Vec<(String, ClientOp)>,
    /// What the merge orders by.
    pub sort: Option<SortSpec>,
    /// How many hits the merge keeps.
    pub limit: usize,
}

/// The sort that a merge goes by: the first that an index asks for, or that of the query.
pub open spec fn merge_sort(requests: Seq<IndexSearch>, keywords: QueryKeywords) -> Option<
    (Seq<char>, SortOrder),
> {
    first_of(first_sort(requests), opt_sort(keywords.sort))
}

/// The first sort that an index asks for.
pub open spec fn first_sort(requests: Seq<IndexSearch>) -> Option<(Seq<char>, SortOrder)>
    decreases requests.len(),
{
    if requests.len() == 0 {
        None
    } else {
        first_of(first_sort(requests.drop_last()), opt_sort(requests.last().sort))
    }
}

/// Whether a plan searches the requested indexes in the order named.
pub open spec fn is_federated_plan(
    plan: FederatedPlan,
    requests: Seq<IndexSearch>,
    keywords: QueryKeywords,
    limit: Option<usize>,
    default_limit: usize,
) -> bool {
    &&& plan.searches@.len() == requests.len()
    &&& forall|i: int|
        0 <= i < requests.len() ==> searches_as_asked(
            #[trigger] plan.searches@[i],
            requests[i],
            keywords,
            effective_limit(limit, keywords),
        )
    &&& opt_sort(plan.sort) == merge_sort(requests, keywords)
    &&& plan.limit == match effective_limit(limit, keywords) {
        Some(asked) => asked,
        None => default_limit,
    }
}

/// Whether one of a plan's searches is that of a request.
pub open spec fn searches_as_asked(
    search: (String, ClientOp),
    request: IndexSearch,
    keywords: QueryKeywords,
    limit: Option<usize>,
) -> bool {
    &&& search.0@ == request.index@
    &&& is_index_search(
        search.1,
        request.index@,
        search::opt_texts(request.fields),
        opt_sort(request.sort),
        keywords,
        limit,
    )
}

/// Plans a search of several indexes, or refuses it. The limit asked of each index, the one that the
/// merge keeps and the one that is told are the same number.
pub fn plan_federated_search(
    requests: Vec<IndexSearch>,
    keywords: &QueryKeywords,
    limit: Option<usize>,
    default_limit: usize,
    max_search_limit: usize,
) -> (plan: Result<FederatedPlan, String>)
    ensures
        match plan {
            Ok(p) => limit_refusal(effective_limit(limit, *keywords), max_search_limit) is None
                && is_federated_plan(p, requests@, *keywords, limit, default_limit),
            Err(message) => limit_refusal(effective_limit(limit, *keywords), max_search_limit)
                == Some(message@),
        },
{
    let final_limit: Option<usize> = match limit {
        Some(n) => Some(n),
        None => keywords.limit,
    };
    match check_effective_limit(final_limit, max_search_limit) {
        Ok(_) => {},
        Err(message) => {
            return Err(message);
        },
    }
    let ghost all = requests@;
    let mut searches: Vec<(String, ClientOp)> = Vec::new();
    let mut found: Option<SortSpec> = None;
    assert(all.take(0) =~= Seq::empty());
    for request in it: requests
        invariant
            it.seq() == all,
            final_limit == effective_limit(limit, *keywords),
            searches@.len() == it.index(),
            forall|i: int|
                0 <= i < it.index() ==> searches_as_asked(
                    #[trigger] searches@[i],
                    all[i],
                    *keywords,
                    final_limit,
                ),
            opt_sort(found) == first_sort(all.take(it.index() as int)),
    {
        let ghost at = it.index() as int;
        assert(request == all[at]);
        proof {
            assert(all.take(at + 1).drop_last() =~= all.take(at));
            assert(all.take(at + 1).last() == all[at]);
        }
        let IndexSearch { index, fields, sort } = request;
        if found.is_none() {
            found = copy_sort(&sort);
        }
        let name: String = index.clone();
        let op: ClientOp = make_search(index, fields, sort, keywords, final_limit);
        searches.push((name, op));
    }
    assert(all.take(all.len() as int) =~= all);
    let sort: Option<SortSpec> = match found {
        Some(s) => Some(s),
        None => copy_sort(&keywords.sort),
    };
    let kept: usize = match final_limit {
        Some(asked) => asked,
        None => default_limit,
    };
    Ok(FederatedPlan { searches, sort, limit: kept })
}

// ---------------------------------------------------------------------------
// Answering for several indexes
// ---------------------------------------------------------------------------

/// What one index of a federated search came back with.
#[derive(Debug, PartialEq)]
pub enum IndexReply {
    /// The search failed. `config` is the index's schema, where the error made it worth asking for.
    Failed { message: String, config: Option<Json> },
    /// The search was answered. `absent` is why the index is absent, where nothing matched.
    Answered { response: Json, absent: Option<String> },
}

/// One index of a federated search, and what it came back with.
#[derive(Debug, PartialEq)]
pub struct IndexOutcome {
    pub index: String,
    pub reply: IndexReply,
}

/// What one index came back with, as a value of the model.
pub enum ReplyV {
    Failed { message: Seq<char>, config: Option<JsonV> },
    Answered { response: JsonV, absent: Option<Seq<char>> },
}

/// One index and what it came back with, as a value of the model.
pub struct OutcomeOfV {
    pub index: Seq<char>,
    pub reply: ReplyV,
}

impl View for IndexOutcome {
    type V = OutcomeOfV;

    open spec fn view(&self) -> OutcomeOfV {
        OutcomeOfV {
            index: self.index@,
            reply: match self.reply {
                IndexReply::Failed { message, config } => ReplyV::Failed {
                    message: message@,
                    config: search::opt_json(config),
                },
                IndexReply::Answered { response, absent } => ReplyV::Answered {
                    response: response@,
                    absent: errors::opt_text(absent),
                },
            },
        }
    }
}

/// Outcomes beside the place that the caller named each index at, as values of the model.
pub open spec fn outcome_models(outcomes: Seq<(usize, IndexOutcome)>) -> Seq<(usize, OutcomeOfV)> {
    broadcast::mapped_answers(outcomes, |outcome: IndexOutcome| outcome@)
}

/// Why an outcome refuses the whole search: one query covers every index, so that a dropped clause
/// affects the whole merge.
pub open spec fn outcome_refusal(outcome: OutcomeOfV) -> Option<Seq<char>> {
    match outcome.reply {
        ReplyV::Answered { response, absent: _ } => match diagnostics::refusal_of(broadcast::notes_of(response)) {
            Some(refusal) => Some("index '"@ + outcome.index + "': "@ + refusal),
            None => None,
        },
        ReplyV::Failed { message: _, config: _ } => None,
    }
}

/// Why an outcome answers nothing.
pub open spec fn outcome_error(outcome: OutcomeOfV) -> Option<Seq<char>> {
    match outcome.reply {
        ReplyV::Failed { message, config } => Some(told_error(message, outcome.index, config)),
        ReplyV::Answered { response, absent } => if matched(response) == 0 {
            absent
        } else {
            None
        },
    }
}

/// The first refusal among outcomes, in the order in which they arrived.
pub open spec fn first_refusal(outcomes: Seq<(usize, OutcomeOfV)>) -> Option<Seq<char>>
    decreases outcomes.len(),
{
    if outcomes.len() == 0 {
        None
    } else {
        first_of(first_refusal(outcomes.drop_last()), outcome_refusal(outcomes.last().1))
    }
}

/// The indexes that answered nothing and why, in the order in which that was learned.
pub open spec fn failed_indexes(outcomes: Seq<(usize, OutcomeOfV)>) -> Seq<(Seq<char>, Seq<char>)>
    decreases outcomes.len(),
{
    if outcomes.len() == 0 {
        Seq::empty()
    } else {
        let before = failed_indexes(outcomes.drop_last());
        match outcome_error(outcomes.last().1) {
            Some(error) => before.push((outcomes.last().1.index, error)),
            None => before,
        }
    }
}

/// An index that answered nothing, as it is told.
pub open spec fn failure_value(failure: (Seq<char>, Seq<char>)) -> JsonV {
    JsonV::Object(seq![("index"@, JsonV::Text(failure.0)), ("error"@, JsonV::Text(failure.1))])
}

/// The indexes that answered nothing, as they are told.
pub open spec fn failure_values(failures: Seq<(Seq<char>, Seq<char>)>) -> Seq<JsonV> {
    failures.map_values(|failure: (Seq<char>, Seq<char>)| failure_value(failure))
}

/// What is said where no index answered.
pub open spec fn nothing_read(failures: Seq<(Seq<char>, Seq<char>)>) -> Seq<char> {
    "no index in this search could be read — "@ + text::joined(
        failures.map_values(|failure: (Seq<char>, Seq<char>)| failure.0 + ": "@ + failure.1),
        "; "@,
    )
}

/// Hits with the index that they come from.
pub open spec fn sourced(hits: Seq<JsonV>, index: Seq<char>) -> Seq<JsonV> {
    hits.map_values(|hit: JsonV| hit.with("_index_source"@, JsonV::Text(index)))
}

/// The hits of one outcome, with the index that they come from.
pub open spec fn outcome_hits(outcome: OutcomeOfV) -> Seq<JsonV> {
    match outcome.reply {
        ReplyV::Answered { response, absent: _ } => if outcome_error(outcome) is Some {
            Seq::empty()
        } else {
            match broadcast::items_of(response.get("hits"@)) {
                Some(hits) => sourced(hits, outcome.index),
                None => Seq::empty(),
            }
        },
        ReplyV::Failed { message: _, config: _ } => Seq::empty(),
    }
}

/// How many documents one outcome says matched.
pub open spec fn outcome_matched(outcome: OutcomeOfV) -> nat {
    match outcome.reply {
        ReplyV::Answered { response, absent: _ } => matched(response),
        ReplyV::Failed { message: _, config: _ } => 0,
    }
}

/// The field whose order is approximate, by one outcome.
pub open spec fn outcome_approximate(outcome: OutcomeOfV) -> Option<Seq<char>> {
    match outcome.reply {
        ReplyV::Answered { response, absent: _ } => broadcast::text_of_value(
            response.get(APPROXIMATE_SORT_FIELD@),
        ),
        ReplyV::Failed { message: _, config: _ } => None,
    }
}

/// The hits of some outcomes, index after index.
pub open spec fn all_hits(outcomes: Seq<OutcomeOfV>) -> Seq<JsonV>
    decreases outcomes.len(),
{
    if outcomes.len() == 0 {
        Seq::empty()
    } else {
        all_hits(outcomes.drop_last()) + outcome_hits(outcomes.last())
    }
}

/// How many documents some outcomes say matched.
pub open spec fn all_matched(outcomes: Seq<OutcomeOfV>) -> nat
    decreases outcomes.len(),
{
    if outcomes.len() == 0 {
        0
    } else {
        all_matched(outcomes.drop_last()) + outcome_matched(outcomes.last())
    }
}

/// The field whose order is approximate, by the first of some outcomes that names one.
pub open spec fn all_approximate(outcomes: Seq<OutcomeOfV>) -> Option<Seq<char>>
    decreases outcomes.len(),
{
    if outcomes.len() == 0 {
        None
    } else {
        first_of(all_approximate(outcomes.drop_last()), outcome_approximate(outcomes.last()))
    }
}

/// What is answered to a search of several indexes, but for the trim.
pub open spec fn federated_response(
    page: Seq<JsonV>,
    ordered: Seq<OutcomeOfV>,
    failures: Seq<(Seq<char>, Seq<char>)>,
    limit: usize,
    text: Seq<char>,
) -> JsonV {
    let base = JsonV::Object(
        seq![
            ("hits"@, JsonV::Array(page)),
            ("hits_returned"@, search::count_value(page.len())),
            ("total_hits"@, search::count_value(all_matched(ordered))),
            ("limit"@, search::count_value(limit as nat)),
        ],
    );
    let told = if failures.len() == 0 {
        base
    } else {
        base.with("errors"@, JsonV::Array(failure_values(failures)))
    };
    with_sort_note(with_advice(told, page.len(), text), all_approximate(ordered))
}

/// Whether a search of several indexes is answered: the indexes in the order named, their hits merged
/// by the sort asked for, or by score, and trimmed to what one message may carry.
pub open spec fn is_federated_answer(
    answer: JsonV,
    outcomes: Seq<(usize, OutcomeOfV)>,
    sort: Option<SortOrder>,
    limit: usize,
    text: Seq<char>,
    max_bytes: nat,
    ordered: Seq<OutcomeOfV>,
    ranks: Seq<int>,
    page: Seq<JsonV>,
    places: Seq<int>,
) -> bool {
    &&& broadcast::is_dispatch_order(outcomes, ordered, ranks)
    &&& hits::is_merge_page(page, all_hits(ordered), sort, (SearchWindow { offset: 0, limit }), places)
    &&& answer == trimming::capped(
        federated_response(
            hits::without_sort_keys(page),
            ordered,
            failed_indexes(outcomes),
            limit,
            text,
        ),
        max_bytes,
    )
}

/// Whether what several indexes say matched can be told as one number.
pub open spec fn matches_fit(outcomes: Seq<(usize, OutcomeOfV)>) -> bool {
    sum_matched(outcomes) <= u64::MAX
}

/// How many documents some outcomes say matched, in whatever order they stand.
pub open spec fn sum_matched(outcomes: Seq<(usize, OutcomeOfV)>) -> nat
    decreases outcomes.len(),
{
    if outcomes.len() == 0 {
        0
    } else {
        sum_matched(outcomes.drop_last()) + outcome_matched(outcomes.last().1)
    }
}

/// What one outcome comes to, as it arrives.
enum Arrival {
    Refuses(String),
    Fails(String),
    Answers,
}

/// What one outcome comes to, as it arrives.
fn judge_arrival(outcome: &IndexOutcome) -> (arrival: Arrival)
    ensures
        match arrival {
            Arrival::Refuses(message) => outcome_refusal(outcome@) == Some(message@),
            Arrival::Fails(message) => outcome_refusal(outcome@) is None && outcome_error(outcome@)
                == Some(message@),
            Arrival::Answers => outcome_refusal(outcome@) is None && outcome_error(outcome@) is None,
        },
{
    match &outcome.reply {
        IndexReply::Failed { message, config } => Arrival::Fails(
            explain_search_error(message.as_str(), outcome.index.as_str(), config),
        ),
        IndexReply::Answered { response, absent } => {
            match refuse_if_clauses_discarded(response) {
                Ok(_) => {},
                Err(refusal) => {
                    let mut message: String = String::from_str("index '");
                    message.append(outcome.index.as_str());
                    message.append("': ");
                    message.append(refusal.as_str());
                    return Arrival::Refuses(message);
                },
            }
            let total: u64 = match number_at(response, "total_hits") {
                Some(n) => n,
                None => 0,
            };
            if total == 0 {
                if let Some(reason) = absent {
                    return Arrival::Fails(reason.clone());
                }
            }
            Arrival::Answers
        },
    }
}

/// Pairs of texts, as values of the model.
pub open spec fn text_pairs(pairs: Seq<(String, String)>) -> Seq<(Seq<char>, Seq<char>)> {
    pairs.map_values(|pair: (String, String)| (pair.0@, pair.1@))
}

/// A refusal among the first outcomes refuses all.
proof fn lemma_first_refusal_stands(outcomes: Seq<(usize, OutcomeOfV)>, count: int)
    requires
        0 <= count <= outcomes.len(),
        first_refusal(outcomes.take(count)) is Some,
    ensures
        first_refusal(outcomes) == first_refusal(outcomes.take(count)),
    decreases outcomes.len() - count,
{
    if count < outcomes.len() {
        assert(outcomes.take(count + 1).drop_last() =~= outcomes.take(count));
        lemma_first_refusal_stands(outcomes, count + 1);
    } else {
        assert(outcomes.take(count) =~= outcomes);
    }
}

/// Goes through outcomes as they arrived: the first refusal refuses the search, and what answered
/// nothing is noted.
fn note_arrivals(outcomes: &Vec<(usize, IndexOutcome)>) -> (noted: Result<
    Vec<(String, String)>,
    String,
>)
    ensures
        match noted {
            Ok(failures) => first_refusal(outcome_models(outcomes@)) is None && text_pairs(failures@)
                == failed_indexes(outcome_models(outcomes@)),
            Err(message) => first_refusal(outcome_models(outcomes@)) == Some(message@),
        },
{
    let ghost all = outcome_models(outcomes@);
    let mut failures: Vec<(String, String)> = Vec::new();
    let mut i: usize = 0;
    assert(text_pairs(failures@) =~= failed_indexes(all.take(0)));
    while i < outcomes.len()
        invariant
            i <= outcomes.len(),
            all == outcome_models(outcomes@),
            first_refusal(all.take(i as int)) is None,
            text_pairs(failures@) == failed_indexes(all.take(i as int)),
        decreases outcomes.len() - i,
    {
        proof {
            assert(all.take(i + 1).drop_last() =~= all.take(i as int));
            assert(all.take(i + 1).last() == (outcomes@[i as int].0, outcomes@[i as int].1@));
        }
        match judge_arrival(&outcomes[i].1) {
            Arrival::Refuses(message) => {
                proof {
                    lemma_first_refusal_stands(all, i + 1);
                }
                return Err(message);
            },
            Arrival::Fails(message) => {
                let ghost before = failures@;
                failures.push((outcomes[i].1.index.clone(), message));
                assert(text_pairs(failures@) =~= text_pairs(before).push(
                    (outcomes@[i as int].1@.index, message@),
                ));
            },
            Arrival::Answers => {},
        }
        i += 1;
    }
    assert(all.take(outcomes.len() as int) =~= all);
    Ok(failures)
}

/// Says that no index answered.
fn tell_nothing_read(failures: &Vec<(String, String)>) -> (message: String)
    ensures
        message@ == nothing_read(text_pairs(failures@)),
{
    let ghost all = text_pairs(failures@).map_values(
        |failure: (Seq<char>, Seq<char>)| failure.0 + ": "@ + failure.1,
    );
    let mut lines: Vec<String> = Vec::new();
    let mut i: usize = 0;
    assert(text::texts(lines@) =~= all.take(0));
    while i < failures.len()
        invariant
            i <= failures.len(),
            all == text_pairs(failures@).map_values(
                |failure: (Seq<char>, Seq<char>)| failure.0 + ": "@ + failure.1,
            ),
            text::texts(lines@) == all.take(i as int),
        decreases failures.len() - i,
    {
        let mut line: String = failures[i].0.clone();
        line.append(": ");
        line.append(failures[i].1.as_str());
        let ghost before = lines@;
        lines.push(line);
        assert(text::texts(lines@) =~= text::texts(before).push(all[i as int]));
        i += 1;
        assert(text::texts(lines@) =~= all.take(i as int));
    }
    assert(all.take(failures.len() as int) =~= all);
    let mut message: String = String::from_str("no index in this search could be read — ");
    message.append(join_texts(&lines, "; ").as_str());
    message
}

/// Tells which indexes answered nothing.
fn tell_failures(failures: &Vec<(String, String)>) -> (told: Vec<Json>)
    ensures
        json::models(told@) == failure_values(text_pairs(failures@)),
{
    let ghost all = failure_values(text_pairs(failures@));
    let mut told: Vec<Json> = Vec::new();
    let mut i: usize = 0;
    assert(json::models(told@) =~= all.take(0));
    while i < failures.len()
        invariant
            i <= failures.len(),
            all == failure_values(text_pairs(failures@)),
            json::models(told@) == all.take(i as int),
        decreases failures.len() - i,
    {
        let parts: Vec<(String, Json)> = vec![
            entry_of("index", failures[i].0.as_str()),
            entry_of("error", failures[i].1.as_str()),
        ];
        assert(json::entry_models(parts@) =~= seq![
            ("index"@, JsonV::Text(failures@[i as int].0@)),
            ("error"@, JsonV::Text(failures@[i as int].1@)),
        ]);
        let ghost before = told@;
        told.push(Json::object(parts));
        assert(json::models(told@) =~= json::models(before).push(all[i as int]));
        i += 1;
        assert(json::models(told@) =~= all.take(i as int));
    }
    assert(all.take(failures.len() as int) =~= all);
    told
}

/// Copies the hits of a response, with the index that they come from.
fn source_hits(hits: &Vec<Json>, index: &str) -> (block: Vec<Json>)
    ensures
        json::models(block@) == sourced(json::models(hits@), index@),
{
    let ghost all = sourced(json::models(hits@), index@);
    let mut block: Vec<Json> = Vec::new();
    let mut i: usize = 0;
    assert(json::models(block@) =~= all.take(0));
    while i < hits.len()
        invariant
            i <= hits.len(),
            all == sourced(json::models(hits@), index@),
            json::models(block@) == all.take(i as int),
        decreases hits.len() - i,
    {
        let mut hit: Json = hits[i].clone();
        hit.put("_index_source", Json::text(index));
        let ghost before = block@;
        block.push(hit);
        assert(json::models(block@) =~= json::models(before).push(all[i as int]));
        i += 1;
        assert(json::models(block@) =~= all.take(i as int));
    }
    assert(all.take(hits.len() as int) =~= all);
    block
}

/// The hits of one outcome, with the index that they come from.
fn hits_of_outcome(outcome: &IndexOutcome) -> (block: Vec<Json>)
    requires
        outcome_refusal(outcome@) is None,
    ensures
        json::models(block@) == outcome_hits(outcome@),
{
    let block: Vec<Json> = match judge_arrival(outcome) {
        Arrival::Answers => match &outcome.reply {
            IndexReply::Answered { response, absent: _ } => match response.get("hits") {
                Some(value) => match value.as_array() {
                    Some(hits) => source_hits(hits, outcome.index.as_str()),
                    None => Vec::new(),
                },
                None => Vec::new(),
            },
            IndexReply::Failed { message: _, config: _ } => Vec::new(),
        },
        _ => Vec::new(),
    };
    assert(json::models(block@) =~= outcome_hits(outcome@));
    block
}

/// What the outcomes of a federated search come to, taken in the order named.
struct Taken {
    blocks: Vec<Vec<Json>>,
    matched: u64,
    approximate: Option<String>,
}

/// No outcome refuses where the first refusal among them is none.
proof fn lemma_none_refuses(outcomes: Seq<(usize, OutcomeOfV)>, place: int)
    requires
        first_refusal(outcomes) is None,
        0 <= place < outcomes.len(),
    ensures
        outcome_refusal(outcomes[place].1) is None,
    decreases outcomes.len(),
{
    if place < outcomes.len() - 1 {
        lemma_none_refuses(outcomes.drop_last(), place);
    }
}

/// Models of outcomes without their places.
pub open spec fn plain_models(outcomes: Seq<IndexOutcome>) -> Seq<OutcomeOfV> {
    outcomes.map_values(|outcome: IndexOutcome| outcome@)
}

/// The first outcomes say no more matched than all do.
proof fn lemma_matched_of_first(outcomes: Seq<OutcomeOfV>, count: int)
    requires
        0 <= count <= outcomes.len(),
    ensures
        all_matched(outcomes.take(count)) <= all_matched(outcomes),
    decreases outcomes.len() - count,
{
    if count < outcomes.len() {
        lemma_matched_of_first(outcomes, count + 1);
        assert(outcomes.take(count + 1).drop_last() =~= outcomes.take(count));
    } else {
        assert(outcomes.take(count) =~= outcomes);
    }
}

/// Takes outcomes in the order named.
fn take_outcomes(ordered: &Vec<IndexOutcome>) -> (taken: Taken)
    requires
        all_matched(plain_models(ordered@)) <= u64::MAX,
        forall|i: int|
            0 <= i < ordered@.len() ==> outcome_refusal((#[trigger] ordered@[i])@) is None,
    ensures
        hits::lined_up(taken.blocks@) == all_hits(plain_models(ordered@)),
        taken.matched == all_matched(plain_models(ordered@)),
        errors::opt_text(taken.approximate) == all_approximate(plain_models(ordered@)),
{
    let ghost all = plain_models(ordered@);
    let mut blocks: Vec<Vec<Json>> = Vec::new();
    let mut matched: u64 = 0;
    let mut approximate: Option<String> = None;
    let mut i: usize = 0;
    proof {
        assert(all.take(0) =~= Seq::empty());
        assert(hits::block_models(blocks@) =~= Seq::<Seq<JsonV>>::empty());
        assert(hits::lined_up(blocks@) =~= all_hits(all.take(0)));
    }
    while i < ordered.len()
        invariant
            i <= ordered.len(),
            all == plain_models(ordered@),
            all_matched(all) <= u64::MAX,
            forall|k: int|
                0 <= k < ordered@.len() ==> outcome_refusal((#[trigger] ordered@[k])@) is None,
            hits::lined_up(blocks@) == all_hits(all.take(i as int)),
            matched == all_matched(all.take(i as int)),
            errors::opt_text(approximate) == all_approximate(all.take(i as int)),
        decreases ordered.len() - i,
    {
        let outcome: &IndexOutcome = &ordered[i];
        proof {
            assert(all.take(i + 1).drop_last() =~= all.take(i as int));
            assert(all.take(i + 1).last() == outcome@);
            lemma_matched_of_first(all, i + 1);
        }
        let block: Vec<Json> = hits_of_outcome(outcome);
        let ghost before = blocks@;
        blocks.push(block);
        proof {
            assert(hits::block_models(blocks@) =~= hits::block_models(before).push(json::models(block@)));
            hits::block_models(before).lemma_flatten_push(json::models(block@));
        }
        if let IndexReply::Answered { response, absent: _ } = &outcome.reply {
            let number: u64 = match number_at(response, "total_hits") {
                Some(n) => n,
                None => 0,
            };
            matched += number;
            if approximate.is_none() {
                approximate = match text_at(response, APPROXIMATE_SORT_FIELD) {
                    Some(name) => Some(name.clone()),
                    None => None,
                };
            }
        }
        i += 1;
    }
    assert(all.take(ordered.len() as int) =~= all);
    Taken { blocks, matched, approximate }
}

/// Answers a search of several indexes, out of what each came back with, in the order in which they
/// arrived and beside the place that the caller named each at.
///
/// An index that fails does not sink those that answered, and is told beside their hits. Where none
/// answered that is a failure, because no hits beside a list of errors would read like a query that
/// matched nothing.
pub fn answer_federated_search(
    outcomes: Vec<(usize, IndexOutcome)>,
    sort: Option<&SortSpec>,
    limit: usize,
    text: &str,
    max_response_bytes: usize,
) -> (answer: Result<Json, String>)
    requires
        matches_fit(outcome_models(outcomes@)),
    ensures
        match answer {
            Ok(value) => {
                let all = outcome_models(outcomes@);
                &&& first_refusal(all) is None
                &&& failed_indexes(all).len() < all.len() || all.len() == 0
                &&& exists|
                    ordered: Seq<OutcomeOfV>,
                    ranks: Seq<int>,
                    page: Seq<JsonV>,
                    places: Seq<int>,
                | #[trigger]
                    is_federated_answer(
                        value@,
                        all,
                        hits::direction(sort),
                        limit,
                        text@,
                        max_response_bytes as nat,
                        ordered,
                        ranks,
                        page,
                        places,
                    )
            },
            Err(message) => {
                let all = outcome_models(outcomes@);
                match first_refusal(all) {
                    Some(refusal) => message@ == refusal,
                    None => all.len() > 0 && failed_indexes(all).len() == all.len() && message@
                        == nothing_read(failed_indexes(all)),
                }
            },
        },
{
    let ghost all = outcome_models(outcomes@);
    let ghost given = outcomes@;
    let failures: Vec<(String, String)> = match note_arrivals(&outcomes) {
        Ok(failures) => failures,
        Err(message) => {
            return Err(message);
        },
    };
    assert(failed_indexes(all).len() == failures@.len());
    proof {
        lemma_failures_are_outcomes(all);
    }
    if failures.len() > 0 && failures.len() == outcomes.len() {
        return Err(tell_nothing_read(&failures));
    }
    let ordered: Vec<IndexOutcome> = in_dispatch_order(outcomes);
    let ghost names = plain_models(ordered@);
    let ghost ranks = choose|order: Seq<int>| #[trigger]
        broadcast::is_dispatch_order(given, ordered@, order);
    proof {
        broadcast::lemma_dispatch_order_maps(given, ordered@, ranks, |outcome: IndexOutcome| outcome@);
        assert(broadcast::is_dispatch_order(all, names, ranks));
        lemma_order_keeps_matched(all, names, ranks);
        assert forall|i: int| 0 <= i < ordered@.len() implies outcome_refusal(
            (#[trigger] ordered@[i])@,
        ) is None by {
            assert(0 <= ranks[i] < all.len());
            lemma_none_refuses(all, ranks[i]);
            assert(names[i] == all[ranks[i]].1);
        }
    }
    let taken: Taken = take_outcomes(&ordered);
    let ghost blocks = taken.blocks@;
    let mut page: Vec<Json> = order_hit_blocks(taken.blocks, sort, SearchWindow::first(limit));
    let ghost merged = json::models(page@);
    let ghost places = choose|order: Seq<int>| #[trigger]
        hits::is_merge_page(
            merged,
            hits::lined_up(blocks),
            hits::direction(sort),
            (SearchWindow { offset: 0, limit }),
            order,
        );
    strip_hits(&mut page);
    let ghost shown = json::models(page@);
    let returned: usize = page.len();
    assert(shown.len() == returned);
    let parts: Vec<(String, Json)> = vec![
        entry("hits", Json::list(page)),
        entry("hits_returned", Json::count(returned)),
        entry("total_hits", Json::unsigned(taken.matched)),
        entry("limit", Json::count(limit)),
    ];
    assert(json::entry_models(parts@) =~= seq![
        ("hits"@, JsonV::Array(shown)),
        ("hits_returned"@, search::count_value(shown.len())),
        ("total_hits"@, search::count_value(all_matched(names))),
        ("limit"@, search::count_value(limit as nat)),
    ]);
    let mut response: Json = Json::object(parts);
    if failures.len() > 0 {
        response.put("errors", Json::list(tell_failures(&failures)));
    }
    advise(&mut response, returned as u64, text);
    note_sort(&mut response, &taken.approximate);
    assert(response@ == federated_response(shown, names, failed_indexes(all), limit, text@));
    cap_response_bytes(&mut response, max_response_bytes);
    assert(is_federated_answer(
        response@,
        all,
        hits::direction(sort),
        limit,
        text@,
        max_response_bytes as nat,
        names,
        ranks,
        merged,
        places,
    ));
    Ok(response)
}

/// No more indexes fail than there are.
proof fn lemma_failures_are_outcomes(outcomes: Seq<(usize, OutcomeOfV)>)
    ensures
        failed_indexes(outcomes).len() <= outcomes.len(),
    decreases outcomes.len(),
{
    if outcomes.len() > 0 {
        lemma_failures_are_outcomes(outcomes.drop_last());
    }
}

/// How many documents outcomes say matched is a sum of numbers.
proof fn lemma_sum_matched_is_total(outcomes: Seq<(usize, OutcomeOfV)>)
    ensures
        sum_matched(outcomes) == order::sum_of(
            outcomes.map_values(|outcome: (usize, OutcomeOfV)| outcome_matched(outcome.1)),
        ),
    decreases outcomes.len(),
{
    let f = |outcome: (usize, OutcomeOfV)| outcome_matched(outcome.1);
    if outcomes.len() > 0 {
        lemma_sum_matched_is_total(outcomes.drop_last());
        assert(outcomes.map_values(f).drop_last() =~= outcomes.drop_last().map_values(f));
    }
}

/// How many documents outcomes say matched is a sum of numbers.
proof fn lemma_all_matched_is_total(outcomes: Seq<OutcomeOfV>)
    ensures
        all_matched(outcomes) == order::sum_of(
            outcomes.map_values(|outcome: OutcomeOfV| outcome_matched(outcome)),
        ),
    decreases outcomes.len(),
{
    let f = |outcome: OutcomeOfV| outcome_matched(outcome);
    if outcomes.len() > 0 {
        lemma_all_matched_is_total(outcomes.drop_last());
        assert(outcomes.map_values(f).drop_last() =~= outcomes.drop_last().map_values(f));
    }
}

/// In whatever order outcomes stand, they say that as many documents matched.
proof fn lemma_order_keeps_matched(
    outcomes: Seq<(usize, OutcomeOfV)>,
    ordered: Seq<OutcomeOfV>,
    ranks: Seq<int>,
)
    requires
        broadcast::is_dispatch_order(outcomes, ordered, ranks),
    ensures
        all_matched(ordered) == sum_matched(outcomes),
{
    let numbers = outcomes.map_values(|outcome: (usize, OutcomeOfV)| outcome_matched(outcome.1));
    lemma_sum_matched_is_total(outcomes);
    lemma_all_matched_is_total(ordered);
    order::law_a_sum_needs_no_order(numbers, ranks);
    assert(ordered.map_values(|outcome: OutcomeOfV| outcome_matched(outcome)) =~= order::at_places(
        numbers,
        ranks,
    ));
}

/// What a federated search finds does not depend on which index answers first: the hits to merge, the
/// count of what matched and the note on the order are the same, where no index is named at two places.
pub proof fn law_indexes_may_answer_in_any_order(
    outcomes: Seq<(usize, OutcomeOfV)>,
    ordered: Seq<OutcomeOfV>,
    ranks: Seq<int>,
    arrival: Seq<int>,
    arrived_ordered: Seq<OutcomeOfV>,
    arrived_ranks: Seq<int>,
)
    requires
        forall|i: int, j: int|
            0 <= i < j < outcomes.len() ==> (#[trigger] outcomes[i]).0 != (#[trigger] outcomes[j]).0,
        order::names_each_once(arrival, outcomes.len()),
        broadcast::is_dispatch_order(outcomes, ordered, ranks),
        broadcast::is_dispatch_order(order::at_places(outcomes, arrival), arrived_ordered, arrived_ranks),
    ensures
        all_hits(arrived_ordered) == all_hits(ordered),
        all_matched(arrived_ordered) == all_matched(ordered),
        all_approximate(arrived_ordered) == all_approximate(ordered),
{
    broadcast::law_peers_may_answer_in_any_order(
        outcomes,
        ordered,
        ranks,
        arrival,
        arrived_ordered,
        arrived_ranks,
    );
}

/// Every hit of a federated search says which index it comes from.
pub proof fn law_every_merged_hit_has_its_source(outcome: OutcomeOfV, place: int)
    requires
        0 <= place < outcome_hits(outcome).len(),
        outcome_hits(outcome)[place] is Object,
    ensures
        outcome_hits(outcome)[place].get("_index_source"@) == Some(JsonV::Text(outcome.index)),
{
    if let ReplyV::Answered { response, absent: _ } = outcome.reply {
        if let Some(hits) = broadcast::items_of(response.get("hits"@)) {
            if let JsonV::Object(entries) = hits[place] {
                json::lemma_with_entry_read_back(
                    entries,
                    "_index_source"@,
                    JsonV::Text(outcome.index),
                    "_index_source"@,
                );
            }
        }
    }
}

/// A limit that a search runs with is never above the maximum, whether it was passed or written in the
/// query.
pub proof fn law_no_search_exceeds_the_maximum(
    op: ClientOp,
    index: Seq<char>,
    fields: Option<Seq<Seq<char>>>,
    sort: Option<(Seq<char>, SortOrder)>,
    keywords: QueryKeywords,
    limit: Option<usize>,
    max: usize,
)
    requires
        limit_refusal(effective_limit(limit, keywords), max) is None,
        is_index_search(op, index, fields, sort, keywords, effective_limit(limit, keywords)),
    ensures
        op matches ClientOp::Search { limit: Some(asked), .. } ==> asked <= max,
{
}

} // verus!
