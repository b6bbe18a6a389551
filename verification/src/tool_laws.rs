//! What the search tools ask of the node, and what they make of its answers.

use vstd::prelude::*;
use crate::{broadcast_laws, diagnostics, field_info, json, order, search_laws, text, tool_search};
use crate::json::JsonV;
use crate::ops::ClientOp;
use crate::tool_search::{IndexSearch, OutcomeOfV, QueryKeywords, ReplyV};

verus! {

// ---------------------------------------------------------------------------
// What is asked
// ---------------------------------------------------------------------------

/// A search is refused where it asks for more hits than may be asked for, and only there.
pub proof fn law_only_an_excessive_limit_is_refused(limit: Option<usize>, max: usize)
    ensures
        tool_search::limit_refusal(limit, max) is Some <==> (limit matches Some(asked) && asked > max),
{
}

/// The list that a search projects to: its own, and that of the words where it has none.
pub open spec fn is_list_asked(
    sent: Option<Vec<String>>,
    own: Option<Vec<String>>,
    words: Option<Vec<String>>,
) -> bool {
    let asked = if own is Some {
        own
    } else {
        words
    };
    match asked {
        Some(list) => sent matches Some(names) && text::texts(names@) == text::texts(list@),
        None => sent is None,
    }
}

/// A search asks its own index the words that were asked, from the first hit, with the limit, the
/// fields and the sort that it gives itself, and those of the words where it gives none.
pub proof fn law_a_search_asks_what_was_asked(
    search: (String, ClientOp),
    request: IndexSearch,
    keywords: QueryKeywords,
    limit: Option<usize>,
)
    requires
        tool_search::searches_as_asked(
            search,
            request,
            keywords,
            tool_search::effective_limit(limit, keywords),
        ),
    ensures
        search.0@ == request.index@,
        search.1 matches ClientOp::Search {
            index: i,
            query: q,
            limit: l,
            offset: o,
            fields: f,
            sort: s,
        } && {
            &&& i@ == request.index@
            &&& q@ == keywords.query@
            &&& limit is Some ==> l == limit
            &&& limit is None ==> l == keywords.limit
            &&& o is None
            &&& is_list_asked(f, request.fields, keywords.fields)
            &&& request.sort matches Some(own) ==> (s matches Some(sent) && sent.field@ == own.field@
                && sent.order == own.order)
            &&& request.sort is None ==> (keywords.sort matches Some(own) ==> (s matches Some(sent)
                && sent.field@ == own.field@ && sent.order == own.order))
            &&& request.sort is None && keywords.sort is None ==> s is None
        },
{
}

/// Indexes are merged by the sort of the first request that gives one, and by that of the words where
/// none does.
pub proof fn law_indexes_are_merged_by_the_first_sort(
    requests: Seq<IndexSearch>,
    keywords: QueryKeywords,
    i: int,
)
    requires
        0 <= i <= requests.len(),
        forall|j: int| 0 <= j < i ==> (#[trigger] requests[j]).sort is None,
        i < requests.len() ==> requests[i].sort is Some,
    ensures
        i < requests.len() ==> tool_search::merge_sort(requests, keywords) == Some(
            (requests[i].sort->0.field@, requests[i].sort->0.order),
        ),
        i == requests.len() ==> (keywords.sort matches Some(own) ==> tool_search::merge_sort(
            requests,
            keywords,
        ) == Some((own.field@, own.order))),
        i == requests.len() && keywords.sort is None ==> tool_search::merge_sort(
            requests,
            keywords,
        ) is None,
{
    lemma_first_sort(requests, i);
}

/// The first sort of some requests is that of the first that gives one.
proof fn lemma_first_sort(requests: Seq<IndexSearch>, i: int)
    requires
        0 <= i <= requests.len(),
        forall|j: int| 0 <= j < i ==> (#[trigger] requests[j]).sort is None,
        i < requests.len() ==> requests[i].sort is Some,
    ensures
        i < requests.len() ==> tool_search::first_sort(requests) == Some(
            (requests[i].sort->0.field@, requests[i].sort->0.order),
        ),
        i == requests.len() ==> tool_search::first_sort(requests) is None,
    decreases requests.len(),
{
    if requests.len() > 0 {
        let rest = requests.drop_last();
        let n = rest.len() as int;
        if i < n {
            assert(rest[i] == requests[i]);
            lemma_first_sort(rest, i);
        } else {
            assert forall|j: int| 0 <= j < n implies (#[trigger] rest[j]).sort is None by {
                assert(rest[j] == requests[j]);
            }
            lemma_first_sort(rest, n);
            if i > n {
                assert(requests[n].sort is None);
            }
        }
    }
}

// ---------------------------------------------------------------------------
// What is answered
// ---------------------------------------------------------------------------

/// A search that found nothing is told with the advice on its words, where there is any; one that
/// found something is told as it is, and so is all that the answer says besides.
pub proof fn law_advice_is_for_what_found_nothing(
    response: JsonV,
    returned: nat,
    words: Seq<char>,
    key: Seq<char>,
)
    requires
        response is Object,
    ensures
        returned > 0 ==> tool_search::with_advice(response, returned, words) == response,
        diagnostics::advice_on(words) is None ==> tool_search::with_advice(response, returned, words)
            == response,
        returned == 0 ==> (diagnostics::advice_on(words) matches Some(advice)
            ==> tool_search::with_advice(response, returned, words).get("_warning"@) == Some(
            JsonV::Text(advice),
        )),
        key != "_warning"@ ==> tool_search::with_advice(response, returned, words).get(key)
            == response.get(key),
        tool_search::with_advice(response, returned, words) is Object,
{
    if let Some(advice) = diagnostics::advice_on(words) {
        json::lemma_read_back(response, "_warning"@, JsonV::Text(advice), "_warning"@);
        json::lemma_read_back(response, "_warning"@, JsonV::Text(advice), key);
    }
}

/// An approximate sort is told with a note on its field, and nothing else is changed; an exact one has
/// none.
pub proof fn law_an_approximate_sort_is_noted(response: JsonV, field: Option<Seq<char>>, key: Seq<char>)
    requires
        response is Object,
    ensures
        field is None ==> tool_search::with_sort_note(response, field) == response,
        field matches Some(name) ==> tool_search::with_sort_note(response, field).get(
            "_approximate_sort_note"@,
        ) == Some(JsonV::Text(diagnostics::approximate_sort_text(name))),
        key != "_approximate_sort_note"@ ==> tool_search::with_sort_note(response, field).get(key)
            == response.get(key),
        tool_search::with_sort_note(response, field) is Object,
{
    if let Some(name) = field {
        let note = JsonV::Text(diagnostics::approximate_sort_text(name));
        json::lemma_read_back(response, "_approximate_sort_note"@, note, "_approximate_sort_note"@);
        json::lemma_read_back(response, "_approximate_sort_note"@, note, key);
    }
}

/// How much a search matched is what its answer says matched.
pub proof fn law_what_matched_is_what_is_said(response: JsonV)
    ensures
        tool_search::matched(response) == broadcast_laws::whole_under(response, "total_hits"@),
{
}

/// An error that names a missing field is told with the fields that there are, where they are known;
/// every other error is told as it is.
pub proof fn law_an_error_is_told_as_it_is(
    error: Seq<char>,
    index: Seq<char>,
    config: Option<JsonV>,
)
    ensures
        !diagnostics::reports_missing_field(error) ==> tool_search::told_error(error, index, config)
            == error,
        config is None ==> tool_search::told_error(error, index, config) == error,
        diagnostics::reports_missing_field(error) ==> (config matches Some(schema) ==> schema.get(
            "fields"@,
        ) matches Some(JsonV::Object(entries)) ==> tool_search::told_error(error, index, config)
            == diagnostics::error_with_fields(error, index, entries.map_values(
            |entry: (Seq<char>, JsonV)| entry.0,
        ))),
{
}

// ---------------------------------------------------------------------------
// Several indexes
// ---------------------------------------------------------------------------

/// The hits of an answer.
pub open spec fn hits_of(outcome: OutcomeOfV) -> Seq<JsonV> {
    match outcome.reply {
        ReplyV::Answered { response, .. } => search_laws::hits_in(response),
        ReplyV::Failed { .. } => Seq::empty(),
    }
}

/// An index that failed, or that matched nothing and names an absence, is told as failed, in those
/// words; every other contributes its hits, as many as it sent and each as it is, under its own name.
pub proof fn law_an_index_contributes_its_hits(outcome: OutcomeOfV, place: int, key: Seq<char>)
    ensures
        outcome.reply matches ReplyV::Failed { message, config } ==> tool_search::outcome_error(outcome)
            == Some(tool_search::told_error(message, outcome.index, config))
            && tool_search::outcome_hits(outcome).len() == 0,
        outcome.reply matches ReplyV::Answered { response, absent } ==> {
            &&& broadcast_laws::whole_under(response, "total_hits"@) == 0
                ==> tool_search::outcome_error(outcome) == absent
            &&& broadcast_laws::whole_under(response, "total_hits"@) > 0
                ==> tool_search::outcome_error(outcome) is None
        },
        tool_search::outcome_error(outcome) is Some ==> tool_search::outcome_hits(outcome).len() == 0,
        tool_search::outcome_error(outcome) is None ==> {
            &&& tool_search::outcome_hits(outcome).len() == hits_of(outcome).len()
            &&& 0 <= place < hits_of(outcome).len() && hits_of(outcome)[place] is Object ==> {
                &&& tool_search::outcome_hits(outcome)[place].get("_index_source"@) == Some(
                    JsonV::Text(outcome.index),
                )
                &&& key != "_index_source"@ ==> tool_search::outcome_hits(outcome)[place].get(key)
                    == hits_of(outcome)[place].get(key)
            }
        },
{
    if tool_search::outcome_error(outcome) is None && 0 <= place < hits_of(outcome).len()
        && hits_of(outcome)[place] is Object {
        let hit = hits_of(outcome)[place];
        let put = JsonV::Text(outcome.index);
        json::lemma_read_back(hit, "_index_source"@, put, "_index_source"@);
        json::lemma_read_back(hit, "_index_source"@, put, key);
    }
}

/// What several indexes contribute is what each contributes, one after the other, and what they
/// matched is added up.
pub proof fn law_indexes_are_taken_together(outcomes: Seq<OutcomeOfV>)
    ensures
        tool_search::all_hits(outcomes) == outcomes.map_values(
            |outcome: OutcomeOfV| tool_search::outcome_hits(outcome),
        ).flatten(),
        tool_search::all_matched(outcomes) == order::sum_of(
            outcomes.map_values(
                |outcome: OutcomeOfV|
                    match outcome.reply {
                        ReplyV::Answered { response, .. } => broadcast_laws::whole_under(
                            response,
                            "total_hits"@,
                        ),
                        ReplyV::Failed { .. } => 0nat,
                    },
            ),
        ),
    decreases outcomes.len(),
{
    let hits = |outcome: OutcomeOfV| tool_search::outcome_hits(outcome);
    let count = |outcome: OutcomeOfV|
        match outcome.reply {
            ReplyV::Answered { response, .. } => broadcast_laws::whole_under(
                response,
                "total_hits"@,
            ),
            ReplyV::Failed { .. } => 0nat,
        };
    let lists = outcomes.map_values(hits);
    lists.lemma_flatten_and_flatten_alt_are_equivalent();
    if outcomes.len() > 0 {
        let rest = outcomes.drop_last();
        law_indexes_are_taken_together(rest);
        let before = rest.map_values(hits);
        before.lemma_flatten_and_flatten_alt_are_equivalent();
        assert(lists.drop_last() =~= before);
        assert(lists.last() == tool_search::outcome_hits(outcomes.last()));
        assert(outcomes.map_values(count).drop_last() =~= rest.map_values(count));
    } else {
        assert(lists =~= Seq::empty());
    }
}

/// Whether an index is told as failed with the words.
pub open spec fn is_failed_with(
    outcomes: Seq<(usize, OutcomeOfV)>,
    failure: (Seq<char>, Seq<char>),
) -> bool {
    exists|i: int|
        0 <= i < outcomes.len() && (#[trigger] outcomes[i]).1.index == failure.0
            && tool_search::outcome_error(outcomes[i].1) == Some(failure.1)
}

/// Every index that failed is told, with its own words, and no other.
pub proof fn law_every_failed_index_is_told(outcomes: Seq<(usize, OutcomeOfV)>)
    ensures
        ({
            let failures = tool_search::failed_indexes(outcomes);
            &&& forall|failure: (Seq<char>, Seq<char>)| #[trigger]
                failures.contains(failure) <==> is_failed_with(outcomes, failure)
            &&& failures.len() == order::sum_of(
                outcomes.map_values(
                    |outcome: (usize, OutcomeOfV)|
                        if tool_search::outcome_error(outcome.1) is Some {
                            1nat
                        } else {
                            0nat
                        },
                ),
            )
        }),
    decreases outcomes.len(),
{
    let failures = tool_search::failed_indexes(outcomes);
    let count = |outcome: (usize, OutcomeOfV)|
        if tool_search::outcome_error(outcome.1) is Some {
            1nat
        } else {
            0nat
        };
    if outcomes.len() > 0 {
        let rest = outcomes.drop_last();
        let n = rest.len() as int;
        law_every_failed_index_is_told(rest);
        let before = tool_search::failed_indexes(rest);
        assert(outcomes.map_values(count).drop_last() =~= rest.map_values(count));
        assert(outcomes[n] == outcomes.last());
        assert forall|failure: (Seq<char>, Seq<char>)| #[trigger]
            failures.contains(failure) <==> is_failed_with(outcomes, failure) by {
            if before.contains(failure) {
                let k = choose|k: int| 0 <= k < before.len() && before[k] == failure;
                assert(failures[k] == failure);
                let i = choose|i: int|
                    0 <= i < rest.len() && (#[trigger] rest[i]).1.index == failure.0
                        && tool_search::outcome_error(rest[i].1) == Some(failure.1);
                assert(outcomes[i] == rest[i]);
            } else {
                if failures.contains(failure) {
                    let k = choose|k: int| 0 <= k < failures.len() && failures[k] == failure;
                    if k < before.len() {
                        assert(before[k] == failure);
                    }
                }
                if is_failed_with(outcomes, failure) {
                    let i = choose|i: int|
                        0 <= i < outcomes.len() && (#[trigger] outcomes[i]).1.index == failure.0
                            && tool_search::outcome_error(outcomes[i].1) == Some(failure.1);
                    if i < n {
                        assert(rest[i] == outcomes[i]);
                    } else {
                        assert(failures[before.len() as int] == failure);
                    }
                }
            }
        }
    }
}

/// The first index whose query cannot be run refuses the search, by its name and in its words; where
/// every query can be run the search is not refused.
pub proof fn law_the_first_refusal_refuses(outcomes: Seq<(usize, OutcomeOfV)>, i: int)
    requires
        0 <= i <= outcomes.len(),
        forall|j: int|
            0 <= j < i ==> tool_search::outcome_refusal((#[trigger] outcomes[j]).1) is None,
        i < outcomes.len() ==> tool_search::outcome_refusal(outcomes[i].1) is Some,
    ensures
        i < outcomes.len() ==> tool_search::first_refusal(outcomes) == tool_search::outcome_refusal(
            outcomes[i].1,
        ),
        i == outcomes.len() ==> tool_search::first_refusal(outcomes) is None,
    decreases outcomes.len(),
{
    if outcomes.len() > 0 {
        let rest = outcomes.drop_last();
        let n = rest.len() as int;
        if i < n {
            assert(rest[i] == outcomes[i]);
            law_the_first_refusal_refuses(rest, i);
        } else {
            assert forall|j: int| 0 <= j < n implies tool_search::outcome_refusal(
                (#[trigger] rest[j]).1,
            ) is None by {
                assert(rest[j] == outcomes[j]);
            }
            law_the_first_refusal_refuses(rest, n);
            if i > n {
                assert(tool_search::outcome_refusal(outcomes[n].1) is None);
            }
        }
    }
}

/// An answer from several indexes holds its page, counts it, tells how much matched in all of them
/// together and how many were asked for, and every index that failed by its name and in its words.
pub proof fn law_a_federated_answer_tells_its_indexes(
    page: Seq<JsonV>,
    ordered: Seq<OutcomeOfV>,
    failures: Seq<(Seq<char>, Seq<char>)>,
    limit: usize,
    words: Seq<char>,
)
    ensures
        ({
            let answer = tool_search::federated_response(page, ordered, failures, limit, words);
            &&& answer.get("hits"@) == Some(JsonV::Array(page))
            &&& search_laws::is_count(answer.get("hits_returned"@), page.len())
            &&& search_laws::is_count(answer.get("total_hits"@), tool_search::all_matched(ordered))
            &&& search_laws::is_count(answer.get("limit"@), limit as nat)
            &&& failures.len() == 0 ==> answer.get("errors"@) is None
            &&& failures.len() > 0 ==> (answer.get("errors"@) matches Some(JsonV::Array(told))
                && told.len() == failures.len() && forall|i: int|
                0 <= i < told.len() ==> is_told_failure(#[trigger] told[i], failures[i]))
            &&& page.len() > 0 ==> answer.get("_warning"@) is None
            &&& page.len() == 0 ==> (diagnostics::advice_on(words) matches Some(advice)
                ==> answer.get("_warning"@) == Some(JsonV::Text(advice)))
            &&& tool_search::all_approximate(ordered) is None ==> answer.get(
                "_approximate_sort_note"@,
            ) is None
            &&& tool_search::all_approximate(ordered) matches Some(name) ==> answer.get(
                "_approximate_sort_note"@,
            ) == Some(JsonV::Text(diagnostics::approximate_sort_text(name)))
        }),
{
    search_laws::lemma_part_names();
    reveal_strlit("hits");
    reveal_strlit("hits_returned");
    reveal_strlit("total_hits");
    reveal_strlit("limit");
    reveal_strlit("errors");
    reveal_strlit("_warning");
    reveal_strlit("_approximate_sort_note");
    assert("hits"@.len() == 4 && "hits_returned"@.len() == 13 && "total_hits"@.len() == 10);
    assert("limit"@.len() == 5 && "errors"@.len() == 6 && "_warning"@.len() == 8);
    assert("_approximate_sort_note"@.len() == 22);
    let base = JsonV::Object(
        seq![
            ("hits"@, JsonV::Array(page)),
            ("hits_returned"@, crate::search::count_value(page.len())),
            ("total_hits"@, crate::search::count_value(tool_search::all_matched(ordered))),
            ("limit"@, crate::search::count_value(limit as nat)),
        ],
    );
    let entries = base->Object_0;
    json::lemma_key_place_is(entries, "hits"@, 0);
    json::lemma_key_place_is(entries, "hits_returned"@, 1);
    json::lemma_key_place_is(entries, "total_hits"@, 2);
    json::lemma_key_place_is(entries, "limit"@, 3);
    json::lemma_key_place_is(entries, "errors"@, 4);
    json::lemma_key_place_is(entries, "_warning"@, 4);
    json::lemma_key_place_is(entries, "_approximate_sort_note"@, 4);
    let list = JsonV::Array(tool_search::failure_values(failures));
    let told = if failures.len() == 0 {
        base
    } else {
        base.with("errors"@, list)
    };
    let field = tool_search::all_approximate(ordered);
    lemma_reads_through(base, told, list, failures, page.len(), words, field, "hits"@);
    lemma_reads_through(base, told, list, failures, page.len(), words, field, "hits_returned"@);
    lemma_reads_through(base, told, list, failures, page.len(), words, field, "total_hits"@);
    lemma_reads_through(base, told, list, failures, page.len(), words, field, "limit"@);
    lemma_reads_through(base, told, list, failures, page.len(), words, field, "errors"@);
    json::lemma_read_back(base, "errors"@, list, "_warning"@);
    json::lemma_read_back(base, "errors"@, list, "_approximate_sort_note"@);
    json::lemma_read_back(base, "errors"@, list, "errors"@);
    law_advice_is_for_what_found_nothing(told, page.len(), words, "_approximate_sort_note"@);
    let advised = tool_search::with_advice(told, page.len(), words);
    law_an_approximate_sort_is_noted(advised, field, "_warning"@);
    if failures.len() > 0 {
        let values = tool_search::failure_values(failures);
        assert forall|i: int| 0 <= i < values.len() implies is_told_failure(
            #[trigger] values[i],
            failures[i],
        ) by {
            lemma_failure_reads(failures[i]);
        }
    }
}

/// Whether a value tells a failure: the index and its words.
pub open spec fn is_told_failure(value: JsonV, failure: (Seq<char>, Seq<char>)) -> bool {
    &&& value.get("index"@) == Some(JsonV::Text(failure.0))
    &&& value.get("error"@) == Some(JsonV::Text(failure.1))
}

/// A failure's value tells the failure.
proof fn lemma_failure_reads(failure: (Seq<char>, Seq<char>))
    ensures
        is_told_failure(tool_search::failure_value(failure), failure),
{
    reveal_strlit("index");
    reveal_strlit("error");
    assert("index"@[0] == 'i' && "error"@[0] == 'e');
    let entries = tool_search::failure_value(failure)->Object_0;
    json::lemma_key_place_is(entries, "index"@, 0);
    json::lemma_key_place_is(entries, "error"@, 1);
}

/// What stands under a key that no note takes is what stood there.
proof fn lemma_reads_through(
    base: JsonV,
    told: JsonV,
    list: JsonV,
    failures: Seq<(Seq<char>, Seq<char>)>,
    returned: nat,
    words: Seq<char>,
    field: Option<Seq<char>>,
    key: Seq<char>,
)
    requires
        base is Object,
        told == (if failures.len() == 0 {
            base
        } else {
            base.with("errors"@, list)
        }),
        key != "_warning"@,
        key != "_approximate_sort_note"@,
    ensures
        told is Object,
        tool_search::with_sort_note(tool_search::with_advice(told, returned, words), field).get(key)
            == told.get(key),
        key != "errors"@ ==> told.get(key) == base.get(key),
{
    json::lemma_read_back(base, "errors"@, list, key);
    law_advice_is_for_what_found_nothing(told, returned, words, key);
    law_an_approximate_sort_is_noted(tool_search::with_advice(told, returned, words), field, key);
}

/// A described field is read as it is described: a field is taken for a searchable text where it is not
/// said to be anything else, and for nothing more.
pub proof fn law_a_described_field_is_read_back(def: JsonV)
    ensures
        ({
            let info = field_info::info_of(def);
            &&& def.get("name"@) matches Some(JsonV::Text(name)) ==> info.name == name
            &&& def.get("type"@) matches Some(JsonV::Text(kind)) ==> info.field_type == kind
            &&& !(def.get("type"@) matches Some(JsonV::Text(_))) ==> info.field_type == "text"@
            &&& def.get("indexed"@) matches Some(JsonV::Bool(truth)) ==> info.indexed == truth
            &&& !(def.get("indexed"@) matches Some(JsonV::Bool(_))) ==> info.indexed
            &&& def.get("fast"@) matches Some(JsonV::Bool(truth)) ==> info.fast == truth
            &&& !(def.get("fast"@) matches Some(JsonV::Bool(_))) ==> !info.fast
            &&& def.get("shadow"@) matches Some(JsonV::Bool(truth)) ==> info.is_shadow == truth
            &&& !(def.get("shadow"@) matches Some(JsonV::Bool(_))) ==> !info.is_shadow
            &&& def.get("searchable"@) matches Some(JsonV::Bool(truth)) ==> info.searchable == truth
            &&& !(def.get("searchable"@) matches Some(JsonV::Bool(_))) ==> info.searchable
            &&& def.get("sortable"@) matches Some(JsonV::Bool(truth)) ==> info.sortable == truth
            &&& !(def.get("sortable"@) matches Some(JsonV::Bool(_))) ==> !info.sortable
            &&& def.get("description"@) matches Some(JsonV::Text(words)) ==> info.description == Some(
                words,
            )
            &&& !(def.get("description"@) matches Some(JsonV::Text(_))) ==> info.description is None
            &&& def.get("returned_as"@) matches Some(JsonV::Text(name)) ==> info.returned_as == Some(
                name,
            )
            &&& !(def.get("returned_as"@) matches Some(JsonV::Text(_))) ==> info.returned_as is None
        }),
{
}

/// A field can be queried where it can be searched, and a shadow always can.
pub proof fn law_a_shadow_can_be_queried(info: crate::field_info::FieldInfoV)
    ensures
        info.is_shadow ==> field_info::queryable(info),
        info.searchable ==> field_info::queryable(info),
        !info.is_shadow && !info.searchable ==> !field_info::queryable(info),
{
}

} // verus!
