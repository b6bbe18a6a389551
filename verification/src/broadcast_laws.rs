//! What a broadcast asks of its peers, and what is made of their answers.

use vstd::prelude::*;
use crate::{broadcast, errors, hits, json, order, search_laws};
use crate::broadcast::MergeV;
use crate::errors::APPROXIMATE_SORT_FIELD;
use crate::hits::{SearchWindow, SortOrder};
use crate::json::{JsonV, NumV};
use crate::ops::ClientOp;

verus! {

// ---------------------------------------------------------------------------
// What is asked
// ---------------------------------------------------------------------------

/// The page of a search is what it asks for, from the start and of the usual length where it does not
/// say.
pub proof fn law_a_search_asks_for_its_page(op: ClientOp, default_limit: usize)
    ensures
        op matches ClientOp::Search { limit, offset, .. } ==> {
            let page = broadcast::page_asked(op, default_limit);
            &&& offset matches Some(n) ==> page.offset == n
            &&& offset is None ==> page.offset == 0
            &&& limit matches Some(n) ==> page.limit == n
            &&& limit is None ==> page.limit == default_limit
        },
        !(op is Search) ==> broadcast::page_asked(op, default_limit).offset == 0
            && broadcast::page_asked(op, default_limit).limit == default_limit,
{
}

/// A peer is asked the same search of the same index, for everything up to the end of the page: a hit
/// of the page may be the peer's first. Nothing but a search is changed.
pub proof fn law_a_peer_is_asked_up_to_the_end_of_the_page(op: ClientOp, window: SearchWindow)
    ensures
        op matches ClientOp::Search { index, query, fields, sort, .. } ==> {
            &&& broadcast::widened(op, window) matches ClientOp::Search {
                index: sent_index,
                query: sent_query,
                limit,
                offset,
                fields: sent_fields,
                sort: sent_sort,
            } && {
                &&& sent_index == index
                &&& sent_query == query
                &&& sent_fields == fields
                &&& sent_sort == sort
                &&& offset is None
                &&& window.offset + window.limit <= usize::MAX ==> limit == Some(
                    (window.offset + window.limit) as usize,
                )
                &&& window.offset + window.limit > usize::MAX ==> limit == Some(usize::MAX)
            }
        },
        !(op is Search) ==> broadcast::widened(op, window) == op,
{
}

// ---------------------------------------------------------------------------
// A list that tells each of its texts once
// ---------------------------------------------------------------------------

/// Whether a text stands in a list before a place.
pub open spec fn stands_before(list: Seq<Seq<char>>, text: Seq<char>, place: int) -> bool {
    exists|q: int| 0 <= q < place && q < list.len() && #[trigger] list[q] == text
}

/// What is told once is told, all of it and nothing else, each text in the place where it came first.
pub proof fn law_what_is_told_once_is_told(list: Seq<Seq<char>>)
    ensures
        ({
            let told = errors::distinct_in_order(list);
            &&& told.no_duplicates()
            &&& forall|i: int| 0 <= i < list.len() ==> told.contains(#[trigger] list[i])
            &&& forall|i: int|
                0 <= i < told.len() ==> stands_before(list, #[trigger] told[i], list.len() as int)
            &&& forall|i: int, j: int, p: int|
                0 <= i < j < told.len() && 0 <= p < list.len() && #[trigger] list[p]
                    == #[trigger] told[j] ==> stands_before(list, #[trigger] told[i], p)
            &&& told.len() == 0 <==> list.len() == 0
        }),
    decreases list.len(),
{
    if list.len() > 0 {
        let shorter = list.drop_last();
        let n = shorter.len() as int;
        let before = errors::distinct_in_order(shorter);
        let told = errors::distinct_in_order(list);
        law_what_is_told_once_is_told(shorter);
        assert forall|i: int| 0 <= i < list.len() implies told.contains(#[trigger] list[i]) by {
            if i < n {
                assert(before.contains(shorter[i]));
                let k = choose|k: int| 0 <= k < before.len() && before[k] == shorter[i];
                assert(told[k] == list[i]);
            } else if !before.contains(list.last()) {
                assert(told[before.len() as int] == list[i]);
            }
        }
        assert forall|i: int| 0 <= i < told.len() implies stands_before(
            list,
            #[trigger] told[i],
            list.len() as int,
        ) by {
            if i < before.len() {
                assert(stands_before(shorter, before[i], n));
                let q = choose|q: int| 0 <= q < n && #[trigger] shorter[q] == before[i];
                assert(list[q] == told[i]);
            } else {
                assert(list[n] == told[i]);
            }
        }
        assert forall|i: int, j: int, p: int|
            0 <= i < j < told.len() && 0 <= p < list.len() && #[trigger] list[p]
                == #[trigger] told[j] implies stands_before(list, #[trigger] told[i], p) by {
            if j < before.len() {
                if p < n {
                    assert(shorter[p] == before[j]);
                    assert(stands_before(shorter, before[i], p));
                    let q = choose|q: int| 0 <= q < p && q < n && #[trigger] shorter[q] == before[i];
                    assert(list[q] == told[i]);
                } else {
                    assert(stands_before(shorter, before[i], n));
                    let q = choose|q: int| 0 <= q < n && #[trigger] shorter[q] == before[i];
                    assert(list[q] == told[i]);
                }
            } else {
                if p < n {
                    assert(before.contains(shorter[p]));
                    assert(false);
                }
                assert(stands_before(shorter, before[i], n));
                let q = choose|q: int| 0 <= q < n && #[trigger] shorter[q] == before[i];
                assert(list[q] == told[i]);
            }
        }
        if told.len() == 0 {
            assert(told.contains(list[n]));
        }
    }
}

// ---------------------------------------------------------------------------
// Merging
// ---------------------------------------------------------------------------

/// The whole number that an answer holds under a key, and none where it holds no such number.
pub open spec fn whole_under(value: JsonV, key: Seq<char>) -> nat {
    match value.get(key) {
        Some(JsonV::Number(NumV::Unsigned(n))) => n as nat,
        _ => 0,
    }
}

/// How many shards a peer says answered it.
pub open spec fn responded_in(value: JsonV) -> nat {
    match value.get("stats"@) {
        Some(stats) => match stats.get("shards"@) {
            Some(shards) => whole_under(shards, "responded"@),
            None => 0,
        },
        None => 0,
    }
}

/// What the answers that came say, one after the other.
pub open spec fn said_in(
    answers: Seq<Option<JsonV>>,
    says: spec_fn(JsonV) -> nat,
) -> Seq<nat> {
    answers.map_values(
        |answer: Option<JsonV>|
            match answer {
                Some(value) => says(value),
                None => 0nat,
            },
    )
}

/// Whether an answer that came holds these hits.
pub open spec fn holds_hits(answer: Option<JsonV>, hits: Seq<JsonV>) -> bool {
    answer matches Some(value) && value.get("hits"@) == Some(JsonV::Array(hits))
}

/// Whether an answer that came tells this note.
pub open spec fn tells_note(answer: Option<JsonV>, note: Seq<char>) -> bool {
    answer matches Some(value) && (value.get("_discarded_clauses"@) matches Some(JsonV::Array(notes))
        && notes.contains(JsonV::Text(note)))
}

/// Whether some answer holds these hits.
pub open spec fn some_holds(answers: Seq<Option<JsonV>>, hits: Seq<JsonV>) -> bool {
    exists|i: int| 0 <= i < answers.len() && holds_hits(#[trigger] answers[i], hits)
}

/// Whether some answer tells the note.
pub open spec fn some_tells(answers: Seq<Option<JsonV>>, note: Seq<char>) -> bool {
    exists|i: int| 0 <= i < answers.len() && tells_note(#[trigger] answers[i], note)
}

/// The texts among an array's items are its texts.
proof fn lemma_texts_among(items: Seq<JsonV>, note: Seq<char>)
    ensures
        broadcast::texts_among(items).contains(note) <==> items.contains(JsonV::Text(note)),
    decreases items.len(),
{
    if items.len() > 0 {
        let rest = items.drop_last();
        lemma_texts_among(rest, note);
        let before = broadcast::texts_among(rest);
        let all = broadcast::texts_among(items);
        if before.contains(note) {
            let k = choose|k: int| 0 <= k < before.len() && before[k] == note;
            assert(all[k] == note);
        }
        if items.contains(JsonV::Text(note)) {
            let k = choose|k: int| 0 <= k < items.len() && items[k] == JsonV::Text(note);
            if k < rest.len() {
                assert(rest[k] == JsonV::Text(note));
            } else {
                assert(all[before.len() as int] == note);
            }
        }
        if all.contains(note) && !before.contains(note) {
            let k = choose|k: int| 0 <= k < all.len() && all[k] == note;
            if k < before.len() {
                assert(before[k] == note);
            }
            assert(items[items.len() - 1] == JsonV::Text(note));
        }
        if rest.contains(JsonV::Text(note)) {
            let k = choose|k: int| 0 <= k < rest.len() && rest[k] == JsonV::Text(note);
            assert(items[k] == JsonV::Text(note));
        }
    }
}

/// A merge adds up what the peers that answered say, and counts those that did not.
pub proof fn law_a_merge_adds_up(answers: Seq<Option<JsonV>>)
    ensures
        ({
            let known = broadcast::merged(answers);
            &&& known.shards == order::sum_of(said_in(answers, |value: JsonV| responded_in(value)))
            &&& known.total_hits == order::sum_of(
                said_in(answers, |value: JsonV| whole_under(value, "total_hits"@)),
            )
            &&& known.contacted == order::sum_of(said_in(answers, |value: JsonV| 1nat))
            &&& known.contacted + known.failed == answers.len()
        }),
    decreases answers.len(),
{
    if answers.len() > 0 {
        let shorter = answers.drop_last();
        law_a_merge_adds_up(shorter);
        let one = |value: JsonV| responded_in(value);
        let two = |value: JsonV| whole_under(value, "total_hits"@);
        let three = |value: JsonV| 1nat;
        assert(said_in(answers, one).drop_last() =~= said_in(shorter, one));
        assert(said_in(answers, two).drop_last() =~= said_in(shorter, two));
        assert(said_in(answers, three).drop_last() =~= said_in(shorter, three));
    }
}

/// A merge took as long as the slowest peer that says how long it took.
pub proof fn law_a_merge_takes_as_long_as_its_slowest(answers: Seq<Option<JsonV>>)
    ensures
        ({
            let took = broadcast::merged(answers).took_ms;
            &&& forall|i: int|
                0 <= i < answers.len() ==> ((#[trigger] answers[i]) matches Some(value)
                    ==> value.get("took_ms"@) matches Some(JsonV::Number(NumV::Unsigned(n)))
                    ==> took is Some && took->0 >= n)
            &&& took matches Some(longest) ==> exists|i: int|
                0 <= i < answers.len() && ((#[trigger] answers[i]) matches Some(value)
                    && value.get("took_ms"@) == Some(JsonV::Number(NumV::Unsigned(longest))))
        }),
    decreases answers.len(),
{
    if answers.len() > 0 {
        let shorter = answers.drop_last();
        let n = shorter.len() as int;
        law_a_merge_takes_as_long_as_its_slowest(shorter);
        let took = broadcast::merged(answers).took_ms;
        let before = broadcast::merged(shorter).took_ms;
        assert forall|i: int| 0 <= i < answers.len() implies ((#[trigger] answers[i]) matches Some(value)
            ==> value.get("took_ms"@) matches Some(JsonV::Number(NumV::Unsigned(n)))
            ==> took is Some && took->0 >= n) by {
            if i < n {
                assert(shorter[i] == answers[i]);
            }
        }
        if let Some(longest) = took {
            if took == before {
                let i = choose|i: int|
                    0 <= i < shorter.len() && ((#[trigger] shorter[i]) matches Some(value)
                        && value.get("took_ms"@) == Some(JsonV::Number(NumV::Unsigned(longest))));
                assert(answers[i] == shorter[i]);
            } else {
                assert(answers[n] == answers.last());
            }
        }
    }
}

/// A merge keeps every hit that a peer sent and every note that it told, and no other.
pub proof fn law_a_merge_keeps_what_the_peers_sent(answers: Seq<Option<JsonV>>)
    ensures
        ({
            let known = broadcast::merged(answers);
            &&& forall|b: int|
                0 <= b < known.blocks.len() ==> some_holds(answers, #[trigger] known.blocks[b])
            &&& forall|i: int, hits: Seq<JsonV>|
                0 <= i < answers.len() && #[trigger] holds_hits(answers[i], hits)
                    ==> known.blocks.contains(hits)
            &&& known.blocks.len() == order::sum_of(
                said_in(
                    answers,
                    |value: JsonV|
                        if value.get("hits"@) matches Some(JsonV::Array(_)) {
                            1nat
                        } else {
                            0nat
                        },
                ),
            )
            &&& forall|note: Seq<char>| #[trigger]
                known.notes.contains(note) <==> some_tells(answers, note)
        }),
    decreases answers.len(),
{
    let counts = |value: JsonV|
        if value.get("hits"@) matches Some(JsonV::Array(_)) {
            1nat
        } else {
            0nat
        };
    let known = broadcast::merged(answers);
    if answers.len() > 0 {
        let shorter = answers.drop_last();
        let n = shorter.len() as int;
        let before = broadcast::merged(shorter);
        law_a_merge_keeps_what_the_peers_sent(shorter);
        assert(said_in(answers, counts).drop_last() =~= said_in(shorter, counts));
        assert(answers[n] == answers.last());
        assert forall|b: int| 0 <= b < known.blocks.len() implies some_holds(
            answers,
            #[trigger] known.blocks[b],
        ) by {
            if b < before.blocks.len() {
                assert(known.blocks[b] == before.blocks[b]);
                let i = choose|i: int|
                    0 <= i < shorter.len() && holds_hits(#[trigger] shorter[i], before.blocks[b]);
                assert(answers[i] == shorter[i]);
            } else {
                assert(holds_hits(answers[n], known.blocks[b]));
            }
        }
        assert forall|i: int, hits: Seq<JsonV>|
            0 <= i < answers.len() && #[trigger] holds_hits(
                answers[i],
                hits,
            ) implies known.blocks.contains(hits) by {
            if i < n {
                assert(holds_hits(shorter[i], hits));
                assert(before.blocks.contains(hits));
                let k = choose|k: int| 0 <= k < before.blocks.len() && before.blocks[k] == hits;
                assert(known.blocks[k] == hits);
            } else {
                assert(known.blocks[before.blocks.len() as int] == hits);
            }
        }
        assert forall|note: Seq<char>| #[trigger]
            known.notes.contains(note) <==> some_tells(answers, note) by {
            lemma_note_step(answers, note);
        }
    } else {
        assert forall|note: Seq<char>| #[trigger]
            known.notes.contains(note) <==> some_tells(answers, note) by {}
    }
}

/// One more answer adds the notes that it tells.
proof fn lemma_note_step(answers: Seq<Option<JsonV>>, note: Seq<char>)
    requires
        answers.len() > 0,
        broadcast::merged(answers.drop_last()).notes.contains(note) <==> some_tells(
            answers.drop_last(),
            note,
        ),
    ensures
        broadcast::merged(answers).notes.contains(note) <==> some_tells(answers, note),
{
    let shorter = answers.drop_last();
    let n = shorter.len() as int;
    let known = broadcast::merged(answers).notes;
    let before = broadcast::merged(shorter).notes;
    assert(answers[n] == answers.last());
    if let Some(value) = answers.last() {
        let told = broadcast::notes_of(value);
        if let Some(JsonV::Array(items)) = value.get("_discarded_clauses"@) {
            lemma_texts_among(items, note);
        }
        assert(told.contains(note) <==> tells_note(answers[n], note));
        assert(known == before + told);
        if before.contains(note) {
            let k = choose|k: int| 0 <= k < before.len() && before[k] == note;
            assert(known[k] == note);
        }
        if told.contains(note) {
            let k = choose|k: int| 0 <= k < told.len() && told[k] == note;
            assert(known[before.len() + k] == note);
        }
        if known.contains(note) {
            let k = choose|k: int| 0 <= k < known.len() && known[k] == note;
            if k < before.len() {
                assert(before[k] == note);
            } else {
                assert(told[k - before.len()] == note);
            }
        }
    }
    if some_tells(shorter, note) {
        let i = choose|i: int| 0 <= i < shorter.len() && tells_note(#[trigger] shorter[i], note);
        assert(answers[i] == shorter[i]);
    }
    if some_tells(answers, note) {
        let i = choose|i: int| 0 <= i < answers.len() && tells_note(#[trigger] answers[i], note);
        if i < n {
            assert(shorter[i] == answers[i]);
        }
    }
}

/// The sort of a merge is approximate where the first peer that says so says it is, by the field that
/// this peer names.
pub proof fn law_an_approximate_sort_is_told_on(answers: Seq<Option<JsonV>>, i: int)
    requires
        0 <= i < answers.len(),
        forall|j: int|
            0 <= j < i ==> !((#[trigger] answers[j]) matches Some(value) && (value.get(
                "_approximate_sort"@,
            ) matches Some(JsonV::Text(_)))),
    ensures
        answers[i] matches Some(value) ==> value.get("_approximate_sort"@) matches Some(
            JsonV::Text(field),
        ) ==> broadcast::merged(answers).approximate == Some(field),
        (i == answers.len() - 1 && !(answers[i] matches Some(value) && (value.get(
            "_approximate_sort"@,
        ) matches Some(JsonV::Text(_))))) ==> broadcast::merged(answers).approximate is None,
    decreases answers.len(),
{
    let shorter = answers.drop_last();
    assert forall|j: int| 0 <= j < i && j < shorter.len() implies !((#[trigger] shorter[j]) matches Some(
        value,
    ) && (value.get("_approximate_sort"@) matches Some(JsonV::Text(_)))) by {
        assert(shorter[j] == answers[j]);
    }
    if i < answers.len() - 1 {
        assert(shorter[i] == answers[i]);
        law_an_approximate_sort_is_told_on(shorter, i);
    } else if i > 0 {
        assert(!(shorter[i - 1] matches Some(value) && (value.get("_approximate_sort"@) matches Some(
            JsonV::Text(_),
        ))));
        law_an_approximate_sort_is_told_on(shorter, i - 1);
    } else {
        assert(broadcast::merged(shorter).approximate is None);
    }
}

// ---------------------------------------------------------------------------
// Answers
// ---------------------------------------------------------------------------

/// What stands under the keys of a merged body.
proof fn lemma_merged_body_reads(
    page: Seq<JsonV>,
    window: SearchWindow,
    took_ms: u64,
    known: MergeV,
)
    ensures
        ({
            let body = broadcast::merged_body(page, window, took_ms, known);
            &&& body is Object
            &&& body.get("hits"@) == Some(JsonV::Array(page))
            &&& search_laws::is_count(body.get("hits_returned"@), page.len())
            &&& search_laws::is_count(body.get("total_hits"@), known.total_hits)
            &&& search_laws::is_count(body.get("limit"@), window.limit as nat)
            &&& search_laws::is_count(body.get("offset"@), window.offset as nat)
            &&& search_laws::is_count(body.get("took_ms"@), took_ms as nat)
            &&& body.get("_discarded_clauses"@) is None
            &&& body.get("_approximate_sort"@) is None
            &&& body.get("stats"@) matches Some(stats) && {
                &&& stats.get("shards"@) matches Some(asked) && {
                    &&& search_laws::is_count(asked.get("total"@), known.shards)
                    &&& known.failed <= known.shards ==> search_laws::is_count(
                        asked.get("responded"@),
                        (known.shards - known.failed) as nat,
                    )
                    &&& search_laws::is_count(asked.get("failed"@), known.failed)
                }
                &&& stats.get("nodes"@) matches Some(nodes) && search_laws::is_count(
                    nodes.get("contacted"@),
                    known.contacted,
                )
            }
        }),
{
    search_laws::lemma_part_names();
    reveal_strlit("shards");
    reveal_strlit("nodes");
    assert("shards"@.len() == 6 && "nodes"@.len() == 5);
    let body = broadcast::merged_body(page, window, took_ms, known);
    let entries = body->Object_0;
    json::lemma_key_place_is(entries, "hits"@, 0);
    json::lemma_key_place_is(entries, "hits_returned"@, 1);
    json::lemma_key_place_is(entries, "total_hits"@, 2);
    json::lemma_key_place_is(entries, "limit"@, 3);
    json::lemma_key_place_is(entries, "offset"@, 4);
    json::lemma_key_place_is(entries, "took_ms"@, 5);
    json::lemma_key_place_is(entries, "stats"@, 6);
    json::lemma_key_place_is(entries, "_discarded_clauses"@, 7);
    json::lemma_key_place_is(entries, "_approximate_sort"@, 7);
    let stats = broadcast::cluster_stats(known.shards, known.failed, known.contacted);
    let outer = stats->Object_0;
    json::lemma_key_place_is(outer, "shards"@, 0);
    json::lemma_key_place_is(outer, "nodes"@, 1);
    let inner = outer[0].1->Object_0;
    json::lemma_key_place_is(inner, "total"@, 0);
    json::lemma_key_place_is(inner, "responded"@, 1);
    json::lemma_key_place_is(inner, "failed"@, 2);
    json::lemma_key_place_is(outer[1].1->Object_0, "contacted"@, 0);
}

/// Whether a value is the list of these texts.
pub open spec fn lists_texts(value: Option<JsonV>, texts: Seq<Seq<char>>) -> bool {
    value matches Some(JsonV::Array(items)) && items.len() == texts.len() && forall|i: int|
        0 <= i < items.len() ==> #[trigger] items[i] == JsonV::Text(texts[i])
}

/// A merged answer holds its page, tells what the peers say matched in all of them together, what page
/// it is, how long the slowest peer took, and how many shards and nodes stand behind it; it tells each
/// note once, and the field that a sort is approximate by.
pub proof fn law_a_merged_answer_tells_what_was_merged(
    answers: Seq<Option<JsonV>>,
    answer: JsonV,
    sort: Option<SortOrder>,
    window: SearchWindow,
    elapsed_ms: u64,
    page: Seq<JsonV>,
    order: Seq<int>,
)
    requires
        broadcast::is_merged_answer(
            answer,
            broadcast::merged(answers),
            sort,
            window,
            elapsed_ms,
            page,
            order,
        ),
    ensures
        hits::is_merge_page(page, broadcast::merged(answers).blocks.flatten(), sort, window, order),
        answer.get("hits"@) == Some(JsonV::Array(page)),
        search_laws::is_count(answer.get("hits_returned"@), page.len()),
        search_laws::is_count(
            answer.get("total_hits"@),
            order::sum_of(said_in(answers, |value: JsonV| whole_under(value, "total_hits"@))),
        ),
        search_laws::is_count(answer.get("limit"@), window.limit as nat),
        search_laws::is_count(answer.get("offset"@), window.offset as nat),
        broadcast::merged(answers).took_ms matches Some(took) ==> search_laws::is_count(
            answer.get("took_ms"@),
            took as nat,
        ),
        broadcast::merged(answers).took_ms is None ==> search_laws::is_count(
            answer.get("took_ms"@),
            elapsed_ms as nat,
        ),
        ({
            let shards = order::sum_of(said_in(answers, |value: JsonV| responded_in(value)));
            let came = order::sum_of(said_in(answers, |value: JsonV| 1nat));
            answer.get("stats"@) matches Some(stats) && {
                &&& stats.get("shards"@) matches Some(asked) && {
                    &&& search_laws::is_count(asked.get("total"@), shards)
                    &&& answers.len() - came <= shards ==> search_laws::is_count(
                        asked.get("responded"@),
                        (shards - (answers.len() - came)) as nat,
                    )
                    &&& search_laws::is_count(asked.get("failed"@), (answers.len() - came) as nat)
                }
                &&& stats.get("nodes"@) matches Some(nodes) && search_laws::is_count(
                    nodes.get("contacted"@),
                    came,
                )
            }
        }),
        broadcast::merged(answers).notes.len() == 0 ==> answer.get("_discarded_clauses"@) is None,
        broadcast::merged(answers).notes.len() > 0 ==> lists_texts(
            answer.get("_discarded_clauses"@),
            errors::distinct_in_order(broadcast::merged(answers).notes),
        ),
        broadcast::merged(answers).approximate matches Some(field) ==> answer.get("_approximate_sort"@)
            == Some(JsonV::Text(field)),
        broadcast::merged(answers).approximate is None ==> answer.get("_approximate_sort"@) is None,
{
    let known = broadcast::merged(answers);
    law_a_merge_adds_up(answers);
    search_laws::lemma_part_names();
    let took = match known.took_ms {
        Some(took) => took,
        None => elapsed_ms,
    };
    let body = broadcast::merged_body(page, window, took, known);
    lemma_merged_body_reads(page, window, took, known);
    let none = Seq::<Seq<char>>::empty();
    let notes = errors::distinct_in_order(known.notes);
    search_laws::lemma_notes_leave(body, none, notes, known.approximate, "hits"@);
    search_laws::lemma_notes_leave(body, none, notes, known.approximate, "hits_returned"@);
    search_laws::lemma_notes_leave(body, none, notes, known.approximate, "total_hits"@);
    search_laws::lemma_notes_leave(body, none, notes, known.approximate, "limit"@);
    search_laws::lemma_notes_leave(body, none, notes, known.approximate, "offset"@);
    search_laws::lemma_notes_leave(body, none, notes, known.approximate, "took_ms"@);
    search_laws::lemma_notes_leave(body, none, notes, known.approximate, "stats"@);
    law_what_is_told_once_is_told(known.notes);
    let noted = errors::with_texts(body, "_discarded_clauses"@, notes);
    json::lemma_read_back(body, "_discarded_clauses"@, errors::text_array(notes), "_discarded_clauses"@);
    json::lemma_read_back(body, "_discarded_clauses"@, errors::text_array(notes), "_approximate_sort"@);
    if let Some(field) = known.approximate {
        json::lemma_read_back(noted, APPROXIMATE_SORT_FIELD@, JsonV::Text(field), "_discarded_clauses"@);
        json::lemma_read_back(noted, APPROXIMATE_SORT_FIELD@, JsonV::Text(field), "_approximate_sort"@);
    }
}

/// The errors that an answer to a write reports.
pub open spec fn errors_in(answer: JsonV) -> Seq<JsonV> {
    match answer.get("errors"@) {
        Some(JsonV::Array(items)) => items,
        _ => Seq::empty(),
    }
}

/// The errors that are reported are those of every answer, one answer after the other.
proof fn lemma_errors_are_joined(answers: Seq<JsonV>)
    ensures
        broadcast::errors_reported(answers) == answers.map_values(
            |answer: JsonV| errors_in(answer),
        ).flatten(),
        broadcast::items_written(answers) == order::sum_of(
            answers.map_values(|answer: JsonV| whole_under(answer, "items_written"@)),
        ),
    decreases answers.len(),
{
    let lists = answers.map_values(|answer: JsonV| errors_in(answer));
    let counts = answers.map_values(|answer: JsonV| whole_under(answer, "items_written"@));
    lists.lemma_flatten_and_flatten_alt_are_equivalent();
    if answers.len() > 0 {
        let shorter = answers.drop_last();
        lemma_errors_are_joined(shorter);
        let before = shorter.map_values(|answer: JsonV| errors_in(answer));
        before.lemma_flatten_and_flatten_alt_are_equivalent();
        assert(lists.drop_last() =~= before);
        assert(lists.last() == errors_in(answers.last()));
        assert(counts.drop_last() =~= shorter.map_values(
            |answer: JsonV| whole_under(answer, "items_written"@),
        ));
    } else {
        assert(lists =~= Seq::empty());
    }
}

/// A broadcast write succeeded where every node answered and none reported an error; it tells how many
/// nodes were asked, answered and failed, how much they wrote together, and every error of theirs.
pub proof fn law_a_broadcast_write_tells_the_nodes_apart(answers: Seq<JsonV>, failed: nat)
    ensures
        ({
            let outcome = broadcast::write_outcome(answers, failed);
            let reported = answers.map_values(|answer: JsonV| errors_in(answer)).flatten();
            &&& outcome.get("success"@) == Some(JsonV::Bool(failed == 0 && reported.len() == 0))
            &&& outcome.get("errors"@) == Some(JsonV::Array(reported))
            &&& search_laws::is_count(outcome.get("nodes_contacted"@), answers.len() + failed)
            &&& search_laws::is_count(outcome.get("nodes_succeeded"@), answers.len())
            &&& search_laws::is_count(outcome.get("nodes_failed"@), failed)
            &&& search_laws::is_count(
                outcome.get("items_written"@),
                order::sum_of(
                    answers.map_values(|answer: JsonV| whole_under(answer, "items_written"@)),
                ),
            )
        }),
{
    lemma_errors_are_joined(answers);
    reveal_strlit("success");
    reveal_strlit("nodes_contacted");
    reveal_strlit("nodes_succeeded");
    reveal_strlit("nodes_failed");
    reveal_strlit("items_written");
    reveal_strlit("errors");
    assert("success"@.len() == 7 && "nodes_contacted"@.len() == 15 && "nodes_succeeded"@.len() == 15);
    assert("nodes_failed"@.len() == 12 && "items_written"@.len() == 13 && "errors"@.len() == 6);
    assert("nodes_contacted"@[6] == 'c' && "nodes_succeeded"@[6] == 's');
    let entries = broadcast::write_outcome(answers, failed)->Object_0;
    json::lemma_key_place_is(entries, "success"@, 0);
    json::lemma_key_place_is(entries, "nodes_contacted"@, 1);
    json::lemma_key_place_is(entries, "nodes_succeeded"@, 2);
    json::lemma_key_place_is(entries, "nodes_failed"@, 3);
    json::lemma_key_place_is(entries, "items_written"@, 4);
    json::lemma_key_place_is(entries, "errors"@, 5);
}

/// Parting answers keeps every one that came, as it came, and counts the rest.
pub proof fn law_answers_are_parted(answers: Seq<Option<JsonV>>)
    ensures
        ({
            let (came, failed) = broadcast::answers_that_came(answers);
            &&& came.len() + failed == answers.len()
            &&& forall|i: int|
                0 <= i < came.len() ==> answers.contains(Some(#[trigger] came[i]))
            &&& forall|i: int|
                0 <= i < answers.len() ==> ((#[trigger] answers[i]) matches Some(value)
                    ==> came.contains(value))
            &&& came.len() == order::sum_of(said_in(answers, |value: JsonV| 1nat))
        }),
    decreases answers.len(),
{
    if answers.len() > 0 {
        let shorter = answers.drop_last();
        let n = shorter.len() as int;
        let one = |value: JsonV| 1nat;
        law_answers_are_parted(shorter);
        let (before, _) = broadcast::answers_that_came(shorter);
        let (came, _) = broadcast::answers_that_came(answers);
        assert(said_in(answers, one).drop_last() =~= said_in(shorter, one));
        assert(answers[n] == answers.last());
        assert forall|i: int| 0 <= i < came.len() implies answers.contains(
            Some(#[trigger] came[i]),
        ) by {
            if i < before.len() {
                assert(shorter.contains(Some(before[i])));
                let k = choose|k: int| 0 <= k < shorter.len() && shorter[k] == Some(before[i]);
                assert(answers[k] == Some(came[i]));
            } else {
                assert(answers[n] == Some(came[i]));
            }
        }
        assert forall|i: int| 0 <= i < answers.len() implies ((#[trigger] answers[i]) matches Some(value)
            ==> came.contains(value)) by {
            if let Some(value) = answers[i] {
                if i < n {
                    assert(shorter[i] == answers[i]);
                    assert(before.contains(value));
                    let k = choose|k: int| 0 <= k < before.len() && before[k] == value;
                    assert(came[k] == value);
                } else {
                    assert(came[before.len() as int] == value);
                }
            }
        }
    }
}

/// The notes of several answers are those that any of them tells.
pub proof fn law_the_notes_of_all_are_those_of_each(answers: Seq<JsonV>, note: Seq<char>)
    ensures
        broadcast::notes_of_all(answers).contains(note) <==> exists|i: int|
            0 <= i < answers.len() && tells_note(Some(#[trigger] answers[i]), note),
    decreases answers.len(),
{
    if answers.len() > 0 {
        let rest = answers.drop_last();
        let n = rest.len() as int;
        law_the_notes_of_all_are_those_of_each(rest, note);
        let before = broadcast::notes_of_all(rest);
        let told = broadcast::notes_of(answers.last());
        let all = broadcast::notes_of_all(answers);
        assert(answers[n] == answers.last());
        if let Some(JsonV::Array(items)) = answers.last().get("_discarded_clauses"@) {
            lemma_texts_among(items, note);
        }
        assert(told.contains(note) <==> tells_note(Some(answers[n]), note));
        if before.contains(note) {
            let k = choose|k: int| 0 <= k < before.len() && before[k] == note;
            assert(all[k] == note);
            let i = choose|i: int|
                0 <= i < rest.len() && tells_note(Some(#[trigger] rest[i]), note);
            assert(answers[i] == rest[i]);
        }
        if told.contains(note) {
            let k = choose|k: int| 0 <= k < told.len() && told[k] == note;
            assert(all[before.len() + k] == note);
        }
        if all.contains(note) {
            let k = choose|k: int| 0 <= k < all.len() && all[k] == note;
            if k < before.len() {
                assert(before[k] == note);
            } else {
                assert(told[k - before.len()] == note);
            }
        }
        if exists|i: int| 0 <= i < answers.len() && tells_note(Some(#[trigger] answers[i]), note) {
            let i = choose|i: int|
                0 <= i < answers.len() && tells_note(Some(#[trigger] answers[i]), note);
            if i < n {
                assert(rest[i] == answers[i]);
            }
        }
    } else {
        assert(!broadcast::notes_of_all(answers).contains(note));
    }
}

/// Whether an answer names the field that its sort is approximate by.
pub open spec fn names_approximate(answer: JsonV) -> bool {
    answer.get("_approximate_sort"@) matches Some(JsonV::Text(_))
}

/// Of several answers the first that names a field that its sort is approximate by is told on.
pub proof fn law_the_first_approximate_answer_is_told(answers: Seq<JsonV>, i: int)
    requires
        0 <= i <= answers.len(),
        forall|j: int| 0 <= j < i ==> !names_approximate(#[trigger] answers[j]),
        i < answers.len() ==> names_approximate(answers[i]),
    ensures
        i < answers.len() ==> (answers[i].get("_approximate_sort"@) matches Some(JsonV::Text(field))
            && broadcast::first_approximate(answers) == Some(field)),
        i == answers.len() ==> broadcast::first_approximate(answers) is None,
    decreases answers.len(),
{
    if answers.len() > 0 {
        let rest = answers.drop_last();
        let n = rest.len() as int;
        if i < n {
            assert(rest[i] == answers[i]);
            law_the_first_approximate_answer_is_told(rest, i);
        } else {
            assert forall|j: int| 0 <= j < n implies !names_approximate(#[trigger] rest[j]) by {
                assert(rest[j] == answers[j]);
            }
            law_the_first_approximate_answer_is_told(rest, n);
            if i > n {
                assert(!names_approximate(answers[n]));
            }
        }
    }
}

} // verus!
