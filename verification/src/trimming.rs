//! Trimming a search response to what one message may carry.

use vstd::prelude::*;
use vstd::string::*;
use crate::{hit_laws, json, search, text, words};
use crate::json::{Json, JsonV, json_text};
use crate::text::count_text;
use crate::words::count_bytes;

verus! {

/// How many bytes a value takes when it is written.
pub open spec fn written_size(value: JsonV) -> nat {
    words::byte_length(json::json_chars(value))
}

/// How many bytes a value takes when it is written.
fn measure(value: &Json) -> (size: u128)
    ensures
        size == written_size(value@),
        size <= 4 * usize::MAX,
{
    let text: String = json_text(value);
    count_bytes(text.as_str())
}

/// How many hits are kept, from a place on and with so many bytes used: as many as there is room for,
/// each with the comma that joins it, and one in any case.
pub open spec fn kept_from(hits: Seq<JsonV>, max_bytes: nat, used: nat, place: int) -> int
    decreases hits.len() - place,
{
    if place < 0 || place >= hits.len() {
        place
    } else if place > 0 && used + written_size(hits[place]) + 1 > max_bytes {
        place
    } else {
        kept_from(hits, max_bytes, used + written_size(hits[place]) + 1, place + 1)
    }
}

/// How many bytes a response takes without its hits.
pub open spec fn envelope_size(response: JsonV) -> nat {
    written_size(response.without("hits"@))
}

/// How many of its hits a response keeps.
pub open spec fn kept_hits(response: JsonV, hits: Seq<JsonV>, max_bytes: nat) -> int {
    kept_from(hits, max_bytes, envelope_size(response), 0)
}

/// What is said of hits that were left out.
pub open spec fn omission_text(omitted: nat, max_bytes: nat) -> Seq<char> {
    text::decimal(omitted)
        + " of the hits for this query were left out: the full response would have exceeded the largest single message this node sends ("@
        + text::decimal(max_bytes)
        + " bytes). The ones returned are the highest ranked, in order. Narrow the query — add a field, a phrase or an `AND` clause — or ask for fewer fields with `return`, rather than reading these as the whole result."@
}

/// A response with the first of its hits, which says so where others are left out. There the hits are
/// taken out and written anew, behind what is left.
pub open spec fn with_first_hits(
    response: JsonV,
    hits: Seq<JsonV>,
    kept: int,
    max_bytes: nat,
) -> JsonV {
    let base = if kept < hits.len() {
        response.without("hits"@)
    } else {
        response
    };
    let shown = base.with("hits"@, JsonV::Array(hits.take(kept))).with(
        "hits_returned"@,
        search::count_value(kept as nat),
    );
    if kept < hits.len() {
        shown.with("_truncated"@, JsonV::Bool(true)).with(
            "_omitted_hits"@,
            search::count_value((hits.len() - kept) as nat),
        ).with("_warning"@, JsonV::Text(omission_text((hits.len() - kept) as nat, max_bytes)))
    } else {
        shown
    }
}

/// A response trimmed to what one message may carry. What it holds as hits is dropped where it is no
/// list.
pub open spec fn capped(response: JsonV, max_bytes: nat) -> JsonV {
    match response.get("hits"@) {
        Some(JsonV::Array(hits)) => with_first_hits(
            response,
            hits,
            kept_hits(response, hits, max_bytes),
            max_bytes,
        ),
        Some(_) => response.without("hits"@),
        None => response,
    }
}

/// How many hits are kept.
fn count_kept(hits: &Vec<Json>, envelope: u128, max_bytes: usize) -> (kept: usize)
    requires
        envelope <= 4 * usize::MAX,
    ensures
        kept == kept_from(json::models(hits@), max_bytes as nat, envelope as nat, 0),
        kept <= hits@.len(),
{
    let ghost all = json::models(hits@);
    let mut used: u128 = envelope;
    let mut kept: usize = 0;
    while kept < hits.len()
        invariant
            kept <= hits.len(),
            all == json::models(hits@),
            envelope <= 4 * usize::MAX,
            kept == 0 ==> used == envelope,
            kept == 1 ==> used <= 8 * usize::MAX + 1,
            kept > 1 ==> used <= max_bytes,
            kept_from(all, max_bytes as nat, envelope as nat, 0) == kept_from(
                all,
                max_bytes as nat,
                used as nat,
                kept as int,
            ),
        decreases hits.len() - kept,
    {
        let size: u128 = measure(&hits[kept]);
        assert(size == written_size(all[kept as int]));
        if kept > 0 && used + size + 1 > max_bytes as u128 {
            return kept;
        }
        used = used + size + 1;
        kept += 1;
    }
    kept
}

/// Trims a response to what one message may carry, and says so in the response itself.
///
/// The hits that fit answer the question as far as they go, and they are the front of the same order.
/// How many documents matched is left alone. One hit always survives: a response trimmed to nothing
/// would read like a query that matched nothing.
pub fn cap_response_bytes(response: &mut Json, max_bytes: usize)
    ensures
        final(response)@ == capped(old(response)@, max_bytes as nat),
{
    let ghost given = response@;
    let mut bare: Json = response.clone();
    bare.remove("hits");
    let hits: &Vec<Json> = match response.get("hits") {
        Some(value) => match value.as_array() {
            Some(hits) => hits,
            None => {
                response.remove("hits");
                return ;
            },
        },
        None => {
            return ;
        },
    };
    let ghost all = json::models(hits@);
    let kept: usize = count_kept(hits, measure(&bare), max_bytes);
    let omitted: usize = hits.len() - kept;
    let mut first: Vec<Json> = Vec::new();
    let mut i: usize = 0;
    assert(json::models(first@) =~= all.take(0));
    while i < kept
        invariant
            i <= kept <= hits@.len(),
            all == json::models(hits@),
            json::models(first@) == all.take(i as int),
        decreases kept - i,
    {
        let ghost before = first@;
        first.push(hits[i].clone());
        assert(json::models(first@) =~= json::models(before).push(all[i as int]));
        i += 1;
        assert(json::models(first@) =~= all.take(i as int));
    }
    if omitted > 0 {
        response.remove("hits");
    }
    response.put("hits", Json::list(first));
    response.put("hits_returned", Json::count(kept));
    if omitted > 0 {
        response.put("_truncated", Json::Bool(true));
        response.put("_omitted_hits", Json::count(omitted));
        let mut warning: String = count_text(omitted);
        warning.append(
            " of the hits for this query were left out: the full response would have exceeded the largest single message this node sends (",
        );
        warning.append(count_text(max_bytes).as_str());
        warning.append(
            " bytes). The ones returned are the highest ranked, in order. Narrow the query — add a field, a phrase or an `AND` clause — or ask for fewer fields with `return`, rather than reading these as the whole result.",
        );
        response.put("_warning", Json::Text(warning));
    }
}

/// The bytes of a response without its hits, and of its first hits with their commas.
pub open spec fn size_with(envelope: nat, hits: Seq<JsonV>, count: int) -> nat
    decreases count,
{
    if count <= 0 {
        envelope
    } else {
        size_with(envelope, hits, count - 1) + written_size(hits[count - 1]) + 1
    }
}

/// A trim keeps the front of the order, at least one hit of those there are, no more than fit beyond
/// the first, and as many as fit.
pub proof fn law_a_trim_keeps_all_that_fits(response: JsonV, hits: Seq<JsonV>, max_bytes: nat)
    requires
        response.get("hits"@) == Some(JsonV::Array(hits)),
    ensures
        ({
            let kept = kept_hits(response, hits, max_bytes);
            let envelope = envelope_size(response);
            &&& 0 <= kept <= hits.len()
            &&& hits.len() > 0 ==> kept >= 1
            &&& kept > 1 ==> size_with(envelope, hits, kept) <= max_bytes
            &&& kept < hits.len() ==> size_with(envelope, hits, kept + 1) > max_bytes
            &&& capped(response, max_bytes) == with_first_hits(response, hits, kept, max_bytes)
        }),
{
    lemma_kept_is_most(hits, max_bytes, envelope_size(response), 0);
}

/// From any place on, as many hits are kept as fit.
proof fn lemma_kept_is_most(hits: Seq<JsonV>, max_bytes: nat, envelope: nat, place: int)
    requires
        0 <= place <= hits.len(),
        place > 1 ==> size_with(envelope, hits, place) <= max_bytes,
    ensures
        ({
            let kept = kept_from(hits, max_bytes, size_with(envelope, hits, place), place);
            &&& place <= kept <= hits.len()
            &&& place == 0 && hits.len() > 0 ==> kept >= 1
            &&& kept > 1 ==> size_with(envelope, hits, kept) <= max_bytes
            &&& kept < hits.len() ==> size_with(envelope, hits, kept + 1) > max_bytes
        }),
    decreases hits.len() - place,
{
    let used = size_with(envelope, hits, place);
    if place < hits.len() {
        assert(size_with(envelope, hits, place + 1) == used + written_size(hits[place]) + 1);
        if !(place > 0 && used + written_size(hits[place]) + 1 > max_bytes) {
            lemma_kept_is_most(hits, max_bytes, envelope, place + 1);
        }
    }
}

/// A response that already tells how many hits it holds, and that fits, is left exactly as it was.
pub proof fn law_a_response_that_fits_is_untouched(
    response: JsonV,
    hits: Seq<JsonV>,
    max_bytes: nat,
)
    requires
        response.get("hits"@) == Some(JsonV::Array(hits)),
        response.get("hits_returned"@) == Some(search::count_value(hits.len())),
        size_with(envelope_size(response), hits, hits.len() as int) <= max_bytes,
    ensures
        capped(response, max_bytes) == response,
{
    law_a_trim_keeps_all_that_fits(response, hits, max_bytes);
    let kept = kept_hits(response, hits, max_bytes);
    if kept < hits.len() {
        lemma_size_grows(envelope_size(response), hits, kept + 1, hits.len() as int);
    }
    assert(hits.take(kept) =~= hits);
    lemma_rewriting_changes_nothing(response, "hits"@, JsonV::Array(hits));
    lemma_rewriting_changes_nothing(response, "hits_returned"@, search::count_value(hits.len()));
}

/// More hits take more bytes.
proof fn lemma_size_grows(envelope: nat, hits: Seq<JsonV>, few: int, many: int)
    requires
        0 <= few <= many,
    ensures
        size_with(envelope, hits, few) <= size_with(envelope, hits, many),
    decreases many - few,
{
    if few < many {
        lemma_size_grows(envelope, hits, few, many - 1);
    }
}

/// Writing what stands under a key already changes nothing.
proof fn lemma_rewriting_changes_nothing(value: JsonV, key: Seq<char>, held: JsonV)
    requires
        value.get(key) == Some(held),
    ensures
        value.with(key, held) == value,
{
    if let JsonV::Object(entries) = value {
        json::lemma_key_place(entries, key);
        assert(json::with_entry(entries, key, held) =~= entries);
    }
}

/// However much a response is trimmed, the hits that are left and those that are left out are the hits
/// that there were.
pub proof fn law_a_trim_accounts_for_every_hit(
    response: JsonV,
    hits: Seq<JsonV>,
    max_bytes: nat,
)
    requires
        response.get("hits"@) == Some(JsonV::Array(hits)),
        response matches JsonV::Object(entries) ==> json::keys_distinct(entries),
    ensures
        ({
            let kept = kept_hits(response, hits, max_bytes);
            let answer = capped(response, max_bytes);
            &&& answer.get("hits"@) == Some(JsonV::Array(hits.take(kept)))
            &&& answer.get("hits_returned"@) == Some(search::count_value(kept as nat))
            &&& kept < hits.len() ==> answer.get("_truncated"@) == Some(JsonV::Bool(true))
                && answer.get("_omitted_hits"@) == Some(search::count_value((hits.len() - kept) as nat))
            &&& answer.get("total_hits"@) == response.get("total_hits"@)
        }),
{
    reveal_strlit("hits");
    reveal_strlit("hits_returned");
    reveal_strlit("_truncated");
    reveal_strlit("_omitted_hits");
    reveal_strlit("_warning");
    reveal_strlit("total_hits");
    law_a_trim_keeps_all_that_fits(response, hits, max_bytes);
    let kept = kept_hits(response, hits, max_bytes);
    let list = JsonV::Array(hits.take(kept));
    let told = search::count_value(kept as nat);
    let omitted = search::count_value((hits.len() - kept) as nat);
    let warning = JsonV::Text(omission_text((hits.len() - kept) as nat, max_bytes));
    assert("hits_returned"@[0] == 'h' && "_omitted_hits"@[0] == '_');
    assert("_truncated"@[0] == '_' && "total_hits"@[0] == 't');
    assert("hits"@.len() == 4 && "hits_returned"@.len() == 13 && "_truncated"@.len() == 10);
    assert("_omitted_hits"@.len() == 13 && "_warning"@.len() == 8 && "total_hits"@.len() == 10);
    let base = if kept < hits.len() {
        response.without("hits"@)
    } else {
        response
    };
    if let JsonV::Object(entries) = response {
        hit_laws::lemma_without_key(entries, "hits"@, "total_hits"@);
    }
    assert(base.get("total_hits"@) == response.get("total_hits"@));
    lemma_trim_read_back(base, list, told, omitted, warning, "hits"@);
    lemma_trim_read_back(base, list, told, omitted, warning, "hits_returned"@);
    lemma_trim_read_back(base, list, told, omitted, warning, "_truncated"@);
    lemma_trim_read_back(base, list, told, omitted, warning, "_omitted_hits"@);
    lemma_trim_read_back(base, list, told, omitted, warning, "total_hits"@);
}

/// What a response holds after its hits are trimmed.
proof fn lemma_trim_read_back(
    response: JsonV,
    list: JsonV,
    told: JsonV,
    omitted: JsonV,
    warning: JsonV,
    asked: Seq<char>,
)
    requires
        response is Object,
    ensures
        ({
            let whole = response.with("hits"@, list).with("hits_returned"@, told);
            let trimmed_one = whole.with("_truncated"@, JsonV::Bool(true)).with(
                "_omitted_hits"@,
                omitted,
            ).with("_warning"@, warning);
            let held = if asked == "hits_returned"@ {
                Some(told)
            } else if asked == "hits"@ {
                Some(list)
            } else {
                response.get(asked)
            };
            &&& whole.get(asked) == held
            &&& trimmed_one.get(asked) == (if asked == "_warning"@ {
                Some(warning)
            } else if asked == "_omitted_hits"@ {
                Some(omitted)
            } else if asked == "_truncated"@ {
                Some(JsonV::Bool(true))
            } else {
                held
            })
        }),
{
    let one = response.with("hits"@, list);
    let two = one.with("hits_returned"@, told);
    let three = two.with("_truncated"@, JsonV::Bool(true));
    let four = three.with("_omitted_hits"@, omitted);
    json::lemma_read_back(response, "hits"@, list, asked);
    json::lemma_read_back(one, "hits_returned"@, told, asked);
    json::lemma_read_back(two, "_truncated"@, JsonV::Bool(true), asked);
    json::lemma_read_back(three, "_omitted_hits"@, omitted, asked);
    json::lemma_read_back(four, "_warning"@, warning, asked);
}

} // verus!
