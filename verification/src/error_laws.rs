//! What errors say, whom they blame, and what becomes of them on the way to the caller.

use vstd::prelude::*;
use crate::{broadcast_laws, errors, json, text};
use crate::errors::{ErrorV, IoKind, RemoteV};
use crate::json::JsonV;

verus! {

/// An error says what kind it is, and then its own words.
pub proof fn law_an_error_says_its_kind_and_its_words(error: ErrorV)
    ensures
        error matches ErrorV::Identity(words) ==> errors::error_text(error) == "identity error: "@
            + words,
        error matches ErrorV::Io(_, words) ==> errors::error_text(error) == "io error: "@ + words,
        error matches ErrorV::Storage(_, words) ==> errors::error_text(error) == "storage error: "@
            + words,
        error matches ErrorV::ShardLimitExceeded(current, max) ==> errors::error_text(error)
            == "shard limit exceeded: "@ + text::decimal(current as nat) + "/"@ + text::decimal(
            max as nat,
        ),
        error matches ErrorV::ShardAlreadyExists(shard) ==> errors::error_text(error)
            == "shard already exists: "@ + text::uuid_chars(shard),
        error matches ErrorV::UnsortableField(field, reason) ==> errors::error_text(error)
            == "cannot sort by '"@ + field + "': "@ + reason,
        error matches ErrorV::UnrunnableQuery(notes) ==> errors::error_text(error)
            == "no clause of this query can run against this index: "@ + notes,
        error matches ErrorV::NoShardAnswered(index, reasons, _) ==> errors::error_text(error)
            == "no shard could run this query against '"@ + index + "': "@ + reasons,
{
}

/// The caller is to blame for what they asked and for what they sent, and for nothing that the node
/// did.
pub proof fn law_the_caller_is_blamed_for_what_they_asked(error: ErrorV)
    ensures
        error matches ErrorV::Io(kind, _) ==> (errors::blames_caller(error) <==> kind
            == IoKind::InvalidInput || kind == IoKind::InvalidData),
        error matches ErrorV::Storage(invalid_value, _) ==> errors::blames_caller(error)
            == invalid_value,
        error is UnsortableField || error is UnrunnableQuery || error is NoShardAnswered
            ==> errors::blames_caller(error),
        error is Identity || error is ShardLimitExceeded || error is ShardAlreadyExists
            ==> !errors::blames_caller(error),
{
}

/// A reason is an error's own words where it has nothing but words, and all that it says where it has
/// more.
pub open spec fn is_reason(reason: Seq<char>, error: ErrorV) -> bool {
    match error {
        ErrorV::Io(_, words) => reason == words,
        _ => reason == errors::error_text(error),
    }
}

/// Whether an error's reason is among the reasons.
pub open spec fn gives_reason(reasons: Seq<Seq<char>>, error: ErrorV) -> bool {
    exists|r: int| 0 <= r < reasons.len() && is_reason(#[trigger] reasons[r], error)
}

/// Whether a reason is that of some failure.
pub open spec fn is_given(reason: Seq<char>, failures: Seq<(u128, ErrorV)>) -> bool {
    exists|i: int| 0 <= i < failures.len() && is_reason(reason, (#[trigger] failures[i]).1)
}

/// A refusal of a gather names the index and every reason, each once, and blames the caller where every
/// shard blames them.
pub proof fn law_a_refused_gather_says_why(
    index: Seq<char>,
    answered: nat,
    failures: Seq<(u128, ErrorV)>,
) -> (reasons: Seq<Seq<char>>)
    ensures
        answered > 0 ==> errors::gather_refusal(index, answered, failures) is None,
        answered == 0 && failures.len() > 0 ==> (errors::gather_refusal(index, answered, failures)
            matches Some(refusal) && (refusal matches ErrorV::NoShardAnswered(named, told, callers) && {
            &&& named == index
            &&& told == text::joined(reasons, "; "@)
            &&& callers <==> forall|i: int|
                0 <= i < failures.len() ==> errors::blames_caller((#[trigger] failures[i]).1)
        })),
        reasons.no_duplicates(),
        forall|i: int|
            0 <= i < failures.len() ==> gives_reason(reasons, (#[trigger] failures[i]).1),
        forall|r: int| 0 <= r < reasons.len() ==> is_given(#[trigger] reasons[r], failures),
{
    let all = errors::failure_reasons(failures);
    let reasons = errors::distinct_in_order(all);
    lemma_reasons_are_told(failures);
    reasons
}

/// The distinct reasons are the reasons.
proof fn lemma_reasons_are_told(failures: Seq<(u128, ErrorV)>)
    ensures
        ({
            let reasons = errors::distinct_in_order(errors::failure_reasons(failures));
            &&& reasons.no_duplicates()
            &&& forall|i: int|
                0 <= i < failures.len() ==> gives_reason(reasons, (#[trigger] failures[i]).1)
            &&& forall|r: int| 0 <= r < reasons.len() ==> is_given(#[trigger] reasons[r], failures)
        }),
{
    let all = errors::failure_reasons(failures);
    let reasons = errors::distinct_in_order(all);
    broadcast_laws::law_what_is_told_once_is_told(all);
    assert forall|i: int| 0 <= i < failures.len() implies gives_reason(
        reasons,
        (#[trigger] failures[i]).1,
    ) by {
        assert(all[i] == errors::failure_reason(failures[i].1));
        assert(reasons.contains(all[i]));
        let r = choose|r: int| 0 <= r < reasons.len() && reasons[r] == all[i];
        assert(is_reason(reasons[r], failures[i].1));
    }
    assert forall|r: int| 0 <= r < reasons.len() implies is_given(#[trigger] reasons[r], failures) by {
        assert(broadcast_laws::stands_before(all, reasons[r], all.len() as int));
        let q = choose|q: int| 0 <= q < all.len() && #[trigger] all[q] == reasons[r];
        assert(is_reason(reasons[r], failures[q].1));
    }
}

/// Every shard that failed has a note, with its identifier and what its error says.
pub proof fn law_every_failed_shard_has_a_note(failures: Seq<(u128, ErrorV)>, i: int)
    requires
        0 <= i < failures.len(),
    ensures
        errors::shard_notes(failures).len() == failures.len(),
        errors::shard_notes(failures)[i] == "Shard "@ + text::uuid_chars(failures[i].0) + ": "@
            + errors::error_text(failures[i].1),
{
}

/// Notes are attached under their key where there are any, and nothing else of the answer changes.
pub proof fn law_notes_are_attached(
    response: JsonV,
    key: Seq<char>,
    notes: Seq<Seq<char>>,
    other: Seq<char>,
)
    requires
        response is Object,
    ensures
        notes.len() == 0 ==> errors::with_texts(response, key, notes) == response,
        notes.len() > 0 ==> broadcast_laws::lists_texts(
            errors::with_texts(response, key, notes).get(key),
            notes,
        ),
        other != key ==> errors::with_texts(response, key, notes).get(other) == response.get(other),
{
    json::lemma_read_back(response, key, errors::text_array(notes), key);
    json::lemma_read_back(response, key, errors::text_array(notes), other);
}

/// An approximate sort is attached as the field that it goes by, and nothing else of the answer
/// changes.
pub proof fn law_an_approximate_sort_is_attached(
    response: JsonV,
    field: Option<Seq<char>>,
    other: Seq<char>,
)
    requires
        response is Object,
    ensures
        field is None ==> errors::with_approximate_sort(response, field) == response,
        field matches Some(name) ==> errors::with_approximate_sort(response, field).get(
            "_approximate_sort"@,
        ) == Some(JsonV::Text(name)),
        other != "_approximate_sort"@ ==> errors::with_approximate_sort(response, field).get(other)
            == response.get(other),
{
    if let Some(name) = field {
        json::lemma_read_back(
            response,
            "_approximate_sort"@,
            JsonV::Text(name),
            "_approximate_sort"@,
        );
        json::lemma_read_back(response, "_approximate_sort"@, JsonV::Text(name), other);
    }
}

/// An error keeps its words on the way to a peer, and blames the caller there where what they asked was
/// to blame.
pub proof fn law_an_error_keeps_its_words_on_the_way(error: ErrorV)
    ensures
        error matches ErrorV::Identity(words) ==> errors::told(error) == RemoteV::Identity(words),
        error matches ErrorV::Io(kind, words) ==> {
            &&& kind == IoKind::NotFound ==> errors::told(error) == RemoteV::NotFound(words)
            &&& kind == IoKind::InvalidInput ==> errors::told(error) == RemoteV::InvalidInput(words)
            &&& kind != IoKind::NotFound && kind != IoKind::InvalidInput ==> errors::told(error)
                == RemoteV::Io(words)
        },
        error matches ErrorV::Storage(_, words) ==> errors::told(error) == RemoteV::Other(words),
        error is UnsortableField || error is UnrunnableQuery || error is ShardAlreadyExists
            ==> errors::told(error) == RemoteV::InvalidInput(errors::error_text(error)),
        error matches ErrorV::NoShardAnswered(_, _, true) ==> errors::told(error)
            == RemoteV::InvalidInput(errors::error_text(error)),
        error matches ErrorV::NoShardAnswered(_, _, false) ==> errors::told(error) == RemoteV::Io(
            errors::error_text(error),
        ),
{
}

/// What a peer says comes back in its own words, and as the caller's fault where the peer said so.
pub proof fn law_a_peers_error_comes_back_in_its_words(words: Seq<char>)
    ensures
        errors::taken(RemoteV::InvalidInput(words)) == ErrorV::Io(IoKind::InvalidInput, words),
        errors::taken(RemoteV::Io(words)) == ErrorV::Io(IoKind::Other, words),
        errors::taken(RemoteV::Identity(words)) == ErrorV::Io(IoKind::Other, words),
        errors::taken(RemoteV::NotFound(words)) == ErrorV::Io(IoKind::Other, words),
        errors::taken(RemoteV::Other(words)) == ErrorV::Io(IoKind::Other, words),
{
}

} // verus!
