//! Reasons for what was not written, numbered the way the caller counts.

use vstd::prelude::*;
use vstd::string::*;
use crate::text;
use crate::text::{
    chars_of, count_text, find_part, parse_count, starts_with_part, text_of, uuid_text,
};

verus! {

/// The prefix a per-document reason carries: its place in the batch it was sent in.
pub const DOCUMENT_PREFIX: &'static str = "document ";

/// The position and the reason that `document 7: reason` spells, if that is what a text spells.
pub open spec fn document_reason(error: Seq<char>) -> Option<(usize, Seq<char>)> {
    if !text::begins_with(error, DOCUMENT_PREFIX@) {
        None
    } else {
        let rest = error.skip(DOCUMENT_PREFIX@.len() as int);
        match text::place_of(rest, ": "@) {
            None => None,
            Some(place) => match text::count_reading(rest.take(place)) {
                None => None,
                Some(position) => Some((position, rest.skip(place + 2))),
            },
        }
    }
}

/// Splits `document 7: reason` into its position and its reason, if that is what it is.
pub fn split_document_reason(error: &str) -> (split: Option<(usize, &str)>)
    ensures
        match split {
            Some((position, reason)) => document_reason(error@) == Some((position, reason@)),
            None => document_reason(error@) is None,
        },
{
    if !starts_with_part(error, DOCUMENT_PREFIX) {
        return None;
    }
    let chars: Vec<char> = chars_of(error);
    let skipped: usize = DOCUMENT_PREFIX.unicode_len();
    let rest: String = text_of(&chars, skipped, chars.len());
    assert(rest@ =~= error@.skip(DOCUMENT_PREFIX@.len() as int));
    let rest_chars: Vec<char> = chars_of(rest.as_str());
    let mark: Vec<char> = chars_of(": ");
    proof {
        reveal_strlit(": ");
    }
    match find_part(&rest_chars, &mark) {
        None => None,
        Some(place) => {
            let number: String = text_of(&rest_chars, 0, place);
            assert(number@ =~= rest@.take(place as int));
            match parse_count(number.as_str()) {
                None => None,
                Some(position) => {
                    let reason: &str = error.substring_char(skipped + place + 2, chars.len());
                    assert(reason@ =~= rest@.skip(place + 2));
                    Some((position, reason))
                },
            }
        },
    }
}

/// One reason restated in the numbering its caller uses.
pub open spec fn restated(
    reason: Seq<char>,
    positions: Seq<usize>,
    label: Seq<char>,
    attribution: Seq<char>,
) -> Seq<char> {
    match document_reason(reason) {
        Some((theirs, why)) if theirs < positions.len() => label + " "@ + text::decimal(
            positions[theirs as int] as nat,
        ) + ": "@ + why,
        _ => attribution + ": "@ + reason,
    }
}

/// Reasons restated in the numbering their caller uses, one for each item that was not written.
pub open spec fn restated_reasons(
    reasons: Seq<Seq<char>>,
    positions: Seq<usize>,
    label: Seq<char>,
    unwritten: nat,
    attribution: Seq<char>,
    unaccounted: Seq<char>,
) -> Seq<Seq<char>> {
    Seq::new(
        unwritten,
        |i: int|
            if i < reasons.len() {
                restated(reasons[i], positions, label, attribution)
            } else {
                unaccounted
            },
    )
}

/// Restates reasons numbered against one batch in the numbering its caller used.
///
/// Whoever answered a batch numbered its reasons against the batch it received. A position from
/// the wrong numbering is worse than none, because it names a real item that is fine.
///
/// Exactly `unwritten` reasons come back, which is what makes the answer addable: written plus
/// reasons is what was received. A reason that names no item of this batch is attributed rather
/// than dropped, and a shortfall nobody explained is stated by `unaccounted`.
pub fn renumber_reasons(
    reasons: &Vec<String>,
    positions: &Vec<usize>,
    label: &str,
    unwritten: usize,
    attribution: &str,
    unaccounted: &str,
) -> (renumbered: Vec<String>)
    ensures
        text::texts(renumbered@) == restated_reasons(
            text::texts(reasons@),
            positions@,
            label@,
            unwritten as nat,
            attribution@,
            unaccounted@,
        ),
        renumbered@.len() == unwritten,
{
    let mut renumbered: Vec<String> = Vec::new();
    let ghost wanted = restated_reasons(
        text::texts(reasons@),
        positions@,
        label@,
        unwritten as nat,
        attribution@,
        unaccounted@,
    );
    let mut i: usize = 0;
    while i < unwritten
        invariant
            i <= unwritten,
            wanted == restated_reasons(
                text::texts(reasons@),
                positions@,
                label@,
                unwritten as nat,
                attribution@,
                unaccounted@,
            ),
            text::texts(renumbered@) == wanted.take(i as int),
        decreases unwritten - i,
    {
        let ghost before = renumbered@;
        let next: String = if i < reasons.len() {
            match split_document_reason(reasons[i].as_str()) {
                Some((theirs, why)) if theirs < positions.len() => {
                    let mut text: String = String::from_str(label);
                    text.append(" ");
                    text.append(count_text(positions[theirs]).as_str());
                    text.append(": ");
                    text.append(why);
                    text
                },
                _ => {
                    let mut text: String = String::from_str(attribution);
                    text.append(": ");
                    text.append(reasons[i].as_str());
                    text
                },
            }
        } else {
            String::from_str(unaccounted)
        };
        proof {
            if i < reasons@.len() {
                assert(text::texts(reasons@)[i as int] == reasons@[i as int]@);
            }
            assert(next@ == wanted[i as int]);
        }
        renumbered.push(next);
        i += 1;
        assert(text::texts(renumbered@) =~= text::texts(before).push(wanted[i - 1]));
        assert(wanted.take(i as int) =~= wanted.take(i - 1).push(wanted[i - 1]));
    }
    assert(wanted.take(unwritten as int) =~= wanted);
    assert(renumbered@.len() == text::texts(renumbered@).len());
    renumbered
}

/// What is said of a document a peer neither wrote nor refused.
pub open spec fn unexplained(node_id: u128, positions: nat, written: nat, reasons: nat) -> Seq<char> {
    "a document forwarded to node "@ + text::uuid_chars(node_id)
        + " was neither written nor refused: it reported "@ + text::decimal(written) + " written of "@
        + text::decimal(positions) + " with "@ + text::decimal(reasons) + " reasons"@
}

/// How many documents of a forwarded batch a peer left unwritten.
pub open spec fn left_unwritten(forwarded: nat, written: usize) -> nat {
    if written <= forwarded {
        (forwarded - written) as nat
    } else {
        0
    }
}

/// What a peer's answer means for the documents this node forwarded to it.
///
/// One reason per document the peer did not write, so that what this node answers stays addable:
/// items written plus errors is items received, on one node or five.
pub fn remote_rejections(
    node_id: u128,
    positions: &Vec<usize>,
    written: usize,
    reasons: &Vec<String>,
) -> (rejections: Vec<String>)
    ensures
        text::texts(rejections@) == restated_reasons(
            text::texts(reasons@),
            positions@,
            "document"@,
            left_unwritten(positions@.len(), written),
            "node "@ + text::uuid_chars(node_id),
            unexplained(node_id, positions@.len(), written as nat, reasons@.len()),
        ),
        rejections@.len() == left_unwritten(positions@.len(), written),
{
    let id: String = uuid_text(node_id);
    let mut attribution: String = String::from_str("node ");
    attribution.append(id.as_str());
    let mut unaccounted: String = String::from_str("a document forwarded to node ");
    unaccounted.append(id.as_str());
    unaccounted.append(" was neither written nor refused: it reported ");
    unaccounted.append(count_text(written).as_str());
    unaccounted.append(" written of ");
    unaccounted.append(count_text(positions.len()).as_str());
    unaccounted.append(" with ");
    unaccounted.append(count_text(reasons.len()).as_str());
    unaccounted.append(" reasons");
    let unwritten: usize = positions.len().saturating_sub(written);
    renumber_reasons(
        reasons,
        positions,
        "document",
        unwritten,
        attribution.as_str(),
        unaccounted.as_str(),
    )
}

} // verus!
