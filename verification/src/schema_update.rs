//! Setting which fields of an index are indexed, across every shard that holds it.

use vstd::prelude::*;
use vstd::string::*;
use crate::{errors, json, names, text};
use crate::errors::push_distinct;
use crate::json::{Json, JsonV, entry};
use crate::names::list_names;
use crate::text::{Standing, holds_text, join_texts};

verus! {

/// What a shard makes of a change to its schema, or what all of them make of it.
#[derive(Debug, Clone, PartialEq)]
pub struct SchemaFieldUpdate {
    /// Fields whose flag changes.
    pub applied: Vec<String>,
    /// Fields whose flag was already so.
    pub unchanged: Vec<String>,
    /// Fields that the schema does not have.
    pub unknown: Vec<String>,
    /// Fields whose flag takes effect only once the index is rebuilt.
    pub pending_reindex: Vec<String>,
}

impl SchemaFieldUpdate {
    /// Whether the change is refused: it names a field the schema does not have.
    pub open spec fn refused(&self) -> bool {
        self.unknown@.len() > 0
    }

    /// Whether the change is refused.
    pub fn is_rejected(&self) -> (rejected: bool)
        ensures
            rejected == self.refused(),
    {
        self.unknown.len() > 0
    }
}

// ---------------------------------------------------------------------------
// Names put together
// ---------------------------------------------------------------------------

/// Names with more names added to them, those already there left out.
pub open spec fn union_in_order(names: Seq<Seq<char>>, more: Seq<Seq<char>>) -> Seq<Seq<char>>
    decreases more.len(),
{
    if more.len() == 0 {
        names
    } else {
        let before = union_in_order(names, more.drop_last());
        if before.contains(more.last()) {
            before
        } else {
            before.push(more.last())
        }
    }
}

/// A union holds what either part holds, and repeats nothing where the first part does not.
proof fn lemma_union(names: Seq<Seq<char>>, more: Seq<Seq<char>>)
    ensures
        forall|name: Seq<char>| #[trigger]
            union_in_order(names, more).contains(name) <==> names.contains(name) || more.contains(
                name,
            ),
        names.no_duplicates() ==> union_in_order(names, more).no_duplicates(),
    decreases more.len(),
{
    if more.len() > 0 {
        let shorter = more.drop_last();
        let before = union_in_order(names, shorter);
        let whole = union_in_order(names, more);
        lemma_union(names, shorter);
        assert forall|name: Seq<char>| #[trigger]
            whole.contains(name) <==> names.contains(name) || more.contains(name) by {
            if more.contains(name) {
                let i = choose|i: int| 0 <= i < more.len() && more[i] == name;
                if i < more.len() - 1 {
                    assert(shorter[i] == name);
                }
                if before.contains(name) {
                    let j = choose|j: int| 0 <= j < before.len() && before[j] == name;
                    assert(whole[j] == name);
                } else {
                    assert(name == more.last());
                    assert(whole.last() == name);
                }
            }
            if names.contains(name) {
                assert(before.contains(name));
                let j = choose|j: int| 0 <= j < before.len() && before[j] == name;
                assert(whole[j] == name);
            }
            if whole.contains(name) {
                let j = choose|j: int| 0 <= j < whole.len() && whole[j] == name;
                if j < before.len() {
                    assert(before[j] == name);
                    assert(before.contains(name));
                    if shorter.contains(name) {
                        let i = choose|i: int| 0 <= i < shorter.len() && shorter[i] == name;
                        assert(more[i] == name);
                    }
                } else {
                    assert(more[more.len() - 1] == name);
                }
            }
        }
    }
}

/// A listing of names that do not repeat is strictly alphabetical.
proof fn lemma_listing_is_alphabetical(
    listed: Seq<Seq<char>>,
    names: Seq<Seq<char>>,
    order: Seq<int>,
)
    requires
        names::is_listing(listed, names, false, order),
        names.no_duplicates(),
    ensures
        text::strictly_alphabetical(listed),
{
    assert forall|i: int, j: int| 0 <= i < j < listed.len() implies text::text_order(
        #[trigger] listed[i],
        #[trigger] listed[j],
    ) == Standing::Before by {
        assert(order[i] != order[j]);
        assert((names::name_before(names, false))(order[i], order[j]));
        assert(names[order[i]] != names[order[j]]);
        text::lemma_text_order_flips(names[order[i]], names[order[j]]);
    }
}

/// Appends the names that are not already present, and keeps the list in alphabetical order.
pub fn merge_names(into: &mut Vec<String>, from: &Vec<String>)
    ensures
        exists|order: Seq<int>| #[trigger]
            names::is_listing(
                text::texts(final(into)@),
                union_in_order(text::texts(old(into)@), text::texts(from@)),
                false,
                order,
            ),
        text::texts(old(into)@).no_duplicates() ==> text::strictly_alphabetical(text::texts(final(into)@)),
        text::texts(old(into)@).no_duplicates() ==> text::texts(final(into)@).no_duplicates(),
        forall|name: Seq<char>| #[trigger]
            text::texts(final(into)@).contains(name) <==> text::texts(old(into)@).contains(name) || text::texts(
                from@,
            ).contains(name),
{
    let ghost start = text::texts(into@);
    let ghost more = text::texts(from@);
    let mut i: usize = 0;
    while i < from.len()
        invariant
            i <= from.len(),
            more == text::texts(from@),
            text::texts(into@) == union_in_order(start, more.take(i as int)),
        decreases from.len() - i,
    {
        proof {
            assert(more.take(i + 1).drop_last() =~= more.take(i as int));
            assert(more.take(i + 1).last() == more[i as int]);
        }
        push_distinct(into, from[i].as_str());
        i += 1;
    }
    assert(more.take(from.len() as int) =~= more);
    let mut unlisted: Vec<String> = Vec::new();
    std::mem::swap(into, &mut unlisted);
    let ghost whole = text::texts(unlisted@);
    let mut listed: Vec<String> = list_names(unlisted, false);
    proof {
        let order = choose|order: Seq<int>| #[trigger]
            names::is_listing(text::texts(listed@), whole, false, order);
        assert(names::is_listing(text::texts(listed@), union_in_order(start, more), false, order));
        lemma_union(start, more);
        names::lemma_listing_holds_the_same(text::texts(listed@), whole, false, order);
        if start.no_duplicates() {
            lemma_listing_is_alphabetical(text::texts(listed@), whole, order);
            lemma_alphabetical_repeats_nothing(text::texts(listed@));
        }
    }
    std::mem::swap(into, &mut listed);
}

/// A strictly alphabetical list repeats nothing.
proof fn lemma_alphabetical_repeats_nothing(list: Seq<Seq<char>>)
    requires
        text::strictly_alphabetical(list),
    ensures
        list.no_duplicates(),
{
    assert forall|i: int, j: int| 0 <= i < list.len() && 0 <= j < list.len() && i != j implies list[i]
        != list[j] by {
        if i < j {
            text::lemma_text_order_flips(list[i], list[j]);
        } else {
            text::lemma_text_order_flips(list[j], list[i]);
        }
    }
}

// ---------------------------------------------------------------------------
// The verdicts of the shards
// ---------------------------------------------------------------------------

/// Which of the lists of a verdict is meant.
pub enum Part {
    Applied,
    Unchanged,
    Unknown,
    PendingReindex,
}

/// One of the lists of a verdict.
pub open spec fn part_of(verdict: SchemaFieldUpdate, part: Part) -> Seq<Seq<char>> {
    match part {
        Part::Applied => text::texts(verdict.applied@),
        Part::Unchanged => text::texts(verdict.unchanged@),
        Part::Unknown => text::texts(verdict.unknown@),
        Part::PendingReindex => text::texts(verdict.pending_reindex@),
    }
}

/// Whether some shard lists a name there.
pub open spec fn some_shard_lists(
    verdicts: Seq<SchemaFieldUpdate>,
    part: Part,
    name: Seq<char>,
) -> bool
    decreases verdicts.len(),
{
    verdicts.len() > 0 && (some_shard_lists(verdicts.drop_last(), part, name) || part_of(
        verdicts.last(),
        part,
    ).contains(name))
}

/// Whether every shard lists a name there, and there is a shard.
pub open spec fn every_shard_lists(
    verdicts: Seq<SchemaFieldUpdate>,
    part: Part,
    name: Seq<char>,
) -> bool {
    verdicts.len() > 0 && forall|i: int|
        0 <= i < verdicts.len() ==> part_of(#[trigger] verdicts[i], part).contains(name)
}

/// Whether a verdict is what the shards of a node make of a change together.
///
/// A name is unknown only where every shard says so: a field that only some documents carry exists
/// only on the shards those documents reached, and one shard's ignorance must not refuse an edit
/// that the others can apply. A field that one shard applied and another found unchanged is
/// applied.
pub open spec fn is_common_verdict(merged: SchemaFieldUpdate, verdicts: Seq<SchemaFieldUpdate>) -> bool {
    &&& text::strictly_alphabetical(text::texts(merged.applied@))
    &&& text::strictly_alphabetical(text::texts(merged.unchanged@))
    &&& text::strictly_alphabetical(text::texts(merged.unknown@))
    &&& text::strictly_alphabetical(text::texts(merged.pending_reindex@))
    &&& forall|name: Seq<char>| #[trigger]
        text::texts(merged.applied@).contains(name) <==> some_shard_lists(verdicts, Part::Applied, name)
    &&& forall|name: Seq<char>| #[trigger]
        text::texts(merged.unchanged@).contains(name) <==> some_shard_lists(
            verdicts,
            Part::Unchanged,
            name,
        ) && !some_shard_lists(verdicts, Part::Applied, name)
    &&& forall|name: Seq<char>| #[trigger]
        text::texts(merged.unknown@).contains(name) <==> every_shard_lists(verdicts, Part::Unknown, name)
    &&& forall|name: Seq<char>| #[trigger]
        text::texts(merged.pending_reindex@).contains(name) <==> some_shard_lists(
            verdicts,
            Part::PendingReindex,
            name,
        )
}

/// Those of some names that a list holds, or those that it does not.
fn keep_names(names: Vec<String>, list: &Vec<String>, held: bool) -> (kept: Vec<String>)
    requires
        text::strictly_alphabetical(text::texts(names@)),
    ensures
        text::strictly_alphabetical(text::texts(kept@)),
        forall|name: Seq<char>| #[trigger]
            text::texts(kept@).contains(name) <==> text::texts(names@).contains(name) && text::texts(
                list@,
            ).contains(name) == held,
{
    let ghost all = text::texts(names@);
    let mut kept: Vec<String> = Vec::new();
    let mut i: usize = 0;
    while i < names.len()
        invariant
            i <= names.len(),
            all == text::texts(names@),
            text::strictly_alphabetical(all),
            text::strictly_alphabetical(text::texts(kept@)),
            forall|k: int|
                0 <= k < kept@.len() ==> exists|j: int|
                    0 <= j < i && all[j] == #[trigger] text::texts(kept@)[k],
            forall|name: Seq<char>| #[trigger]
                text::texts(kept@).contains(name) <==> all.take(i as int).contains(name) && text::texts(
                    list@,
                ).contains(name) == held,
        decreases names.len() - i,
    {
        let ghost before = text::texts(kept@);
        proof {
            let longer = all.take(i + 1);
            assert(longer =~= all.take(i as int).push(all[i as int]));
            assert forall|name: Seq<char>| #[trigger]
                longer.contains(name) <==> all.take(i as int).contains(name) || name
                    == all[i as int] by {
                if all.take(i as int).contains(name) {
                    let j = choose|j: int| 0 <= j < i && all.take(i as int)[j] == name;
                    assert(longer[j] == name);
                }
                if longer.contains(name) {
                    let j = choose|j: int| 0 <= j < i + 1 && longer[j] == name;
                    if j < i {
                        assert(all.take(i as int)[j] == name);
                    }
                }
                assert(longer[i as int] == all[i as int]);
            }
        }
        if holds_text(list, names[i].as_str()) == held {
            kept.push(names[i].clone());
            proof {
                let after = text::texts(kept@);
                assert(after =~= before.push(all[i as int]));
                assert forall|a: int, b: int| 0 <= a < b < after.len() implies text::text_order(
                    #[trigger] after[a],
                    #[trigger] after[b],
                ) == Standing::Before by {
                    if b == before.len() {
                        assert(after[a] == before[a]);
                        let j = choose|j: int| 0 <= j < i && all[j] == before[a];
                        assert(all[i as int] == after[b]);
                    } else {
                        assert(after[a] == before[a] && after[b] == before[b]);
                    }
                }
                assert forall|k: int| 0 <= k < after.len() implies exists|j: int|
                    0 <= j < i + 1 && all[j] == #[trigger] after[k] by {
                    if k < before.len() {
                        assert(after[k] == before[k]);
                        let j = choose|j: int| 0 <= j < i && all[j] == before[k];
                        assert(all[j] == after[k]);
                    } else {
                        assert(all[i as int] == after[k]);
                    }
                }
                assert forall|name: Seq<char>| #[trigger]
                    after.contains(name) <==> before.contains(name) || name == all[i as int] by {
                    if before.contains(name) {
                        let j = choose|j: int| 0 <= j < before.len() && before[j] == name;
                        assert(after[j] == name);
                    }
                    if after.contains(name) {
                        let j = choose|j: int| 0 <= j < after.len() && after[j] == name;
                        if j < before.len() {
                            assert(before[j] == name);
                        }
                    }
                    assert(after[before.len() as int] == all[i as int]);
                }
            }
        }
        i += 1;
    }
    assert(all.take(names.len() as int) =~= all);
    kept
}

/// Puts the verdicts of a node's shards together.
pub fn merge_schema_verdicts(verdicts: &Vec<SchemaFieldUpdate>) -> (merged: SchemaFieldUpdate)
    ensures
        is_common_verdict(merged, verdicts@),
{
    let mut applied: Vec<String> = Vec::new();
    let mut unchanged: Vec<String> = Vec::new();
    let mut unknown: Vec<String> = Vec::new();
    let mut pending_reindex: Vec<String> = Vec::new();
    let ghost all = verdicts@;
    let mut i: usize = 0;
    while i < verdicts.len()
        invariant
            i <= verdicts.len(),
            all == verdicts@,
            text::texts(applied@).no_duplicates(),
            text::texts(unchanged@).no_duplicates(),
            text::texts(pending_reindex@).no_duplicates(),
            text::strictly_alphabetical(text::texts(applied@)),
            text::strictly_alphabetical(text::texts(unchanged@)),
            text::strictly_alphabetical(text::texts(unknown@)),
            text::strictly_alphabetical(text::texts(pending_reindex@)),
            forall|name: Seq<char>| #[trigger]
                text::texts(applied@).contains(name) <==> some_shard_lists(
                    all.take(i as int),
                    Part::Applied,
                    name,
                ),
            forall|name: Seq<char>| #[trigger]
                text::texts(unchanged@).contains(name) <==> some_shard_lists(
                    all.take(i as int),
                    Part::Unchanged,
                    name,
                ),
            forall|name: Seq<char>| #[trigger]
                text::texts(unknown@).contains(name) <==> every_shard_lists(
                    all.take(i as int),
                    Part::Unknown,
                    name,
                ),
            forall|name: Seq<char>| #[trigger]
                text::texts(pending_reindex@).contains(name) <==> some_shard_lists(
                    all.take(i as int),
                    Part::PendingReindex,
                    name,
                ),
        decreases verdicts.len() - i,
    {
        let verdict: &SchemaFieldUpdate = &verdicts[i];
        let ghost longer = all.take(i + 1);
        proof {
            assert(longer.drop_last() =~= all.take(i as int));
            assert(longer.last() == verdict);
        }
        merge_names(&mut applied, &verdict.applied);
        merge_names(&mut unchanged, &verdict.unchanged);
        merge_names(&mut pending_reindex, &verdict.pending_reindex);
        if i == 0 {
            let mut first: Vec<String> = Vec::new();
            merge_names(&mut first, &verdict.unknown);
            unknown = first;
            assert forall|name: Seq<char>| #[trigger]
                text::texts(unknown@).contains(name) <==> every_shard_lists(
                    longer,
                    Part::Unknown,
                    name,
                ) by {
                assert(longer[0] == verdict);
            }
        } else {
            let ghost before = text::texts(unknown@);
            unknown = keep_names(unknown, &verdict.unknown, true);
            assert forall|name: Seq<char>| #[trigger]
                text::texts(unknown@).contains(name) <==> every_shard_lists(
                    longer,
                    Part::Unknown,
                    name,
                ) by {
                let shorter = all.take(i as int);
                assert(before.contains(name) <==> every_shard_lists(shorter, Part::Unknown, name));
                assert(longer[i as int] == verdict);
                if every_shard_lists(longer, Part::Unknown, name) {
                    assert forall|k: int| 0 <= k < shorter.len() implies part_of(
                        #[trigger] shorter[k],
                        Part::Unknown,
                    ).contains(name) by {
                        assert(longer[k] == shorter[k]);
                    }
                }
                if every_shard_lists(shorter, Part::Unknown, name) && part_of(
                    *verdict,
                    Part::Unknown,
                ).contains(name) {
                    assert forall|k: int| 0 <= k < longer.len() implies part_of(
                        #[trigger] longer[k],
                        Part::Unknown,
                    ).contains(name) by {
                        if k < i {
                            assert(longer[k] == shorter[k]);
                        }
                    }
                }
            }
        }
        i += 1;
    }
    assert(all.take(verdicts.len() as int) =~= all);
    let unchanged: Vec<String> = keep_names(unchanged, &applied, false);
    SchemaFieldUpdate { applied, unchanged, unknown, pending_reindex }
}

/// The shards' verdicts come to one verdict.
pub proof fn law_a_common_verdict_is_one_verdict(
    verdicts: Seq<SchemaFieldUpdate>,
    one: SchemaFieldUpdate,
    other: SchemaFieldUpdate,
)
    requires
        is_common_verdict(one, verdicts),
        is_common_verdict(other, verdicts),
    ensures
        text::texts(one.applied@) == text::texts(other.applied@),
        text::texts(one.unchanged@) == text::texts(other.unchanged@),
        text::texts(one.unknown@) == text::texts(other.unknown@),
        text::texts(one.pending_reindex@) == text::texts(other.pending_reindex@),
{
    lemma_alphabetical_is_one_list(text::texts(one.applied@), text::texts(other.applied@));
    lemma_alphabetical_is_one_list(text::texts(one.unchanged@), text::texts(other.unchanged@));
    lemma_alphabetical_is_one_list(text::texts(one.unknown@), text::texts(other.unknown@));
    lemma_alphabetical_is_one_list(text::texts(one.pending_reindex@), text::texts(other.pending_reindex@));
}

/// Two strictly alphabetical lists of the same names are the same list.
pub proof fn lemma_alphabetical_is_one_list(one: Seq<Seq<char>>, other: Seq<Seq<char>>)
    requires
        text::strictly_alphabetical(one),
        text::strictly_alphabetical(other),
        forall|name: Seq<char>| #[trigger] one.contains(name) <==> other.contains(name),
    ensures
        one == other,
    decreases one.len(),
{
    if one.len() == 0 {
        if other.len() > 0 {
            assert(other.contains(other[0]));
            assert(one.contains(other[0]));
        }
        assert(one =~= other);
    } else {
        assert(one.contains(one.last()));
        assert(other.contains(one.last()));
        assert(other.contains(other.last()));
        assert(one.contains(other.last()));
        let i = choose|i: int| 0 <= i < one.len() && one[i] == other.last();
        let j = choose|j: int| 0 <= j < other.len() && other[j] == one.last();
        if i < one.len() - 1 && j < other.len() - 1 {
            assert(text::text_order(one[i], one[one.len() - 1]) == Standing::Before);
            assert(text::text_order(other[j], other[other.len() - 1]) == Standing::Before);
            text::lemma_text_order_flips(other.last(), one.last());
        }
        assert(one.last() == other.last());
        let a = one.drop_last();
        let b = other.drop_last();
        assert forall|name: Seq<char>| #[trigger] a.contains(name) <==> b.contains(name) by {
            if a.contains(name) {
                let k = choose|k: int| 0 <= k < a.len() && a[k] == name;
                assert(one[k] == name);
                assert(one.contains(name));
                text::lemma_text_order_flips(one[k], one.last());
                let m = choose|m: int| 0 <= m < other.len() && other[m] == name;
                assert(text::text_order(one[k], one[one.len() - 1]) == Standing::Before);
                assert(m < other.len() - 1);
                assert(b[m] == name);
            }
            if b.contains(name) {
                let k = choose|k: int| 0 <= k < b.len() && b[k] == name;
                assert(other[k] == name);
                assert(other.contains(name));
                assert(one.contains(name));
                text::lemma_text_order_flips(other[k], other.last());
                let m = choose|m: int| 0 <= m < one.len() && one[m] == name;
                assert(text::text_order(other[k], other[other.len() - 1]) == Standing::Before);
                assert(m < one.len() - 1);
                assert(a[m] == name);
            }
        }
        lemma_alphabetical_is_one_list(a, b);
        assert(one =~= a.push(one.last()));
        assert(other =~= b.push(other.last()));
    }
}

// ---------------------------------------------------------------------------
// What the caller is told
// ---------------------------------------------------------------------------

/// Why a change was refused.
pub open spec fn refusal_text(unknown: Seq<Seq<char>>) -> Seq<char> {
    "Schema update refused, nothing was changed: no such field in this schema: "@ + text::joined(
        unknown,
        ", "@,
    )
}

/// Why a change was refused, phrased for whoever has to act on it.
pub fn describe_schema_refusal(outcome: &SchemaFieldUpdate) -> (reason: String)
    ensures
        reason@ == refusal_text(text::texts(outcome.unknown@)),
{
    let mut reason: String = String::from_str(
        "Schema update refused, nothing was changed: no such field in this schema: ",
    );
    reason.append(join_texts(&outcome.unknown, ", ").as_str());
    reason
}

/// What follows from a flag that cannot take effect yet.
pub open spec fn pending_text(pending: Seq<Seq<char>>) -> Seq<char> {
    "Marked indexed and saved, but not searchable yet: "@ + text::joined(pending, ", "@)
        + ". The index was built before these fields were declared, so it has no column for them. Rebuilding the index data from the schema is what makes them searchable — delete the index data without deleting the schema, then re-ingest. Until then a query naming them matches nothing, and says so rather than returning a narrower answer as though it were complete."@
}

/// What a caller has to do about a flag that cannot take effect yet.
pub fn describe_pending_reindex(outcome: &SchemaFieldUpdate) -> (note: String)
    ensures
        note@ == pending_text(text::texts(outcome.pending_reindex@)),
{
    let mut note: String = String::from_str("Marked indexed and saved, but not searchable yet: ");
    note.append(join_texts(&outcome.pending_reindex, ", ").as_str());
    note.append(
        ". The index was built before these fields were declared, so it has no column for them. Rebuilding the index data from the schema is what makes them searchable — delete the index data without deleting the schema, then re-ingest. Until then a query naming them matches nothing, and says so rather than returning a narrower answer as though it were complete.",
    );
    note
}

/// What changing a schema answers.
pub open spec fn update_body(index: Seq<char>, outcome: SchemaFieldUpdate) -> JsonV {
    JsonV::Object(
        seq![
            ("acknowledged"@, JsonV::Bool(!outcome.refused())),
            ("index"@, JsonV::Text(index)),
            ("updated_fields"@, errors::text_array(text::texts(outcome.applied@))),
            ("unchanged_fields"@, errors::text_array(text::texts(outcome.unchanged@))),
        ] + if outcome.refused() {
            seq![
                ("unknown_fields"@, errors::text_array(text::texts(outcome.unknown@))),
                ("reason"@, JsonV::Text(refusal_text(text::texts(outcome.unknown@)))),
            ]
        } else if outcome.pending_reindex@.len() > 0 {
            seq![
                ("pending_reindex_fields"@, errors::text_array(text::texts(outcome.pending_reindex@))),
                ("note"@, JsonV::Text(pending_text(text::texts(outcome.pending_reindex@)))),
            ]
        } else {
            Seq::empty()
        },
    )
}

/// What changing a schema answers, whether the change was accepted or refused.
pub fn schema_update_response(index: &str, outcome: &SchemaFieldUpdate) -> (response: Json)
    ensures
        response@ == update_body(index@, *outcome),
{
    let acknowledged: Json = Json::Bool(!outcome.is_rejected());
    proof {
        json::lemma_model_by_parts(acknowledged);
    }
    let mut parts: Vec<(String, Json)> = vec![
        entry("acknowledged", acknowledged),
        entry("index", Json::text(index)),
        entry("updated_fields", Json::text_list(&outcome.applied)),
        entry("unchanged_fields", Json::text_list(&outcome.unchanged)),
    ];
    let ghost base = json::entry_models(parts@);
    assert(base =~= seq![
        ("acknowledged"@, JsonV::Bool(!outcome.refused())),
        ("index"@, JsonV::Text(index@)),
        ("updated_fields"@, errors::text_array(text::texts(outcome.applied@))),
        ("unchanged_fields"@, errors::text_array(text::texts(outcome.unchanged@))),
    ]);
    if outcome.is_rejected() {
        parts.push(entry("unknown_fields", Json::text_list(&outcome.unknown)));
        parts.push(entry("reason", Json::text(describe_schema_refusal(outcome).as_str())));
        assert(json::entry_models(parts@) =~= base + seq![
            ("unknown_fields"@, errors::text_array(text::texts(outcome.unknown@))),
            ("reason"@, JsonV::Text(refusal_text(text::texts(outcome.unknown@)))),
        ]);
    } else if outcome.pending_reindex.len() > 0 {
        parts.push(entry("pending_reindex_fields", Json::text_list(&outcome.pending_reindex)));
        parts.push(entry("note", Json::text(describe_pending_reindex(outcome).as_str())));
        assert(json::entry_models(parts@) =~= base + seq![
            ("pending_reindex_fields"@, errors::text_array(text::texts(outcome.pending_reindex@))),
            ("note"@, JsonV::Text(pending_text(text::texts(outcome.pending_reindex@)))),
        ]);
    } else {
        assert(json::entry_models(parts@) =~= base + Seq::empty());
    }
    Json::object(parts)
}

/// What is done once the shards have been asked what they would make of a change.
#[derive(Debug, PartialEq)]
pub enum UpdateStep {
    /// Nothing is written, and this is the answer.
    Refuse(Json),
    /// Every shard writes the change.
    Apply,
}

/// What is done once the shards have been asked what they would make of a change: one that they
/// refuse is answered and written nowhere.
pub fn after_plan(index: &str, plan: &SchemaFieldUpdate) -> (step: UpdateStep)
    ensures
        match step {
            UpdateStep::Refuse(answer) => plan.refused() && answer@ == update_body(index@, *plan),
            UpdateStep::Apply => !plan.refused(),
        },
{
    if plan.is_rejected() {
        UpdateStep::Refuse(schema_update_response(index, plan))
    } else {
        UpdateStep::Apply
    }
}

/// A change is acknowledged exactly where there is no field that every shard finds unknown.
pub proof fn law_one_shard_cannot_refuse_for_all(
    verdicts: Seq<SchemaFieldUpdate>,
    merged: SchemaFieldUpdate,
)
    requires
        is_common_verdict(merged, verdicts),
    ensures
        merged.refused() <==> exists|name: Seq<char>| #[trigger]
            every_shard_lists(verdicts, Part::Unknown, name),
{
    let unknown = text::texts(merged.unknown@);
    if merged.refused() {
        assert(unknown.contains(unknown[0]));
        assert(every_shard_lists(verdicts, Part::Unknown, unknown[0]));
    }
    if exists|name: Seq<char>| #[trigger] every_shard_lists(verdicts, Part::Unknown, name) {
        let name = choose|name: Seq<char>| #[trigger]
            every_shard_lists(verdicts, Part::Unknown, name);
        assert(unknown.contains(name));
    }
}

} // verus!
