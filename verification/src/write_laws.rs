//! Where documents and removals go, and what comes of them.

use vstd::prelude::*;
use crate::{
    bulk, bulk_delete, errors, evolution, grouping, json, reasons, routing, search_laws, text,
};
use crate::bulk::{AccountV, LocalOutcome, Placed, PlacedV, RemoteOutcome};
use crate::bulk_delete::RemovedV;
use crate::errors::{ErrorV, IoKind, OrchestratorError};
use crate::json::{JsonV, NumV};
use crate::ops::{DeletePayload, DocPayload};
use crate::schema::SchemaV;

verus! {

// ---------------------------------------------------------------------------
// Keys
// ---------------------------------------------------------------------------

/// The field that an index is routed by: the one it names, and the document key where it names none.
pub open spec fn routing_field(schema: SchemaV) -> Seq<char> {
    match schema.routing_field {
        Some(name) => name,
        None => "id"@,
    }
}

/// Whether a value of the routing field says a key, and this is the key that it says: a text itself, a
/// number and a truth value as they are written.
pub open spec fn says_key(value: JsonV, key: Seq<char>) -> bool {
    match value {
        JsonV::Text(text) => key == text,
        JsonV::Number(NumV::Unsigned(n)) => key == text::decimal(n as nat),
        JsonV::Number(NumV::Negative(n)) => n < 0 ==> key == "-"@ + text::decimal((-(n as int)) as nat),
        JsonV::Number(NumV::Real(text)) => key == text,
        JsonV::Bool(true) => key == "true"@,
        JsonV::Bool(false) => key == "false"@,
        _ => false,
    }
}

/// Whether a value of the routing field says no key.
pub open spec fn says_nothing(value: Option<JsonV>) -> bool {
    match value {
        None => true,
        Some(JsonV::Null) => true,
        Some(JsonV::Array(_)) => true,
        Some(JsonV::Object(_)) => true,
        _ => false,
    }
}

/// Whether this is the key that a write goes by: what the document holds in the routing field, what the
/// caller gave where it holds nothing there, and the document's identifier where nobody gave any.
pub open spec fn is_write_key(
    key: Seq<char>,
    schema: SchemaV,
    id: Seq<char>,
    given: Option<Seq<char>>,
    doc: JsonV,
) -> bool {
    let held = doc.get(routing_field(schema));
    &&& !says_nothing(held) ==> says_key(held->0, key)
    &&& says_nothing(held) && given is Some ==> given == Some(key)
    &&& says_nothing(held) && given is None && id.len() > 0 ==> key == id
    &&& says_nothing(held) && given is None && id.len() == 0 ==> (doc.get("id"@) matches Some(
        JsonV::Text(own),
    ) ==> key == own)
}

/// A write goes by what the document says, then by what the caller says, then by the identifier.
pub proof fn law_a_write_goes_by_its_document(
    schema: SchemaV,
    id: Seq<char>,
    given: Option<Seq<char>>,
    doc: JsonV,
)
    ensures
        is_write_key(routing::write_key(schema, id, given, doc), schema, id, given, doc),
{
}

/// A removal goes by the key that the caller gives; without one it goes by the document key, where the
/// index is routed by it, and is the caller's fault where it is not.
pub proof fn law_a_removal_goes_by_the_callers_key(
    schema: SchemaV,
    id: Seq<char>,
    given: Option<Seq<char>>,
)
    ensures
        given matches Some(key) ==> routing::delete_key(schema, id, given) == Ok::<_, ErrorV>(key),
        given is None && routing_field(schema) == "id"@ ==> routing::delete_key(schema, id, given)
            == Ok::<_, ErrorV>(id),
        given is None && (schema.field(routing_field(schema)) matches Some(def) && def.is_shadow)
            ==> routing::delete_key(schema, id, given) == Ok::<_, ErrorV>(id),
        given is None && routing_field(schema) != "id"@ && !(schema.field(routing_field(schema)) matches Some(
            def,
        ) && def.is_shadow) ==> (routing::delete_key(schema, id, given) matches Err(error)
            && error matches ErrorV::Io(kind, _) && kind == IoKind::InvalidInput),
{
}

/// A removal reaches the shard that its write reached, whatever the index is routed by, where the
/// caller gives the key that the write went by.
pub proof fn law_a_removal_finds_its_write(
    schema: SchemaV,
    id: Seq<char>,
    given: Option<Seq<char>>,
    doc: JsonV,
)
    ensures
        routing::delete_key(schema, id, Some(routing::write_key(schema, id, given, doc)))
            == Ok::<_, ErrorV>(routing::write_key(schema, id, given, doc)),
{
}

// ---------------------------------------------------------------------------
// Placing a batch
// ---------------------------------------------------------------------------

/// Every document of a batch that was not refused is placed, once and in order, as it came, under the
/// key that a write of it alone goes by; no other is.
pub proof fn law_a_batch_is_placed_document_by_document(
    schema: SchemaV,
    docs: Seq<DocPayload>,
    refused: Seq<usize>,
)
    requires
        docs.len() <= usize::MAX,
    ensures
        ({
            let placed = bulk::placed_from(schema, evolution::doc_models(docs), refused);
            &&& forall|k: int|
                0 <= k < placed.len() ==> is_placed(#[trigger] placed[k], schema, docs, refused)
            &&& forall|j: int, k: int|
                0 <= j < k < placed.len() ==> (#[trigger] placed[j]).position < (
                #[trigger] placed[k]).position
            &&& forall|p: int|
                0 <= p < docs.len() && !refused.contains(p as usize) ==> #[trigger] stands_among(
                    placed,
                    p,
                )
        }),
    decreases docs.len(),
{
    let all = evolution::doc_models(docs);
    let placed = bulk::placed_from(schema, all, refused);
    if docs.len() > 0 {
        let shorter = docs.drop_last();
        let p = docs.len() - 1;
        assert(evolution::doc_models(shorter) =~= all.drop_last());
        law_a_batch_is_placed_document_by_document(schema, shorter, refused);
        let before = bulk::placed_from(schema, all.drop_last(), refused);
        assert forall|k: int| 0 <= k < placed.len() implies is_placed(
            #[trigger] placed[k],
            schema,
            docs,
            refused,
        ) by {
            if k < before.len() {
                assert(placed[k] == before[k]);
                assert(is_placed(before[k], schema, shorter, refused));
                assert(shorter[before[k].position as int] == docs[before[k].position as int]);
            } else {
                assert(all.last() == docs[p]@);
                let doc = docs[p]@;
                law_a_write_goes_by_its_document(schema, doc.id, doc.routing_key, doc.doc);
            }
        }
        assert forall|j: int, k: int| 0 <= j < k < placed.len() implies (#[trigger] placed[j]).position
            < (#[trigger] placed[k]).position by {
            assert(placed[j] == before[j]);
            assert(is_placed(before[j], schema, shorter, refused));
            if k < before.len() {
                assert(placed[k] == before[k]);
            }
        }
        assert forall|q: int| 0 <= q < docs.len() && !refused.contains(q as usize) implies #[trigger] stands_among(
            placed,
            q,
        ) by {
            if q < p {
                assert(stands_among(before, q));
                let k = choose|k: int| 0 <= k < before.len() && (#[trigger] before[k]).position == q;
                assert(placed[k] == before[k]);
            } else {
                assert(placed[before.len() as int].position == q);
            }
        }
    }
}

/// Whether a placed document is one of a batch that was not refused, under the key that a write of it
/// alone goes by.
pub open spec fn is_placed(
    placed: PlacedV,
    schema: SchemaV,
    docs: Seq<DocPayload>,
    refused: Seq<usize>,
) -> bool {
    let p = placed.position as int;
    &&& 0 <= p < docs.len()
    &&& !refused.contains(placed.position)
    &&& placed.doc.id == docs[p].id@
    &&& placed.doc.doc == docs[p].doc@
    &&& placed.routing_key == Some(
        routing::write_key(schema, docs[p].id@, errors::opt_text(docs[p].routing_key), docs[p].doc@),
    )
    &&& placed.routing_key matches Some(key) && is_write_key(
        key,
        schema,
        docs[p].id@,
        match docs[p].routing_key {
            Some(given) => Some(given@),
            None => None,
        },
        docs[p].doc@,
    )
}

/// Whether a position of a batch stands among those that are placed.
pub open spec fn stands_among(placed: Seq<PlacedV>, position: int) -> bool {
    exists|k: int| 0 <= k < placed.len() && (#[trigger] placed[k]).position == position
}

// ---------------------------------------------------------------------------
// Planning a batch
// ---------------------------------------------------------------------------

/// Whether a thing stands in the group of an identifier.
pub open spec fn in_group<T>(groups: Seq<(u128, Seq<T>)>, id: u128, thing: T) -> bool {
    exists|g: int| 0 <= g < groups.len() && (#[trigger] groups[g]).0 == id && groups[g].1.contains(thing)
}

/// A thing that is grouped stands in its group, with all that stood there and no other.
proof fn lemma_in_group<T>(groups: Seq<(u128, Seq<T>)>, id: u128, thing: T, other_id: u128, other: T)
    ensures
        in_group(grouping::with_thing(groups, id, thing), other_id, other) <==> in_group(
            groups,
            other_id,
            other,
        ) || (other_id == id && other == thing),
{
    grouping::lemma_group_place(groups, id);
    let place = grouping::group_place(groups, id);
    let after = grouping::with_thing(groups, id, thing);
    if in_group(groups, other_id, other) {
        let g = choose|g: int|
            0 <= g < groups.len() && (#[trigger] groups[g]).0 == other_id && groups[g].1.contains(other);
        let i = choose|i: int| 0 <= i < groups[g].1.len() && groups[g].1[i] == other;
        assert(after[g].0 == other_id);
        assert(after[g].1[i] == other);
    }
    if other_id == id && other == thing {
        assert(after[place].0 == id);
        let grown = after[place].1;
        assert(grown[grown.len() - 1] == thing);
        assert(grown.contains(thing));
    }
    if in_group(after, other_id, other) {
        let g = choose|g: int|
            0 <= g < after.len() && (#[trigger] after[g]).0 == other_id && after[g].1.contains(other);
        let i = choose|i: int| 0 <= i < after[g].1.len() && after[g].1[i] == other;
        if g == place {
            if place < groups.len() {
                if i < groups[g].1.len() {
                    assert(groups[g].1[i] == other);
                    assert(groups[g].0 == other_id);
                }
            }
        } else {
            assert(groups[g] == after[g]);
        }
    }
}

/// The shard that a document goes to: the one that owns its key, or the first where none does.
pub open spec fn shard_of(owners: Seq<Option<u128>>, first_shard: Option<u128>, k: int) -> Option<
    u128,
> {
    match owners[k] {
        Some(shard) => Some(shard),
        None => first_shard,
    }
}

/// A planned document goes to the shard that owns its key, where this node has it, and to the node that
/// has it otherwise; one whose shard no node has is told of as unclaimed, and one that no shard can take
/// as unrouted. Nothing else is in the plan.
pub proof fn law_a_document_goes_to_the_shard_that_owns_its_key(
    placed: Seq<Placed>,
    owners: Seq<Option<u128>>,
    first_shard: Option<u128>,
    local: Seq<u128>,
    assignments: Seq<(u128, u128)>,
    k: int,
)
    requires
        owners.len() == placed.len(),
        0 <= k < placed.len(),
        placed[k].routing_key is Some,
    ensures
        ({
            let plan = bulk::planned(placed, owners, first_shard, local, assignments);
            match shard_of(owners, first_shard, k) {
                Some(shard) => {
                    &&& local.contains(shard) ==> in_group(plan.local, shard, placed[k])
                    &&& !local.contains(shard) ==> match grouping::paired(assignments, shard) {
                        Some(node) => in_group(plan.remote, node, placed[k]),
                        None => exists|i: int|
                            0 <= i < plan.unclaimed.len() && text::begins_with(
                                #[trigger] plan.unclaimed[i],
                                "document "@ + text::decimal(placed[k].position as nat) + ": "@,
                            ),
                    }
                },
                None => exists|i: int|
                    0 <= i < plan.unrouted.len() && text::begins_with(
                        #[trigger] plan.unrouted[i],
                        "document "@ + text::decimal(placed[k].position as nat) + ": "@,
                    ),
            }
        }),
    decreases placed.len(),
{
    let shorter = placed.drop_last();
    let n = shorter.len() as int;
    let before = bulk::planned(shorter, owners, first_shard, local, assignments);
    let plan = bulk::planned(placed, owners, first_shard, local, assignments);
    let last = placed.last();
    let fate = bulk::fate_of(last@, bulk::shard_for(owners, first_shard, n), local, assignments);
    lemma_plan_ignores_owners_behind(shorter, owners, owners.take(n), first_shard, local, assignments);
    if let bulk::Fate::Local(shard) = fate {
        if let Some(own) = shard_of(owners, first_shard, k) {
            lemma_in_group(before.local, shard, last, own, placed[k]);
        }
    }
    if let bulk::Fate::Remote(node) = fate {
        if let Some(own) = shard_of(owners, first_shard, k) {
            if let Some(far) = grouping::paired(assignments, own) {
                lemma_in_group(before.remote, node, last, far, placed[k]);
            }
        }
    }
    let start = "document "@ + text::decimal(placed[k].position as nat) + ": "@;
    if k < n {
        law_a_document_goes_to_the_shard_that_owns_its_key(
            shorter,
            owners.take(n),
            first_shard,
            local,
            assignments,
            k,
        );
        assert(shorter[k] == placed[k]);
        if exists|i: int|
            0 <= i < before.unclaimed.len() && text::begins_with(#[trigger] before.unclaimed[i], start) {
            let i = choose|i: int|
                0 <= i < before.unclaimed.len() && text::begins_with(
                    #[trigger] before.unclaimed[i],
                    start,
                );
            assert(plan.unclaimed[i] == before.unclaimed[i]);
        }
        if exists|i: int|
            0 <= i < before.unrouted.len() && text::begins_with(#[trigger] before.unrouted[i], start) {
            let i = choose|i: int|
                0 <= i < before.unrouted.len() && text::begins_with(
                    #[trigger] before.unrouted[i],
                    start,
                );
            assert(plan.unrouted[i] == before.unrouted[i]);
        }
    } else {
        assert(last == placed[k]);
        match fate {
            bulk::Fate::Unclaimed(shard) => {
                let note = plan.unclaimed[before.unclaimed.len() as int];
                assert(note.subrange(0, start.len() as int) =~= start);
                assert(text::begins_with(note, start));
            },
            bulk::Fate::Unrouted(reason) => {
                let note = plan.unrouted[before.unrouted.len() as int];
                assert(note.subrange(0, start.len() as int) =~= start);
                assert(text::begins_with(note, start));
            },
            _ => {},
        }
    }
}

/// A plan depends on the owners of its own documents alone.
proof fn lemma_plan_ignores_owners_behind(
    placed: Seq<Placed>,
    owners: Seq<Option<u128>>,
    others: Seq<Option<u128>>,
    first_shard: Option<u128>,
    local: Seq<u128>,
    assignments: Seq<(u128, u128)>,
)
    requires
        placed.len() <= owners.len(),
        placed.len() <= others.len(),
        forall|i: int| 0 <= i < placed.len() ==> owners[i] == others[i],
    ensures
        bulk::planned(placed, owners, first_shard, local, assignments) == bulk::planned(
            placed,
            others,
            first_shard,
            local,
            assignments,
        ),
    decreases placed.len(),
{
    if placed.len() > 0 {
        lemma_plan_ignores_owners_behind(
            placed.drop_last(),
            owners,
            others,
            first_shard,
            local,
            assignments,
        );
    }
}

/// What a plan hands to a shard or a node is a document of the batch that belongs there.
pub proof fn law_a_group_holds_only_its_own(
    placed: Seq<Placed>,
    owners: Seq<Option<u128>>,
    first_shard: Option<u128>,
    local: Seq<u128>,
    assignments: Seq<(u128, u128)>,
    id: u128,
    thing: Placed,
)
    requires
        owners.len() == placed.len(),
    ensures
        ({
            let plan = bulk::planned(placed, owners, first_shard, local, assignments);
            &&& in_group(plan.local, id, thing) ==> local.contains(id) && exists|k: int|
                0 <= k < placed.len() && #[trigger] placed[k] == thing && shard_of(
                    owners,
                    first_shard,
                    k,
                ) == Some(id)
            &&& in_group(plan.remote, id, thing) ==> exists|k: int|
                0 <= k < placed.len() && #[trigger] placed[k] == thing && (shard_of(
                    owners,
                    first_shard,
                    k,
                ) matches Some(shard) && !local.contains(shard) && grouping::paired(assignments, shard)
                    == Some(id))
        }),
    decreases placed.len(),
{
    if placed.len() > 0 {
        let shorter = placed.drop_last();
        let n = shorter.len() as int;
        let before = bulk::planned(shorter, owners, first_shard, local, assignments);
        let plan = bulk::planned(placed, owners, first_shard, local, assignments);
        let last = placed.last();
        lemma_plan_ignores_owners_behind(shorter, owners, owners.take(n), first_shard, local, assignments);
        law_a_group_holds_only_its_own(
            shorter,
            owners.take(n),
            first_shard,
            local,
            assignments,
            id,
            thing,
        );
        let fate = bulk::fate_of(last@, bulk::shard_for(owners, first_shard, n), local, assignments);
        if let bulk::Fate::Local(shard) = fate {
            lemma_in_group(before.local, shard, last, id, thing);
        }
        if let bulk::Fate::Remote(node) = fate {
            lemma_in_group(before.remote, node, last, id, thing);
        }
        assert(placed[n] == last);
        if in_group(before.local, id, thing) {
            let k = choose|k: int|
                0 <= k < shorter.len() && #[trigger] shorter[k] == thing && shard_of(
                    owners.take(n),
                    first_shard,
                    k,
                ) == Some(id);
            assert(placed[k] == thing);
        }
        if in_group(before.remote, id, thing) {
            let k = choose|k: int|
                0 <= k < shorter.len() && #[trigger] shorter[k] == thing && (shard_of(
                    owners.take(n),
                    first_shard,
                    k,
                ) matches Some(shard) && !local.contains(shard) && grouping::paired(assignments, shard)
                    == Some(id));
            assert(placed[k] == thing);
        }
    }
}

/// What is found beside an identifier stands beside it in the list, and the first that does.
pub proof fn law_a_pair_is_found_beside_its_identifier<T>(pairs: Seq<(u128, T)>, id: u128)
    ensures
        grouping::paired(pairs, id) is None <==> forall|i: int|
            0 <= i < pairs.len() ==> (#[trigger] pairs[i]).0 != id,
        grouping::paired(pairs, id) matches Some(value) ==> exists|i: int|
            0 <= i < pairs.len() && #[trigger] pairs[i] == (id, value) && forall|j: int|
                0 <= j < i ==> (#[trigger] pairs[j]).0 != id,
    decreases pairs.len(),
{
    if pairs.len() > 0 {
        let rest = pairs.skip(1);
        if pairs[0].0 == id {
            assert(pairs[0] == (id, pairs[0].1));
        } else {
            law_a_pair_is_found_beside_its_identifier(rest, id);
            if let Some(value) = grouping::paired(rest, id) {
                let i = choose|i: int|
                    0 <= i < rest.len() && #[trigger] rest[i] == (id, value) && forall|j: int|
                        0 <= j < i ==> (#[trigger] rest[j]).0 != id;
                assert(pairs[i + 1] == (id, value));
                assert forall|j: int| 0 <= j < i + 1 implies (#[trigger] pairs[j]).0 != id by {
                    if j > 0 {
                        assert(rest[j - 1] == pairs[j]);
                    }
                }
            } else {
                assert forall|i: int| 0 <= i < pairs.len() implies (#[trigger] pairs[i]).0 != id by {
                    if i > 0 {
                        assert(rest[i - 1] == pairs[i]);
                    }
                }
            }
        }
    }
}

// ---------------------------------------------------------------------------
// Removals
// ---------------------------------------------------------------------------

/// A removal of a batch goes by the key that the caller gives it, on every index; without one it goes as
/// a single removal does. One with nothing but space for an identifier is refused.
pub proof fn law_a_removal_of_a_batch_goes_as_it_goes_alone(
    schema: SchemaV,
    payload: DeletePayload,
    key: Result<String, String>,
)
    requires
        bulk_delete::is_key(key, bulk_delete::removal_key(schema, payload@)),
    ensures
        payload matches DeletePayload::Keyed { id, routing_key: Some(given) } ==> !text::is_blank(id@) ==> (key matches Ok(k) && k@ == given@),
        payload matches DeletePayload::Keyed { id, routing_key: None } ==> !text::is_blank(id@) ==> match (
            key,
            routing::delete_key(schema, id@, None),
        ) {
            (Ok(k), Ok(alone)) => k@ == alone,
            (Err(_), Err(_)) => true,
            _ => false,
        },
        payload matches DeletePayload::Id(id) ==> !text::is_blank(id@) ==> match (
            key,
            routing::delete_key(schema, id@, None),
        ) {
            (Ok(k), Ok(alone)) => k@ == alone,
            (Err(_), Err(_)) => true,
            _ => false,
        },
        payload matches DeletePayload::Id(id) ==> text::is_blank(id@) ==> key is Err,
        payload matches DeletePayload::Keyed { id, routing_key: _ } ==> text::is_blank(id@) ==> key is Err,
{
    match payload {
        DeletePayload::Id(id) => {
            law_a_removal_goes_by_the_callers_key(schema, id@, None);
        },
        DeletePayload::Keyed { id, routing_key } => {
            law_a_removal_goes_by_the_callers_key(schema, id@, errors::opt_text(routing_key));
        },
    }
}

/// The identifier of a removal.
pub open spec fn removed_id(payload: DeletePayload) -> Seq<char> {
    match payload {
        DeletePayload::Id(id) => id@,
        DeletePayload::Keyed { id, routing_key: _ } => id@,
    }
}

/// A removal with a key goes to the shard that owns the key, where this node has it, and to the node
/// that has it otherwise, as it came; every other is told of.
pub proof fn law_a_removal_goes_to_the_shard_that_owns_its_key(
    docs: Seq<DeletePayload>,
    keys: Seq<Result<String, String>>,
    owners: Seq<Option<u128>>,
    first_shard: Option<u128>,
    local: Seq<u128>,
    assignments: Seq<(u128, u128)>,
    k: int,
)
    requires
        keys.len() == docs.len(),
        owners.len() == docs.len(),
        0 <= k < docs.len(),
    ensures
        ({
            let plan = bulk_delete::delete_planned(docs, keys, owners, first_shard, local, assignments);
            match (keys[k], shard_of(owners, first_shard, k)) {
                (Err(reason), _) => plan.errors.contains(reason@),
                (Ok(_), None) => plan.errors.len() > 0,
                (Ok(_), Some(shard)) => {
                    &&& local.contains(shard) ==> in_group(plan.local, shard, removed_id(docs[k]))
                    &&& !local.contains(shard) ==> match grouping::paired(assignments, shard) {
                        Some(node) => in_group(plan.remote, node, docs[k]),
                        None => plan.errors.len() > 0,
                    }
                },
            }
        }),
    decreases docs.len(),
{
    let shorter = docs.drop_last();
    let n = shorter.len() as int;
    let before = bulk_delete::delete_planned(shorter, keys, owners, first_shard, local, assignments);
    let plan = bulk_delete::delete_planned(docs, keys, owners, first_shard, local, assignments);
    let last = docs.last();
    lemma_removals_ignore_what_is_behind(
        shorter,
        keys,
        keys.take(n),
        owners,
        owners.take(n),
        first_shard,
        local,
        assignments,
    );
    let fate = bulk_delete::removal_fate(
        last@.id,
        keys[n],
        bulk::shard_for(owners, first_shard, n),
        local,
        assignments,
    );
    assert(removed_id(last) == last@.id);
    if let bulk_delete::RemovalFate::Local(shard) = fate {
        if let Some(own) = shard_of(owners, first_shard, k) {
            lemma_in_group(before.local, shard, last@.id, own, removed_id(docs[k]));
        }
    }
    if let bulk_delete::RemovalFate::Remote(node) = fate {
        if let Some(own) = shard_of(owners, first_shard, k) {
            if let Some(far) = grouping::paired(assignments, own) {
                lemma_in_group(before.remote, node, last, far, docs[k]);
            }
        }
    }
    if k < n {
        law_a_removal_goes_to_the_shard_that_owns_its_key(
            shorter,
            keys.take(n),
            owners.take(n),
            first_shard,
            local,
            assignments,
            k,
        );
        assert(shorter[k] == docs[k]);
        if let Err(reason) = keys[k] {
            let i = choose|i: int| 0 <= i < before.errors.len() && before.errors[i] == reason@;
            assert(plan.errors[i] == reason@);
        }
    } else {
        if let bulk_delete::RemovalFate::Lost(reason) = fate {
            assert(plan.errors[before.errors.len() as int] == reason);
        }
    }
}

/// A plan of removals depends on the keys and the owners of its own removals alone.
proof fn lemma_removals_ignore_what_is_behind(
    docs: Seq<DeletePayload>,
    keys: Seq<Result<String, String>>,
    other_keys: Seq<Result<String, String>>,
    owners: Seq<Option<u128>>,
    other_owners: Seq<Option<u128>>,
    first_shard: Option<u128>,
    local: Seq<u128>,
    assignments: Seq<(u128, u128)>,
)
    requires
        docs.len() <= keys.len(),
        docs.len() <= other_keys.len(),
        docs.len() <= owners.len(),
        docs.len() <= other_owners.len(),
        forall|i: int| 0 <= i < docs.len() ==> keys[i] == other_keys[i],
        forall|i: int| 0 <= i < docs.len() ==> owners[i] == other_owners[i],
    ensures
        bulk_delete::delete_planned(docs, keys, owners, first_shard, local, assignments)
            == bulk_delete::delete_planned(
            docs,
            other_keys,
            other_owners,
            first_shard,
            local,
            assignments,
        ),
    decreases docs.len(),
{
    if docs.len() > 0 {
        lemma_removals_ignore_what_is_behind(
            docs.drop_last(),
            keys,
            other_keys,
            owners,
            other_owners,
            first_shard,
            local,
            assignments,
        );
    }
}

/// Counting what was removed adds every shard's and node's count and leaves out none; what failed is told
/// of in its own words.
pub proof fn law_removals_are_counted(
    before: RemovedV,
    outcome: Result<usize, OrchestratorError>,
    failure: Seq<char>,
)
    ensures
        ({
            let after = bulk_delete::removed_with(before, outcome, failure);
            &&& outcome matches Ok(count) ==> after.deleted == before.deleted + count && after.errors
                == before.errors
            &&& outcome matches Err(error) ==> after.deleted == before.deleted && after.errors.len()
                == before.errors.len() + 1 && after.errors.last() == failure + errors::error_text(
                error@,
            ) && after.errors.drop_last() == before.errors
        }),
{
    if outcome is Err {
        assert(bulk_delete::removed_with(before, outcome, failure).errors.drop_last()
            =~= before.errors);
    }
}

// ---------------------------------------------------------------------------
// Answers
// ---------------------------------------------------------------------------

/// What a bulk write or a bulk removal answers tells what came of it.
pub proof fn law_a_bulk_answer_tells_the_account(
    account: AccountV,
    removed: RemovedV,
    received: nat,
    duration_ms: u64,
)
    ensures
        ({
            let answer = bulk::bulk_body(account, received, duration_ms);
            &&& search_laws::is_count(answer.get("items_written"@), account.written)
            &&& search_laws::is_count(answer.get("items_received"@), received)
            &&& search_laws::is_count(answer.get("duration_ms"@), duration_ms as nat)
            &&& answer.get("errors"@) matches Some(JsonV::Array(list)) && list.len()
                == account.errors.len() && forall|i: int|
                0 <= i < list.len() ==> #[trigger] list[i] == JsonV::Text(account.errors[i])
        }),
        ({
            let answer = bulk_delete::bulk_delete_body(removed, received, duration_ms);
            &&& search_laws::is_count(answer.get("items_deleted"@), removed.deleted)
            &&& search_laws::is_count(answer.get("items_received"@), received)
            &&& search_laws::is_count(answer.get("duration_ms"@), duration_ms as nat)
            &&& answer.get("errors"@) matches Some(JsonV::Array(list)) && list.len()
                == removed.errors.len() && forall|i: int|
                0 <= i < list.len() ==> #[trigger] list[i] == JsonV::Text(removed.errors[i])
        }),
{
    reveal_strlit("items_written");
    reveal_strlit("items_deleted");
    reveal_strlit("items_received");
    reveal_strlit("errors");
    reveal_strlit("duration_ms");
    assert("items_written"@.len() == 13 && "items_deleted"@.len() == 13);
    assert("items_received"@.len() == 14 && "errors"@.len() == 6 && "duration_ms"@.len() == 11);
    let written = bulk::bulk_body(account, received, duration_ms)->Object_0;
    json::lemma_key_place_is(written, "items_written"@, 0);
    json::lemma_key_place_is(written, "items_received"@, 1);
    json::lemma_key_place_is(written, "errors"@, 2);
    json::lemma_key_place_is(written, "duration_ms"@, 3);
    let deleted = bulk_delete::bulk_delete_body(removed, received, duration_ms)->Object_0;
    json::lemma_key_place_is(deleted, "items_received"@, 0);
    json::lemma_key_place_is(deleted, "items_deleted"@, 1);
    json::lemma_key_place_is(deleted, "errors"@, 2);
    json::lemma_key_place_is(deleted, "duration_ms"@, 3);
}

/// A number that was written, with its label in front and a reason behind, is read back.
proof fn lemma_reason_reads_back(position: usize, reason: Seq<char>)
    ensures
        reasons::document_reason(bulk::lost(position, reason)) == Some((position, reason)),
{
    reveal_strlit("document ");
    reveal_strlit(": ");
    let digits = text::decimal(position as nat);
    let whole = bulk::lost(position, reason);
    text::law_a_number_is_written_in_digits(position as nat);
    assert(whole.subrange(0, 9) =~= "document "@);
    let rest = whole.skip(9);
    assert(rest =~= digits + ": "@ + reason);
    let n = digits.len() as int;
    assert(rest.subrange(n, n + 2) =~= ": "@);
    assert(text::occurs_at(rest, ": "@, n));
    assert forall|p: int| 0 <= p < n implies !#[trigger] text::occurs_at(rest, ": "@, p) by {
        assert(rest[p] == digits[p]);
        if text::occurs_at(rest, ": "@, p) {
            assert(rest.subrange(p, p + 2)[0] == rest[p]);
            assert(":"@.len() >= 0);
            assert(": "@[0] == ':');
        }
    }
    lemma_first_place(rest, ": "@, 0, n);
    assert(rest.take(n) =~= digits);
    assert(rest.skip(n + 2) =~= reason);
    assert(digits[0] != '+');
    assert forall|i: int| 0 <= i < digits.len() implies text::is_digit(#[trigger] digits[i]) by {}
}

/// A part is found at the first place that it stands at.
proof fn lemma_first_place(whole: Seq<char>, part: Seq<char>, from: int, place: int)
    requires
        0 <= from <= place,
        text::occurs_at(whole, part, place),
        forall|p: int| from <= p < place ==> !#[trigger] text::occurs_at(whole, part, p),
    ensures
        text::place_from(whole, part, from) == Some(place),
    decreases place - from,
{
    if from < place {
        lemma_first_place(whole, part, from + 1, place);
    }
}

/// What another node says of a document by its place in what it was handed is told of the same document
/// by its place in the whole batch, with the same reason.
pub proof fn law_a_reason_keeps_to_its_document(
    theirs: usize,
    positions: Seq<usize>,
    reason: Seq<char>,
    attribution: Seq<char>,
)
    requires
        theirs < positions.len(),
    ensures
        reasons::restated(bulk::lost(theirs, reason), positions, "document"@, attribution)
            == bulk::lost(positions[theirs as int], reason),
{
    lemma_reason_reads_back(theirs, reason);
    reveal_strlit("document");
    reveal_strlit("document ");
    reveal_strlit(" ");
    assert("document"@ + " "@ =~= "document "@);
}

/// A document that is handed on is the one that was placed, under the key it was placed under.
pub proof fn law_what_is_handed_on_keeps_its_key(placed: Placed)
    ensures
        bulk::handed_on(placed).id == placed.doc.id,
        bulk::handed_on(placed).doc == placed.doc.doc,
        bulk::handed_on(placed).routing_key == placed.routing_key,
{
}

/// A shard that takes its part adds what it wrote; one that fails has each of its documents told of, by
/// its place in the batch.
pub proof fn law_a_failed_part_is_told_document_by_document(before: AccountV, part: LocalOutcome)
    ensures
        ({
            let after = bulk::account_with_local(before, part);
            &&& part.outcome matches Ok(count) ==> after.written == before.written + count
                && after.errors == before.errors
            &&& part.outcome is Err ==> {
                &&& after.written == before.written
                &&& after.errors.len() == before.errors.len() + part.positions@.len()
                &&& after.errors.take(before.errors.len() as int) == before.errors
                &&& forall|i: int|
                    0 <= i < part.positions@.len() ==> text::begins_with(
                        #[trigger] after.errors[before.errors.len() + i],
                        "document "@ + text::decimal(part.positions@[i] as nat) + ": "@,
                    )
            }
        }),
{
    if let Err(error) = part.outcome {
        let after = bulk::account_with_local(before, part);
        assert(after.errors.take(before.errors.len() as int) =~= before.errors);
        assert forall|i: int| 0 <= i < part.positions@.len() implies text::begins_with(
            #[trigger] after.errors[before.errors.len() + i],
            "document "@ + text::decimal(part.positions@[i] as nat) + ": "@,
        ) by {
            let start = "document "@ + text::decimal(part.positions@[i] as nat) + ": "@;
            let note = after.errors[before.errors.len() + i];
            assert(note.subrange(0, start.len() as int) =~= start);
        }
    }
}

/// A node that answers adds what it says it wrote, at most what it was handed, and the rest is told of;
/// one that does not has each of its documents told of.
pub proof fn law_a_nodes_answer_is_counted(before: AccountV, part: RemoteOutcome, said: u64)
    requires
        part.positions@.len() <= usize::MAX,
    ensures
        ({
            let after = bulk::account_with_remote(before, part);
            let handed = part.positions@.len();
            &&& part.answer is Err ==> after.written == before.written && after.errors.len()
                == before.errors.len() + handed
            &&& part.answer matches Ok(answer) ==> answer@.get("items_written"@) == Some(
                JsonV::Number(NumV::Unsigned(said)),
            ) ==> {
                let counted = if said < handed {
                    said as nat
                } else {
                    handed
                };
                &&& after.written == before.written + counted
                &&& after.errors.len() == before.errors.len() + (handed - counted)
            }
        }),
{
}

} // verus!
