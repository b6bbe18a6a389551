//! Writing many documents at once: which shard or node each of them goes to, and an account of every
//! one of them.

use vstd::prelude::*;
use vstd::string::*;
use crate::{broadcast, errors, evolution, grouping, json, reasons, routing, search, text};
use crate::broadcast::number_at;
use crate::errors::{ErrorV, IoKind, OrchestratorError};
use crate::grouping::{group_thing, holds_id, pair_place};
use crate::json::{Json, JsonV, entry};
use crate::ops::{DocPayload, DocV};
use crate::reasons::remote_rejections;
use crate::routing::effective_routing_key;
use crate::schema::{IndexSchema, SchemaV};
use crate::text::{count_text, uuid_text};

verus! {

// ---------------------------------------------------------------------------
// What there is to place
// ---------------------------------------------------------------------------

/// A document with its place in the batch it came in, and the key it is routed by.
pub struct Placed {
    pub position: usize,
    pub doc: DocPayload,
    pub routing_key: Option<String>,
}

/// A document with its place, as a value of the model.
pub struct PlacedV {
    pub position: usize,
    pub doc: DocV,
    pub routing_key: Option<Seq<char>>,
}

impl View for Placed {
    type V = PlacedV;

    open spec fn view(&self) -> PlacedV {
        PlacedV {
            position: self.position,
            doc: self.doc@,
            routing_key: errors::opt_text(self.routing_key),
        }
    }
}

/// Documents with their places, as values of the model.
pub open spec fn placed_models(placed: Seq<Placed>) -> Seq<PlacedV> {
    placed.map_values(|p: Placed| p@)
}

/// The positions that were refused.
pub open spec fn refused_positions(refused: Seq<(usize, String)>) -> Seq<usize> {
    refused.map_values(|r: (usize, String)| r.0)
}

/// A document at its place, with the key it is routed by.
pub open spec fn placed_at(schema: SchemaV, doc: DocV, position: int) -> PlacedV {
    PlacedV {
        position: position as usize,
        doc,
        routing_key: Some(routing::write_key(schema, doc.id, doc.routing_key, doc.doc)),
    }
}

/// The documents of a batch that were not refused, each at its place.
pub open spec fn placed_from(schema: SchemaV, docs: Seq<DocV>, refused: Seq<usize>) -> Seq<PlacedV>
    decreases docs.len(),
{
    if docs.len() == 0 {
        Seq::empty()
    } else {
        let before = placed_from(schema, docs.drop_last(), refused);
        let position = docs.len() - 1;
        if refused.contains(position as usize) {
            before
        } else {
            before.push(placed_at(schema, docs.last(), position))
        }
    }
}

/// Whether a position was refused.
fn was_refused(refused: &Vec<(usize, String)>, position: usize) -> (found: bool)
    ensures
        found == refused_positions(refused@).contains(position),
{
    let ghost positions = refused_positions(refused@);
    let mut i: usize = 0;
    while i < refused.len()
        invariant
            i <= refused.len(),
            positions == refused_positions(refused@),
            forall|k: int| 0 <= k < i ==> positions[k] != position,
        decreases refused.len() - i,
    {
        if refused[i].0 == position {
            assert(positions[i as int] == position);
            return true;
        }
        i += 1;
    }
    false
}

/// Places the documents of a batch, those that were refused left out.
///
/// The position travels with the document from here on: everything that can lose one reports it by
/// the number the caller used.
pub fn place_documents(
    docs: Vec<DocPayload>,
    refused: &Vec<(usize, String)>,
    schema: &IndexSchema,
) -> (placed: Vec<Placed>)
    ensures
        placed_models(placed@) == placed_from(
            schema@,
            evolution::doc_models(docs@),
            refused_positions(refused@),
        ),
{
    let ghost all = evolution::doc_models(docs@);
    let ghost bad = refused_positions(refused@);
    let mut placed: Vec<Placed> = Vec::new();
    let mut position: usize = 0;
    let count: usize = docs.len();
    assert(placed_models(placed@) =~= placed_from(schema@, all.take(0), bad));
    for doc in it: docs
        invariant
            it.seq() == docs@,
            count == docs@.len(),
            all == evolution::doc_models(docs@),
            bad == refused_positions(refused@),
            position == it.index(),
            placed_models(placed@) == placed_from(schema@, all.take(it.index() as int), bad),
    {
        let ghost at = it.index() as int;
        assert(doc == docs@[at]);
        assert(all.take(at + 1).drop_last() =~= all.take(at));
        assert(all.take(at + 1).last() == doc@);
        if !was_refused(refused, position) {
            let given: Option<String> = match &doc.routing_key {
                Some(key) => Some(key.clone()),
                None => None,
            };
            let routing_key: Option<String> = effective_routing_key(
                schema,
                doc.id.as_str(),
                given,
                &doc.doc,
            );
            let ghost before = placed@;
            placed.push(Placed { position, doc, routing_key });
            assert(placed_models(placed@) =~= placed_models(before).push(
                placed_at(schema@, all[at], at),
            ));
        }
        position += 1;
    }
    assert(all.take(all.len() as int) =~= all);
    placed
}

/// Where every refused position is one of the batch and none is refused twice, what is placed and
/// what was refused are the batch.
pub proof fn law_refused_and_placed_are_the_batch(
    schema: SchemaV,
    docs: Seq<DocV>,
    refused: Seq<usize>,
)
    requires
        docs.len() <= usize::MAX,
        refused.no_duplicates(),
        forall|i: int| 0 <= i < refused.len() ==> #[trigger] refused[i] < docs.len(),
    ensures
        placed_from(schema, docs, refused).len() + refused.len() == docs.len(),
{
    lemma_placed_count(schema, docs, refused);
    lemma_all_counted(refused, docs.len());
}

/// How many of the first positions are refused.
spec fn refused_below(refused: Seq<usize>, n: nat) -> nat
    decreases n,
{
    if n == 0 {
        0
    } else {
        refused_below(refused, (n - 1) as nat) + if refused.contains((n - 1) as usize) {
            1nat
        } else {
            0nat
        }
    }
}

/// What is placed and how many positions are refused add up.
proof fn lemma_placed_count(schema: SchemaV, docs: Seq<DocV>, refused: Seq<usize>)
    requires
        docs.len() <= usize::MAX,
    ensures
        placed_from(schema, docs, refused).len() + refused_below(refused, docs.len()) == docs.len(),
    decreases docs.len(),
{
    if docs.len() > 0 {
        lemma_placed_count(schema, docs.drop_last(), refused);
    }
}

/// Positions below a bound that do not repeat are counted once each.
proof fn lemma_all_counted(refused: Seq<usize>, n: nat)
    requires
        n <= usize::MAX,
        refused.no_duplicates(),
        forall|i: int| 0 <= i < refused.len() ==> #[trigger] refused[i] < n,
    ensures
        refused_below(refused, n) == refused.len(),
    decreases n,
{
    if n == 0 {
        if refused.len() > 0 {
            assert(refused[0] < 0);
        }
    } else {
        let last = (n - 1) as usize;
        if refused.contains(last) {
            let at = choose|i: int| 0 <= i < refused.len() && refused[i] == last;
            let rest = refused.remove(at);
            assert forall|i: int| 0 <= i < rest.len() implies #[trigger] rest[i] < n - 1 by {
                if i < at {
                    assert(rest[i] == refused[i]);
                    assert(refused[i] != refused[at]);
                } else {
                    assert(rest[i] == refused[i + 1]);
                    assert(refused[i + 1] != refused[at]);
                }
            }
            assert(rest.no_duplicates()) by {
                assert forall|i: int, j: int|
                    0 <= i < rest.len() && 0 <= j < rest.len() && i != j implies rest[i]
                    != rest[j] by {
                    let a = if i < at {
                        i
                    } else {
                        i + 1
                    };
                    let b = if j < at {
                        j
                    } else {
                        j + 1
                    };
                    assert(rest[i] == refused[a] && rest[j] == refused[b]);
                }
            }
            lemma_all_counted(rest, (n - 1) as nat);
            lemma_same_below(refused, rest, at, (n - 1) as nat);
        } else {
            assert forall|i: int| 0 <= i < refused.len() implies #[trigger] refused[i] < n - 1 by {
                assert(refused.contains(refused[i]));
            }
            lemma_all_counted(refused, (n - 1) as nat);
        }
    }
}

/// Taking a position out does not change how many of the others there are.
proof fn lemma_same_below(refused: Seq<usize>, rest: Seq<usize>, at: int, n: nat)
    requires
        0 <= at < refused.len(),
        rest == refused.remove(at),
        n <= refused[at],
    ensures
        refused_below(refused, n) == refused_below(rest, n),
    decreases n,
{
    if n > 0 {
        lemma_same_below(refused, rest, at, (n - 1) as nat);
        let last = (n - 1) as usize;
        if refused.contains(last) {
            let i = choose|i: int| 0 <= i < refused.len() && refused[i] == last;
            if i < at {
                assert(rest[i] == last);
            } else {
                assert(rest[i - 1] == last);
            }
        }
        if rest.contains(last) {
            let i = choose|i: int| 0 <= i < rest.len() && rest[i] == last;
            if i < at {
                assert(refused[i] == last);
            } else {
                assert(refused[i + 1] == last);
            }
        }
    }
}

// ---------------------------------------------------------------------------
// Where each document goes
// ---------------------------------------------------------------------------

/// What is said of a document that is not written.
pub open spec fn lost(position: usize, reason: Seq<char>) -> Seq<char> {
    "document "@ + text::decimal(position as nat) + ": "@ + reason
}

/// What is said of a document that is not written.
pub fn lost_note(position: usize, reason: &str) -> (note: String)
    ensures
        note@ == lost(position, reason@),
{
    let mut note: String = String::from_str("document ");
    note.append(count_text(position).as_str());
    note.append(": ");
    note.append(reason);
    note
}

/// Where a document goes.
pub enum Fate {
    /// To a shard of this node.
    Local(u128),
    /// To another node.
    Remote(u128),
    /// Nowhere, because it has no key or there is no shard.
    Unrouted(Seq<char>),
    /// Nowhere, because no node claims the shard that owns it.
    Unclaimed(u128),
}

/// Where a document goes, given the shard that its key belongs to.
pub open spec fn fate_of(
    placed: PlacedV,
    owner: Option<u128>,
    local: Seq<u128>,
    assignments: Seq<(u128, u128)>,
) -> Fate {
    if placed.routing_key is None {
        Fate::Unrouted("no routing key could be derived for this document"@)
    } else {
        match owner {
            None => Fate::Unrouted("no shard is available to route this document to"@),
            Some(shard) => if local.contains(shard) {
                Fate::Local(shard)
            } else {
                match grouping::paired(assignments, shard) {
                    None => Fate::Unclaimed(shard),
                    Some(node) => Fate::Remote(node),
                }
            },
        }
    }
}

/// Why a document whose shard no node claims is not written.
pub open spec fn unclaimed_reason(shard: u128) -> Seq<char> {
    "shard "@ + text::uuid_chars(shard) + " owns this document and no node claims that shard"@
}

/// Why a document whose node has no address is not written.
pub open spec fn unaddressed_reason(node: u128) -> Seq<char> {
    "node "@ + text::uuid_chars(node) + " owns this document and has no known address"@
}

/// The documents of a batch by where they go, as a value of the model.
pub struct BulkPlanV {
    pub local: Seq<(u128, Seq<Placed>)>,
    pub remote: Seq<(u128, Seq<Placed>)>,
    pub unrouted: Seq<Seq<char>>,
    pub unclaimed: Seq<Seq<char>>,
}

/// The documents of a batch by where they go.
pub struct BulkPlan {
    /// By shard of this node.
    pub local: Vec<(u128, Vec<Placed>)>,
    /// By other node.
    pub remote: Vec<(u128, Vec<Placed>)>,
    /// A reason for each document that could not be routed.
    pub unrouted: Vec<String>,
    /// A reason for each document whose shard no node claims.
    pub unclaimed: Vec<String>,
}

impl View for BulkPlan {
    type V = BulkPlanV;

    open spec fn view(&self) -> BulkPlanV {
        BulkPlanV {
            local: grouping::id_groups(self.local@),
            remote: grouping::id_groups(self.remote@),
            unrouted: text::texts(self.unrouted@),
            unclaimed: text::texts(self.unclaimed@),
        }
    }
}

/// A plan with one more document in it.
pub open spec fn plan_with(plan: BulkPlanV, placed: Placed, fate: Fate) -> BulkPlanV {
    match fate {
        Fate::Local(shard) => BulkPlanV {
            local: grouping::with_thing(plan.local, shard, placed),
            ..plan
        },
        Fate::Remote(node) => BulkPlanV {
            remote: grouping::with_thing(plan.remote, node, placed),
            ..plan
        },
        Fate::Unrouted(reason) => BulkPlanV {
            unrouted: plan.unrouted.push(lost(placed.position, reason)),
            ..plan
        },
        Fate::Unclaimed(shard) => BulkPlanV {
            unclaimed: plan.unclaimed.push(lost(placed.position, unclaimed_reason(shard))),
            ..plan
        },
    }
}

/// The shard of the document at a place: the owner of its key, or the first shard where none owns
/// it.
pub open spec fn shard_for(
    owners: Seq<Option<u128>>,
    first_shard: Option<u128>,
    place: int,
) -> Option<u128> {
    if 0 <= place < owners.len() && owners[place] is Some {
        owners[place]
    } else {
        first_shard
    }
}

/// The documents of a batch by where they go.
pub open spec fn planned(
    placed: Seq<Placed>,
    owners: Seq<Option<u128>>,
    first_shard: Option<u128>,
    local: Seq<u128>,
    assignments: Seq<(u128, u128)>,
) -> BulkPlanV
    decreases placed.len(),
{
    if placed.len() == 0 {
        BulkPlanV {
            local: Seq::empty(),
            remote: Seq::empty(),
            unrouted: Seq::empty(),
            unclaimed: Seq::empty(),
        }
    } else {
        plan_with(
            planned(placed.drop_last(), owners, first_shard, local, assignments),
            placed.last(),
            fate_of(
                placed.last()@,
                shard_for(owners, first_shard, placed.len() - 1),
                local,
                assignments,
            ),
        )
    }
}

/// The shard at a place, given the owners of the keys.
pub fn choose_shard(owners: &Vec<Option<u128>>, first_shard: Option<u128>, place: usize) -> (shard:
    Option<u128>)
    ensures
        shard == shard_for(owners@, first_shard, place as int),
{
    if place < owners.len() {
        match owners[place] {
            Some(shard) => Some(shard),
            None => first_shard,
        }
    } else {
        first_shard
    }
}

/// Decides where each document of a batch goes, given the shard that owns the key of each.
///
/// A document that routes nowhere is refused rather than forgotten: it was received, it will not be
/// written, and the answer has to say so.
pub fn plan_bulk_write(
    placed: Vec<Placed>,
    owners: &Vec<Option<u128>>,
    first_shard: Option<u128>,
    local: &Vec<u128>,
    assignments: &Vec<(u128, u128)>,
) -> (plan: BulkPlan)
    ensures
        plan@ == planned(placed@, owners@, first_shard, local@, assignments@),
{
    let ghost all = placed@;
    let mut plan = BulkPlan {
        local: Vec::new(),
        remote: Vec::new(),
        unrouted: Vec::new(),
        unclaimed: Vec::new(),
    };
    let mut place: usize = 0;
    let count: usize = placed.len();
    assert(grouping::id_groups(plan.local@) =~= Seq::empty());
    assert(grouping::id_groups(plan.remote@) =~= Seq::empty());
    assert(text::texts(plan.unrouted@) =~= Seq::empty());
    assert(text::texts(plan.unclaimed@) =~= Seq::empty());
    for item in it: placed
        invariant
            it.seq() == all,
            count == all.len(),
            place == it.index(),
            plan@ == planned(
                all.take(it.index() as int),
                owners@,
                first_shard,
                local@,
                assignments@,
            ),
    {
        let ghost at = it.index() as int;
        assert(item == all[at]);
        assert(all.take(at + 1).drop_last() =~= all.take(at));
        assert(all.take(at + 1).last() == item);
        let owner: Option<u128> = choose_shard(owners, first_shard, place);
        let ghost unrouted_before = plan.unrouted@;
        let ghost unclaimed_before = plan.unclaimed@;
        if item.routing_key.is_none() {
            plan.unrouted.push(
                lost_note(item.position, "no routing key could be derived for this document"),
            );
            assert(text::texts(plan.unrouted@) =~= text::texts(unrouted_before).push(
                lost(item.position, "no routing key could be derived for this document"@),
            ));
        } else {
            match owner {
                None => {
                    plan.unrouted.push(
                        lost_note(
                            item.position,
                            "no shard is available to route this document to",
                        ),
                    );
                    assert(text::texts(plan.unrouted@) =~= text::texts(unrouted_before).push(
                        lost(item.position, "no shard is available to route this document to"@),
                    ));
                },
                Some(shard) => {
                    if holds_id(local, shard) {
                        group_thing(&mut plan.local, shard, item);
                    } else {
                        match pair_place(assignments, shard) {
                            None => {
                                let mut reason: String = String::from_str("shard ");
                                reason.append(uuid_text(shard).as_str());
                                reason.append(
                                    " owns this document and no node claims that shard",
                                );
                                plan.unclaimed.push(lost_note(item.position, reason.as_str()));
                                assert(text::texts(plan.unclaimed@) =~= text::texts(
                                    unclaimed_before,
                                ).push(lost(item.position, unclaimed_reason(shard))));
                            },
                            Some(at_node) => {
                                let node: u128 = assignments[at_node].1;
                                group_thing(&mut plan.remote, node, item);
                            },
                        }
                    }
                },
            }
        }
        place += 1;
    }
    assert(all.take(all.len() as int) =~= all);
    plan
}

/// How many documents a plan holds, whatever becomes of them.
pub open spec fn plan_size(plan: BulkPlanV) -> nat {
    grouping::things_grouped(plan.local) + grouping::things_grouped(plan.remote)
        + plan.unrouted.len() + plan.unclaimed.len()
}

/// A plan holds every document once: it goes to a shard, to a node, or is explained.
pub proof fn law_a_plan_holds_every_document(
    placed: Seq<Placed>,
    owners: Seq<Option<u128>>,
    first_shard: Option<u128>,
    local: Seq<u128>,
    assignments: Seq<(u128, u128)>,
)
    ensures
        plan_size(planned(placed, owners, first_shard, local, assignments)) == placed.len(),
    decreases placed.len(),
{
    if placed.len() > 0 {
        let shorter = placed.drop_last();
        law_a_plan_holds_every_document(shorter, owners, first_shard, local, assignments);
        let before = planned(shorter, owners, first_shard, local, assignments);
        match fate_of(
            placed.last()@,
            shard_for(owners, first_shard, placed.len() - 1),
            local,
            assignments,
        ) {
            Fate::Local(shard) => {
                grouping::law_grouping_counts_every_thing(before.local, shard, placed.last());
            },
            Fate::Remote(node) => {
                grouping::law_grouping_counts_every_thing(before.remote, node, placed.last());
            },
            _ => {},
        }
    }
}

/// The parts of a batch that can be forwarded, as a value of the model.
pub struct ForwardV {
    pub parts: Seq<(u128, Seq<Placed>)>,
    pub errors: Seq<Seq<char>>,
}

/// The positions of some documents.
pub open spec fn positions_of(batch: Seq<Placed>) -> Seq<usize> {
    batch.map_values(|placed: Placed| placed.position)
}

/// The parts of a batch that can be forwarded: those whose node has an address.
pub open spec fn forwardable(
    groups: Seq<(u128, Seq<Placed>)>,
    addresses: Seq<(u128, String)>,
) -> ForwardV
    decreases groups.len(),
{
    if groups.len() == 0 {
        ForwardV { parts: Seq::empty(), errors: Seq::empty() }
    } else {
        let before = forwardable(groups.drop_last(), addresses);
        let (node, batch) = groups.last();
        if grouping::paired(addresses, node) is Some {
            ForwardV { parts: before.parts.push((node, batch)), ..before }
        } else {
            ForwardV {
                errors: before.errors + all_lost(positions_of(batch), unaddressed_reason(node)),
                ..before
            }
        }
    }
}

/// Whether a node is known to have this address.
pub open spec fn has_address(addresses: Seq<(u128, String)>, node: u128, address: String) -> bool {
    match grouping::paired(addresses, node) {
        Some(known) => known@ == address@,
        None => false,
    }
}

/// The parts of a batch that can be forwarded, with the address of each, and a reason for each
/// document of the others.
pub fn address_batches(groups: Vec<(u128, Vec<Placed>)>, addresses: &Vec<(u128, String)>) -> (
    addressed: (Vec<(u128, Vec<Placed>)>, Vec<String>, Vec<String>))
    ensures
        grouping::id_groups(addressed.0@) == forwardable(
            grouping::id_groups(groups@),
            addresses@,
        ).parts,
        addressed.1@.len() == addressed.0@.len(),
        forall|i: int|
            0 <= i < addressed.1@.len() ==> has_address(
                addresses@,
                addressed.0@[i].0,
                #[trigger] addressed.1@[i],
            ),
        text::texts(addressed.2@) == forwardable(
            grouping::id_groups(groups@),
            addresses@,
        ).errors,
{
    let ghost all = grouping::id_groups(groups@);
    let mut parts: Vec<(u128, Vec<Placed>)> = Vec::new();
    let mut known: Vec<String> = Vec::new();
    let mut errors: Vec<String> = Vec::new();
    assert(grouping::id_groups(parts@) =~= Seq::empty());
    assert(text::texts(errors@) =~= Seq::empty());
    for group in it: groups
        invariant
            it.seq() == groups@,
            all == grouping::id_groups(groups@),
            grouping::id_groups(parts@) == forwardable(
                all.take(it.index() as int),
                addresses@,
            ).parts,
            known@.len() == parts@.len(),
            forall|i: int|
                0 <= i < known@.len() ==> has_address(
                    addresses@,
                    parts@[i].0,
                    #[trigger] known@[i],
                ),
            text::texts(errors@) == forwardable(
                all.take(it.index() as int),
                addresses@,
            ).errors,
    {
        let ghost at = it.index() as int;
        assert(group == groups@[at]);
        assert(all.take(at + 1).drop_last() =~= all.take(at));
        assert(all.take(at + 1).last() == (group.0, group.1@));
        let (node, batch) = group;
        match pair_place(addresses, node) {
            Some(place) => {
                let ghost parts_before = parts@;
                let ghost known_before = known@;
                parts.push((node, batch));
                known.push(addresses[place].1.clone());
                assert forall|i: int| 0 <= i < known@.len() implies has_address(
                    addresses@,
                    parts@[i].0,
                    #[trigger] known@[i],
                ) by {
                    if i < known_before.len() {
                        assert(known@[i] == known_before[i]);
                        assert(parts@[i] == parts_before[i]);
                    }
                }
                assert(grouping::id_groups(parts@) =~= grouping::id_groups(parts_before).push(
                    (node, batch@),
                ));
            },
            None => {
                let mut positions: Vec<usize> = Vec::new();
                let mut i: usize = 0;
                while i < batch.len()
                    invariant
                        i <= batch.len(),
                        positions@ == positions_of(batch@).take(i as int),
                    decreases batch.len() - i,
                {
                    positions.push(batch[i].position);
                    i += 1;
                    assert(positions@ =~= positions_of(batch@).take(i as int));
                }
                assert(positions@ =~= positions_of(batch@));
                let mut reason: String = String::from_str("node ");
                reason.append(uuid_text(node).as_str());
                reason.append(" owns this document and has no known address");
                lose_all(&mut errors, &positions, reason.as_str());
            },
        }
    }
    assert(all.take(all.len() as int) =~= all);
    (parts, known, errors)
}

/// Every document for another node is forwarded or explained.
pub proof fn law_every_part_is_forwarded_or_explained(
    groups: Seq<(u128, Seq<Placed>)>,
    addresses: Seq<(u128, String)>,
)
    ensures
        grouping::things_grouped(forwardable(groups, addresses).parts) + forwardable(
            groups,
            addresses,
        ).errors.len() == grouping::things_grouped(groups),
    decreases groups.len(),
{
    if groups.len() > 0 {
        law_every_part_is_forwarded_or_explained(groups.drop_last(), addresses);
        let before = forwardable(groups.drop_last(), addresses);
        let (node, batch) = groups.last();
        if grouping::paired(addresses, node) is Some {
            assert(before.parts.push((node, batch)).drop_last() =~= before.parts);
        }
    }
}

/// A document as it is handed on: with the key it was routed by.
pub open spec fn handed_on(placed: Placed) -> DocPayload {
    DocPayload { id: placed.doc.id, routing_key: placed.routing_key, doc: placed.doc.doc }
}

/// The positions of a batch, and its documents as they are handed on.
pub fn hand_on(batch: Vec<Placed>) -> (handed: (Vec<usize>, Vec<DocPayload>))
    ensures
        handed.0@ == batch@.map_values(|p: Placed| p.position),
        handed.1@ == batch@.map_values(|p: Placed| handed_on(p)),
{
    let mut positions: Vec<usize> = Vec::new();
    let mut docs: Vec<DocPayload> = Vec::new();
    for placed in it: batch
        invariant
            it.seq() == batch@,
            positions@.len() == it.index(),
            docs@.len() == it.index(),
            forall|k: int| 0 <= k < it.index() ==> #[trigger] positions@[k] == batch@[k].position,
            forall|k: int| 0 <= k < it.index() ==> #[trigger] docs@[k] == handed_on(batch@[k]),
    {
        assert(placed == batch@[it.index() as int]);
        let Placed { position, doc, routing_key } = placed;
        positions.push(position);
        docs.push(DocPayload { id: doc.id, routing_key, doc: doc.doc });
    }
    assert(positions@ =~= batch@.map_values(|p: Placed| p.position));
    assert(docs@ =~= batch@.map_values(|p: Placed| handed_on(p)));
    (positions, docs)
}

// ---------------------------------------------------------------------------
// What came of it
// ---------------------------------------------------------------------------

/// A reason for each of some positions.
pub open spec fn all_lost(positions: Seq<usize>, reason: Seq<char>) -> Seq<Seq<char>> {
    positions.map_values(|position: usize| lost(position, reason))
}

/// Adds a reason for each of some positions.
fn lose_all(errors: &mut Vec<String>, positions: &Vec<usize>, reason: &str)
    ensures
        text::texts(final(errors)@) == text::texts(old(errors)@) + all_lost(positions@, reason@),
{
    let ghost start = text::texts(errors@);
    let ghost all = all_lost(positions@, reason@);
    let mut i: usize = 0;
    assert(start + all.take(0) =~= start);
    while i < positions.len()
        invariant
            i <= positions.len(),
            all == all_lost(positions@, reason@),
            text::texts(errors@) == start + all.take(i as int),
        decreases positions.len() - i,
    {
        let ghost before = errors@;
        errors.push(lost_note(positions[i], reason));
        i += 1;
        assert(text::texts(errors@) =~= text::texts(before).push(all[i - 1]));
        assert(start + all.take(i as int) =~= (start + all.take(i - 1)).push(all[i - 1]));
    }
    assert(all.take(positions.len() as int) =~= all);
}

/// How many documents were written, and why each of the others was not.
pub struct AccountV {
    pub written: nat,
    pub errors: Seq<Seq<char>>,
}

/// What came of the part of a batch that one shard of this node was handed: how many documents it
/// wrote, or why it took none.
pub struct LocalOutcome {
    pub shard_id: u128,
    pub positions: Vec<usize>,
    pub outcome: Result<usize, OrchestratorError>,
}

/// Why a shard's part of a batch was not written. It is written whole or not at all.
pub open spec fn shard_reason(shard_id: u128, error: ErrorV) -> Seq<char> {
    "shard "@ + text::uuid_chars(shard_id) + " did not take the batch this document was in: "@
        + errors::error_text(error)
}

/// An account with what came of one shard's part.
pub open spec fn account_with_local(before: AccountV, part: LocalOutcome) -> AccountV {
    match part.outcome {
        Ok(count) => AccountV { written: before.written + count as nat, ..before },
        Err(error) => AccountV {
            errors: before.errors + all_lost(
                part.positions@,
                shard_reason(part.shard_id, error@),
            ),
            ..before
        },
    }
}

/// An account with what came of every shard's part.
pub open spec fn account_of_local(before: AccountV, parts: Seq<LocalOutcome>) -> AccountV
    decreases parts.len(),
{
    if parts.len() == 0 {
        before
    } else {
        account_with_local(account_of_local(before, parts.drop_last()), parts.last())
    }
}

/// What came of the part of a batch that another node was handed: its answer, or why there is none.
pub struct RemoteOutcome {
    pub node_id: u128,
    pub positions: Vec<usize>,
    pub answer: Result<Json, OrchestratorError>,
}

/// Why a node's part of a batch was not written.
pub open spec fn node_reason(node_id: u128, error: ErrorV) -> Seq<char> {
    "forwarding to node "@ + text::uuid_chars(node_id) + " failed: "@ + errors::error_text(error)
}

/// Why an answer that does not say how much was written counts as none.
pub open spec fn not_an_answer() -> ErrorV {
    ErrorV::Io(IoKind::Other, "Invalid response from remote bulk write"@)
}

/// How many of the documents it was handed a node says it wrote, at most as many as it was handed.
pub open spec fn written_there(answer: JsonV, handed: nat) -> Option<nat> {
    match broadcast::number_of(answer.get("items_written"@)) {
        None => None,
        Some(count) => Some(
            if (count as nat) < handed {
                count as nat
            } else {
                handed
            },
        ),
    }
}

/// The reasons that a node gives.
pub open spec fn reasons_there(answer: JsonV) -> Seq<Seq<char>> {
    match broadcast::items_of(answer.get("errors"@)) {
        Some(items) => broadcast::texts_among(items),
        None => Seq::empty(),
    }
}

/// An account with what came of one node's part.
pub open spec fn account_with_remote(before: AccountV, part: RemoteOutcome) -> AccountV {
    match part.answer {
        Err(error) => AccountV {
            errors: before.errors + all_lost(part.positions@, node_reason(part.node_id, error@)),
            ..before
        },
        Ok(answer) => match written_there(answer@, part.positions@.len()) {
            None => AccountV {
                errors: before.errors + all_lost(
                    part.positions@,
                    node_reason(part.node_id, not_an_answer()),
                ),
                ..before
            },
            Some(written) => AccountV {
                written: before.written + written,
                errors: before.errors + reasons::restated_reasons(
                    reasons_there(answer@),
                    part.positions@,
                    "document"@,
                    reasons::left_unwritten(part.positions@.len(), written as usize),
                    "node "@ + text::uuid_chars(part.node_id),
                    reasons::unexplained(
                        part.node_id,
                        part.positions@.len(),
                        written,
                        reasons_there(answer@).len(),
                    ),
                ),
            },
        },
    }
}

/// An account with what came of every node's part.
pub open spec fn account_of_remote(before: AccountV, parts: Seq<RemoteOutcome>) -> AccountV
    decreases parts.len(),
{
    if parts.len() == 0 {
        before
    } else {
        account_with_remote(account_of_remote(before, parts.drop_last()), parts.last())
    }
}

/// An account of a batch.
pub struct Account {
    pub written: u64,
    pub errors: Vec<String>,
}

impl View for Account {
    type V = AccountV;

    open spec fn view(&self) -> AccountV {
        AccountV { written: self.written as nat, errors: text::texts(self.errors@) }
    }
}

/// The reasons that a node gives.
fn read_reasons(answer: &Json) -> (reasons: Vec<String>)
    ensures
        text::texts(reasons@) == reasons_there(answer@),
{
    let mut reasons: Vec<String> = Vec::new();
    assert(text::texts(reasons@) =~= Seq::empty());
    let items: &Vec<Json> = match answer.get("errors") {
        Some(value) => match value.as_array() {
            Some(items) => items,
            None => {
                return reasons;
            },
        },
        None => {
            return reasons;
        },
    };
    let ghost all = json::models(items@);
    let mut i: usize = 0;
    assert(broadcast::texts_among(all.take(0)) =~= Seq::empty());
    while i < items.len()
        invariant
            i <= items.len(),
            all == json::models(items@),
            text::texts(reasons@) == broadcast::texts_among(all.take(i as int)),
        decreases items.len() - i,
    {
        proof {
            assert(all.take(i + 1).drop_last() =~= all.take(i as int));
            assert(all.take(i + 1).last() == items@[i as int]@);
        }
        if let Some(text) = items[i].as_text() {
            let ghost before = reasons@;
            reasons.push(text.clone());
            assert(text::texts(reasons@) =~= text::texts(before).push(text@));
        }
        i += 1;
    }
    assert(all.take(items.len() as int) =~= all);
    reasons
}

impl Account {
    /// Adds what came of one shard's part.
    pub fn add_local(&mut self, part: LocalOutcome)
        requires
            account_with_local(old(self)@, part).written <= u64::MAX,
        ensures
            final(self)@ == account_with_local(old(self)@, part),
    {
        match &part.outcome {
            Ok(count) => {
                self.written = self.written + *count as u64;
            },
            Err(error) => {
                let mut reason: String = String::from_str("shard ");
                reason.append(uuid_text(part.shard_id).as_str());
                reason.append(" did not take the batch this document was in: ");
                reason.append(error.message().as_str());
                lose_all(&mut self.errors, &part.positions, reason.as_str());
            },
        }
    }

    /// Adds what came of one node's part.
    ///
    /// A node that says less than how much it wrote has said nothing. Every document it did not
    /// write has a reason: the node's own where it gives one, and that it gave none otherwise.
    pub fn add_remote(&mut self, part: RemoteOutcome)
        requires
            account_with_remote(old(self)@, part).written <= u64::MAX,
        ensures
            final(self)@ == account_with_remote(old(self)@, part),
    {
        let handed: usize = part.positions.len();
        match &part.answer {
            Err(error) => {
                let mut reason: String = String::from_str("forwarding to node ");
                reason.append(uuid_text(part.node_id).as_str());
                reason.append(" failed: ");
                reason.append(error.message().as_str());
                lose_all(&mut self.errors, &part.positions, reason.as_str());
            },
            Ok(answer) => {
                match number_at(answer, "items_written") {
                    None => {
                        let error: OrchestratorError = OrchestratorError::other(
                            "Invalid response from remote bulk write",
                        );
                        let mut reason: String = String::from_str("forwarding to node ");
                        reason.append(uuid_text(part.node_id).as_str());
                        reason.append(" failed: ");
                        reason.append(error.message().as_str());
                        lose_all(&mut self.errors, &part.positions, reason.as_str());
                    },
                    Some(count) => {
                        let written: usize = if count < handed as u64 {
                            count as usize
                        } else {
                            handed
                        };
                        let reasons: Vec<String> = read_reasons(answer);
                        assert(text::texts(reasons@).len() == reasons@.len());
                        let mut rejections: Vec<String> = remote_rejections(
                            part.node_id,
                            &part.positions,
                            written,
                            &reasons,
                        );
                        let ghost start = self.errors@;
                        let ghost added = rejections@;
                        self.written = self.written + written as u64;
                        self.errors.append(&mut rejections);
                        assert(text::texts(start + added) =~= text::texts(start) + text::texts(added));
                    },
                }
            },
        }
    }
}

/// How many documents the parts of a batch hold.
pub open spec fn handed_locally(parts: Seq<LocalOutcome>) -> nat
    decreases parts.len(),
{
    if parts.len() == 0 {
        0
    } else {
        handed_locally(parts.drop_last()) + parts.last().positions@.len()
    }
}

/// How many documents the parts of a batch hold.
pub open spec fn handed_away(parts: Seq<RemoteOutcome>) -> nat
    decreases parts.len(),
{
    if parts.len() == 0 {
        0
    } else {
        handed_away(parts.drop_last()) + parts.last().positions@.len()
    }
}

/// Whether every shard that took its part wrote all of it.
pub open spec fn shards_write_whole(parts: Seq<LocalOutcome>) -> bool {
    forall|i: int|
        0 <= i < parts.len() ==> ((#[trigger] parts[i]).outcome matches Ok(count) ==> count
            == parts[i].positions@.len())
}

/// What the shards of this node were handed is written or explained.
proof fn lemma_local_adds_up(before: AccountV, parts: Seq<LocalOutcome>)
    requires
        shards_write_whole(parts),
    ensures
        account_of_local(before, parts).written + account_of_local(before, parts).errors.len()
            == before.written + before.errors.len() + handed_locally(parts),
    decreases parts.len(),
{
    if parts.len() > 0 {
        let shorter = parts.drop_last();
        assert forall|i: int| 0 <= i < shorter.len() implies ((#[trigger] shorter[i]).outcome matches Ok(
            count,
        ) ==> count == shorter[i].positions@.len()) by {
            assert(shorter[i] == parts[i]);
        }
        lemma_local_adds_up(before, shorter);
        assert(parts[parts.len() - 1] == parts.last());
    }
}

/// What other nodes were handed is written or explained, whatever they answer.
proof fn lemma_remote_adds_up(before: AccountV, parts: Seq<RemoteOutcome>)
    ensures
        account_of_remote(before, parts).written + account_of_remote(before, parts).errors.len()
            == before.written + before.errors.len() + handed_away(parts),
    decreases parts.len(),
{
    if parts.len() > 0 {
        lemma_remote_adds_up(before, parts.drop_last());
        let part = parts.last();
        match part.answer {
            Err(_) => {},
            Ok(answer) => {
                let handed = part.positions@.len();
                match written_there(answer@, handed) {
                    None => {},
                    Some(written) => {
                        assert(part.positions.len() == handed);
                    },
                }
            },
        }
    }
}

/// Every item of a bulk write is either written or explained: what was refused, what could not be
/// placed, and what the shards and nodes were handed all add up to the batch.
pub proof fn law_every_item_is_written_or_explained(
    refused: Seq<Seq<char>>,
    plan: BulkPlanV,
    forward: ForwardV,
    local: Seq<LocalOutcome>,
    remote: Seq<RemoteOutcome>,
    received: nat,
)
    requires
        refused.len() + plan_size(plan) == received,
        grouping::things_grouped(forward.parts) + forward.errors.len() == grouping::things_grouped(
            plan.remote,
        ),
        handed_locally(local) == grouping::things_grouped(plan.local),
        handed_away(remote) == grouping::things_grouped(forward.parts),
        shards_write_whole(local),
    ensures
        ({
            let account = account_of_remote(
                account_of_local(
                    AccountV {
                        written: 0,
                        errors: refused + plan.unrouted + plan.unclaimed + forward.errors,
                    },
                    local,
                ),
                remote,
            );
            account.written + account.errors.len() == received
        }),
{
    let start = AccountV {
        written: 0,
        errors: refused + plan.unrouted + plan.unclaimed + forward.errors,
    };
    lemma_local_adds_up(start, local);
    lemma_remote_adds_up(account_of_local(start, local), remote);
}

/// What a bulk write answers.
pub open spec fn bulk_body(account: AccountV, received: nat, duration_ms: u64) -> JsonV {
    JsonV::Object(
        seq![
            ("items_written"@, search::count_value(account.written)),
            ("items_received"@, search::count_value(received)),
            ("errors"@, errors::text_array(account.errors)),
            ("duration_ms"@, search::count_value(duration_ms as nat)),
        ],
    )
}

/// What a bulk write answers.
pub fn bulk_write_response(account: &Account, received: usize, duration_ms: u64) -> (response: Json)
    ensures
        response@ == bulk_body(account@, received as nat, duration_ms),
{
    let parts: Vec<(String, Json)> = vec![
        entry("items_written", Json::unsigned(account.written)),
        entry("items_received", Json::count(received)),
        entry("errors", Json::text_list(&account.errors)),
        entry("duration_ms", Json::unsigned(duration_ms)),
    ];
    assert(json::entry_models(parts@) =~= seq![
        ("items_written"@, search::count_value(account.written as nat)),
        ("items_received"@, search::count_value(received as nat)),
        ("errors"@, errors::text_array(text::texts(account.errors@))),
        ("duration_ms"@, search::count_value(duration_ms as nat)),
    ]);
    Json::object(parts)
}

/// The reasons for which documents were refused.
pub open spec fn refusals(refused: Seq<(usize, String)>) -> Seq<Seq<char>> {
    refused.map_values(|r: (usize, String)| lost(r.0, r.1@))
}

/// An account that starts with what was refused and what could not be placed.
pub fn open_account(
    refused: &Vec<(usize, String)>,
    unrouted: Vec<String>,
    unclaimed: Vec<String>,
    unaddressed: Vec<String>,
) -> (account: Account)
    ensures
        account@ == (AccountV {
            written: 0,
            errors: refusals(refused@) + text::texts(unrouted@) + text::texts(unclaimed@)
                + text::texts(unaddressed@),
        }),
{
    let ghost all = refusals(refused@);
    let mut errors: Vec<String> = Vec::new();
    let mut i: usize = 0;
    assert(text::texts(errors@) =~= all.take(0));
    while i < refused.len()
        invariant
            i <= refused.len(),
            all == refusals(refused@),
            text::texts(errors@) == all.take(i as int),
        decreases refused.len() - i,
    {
        let ghost before = errors@;
        errors.push(lost_note(refused[i].0, refused[i].1.as_str()));
        i += 1;
        assert(text::texts(errors@) =~= text::texts(before).push(all[i - 1]));
        assert(all.take(i as int) =~= all.take(i - 1).push(all[i - 1]));
    }
    assert(all.take(refused.len() as int) =~= all);
    append_texts(&mut errors, unrouted);
    append_texts(&mut errors, unclaimed);
    append_texts(&mut errors, unaddressed);
    Account { written: 0, errors }
}

/// Adds texts to a list.
fn append_texts(list: &mut Vec<String>, more: Vec<String>)
    ensures
        text::texts(final(list)@) == text::texts(old(list)@) + text::texts(more@),
{
    let ghost start = list@;
    let ghost added = more@;
    let mut more: Vec<String> = more;
    list.append(&mut more);
    assert(text::texts(start + added) =~= text::texts(start) + text::texts(added));
}

} // verus!
