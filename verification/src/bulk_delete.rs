//! Removing many documents at once.

use vstd::prelude::*;
use vstd::string::*;
use crate::{broadcast, bulk, errors, grouping, json, routing, search, text};
use crate::broadcast::number_at;
use crate::bulk::choose_shard;
use crate::errors::OrchestratorError;
use crate::grouping::{group_thing, holds_id, pair_place};
use crate::json::{Json, JsonV, entry};
use crate::ops::{DeletePayload, DeleteV};
use crate::routing::effective_delete_routing_key;
use crate::schema::{IndexSchema, SchemaV};
use crate::text::{blank, uuid_text};

verus! {

// ---------------------------------------------------------------------------
// Keys
// ---------------------------------------------------------------------------

/// The key that a removal is routed by, or why it has none.
pub open spec fn removal_key(schema: SchemaV, entry: DeleteV) -> Result<Seq<char>, Seq<char>> {
    if text::is_blank(entry.id) {
        Err("an entry carried an empty id"@)
    } else {
        match routing::delete_key(schema, entry.id, entry.routing_key) {
            Ok(key) => Ok(key),
            Err(error) => Err(entry.id + ": "@ + errors::error_text(error)),
        }
    }
}

/// Whether an exec result is a result of the model.
pub open spec fn is_key(key: Result<String, String>, wanted: Result<Seq<char>, Seq<char>>) -> bool {
    match (key, wanted) {
        (Ok(k), Ok(w)) => k@ == w,
        (Err(e), Err(w)) => e@ == w,
        _ => false,
    }
}

/// The key that a removal is routed by, or why it has none.
fn key_of_removal(schema: &IndexSchema, payload: &DeletePayload) -> (key: Result<String, String>)
    ensures
        is_key(key, removal_key(schema@, payload@)),
{
    let id: &str = payload.id();
    if blank(id) {
        return Err(String::from_str("an entry carried an empty id"));
    }
    let given: Option<String> = match payload.routing_key() {
        Some(key) => Some(String::from_str(key)),
        None => None,
    };
    match effective_delete_routing_key(schema, id, given) {
        Ok(key) => Ok(key),
        Err(error) => {
            let mut reason: String = String::from_str(id);
            reason.append(": ");
            reason.append(error.message().as_str());
            Err(reason)
        },
    }
}

/// The key that each removal is routed by, or why it has none.
///
/// A removal that cannot be routed is an error of its own: one that lacks its key says nothing about
/// the others.
pub fn keys_of_removals(docs: &Vec<DeletePayload>, schema: &IndexSchema) -> (keys: Vec<
    Result<String, String>,
>)
    ensures
        keys@.len() == docs@.len(),
        forall|i: int|
            0 <= i < keys@.len() ==> is_key(#[trigger] keys@[i], removal_key(schema@, docs@[i]@)),
{
    let mut keys: Vec<Result<String, String>> = Vec::new();
    let mut i: usize = 0;
    while i < docs.len()
        invariant
            i <= docs.len(),
            keys@.len() == i,
            forall|k: int|
                0 <= k < i ==> is_key(#[trigger] keys@[k], removal_key(schema@, docs@[k]@)),
        decreases docs.len() - i,
    {
        keys.push(key_of_removal(schema, &docs[i]));
        i += 1;
    }
    keys
}

// ---------------------------------------------------------------------------
// Where each removal goes
// ---------------------------------------------------------------------------

/// Where a removal goes.
pub enum RemovalFate {
    /// To a shard of this node.
    Local(u128),
    /// To another node.
    Remote(u128),
    /// Nowhere, for this reason.
    Lost(Seq<char>),
}

/// Where a removal goes, given its key and the shard that the key belongs to.
pub open spec fn removal_fate(
    id: Seq<char>,
    key: Result<String, String>,
    owner: Option<u128>,
    local: Seq<u128>,
    assignments: Seq<(u128, u128)>,
) -> RemovalFate {
    match key {
        Err(reason) => RemovalFate::Lost(reason@),
        Ok(_) => match owner {
            None => RemovalFate::Lost(id + ": no shard available for routing"@),
            Some(shard) => if local.contains(shard) {
                RemovalFate::Local(shard)
            } else {
                match grouping::paired(assignments, shard) {
                    Some(node) => RemovalFate::Remote(node),
                    None => RemovalFate::Lost(
                        id + ": no shard assignment for shard "@ + text::uuid_chars(shard)
                            + ", so it was not deleted"@,
                    ),
                }
            },
        },
    }
}

/// Removals by where they go, as a value of the model.
pub struct DeletePlanV {
    pub local: Seq<(u128, Seq<Seq<char>>)>,
    pub remote: Seq<(u128, Seq<DeletePayload>)>,
    pub errors: Seq<Seq<char>>,
}

/// Removals by where they go. A shard removes by key alone; a node routes again.
pub struct DeletePlan {
    pub local: Vec<(u128, Vec<String>)>,
    pub remote: Vec<(u128, Vec<DeletePayload>)>,
    pub errors: Vec<String>,
}

/// Groups of texts, as values of the model.
pub open spec fn text_groups(groups: Seq<(u128, Vec<String>)>) -> Seq<(u128, Seq<Seq<char>>)> {
    groups.map_values(|group: (u128, Vec<String>)| (group.0, text::texts(group.1@)))
}

impl View for DeletePlan {
    type V = DeletePlanV;

    open spec fn view(&self) -> DeletePlanV {
        DeletePlanV {
            local: text_groups(self.local@),
            remote: grouping::id_groups(self.remote@),
            errors: text::texts(self.errors@),
        }
    }
}

/// A plan with one more removal in it.
pub open spec fn delete_plan_with(
    plan: DeletePlanV,
    payload: DeletePayload,
    fate: RemovalFate,
) -> DeletePlanV {
    match fate {
        RemovalFate::Local(shard) => DeletePlanV {
            local: grouping::with_thing(plan.local, shard, payload@.id),
            ..plan
        },
        RemovalFate::Remote(node) => DeletePlanV {
            remote: grouping::with_thing(plan.remote, node, payload),
            ..plan
        },
        RemovalFate::Lost(reason) => DeletePlanV { errors: plan.errors.push(reason), ..plan },
    }
}

/// Removals by where they go.
pub open spec fn delete_planned(
    docs: Seq<DeletePayload>,
    keys: Seq<Result<String, String>>,
    owners: Seq<Option<u128>>,
    first_shard: Option<u128>,
    local: Seq<u128>,
    assignments: Seq<(u128, u128)>,
) -> DeletePlanV
    decreases docs.len(),
{
    if docs.len() == 0 {
        DeletePlanV { local: Seq::empty(), remote: Seq::empty(), errors: Seq::empty() }
    } else {
        delete_plan_with(
            delete_planned(docs.drop_last(), keys, owners, first_shard, local, assignments),
            docs.last(),
            removal_fate(
                docs.last()@.id,
                keys[docs.len() - 1],
                bulk::shard_for(owners, first_shard, docs.len() - 1),
                local,
                assignments,
            ),
        )
    }
}

/// Grouping a text leaves the other groups of texts as they are.
proof fn lemma_text_groups_place(groups: Seq<(u128, Vec<String>)>, id: u128)
    ensures
        grouping::group_place(text_groups(groups), id) == grouping::group_place(grouping::id_groups(groups), id),
    decreases groups.len(),
{
    if groups.len() > 0 && groups[0].0 != id {
        lemma_text_groups_place(groups.skip(1), id);
        assert(text_groups(groups).skip(1) =~= text_groups(groups.skip(1)));
        assert(grouping::id_groups(groups).skip(1) =~= grouping::id_groups(groups.skip(1)));
    }
}

/// Puts a text with the others of its identifier.
fn group_text(groups: &mut Vec<(u128, Vec<String>)>, id: u128, text: String)
    ensures
        text_groups(final(groups)@) == grouping::with_thing(text_groups(old(groups)@), id, text@),
{
    let ghost before = groups@;
    group_thing(groups, id, text);
    proof {
        lemma_text_groups_place(before, id);
        grouping::lemma_group_place(grouping::id_groups(before), id);
        let place = grouping::group_place(grouping::id_groups(before), id);
        let grown = grouping::with_thing(grouping::id_groups(before), id, text);
        let wanted = grouping::with_thing(text_groups(before), id, text@);
        assert(text_groups(groups@) =~= wanted) by {
            assert(groups@.len() == grown.len());
            assert forall|i: int| 0 <= i < groups@.len() implies #[trigger] text_groups(groups@)[i]
                == wanted[i] by {
                assert(grouping::id_groups(groups@)[i] == grown[i]);
                if i == place {
                    if place < before.len() {
                        assert(groups@[i].1@ == before[i].1@.push(text));
                        assert(text::texts(groups@[i].1@) =~= text::texts(before[i].1@).push(text@));
                    } else {
                        assert(groups@[i].1@ == Seq::<String>::empty().push(text));
                        assert(text::texts(groups@[i].1@) =~= Seq::<Seq<char>>::empty().push(text@));
                    }
                } else {
                    assert(groups@[i].1@ == before[i].1@);
                }
            }
        }
    }
}

/// Decides where each removal goes, given its key and the shard that owns the key.
pub fn plan_bulk_delete(
    docs: Vec<DeletePayload>,
    keys: &Vec<Result<String, String>>,
    owners: &Vec<Option<u128>>,
    first_shard: Option<u128>,
    local: &Vec<u128>,
    assignments: &Vec<(u128, u128)>,
) -> (plan: DeletePlan)
    requires
        keys@.len() == docs@.len(),
    ensures
        plan@ == delete_planned(docs@, keys@, owners@, first_shard, local@, assignments@),
{
    let ghost all = docs@;
    let mut plan = DeletePlan { local: Vec::new(), remote: Vec::new(), errors: Vec::new() };
    let mut place: usize = 0;
    let count: usize = docs.len();
    assert(text_groups(plan.local@) =~= Seq::empty());
    assert(grouping::id_groups(plan.remote@) =~= Seq::empty());
    assert(text::texts(plan.errors@) =~= Seq::empty());
    for payload in it: docs
        invariant
            it.seq() == all,
            count == all.len(),
            keys@.len() == count,
            place == it.index(),
            plan@ == delete_planned(
                all.take(it.index() as int),
                keys@,
                owners@,
                first_shard,
                local@,
                assignments@,
            ),
    {
        let ghost at = it.index() as int;
        assert(payload == all[at]);
        assert(all.take(at + 1).drop_last() =~= all.take(at));
        assert(all.take(at + 1).last() == payload);
        let ghost errors_before = plan.errors@;
        let id: String = String::from_str(payload.id());
        match &keys[place] {
            Err(reason) => {
                plan.errors.push(reason.clone());
                assert(text::texts(plan.errors@) =~= text::texts(errors_before).push(reason@));
            },
            Ok(_) => {
                match choose_shard(owners, first_shard, place) {
                    None => {
                        let mut reason: String = id;
                        reason.append(": no shard available for routing");
                        plan.errors.push(reason);
                        assert(text::texts(plan.errors@) =~= text::texts(errors_before).push(reason@));
                    },
                    Some(shard) => {
                        if holds_id(local, shard) {
                            group_text(&mut plan.local, shard, id);
                        } else {
                            match pair_place(assignments, shard) {
                                Some(at_node) => {
                                    group_thing(
                                        &mut plan.remote,
                                        assignments[at_node].1,
                                        payload,
                                    );
                                },
                                None => {
                                    let mut reason: String = id;
                                    reason.append(": no shard assignment for shard ");
                                    reason.append(uuid_text(shard).as_str());
                                    reason.append(", so it was not deleted");
                                    plan.errors.push(reason);
                                    assert(text::texts(plan.errors@) =~= text::texts(errors_before).push(
                                        reason@,
                                    ));
                                },
                            }
                        }
                    },
                }
            },
        }
        place += 1;
    }
    assert(all.take(all.len() as int) =~= all);
    plan
}

/// A plan holds every removal once: it goes to a shard, to a node, or is explained.
pub proof fn law_a_delete_plan_holds_every_removal(
    docs: Seq<DeletePayload>,
    keys: Seq<Result<String, String>>,
    owners: Seq<Option<u128>>,
    first_shard: Option<u128>,
    local: Seq<u128>,
    assignments: Seq<(u128, u128)>,
)
    ensures
        ({
            let plan = delete_planned(docs, keys, owners, first_shard, local, assignments);
            grouping::things_grouped(plan.local) + grouping::things_grouped(plan.remote) + plan.errors.len()
                == docs.len()
        }),
    decreases docs.len(),
{
    if docs.len() > 0 {
        let shorter = docs.drop_last();
        law_a_delete_plan_holds_every_removal(
            shorter,
            keys,
            owners,
            first_shard,
            local,
            assignments,
        );
        let before = delete_planned(shorter, keys, owners, first_shard, local, assignments);
        match removal_fate(
            docs.last()@.id,
            keys[docs.len() - 1],
            bulk::shard_for(owners, first_shard, docs.len() - 1),
            local,
            assignments,
        ) {
            RemovalFate::Local(shard) => {
                grouping::law_grouping_counts_every_thing(before.local, shard, docs.last()@.id);
            },
            RemovalFate::Remote(node) => {
                grouping::law_grouping_counts_every_thing(before.remote, node, docs.last());
            },
            RemovalFate::Lost(_) => {},
        }
    }
}

// ---------------------------------------------------------------------------
// What came of it
// ---------------------------------------------------------------------------

/// How many documents were removed, and what went wrong.
pub struct RemovedV {
    pub deleted: nat,
    pub errors: Seq<Seq<char>>,
}

/// How many documents were removed, and what went wrong.
pub struct Removed {
    pub deleted: u64,
    pub errors: Vec<String>,
}

impl View for Removed {
    type V = RemovedV;

    open spec fn view(&self) -> RemovedV {
        RemovedV { deleted: self.deleted as nat, errors: text::texts(self.errors@) }
    }
}

/// An account with what came of one shard's or node's part.
pub open spec fn removed_with(
    before: RemovedV,
    outcome: Result<usize, OrchestratorError>,
    failure: Seq<char>,
) -> RemovedV {
    match outcome {
        Ok(count) => RemovedV { deleted: before.deleted + count as nat, ..before },
        Err(error) => RemovedV {
            errors: before.errors.push(failure + errors::error_text(error@)),
            ..before
        },
    }
}

/// The parts of a removal whose node has an address.
pub open spec fn reachable(
    groups: Seq<(u128, Seq<DeletePayload>)>,
    addresses: Seq<(u128, String)>,
) -> Seq<(u128, Seq<DeletePayload>)>
    decreases groups.len(),
{
    if groups.len() == 0 {
        Seq::empty()
    } else {
        let before = reachable(groups.drop_last(), addresses);
        if grouping::paired(addresses, groups.last().0) is Some {
            before.push(groups.last())
        } else {
            before
        }
    }
}

/// What is said of the nodes that have no address.
pub open spec fn unaddressed_notes(
    groups: Seq<(u128, Seq<DeletePayload>)>,
    addresses: Seq<(u128, String)>,
) -> Seq<Seq<char>>
    decreases groups.len(),
{
    if groups.len() == 0 {
        Seq::empty()
    } else {
        let before = unaddressed_notes(groups.drop_last(), addresses);
        if grouping::paired(addresses, groups.last().0) is Some {
            before
        } else {
            before.push("no peer address for node "@ + text::uuid_chars(groups.last().0))
        }
    }
}

/// Every part of a removal for another node is forwarded or its node is told of.
pub proof fn law_every_removal_is_forwarded_or_explained(
    groups: Seq<(u128, Seq<DeletePayload>)>,
    addresses: Seq<(u128, String)>,
    place: int,
)
    requires
        0 <= place < groups.len(),
    ensures
        reachable(groups, addresses).len() + unaddressed_notes(groups, addresses).len()
            == groups.len(),
        grouping::paired(addresses, groups[place].0) is Some ==> reachable(
            groups,
            addresses,
        ).contains(groups[place]),
        grouping::paired(addresses, groups[place].0) is None ==> unaddressed_notes(
            groups,
            addresses,
        ).contains("no peer address for node "@ + text::uuid_chars(groups[place].0)),
    decreases groups.len(),
{
    let shorter = groups.drop_last();
    let parts = reachable(shorter, addresses);
    let notes = unaddressed_notes(shorter, addresses);
    if place < shorter.len() {
        law_every_removal_is_forwarded_or_explained(shorter, addresses, place);
        let note = "no peer address for node "@ + text::uuid_chars(groups[place].0);
        if parts.contains(groups[place]) {
            let i = choose|i: int| 0 <= i < parts.len() && parts[i] == groups[place];
            assert(reachable(groups, addresses)[i] == groups[place]);
        }
        if notes.contains(note) {
            let i = choose|i: int| 0 <= i < notes.len() && notes[i] == note;
            assert(unaddressed_notes(groups, addresses)[i] == note);
        }
    } else {
        if shorter.len() > 0 {
            law_every_removal_is_forwarded_or_explained(shorter, addresses, 0);
        }
        assert(grouping::paired(addresses, groups.last().0) is Some ==> reachable(
            groups,
            addresses,
        ).last() == groups.last());
        assert(grouping::paired(addresses, groups.last().0) is None ==> unaddressed_notes(
            groups,
            addresses,
        ).last() == "no peer address for node "@ + text::uuid_chars(groups.last().0));
    }
}

impl Removed {
    /// The parts that can be forwarded, those whose node has an address. The other nodes are told of.
    pub fn address_removals(
        &mut self,
        groups: Vec<(u128, Vec<DeletePayload>)>,
        addresses: &Vec<(u128, String)>,
    ) -> (parts: Vec<(u128, Vec<DeletePayload>)>)
        ensures
            grouping::id_groups(parts@) == reachable(grouping::id_groups(groups@), addresses@),
            final(self)@ == (RemovedV {
                errors: old(self)@.errors + unaddressed_notes(
                    grouping::id_groups(groups@),
                    addresses@,
                ),
                ..old(self)@
            }),
    {
        let ghost given = self@;
        let ghost all = grouping::id_groups(groups@);
        let mut parts: Vec<(u128, Vec<DeletePayload>)> = Vec::new();
        assert(grouping::id_groups(parts@) =~= Seq::empty());
        assert(given.errors + unaddressed_notes(all.take(0), addresses@) =~= given.errors);
        for group in it: groups
            invariant
                it.seq() == groups@,
                all == grouping::id_groups(groups@),
                grouping::id_groups(parts@) == reachable(all.take(it.index() as int), addresses@),
                self@ == (RemovedV {
                    errors: given.errors + unaddressed_notes(
                        all.take(it.index() as int),
                        addresses@,
                    ),
                    ..given
                }),
        {
            let ghost at = it.index() as int;
            assert(group == groups@[at]);
            assert(all.take(at + 1).drop_last() =~= all.take(at));
            assert(all.take(at + 1).last() == (group.0, group.1@));
            let (node, docs) = group;
            if pair_place(addresses, node).is_some() {
                let ghost before = parts@;
                parts.push((node, docs));
                assert(grouping::id_groups(parts@) =~= grouping::id_groups(before).push(
                    (node, docs@),
                ));
            } else {
                self.add_unaddressed(node);
                assert(self@.errors =~= given.errors + unaddressed_notes(
                    all.take(at + 1),
                    addresses@,
                ));
            }
        }
        assert(all.take(all.len() as int) =~= all);
        parts
    }

    /// Adds what came of one part, told as this failure where it failed.
    fn add(&mut self, outcome: Result<usize, OrchestratorError>, failure: &str)
        requires
            removed_with(old(self)@, outcome, failure@).deleted <= u64::MAX,
        ensures
            final(self)@ == removed_with(old(self)@, outcome, failure@),
    {
        match outcome {
            Ok(count) => {
                self.deleted = self.deleted + count as u64;
            },
            Err(error) => {
                let ghost before = self.errors@;
                let mut note: String = String::from_str(failure);
                note.append(error.message().as_str());
                self.errors.push(note);
                assert(text::texts(self.errors@) =~= text::texts(before).push(note@));
            },
        }
    }

    /// Adds what came of one shard's part.
    pub fn add_local(&mut self, outcome: Result<usize, OrchestratorError>)
        requires
            removed_with(old(self)@, outcome, "local shard delete failed: "@).deleted <= u64::MAX,
        ensures
            final(self)@ == removed_with(old(self)@, outcome, "local shard delete failed: "@),
    {
        self.add(outcome, "local shard delete failed: ");
    }

    /// Adds what came of one node's part.
    pub fn add_remote(&mut self, outcome: Result<usize, OrchestratorError>)
        requires
            removed_with(old(self)@, outcome, "remote forwarding failed: "@).deleted <= u64::MAX,
        ensures
            final(self)@ == removed_with(old(self)@, outcome, "remote forwarding failed: "@),
    {
        self.add(outcome, "remote forwarding failed: ");
    }

    /// Adds that a node has no known address.
    pub fn add_unaddressed(&mut self, node_id: u128)
        ensures
            final(self)@ == (RemovedV {
                errors: old(self)@.errors.push("no peer address for node "@ + text::uuid_chars(node_id)),
                ..old(self)@
            }),
    {
        let ghost before = self.errors@;
        let mut note: String = String::from_str("no peer address for node ");
        note.append(uuid_text(node_id).as_str());
        self.errors.push(note);
        assert(text::texts(self.errors@) =~= text::texts(before).push(note@));
    }
}

/// How many documents a node says it removed, none where it does not say.
pub fn removed_there(answer: &Json) -> (count: u64)
    ensures
        count == broadcast::or_zero(broadcast::number_of(answer@.get("items_deleted"@))),
{
    match number_at(answer, "items_deleted") {
        Some(n) => n,
        None => 0,
    }
}

/// What a bulk removal answers.
pub open spec fn bulk_delete_body(removed: RemovedV, received: nat, duration_ms: u64) -> JsonV {
    JsonV::Object(
        seq![
            ("items_received"@, search::count_value(received)),
            ("items_deleted"@, search::count_value(removed.deleted)),
            ("errors"@, errors::text_array(removed.errors)),
            ("duration_ms"@, search::count_value(duration_ms as nat)),
        ],
    )
}

/// What a bulk removal answers.
pub fn bulk_delete_response(removed: &Removed, received: usize, duration_ms: u64) -> (response: Json)
    ensures
        response@ == bulk_delete_body(removed@, received as nat, duration_ms),
{
    let parts: Vec<(String, Json)> = vec![
        entry("items_received", Json::count(received)),
        entry("items_deleted", Json::unsigned(removed.deleted)),
        entry("errors", Json::text_list(&removed.errors)),
        entry("duration_ms", Json::unsigned(duration_ms)),
    ];
    assert(json::entry_models(parts@) =~= seq![
        ("items_received"@, search::count_value(received as nat)),
        ("items_deleted"@, search::count_value(removed.deleted as nat)),
        ("errors"@, errors::text_array(text::texts(removed.errors@))),
        ("duration_ms"@, search::count_value(duration_ms as nat)),
    ]);
    Json::object(parts)
}

} // verus!
