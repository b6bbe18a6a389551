//! What the answers to requests hold, stated of whatever the functions return.

use vstd::prelude::*;
use crate::{
    broadcast, broadcast_laws, bulk, bulk_delete, catalog, catalog_laws, dispatch, error_laws, errors,
    grouping,
    growth_laws, hit_laws, hits, ip, ip_laws, json, node, node_laws, order, posture, posture_laws,
    router, routing, schema_laws, schema_update, search_laws, sort_laws, streaming, streaming_laws,
    text, tool_laws, tool_search, validation, write_laws,
};
use crate::bulk::{Account, BulkPlan, Placed};
use crate::bulk_delete::{DeletePlan, Removed};
use crate::catalog::{IndexTotals, ShardIndexStats};
use crate::channels::Offer;
use crate::dispatch::{Probe, ProbeStep};
use crate::errors::{ErrorV, IoKind, OrchestratorError};
use crate::hits::{SearchWindow, SortOrder, SortSpec};
use crate::json::{Json, JsonV, NumV};
use crate::ops::{ClientOp, DeletePayload};
use crate::placement::ShardPlacement;
use crate::posture::{Posture, PostureConfig, Profile};
use crate::router::{RouteStep, RoutingDecision};
use crate::schema::{IndexSchema, TantivyFieldType};
use crate::schema_update::SchemaFieldUpdate;
use crate::streaming::StreamedSearch;
use crate::tool_search::{
    FederatedPlan, IndexOutcome, IndexSearch, OutcomeOfV, QueryKeywords,
};
use crate::validation::{SchemaValidationResult, StoreRefusals};

verus! {

// ---------------------------------------------------------------------------
// Routes
// ---------------------------------------------------------------------------

/// A request goes where it was decided that it goes; a change is never broadcast, and is refused
/// instead.
pub proof fn law_a_route_follows_the_decision(
    op: ClientOp,
    decision: RoutingDecision,
    streaming: bool,
    step: Result<RouteStep, OrchestratorError>,
)
    requires
        call_ensures(router::plan_route, (&op, decision, streaming), step),
    ensures
        decision is Local ==> step matches Ok(RouteStep::HandleHere),
        decision matches RoutingDecision::Remote { node_id, peer_addr } ==> (
        step matches Ok(RouteStep::Forward { node_id: n, peer_addr: p }) && n == node_id && p
            == peer_addr),
        decision is Broadcast && (op is Write || op is BulkWrite || op is Delete || op is BulkDelete
            || op is DeleteIndex) ==> step is Err,
        decision is Broadcast && (op is Search || op is Stream) && streaming ==> step matches Ok(
            RouteStep::BroadcastStreaming,
        ),
        decision is Broadcast && (op is Search || op is Stream) && !streaming ==> step matches Ok(
            RouteStep::Broadcast,
        ),
        decision is Broadcast && (op is GetConfig || op is ListIndexes || op is ListClusterIndexes
            || op is GetIdentity) ==> step matches Ok(RouteStep::Broadcast),
{
}

// ---------------------------------------------------------------------------
// Merges
// ---------------------------------------------------------------------------

/// A merged page by a sort stands as the sort says: texts as in a dictionary, whole numbers as they
/// count, up or down; it holds as many hits as are asked for, as far as there are any.
pub proof fn law_a_merged_page_stands_as_sorted(
    blocks: Vec<Vec<Json>>,
    sort: SortSpec,
    window: SearchWindow,
    page: Vec<Json>,
    i: int,
    j: int,
)
    requires
        call_ensures(hits::order_hit_blocks, (blocks, Some(&sort), window), page),
        0 <= i < j < page@.len(),
    ensures
        page@.len() <= window.limit,
        (forall|k: int|
            0 <= k < hits::lined_up(blocks@).len() ==> (hit_laws::sort_key(
                #[trigger] hits::lined_up(blocks@)[k],
            ) matches Some(key) ==> key is Text)) ==> ((
            page@[i]@.get("_sort_key"@),
            page@[j]@.get("_sort_key"@),
        ) matches (Some(JsonV::Text(x)), Some(JsonV::Text(y))) ==> {
            &&& sort.order == SortOrder::Asc ==> !text::comes_before(y, x)
            &&& sort.order == SortOrder::Desc ==> !text::comes_before(x, y)
        }),
        (forall|k: int|
            0 <= k < hits::lined_up(blocks@).len() ==> (hit_laws::sort_key(
                #[trigger] hits::lined_up(blocks@)[k],
            ) matches Some(key) ==> key.as_i64() is Some)) ==> ((
            page@[i]@.get("_sort_key"@),
            page@[j]@.get("_sort_key"@),
        ) matches (
            Some(JsonV::Number(NumV::Unsigned(x))),
            Some(JsonV::Number(NumV::Unsigned(y))),
        ) ==> {
            &&& sort.order == SortOrder::Asc ==> x <= y
            &&& sort.order == SortOrder::Desc ==> x >= y
        }),
{
    let all = hits::lined_up(blocks@);
    let shown = json::models(page@);
    let places = choose|places: Seq<int>| #[trigger]
        hits::is_merge_page(shown, all, hits::direction(Some(&sort)), window, places);
    assert(shown[i] == page@[i]@ && shown[j] == page@[j]@);
    sort_laws::law_a_page_is_its_stretch_of_the_order(all, Some(sort.order), window, shown, places);
    if forall|k: int|
        0 <= k < all.len() ==> (hit_laws::sort_key(#[trigger] all[k]) matches Some(key) ==> key is Text) {
        if let (Some(JsonV::Text(x)), Some(JsonV::Text(y))) = (
            shown[i].get("_sort_key"@),
            shown[j].get("_sort_key"@),
        ) {
            sort_laws::law_a_text_sort_reads_as_a_dictionary(
                all,
                sort.order,
                window,
                shown,
                places,
                i,
                j,
                x,
                y,
            );
        }
    }
    if forall|k: int|
        0 <= k < all.len() ==> (hit_laws::sort_key(#[trigger] all[k]) matches Some(key)
            ==> key.as_i64() is Some) {
        if let (
            Some(JsonV::Number(NumV::Unsigned(x))),
            Some(JsonV::Number(NumV::Unsigned(y))),
        ) = (shown[i].get("_sort_key"@), shown[j].get("_sort_key"@)) {
            sort_laws::law_a_number_sort_counts(
                all,
                sort.order,
                window,
                shown,
                places,
                i,
                j,
                JsonV::Number(NumV::Unsigned(x)),
                JsonV::Number(NumV::Unsigned(y)),
                x as int,
                y as int,
            );
        }
    }
}

/// A broadcast search answers with a page of what its peers sent, counts it, and adds up what they say
/// matched.
pub proof fn law_a_broadcast_search_adds_up_its_peers(
    answers: Vec<Option<Json>>,
    sort: Option<&SortSpec>,
    window: SearchWindow,
    elapsed_ms: u64,
    answer: Json,
)
    requires
        call_ensures(
            broadcast::answer_broadcast_search,
            (answers, sort, window, elapsed_ms),
            answer,
        ),
    ensures
        search_laws::is_count(
            answer@.get("hits_returned"@),
            search_laws::hits_in(answer@).len(),
        ),
        search_laws::hits_in(answer@).len() <= window.limit,
        search_laws::is_count(
            answer@.get("total_hits"@),
            order::sum_of(
                broadcast_laws::said_in(
                    broadcast::answer_models(answers@),
                    |value: JsonV| broadcast_laws::whole_under(value, "total_hits"@),
                ),
            ),
        ),
        search_laws::is_count(answer@.get("limit"@), window.limit as nat),
        search_laws::is_count(answer@.get("offset"@), window.offset as nat),
{
    let models = broadcast::answer_models(answers@);
    let known = broadcast::merged(models);
    let (page, places) = choose|page: Seq<JsonV>, places: Seq<int>| #[trigger]
        broadcast::is_merged_answer(
            answer@,
            known,
            hits::direction(sort),
            window,
            elapsed_ms,
            page,
            places,
        );
    broadcast_laws::law_a_merged_answer_tells_what_was_merged(
        models,
        answer@,
        hits::direction(sort),
        window,
        elapsed_ms,
        page,
        places,
    );
    sort_laws::law_a_page_is_its_stretch_of_the_order(
        known.blocks.flatten(),
        hits::direction(sort),
        window,
        page,
        places,
    );
}

/// A broadcast write succeeded where every node answered and none reported an error, and tells how much
/// was written in all.
pub proof fn law_a_broadcast_write_adds_up_its_nodes(answers: Vec<Json>, failed: u64, answer: Json)
    requires
        call_ensures(broadcast::answer_broadcast_write, (&answers, failed), answer),
    ensures
        ({
            let models = json::models(answers@);
            let reported = models.map_values(
                |value: JsonV| broadcast_laws::errors_in(value),
            ).flatten();
            &&& answer@.get("success"@) == Some(JsonV::Bool(failed == 0 && reported.len() == 0))
            &&& answer@.get("errors"@) == Some(JsonV::Array(reported))
            &&& search_laws::is_count(answer@.get("nodes_failed"@), failed as nat)
            &&& search_laws::is_count(answer@.get("nodes_succeeded"@), answers@.len())
            &&& search_laws::is_count(
                answer@.get("items_written"@),
                order::sum_of(
                    models.map_values(
                        |value: JsonV| broadcast_laws::whole_under(value, "items_written"@),
                    ),
                ),
            )
        }),
{
    broadcast_laws::law_a_broadcast_write_tells_the_nodes_apart(json::models(answers@), failed as nat);
}

// ---------------------------------------------------------------------------
// Batches
// ---------------------------------------------------------------------------

/// A placed document of a batch is handed to the shard that owns its key, where that shard lives here,
/// and to the node that has it where it does not.
pub proof fn law_a_batch_is_planned_by_owners(
    placed: Vec<Placed>,
    owners: Vec<Option<u128>>,
    first_shard: Option<u128>,
    local: Vec<u128>,
    assignments: Vec<(u128, u128)>,
    plan: BulkPlan,
    k: int,
)
    requires
        call_ensures(
            bulk::plan_bulk_write,
            (placed, &owners, first_shard, &local, &assignments),
            plan,
        ),
        owners@.len() == placed@.len(),
        0 <= k < placed@.len(),
        placed@[k].routing_key is Some,
    ensures
        write_laws::shard_of(owners@, first_shard, k) matches Some(shard) ==> {
            &&& local@.contains(shard) ==> write_laws::in_group(plan@.local, shard, placed@[k])
            &&& !local@.contains(shard) ==> (grouping::paired(assignments@, shard) matches Some(node)
                ==> write_laws::in_group(plan@.remote, node, placed@[k]))
        },
        write_laws::shard_of(owners@, first_shard, k) is None ==> plan.unrouted@.len() > 0,
{
    write_laws::law_a_document_goes_to_the_shard_that_owns_its_key(
        placed@,
        owners@,
        first_shard,
        local@,
        assignments@,
        k,
    );
    if write_laws::shard_of(owners@, first_shard, k) is None {
        assert(text::texts(plan.unrouted@).len() > 0);
    }
}

/// A removal of a batch is handed to the shard that owns its key, where that shard lives here, and to
/// the node that has it where it does not.
pub proof fn law_removals_are_planned_by_owners(
    docs: Vec<DeletePayload>,
    keys: Vec<Result<String, String>>,
    owners: Vec<Option<u128>>,
    first_shard: Option<u128>,
    local: Vec<u128>,
    assignments: Vec<(u128, u128)>,
    plan: DeletePlan,
    k: int,
)
    requires
        call_ensures(
            bulk_delete::plan_bulk_delete,
            (docs, &keys, &owners, first_shard, &local, &assignments),
            plan,
        ),
        keys@.len() == docs@.len(),
        owners@.len() == docs@.len(),
        0 <= k < docs@.len(),
    ensures
        keys@[k] matches Err(reason) ==> plan@.errors.contains(reason@),
        keys@[k] is Ok ==> (write_laws::shard_of(owners@, first_shard, k) matches Some(shard) ==> {
            &&& local@.contains(shard) ==> write_laws::in_group(
                plan@.local,
                shard,
                write_laws::removed_id(docs@[k]),
            )
            &&& !local@.contains(shard) ==> (grouping::paired(assignments@, shard) matches Some(node)
                ==> write_laws::in_group(plan@.remote, node, docs@[k]))
        }),
{
    write_laws::law_a_removal_goes_to_the_shard_that_owns_its_key(
        docs@,
        keys@,
        owners@,
        first_shard,
        local@,
        assignments@,
        k,
    );
}

/// The answer to a batch tells how much was written of how much that came, and every error in order.
pub proof fn law_a_batch_is_answered_with_its_account(
    account: Account,
    removed: Removed,
    received: usize,
    duration_ms: u64,
    written: Json,
    deleted: Json,
)
    requires
        call_ensures(bulk::bulk_write_response, (&account, received, duration_ms), written),
        call_ensures(bulk_delete::bulk_delete_response, (&removed, received, duration_ms), deleted),
    ensures
        search_laws::is_count(written@.get("items_written"@), account.written as nat),
        search_laws::is_count(written@.get("items_received"@), received as nat),
        broadcast_laws::lists_texts(written@.get("errors"@), text::texts(account.errors@)),
        search_laws::is_count(deleted@.get("items_deleted"@), removed.deleted as nat),
        search_laws::is_count(deleted@.get("items_received"@), received as nat),
        broadcast_laws::lists_texts(deleted@.get("errors"@), text::texts(removed.errors@)),
{
    write_laws::law_a_bulk_answer_tells_the_account(
        account@,
        removed@,
        received as nat,
        duration_ms,
    );
}

// ---------------------------------------------------------------------------
// Schemas
// ---------------------------------------------------------------------------

/// A document is let in where it is an object under an identifier, says no other identifier, and each
/// of its declared fields can hold its value; a schema grows exactly where one that is let in holds
/// what is not declared.
pub proof fn law_a_document_is_let_in_by_its_schema(
    id: &str,
    doc: Json,
    schema: IndexSchema,
    refusals: StoreRefusals,
    verdict: SchemaValidationResult,
)
    requires
        call_ensures(validation::validate_document, (id, &doc, &schema, &refusals), verdict),
    ensures
        verdict.validation_error is None <==> (doc@ matches JsonV::Object(entries) && id@.len() > 0 && (
        doc@.get("id"@) matches Some(own) ==> validation::is_identifier(own, id@))
            && !validation::has_disagreement(doc@, schema@, id@) && schema_laws::all_held(
            entries,
            schema@,
            refusals@,
        )),
        verdict.validation_error is Some ==> !verdict.needs_evolution,
        verdict.validation_error is None ==> (verdict.needs_evolution <==> verdict.new_fields@.len()
            > 0),
{
    schema_laws::law_a_document_is_let_in_where_every_field_holds_it(
        verdict@,
        id@,
        doc@,
        schema@,
        refusals@,
    );
    assert(verdict@.new_fields.len() == verdict.new_fields@.len());
}

/// A value is learned as what it is: a date, an address or a text, a number by its size, a truth value,
/// an object.
pub proof fn law_a_value_is_learned(value: Json, learned: TantivyFieldType)
    requires
        call_ensures(validation::infer_field_type, (&value,), learned),
    ensures
        value@ matches JsonV::Text(words) ==> {
            &&& validation::date_secs(words) is Some ==> learned is Date
            &&& validation::date_secs(words) is None && crate::ip::is_address(words) ==> learned is Ip
            &&& validation::date_secs(words) is None && !crate::ip::is_address(words)
                ==> learned is Text
        },
        value@ matches JsonV::Number(NumV::Unsigned(n)) ==> (n <= i64::MAX ==> learned is I64) && (n
            > i64::MAX ==> learned is U64),
        value@ matches JsonV::Number(NumV::Negative(_)) ==> learned is I64,
        value@ matches JsonV::Number(NumV::Real(_)) ==> learned is F64,
        value@ is Bool ==> learned is Boolean,
        value@ is Object ==> learned is Json,
        value@ is Array || value@ is Null ==> learned is Text,
{
}

/// A change of a schema is what the shards made of it together.
pub proof fn law_a_schema_change_is_merged(
    verdicts: Vec<SchemaFieldUpdate>,
    merged: SchemaFieldUpdate,
    name: Seq<char>,
)
    requires
        call_ensures(schema_update::merge_schema_verdicts, (&verdicts,), merged),
    ensures
        text::texts(merged.applied@).contains(name) <==> exists|i: int|
            0 <= i < verdicts@.len() && text::texts((#[trigger] verdicts@[i]).applied@).contains(name),
        text::texts(merged.unknown@).contains(name) <==> verdicts@.len() > 0 && forall|i: int|
            0 <= i < verdicts@.len() ==> text::texts((#[trigger] verdicts@[i]).unknown@).contains(name),
{
    growth_laws::law_a_change_is_what_the_shards_made_of_it(merged, verdicts@, name);
}

// ---------------------------------------------------------------------------
// The node
// ---------------------------------------------------------------------------

/// A node is judged by its profile: an external one needs TLS, keys and no administration, a local one
/// stays on this machine, and a cluster off this machine needs its shared key.
pub proof fn law_a_node_is_judged_by_its_profile(
    config: PostureConfig,
    judged: Result<Posture, String>,
)
    requires
        call_ensures(posture::evaluate, (&config,), judged),
    ensures
        judged is Err <==> config.profile is None && !posture::binds_loopback(config.bind_address@),
        judged matches Ok(found) ==> {
            &&& config.profile matches Some(declared) ==> found.profile == declared && !found.inferred
            &&& config.profile is None ==> found.profile == Profile::Local && found.inferred
            &&& found.checks@.len() == 9
            &&& found.checks@[0].outcome is Fail <==> found.profile == Profile::Local
                && !posture::binds_loopback(config.bind_address@)
            &&& found.checks@[1].outcome is Fail <==> found.profile == Profile::External
                && !config.tls_enabled
            &&& found.checks@[2].outcome is Fail <==> found.profile != Profile::Local && text::texts(
                config.cors_allowed_origins@,
            ).contains("*"@)
            &&& found.checks@[3].outcome is Fail <==> found.profile == Profile::External
                && config.admin_enabled
            &&& found.checks@[5].outcome is Fail <==> found.profile != Profile::Local
                && config.cluster_enabled && !config.has_psk
            &&& config.keyring matches Ok(ring) ==> (found.checks@[7].outcome is Fail <==> (ring.enabled
                && ring.empty) || (!ring.enabled && found.profile == Profile::External))
            &&& config.keyring is Err ==> found.checks@[7].outcome is Fail
        },
{
    if let Ok(found) = judged {
        let models = posture::check_models(found.checks@);
        let rules = posture::judged(found.profile, config);
        posture_laws::law_a_profile_limits_how_a_node_is_reached(found.profile, config);
        posture_laws::law_a_profile_limits_what_a_node_keeps(found.profile, config);
        posture_laws::law_a_profile_limits_who_a_node_answers(found.profile, config);
        assert(models == rules && models.len() == 9);
        assert(models[0].1 == found.checks@[0].outcome@);
        assert(models[1].1 == found.checks@[1].outcome@);
        assert(models[2].1 == found.checks@[2].outcome@);
        assert(models[3].1 == found.checks@[3].outcome@);
        assert(models[5].1 == found.checks@[5].outcome@);
        assert(models[7].1 == found.checks@[7].outcome@);
    }
}

/// A node finds every shard that has a directory, once, and no other.
pub proof fn law_shards_are_discovered(names: Vec<String>, shards: Vec<u128>, shard: u128)
    requires
        call_ensures(node::discover_shards, (&names,), shards),
    ensures
        shards@.contains(shard) <==> node_laws::some_names(text::texts(names@), shard),
        shards@.no_duplicates(),
{
    node_laws::law_every_directory_is_a_shard_found(text::texts(names@), shard);
    node::law_no_shard_is_discovered_twice(text::texts(names@));
}

/// The indexes of a node add up what their shards report.
pub proof fn law_indexes_are_added_up(
    stats: Vec<ShardIndexStats>,
    totals: Vec<(String, IndexTotals)>,
    name: Seq<char>,
)
    requires
        call_ensures(catalog::total_by_index, (&stats,), totals),
        catalog::documents_reported(stats@) <= u64::MAX,
        catalog::bytes_reported(stats@) <= u64::MAX,
        stats@.len() <= u64::MAX,
    ensures
        match json::value_under(catalog::totals_models(totals@), name) {
            Some(total) => {
                &&& total.document_count == order::sum_of(
                    catalog_laws::reported(
                        stats@,
                        name,
                        |report: ShardIndexStats| report.document_count as nat,
                    ),
                )
                &&& exists|i: int| 0 <= i < stats@.len() && (#[trigger] stats@[i]).name@ == name
            },
            None => forall|i: int| 0 <= i < stats@.len() ==> (#[trigger] stats@[i]).name@ != name,
        },
{
    catalog_laws::law_an_index_adds_up_its_shards(stats@, name);
}

/// A gather that nobody answered is refused with every reason, and is the caller's fault where every
/// shard says so; one that anybody answered is not refused.
pub proof fn law_a_gather_is_refused_with_its_reasons(
    index: &str,
    answered: usize,
    failures: Vec<(u128, OrchestratorError)>,
    refusal: Option<OrchestratorError>,
)
    requires
        call_ensures(errors::no_shard_answered, (index, answered, &failures), refusal),
    ensures
        refusal is Some <==> answered == 0 && failures@.len() > 0,
        refusal matches Some(error) ==> (error@ matches ErrorV::NoShardAnswered(named, _, callers)
            && named == index@ && (callers <==> forall|i: int|
            0 <= i < failures@.len() ==> errors::blames_caller((#[trigger] failures@[i]).1@))),
{
    let models = errors::failure_models(failures@);
    let reasons = error_laws::law_a_refused_gather_says_why(index@, answered as nat, models);
    assert(forall|i: int| 0 <= i < failures@.len() ==> (#[trigger] models[i]).1 == failures@[i].1@);
    if refusal is Some {
        if forall|i: int| 0 <= i < failures@.len() ==> errors::blames_caller((#[trigger] failures@[i]).1@) {
            assert forall|i: int| 0 <= i < models.len() implies errors::blames_caller(
                (#[trigger] models[i]).1,
            ) by {
                assert(errors::blames_caller(failures@[i].1@));
            }
        }
        if forall|i: int| 0 <= i < models.len() ==> errors::blames_caller((#[trigger] models[i]).1) {
            assert forall|i: int| 0 <= i < failures@.len() implies errors::blames_caller(
                (#[trigger] failures@[i]).1@,
            ) by {
                assert(errors::blames_caller(models[i].1));
            }
        }
    }
}

// ---------------------------------------------------------------------------
// Operations
// ---------------------------------------------------------------------------

/// Which operations change, which search, which stay with what this node knows, and which the workers
/// take.
pub proof fn law_operations_are_told_apart(
    op: ClientOp,
    write: bool,
    search: bool,
    metadata: bool,
    eligible: bool,
)
    requires
        call_ensures(router::is_write_operation, (&op,), write),
        call_ensures(router::is_search, (&op,), search),
        call_ensures(router::is_metadata_operation, (&op,), metadata),
        call_ensures(router::is_worker_eligible, (&op,), eligible),
    ensures
        write <==> op is Write || op is BulkWrite || op is Delete || op is BulkDelete
            || op is DeleteIndex,
        search <==> op is Search || op is Stream,
        metadata <==> op is GetConfig || op is CreateConfig || op is UpdateSchema
            || op is ValidateQuery,
        eligible <==> op is Write || op is Delete || op is Search || op is Stream,
{
}

/// The page of a search or a stream is what it asks for, from the start and of the usual length where it
/// does not say, here and at a peer; a peer is asked for all that reaches to its end.
pub proof fn law_pages_are_what_is_asked_for(
    op: ClientOp,
    default_limit: usize,
    here: SearchWindow,
    there: SearchWindow,
    window: SearchWindow,
    sent: ClientOp,
)
    requires
        call_ensures(router::local_window, (&op, default_limit), here),
        call_ensures(broadcast::broadcast_window, (&op, default_limit), there),
        call_ensures(broadcast::widen, (op, window), sent),
    ensures
        op matches ClientOp::Search { limit, offset, .. } ==> {
            &&& here.limit == (if limit is Some {
                limit->0
            } else {
                default_limit
            })
            &&& here.offset == (if offset is Some {
                offset->0
            } else {
                0
            })
            &&& there == here
        },
        op matches ClientOp::Stream { limit, .. } ==> here.offset == 0 && here.limit == (
        if limit is Some {
            limit->0
        } else {
            default_limit
        }),
        op matches ClientOp::Search { index, query, fields, sort, .. } ==> (sent matches ClientOp::Search {
            index: i,
            query: q,
            limit: Some(n),
            offset: None,
            fields: f,
            sort: s,
        } && i == index && q == query && f == fields && s == sort && (window.offset + window.limit
            <= usize::MAX ==> n == window.offset + window.limit)),
        !(op is Search) ==> sent == op,
{
}

/// A key is answered here exactly where a shard that lives here owns it.
pub proof fn law_a_key_is_resolved_to_its_owner(
    has_key: bool,
    owner: Option<u128>,
    placement: ShardPlacement,
    decision: Option<RoutingDecision>,
)
    requires
        call_ensures(router::resolve_local, (has_key, owner, &placement), decision),
    ensures
        decision is Some <==> has_key && (owner matches Some(shard) && placement.live().contains(shard)),
        decision matches Some(found) ==> found is Local,
{
}

/// A write goes to the shard that owns its key, to the first shard where nobody owns it, and is refused
/// without a key and without a shard.
pub proof fn law_a_write_is_routed_to_its_owner(
    key: Option<&str>,
    owner: Option<u128>,
    first_shard: Option<u128>,
    target: Result<u128, OrchestratorError>,
)
    requires
        call_ensures(routing::route_write, (key, owner, first_shard), target),
    ensures
        key is Some ==> (owner matches Some(shard) ==> target == Ok::<u128, OrchestratorError>(shard)),
        key is Some && owner is None ==> (first_shard matches Some(shard) ==> target == Ok::<
            u128,
            OrchestratorError,
        >(shard)),
        key is None ==> target is Err,
        owner is None && first_shard is None ==> target is Err,
{
}

/// A stream asks for its first hits, as many as it is asked for; nothing else is streamed, and comes
/// back as it was.
pub proof fn law_a_stream_is_requested(
    op: ClientOp,
    default_limit: usize,
    asked: Result<(ClientOp, usize), ClientOp>,
)
    requires
        call_ensures(streaming::stream_request, (op, default_limit), asked),
    ensures
        asked is Ok <==> op is Search || op is Stream,
        asked matches Err(back) ==> back == op,
        op matches ClientOp::Stream { index, query, limit, fields, sort } ==> (asked matches Ok(
            (
                ClientOp::Search {
                    index: i,
                    query: q,
                    limit: Some(n),
                    offset: None,
                    fields: f,
                    sort: s,
                },
                length,
            ),
        ) && i == index && q == query && f == fields && s == sort && n == length && length == (
        if limit is Some {
            limit->0
        } else {
            default_limit
        })),
{
}

/// A streamed answer holds no more hits than were asked for, counts them, and tells how much matched.
pub proof fn law_a_stream_is_answered(
    stream: StreamedSearch,
    sort: Option<&SortSpec>,
    limit: usize,
    took_ms: u64,
    answer: Json,
)
    requires
        call_ensures(streaming::answer_stream, (stream, sort, limit, took_ms), answer),
    ensures
        search_laws::hits_in(answer@).len() <= limit,
        search_laws::is_count(
            answer@.get("hits_returned"@),
            search_laws::hits_in(answer@).len(),
        ),
        search_laws::is_count(answer@.get("total_hits"@), stream.total_hits_sum as nat),
        search_laws::is_count(answer@.get("limit"@), limit as nat),
        stream.errors@.len() == 0 ==> answer@.get("errors"@) is None,
        stream.errors@.len() > 0 ==> broadcast_laws::lists_texts(
            answer@.get("errors"@),
            text::texts(stream.errors@),
        ),
{
    let (ranks, page, places) = choose|ranks: Seq<int>, page: Seq<JsonV>, places: Seq<int>| #[trigger]
        streaming::is_streamed_answer(
            answer@,
            stream@,
            hits::direction(sort),
            limit,
            took_ms,
            ranks,
            page,
            places,
        );
    streaming_laws::law_a_streamed_answer_tells_what_was_taken_in(
        answer@,
        stream@,
        hits::direction(sort),
        limit,
        took_ms,
        ranks,
        page,
        places,
    );
    sort_laws::law_a_page_is_its_stretch_of_the_order(
        order::at_places(stream@.blocks, ranks).flatten(),
        hits::direction(sort),
        (SearchWindow { offset: 0, limit }),
        page,
        places,
    );
    assert(stream@.errors.len() == stream.errors@.len());
}

/// A projection shows the fields that were asked for, as the document has them, what an answer adds
/// itself, and nothing else.
pub proof fn law_a_projection_shows_the_fields(
    doc: Json,
    fields: Vec<String>,
    shown: Json,
    key: Seq<char>,
)
    requires
        call_ensures(hits::apply_field_projection, (doc, &fields), shown),
        doc@ matches JsonV::Object(entries) && json::keys_distinct(entries),
    ensures
        text::texts(fields@).contains(key) || (key.len() > 0 && key[0] == '_') ==> shown@.get(key)
            == doc@.get(key),
        !text::texts(fields@).contains(key) && !(key.len() > 0 && key[0] == '_') ==> shown@.get(
            key,
        ) is None,
{
    hit_laws::law_projection_shows_what_was_asked(doc@->Object_0, text::texts(fields@), key);
}

/// A tool search is refused where it asks for too much, and otherwise asks its own index what was asked
/// for.
pub proof fn law_a_tool_search_is_planned(
    request: IndexSearch,
    keywords: QueryKeywords,
    limit: Option<usize>,
    max: usize,
    plan: Result<ClientOp, String>,
)
    requires
        call_ensures(tool_search::plan_index_search, (request, &keywords, limit, max), plan),
    ensures
        ({
            let asked = if limit is Some {
                limit
            } else {
                keywords.limit
            };
            &&& plan is Err <==> (asked matches Some(n) && n > max)
            &&& plan matches Ok(op) ==> (op matches ClientOp::Search {
                index,
                query,
                limit: l,
                offset,
                ..
            } && index@ == request.index@ && query@ == keywords.query@ && l == asked && offset is None)
        }),
{
}

/// Several indexes are planned one by one, each as it was asked for, and merged with the limit that was
/// asked for; they are refused together where it is too much.
pub proof fn law_a_federated_search_is_planned(
    requests: Vec<IndexSearch>,
    keywords: QueryKeywords,
    limit: Option<usize>,
    default_limit: usize,
    max: usize,
    plan: Result<FederatedPlan, String>,
    i: int,
)
    requires
        call_ensures(
            tool_search::plan_federated_search,
            (requests, &keywords, limit, default_limit, max),
            plan,
        ),
        0 <= i < requests@.len(),
    ensures
        ({
            let asked = if limit is Some {
                limit
            } else {
                keywords.limit
            };
            &&& plan is Err <==> (asked matches Some(n) && n > max)
            &&& plan matches Ok(found) ==> {
                &&& found.searches@.len() == requests@.len()
                &&& found.searches@[i].0@ == requests@[i].index@
                &&& found.searches@[i].1 matches ClientOp::Search { index, query, limit: l, offset, .. }
                    && index@ == requests@[i].index@ && query@ == keywords.query@ && l == asked
                    && offset is None
                &&& asked matches Some(n) ==> found.limit == n
                &&& asked is None ==> found.limit == default_limit
            }
        }),
{
    if let Ok(found) = plan {
        assert(tool_search::searches_as_asked(
            found.searches@[i],
            requests@[i],
            keywords,
            tool_search::effective_limit(limit, keywords),
        ));
    }
}

/// Whom an error blames, and what it says.
pub proof fn law_an_error_blames_and_says(error: OrchestratorError, callers: bool, words: String)
    requires
        call_ensures(errors::is_caller_error, (&error,), callers),
        call_ensures(OrchestratorError::message, (&error,), words),
    ensures
        error matches OrchestratorError::Io { kind, message } ==> {
            &&& callers <==> kind == IoKind::InvalidInput || kind == IoKind::InvalidData
            &&& words@ == "io error: "@ + message@
        },
        error matches OrchestratorError::Storage(inner) ==> (callers <==> inner is InvalidFieldValue),
        error is UnsortableField || error is UnrunnableQuery || error is NoShardAnswered ==> callers,
        error is Identity || error is ShardLimitExceeded || error is ShardAlreadyExists ==> !callers,
        error matches OrchestratorError::Identity(inner) ==> words@ == "identity error: "@ + inner@,
{
}

/// An address is one of four octets or of groups, and a loopback one of four octets begins with 127.
pub proof fn law_addresses_are_read(words: &str, address: bool, loopback: bool)
    requires
        call_ensures(ip::reads_as_address, (words,), address),
        call_ensures(ip::reads_as_loopback, (words,), loopback),
    ensures
        forall|a: nat, b: nat, c: nat, d: nat|
            a <= 255 && b <= 255 && c <= 255 && d <= 255 && words@ == #[trigger] ip_laws::dotted_quad(
                a,
                b,
                c,
                d,
            ) ==> address && (loopback <==> a == 127),
        loopback ==> address,
{
    assert forall|a: nat, b: nat, c: nat, d: nat|
        a <= 255 && b <= 255 && c <= 255 && d <= 255 && words@ == #[trigger] ip_laws::dotted_quad(
            a,
            b,
            c,
            d,
        ) implies address && (loopback <==> a == 127) by {
        ip_laws::law_four_octets_are_an_address(a, b, c, d);
    }
}

/// A bind address stays on this machine where it is its name or a loopback address, with blanks around
/// it or not.
pub proof fn law_a_bind_address_stays_here(address: &str, loopback: bool)
    requires
        call_ensures(posture::is_loopback_bind, (address,), loopback),
    ensures
        loopback <==> text::lowered(text::trimmed(address@)) == "localhost"@
            || ip::is_loopback_address(text::trimmed(address@)),
{
}

/// Whether an index of a federated search came to nothing.
pub open spec fn index_failed(outcome: IndexOutcome) -> bool {
    tool_search::outcome_error(outcome@) is Some
}

/// As many indexes are told as failed as failed.
proof fn lemma_failed_count(outcomes: Seq<(usize, OutcomeOfV)>)
    ensures
        tool_search::failed_indexes(outcomes).len() <= outcomes.len(),
        tool_search::failed_indexes(outcomes).len() == outcomes.len() <==> forall|i: int|
            0 <= i < outcomes.len() ==> tool_search::outcome_error((#[trigger] outcomes[i]).1) is Some,
    decreases outcomes.len(),
{
    if outcomes.len() > 0 {
        let rest = outcomes.drop_last();
        lemma_failed_count(rest);
        assert(outcomes[rest.len() as int] == outcomes.last());
        if forall|i: int|
            0 <= i < rest.len() ==> tool_search::outcome_error((#[trigger] rest[i]).1) is Some {
            if tool_search::outcome_error(outcomes.last().1) is Some {
                assert forall|i: int| 0 <= i < outcomes.len() implies tool_search::outcome_error(
                    (#[trigger] outcomes[i]).1,
                ) is Some by {
                    if i < rest.len() {
                        assert(rest[i] == outcomes[i]);
                    }
                }
            }
        } else {
            let i = choose|i: int|
                0 <= i < rest.len() && !(tool_search::outcome_error((#[trigger] rest[i]).1) is Some);
            assert(outcomes[i] == rest[i]);
        }
    }
}

/// A federated search whose queries can all be run is answered where any index came to something, and
/// refused where none did.
pub proof fn law_a_federated_search_is_answered_where_any_index_was_read(
    outcomes: Vec<(usize, IndexOutcome)>,
    sort: Option<&SortSpec>,
    limit: usize,
    words: &str,
    max_bytes: usize,
    answer: Result<Json, String>,
)
    requires
        call_ensures(
            tool_search::answer_federated_search,
            (outcomes, sort, limit, words, max_bytes),
            answer,
        ),
        forall|i: int|
            0 <= i < outcomes@.len() ==> tool_search::outcome_refusal(
                (#[trigger] outcomes@[i]).1@,
            ) is None,
    ensures
        answer is Err <==> outcomes@.len() > 0 && forall|i: int|
            0 <= i < outcomes@.len() ==> index_failed((#[trigger] outcomes@[i]).1),
{
    let all = tool_search::outcome_models(outcomes@);
    assert(all.len() == outcomes@.len());
    assert(forall|i: int| 0 <= i < all.len() ==> (#[trigger] all[i]).1 == outcomes@[i].1@);
    assert forall|i: int| 0 <= i < all.len() implies tool_search::outcome_refusal(
        (#[trigger] all[i]).1,
    ) is None by {
        assert(tool_search::outcome_refusal(outcomes@[i].1@) is None);
    }
    tool_laws::law_the_first_refusal_refuses(all, all.len() as int);
    lemma_failed_count(all);
    if forall|i: int| 0 <= i < outcomes@.len() ==> index_failed((#[trigger] outcomes@[i]).1) {
        assert forall|i: int| 0 <= i < all.len() implies tool_search::outcome_error(
            (#[trigger] all[i]).1,
        ) is Some by {
            assert(index_failed(outcomes@[i].1));
        }
    } else {
        let i = choose|i: int| 0 <= i < outcomes@.len() && !index_failed((#[trigger] outcomes@[i]).1);
        assert(!(tool_search::outcome_error(all[i].1) is Some));
    }
}

/// A listed index tells its name and its totals as they were added up.
pub proof fn law_an_index_is_listed_with_its_totals(
    name: &str,
    totals: IndexTotals,
    include_data_size: bool,
    listed: Json,
)
    requires
        call_ensures(catalog::list_index, (name, &totals, include_data_size, None::<&IndexSchema>), listed),
        totals.redb_bytes + totals.tantivy_bytes <= u64::MAX,
    ensures
        listed@.get("name"@) == Some(JsonV::Text(name@)),
        search_laws::is_count(listed@.get("document_count"@), totals.document_count as nat),
        search_laws::is_count(listed@.get("index_size_bytes"@), totals.tantivy_bytes as nat),
        search_laws::is_count(
            listed@.get("memory_bytes"@),
            (totals.redb_bytes + totals.tantivy_bytes) as nat,
        ),
        search_laws::is_count(listed@.get("shard_count"@), totals.shard_count as nat),
        search_laws::is_count(listed@.get("warm_shards"@), totals.warm_shards as nat),
        search_laws::is_count(listed@.get("field_count"@), 0),
{
    catalog_laws::law_a_listed_index_tells_its_totals(
        name@,
        totals@,
        include_data_size,
        None,
        Seq::empty(),
    );
}

/// A job that a worker took is done with; one that it sent back goes to the next worker, and comes back
/// behind the last.
pub proof fn law_a_job_sent_back_goes_to_the_next_worker<J>(
    start: usize,
    offset: usize,
    workers: usize,
    full: bool,
    offer: Offer<J>,
    next: ProbeStep<J>,
)
    requires
        call_ensures(dispatch::after_offer::<J>, (start, offset, workers, full, offer), next),
        offset < workers,
    ensures
        offer is Taken ==> (next matches ProbeStep::Done(Probe::Delivered { worker, offset: at }) && at
            == offset && worker == (start + offset) % (workers as int)),
        offer matches Offer::Full(back) ==> offset + 1 < workers ==> (next matches ProbeStep::Next {
            offset: at,
            job,
            full: seen,
        } && at == offset + 1 && job == back && seen),
        offer matches Offer::Closed(back) ==> offset + 1 < workers ==> (next matches ProbeStep::Next {
            offset: at,
            job,
            full: seen,
        } && at == offset + 1 && job == back && seen == full),
        !(offer is Taken) && offset + 1 == workers ==> (next matches ProbeStep::Done(probe)
            && probe is Refused),
{
    if offer is Taken {
        vstd::arithmetic::div_mod::lemma_mod_bound(start + offset, workers as int);
    }
}

} // verus!
