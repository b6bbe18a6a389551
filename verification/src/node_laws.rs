//! How a node finds its shards, spreads them over cores and directories, and hands out its work.

use vstd::prelude::*;
use crate::{dispatch, node, placement, routing, text};
use crate::channels::Attempt;
use crate::dispatch::{DispatchStats, PoolCounters, Probe, Undelivered, WorkerLoad};
use crate::errors::{ErrorV, IoKind};
use crate::node::ShardStop;
use crate::placement::{CoreLayout, ShardSlot};

verus! {

// ---------------------------------------------------------------------------
// Shards
// ---------------------------------------------------------------------------

/// Whether some directory is a shard's.
pub open spec fn some_names(names: Seq<Seq<char>>, shard: u128) -> bool {
    exists|i: int| 0 <= i < names.len() && node::shard_named(#[trigger] names[i]) == Some(shard)
}

/// A node finds every shard that has a directory, and no other.
pub proof fn law_every_directory_is_a_shard_found(names: Seq<Seq<char>>, shard: u128)
    ensures
        node::shards_named(names).contains(shard) <==> some_names(names, shard),
    decreases names.len(),
{
    if names.len() > 0 {
        let rest = names.drop_last();
        let before = node::shards_named(rest);
        let all = node::shards_named(names);
        law_every_directory_is_a_shard_found(rest, shard);
        assert(names[rest.len() as int] == names.last());
        if before.contains(shard) {
            let k = choose|k: int| 0 <= k < before.len() && before[k] == shard;
            assert(all[k] == shard);
            let i = choose|i: int|
                0 <= i < rest.len() && node::shard_named(#[trigger] rest[i]) == Some(shard);
            assert(names[i] == rest[i]);
        } else {
            if all.contains(shard) {
                let k = choose|k: int| 0 <= k < all.len() && all[k] == shard;
                if k < before.len() {
                    assert(before[k] == shard);
                }
            }
            if some_names(names, shard) {
                let i = choose|i: int|
                    0 <= i < names.len() && node::shard_named(#[trigger] names[i]) == Some(shard);
                if i < rest.len() {
                    assert(rest[i] == names[i]);
                } else {
                    assert(all[before.len() as int] == shard);
                }
            }
        }
    }
}

/// Only a directory whose name begins as a shard's does is one.
pub proof fn law_a_shards_directory_is_named_for_it(name: Seq<char>)
    ensures
        node::shard_named(name) is Some ==> "shard-"@.is_prefix_of(name),
        "shard-"@.is_prefix_of(name) ==> node::shard_named(name) == text::uuid_reading(
            name.skip(6),
        ),
{
    reveal_strlit("shard-");
    assert("shard-"@.len() == 6);
    if "shard-"@.is_prefix_of(name) {
        assert(name.subrange(0, 6) =~= "shard-"@);
    }
}

/// The shards that a node serves are those that started, in the order they were found.
pub proof fn law_what_started_is_served<T>(found: Seq<(u128, Option<T>)>)
    ensures
        node::those_started(found) == found.filter(
            |shard: (u128, Option<T>)| shard.1 is Some,
        ).map_values(|shard: (u128, Option<T>)| (shard.0, shard.1->0)),
    decreases found.len(),
{
    reveal(Seq::filter);
    let started = |shard: (u128, Option<T>)| shard.1 is Some;
    let bare = |shard: (u128, Option<T>)| (shard.0, shard.1->0);
    if found.len() > 0 {
        law_what_started_is_served(found.drop_last());
    }
    assert(node::those_started(found) =~= found.filter(started).map_values(bare));
}

/// A shard that stopped leaves no note; one that did not is named, with what went wrong.
pub proof fn law_a_shard_that_did_not_stop_is_named(shard: u128, stop: ShardStop)
    ensures
        node::stop_note(shard, stop) is None <==> stop is Done,
        node::stop_note(shard, stop) matches Some(note) ==> ("Shard "@ + text::uuid_chars(shard))
            .is_prefix_of(note),
        stop matches ShardStop::StorageFailed(words) ==> (node::stop_note(shard, stop) matches Some(
            note,
        ) && words@ == note.skip(note.len() - words@.len())),
        stop matches ShardStop::TaskFailed(words) ==> (node::stop_note(shard, stop) matches Some(note)
            && words@ == note.skip(note.len() - words@.len())),
{
    let head = "Shard "@ + text::uuid_chars(shard);
    if let Some(note) = node::stop_note(shard, stop) {
        assert(note.subrange(0, head.len() as int) =~= head);
        if let ShardStop::StorageFailed(words) = stop {
            assert(note.skip(note.len() - words@.len()) =~= words@);
        }
        if let ShardStop::TaskFailed(words) = stop {
            assert(note.skip(note.len() - words@.len()) =~= words@);
        }
    }
}

/// A stop went well where every shard stopped.
pub proof fn law_a_stop_went_well_where_every_shard_stopped(stops: Seq<(u128, ShardStop)>)
    ensures
        node::stop_notes(stops).len() == 0 <==> forall|i: int|
            0 <= i < stops.len() ==> (#[trigger] stops[i]).1 is Done,
    decreases stops.len(),
{
    if stops.len() > 0 {
        let rest = stops.drop_last();
        law_a_stop_went_well_where_every_shard_stopped(rest);
        assert(stops[rest.len() as int] == stops.last());
        if forall|i: int| 0 <= i < rest.len() ==> (#[trigger] rest[i]).1 is Done {
            if stops.last().1 is Done {
                assert forall|i: int| 0 <= i < stops.len() implies (#[trigger] stops[i]).1 is Done by {
                    if i < rest.len() {
                        assert(rest[i] == stops[i]);
                    }
                }
            }
        } else {
            let i = choose|i: int| 0 <= i < rest.len() && !((#[trigger] rest[i]).1 is Done);
            assert(stops[i] == rest[i]);
        }
    }
}

/// A shard is kept in the directory that the upper half of its identifier counts to, going round.
pub proof fn law_a_shard_has_its_directory(shard: u128, directories: nat)
    requires
        directories > 0,
    ensures
        0 <= routing::directory_of(shard, directories) < directories,
        (shard as int / 0x1_0000_0000_0000_0000 - routing::directory_of(shard, directories)) % (
        directories as int) == 0,
{
    let upper = shard as int / 0x1_0000_0000_0000_0000;
    vstd::arithmetic::div_mod::lemma_mod_bound(upper, directories as int);
    vstd::arithmetic::div_mod::lemma_fundamental_div_mod(upper, directories as int);
    let q = upper / (directories as int);
    assert(upper - upper % (directories as int) == q * (directories as int)) by (nonlinear_arith)
        requires
            upper == (directories as int) * q + upper % (directories as int),
    ;
    vstd::arithmetic::div_mod::lemma_mod_multiples_basic(q, directories as int);
}

/// A write goes to the shard that owns its key, to the first shard where nobody owns it, and nowhere
/// without a key or without a shard.
pub proof fn law_a_write_goes_to_the_owner(
    has_key: bool,
    owner: Option<u128>,
    first_shard: Option<u128>,
)
    ensures
        has_key ==> (owner matches Some(shard) ==> routing::chosen_shard(has_key, owner, first_shard)
            == Ok::<_, ErrorV>(shard)),
        has_key && owner is None ==> (first_shard matches Some(shard) ==> routing::chosen_shard(
            has_key,
            owner,
            first_shard,
        ) == Ok::<_, ErrorV>(shard)),
        has_key && owner is None && first_shard is None ==> (routing::chosen_shard(
            has_key,
            owner,
            first_shard,
        ) matches Err(error) && (error matches ErrorV::Io(kind, _) && kind == IoKind::NotFound)),
        !has_key ==> (routing::chosen_shard(has_key, owner, first_shard) matches Err(error) && (
        error matches ErrorV::Io(kind, _) && kind == IoKind::InvalidInput)),
{
}

/// A key made from bytes is their first part in hexadecimal, and a word of its own where there are
/// none.
pub proof fn law_a_key_of_bytes_is_their_beginning(bytes: Seq<u8>)
    ensures
        bytes.len() == 0 ==> routing::byte_key(bytes) == "empty-doc"@,
        0 < bytes.len() <= 64 ==> routing::byte_key(bytes) == text::hex_of(bytes),
        bytes.len() > 64 ==> routing::byte_key(bytes) == text::hex_of(bytes.subrange(0, 64)),
{
}

// ---------------------------------------------------------------------------
// Cores and workers
// ---------------------------------------------------------------------------

/// Ordinals go round the cores: each of the first has its own, and the next round begins again.
pub proof fn law_ordinals_go_round_the_cores(layout: CoreLayout, ordinal: usize)
    ensures
        layout.pinnable().len() == 0 ==> layout.core_of(ordinal) is None,
        ordinal < layout.pinnable().len() ==> layout.core_of(ordinal) == Some(
            layout.pinnable()[ordinal as int],
        ),
        layout.pinnable().len() > 0 && ordinal + layout.pinnable().len() <= usize::MAX
            ==> layout.core_of((ordinal + layout.pinnable().len()) as usize) == layout.core_of(
            ordinal,
        ),
{
    let n = layout.pinnable().len() as int;
    if n > 0 {
        if ordinal < n {
            vstd::arithmetic::div_mod::lemma_small_mod(ordinal as nat, n as nat);
        }
        vstd::arithmetic::div_mod::lemma_mod_add_multiples_vanish(ordinal as int, n);
        assert((n + ordinal as int) % n == ordinal as int % n);
    }
}

/// A pool that keeps to the cores has a worker for each; another has two for each shard, but no more
/// than two for each core, and never none.
pub proof fn law_a_pool_fits_its_work(cores: int, shards: int)
    requires
        cores >= 1,
        shards >= 0,
    ensures
        placement::pool_size(true, cores, shards) == cores,
        placement::pool_size(false, cores, shards) >= 1,
        placement::pool_size(false, cores, shards) <= 2 * cores,
        1 <= shards <= cores ==> placement::pool_size(false, cores, shards) == 2 * shards,
        shards > cores ==> placement::pool_size(false, cores, shards) == 2 * cores,
        shards == 0 ==> placement::pool_size(false, cores, shards) == 1,
{
}

/// As many shards are opened at once as there are, a quarter of the processors at most, but two where
/// there are two, and never none.
pub proof fn law_shards_are_opened_a_few_at_once(cpus: int, shards: int)
    requires
        cpus >= 0,
        shards >= 0,
    ensures
        placement::hydration_width(cpus, shards) >= 1,
        shards <= 1 ==> placement::hydration_width(cpus, shards) == 1,
        shards >= 2 && cpus < 8 ==> placement::hydration_width(cpus, shards) == 2,
        cpus >= 8 && shards >= cpus / 4 ==> placement::hydration_width(cpus, shards) == cpus / 4,
        1 <= shards <= 2 || 1 <= shards <= cpus / 4 ==> placement::hydration_width(cpus, shards)
            == shards,
{
}

/// A worker that reports a core is pinned to it; one that reports none is not pinned.
pub proof fn law_a_report_names_the_core(report: i64)
    ensures
        report == -1 ==> placement::pinned_to(report) is None,
        0 <= report <= usize::MAX ==> placement::pinned_to(report) == Some(report as usize),
{
}

/// A shard's place is the first slot that holds it, and it has none where no slot does.
pub proof fn law_a_shard_has_the_slot_that_holds_it(slots: Seq<ShardSlot>, shard: u128, from: int)
    requires
        0 <= from,
    ensures
        placement::slot_place(slots, shard, from) matches Some(place) ==> from <= place < slots.len()
            && slots[place].shard == shard && forall|j: int|
            from <= j < place ==> (#[trigger] slots[j]).shard != shard,
        placement::slot_place(slots, shard, from) is None ==> forall|j: int|
            from <= j < slots.len() ==> (#[trigger] slots[j]).shard != shard,
    decreases slots.len() - from,
{
    if from < slots.len() && slots[from].shard != shard {
        law_a_shard_has_the_slot_that_holds_it(slots, shard, from + 1);
    }
}

/// A job is counted where it is: in the queue once it is taken, in flight once it is started, done once
/// it is finished, and nowhere else.
pub proof fn law_a_job_is_counted_where_it_is(load: WorkerLoad)
    ensures
        load.queue_depth < usize::MAX ==> load.with_queued().queue_depth == load.queue_depth + 1,
        load.with_queued().in_flight == load.in_flight,
        load.with_queued().jobs_completed == load.jobs_completed,
        load.queue_depth > 0 ==> load.with_started().queue_depth == load.queue_depth - 1,
        load.in_flight < usize::MAX ==> load.with_started().in_flight == load.in_flight + 1,
        load.with_started().jobs_completed == load.jobs_completed,
        load.in_flight > 0 ==> load.with_finished().in_flight == load.in_flight - 1,
        load.jobs_completed < u64::MAX ==> load.with_finished().jobs_completed == load.jobs_completed
            + 1,
        load.with_finished().queue_depth == load.queue_depth,
        load.with_queued().pinned_core == load.pinned_core,
        load.with_started().pinned_core == load.pinned_core,
        load.with_finished().pinned_core == load.pinned_core,
{
}

/// A job that goes by turn is counted as such, and once more where every queue was full; the worker
/// that took it has one more in its queue.
pub proof fn law_a_job_by_turn_is_counted<J>(
    stats: DispatchStats,
    loads: Seq<WorkerLoad>,
    probe: Probe<J>,
)
    requires
        stats.round_robin_sends < u64::MAX,
        stats.actor_mailbox_fallbacks < u64::MAX,
    ensures
        ({
            let after = dispatch::counted_round_robin(stats, probe);
            &&& after.round_robin_sends == stats.round_robin_sends + 1
            &&& after.affine_sends == stats.affine_sends
            &&& after.affine_full_fallbacks == stats.affine_full_fallbacks
            &&& after.actor_mailbox_fallbacks == stats.actor_mailbox_fallbacks + (
            if probe matches Probe::Refused(back) && back.full {
                1int
            } else {
                0int
            })
        }),
        probe matches Probe::Delivered { worker, .. } ==> worker < loads.len()
            ==> dispatch::counted_load(loads, probe) == loads.update(
            worker as int,
            loads[worker as int].with_queued(),
        ),
        probe is Refused ==> dispatch::counted_load(loads, probe) == loads,
{
}

/// A job that keeps to its shard is counted as kept where the first worker took it, as fallen back
/// where another did or none could, and not at all where nobody listens; one without a shard is counted
/// by turn where it was taken.
pub proof fn law_a_kept_job_is_counted<J>(stats: DispatchStats, affine: bool, probe: Probe<J>)
    requires
        stats.round_robin_sends < u64::MAX,
        stats.affine_sends < u64::MAX,
        stats.affine_full_fallbacks < u64::MAX,
        stats.actor_mailbox_fallbacks < u64::MAX,
    ensures
        ({
            let after = dispatch::counted_affine(stats, affine, probe);
            let taken = probe is Delivered;
            let first = probe matches Probe::Delivered { offset: 0, .. };
            let full = probe matches Probe::Refused(back) && back.full;
            &&& after.affine_sends == stats.affine_sends + (if affine && first {
                1int
            } else {
                0int
            })
            &&& after.affine_full_fallbacks == stats.affine_full_fallbacks + (if affine && ((taken
                && !first) || full) {
                1int
            } else {
                0int
            })
            &&& after.round_robin_sends == stats.round_robin_sends + (if !affine && taken {
                1int
            } else {
                0int
            })
            &&& after.actor_mailbox_fallbacks == stats.actor_mailbox_fallbacks + (if full {
                1int
            } else {
                0int
            })
        }),
{
}

/// A job goes first to the worker of its shard, and by turn where it has none.
pub proof fn law_a_job_goes_first_to_its_shards_worker(
    ordinal: Option<int>,
    next_worker: int,
    workers: int,
)
    requires
        workers > 0,
    ensures
        ordinal is None ==> dispatch::first_tried(ordinal, next_worker, workers) == (
            next_worker,
            false,
        ),
        ordinal matches Some(at) ==> {
            let first = dispatch::first_tried(ordinal, next_worker, workers);
            &&& first.1
            &&& 0 <= first.0 < workers
            &&& 0 <= at < workers ==> first.0 == at
        },
{
    if let Some(at) = ordinal {
        vstd::arithmetic::div_mod::lemma_mod_bound(at, workers);
        if 0 <= at < workers {
            vstd::arithmetic::div_mod::lemma_small_mod(at as nat, workers as nat);
        }
    }
}

/// A job sent by turn is offered to the workers one after the other, from the one whose turn it is; it
/// is taken by the last that is asked, or comes back as it was from all of them, and the turn goes on.
pub proof fn law_a_job_by_turn_goes_round<J>(
    attempts: Seq<Attempt<J>>,
    workers: int,
    job: J,
    before: PoolCounters,
    after: PoolCounters,
    sent: Result<(), Undelivered<J>>,
)
    requires
        dispatch::is_turn_send(attempts, workers, job, before, after, sent),
        workers > 0,
    ensures
        attempts.len() > 0,
        forall|i: int|
            0 <= i < attempts.len() ==> (#[trigger] attempts[i]).job == job && attempts[i].worker == (
            before.next_worker + i) % workers,
        sent is Ok <==> attempts.last().answer is Taken,
        sent is Ok ==> forall|i: int|
            0 <= i < attempts.len() - 1 ==> !((#[trigger] attempts[i]).answer is Taken),
        sent matches Err(back) ==> back.job == job && attempts.len() == workers && (back.full
            <==> exists|i: int| 0 <= i < attempts.len() && (#[trigger] attempts[i]).answer is Full),
        before.next_worker < usize::MAX ==> after.next_worker == before.next_worker + 1,
        before.dispatch.round_robin_sends < u64::MAX ==> after.dispatch.round_robin_sends
            == before.dispatch.round_robin_sends + 1,
{
}

/// A job that keeps to its shard is offered first to that shard's worker, and then to the others in
/// turn; it takes no turn of its own.
pub proof fn law_a_kept_job_goes_round_from_its_worker<J>(
    attempts: Seq<Attempt<J>>,
    ordinal: Option<int>,
    workers: int,
    job: J,
    before: PoolCounters,
    after: PoolCounters,
    sent: Result<(), Undelivered<J>>,
)
    requires
        workers > 0,
        ordinal matches Some(at) ==> at >= 0,
        dispatch::is_affine_send(
            attempts,
            dispatch::first_tried(ordinal, before.next_worker as int, workers),
            workers,
            job,
            before,
            after,
            sent,
        ),
    ensures
        attempts.len() > 0,
        ordinal matches Some(at) ==> attempts[0].worker == at % workers && after.next_worker
            == before.next_worker,
        ordinal is None ==> attempts[0].worker == before.next_worker as int % workers,
        ordinal is None && before.next_worker < usize::MAX ==> after.next_worker == before.next_worker
            + 1,
        forall|i: int| 0 <= i < attempts.len() ==> (#[trigger] attempts[i]).job == job,
        sent is Ok <==> attempts.last().answer is Taken,
        sent matches Err(back) ==> back.job == job && attempts.len() == workers && (back.full
            <==> exists|i: int| 0 <= i < attempts.len() && (#[trigger] attempts[i]).answer is Full),
{
    if let Some(at) = ordinal {
        vstd::arithmetic::div_mod::lemma_mod_bound(at, workers);
        vstd::arithmetic::div_mod::lemma_small_mod((at % workers) as nat, workers as nat);
    }
    assert(attempts[0].job == job);
}

/// The pinned workers are those that report a core.
pub proof fn law_pinned_workers_are_counted(loads: Seq<WorkerLoad>)
    ensures
        dispatch::pinned_count(loads) == loads.filter(
            |load: WorkerLoad| load.pinned_core != -1,
        ).len(),
    decreases loads.len(),
{
    reveal(Seq::filter);
    if loads.len() > 0 {
        law_pinned_workers_are_counted(loads.drop_last());
    }
}

/// A balanced identifier is one whose directory holds no more shards than any other.
pub proof fn law_a_balanced_shard_fills_the_emptiest_directory(
    id: u128,
    shards: Seq<u128>,
    directories: nat,
    other: int,
)
    requires
        node::is_balanced(id, shards, directories),
        0 <= other < directories,
    ensures
        shards.filter(
            |shard: u128|
                routing::directory_of(shard, directories) == routing::directory_of(id, directories),
        ).len() <= shards.filter(
            |shard: u128| routing::directory_of(shard, directories) == other,
        ).len(),
{
    let own = routing::directory_of(id, directories);
    assert(routing::kept_in(shards, directories, own) <= routing::kept_in(
        shards,
        directories,
        other,
    ));
    assert(shards.filter(|shard: u128| routing::directory_of(shard, directories) == own)
        == shards.filter(
        |shard: u128|
            routing::directory_of(shard, directories) == routing::directory_of(id, directories),
    ));
}

/// A search for an identifier ends at the first that is balanced, and gives up only where none of those
/// drawn is.
pub proof fn law_the_first_balanced_identifier_is_taken(
    drawn: Seq<u128>,
    shards: Seq<u128>,
    directories: nat,
    attempts: nat,
    id: Option<u128>,
    i: int,
)
    requires
        node::is_search(drawn, shards, directories, attempts, id),
        0 <= i < drawn.len(),
    ensures
        drawn.len() <= attempts,
        id matches Some(found) ==> node::is_balanced(found, shards, directories) && drawn.last()
            == found && (i < drawn.len() - 1 ==> !node::is_balanced(drawn[i], shards, directories)),
        id is None ==> !node::is_balanced(drawn[i], shards, directories) && drawn.len() == attempts,
{
}

} // verus!
