//! Handing jobs to the worker pool.

use vstd::prelude::*;
use vstd::arithmetic::div_mod::*;
use crate::placement;
use crate::channels::{Attempt, Offer, Queues};
use crate::placement::{
    CoreLayout, ORCHESTRATOR_WORKER_MAX_IN_FLIGHT, ShardPlacement, ShardPlacementStats, UNPINNED,
    pinned_core,
};

verus! {

// ---------------------------------------------------------------------------
// Counters
// ---------------------------------------------------------------------------

/// What one worker has to do and has done. The counts wrap, as any running count does.
#[derive(Clone, Copy, Debug, PartialEq, Eq)]
pub struct WorkerLoad {
    /// Jobs in the worker's queue, not yet started.
    pub queue_depth: usize,
    /// Operations started and not yet answered.
    pub in_flight: usize,
    /// Jobs answered since startup.
    pub jobs_completed: u64,
    /// The core the worker's thread reports, or that it is unpinned.
    pub pinned_core: i64,
}

impl WorkerLoad {
    /// An idle worker that is not pinned.
    pub fn idle() -> (load: WorkerLoad)
        ensures
            load == (WorkerLoad {
                queue_depth: 0,
                in_flight: 0,
                jobs_completed: 0,
                pinned_core: UNPINNED,
            }),
    {
        WorkerLoad { queue_depth: 0, in_flight: 0, jobs_completed: 0, pinned_core: UNPINNED }
    }

    /// The load once a job has been queued.
    pub open spec fn with_queued(self) -> WorkerLoad {
        WorkerLoad { queue_depth: self.queue_depth.wrapping_add(1), ..self }
    }

    /// The load once a queued job has been started.
    pub open spec fn with_started(self) -> WorkerLoad {
        WorkerLoad {
            queue_depth: self.queue_depth.wrapping_sub(1),
            in_flight: self.in_flight.wrapping_add(1),
            ..self
        }
    }

    /// The load once a started job has been answered.
    pub open spec fn with_finished(self) -> WorkerLoad {
        WorkerLoad {
            in_flight: self.in_flight.wrapping_sub(1),
            jobs_completed: self.jobs_completed.wrapping_add(1),
            ..self
        }
    }

    /// Counts a job that was queued.
    pub fn queued(&mut self)
        ensures
            *final(self) == old(self).with_queued(),
    {
        self.queue_depth = self.queue_depth.wrapping_add(1);
    }

    /// Counts a job that the worker picked up.
    pub fn started(&mut self)
        ensures
            *final(self) == old(self).with_started(),
    {
        self.queue_depth = self.queue_depth.wrapping_sub(1);
        self.in_flight = self.in_flight.wrapping_add(1);
    }

    /// Counts a job that was answered.
    pub fn finished(&mut self)
        ensures
            *final(self) == old(self).with_finished(),
    {
        self.in_flight = self.in_flight.wrapping_sub(1);
        self.jobs_completed = self.jobs_completed.wrapping_add(1);
    }
}

/// A job that is queued, started and answered leaves no trace but one more completed.
pub proof fn law_a_job_leaves_the_load_as_it_was(load: WorkerLoad)
    ensures
        load.with_queued().with_started().with_finished() == (WorkerLoad {
            jobs_completed: load.jobs_completed.wrapping_add(1),
            ..load
        }),
{
}

/// How many operations a worker carries at once: what is asked for, one at least.
pub fn worker_width(max_in_flight: usize) -> (width: usize)
    ensures
        width == (if max_in_flight == 0 {
            1
        } else {
            max_in_flight
        }),
{
    if max_in_flight == 0 {
        1
    } else {
        max_in_flight
    }
}

/// How jobs reached the pool.
#[derive(Clone, Copy, Debug, PartialEq, Eq)]
pub struct DispatchStats {
    /// Jobs sent to the worker of their shard.
    pub affine_sends: u64,
    /// Jobs whose worker was full and which fell through to a neighbour.
    pub affine_full_fallbacks: u64,
    /// Jobs sent to the workers in turn.
    pub round_robin_sends: u64,
    /// Jobs that no worker had room for.
    pub actor_mailbox_fallbacks: u64,
}

impl DispatchStats {
    /// With one more job sent in turn.
    pub open spec fn with_round_robin(self) -> DispatchStats {
        DispatchStats { round_robin_sends: self.round_robin_sends.wrapping_add(1), ..self }
    }

    /// With one more job sent to the worker of its shard.
    pub open spec fn with_affine(self) -> DispatchStats {
        DispatchStats { affine_sends: self.affine_sends.wrapping_add(1), ..self }
    }

    /// With one more job that fell through to a neighbour.
    pub open spec fn with_fallback(self) -> DispatchStats {
        DispatchStats { affine_full_fallbacks: self.affine_full_fallbacks.wrapping_add(1), ..self }
    }

    /// With one more job that no worker had room for.
    pub open spec fn with_mailbox(self) -> DispatchStats {
        DispatchStats {
            actor_mailbox_fallbacks: self.actor_mailbox_fallbacks.wrapping_add(1),
            ..self
        }
    }

    /// No job yet.
    pub fn none() -> (stats: DispatchStats)
        ensures
            stats == (DispatchStats {
                affine_sends: 0,
                affine_full_fallbacks: 0,
                round_robin_sends: 0,
                actor_mailbox_fallbacks: 0,
            }),
    {
        DispatchStats {
            affine_sends: 0,
            affine_full_fallbacks: 0,
            round_robin_sends: 0,
            actor_mailbox_fallbacks: 0,
        }
    }
}

/// The running counts of a pool.
#[derive(Debug, PartialEq, Eq)]
pub struct PoolCounters {
    /// The worker that the next unkeyed job starts from.
    pub next_worker: usize,
    pub dispatch: DispatchStats,
    pub workers: Vec<WorkerLoad>,
}

impl PoolCounters {
    /// The counts of a pool that has done nothing yet.
    pub fn idle(worker_count: usize) -> (counters: PoolCounters)
        ensures
            counters.next_worker == 0,
            counters.dispatch == (DispatchStats {
                affine_sends: 0,
                affine_full_fallbacks: 0,
                round_robin_sends: 0,
                actor_mailbox_fallbacks: 0,
            }),
            counters.workers@ == Seq::new(
                worker_count as nat,
                |i: int|
                    WorkerLoad {
                        queue_depth: 0,
                        in_flight: 0,
                        jobs_completed: 0,
                        pinned_core: UNPINNED,
                    },
            ),
    {
        let mut workers: Vec<WorkerLoad> = Vec::new();
        let ghost wanted = Seq::new(
            worker_count as nat,
            |i: int|
                WorkerLoad {
                    queue_depth: 0,
                    in_flight: 0,
                    jobs_completed: 0,
                    pinned_core: UNPINNED,
                },
        );
        let mut i: usize = 0;
        while i < worker_count
            invariant
                i <= worker_count,
                wanted == Seq::new(
                    worker_count as nat,
                    |i: int|
                        WorkerLoad {
                            queue_depth: 0,
                            in_flight: 0,
                            jobs_completed: 0,
                            pinned_core: UNPINNED,
                        },
                ),
                workers@ == wanted.take(i as int),
            decreases worker_count - i,
        {
            workers.push(WorkerLoad::idle());
            i += 1;
            assert(wanted.take(i as int) =~= wanted.take(i - 1).push(wanted[i - 1]));
        }
        assert(wanted.take(worker_count as int) =~= wanted);
        PoolCounters { next_worker: 0, dispatch: DispatchStats::none(), workers }
    }
}

// ---------------------------------------------------------------------------
// Trying the workers
// ---------------------------------------------------------------------------

/// A job that no worker took.
#[derive(Debug, PartialEq, Eq)]
pub struct Undelivered<J> {
    pub job: J,
    /// Whether some worker was full, rather than every worker gone.
    pub full: bool,
}

/// How the workers answered a job that was offered to one after the other.
#[derive(Debug, PartialEq, Eq)]
pub enum Probe<J> {
    /// A worker took it, this many past the first that was tried.
    Delivered { worker: usize, offset: usize },
    /// None took it.
    Refused(Undelivered<J>),
}

/// The worker that is tried at a place, counted from the first that is tried.
pub open spec fn worker_at(start: int, offset: int, workers: int) -> int {
    (start + offset) % workers
}

/// The worker that is tried at a place, counted from the first that is tried.
pub fn worker_tried(start: usize, offset: usize, workers: usize) -> (worker: usize)
    requires
        offset < workers,
    ensures
        worker == worker_at(start as int, offset as int, workers as int),
        worker < workers,
{
    let base: usize = start % workers;
    proof {
        let n = workers as int;
        lemma_add_mod_noop(start as int, offset as int, n);
        lemma_small_mod(offset as nat, n as nat);
        if base + offset < n {
            lemma_small_mod((base + offset) as nat, n as nat);
        } else {
            lemma_mod_add_multiples_vanish(base + offset - n, n);
            lemma_small_mod((base + offset - n) as nat, n as nat);
        }
    }
    if offset < workers - base {
        base + offset
    } else {
        offset - (workers - base)
    }
}

/// Every worker is tried once: two different places are two different workers, and each worker
/// has its place.
pub proof fn law_every_worker_is_tried_once(start: int, workers: int, a: int, b: int)
    requires
        0 <= start,
        0 <= a < workers,
        0 <= b < workers,
    ensures
        worker_at(start, a, workers) == worker_at(start, b, workers) ==> a == b,
        worker_at(start, (a - start) % workers, workers) == a,
        0 <= (a - start) % workers < workers,
{
    lemma_add_mod_noop(start, a, workers);
    lemma_add_mod_noop(start, b, workers);
    lemma_small_mod(a as nat, workers as nat);
    lemma_small_mod(b as nat, workers as nat);
    let base = start % workers;
    assert(0 <= base < workers) by (nonlinear_arith)
        requires
            workers > 0,
            base == start % workers,
    ;
    if base + a < workers {
        lemma_small_mod((base + a) as nat, workers as nat);
    } else {
        lemma_mod_add_multiples_vanish(base + a - workers, workers);
        lemma_small_mod((base + a - workers) as nat, workers as nat);
    }
    if base + b < workers {
        lemma_small_mod((base + b) as nat, workers as nat);
    } else {
        lemma_mod_add_multiples_vanish(base + b - workers, workers);
        lemma_small_mod((base + b - workers) as nat, workers as nat);
    }
    lemma_add_mod_noop(start, (a - start) % workers, workers);
    lemma_add_mod_noop(start, a - start, workers);
    lemma_mod_twice(a - start, workers);
    assert(0 <= (a - start) % workers < workers) by (nonlinear_arith)
        requires
            workers > 0,
    ;
}

/// Where a job goes once a worker has answered.
#[derive(Debug, PartialEq, Eq)]
pub enum ProbeStep<J> {
    /// The job is offered to the worker at this place next.
    Next { offset: usize, job: J, full: bool },
    /// The probe has ended.
    Done(Probe<J>),
}

/// Where a job that came back goes: to the next place, or nowhere once every place was tried.
pub open spec fn passed_on<J>(offset: usize, workers: usize, full: bool, job: J) -> ProbeStep<J> {
    if offset + 1 < workers {
        ProbeStep::Next { offset: (offset + 1) as usize, job, full }
    } else {
        ProbeStep::Done(Probe::Refused(Undelivered { job, full }))
    }
}

/// What becomes of a job once the worker at a place has answered: one that took it has it, and one
/// that is full or gone is passed over for its neighbour. Whether some worker was full is kept.
pub fn after_offer<J>(
    start: usize,
    offset: usize,
    workers: usize,
    full: bool,
    answer: Offer<J>,
) -> (next: ProbeStep<J>)
    requires
        offset < workers,
    ensures
        match answer {
            Offer::Taken => next == ProbeStep::Done(
                Probe::<J>::Delivered {
                    worker: worker_at(start as int, offset as int, workers as int) as usize,
                    offset,
                },
            ),
            Offer::Full(back) => next == passed_on(offset, workers, true, back),
            Offer::Closed(back) => next == passed_on(offset, workers, full, back),
        },
{
    let (job, full): (J, bool) = match answer {
        Offer::Taken => {
            let worker: usize = worker_tried(start, offset, workers);
            return ProbeStep::Done(Probe::Delivered { worker, offset });
        },
        Offer::Full(back) => (back, true),
        Offer::Closed(back) => (back, full),
    };
    if offset + 1 < workers {
        ProbeStep::Next { offset: offset + 1, job, full }
    } else {
        ProbeStep::Done(Probe::Refused(Undelivered { job, full }))
    }
}

/// Whether some worker was full.
pub open spec fn met_full<J>(attempts: Seq<Attempt<J>>) -> bool {
    exists|i: int| 0 <= i < attempts.len() && (#[trigger] attempts[i]).answer is Full
}

/// Whether the last worker that was tried took the job.
pub open spec fn was_taken<J>(attempts: Seq<Attempt<J>>) -> bool {
    attempts.len() > 0 && attempts.last().answer is Taken
}

/// Whether attempts are those of one probe: the job itself is offered to one worker after the other,
/// from the first on, as long as none takes it, and only once every worker was tried is it given up.
pub open spec fn is_round<J>(attempts: Seq<Attempt<J>>, start: int, workers: int, job: J) -> bool {
    &&& attempts.len() <= workers
    &&& forall|i: int|
        0 <= i < attempts.len() ==> (#[trigger] attempts[i]).worker == worker_at(start, i, workers)
            && attempts[i].job == job
    &&& forall|i: int| 0 <= i < attempts.len() - 1 ==> (#[trigger] attempts[i]).answer !is Taken
    &&& attempts.len() == workers || was_taken(attempts)
}

/// What attempts come to: the job is with the last worker that was tried, or it comes back, full
/// exactly where some worker was full.
pub open spec fn probe_of<J>(attempts: Seq<Attempt<J>>, job: J) -> Probe<J> {
    if was_taken(attempts) {
        Probe::Delivered {
            worker: attempts.last().worker as usize,
            offset: (attempts.len() - 1) as usize,
        }
    } else {
        Probe::Refused(Undelivered { job, full: met_full(attempts) })
    }
}

/// The attempts that were made between two moments.
pub open spec fn attempts_since<J>(before: Queues<J>, after: Queues<J>) -> Seq<Attempt<J>> {
    after.attempts().skip(before.attempts().len() as int)
}

/// Whether the queues are the same at two moments, with nothing taken out of their history.
pub open spec fn goes_on<J>(before: Queues<J>, after: Queues<J>) -> bool {
    &&& after.senders() == before.senders()
    &&& before.attempts().is_prefix_of(after.attempts())
}

/// Offers a job to every worker in turn, until one takes it.
fn probe_workers<J>(queues: &mut Queues<J>, start: usize, job: J) -> (probe: Probe<J>)
    requires
        old(queues).senders().len() > 0,
    ensures
        goes_on(*old(queues), *final(queues)),
        is_round(
            attempts_since(*old(queues), *final(queues)),
            start as int,
            old(queues).senders().len() as int,
            job,
        ),
        probe == probe_of(attempts_since(*old(queues), *final(queues)), job),
{
    let ghost given = *queues;
    let ghost first = job;
    let workers: usize = queues.len();
    let mut held: J = job;
    let mut full: bool = false;
    let mut offset: usize = 0;
    let ghost mut attempts: Seq<Attempt<J>> = Seq::empty();
    assert(queues.attempts() =~= given.attempts() + attempts);
    loop
        invariant
            offset < workers,
            given == *old(queues),
            first == job,
            workers == given.senders().len(),
            queues.senders() == given.senders(),
            queues.attempts() == given.attempts() + attempts,
            attempts.len() == offset,
            held == first,
            full == met_full(attempts),
            forall|i: int|
                0 <= i < attempts.len() ==> (#[trigger] attempts[i]).worker == worker_at(
                    start as int,
                    i,
                    workers as int,
                ) && attempts[i].job == first && attempts[i].answer !is Taken,
        decreases workers - offset,
    {
        let worker: usize = worker_tried(start, offset, workers);
        let answer: Offer<J> = queues.offer(worker, held);
        let ghost before = attempts;
        proof {
            let made = Attempt { worker: worker as int, job: first, answer };
            attempts = before.push(made);
            assert(given.attempts() + attempts =~= (given.attempts() + before).push(made));
            assert(attempts.last() == made);
            assert(queues.attempts().skip(given.attempts().len() as int) =~= attempts);
            assert(given.attempts().is_prefix_of(queues.attempts()));
            assert(met_full(attempts) == (met_full(before) || answer is Full)) by {
                if met_full(before) {
                    let i = choose|i: int|
                        0 <= i < before.len() && (#[trigger] before[i]).answer is Full;
                    assert(attempts[i].answer is Full);
                }
                if answer is Full {
                    assert(attempts[before.len() as int].answer is Full);
                }
                if met_full(attempts) {
                    let i = choose|i: int|
                        0 <= i < attempts.len() && (#[trigger] attempts[i]).answer is Full;
                    if i < before.len() {
                        assert(before[i].answer is Full);
                    }
                }
            }
        }
        match after_offer(start, offset, workers, full, answer) {
            ProbeStep::Next { offset: next, job: back, full: met } => {
                offset = next;
                held = back;
                full = met;
            },
            ProbeStep::Done(probe) => {
                return probe;
            },
        }
    }
}

/// The counts once a probe in turn has ended. A probe in turn counts as sent in turn whether or
/// not a worker took the job.
pub open spec fn counted_round_robin<J>(stats: DispatchStats, probe: Probe<J>) -> DispatchStats {
    match probe {
        Probe::Delivered { .. } => stats.with_round_robin(),
        Probe::Refused(back) => if back.full {
            stats.with_round_robin().with_mailbox()
        } else {
            stats.with_round_robin()
        },
    }
}

/// The counts once a probe that prefers the worker of a shard has ended. One that has no shard
/// to prefer counts as sent in turn, if some worker took the job.
pub open spec fn counted_affine<J>(stats: DispatchStats, affine: bool, probe: Probe<J>) ->
    DispatchStats {
    match probe {
        Probe::Delivered { worker: _, offset } => if !affine {
            stats.with_round_robin()
        } else if offset == 0 {
            stats.with_affine()
        } else {
            stats.with_fallback()
        },
        Probe::Refused(back) => if !back.full {
            stats
        } else if affine {
            stats.with_fallback().with_mailbox()
        } else {
            stats.with_mailbox()
        },
    }
}

/// The workers' loads once a probe has ended.
pub open spec fn counted_load<J>(loads: Seq<WorkerLoad>, probe: Probe<J>) -> Seq<WorkerLoad> {
    match probe {
        Probe::Delivered { worker, .. } => if worker < loads.len() {
            loads.update(worker as int, loads[worker as int].with_queued())
        } else {
            loads
        },
        Probe::Refused(_) => loads,
    }
}

/// Counts a job that was offered to the workers in turn.
pub fn count_round_robin<J>(counters: &mut PoolCounters, probe: &Probe<J>)
    ensures
        final(counters).next_worker == old(counters).next_worker,
        final(counters).dispatch == counted_round_robin(old(counters).dispatch, *probe),
        final(counters).workers@ == counted_load(old(counters).workers@, *probe),
{
    counters.dispatch.round_robin_sends = counters.dispatch.round_robin_sends.wrapping_add(1);
    match probe {
        Probe::Delivered { worker, .. } => {
            if *worker < counters.workers.len() {
                counters.workers[*worker].queued();
            }
        },
        Probe::Refused(back) => {
            if back.full {
                counters.dispatch.actor_mailbox_fallbacks =
                counters.dispatch.actor_mailbox_fallbacks.wrapping_add(1);
            }
        },
    }
}

/// Counts a job that was offered to the worker of its shard first.
pub fn count_affine<J>(counters: &mut PoolCounters, affine: bool, probe: &Probe<J>)
    ensures
        final(counters).next_worker == old(counters).next_worker,
        final(counters).dispatch == counted_affine(old(counters).dispatch, affine, *probe),
        final(counters).workers@ == counted_load(old(counters).workers@, *probe),
{
    match probe {
        Probe::Delivered { worker, offset } => {
            if *worker < counters.workers.len() {
                counters.workers[*worker].queued();
            }
            if !affine {
                counters.dispatch.round_robin_sends =
                counters.dispatch.round_robin_sends.wrapping_add(1);
            } else if *offset == 0 {
                counters.dispatch.affine_sends = counters.dispatch.affine_sends.wrapping_add(1);
            } else {
                counters.dispatch.affine_full_fallbacks =
                counters.dispatch.affine_full_fallbacks.wrapping_add(1);
            }
        },
        Probe::Refused(back) => {
            if back.full {
                if affine {
                    counters.dispatch.affine_full_fallbacks =
                    counters.dispatch.affine_full_fallbacks.wrapping_add(1);
                }
                counters.dispatch.actor_mailbox_fallbacks =
                counters.dispatch.actor_mailbox_fallbacks.wrapping_add(1);
            }
        },
    }
}

/// Where an unkeyed job or one of a shard is first offered, and whether that is the shard's own
/// worker. A shard with no ordinal is one this node does not own, so there is nothing to prefer.
pub open spec fn first_tried(ordinal: Option<int>, next_worker: int, workers: int) -> (int, bool) {
    match ordinal {
        Some(at) => (at % workers, true),
        None => (next_worker, false),
    }
}

/// Every shard has a worker of its own until there are more shards than workers.
pub proof fn law_shards_have_their_own_workers(one: int, other: int, next: int, workers: int)
    requires
        0 <= one < workers,
        0 <= other < workers,
        one != other,
    ensures
        first_tried(Some(one), next, workers).0 != first_tried(Some(other), next, workers).0,
{
    lemma_small_mod(one as nat, workers as nat);
    lemma_small_mod(other as nat, workers as nat);
}

/// The ordinal of the shard that a job is for, if it is for one that this node owns.
pub open spec fn shard_ordinal(placement: ShardPlacement, shard: Option<u128>) -> Option<int> {
    match shard {
        Some(id) => placement.ordinal_of(id),
        None => None,
    }
}

/// Whether attempts explain what came of a job offered to the workers in turn.
pub open spec fn is_turn_send<J>(
    attempts: Seq<Attempt<J>>,
    workers: int,
    job: J,
    before: PoolCounters,
    after: PoolCounters,
    sent: Result<(), Undelivered<J>>,
) -> bool {
    let probe = probe_of(attempts, job);
    &&& is_round(attempts, before.next_worker as int, workers, job)
    &&& sent == outcome_of(probe)
    &&& after.next_worker == before.next_worker.wrapping_add(1)
    &&& after.dispatch == counted_round_robin(before.dispatch, probe)
    &&& after.workers@ == counted_load(before.workers@, probe)
}

/// Whether attempts explain what came of a job offered to the worker of its shard first.
pub open spec fn is_affine_send<J>(
    attempts: Seq<Attempt<J>>,
    first: (int, bool),
    workers: int,
    job: J,
    before: PoolCounters,
    after: PoolCounters,
    sent: Result<(), Undelivered<J>>,
) -> bool {
    let probe = probe_of(attempts, job);
    &&& is_round(attempts, first.0, workers, job)
    &&& sent == outcome_of(probe)
    &&& after.next_worker == if first.1 {
        before.next_worker
    } else {
        before.next_worker.wrapping_add(1)
    }
    &&& after.dispatch == counted_affine(before.dispatch, first.1, probe)
    &&& after.workers@ == counted_load(before.workers@, probe)
}

/// A worker that has no room costs a job nothing but the way to its neighbour: a job is refused only
/// after every worker has answered and none took it, and one that is sent is with a worker that took
/// it, behind none but workers that did not.
pub proof fn law_a_worker_without_room_is_passed_over<J>(
    attempts: Seq<Attempt<J>>,
    start: int,
    workers: int,
    job: J,
    worker: int,
)
    requires
        0 <= start,
        0 <= worker < workers,
        is_round(attempts, start, workers, job),
    ensures
        outcome_of(probe_of(attempts, job)) is Ok ==> attempts.last().answer is Taken
            && attempts.last().job == job,
        outcome_of(probe_of(attempts, job)) is Err ==> exists|i: int|
            0 <= i < attempts.len() && (#[trigger] attempts[i]).worker == worker
                && attempts[i].answer !is Taken,
        forall|i: int|
            0 <= i < attempts.len() - 1 ==> (#[trigger] attempts[i]).answer !is Taken
                && attempts[i + 1].worker == worker_at(start, i + 1, workers),
{
    law_every_worker_is_tried_once(start, workers, worker, worker);
    if !was_taken(attempts) {
        let place = (worker - start) % workers;
        assert(attempts[place].worker == worker);
        if place == attempts.len() - 1 {
            assert(attempts.last().answer !is Taken);
        }
    }
}

// ---------------------------------------------------------------------------
// The pool
// ---------------------------------------------------------------------------

/// One worker, as the pool reports it.
#[derive(Debug, Clone, PartialEq, Eq)]
pub struct WorkerStats {
    pub id: usize,
    /// The core this worker was asked to take.
    pub target_core_id: Option<usize>,
    /// The core it is pinned to.
    pub core_id: Option<usize>,
    pub queue_depth: usize,
    pub queue_capacity: usize,
    pub in_flight: usize,
    pub in_flight_capacity: usize,
    pub jobs_completed: u64,
}

/// What a pool reports of itself.
#[derive(Debug, Clone, PartialEq, Eq)]
pub struct WorkerPoolReport {
    /// Whether pinned worker threads were asked for, where cores can be enumerated.
    pub pinning_requested: bool,
    /// Workers whose pin took.
    pub pinned_workers: usize,
    /// Whether a worker and the writer of the same ordinal share a core.
    pub core_aligned: bool,
    pub worker_count: usize,
    pub workers: Vec<WorkerStats>,
    /// Where each shard sits.
    pub shards: Vec<ShardPlacementStats>,
    pub dispatch: DispatchStats,
}

/// Asks for what the pool reports of itself.
#[derive(Clone, Copy, Debug, PartialEq, Eq)]
pub struct GetWorkerStats;

/// The queues of a pool, and what it was laid out with.
#[verifier::reject_recursive_types(J)]
pub struct OrchestratorWorkerTx<J> {
    pub workers: Queues<J>,
    /// How many jobs may wait for each worker.
    pub queue_capacity: usize,
    pub pinning_requested: bool,
    pub core_aligned: bool,
    pub core_layout: CoreLayout,
}

/// How many workers are pinned.
pub open spec fn pinned_count(loads: Seq<WorkerLoad>) -> nat
    decreases loads.len(),
{
    if loads.len() == 0 {
        0
    } else {
        pinned_count(loads.drop_last()) + if placement::pinned_to(loads.last().pinned_core) is Some {
            1nat
        } else {
            0nat
        }
    }
}

impl<J> OrchestratorWorkerTx<J> {
    /// How many workers the pool has.
    pub fn len(&self) -> (count: usize)
        ensures
            count == self.workers.senders().len(),
    {
        self.workers.len()
    }

    /// Whether everything but the history of the queues is the same at two moments.
    pub open spec fn keeps_layout(before: Self, after: Self) -> bool {
        &&& goes_on(before.workers, after.workers)
        &&& after.queue_capacity == before.queue_capacity
        &&& after.pinning_requested == before.pinning_requested
        &&& after.core_aligned == before.core_aligned
        &&& after.core_layout == before.core_layout
    }

    /// Offers a job to the workers in turn.
    ///
    /// Which worker takes it depends on which queues have room. A job that was sent was handed to a
    /// worker that took it. One that was not sent was offered to every worker, and comes back as it
    /// was.
    pub fn try_send(&mut self, job: J, counters: &mut PoolCounters) -> (sent: Result<
        (),
        Undelivered<J>,
    >)
        ensures
            Self::keeps_layout(*old(self), *final(self)),
            old(self).workers.senders().len() == 0 ==> *final(counters) == *old(counters)
                && final(self).workers.attempts() == old(self).workers.attempts() && sent
                == Err::<(), Undelivered<J>>((Undelivered { job, full: false })),
            old(self).workers.senders().len() > 0 ==> is_turn_send(
                attempts_since(old(self).workers, final(self).workers),
                old(self).workers.senders().len() as int,
                job,
                *old(counters),
                *final(counters),
                sent,
            ),
    {
        if self.workers.len() == 0 {
            return Err(Undelivered { job, full: false });
        }
        let start: usize = counters.next_worker;
        counters.next_worker = start.wrapping_add(1);
        let probe: Probe<J> = probe_workers(&mut self.workers, start, job);
        count_round_robin(counters, &probe);
        match probe {
            Probe::Delivered { .. } => Ok(()),
            Probe::Refused(back) => Err(back),
        }
    }

    /// Offers a job to the worker of its shard, and on from there.
    ///
    /// The same shard starts from the same worker, by the shard's ordinal. A full worker is
    /// passed over for its neighbour, so that affinity never costs throughput. A job that no
    /// worker takes comes back as it was.
    pub fn try_send_affine(
        &mut self,
        job: J,
        shard: Option<u128>,
        placement: &ShardPlacement,
        counters: &mut PoolCounters,
    ) -> (sent: Result<(), Undelivered<J>>)
        ensures
            Self::keeps_layout(*old(self), *final(self)),
            old(self).workers.senders().len() == 0 ==> *final(counters) == *old(counters)
                && final(self).workers.attempts() == old(self).workers.attempts() && sent
                == Err::<(), Undelivered<J>>((Undelivered { job, full: false })),
            old(self).workers.senders().len() > 0 ==> is_affine_send(
                attempts_since(old(self).workers, final(self).workers),
                first_tried(
                    shard_ordinal(*placement, shard),
                    old(counters).next_worker as int,
                    old(self).workers.senders().len() as int,
                ),
                old(self).workers.senders().len() as int,
                job,
                *old(counters),
                *final(counters),
                sent,
            ),
    {
        let workers: usize = self.workers.len();
        if workers == 0 {
            return Err(Undelivered { job, full: false });
        }
        let ordinal: Option<usize> = match shard {
            Some(id) => placement.ordinal(id),
            None => None,
        };
        let affine: bool = ordinal.is_some();
        let start: usize = match ordinal {
            Some(at) => at % workers,
            None => {
                let next: usize = counters.next_worker;
                counters.next_worker = next.wrapping_add(1);
                next
            },
        };
        let probe: Probe<J> = probe_workers(&mut self.workers, start, job);
        count_affine(counters, affine, &probe);
        match probe {
            Probe::Delivered { .. } => Ok(()),
            Probe::Refused(back) => Err(back),
        }
    }

    /// What the pool reports of itself.
    pub fn snapshot(&self, counters: &PoolCounters, shards: Vec<ShardPlacementStats>) -> (report:
        WorkerPoolReport)
        ensures
            report.pinning_requested == self.pinning_requested,
            report.core_aligned == self.core_aligned,
            report.worker_count == self.workers.senders().len(),
            report.shards == shards,
            report.dispatch == counters.dispatch,
            report.pinned_workers == pinned_count(counters.workers@),
            report.workers@ == Seq::new(
                counters.workers@.len(),
                |i: int| self.worker_report(i, counters.workers@[i]),
            ),
    {
        let mut workers: Vec<WorkerStats> = Vec::new();
        let mut pinned_workers: usize = 0;
        let mut i: usize = 0;
        let ghost all = counters.workers@;
        let ghost wanted = Seq::new(all.len(), |i: int| self.worker_report(i, all[i]));
        while i < counters.workers.len()
            invariant
                i <= counters.workers.len(),
                all == counters.workers@,
                wanted == Seq::new(all.len(), |i: int| self.worker_report(i, all[i])),
                workers@ == wanted.take(i as int),
                pinned_workers == pinned_count(all.take(i as int)),
                pinned_workers <= i,
            decreases counters.workers.len() - i,
        {
            let load: WorkerLoad = counters.workers[i];
            let core_id: Option<usize> = pinned_core(load.pinned_core);
            if core_id.is_some() {
                pinned_workers += 1;
            }
            let target_core_id: Option<usize> = if self.pinning_requested {
                self.core_layout.core_for(i)
            } else {
                None
            };
            workers.push(
                WorkerStats {
                    id: i,
                    target_core_id,
                    core_id,
                    queue_depth: load.queue_depth,
                    queue_capacity: self.queue_capacity,
                    in_flight: load.in_flight,
                    in_flight_capacity: ORCHESTRATOR_WORKER_MAX_IN_FLIGHT,
                    jobs_completed: load.jobs_completed,
                },
            );
            i += 1;
            assert(wanted.take(i as int) =~= wanted.take(i - 1).push(wanted[i - 1]));
            assert(all.take(i as int).drop_last() =~= all.take(i - 1));
        }
        assert(wanted.take(all.len() as int) =~= wanted);
        assert(all.take(all.len() as int) =~= all);
        WorkerPoolReport {
            pinning_requested: self.pinning_requested,
            pinned_workers,
            core_aligned: self.core_aligned,
            worker_count: self.workers.len(),
            workers,
            shards,
            dispatch: counters.dispatch,
        }
    }

    /// What the pool reports of one worker.
    pub open spec fn worker_report(&self, id: int, load: WorkerLoad) -> WorkerStats {
        WorkerStats {
            id: id as usize,
            target_core_id: if self.pinning_requested {
                self.core_layout.core_of(id as usize)
            } else {
                None
            },
            core_id: placement::pinned_to(load.pinned_core),
            queue_depth: load.queue_depth,
            queue_capacity: self.queue_capacity,
            in_flight: load.in_flight,
            in_flight_capacity: ORCHESTRATOR_WORKER_MAX_IN_FLIGHT,
            jobs_completed: load.jobs_completed,
        }
    }
}

/// What a sender is told of a probe.
pub open spec fn outcome_of<J>(probe: Probe<J>) -> Result<(), Undelivered<J>> {
    match probe {
        Probe::Delivered { .. } => Ok(()),
        Probe::Refused(back) => Err(back),
    }
}

} // verus!
