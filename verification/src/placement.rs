//! Which core and which worker each shard of a node belongs to.

use vstd::prelude::*;
use vstd::string::*;
use crate::text;
use crate::text::uuid_text;

verus! {

/// How many commands a shard's writer thread may have waiting.
pub const SHARD_WRITER_CHANNEL_CAPACITY: usize = 1024;

/// How many requests to warm an index may wait. A dropped one costs nothing: the index warms on
/// its next commit or on its first query.
pub const WARM_REQUEST_CAPACITY: usize = 64;

/// How many jobs may wait for the whole worker pool.
pub const ORCHESTRATOR_WORKER_QUEUE_CAPACITY: usize = 4096;

/// How many operations one worker may have in flight at once.
pub const ORCHESTRATOR_WORKER_MAX_IN_FLIGHT: usize = 8;

/// A thread that is not pinned to any core reports this.
pub const UNPINNED: i64 = -1;

/// The cores a process may use when the machine does not say.
pub const ASSUMED_CORES: usize = 4;

// ---------------------------------------------------------------------------
// Cores
// ---------------------------------------------------------------------------

/// The cores this process may use, resolved once at startup.
///
/// A quota-limited process sees more cores than it will be given time on. The smaller number is
/// honoured, so that every placement decision counts the same cores.
#[derive(Debug)]
pub struct CoreLayout {
    budget: usize,
    cores: Vec<usize>,
}

impl CoreLayout {
    /// How many cores the process may use.
    pub closed spec fn core_budget(&self) -> usize {
        self.budget
    }

    /// The cores that a thread can be pinned to.
    pub closed spec fn pinnable(&self) -> Seq<usize> {
        self.cores@
    }

    /// Whether there is a core at least, and no more to pin to than there are to use.
    pub open spec fn wf(&self) -> bool {
        &&& self.core_budget() >= 1
        &&& self.pinnable().len() <= self.core_budget()
    }

    /// The core an ordinal belongs to, if threads can be pinned here.
    pub open spec fn core_of(&self, ordinal: usize) -> Option<usize> {
        if self.pinnable().len() == 0 {
            None
        } else {
            Some(self.pinnable()[ordinal as int % self.pinnable().len() as int])
        }
    }

    /// Resolves the layout from what the machine reports: how many threads may run at once, and
    /// which cores a thread can be pinned to.
    pub fn resolve(parallelism: Option<usize>, cores: Vec<usize>) -> (layout: CoreLayout)
        ensures
            layout.wf(),
            layout.core_budget() == (match parallelism {
                Some(0) => 1,
                Some(count) => count,
                None => ASSUMED_CORES,
            }),
            layout.pinnable() == (if cores@.len() <= layout.core_budget() {
                cores@
            } else {
                cores@.take(layout.core_budget() as int)
            }),
    {
        let reported: usize = match parallelism {
            Some(count) => count,
            None => ASSUMED_CORES,
        };
        let budget: usize = if reported == 0 {
            1
        } else {
            reported
        };
        let mut cores: Vec<usize> = cores;
        if cores.len() > budget {
            cores.truncate(budget);
        }
        CoreLayout { budget, cores }
    }

    /// Cores available for sizing decisions.
    pub fn budget(&self) -> (budget: usize)
        ensures
            budget == self.core_budget(),
    {
        self.budget
    }

    /// The core an ordinal maps to, or None when pinning is unavailable here.
    pub fn core_for(&self, ordinal: usize) -> (core: Option<usize>)
        ensures
            core == self.core_of(ordinal),
    {
        if self.cores.len() == 0 {
            None
        } else {
            Some(self.cores[ordinal % self.cores.len()])
        }
    }

    /// Whether a thread can be pinned here at all.
    pub fn pinning_available(&self) -> (available: bool)
        ensures
            available == (self.pinnable().len() > 0),
    {
        self.cores.len() > 0
    }
}

impl Clone for CoreLayout {
    fn clone(&self) -> (copy: CoreLayout)
        ensures
            copy.core_budget() == self.core_budget(),
            copy.pinnable() == self.pinnable(),
    {
        let cores: Vec<usize> = self.cores.clone();
        assert(cores@ =~= self.cores@);
        CoreLayout { budget: self.budget, cores }
    }
}

// ---------------------------------------------------------------------------
// Shards
// ---------------------------------------------------------------------------

/// A shard's place in the pool.
#[derive(Clone, Copy, Debug, PartialEq, Eq)]
pub struct ShardSlot {
    pub shard: u128,
    /// The core the writer thread is asked to take, if it is asked to take one.
    pub target_core: Option<usize>,
}

/// Dense, stable placement of a node's shards.
///
/// A shard is given an ordinal the first time it appears and keeps it. The ordinal chooses both
/// the worker that handles the shard's writes and the core its writer thread is pinned to, which
/// is what makes the two agree. A shard is placed before it starts, and serves only once it has
/// started: one that never starts keeps its ordinal and is never claimed.
#[derive(Debug)]
pub struct ShardPlacement {
    slots: Vec<ShardSlot>,
    live: Vec<u128>,
}

/// Where a shard stands among slots, counted from a place.
pub open spec fn slot_place(slots: Seq<ShardSlot>, shard: u128, from: int) -> Option<int>
    decreases slots.len() - from,
{
    if from < 0 || from >= slots.len() {
        None
    } else if slots[from].shard == shard {
        Some(from)
    } else {
        slot_place(slots, shard, from + 1)
    }
}

/// A slot found by its shard stands where it was found, and is the first for that shard.
proof fn lemma_slot_place(slots: Seq<ShardSlot>, shard: u128, from: int)
    requires
        0 <= from <= slots.len(),
    ensures
        match slot_place(slots, shard, from) {
            Some(place) => from <= place < slots.len() && slots[place].shard == shard && forall|
                i: int,
            |
                from <= i < place ==> #[trigger] slots[i].shard != shard,
            None => forall|i: int| from <= i < slots.len() ==> #[trigger] slots[i].shard != shard,
        },
    decreases slots.len() - from,
{
    if from < slots.len() && slots[from].shard != shard {
        lemma_slot_place(slots, shard, from + 1);
    }
}

/// A slot stands where its shard is, while shards are placed once.
proof fn lemma_slot_place_is(slots: Seq<ShardSlot>, shard: u128, place: int)
    requires
        placed_once(slots),
        0 <= place < slots.len(),
        slots[place].shard == shard,
    ensures
        slot_place(slots, shard, 0) == Some(place),
{
    lemma_slot_place(slots, shard, 0);
}

/// Whether no shard has two slots.
pub open spec fn placed_once(slots: Seq<ShardSlot>) -> bool {
    forall|i: int, j: int|
        0 <= i < j < slots.len() ==> #[trigger] slots[i].shard != #[trigger] slots[j].shard
}

/// One shard's place, as the pool reports it.
#[derive(Debug, Clone, PartialEq, Eq)]
pub struct ShardPlacementStats {
    pub shard_id: String,
    /// The shard's dense ordinal.
    pub ordinal: usize,
    /// Whether the shard started and takes work.
    pub serving: bool,
    /// The core the shard's writer thread was asked to take.
    pub target_core_id: Option<usize>,
    /// The core the writer thread is pinned to.
    pub core_id: Option<usize>,
}

/// The core a thread reports, if it is pinned.
pub open spec fn pinned_to(report: i64) -> Option<usize> {
    if report == UNPINNED {
        None
    } else {
        Some(report as usize)
    }
}

/// The core a thread reports, if it is pinned.
pub fn pinned_core(report: i64) -> (core: Option<usize>)
    ensures
        core == pinned_to(report),
{
    if report == UNPINNED {
        None
    } else {
        Some(report as usize)
    }
}

impl ShardPlacement {
    /// The slots in the order in which shards appeared.
    pub closed spec fn slots(&self) -> Seq<ShardSlot> {
        self.slots@
    }

    /// The shards that serve.
    pub closed spec fn live(&self) -> Set<u128> {
        self.live@.to_set()
    }

    /// The ordinal of a shard.
    pub open spec fn ordinal_of(&self, shard: u128) -> Option<int> {
        slot_place(self.slots(), shard, 0)
    }

    /// Whether no shard has two slots.
    pub open spec fn wf(&self) -> bool {
        placed_once(self.slots())
    }

    /// A placement of no shard.
    pub fn new() -> (placement: ShardPlacement)
        ensures
            placement.wf(),
            placement.slots() == Seq::<ShardSlot>::empty(),
            placement.live() == Set::<u128>::empty(),
    {
        let placement = ShardPlacement { slots: Vec::new(), live: Vec::new() };
        assert(placement.live@.to_set() =~= Set::<u128>::empty());
        placement
    }

    /// Finds the slot of a shard.
    fn find(&self, shard: u128) -> (place: Option<usize>)
        ensures
            match place {
                Some(at) => self.ordinal_of(shard) == Some(at as int) && at < self.slots@.len(),
                None => self.ordinal_of(shard) is None,
            },
    {
        let mut i: usize = 0;
        while i < self.slots.len()
            invariant
                i <= self.slots.len(),
                slot_place(self.slots@, shard, 0) == slot_place(self.slots@, shard, i as int),
            decreases self.slots.len() - i,
        {
            if self.slots[i].shard == shard {
                return Some(i);
            }
            i += 1;
        }
        None
    }

    /// Gives a shard its slot, or returns the one it already has.
    ///
    /// A shard that starts twice keeps the core its writer already took.
    pub fn assign(&mut self, shard: u128, layout: &CoreLayout, pin_writers: bool) -> (placed: (
        usize,
        ShardSlot,
    ))
        requires
            old(self).wf(),
        ensures
            final(self).wf(),
            final(self).live() == old(self).live(),
            final(self).ordinal_of(shard) == Some(placed.0 as int),
            placed.0 < final(self).slots().len(),
            placed.1 == final(self).slots()[placed.0 as int],
            old(self).ordinal_of(shard) is Some ==> final(self).slots() == old(self).slots(),
            old(self).ordinal_of(shard) is None ==> {
                &&& placed.0 == old(self).slots().len()
                &&& final(self).slots() == old(self).slots().push(
                    (ShardSlot {
                        shard,
                        target_core: if pin_writers {
                            layout.core_of(placed.0)
                        } else {
                            None
                        },
                    }),
                )
            },
    {
        if let Some(place) = self.find(shard) {
            return (place, self.slots[place]);
        }
        let ordinal: usize = self.slots.len();
        let target_core: Option<usize> = if pin_writers {
            layout.core_for(ordinal)
        } else {
            None
        };
        let slot = ShardSlot { shard, target_core };
        let ghost before = self.slots@;
        self.slots.push(slot);
        proof {
            lemma_slot_place(before, shard, 0);
            assert(placed_once(self.slots@));
            lemma_slot_place_is(self.slots@, shard, ordinal as int);
        }
        (ordinal, slot)
    }

    /// Marks a shard as serving, once it can take work.
    pub fn activate(&mut self, shard: u128)
        ensures
            final(self).slots() == old(self).slots(),
            final(self).live() == old(self).live().insert(shard),
    {
        let ghost before = self.live@;
        if !self.is_local(shard) {
            self.live.push(shard);
            assert(self.live@.to_set() =~= before.to_set().insert(shard)) by {
                assert forall|s: u128| #[trigger]
                    self.live@.to_set().contains(s) == before.to_set().insert(shard).contains(
                        s,
                    ) by {
                    if before.contains(s) {
                        let i = choose|i: int| 0 <= i < before.len() && before[i] == s;
                        assert(self.live@[i] == s);
                    }
                    assert(self.live@[before.len() as int] == shard);
                }
            }
        } else {
            assert(before.to_set() =~= before.to_set().insert(shard));
        }
    }

    /// The ordinal of a shard, if it has one.
    pub fn ordinal(&self, shard: u128) -> (ordinal: Option<usize>)
        ensures
            match ordinal {
                Some(at) => self.ordinal_of(shard) == Some(at as int) && at < self.slots().len(),
                None => self.ordinal_of(shard) is None,
            },
    {
        self.find(shard)
    }

    /// Whether this node serves a shard.
    pub fn is_local(&self, shard: u128) -> (local: bool)
        ensures
            local == self.live().contains(shard),
    {
        let mut i: usize = 0;
        while i < self.live.len()
            invariant
                i <= self.live.len(),
                forall|k: int| 0 <= k < i ==> self.live@[k] != shard,
            decreases self.live.len() - i,
        {
            if self.live[i] == shard {
                return true;
            }
            i += 1;
        }
        false
    }

    /// How many shards have an ordinal.
    pub fn len(&self) -> (count: usize)
        ensures
            count == self.slots().len(),
    {
        self.slots.len()
    }

    /// Where each shard sits, by ordinal, with the core its writer thread reports. A slot whose
    /// thread has reported nothing counts as unpinned.
    pub fn report(&self, pins: &Vec<i64>) -> (shards: Vec<ShardPlacementStats>)
        ensures
            shards@.len() == self.slots().len(),
            forall|i: int|
                0 <= i < shards@.len() ==> {
                    &&& (#[trigger] shards@[i]).shard_id@ == text::uuid_chars(self.slots()[i].shard)
                    &&& shards@[i].ordinal == i
                    &&& shards@[i].serving == self.live().contains(self.slots()[i].shard)
                    &&& shards@[i].target_core_id == self.slots()[i].target_core
                    &&& shards@[i].core_id == (if i < pins@.len() {
                        pinned_to(pins@[i])
                    } else {
                        None
                    })
                },
    {
        let mut shards: Vec<ShardPlacementStats> = Vec::new();
        let mut i: usize = 0;
        while i < self.slots.len()
            invariant
                i <= self.slots.len(),
                shards@.len() == i,
                forall|k: int|
                    0 <= k < i ==> {
                        &&& (#[trigger] shards@[k]).shard_id@ == text::uuid_chars(self.slots()[k].shard)
                        &&& shards@[k].ordinal == k
                        &&& shards@[k].serving == self.live().contains(self.slots()[k].shard)
                        &&& shards@[k].target_core_id == self.slots()[k].target_core
                        &&& shards@[k].core_id == (if k < pins@.len() {
                            pinned_to(pins@[k])
                        } else {
                            None
                        })
                    },
            decreases self.slots.len() - i,
        {
            let slot: ShardSlot = self.slots[i];
            let core_id: Option<usize> = if i < pins.len() {
                pinned_core(pins[i])
            } else {
                None
            };
            shards.push(
                ShardPlacementStats {
                    shard_id: uuid_text(slot.shard),
                    ordinal: i,
                    serving: self.is_local(slot.shard),
                    target_core_id: slot.target_core,
                    core_id,
                },
            );
            i += 1;
        }
        shards
    }
}

impl Clone for ShardPlacement {
    fn clone(&self) -> (copy: ShardPlacement)
        ensures
            copy.slots() == self.slots(),
            copy.live() == self.live(),
    {
        let slots: Vec<ShardSlot> = self.slots.clone();
        let live: Vec<u128> = self.live.clone();
        assert(slots@ =~= self.slots@);
        assert(live@ =~= self.live@);
        ShardPlacement { slots, live }
    }
}

impl Default for ShardPlacement {
    fn default() -> (placement: ShardPlacement)
        ensures
            placement.wf(),
            placement.slots() == Seq::<ShardSlot>::empty(),
            placement.live() == Set::<u128>::empty(),
    {
        ShardPlacement::new()
    }
}

/// Ordinals are dense: with a placement of `n` shards, every shard that has one has an ordinal
/// below `n`, and every number below `n` is the ordinal of exactly one shard.
pub proof fn law_ordinals_are_dense(placement: ShardPlacement, ordinal: int)
    requires
        placement.wf(),
        0 <= ordinal < placement.slots().len(),
    ensures
        placement.ordinal_of(placement.slots()[ordinal].shard) == Some(ordinal),
        forall|shard: u128| #[trigger]
            placement.ordinal_of(shard) == Some(ordinal) ==> shard
                == placement.slots()[ordinal].shard,
{
    lemma_slot_place_is(placement.slots(), placement.slots()[ordinal].shard, ordinal);
    assert forall|shard: u128| #[trigger]
        placement.ordinal_of(shard) == Some(ordinal) implies shard
        == placement.slots()[ordinal].shard by {
        lemma_slot_place(placement.slots(), shard, 0);
    }
}

/// A shard keeps its ordinal, and the core asked for it, whatever shards are placed after it.
pub proof fn law_an_ordinal_is_kept(slots: Seq<ShardSlot>, later: Seq<ShardSlot>, shard: u128)
    requires
        slot_place(slots, shard, 0) is Some,
    ensures
        slot_place(slots + later, shard, 0) == slot_place(slots, shard, 0),
        (slots + later)[slot_place(slots, shard, 0)->0] == slots[slot_place(slots, shard, 0)->0],
{
    lemma_slot_place(slots, shard, 0);
    lemma_slot_place(slots + later, shard, 0);
    let place = slot_place(slots, shard, 0)->0;
    assert((slots + later)[place] == slots[place]);
    let found = slot_place(slots + later, shard, 0)->0;
    if found < place {
        assert(slots[found].shard == (slots + later)[found].shard);
    }
}

// ---------------------------------------------------------------------------
// The worker pool
// ---------------------------------------------------------------------------

/// How the worker pool is laid out.
#[derive(Clone, Copy, Debug, PartialEq, Eq)]
pub struct PoolPlan {
    pub worker_count: usize,
    /// How many jobs may wait for each worker.
    pub queue_capacity: usize,
    /// Whether the worker of an ordinal and the writer of the shard with that ordinal share a
    /// core.
    pub core_aligned: bool,
    /// Whether worker threads are to be pinned.
    pub pin_workers: bool,
}

/// How many workers a pool has.
pub open spec fn pool_size(aligned: bool, cores: int, shards: int) -> int {
    if aligned {
        cores
    } else if shards * 2 < cores * 2 {
        if shards * 2 < 1 {
            1
        } else {
            shards * 2
        }
    } else if cores * 2 < 1 {
        1
    } else {
        cores * 2
    }
}

/// Lays out the worker pool.
///
/// With shard-affine dispatch and writer pinning both on, there is one worker for each core, so
/// that a worker and a writer of the same ordinal land on the same core. Otherwise there are two
/// for each shard, but no more than two for each core.
pub fn plan_pool(
    layout: &CoreLayout,
    local_shards: usize,
    shard_affine_dispatch: bool,
    writer_core_affinity: bool,
    worker_core_affinity: bool,
) -> (plan: PoolPlan)
    requires
        layout.wf(),
        layout.core_budget() * 2 <= usize::MAX,
    ensures
        plan.core_aligned == (shard_affine_dispatch && writer_core_affinity),
        plan.worker_count == pool_size(
            plan.core_aligned,
            layout.core_budget() as int,
            local_shards as int,
        ),
        plan.worker_count >= 1,
        plan.queue_capacity == (if plan.worker_count <= ORCHESTRATOR_WORKER_QUEUE_CAPACITY {
            ORCHESTRATOR_WORKER_QUEUE_CAPACITY as int / plan.worker_count as int
        } else {
            1
        }),
        plan.queue_capacity >= 1,
        plan.pin_workers == (plan.core_aligned && worker_core_affinity && layout.pinnable().len()
            > 0),
{
    let cores: usize = layout.budget();
    let core_aligned: bool = shard_affine_dispatch && writer_core_affinity;
    let worker_count: usize = if core_aligned {
        cores
    } else if local_shards < cores {
        if local_shards == 0 {
            1
        } else {
            local_shards * 2
        }
    } else {
        cores * 2
    };
    let share: usize = ORCHESTRATOR_WORKER_QUEUE_CAPACITY / worker_count;
    let queue_capacity: usize = if share == 0 {
        1
    } else {
        share
    };
    proof {
        let w = worker_count as int;
        if w <= 4096 {
            assert(4096int / w >= 1) by (nonlinear_arith)
                requires
                    1 <= w <= 4096,
            ;
        } else {
            assert(4096int / w == 0) by (nonlinear_arith)
                requires
                    w > 4096,
            ;
        }
    }
    let pin_workers: bool = core_aligned && worker_core_affinity && layout.pinning_available();
    PoolPlan { worker_count, queue_capacity, core_aligned, pin_workers }
}

/// In an aligned pool whose cores can all be pinned to, the worker that a shard's writes go to
/// and the shard's own writer thread are asked to take the same core.
pub proof fn law_worker_and_writer_share_a_core(layout: CoreLayout, ordinal: usize, workers: usize)
    requires
        layout.wf(),
        layout.pinnable().len() == layout.core_budget(),
        workers == pool_size(true, layout.core_budget() as int, 0),
    ensures
        layout.core_of((ordinal % workers) as usize) == layout.core_of(ordinal),
{
    let n = workers as int;
    assert((ordinal as int % n) % n == ordinal as int % n) by (nonlinear_arith)
        requires
            n >= 1,
            ordinal >= 0,
    ;
}

/// How many shards are opened at once: a quarter of the threads, two at least, and no more than
/// there are shards.
pub open spec fn hydration_width(cpus: int, shards: int) -> int {
    let quarter = if cpus / 4 < 2 {
        2
    } else {
        cpus / 4
    };
    let wanted = if quarter < shards {
        quarter
    } else {
        shards
    };
    if wanted < 1 {
        1
    } else {
        wanted
    }
}

/// How many shards are opened at once.
pub fn hydration_concurrency(cpus: usize, shards: usize) -> (width: usize)
    ensures
        width == hydration_width(cpus as int, shards as int),
{
    let quarter: usize = if cpus / 4 < 2 {
        2
    } else {
        cpus / 4
    };
    let wanted: usize = if quarter < shards {
        quarter
    } else {
        shards
    };
    if wanted < 1 {
        1
    } else {
        wanted
    }
}

/// How many threads serve reads: as many as the configuration says, and where it says none, half
/// of those that may run at once, two at least.
pub fn read_thread_count(search_threads: usize, cpus: usize) -> (threads: usize)
    ensures
        threads == (if search_threads > 0 {
            search_threads as int
        } else if cpus as int / 2 < 2 {
            2
        } else {
            cpus as int / 2
        }),
{
    if search_threads > 0 {
        search_threads
    } else if cpus / 2 < 2 {
        2
    } else {
        cpus / 2
    }
}

} // verus!
