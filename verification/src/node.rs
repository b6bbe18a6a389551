//! A node's own configuration, and the shards it holds.

use vstd::prelude::*;
use vstd::string::*;
use crate::{order, routing, text};
use crate::chance::IdSource;
use crate::errors::{ErrorV, IoKind, OrchestratorError};
use crate::grouping::holds_id;
use crate::order::{places_by_key, rearranged};
use crate::routing::balances;
use crate::text::{chars_of, join_texts, parse_uuid, starts_with_part, text_of, uuid_text};

verus! {

// ---------------------------------------------------------------------------
// Configuration
// ---------------------------------------------------------------------------

/// The configuration of a node.
#[derive(Debug, Clone, PartialEq, Eq)]
pub struct NodeConfig {
    /// Where all data of the node is kept.
    pub storage_path: String,
    /// Where shards may be kept.
    pub storage_paths: Vec<String>,
    /// How many shards the node may hold.
    pub max_shards: usize,
    pub indexer_memory_min_mb: usize,
    pub indexer_memory_max_mb: usize,
    pub total_memory_limit_mb: usize,
    pub memory_pressure_threshold_percent: u8,
    /// How many threads serve reads.
    pub search_threads: usize,
    /// Whether every write is flushed to disk.
    pub wal_sync: bool,
    pub default_batch_size: usize,
    pub indexer_num_threads: usize,
    pub merge_num_threads: usize,
    /// How long a writer thread may take to finish what waits when the node stops.
    pub writer_shutdown_timeout_secs: u64,
    /// How long an index may go without a write before it is committed.
    pub supervisor_timeout_secs: u64,
    /// Whether writer threads are pinned to cores. Where they are not, the scheduler decides.
    pub writer_core_affinity: bool,
    /// Whether a shard's operations go to the same worker.
    pub shard_affine_dispatch: bool,
    /// Whether workers are pinned to cores.
    pub worker_core_affinity: bool,
}

impl Default for NodeConfig {
    fn default() -> (config: NodeConfig)
        ensures
            config.storage_path@ == "./data/cameodb"@,
            text::texts(config.storage_paths@) == seq!["./data/cameodb"@],
            config.max_shards == 8,
            config.indexer_memory_min_mb == 16,
            config.indexer_memory_max_mb == 256,
            config.total_memory_limit_mb == 2048,
            config.memory_pressure_threshold_percent == 80,
            config.search_threads == 8,
            config.wal_sync,
            config.default_batch_size == 1000,
            config.indexer_num_threads == 1,
            config.merge_num_threads == 2,
            config.writer_shutdown_timeout_secs == 30,
            config.supervisor_timeout_secs == 5,
            !config.writer_core_affinity,
            !config.shard_affine_dispatch,
            !config.worker_core_affinity,
    {
        let mut storage_paths: Vec<String> = Vec::new();
        storage_paths.push(String::from_str("./data/cameodb"));
        assert(text::texts(storage_paths@) =~= seq!["./data/cameodb"@]);
        NodeConfig {
            storage_path: String::from_str("./data/cameodb"),
            storage_paths,
            max_shards: 8,
            indexer_memory_min_mb: 16,
            indexer_memory_max_mb: 256,
            total_memory_limit_mb: 2048,
            memory_pressure_threshold_percent: 80,
            search_threads: 8,
            wal_sync: true,
            default_batch_size: 1000,
            indexer_num_threads: 1,
            merge_num_threads: 2,
            writer_shutdown_timeout_secs: 30,
            supervisor_timeout_secs: 5,
            writer_core_affinity: false,
            shard_affine_dispatch: false,
            worker_core_affinity: false,
        }
    }
}

impl NodeConfig {
    /// Where shards may be kept: the paths that are listed, or the node's own where none is.
    pub fn storage_path_candidates(&self) -> (paths: Vec<String>)
        ensures
            text::texts(paths@) == (if self.storage_paths@.len() == 0 {
                seq![self.storage_path@]
            } else {
                text::texts(self.storage_paths@)
            }),
    {
        if self.storage_paths.len() == 0 {
            let mut paths: Vec<String> = Vec::new();
            paths.push(self.storage_path.clone());
            assert(text::texts(paths@) =~= seq![self.storage_path@]);
            paths
        } else {
            crate::text::copy_texts(&self.storage_paths)
        }
    }

    /// What a shard kept at this path is opened with.
    pub fn shard_storage(&self, shard_path: &str) -> (config: StorageConfig)
        requires
            self.indexer_memory_min_mb * 1048576 <= usize::MAX,
            self.total_memory_limit_mb * 1048576 <= u64::MAX,
        ensures
            config.shard_path@ == shard_path@,
            config.indexer_memory_budget == self.indexer_memory_min_mb * 1048576,
            config.indexer_memory_min_mb == self.indexer_memory_min_mb,
            config.indexer_memory_max_mb == self.indexer_memory_max_mb,
            config.total_memory_limit_bytes == self.total_memory_limit_mb * 1048576,
            config.memory_pressure_threshold_percent == self.memory_pressure_threshold_percent,
            config.indexer_num_threads == self.indexer_num_threads,
            config.merge_num_threads == self.merge_num_threads,
            config.default_batch_size == self.default_batch_size,
            config.wal_sync == self.wal_sync,
    {
        StorageConfig {
            shard_path: String::from_str(shard_path),
            indexer_memory_budget: self.indexer_memory_min_mb * 1048576,
            indexer_memory_min_mb: self.indexer_memory_min_mb,
            indexer_memory_max_mb: self.indexer_memory_max_mb,
            total_memory_limit_bytes: self.total_memory_limit_mb as u64 * 1048576,
            memory_pressure_threshold_percent: self.memory_pressure_threshold_percent,
            indexer_num_threads: self.indexer_num_threads,
            merge_num_threads: self.merge_num_threads,
            default_batch_size: self.default_batch_size,
            wal_sync: self.wal_sync,
        }
    }
}

/// What a shard is opened with.
#[derive(Debug, Clone, PartialEq, Eq)]
pub struct StorageConfig {
    pub shard_path: String,
    /// How much memory a writer starts with, in bytes. It grows with the index, within the limits.
    pub indexer_memory_budget: usize,
    pub indexer_memory_min_mb: usize,
    pub indexer_memory_max_mb: usize,
    pub total_memory_limit_bytes: u64,
    pub memory_pressure_threshold_percent: u8,
    pub indexer_num_threads: usize,
    pub merge_num_threads: usize,
    pub default_batch_size: usize,
    pub wal_sync: bool,
}

// ---------------------------------------------------------------------------
// Shards
// ---------------------------------------------------------------------------

/// Whether an identifier belongs in the directory that keeps the fewest shards. Where there is no
/// directory to balance, any will do.
pub open spec fn is_balanced(id: u128, shards: Seq<u128>, directories: nat) -> bool {
    directories == 0 || routing::is_least_loaded(
        shards,
        directories,
        routing::directory_of(id, directories),
    )
}

/// Whether identifiers were drawn until one was balanced, up to a number of attempts, and this is
/// what came of it.
pub open spec fn is_search(
    drawn: Seq<u128>,
    shards: Seq<u128>,
    directories: nat,
    attempts: nat,
    id: Option<u128>,
) -> bool {
    &&& drawn.len() <= attempts
    &&& forall|i: int|
        0 <= i < drawn.len() - 1 ==> !is_balanced(#[trigger] drawn[i], shards, directories)
    &&& match id {
        Some(found) => drawn.len() > 0 && drawn.last() == found && is_balanced(
            found,
            shards,
            directories,
        ),
        None => drawn.len() == attempts && (attempts > 0 ==> !is_balanced(
            drawn.last(),
            shards,
            directories,
        )),
    }
}

/// Draws identifiers until one belongs in the directory that keeps the fewest shards, up to a number
/// of attempts. Where there is no directory to balance, the first one will do.
///
/// One in as many attempts as there are directories succeeds, on average.
pub fn generate_balanced_shard_id(
    shards: &Vec<u128>,
    directories: usize,
    attempts: u64,
    source: &mut IdSource,
) -> (id: Option<u128>)
    ensures
        old(source).drawn().is_prefix_of(final(source).drawn()),
        is_search(
            final(source).drawn().skip(old(source).drawn().len() as int),
            shards@,
            directories as nat,
            attempts as nat,
            id,
        ),
        id matches Some(drawn) ==> drawn / 0x1000_0000_0000_0000_0000u128 % 16 == 4,
        directories == 0 && attempts > 0 ==> id is Some,
{
    let ghost given = source.drawn();
    let ghost mut drawn: Seq<u128> = Seq::empty();
    let mut left: u64 = attempts;
    assert(source.drawn() =~= given + drawn);
    while left > 0
        invariant
            given == old(source).drawn(),
            source.drawn() == given + drawn,
            drawn.len() + left == attempts,
            forall|i: int|
                0 <= i < drawn.len() ==> !is_balanced(
                    #[trigger] drawn[i],
                    shards@,
                    directories as nat,
                ),
        decreases left,
    {
        let candidate: u128 = source.draw();
        proof {
            assert(given + drawn.push(candidate) =~= (given + drawn).push(candidate));
            drawn = drawn.push(candidate);
            assert(source.drawn().skip(given.len() as int) =~= drawn);
        }
        if balances(candidate, shards, directories) {
            return Some(candidate);
        }
        left -= 1;
    }
    assert(source.drawn().skip(given.len() as int) =~= drawn);
    assert(drawn.len() > 0 ==> !is_balanced(drawn[0], shards@, directories as nat));
    None
}

/// The shard that a directory keeps, by its name.
pub open spec fn shard_named(name: Seq<char>) -> Option<u128> {
    if text::begins_with(name, "shard-"@) {
        text::uuid_reading(name.skip(6))
    } else {
        None
    }
}

/// The shard that a directory keeps, by its name. A directory that was named for a shard keeps that
/// shard.
pub fn shard_of_directory(name: &str) -> (shard: Option<u128>)
    ensures
        shard == shard_named(name@),
        forall|id: u128| name@ == "shard-"@ + #[trigger] text::uuid_chars(id) ==> shard == Some(id),
{
    proof {
        reveal_strlit("shard-");
    }
    assert forall|id: u128| name@ == "shard-"@ + #[trigger] text::uuid_chars(id) implies text::begins_with(
        name@,
        "shard-"@,
    ) by {
        assert(name@.take(6) =~= "shard-"@);
    }
    if !starts_with_part(name, "shard-") {
        return None;
    }
    let chars: Vec<char> = chars_of(name);
    let rest: String = text_of(&chars, 6, chars.len());
    assert(rest@ =~= name@.skip(6));
    assert forall|id: u128| name@ == "shard-"@ + #[trigger] text::uuid_chars(id) implies rest@ == text::uuid_chars(
        id,
    ) by {
        assert(rest@ =~= text::uuid_chars(id));
    }
    parse_uuid(rest.as_str())
}

/// The shards that some directories keep, each once, in the order of the directories.
pub open spec fn shards_named(names: Seq<Seq<char>>) -> Seq<u128>
    decreases names.len(),
{
    if names.len() == 0 {
        Seq::empty()
    } else {
        let before = shards_named(names.drop_last());
        match shard_named(names.last()) {
            Some(shard) => if before.contains(shard) {
                before
            } else {
                before.push(shard)
            },
            None => before,
        }
    }
}

/// The shards that some directories keep, each once, in the order of the directories.
pub fn discover_shards(names: &Vec<String>) -> (shards: Vec<u128>)
    ensures
        shards@ == shards_named(text::texts(names@)),
{
    let mut shards: Vec<u128> = Vec::new();
    let ghost all = text::texts(names@);
    let mut i: usize = 0;
    assert(shards@ =~= shards_named(all.take(0)));
    while i < names.len()
        invariant
            i <= names.len(),
            all == text::texts(names@),
            shards@ == shards_named(all.take(i as int)),
        decreases names.len() - i,
    {
        proof {
            assert(all.take(i + 1).drop_last() =~= all.take(i as int));
            assert(all.take(i + 1).last() == all[i as int]);
        }
        if let Some(shard) = shard_of_directory(names[i].as_str()) {
            if !holds_id(&shards, shard) {
                shards.push(shard);
            }
        }
        i += 1;
    }
    assert(all.take(names.len() as int) =~= all);
    shards
}

/// No shard is discovered twice, however many directories keep it.
pub proof fn law_no_shard_is_discovered_twice(names: Seq<Seq<char>>)
    ensures
        shards_named(names).no_duplicates(),
    decreases names.len(),
{
    if names.len() > 0 {
        law_no_shard_is_discovered_twice(names.drop_last());
    }
}

/// Identifiers, as keys to order by.
pub open spec fn id_keys(ids: Seq<u128>) -> Seq<(u64, u128)> {
    ids.map_values(|id: u128| (0u64, id))
}

/// Shards in the order of their identifiers, so that each has the same ordinal on every start.
pub fn in_id_order(shards: Vec<u128>) -> (ordered: Vec<u128>)
    ensures
        exists|order: Seq<int>| #[trigger]
            order::is_key_order(id_keys(shards@), order) && ordered@ == order::at_places(shards@, order),
{
    let mut keys: Vec<(u64, u128)> = Vec::new();
    let mut i: usize = 0;
    while i < shards.len()
        invariant
            i <= shards.len(),
            keys@ == id_keys(shards@).take(i as int),
        decreases shards.len() - i,
    {
        keys.push((0, shards[i]));
        i += 1;
        assert(keys@ =~= id_keys(shards@).take(i as int));
    }
    assert(keys@ =~= id_keys(shards@));
    let list: Vec<usize> = places_by_key(&keys);
    rearranged(shards, &list)
}

/// Whether a node that holds some shards may hold one more.
pub fn has_room(held: usize, max_shards: usize) -> (room: bool)
    ensures
        room == (held < max_shards),
{
    held < max_shards
}

/// The shards that started, in the order in which they were found.
pub open spec fn those_started<T>(found: Seq<(u128, Option<T>)>) -> Seq<(u128, T)>
    decreases found.len(),
{
    if found.len() == 0 {
        Seq::empty()
    } else {
        let before = those_started(found.drop_last());
        match found.last().1 {
            Some(shard) => before.push((found.last().0, shard)),
            None => before,
        }
    }
}

/// The shards that a node serves of those it found: the first that started, as many as it may hold.
pub fn shards_to_serve<T>(found: Vec<(u128, Option<T>)>, max_shards: usize) -> (served: Vec<
    (u128, T),
>)
    ensures
        served@ == those_started(found@).take(
            if those_started(found@).len() < max_shards {
                those_started(found@).len() as int
            } else {
                max_shards as int
            },
        ),
{
    let mut served: Vec<(u128, T)> = Vec::new();
    let ghost all = found@;
    assert(all.take(0) =~= Seq::empty());
    assert(served@ =~= those_started(all.take(0)).take(0));
    for one in it: found
        invariant
            it.seq() == all,
            served@ == those_started(all.take(it.index() as int)).take(
                if those_started(all.take(it.index() as int)).len() < max_shards {
                    those_started(all.take(it.index() as int)).len() as int
                } else {
                    max_shards as int
                },
            ),
    {
        let ghost place = it.index() as int;
        let ghost before = those_started(all.take(place));
        assert(one == all[place]);
        assert(all.take(place + 1).drop_last() =~= all.take(place));
        let (id, shard) = one;
        if let Some(shard) = shard {
            let ghost kept = served@;
            assert(those_started(all.take(place + 1)) =~= before.push((id, shard)));
            if has_room(served.len(), max_shards) {
                served.push((id, shard));
                assert(served@ =~= before.push((id, shard)));
            }
            assert(served@ =~= those_started(all.take(place + 1)).take(
                if before.len() + 1 < max_shards {
                    (before.len() + 1) as int
                } else {
                    max_shards as int
                },
            ));
        }
    }
    assert(all.take(all.len() as int) =~= all);
    served
}

/// Whether a node may create a shard: not one that it holds, and no more than it may hold.
pub fn check_proposal(shards: &Vec<u128>, max_shards: usize, shard_id: u128) -> (verdict: Result<
    (),
    OrchestratorError,
>)
    ensures
        match verdict {
            Ok(()) => !shards@.contains(shard_id) && shards@.len() < max_shards,
            Err(error) => if shards@.contains(shard_id) {
                error@ == ErrorV::ShardAlreadyExists(shard_id)
            } else {
                shards@.len() >= max_shards && error@ == ErrorV::ShardLimitExceeded(
                    shards@.len() as usize,
                    max_shards,
                )
            },
        },
{
    if holds_id(shards, shard_id) {
        return Err(OrchestratorError::ShardAlreadyExists { shard_id });
    }
    if !has_room(shards.len(), max_shards) {
        return Err(
            OrchestratorError::ShardLimitExceeded { current: shards.len(), max: max_shards },
        );
    }
    Ok(())
}

/// The name that a shard goes by on the routing ring: the first digits of its identifier.
pub fn ring_name(shard_id: u128) -> (name: String)
    ensures
        name@ == text::uuid_chars(shard_id).take(3),
{
    let whole: String = uuid_text(shard_id);
    let chars: Vec<char> = chars_of(whole.as_str());
    assert(chars@.len() == 36);
    let name: String = text_of(&chars, 0, 3);
    assert(name@ =~= text::uuid_chars(shard_id).take(3));
    name
}

// ---------------------------------------------------------------------------
// Stopping
// ---------------------------------------------------------------------------

/// How stopping a shard ended.
#[derive(Debug, PartialEq, Eq)]
pub enum ShardStop {
    /// Everything was written and released.
    Done,
    /// The store reported a failure.
    StorageFailed(String),
    /// The work itself failed.
    TaskFailed(String),
    /// It took too long.
    TimedOut,
}

/// What is said of a shard that did not stop as it should.
pub open spec fn stop_note(shard_id: u128, stop: ShardStop) -> Option<Seq<char>> {
    match stop {
        ShardStop::Done => None,
        ShardStop::StorageFailed(error) => Some(
            "Shard "@ + text::uuid_chars(shard_id) + " storage shutdown error: "@ + error@,
        ),
        ShardStop::TaskFailed(error) => Some(
            "Shard "@ + text::uuid_chars(shard_id) + " shutdown task failed: "@ + error@,
        ),
        ShardStop::TimedOut => Some(
            "Shard "@ + text::uuid_chars(shard_id) + " storage shutdown timed out after 30s"@,
        ),
    }
}

/// What is said of the shards that did not stop as they should.
pub open spec fn stop_notes(stops: Seq<(u128, ShardStop)>) -> Seq<Seq<char>>
    decreases stops.len(),
{
    if stops.len() == 0 {
        Seq::empty()
    } else {
        let before = stop_notes(stops.drop_last());
        match stop_note(stops.last().0, stops.last().1) {
            Some(note) => before.push(note),
            None => before,
        }
    }
}

/// What stopping all shards of a node comes to.
pub fn stop_outcome(stops: &Vec<(u128, ShardStop)>) -> (outcome: Result<(), OrchestratorError>)
    ensures
        match outcome {
            Ok(()) => stop_notes(stops@).len() == 0,
            Err(error) => stop_notes(stops@).len() > 0 && error@ == ErrorV::Io(
                IoKind::Other,
                "Shutdown errors: "@ + text::joined(stop_notes(stops@), "; "@),
            ),
        },
{
    let ghost all = stops@;
    let mut notes: Vec<String> = Vec::new();
    let mut i: usize = 0;
    assert(text::texts(notes@) =~= stop_notes(all.take(0)));
    while i < stops.len()
        invariant
            i <= stops.len(),
            all == stops@,
            text::texts(notes@) == stop_notes(all.take(i as int)),
        decreases stops.len() - i,
    {
        proof {
            assert(all.take(i + 1).drop_last() =~= all.take(i as int));
            assert(all.take(i + 1).last() == all[i as int]);
        }
        let ghost before = notes@;
        let mut note: String = String::from_str("Shard ");
        note.append(uuid_text(stops[i].0).as_str());
        let said: bool = match &stops[i].1 {
            ShardStop::Done => false,
            ShardStop::StorageFailed(error) => {
                note.append(" storage shutdown error: ");
                note.append(error.as_str());
                true
            },
            ShardStop::TaskFailed(error) => {
                note.append(" shutdown task failed: ");
                note.append(error.as_str());
                true
            },
            ShardStop::TimedOut => {
                note.append(" storage shutdown timed out after 30s");
                true
            },
        };
        if said {
            notes.push(note);
            assert(text::texts(notes@) =~= text::texts(before).push(note@));
        }
        i += 1;
    }
    assert(all.take(stops.len() as int) =~= all);
    assert(text::texts(notes@).len() == notes@.len());
    if notes.len() == 0 {
        return Ok(());
    }
    let mut message: String = String::from_str("Shutdown errors: ");
    message.append(join_texts(&notes, "; ").as_str());
    Err(OrchestratorError::other(message.as_str()))
}

} // verus!
