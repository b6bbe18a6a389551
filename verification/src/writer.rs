//! What a shard's writer thread does with the commands that wait for it.

use vstd::prelude::*;
use vstd::string::*;
use crate::{broadcast, errors, json};
use crate::errors::{ErrorV, IoKind, OrchestratorError, StoreError};
use crate::broadcast::text_at;
use crate::channels::Inbox;
use crate::json::{Json, JsonV};
use crate::ops::{BatchWriteRequest, DocPayload, WriteRequest};
use crate::text::same_text;

verus! {

/// How many waiting commands are taken with the first one.
pub const MAX_DRAIN_PER_ITERATION: usize = 256;

/// One change to one document.
#[derive(Debug, Clone, PartialEq)]
pub enum WalOp {
    /// Writes a document under its key.
    Put { id: String, json_blob: Option<Json> },
    /// Removes the document under a key.
    Delete { id: String },
}

/// A command to a shard's writer thread, with where its answer goes.
#[allow(inconsistent_fields)]
#[derive(Debug, PartialEq)]
pub enum StorageCommand<R> {
    /// Writes one document.
    Write { index: String, op: WalOp, reply: R },
    /// Writes several documents.
    BatchWrite { index: String, ops: Vec<WalOp>, reply: R },
    /// Publishes what has been written.
    Commit { index: String, reply: R },
    /// Publishes what has been written and gives the writer up.
    EvictWriter { index: String, reply: R },
    /// Drops an index. It takes its turn among the writes, so that no write can recreate what was
    /// just removed.
    DeleteIndex { index: String, delete_schema: bool, reply: R },
    /// Ends the thread, once everything that waits has been done.
    Shutdown,
}

// ---------------------------------------------------------------------------
// Taking what waits
// ---------------------------------------------------------------------------

/// Takes up one answer of the queue behind the commands that were taken before, and says whether
/// another command may be taken: not once nothing waits, and not beyond the limit.
pub fn take_waiting<T>(commands: &mut Vec<T>, next: Option<T>) -> (more: bool)
    ensures
        match next {
            Some(command) => final(commands)@ == old(commands)@.push(command) && more == (
            final(commands)@.len() <= MAX_DRAIN_PER_ITERATION),
            None => final(commands)@ == old(commands)@ && !more,
        },
{
    match next {
        Some(command) => {
            commands.push(command);
            commands.len() <= MAX_DRAIN_PER_ITERATION
        },
        None => false,
    }
}

/// The commands among the answers of a queue, in the order in which it gave them.
pub open spec fn commands_in<T>(answers: Seq<Option<T>>) -> Seq<T>
    decreases answers.len(),
{
    if answers.len() == 0 {
        Seq::empty()
    } else {
        match answers.last() {
            Some(command) => commands_in(answers.drop_last()).push(command),
            None => commands_in(answers.drop_last()),
        }
    }
}

/// Whether answers of a queue are those of one round of taking: the queue is asked until nothing
/// waits or the limit is reached, and no longer.
pub open spec fn is_drain<T>(answers: Seq<Option<T>>) -> bool {
    &&& answers.len() <= MAX_DRAIN_PER_ITERATION
    &&& forall|i: int| 0 <= i < answers.len() - 1 ==> (#[trigger] answers[i]) is Some
    &&& answers.len() == MAX_DRAIN_PER_ITERATION || (answers.len() > 0 && answers.last() is None)
}

/// The first command and those that already wait behind it, up to a limit that keeps the answers
/// coming.
///
/// How many wait depends on what other threads have sent. Every command that the queue gives up is
/// there, in the order in which it was given, and the queue is asked until nothing waits or the
/// limit is reached.
pub fn drain_waiting<T>(first: T, inbox: &mut Inbox<T>) -> (commands: Vec<T>)
    ensures
        old(inbox).answers().is_prefix_of(final(inbox).answers()),
        is_drain(final(inbox).answers().skip(old(inbox).answers().len() as int)),
        commands@ == seq![first] + commands_in(
            final(inbox).answers().skip(old(inbox).answers().len() as int),
        ),
{
    let ghost given = inbox.answers();
    let mut commands: Vec<T> = Vec::new();
    commands.push(first);
    let mut more: bool = true;
    let ghost mut answers: Seq<Option<T>> = Seq::empty();
    assert(inbox.answers() =~= given + answers);
    assert(commands@ =~= seq![first] + commands_in(answers));
    while more
        invariant
            inbox.answers() == given + answers,
            commands@ == seq![first] + commands_in(answers),
            more ==> commands@.len() == answers.len() + 1 && answers.len()
                < MAX_DRAIN_PER_ITERATION,
            more ==> forall|i: int| 0 <= i < answers.len() ==> (#[trigger] answers[i]) is Some,
            !more ==> is_drain(answers),
        decreases MAX_DRAIN_PER_ITERATION - answers.len(), more as int,
    {
        let next: Option<T> = inbox.next_waiting();
        proof {
            assert(answers.push(next).drop_last() =~= answers);
            assert(given + answers.push(next) =~= (given + answers).push(next));
            answers = answers.push(next);
        }
        more = take_waiting(&mut commands, next);
        assert(commands@ =~= seq![first] + commands_in(answers));
    }
    assert(inbox.answers().skip(given.len() as int) =~= answers);
    commands
}

/// No command that the queue gave up is lost: each stands behind the first one, at the place that it
/// was given at.
pub proof fn law_every_command_taken_is_kept<T>(answers: Seq<Option<T>>, place: int)
    requires
        is_drain(answers),
        0 <= place < answers.len(),
        answers[place] is Some,
    ensures
        place < commands_in(answers).len(),
        commands_in(answers)[place] == answers[place]->0,
        commands_in(answers).len() == answers.len() || commands_in(answers).len() + 1
            == answers.len(),
{
    if answers.last() is None {
        lemma_all_commands(answers.drop_last());
    } else {
        lemma_all_commands(answers);
    }
}

/// Where every answer is a command, the commands are the answers.
proof fn lemma_all_commands<T>(answers: Seq<Option<T>>)
    requires
        forall|i: int| 0 <= i < answers.len() ==> (#[trigger] answers[i]) is Some,
    ensures
        commands_in(answers).len() == answers.len(),
        forall|i: int|
            0 <= i < answers.len() ==> #[trigger] commands_in(answers)[i] == answers[i]->0,
    decreases answers.len(),
{
    if answers.len() > 0 {
        lemma_all_commands(answers.drop_last());
    }
}

// ---------------------------------------------------------------------------
// Sorting commands
// ---------------------------------------------------------------------------

/// The things that stand under a name, none where the name is not there.
pub open spec fn group_under<T>(groups: Seq<(Seq<char>, Seq<T>)>, name: Seq<char>) -> Seq<T> {
    match json::value_under(groups, name) {
        Some(group) => group,
        None => Seq::empty(),
    }
}

/// Groups with one more thing in the group of its name.
pub open spec fn grouped_with<T>(groups: Seq<(Seq<char>, Seq<T>)>, name: Seq<char>, thing: T) -> Seq<
    (Seq<char>, Seq<T>),
> {
    json::with_entry(groups, name, group_under(groups, name).push(thing))
}

/// Groups, as values of the model.
pub open spec fn group_models<T>(groups: Seq<(String, Vec<T>)>) -> Seq<(Seq<char>, Seq<T>)> {
    groups.map_values(|group: (String, Vec<T>)| (group.0@, group.1@))
}

/// Adds a thing to the group of its name.
pub fn add_to_group<T>(groups: &mut Vec<(String, Vec<T>)>, name: String, thing: T)
    ensures
        group_models(final(groups)@) == grouped_with(group_models(old(groups)@), name@, thing),
{
    let ghost before = group_models(groups@);
    let mut i: usize = 0;
    proof {
        json::lemma_key_place(before, name@);
    }
    while i < groups.len()
        invariant
            i <= groups.len(),
            before == group_models(groups@),
            before == group_models(old(groups)@),
            0 <= json::key_place(before, name@) <= before.len(),
            json::key_place(before, name@) < before.len() ==> before[json::key_place(before, name@)].0 == name@,
            i <= json::key_place(before, name@),
        decreases groups.len() - i,
    {
        assert(before[i as int].0 == groups@[i as int].0@);
        if same_text(groups[i].0.as_str(), name.as_str()) {
            let ghost given = groups@;
            proof {
                json::lemma_key_place(before, name@);
                assert(json::key_place(before, name@) == i);
            }
            groups[i].1.push(thing);
            assert(group_models(groups@) =~= before.update(
                i as int,
                (name@, before[i as int].1.push(thing)),
            ));
            return;
        }
        proof {
            json::lemma_key_place(before, name@);
        }
        i += 1;
    }
    let mut group: Vec<T> = Vec::new();
    group.push(thing);
    let ghost added = name@;
    groups.push((name, group));
    assert(group_models(groups@) =~= before.push((added, Seq::empty().push(thing))));
}

/// What waits, sorted by what is done with it.
pub struct WriterRound<R> {
    /// Single writes by index, in the order in which they came.
    pub writes: Vec<(String, Vec<(WalOp, R)>)>,
    /// Batches by index, in the order in which they came.
    pub batches: Vec<(String, Vec<(Vec<WalOp>, R)>)>,
    pub commits: Vec<(String, R)>,
    pub evictions: Vec<(String, R)>,
    pub deletions: Vec<(String, bool, R)>,
    pub shutdown: bool,
}

/// What waits, as a value of the model.
pub struct RoundV<R> {
    pub writes: Seq<(Seq<char>, Seq<(WalOp, R)>)>,
    pub batches: Seq<(Seq<char>, Seq<(Vec<WalOp>, R)>)>,
    pub commits: Seq<(String, R)>,
    pub evictions: Seq<(String, R)>,
    pub deletions: Seq<(String, bool, R)>,
    pub shutdown: bool,
}

impl<R> View for WriterRound<R> {
    type V = RoundV<R>;

    open spec fn view(&self) -> RoundV<R> {
        RoundV {
            writes: group_models(self.writes@),
            batches: group_models(self.batches@),
            commits: self.commits@,
            evictions: self.evictions@,
            deletions: self.deletions@,
            shutdown: self.shutdown,
        }
    }
}

/// What waits, with one more command.
pub open spec fn round_with<R>(round: RoundV<R>, command: StorageCommand<R>) -> RoundV<R> {
    match command {
        StorageCommand::Write { index, op, reply } => RoundV {
            writes: grouped_with(round.writes, index@, (op, reply)),
            ..round
        },
        StorageCommand::BatchWrite { index, ops, reply } => RoundV {
            batches: grouped_with(round.batches, index@, (ops, reply)),
            ..round
        },
        StorageCommand::Commit { index, reply } => RoundV {
            commits: round.commits.push((index, reply)),
            ..round
        },
        StorageCommand::EvictWriter { index, reply } => RoundV {
            evictions: round.evictions.push((index, reply)),
            ..round
        },
        StorageCommand::DeleteIndex { index, delete_schema, reply } => RoundV {
            deletions: round.deletions.push((index, delete_schema, reply)),
            ..round
        },
        StorageCommand::Shutdown => RoundV { shutdown: true, ..round },
    }
}

/// Commands sorted by what is done with them.
pub open spec fn sorted_round<R>(commands: Seq<StorageCommand<R>>) -> RoundV<R>
    decreases commands.len(),
{
    if commands.len() == 0 {
        RoundV {
            writes: Seq::empty(),
            batches: Seq::empty(),
            commits: Seq::empty(),
            evictions: Seq::empty(),
            deletions: Seq::empty(),
            shutdown: false,
        }
    } else {
        round_with(sorted_round(commands.drop_last()), commands.last())
    }
}

/// Sorts the commands that wait.
///
/// Writes to one index are put together, so that they take one transaction. They are applied before
/// anything is published, given up or dropped, and the thread ends only after all of it.
pub fn sort_commands<R>(commands: Vec<StorageCommand<R>>) -> (round: WriterRound<R>)
    ensures
        round@ == sorted_round(commands@),
{
    let mut round: WriterRound<R> = WriterRound {
        writes: Vec::new(),
        batches: Vec::new(),
        commits: Vec::new(),
        evictions: Vec::new(),
        deletions: Vec::new(),
        shutdown: false,
    };
    let ghost all = commands@;
    assert(group_models(round.writes@) =~= Seq::empty());
    assert(group_models(round.batches@) =~= Seq::empty());
    assert(round@ == sorted_round(all.take(0)));
    for command in it: commands
        invariant
            it.seq() == all,
            round@ == sorted_round(all.take(it.index() as int)),
    {
        let ghost place = it.index() as int;
        assert(command == all[place]);
        assert(all.take(place + 1).drop_last() =~= all.take(place));
        assert(all.take(place + 1).last() == all[place]);
        match command {
            StorageCommand::Write { index, op, reply } => {
                add_to_group(&mut round.writes, index, (op, reply));
            },
            StorageCommand::BatchWrite { index, ops, reply } => {
                add_to_group(&mut round.batches, index, (ops, reply));
            },
            StorageCommand::Commit { index, reply } => {
                round.commits.push((index, reply));
            },
            StorageCommand::EvictWriter { index, reply } => {
                round.evictions.push((index, reply));
            },
            StorageCommand::DeleteIndex { index, delete_schema, reply } => {
                round.deletions.push((index, delete_schema, reply));
            },
            StorageCommand::Shutdown => {
                round.shutdown = true;
            },
        }
    }
    assert(all.take(all.len() as int) =~= all);
    round
}

/// The single writes to an index, in the order in which they came.
pub open spec fn writes_to<R>(commands: Seq<StorageCommand<R>>, index: Seq<char>) -> Seq<(WalOp, R)>
    decreases commands.len(),
{
    if commands.len() == 0 {
        Seq::empty()
    } else {
        let before = writes_to(commands.drop_last(), index);
        match commands.last() {
            StorageCommand::Write { index: name, op, reply } => if name@ == index {
                before.push((op, reply))
            } else {
                before
            },
            _ => before,
        }
    }
}

/// The batches for an index, in the order in which they came.
pub open spec fn batches_to<R>(commands: Seq<StorageCommand<R>>, index: Seq<char>) -> Seq<
    (Vec<WalOp>, R),
>
    decreases commands.len(),
{
    if commands.len() == 0 {
        Seq::empty()
    } else {
        let before = batches_to(commands.drop_last(), index);
        match commands.last() {
            StorageCommand::BatchWrite { index: name, ops, reply } => if name@ == index {
                before.push((ops, reply))
            } else {
                before
            },
            _ => before,
        }
    }
}

/// No write is lost, repeated or moved: what is put together for an index is exactly what was sent
/// to it, in the order in which it came.
pub proof fn law_no_write_is_lost<R>(commands: Seq<StorageCommand<R>>, index: Seq<char>)
    ensures
        group_under(sorted_round(commands).writes, index) == writes_to(commands, index),
        group_under(sorted_round(commands).batches, index) == batches_to(commands, index),
        json::keys_distinct(sorted_round(commands).writes),
        json::keys_distinct(sorted_round(commands).batches),
    decreases commands.len(),
{
    if commands.len() > 0 {
        let shorter = commands.drop_last();
        law_no_write_is_lost(shorter, index);
        let before = sorted_round(shorter);
        match commands.last() {
            StorageCommand::Write { index: name, op, reply } => {
                let group = group_under(before.writes, name@).push((op, reply));
                json::lemma_with_entry_read_back(before.writes, name@, group, index);
                json::lemma_with_entry_keeps_keys_distinct(before.writes, name@, group);
            },
            StorageCommand::BatchWrite { index: name, ops, reply } => {
                let group = group_under(before.batches, name@).push((ops, reply));
                json::lemma_with_entry_read_back(before.batches, name@, group, index);
                json::lemma_with_entry_keeps_keys_distinct(before.batches, name@, group);
            },
            _ => {},
        }
    }
}

// ---------------------------------------------------------------------------
// Answering writes that were put together
// ---------------------------------------------------------------------------

/// The changes of some writes, and where their answers go.
pub fn part_writes<R>(writes: Vec<(WalOp, R)>) -> (parted: (Vec<WalOp>, Vec<R>))
    ensures
        parted.0@ == writes@.map_values(|write: (WalOp, R)| write.0),
        parted.1@ == writes@.map_values(|write: (WalOp, R)| write.1),
{
    let mut ops: Vec<WalOp> = Vec::new();
    let mut replies: Vec<R> = Vec::new();
    for write in it: writes
        invariant
            it.seq() == writes@,
            ops@.len() == it.index(),
            replies@.len() == it.index(),
            forall|k: int| 0 <= k < it.index() ==> #[trigger] ops@[k] == writes@[k].0,
            forall|k: int| 0 <= k < it.index() ==> #[trigger] replies@[k] == writes@[k].1,
    {
        assert(write == writes@[it.index() as int]);
        let (op, reply) = write;
        ops.push(op);
        replies.push(reply);
    }
    assert(ops@ =~= writes@.map_values(|write: (WalOp, R)| write.0));
    assert(replies@ =~= writes@.map_values(|write: (WalOp, R)| write.1));
    (ops, replies)
}

/// Whether an answer is the one a caller is owed for its write, the one of several put together that
/// stands at this place.
pub open spec fn write_answer_is(
    answer: Result<u64, StoreError>,
    outcome: Result<Vec<u64>, StoreError>,
    place: int,
) -> bool {
    match outcome {
        Ok(sequences) => answer == Ok::<u64, StoreError>(sequences@[place]),
        Err(error) => answer matches Err(StoreError::Serialization(text)) && text@ == error.says(),
    }
}

/// Answers the callers of writes that were put together: each with its own sequence number, or all of
/// them with why the batch failed. A caller that the store gave no number goes unanswered.
pub fn answer_writes<R>(replies: Vec<R>, outcome: &Result<Vec<u64>, StoreError>) -> (answers: Vec<
    (R, Result<u64, StoreError>),
>)
    ensures
        answers@.len() == (match *outcome {
            Ok(sequences) => if sequences@.len() < replies@.len() {
                sequences@.len()
            } else {
                replies@.len()
            },
            Err(_) => replies@.len(),
        }),
        forall|i: int|
            0 <= i < answers@.len() ==> (#[trigger] answers@[i]).0 == replies@[i]
                && write_answer_is(answers@[i].1, *outcome, i),
{
    let mut answers: Vec<(R, Result<u64, StoreError>)> = Vec::new();
    let owed: usize = match outcome {
        Ok(sequences) => if sequences.len() < replies.len() {
            sequences.len()
        } else {
            replies.len()
        },
        Err(_) => replies.len(),
    };
    for reply in it: replies
        invariant
            it.seq() == replies@,
            owed <= replies@.len(),
            outcome matches Ok(sequences) ==> owed <= sequences@.len(),
            answers@.len() == (if it.index() < owed {
                it.index() as int
            } else {
                owed as int
            }),
            forall|i: int|
                0 <= i < answers@.len() ==> (#[trigger] answers@[i]).0 == replies@[i]
                    && write_answer_is(answers@[i].1, *outcome, i),
    {
        let place: usize = answers.len();
        if place < owed {
            assert(reply == replies@[place as int]);
            let answer: Result<u64, StoreError> = match outcome {
                Ok(sequences) => Ok(sequences[place]),
                Err(error) => Err(StoreError::Serialization(error.message().clone())),
            };
            answers.push((reply, answer));
        }
    }
    answers
}

/// The total of some counts.
pub open spec fn total_of(counts: Seq<usize>) -> nat
    decreases counts.len(),
{
    if counts.len() == 0 {
        0
    } else {
        total_of(counts.drop_last()) + counts.last() as nat
    }
}

/// A batch's share of the new documents of several put together, before the last one: in proportion
/// to its size, rounded down, and no more than is left.
pub open spec fn proportional_share(new_docs: usize, size: usize, total: nat, left: nat) -> nat {
    let share = if new_docs * size > usize::MAX || total == 0 {
        0
    } else {
        (new_docs * size) as nat / total
    };
    if share < left {
        share
    } else {
        left
    }
}

/// How many of the new documents are left once the first batches have their shares.
pub open spec fn left_after(counts: Seq<usize>, new_docs: usize, first: int) -> nat
    decreases first,
{
    if first <= 0 {
        new_docs as nat
    } else {
        let left = left_after(counts, new_docs, first - 1);
        (left - share_of(counts, new_docs, first - 1, left)) as nat
    }
}

/// The share of the batch at a place, given what is left for it. The last batch takes all of it.
pub open spec fn share_of(counts: Seq<usize>, new_docs: usize, place: int, left: nat) -> nat {
    if place == counts.len() - 1 {
        left
    } else {
        proportional_share(new_docs, counts[place], total_of(counts), left)
    }
}

/// What the batch at a place is answered: its own sequence numbers, and its share of the new
/// documents.
pub open spec fn batch_share(
    counts: Seq<usize>,
    sequences: Seq<u64>,
    new_docs: usize,
    place: int,
) -> (Seq<u64>, nat) {
    let from = total_of(counts.take(place));
    (
        sequences.subrange(from as int, (from + counts[place]) as int),
        share_of(counts, new_docs, place, left_after(counts, new_docs, place)),
    )
}

/// Shares out what was written for several batches put together.
pub fn share_out(counts: &Vec<usize>, sequences: &Vec<u64>, new_docs: usize) -> (shares: Vec<
    (Vec<u64>, usize),
>)
    requires
        total_of(counts@) <= sequences@.len(),
    ensures
        shares@.len() == counts@.len(),
        forall|i: int|
            0 <= i < shares@.len() ==> (#[trigger] shares@[i]).0@ == batch_share(
                counts@,
                sequences@,
                new_docs,
                i,
            ).0 && shares@[i].1 == batch_share(counts@, sequences@, new_docs, i).1,
{
    let mut total: usize = 0;
    let held: usize = sequences.len();
    let mut i: usize = 0;
    while i < counts.len()
        invariant
            i <= counts.len(),
            held == sequences@.len(),
            total_of(counts@) <= held,
            total == total_of(counts@.take(i as int)),
        decreases counts.len() - i,
    {
        assert(counts@.take(i + 1).drop_last() =~= counts@.take(i as int));
        proof {
            lemma_total_grows(counts@, i + 1);
        }
        total = total + counts[i];
        i += 1;
    }
    assert(counts@.take(counts.len() as int) =~= counts@);
    let mut shares: Vec<(Vec<u64>, usize)> = Vec::new();
    let mut offset: usize = 0;
    let mut left: usize = new_docs;
    let mut place: usize = 0;
    while place < counts.len()
        invariant
            place <= counts.len(),
            held == sequences@.len(),
            total == total_of(counts@),
            total <= held,
            offset == total_of(counts@.take(place as int)),
            left == left_after(counts@, new_docs, place as int),
            shares@.len() == place,
            forall|k: int|
                0 <= k < place ==> (#[trigger] shares@[k]).0@ == batch_share(
                    counts@,
                    sequences@,
                    new_docs,
                    k,
                ).0 && shares@[k].1 == batch_share(counts@, sequences@, new_docs, k).1,
        decreases counts.len() - place,
    {
        let size: usize = counts[place];
        proof {
            assert(counts@.take(place + 1).drop_last() =~= counts@.take(place as int));
            lemma_total_grows(counts@, place + 1);
        }
        let mut segment: Vec<u64> = Vec::new();
        let mut k: usize = 0;
        while k < size
            invariant
                k <= size,
                held == sequences@.len(),
                offset + size <= held,
                segment@ == sequences@.subrange(offset as int, offset + k),
            decreases size - k,
        {
            segment.push(sequences[offset + k]);
            k += 1;
            assert(segment@ =~= sequences@.subrange(offset as int, offset + k));
        }
        let share: usize = if place == counts.len() - 1 {
            left
        } else {
            let proportional: usize = match new_docs.checked_mul(size) {
                Some(product) => if total == 0 {
                    0
                } else {
                    product / total
                },
                None => 0,
            };
            if proportional < left {
                proportional
            } else {
                left
            }
        };
        assert(share == share_of(counts@, new_docs, place as int, left as nat));
        shares.push((segment, share));
        left = left - share;
        offset = offset + size;
        place += 1;
    }
    shares
}

/// The total of the first counts is at most that of all.
proof fn lemma_total_grows(counts: Seq<usize>, first: int)
    requires
        0 <= first <= counts.len(),
    ensures
        total_of(counts.take(first)) <= total_of(counts),
    decreases counts.len(),
{
    if first < counts.len() {
        let shorter = counts.drop_last();
        lemma_total_grows(shorter, first);
        assert(shorter.take(first) =~= counts.take(first));
    } else {
        assert(counts.take(first) =~= counts);
    }
}

/// The shares of the new documents among the first batches.
pub open spec fn shared_out(counts: Seq<usize>, new_docs: usize, first: int) -> nat
    decreases first,
{
    if first <= 0 {
        0
    } else {
        shared_out(counts, new_docs, first - 1) + share_of(
            counts,
            new_docs,
            first - 1,
            left_after(counts, new_docs, first - 1),
        )
    }
}

/// Every new document is counted once: the shares of several batches put together add up to what was
/// written, whatever their sizes.
pub proof fn law_shares_add_up(counts: Seq<usize>, new_docs: usize)
    requires
        counts.len() > 0,
    ensures
        shared_out(counts, new_docs, counts.len() as int) == new_docs,
{
    lemma_shared_and_left(counts, new_docs, counts.len() as int);
}

/// What has been shared out and what is left add up to all.
proof fn lemma_shared_and_left(counts: Seq<usize>, new_docs: usize, first: int)
    requires
        0 <= first <= counts.len(),
    ensures
        shared_out(counts, new_docs, first) + left_after(counts, new_docs, first) == new_docs,
        first == counts.len() && first > 0 ==> left_after(counts, new_docs, first) == 0,
    decreases first,
{
    if first > 0 {
        lemma_shared_and_left(counts, new_docs, first - 1);
    }
}

/// The sequence numbers of several batches put together are all handed out, each once and in order.
pub proof fn law_segments_join(counts: Seq<usize>, sequences: Seq<u64>, new_docs: usize, first: int)
    requires
        0 <= first <= counts.len(),
        total_of(counts) <= sequences.len(),
    ensures
        segments(counts, sequences, new_docs, first) == sequences.take(
            total_of(counts.take(first)) as int,
        ),
    decreases first,
{
    if first > 0 {
        law_segments_join(counts, sequences, new_docs, first - 1);
        assert(counts.take(first).drop_last() =~= counts.take(first - 1));
        lemma_total_grows(counts, first);
        let from = total_of(counts.take(first - 1)) as int;
        let to = total_of(counts.take(first)) as int;
        assert(sequences.take(to) =~= sequences.take(from) + sequences.subrange(from, to));
    } else {
        assert(counts.take(0) =~= Seq::empty());
        assert(sequences.take(0) =~= Seq::empty());
    }
}

/// The sequence numbers of the first batches, one after the other.
pub open spec fn segments(
    counts: Seq<usize>,
    sequences: Seq<u64>,
    new_docs: usize,
    first: int,
) -> Seq<u64>
    decreases first,
{
    if first <= 0 {
        Seq::empty()
    } else {
        segments(counts, sequences, new_docs, first - 1) + batch_share(
            counts,
            sequences,
            new_docs,
            first - 1,
        ).0
    }
}

// ---------------------------------------------------------------------------
// Requests as changes
// ---------------------------------------------------------------------------

/// The key that a document is written under: the one beside its body, and where that is empty the
/// one in its body.
pub open spec fn key_written(id: Seq<char>, doc: JsonV) -> Option<Seq<char>> {
    if id.len() > 0 {
        Some(id)
    } else {
        broadcast::text_of_value(doc.get("id"@))
    }
}

/// The change that a write asks for.
pub fn write_op(request: WriteRequest) -> (op: Result<(String, WalOp), OrchestratorError>)
    ensures
        match op {
            Ok((index, WalOp::Put { id, json_blob })) => {
                &&& index@ == request.index@
                &&& key_written(request.id@, request.doc@) == Some(id@)
                &&& json_blob == Some(request.doc)
            },
            Ok((_, WalOp::Delete { .. })) => false,
            Err(error) => key_written(request.id@, request.doc@) is None && error@ == ErrorV::Io(
                IoKind::InvalidData,
                "Document must be written with a non-empty 'id' beside its body"@,
            ),
        },
{
    let WriteRequest { index, id, routing_key: _, doc } = request;
    proof {
        reveal_strlit("");
        if id@.len() == 0 {
            assert(id@ =~= ""@);
        }
    }
    if !same_text(id.as_str(), "") {
        return Ok((index, WalOp::Put { id, json_blob: Some(doc) }));
    }
    let found: Option<String> = match text_at(&doc, "id") {
        Some(text) => Some(text.clone()),
        None => None,
    };
    match found {
        Some(key) => Ok((index, WalOp::Put { id: key, json_blob: Some(doc) })),
        None => Err(
            OrchestratorError::io(
                IoKind::InvalidData,
                String::from_str("Document must be written with a non-empty 'id' beside its body"),
            ),
        ),
    }
}

/// The change that a write of one document of a batch asks for.
pub open spec fn put_of(doc: DocPayload) -> WalOp {
    WalOp::Put { id: doc.id, json_blob: Some(doc.doc) }
}

/// The changes that a batch of writes asks for, in the order of its documents.
pub fn batch_ops(request: BatchWriteRequest) -> (ops: (String, Vec<WalOp>))
    ensures
        ops.0 == request.index,
        ops.1@ == request.docs@.map_values(|doc: DocPayload| put_of(doc)),
{
    let BatchWriteRequest { index, docs } = request;
    let mut ops: Vec<WalOp> = Vec::new();
    for doc in it: docs
        invariant
            it.seq() == docs@,
            ops@.len() == it.index(),
            forall|k: int| 0 <= k < it.index() ==> #[trigger] ops@[k] == put_of(docs@[k]),
    {
        assert(doc == docs@[it.index() as int]);
        ops.push(WalOp::Put { id: doc.id, json_blob: Some(doc.doc) });
    }
    assert(ops@ =~= docs@.map_values(|doc: DocPayload| put_of(doc)));
    (index, ops)
}

/// The changes that removing some documents asks for, in the order of their keys.
pub fn delete_ops(ids: Vec<String>) -> (ops: Vec<WalOp>)
    ensures
        ops@ == ids@.map_values(|id: String| WalOp::Delete { id }),
{
    let mut ops: Vec<WalOp> = Vec::new();
    for id in it: ids
        invariant
            it.seq() == ids@,
            ops@.len() == it.index(),
            forall|k: int|
                0 <= k < it.index() ==> #[trigger] ops@[k] == (WalOp::Delete { id: ids@[k] }),
    {
        assert(id == ids@[it.index() as int]);
        ops.push(WalOp::Delete { id });
    }
    assert(ops@ =~= ids@.map_values(|id: String| WalOp::Delete { id }));
    ops
}

/// What a failure of a search in the store comes to.
pub open spec fn search_failure(error: StoreError) -> ErrorV {
    match error {
        StoreError::Io { kind, message } => ErrorV::Io(kind, message@),
        StoreError::FieldNotFound(_) => ErrorV::Io(IoKind::InvalidInput, error.says()),
        StoreError::QueryParser(_) => ErrorV::Io(IoKind::InvalidInput, error.says()),
        _ => ErrorV::Io(IoKind::Other, error.says()),
    }
}

/// What a failure of a search in the store comes to.
///
/// A field the index does not carry, or a query it cannot parse, is the request's fault rather than
/// the node's, and the difference has to survive: everything downstream reads the kind to decide who
/// is at fault.
pub fn search_error(error: StoreError) -> (failure: OrchestratorError)
    ensures
        failure@ == search_failure(error),
{
    match error {
        StoreError::Io { kind, message } => OrchestratorError::io(kind, message),
        StoreError::FieldNotFound(e) => OrchestratorError::io(IoKind::InvalidInput, e),
        StoreError::QueryParser(e) => OrchestratorError::io(IoKind::InvalidInput, e),
        StoreError::InvalidFieldValue(e) => OrchestratorError::io(IoKind::Other, e),
        StoreError::Serialization(e) => OrchestratorError::io(IoKind::Other, e),
        StoreError::Other(e) => OrchestratorError::io(IoKind::Other, e),
    }
}

/// What any other failure in the store comes to: its kind is kept where it has one.
pub fn store_failure(error: StoreError) -> (failure: OrchestratorError)
    ensures
        failure@ == (match error {
            StoreError::Io { kind, message } => ErrorV::Io(kind, message@),
            _ => ErrorV::Io(IoKind::Other, error.says()),
        }),
{
    match error {
        StoreError::Io { kind, message } => OrchestratorError::io(kind, message),
        StoreError::FieldNotFound(e) => OrchestratorError::io(IoKind::Other, e),
        StoreError::QueryParser(e) => OrchestratorError::io(IoKind::Other, e),
        StoreError::InvalidFieldValue(e) => OrchestratorError::io(IoKind::Other, e),
        StoreError::Serialization(e) => OrchestratorError::io(IoKind::Other, e),
        StoreError::Other(e) => OrchestratorError::io(IoKind::Other, e),
    }
}

/// Where nothing of a query can be blamed on the node, the caller is told so: a search that a field
/// or the query itself makes impossible is a refusal.
pub proof fn law_a_bad_query_is_the_callers_fault(error: StoreError)
    ensures
        error is FieldNotFound || error is QueryParser ==> errors::blames_caller(search_failure(error)),
        error is Serialization || error is Other ==> !errors::blames_caller(search_failure(error)),
{
}

// ---------------------------------------------------------------------------
// Publishing an index that has gone quiet
// ---------------------------------------------------------------------------

/// Where the supervisor of an index stands.
#[derive(Clone, Copy, Debug, PartialEq, Eq, Structural)]
pub enum SupervisorState {
    /// It waits for a write or for the index to go quiet.
    Waiting,
    /// It hands a commit to the writer thread.
    Sending,
    /// It waits for the writer thread to answer.
    AwaitingReply,
    /// It has ended.
    Stopped,
}

/// What happens to the supervisor of an index.
#[derive(Clone, Copy, Debug, PartialEq, Eq, Structural)]
pub enum SupervisorEvent {
    /// The index was written to.
    Signal,
    /// The shard is shutting down.
    Closed,
    /// The index has been quiet for long enough.
    IdleTimeout,
    /// The writer thread took the commit.
    Sent,
    /// The writer thread is gone.
    SendFailed,
    /// The commit was made.
    Committed,
    /// The commit failed.
    CommitFailed,
    /// The writer thread ended before it answered.
    ReplyDropped,
}

/// What the supervisor of an index does next.
#[derive(Clone, Copy, Debug, PartialEq, Eq, Structural)]
pub enum SupervisorAction {
    /// Starts waiting anew.
    Wait,
    /// Sends a commit to the writer thread.
    SendCommit,
    /// Waits for the writer thread to answer.
    AwaitReply,
    /// Takes itself out of the map of supervisors and ends.
    RemoveAndStop,
    /// Ends.
    Stop,
}

/// Whether an event can happen to a supervisor that stands there.
pub open spec fn can_happen(state: SupervisorState, event: SupervisorEvent) -> bool {
    match state {
        SupervisorState::Waiting => event == SupervisorEvent::Signal || event
            == SupervisorEvent::Closed || event == SupervisorEvent::IdleTimeout,
        SupervisorState::Sending => event == SupervisorEvent::Sent || event
            == SupervisorEvent::SendFailed,
        SupervisorState::AwaitingReply => event == SupervisorEvent::Committed || event
            == SupervisorEvent::CommitFailed || event == SupervisorEvent::ReplyDropped,
        SupervisorState::Stopped => false,
    }
}

/// What the supervisor of an index does about an event.
pub open spec fn supervised(event: SupervisorEvent) -> (SupervisorState, SupervisorAction) {
    match event {
        SupervisorEvent::Signal => (SupervisorState::Waiting, SupervisorAction::Wait),
        SupervisorEvent::Closed => (SupervisorState::Stopped, SupervisorAction::Stop),
        SupervisorEvent::IdleTimeout => (SupervisorState::Sending, SupervisorAction::SendCommit),
        SupervisorEvent::Sent => (SupervisorState::AwaitingReply, SupervisorAction::AwaitReply),
        SupervisorEvent::SendFailed => (SupervisorState::Stopped, SupervisorAction::Stop),
        SupervisorEvent::Committed => (SupervisorState::Stopped, SupervisorAction::RemoveAndStop),
        SupervisorEvent::CommitFailed => (SupervisorState::Waiting, SupervisorAction::Wait),
        SupervisorEvent::ReplyDropped => (SupervisorState::Stopped, SupervisorAction::Stop),
    }
}

/// What the supervisor of an index does about an event.
///
/// It commits an index that has gone quiet. A commit that fails leaves it in place, to try again
/// once the index is quiet again; a shard that shuts down ends it without a commit.
pub fn supervise(state: SupervisorState, event: SupervisorEvent) -> (next: (
    SupervisorState,
    SupervisorAction,
))
    requires
        can_happen(state, event),
    ensures
        next == supervised(event),
{
    match event {
        SupervisorEvent::Signal => (SupervisorState::Waiting, SupervisorAction::Wait),
        SupervisorEvent::Closed => (SupervisorState::Stopped, SupervisorAction::Stop),
        SupervisorEvent::IdleTimeout => (SupervisorState::Sending, SupervisorAction::SendCommit),
        SupervisorEvent::Sent => (SupervisorState::AwaitingReply, SupervisorAction::AwaitReply),
        SupervisorEvent::SendFailed => (SupervisorState::Stopped, SupervisorAction::Stop),
        SupervisorEvent::Committed => (SupervisorState::Stopped, SupervisorAction::RemoveAndStop),
        SupervisorEvent::CommitFailed => (SupervisorState::Waiting, SupervisorAction::Wait),
        SupervisorEvent::ReplyDropped => (SupervisorState::Stopped, SupervisorAction::Stop),
    }
}

/// A supervisor takes itself out only once its index has been committed, and asks for a commit only
/// once the index has gone quiet.
pub proof fn law_a_supervisor_leaves_nothing_uncommitted(
    state: SupervisorState,
    event: SupervisorEvent,
)
    requires
        can_happen(state, event),
    ensures
        supervised(event).1 == SupervisorAction::RemoveAndStop <==> state
            == SupervisorState::AwaitingReply && event == SupervisorEvent::Committed,
        supervised(event).1 == SupervisorAction::SendCommit <==> state == SupervisorState::Waiting
            && event == SupervisorEvent::IdleTimeout,
{
}

} // verus!
