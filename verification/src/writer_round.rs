//! What a writer thread asks of its store for the commands of one round, and what it answers.

use vstd::prelude::*;
use vstd::multiset::Multiset;
use vstd::string::*;
use crate::{json, text, writer};
use crate::errors::{StoreError, push_distinct};
use crate::writer::{RoundV, StorageCommand, WalOp, WriterRound, part_writes, share_out};

verus! {

/// One thing that is asked of the store, with those who wait for its answer.
pub enum StoreStep<R> {
    /// Writes one document by itself.
    ApplyWrite { index: String, op: WalOp, reply: R },
    /// Writes documents of several callers in one transaction.
    ApplyWrites { index: String, ops: Vec<WalOp>, replies: Vec<R> },
    /// Writes one batch by itself.
    ApplyBatch { index: String, ops: Vec<WalOp>, reply: R },
    /// Writes several batches in one transaction. Beside each caller stands how much of it is its.
    ApplyBatches { index: String, ops: Vec<WalOp>, counts: Vec<usize>, replies: Vec<R> },
    /// Publishes what has been written.
    Commit { index: String, reply: R },
    /// Publishes what has been written and gives the writer up, whether or not that worked.
    Evict { index: String, reply: R },
    /// Drops what an index holds.
    DropIndex { index: String, delete_schema: bool, reply: R },
}

/// One thing that is asked of the store, as a value of the model.
pub enum StepV<R> {
    ApplyWrite { index: Seq<char>, op: WalOp, reply: R },
    ApplyWrites { index: Seq<char>, ops: Seq<WalOp>, replies: Seq<R> },
    ApplyBatch { index: Seq<char>, ops: Seq<WalOp>, reply: R },
    ApplyBatches { index: Seq<char>, ops: Seq<WalOp>, counts: Seq<usize>, replies: Seq<R> },
    Commit { index: Seq<char>, reply: R },
    Evict { index: Seq<char>, reply: R },
    DropIndex { index: Seq<char>, delete_schema: bool, reply: R },
}

impl<R> View for StoreStep<R> {
    type V = StepV<R>;

    open spec fn view(&self) -> StepV<R> {
        match *self {
            StoreStep::ApplyWrite { index, op, reply } => StepV::ApplyWrite {
                index: index@,
                op,
                reply,
            },
            StoreStep::ApplyWrites { index, ops, replies } => StepV::ApplyWrites {
                index: index@,
                ops: ops@,
                replies: replies@,
            },
            StoreStep::ApplyBatch { index, ops, reply } => StepV::ApplyBatch {
                index: index@,
                ops: ops@,
                reply,
            },
            StoreStep::ApplyBatches { index, ops, counts, replies } => StepV::ApplyBatches {
                index: index@,
                ops: ops@,
                counts: counts@,
                replies: replies@,
            },
            StoreStep::Commit { index, reply } => StepV::Commit { index: index@, reply },
            StoreStep::Evict { index, reply } => StepV::Evict { index: index@, reply },
            StoreStep::DropIndex { index, delete_schema, reply } => StepV::DropIndex {
                index: index@,
                delete_schema,
                reply,
            },
        }
    }
}

/// Things asked of the store, as values of the model.
pub open spec fn step_models<R>(steps: Seq<StoreStep<R>>) -> Seq<StepV<R>> {
    steps.map_values(|step: StoreStep<R>| step@)
}

// ---------------------------------------------------------------------------
// Planning
// ---------------------------------------------------------------------------

/// The changes of some writes.
pub open spec fn ops_of<R>(writes: Seq<(WalOp, R)>) -> Seq<WalOp> {
    writes.map_values(|write: (WalOp, R)| write.0)
}

/// Those who wait for some writes.
pub open spec fn waiting_for<A, R>(writes: Seq<(A, R)>) -> Seq<R> {
    writes.map_values(|write: (A, R)| write.1)
}

/// What the single writes to one index become: several take one transaction together.
pub open spec fn write_step<R>(group: (Seq<char>, Seq<(WalOp, R)>)) -> StepV<R> {
    if group.1.len() == 1 {
        StepV::ApplyWrite { index: group.0, op: group.1[0].0, reply: group.1[0].1 }
    } else {
        StepV::ApplyWrites { index: group.0, ops: ops_of(group.1), replies: waiting_for(group.1) }
    }
}

/// The changes of some batches, one batch after the other.
pub open spec fn joined_ops<R>(batches: Seq<(Vec<WalOp>, R)>) -> Seq<WalOp>
    decreases batches.len(),
{
    if batches.len() == 0 {
        Seq::empty()
    } else {
        joined_ops(batches.drop_last()) + batches.last().0@
    }
}

/// How many changes each of some batches holds.
pub open spec fn batch_counts<R>(batches: Seq<(Vec<WalOp>, R)>) -> Seq<usize> {
    batches.map_values(|batch: (Vec<WalOp>, R)| batch.0@.len() as usize)
}

/// What the batches for one index become: several take one transaction together.
pub open spec fn batch_step<R>(group: (Seq<char>, Seq<(Vec<WalOp>, R)>)) -> StepV<R> {
    if group.1.len() == 1 {
        StepV::ApplyBatch { index: group.0, ops: group.1[0].0@, reply: group.1[0].1 }
    } else {
        StepV::ApplyBatches {
            index: group.0,
            ops: joined_ops(group.1),
            counts: batch_counts(group.1),
            replies: waiting_for(group.1),
        }
    }
}

/// What is asked of the store first: everything that writes.
pub open spec fn writing_steps<R>(round: RoundV<R>) -> Seq<StepV<R>> {
    round.writes.map_values(|group: (Seq<char>, Seq<(WalOp, R)>)| write_step(group))
        + round.batches.map_values(|group: (Seq<char>, Seq<(Vec<WalOp>, R)>)| batch_step(group))
}

/// What is asked of the store then: everything that publishes.
pub open spec fn publishing_steps<R>(round: RoundV<R>) -> Seq<StepV<R>> {
    round.commits.map_values(
        |commit: (String, R)| StepV::<R>::Commit { index: commit.0@, reply: commit.1 },
    ) + round.evictions.map_values(
        |eviction: (String, R)| StepV::<R>::Evict { index: eviction.0@, reply: eviction.1 },
    )
}

/// What is asked of the store last: everything that drops.
pub open spec fn dropping_steps<R>(round: RoundV<R>) -> Seq<StepV<R>> {
    round.deletions.map_values(
        |deletion: (String, bool, R)|
            StepV::<R>::DropIndex {
                index: deletion.0@,
                delete_schema: deletion.1,
                reply: deletion.2,
            },
    )
}

/// Everything that is asked of the store for a round, in the order in which it is asked.
pub open spec fn round_steps<R>(round: RoundV<R>) -> Seq<StepV<R>> {
    writing_steps(round) + publishing_steps(round) + dropping_steps(round)
}

/// Puts the batches for one index together.
fn join_batches<R>(batches: Vec<(Vec<WalOp>, R)>) -> (joined: (Vec<WalOp>, Vec<usize>, Vec<R>))
    ensures
        joined.0@ == joined_ops(batches@),
        joined.1@ == batch_counts(batches@),
        joined.2@ == waiting_for(batches@),
{
    let mut ops: Vec<WalOp> = Vec::new();
    let mut counts: Vec<usize> = Vec::new();
    let mut replies: Vec<R> = Vec::new();
    let ghost all = batches@;
    assert(all.take(0) =~= Seq::empty());
    for batch in it: batches
        invariant
            it.seq() == all,
            ops@ == joined_ops(all.take(it.index() as int)),
            counts@ == batch_counts(all.take(it.index() as int)),
            replies@ == waiting_for(all.take(it.index() as int)),
    {
        let ghost place = it.index() as int;
        assert(batch == all[place]);
        assert(all.take(place + 1).drop_last() =~= all.take(place));
        assert(all.take(place + 1) =~= all.take(place).push(batch));
        let (mut more, reply) = batch;
        counts.push(more.len());
        ops.append(&mut more);
        replies.push(reply);
        assert(counts@ =~= batch_counts(all.take(place + 1)));
        assert(replies@ =~= waiting_for(all.take(place + 1)));
    }
    assert(all.take(all.len() as int) =~= all);
    (ops, counts, replies)
}

/// What the store is asked for a round.
///
/// Everything is written before anything is published, so that a caller who asks for both finds what
/// it wrote; and everything is published before anything is dropped, so that a write that came with
/// the deletion of its index does not recreate it.
pub fn plan_round<R>(round: WriterRound<R>) -> (steps: Vec<StoreStep<R>>)
    ensures
        step_models(steps@) == round_steps(round@),
{
    let ghost model = round@;
    let mut steps: Vec<StoreStep<R>> = Vec::new();
    let ghost writes = round.writes@;
    for group in it: round.writes
        invariant
            it.seq() == writes,
            steps@.len() == it.index(),
            forall|k: int|
                0 <= k < it.index() ==> (#[trigger] steps@[k])@ == write_step(
                    (writes[k].0@, writes[k].1@),
                ),
    {
        let ghost place = it.index() as int;
        assert(group == writes[place]);
        let (index, mut waiting) = group;
        if waiting.len() == 1 {
            let (op, reply) = waiting.remove(0);
            steps.push(StoreStep::ApplyWrite { index, op, reply });
        } else {
            let (ops, replies) = part_writes(waiting);
            steps.push(StoreStep::ApplyWrites { index, ops, replies });
        }
    }
    let ghost wrote = steps@.len() as int;
    let ghost batches = round.batches@;
    for group in it: round.batches
        invariant
            it.seq() == batches,
            wrote == writes.len(),
            steps@.len() == wrote + it.index(),
            forall|k: int|
                0 <= k < wrote ==> (#[trigger] steps@[k])@ == write_step(
                    (writes[k].0@, writes[k].1@),
                ),
            forall|k: int|
                wrote <= k < steps@.len() ==> (#[trigger] steps@[k])@ == batch_step(
                    (batches[k - wrote].0@, batches[k - wrote].1@),
                ),
    {
        let ghost place = it.index() as int;
        assert(group == batches[place]);
        let (index, mut waiting) = group;
        if waiting.len() == 1 {
            let (ops, reply) = waiting.remove(0);
            steps.push(StoreStep::ApplyBatch { index, ops, reply });
        } else {
            let (ops, counts, replies) = join_batches(waiting);
            steps.push(StoreStep::ApplyBatches { index, ops, counts, replies });
        }
    }
    assert(step_models(steps@) =~= writing_steps(model));
    let ghost written = step_models(steps@);
    let ghost commits = round.commits@;
    for commit in it: round.commits
        invariant
            it.seq() == commits,
            step_models(steps@) == written + commits.take(it.index() as int).map_values(
                |commit: (String, R)| StepV::<R>::Commit { index: commit.0@, reply: commit.1 },
            ),
    {
        let ghost place = it.index() as int;
        assert(commit == commits[place]);
        assert(commits.take(place + 1) =~= commits.take(place).push(commit));
        let (index, reply) = commit;
        let ghost before = steps@;
        steps.push(StoreStep::Commit { index, reply });
        assert(step_models(steps@) =~= step_models(before).push(steps@.last()@));
        assert(step_models(steps@) =~= written + commits.take(place + 1).map_values(
            |commit: (String, R)| StepV::<R>::Commit { index: commit.0@, reply: commit.1 },
        ));
    }
    assert(commits.take(commits.len() as int) =~= commits);
    let ghost committed = step_models(steps@);
    let ghost evictions = round.evictions@;
    for eviction in it: round.evictions
        invariant
            it.seq() == evictions,
            step_models(steps@) == committed + evictions.take(it.index() as int).map_values(
                |eviction: (String, R)| StepV::<R>::Evict { index: eviction.0@, reply: eviction.1 },
            ),
    {
        let ghost place = it.index() as int;
        assert(eviction == evictions[place]);
        assert(evictions.take(place + 1) =~= evictions.take(place).push(eviction));
        let (index, reply) = eviction;
        let ghost before = steps@;
        steps.push(StoreStep::Evict { index, reply });
        assert(step_models(steps@) =~= step_models(before).push(steps@.last()@));
        assert(step_models(steps@) =~= committed + evictions.take(place + 1).map_values(
            |eviction: (String, R)| StepV::<R>::Evict { index: eviction.0@, reply: eviction.1 },
        ));
    }
    assert(evictions.take(evictions.len() as int) =~= evictions);
    let ghost evicted = step_models(steps@);
    let ghost deletions = round.deletions@;
    for deletion in it: round.deletions
        invariant
            it.seq() == deletions,
            step_models(steps@) == evicted + deletions.take(it.index() as int).map_values(
                |deletion: (String, bool, R)|
                    StepV::<R>::DropIndex {
                        index: deletion.0@,
                        delete_schema: deletion.1,
                        reply: deletion.2,
                    },
            ),
    {
        let ghost place = it.index() as int;
        assert(deletion == deletions[place]);
        assert(deletions.take(place + 1) =~= deletions.take(place).push(deletion));
        let (index, delete_schema, reply) = deletion;
        let ghost before = steps@;
        steps.push(StoreStep::DropIndex { index, delete_schema, reply });
        assert(step_models(steps@) =~= step_models(before).push(steps@.last()@));
        assert(step_models(steps@) =~= evicted + deletions.take(place + 1).map_values(
            |deletion: (String, bool, R)|
                StepV::<R>::DropIndex {
                    index: deletion.0@,
                    delete_schema: deletion.1,
                    reply: deletion.2,
                },
        ));
    }
    assert(deletions.take(deletions.len() as int) =~= deletions);
    assert(step_models(steps@) =~= round_steps(model));
    steps
}

// ---------------------------------------------------------------------------
// Answering
// ---------------------------------------------------------------------------

/// Whether an answer is the one a caller is owed for its batch, the one of several put together that
/// stands at this place: its own sequence numbers and its share of the new documents, or why they all
/// failed.
pub open spec fn batch_answer_is(
    answer: Result<(Vec<u64>, usize), StoreError>,
    outcome: Result<(Vec<u64>, usize), StoreError>,
    counts: Seq<usize>,
    place: int,
) -> bool {
    match outcome {
        Ok((sequences, new_docs)) => answer matches Ok(share) && (share.0@, share.1 as nat)
            == writer::batch_share(counts, sequences@, new_docs, place),
        Err(error) => answer matches Err(StoreError::Serialization(text)) && text@ == error.says(),
    }
}

/// Answers the callers of batches that were put together.
pub fn answer_batches<R>(
    counts: &Vec<usize>,
    replies: Vec<R>,
    outcome: &Result<(Vec<u64>, usize), StoreError>,
) -> (answers: Vec<(R, Result<(Vec<u64>, usize), StoreError>)>)
    requires
        counts@.len() == replies@.len(),
        outcome matches Ok((sequences, _)) ==> writer::total_of(counts@) <= sequences@.len(),
    ensures
        answers@.len() == replies@.len(),
        forall|i: int|
            0 <= i < answers@.len() ==> (#[trigger] answers@[i]).0 == replies@[i]
                && batch_answer_is(answers@[i].1, *outcome, counts@, i),
{
    let mut answers: Vec<(R, Result<(Vec<u64>, usize), StoreError>)> = Vec::new();
    match outcome {
        Ok((sequences, new_docs)) => {
            let mut shares: Vec<(Vec<u64>, usize)> = share_out(counts, sequences, *new_docs);
            let ghost given = shares@;
            for reply in it: replies
                invariant
                    it.seq() == replies@,
                    *outcome matches Ok((o_sequences, o_new)) && o_sequences == sequences && o_new
                        == new_docs,
                    given.len() == replies@.len(),
                    shares@ == given.skip(it.index() as int),
                    forall|k: int|
                        0 <= k < given.len() ==> (#[trigger] given[k]).0@ == writer::batch_share(
                            counts@,
                            sequences@,
                            *new_docs,
                            k,
                        ).0 && given[k].1 == writer::batch_share(counts@, sequences@, *new_docs, k).1,
                    answers@.len() == it.index(),
                    forall|i: int|
                        0 <= i < answers@.len() ==> (#[trigger] answers@[i]).0 == replies@[i]
                            && batch_answer_is(answers@[i].1, *outcome, counts@, i),
            {
                let ghost place = it.index() as int;
                assert(reply == replies@[place]);
                assert(shares@[0] == given[place]);
                let share: (Vec<u64>, usize) = shares.remove(0);
                assert(shares@ =~= given.skip(place + 1));
                answers.push((reply, Ok(share)));
            }
        },
        Err(error) => {
            for reply in it: replies
                invariant
                    it.seq() == replies@,
                    *outcome matches Err(o_error) && o_error == error,
                    answers@.len() == it.index(),
                    forall|i: int|
                        0 <= i < answers@.len() ==> (#[trigger] answers@[i]).0 == replies@[i]
                            && batch_answer_is(answers@[i].1, *outcome, counts@, i),
            {
                assert(reply == replies@[it.index() as int]);
                answers.push((reply, Err(StoreError::Serialization(error.message().clone()))));
            }
        },
    }
    answers
}

/// Notes that an index has something newly published, once however often it was published.
pub fn note_published(published: &mut Vec<String>, index: &str, committed: bool)
    ensures
        text::texts(final(published)@) == (if committed && !text::texts(old(published)@).contains(index@) {
            text::texts(old(published)@).push(index@)
        } else {
            text::texts(old(published)@)
        }),
{
    if committed {
        push_distinct(published, index);
    }
}

// ---------------------------------------------------------------------------
// Laws
// ---------------------------------------------------------------------------

/// Whether a step writes.
pub open spec fn step_writes<R>(step: StepV<R>) -> bool {
    step is ApplyWrite || step is ApplyWrites || step is ApplyBatch || step is ApplyBatches
}

/// Everything is written before anything is published, and everything is published before anything
/// is dropped.
pub proof fn law_a_round_writes_before_it_drops<R>(round: RoundV<R>, i: int, j: int)
    requires
        0 <= i < round_steps(round).len(),
        0 <= j < round_steps(round).len(),
        step_writes(round_steps(round)[i]) && !step_writes(round_steps(round)[j]) || !(
        round_steps(round)[i] is DropIndex) && round_steps(round)[j] is DropIndex,
    ensures
        i < j,
{
    let wrote = writing_steps(round).len();
    let published = publishing_steps(round).len();
    assert forall|k: int| 0 <= k < wrote implies step_writes(#[trigger] round_steps(round)[k]) by {
        if k < round.writes.len() {
            assert(round_steps(round)[k] == write_step(round.writes[k]));
        } else {
            assert(round_steps(round)[k] == batch_step(round.batches[k - round.writes.len()]));
        }
    }
    assert forall|k: int| wrote <= k < wrote + published implies !step_writes(
        #[trigger] round_steps(round)[k],
    ) && !(round_steps(round)[k] is DropIndex) by {
        assert(round_steps(round)[k] == publishing_steps(round)[k - wrote]);
    }
    assert forall|k: int| wrote + published <= k < round_steps(round).len() implies (
    #[trigger] round_steps(round)[k]) is DropIndex by {
        assert(round_steps(round)[k] == dropping_steps(round)[k - wrote - published]);
    }
}

/// Those who wait for a step.
pub open spec fn step_callers<R>(step: StepV<R>) -> Multiset<R> {
    match step {
        StepV::ApplyWrite { index: _, op: _, reply } => Multiset::singleton(reply),
        StepV::ApplyWrites { index: _, ops: _, replies } => replies.to_multiset(),
        StepV::ApplyBatch { index: _, ops: _, reply } => Multiset::singleton(reply),
        StepV::ApplyBatches { index: _, ops: _, counts: _, replies } => replies.to_multiset(),
        StepV::Commit { index: _, reply } => Multiset::singleton(reply),
        StepV::Evict { index: _, reply } => Multiset::singleton(reply),
        StepV::DropIndex { index: _, delete_schema: _, reply } => Multiset::singleton(reply),
    }
}

/// Those who wait for some steps.
pub open spec fn callers_served<R>(steps: Seq<StepV<R>>) -> Multiset<R>
    decreases steps.len(),
{
    if steps.len() == 0 {
        Multiset::empty()
    } else {
        callers_served(steps.drop_last()).add(step_callers(steps.last()))
    }
}

/// Those who sent some commands.
pub open spec fn callers_heard<R>(commands: Seq<StorageCommand<R>>) -> Multiset<R>
    decreases commands.len(),
{
    if commands.len() == 0 {
        Multiset::empty()
    } else {
        let before = callers_heard(commands.drop_last());
        match commands.last() {
            StorageCommand::Write { index: _, op: _, reply } => before.insert(reply),
            StorageCommand::BatchWrite { index: _, ops: _, reply } => before.insert(reply),
            StorageCommand::Commit { index: _, reply } => before.insert(reply),
            StorageCommand::EvictWriter { index: _, reply } => before.insert(reply),
            StorageCommand::DeleteIndex { index: _, delete_schema: _, reply } => before.insert(
                reply,
            ),
            StorageCommand::Shutdown => before,
        }
    }
}

/// Those who wait for some groups.
pub open spec fn group_callers<A, R>(groups: Seq<(Seq<char>, Seq<(A, R)>)>) -> Multiset<R>
    decreases groups.len(),
{
    if groups.len() == 0 {
        Multiset::empty()
    } else {
        group_callers(groups.drop_last()).add(waiting_for(groups.last().1).to_multiset())
    }
}

/// Every command is answered, and answered once: those who wait for the steps of a round are exactly
/// those who sent its commands.
pub proof fn law_every_command_has_its_step<R>(commands: Seq<StorageCommand<R>>)
    ensures
        callers_served(round_steps(writer::sorted_round(commands))) == callers_heard(commands),
{
    lemma_round_callers(writer::sorted_round(commands));
    lemma_sorted_callers(commands);
}

/// Those who wait for a round: its groups and its lists.
pub open spec fn round_callers<R>(round: RoundV<R>) -> Multiset<R> {
    group_callers(round.writes).add(group_callers(round.batches)).add(
        waiting_for(round.commits).to_multiset(),
    ).add(waiting_for(round.evictions).to_multiset()).add(
        round.deletions.map_values(|deletion: (String, bool, R)| deletion.2).to_multiset(),
    )
}

/// Sorting keeps those who wait.
proof fn lemma_sorted_callers<R>(commands: Seq<StorageCommand<R>>)
    ensures
        round_callers(writer::sorted_round(commands)) == callers_heard(commands),
    decreases commands.len(),
{
    broadcast use vstd::seq_lib::group_to_multiset_ensures;

    if commands.len() == 0 {
        let none = writer::sorted_round(commands);
        assert(waiting_for(none.commits) =~= Seq::empty());
        assert(waiting_for(none.evictions) =~= Seq::empty());
        assert(none.deletions.map_values(|deletion: (String, bool, R)| deletion.2) =~= Seq::empty());
        assert(Seq::<R>::empty().to_multiset() =~= Multiset::empty());
        assert(round_callers(none) =~= Multiset::empty());
    } else {
        let before = writer::sorted_round(commands.drop_last());
        lemma_sorted_callers(commands.drop_last());
        let after = writer::sorted_round(commands);
        match commands.last() {
            StorageCommand::Write { index, op, reply } => {
                lemma_group_gains(before.writes, index@, (op, reply));
                assert(round_callers(after) =~= round_callers(before).insert(reply));
            },
            StorageCommand::BatchWrite { index, ops, reply } => {
                lemma_group_gains(before.batches, index@, (ops, reply));
                assert(round_callers(after) =~= round_callers(before).insert(reply));
            },
            StorageCommand::Commit { index, reply } => {
                assert(waiting_for(after.commits) =~= waiting_for(before.commits).push(reply));
                assert(round_callers(after) =~= round_callers(before).insert(reply));
            },
            StorageCommand::EvictWriter { index, reply } => {
                assert(waiting_for(after.evictions) =~= waiting_for(before.evictions).push(reply));
                assert(round_callers(after) =~= round_callers(before).insert(reply));
            },
            StorageCommand::DeleteIndex { index, delete_schema, reply } => {
                assert(after.deletions.map_values(|deletion: (String, bool, R)| deletion.2)
                    =~= before.deletions.map_values(
                    |deletion: (String, bool, R)| deletion.2,
                ).push(reply));
                assert(round_callers(after) =~= round_callers(before).insert(reply));
            },
            StorageCommand::Shutdown => {},
        }
    }
}

/// A group with one more thing has one more who waits.
proof fn lemma_group_gains<A, R>(
    groups: Seq<(Seq<char>, Seq<(A, R)>)>,
    name: Seq<char>,
    thing: (A, R),
)
    ensures
        group_callers(writer::grouped_with(groups, name, thing)) == group_callers(groups).insert(thing.1),
{
    broadcast use vstd::seq_lib::group_to_multiset_ensures;

    json::lemma_key_place(groups, name);
    let gained = writer::group_under(groups, name).push(thing);
    assert(waiting_for(gained) =~= waiting_for(writer::group_under(groups, name)).push(thing.1));
    if json::has_key(groups, name) {
        lemma_one_group_gains(groups, json::key_place(groups, name), name, thing);
    } else {
        let after = groups.push((name, gained));
        assert(after.drop_last() =~= groups);
        assert(waiting_for(writer::group_under(groups, name)) =~= Seq::<R>::empty());
        assert(Seq::<R>::empty().to_multiset() =~= Multiset::empty());
        assert(group_callers(after) =~= group_callers(groups).insert(thing.1));
    }
}

/// One group with one more thing has one more who waits.
proof fn lemma_one_group_gains<A, R>(
    groups: Seq<(Seq<char>, Seq<(A, R)>)>,
    place: int,
    name: Seq<char>,
    thing: (A, R),
)
    requires
        0 <= place < groups.len(),
    ensures
        group_callers(groups.update(place, (name, groups[place].1.push(thing)))) == group_callers(
            groups,
        ).insert(thing.1),
    decreases groups.len(),
{
    broadcast use vstd::seq_lib::group_to_multiset_ensures;

    let gained = groups[place].1.push(thing);
    let after = groups.update(place, (name, gained));
    assert(waiting_for(gained) =~= waiting_for(groups[place].1).push(thing.1));
    if place == groups.len() - 1 {
        assert(after.drop_last() =~= groups.drop_last());
    } else {
        lemma_one_group_gains(groups.drop_last(), place, name, thing);
        assert(after.drop_last() =~= groups.drop_last().update(place, (name, gained)));
        assert(after.last() == groups.last());
    }
    assert(group_callers(after) =~= group_callers(groups).insert(thing.1));
}

/// Those who wait for some steps and some more.
proof fn lemma_callers_join<R>(first: Seq<StepV<R>>, more: Seq<StepV<R>>)
    ensures
        callers_served(first + more) == callers_served(first).add(callers_served(more)),
    decreases more.len(),
{
    if more.len() == 0 {
        assert(first + more =~= first);
        assert(callers_served(first + more) =~= callers_served(first).add(callers_served(more)));
    } else {
        lemma_callers_join(first, more.drop_last());
        assert((first + more).drop_last() =~= first + more.drop_last());
        assert((first + more).last() == more.last());
        assert(callers_served(first + more) =~= callers_served(first).add(callers_served(more)));
    }
}

/// A sequence of one thing holds it once.
proof fn lemma_one_caller<R>(one: Seq<R>)
    requires
        one.len() == 1,
    ensures
        one.to_multiset() == Multiset::singleton(one[0]),
{
    broadcast use vstd::seq_lib::group_to_multiset_ensures;

    assert(one =~= Seq::<R>::empty().push(one[0]));
    assert(Seq::<R>::empty().to_multiset() =~= Multiset::empty());
    assert(one.to_multiset() =~= Multiset::singleton(one[0]));
}

/// The steps of some writes serve those who sent them.
proof fn lemma_write_callers<R>(groups: Seq<(Seq<char>, Seq<(WalOp, R)>)>)
    ensures
        callers_served(
            groups.map_values(|group: (Seq<char>, Seq<(WalOp, R)>)| write_step(group)),
        ) == group_callers(groups),
    decreases groups.len(),
{
    if groups.len() > 0 {
        let steps = groups.map_values(|group: (Seq<char>, Seq<(WalOp, R)>)| write_step(group));
        lemma_write_callers(groups.drop_last());
        assert(steps.drop_last() =~= groups.drop_last().map_values(
            |group: (Seq<char>, Seq<(WalOp, R)>)| write_step(group),
        ));
        if groups.last().1.len() == 1 {
            lemma_one_caller(waiting_for(groups.last().1));
        }
    }
}

/// The steps of some batches serve those who sent them.
proof fn lemma_batch_callers<R>(groups: Seq<(Seq<char>, Seq<(Vec<WalOp>, R)>)>)
    ensures
        callers_served(
            groups.map_values(|group: (Seq<char>, Seq<(Vec<WalOp>, R)>)| batch_step(group)),
        ) == group_callers(groups),
    decreases groups.len(),
{
    if groups.len() > 0 {
        let steps = groups.map_values(|group: (Seq<char>, Seq<(Vec<WalOp>, R)>)| batch_step(group));
        lemma_batch_callers(groups.drop_last());
        assert(steps.drop_last() =~= groups.drop_last().map_values(
            |group: (Seq<char>, Seq<(Vec<WalOp>, R)>)| batch_step(group),
        ));
        if groups.last().1.len() == 1 {
            lemma_one_caller(waiting_for(groups.last().1));
        }
    }
}

/// Steps that each serve one serve those they stand for.
proof fn lemma_single_callers<R>(steps: Seq<StepV<R>>, replies: Seq<R>)
    requires
        steps.len() == replies.len(),
        forall|k: int|
            0 <= k < steps.len() ==> step_callers(#[trigger] steps[k]) == Multiset::singleton(
                replies[k],
            ),
    ensures
        callers_served(steps) == replies.to_multiset(),
    decreases steps.len(),
{
    broadcast use vstd::seq_lib::group_to_multiset_ensures;

    if steps.len() == 0 {
        assert(replies =~= Seq::<R>::empty());
        assert(Seq::<R>::empty().to_multiset() =~= Multiset::empty());
    } else {
        lemma_single_callers(steps.drop_last(), replies.drop_last());
        assert(replies =~= replies.drop_last().push(replies.last()));
        assert(callers_served(steps) =~= replies.drop_last().to_multiset().insert(replies.last()));
    }
}

/// The steps of a round serve those who wait for it.
proof fn lemma_round_callers<R>(round: RoundV<R>)
    ensures
        callers_served(round_steps(round)) == round_callers(round),
{
    let writes = round.writes.map_values(
        |group: (Seq<char>, Seq<(WalOp, R)>)| write_step(group),
    );
    let batches = round.batches.map_values(
        |group: (Seq<char>, Seq<(Vec<WalOp>, R)>)| batch_step(group),
    );
    let commits = round.commits.map_values(
        |commit: (String, R)| StepV::<R>::Commit { index: commit.0@, reply: commit.1 },
    );
    let evictions = round.evictions.map_values(
        |eviction: (String, R)| StepV::<R>::Evict { index: eviction.0@, reply: eviction.1 },
    );
    lemma_write_callers(round.writes);
    lemma_batch_callers(round.batches);
    lemma_single_callers(commits, waiting_for(round.commits));
    lemma_single_callers(evictions, waiting_for(round.evictions));
    lemma_single_callers(
        dropping_steps(round),
        round.deletions.map_values(|deletion: (String, bool, R)| deletion.2),
    );
    lemma_callers_join(writes, batches);
    lemma_callers_join(commits, evictions);
    lemma_callers_join(writing_steps(round), publishing_steps(round));
    lemma_callers_join(writing_steps(round) + publishing_steps(round), dropping_steps(round));
    assert(callers_served(round_steps(round)) =~= round_callers(round));
}

} // verus!
