//! What a round of the writer does with the commands it drained.

use vstd::prelude::*;
use vstd::arithmetic::div_mod::lemma_fundamental_div_mod;
use crate::{writer, writer_round};
use crate::errors::{ErrorV, IoKind, StoreError};
use crate::json::JsonV;
use crate::ops::DocPayload;
use crate::writer::{StorageCommand, SupervisorAction, SupervisorEvent, SupervisorState, WalOp};
use crate::writer_round::StepV;

verus! {


/// A round publishes, lets go of and drops what its commands say, in the order they say it, and ends
/// the writer where one of them does.
pub proof fn law_a_round_does_what_its_commands_say<R>(commands: Seq<StorageCommand<R>>)
    ensures
        ({
            let round = writer::sorted_round(commands);
            &&& round.commits == commands.filter(|c: StorageCommand<R>| c is Commit).map_values(
                |c: StorageCommand<R>| (c->Commit_index, c->Commit_reply),
            )
            &&& round.evictions == commands.filter(
                |c: StorageCommand<R>| c is EvictWriter,
            ).map_values(|c: StorageCommand<R>| (c->EvictWriter_index, c->EvictWriter_reply))
            &&& round.deletions == commands.filter(
                |c: StorageCommand<R>| c is DeleteIndex,
            ).map_values(
                |c: StorageCommand<R>|
                    (c->DeleteIndex_index, c->DeleteIndex_delete_schema, c->DeleteIndex_reply),
            )
            &&& round.shutdown <==> exists|i: int|
                0 <= i < commands.len() && (#[trigger] commands[i]) is Shutdown
        }),
    decreases commands.len(),
{
    reveal(Seq::filter);
    let one = |c: StorageCommand<R>| c is Commit;
    let two = |c: StorageCommand<R>| c is EvictWriter;
    let three = |c: StorageCommand<R>| c is DeleteIndex;
    let first = |c: StorageCommand<R>| (c->Commit_index, c->Commit_reply);
    let second = |c: StorageCommand<R>| (c->EvictWriter_index, c->EvictWriter_reply);
    let third = |c: StorageCommand<R>|
        (c->DeleteIndex_index, c->DeleteIndex_delete_schema, c->DeleteIndex_reply);
    let round = writer::sorted_round(commands);
    if commands.len() > 0 {
        let rest = commands.drop_last();
        let last = commands.last();
        law_a_round_does_what_its_commands_say(rest);
        assert(round.commits =~= commands.filter(one).map_values(first));
        assert(round.evictions =~= commands.filter(two).map_values(second));
        assert(round.deletions =~= commands.filter(three).map_values(third));
        assert(commands[rest.len() as int] == last);
        if exists|i: int| 0 <= i < rest.len() && (#[trigger] rest[i]) is Shutdown {
            let i = choose|i: int| 0 <= i < rest.len() && (#[trigger] rest[i]) is Shutdown;
            assert(commands[i] == rest[i]);
        }
        if exists|i: int| 0 <= i < commands.len() && (#[trigger] commands[i]) is Shutdown {
            let i = choose|i: int| 0 <= i < commands.len() && (#[trigger] commands[i]) is Shutdown;
            if i < rest.len() {
                assert(rest[i] == commands[i]);
            }
        }
    } else {
        assert(round.commits =~= commands.filter(one).map_values(first));
        assert(round.evictions =~= commands.filter(two).map_values(second));
        assert(round.deletions =~= commands.filter(three).map_values(third));
    }
}

/// The writes of a round to an index are those that its commands make, in the order they make them, and
/// so are its batches.
pub proof fn law_a_round_writes_in_order<R>(commands: Seq<StorageCommand<R>>, index: Seq<char>)
    ensures
        writer::group_under(writer::sorted_round(commands).writes, index) == commands.filter(
            |c: StorageCommand<R>| c is Write && c->Write_index@ == index,
        ).map_values(|c: StorageCommand<R>| (c->Write_op, c->Write_reply)),
        writer::group_under(writer::sorted_round(commands).batches, index) == commands.filter(
            |c: StorageCommand<R>| c is BatchWrite && c->BatchWrite_index@ == index,
        ).map_values(|c: StorageCommand<R>| (c->BatchWrite_ops, c->BatchWrite_reply)),
{
    writer::law_no_write_is_lost(commands, index);
    lemma_writes_to(commands, index);
}

/// What is written to an index is what the commands say.
proof fn lemma_writes_to<R>(commands: Seq<StorageCommand<R>>, index: Seq<char>)
    ensures
        writer::writes_to(commands, index) == commands.filter(
            |c: StorageCommand<R>| c is Write && c->Write_index@ == index,
        ).map_values(|c: StorageCommand<R>| (c->Write_op, c->Write_reply)),
        writer::batches_to(commands, index) == commands.filter(
            |c: StorageCommand<R>| c is BatchWrite && c->BatchWrite_index@ == index,
        ).map_values(|c: StorageCommand<R>| (c->BatchWrite_ops, c->BatchWrite_reply)),
    decreases commands.len(),
{
    reveal(Seq::filter);
    let one = |c: StorageCommand<R>| c is Write && c->Write_index@ == index;
    let two = |c: StorageCommand<R>| c is BatchWrite && c->BatchWrite_index@ == index;
    let first = |c: StorageCommand<R>| (c->Write_op, c->Write_reply);
    let second = |c: StorageCommand<R>| (c->BatchWrite_ops, c->BatchWrite_reply);
    if commands.len() > 0 {
        lemma_writes_to(commands.drop_last(), index);
    }
    assert(writer::writes_to(commands, index) =~= commands.filter(one).map_values(first));
    assert(writer::batches_to(commands, index) =~= commands.filter(two).map_values(second));
}

/// The writes to one index are applied together, each with its own caller, in order.
pub proof fn law_writes_keep_their_callers<R>(index: Seq<char>, writes: Seq<(WalOp, R)>, i: int)
    requires
        0 <= i < writes.len(),
    ensures
        writes.len() == 1 ==> (writer_round::write_step((index, writes)) matches StepV::ApplyWrite {
            index: to,
            op,
            reply,
        } && to == index && op == writes[0].0 && reply == writes[0].1),
        writes.len() > 1 ==> (writer_round::write_step((index, writes)) matches StepV::ApplyWrites {
            index: to,
            ops,
            replies,
        } && to == index && ops.len() == writes.len() && replies.len() == writes.len() && ops[i]
            == writes[i].0 && replies[i] == writes[i].1),
{
}

/// The batches to one index are applied together: one batch behind the other, each with its own length
/// and its own caller.
pub proof fn law_batches_keep_their_callers<R>(
    index: Seq<char>,
    batches: Seq<(Vec<WalOp>, R)>,
    i: int,
)
    requires
        0 <= i < batches.len(),
        batches[i].0@.len() <= usize::MAX,
    ensures
        batches.len() == 1 ==> (writer_round::batch_step((index, batches)) matches StepV::ApplyBatch {
            index: to,
            ops,
            reply,
        } && to == index && ops == batches[0].0@ && reply == batches[0].1),
        batches.len() > 1 ==> (writer_round::batch_step((index, batches)) matches StepV::ApplyBatches {
            index: to,
            ops,
            counts,
            replies,
        } && to == index && ops == batches.map_values(|batch: (Vec<WalOp>, R)| batch.0@).flatten()
            && counts.len() == batches.len() && counts[i] == batches[i].0@.len() && replies.len()
            == batches.len() && replies[i] == batches[i].1),
{
    lemma_ops_are_joined(batches);
}

/// Joined batches are the batches one behind the other.
proof fn lemma_ops_are_joined<R>(batches: Seq<(Vec<WalOp>, R)>)
    ensures
        writer_round::joined_ops(batches) == batches.map_values(
            |batch: (Vec<WalOp>, R)| batch.0@,
        ).flatten(),
    decreases batches.len(),
{
    let lists = batches.map_values(|batch: (Vec<WalOp>, R)| batch.0@);
    lists.lemma_flatten_and_flatten_alt_are_equivalent();
    if batches.len() > 0 {
        let rest = batches.drop_last();
        lemma_ops_are_joined(rest);
        let before = rest.map_values(|batch: (Vec<WalOp>, R)| batch.0@);
        before.lemma_flatten_and_flatten_alt_are_equivalent();
        assert(lists.drop_last() =~= before);
        assert(lists.last() == batches.last().0@);
    } else {
        assert(lists =~= Seq::empty());
    }
}

/// A batch's share of the new documents is in proportion to its size, rounded down, and never more than
/// are left.
pub proof fn law_a_share_is_in_proportion(new_docs: usize, size: usize, total: nat, left: nat)
    requires
        total > 0,
    ensures
        ({
            let share = writer::proportional_share(new_docs, size, total, left);
            &&& share <= left
            &&& new_docs * size <= usize::MAX ==> share * total <= new_docs * size
            &&& new_docs * size <= usize::MAX && share < left ==> (share + 1) * total > new_docs * size
            &&& new_docs * size > usize::MAX ==> share == 0
        }),
{
    let whole = new_docs * size;
    assert(0 <= whole) by (nonlinear_arith)
        requires
            whole == new_docs * size,
            0 <= new_docs,
            0 <= size,
    ;
    let part = whole / (total as int);
    lemma_fundamental_div_mod(whole, total as int);
    let share = writer::proportional_share(new_docs, size, total, left);
    if whole <= usize::MAX {
        assert(part * total <= whole && (part + 1) * total > whole) by (nonlinear_arith)
            requires
                whole == total * part + whole % (total as int),
                0 <= whole % (total as int) < total,
        ;
        assert(0 <= part) by (nonlinear_arith)
            requires
                (part + 1) * total > whole,
                whole >= 0,
                total > 0,
        ;
        assert(share <= part);
        assert(share * total <= part * total) by (nonlinear_arith)
            requires
                share <= part,
                total > 0,
        ;
    }
}

/// A write goes under the identifier that it comes with, and under its document's own where it comes
/// with none.
pub proof fn law_a_write_has_a_key(id: Seq<char>, doc: JsonV)
    ensures
        id.len() > 0 ==> writer::key_written(id, doc) == Some(id),
        id.len() == 0 ==> (doc.get("id"@) matches Some(JsonV::Text(own)) ==> writer::key_written(
            id,
            doc,
        ) == Some(own)),
        id.len() == 0 && !(doc.get("id"@) matches Some(JsonV::Text(_))) ==> writer::key_written(
            id,
            doc,
        ) is None,
{
}

/// A document is put as it came, under its identifier.
pub proof fn law_a_document_is_put_as_it_came(doc: DocPayload)
    ensures
        writer::put_of(doc) matches WalOp::Put { id, json_blob } && id == doc.id && json_blob == Some(
            doc.doc,
        ),
{
}

/// A search that the store refuses is the caller's fault where the query is to blame, and keeps the
/// store's words.
pub proof fn law_a_failed_search_keeps_its_words(error: StoreError)
    ensures
        error matches StoreError::Io { kind, message } ==> writer::search_failure(error) == ErrorV::Io(
            kind,
            message@,
        ),
        error matches StoreError::FieldNotFound(words) ==> writer::search_failure(error) == ErrorV::Io(
            IoKind::InvalidInput,
            words@,
        ),
        error matches StoreError::QueryParser(words) ==> writer::search_failure(error) == ErrorV::Io(
            IoKind::InvalidInput,
            words@,
        ),
        error matches StoreError::InvalidFieldValue(words) ==> writer::search_failure(error)
            == ErrorV::Io(IoKind::Other, words@),
        error matches StoreError::Serialization(words) ==> writer::search_failure(error) == ErrorV::Io(
            IoKind::Other,
            words@,
        ),
        error matches StoreError::Other(words) ==> writer::search_failure(error) == ErrorV::Io(
            IoKind::Other,
            words@,
        ),
{
}

/// A supervisor commits after a quiet spell and is done once the commit is through; it goes on waiting
/// where the commit failed or more came, and stops where nobody is left to ask.
pub proof fn law_a_supervisor_commits_after_a_quiet_spell()
    ensures
        writer::supervised(SupervisorEvent::Signal) == (
            SupervisorState::Waiting,
            SupervisorAction::Wait,
        ),
        writer::supervised(SupervisorEvent::IdleTimeout) == (
            SupervisorState::Sending,
            SupervisorAction::SendCommit,
        ),
        writer::supervised(SupervisorEvent::Sent) == (
            SupervisorState::AwaitingReply,
            SupervisorAction::AwaitReply,
        ),
        writer::supervised(SupervisorEvent::Committed) == (
            SupervisorState::Stopped,
            SupervisorAction::RemoveAndStop,
        ),
        writer::supervised(SupervisorEvent::CommitFailed) == (
            SupervisorState::Waiting,
            SupervisorAction::Wait,
        ),
        writer::supervised(SupervisorEvent::Closed).0 == SupervisorState::Stopped,
        writer::supervised(SupervisorEvent::SendFailed).0 == SupervisorState::Stopped,
        writer::supervised(SupervisorEvent::ReplyDropped).0 == SupervisorState::Stopped,
{
}

} // verus!
