//! The channels between threads: the queues that jobs are offered to and commands are taken from.
//!
//! What another thread does to a channel is its own affair. What was asked of a channel here, and
//! what it answered, is kept as a history, so that a contract can say what was made of the answers.

use vstd::prelude::*;

verus! {

// ---------------------------------------------------------------------------
// Offering
// ---------------------------------------------------------------------------

/// The sending half of a bounded tokio channel.
#[verifier::external_type_specification]
#[verifier::external_body]
#[verifier::reject_recursive_types(T)]
pub struct ExSender<T>(tokio::sync::mpsc::Sender<T>);

/// What a worker's queue does with a job.
#[derive(Debug, PartialEq, Eq)]
pub enum Offer<J> {
    /// The queue took the job.
    Taken,
    /// The queue is full and the job comes back.
    Full(J),
    /// The worker is gone and the job comes back.
    Closed(J),
}

/// A job that was offered to a worker, and what the worker's queue did with it.
#[verifier::reject_recursive_types(J)]
pub ghost struct Attempt<J> {
    pub worker: int,
    pub job: J,
    pub answer: Offer<J>,
}

/// The queues of several workers, and what was offered to them.
#[verifier::reject_recursive_types(J)]
pub struct Queues<J> {
    senders: Vec<tokio::sync::mpsc::Sender<J>>,
    attempts: Ghost<Seq<Attempt<J>>>,
}

impl<J> Queues<J> {
    /// The queues, a worker's at its number.
    pub closed spec fn senders(&self) -> Seq<tokio::sync::mpsc::Sender<J>> {
        self.senders@
    }

    /// What was offered, in the order in which it was offered.
    pub closed spec fn attempts(&self) -> Seq<Attempt<J>> {
        self.attempts@
    }

    /// Queues that nothing was offered to yet.
    pub fn new(senders: Vec<tokio::sync::mpsc::Sender<J>>) -> (queues: Queues<J>)
        ensures
            queues.senders() == senders@,
            queues.attempts() == Seq::<Attempt<J>>::empty(),
    {
        Queues { senders, attempts: Ghost(Seq::empty()) }
    }

    /// How many workers there are.
    pub fn len(&self) -> (count: usize)
        ensures
            count == self.senders().len(),
    {
        self.senders.len()
    }

    /// Offers a job to a worker's queue without waiting (`tokio::sync::mpsc::Sender::try_send`).
    ///
    /// Whether the queue takes it depends on what other threads have put into it and on whether the
    /// worker still runs. What is claimed is that a job that is not taken comes back as it was, and
    /// that this offer and its answer are the one more in the history.
    #[verifier::external_body]
    pub(crate) fn offer(&mut self, worker: usize, job: J) -> (answer: Offer<J>)
        requires
            worker < old(self).senders().len(),
        ensures
            match answer {
                Offer::Taken => true,
                Offer::Full(back) => back == job,
                Offer::Closed(back) => back == job,
            },
            final(self).senders() == old(self).senders(),
            final(self).attempts() == old(self).attempts().push(
                Attempt { worker: worker as int, job, answer },
            ),
    {
        match self.senders[worker].try_send(job) {
            Ok(()) => Offer::Taken,
            Err(tokio::sync::mpsc::error::TrySendError::Full(back)) => Offer::Full(back),
            Err(tokio::sync::mpsc::error::TrySendError::Closed(back)) => Offer::Closed(back),
        }
    }
}

// ---------------------------------------------------------------------------
// Taking
// ---------------------------------------------------------------------------

/// The receiving half of a bounded tokio channel.
#[verifier::external_type_specification]
#[verifier::external_body]
#[verifier::reject_recursive_types(T)]
pub struct ExReceiver<T>(tokio::sync::mpsc::Receiver<T>);

/// A queue that is taken from, and what was taken without waiting.
#[verifier::reject_recursive_types(T)]
pub struct Inbox<T> {
    pub queue: tokio::sync::mpsc::Receiver<T>,
    answers: Ghost<Seq<Option<T>>>,
}

impl<T> Inbox<T> {
    /// What the queue gave each time it was asked without waiting, nothing where nothing waited.
    pub closed spec fn answers(&self) -> Seq<Option<T>> {
        self.answers@
    }

    /// The queue itself.
    pub closed spec fn receiver(&self) -> tokio::sync::mpsc::Receiver<T> {
        self.queue
    }

    /// A queue that nothing was taken from yet.
    pub fn new(queue: tokio::sync::mpsc::Receiver<T>) -> (inbox: Inbox<T>)
        ensures
            inbox.receiver() == queue,
            inbox.answers() == Seq::<Option<T>>::empty(),
    {
        Inbox { queue, answers: Ghost(Seq::empty()) }
    }

    /// Takes what waits, without waiting for it (`tokio::sync::mpsc::Receiver::try_recv`).
    ///
    /// What waits depends on what other threads have sent. What is claimed is that this answer is
    /// the one more in the history.
    #[verifier::external_body]
    pub(crate) fn next_waiting(&mut self) -> (next: Option<T>)
        ensures
            final(self).answers() == old(self).answers().push(next),
    {
        self.queue.try_recv().ok()
    }
}

} // verus!
