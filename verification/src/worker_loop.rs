//! How many operations a worker carries at once, and when it may stop.
//!
//! The caller waits for what the loop says it can take, tells it what happened, and carries out the
//! step that comes back.

use vstd::prelude::*;
use crate::dispatch::worker_width;

verus! {

/// A worker's loop.
#[derive(Debug, Clone, Copy, PartialEq, Eq, Structural)]
pub struct WorkerLoop {
    /// How many operations may run at once.
    pub width: usize,
    /// How many are running.
    pub running: usize,
    /// Whether the worker takes no more jobs.
    pub closing: bool,
}

/// What happens to a worker.
#[derive(Debug, Clone, Copy, PartialEq, Eq, Structural)]
pub enum WorkerEvent {
    /// A job came out of the queue.
    Received,
    /// An operation was answered.
    Answered,
    /// The worker was told to stop, or its queue is closed.
    Closed,
}

/// What a worker does next.
#[derive(Debug, Clone, Copy, PartialEq, Eq, Structural)]
pub enum WorkerStep {
    /// Waits for a job or for an answer.
    TakeJobs,
    /// Waits for an answer: there is no room for a job, or none is taken any more.
    AwaitAnswer,
    /// Stops: everything it accepted is answered.
    Stop,
}

/// Whether a loop is one that can come about.
pub open spec fn loop_holds(worker: WorkerLoop) -> bool {
    worker.width >= 1 && worker.running <= worker.width
}

/// Whether something can happen to a worker: it takes a job only where it has room to start it, so
/// that its queue fills up where it has not.
pub open spec fn loop_allows(worker: WorkerLoop, event: WorkerEvent) -> bool {
    match event {
        WorkerEvent::Received => !worker.closing && worker.running < worker.width,
        WorkerEvent::Answered => worker.running > 0,
        WorkerEvent::Closed => !worker.closing && worker.running < worker.width,
    }
}

/// A worker after something happened to it.
pub open spec fn loop_after(worker: WorkerLoop, event: WorkerEvent) -> WorkerLoop {
    match event {
        WorkerEvent::Received => WorkerLoop { running: (worker.running + 1) as usize, ..worker },
        WorkerEvent::Answered => WorkerLoop { running: (worker.running - 1) as usize, ..worker },
        WorkerEvent::Closed => WorkerLoop { closing: true, ..worker },
    }
}

/// What a worker does next.
pub open spec fn step_of(worker: WorkerLoop) -> WorkerStep {
    if worker.closing && worker.running == 0 {
        WorkerStep::Stop
    } else if worker.closing || worker.running == worker.width {
        WorkerStep::AwaitAnswer
    } else {
        WorkerStep::TakeJobs
    }
}

impl WorkerLoop {
    /// A worker that carries nothing yet.
    pub fn new(max_in_flight: usize) -> (worker: WorkerLoop)
        ensures
            worker == (WorkerLoop {
                width: if max_in_flight == 0 {
                    1
                } else {
                    max_in_flight
                },
                running: 0,
                closing: false,
            }),
            loop_holds(worker),
    {
        WorkerLoop { width: worker_width(max_in_flight), running: 0, closing: false }
    }

    /// Whether something can happen to the worker.
    pub fn allows(&self, event: WorkerEvent) -> (possible: bool)
        ensures
            possible == loop_allows(*self, event),
    {
        match event {
            WorkerEvent::Received => !self.closing && self.running < self.width,
            WorkerEvent::Answered => self.running > 0,
            WorkerEvent::Closed => !self.closing && self.running < self.width,
        }
    }

    /// Takes note of what happened.
    pub fn note(&mut self, event: WorkerEvent)
        requires
            loop_holds(*old(self)),
            loop_allows(*old(self), event),
        ensures
            *final(self) == loop_after(*old(self), event),
            loop_holds(*final(self)),
    {
        match event {
            WorkerEvent::Received => {
                self.running = self.running + 1;
            },
            WorkerEvent::Answered => {
                self.running = self.running - 1;
            },
            WorkerEvent::Closed => {
                self.closing = true;
            },
        }
    }

    /// What the worker does next.
    pub fn step(&self) -> (step: WorkerStep)
        ensures
            step == step_of(*self),
    {
        if self.closing && self.running == 0 {
            WorkerStep::Stop
        } else if self.closing || self.running == self.width {
            WorkerStep::AwaitAnswer
        } else {
            WorkerStep::TakeJobs
        }
    }
}

/// Whether some events can follow each other, from a loop on.
pub open spec fn can_follow(worker: WorkerLoop, events: Seq<WorkerEvent>) -> bool
    decreases events.len(),
{
    events.len() == 0 || (can_follow(worker, events.drop_last()) && loop_allows(
        loop_through(worker, events.drop_last()),
        events.last(),
    ))
}

/// A loop after some events.
pub open spec fn loop_through(worker: WorkerLoop, events: Seq<WorkerEvent>) -> WorkerLoop
    decreases events.len(),
{
    if events.len() == 0 {
        worker
    } else {
        loop_after(loop_through(worker, events.drop_last()), events.last())
    }
}

/// How often an event is among some.
pub open spec fn times(events: Seq<WorkerEvent>, event: WorkerEvent) -> nat
    decreases events.len(),
{
    if events.len() == 0 {
        0
    } else {
        times(events.drop_last(), event) + (if events.last() == event {
            1nat
        } else {
            0nat
        })
    }
}

/// Whatever happens, a worker never carries more than its width, and it carries what it accepted and
/// has not answered. So once it stops, everything it accepted is answered.
pub proof fn law_a_worker_answers_all_it_accepts(width: usize, events: Seq<WorkerEvent>)
    requires
        width >= 1,
        can_follow((WorkerLoop { width, running: 0, closing: false }), events),
    ensures
        ({
            let worker = loop_through(
                (WorkerLoop { width, running: 0, closing: false }),
                events,
            );
            &&& worker.width == width
            &&& worker.running <= width
            &&& times(events, WorkerEvent::Received) == times(events, WorkerEvent::Answered)
                + worker.running
            &&& step_of(worker) is Stop ==> times(events, WorkerEvent::Received) == times(
                events,
                WorkerEvent::Answered,
            )
        }),
    decreases events.len(),
{
    if events.len() > 0 {
        law_a_worker_answers_all_it_accepts(width, events.drop_last());
    }
}

/// A worker that has not stopped always waits for something that can happen.
pub proof fn law_a_worker_never_stalls(worker: WorkerLoop)
    requires
        loop_holds(worker),
    ensures
        step_of(worker) is TakeJobs <==> loop_allows(worker, WorkerEvent::Received),
        step_of(worker) is AwaitAnswer ==> loop_allows(worker, WorkerEvent::Answered),
{
}

} // verus!
