//! The loop each worker runs, as a state machine: wait for a job, run it,
//! wait again, until the queue reports that it is closed.
use crate::channel::Received;
use vstd::prelude::*;

verus! {

/// Where a worker stands in its loop.
#[derive(PartialEq, Eq, Structural, Clone, Copy, Debug)]
pub enum WorkerPhase {
    /// Blocked on a receive from the shared queue.
    Waiting,
    /// Running a job it dequeued; the queue is free for other workers.
    Running,
    /// The queue reported closure; the worker has left its loop for good.
    Stopped,
}

/// What a worker observes.
#[derive(PartialEq, Eq, Structural, Clone, Copy, Debug)]
pub enum WorkerEvent {
    /// A receive handed it a job.
    GotJob,
    /// A receive found the queue empty but still open.
    NoJobYet,
    /// A receive found the queue empty and released.
    ChannelClosed,
    /// The job it was running returned.
    JobFinished,
}

/// The transition relation of the worker loop. Events that cannot occur in
/// a phase leave it unchanged.
pub open spec fn next_phase(p: WorkerPhase, e: WorkerEvent) -> WorkerPhase {
    match (p, e) {
        (WorkerPhase::Waiting, WorkerEvent::GotJob) => WorkerPhase::Running,
        (WorkerPhase::Waiting, WorkerEvent::ChannelClosed) => WorkerPhase::Stopped,
        (WorkerPhase::Running, WorkerEvent::JobFinished) => WorkerPhase::Waiting,
        _ => p,
    }
}

/// The event that a receive result means to the worker that got it.
pub open spec fn event_of_spec<T>(r: Received<T>) -> WorkerEvent {
    match r {
        Received::Job(_) => WorkerEvent::GotJob,
        Received::Empty => WorkerEvent::NoJobYet,
        Received::Closed => WorkerEvent::ChannelClosed,
    }
}

/// Classifies a receive result as a worker event.
pub fn event_of<T>(r: &Received<T>) -> (e: WorkerEvent)
    ensures
        e == event_of_spec(*r),
{
    match r {
        Received::Job(_) => WorkerEvent::GotJob,
        Received::Empty => WorkerEvent::NoJobYet,
        Received::Closed => WorkerEvent::ChannelClosed,
    }
}

impl WorkerPhase {
    /// The phase a worker starts in.
    pub fn start() -> (p: WorkerPhase)
        ensures
            p == WorkerPhase::Waiting,
    {
        WorkerPhase::Waiting
    }

    /// Moves the worker on by one event.
    pub fn step(self, e: WorkerEvent) -> (p: WorkerPhase)
        ensures
            p == next_phase(self, e),
    {
        match (self, e) {
            (WorkerPhase::Waiting, WorkerEvent::GotJob) => WorkerPhase::Running,
            (WorkerPhase::Waiting, WorkerEvent::ChannelClosed) => WorkerPhase::Stopped,
            (WorkerPhase::Running, WorkerEvent::JobFinished) => WorkerPhase::Waiting,
            _ => self,
        }
    }

    /// Whether the worker has left its loop.
    pub fn is_stopped(&self) -> (r: bool)
        ensures
            r == (*self == WorkerPhase::Stopped),
    {
        match self {
            WorkerPhase::Stopped => true,
            _ => false,
        }
    }
}

/// The phase reached from `p` after the events `es`, in order.
pub open spec fn phase_after(p: WorkerPhase, es: Seq<WorkerEvent>) -> WorkerPhase
    decreases es.len(),
{
    if es.len() == 0 {
        p
    } else {
        next_phase(phase_after(p, es.drop_last()), es.last())
    }
}

/// A stopped worker stays stopped whatever it observes, and a worker stops
/// only on being told that the queue is closed while it waits.
pub proof fn lemma_stopped_is_final(p: WorkerPhase, es: Seq<WorkerEvent>)
    ensures
        p == WorkerPhase::Stopped ==> phase_after(p, es) == WorkerPhase::Stopped,
        forall|q: WorkerPhase, e: WorkerEvent|
            q != WorkerPhase::Stopped && next_phase(q, e) == WorkerPhase::Stopped ==> q
                == WorkerPhase::Waiting && e == WorkerEvent::ChannelClosed,
    decreases es.len(),
{
    if es.len() > 0 {
        lemma_stopped_is_final(p, es.drop_last());
    }
}

} // verus!
