//! The work queue: an unbounded FIFO of jobs with a sending side that can be
//! released. Once released, receives still drain what was queued and only
//! then report that the queue is closed.
use std::collections::VecDeque;
use vstd::prelude::*;

verus! {

/// What one receive attempt on the work queue yields.
pub enum Received<T> {
    /// The job at the front of the queue, now removed from it.
    Job(T),
    /// Nothing is queued, but the sending side is still held: the caller waits.
    Empty,
    /// Nothing is queued and the sending side has been released: no job will come.
    Closed,
}

/// The abstract state of a work queue: the jobs not yet received, oldest
/// first, and whether the sending side has been released.
pub struct QueueState<T> {
    pub pending: Seq<T>,
    pub closed: bool,
}

/// The state of a freshly created queue.
pub open spec fn fresh_queue<T>() -> QueueState<T> {
    QueueState { pending: Seq::empty(), closed: false }
}

/// Sending appends the job while the sending side is held; afterwards it
/// changes nothing.
pub open spec fn queue_send<T>(s: QueueState<T>, job: T) -> QueueState<T> {
    if s.closed {
        s
    } else {
        QueueState { pending: s.pending.push(job), ..s }
    }
}

/// Receiving removes the oldest job; with none queued it reports `Empty`
/// or, once the sending side is released, `Closed`.
pub open spec fn queue_receive<T>(s: QueueState<T>) -> (QueueState<T>, Received<T>) {
    if s.pending.len() > 0 {
        (QueueState { pending: s.pending.drop_first(), ..s }, Received::Job(s.pending[0]))
    } else if s.closed {
        (s, Received::Closed)
    } else {
        (s, Received::Empty)
    }
}

/// Releasing the sending side keeps every queued job.
pub open spec fn queue_close<T>(s: QueueState<T>) -> QueueState<T> {
    QueueState { closed: true, ..s }
}

/// A FIFO of jobs shared between one sending side and any number of
/// receivers; the caller provides mutual exclusion and blocking.
pub struct WorkQueue<T> {
    jobs: VecDeque<T>,
    closed: bool,
}

impl<T> View for WorkQueue<T> {
    type V = QueueState<T>;

    closed spec fn view(&self) -> QueueState<T> {
        QueueState { pending: self.jobs@, closed: self.closed }
    }
}

impl<T> WorkQueue<T> {
    /// An empty queue whose sending side is held.
    pub fn new() -> (q: Self)
        ensures
            q@ == fresh_queue::<T>(),
    {
        WorkQueue { jobs: VecDeque::new(), closed: false }
    }

    /// Enqueues `job` behind every job sent before it. Once the sending
    /// side is released the job is handed back as the error.
    pub fn send(&mut self, job: T) -> (r: Result<(), T>)
        ensures
            final(self)@ == queue_send(old(self)@, job),
            old(self)@.closed ==> r == Err::<(), T>(job),
            !old(self)@.closed ==> r == Ok::<(), T>(()),
    {
        if self.closed {
            Err(job)
        } else {
            self.jobs.push_back(job);
            Ok(())
        }
    }

    /// Removes and returns the oldest job, or says why there is none.
    pub fn receive(&mut self) -> (r: Received<T>)
        ensures
            (final(self)@, r) == queue_receive(old(self)@),
    {
        match self.jobs.pop_front() {
            Some(job) => {
                proof {
                    assert(self.jobs@ =~= old(self)@.pending.drop_first());
                }
                Received::Job(job)
            },
            None => {
                if self.closed {
                    Received::Closed
                } else {
                    Received::Empty
                }
            },
        }
    }

    /// Releases the sending side: no job is accepted afterwards, and the
    /// queued ones stay to be received.
    pub fn close(&mut self)
        ensures
            final(self)@ == queue_close(old(self)@),
    {
        self.closed = true;
    }

    /// Whether the sending side has been released.
    pub fn is_closed(&self) -> (r: bool)
        ensures
            r == self@.closed,
    {
        self.closed
    }

    /// The number of jobs waiting to be received.
    pub fn len(&self) -> (r: usize)
        ensures
            r == self@.pending.len(),
    {
        self.jobs.len()
    }
}

} // verus!
