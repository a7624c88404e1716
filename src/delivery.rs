//! What the work queue guarantees over whole runs: however sends and
//! receives interleave, once the sending side is released and the workers
//! drain the queue, every job sent has been delivered exactly once, in the
//! order it arrived, and only then is closure reported.
use crate::channel::{fresh_queue, queue_close, queue_receive, queue_send, QueueState, Received};
use vstd::multiset::Multiset;
use vstd::prelude::*;

verus! {

/// One step against the queue: a submitter sends a job, or a worker receives.
pub enum QueueOp<T> {
    Send(T),
    Receive,
}

/// Applies `ops` in order from `s`; returns the final state and what each
/// receive yielded, in order.
pub open spec fn run_ops<T>(s: QueueState<T>, ops: Seq<QueueOp<T>>) -> (QueueState<T>, Seq<Received<T>>)
    decreases ops.len(),
{
    if ops.len() == 0 {
        (s, Seq::empty())
    } else {
        let (s1, rs) = run_ops(s, ops.drop_last());
        match ops.last() {
            QueueOp::Send(job) => (queue_send(s1, job), rs),
            QueueOp::Receive => {
                let (s2, r) = queue_receive(s1);
                (s2, rs.push(r))
            },
        }
    }
}

/// `n` receives in a row from `s`.
pub open spec fn receive_times<T>(s: QueueState<T>, n: nat) -> (QueueState<T>, Seq<Received<T>>)
    decreases n,
{
    if n == 0 {
        (s, Seq::empty())
    } else {
        let (s1, r) = queue_receive(s);
        let (s2, rs) = receive_times(s1, (n - 1) as nat);
        (s2, seq![r] + rs)
    }
}

/// The jobs that `ops` send, in order.
pub open spec fn sent_jobs<T>(ops: Seq<QueueOp<T>>) -> Seq<T>
    decreases ops.len(),
{
    if ops.len() == 0 {
        Seq::empty()
    } else {
        match ops.last() {
            QueueOp::Send(job) => sent_jobs(ops.drop_last()).push(job),
            QueueOp::Receive => sent_jobs(ops.drop_last()),
        }
    }
}

/// The jobs handed out among the receive results `rs`, in order.
pub open spec fn delivered<T>(rs: Seq<Received<T>>) -> Seq<T>
    decreases rs.len(),
{
    if rs.len() == 0 {
        Seq::empty()
    } else {
        match rs.last() {
            Received::Job(job) => delivered(rs.drop_last()).push(job),
            _ => delivered(rs.drop_last()),
        }
    }
}

/// Every job of every submitter, counted with multiplicity.
pub open spec fn all_submitted<T>(calls: Seq<Seq<T>>) -> Multiset<T>
    decreases calls.len(),
{
    if calls.len() == 0 {
        Multiset::empty()
    } else {
        all_submitted(calls.drop_last()).add(calls.last().to_multiset())
    }
}

proof fn lemma_delivered_concat<T>(a: Seq<Received<T>>, b: Seq<Received<T>>)
    ensures
        delivered(a + b) == delivered(a) + delivered(b),
    decreases b.len(),
{
    if b.len() == 0 {
        assert(a + b =~= a);
        assert(delivered(b) =~= Seq::<T>::empty());
        assert(delivered(a) + delivered(b) =~= delivered(a));
    } else {
        lemma_delivered_concat(a, b.drop_last());
        assert((a + b).drop_last() =~= a + b.drop_last());
        assert((a + b).last() == b.last());
        match b.last() {
            Received::Job(job) => {
                assert(delivered(a) + delivered(b) =~= (delivered(a) + delivered(b.drop_last())).push(job));
            },
            _ => {},
        }
    }
}

/// From a queue whose sending side is still held, whatever was sent is
/// either delivered or still pending, in order.
proof fn lemma_run_accounts_for_sends<T>(ops: Seq<QueueOp<T>>)
    ensures
        !run_ops(fresh_queue::<T>(), ops).0.closed,
        delivered(run_ops(fresh_queue::<T>(), ops).1) + run_ops(fresh_queue::<T>(), ops).0.pending
            == sent_jobs(ops),
    decreases ops.len(),
{
    if ops.len() == 0 {
        assert(Seq::<T>::empty() + Seq::<T>::empty() =~= Seq::<T>::empty());
    } else {
        let prev = ops.drop_last();
        lemma_run_accounts_for_sends(prev);
        let (s1, rs) = run_ops(fresh_queue::<T>(), prev);
        match ops.last() {
            QueueOp::Send(job) => {
                assert(delivered(rs) + s1.pending.push(job) =~= (delivered(rs) + s1.pending).push(job));
            },
            QueueOp::Receive => {
                let (s2, r) = queue_receive(s1);
                if s1.pending.len() > 0 {
                    assert(delivered(rs.push(r)) == delivered(rs).push(s1.pending[0])) by {
                        assert(rs.push(r).drop_last() =~= rs);
                    }
                    assert(delivered(rs).push(s1.pending[0]) + s2.pending =~= delivered(rs) + s1.pending);
                } else {
                    assert(delivered(rs.push(r)) == delivered(rs)) by {
                        assert(rs.push(r).drop_last() =~= rs);
                    }
                }
            },
        }
    }
}

/// Draining a released queue with one more receive than it holds yields
/// each queued job once, oldest first, and then `Closed`.
proof fn lemma_drain_released<T>(s: QueueState<T>)
    requires
        s.closed,
    ensures
        receive_times(s, s.pending.len() + 1).1 == s.pending.map_values(|j: T| Received::Job(j)).push(
            Received::<T>::Closed,
        ),
        receive_times(s, s.pending.len() + 1).0.pending.len() == 0,
    decreases s.pending.len(),
{
    let n = s.pending.len();
    if n == 0 {
        let (s1, r) = queue_receive(s);
        assert(receive_times(s1, 0).1 =~= Seq::<Received<T>>::empty());
        assert(seq![r] + Seq::<Received<T>>::empty() =~= s.pending.map_values(|j: T| Received::Job(j)).push(
            Received::<T>::Closed,
        ));
    } else {
        let (s1, r) = queue_receive(s);
        lemma_drain_released(s1);
        assert(s1.pending.len() + 1 == n);
        assert(seq![r] + s1.pending.map_values(|j: T| Received::Job(j)).push(Received::<T>::Closed)
            =~= s.pending.map_values(|j: T| Received::Job(j)).push(Received::<T>::Closed));
    }
}

proof fn lemma_delivered_of_jobs<T>(p: Seq<T>)
    ensures
        delivered(p.map_values(|j: T| Received::Job(j)).push(Received::<T>::Closed)) == p,
{
    let m = p.map_values(|j: T| Received::Job(j));
    assert(delivered(m.push(Received::<T>::Closed)) == delivered(m)) by {
        assert(m.push(Received::<T>::Closed).drop_last() =~= m);
    }
    lemma_delivered_of_job_seq(p);
}

proof fn lemma_delivered_of_job_seq<T>(p: Seq<T>)
    ensures
        delivered(p.map_values(|j: T| Received::Job(j))) == p,
    decreases p.len(),
{
    if p.len() == 0 {
        assert(p.map_values(|j: T| Received::Job(j)) =~= Seq::<Received<T>>::empty());
        assert(p =~= Seq::<T>::empty());
    } else {
        lemma_delivered_of_job_seq(p.drop_last());
        assert(p.map_values(|j: T| Received::Job(j)).drop_last() =~= p.drop_last().map_values(
            |j: T| Received::Job(j),
        ));
        assert(p.drop_last().push(p.last()) =~= p);
    }
}

/// Whatever the interleaving of sends and receives, and even when the
/// sending side is released right after the last send: once the workers
/// keep receiving until told the queue is closed, every job sent has been
/// delivered exactly once, in the order it was sent, nothing is left
/// queued, and closure is reported only after the last job.
pub proof fn lemma_every_sent_job_runs_once<T>(ops: Seq<QueueOp<T>>)
    ensures
        ({
            let (s1, before) = run_ops(fresh_queue::<T>(), ops);
            let s2 = queue_close(s1);
            let (s3, after) = receive_times(s2, s2.pending.len() + 1);
            &&& delivered(before + after) == sent_jobs(ops)
            &&& after.last() == Received::<T>::Closed
            &&& s3.pending.len() == 0
        }),
{
    let (s1, before) = run_ops(fresh_queue::<T>(), ops);
    let s2 = queue_close(s1);
    lemma_run_accounts_for_sends(ops);
    lemma_drain_released(s2);
    let after = receive_times(s2, s2.pending.len() + 1).1;
    lemma_delivered_of_jobs(s2.pending);
    lemma_delivered_concat(before, after);
}

/// Jobs from several submitters, arriving at the queue in any interleaving,
/// are each delivered exactly once: none is duplicated and none is lost.
pub proof fn lemma_concurrent_submitters_each_once<T>(calls: Seq<Seq<T>>, ops: Seq<QueueOp<T>>)
    requires
        sent_jobs(ops).to_multiset() == all_submitted(calls),
    ensures
        ({
            let (s1, before) = run_ops(fresh_queue::<T>(), ops);
            let s2 = queue_close(s1);
            let (s3, after) = receive_times(s2, s2.pending.len() + 1);
            delivered(before + after).to_multiset() == all_submitted(calls)
        }),
{
    lemma_every_sent_job_runs_once(ops);
}

} // verus!
