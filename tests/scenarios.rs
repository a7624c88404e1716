use std::cell::RefCell;
use std::rc::Rc;
use thread_pool::channel::{Received, WorkQueue};
use thread_pool::pool::{check_size, worker_ids, Workers};
use thread_pool::worker::{event_of, WorkerEvent, WorkerPhase};

type Job = Box<dyn FnOnce()>;

/// One turn of a worker: receive once, and run the job if there is one.
fn turn(q: &mut WorkQueue<Job>, phase: WorkerPhase) -> WorkerPhase {
    if phase.is_stopped() {
        return phase;
    }
    let r = q.receive();
    let next = phase.step(event_of(&r));
    match r {
        Received::Job(job) => {
            job();
            next.step(WorkerEvent::JobFinished)
        }
        _ => next,
    }
}

/// Releases the sending side, lets the workers take turns until every one
/// has stopped, then takes every worker handle: the shape of teardown.
fn teardown(q: &mut WorkQueue<Job>, phases: &mut [WorkerPhase], workers: &mut Workers<usize>) -> Vec<(usize, usize)> {
    q.close();
    while phases.iter().any(|p| !p.is_stopped()) {
        for p in phases.iter_mut() {
            *p = turn(q, *p);
        }
    }
    workers.take_all()
}

fn pool(n: usize) -> (Workers<usize>, Vec<WorkerPhase>) {
    let size = check_size(n).unwrap();
    let ids = worker_ids(size);
    let phases = ids.iter().map(|_| WorkerPhase::start()).collect();
    (Workers::from_handles(ids), phases)
}

#[test]
fn single_worker_runs_jobs_in_submission_order() {
    let (mut workers, mut phases) = pool(1);
    let mut q: WorkQueue<Job> = WorkQueue::new();
    let marks = Rc::new(RefCell::new(Vec::new()));
    let m1 = marks.clone();
    let slow: Job = Box::new(move || {
        // Stands for a job that takes a while before it records its marker.
        let mut spin: u64 = 0;
        for i in 0..50_000u64 {
            spin = spin.wrapping_add(i);
        }
        assert!(spin > 0);
        m1.borrow_mut().push("first");
    });
    let m2 = marks.clone();
    let quick: Job = Box::new(move || m2.borrow_mut().push("second"));
    q.send(slow).ok().unwrap();
    q.send(quick).ok().unwrap();
    let joined = teardown(&mut q, &mut phases, &mut workers);
    assert_eq!(joined, vec![(1, 1)]);
    assert_eq!(*marks.borrow(), vec!["first", "second"]);
}

#[test]
fn four_workers_run_twenty_increments() {
    let (mut workers, mut phases) = pool(4);
    let mut q: WorkQueue<Job> = WorkQueue::new();
    let counter = Rc::new(RefCell::new(0u32));
    for _ in 0..20 {
        let c = counter.clone();
        q.send(Box::new(move || *c.borrow_mut() += 1)).ok().unwrap();
    }
    // Some work is picked up before teardown begins.
    phases[2] = turn(&mut q, phases[2]);
    phases[0] = turn(&mut q, phases[0]);
    let joined = teardown(&mut q, &mut phases, &mut workers);
    assert_eq!(joined.iter().map(|w| w.0).collect::<Vec<_>>(), vec![1, 2, 3, 4]);
    assert_eq!(*counter.borrow(), 20);
    assert!(phases.iter().all(|p| p.is_stopped()));
}

#[test]
fn bounded_job_finishes_before_teardown_returns() {
    let (mut workers, mut phases) = pool(2);
    let mut q: WorkQueue<Job> = WorkQueue::new();
    let done = Rc::new(RefCell::new(false));
    let d = done.clone();
    q.send(Box::new(move || {
        let mut steps: u32 = 0;
        while steps < 1000 {
            steps += 1;
        }
        *d.borrow_mut() = steps == 1000;
    }))
    .ok()
    .unwrap();
    let joined = teardown(&mut q, &mut phases, &mut workers);
    assert!(*done.borrow());
    assert_eq!(joined.len(), 2);
    assert_eq!(workers.count(), 0);
}

#[test]
fn idle_pool_tears_down_cleanly() {
    let (mut workers, mut phases) = pool(3);
    let mut q: WorkQueue<Job> = WorkQueue::new();
    let joined = teardown(&mut q, &mut phases, &mut workers);
    assert_eq!(joined, vec![(1, 1), (2, 2), (3, 3)]);
    assert!(matches!(q.receive(), Received::Closed));
}
