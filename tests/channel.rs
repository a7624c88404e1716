use thread_pool::channel::{Received, WorkQueue};

fn job_of(r: Received<u32>) -> Option<u32> {
    match r {
        Received::Job(j) => Some(j),
        _ => None,
    }
}

#[test]
fn fresh_queue_is_open_and_empty() {
    let mut q: WorkQueue<u32> = WorkQueue::new();
    assert_eq!(q.len(), 0);
    assert!(!q.is_closed());
    assert!(matches!(q.receive(), Received::Empty));
}

#[test]
fn jobs_come_out_in_order_sent() {
    let mut q = WorkQueue::new();
    for j in [7u32, 3, 9] {
        assert_eq!(q.send(j), Ok(()));
    }
    assert_eq!(q.len(), 3);
    assert_eq!(job_of(q.receive()), Some(7));
    assert_eq!(job_of(q.receive()), Some(3));
    assert_eq!(job_of(q.receive()), Some(9));
    assert!(matches!(q.receive(), Received::Empty));
}

#[test]
fn close_keeps_queued_jobs_then_reports_closed() {
    let mut q = WorkQueue::new();
    q.send(1u32).unwrap();
    q.send(2u32).unwrap();
    q.close();
    assert!(q.is_closed());
    assert_eq!(q.len(), 2);
    assert_eq!(job_of(q.receive()), Some(1));
    assert_eq!(job_of(q.receive()), Some(2));
    assert!(matches!(q.receive(), Received::Closed));
    assert!(matches!(q.receive(), Received::Closed));
}

#[test]
fn send_after_close_hands_the_job_back() {
    let mut q = WorkQueue::new();
    q.close();
    assert_eq!(q.send(5u32), Err(5));
    assert_eq!(q.len(), 0);
    assert!(matches!(q.receive(), Received::Closed));
}

#[test]
fn interleaved_sends_and_receives_deliver_each_job_once() {
    let mut q = WorkQueue::new();
    let mut got = Vec::new();
    q.send(1u32).unwrap();
    got.extend(job_of(q.receive()));
    assert!(matches!(q.receive(), Received::Empty));
    q.send(2u32).unwrap();
    q.send(3u32).unwrap();
    got.extend(job_of(q.receive()));
    q.send(4u32).unwrap();
    q.close();
    loop {
        match q.receive() {
            Received::Job(j) => got.push(j),
            Received::Closed => break,
            Received::Empty => panic!("a released queue never reports empty"),
        }
    }
    assert_eq!(got, vec![1, 2, 3, 4]);
}

#[test]
fn several_submitters_lose_and_duplicate_nothing() {
    let mut q = WorkQueue::new();
    let a = [10u32, 11, 12];
    let b = [20u32, 21];
    // Arrival order interleaves the two submitters.
    for j in [a[0], b[0], a[1], a[2], b[1]] {
        q.send(j).unwrap();
    }
    q.close();
    let mut got = Vec::new();
    while let Received::Job(j) = q.receive() {
        got.push(j);
    }
    got.sort();
    assert_eq!(got, vec![10, 11, 12, 20, 21]);
}
