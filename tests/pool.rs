use thread_pool::pool::{check_size, worker_ids, PoolError, Workers};

#[test]
fn zero_workers_is_refused() {
    assert_eq!(check_size(0), Err(PoolError::NoWorkers));
}

#[test]
fn positive_sizes_are_accepted() {
    assert_eq!(check_size(1), Ok(1));
    assert_eq!(check_size(4), Ok(4));
}

#[test]
fn ids_run_from_one_to_size() {
    assert_eq!(worker_ids(4), vec![1, 2, 3, 4]);
    assert_eq!(worker_ids(1), vec![1]);
    assert!(worker_ids(0).is_empty());
}

#[test]
fn pool_holds_exactly_its_workers() {
    for n in 1..=8usize {
        let handles: Vec<String> = worker_ids(n).iter().map(|i| format!("h{i}")).collect();
        let w = Workers::from_handles(handles);
        assert_eq!(w.count(), n);
    }
}

#[test]
fn teardown_takes_each_worker_once_in_id_order() {
    let mut w = Workers::from_handles(vec!["a", "b", "c"]);
    let taken = w.take_all();
    assert_eq!(taken, vec![(1, "a"), (2, "b"), (3, "c")]);
    assert_eq!(w.count(), 0);
    assert!(w.take_all().is_empty());
}
