use actor_pool::{worker_index, Pool, PoolError};
use std::cell::Cell;

fn numbered_pool(size: usize) -> Result<Pool<usize>, PoolError> {
    let started = Cell::new(0usize);
    Pool::new(size, || {
        let id = started.get();
        started.set(id + 1);
        id
    })
}

#[test]
fn worker_index_is_cursor_modulo_size() {
    assert_eq!(worker_index(0, 3), 0);
    assert_eq!(worker_index(7, 3), 1);
    assert_eq!(worker_index(5, 5), 0);
    assert_eq!(worker_index(42, 1), 0);
    assert_eq!(worker_index(usize::MAX, 2), 1);
    assert_eq!(worker_index(usize::MAX, 10), 5);
}

#[test]
fn empty_pool_is_refused() {
    assert!(matches!(numbered_pool(0), Err(PoolError::EmptyPool)));
}

#[test]
fn pool_of_four_has_four_distinct_workers() {
    let pool = numbered_pool(4).unwrap();
    assert_eq!(pool.size(), 4);
    let mut seen: Vec<usize> = (0..4).map(|_| *pool.next_worker()).collect();
    seen.sort();
    assert_eq!(seen, vec![0, 1, 2, 3]);
}

#[test]
fn factory_runs_once_per_worker() {
    let calls = Cell::new(0usize);
    let pool = Pool::new(6, || calls.set(calls.get() + 1)).unwrap();
    assert_eq!(pool.size(), 6);
    assert_eq!(calls.get(), 6);
}

#[test]
fn single_worker_pool_always_selects_it() {
    let pool = numbered_pool(1).unwrap();
    for _ in 0..10 {
        assert_eq!(*pool.next_worker(), 0);
    }
}

#[test]
fn round_robin_repeats_the_worker_order() {
    let size = 3;
    let rounds = 4;
    let pool = numbered_pool(size).unwrap();
    let picked: Vec<usize> = (0..size * rounds).map(|_| *pool.next_worker()).collect();
    let expected: Vec<usize> = (0..rounds).flat_map(|_| 0..size).collect();
    assert_eq!(picked, expected);
    for w in 0..size {
        assert_eq!(picked.iter().filter(|&&p| p == w).count(), rounds);
    }
}

#[test]
fn round_robin_is_fair_from_any_cursor() {
    let size = 5;
    let pool = numbered_pool(size).unwrap();
    for _ in 0..3 {
        pool.next_worker();
    }
    let picked: Vec<usize> = (0..size * 2).map(|_| *pool.next_worker()).collect();
    assert_eq!(picked, vec![3, 4, 0, 1, 2, 3, 4, 0, 1, 2]);
    for w in 0..size {
        assert_eq!(picked.iter().filter(|&&p| p == w).count(), 2);
    }
}
