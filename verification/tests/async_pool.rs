use std::sync::{
    atomic::{AtomicUsize, Ordering},
    Arc,
};
use std::time::Duration;
use thread_pool::async_pool::{drain_action, AsyncPool, DrainAction};
use thread_pool::PoolError;

#[test]
fn test_block_on_returns_value() {
    let pool = AsyncPool::new(2).unwrap();
    let result = pool.lend().block_on(async { 6 * 7 });
    assert_eq!(result, 42);
}

#[test]
fn test_spawn_and_await() {
    let pool = AsyncPool::new(2).unwrap();
    let counter = Arc::new(AtomicUsize::new(0));

    let handles: Vec<_> = (0..8)
        .map(|_| {
            let counter = Arc::clone(&counter);
            pool.spawn(async move {
                counter.fetch_add(1, Ordering::Relaxed);
            })
        })
        .collect();

    // Await all spawned tasks.
    pool.lend().block_on(async {
        for h in handles {
            h.await.unwrap();
        }
    });

    assert_eq!(counter.load(Ordering::Relaxed), 8);
}

#[test]
fn async_pool_test_invalid_size() {
    assert!(AsyncPool::new(0).is_err());
    assert!(matches!(AsyncPool::new(0), Err(PoolError::InvalidSize)));
}

#[test]
fn runtime_has_the_threads_asked_for() {
    let pool = AsyncPool::new(3).unwrap();
    let workers = pool
        .lend()
        .block_on(async { tokio::runtime::Handle::current().metrics().num_workers() });
    assert_eq!(workers, 3);
}

#[test]
fn spawned_future_hands_out_its_output() {
    let pool = AsyncPool::new(1).unwrap();
    let handle = pool.spawn(async { 6u64 });
    assert_eq!(pool.lend().block_on(handle).unwrap(), 6);
}

#[test]
fn panic_of_a_task_leaves_the_pool_usable() {
    let pool = AsyncPool::new(1).unwrap();
    let handle = pool.spawn(async { panic!("task panic") });
    assert!(pool.lend().block_on(handle).is_err());
    assert_eq!(pool.lend().block_on(async { 1 }), 1);
}

#[test]
fn failure_to_build_a_runtime_is_a_send_error() {
    let failed = Err(std::io::Error::new(std::io::ErrorKind::Other, "no threads"));
    assert!(matches!(AsyncPool::adopt(failed), Err(PoolError::SendError)));
}

#[test]
fn runtime_that_was_built_is_adopted() {
    let built = tokio::runtime::Builder::new_multi_thread()
        .worker_threads(2)
        .build();
    let pool = AsyncPool::adopt(built).unwrap();
    assert_eq!(pool.lend().block_on(async { "ready" }), "ready");
}

#[test]
fn awaited_spawn_gives_what_block_on_gives() {
    let pool = AsyncPool::new(2).unwrap();
    let handle = pool.spawn(async { 6 * 7 });
    let awaited = pool.lend().block_on(handle).unwrap();
    assert_eq!(awaited, pool.lend().block_on(async { 6 * 7 }));
}

#[test]
fn task_goes_on_when_its_handle_is_dropped() {
    let pool = AsyncPool::new(1).unwrap();
    let counter = Arc::new(AtomicUsize::new(0));
    let shared = Arc::clone(&counter);
    drop(pool.spawn(async move {
        tokio::time::sleep(Duration::from_millis(5)).await;
        shared.fetch_add(1, Ordering::SeqCst);
    }));
    while pool.drain() == DrainAction::Wait {
        pool.lend().block_on(async { tokio::time::sleep(Duration::from_millis(1)).await });
    }
    assert_eq!(counter.load(Ordering::SeqCst), 1);
}

#[test]
fn drained_pool_has_run_all_its_tasks() {
    let pool = AsyncPool::new(2).unwrap();
    let counter = Arc::new(AtomicUsize::new(0));
    for i in 0..16u64 {
        let counter = Arc::clone(&counter);
        pool.spawn(async move {
            tokio::time::sleep(Duration::from_millis(i)).await;
            counter.fetch_add(1, Ordering::SeqCst);
        });
    }
    assert_eq!(pool.drain(), DrainAction::Wait);
    while pool.drain() == DrainAction::Wait {
        pool.lend().block_on(async { tokio::time::sleep(Duration::from_millis(1)).await });
    }
    drop(pool);
    assert_eq!(counter.load(Ordering::SeqCst), 16);
}

#[test]
fn idle_pool_is_drained() {
    let pool = AsyncPool::new(1).unwrap();
    assert_eq!(pool.drain(), DrainAction::Done);
    assert_eq!(drain_action(0), DrainAction::Done);
    assert_eq!(drain_action(1), DrainAction::Wait);
    assert_eq!(drain_action(usize::MAX), DrainAction::Wait);
}

#[test]
fn io_driver_is_enabled() {
    let pool = AsyncPool::new(1).unwrap();
    assert!(pool.lend().block_on(async { tokio::net::UnixStream::pair().is_ok() }));
}
