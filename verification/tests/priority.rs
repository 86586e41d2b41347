use std::cmp::Ordering;
use std::sync::{Arc, Mutex};
use thread_pool::async_pool::AsyncPool;
use thread_pool::heap::{JobHeap, PriorityJob};
use thread_pool::priority::PriorityThreadPool;
use thread_pool::worker::{Phase, WorkerAction};
use thread_pool::{JobOutcome, PoolError};

type Job = Box<dyn FnOnce() + Send + 'static>;

/// Lets worker `id` run jobs until it is told to wait or to leave.
fn drain(pool: &mut PriorityThreadPool<Job>, id: usize) -> bool {
    let runner = AsyncPool::new(1).unwrap();
    loop {
        match pool.next_job(id) {
            WorkerAction::Run(job) => {
                let task = runner.spawn(async move { job() });
                let outcome = match runner.lend().block_on(task) {
                    Ok(()) => JobOutcome::Completed,
                    Err(_) => JobOutcome::Panicked,
                };
                pool.finish(id, outcome);
            }
            WorkerAction::Wait => return false,
            WorkerAction::Exit => return true,
        }
    }
}

/// What worker `id` is told; a job that it is to run ends at once.
fn next<J>(pool: &mut PriorityThreadPool<J>, id: usize) -> WorkerAction<J> {
    let action = pool.next_job(id);
    if let WorkerAction::Run(_) = &action {
        pool.finish(id, JobOutcome::Completed);
    }
    action
}

#[test]
fn test_priority_ordering() {
    let mut pool: PriorityThreadPool<Job> = PriorityThreadPool::new(1).unwrap();
    let log: Arc<Mutex<Vec<i64>>> = Arc::new(Mutex::new(Vec::new()));

    // First job: keeps the worker busy until all jobs are queued.
    pool.execute_with_priority(0, Box::new(|| {})).unwrap();
    let stall = match pool.next_job(0) {
        WorkerAction::Run(job) => job,
        _ => panic!("the first job was not handed out"),
    };

    for p in [1i64, 5, 3, 2, 4] {
        let log = Arc::clone(&log);
        pool.execute_with_priority(p, Box::new(move || log.lock().unwrap().push(p)))
            .unwrap();
    }

    stall();
    pool.finish(0, JobOutcome::Completed);

    pool.shutdown();
    assert!(drain(&mut pool, 0));

    let order = log.lock().unwrap().clone();
    // Each value must be at most the previous (descending priority).
    for w in order.windows(2) {
        assert!(w[0] >= w[1], "expected descending priority, got {:?}", order);
    }
    assert_eq!(order, vec![5, 4, 3, 2, 1]);
}

#[test]
fn test_priority_all_jobs_run() {
    let mut pool: PriorityThreadPool<Job> = PriorityThreadPool::new(4).unwrap();
    let counter = Arc::new(Mutex::new(0usize));

    for i in 0..12 {
        let counter = Arc::clone(&counter);
        pool.execute_with_priority(i % 3, Box::new(move || *counter.lock().unwrap() += 1))
            .unwrap();
    }

    pool.shutdown();
    for id in 0..4 {
        assert!(drain(&mut pool, id));
    }

    assert_eq!(*counter.lock().unwrap(), 12);
}

#[test]
fn test_priority_invalid_size() {
    assert!(PriorityThreadPool::<Job>::new(0).is_err());
    assert!(matches!(
        PriorityThreadPool::<Job>::new(0),
        Err(PoolError::InvalidSize)
    ));
}

#[test]
fn high_runs_before_mid_before_low() {
    let mut pool: PriorityThreadPool<&str> = PriorityThreadPool::new(4).unwrap();
    pool.execute_with_priority(1, "low").unwrap();
    pool.execute_with_priority(10, "high").unwrap();
    pool.execute_with_priority(5, "mid").unwrap();
    assert!(matches!(pool.next_job(0), WorkerAction::Run("high")));
    assert!(matches!(pool.next_job(1), WorkerAction::Run("mid")));
    assert!(matches!(pool.next_job(2), WorkerAction::Run("low")));
    assert!(matches!(pool.next_job(3), WorkerAction::Wait));
}

#[test]
fn equal_priorities_run_in_the_order_of_submission() {
    let mut pool: PriorityThreadPool<usize> = PriorityThreadPool::new(1).unwrap();
    for i in 0..50usize {
        pool.execute_with_priority((i % 5) as i64, i).unwrap();
    }
    let mut expected: Vec<usize> = (0..50).collect();
    expected.sort_by_key(|i| 4 - i % 5);
    for i in expected {
        match next(&mut pool, 0) {
            WorkerAction::Run(job) => assert_eq!(job, i),
            _ => panic!("a job is missing"),
        }
    }
}

#[test]
fn default_priority_is_zero() {
    let mut pool: PriorityThreadPool<&str> = PriorityThreadPool::new(1).unwrap();
    pool.execute_with_priority(-1, "below").unwrap();
    pool.execute("default").unwrap();
    pool.execute_with_priority(0, "zero").unwrap();
    pool.execute_with_priority(1, "above").unwrap();
    assert!(matches!(next(&mut pool, 0), WorkerAction::Run("above")));
    assert!(matches!(next(&mut pool, 0), WorkerAction::Run("default")));
    assert!(matches!(next(&mut pool, 0), WorkerAction::Run("zero")));
    assert!(matches!(next(&mut pool, 0), WorkerAction::Run("below")));
}

#[test]
fn shut_down_pool_drains_and_refuses() {
    let mut pool: PriorityThreadPool<u32> = PriorityThreadPool::new(2).unwrap();
    pool.execute(1).unwrap();
    pool.shutdown();
    assert!(matches!(pool.execute(2), Err(PoolError::SendError)));
    assert!(matches!(
        pool.execute_with_priority(9, 3),
        Err(PoolError::SendError)
    ));
    assert!(matches!(pool.next_job(1), WorkerAction::Run(1)));
    assert!(matches!(pool.next_job(0), WorkerAction::Exit));
    pool.finish(1, JobOutcome::Completed);
    assert!(matches!(pool.next_job(1), WorkerAction::Exit));
    assert_eq!(pool.phase(0), Some(Phase::Exited));
    assert_eq!(pool.phase(1), Some(Phase::Exited));
    assert_eq!(pool.phase(2), None);
}

#[test]
fn priority_worker_goes_on_after_a_panic() {
    let mut pool: PriorityThreadPool<u32> = PriorityThreadPool::new(1).unwrap();
    assert_eq!(pool.phase(0), Some(Phase::Ready));
    assert!(matches!(pool.next_job(0), WorkerAction::Wait));
    assert_eq!(pool.phase(0), Some(Phase::Waiting));
    pool.execute(1).unwrap();
    pool.execute(2).unwrap();
    assert!(matches!(pool.next_job(0), WorkerAction::Run(1)));
    assert_eq!(pool.phase(0), Some(Phase::Running));
    pool.finish(0, JobOutcome::Panicked);
    assert_eq!(pool.phase(0), Some(Phase::Ready));
    assert!(matches!(pool.next_job(0), WorkerAction::Run(2)));
}

#[test]
fn priority_shutdown_comes_to_its_end() {
    let mut pool: PriorityThreadPool<u32> = PriorityThreadPool::new(3).unwrap();
    for job in 0..10u32 {
        pool.execute_with_priority((job % 4) as i64, job).unwrap();
    }
    pool.shutdown();
    // Two steps for each job and one for each worker.
    let mut steps = 0;
    let mut id = 0;
    while (0..3).any(|id| pool.phase(id) != Some(Phase::Exited)) {
        match pool.phase(id) {
            Some(Phase::Running) => pool.finish(id, JobOutcome::Completed),
            Some(Phase::Exited) => steps -= 1,
            _ => {
                let _ = pool.next_job(id);
            }
        }
        steps += 1;
        id = (id + 1) % 3;
    }
    assert_eq!(steps, 2 * 10 + 3);
}

#[test]
fn jobs_compare_by_priority_then_age() {
    let old = PriorityJob { priority: 3, seq: 1, job: "old" };
    let new = PriorityJob { priority: 3, seq: 2, job: "new" };
    let urgent = PriorityJob { priority: 4, seq: 3, job: "urgent" };
    let twin = PriorityJob { priority: 3, seq: 1, job: "twin" };
    assert_eq!(old.cmp(&new), Ordering::Greater);
    assert_eq!(new.cmp(&old), Ordering::Less);
    assert_eq!(urgent.cmp(&old), Ordering::Greater);
    assert_eq!(old.cmp(&twin), Ordering::Equal);
    assert_eq!(old.partial_cmp(&urgent), Some(Ordering::Less));
    assert!(old == twin);
    assert!(old != new);
    assert!(new < old);
}

#[test]
fn heap_gives_back_what_it_was_given() {
    let mut heap: JobHeap<u32> = JobHeap::new();
    assert!(heap.is_empty());
    assert!(heap.pop().is_none());
    for seq in 0..200u64 {
        let priority = ((seq * 37) % 11) as i64;
        heap.push(PriorityJob { priority, seq, job: seq as u32 });
    }
    assert!(!heap.is_empty());
    let mut previous: Option<(i64, u64)> = None;
    let mut count = 0;
    while let Some(item) = heap.pop() {
        if let Some((priority, seq)) = previous {
            assert!(priority > item.priority || (priority == item.priority && seq < item.seq));
        }
        assert_eq!(item.seq, item.job as u64);
        previous = Some((item.priority, item.seq));
        count += 1;
    }
    assert_eq!(count, 200);
}
