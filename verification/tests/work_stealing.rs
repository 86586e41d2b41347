use std::sync::{mpsc, Arc, Mutex};
use std::time::Duration;
use thread_pool::async_pool::AsyncPool;
use thread_pool::deque::Attempt;
use thread_pool::job_table::JobTable;
use thread_pool::stealing_state::{Search, StealingAction};
use thread_pool::work_stealing::{redeem, settle, WorkStealingPool};
use thread_pool::worker::Phase;
use thread_pool::{JobOutcome, PoolError};

type Job = Box<dyn FnOnce() + Send + 'static>;

/// Lets the workers run jobs in turn until each of them is to park or to leave.
fn drain(pool: &mut WorkStealingPool<Job>, size: usize) -> bool {
    let runner = AsyncPool::new(1).unwrap();
    let mut left = true;
    let mut idle = 0;
    let mut id = 0;
    while idle < size {
        if pool.phase(id) == Some(Phase::Exited) {
            idle += 1;
        } else {
            match pool.next_task(id, (id + 1) % size) {
                StealingAction::Run(job) => {
                    let task = runner.spawn(async move { job() });
                    let outcome = match runner.lend().block_on(task) {
                        Ok(()) => JobOutcome::Completed,
                        Err(_) => JobOutcome::Panicked,
                    };
                    pool.finish(id, outcome);
                    idle = 0;
                }
                StealingAction::Retry => idle = 0,
                StealingAction::Park => {
                    left = false;
                    idle += 1;
                }
                StealingAction::Exit => idle += 1,
            }
        }
        id = (id + 1) % size;
    }
    left
}

/// What worker `id` is told, lost races aside; a job that it is to run ends at
/// once.
fn next(pool: &mut WorkStealingPool<u32>, id: usize, start: usize) -> StealingAction<u32> {
    loop {
        match pool.next_task(id, start) {
            StealingAction::Retry => {}
            StealingAction::Run(job) => {
                pool.finish(id, JobOutcome::Completed);
                return StealingAction::Run(job);
            }
            action => return action,
        }
    }
}

#[test]
fn test_work_stealing_executes_all_jobs() {
    let mut pool: WorkStealingPool<Job> = WorkStealingPool::new(4).unwrap();
    let counter = Arc::new(Mutex::new(0usize));

    for _ in 0..16 {
        let counter = Arc::clone(&counter);
        pool.execute(Box::new(move || *counter.lock().unwrap() += 1))
            .unwrap();
    }

    pool.shutdown();
    assert!(drain(&mut pool, 4));

    assert_eq!(*counter.lock().unwrap(), 16);
}

#[test]
fn test_work_stealing_survives_panic() {
    let mut pool: WorkStealingPool<Job> = WorkStealingPool::new(2).unwrap();

    pool.execute(Box::new(|| panic!("work-stealing panic"))).unwrap();

    assert!(!drain(&mut pool, 2));

    let (tx, rx) = mpsc::channel();
    pool.execute(Box::new(move || tx.send(99).unwrap())).unwrap();

    assert!(!drain(&mut pool, 2));

    assert_eq!(rx.recv_timeout(Duration::from_secs(1)).unwrap(), 99);
}

#[test]
fn work_stealing_test_invalid_size() {
    assert!(WorkStealingPool::<Job>::new(0).is_err());
    assert!(matches!(
        WorkStealingPool::<Job>::new(0),
        Err(PoolError::InvalidSize)
    ));
}

#[test]
fn workers_are_woken_in_turn() {
    let mut pool: WorkStealingPool<u32> = WorkStealingPool::new(3).unwrap();
    for i in 0..7u32 {
        assert_eq!(pool.execute(i).unwrap(), i as usize % 3);
    }
}

#[test]
fn parked_worker_is_woken_before_a_busy_one() {
    let mut pool: WorkStealingPool<u32> = WorkStealingPool::new(2).unwrap();
    assert_eq!(pool.execute(1).unwrap(), 0);
    // Worker 0 is busy from here on.
    loop {
        match pool.next_task(0, 0) {
            StealingAction::Run(job) => {
                assert_eq!(job, 1);
                break;
            }
            StealingAction::Retry => {}
            _ => panic!("the job is missing"),
        }
    }
    assert_eq!(pool.phase(0), Some(Phase::Running));
    for job in 2..8u32 {
        assert!(matches!(next(&mut pool, 1, 0), StealingAction::Park));
        assert_eq!(pool.phase(1), Some(Phase::Waiting));
        assert_eq!(pool.execute(job).unwrap(), 1);
        assert_eq!(pool.phase(1), Some(Phase::Ready));
        match next(&mut pool, 1, 0) {
            StealingAction::Run(ran) => assert_eq!(ran, job),
            _ => panic!("the job is missing"),
        }
    }
}

#[test]
fn parked_workers_are_woken_from_the_turn_on() {
    let mut pool: WorkStealingPool<u32> = WorkStealingPool::new(4).unwrap();
    assert_eq!(pool.execute(1).unwrap(), 0);
    assert!(matches!(next(&mut pool, 2, 0), StealingAction::Run(1)));
    for id in [0usize, 1, 3] {
        assert!(matches!(next(&mut pool, id, 0), StealingAction::Park));
    }
    // It is the turn of worker 1, then of 2, which is not parked, then of 3.
    assert_eq!(pool.execute(2).unwrap(), 1);
    assert_eq!(pool.execute(3).unwrap(), 3);
    assert_eq!(pool.execute(4).unwrap(), 0);
    // None is parked any more.
    assert_eq!(pool.execute(5).unwrap(), 0);
    assert_eq!(pool.execute(6).unwrap(), 1);
    assert_eq!(pool.phase(4), None);
}

#[test]
fn stealing_worker_goes_on_after_a_panic() {
    let mut pool: WorkStealingPool<u32> = WorkStealingPool::new(1).unwrap();
    pool.execute(1).unwrap();
    pool.execute(2).unwrap();
    let mut ran: Vec<u32> = Vec::new();
    while ran.len() < 2 {
        match pool.next_task(0, 0) {
            StealingAction::Run(job) => {
                ran.push(job);
                pool.finish(0, JobOutcome::Panicked);
                assert_eq!(pool.phase(0), Some(Phase::Ready));
            }
            StealingAction::Retry => {}
            _ => panic!("a job is missing"),
        }
    }
    assert_eq!(ran, vec![1, 2]);
}

#[test]
fn stealing_shutdown_comes_to_its_end() {
    let mut pool: WorkStealingPool<u32> = WorkStealingPool::new(3).unwrap();
    for job in 0..10u32 {
        pool.execute(job).unwrap();
    }
    pool.shutdown();
    // Two steps for each job and one for each worker, lost races aside.
    let mut steps = 0;
    let mut id = 0;
    while (0..3).any(|id| pool.phase(id) != Some(Phase::Exited)) {
        match pool.phase(id) {
            Some(Phase::Running) => {
                pool.finish(id, JobOutcome::Completed);
                steps += 1;
            }
            Some(Phase::Exited) => {}
            _ => {
                if !matches!(pool.next_task(id, id), StealingAction::Retry) {
                    steps += 1;
                }
            }
        }
        id = (id + 1) % 3;
    }
    assert_eq!(steps, 2 * 10 + 3);
}

#[test]
fn lone_worker_runs_jobs_in_the_order_of_submission() {
    let mut pool: WorkStealingPool<u32> = WorkStealingPool::new(1).unwrap();
    for i in 0..200u32 {
        pool.execute(i).unwrap();
    }
    for i in 0..200u32 {
        match next(&mut pool, 0, 0) {
            StealingAction::Run(job) => assert_eq!(job, i),
            _ => panic!("a job is missing"),
        }
    }
    assert!(matches!(next(&mut pool, 0, 0), StealingAction::Park));
}

#[test]
fn neighbours_steal_the_job_that_its_owner_would_run_last() {
    let mut pool: WorkStealingPool<u32> = WorkStealingPool::new(3).unwrap();
    for i in 0..9u32 {
        pool.execute(i).unwrap();
    }
    // Worker 0 draws a batch, runs its oldest job and keeps the others.
    assert!(matches!(next(&mut pool, 0, 0), StealingAction::Run(0)));
    // Worker 1 empties the shared queue first, then the queue of worker 0.
    let mut seen: Vec<u32> = Vec::new();
    while let StealingAction::Run(job) = next(&mut pool, 1, 2) {
        seen.push(job);
    }
    let drawn = seen[0];
    assert!(drawn > 2);
    let expected: Vec<u32> = (drawn..9).chain((1..drawn).rev()).collect();
    assert_eq!(seen, expected);
    assert!(matches!(next(&mut pool, 0, 0), StealingAction::Park));
    assert!(matches!(next(&mut pool, 2, 2), StealingAction::Park));
}

#[test]
fn neighbours_are_probed_from_the_start_given() {
    for (start, victim) in [(0usize, 0usize), (1, 3), (2, 3), (3, 3)] {
        let mut pool: WorkStealingPool<u32> = WorkStealingPool::new(4).unwrap();
        // Workers 0 and 3 come to hold jobs of their own.
        let mut held: Vec<(usize, u32)> = Vec::new();
        for owner in [0usize, 3] {
            let base = owner as u32 * 100;
            for i in 0..9u32 {
                pool.execute(base + i).unwrap();
            }
            assert!(matches!(next(&mut pool, owner, 0), StealingAction::Run(_)));
            // Worker 1 empties the shared queue, one job of it at a time.
            let mut rest = 0;
            while let StealingAction::Run(job) = next(&mut pool, 1, owner) {
                if job < base + 5 {
                    held.push((owner, job - 1));
                    break;
                }
                rest += 1;
            }
            assert_eq!(rest, 4);
        }
        let expected = held.iter().find(|(owner, _)| *owner == victim).unwrap().1;
        match next(&mut pool, 1, start) {
            StealingAction::Run(job) => assert_eq!(job, expected),
            _ => panic!("there was a job to steal"),
        }
    }
}

#[test]
fn no_job_is_lost_or_run_twice() {
    for size in 1..6usize {
        let mut pool: WorkStealingPool<u32> = WorkStealingPool::new(size).unwrap();
        let mut seen: Vec<u32> = Vec::new();
        let mut submitted: u32 = 0;
        for round in 0..400usize {
            if round % 3 != 2 {
                for _ in 0..5 {
                    pool.execute(submitted).unwrap();
                    submitted += 1;
                }
            }
            for turn in 0..4usize {
                let id = (round * 7 + turn) % size;
                if let StealingAction::Run(job) = next(&mut pool, id, (round + turn * 3) % size) {
                    seen.push(job);
                }
            }
        }
        pool.shutdown();
        let mut id = 0;
        loop {
            match next(&mut pool, id, id) {
                StealingAction::Run(job) => seen.push(job),
                StealingAction::Exit => break,
                _ => panic!("a worker of a pool that was shut down is to wait"),
            }
            id = (id + 1) % size;
        }
        seen.sort();
        assert_eq!(seen, (0..submitted).collect::<Vec<u32>>());
    }
}

#[test]
fn work_stealing_drains_and_refuses_after_shutdown() {
    let mut pool: WorkStealingPool<u32> = WorkStealingPool::new(2).unwrap();
    pool.execute(1).unwrap();
    pool.shutdown();
    assert!(matches!(pool.execute(2), Err(PoolError::SendError)));
    assert!(matches!(next(&mut pool, 1, 0), StealingAction::Run(1)));
    assert!(matches!(next(&mut pool, 1, 0), StealingAction::Exit));
    assert!(matches!(next(&mut pool, 0, 0), StealingAction::Exit));
}

#[test]
fn searches_settle_on_an_action() {
    assert!(matches!(settle(Search::Found(3), true), StealingAction::Run(3)));
    assert!(matches!(settle(Search::Found(4), false), StealingAction::Run(4)));
    assert!(matches!(settle::<u32>(Search::Lost, true), StealingAction::Retry));
    assert!(matches!(settle::<u32>(Search::Lost, false), StealingAction::Retry));
    assert!(matches!(settle::<u32>(Search::Nothing, true), StealingAction::Exit));
    assert!(matches!(settle::<u32>(Search::Nothing, false), StealingAction::Park));
}

#[test]
fn search_reports_what_it_found() {
    let mut pool: WorkStealingPool<u32> = WorkStealingPool::new(2).unwrap();
    assert!(matches!(pool.find_task(0, 1), Search::Nothing));
    pool.execute(8).unwrap();
    loop {
        match pool.find_task(0, 1) {
            Search::Found(job) => {
                assert_eq!(job, 8);
                assert_eq!(pool.phase(0), Some(Phase::Running));
                pool.finish(0, JobOutcome::Completed);
                break;
            }
            Search::Lost => {}
            Search::Nothing => panic!("the job is missing"),
        }
    }
    assert!(matches!(pool.find_task(0, 1), Search::Nothing));
}

#[test]
fn attempts_are_redeemed() {
    let mut jobs: JobTable<&str> = JobTable::new();
    let first = jobs.insert("first");
    let second = jobs.insert("second");
    assert!(first != second);
    assert!(matches!(redeem(&mut jobs, Attempt::Lost), Search::Lost));
    assert!(matches!(redeem(&mut jobs, Attempt::Empty), Search::Nothing));
    assert!(matches!(
        redeem(&mut jobs, Attempt::Taken(first)),
        Search::Found("first")
    ));
    let third = jobs.insert("third");
    assert!(third != second);
    assert_eq!(jobs.remove(second), "second");
    assert_eq!(jobs.remove(third), "third");
}
