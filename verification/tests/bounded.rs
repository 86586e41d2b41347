use std::sync::{mpsc, Arc, Mutex};
use thread_pool::async_pool::AsyncPool;
use thread_pool::bounded_state::{Phase, Submission};
use thread_pool::worker::WorkerAction;
use thread_pool::{JobOutcome, MetricsSnapshot, PoolError, ThreadPool};

type Job = Box<dyn FnOnce() + Send + 'static>;

/// A pool together with what runs its jobs and catches their panics.
struct Crew {
    pool: ThreadPool<Job>,
    runner: AsyncPool,
    size: usize,
}

impl Crew {
    fn new(num_threads: usize, queue_bound: usize) -> Result<Crew, PoolError> {
        Ok(Crew {
            pool: ThreadPool::new(num_threads, queue_bound)?,
            runner: AsyncPool::new(1)?,
            size: num_threads,
        })
    }

    /// Lets worker `id` take one step; says whether it did anything.
    fn step(&mut self, id: usize) -> bool {
        if self.pool.phase(id) == Some(Phase::Exited) {
            return false;
        }
        match self.pool.receive(id) {
            WorkerAction::Run(job) => {
                let task = self.runner.spawn(async move { job() });
                let outcome = match self.runner.lend().block_on(task) {
                    Ok(()) => JobOutcome::Completed,
                    Err(_) => JobOutcome::Panicked,
                };
                self.pool.finish(id, outcome);
                true
            }
            WorkerAction::Exit => true,
            WorkerAction::Wait => false,
        }
    }

    /// Lets all workers take steps until none of them can.
    fn settle(&mut self) {
        loop {
            let mut active = false;
            for id in 0..self.size {
                active = self.step(id) || active;
            }
            if !active {
                return;
            }
        }
    }

    /// Submits a job, letting the workers run while the queue is full.
    fn execute<F: FnOnce() + Send + 'static>(&mut self, job: F) -> Result<(), PoolError> {
        let mut submission = self.pool.execute(Box::new(job))?;
        loop {
            match submission {
                Submission::Sent => return Ok(()),
                Submission::Blocked(job) => {
                    self.settle();
                    submission = self.pool.resubmit(job)?;
                }
            }
        }
    }

    /// Ends the pool as its owner does when it goes away.
    fn close(&mut self) -> MetricsSnapshot {
        while !self.pool.all_dismissed() {
            if !self.pool.dismiss() {
                self.settle();
            }
        }
        self.settle();
        for id in 0..self.size {
            assert_eq!(self.pool.phase(id), Some(Phase::Exited));
        }
        self.pool.metrics().snapshot()
    }
}

#[test]
fn test_jobs_run() {
    let mut pool = Crew::new(4, 8).unwrap();
    let counter = Arc::new(Mutex::new(0usize));

    for _ in 0..8 {
        let counter = Arc::clone(&counter);
        pool.execute(move || {
            let mut n = counter.lock().unwrap();
            *n += 1;
        })
        .unwrap();
    }

    pool.close();

    assert_eq!(*counter.lock().unwrap(), 8);
}

#[test]
fn test_panic_does_not_kill_pool() {
    let mut pool = Crew::new(2, 4).unwrap();

    pool.execute(|| panic!("intentional panic")).unwrap();

    pool.settle();

    let (tx, rx) = mpsc::channel();
    pool.execute(move || tx.send(42).unwrap()).unwrap();

    pool.settle();

    assert_eq!(
        rx.recv_timeout(std::time::Duration::from_secs(1)).unwrap(),
        42
    );
}

#[test]
fn test_invalid_size_returns_error() {
    assert!(ThreadPool::<Job>::new(0, 8).is_err());
}

#[test]
fn test_metrics_track_jobs() {
    let mut pool = Crew::new(2, 8).unwrap();

    for _ in 0..4 {
        pool.execute(|| {}).unwrap();
    }
    let snap = pool.close();

    assert_eq!(snap.queued, 4);
    assert_eq!(snap.completed, 4);
    assert_eq!(snap.panicked, 0);
    assert_eq!(snap.running, 0);
}

#[test]
fn test_metrics_track_panics() {
    let mut pool = Crew::new(2, 4).unwrap();

    pool.execute(|| panic!("tracked panic")).unwrap();
    let snap = pool.close();

    assert_eq!(snap.panicked, 1);
    assert_eq!(snap.completed, 0);
}

#[test]
fn all_jobs_complete_before_drop() {
    let mut pool = Crew::new(4, 16).unwrap();
    let results = Arc::new(Mutex::new(Vec::new()));

    for i in 0..16usize {
        let results = Arc::clone(&results);
        pool.execute(move || results.lock().unwrap().push(i)).unwrap();
    }

    pool.close();

    let mut v = results.lock().unwrap().clone();
    v.sort();
    assert_eq!(v, (0..16).collect::<Vec<_>>());
}

#[test]
fn pool_survives_multiple_panics() {
    let mut pool = Crew::new(2, 8).unwrap();
    let counter = Arc::new(Mutex::new(0usize));

    // Three panicking jobs followed by three good ones.
    for _ in 0..3 {
        pool.execute(|| panic!("boom")).unwrap();
    }
    for _ in 0..3 {
        let counter = Arc::clone(&counter);
        pool.execute(move || *counter.lock().unwrap() += 1).unwrap();
    }

    let snap = pool.close();

    assert_eq!(*counter.lock().unwrap(), 3);
    assert_eq!(snap.panicked, 3);
    assert_eq!(snap.completed, 3);
}

#[test]
fn zero_threads_is_rejected() {
    assert!(ThreadPool::<Job>::new(0, 8).is_err());
    assert!(matches!(
        ThreadPool::<Job>::new(0, 8),
        Err(PoolError::InvalidSize)
    ));
}

#[test]
fn counters_after_eight_jobs() {
    let mut pool = Crew::new(4, 16).unwrap();
    for _ in 0..8 {
        pool.execute(|| {}).unwrap();
    }
    let snap = pool.close();
    assert_eq!((snap.queued, snap.completed, snap.panicked), (8, 8, 0));
}

#[test]
fn jobs_are_taken_in_the_order_of_submission() {
    let mut pool: ThreadPool<u32> = ThreadPool::new(2, 4).unwrap();
    for job in [7u32, 8, 9] {
        assert!(matches!(pool.execute(job), Ok(Submission::Sent)));
    }
    assert!(matches!(pool.receive(1), WorkerAction::Run(7)));
    assert!(matches!(pool.receive(0), WorkerAction::Run(8)));
    assert_eq!(pool.phase(0), Some(Phase::Running));
    pool.finish(1, JobOutcome::Completed);
    assert!(matches!(pool.receive(1), WorkerAction::Run(9)));
    pool.finish(1, JobOutcome::Completed);
    assert!(matches!(pool.receive(1), WorkerAction::Wait));
    assert_eq!(pool.phase(1), Some(Phase::Waiting));
    assert_eq!(pool.phase(2), None);

    let snap = pool.metrics().snapshot();
    assert_eq!(snap.queued, 3);
    assert_eq!(snap.running, 1);
    assert_eq!(snap.completed, 2);
    assert_eq!(snap.panicked, 0);
}

#[test]
fn full_queue_hands_the_job_back() {
    let mut pool: ThreadPool<u32> = ThreadPool::new(1, 1).unwrap();
    assert!(matches!(pool.execute(1), Ok(Submission::Sent)));
    assert!(matches!(pool.execute(2), Ok(Submission::Blocked(2))));
    assert_eq!(pool.blocked(), 1);
    assert!(matches!(pool.resubmit(2), Ok(Submission::Blocked(2))));
    assert_eq!(pool.blocked(), 1);
    assert!(!pool.dismiss());
    assert_eq!(pool.metrics().snapshot().queued, 2);

    assert!(matches!(pool.receive(0), WorkerAction::Run(1)));
    assert!(matches!(pool.resubmit(2), Ok(Submission::Sent)));
    assert_eq!(pool.blocked(), 0);
    assert_eq!(pool.metrics().snapshot().queued, 2);
}

#[test]
fn bound_of_zero_needs_a_waiting_worker() {
    let mut pool: ThreadPool<u32> = ThreadPool::new(1, 0).unwrap();
    assert!(matches!(pool.execute(1), Ok(Submission::Blocked(1))));
    assert!(matches!(pool.receive(0), WorkerAction::Wait));
    assert_eq!(pool.phase(0), Some(Phase::Waiting));
    assert!(matches!(pool.resubmit(1), Ok(Submission::Sent)));
    assert_eq!(pool.phase(0), Some(Phase::Called));
    assert!(matches!(pool.execute(2), Ok(Submission::Blocked(2))));
    assert!(matches!(pool.receive(0), WorkerAction::Run(1)));
    assert!(matches!(pool.resubmit(2), Ok(Submission::Blocked(2))));
    pool.finish(0, JobOutcome::Completed);
    assert!(matches!(pool.resubmit(2), Ok(Submission::Blocked(2))));
    assert!(matches!(pool.receive(0), WorkerAction::Wait));
    assert!(matches!(pool.resubmit(2), Ok(Submission::Sent)));
    assert!(matches!(pool.receive(0), WorkerAction::Run(2)));
}

#[test]
fn bound_of_zero_hands_each_job_to_one_worker() {
    let mut pool: ThreadPool<u32> = ThreadPool::new(3, 0).unwrap();
    assert!(matches!(pool.receive(2), WorkerAction::Wait));
    assert!(matches!(pool.receive(1), WorkerAction::Wait));
    assert!(matches!(pool.execute(1), Ok(Submission::Sent)));
    assert_eq!(pool.phase(1), Some(Phase::Called));
    assert_eq!(pool.phase(2), Some(Phase::Waiting));
    // A worker that was not called does not get the job.
    assert!(matches!(pool.receive(0), WorkerAction::Wait));
    assert!(matches!(pool.execute(2), Ok(Submission::Sent)));
    assert_eq!(pool.phase(0), Some(Phase::Called));
    assert!(pool.dismiss());
    assert_eq!(pool.phase(2), Some(Phase::Dismissed));
    assert!(!pool.dismiss());
    assert!(matches!(pool.receive(1), WorkerAction::Run(1)));
    assert!(matches!(pool.receive(0), WorkerAction::Run(2)));
    assert!(matches!(pool.receive(2), WorkerAction::Exit));
}

#[test]
fn one_message_to_leave_goes_out_per_worker() {
    for bound in [0usize, 1, 8] {
        let mut pool: ThreadPool<u32> = ThreadPool::new(3, bound).unwrap();
        let mut sent = 0;
        while !pool.all_dismissed() {
            if pool.dismiss() {
                sent += 1;
            } else {
                for id in 0..3 {
                    if pool.phase(id) != Some(Phase::Exited) {
                        assert!(!matches!(pool.receive(id), WorkerAction::Run(_)));
                    }
                }
            }
        }
        assert_eq!(sent, 3);
        for id in 0..3 {
            if pool.phase(id) != Some(Phase::Exited) {
                assert!(matches!(pool.receive(id), WorkerAction::Exit));
            }
        }
        assert!(pool.all_dismissed());
    }
}

#[test]
fn workers_leave_behind_the_jobs_that_wait() {
    let mut pool: ThreadPool<u32> = ThreadPool::new(2, 8).unwrap();
    assert!(matches!(pool.execute(1), Ok(Submission::Sent)));
    assert!(!pool.all_dismissed());
    assert!(pool.dismiss());
    assert!(!pool.all_dismissed());
    assert!(pool.dismiss());
    assert!(pool.all_dismissed());
    assert!(matches!(pool.receive(0), WorkerAction::Run(1)));
    assert!(matches!(pool.receive(1), WorkerAction::Exit));
    pool.finish(0, JobOutcome::Panicked);
    assert!(matches!(pool.receive(0), WorkerAction::Exit));

    let snap = pool.metrics().snapshot();
    assert_eq!(snap.queued, snap.completed + snap.panicked);
    assert_eq!(snap.running, 0);
}

#[test]
fn deserted_pool_refuses_jobs() {
    let mut pool: ThreadPool<u32> = ThreadPool::new(1, 1).unwrap();
    assert!(pool.dismiss());
    assert!(matches!(pool.execute(1), Ok(Submission::Blocked(1))));
    assert_eq!(pool.blocked(), 1);
    assert!(matches!(pool.receive(0), WorkerAction::Exit));
    assert!(matches!(pool.resubmit(1), Err(PoolError::SendError)));
    assert_eq!(pool.blocked(), 0);
    assert!(matches!(pool.execute(2), Err(PoolError::SendError)));
    assert_eq!(pool.blocked(), 0);
    assert!(pool.dismiss());
    assert_eq!(pool.metrics().snapshot().queued, 2);
}

#[test]
fn counters_never_go_back() {
    let mut pool: ThreadPool<u32> = ThreadPool::new(3, 2).unwrap();
    let mut previous = pool.metrics().snapshot();
    let mut held: Vec<u32> = Vec::new();
    for round in 0..60u32 {
        if let Ok(Submission::Blocked(job)) = pool.execute(round) {
            held.push(job);
        }
        assert_eq!(pool.blocked(), held.len());
        let id = (round % 3) as usize;
        if pool.phase(id) == Some(Phase::Running) {
            let outcome = if round % 2 == 0 {
                JobOutcome::Completed
            } else {
                JobOutcome::Panicked
            };
            pool.finish(id, outcome);
        } else {
            let _ = pool.receive(id);
        }
        if let Some(job) = held.pop() {
            if let Ok(Submission::Blocked(job)) = pool.resubmit(job) {
                held.push(job);
            }
        }
        let snap = pool.metrics().snapshot();
        assert!(snap.running <= 3);
        assert!(previous.queued <= snap.queued);
        assert!(previous.completed <= snap.completed);
        assert!(previous.panicked <= snap.panicked);
        previous = snap;
    }
    assert_eq!(previous.queued, 60);
}

#[test]
fn bounded_shutdown_comes_to_its_end() {
    for bound in [0usize, 1, 4] {
        let mut pool: ThreadPool<u32> = ThreadPool::new(2, bound).unwrap();
        let sent = matches!(pool.execute(1), Ok(Submission::Sent));
        assert_eq!(sent, bound > 0);
        let mut steps = 0;
        let mut id = 0;
        while !pool.all_dismissed() || (0..2).any(|id| pool.phase(id) != Some(Phase::Exited)) {
            if !pool.all_dismissed() && pool.dismiss() {
                steps += 1;
            }
            match pool.phase(id) {
                Some(Phase::Exited) => {}
                Some(Phase::Running) => {
                    pool.finish(id, JobOutcome::Completed);
                    steps += 1;
                }
                before => {
                    let _ = pool.receive(id);
                    if pool.phase(id) != before {
                        steps += 1;
                    }
                }
            }
            id = (id + 1) % 2;
        }
        // Four steps for each worker and three for the job that waits, at most,
        // and one for each worker that has yet to ask.
        assert!(steps <= 4 * 2 + 3 * sent as usize + 2);
        let snap = pool.metrics().snapshot();
        assert_eq!(snap.completed, sent as usize);
        assert_eq!(snap.running, 0);
    }
}
