use thread_pool::{JobOutcome, Metrics, PoolError};

#[test]
fn counters_start_at_zero() {
    let snap = Metrics::new().snapshot();
    assert_eq!(snap.queued, 0);
    assert_eq!(snap.running, 0);
    assert_eq!(snap.completed, 0);
    assert_eq!(snap.panicked, 0);
}

#[test]
fn counters_follow_a_job() {
    let mut metrics = Metrics::new();
    metrics.job_submitted();
    metrics.job_submitted();
    metrics.job_started();
    assert_eq!(metrics.snapshot().queued, 2);
    assert_eq!(metrics.snapshot().running, 1);
    metrics.job_ended(JobOutcome::Panicked);
    metrics.job_started();
    metrics.job_ended(JobOutcome::Completed);
    let snap = metrics.snapshot();
    assert_eq!(snap.running, 0);
    assert_eq!(snap.completed, 1);
    assert_eq!(snap.panicked, 1);
}

#[test]
fn counters_start_over() {
    let mut metrics = Metrics {
        queued: usize::MAX,
        running: 0,
        completed: usize::MAX,
        panicked: 5,
    };
    metrics.job_submitted();
    assert_eq!(metrics.queued, 0);
    metrics.job_ended(JobOutcome::Completed);
    assert_eq!(metrics.running, usize::MAX);
    assert_eq!(metrics.completed, 0);
    assert_eq!(metrics.panicked, 5);
}

#[test]
fn errors_are_put_into_words() {
    assert_eq!(
        PoolError::InvalidSize.to_string(),
        "thread pool size must be at least 1"
    );
    assert_eq!(
        PoolError::SendError.to_string(),
        "failed to send job: channel is closed"
    );
}
