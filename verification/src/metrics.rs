//! Counters of what a pool does.

use crate::counter::{lemma_moved, lowered, raised};
use vstd::prelude::*;

verus! {

/// How a job ended.
#[derive(Debug, Clone, Copy, PartialEq, Eq, Structural)]
pub enum JobOutcome {
    /// It ran to its end.
    Completed,
    /// It panicked, and the panic was caught.
    Panicked,
}

/// A point-in-time snapshot of pool activity counters.
#[derive(Debug, Clone, Copy)]
pub struct MetricsSnapshot {
    /// Total jobs submitted via `execute()` since the pool was created.
    pub queued: usize,
    /// Jobs currently executing on a worker thread.
    pub running: usize,
    /// Jobs that completed without panicking.
    pub completed: usize,
    /// Jobs that panicked.
    pub panicked: usize,
}

/// Counters updated by the pool and its workers.  A counter that runs out of
/// bits starts over at zero.
pub struct Metrics {
    /// Jobs submitted.
    pub queued: usize,
    /// Jobs being executed.
    pub running: usize,
    /// Jobs that ran to their end.
    pub completed: usize,
    /// Jobs that panicked.
    pub panicked: usize,
}

impl Metrics {
    /// The counters once a job was submitted.
    pub open spec fn after_submit(self) -> Self {
        Metrics { queued: raised(self.queued), ..self }
    }

    /// The counters once a job was begun.
    pub open spec fn after_start(self) -> Self {
        Metrics { running: raised(self.running), ..self }
    }

    /// The counters once a job has ended.
    pub open spec fn after_end(self, outcome: JobOutcome) -> Self {
        match outcome {
            JobOutcome::Completed => Metrics {
                running: lowered(self.running),
                completed: raised(self.completed),
                ..self
            },
            JobOutcome::Panicked => Metrics {
                running: lowered(self.running),
                panicked: raised(self.panicked),
                ..self
            },
        }
    }

    /// All counters at zero.
    pub fn new() -> (metrics: Metrics)
        ensures
            metrics == (Metrics { queued: 0, running: 0, completed: 0, panicked: 0 }),
    {
        Metrics { queued: 0, running: 0, completed: 0, panicked: 0 }
    }

    /// Read all counters and return a snapshot.
    pub fn snapshot(&self) -> (snapshot: MetricsSnapshot)
        ensures
            snapshot.queued == self.queued,
            snapshot.running == self.running,
            snapshot.completed == self.completed,
            snapshot.panicked == self.panicked,
    {
        MetricsSnapshot {
            queued: self.queued,
            running: self.running,
            completed: self.completed,
            panicked: self.panicked,
        }
    }

    /// Count a job as submitted.
    pub fn job_submitted(&mut self)
        ensures
            *final(self) == old(self).after_submit(),
    {
        self.queued = self.queued.wrapping_add(1);
    }

    /// Count a job as begun.
    pub fn job_started(&mut self)
        ensures
            *final(self) == old(self).after_start(),
    {
        self.running = self.running.wrapping_add(1);
    }

    /// Count a job as ended.
    pub fn job_ended(&mut self, outcome: JobOutcome)
        ensures
            *final(self) == old(self).after_end(outcome),
    {
        self.running = self.running.wrapping_sub(1);
        match outcome {
            JobOutcome::Completed => {
                self.completed = self.completed.wrapping_add(1);
            },
            JobOutcome::Panicked => {
                self.panicked = self.panicked.wrapping_add(1);
            },
        }
    }
}

/// A new set of counters shows nothing, and what a snapshot shows is what the
/// counters are at.
pub proof fn law_snapshot_shows_the_counters(
    fresh: Metrics,
    metrics: &Metrics,
    snapshot: MetricsSnapshot,
)
    requires
        call_ensures(Metrics::new, (), fresh),
        call_ensures(Metrics::snapshot, (metrics,), snapshot),
    ensures
        fresh.queued == 0 && fresh.running == 0 && fresh.completed == 0 && fresh.panicked == 0,
        snapshot.queued == metrics.queued,
        snapshot.running == metrics.running,
        snapshot.completed == metrics.completed,
        snapshot.panicked == metrics.panicked,
{
}

/// A submission moves the count of submitted jobs on by one, and no other.
pub proof fn law_submission_counts_once(metrics: &mut Metrics)
    requires
        call_ensures(Metrics::job_submitted, (metrics,), ()),
    ensures
        final(metrics).queued == (old(metrics).queued + 1) % (usize::MAX + 1),
        final(metrics).running == old(metrics).running,
        final(metrics).completed == old(metrics).completed,
        final(metrics).panicked == old(metrics).panicked,
{
    lemma_moved(metrics.queued);
}

/// A job that begins moves the count of running jobs on by one, and no other.
pub proof fn law_start_counts_once(metrics: &mut Metrics)
    requires
        call_ensures(Metrics::job_started, (metrics,), ()),
    ensures
        final(metrics).running == (old(metrics).running + 1) % (usize::MAX + 1),
        final(metrics).queued == old(metrics).queued,
        final(metrics).completed == old(metrics).completed,
        final(metrics).panicked == old(metrics).panicked,
{
    lemma_moved(metrics.running);
}

/// A job that ends is counted by how it ended, whatever else runs: one that ran to
/// its end moves the count of completed jobs on by one and leaves that of panics,
/// one that panicked moves that of panics on by one and leaves that of completed
/// jobs.  Either way one job less runs, and as many were submitted.
pub proof fn law_end_counts_by_outcome(metrics: &mut Metrics, outcome: JobOutcome)
    requires
        call_ensures(Metrics::job_ended, (metrics, outcome), ()),
    ensures
        outcome is Completed ==> final(metrics).completed == (old(metrics).completed + 1) % (
        usize::MAX + 1),
        outcome is Completed ==> final(metrics).panicked == old(metrics).panicked,
        outcome is Panicked ==> final(metrics).panicked == (old(metrics).panicked + 1) % (
        usize::MAX + 1),
        outcome is Panicked ==> final(metrics).completed == old(metrics).completed,
        old(metrics).running == (final(metrics).running + 1) % (usize::MAX + 1),
        final(metrics).queued == old(metrics).queued,
{
    lemma_moved(metrics.completed);
    lemma_moved(metrics.panicked);
    lemma_moved(lowered(metrics.running));
}

} // verus!
