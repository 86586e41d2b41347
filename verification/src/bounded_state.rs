//! The states of a [`ThreadPool`](crate::bounded::ThreadPool), and the laws that
//! hold of them.

use crate::counter::{lemma_raised, reading};
use crate::metrics::{JobOutcome, Metrics};
use crate::worker::{
    all_are, count_of, lemma_count_all, lemma_count_bound, lemma_count_some, lemma_count_update,
    lemma_counts_disjoint, WorkerAction,
};
use crate::PoolError;
use vstd::prelude::*;

verus! {

/// What travels through the queue.
pub enum Message<J> {
    /// A job to run.
    NewJob(J),
    /// The worker that takes this leaves.
    Terminate,
}

/// What a worker is about.
#[derive(Debug, Clone, Copy, PartialEq, Eq, Structural)]
pub enum Phase {
    /// About to ask for a message.
    Ready,
    /// It asked, found no message and waits.
    Waiting,
    /// While it waited, a job was handed to it.
    Called,
    /// While it waited, it was told to leave.
    Dismissed,
    /// It runs a job.
    Running,
    /// It has left.
    Exited,
}

/// What became of a job that was submitted.
pub enum Submission<J> {
    /// It is in the queue, or with a worker if there is no queue.
    Sent,
    /// The queue is full.  The job comes back, to be offered again once a
    /// worker has taken a message.
    Blocked(J),
}

/// The jobs among the messages, in their order.
pub open spec fn jobs_in<J>(queue: Seq<Message<J>>) -> Seq<J>
    decreases queue.len(),
{
    if queue.len() == 0 {
        Seq::empty()
    } else {
        match queue.last() {
            Message::NewJob(job) => jobs_in(queue.drop_last()).push(job),
            Message::Terminate => jobs_in(queue.drop_last()),
        }
    }
}

/// What a pool holds, and what has happened to it.
#[verifier::ext_equal]
pub struct PoolState<J> {
    /// How many messages may wait.
    pub queue_bound: usize,
    /// The phase of each worker.
    pub phases: Seq<Phase>,
    /// The job that was handed to each worker and that it has yet to begin.
    pub handed: Seq<Option<J>>,
    /// The messages that wait, oldest first.
    pub queue: Seq<Message<J>>,
    /// The counters.
    pub metrics: Metrics,
    /// How many jobs were submitted.
    pub submitted: nat,
    /// How many of them came back blocked and have yet to be taken in or refused.
    pub blocked: nat,
    /// How many of them were refused.
    pub refused: nat,
    /// The jobs that were taken in, in their order.
    pub accepted: Seq<J>,
    /// The jobs that went to a worker, in their order.
    pub taken: Seq<J>,
    /// How many jobs ran to their end.
    pub completed: nat,
    /// How many jobs panicked.
    pub panicked: nat,
    /// How many messages to leave were sent.
    pub dismissals: nat,
    /// How many jobs had been taken in before the first message to leave.
    pub accepted_before: nat,
}

impl<J> PoolState<J> {
    /// The state of a new pool.
    pub open spec fn initial(num_threads: nat, queue_bound: usize) -> Self {
        PoolState {
            queue_bound,
            phases: Seq::new(num_threads, |id: int| Phase::Ready),
            handed: Seq::new(num_threads, |id: int| None),
            queue: Seq::empty(),
            metrics: Metrics { queued: 0, running: 0, completed: 0, panicked: 0 },
            submitted: 0,
            blocked: 0,
            refused: 0,
            accepted: Seq::empty(),
            taken: Seq::empty(),
            completed: 0,
            panicked: 0,
            dismissals: 0,
            accepted_before: 0,
        }
    }

    /// Whether every worker has left.
    pub open spec fn deserted(self) -> bool {
        all_are(self.phases, Phase::Exited)
    }

    /// Whether a message is handed to worker `id` when there is no queue: it is
    /// the first that waits.
    pub open spec fn is_next_receiver(self, id: int) -> bool {
        &&& 0 <= id < self.phases.len()
        &&& self.phases[id] is Waiting
        &&& forall|other: int| 0 <= other < id ==> !(#[trigger] self.phases[other] is Waiting)
    }

    /// The worker that a message is handed to when there is no queue.
    pub open spec fn next_receiver(self) -> int {
        choose|id: int| self.is_next_receiver(id)
    }

    /// Whether one more message may be sent.  With a bound of zero it is handed
    /// over at once, so a worker has to wait for it.
    pub open spec fn has_room(self) -> bool {
        if self.queue_bound > 0 {
            self.queue.len() < self.queue_bound
        } else {
            exists|id: int| 0 <= id < self.phases.len() && #[trigger] self.phases[id] is Waiting
        }
    }

    /// The state once a job was taken in.
    pub open spec fn enter(self, job: J) -> Self {
        if self.queue_bound > 0 {
            PoolState {
                queue: self.queue.push(Message::NewJob(job)),
                accepted: self.accepted.push(job),
                ..self
            }
        } else {
            let id = self.next_receiver();
            PoolState {
                phases: self.phases.update(id, Phase::Called),
                handed: self.handed.update(id, Some(job)),
                accepted: self.accepted.push(job),
                taken: self.taken.push(job),
                ..self
            }
        }
    }

    /// The state once one more submission was counted.
    pub open spec fn counted(self) -> Self {
        PoolState {
            metrics: self.metrics.after_submit(),
            submitted: self.submitted + 1,
            ..self
        }
    }

    /// The state once a job was submitted: it is counted, and it is taken in,
    /// refused, or comes back blocked.
    pub open spec fn execute(self, job: J) -> Self {
        if self.deserted() {
            PoolState { refused: self.refused + 1, ..self.counted() }
        } else if self.has_room() {
            self.enter(job).counted()
        } else {
            PoolState { blocked: self.blocked + 1, ..self.counted() }
        }
    }

    /// The state once a job that came back blocked was offered again.
    pub open spec fn resubmit(self, job: J) -> Self {
        let blocked = (self.blocked - 1) as nat;
        if self.deserted() {
            PoolState { refused: self.refused + 1, blocked, ..self }
        } else if self.has_room() {
            PoolState { blocked, ..self.enter(job) }
        } else {
            self
        }
    }

    /// What comes of offering a job.
    pub open spec fn offered(self, job: J) -> Result<Submission<J>, PoolError> {
        if self.deserted() {
            Err(PoolError::SendError)
        } else if self.has_room() {
            Ok(Submission::Sent)
        } else {
            Ok(Submission::Blocked(job))
        }
    }

    /// The state once a message to leave was offered.
    pub open spec fn dismiss(self) -> Self {
        if self.deserted() || !self.has_room() {
            self
        } else {
            let noted = PoolState {
                dismissals: self.dismissals + 1,
                accepted_before: if self.dismissals == 0 {
                    self.accepted.len()
                } else {
                    self.accepted_before
                },
                ..self
            };
            if self.queue_bound > 0 {
                PoolState { queue: self.queue.push(Message::Terminate), ..noted }
            } else {
                PoolState {
                    phases: self.phases.update(self.next_receiver(), Phase::Dismissed),
                    ..noted
                }
            }
        }
    }

    /// What worker `id` is told when it asks for a message.
    pub open spec fn answer(self, id: int) -> WorkerAction<J> {
        if self.phases[id] is Called {
            WorkerAction::Run(self.handed[id]->0)
        } else if self.phases[id] is Dismissed {
            WorkerAction::Exit
        } else if self.queue.len() == 0 {
            WorkerAction::Wait
        } else {
            match self.queue.first() {
                Message::NewJob(job) => WorkerAction::Run(job),
                Message::Terminate => WorkerAction::Exit,
            }
        }
    }

    /// The state once worker `id` has asked for a message.
    pub open spec fn receive(self, id: int) -> Self {
        let asked = PoolState {
            phases: self.phases.update(
                id,
                match self.answer(id) {
                    WorkerAction::Run(_) => Phase::Running,
                    WorkerAction::Wait => Phase::Waiting,
                    WorkerAction::Exit => Phase::Exited,
                },
            ),
            metrics: if self.answer(id) is Run {
                self.metrics.after_start()
            } else {
                self.metrics
            },
            ..self
        };
        if self.phases[id] is Called {
            PoolState { handed: self.handed.update(id, None), ..asked }
        } else if self.phases[id] is Dismissed || self.queue.len() == 0 {
            asked
        } else {
            PoolState {
                queue: self.queue.drop_first(),
                taken: match self.queue.first() {
                    Message::NewJob(job) => self.taken.push(job),
                    Message::Terminate => self.taken,
                },
                ..asked
            }
        }
    }

    /// The state once the job of worker `id` has ended.
    pub open spec fn finish(self, id: int, outcome: JobOutcome) -> Self {
        let rested = PoolState {
            phases: self.phases.update(id, Phase::Ready),
            metrics: self.metrics.after_end(outcome),
            ..self
        };
        match outcome {
            JobOutcome::Completed => PoolState { completed: self.completed + 1, ..rested },
            JobOutcome::Panicked => PoolState { panicked: self.panicked + 1, ..rested },
        }
    }

    /// Whether worker `id` may ask for a message.
    pub open spec fn may_receive(self, id: int) -> bool {
        0 <= id < self.phases.len() && !(self.phases[id] is Running) && !(self.phases[id] is Exited)
    }

    /// Whether worker `id` runs a job.
    pub open spec fn is_running(self, id: int) -> bool {
        0 <= id < self.phases.len() && self.phases[id] is Running
    }

    /// Whether `after` comes of what a worker does: it asks for a message, or
    /// its job ends.
    pub open spec fn worked(self, after: Self) -> bool {
        ||| exists|id: int| #[trigger] self.may_receive(id) && after == self.receive(id)
        ||| exists|id: int, outcome: JobOutcome|
            self.is_running(id) && after == #[trigger] self.finish(id, outcome)
    }

    /// Whether `after` comes of one step: a submission, a job offered again, a
    /// message to leave, or what a worker does.
    pub open spec fn stepped(self, after: Self) -> bool {
        ||| exists|job: J| after == #[trigger] self.execute(job)
        ||| self.blocked > 0 && exists|job: J| after == #[trigger] self.resubmit(job)
        ||| after == self.dismiss()
        ||| self.worked(after)
    }

    /// What holds in every state of a pool.
    pub open spec fn inv(self) -> bool {
        &&& 0 < self.phases.len() <= usize::MAX
        // A worker that was called has its job in hand, and no other has one.
        &&& self.handed.len() == self.phases.len()
        &&& forall|id: int|
            0 <= id < self.phases.len() ==> (#[trigger] self.handed[id] is Some
                <==> self.phases[id] is Called)
        // Jobs go to workers in the order in which they came, and none is lost.
        &&& self.accepted == self.taken + jobs_in(self.queue)
        // Each job submitted was taken in, came back blocked or was refused.
        &&& self.submitted == self.accepted.len() + self.blocked + self.refused
        // The counters show what happened.
        &&& self.metrics.queued == reading(self.submitted as int)
        &&& self.metrics.running == count_of(self.phases, Phase::Running)
        &&& self.metrics.completed == reading(self.completed as int)
        &&& self.metrics.panicked == reading(self.panicked as int)
        &&& self.taken.len() == self.completed + self.panicked + count_of(
            self.phases,
            Phase::Running,
        ) + count_of(self.phases, Phase::Called)
        // Each message to leave waits, is with a worker, or made a worker leave.
        &&& self.dismissals + jobs_in(self.queue).len() == count_of(self.phases, Phase::Exited)
            + count_of(self.phases, Phase::Dismissed) + self.queue.len()
        // It was sent behind the jobs that had been taken in before the first of them.
        &&& self.accepted_before <= self.accepted.len()
        &&& count_of(self.phases, Phase::Exited) + count_of(self.phases, Phase::Dismissed) > 0
            ==> self.accepted_before <= self.taken.len()
        &&& forall|i: int|
            0 <= i < self.queue.len() && #[trigger] self.queue[i] is Terminate
                ==> self.accepted_before <= self.taken.len() + jobs_in(self.queue.take(i)).len()
        // The queue keeps to its bound; with one, nothing is handed over directly.
        &&& self.queue.len() <= self.queue_bound
        &&& self.queue_bound > 0 ==> count_of(self.phases, Phase::Called) == 0 && count_of(
            self.phases,
            Phase::Dismissed,
        ) == 0
    }

    /// Whether `after` comes of what happens to a pool whose owner lets go of it: a
    /// message to leave is sent, as long as they are fewer than the workers, or a
    /// worker does something that is not merely to wait on.
    pub open spec fn closed_down(self, after: Self) -> bool {
        ||| self.dismissals < self.phases.len() && self.has_room() && after == self.dismiss()
        ||| self.worked(after) && after != self
    }

    /// How much is left to do until the owner of a pool is rid of it.
    pub open spec fn left_to_do(self) -> nat {
        let unsent = if self.dismissals < self.phases.len() {
            (self.phases.len() - self.dismissals) as nat
        } else {
            0
        };
        4 * unsent + 3 * self.queue.len() + 3 * count_of(self.phases, Phase::Called) + 2 * count_of(
            self.phases,
            Phase::Running,
        ) + count_of(self.phases, Phase::Dismissed) + count_of(self.phases, Phase::Ready)
    }
}

/// Taking the first message takes its job.
pub(crate) proof fn lemma_jobs_drop_first<J>(queue: Seq<Message<J>>)
    requires
        queue.len() > 0,
    ensures
        jobs_in(queue) == match queue.first() {
            Message::NewJob(job) => seq![job] + jobs_in(queue.drop_first()),
            Message::Terminate => jobs_in(queue.drop_first()),
        },
    decreases queue.len(),
{
    if queue.len() == 1 {
        assert(queue.drop_last() =~= Seq::empty());
        assert(queue.drop_first() =~= Seq::empty());
        reveal_with_fuel(jobs_in, 2);
        if let Message::NewJob(job) = queue.first() {
            assert(jobs_in(queue) =~= seq![job] + jobs_in(queue.drop_first()));
        }
    } else {
        lemma_jobs_drop_first(queue.drop_last());
        assert(queue.drop_last().drop_first() =~= queue.drop_first().drop_last());
        assert(queue.drop_first().last() == queue.last());
        if let Message::NewJob(job) = queue.first() {
            assert(jobs_in(queue) =~= seq![job] + jobs_in(queue.drop_first()));
        }
    }
}

/// A message that is no job makes the jobs fewer than the messages.
pub(crate) proof fn lemma_jobs_fewer<J>(queue: Seq<Message<J>>)
    ensures
        jobs_in(queue).len() <= queue.len(),
        forall|i: int|
            0 <= i < queue.len() && #[trigger] queue[i] is Terminate ==> jobs_in(queue).len()
                < queue.len(),
    decreases queue.len(),
{
    if queue.len() > 0 {
        let front = queue.drop_last();
        lemma_jobs_fewer(front);
        assert forall|i: int|
            0 <= i < queue.len() && #[trigger] queue[i] is Terminate implies jobs_in(queue).len()
            < queue.len() by {
            if i < queue.len() - 1 {
                assert(front[i] is Terminate);
            }
        }
    }
}

/// How the numbers of workers in each phase change when one changes its phase.
proof fn lemma_counts(phases: Seq<Phase>, id: int, to: Phase)
    requires
        0 <= id < phases.len(),
    ensures
        ({
            let after = phases.update(id, to);
            let from = phases[id];
            &&& count_of(after, Phase::Called) == count_of(phases, Phase::Called) + if to is Called {
                1int
            } else {
                0
            } - if from is Called {
                1int
            } else {
                0
            }
            &&& count_of(after, Phase::Dismissed) == count_of(phases, Phase::Dismissed)
                + if to is Dismissed {
                1int
            } else {
                0
            } - if from is Dismissed {
                1int
            } else {
                0
            }
            &&& count_of(after, Phase::Running) == count_of(phases, Phase::Running)
                + if to is Running {
                1int
            } else {
                0
            } - if from is Running {
                1int
            } else {
                0
            }
            &&& count_of(after, Phase::Exited) == count_of(phases, Phase::Exited) + if to is Exited {
                1int
            } else {
                0
            } - if from is Exited {
                1int
            } else {
                0
            }
            &&& count_of(after, Phase::Running) <= phases.len()
        }),
{
    lemma_count_update(phases, id, to, Phase::Called);
    lemma_count_update(phases, id, to, Phase::Dismissed);
    lemma_count_update(phases, id, to, Phase::Running);
    lemma_count_update(phases, id, to, Phase::Exited);
}

impl<J> PoolState<J> {
    /// The first worker that waits is the next receiver.
    pub(crate) proof fn lemma_next_receiver(self, id: int)
        requires
            self.is_next_receiver(id),
        ensures
            self.next_receiver() == id,
    {
        let other = self.next_receiver();
        assert(self.is_next_receiver(other));
        assert(self.phases[id] is Waiting && self.phases[other] is Waiting);
    }

    /// Some worker is the next receiver if any waits.
    proof fn lemma_some_receiver(self, waiting: int)
        requires
            0 <= waiting < self.phases.len(),
            self.phases[waiting] is Waiting,
        ensures
            self.is_next_receiver(self.next_receiver()),
        decreases waiting,
    {
        if self.is_next_receiver(waiting) {
        } else {
            let other = choose|other: int|
                0 <= other < waiting && #[trigger] self.phases[other] is Waiting;
            self.lemma_some_receiver(other);
        }
    }

    pub(crate) proof fn lemma_receiver(self)
        requires
            self.queue_bound == 0,
            self.has_room(),
        ensures
            self.is_next_receiver(self.next_receiver()),
    {
        let waiting = choose|id: int|
            0 <= id < self.phases.len() && #[trigger] self.phases[id] is Waiting;
        self.lemma_some_receiver(waiting);
    }

    /// What taking in a job keeps, but for the number of jobs submitted.
    proof fn lemma_enter(self, job: J)
        requires
            self.inv(),
            self.has_room(),
        ensures
            self.enter(job).counted().inv(),
            self.enter(job).phases.len() == self.phases.len(),
    {
        let after = self.enter(job);
        lemma_raised(self.metrics.queued, self.submitted as int);
        if self.queue_bound > 0 {
            assert(after.queue.drop_last() =~= self.queue);
            assert(after.accepted =~= after.taken + jobs_in(after.queue));
            assert forall|i: int|
                0 <= i < after.queue.len() && #[trigger] after.queue[i] is Terminate implies self.accepted_before
                <= self.taken.len() + jobs_in(after.queue.take(i)).len() by {
                assert(self.queue[i] is Terminate);
                assert(after.queue.take(i) =~= self.queue.take(i));
            }
        } else {
            self.lemma_receiver();
            lemma_counts(self.phases, self.next_receiver(), Phase::Called);
            assert(after.accepted =~= after.taken + jobs_in(after.queue));
        }
    }

    pub(crate) proof fn lemma_execute(self, job: J)
        requires
            self.inv(),
        ensures
            self.execute(job).inv(),
            self.execute(job).phases.len() == self.phases.len(),
    {
        lemma_raised(self.metrics.queued, self.submitted as int);
        if !self.deserted() && self.has_room() {
            self.lemma_enter(job);
        }
    }

    pub(crate) proof fn lemma_resubmit(self, job: J)
        requires
            self.inv(),
            self.blocked > 0,
        ensures
            self.resubmit(job).inv(),
            self.resubmit(job).phases.len() == self.phases.len(),
    {
        if !self.deserted() && self.has_room() {
            self.lemma_enter(job);
        }
    }

    pub(crate) proof fn lemma_dismiss(self)
        requires
            self.inv(),
        ensures
            self.dismiss().inv(),
            self.dismiss().phases.len() == self.phases.len(),
    {
        let after = self.dismiss();
        lemma_jobs_fewer(self.queue);
        if !self.deserted() && self.has_room() {
            if self.queue_bound > 0 {
                assert(after.queue.drop_last() =~= self.queue);
                assert forall|i: int|
                    0 <= i < after.queue.len() && #[trigger] after.queue[i] is Terminate implies after.accepted_before
                    <= after.taken.len() + jobs_in(after.queue.take(i)).len() by {
                    assert(after.queue.take(i) =~= self.queue.take(i));
                    if i == self.queue.len() {
                        assert(self.queue.take(i) =~= self.queue);
                    } else {
                        assert(self.queue[i] is Terminate);
                    }
                }
            } else {
                self.lemma_receiver();
                lemma_counts(self.phases, self.next_receiver(), Phase::Dismissed);
            }
        }
    }

    pub(crate) proof fn lemma_receive(self, id: int)
        requires
            self.inv(),
            self.may_receive(id),
        ensures
            self.receive(id).inv(),
    {
        let after = self.receive(id);
        let to = after.phases[id];
        lemma_counts(self.phases, id, to);
        lemma_count_some(self.phases, Phase::Called);
        lemma_count_some(self.phases, Phase::Dismissed);
        assert(self.phases[id] == self.phases[id]);
        assert(self.handed[id] is Some <==> self.phases[id] is Called);
        if !(self.phases[id] is Called) && !(self.phases[id] is Dismissed) && self.queue.len() > 0 {
            lemma_jobs_drop_first(self.queue);
            assert(self.queue[0] == self.queue.first());
            assert(self.queue.take(0) =~= Seq::empty());
            assert forall|i: int|
                0 <= i < after.queue.len() && #[trigger] after.queue[i] is Terminate implies after.accepted_before
                <= after.taken.len() + jobs_in(after.queue.take(i)).len() by {
                assert(self.queue[i + 1] is Terminate);
                assert(self.queue.take(i + 1).drop_first() =~= after.queue.take(i));
                lemma_jobs_drop_first(self.queue.take(i + 1));
            }
            assert(after.accepted =~= after.taken + jobs_in(after.queue));
        }
    }

    pub(crate) proof fn lemma_finish(self, id: int, outcome: JobOutcome)
        requires
            self.inv(),
            self.is_running(id),
        ensures
            self.finish(id, outcome).inv(),
    {
        lemma_counts(self.phases, id, Phase::Ready);
        lemma_raised(self.metrics.completed, self.completed as int);
        lemma_raised(self.metrics.panicked, self.panicked as int);
    }
}

/// Jobs go to workers in the order in which they were taken in: at any time
/// those that went are the first that were taken in, and the others wait.
pub proof fn law_first_in_first_out<J>(state: PoolState<J>)
    requires
        state.inv(),
    ensures
        state.taken.len() <= state.accepted.len(),
        state.taken == state.accepted.take(state.taken.len() as int),
        jobs_in(state.queue) == state.accepted.skip(state.taken.len() as int),
{
    assert(state.taken =~= state.accepted.take(state.taken.len() as int));
    assert(jobs_in(state.queue) =~= state.accepted.skip(state.taken.len() as int));
}

/// Each job that was taken in waits, was handed to a worker, runs, completed or
/// panicked.
pub proof fn law_each_job_accounted_for<J>(state: PoolState<J>)
    requires
        state.inv(),
    ensures
        state.accepted.len() == jobs_in(state.queue).len() + count_of(state.phases, Phase::Called)
            + state.metrics.running + state.completed + state.panicked,
{
}

/// No job is abandoned: once all workers have left, each job that was taken in
/// before the first message to leave went to a worker and has ended.
pub proof fn law_no_job_abandoned<J>(state: PoolState<J>)
    requires
        state.inv(),
        state.deserted(),
    ensures
        state.accepted_before <= state.taken.len(),
        state.taken.take(state.accepted_before as int) == state.accepted.take(
            state.accepted_before as int,
        ),
        state.completed + state.panicked == state.taken.len(),
        state.metrics.running == 0,
        state.accepted.len() == state.accepted_before ==> state.taken == state.accepted,
{
    lemma_count_all(state.phases, Phase::Exited);
    lemma_counts_disjoint(state.phases, Phase::Running, Phase::Exited);
    lemma_counts_disjoint(state.phases, Phase::Called, Phase::Exited);
    assert(state.taken.take(state.accepted_before as int) =~= state.accepted.take(
        state.accepted_before as int,
    ));
    if state.accepted.len() == state.accepted_before {
        assert(state.taken =~= state.accepted);
    }
}

/// No worker leaves before each job that was taken in ahead of the first message
/// to leave went to a worker.
pub proof fn law_no_early_exit<J>(state: PoolState<J>, id: int)
    requires
        state.inv(),
        state.may_receive(id),
        state.answer(id) is Exit,
    ensures
        state.accepted_before <= state.taken.len(),
{
    lemma_count_some(state.phases, Phase::Dismissed);
    if !(state.phases[id] is Dismissed) {
        assert(state.queue[0] is Terminate);
        assert(state.queue.take(0) =~= Seq::empty());
    }
}

/// Once as many messages to leave were sent as there are workers, no worker is
/// made to wait any more: it takes a job, or it leaves.
pub proof fn law_shutdown_ends<J>(state: PoolState<J>, id: int)
    requires
        state.inv(),
        state.dismissals >= state.phases.len(),
        state.may_receive(id),
    ensures
        state.answer(id) !is Wait,
{
    let gone = state.phases.update(id, Phase::Exited);
    lemma_jobs_fewer(state.queue);
    lemma_counts(state.phases, id, Phase::Exited);
    lemma_counts_disjoint(gone, Phase::Exited, Phase::Dismissed);
}

/// While its owner lets go of a pool, whatever happens leaves less to do.
pub proof fn law_close_down_step<J>(state: PoolState<J>, after: PoolState<J>)
    requires
        state.inv(),
        state.closed_down(after),
    ensures
        after.inv(),
        after.left_to_do() < state.left_to_do(),
{
    if state.dismissals < state.phases.len() && state.has_room() && after == state.dismiss() {
        state.lemma_dismiss();
        lemma_jobs_fewer(state.queue);
        lemma_count_all(state.phases, Phase::Exited);
        if state.queue_bound == 0 {
            state.lemma_receiver();
            let id = state.next_receiver();
            lemma_counts(state.phases, id, Phase::Dismissed);
            lemma_count_update(state.phases, id, Phase::Dismissed, Phase::Ready);
        }
    } else if exists|id: int| #[trigger] state.may_receive(id) && after == state.receive(id) {
        let id = choose|id: int| #[trigger] state.may_receive(id) && after == state.receive(id);
        state.lemma_receive(id);
        lemma_counts(state.phases, id, after.phases[id]);
        lemma_count_update(state.phases, id, after.phases[id], Phase::Ready);
        if state.phases[id] is Waiting && state.answer(id) is Wait {
            assert(after =~= state);
        }
    } else {
        let (id, outcome) = choose|id: int, outcome: JobOutcome|
            state.is_running(id) && after == #[trigger] state.finish(id, outcome);
        state.lemma_finish(id, outcome);
        lemma_counts(state.phases, id, Phase::Ready);
        lemma_count_update(state.phases, id, Phase::Ready, Phase::Ready);
    }
}

/// As long as a worker is left, or has yet to be told to leave, something can
/// happen.
pub proof fn law_close_down_goes_on<J>(state: PoolState<J>)
    requires
        state.inv(),
        !state.deserted() || state.dismissals < state.phases.len(),
    ensures
        exists|after: PoolState<J>| state.closed_down(after),
{
    lemma_jobs_fewer(state.queue);
    lemma_count_all(state.phases, Phase::Exited);
    if state.dismissals < state.phases.len() && state.has_room() {
        assert(state.closed_down(state.dismiss()));
    } else {
        let id = choose|id: int|
            0 <= id < state.phases.len() && #[trigger] state.phases[id] != Phase::Exited;
        if state.is_running(id) {
            let after = state.finish(id, JobOutcome::Completed);
            assert(after.phases[id] != state.phases[id]);
            assert(state.closed_down(after));
        } else {
            let after = state.receive(id);
            assert(state.may_receive(id));
            if state.dismissals >= state.phases.len() {
                law_shutdown_ends(state, id);
            }
            assert(after.phases[id] != state.phases[id]);
            assert(state.closed_down(after));
        }
    }
}

/// Whether each state of `run` comes of what happens in the one before to a pool
/// whose owner lets go of it.
pub open spec fn is_close_down<J>(run: Seq<PoolState<J>>) -> bool {
    forall|i: int, next: int|
        #![trigger run[i], run[next]]
        0 <= i && next == i + 1 && next < run.len() ==> run[i].closed_down(run[next])
}

/// A shutdown comes to its end: when the owner of a pool lets go of it, only so
/// much can happen, and when nothing more can, all workers were told to leave
/// and have left.  Then [`law_no_job_abandoned`] holds.
pub proof fn law_close_down_comes_to_its_end<J>(run: Seq<PoolState<J>>)
    requires
        run.len() > 0,
        run[0].inv(),
        is_close_down(run),
    ensures
        run.len() <= run[0].left_to_do() + 1,
        run.last().inv(),
        !(exists|after: PoolState<J>| run.last().closed_down(after)) ==> run.last().deserted()
            && run.last().dismissals >= run.last().phases.len(),
    decreases run.len(),
{
    if run.len() > 1 {
        let rest = run.drop_first();
        assert(run[0].closed_down(run[1]));
        law_close_down_step(run[0], run[1]);
        assert forall|i: int, next: int|
            #![trigger rest[i], rest[next]]
            0 <= i && next == i + 1 && next < rest.len() implies rest[i].closed_down(rest[next]) by {
            assert(run[i + 1].closed_down(run[next + 1]));
        }
        law_close_down_comes_to_its_end(rest);
    } else if !run.last().deserted() || run.last().dismissals < run.last().phases.len() {
        law_close_down_goes_on(run.last());
    }
}

/// When all is over, the counters add up: if no job was refused or is held
/// back, and none came after the first message to leave, as many were counted
/// as completed or panicked as were counted as submitted, and none as running.
pub proof fn law_counters_add_up<J>(state: PoolState<J>)
    requires
        state.inv(),
        state.deserted(),
        state.blocked == 0,
        state.refused == 0,
        state.accepted_before == state.accepted.len(),
    ensures
        state.metrics.running == 0,
        state.metrics.queued == reading(state.metrics.completed + state.metrics.panicked),
{
    law_no_job_abandoned(state);
    vstd::arithmetic::div_mod::lemma_add_mod_noop(
        state.completed as int,
        state.panicked as int,
        usize::MAX + 1,
    );
}

/// A panic costs nothing but its count: a job that panicked leaves the pool as
/// one that completed does, save for the counters, and its worker goes on.
pub proof fn law_panic_is_only_counted<J>(state: PoolState<J>, id: int)
    requires
        0 <= id < state.phases.len(),
    ensures
        ({
            let survived = state.finish(id, JobOutcome::Panicked);
            let completed = state.finish(id, JobOutcome::Completed);
            &&& survived.phases[id] is Ready
            &&& survived == PoolState {
                metrics: survived.metrics,
                completed: survived.completed,
                panicked: survived.panicked,
                ..completed
            }
        }),
{
}

/// As long as no message to leave was sent, no submission is refused.
pub proof fn law_open_pool_refuses_nothing<J>(state: PoolState<J>, job: J)
    requires
        state.inv(),
        state.dismissals == 0,
    ensures
        state.offered(job) is Ok,
{
    lemma_jobs_fewer(state.queue);
    lemma_count_all(state.phases, Phase::Exited);
}

/// No more jobs wait than the bound says, be it zero; and a worker that takes a
/// message from a queue, or waits for one where there is no queue, makes room.
pub proof fn law_backpressure<J>(state: PoolState<J>, id: int)
    requires
        state.inv(),
        state.may_receive(id),
    ensures
        state.accepted.len() - state.taken.len() <= state.queue_bound,
        state.queue.len() > 0 ==> state.receive(id).has_room(),
        state.queue_bound == 0 && state.answer(id) is Wait ==> state.receive(id).has_room(),
{
    lemma_jobs_fewer(state.queue);
    lemma_count_some(state.phases, Phase::Called);
    lemma_count_some(state.phases, Phase::Dismissed);
    if state.queue_bound == 0 && state.answer(id) is Wait {
        assert(state.receive(id).phases[id] is Waiting);
    }
}

/// A full queue loses no job and refuses none: as long as a worker is left, a
/// job that finds no room comes back, and is taken in as soon as there is room.
pub proof fn law_blocked_job_is_kept<J>(state: PoolState<J>, job: J, later: PoolState<J>)
    requires
        !state.deserted(),
        !state.has_room(),
        !later.deserted(),
        later.has_room(),
    ensures
        state.offered(job) == Ok::<Submission<J>, PoolError>(Submission::Blocked(job)),
        state.execute(job).accepted == state.accepted,
        later.offered(job) == Ok::<Submission<J>, PoolError>(Submission::Sent),
        later.resubmit(job).accepted == later.accepted.push(job),
{
}

/// One step keeps the invariant, and no tally goes back.
pub proof fn law_step_keeps_invariant<J>(state: PoolState<J>, after: PoolState<J>)
    requires
        state.inv(),
        state.stepped(after),
    ensures
        after.inv(),
        after.phases.len() == state.phases.len(),
        state.submitted <= after.submitted,
        state.completed <= after.completed,
        state.panicked <= after.panicked,
{
    if exists|job: J| after == #[trigger] state.execute(job) {
        state.lemma_execute(choose|job: J| after == #[trigger] state.execute(job));
    } else if state.blocked > 0 && exists|job: J| after == #[trigger] state.resubmit(job) {
        state.lemma_resubmit(choose|job: J| after == #[trigger] state.resubmit(job));
    } else if after == state.dismiss() {
        state.lemma_dismiss();
    } else if exists|id: int| #[trigger] state.may_receive(id) && after == state.receive(id) {
        state.lemma_receive(
            choose|id: int| #[trigger] state.may_receive(id) && after == state.receive(id),
        );
    } else {
        let (id, outcome) = choose|id: int, outcome: JobOutcome|
            state.is_running(id) && after == #[trigger] state.finish(id, outcome);
        state.lemma_finish(id, outcome);
    }
}

/// What has happened stays so: a step adds at most one job to those taken in and
/// at most one to those that went to a worker, each behind the others, and rewrites
/// neither list.
pub proof fn law_histories_only_grow<J>(state: PoolState<J>, after: PoolState<J>)
    requires
        state.inv(),
        state.stepped(after),
    ensures
        state.accepted.is_prefix_of(after.accepted),
        state.taken.is_prefix_of(after.taken),
        after.accepted.len() <= state.accepted.len() + 1,
        after.taken.len() <= state.taken.len() + 1,
        state.refused <= after.refused,
        state.dismissals <= after.dismissals,
{
}

/// Jobs go to workers in the order in which they were taken in, over the whole life
/// of a pool: what went by any time is the beginning of what was ever taken in.
pub proof fn law_order_of_arrival_is_kept<J>(run: Seq<PoolState<J>>, i: int, j: int)
    requires
        is_run(run),
        0 <= i <= j < run.len(),
        run[0].inv(),
    ensures
        run[i].accepted.is_prefix_of(run[j].accepted),
        run[i].taken.is_prefix_of(run[j].taken),
        run[i].taken.is_prefix_of(run[j].accepted),
    decreases j - i,
{
    lemma_run(run, 0, i);
    law_first_in_first_out(run[i]);
    if i < j {
        law_order_of_arrival_is_kept(run, i, j - 1);
        lemma_run(run, 0, j - 1);
        assert(run[j - 1].stepped(run[j]));
        law_histories_only_grow(run[j - 1], run[j]);
    }
}

/// Whether each state of `run` comes of the one before by one step.
pub open spec fn is_run<J>(run: Seq<PoolState<J>>) -> bool {
    forall|i: int, next: int|
        #![trigger run[i], run[next]]
        0 <= i && next == i + 1 && next < run.len() ==> run[i].stepped(run[next])
}

/// The counters of a pool never go back: of two states that it passes through,
/// the later one shows at least as many jobs submitted, completed and panicked,
/// as long as the counters have not run out of bits; and in both no more jobs
/// run than there are workers.
pub proof fn law_counters_never_go_back<J>(run: Seq<PoolState<J>>, i: int, j: int)
    requires
        is_run(run),
        0 <= i <= j < run.len(),
        run[0].inv(),
        run[j].submitted <= usize::MAX,
    ensures
        run[i].metrics.running <= run[i].phases.len(),
        run[j].metrics.running <= run[j].phases.len(),
        run[i].phases.len() == run[j].phases.len() == run[0].phases.len(),
        run[i].metrics.queued <= run[j].metrics.queued,
        run[i].metrics.completed <= run[j].metrics.completed,
        run[i].metrics.panicked <= run[j].metrics.panicked,
{
    lemma_run(run, 0, i);
    lemma_run(run, i, j);
    lemma_count_bound(run[i].phases, Phase::Running);
    lemma_count_bound(run[j].phases, Phase::Running);
    lemma_tallies(run[i]);
    lemma_tallies(run[j]);
}

/// A tally that fits a counter is what the counter shows.
proof fn lemma_tallies<J>(state: PoolState<J>)
    requires
        state.inv(),
        state.submitted <= usize::MAX,
    ensures
        state.metrics.queued == state.submitted,
        state.metrics.completed == state.completed,
        state.metrics.panicked == state.panicked,
{
    let size = (usize::MAX + 1) as nat;
    vstd::arithmetic::div_mod::lemma_small_mod(state.submitted, size);
    vstd::arithmetic::div_mod::lemma_small_mod(state.completed, size);
    vstd::arithmetic::div_mod::lemma_small_mod(state.panicked, size);
}

proof fn lemma_run<J>(run: Seq<PoolState<J>>, i: int, j: int)
    requires
        is_run(run),
        0 <= i <= j < run.len(),
        run[i].inv(),
    ensures
        run[j].inv(),
        run[j].phases.len() == run[i].phases.len(),
        run[i].submitted <= run[j].submitted,
        run[i].completed <= run[j].completed,
        run[i].panicked <= run[j].panicked,
    decreases j - i,
{
    if i < j {
        lemma_run(run, i, j - 1);
        assert(run[j - 1].stepped(run[j]));
        law_step_keeps_invariant(run[j - 1], run[j]);
    }
}

} // verus!
