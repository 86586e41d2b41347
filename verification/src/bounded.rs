//! A pool whose workers share one bounded first-in first-out queue.

use crate::bounded_state::{
    lemma_jobs_drop_first, lemma_jobs_fewer, Message, Phase, PoolState, Submission,
};
use crate::counter::{lemma_lowered, lemma_moved, lemma_raised, lowered, reading};
use crate::metrics::{JobOutcome, Metrics, MetricsSnapshot};
use crate::worker::{
    all_are, count_of, lemma_count_all, lemma_count_bound, lemma_count_initial, lemma_count_some,
    lemma_count_update, WorkerAction,
};
use crate::PoolError;
use std::collections::VecDeque;
use vstd::prelude::*;

verus! {

/// A fixed-size thread pool.
///
/// Jobs wait in a bounded queue and are taken by the workers in the order in
/// which they came.  With a bound of zero there is no queue, and a job is handed
/// to a worker that waits.  To end the pool, messages to leave are sent until
/// there is one for each worker; they wait behind the jobs that are already in
/// the queue.
pub struct ThreadPool<J> {
    queue_bound: usize,
    phases: Vec<Phase>,
    /// The job that was handed to each worker and that it has yet to begin.
    handed: Vec<Option<J>>,
    /// How many workers have left.
    exited: usize,
    queue: VecDeque<Message<J>>,
    metrics: Metrics,
    /// How many jobs came back blocked and still wait to be offered again.
    blocked: usize,
    /// How many messages to leave were sent, or the number of workers if more.
    dismissed: usize,
    submitted: Ghost<nat>,
    held_back: Ghost<nat>,
    refused: Ghost<nat>,
    accepted: Ghost<Seq<J>>,
    taken: Ghost<Seq<J>>,
    completed: Ghost<nat>,
    panicked: Ghost<nat>,
    dismissals: Ghost<nat>,
    accepted_before: Ghost<nat>,
}

impl<J> View for ThreadPool<J> {
    type V = PoolState<J>;

    closed spec fn view(&self) -> PoolState<J> {
        PoolState {
            queue_bound: self.queue_bound,
            phases: self.phases@,
            handed: self.handed@,
            queue: self.queue@,
            metrics: self.metrics,
            submitted: self.submitted@,
            blocked: self.held_back@,
            refused: self.refused@,
            accepted: self.accepted@,
            taken: self.taken@,
            completed: self.completed@,
            panicked: self.panicked@,
            dismissals: self.dismissals@,
            accepted_before: self.accepted_before@,
        }
    }
}

impl<J> ThreadPool<J> {
    /// What holds of every pool.
    pub closed spec fn wf(&self) -> bool {
        &&& self@.inv()
        &&& self.exited == count_of(self.phases@, Phase::Exited)
        &&& self.blocked == reading(self.held_back@ as int)
        &&& self.dismissed == if self.dismissals@ < self.phases@.len() {
            self.dismissals@ as int
        } else {
            self.phases@.len() as int
        }
    }

    /// Create a new `ThreadPool`.
    ///
    /// - `num_threads`: number of workers.  Must be at least 1.
    /// - `queue_bound`: maximum number of pending messages.  With a bound of
    ///   zero a message is handed over only to a worker that waits.
    ///
    /// # Errors
    ///
    /// Returns [`PoolError::InvalidSize`] if `num_threads` is zero.
    pub fn new(num_threads: usize, queue_bound: usize) -> (pool: Result<Self, PoolError>)
        ensures
            num_threads == 0 ==> pool == Err::<Self, PoolError>(PoolError::InvalidSize),
            num_threads > 0 ==> pool is Ok && pool->Ok_0.wf() && pool->Ok_0@ == PoolState::<
                J,
            >::initial(num_threads as nat, queue_bound),
    {
        if num_threads == 0 {
            return Err(PoolError::InvalidSize);
        }
        let mut phases: Vec<Phase> = Vec::with_capacity(num_threads);
        let mut handed: Vec<Option<J>> = Vec::with_capacity(num_threads);
        while phases.len() < num_threads
            invariant
                phases@.len() == handed@.len() <= num_threads,
                all_are(phases@, Phase::Ready),
                all_are(handed@, None),
            decreases num_threads - phases@.len(),
        {
            phases.push(Phase::Ready);
            handed.push(None);
        }
        proof {
            lemma_count_initial(phases@, Phase::Ready, Phase::Called);
            lemma_count_initial(phases@, Phase::Ready, Phase::Dismissed);
            lemma_count_initial(phases@, Phase::Ready, Phase::Running);
            lemma_count_initial(phases@, Phase::Ready, Phase::Exited);
        }
        let pool = ThreadPool {
            queue_bound,
            phases,
            handed,
            exited: 0,
            queue: VecDeque::new(),
            metrics: Metrics::new(),
            blocked: 0,
            dismissed: 0,
            submitted: Ghost(0),
            held_back: Ghost(0),
            refused: Ghost(0),
            accepted: Ghost(Seq::empty()),
            taken: Ghost(Seq::empty()),
            completed: Ghost(0),
            panicked: Ghost(0),
            dismissals: Ghost(0),
            accepted_before: Ghost(0),
        };
        assert(pool@.handed =~= PoolState::<J>::initial(num_threads as nat, queue_bound).handed);
        assert(pool@ =~= PoolState::<J>::initial(num_threads as nat, queue_bound));
        Ok(pool)
    }

    /// The first worker that waits.
    fn first_waiting(&self) -> (first: Option<usize>)
        ensures
            first matches Some(id) ==> self@.is_next_receiver(id as int),
            first is None ==> forall|id: int|
                0 <= id < self@.phases.len() ==> !(#[trigger] self@.phases[id] is Waiting),
    {
        let mut id: usize = 0;
        while id < self.phases.len()
            invariant
                id <= self.phases@.len(),
                forall|other: int|
                    0 <= other < id ==> !(#[trigger] self.phases@[other] is Waiting),
            decreases self.phases@.len() - id,
        {
            if self.phases[id] == Phase::Waiting {
                return Some(id);
            }
            id = id + 1;
        }
        None
    }

    /// Take in a job if there is room for it; else it comes back.
    fn take_in(&mut self, job: J) -> (back: Option<J>)
        requires
            old(self).handed@.len() == old(self).phases@.len(),
            old(self).exited == count_of(old(self).phases@, Phase::Exited),
        ensures
            back == if old(self)@.has_room() {
                None
            } else {
                Some(job)
            },
            final(self)@ == if old(self)@.has_room() {
                old(self)@.enter(job)
            } else {
                old(self)@
            },
            final(self).exited == count_of(final(self).phases@, Phase::Exited),
            final(self).phases@.len() == old(self).phases@.len(),
            final(self).blocked == old(self).blocked,
            final(self).dismissed == old(self).dismissed,
    {
        let ghost before = self@;
        if self.queue_bound > 0 {
            if self.queue.len() >= self.queue_bound {
                return Some(job);
            }
            self.queue.push_back(Message::NewJob(job));
            proof {
                self.accepted@ = self.accepted@.push(job);
                assert(self@ =~= before.enter(job));
            }
            return None;
        }
        match self.first_waiting() {
            None => Some(job),
            Some(id) => {
                self.phases[id] = Phase::Called;
                self.handed[id] = Some(job);
                proof {
                    assert(before.phases[id as int] is Waiting);
                    before.lemma_next_receiver(id as int);
                    lemma_count_update(before.phases, id as int, Phase::Called, Phase::Exited);
                    self.accepted@ = self.accepted@.push(job);
                    self.taken@ = self.taken@.push(job);
                    assert(self@ =~= before.enter(job));
                }
                None
            },
        }
    }

    /// Submit a job for execution by one of the workers.
    ///
    /// The job comes back blocked if the queue is full; it is then to be given
    /// to [`Self::resubmit`] once a worker has taken a message.
    ///
    /// # Errors
    ///
    /// Returns [`PoolError::SendError`] if all workers have exited.
    pub fn execute(&mut self, job: J) -> (submission: Result<Submission<J>, PoolError>)
        requires
            old(self).wf(),
        ensures
            final(self).wf(),
            submission == old(self)@.offered(job),
            final(self)@ == old(self)@.execute(job),
    {
        let ghost before = self@;
        proof {
            lemma_count_all(self.phases@, Phase::Exited);
            before.lemma_execute(job);
            lemma_raised(self.blocked, self.held_back@ as int);
        }
        if self.exited == self.phases.len() {
            self.metrics.job_submitted();
            proof {
                self.submitted@ = self.submitted@ + 1;
                self.refused@ = self.refused@ + 1;
                assert(self@ =~= before.execute(job));
            }
            return Err(PoolError::SendError);
        }
        let back = self.take_in(job);
        self.metrics.job_submitted();
        proof {
            self.submitted@ = self.submitted@ + 1;
        }
        match back {
            Some(job) => {
                self.blocked = self.blocked.wrapping_add(1);
                proof {
                    self.held_back@ = self.held_back@ + 1;
                    assert(self@ =~= before.execute(job));
                }
                Ok(Submission::Blocked(job))
            },
            None => {
                assert(self@ =~= before.execute(job));
                Ok(Submission::Sent)
            },
        }
    }

    /// Offer again a job that came back blocked.  It is not counted as
    /// submitted a second time.
    ///
    /// # Errors
    ///
    /// Returns [`PoolError::SendError`] if all workers have exited.
    pub fn resubmit(&mut self, job: J) -> (submission: Result<Submission<J>, PoolError>)
        requires
            old(self).wf(),
            old(self)@.blocked > 0,
        ensures
            final(self).wf(),
            submission == old(self)@.offered(job),
            final(self)@ == old(self)@.resubmit(job),
    {
        let ghost before = self@;
        proof {
            lemma_count_all(self.phases@, Phase::Exited);
            before.lemma_resubmit(job);
            lemma_lowered(self.blocked, self.held_back@ as int);
        }
        if self.exited == self.phases.len() {
            self.blocked = self.blocked.wrapping_sub(1);
            proof {
                self.held_back@ = (self.held_back@ - 1) as nat;
                self.refused@ = self.refused@ + 1;
                assert(self@ =~= before.resubmit(job));
            }
            return Err(PoolError::SendError);
        }
        match self.take_in(job) {
            Some(job) => Ok(Submission::Blocked(job)),
            None => {
                self.blocked = self.blocked.wrapping_sub(1);
                proof {
                    self.held_back@ = (self.held_back@ - 1) as nat;
                    assert(self@ =~= before.resubmit(job));
                }
                Ok(Submission::Sent)
            },
        }
    }

    /// How many jobs came back blocked and still wait to be offered again.
    pub fn blocked(&self) -> (blocked: usize)
        requires
            self.wf(),
        ensures
            blocked == reading(self@.blocked as int),
            blocked > 0 ==> self@.blocked > 0,
    {
        proof {
            vstd::arithmetic::div_mod::lemma_small_mod(0, (usize::MAX + 1) as nat);
        }
        self.blocked
    }

    /// Send one message to leave.  Says whether that is done: it is not while
    /// the queue is full, and there is nothing to do once all workers have
    /// exited.
    pub fn dismiss(&mut self) -> (done: bool)
        requires
            old(self).wf(),
        ensures
            final(self).wf(),
            done == (old(self)@.deserted() || old(self)@.has_room()),
            final(self)@ == old(self)@.dismiss(),
    {
        let ghost before = self@;
        proof {
            lemma_count_all(self.phases@, Phase::Exited);
            before.lemma_dismiss();
        }
        if self.exited == self.phases.len() {
            return true;
        }
        if self.queue_bound > 0 {
            if self.queue.len() >= self.queue_bound {
                return false;
            }
            self.queue.push_back(Message::Terminate);
        } else {
            match self.first_waiting() {
                None => {
                    return false;
                },
                Some(id) => {
                    self.phases[id] = Phase::Dismissed;
                    proof {
                        assert(before.phases[id as int] is Waiting);
                        before.lemma_next_receiver(id as int);
                        lemma_count_update(
                            before.phases,
                            id as int,
                            Phase::Dismissed,
                            Phase::Exited,
                        );
                    }
                },
            }
        }
        if self.dismissed < self.phases.len() {
            self.dismissed = self.dismissed + 1;
        }
        proof {
            if self.dismissals@ == 0 {
                self.accepted_before@ = self.accepted@.len();
            }
            self.dismissals@ = self.dismissals@ + 1;
            assert(self@ =~= before.dismiss());
        }
        true
    }

    /// Whether as many messages to leave were sent as there are workers.
    pub fn all_dismissed(&self) -> (all: bool)
        requires
            self.wf(),
        ensures
            all == (self@.dismissals >= self@.phases.len()),
    {
        self.dismissed == self.phases.len()
    }

    /// Ask for a message on behalf of worker `id`.
    pub fn receive(&mut self, id: usize) -> (action: WorkerAction<J>)
        requires
            old(self).wf(),
            old(self)@.may_receive(id as int),
        ensures
            final(self).wf(),
            action == old(self)@.answer(id as int),
            final(self)@ == old(self)@.receive(id as int),
    {
        let ghost before = self@;
        proof {
            let to = before.receive(id as int).phases[id as int];
            lemma_count_update(before.phases, id as int, to, Phase::Exited);
            before.lemma_receive(id as int);
            assert(before.handed[id as int] is Some <==> before.phases[id as int] is Called);
        }
        let mut in_hand: Option<J> = None;
        std::mem::swap(&mut in_hand, &mut self.handed[id]);
        if let Some(job) = in_hand {
            self.phases[id] = Phase::Running;
            self.metrics.job_started();
            assert(self@ =~= before.receive(id as int));
            return WorkerAction::Run(job);
        }
        assert(self.handed@ =~= before.handed);
        if self.phases[id] == Phase::Dismissed {
            self.phases[id] = Phase::Exited;
            self.exited = self.exited + 1;
            assert(self@ =~= before.receive(id as int));
            return WorkerAction::Exit;
        }
        match self.queue.pop_front() {
            Some(Message::NewJob(job)) => {
                self.phases[id] = Phase::Running;
                self.metrics.job_started();
                proof {
                    self.taken@ = self.taken@.push(job);
                    assert(self@ =~= before.receive(id as int));
                }
                WorkerAction::Run(job)
            },
            Some(Message::Terminate) => {
                self.phases[id] = Phase::Exited;
                self.exited = self.exited + 1;
                assert(self@ =~= before.receive(id as int));
                WorkerAction::Exit
            },
            None => {
                self.phases[id] = Phase::Waiting;
                assert(self@ =~= before.receive(id as int));
                WorkerAction::Wait
            },
        }
    }

    /// Tell how the job of worker `id` ended.  The worker lives on either way.
    pub fn finish(&mut self, id: usize, outcome: JobOutcome)
        requires
            old(self).wf(),
            old(self)@.is_running(id as int),
        ensures
            final(self).wf(),
            final(self)@ == old(self)@.finish(id as int, outcome),
    {
        let ghost before = self@;
        self.phases[id] = Phase::Ready;
        self.metrics.job_ended(outcome);
        proof {
            match outcome {
                JobOutcome::Completed => {
                    self.completed@ = self.completed@ + 1;
                },
                JobOutcome::Panicked => {
                    self.panicked@ = self.panicked@ + 1;
                },
            }
            assert(self@ =~= before.finish(id as int, outcome));
            before.lemma_finish(id as int, outcome);
            lemma_count_update(before.phases, id as int, Phase::Ready, Phase::Exited);
        }
    }

    /// The metrics counters.
    pub fn metrics(&self) -> (metrics: &Metrics)
        ensures
            *metrics == self@.metrics,
    {
        &self.metrics
    }

    /// The phase of worker `id`, if there is such a worker.
    pub fn phase(&self, id: usize) -> (phase: Option<Phase>)
        ensures
            phase == if id < self@.phases.len() {
                Some(self@.phases[id as int])
            } else {
                None
            },
    {
        if id < self.phases.len() {
            Some(self.phases[id])
        } else {
            None
        }
    }
}

/// Every pool is in a state in which [`PoolState::inv`] holds.
pub proof fn law_pool_invariant<J>(pool: &ThreadPool<J>)
    requires
        pool.wf(),
    ensures
        pool@.inv(),
{
}

/// A pool is refused to no one but who asks for no workers, and a new one has the
/// workers and the bound asked for, all workers about to ask for a message, no
/// message, and all counters at zero.
pub proof fn law_new_pool_is_empty<J>(
    num_threads: usize,
    queue_bound: usize,
    made: Result<ThreadPool<J>, PoolError>,
)
    requires
        call_ensures(ThreadPool::<J>::new, (num_threads, queue_bound), made),
    ensures
        made is Err <==> num_threads == 0,
        made matches Err(error) ==> error is InvalidSize,
        made matches Ok(pool) ==> {
            &&& pool@.queue_bound == queue_bound
            &&& pool@.phases.len() == num_threads
            &&& forall|id: int| 0 <= id < num_threads ==> #[trigger] pool@.phases[id] is Ready
            &&& pool@.handed.len() == num_threads
            &&& forall|id: int| 0 <= id < num_threads ==> #[trigger] pool@.handed[id] is None
            &&& pool@.queue.len() == 0
            &&& pool@.accepted.len() == 0
            &&& pool@.taken.len() == 0
            &&& pool@.submitted == 0 && pool@.blocked == 0 && pool@.refused == 0
            &&& pool@.completed == 0 && pool@.panicked == 0 && pool@.dismissals == 0
            &&& pool@.metrics.queued == 0 && pool@.metrics.running == 0
            &&& pool@.metrics.completed == 0 && pool@.metrics.panicked == 0
        },
{
}

/// What is answered to a submission is what becomes of the job.  If it was sent,
/// just that job was added to the jobs taken in, and none is refused or held
/// back.  If it came back, it is the same job, it is held back, and nothing else
/// happened to it.  If it was refused, all workers have left.  In any case one
/// more job was submitted and counted, and the jobs that were taken in before are
/// the same.
pub proof fn law_sent_job_is_taken_in<J>(
    pool: &mut ThreadPool<J>,
    job: J,
    submission: Result<Submission<J>, PoolError>,
)
    requires
        pool.wf(),
        call_ensures(ThreadPool::<J>::execute, (pool, job), submission),
    ensures
        submission is Err <==> forall|id: int|
            0 <= id < old(pool)@.phases.len() ==> #[trigger] old(pool)@.phases[id] is Exited,
        match submission {
            Ok(Submission::Sent) => {
                &&& final(pool)@.accepted == old(pool)@.accepted.push(job)
                &&& final(pool)@.blocked == old(pool)@.blocked
                &&& final(pool)@.refused == old(pool)@.refused
            },
            Ok(Submission::Blocked(back)) => {
                &&& back == job
                &&& final(pool)@.accepted == old(pool)@.accepted
                &&& final(pool)@.blocked == old(pool)@.blocked + 1
                &&& final(pool)@.refused == old(pool)@.refused
            },
            Err(error) => {
                &&& error is SendError
                &&& final(pool)@.accepted == old(pool)@.accepted
                &&& final(pool)@.blocked == old(pool)@.blocked
                &&& final(pool)@.refused == old(pool)@.refused + 1
            },
        },
        !(submission matches Ok(Submission::Sent)) ==> final(pool)@.queue == old(pool)@.queue
            && final(pool)@.phases == old(pool)@.phases && final(pool)@.handed == old(pool)@.handed
            && final(pool)@.taken == old(pool)@.taken,
        final(pool)@.submitted == old(pool)@.submitted + 1,
        final(pool)@.metrics.queued == (old(pool)@.metrics.queued + 1) % (usize::MAX + 1),
        final(pool)@ == (PoolState {
            phases: final(pool)@.phases,
            handed: final(pool)@.handed,
            queue: final(pool)@.queue,
            metrics: (Metrics { queued: final(pool)@.metrics.queued, ..old(pool)@.metrics }),
            submitted: final(pool)@.submitted,
            blocked: final(pool)@.blocked,
            refused: final(pool)@.refused,
            accepted: final(pool)@.accepted,
            taken: final(pool)@.taken,
            ..old(pool)@
        }),
{
    lemma_count_all(pool@.phases, Phase::Exited);
    lemma_moved(pool@.metrics.queued);
}

/// A job that is offered again becomes what is answered, as one that is submitted
/// does, but it is not submitted or counted a second time: it is one of those
/// held back, until it is taken in or refused.
pub proof fn law_offered_again_is_taken_in<J>(
    pool: &mut ThreadPool<J>,
    job: J,
    submission: Result<Submission<J>, PoolError>,
)
    requires
        pool.wf(),
        pool@.blocked > 0,
        call_ensures(ThreadPool::<J>::resubmit, (pool, job), submission),
    ensures
        submission is Err <==> forall|id: int|
            0 <= id < old(pool)@.phases.len() ==> #[trigger] old(pool)@.phases[id] is Exited,
        match submission {
            Ok(Submission::Sent) => {
                &&& final(pool)@.accepted == old(pool)@.accepted.push(job)
                &&& final(pool)@.blocked == old(pool)@.blocked - 1
                &&& final(pool)@.refused == old(pool)@.refused
            },
            Ok(Submission::Blocked(back)) => back == job && final(pool)@ == old(pool)@,
            Err(error) => {
                &&& error is SendError
                &&& final(pool)@.accepted == old(pool)@.accepted
                &&& final(pool)@.blocked == old(pool)@.blocked - 1
                &&& final(pool)@.refused == old(pool)@.refused + 1
            },
        },
        !(submission matches Ok(Submission::Sent)) ==> final(pool)@.queue == old(pool)@.queue
            && final(pool)@.phases == old(pool)@.phases && final(pool)@.handed == old(pool)@.handed
            && final(pool)@.taken == old(pool)@.taken,
        final(pool)@ == (PoolState {
            phases: final(pool)@.phases,
            handed: final(pool)@.handed,
            queue: final(pool)@.queue,
            blocked: final(pool)@.blocked,
            refused: final(pool)@.refused,
            accepted: final(pool)@.accepted,
            taken: final(pool)@.taken,
            ..old(pool)@
        }),
{
    lemma_count_all(pool@.phases, Phase::Exited);
}

/// Two pools in the same state answer a new job and one that is offered again
/// alike, and put them in the same place.
pub proof fn law_offered_again_like_new<J>(
    one: &mut ThreadPool<J>,
    other: &mut ThreadPool<J>,
    job: J,
    new: Result<Submission<J>, PoolError>,
    again: Result<Submission<J>, PoolError>,
)
    requires
        one@ == other@,
        call_ensures(ThreadPool::<J>::execute, (one, job), new),
        call_ensures(ThreadPool::<J>::resubmit, (other, job), again),
    ensures
        new == again,
        final(one)@.accepted == final(other)@.accepted,
        final(one)@.taken == final(other)@.taken,
        final(one)@.queue == final(other)@.queue,
        final(one)@.phases == final(other)@.phases,
        final(one)@.handed == final(other)@.handed,
        final(one)@.refused == final(other)@.refused,
{
}

/// Where a job goes that was sent, and when one can be.  With a queue it is sent
/// if and only if a worker is left and fewer messages wait than the bound says,
/// and then waits behind all of them; nothing else changes place.  Without a queue
/// it is sent if and only if a worker waits, and then just the first that does
/// has it in hand.
pub proof fn law_place_of_a_sent_job<J>(
    pool: &mut ThreadPool<J>,
    job: J,
    submission: Result<Submission<J>, PoolError>,
)
    requires
        pool.wf(),
        call_ensures(ThreadPool::<J>::execute, (pool, job), submission),
    ensures
        old(pool)@.queue_bound > 0 ==> (submission == Ok::<Submission<J>, PoolError>(
            Submission::Sent,
        ) <==> old(pool)@.queue.len() < old(pool)@.queue_bound && exists|id: int|
            0 <= id < old(pool)@.phases.len() && #[trigger] old(pool)@.phases[id] !is Exited),
        old(pool)@.queue_bound == 0 ==> (submission == Ok::<Submission<J>, PoolError>(
            Submission::Sent,
        ) <==> exists|id: int|
            0 <= id < old(pool)@.phases.len() && #[trigger] old(pool)@.phases[id] is Waiting),
        submission matches Ok(Submission::Sent) ==> old(pool)@.queue_bound > 0 ==> {
            &&& final(pool)@.queue == old(pool)@.queue.push(Message::NewJob(job))
            &&& final(pool)@.phases == old(pool)@.phases
            &&& final(pool)@.handed == old(pool)@.handed
            &&& final(pool)@.taken == old(pool)@.taken
        },
        submission matches Ok(Submission::Sent) ==> old(pool)@.queue_bound == 0 ==> {
            &&& final(pool)@.queue == old(pool)@.queue
            &&& final(pool)@.taken == old(pool)@.taken.push(job)
            &&& exists|id: int|
                {
                    &&& 0 <= id < old(pool)@.phases.len()
                    &&& #[trigger] old(pool)@.phases[id] is Waiting
                    &&& forall|other: int|
                        0 <= other < id ==> #[trigger] old(pool)@.phases[other] !is Waiting
                    &&& final(pool)@.phases == old(pool)@.phases.update(id, Phase::Called)
                    &&& final(pool)@.handed == old(pool)@.handed.update(id, Some(job))
                }
        },
{
    let before = pool@;
    lemma_count_all(before.phases, Phase::Exited);
    if exists|id: int| 0 <= id < before.phases.len() && #[trigger] before.phases[id] is Waiting {
        let waiting = choose|id: int|
            0 <= id < before.phases.len() && #[trigger] before.phases[id] is Waiting;
        assert(before.phases[waiting] != Phase::Exited);
        if before.queue_bound == 0 {
            before.lemma_receiver();
            assert(before.is_next_receiver(before.next_receiver()));
        }
    }
}

/// Jobs go to workers in the order in which they were taken in.  A job that a
/// worker gets out of the queue is the oldest that waits, the one that stands in
/// the unchanged list of jobs taken in behind those that went before; just it is
/// added to the jobs that went.  A job that was handed to the worker is the one
/// that it has in hand.  A worker leaves only on a message to leave, and is made
/// to wait only if no message waits.
pub proof fn law_oldest_job_goes_out<J>(
    pool: &mut ThreadPool<J>,
    id: usize,
    action: WorkerAction<J>,
)
    requires
        pool.wf(),
        0 <= id < pool@.phases.len(),
        call_ensures(ThreadPool::<J>::receive, (pool, id), action),
    ensures
        action matches WorkerAction::Run(job) ==> if old(pool)@.phases[id as int] is Called {
            &&& old(pool)@.handed[id as int] == Some(job)
            &&& final(pool)@.handed == old(pool)@.handed.update(id as int, None)
            &&& final(pool)@.taken == old(pool)@.taken
            &&& final(pool)@.queue == old(pool)@.queue
        } else {
            &&& old(pool)@.taken.len() < old(pool)@.accepted.len()
            &&& job == old(pool)@.accepted[old(pool)@.taken.len() as int]
            &&& final(pool)@.taken == old(pool)@.taken.push(job)
            &&& old(pool)@.queue.len() > 0
            &&& old(pool)@.queue.first() == Message::NewJob(job)
            &&& final(pool)@.queue == old(pool)@.queue.drop_first()
            &&& final(pool)@.handed == old(pool)@.handed
        },
        action is Run ==> final(pool)@.phases[id as int] is Running
            && final(pool)@.metrics.running == (old(pool)@.metrics.running + 1) % (usize::MAX + 1),
        action !is Run ==> final(pool)@.taken == old(pool)@.taken && final(pool)@.handed == old(
            pool)@.handed && final(pool)@.metrics == old(pool)@.metrics,
        action is Exit ==> final(pool)@.phases[id as int] is Exited && if old(
            pool)@.phases[id as int] is Dismissed {
            final(pool)@.queue == old(pool)@.queue
        } else {
            &&& old(pool)@.queue.len() > 0
            &&& old(pool)@.queue.first() is Terminate
            &&& final(pool)@.queue == old(pool)@.queue.drop_first()
        },
        action is Wait ==> {
            &&& final(pool)@.phases[id as int] is Waiting
            &&& old(pool)@.queue.len() == 0
            &&& old(pool)@.taken == old(pool)@.accepted
            &&& old(pool)@.phases[id as int] !is Called
            &&& old(pool)@.phases[id as int] !is Dismissed
            &&& final(pool)@.queue == old(pool)@.queue
        },
        final(pool)@.phases.len() == old(pool)@.phases.len(),
        forall|other: int|
            0 <= other < old(pool)@.phases.len() && other != id ==>
            #[trigger] final(pool)@.phases[other] == old(pool)@.phases[other],
        final(pool)@ == (PoolState {
            phases: final(pool)@.phases,
            handed: final(pool)@.handed,
            queue: final(pool)@.queue,
            metrics: (Metrics { running: final(pool)@.metrics.running, ..old(pool)@.metrics }),
            taken: final(pool)@.taken,
            ..old(pool)@
        }),
{
    let before = pool@;
    lemma_moved(before.metrics.running);
    if before.queue.len() > 0 {
        lemma_jobs_drop_first(before.queue);
    } else {
        assert(before.taken =~= before.accepted);
    }
}

/// The end of a job takes none and loses none: the jobs that were taken in, that
/// wait and that went are the same, and its worker, but no other, is about to ask
/// again.  It is counted by how it ended, whatever else runs.
pub proof fn law_end_of_a_job_is_counted<J>(
    pool: &mut ThreadPool<J>,
    id: usize,
    outcome: JobOutcome,
)
    requires
        pool.wf(),
        0 <= id < pool@.phases.len(),
        call_ensures(ThreadPool::<J>::finish, (pool, id, outcome), ()),
    ensures
        final(pool)@.phases == old(pool)@.phases.update(id as int, Phase::Ready),
        outcome is Completed ==> {
            &&& final(pool)@.completed == old(pool)@.completed + 1
            &&& final(pool)@.panicked == old(pool)@.panicked
            &&& final(pool)@.metrics.completed == (old(pool)@.metrics.completed + 1) % (usize::MAX
                + 1)
            &&& final(pool)@.metrics.panicked == old(pool)@.metrics.panicked
        },
        outcome is Panicked ==> {
            &&& final(pool)@.completed == old(pool)@.completed
            &&& final(pool)@.panicked == old(pool)@.panicked + 1
            &&& final(pool)@.metrics.completed == old(pool)@.metrics.completed
            &&& final(pool)@.metrics.panicked == (old(pool)@.metrics.panicked + 1) % (usize::MAX
                + 1)
        },
        old(pool)@.metrics.running == (final(pool)@.metrics.running + 1) % (usize::MAX + 1),
        final(pool)@.metrics.queued == old(pool)@.metrics.queued,
        final(pool)@ == (PoolState {
            phases: final(pool)@.phases,
            metrics: final(pool)@.metrics,
            completed: final(pool)@.completed,
            panicked: final(pool)@.panicked,
            ..old(pool)@
        }),
{
    lemma_moved(pool@.metrics.completed);
    lemma_moved(pool@.metrics.panicked);
    lemma_moved(lowered(pool@.metrics.running));
}

/// A message to leave goes behind what waits and touches no job and no counter.
/// It is sent if and only if a job would be; once all workers have left, there is
/// nothing to send.  Without a queue just the first worker that waits gets it.
pub proof fn law_dismissal_takes_no_job<J>(
    pool: &mut ThreadPool<J>,
    job: J,
    done: bool,
    other: &mut ThreadPool<J>,
    submission: Result<Submission<J>, PoolError>,
)
    requires
        pool.wf(),
        pool@ == other@,
        call_ensures(ThreadPool::<J>::dismiss, (pool,), done),
        call_ensures(ThreadPool::<J>::execute, (other, job), submission),
    ensures
        done <==> !(submission matches Ok(Submission::Blocked(_))),
        submission matches Ok(Submission::Sent) ==> {
            &&& final(pool)@.dismissals == old(pool)@.dismissals + 1
            &&& old(pool)@.queue_bound > 0 ==> final(pool)@.queue == old(pool)@.queue.push(
                Message::Terminate,
            ) && final(pool)@.phases == old(pool)@.phases
            &&& old(pool)@.queue_bound == 0 ==> final(pool)@.queue == old(pool)@.queue && exists|
                id: int,
            |
                {
                    &&& 0 <= id < old(pool)@.phases.len()
                    &&& #[trigger] old(pool)@.phases[id] is Waiting
                    &&& final(pool)@.phases == old(pool)@.phases.update(id, Phase::Dismissed)
                    &&& final(other)@.phases == old(pool)@.phases.update(id, Phase::Called)
                }
            &&& final(pool)@.accepted_before == if old(pool)@.dismissals == 0 {
                old(pool)@.accepted.len()
            } else {
                old(pool)@.accepted_before
            }
        },
        !(submission matches Ok(Submission::Sent)) ==> final(pool)@ == old(pool)@,
        final(pool)@ == (PoolState {
            phases: final(pool)@.phases,
            queue: final(pool)@.queue,
            dismissals: final(pool)@.dismissals,
            accepted_before: final(pool)@.accepted_before,
            ..old(pool)@
        }),
{
    let before = pool@;
    if before.queue_bound == 0 && before.has_room() {
        before.lemma_receiver();
        assert(before.is_next_receiver(before.next_receiver()));
    }
}

/// What the counters show is what happened: as many jobs as were submitted, as
/// many as ran to their end, as many as panicked, each modulo the size of a
/// machine word, and as many running as went to a worker, began and have not
/// ended.
pub proof fn law_counters_show_what_happened<J>(
    pool: &ThreadPool<J>,
    metrics: &Metrics,
    snapshot: MetricsSnapshot,
)
    requires
        pool.wf(),
        call_ensures(ThreadPool::<J>::metrics, (pool,), metrics),
        call_ensures(Metrics::snapshot, (metrics,), snapshot),
    ensures
        snapshot.queued == pool@.submitted as int % (usize::MAX + 1),
        snapshot.completed == pool@.completed as int % (usize::MAX + 1),
        snapshot.panicked == pool@.panicked as int % (usize::MAX + 1),
        pool@.queue_bound > 0 ==> snapshot.running == pool@.taken.len() - pool@.completed
            - pool@.panicked,
        snapshot.running <= pool@.phases.len(),
        snapshot.running > 0 <==> exists|id: int|
            0 <= id < pool@.phases.len() && #[trigger] pool@.phases[id] is Running,
        pool@.submitted == pool@.accepted.len() + pool@.blocked + pool@.refused,
{
    lemma_count_bound(pool@.phases, Phase::Running);
    lemma_count_some(pool@.phases, Phase::Running);
    if exists|id: int| 0 <= id < pool@.phases.len() && #[trigger] pool@.phases[id] is Running {
        let id = choose|id: int|
            0 <= id < pool@.phases.len() && #[trigger] pool@.phases[id] is Running;
        assert(pool@.phases[id] == Phase::Running);
    }
}

/// How many jobs are held back, the pool tells modulo the size of a machine word,
/// and it tells exactly whether each worker was sent a message to leave.
pub proof fn law_pool_tells_what_is_owed<J>(pool: &ThreadPool<J>, blocked: usize, all: bool)
    requires
        pool.wf(),
        call_ensures(ThreadPool::<J>::blocked, (pool,), blocked),
        call_ensures(ThreadPool::<J>::all_dismissed, (pool,), all),
    ensures
        blocked == pool@.blocked as int % (usize::MAX + 1),
        all <==> pool@.dismissals >= pool@.phases.len(),
        pool@.blocked == pool@.submitted - pool@.accepted.len() - pool@.refused,
        (forall|id: int| 0 <= id < pool@.phases.len() ==> #[trigger] pool@.phases[id] is Exited)
            ==> all,
{
    lemma_count_all(pool@.phases, Phase::Exited);
    lemma_jobs_fewer(pool@.queue);
    if forall|id: int| 0 <= id < pool@.phases.len() ==> #[trigger] pool@.phases[id] is Exited {
        assert(all_are(pool@.phases, Phase::Exited));
    }
}

/// A worker may ask for a message just when it neither runs a job nor has left,
/// and may end a job just when it runs one; what phase it is in, the pool tells.
pub proof fn law_phase_tells_what_is_due<J>(
    pool: &ThreadPool<J>,
    id: usize,
    phase: Option<Phase>,
)
    requires
        call_ensures(ThreadPool::<J>::phase, (pool, id), phase),
    ensures
        phase is Some <==> id < pool@.phases.len(),
        phase matches Some(now) ==> now == pool@.phases[id as int],
        pool@.may_receive(id as int) <==> phase is Some && phase != Some(Phase::Running) && phase
            != Some(Phase::Exited),
        pool@.is_running(id as int) <==> phase == Some(Phase::Running),
{
}

} // verus!
