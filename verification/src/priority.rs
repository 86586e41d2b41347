//! A pool whose workers take the most urgent job first.

use crate::heap::{is_top, JobHeap, PriorityJob};
use crate::metrics::JobOutcome;
use crate::worker::{
    all_are, count_of, lemma_count_all, lemma_count_bound, lemma_count_initial, lemma_count_some,
    lemma_count_update, lemma_counts_disjoint, Phase, WorkerAction,
};
use crate::PoolError;
use vstd::multiset::Multiset;
use vstd::prelude::*;

verus! {

/// The sequence number of the job that is submitted after `count` others.
/// Numbers start over at zero when they run out of bits.
pub open spec fn seq_number(count: int) -> int {
    count % (u64::MAX + 1)
}

/// What a [`PriorityThreadPool`] holds, and what has happened to it.
#[verifier::ext_equal]
pub struct PriorityState<J> {
    /// The phase of each worker.
    pub phases: Seq<Phase>,
    /// The jobs that wait.
    pub pending: Multiset<PriorityJob<J>>,
    /// Whether the pool takes no more jobs.
    pub shutdown: bool,
    /// All the jobs taken in, in the order in which they came.
    pub submitted: Seq<PriorityJob<J>>,
    /// All the jobs handed to workers, in the order in which they went.
    pub started: Seq<PriorityJob<J>>,
    /// How many jobs have ended, be it with a panic.
    pub ended: nat,
}

impl<J> PriorityState<J> {
    /// The state of a new pool.
    pub open spec fn initial(num_threads: nat) -> Self {
        PriorityState {
            phases: Seq::new(num_threads, |id: int| Phase::Ready),
            pending: Multiset::empty(),
            shutdown: false,
            submitted: Seq::empty(),
            started: Seq::empty(),
            ended: 0,
        }
    }

    /// The state once a job was taken in.
    pub open spec fn submit(self, priority: i64, job: J) -> Self {
        let item = PriorityJob {
            priority,
            seq: seq_number(self.submitted.len() as int) as u64,
            job,
        };
        PriorityState {
            pending: self.pending.insert(item),
            submitted: self.submitted.push(item),
            ..self
        }
    }

    /// The state once a job was handed to worker `id`.
    pub open spec fn start(self, id: int, item: PriorityJob<J>) -> Self {
        PriorityState {
            phases: self.phases.update(id, Phase::Running),
            pending: self.pending.remove(item),
            started: self.started.push(item),
            ..self
        }
    }

    /// The state once the job of worker `id` has ended, however it did.
    pub open spec fn finish(self, id: int, outcome: JobOutcome) -> Self {
        PriorityState {
            phases: self.phases.update(id, Phase::Ready),
            ended: self.ended + 1,
            ..self
        }
    }

    /// Whether worker `id` may ask what to do.
    pub open spec fn may_ask(self, id: int) -> bool {
        0 <= id < self.phases.len() && (self.phases[id] is Ready || self.phases[id] is Waiting)
    }

    /// Whether worker `id` runs a job.
    pub open spec fn is_running(self, id: int) -> bool {
        0 <= id < self.phases.len() && self.phases[id] is Running
    }

    /// Whether worker `id`, when it asks what to do, may be told `action`, and
    /// the pool be left in `after`: it runs a most urgent job; without any job it
    /// waits, or leaves if the pool is shut down.
    pub open spec fn dispatched(self, id: int, action: WorkerAction<J>, after: Self) -> bool {
        if self.pending.len() > 0 {
            exists|item: PriorityJob<J>| #[trigger]
                is_top(self.pending, item) && action == WorkerAction::Run(item.job) && after
                    == self.start(id, item)
        } else if self.shutdown {
            &&& action is Exit
            &&& after == PriorityState { phases: self.phases.update(id, Phase::Exited), ..self }
        } else {
            &&& action is Wait
            &&& after == PriorityState { phases: self.phases.update(id, Phase::Waiting), ..self }
        }
    }

    /// Whether `after` comes of what a worker does: it asks what to do, or its
    /// job ends.
    pub open spec fn worked(self, after: Self) -> bool {
        ||| exists|id: int, action: WorkerAction<J>|
            self.may_ask(id) && #[trigger] self.dispatched(id, action, after)
        ||| exists|id: int, outcome: JobOutcome|
            self.is_running(id) && after == #[trigger] self.finish(id, outcome)
    }

    /// What holds in every state of a pool.
    pub open spec fn inv(self) -> bool {
        &&& 0 < self.phases.len()
        // Each job taken in either waits or was handed out, and none of them twice.
        &&& self.submitted.to_multiset() == self.started.to_multiset().add(self.pending)
        // Jobs are numbered in the order in which they came.
        &&& forall|i: int|
            0 <= i < self.submitted.len() ==> (#[trigger] self.submitted[i]).seq == seq_number(i)
        // Each job that was handed out runs or has ended.
        &&& self.started.len() == self.ended + count_of(self.phases, Phase::Running)
        // No worker leaves before all is done.
        &&& count_of(self.phases, Phase::Exited) > 0 ==> self.shutdown && self.pending.len() == 0
    }

    /// How much is left to do once the pool is shut down.
    pub open spec fn left_to_do(self) -> int {
        2 * self.pending.len() + count_of(self.phases, Phase::Running) + self.phases.len()
            - count_of(self.phases, Phase::Exited)
    }

    proof fn lemma_submit(self, priority: i64, job: J)
        requires
            self.inv(),
            !self.shutdown,
        ensures
            self.submit(priority, job).inv(),
    {
        let after = self.submit(priority, job);
        self.submitted.to_multiset_ensures();
        assert(after.submitted.to_multiset() =~= after.started.to_multiset().add(after.pending));
    }

    proof fn lemma_dispatched(self, id: int, action: WorkerAction<J>, after: Self)
        requires
            self.inv(),
            self.may_ask(id),
            self.dispatched(id, action, after),
        ensures
            after.inv(),
            self.shutdown ==> after.left_to_do() < self.left_to_do(),
    {
        lemma_count_update(self.phases, id, after.phases[id], Phase::Running);
        lemma_count_update(self.phases, id, after.phases[id], Phase::Exited);
        if self.pending.len() > 0 {
            let item = choose|item: PriorityJob<J>| #[trigger]
                is_top(self.pending, item) && action == WorkerAction::Run(item.job) && after
                    == self.start(id, item);
            self.started.to_multiset_ensures();
            assert(after.submitted.to_multiset() =~= after.started.to_multiset().add(
                after.pending,
            ));
        }
    }

    proof fn lemma_finish(self, id: int, outcome: JobOutcome)
        requires
            self.inv(),
            self.is_running(id),
        ensures
            self.finish(id, outcome).inv(),
            self.finish(id, outcome).left_to_do() < self.left_to_do(),
    {
        lemma_count_update(self.phases, id, Phase::Ready, Phase::Running);
        lemma_count_update(self.phases, id, Phase::Ready, Phase::Exited);
    }
}

/// A pool that executes jobs in priority order.
///
/// Higher `priority` values run first.  Within the same priority level, jobs
/// run in the order in which they were submitted.
pub struct PriorityThreadPool<J> {
    phases: Vec<Phase>,
    heap: JobHeap<J>,
    shutdown: bool,
    seq: u64,
    submitted: Ghost<Seq<PriorityJob<J>>>,
    started: Ghost<Seq<PriorityJob<J>>>,
    ended: Ghost<nat>,
}

impl<J> View for PriorityThreadPool<J> {
    type V = PriorityState<J>;

    closed spec fn view(&self) -> PriorityState<J> {
        PriorityState {
            phases: self.phases@,
            pending: self.heap@,
            shutdown: self.shutdown,
            submitted: self.submitted@,
            started: self.started@,
            ended: self.ended@,
        }
    }
}

impl<J> PriorityThreadPool<J> {
    /// What holds of every pool.
    pub closed spec fn wf(&self) -> bool {
        &&& self.heap.wf()
        &&& self.seq == seq_number(self.submitted@.len() as int)
        &&& self@.inv()
    }

    /// Create a new priority pool with `num_threads` workers.
    ///
    /// # Errors
    ///
    /// Returns [`PoolError::InvalidSize`] if `num_threads` is zero.
    pub fn new(num_threads: usize) -> (pool: Result<Self, PoolError>)
        ensures
            num_threads == 0 ==> pool == Err::<Self, PoolError>(PoolError::InvalidSize),
            num_threads > 0 ==> pool is Ok && pool->Ok_0.wf() && pool->Ok_0@ == PriorityState::<
                J,
            >::initial(num_threads as nat),
    {
        if num_threads == 0 {
            return Err(PoolError::InvalidSize);
        }
        let mut phases: Vec<Phase> = Vec::with_capacity(num_threads);
        while phases.len() < num_threads
            invariant
                phases@.len() <= num_threads,
                all_are(phases@, Phase::Ready),
            decreases num_threads - phases@.len(),
        {
            phases.push(Phase::Ready);
        }
        let pool = PriorityThreadPool {
            phases,
            heap: JobHeap::new(),
            shutdown: false,
            seq: 0,
            submitted: Ghost(Seq::empty()),
            started: Ghost(Seq::empty()),
            ended: Ghost(0),
        };
        proof {
            assert(pool@ =~= PriorityState::<J>::initial(num_threads as nat));
            lemma_count_initial(pool@.phases, Phase::Ready, Phase::Running);
            lemma_count_initial(pool@.phases, Phase::Ready, Phase::Exited);
            Seq::<PriorityJob<J>>::empty().to_multiset_ensures();
            assert(pool@.submitted.to_multiset() =~= pool@.started.to_multiset().add(
                pool@.pending,
            ));
        }
        Ok(pool)
    }

    /// Submit a job with the given priority.
    ///
    /// Higher values run sooner.  Jobs with equal priority run in the order in
    /// which they were submitted.
    ///
    /// # Errors
    ///
    /// Returns [`PoolError::SendError`] if the pool has been shut down.
    pub fn execute_with_priority(&mut self, priority: i64, job: J) -> (submission: Result<
        (),
        PoolError,
    >)
        requires
            old(self).wf(),
        ensures
            final(self).wf(),
            old(self)@.shutdown ==> submission == Err::<(), PoolError>(PoolError::SendError)
                && final(self)@ == old(self)@,
            !old(self)@.shutdown ==> submission == Ok::<(), PoolError>(()) && final(self)@ == old(
                self,
            )@.submit(priority, job),
    {
        if self.shutdown {
            return Err(PoolError::SendError);
        }
        let ghost before = self@;
        let seq: u64 = self.seq;
        self.seq = self.seq.wrapping_add(1);
        self.heap.push(PriorityJob { priority, seq, job });
        proof {
            self.submitted@ = self.submitted@.push(PriorityJob { priority, seq, job });
            assert(self@ =~= before.submit(priority, job));
            before.lemma_submit(priority, job);
            crate::counter::lemma_mod_successor(before.submitted.len() as int, u64::MAX + 1);
        }
        Ok(())
    }

    /// Submit a job with default priority (0).
    ///
    /// # Errors
    ///
    /// Returns [`PoolError::SendError`] if the pool has been shut down.
    pub fn execute(&mut self, job: J) -> (submission: Result<(), PoolError>)
        requires
            old(self).wf(),
        ensures
            final(self).wf(),
            old(self)@.shutdown ==> submission == Err::<(), PoolError>(PoolError::SendError)
                && final(self)@ == old(self)@,
            !old(self)@.shutdown ==> submission == Ok::<(), PoolError>(()) && final(self)@ == old(
                self,
            )@.submit(0, job),
    {
        self.execute_with_priority(0, job)
    }

    /// What worker `id` does next.
    pub fn next_job(&mut self, id: usize) -> (action: WorkerAction<J>)
        requires
            old(self).wf(),
            old(self)@.may_ask(id as int),
        ensures
            final(self).wf(),
            old(self)@.dispatched(id as int, action, final(self)@),
    {
        let ghost before = self@;
        if self.heap.is_empty() && !self.shutdown {
            self.phases[id] = Phase::Waiting;
            proof {
                assert(before.dispatched(id as int, WorkerAction::Wait, self@));
                before.lemma_dispatched(id as int, WorkerAction::Wait, self@);
            }
            return WorkerAction::Wait;
        }
        match self.heap.pop() {
            Some(item) => {
                self.phases[id] = Phase::Running;
                proof {
                    self.started@ = self.started@.push(item);
                    assert(self@ =~= before.start(id as int, item));
                    assert(is_top(before.pending, item));
                    assert(before.pending.len() > 0);
                    assert(before.dispatched(id as int, WorkerAction::Run(item.job), self@));
                    before.lemma_dispatched(id as int, WorkerAction::Run(item.job), self@);
                }
                WorkerAction::Run(item.job)
            },
            None => {
                self.phases[id] = Phase::Exited;
                proof {
                    assert(before.dispatched(id as int, WorkerAction::Exit, self@));
                    before.lemma_dispatched(id as int, WorkerAction::Exit, self@);
                }
                WorkerAction::Exit
            },
        }
    }

    /// Tell that the job of worker `id` ended.  The worker lives on, however the
    /// job did.
    pub fn finish(&mut self, id: usize, outcome: JobOutcome)
        requires
            old(self).wf(),
            old(self)@.is_running(id as int),
        ensures
            final(self).wf(),
            final(self)@ == old(self)@.finish(id as int, outcome),
    {
        let ghost before = self@;
        self.phases[id] = Phase::Ready;
        proof {
            self.ended@ = self.ended@ + 1;
            assert(self@ =~= before.finish(id as int, outcome));
            before.lemma_finish(id as int, outcome);
        }
    }

    /// Take no more jobs.  Workers leave once no job is left.
    pub fn shutdown(&mut self)
        requires
            old(self).wf(),
        ensures
            final(self).wf(),
            final(self)@ == (PriorityState { shutdown: true, ..old(self)@ }),
    {
        self.shutdown = true;
    }

    /// The phase of worker `id`, if there is such a worker.
    pub fn phase(&self, id: usize) -> (phase: Option<Phase>)
        ensures
            phase == if id < self@.phases.len() {
                Some(self@.phases[id as int])
            } else {
                None
            },
    {
        if id < self.phases.len() {
            Some(self.phases[id])
        } else {
            None
        }
    }
}

/// In every state of a pool, each job taken in either waits just once or was
/// handed out just once, jobs are numbered as they came, each job handed out
/// runs or has ended, and no worker has left while a job waits.
pub proof fn law_pool_invariant<J>(pool: &PriorityThreadPool<J>)
    requires
        pool.wf(),
    ensures
        pool@.inv(),
{
}

/// The job that is handed out has a priority as high as that of any job that
/// waits.
pub proof fn law_higher_priority_first<J>(
    state: PriorityState<J>,
    top: PriorityJob<J>,
    other: PriorityJob<J>,
)
    requires
        is_top(state.pending, top),
        state.pending.contains(other),
    ensures
        top.priority >= other.priority,
{
}

/// Within the same priority, the job that is handed out was submitted no later
/// than any job that waits, provided that the sequence numbers did not start
/// over between the two.
pub proof fn law_first_in_first_out<J>(state: PriorityState<J>, top: int, other: int)
    requires
        state.inv(),
        0 <= top < state.submitted.len(),
        0 <= other < state.submitted.len(),
        is_top(state.pending, state.submitted[top]),
        state.pending.contains(state.submitted[other]),
        state.submitted[other].priority == state.submitted[top].priority,
        top / (u64::MAX + 1) == other / (u64::MAX + 1),
    ensures
        top <= other,
{
    assert(state.submitted[top].at_least(state.submitted[other]));
}

/// Whether `run` may be the jobs that are handed out one after the other when
/// `pending` wait and none is added.
pub open spec fn drains<J>(pending: Multiset<PriorityJob<J>>, run: Seq<PriorityJob<J>>) -> bool
    decreases run.len(),
{
    run.len() == 0 || (is_top(pending, run.first()) && drains(
        pending.remove(run.first()),
        run.drop_first(),
    ))
}

/// Jobs that are handed out one after the other, with none added, come in the
/// order of their urgency.
pub proof fn law_drained_in_order<J>(
    pending: Multiset<PriorityJob<J>>,
    run: Seq<PriorityJob<J>>,
    i: int,
    j: int,
)
    requires
        drains(pending, run),
        0 <= i < j < run.len(),
    ensures
        run[i].at_least(run[j]),
    decreases run.len(),
{
    let rest = run.drop_first();
    if i > 0 {
        law_drained_in_order(pending.remove(run.first()), rest, i - 1, j - 1);
    } else {
        lemma_drained_from(pending.remove(run.first()), rest, j - 1);
        assert(pending.contains(run[j]));
    }
}

/// What is handed out has been waiting.
proof fn lemma_drained_from<J>(
    pending: Multiset<PriorityJob<J>>,
    run: Seq<PriorityJob<J>>,
    i: int,
)
    requires
        drains(pending, run),
        0 <= i < run.len(),
    ensures
        pending.contains(run[i]),
    decreases run.len(),
{
    if i > 0 {
        lemma_drained_from(pending.remove(run.first()), run.drop_first(), i - 1);
    }
}

/// No worker leaves early: when one does, the pool is shut down, no job waits,
/// and each job ever taken in was handed to a worker.
pub proof fn law_no_early_exit<J>(
    state: PriorityState<J>,
    id: int,
    action: WorkerAction<J>,
    after: PriorityState<J>,
)
    requires
        state.inv(),
        state.dispatched(id, action, after),
        action is Exit,
    ensures
        state.shutdown,
        state.pending.len() == 0,
        state.started.to_multiset() == state.submitted.to_multiset(),
{
    lemma_drained(state);
}

/// Without jobs that wait, all were handed out.
proof fn lemma_drained<J>(state: PriorityState<J>)
    requires
        state.inv(),
        state.pending.len() == 0,
    ensures
        state.started.to_multiset() == state.submitted.to_multiset(),
{
    assert(state.pending =~= Multiset::empty());
    assert(state.started.to_multiset().add(state.pending) =~= state.started.to_multiset());
}

/// No job is abandoned: once all workers have left, each job ever taken in was
/// handed to a worker just once, and has ended.
pub proof fn law_no_job_abandoned<J>(state: PriorityState<J>)
    requires
        state.inv(),
        all_are(state.phases, Phase::Exited),
    ensures
        state.pending.len() == 0,
        state.started.to_multiset() == state.submitted.to_multiset(),
        state.ended == state.started.len() == state.submitted.len(),
{
    lemma_count_all(state.phases, Phase::Exited);
    lemma_counts_disjoint(state.phases, Phase::Running, Phase::Exited);
    lemma_drained(state);
    state.started.to_multiset_ensures();
    state.submitted.to_multiset_ensures();
}

/// A worker is told to wait if and only if no job waits and the pool is not shut
/// down, and to leave if and only if no job waits and it is.
pub proof fn law_no_idle_wait<J>(
    state: PriorityState<J>,
    id: int,
    action: WorkerAction<J>,
    after: PriorityState<J>,
)
    requires
        state.dispatched(id, action, after),
    ensures
        action is Wait <==> state.pending.len() == 0 && !state.shutdown,
        action is Exit <==> state.pending.len() == 0 && state.shutdown,
{
}

/// A panic changes nothing: a job that panicked leaves the pool as one that
/// completed does, and its worker goes on.
pub proof fn law_panic_changes_nothing<J>(state: PriorityState<J>, id: int)
    requires
        state.is_running(id),
    ensures
        state.finish(id, JobOutcome::Panicked) == state.finish(id, JobOutcome::Completed),
        state.finish(id, JobOutcome::Panicked).may_ask(id),
{
}

/// Once the pool is shut down, whatever a worker does leaves less to do.
pub proof fn law_drain_step<J>(state: PriorityState<J>, after: PriorityState<J>)
    requires
        state.inv(),
        state.shutdown,
        state.worked(after),
    ensures
        after.inv(),
        after.shutdown,
        after.left_to_do() < state.left_to_do(),
{
    if exists|id: int, action: WorkerAction<J>|
        state.may_ask(id) && #[trigger] state.dispatched(id, action, after) {
        let (id, action) = choose|id: int, action: WorkerAction<J>|
            state.may_ask(id) && #[trigger] state.dispatched(id, action, after);
        state.lemma_dispatched(id, action, after);
    } else {
        let (id, outcome) = choose|id: int, outcome: JobOutcome|
            state.is_running(id) && after == #[trigger] state.finish(id, outcome);
        state.lemma_finish(id, outcome);
    }
}

/// Whether each state of `run` comes of what a worker does in the one before.
pub open spec fn is_drain<J>(run: Seq<PriorityState<J>>) -> bool {
    forall|i: int, next: int|
        #![trigger run[i], run[next]]
        0 <= i && next == i + 1 && next < run.len() ==> run[i].worked(run[next])
}

/// A shutdown comes to its end: the workers of a pool that is shut down can do
/// only so much, and as long as one of them is left there is something it can
/// do.  So all leave, and [`law_no_job_abandoned`] holds then.
pub proof fn law_drain_comes_to_its_end<J>(run: Seq<PriorityState<J>>, id: int)
    requires
        run.len() > 0,
        run[0].inv(),
        run[0].shutdown,
        is_drain(run),
        0 <= id < run.last().phases.len(),
    ensures
        run.len() <= run[0].left_to_do() + 1,
        run.last().inv(),
        run.last().phases[id] !is Exited ==> run.last().may_ask(id) || run.last().is_running(id),
    decreases run.len(),
{
    lemma_count_bound(run[0].phases, Phase::Exited);
    if run.len() > 1 {
        let rest = run.drop_first();
        assert(run[0].worked(run[1]));
        law_drain_step(run[0], run[1]);
        assert forall|i: int, next: int|
            #![trigger rest[i], rest[next]]
            0 <= i && next == i + 1 && next < rest.len() implies rest[i].worked(rest[next]) by {
            assert(run[i + 1].worked(run[next + 1]));
        }
        law_drain_comes_to_its_end(rest, id);
    }
}

/// A pool is refused to no one but who asks for no workers, and a new one has the
/// workers asked for, all about to ask for a job, and no job.
pub proof fn law_new_pool_is_empty<J>(
    num_threads: usize,
    made: Result<PriorityThreadPool<J>, PoolError>,
)
    requires
        call_ensures(PriorityThreadPool::<J>::new, (num_threads,), made),
    ensures
        made is Err <==> num_threads == 0,
        made matches Err(error) ==> error is InvalidSize,
        made matches Ok(pool) ==> {
            &&& pool@.phases.len() == num_threads
            &&& forall|id: int| 0 <= id < num_threads ==> #[trigger] pool@.phases[id] is Ready
            &&& pool@.pending.len() == 0
            &&& pool@.submitted.len() == 0
            &&& pool@.started.len() == 0
            &&& pool@.ended == 0
            &&& !pool@.shutdown
        },
{
}

/// Each job waits under the priority that its submitter gave: a pool that is not
/// shut down takes in just that job, with that priority and with the count of
/// earlier submissions as its number, and changes in nothing else.  One that is
/// shut down refuses it, and does not change.
pub proof fn law_submission_keeps_its_priority<J>(
    pool: &mut PriorityThreadPool<J>,
    priority: i64,
    job: J,
    submission: Result<(), PoolError>,
)
    requires
        call_ensures(
            PriorityThreadPool::<J>::execute_with_priority,
            (pool, priority, job),
            submission,
        ),
    ensures
        submission is Err <==> old(pool)@.shutdown,
        submission matches Err(error) ==> error is SendError && final(pool)@ == old(pool)@,
        submission is Ok ==> {
            let item = final(pool)@.submitted.last();
            &&& final(pool)@.submitted.len() == old(pool)@.submitted.len() + 1
            &&& final(pool)@.submitted.drop_last() == old(pool)@.submitted
            &&& item.priority == priority
            &&& item.job == job
            &&& item.seq == old(pool)@.submitted.len() % (u64::MAX + 1) as nat
            &&& final(pool)@.pending == old(pool)@.pending.insert(item)
            &&& final(pool)@ == PriorityState {
                pending: final(pool)@.pending,
                submitted: final(pool)@.submitted,
                ..old(pool)@
            }
        },
{
    if submission is Ok {
        assert(final(pool)@.submitted.drop_last() =~= pool@.submitted);
    }
}

/// A job submitted without a priority waits as one with priority zero does.
pub proof fn law_default_priority_is_zero<J>(
    plain: &mut PriorityThreadPool<J>,
    ranked: &mut PriorityThreadPool<J>,
    job: J,
    first: Result<(), PoolError>,
    second: Result<(), PoolError>,
)
    requires
        plain@ == ranked@,
        call_ensures(PriorityThreadPool::<J>::execute, (plain, job), first),
        call_ensures(
            PriorityThreadPool::<J>::execute_with_priority,
            (ranked, 0i64, job),
            second,
        ),
    ensures
        first is Ok <==> second is Ok,
        first matches Err(error) ==> error is SendError,
        final(plain)@ == final(ranked)@,
        first is Ok ==> final(plain)@.submitted.last().priority == 0,
{
}

/// A worker that asks gets a job that waits, and none that waits has a higher
/// priority, or the same and a lower number.  Just that job no longer waits, and
/// just it is added to those handed out.  Without any job the worker waits, or
/// leaves if the pool is shut down.  Nothing else changes.
pub proof fn law_most_urgent_job_goes_out<J>(
    pool: &mut PriorityThreadPool<J>,
    id: usize,
    action: WorkerAction<J>,
)
    requires
        0 <= id < pool@.phases.len(),
        call_ensures(PriorityThreadPool::<J>::next_job, (pool, id), action),
    ensures
        action is Run <==> old(pool)@.pending.len() > 0,
        action is Exit <==> old(pool)@.pending.len() == 0 && old(pool)@.shutdown,
        action matches WorkerAction::Run(job) ==> {
            let item = final(pool)@.started.last();
            &&& item.job == job
            &&& final(pool)@.started == old(pool)@.started.push(item)
            &&& old(pool)@.pending.count(item) > 0
            &&& final(pool)@.pending == old(pool)@.pending.remove(item)
            &&& forall|other: PriorityJob<J>| #[trigger]
                old(pool)@.pending.count(other) > 0 ==> other.priority <= item.priority && (
                other.priority == item.priority ==> item.seq <= other.seq)
            &&& final(pool)@.phases[id as int] is Running
        },
        action !is Run ==> final(pool)@.pending == old(pool)@.pending && final(pool)@.started
            == old(pool)@.started,
        action is Wait ==> final(pool)@.phases[id as int] is Waiting,
        action is Exit ==> final(pool)@.phases[id as int] is Exited,
        final(pool)@.phases.len() == old(pool)@.phases.len(),
        forall|other: int|
            0 <= other < old(pool)@.phases.len() && other != id ==>
            #[trigger] final(pool)@.phases[other] == old(pool)@.phases[other],
        final(pool)@.submitted == old(pool)@.submitted,
        final(pool)@.ended == old(pool)@.ended,
        final(pool)@.shutdown == old(pool)@.shutdown,
{
    let before = pool@;
    let after = final(pool)@;
    if before.pending.len() > 0 {
        let item = choose|item: PriorityJob<J>| #[trigger]
            is_top(before.pending, item) && action == WorkerAction::Run(item.job) && after
                == before.start(id as int, item);
        assert(before.pending.contains(item));
        assert(after.started.last() == item);
        assert forall|other: PriorityJob<J>| #[trigger]
            before.pending.count(other) > 0 implies other.priority <= item.priority && (
        other.priority == item.priority ==> item.seq <= other.seq) by {
            assert(before.pending.contains(other));
        }
    }
}

/// Of two jobs submitted one after the other to any pool, whichever came first,
/// the one with the lower priority still waits once a worker was handed a job.
pub proof fn law_lower_priority_waits<J>(
    first: &mut PriorityThreadPool<J>,
    second: &mut PriorityThreadPool<J>,
    third: &mut PriorityThreadPool<J>,
    one: (i64, J),
    other: (i64, J),
    id: usize,
    action: WorkerAction<J>,
)
    requires
        call_ensures(
            PriorityThreadPool::<J>::execute_with_priority,
            (first, one.0, one.1),
            Ok::<(), PoolError>(()),
        ),
        *second == *final(first),
        call_ensures(
            PriorityThreadPool::<J>::execute_with_priority,
            (second, other.0, other.1),
            Ok::<(), PoolError>(()),
        ),
        *third == *final(second),
        call_ensures(PriorityThreadPool::<J>::next_job, (third, id), action),
        0 <= id < third@.phases.len(),
        one.0 != other.0,
    ensures
        action is Run,
        ({
            let number = old(first)@.submitted.len() as int;
            let waits = if one.0 < other.0 {
                final(third)@.submitted[number]
            } else {
                final(third)@.submitted[number + 1]
            };
            &&& waits.priority == if one.0 < other.0 {
                one.0
            } else {
                other.0
            }
            &&& waits.job == if one.0 < other.0 {
                one.1
            } else {
                other.1
            }
            &&& final(third)@.pending.count(waits) > 0
        }),
{
    law_submission_keeps_its_priority(first, one.0, one.1, Ok(()));
    law_submission_keeps_its_priority(second, other.0, other.1, Ok(()));
    law_most_urgent_job_goes_out(third, id, action);
    let number = first@.submitted.len() as int;
    let early = third@.submitted[number];
    let late = third@.submitted[number + 1];
    assert(second@.submitted.last() == early);
    assert(third@.submitted.drop_last()[number] == early);
    assert(third@.pending.count(early) > 0);
    assert(third@.pending.count(late) > 0);
}

/// Of two jobs submitted with the same priority one after the other, the second
/// still waits once a worker was handed a job, unless the numbers start over
/// between them.
pub proof fn law_later_of_equals_waits<J>(
    first: &mut PriorityThreadPool<J>,
    second: &mut PriorityThreadPool<J>,
    third: &mut PriorityThreadPool<J>,
    priority: i64,
    one: J,
    other: J,
    id: usize,
    action: WorkerAction<J>,
)
    requires
        call_ensures(
            PriorityThreadPool::<J>::execute_with_priority,
            (first, priority, one),
            Ok::<(), PoolError>(()),
        ),
        *second == *final(first),
        call_ensures(
            PriorityThreadPool::<J>::execute_with_priority,
            (second, priority, other),
            Ok::<(), PoolError>(()),
        ),
        *third == *final(second),
        call_ensures(PriorityThreadPool::<J>::next_job, (third, id), action),
        0 <= id < third@.phases.len(),
        first@.submitted.len() < u64::MAX,
    ensures
        action is Run,
        ({
            let waits = final(third)@.submitted[old(first)@.submitted.len() as int + 1];
            &&& waits.priority == priority
            &&& waits.job == other
            &&& final(third)@.pending.count(waits) > 0
        }),
{
    law_submission_keeps_its_priority(first, priority, one, Ok(()));
    law_submission_keeps_its_priority(second, priority, other, Ok(()));
    law_most_urgent_job_goes_out(third, id, action);
    let number = first@.submitted.len();
    let early = second@.submitted.last();
    let late = third@.submitted.last();
    vstd::arithmetic::div_mod::lemma_small_mod(number, (u64::MAX + 1) as nat);
    vstd::arithmetic::div_mod::lemma_small_mod(number + 1, (u64::MAX + 1) as nat);
    assert(third@.pending.count(early) > 0);
    assert(third@.pending.count(late) > 0);
}

/// The end of a job leaves alone which jobs wait and which were handed out: one
/// more job has ended, and its worker is about to ask again, however the job
/// ended.
pub proof fn law_end_of_a_job_takes_none<J>(
    pool: &mut PriorityThreadPool<J>,
    id: usize,
    outcome: JobOutcome,
)
    requires
        0 <= id < pool@.phases.len(),
        call_ensures(PriorityThreadPool::<J>::finish, (pool, id, outcome), ()),
    ensures
        final(pool)@.pending == old(pool)@.pending,
        final(pool)@.submitted == old(pool)@.submitted,
        final(pool)@.started == old(pool)@.started,
        final(pool)@.shutdown == old(pool)@.shutdown,
        final(pool)@.ended == old(pool)@.ended + 1,
        final(pool)@.phases.len() == old(pool)@.phases.len(),
        final(pool)@.phases[id as int] is Ready,
        forall|other: int|
            0 <= other < old(pool)@.phases.len() && other != id ==>
            #[trigger] final(pool)@.phases[other] == old(pool)@.phases[other],
{
}

/// A shutdown loses no job and sends no worker away: all that changes is that no
/// more jobs are taken in.
pub proof fn law_shutdown_loses_nothing<J>(pool: &mut PriorityThreadPool<J>)
    requires
        call_ensures(PriorityThreadPool::<J>::shutdown, (pool,), ()),
    ensures
        final(pool)@.shutdown,
        final(pool)@.pending == old(pool)@.pending,
        final(pool)@.phases == old(pool)@.phases,
        final(pool)@.submitted == old(pool)@.submitted,
        final(pool)@.started == old(pool)@.started,
        final(pool)@.ended == old(pool)@.ended,
{
}

/// A worker may ask for a job just when it neither runs one nor has left, and may
/// end one just when it runs one; what phase it is in, the pool tells.
pub proof fn law_phase_tells_what_is_due<J>(
    pool: &PriorityThreadPool<J>,
    id: usize,
    phase: Option<Phase>,
)
    requires
        call_ensures(PriorityThreadPool::<J>::phase, (pool, id), phase),
    ensures
        phase is Some <==> id < pool@.phases.len(),
        phase matches Some(now) ==> now == pool@.phases[id as int],
        pool@.may_ask(id as int) <==> phase == Some(Phase::Ready) || phase == Some(Phase::Waiting),
        pool@.is_running(id as int) <==> phase == Some(Phase::Running),
{
}

/// Each job taken in waits or was handed out, each job handed out runs or has
/// ended, and jobs are numbered in the order in which they came.
pub proof fn law_each_job_is_somewhere<J>(pool: &PriorityThreadPool<J>, job: PriorityJob<J>)
    requires
        pool.wf(),
    ensures
        pool@.submitted.to_multiset().count(job) == pool@.started.to_multiset().count(job)
            + pool@.pending.count(job),
        pool@.submitted.len() == pool@.started.len() + pool@.pending.len(),
        pool@.ended <= pool@.started.len() <= pool@.ended + pool@.phases.len(),
        forall|i: int|
            0 <= i < pool@.submitted.len() ==> (#[trigger] pool@.submitted[i]).seq == i % (u64::MAX
                + 1),
        forall|id: int|
            0 <= id < pool@.phases.len() && #[trigger] pool@.phases[id] is Exited
                ==> pool@.shutdown && pool@.pending.len() == 0,
{
    pool@.submitted.to_multiset_ensures();
    pool@.started.to_multiset_ensures();
    lemma_count_bound(pool@.phases, Phase::Running);
    lemma_count_some(pool@.phases, Phase::Exited);
    assert(pool@.submitted.to_multiset().count(job) == pool@.started.to_multiset().add(
        pool@.pending,
    ).count(job));
    assert forall|id: int|
        0 <= id < pool@.phases.len() && #[trigger] pool@.phases[id] is Exited implies pool@.shutdown
        && pool@.pending.len() == 0 by {
        assert(pool@.phases[id] == Phase::Exited);
    }
}

} // verus!
