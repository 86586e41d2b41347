//! The states of a [`WorkStealingPool`](crate::work_stealing::WorkStealingPool),
//! and the laws that hold of them.

use crate::counter::{lemma_mod_successor, lemma_raised, raised, reading};
use crate::metrics::JobOutcome;
use crate::worker::{
    all_are, count_of, lemma_count_all, lemma_count_bound, lemma_count_update,
    lemma_counts_disjoint, Phase,
};
use vstd::multiset::Multiset;
use vstd::prelude::*;

verus! {

/// The jobs of all the lanes together.
pub open spec fn union_of<J>(lanes: Seq<Seq<J>>) -> Multiset<J>
    decreases lanes.len(),
{
    if lanes.len() == 0 {
        Multiset::empty()
    } else {
        union_of(lanes.drop_last()).add(lanes.last().to_multiset())
    }
}

/// Lanes without jobs have none together.
pub(crate) proof fn lemma_union_of_empties<J>(lanes: Seq<Seq<J>>)
    requires
        forall|i: int| 0 <= i < lanes.len() ==> (#[trigger] lanes[i]).len() == 0,
    ensures
        union_of(lanes) == Multiset::<J>::empty(),
    decreases lanes.len(),
{
    if lanes.len() > 0 {
        lemma_union_of_empties(lanes.drop_last());
        lanes.last().to_multiset_ensures();
        assert(union_of(lanes) =~= Multiset::<J>::empty());
    }
}

/// If the lanes together have no job, none of them has any.
proof fn lemma_union_empty<J>(lanes: Seq<Seq<J>>)
    requires
        union_of(lanes) == Multiset::<J>::empty(),
    ensures
        forall|i: int| 0 <= i < lanes.len() ==> (#[trigger] lanes[i]).len() == 0,
    decreases lanes.len(),
{
    if lanes.len() > 0 {
        let front = lanes.drop_last();
        lanes.last().to_multiset_ensures();
        assert forall|job: J| #[trigger] union_of(front).count(job) == 0 by {
            assert(union_of(lanes).count(job) == 0);
        }
        assert(union_of(front) =~= Multiset::<J>::empty());
        lemma_union_empty(front);
        if lanes.last().len() > 0 {
            assert(lanes.last().contains(lanes.last().first()));
            assert(union_of(lanes).count(lanes.last().first()) == 0);
        }
        assert forall|i: int| 0 <= i < lanes.len() implies (#[trigger] lanes[i]).len() == 0 by {
            if i < lanes.len() - 1 {
                assert(front[i] == lanes[i]);
            }
        }
    }
}

/// Exchanging one lane exchanges its jobs.
proof fn lemma_union_update<J>(lanes: Seq<Seq<J>>, i: int, lane: Seq<J>)
    requires
        0 <= i < lanes.len(),
    ensures
        union_of(lanes.update(i, lane)).add(lanes[i].to_multiset()) == union_of(lanes).add(
            lane.to_multiset(),
        ),
    decreases lanes.len(),
{
    let after = lanes.update(i, lane);
    if i == lanes.len() - 1 {
        assert(after.drop_last() =~= lanes.drop_last());
    } else {
        lemma_union_update(lanes.drop_last(), i, lane);
        assert(after.drop_last() =~= lanes.drop_last().update(i, lane));
        assert forall|job: J|
            #[trigger] union_of(after).add(lanes[i].to_multiset()).count(job) == union_of(
                lanes,
            ).add(lane.to_multiset()).count(job) by {
            assert(union_of(after.drop_last()).add(lanes[i].to_multiset()).count(job) == union_of(
                lanes.drop_last(),
            ).add(lane.to_multiset()).count(job));
        }
    }
    assert(union_of(after).add(lanes[i].to_multiset()) =~= union_of(lanes).add(
        lane.to_multiset(),
    ));
}

/// The worker that is probed at step `probe` when probing begins at `start`
/// and goes round the `count` workers.
pub open spec fn ring(start: int, probe: int, count: int) -> int {
    if start + probe < count {
        start + probe
    } else {
        start + probe - count
    }
}

/// How a search for a job ended.
pub enum Search<J> {
    /// This job was found.
    Found(J),
    /// No queue that the worker may take from held a job.
    Nothing,
    /// The draw from the shared queue lost a race; the search is to be repeated.
    Lost,
}

/// What a worker does next.
pub enum StealingAction<J> {
    /// Run this job.
    Run(J),
    /// Search again at once.
    Retry,
    /// Sleep until woken, or for a short while.
    Park,
    /// Leave for good.
    Exit,
}

/// What a worker does next after a search: it runs what it found, and leaves
/// only when it found nothing and the pool is shut down.
pub open spec fn settled<J>(search: Search<J>, shutdown: bool) -> StealingAction<J> {
    match search {
        Search::Found(job) => StealingAction::Run(job),
        Search::Lost => StealingAction::Retry,
        Search::Nothing => if shutdown {
            StealingAction::Exit
        } else {
            StealingAction::Park
        },
    }
}

/// The phase of a worker that was told to do `action`.
pub open spec fn phase_after<J>(action: StealingAction<J>) -> Phase {
    match action {
        StealingAction::Run(_) => Phase::Running,
        StealingAction::Retry => Phase::Ready,
        StealingAction::Park => Phase::Waiting,
        StealingAction::Exit => Phase::Exited,
    }
}

/// What a pool holds, and what has happened to it.
#[verifier::ext_equal]
pub struct StealingState<J> {
    /// The shared queue, oldest job first.
    pub injector: Seq<J>,
    /// The queue of each worker, from its front to its back.
    pub locals: Seq<Seq<J>>,
    /// The phase of each worker.  One that waits is parked.
    pub phases: Seq<Phase>,
    /// Whether the pool takes no more jobs.
    pub shutdown: bool,
    /// How many jobs were taken in, modulo the size of a machine word.
    pub next_wakeup: usize,
    /// All the jobs taken in, in the order in which they came.
    pub submitted: Seq<J>,
    /// All the jobs handed to workers, in the order in which they went.
    pub started: Seq<J>,
    /// How many jobs have ended, be it with a panic.
    pub ended: nat,
}

impl<J> StealingState<J> {
    /// The state of a new pool.
    pub open spec fn initial(num_threads: nat) -> Self {
        StealingState {
            injector: Seq::<J>::empty(),
            locals: Seq::new(num_threads, |id: int| Seq::<J>::empty()),
            phases: Seq::new(num_threads, |id: int| Phase::Ready),
            shutdown: false,
            next_wakeup: 0,
            submitted: Seq::<J>::empty(),
            started: Seq::<J>::empty(),
            ended: 0,
        }
    }

    /// The jobs that wait in some queue.
    pub open spec fn pending(self) -> Multiset<J> {
        self.injector.to_multiset().add(union_of(self.locals))
    }

    /// Each job taken in either waits or was handed out, and none of them twice.
    pub open spec fn balanced(self) -> bool {
        self.submitted.to_multiset() =~= self.started.to_multiset().add(self.pending())
    }

    /// What holds in every state of a pool.
    pub open spec fn inv(self) -> bool {
        &&& 0 < self.locals.len() == self.phases.len()
        &&& self.balanced()
        &&& self.next_wakeup == reading(self.submitted.len() as int)
        // Each job that was handed out runs or has ended.
        &&& self.started.len() == self.ended + count_of(self.phases, Phase::Running)
        // No worker leaves before all is done.
        &&& count_of(self.phases, Phase::Exited) > 0 ==> self.shutdown && self.pending().len() == 0
    }

    /// The worker whose turn it is to be woken.
    pub open spec fn turn(self) -> int {
        self.next_wakeup as int % self.locals.len() as int
    }

    /// Whether worker `id` is parked.
    pub open spec fn is_parked(self, id: int) -> bool {
        0 <= id < self.phases.len() && self.phases[id] is Waiting
    }

    /// Whether the first parked worker, going round from the one whose turn it
    /// is, comes at step `probe`.
    pub open spec fn parked_at(self, probe: int) -> bool {
        let count = self.locals.len() as int;
        &&& 0 <= probe < count
        &&& self.is_parked(ring(self.turn(), probe, count))
        &&& forall|earlier: int|
            0 <= earlier < probe ==> !self.is_parked(#[trigger] ring(self.turn(), earlier, count))
    }

    /// Whether `woken` is the worker that a new job wakes: the first parked one,
    /// going round from the worker whose turn it is, or that worker itself if
    /// none is parked.
    pub open spec fn wakes(self, woken: int) -> bool {
        if exists|id: int| #[trigger] self.is_parked(id) {
            exists|probe: int| #[trigger]
                self.parked_at(probe) && woken == ring(
                    self.turn(),
                    probe,
                    self.locals.len() as int,
                )
        } else {
            woken == self.turn()
        }
    }

    /// The state once `job` was taken in and worker `woken` was woken.
    pub open spec fn submit(self, job: J, woken: int) -> Self {
        StealingState {
            injector: self.injector.push(job),
            phases: if self.is_parked(woken) {
                self.phases.update(woken, Phase::Ready)
            } else {
                self.phases
            },
            next_wakeup: raised(self.next_wakeup),
            submitted: self.submitted.push(job),
            ..self
        }
    }

    /// The state once worker `id` took the job at the back of its queue.
    pub open spec fn pop_local(self, id: int) -> Self {
        StealingState {
            locals: self.locals.update(id, self.locals[id].drop_last()),
            phases: self.phases.update(id, Phase::Running),
            started: self.started.push(self.locals[id].last()),
            ..self
        }
    }

    /// The state once worker `id` drew the `count` oldest jobs from the shared
    /// queue: it runs the oldest, and has the others in its queue such that
    /// older ones come out sooner.
    pub open spec fn draw_batch(self, id: int, count: int) -> Self {
        StealingState {
            injector: self.injector.skip(count),
            locals: self.locals.update(
                id,
                self.locals[id] + self.injector.subrange(1, count).reverse(),
            ),
            phases: self.phases.update(id, Phase::Running),
            started: self.started.push(self.injector.first()),
            ..self
        }
    }

    /// The state once worker `id` stole the job at the front of the queue of
    /// `victim`.
    pub open spec fn rob(self, id: int, victim: int) -> Self {
        StealingState {
            locals: self.locals.update(victim, self.locals[victim].drop_first()),
            phases: self.phases.update(id, Phase::Running),
            started: self.started.push(self.locals[victim].first()),
            ..self
        }
    }

    /// Whether `after` comes of one worker taking one job: from its own queue,
    /// out of a batch from the shared queue, or from another worker.
    pub open spec fn one_taken(self, after: Self) -> bool {
        let count = self.locals.len() as int;
        ||| exists|id: int|
            0 <= id < count && self.locals[id].len() > 0 && after == #[trigger] self.pop_local(id)
        ||| exists|id: int, size: int|
            0 <= id < count && 1 <= size <= self.injector.len() && after
                == #[trigger] self.draw_batch(id, size)
        ||| exists|id: int, victim: int|
            0 <= id < count && 0 <= victim < count && self.locals[victim].len() > 0 && after
                == #[trigger] self.rob(id, victim)
    }

    /// The state once the job of worker `id` has ended, however it did.
    pub open spec fn finish(self, id: int, outcome: JobOutcome) -> Self {
        StealingState {
            phases: self.phases.update(id, Phase::Ready),
            ended: self.ended + 1,
            ..self
        }
    }

    /// Whether worker `id` may ask what to do.
    pub open spec fn may_ask(self, id: int) -> bool {
        0 <= id < self.phases.len() && (self.phases[id] is Ready || self.phases[id] is Waiting)
    }

    /// Whether worker `id` runs a job.
    pub open spec fn is_running(self, id: int) -> bool {
        0 <= id < self.phases.len() && self.phases[id] is Running
    }

    /// Whether worker `id` can steal from `victim`.
    pub open spec fn can_rob(self, id: int, victim: int) -> bool {
        victim != id && self.locals[victim].len() > 0
    }

    /// Whether the first worker that `id` can steal from, probing round from
    /// `start`, comes at step `probe`.
    pub open spec fn robbed_at(self, id: int, start: int, probe: int) -> bool {
        let count = self.locals.len() as int;
        &&& 0 <= probe < count
        &&& self.can_rob(id, ring(start, probe, count))
        &&& forall|earlier: int|
            0 <= earlier < probe ==> !self.can_rob(id, #[trigger] ring(start, earlier, count))
    }

    /// Whether a search by worker `id`, probing its neighbours from `start`
    /// on, may end with `search` and leave `after`.
    pub open spec fn searched(
        self,
        id: int,
        start: int,
        search: Search<J>,
        after: Self,
    ) -> bool {
        let count = self.locals.len() as int;
        if self.locals[id].len() > 0 {
            &&& search == Search::Found(self.locals[id].last())
            &&& after == self.pop_local(id)
        } else if self.injector.len() > 0 {
            ||| search is Lost && after == self
            ||| search == Search::Found(self.injector.first()) && exists|size: int|
                1 <= size <= self.injector.len() && after == #[trigger] self.draw_batch(id, size)
        } else if exists|victim: int| 0 <= victim < count && #[trigger] self.can_rob(id, victim) {
            exists|probe: int| #[trigger]
                self.robbed_at(id, start, probe) && {
                    let victim = ring(start, probe, count);
                    &&& search == Search::Found(self.locals[victim].first())
                    &&& after == self.rob(id, victim)
                }
        } else {
            &&& search is Nothing
            &&& after == self
        }
    }

    /// The state once worker `id` was told to do `action`.
    pub open spec fn noted(self, id: int, action: StealingAction<J>) -> Self {
        StealingState { phases: self.phases.update(id, phase_after(action)), ..self }
    }

    /// Whether worker `id`, when it searches as in [`Self::searched`], may be told
    /// `action`, and the pool be left in `after`.
    pub open spec fn told(
        self,
        id: int,
        start: int,
        action: StealingAction<J>,
        after: Self,
    ) -> bool {
        exists|search: Search<J>, found: Self| #[trigger]
            self.searched(id, start, search, found) && action == settled(search, self.shutdown)
                && after == found.noted(id, action)
    }

    /// Whether `after` comes of a worker that is told to search again.
    pub open spec fn retried(self, after: Self) -> bool {
        exists|id: int, start: int|
            self.may_ask(id) && 0 <= start < self.locals.len() && #[trigger] self.told(
                id,
                start,
                StealingAction::Retry,
                after,
            )
    }

    /// Whether `after` comes of what a worker does: it asks what to do, or its
    /// job ends.
    pub open spec fn worked(self, after: Self) -> bool {
        ||| exists|id: int, start: int, action: StealingAction<J>|
            self.may_ask(id) && 0 <= start < self.locals.len() && #[trigger] self.told(
                id,
                start,
                action,
                after,
            )
        ||| exists|id: int, outcome: JobOutcome|
            self.is_running(id) && after == #[trigger] self.finish(id, outcome)
    }

    /// How much is left to do once the pool is shut down.
    pub open spec fn left_to_do(self) -> int {
        2 * self.pending().len() + count_of(self.phases, Phase::Running) + self.phases.len()
            - count_of(self.phases, Phase::Exited)
    }
}

impl<J> StealingState<J> {
    pub(crate) proof fn lemma_submit(self, job: J, woken: int)
        requires
            self.inv(),
            !self.shutdown,
        ensures
            self.submit(job, woken).inv(),
    {
        self.submitted.to_multiset_ensures();
        self.injector.to_multiset_ensures();
        if self.is_parked(woken) {
            lemma_count_update(self.phases, woken, Phase::Ready, Phase::Running);
            lemma_count_update(self.phases, woken, Phase::Ready, Phase::Exited);
        }
        lemma_raised(self.next_wakeup, self.submitted.len() as int);
    }

    pub(crate) proof fn lemma_finish(self, id: int, outcome: JobOutcome)
        requires
            self.inv(),
            self.is_running(id),
        ensures
            self.finish(id, outcome).inv(),
            self.finish(id, outcome).left_to_do() < self.left_to_do(),
    {
        lemma_count_update(self.phases, id, Phase::Ready, Phase::Running);
        lemma_count_update(self.phases, id, Phase::Ready, Phase::Exited);
    }

    pub(crate) proof fn lemma_searched(
        self,
        id: int,
        start: int,
        search: Search<J>,
        after: Self,
    )
        requires
            self.inv(),
            self.may_ask(id),
            0 <= start < self.locals.len(),
            self.searched(id, start, search, after),
        ensures
            after.inv(),
            after.shutdown == self.shutdown,
            after.locals.len() == self.locals.len(),
            search is Found ==> after.is_running(id) && after.left_to_do() < self.left_to_do(),
            search !is Found ==> after == self,
            search is Nothing ==> after.pending().len() == 0,
    {
        law_search_takes_one_job(self, id, start, search, after);
        law_search_misses_no_job(self, id, start, search, after);
        lemma_count_update(self.phases, id, Phase::Running, Phase::Running);
        lemma_count_update(self.phases, id, Phase::Running, Phase::Exited);
        if search is Found {
            assert(self.pending().len() == after.pending().len() + 1);
        }
    }

    /// The invariant still holds once worker `id` has taken a job.
    pub(crate) proof fn lemma_taken(self, id: int, after: Self)
        requires
            self.inv(),
            self.may_ask(id),
            after.balanced(),
            after.locals.len() == self.locals.len(),
            after.phases == self.phases.update(id, Phase::Running),
            after.shutdown == self.shutdown,
            after.next_wakeup == self.next_wakeup,
            after.submitted == self.submitted,
            after.started.len() == self.started.len() + 1,
            after.ended == self.ended,
        ensures
            after.inv(),
    {
        lemma_count_update(self.phases, id, Phase::Running, Phase::Running);
        lemma_count_update(self.phases, id, Phase::Running, Phase::Exited);
        self.submitted.to_multiset_ensures();
        self.started.to_multiset_ensures();
        after.started.to_multiset_ensures();
        assert(self.pending().len() == self.submitted.len() - self.started.len());
        assert(after.pending().len() == after.submitted.len() - after.started.len());
    }

    pub(crate) proof fn lemma_told(
        self,
        id: int,
        start: int,
        action: StealingAction<J>,
        after: Self,
    )
        requires
            self.inv(),
            self.may_ask(id),
            0 <= start < self.locals.len(),
            self.told(id, start, action, after),
        ensures
            after.inv(),
            after.shutdown == self.shutdown,
            after.phases.len() == self.phases.len(),
            after.phases[id] == phase_after(action),
            action is Retry ==> after == self.noted(id, action) && after.left_to_do()
                == self.left_to_do(),
            action is Park ==> !self.shutdown,
            action is Run || action is Exit ==> after.left_to_do() < self.left_to_do(),
    {
        let (search, found) = choose|search: Search<J>, found: Self| #[trigger]
            self.searched(id, start, search, found) && action == settled(search, self.shutdown)
                && after == found.noted(id, action);
        self.lemma_searched(id, start, search, found);
        lemma_count_update(found.phases, id, phase_after(action), Phase::Running);
        lemma_count_update(found.phases, id, phase_after(action), Phase::Exited);
        assert(after.pending() == found.pending());
    }

    pub(crate) proof fn lemma_pop_local(self, id: int)
        requires
            self.balanced(),
            0 <= id < self.locals.len(),
            self.locals[id].len() > 0,
        ensures
            self.pop_local(id).balanced(),
    {
        let lane = self.locals[id];
        lemma_union_update(self.locals, id, lane.drop_last());
        assert(lane.drop_last().push(lane.last()) =~= lane);
        lane.drop_last().to_multiset_ensures();
        self.started.to_multiset_ensures();
        assert forall|job: J|
            self.submitted.to_multiset().count(job) == #[trigger] self.pop_local(
                id,
            ).started.to_multiset().add(self.pop_local(id).pending()).count(job) by {
            assert(union_of(self.pop_local(id).locals).add(lane.to_multiset()).count(job)
                == union_of(self.locals).add(lane.drop_last().to_multiset()).count(job));
        }
    }

    pub(crate) proof fn lemma_rob(self, id: int, victim: int)
        requires
            self.balanced(),
            0 <= victim < self.locals.len(),
            self.locals[victim].len() > 0,
        ensures
            self.rob(id, victim).balanced(),
    {
        let lane = self.locals[victim];
        lemma_union_update(self.locals, victim, lane.drop_first());
        lane.to_multiset_ensures();
        assert(lane.remove(0) =~= lane.drop_first());
        self.started.to_multiset_ensures();
        assert forall|job: J|
            self.submitted.to_multiset().count(job) == #[trigger] self.rob(
                id,
                victim,
            ).started.to_multiset().add(self.rob(id, victim).pending()).count(job) by {
            assert(union_of(self.rob(id, victim).locals).add(lane.to_multiset()).count(job)
                == union_of(self.locals).add(lane.drop_first().to_multiset()).count(job));
        }
    }

    pub(crate) proof fn lemma_draw_batch(self, id: int, count: int)
        requires
            self.balanced(),
            0 <= id < self.locals.len(),
            1 <= count <= self.injector.len(),
        ensures
            self.draw_batch(id, count).balanced(),
    {
        let lane = self.locals[id];
        let moved = self.injector.subrange(1, count);
        let rest = self.injector.skip(count);
        let after = self.draw_batch(id, count);
        lemma_union_update(self.locals, id, lane + moved.reverse());
        vstd::seq_lib::lemma_multiset_commutative(lane, moved.reverse());
        moved.lemma_reverse_to_multiset();
        assert(self.injector =~= seq![self.injector.first()] + (moved + rest));
        vstd::seq_lib::lemma_multiset_commutative(moved, rest);
        vstd::seq_lib::lemma_multiset_commutative(seq![self.injector.first()], moved + rest);
        self.started.to_multiset_ensures();
        Seq::<J>::empty().to_multiset_ensures();
        assert(seq![self.injector.first()] =~= Seq::<J>::empty().push(self.injector.first()));
        assert forall|job: J|
            self.submitted.to_multiset().count(job) == #[trigger] after.started.to_multiset().add(
                after.pending(),
            ).count(job) by {
            assert(union_of(after.locals).add(lane.to_multiset()).count(job) == union_of(
                self.locals,
            ).add((lane + moved.reverse()).to_multiset()).count(job));
        }
    }
}

/// A search ends empty-handed if and only if no job waits anywhere.
pub proof fn law_search_misses_no_job<J>(
    state: StealingState<J>,
    id: int,
    start: int,
    search: Search<J>,
    after: StealingState<J>,
)
    requires
        0 <= id < state.locals.len(),
        0 <= start < state.locals.len(),
        state.searched(id, start, search, after),
    ensures
        search is Nothing <==> state.pending() == Multiset::<J>::empty(),
{
    state.injector.to_multiset_ensures();
    if search is Nothing {
        assert forall|i: int| 0 <= i < state.locals.len() implies (#[trigger] state.locals[i]).len()
            == 0 by {
            assert(!state.can_rob(id, i));
        }
        lemma_union_of_empties(state.locals);
        assert(state.pending() =~= Multiset::<J>::empty());
    }
    if state.pending() == Multiset::<J>::empty() {
        assert forall|job: J| #[trigger] union_of(state.locals).count(job) == 0 by {
            assert(state.pending().count(job) == 0);
        }
        assert(union_of(state.locals) =~= Multiset::<J>::empty());
        lemma_union_empty(state.locals);
        if state.injector.len() > 0 {
            assert(state.injector.contains(state.injector.first()));
            assert(state.pending().count(state.injector.first()) == 0);
        }
    }
}

/// A search takes out just the job that it found; one that found none, or lost
/// a race, changes nothing.
pub proof fn law_search_takes_one_job<J>(
    state: StealingState<J>,
    id: int,
    start: int,
    search: Search<J>,
    after: StealingState<J>,
)
    requires
        state.balanced(),
        0 <= id < state.locals.len(),
        0 <= start < state.locals.len(),
        state.searched(id, start, search, after),
    ensures
        after.balanced(),
        search matches Search::Found(job) ==> state.pending() == after.pending().insert(job)
            && after.started == state.started.push(job),
        search !is Found ==> after == state,
{
    if state.locals[id].len() > 0 {
        state.lemma_pop_local(id);
    } else if state.injector.len() > 0 {
        if search is Found {
            let size = choose|size: int|
                1 <= size <= state.injector.len() && after == #[trigger] state.draw_batch(id, size);
            state.lemma_draw_batch(id, size);
        }
    } else if exists|victim: int|
        0 <= victim < state.locals.len() && #[trigger] state.can_rob(id, victim) {
        let count = state.locals.len() as int;
        let probe = choose|probe: int| #[trigger]
            state.robbed_at(id, start, probe) && search == Search::Found(
                state.locals[ring(start, probe, count)].first(),
            ) && after == state.rob(id, ring(start, probe, count));
        state.lemma_rob(id, ring(start, probe, count));
    }
    if let Search::Found(job) = search {
        state.started.to_multiset_ensures();
        assert forall|other: J| #[trigger] state.pending().count(other) == after.pending().insert(
            job,
        ).count(other) by {
            assert(state.submitted.to_multiset().count(other) == state.started.to_multiset().add(
                state.pending(),
            ).count(other));
            assert(state.submitted.to_multiset().count(other) == after.started.to_multiset().add(
                after.pending(),
            ).count(other));
        }
        assert(state.pending() =~= after.pending().insert(job));
    }
}

/// The order in which a worker looks for a job, and what it leaves behind.  What
/// stands at the back of its own queue comes first, then the oldest job of the
/// shared queue, then what stands at the front of the queue of the nearest
/// neighbour that has any, going round from `start`.  Jobs that move from the
/// shared queue to its own come out of there in their order.  All other queues
/// stay as they are.
pub proof fn law_search_keeps_the_order<J>(
    state: StealingState<J>,
    id: int,
    start: int,
    search: Search<J>,
    after: StealingState<J>,
)
    requires
        state.phases.len() == state.locals.len(),
        0 <= id < state.locals.len(),
        0 <= start < state.locals.len(),
        state.searched(id, start, search, after),
    ensures
        search is Lost ==> state.locals[id].len() == 0 && state.injector.len() > 0,
        search is Nothing <==> state.injector.len() == 0 && forall|k: int|
            0 <= k < state.locals.len() ==> #[trigger] state.locals[k].len() == 0,
        search !is Found ==> after == state,
        search matches Search::Found(job) ==> {
            let count = state.locals.len() as int;
            let own = state.locals[id];
            &&& after.started == state.started.push(job)
            &&& after.phases == state.phases.update(id, Phase::Running)
            &&& after == StealingState {
                injector: after.injector,
                locals: after.locals,
                phases: after.phases,
                started: after.started,
                ..state
            }
            &&& after.locals.len() == count
            &&& own.len() > 0 ==> {
                &&& job == own.last()
                &&& after.injector == state.injector
                &&& after.locals == state.locals.update(id, own.drop_last())
            }
            &&& own.len() == 0 && state.injector.len() > 0 ==> {
                &&& job == state.injector.first()
                &&& after.locals[id].reverse() + after.injector == state.injector.drop_first()
                &&& forall|other: int|
                    0 <= other < count && other != id ==>
                    #[trigger] after.locals[other] == state.locals[other]
            }
            &&& own.len() == 0 && state.injector.len() == 0 ==> {
                &&& after.injector == state.injector
                &&& exists|victim: int|
                    {
                        &&& 0 <= victim < count && victim != id
                        &&& #[trigger] state.locals[victim].len() > 0
                        &&& job == state.locals[victim].first()
                        &&& after.locals == state.locals.update(
                            victim,
                            state.locals[victim].drop_first(),
                        )
                        &&& forall|other: int|
                            0 <= other < count && other != id &&
                            #[trigger] state.locals[other].len() > 0 ==> (victim - start) % count
                                <= (other - start) % count
                    }
            }
        },
{
    let count = state.locals.len() as int;
    if state.locals[id].len() > 0 {
    } else if state.injector.len() > 0 {
        if search is Found {
            let size = choose|size: int|
                1 <= size <= state.injector.len() && after == #[trigger] state.draw_batch(id, size);
            assert(after.locals[id].reverse() =~= state.injector.subrange(1, size));
            assert(after.locals[id].reverse() + after.injector =~= state.injector.drop_first());
        }
    } else if exists|victim: int| 0 <= victim < count && #[trigger] state.can_rob(id, victim) {
        let probe = choose|probe: int| #[trigger]
            state.robbed_at(id, start, probe) && search == Search::Found(
                state.locals[ring(start, probe, count)].first(),
            ) && after == state.rob(id, ring(start, probe, count));
        let victim = ring(start, probe, count);
        lemma_ring(start, probe, count);
        assert(state.locals[victim].len() > 0);
        assert forall|other: int|
            0 <= other < count && other != id &&
            #[trigger] state.locals[other].len() > 0 implies (victim - start) % count <= (other
            - start) % count by {
            let reached = if other >= start {
                other - start
            } else {
                other - start + count
            };
            lemma_ring(start, reached, count);
            assert(ring(start, reached, count) == other);
            assert(state.can_rob(id, other));
        }
    } else {
        assert forall|k: int| 0 <= k < count implies #[trigger] state.locals[k].len() == 0 by {
            assert(!state.can_rob(id, k));
        }
    }
}

/// How far a place of the ring is from its start.
pub(crate) proof fn lemma_ring(start: int, probe: int, count: int)
    requires
        0 <= start < count,
        0 <= probe < count,
    ensures
        0 <= ring(start, probe, count) < count,
        (ring(start, probe, count) - start) % count == probe,
{
    vstd::arithmetic::div_mod::lemma_small_mod(probe as nat, count as nat);
    vstd::arithmetic::div_mod::lemma_mod_sub_multiples_vanish(probe, count);
}

/// What waits in the queues together is what waits in each.
pub proof fn law_pending_is_all_that_waits<J>(lanes: Seq<Seq<J>>, lane: Seq<J>, job: J)
    ensures
        union_of(Seq::<Seq<J>>::empty()).count(job) == 0,
        union_of(lanes.push(lane)).count(job) == union_of(lanes).count(job) + lane.to_multiset().count(
            job,
        ),
{
    assert(lanes.push(lane).drop_last() =~= lanes);
}

/// No worker leaves early: when one does, the pool is shut down, no job waits
/// anywhere, and each job ever taken in was handed to a worker.
pub proof fn law_no_early_exit<J>(
    state: StealingState<J>,
    id: int,
    start: int,
    action: StealingAction<J>,
    after: StealingState<J>,
)
    requires
        state.inv(),
        state.may_ask(id),
        0 <= start < state.locals.len(),
        state.told(id, start, action, after),
        action is Exit,
    ensures
        state.shutdown,
        state.pending() == Multiset::<J>::empty(),
        state.started.to_multiset() == state.submitted.to_multiset(),
{
    law_no_idle_park(state, id, start, action, after);
    assert(state.started.to_multiset().add(state.pending()) =~= state.started.to_multiset());
}

/// No job is abandoned: once all workers have left, each job ever taken in was
/// handed to a worker just once, and has ended.
pub proof fn law_no_job_abandoned<J>(state: StealingState<J>)
    requires
        state.inv(),
        all_are(state.phases, Phase::Exited),
    ensures
        state.pending() == Multiset::<J>::empty(),
        state.started.to_multiset() == state.submitted.to_multiset(),
        state.ended == state.started.len() == state.submitted.len(),
{
    lemma_count_all(state.phases, Phase::Exited);
    lemma_counts_disjoint(state.phases, Phase::Running, Phase::Exited);
    assert(state.pending() =~= Multiset::<J>::empty());
    assert(state.started.to_multiset().add(state.pending()) =~= state.started.to_multiset());
    state.started.to_multiset_ensures();
    state.submitted.to_multiset_ensures();
}

/// Once the pool is shut down and drained, every worker that asks leaves.
pub proof fn law_drained_pool_ends<J>(
    state: StealingState<J>,
    id: int,
    start: int,
    action: StealingAction<J>,
    after: StealingState<J>,
)
    requires
        0 <= id < state.locals.len(),
        0 <= start < state.locals.len(),
        state.shutdown,
        state.pending() == Multiset::<J>::empty(),
        state.told(id, start, action, after),
    ensures
        action is Exit,
        after == state.noted(id, StealingAction::Exit),
{
    law_no_idle_park(state, id, start, action, after);
}

/// A worker parks if and only if no job waits anywhere and the pool is not
/// shut down; it leaves if and only if no job waits and the pool is shut down.
pub proof fn law_no_idle_park<J>(
    state: StealingState<J>,
    id: int,
    start: int,
    action: StealingAction<J>,
    after: StealingState<J>,
)
    requires
        0 <= id < state.locals.len(),
        0 <= start < state.locals.len(),
        state.told(id, start, action, after),
    ensures
        action is Park <==> state.pending() == Multiset::<J>::empty() && !state.shutdown,
        action is Exit <==> state.pending() == Multiset::<J>::empty() && state.shutdown,
{
    let (search, found) = choose|search: Search<J>, found: StealingState<J>| #[trigger]
        state.searched(id, start, search, found) && action == settled(search, state.shutdown)
            && after == found.noted(id, action);
    law_search_misses_no_job(state, id, start, search, found);
}

/// A panic changes nothing: a job that panicked leaves the pool as one that
/// completed does, and its worker goes on.
pub proof fn law_panic_changes_nothing<J>(state: StealingState<J>, id: int)
    requires
        state.is_running(id),
    ensures
        state.finish(id, JobOutcome::Panicked) == state.finish(id, JobOutcome::Completed),
        state.finish(id, JobOutcome::Panicked).may_ask(id),
{
}

/// A worker that is told to search again leaves all as it was, and there is as
/// much left to do.
pub proof fn law_retry_changes_nothing<J>(state: StealingState<J>, after: StealingState<J>)
    requires
        state.inv(),
        state.retried(after),
    ensures
        after.inv(),
        after == (StealingState { phases: after.phases, ..state }),
        after.left_to_do() == state.left_to_do(),
{
    let (id, start) = choose|id: int, start: int|
        state.may_ask(id) && 0 <= start < state.locals.len() && #[trigger] state.told(
            id,
            start,
            StealingAction::Retry,
            after,
        );
    state.lemma_told(id, start, StealingAction::Retry, after);
}

/// Once the pool is shut down, whatever a worker does leaves less to do, unless
/// it has to search again.
pub proof fn law_drain_step<J>(state: StealingState<J>, after: StealingState<J>)
    requires
        state.inv(),
        state.shutdown,
        state.worked(after),
    ensures
        after.inv(),
        after.shutdown,
        !state.retried(after) ==> after.left_to_do() < state.left_to_do(),
{
    if exists|id: int, start: int, action: StealingAction<J>|
        state.may_ask(id) && 0 <= start < state.locals.len() && #[trigger] state.told(
            id,
            start,
            action,
            after,
        ) {
        let (id, start, action) = choose|id: int, start: int, action: StealingAction<J>|
            state.may_ask(id) && 0 <= start < state.locals.len() && #[trigger] state.told(
                id,
                start,
                action,
                after,
            );
        state.lemma_told(id, start, action, after);
        if action is Retry {
            assert(state.told(id, start, StealingAction::Retry, after));
            assert(state.retried(after));
        }
    } else {
        let (id, outcome) = choose|id: int, outcome: JobOutcome|
            state.is_running(id) && after == #[trigger] state.finish(id, outcome);
        state.lemma_finish(id, outcome);
    }
}

/// Whether each state of `run` comes of what a worker does in the one before.
pub open spec fn is_drain<J>(run: Seq<StealingState<J>>) -> bool {
    forall|i: int, next: int|
        #![trigger run[i], run[next]]
        0 <= i && next == i + 1 && next < run.len() ==> run[i].worked(run[next])
}

/// How many of the steps of `run` are not those of a worker that has to search
/// again.
pub open spec fn progress<J>(run: Seq<StealingState<J>>) -> nat
    decreases run.len(),
{
    if run.len() <= 1 {
        0
    } else {
        progress(run.drop_first()) + if run[0].retried(run[1]) {
            0nat
        } else {
            1
        }
    }
}

/// A shutdown comes to its end: but for searching again, the workers of a pool
/// that is shut down can do only so much, and as long as one of them is left
/// there is something it can do.  So all leave, and [`law_no_job_abandoned`]
/// holds then.
pub proof fn law_drain_comes_to_its_end<J>(run: Seq<StealingState<J>>, id: int)
    requires
        run.len() > 0,
        run[0].inv(),
        run[0].shutdown,
        is_drain(run),
        0 <= id < run.last().phases.len(),
    ensures
        progress(run) <= run[0].left_to_do(),
        run.last().inv(),
        run.last().phases[id] !is Exited ==> run.last().may_ask(id) || run.last().is_running(id),
    decreases run.len(),
{
    lemma_count_bound(run[0].phases, Phase::Exited);
    if run.len() > 1 {
        let rest = run.drop_first();
        assert(run[0].worked(run[1]));
        law_drain_step(run[0], run[1]);
        if run[0].retried(run[1]) {
            law_retry_changes_nothing(run[0], run[1]);
        }
        assert forall|i: int, next: int|
            #![trigger rest[i], rest[next]]
            0 <= i && next == i + 1 && next < rest.len() implies rest[i].worked(rest[next]) by {
            assert(run[i + 1].worked(run[next + 1]));
        }
        law_drain_comes_to_its_end(rest, id);
    }
}

/// A job that comes while a worker is parked wakes such a worker, whichever it
/// is; so no worker sleeps on while only busy ones are woken.
pub proof fn law_idle_worker_woken<J>(state: StealingState<J>, job: J, id: int, woken: int)
    requires
        state.inv(),
        state.is_parked(id),
        state.wakes(woken),
    ensures
        state.is_parked(woken),
        !state.submit(job, woken).is_parked(woken),
        state.submit(job, woken).may_ask(woken),
        forall|other: int|
            0 <= other < state.phases.len() && other != woken ==> #[trigger] state.submit(
                job,
                woken,
            ).phases[other] == state.phases[other],
{
    let probe = choose|probe: int| #[trigger]
        state.parked_at(probe) && woken == ring(state.turn(), probe, state.locals.len() as int);
    assert(state.is_parked(woken));
}

/// A job that has come in is not slept on: a worker that asks next, such as the
/// one that was woken, is neither parked nor sent away.
pub proof fn law_new_job_is_found<J>(
    state: StealingState<J>,
    job: J,
    woken: int,
    id: int,
    start: int,
    action: StealingAction<J>,
    after: StealingState<J>,
)
    requires
        0 <= id < state.locals.len(),
        0 <= start < state.locals.len(),
        state.submit(job, woken).told(id, start, action, after),
    ensures
        action is Run || action is Retry,
{
    let given = state.submit(job, woken);
    law_no_idle_park(given, id, start, action, after);
    given.injector.to_multiset_ensures();
    assert(given.injector.last() == job);
    assert(given.pending().count(job) > 0);
}

/// A search does nothing or takes one job.
pub proof fn law_search_is_one_move<J>(
    state: StealingState<J>,
    id: int,
    start: int,
    search: Search<J>,
    after: StealingState<J>,
)
    requires
        0 <= id < state.locals.len(),
        0 <= start < state.locals.len(),
        state.searched(id, start, search, after),
    ensures
        search is Found ==> state.one_taken(after),
        search !is Found ==> after == state,
{
    let count = state.locals.len() as int;
    if state.locals[id].len() == 0 && state.injector.len() == 0 && search is Found {
        let probe = choose|probe: int| #[trigger]
            state.robbed_at(id, start, probe) && search == Search::Found(
                state.locals[ring(start, probe, count)].first(),
            ) && after == state.rob(id, ring(start, probe, count));
        assert(state.one_taken(state.rob(id, ring(start, probe, count))));
    }
}

/// Once the pool is shut down, a worker that found its own queue and then the
/// shared queue empty has nothing to come back for: whatever jobs the workers
/// go on to take, both queues stay empty.  So the jobs that wait elsewhere are
/// left to the workers that hold them, and none is abandoned even if a worker
/// leaves while others still have work.
pub proof fn law_left_queues_stay_empty<J>(
    state: StealingState<J>,
    after: StealingState<J>,
    id: int,
)
    requires
        state.shutdown,
        0 <= id < state.locals.len(),
        state.injector.len() == 0,
        state.locals[id].len() == 0,
        state.one_taken(after),
    ensures
        after.shutdown,
        after.locals.len() == state.locals.len(),
        after.injector.len() == 0,
        after.locals[id].len() == 0,
{
}

/// When the shared queue and the queue of each worker are empty, each job ever
/// taken in was handed to a worker.
pub proof fn law_empty_queues_mean_drained<J>(state: StealingState<J>)
    requires
        state.balanced(),
        state.injector.len() == 0,
        forall|id: int| 0 <= id < state.locals.len() ==> (#[trigger] state.locals[id]).len() == 0,
    ensures
        state.started.to_multiset() == state.submitted.to_multiset(),
{
    state.injector.to_multiset_ensures();
    lemma_union_of_empties(state.locals);
    assert(state.pending() =~= Multiset::<J>::empty());
    assert(state.started.to_multiset().add(state.pending()) =~= state.started.to_multiset());
}

/// The jobs of a batch come out of the worker's queue in the order in which
/// they were submitted.
pub proof fn law_batch_keeps_order<J>(state: StealingState<J>, id: int, count: int)
    requires
        0 <= id < state.locals.len(),
        state.locals[id].len() == 0,
        1 <= count <= state.injector.len(),
    ensures
        state.draw_batch(id, count).locals[id].reverse() == state.injector.subrange(1, count),
{
    assert(state.draw_batch(id, count).locals[id].reverse() =~= state.injector.subrange(1, count));
}

/// While no worker is parked, they are woken in turn: the job after one that
/// woke worker `i` wakes the worker after it, and the first worker follows the
/// last.
pub proof fn law_workers_woken_in_turn<J>(
    state: StealingState<J>,
    job: J,
    first: int,
    second: int,
)
    requires
        state.locals.len() > 0,
        state.next_wakeup < usize::MAX || (usize::MAX + 1) % state.locals.len() as int == 0,
        forall|id: int| !#[trigger] state.is_parked(id),
        state.wakes(first),
        state.submit(job, first).wakes(second),
    ensures
        second == if first + 1 == state.locals.len() {
            0
        } else {
            first + 1
        },
{
    let after = state.submit(job, first);
    assert forall|id: int| !#[trigger] after.is_parked(id) by {
        assert(!state.is_parked(id));
    }
    lemma_mod_successor(state.next_wakeup as int, state.locals.len() as int);
    vstd::arithmetic::div_mod::lemma_small_mod(0, state.locals.len());
}

} // verus!
