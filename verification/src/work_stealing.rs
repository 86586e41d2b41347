//! A pool whose workers keep a queue each and steal from one another.

use crate::counter::lemma_moved;
use crate::deque::{
    batch_moved, draw_tickets, inject, injected, lost_draw, new_injector, new_lifo, pop, queued,
    sole_lifo, steal, Attempt,
};
use crate::job_table::JobTable;
use crate::metrics::JobOutcome;
use crate::stealing_state::{
    law_search_keeps_the_order, lemma_ring, lemma_union_of_empties, phase_after, ring, settled,
    union_of, Search, StealingAction, StealingState,
};
use crate::worker::{all_are, lemma_count_bound, lemma_count_initial, lemma_count_some, Phase};
use crate::PoolError;
use crossbeam_deque::{Injector, Worker};
use vstd::prelude::*;

verus! {

/// What a worker does next after a search.
pub fn settle<J>(search: Search<J>, shutdown: bool) -> (action: StealingAction<J>)
    ensures
        action == settled(search, shutdown),
{
    match search {
        Search::Found(job) => StealingAction::Run(job),
        Search::Lost => StealingAction::Retry,
        Search::Nothing => if shutdown {
            StealingAction::Exit
        } else {
            StealingAction::Park
        },
    }
}

/// The phase of a worker that was told to do `action`.
fn phase_for<J>(action: &StealingAction<J>) -> (phase: Phase)
    ensures
        phase == phase_after(*action),
{
    match action {
        StealingAction::Run(_) => Phase::Running,
        StealingAction::Retry => Phase::Ready,
        StealingAction::Park => Phase::Waiting,
        StealingAction::Exit => Phase::Exited,
    }
}

/// What an attempt to steal brings: the job of the ticket that was taken, which
/// leaves the table, or nothing, or the news that the attempt was lost.
pub fn redeem<J>(jobs: &mut JobTable<J>, attempt: Attempt) -> (search: Search<J>)
    requires
        old(jobs).wf(),
        attempt matches Attempt::Taken(ticket) ==> old(jobs)@.contains_key(ticket),
    ensures
        final(jobs).wf(),
        match attempt {
            Attempt::Taken(ticket) => search == Search::Found(old(jobs)@[ticket]) && final(jobs)@
                == old(jobs)@.remove(ticket),
            Attempt::Empty => search is Nothing && final(jobs)@ == old(jobs)@,
            Attempt::Lost => search is Lost && final(jobs)@ == old(jobs)@,
        },
{
    match attempt {
        Attempt::Taken(ticket) => Search::Found(jobs.remove(ticket)),
        Attempt::Empty => Search::Nothing,
        Attempt::Lost => Search::Lost,
    }
}

/// The tickets of each of the queues.
spec fn lanes(queues: Seq<Worker<u64>>) -> Seq<Seq<u64>> {
    queues.map_values(|queue: Worker<u64>| queued(queue))
}

/// The jobs that a run of tickets stands for.
spec fn jobs_of<J>(table: Map<u64, J>, tickets: Seq<u64>) -> Seq<J> {
    tickets.map_values(|ticket: u64| table[ticket])
}

/// Whether each ticket in `lanes` has a job and stands in one place only.
spec fn each_once<J>(table: Map<u64, J>, lanes: Seq<Seq<u64>>) -> bool {
    &&& forall|a: int, i: int|
        #![trigger lanes[a][i]]
        0 <= a < lanes.len() && 0 <= i < lanes[a].len() ==> table.contains_key(lanes[a][i])
    &&& forall|a: int, i: int, b: int, k: int|
        #![trigger lanes[a][i], lanes[b][k]]
        0 <= a < lanes.len() && 0 <= i < lanes[a].len() && 0 <= b < lanes.len() && 0 <= k
            < lanes[b].len() && lanes[a][i] == lanes[b][k] ==> a == b && i == k
}

/// Whether a ticket stands in none of the lanes.
spec fn absent(lanes: Seq<Seq<u64>>, ticket: u64) -> bool {
    forall|a: int, i: int|
        #![trigger lanes[a][i]]
        0 <= a < lanes.len() && 0 <= i < lanes[a].len() ==> lanes[a][i] != ticket
}

/// Taking out the job of a ticket that stands nowhere leaves the other jobs.
proof fn lemma_forget<J>(table: Map<u64, J>, lanes: Seq<Seq<u64>>, ticket: u64)
    requires
        each_once(table, lanes),
        absent(lanes, ticket),
    ensures
        each_once(table.remove(ticket), lanes),
        forall|a: int|
            0 <= a < lanes.len() ==> #[trigger] jobs_of(table.remove(ticket), lanes[a]) == jobs_of(
                table,
                lanes[a],
            ),
{
    assert forall|a: int| 0 <= a < lanes.len() implies #[trigger] jobs_of(
        table.remove(ticket),
        lanes[a],
    ) == jobs_of(table, lanes[a]) by {
        assert(jobs_of(table.remove(ticket), lanes[a]) =~= jobs_of(table, lanes[a]));
    }
}

/// Putting a job under a fresh ticket leaves the other jobs.
proof fn lemma_enter<J>(table: Map<u64, J>, lanes: Seq<Seq<u64>>, a: int, ticket: u64, job: J)
    requires
        each_once(table, lanes),
        0 <= a < lanes.len(),
        !table.contains_key(ticket),
    ensures
        each_once(table.insert(ticket, job), lanes.update(a, lanes[a].push(ticket))),
        forall|b: int|
            0 <= b < lanes.len() ==> #[trigger] jobs_of(table.insert(ticket, job), lanes[b])
                == jobs_of(table, lanes[b]),
{
    let after = lanes.update(a, lanes[a].push(ticket));
    assert(absent(lanes, ticket));
    assert forall|b: int| 0 <= b < lanes.len() implies #[trigger] jobs_of(
        table.insert(ticket, job),
        lanes[b],
    ) == jobs_of(table, lanes[b]) by {
        assert(jobs_of(table.insert(ticket, job), lanes[b]) =~= jobs_of(table, lanes[b]));
    }
    assert forall|b: int, i: int|
        #![trigger after[b][i]]
        0 <= b < after.len() && 0 <= i < after[b].len() implies after[b][i] == ticket || (i
        < lanes[b].len() && after[b][i] == lanes[b][i]) by {}
}

/// Taking one ticket out of a lane leaves the others where they are.
proof fn lemma_take<J>(table: Map<u64, J>, lanes: Seq<Seq<u64>>, a: int, i: int)
    requires
        each_once(table, lanes),
        0 <= a < lanes.len(),
        0 <= i < lanes[a].len(),
    ensures
        table.contains_key(lanes[a][i]),
        each_once(table, lanes.update(a, lanes[a].remove(i))),
        absent(lanes.update(a, lanes[a].remove(i)), lanes[a][i]),
{
    let after = lanes.update(a, lanes[a].remove(i));
    assert forall|b: int, k: int|
        #![trigger after[b][k]]
        0 <= b < after.len() && 0 <= k < after[b].len() implies after[b][k] == lanes[b][if b == a
        && k >= i {
        k + 1
    } else {
        k
    }] by {}
}

/// Moving the oldest `size` tickets of lane `a` but the very first to the back
/// of lane `b`, youngest first, keeps each ticket in one place.
proof fn lemma_move<J>(table: Map<u64, J>, lanes: Seq<Seq<u64>>, a: int, b: int, size: int)
    requires
        each_once(table, lanes),
        0 <= a < lanes.len(),
        0 <= b < lanes.len(),
        a != b,
        1 <= size <= lanes[a].len(),
    ensures
        table.contains_key(lanes[a][0]),
        each_once(
            table,
            lanes.update(a, lanes[a].skip(size)).update(
                b,
                lanes[b] + lanes[a].subrange(1, size).reverse(),
            ),
        ),
        absent(
            lanes.update(a, lanes[a].skip(size)).update(
                b,
                lanes[b] + lanes[a].subrange(1, size).reverse(),
            ),
            lanes[a][0],
        ),
{
    let after = lanes.update(a, lanes[a].skip(size)).update(
        b,
        lanes[b] + lanes[a].subrange(1, size).reverse(),
    );
    let length = lanes[b].len();
    assert forall|c: int, k: int|
        #![trigger after[c][k]]
        0 <= c < after.len() && 0 <= k < after[c].len() implies after[c][k] == if c == a {
        lanes[a][k + size]
    } else if c == b && k >= length {
        lanes[a][size - 1 - (k - length)]
    } else {
        lanes[c][k]
    } by {}
}

/// A pool whose workers keep a queue each and steal from one another.
///
/// Jobs enter through a shared queue.  A worker without work draws a batch
/// from it, or else steals from another worker.
pub struct WorkStealingPool<J> {
    injector: Injector<u64>,
    locals: Vec<Worker<u64>>,
    jobs: JobTable<J>,
    phases: Vec<Phase>,
    shutdown: bool,
    next_wakeup: usize,
    submitted: Ghost<Seq<J>>,
    started: Ghost<Seq<J>>,
    ended: Ghost<nat>,
}

impl<J> View for WorkStealingPool<J> {
    type V = StealingState<J>;

    closed spec fn view(&self) -> StealingState<J> {
        StealingState {
            injector: jobs_of(self.jobs@, injected(self.injector)),
            locals: lanes(self.locals@).map_values(
                |lane: Seq<u64>| jobs_of(self.jobs@, lane),
            ),
            phases: self.phases@,
            shutdown: self.shutdown,
            next_wakeup: self.next_wakeup,
            submitted: self.submitted@,
            started: self.started@,
            ended: self.ended@,
        }
    }
}

impl<J> WorkStealingPool<J> {
    /// The pool has a worker, its tickets and jobs match, and no job is lost.
    pub closed spec fn wf(&self) -> bool {
        &&& self.jobs.wf()
        &&& forall|i: int|
            #![trigger self.locals@[i]]
            0 <= i < self.locals@.len() ==> sole_lifo(self.locals@[i])
        &&& each_once(self.jobs@, lanes(self.locals@).push(injected(self.injector)))
        &&& self@.inv()
    }

    /// Whether an attempt to draw a batch from the shared queue, as it is, may be
    /// lost.
    pub closed spec fn draw_lost(&self) -> bool {
        lost_draw(self.injector)
    }

    /// The view, when the jobs under the tickets are those of `table`.
    proof fn lemma_same_jobs(&self, table: Map<u64, J>, tickets: Seq<Seq<u64>>)
        requires
            tickets == lanes(self.locals@).push(injected(self.injector)),
            forall|a: int|
                0 <= a < tickets.len() ==> #[trigger] jobs_of(self.jobs@, tickets[a]) == jobs_of(
                    table,
                    tickets[a],
                ),
        ensures
            self@.injector == jobs_of(table, injected(self.injector)),
            self@.locals.len() == self.locals@.len(),
            forall|i: int|
                0 <= i < self.locals@.len() ==> #[trigger] self@.locals[i] == jobs_of(
                    table,
                    queued(self.locals@[i]),
                ),
    {
        assert(tickets[self.locals@.len() as int] == injected(self.injector));
        assert forall|i: int| 0 <= i < self.locals@.len() implies #[trigger] self@.locals[i]
            == jobs_of(table, queued(self.locals@[i])) by {
            assert(tickets[i] == queued(self.locals@[i]));
        }
    }

    /// Create a new work-stealing pool with `num_threads` workers.
    ///
    /// # Errors
    ///
    /// Returns [`PoolError::InvalidSize`] if `num_threads` is zero.
    pub fn new(num_threads: usize) -> (pool: Result<Self, PoolError>)
        ensures
            num_threads == 0 ==> pool == Err::<Self, PoolError>(PoolError::InvalidSize),
            num_threads > 0 ==> pool is Ok && pool->Ok_0.wf() && pool->Ok_0@
                == StealingState::<J>::initial(num_threads as nat),
    {
        if num_threads == 0 {
            return Err(PoolError::InvalidSize);
        }
        let mut locals: Vec<Worker<u64>> = Vec::with_capacity(num_threads);
        while locals.len() < num_threads
            invariant
                locals@.len() <= num_threads,
                forall|i: int|
                    #![trigger locals@[i]]
                    0 <= i < locals@.len() ==> sole_lifo(locals@[i]) && queued(locals@[i])
                        =~= Seq::empty(),
            decreases num_threads - locals@.len(),
        {
            locals.push(new_lifo());
        }
        let mut phases: Vec<Phase> = Vec::with_capacity(num_threads);
        while phases.len() < num_threads
            invariant
                phases@.len() <= num_threads,
                all_are(phases@, Phase::Ready),
            decreases num_threads - phases@.len(),
        {
            phases.push(Phase::Ready);
        }
        let pool = WorkStealingPool {
            injector: new_injector(),
            locals,
            jobs: JobTable::new(),
            phases,
            shutdown: false,
            next_wakeup: 0,
            submitted: Ghost(Seq::empty()),
            started: Ghost(Seq::empty()),
            ended: Ghost(0),
        };
        proof {
            let state = StealingState::<J>::initial(num_threads as nat);
            assert forall|i: int| 0 <= i < num_threads implies pool@.locals[i] == state.locals[i] by {
                assert(pool@.locals[i] =~= Seq::<J>::empty());
            }
            assert(pool@ =~= state);
            lemma_union_of_empties(pool@.locals);
            Seq::<J>::empty().to_multiset_ensures();
            lemma_count_initial(pool@.phases, Phase::Ready, Phase::Running);
            lemma_count_initial(pool@.phases, Phase::Ready, Phase::Exited);
        }
        Ok(pool)
    }

    /// The worker that a new job wakes: the first parked one, going round from
    /// the worker whose turn it is, or that worker itself if none is parked.
    fn choose_idle(&self) -> (woken: usize)
        requires
            self.wf(),
        ensures
            woken < self@.locals.len(),
            self@.wakes(woken as int),
    {
        let count: usize = self.phases.len();
        let turn: usize = self.next_wakeup % count;
        let mut probe: usize = 0;
        while probe < count
            invariant
                self.wf(),
                count == self.phases@.len() == self@.locals.len(),
                turn == self@.turn(),
                turn < count,
                probe <= count,
                forall|earlier: int|
                    0 <= earlier < probe ==> !self@.is_parked(
                        #[trigger] ring(turn as int, earlier, count as int),
                    ),
            decreases count - probe,
        {
            let id: usize = if probe < count - turn {
                turn + probe
            } else {
                probe - (count - turn)
            };
            assert(id == ring(turn as int, probe as int, count as int));
            if self.phases[id] == Phase::Waiting {
                assert(self@.is_parked(id as int));
                assert(self@.parked_at(probe as int));
                return id;
            }
            probe = probe + 1;
        }
        proof {
            assert forall|id: int| !#[trigger] self@.is_parked(id) by {
                if 0 <= id < count {
                    let probe = if id >= turn {
                        id - turn
                    } else {
                        id - turn + count
                    };
                    assert(ring(turn as int, probe, count as int) == id);
                }
            }
        }
        turn
    }

    /// Submit a job for execution.  The index of the worker to wake comes back: an
    /// idle one if there is any, and else the one whose turn it is.
    ///
    /// # Errors
    ///
    /// Returns [`PoolError::SendError`] if the pool has been shut down.
    pub fn execute(&mut self, job: J) -> (woken: Result<usize, PoolError>)
        requires
            old(self).wf(),
        ensures
            final(self).wf(),
            old(self)@.shutdown ==> woken == Err::<usize, PoolError>(PoolError::SendError)
                && final(self)@ == old(self)@,
            !old(self)@.shutdown ==> woken is Ok && woken->Ok_0 < old(self)@.locals.len() && old(
                self,
            )@.wakes(woken->Ok_0 as int) && final(self)@ == old(self)@.submit(
                job,
                woken->Ok_0 as int,
            ),
    {
        if self.shutdown {
            return Err(PoolError::SendError);
        }
        let ghost before = *self;
        let ghost tickets = lanes(self.locals@).push(injected(self.injector));
        let ghost last = self.locals@.len() as int;
        let woken: usize = self.choose_idle();
        let ticket: u64 = self.jobs.insert(job);
        inject(&mut self.injector, ticket);
        if self.phases[woken] == Phase::Waiting {
            self.phases[woken] = Phase::Ready;
        }
        self.next_wakeup = self.next_wakeup.wrapping_add(1);
        proof {
            self.submitted@ = self.submitted@.push(job);
            lemma_enter(before.jobs@, tickets, last, ticket, job);
            assert(lanes(self.locals@).push(injected(self.injector)) =~= tickets.update(
                last,
                tickets[last].push(ticket),
            ));
            assert(tickets[last] == injected(before.injector));
            assert(self@.injector =~= before@.injector.push(job));
            assert forall|i: int| 0 <= i < last implies self@.locals[i] == before@.locals[i] by {
                assert(tickets[i] == lanes(self.locals@)[i]);
            }
            assert(self@ =~= before@.submit(job, woken as int));
            before@.lemma_submit(job, woken as int);
        }
        Ok(woken)
    }

    /// Take the job at the back of the queue of worker `id`.
    fn pop_own(&mut self, id: usize) -> (job: Option<J>)
        requires
            old(self).wf(),
            old(self)@.may_ask(id as int),
        ensures
            final(self).wf(),
            final(self).injector == old(self).injector,
            old(self)@.locals[id as int].len() == 0 ==> job is None && final(self)@ == old(self)@,
            old(self)@.locals[id as int].len() > 0 ==> job == Some(
                old(self)@.locals[id as int].last(),
            ) && final(self)@ == old(self)@.pop_local(id as int),
    {
        let ghost before = *self;
        let ghost own = id as int;
        let ghost tickets = lanes(self.locals@).push(injected(self.injector));
        assert(tickets[own] == queued(self.locals@[own]));
        match pop(&mut self.locals[id]) {
            Some(ticket) => {
                let ghost after = tickets.update(own, tickets[own].drop_last());
                proof {
                    assert(tickets[own].remove(tickets[own].len() - 1)
                        =~= tickets[own].drop_last());
                    lemma_take(before.jobs@, tickets, own, tickets[own].len() - 1);
                    lemma_forget(before.jobs@, after, ticket);
                }
                let job = self.jobs.remove(ticket);
                self.phases[id] = Phase::Running;
                proof {
                    self.started@ = self.started@.push(job);
                    assert(lanes(self.locals@).push(injected(self.injector)) =~= after);
                    self.lemma_same_jobs(before.jobs@, after);
                    before.lemma_same_jobs(before.jobs@, tickets);
                    assert(self@.locals[own] =~= before@.locals[own].drop_last());
                    assert(self@.locals =~= before@.locals.update(
                        own,
                        before@.locals[own].drop_last(),
                    ));
                    assert(self@ =~= before@.pop_local(own));
                    before@.lemma_pop_local(own);
                    before@.lemma_taken(own, self@);
                }
                Some(job)
            },
            None => {
                proof {
                    assert(lanes(self.locals@) =~= lanes(before.locals@));
                }
                None
            },
        }
    }

    /// Steal the job at the front of the queue of worker `victim` for worker `id`.
    fn rob(&mut self, id: usize, victim: usize) -> (job: Option<J>)
        requires
            old(self).wf(),
            old(self)@.may_ask(id as int),
            victim < old(self)@.locals.len(),
        ensures
            final(self).wf(),
            old(self)@.locals[victim as int].len() == 0 ==> job is None && final(self)@ == old(
                self,
            )@,
            old(self)@.locals[victim as int].len() > 0 ==> job == Some(
                old(self)@.locals[victim as int].first(),
            ) && final(self)@ == old(self)@.rob(id as int, victim as int),
    {
        let ghost before = *self;
        let ghost robbed = victim as int;
        let ghost tickets = lanes(self.locals@).push(injected(self.injector));
        assert(tickets[robbed] == queued(self.locals@[robbed]));
        let attempt = steal(&mut self.locals[victim]);
        let ghost after = lanes(self.locals@).push(injected(self.injector));
        proof {
            if let Attempt::Taken(ticket) = attempt {
                assert(tickets[robbed].remove(0) =~= tickets[robbed].drop_first());
                assert(after =~= tickets.update(robbed, tickets[robbed].drop_first()));
                lemma_take(before.jobs@, tickets, robbed, 0);
                lemma_forget(before.jobs@, after, ticket);
            } else {
                assert(lanes(self.locals@) =~= lanes(before.locals@));
            }
        }
        match redeem(&mut self.jobs, attempt) {
            Search::Found(job) => {
                self.phases[id] = Phase::Running;
                proof {
                    self.started@ = self.started@.push(job);
                    self.lemma_same_jobs(before.jobs@, after);
                    before.lemma_same_jobs(before.jobs@, tickets);
                    assert(self@.locals[robbed] =~= before@.locals[robbed].drop_first());
                    assert(self@.locals =~= before@.locals.update(
                        robbed,
                        before@.locals[robbed].drop_first(),
                    ));
                    assert(self@ =~= before@.rob(id as int, robbed));
                    before@.lemma_rob(id as int, robbed);
                    before@.lemma_taken(id as int, self@);
                }
                Some(job)
            },
            Search::Nothing | Search::Lost => None,
        }
    }

    /// Draw a batch from the shared queue for worker `id`.
    fn draw(&mut self, id: usize) -> (search: Search<J>)
        requires
            old(self).wf(),
            old(self)@.may_ask(id as int),
        ensures
            final(self).wf(),
            search is Lost ==> old(self).draw_lost(),
            search is Nothing <==> old(self)@.injector.len() == 0,
            search !is Found ==> final(self)@ == old(self)@,
            search matches Search::Found(job) ==> job == old(self)@.injector.first() && exists|
                size: int,
            |
                1 <= size <= old(self)@.injector.len() && final(self)@ == #[trigger] old(
                    self,
                )@.draw_batch(id as int, size),
    {
        let ghost before = *self;
        let ghost own = id as int;
        let ghost shared = self.locals@.len() as int;
        let ghost tickets = lanes(self.locals@).push(injected(self.injector));
        assert(tickets[own] == queued(self.locals@[own]));
        assert(tickets[shared] == injected(self.injector));
        let attempt = draw_tickets(&mut self.injector, &mut self.locals[id]);
        let ghost after = lanes(self.locals@).push(injected(self.injector));
        let ghost mut size: int = 0;
        proof {
            if let Attempt::Taken(ticket) = attempt {
                size = choose|size: int| #[trigger]
                    batch_moved(
                        tickets[shared],
                        tickets[own],
                        size,
                        ticket,
                        injected(self.injector),
                        queued(self.locals@[own]),
                    );
                assert(after =~= tickets.update(shared, tickets[shared].skip(size)).update(
                    own,
                    tickets[own] + tickets[shared].subrange(1, size).reverse(),
                ));
                lemma_move(before.jobs@, tickets, shared, own, size);
                lemma_forget(before.jobs@, after, ticket);
            } else {
                assert(lanes(self.locals@) =~= lanes(before.locals@));
            }
        }
        let search = redeem(&mut self.jobs, attempt);
        if let Search::Found(_) = &search {
            self.phases[id] = Phase::Running;
        }
        proof {
            if search is Found {
                self.started@ = self.started@.push(search->Found_0);
                self.lemma_same_jobs(before.jobs@, after);
                before.lemma_same_jobs(before.jobs@, tickets);
                assert(self@.injector =~= before@.injector.skip(size));
                assert(self@.locals[own] =~= before@.locals[own] + before@.injector.subrange(
                    1,
                    size,
                ).reverse());
                assert(self@.locals =~= before@.locals.update(own, self@.locals[own]));
                assert(self@ =~= before@.draw_batch(own, size));
                before@.lemma_draw_batch(own, size);
                before@.lemma_taken(own, self@);
            }
        }
        search
    }

    /// Find a job for worker `id`: at the back of its own queue, else in the
    /// shared queue, of which a batch moves over, else at the front of the
    /// queue of a neighbour.  Neighbours are probed round from `start` on.
    pub fn find_task(&mut self, id: usize, start: usize) -> (search: Search<J>)
        requires
            old(self).wf(),
            old(self)@.may_ask(id as int),
            start < old(self)@.locals.len(),
        ensures
            final(self).wf(),
            search is Lost ==> old(self).draw_lost(),
            old(self)@.searched(id as int, start as int, search, final(self)@),
    {
        let ghost before = self@;
        // 1. The worker's own queue.
        if let Some(job) = self.pop_own(id) {
            return Search::Found(job);
        }
        // 2. The shared queue.
        match self.draw(id) {
            Search::Found(job) => {
                return Search::Found(job);
            },
            Search::Lost => {
                return Search::Lost;
            },
            Search::Nothing => {},
        }
        // 3. The neighbours.
        let count: usize = self.locals.len();
        let mut probe: usize = 0;
        while probe < count
            invariant
                self.wf(),
                self@ == before,
                before == old(self)@,
                before.locals.len() == self.locals@.len() == count,
                before.may_ask(id as int),
                start < count,
                probe <= count,
                before.locals[id as int].len() == 0,
                before.injector.len() == 0,
                forall|earlier: int|
                    0 <= earlier < probe ==> !before.can_rob(
                        id as int,
                        #[trigger] ring(start as int, earlier, count as int),
                    ),
            decreases count - probe,
        {
            let victim: usize = if probe < count - start {
                start + probe
            } else {
                probe - (count - start)
            };
            assert(victim == ring(start as int, probe as int, count as int));
            if victim != id {
                if let Some(job) = self.rob(id, victim) {
                    assert(before.can_rob(id as int, victim as int));
                    assert(before.robbed_at(id as int, start as int, probe as int));
                    return Search::Found(job);
                }
            }
            probe = probe + 1;
        }
        proof {
            assert forall|victim: int| 0 <= victim < count implies !#[trigger] before.can_rob(
                id as int,
                victim,
            ) by {
                let probe = if victim >= start {
                    victim - start
                } else {
                    victim - start + count
                };
                assert(ring(start as int, probe, count as int) == victim);
            }
        }
        Search::Nothing
    }

    /// What worker `id` does next, searching as [`Self::find_task`] does.
    pub fn next_task(&mut self, id: usize, start: usize) -> (action: StealingAction<J>)
        requires
            old(self).wf(),
            old(self)@.may_ask(id as int),
            start < old(self)@.locals.len(),
        ensures
            final(self).wf(),
            action is Retry ==> old(self).draw_lost(),
            old(self)@.told(id as int, start as int, action, final(self)@),
    {
        let ghost before = self@;
        let shutdown = self.shutdown;
        let search = self.find_task(id, start);
        let ghost found = self@;
        proof {
            before.lemma_searched(id as int, start as int, search, found);
        }
        let action = settle(search, shutdown);
        self.phases[id] = phase_for(&action);
        proof {
            assert(self@ =~= found.noted(id as int, action));
            assert(before.searched(id as int, start as int, search, found) && action == settled(
                search,
                before.shutdown,
            ) && self@ == found.noted(id as int, action));
            assert(before.told(id as int, start as int, action, self@));
            before.lemma_told(id as int, start as int, action, self@);
        }
        action
    }

    /// Tell that the job of worker `id` ended.  The worker lives on, however the
    /// job did.
    pub fn finish(&mut self, id: usize, outcome: JobOutcome)
        requires
            old(self).wf(),
            old(self)@.is_running(id as int),
        ensures
            final(self).wf(),
            final(self)@ == old(self)@.finish(id as int, outcome),
    {
        let ghost before = self@;
        self.phases[id] = Phase::Ready;
        proof {
            self.ended@ = self.ended@ + 1;
            assert(self@ =~= before.finish(id as int, outcome));
            before.lemma_finish(id as int, outcome);
        }
    }

    /// The phase of worker `id`, if there is such a worker.
    pub fn phase(&self, id: usize) -> (phase: Option<Phase>)
        ensures
            phase == if id < self@.phases.len() {
                Some(self@.phases[id as int])
            } else {
                None
            },
    {
        if id < self.phases.len() {
            Some(self.phases[id])
        } else {
            None
        }
    }

    /// Take no more jobs.  Workers leave once they find nothing to do.
    pub fn shutdown(&mut self)
        requires
            old(self).wf(),
        ensures
            final(self).wf(),
            final(self)@ == (StealingState { shutdown: true, ..old(self)@ }),
    {
        self.shutdown = true;
    }
}

/// In every state of a pool, each job taken in either waits in just one place
/// or was handed out just once; each job handed out runs or has ended; no worker
/// has left while a job waits; and the counter that tells whose turn it is to be
/// woken shows how many jobs were taken in.
pub proof fn law_pool_invariant<J>(pool: &WorkStealingPool<J>)
    requires
        pool.wf(),
    ensures
        pool@.inv(),
{
}

/// A pool is refused to no one but who asks for no workers, and a new one has the
/// workers asked for, all about to ask for a job, and no job.
pub proof fn law_new_pool_is_empty<J>(
    num_threads: usize,
    made: Result<WorkStealingPool<J>, PoolError>,
)
    requires
        call_ensures(WorkStealingPool::<J>::new, (num_threads,), made),
    ensures
        made is Err <==> num_threads == 0,
        made matches Err(error) ==> error is InvalidSize,
        made matches Ok(pool) ==> {
            &&& pool@.phases.len() == num_threads
            &&& forall|id: int| 0 <= id < num_threads ==> #[trigger] pool@.phases[id] is Ready
            &&& pool@.locals.len() == num_threads
            &&& forall|id: int| 0 <= id < num_threads ==> #[trigger] pool@.locals[id].len() == 0
            &&& pool@.injector.len() == 0
            &&& pool@.submitted.len() == 0
            &&& pool@.started.len() == 0
            &&& pool@.ended == 0
            &&& pool@.next_wakeup == 0
            &&& !pool@.shutdown
        },
{
}

/// A pool that is not shut down takes in just the job that is submitted, behind
/// all that wait in the shared queue, and leaves every other queue and what was
/// handed out as it is.  At most one worker changes its phase, the one to wake.  A
/// pool that is shut down refuses the job, and does not change.
pub proof fn law_submitted_job_waits<J>(
    pool: &mut WorkStealingPool<J>,
    job: J,
    woken: Result<usize, PoolError>,
)
    requires
        pool.wf(),
        call_ensures(WorkStealingPool::<J>::execute, (pool, job), woken),
    ensures
        woken is Err <==> old(pool)@.shutdown,
        woken matches Err(error) ==> error is SendError && final(pool)@ == old(pool)@,
        woken matches Ok(id) ==> {
            &&& id < old(pool)@.phases.len()
            &&& final(pool)@.injector == old(pool)@.injector.push(job)
            &&& final(pool)@.submitted == old(pool)@.submitted.push(job)
            &&& final(pool)@.next_wakeup == (old(pool)@.next_wakeup + 1) % (usize::MAX + 1)
            &&& final(pool)@.phases == if old(pool)@.phases[id as int] is Waiting {
                old(pool)@.phases.update(id as int, Phase::Ready)
            } else {
                old(pool)@.phases
            }
            &&& final(pool)@.locals == old(pool)@.locals
            &&& final(pool)@.started == old(pool)@.started
            &&& final(pool)@.ended == old(pool)@.ended
            &&& final(pool)@.shutdown == old(pool)@.shutdown
        },
{
    lemma_moved(pool@.next_wakeup);
}

/// A new job wakes a parked worker if there is one, and of those the nearest going
/// round from the worker whose turn it is; if none is parked, it is the one whose
/// turn it is.  The turn goes round with the jobs that were submitted.
pub proof fn law_nearest_parked_worker_is_woken<J>(
    pool: &mut WorkStealingPool<J>,
    job: J,
    woken: usize,
    other: int,
)
    requires
        pool.wf(),
        call_ensures(WorkStealingPool::<J>::execute, (pool, job), Ok::<usize, PoolError>(woken)),
        0 <= other < pool@.phases.len(),
    ensures
        ({
            let count = old(pool)@.phases.len() as int;
            let turn = old(pool)@.submitted.len() as int % (usize::MAX + 1) % count;
            if old(pool)@.phases[other] is Waiting {
                &&& old(pool)@.phases[woken as int] is Waiting
                &&& (woken - turn) % count <= (other - turn) % count
            } else {
                old(pool)@.phases[woken as int] is Waiting || woken == turn
            }
        }),
{
    let before = pool@;
    let count = before.phases.len() as int;
    if exists|id: int| #[trigger] before.is_parked(id) {
        let probe = choose|probe: int| #[trigger]
            before.parked_at(probe) && woken == ring(before.turn(), probe, count);
        lemma_ring(before.turn(), probe, count);
        let reached = if other >= before.turn() {
            other - before.turn()
        } else {
            other - before.turn() + count
        };
        lemma_ring(before.turn(), reached, count);
        assert(ring(before.turn(), reached, count) == other);
        assert(before.is_parked(woken as int));
    } else {
        assert(!before.is_parked(other));
        assert(!before.is_parked(woken as int));
    }
}

/// The order in which a worker looks for a job.  What stands at the back of its own
/// queue comes first, then the oldest job of the shared queue, then what stands at
/// the front of the queue of the nearest neighbour that has any, going round from
/// `start`.  It finds nothing if and only if all queues are empty; only a draw from
/// the shared queue can be lost.  Just the job that is found is added to those
/// handed out.
pub proof fn law_search_finds_the_job_due<J>(
    pool: &mut WorkStealingPool<J>,
    id: usize,
    start: usize,
    search: Search<J>,
)
    requires
        pool.wf(),
        0 <= id < pool@.phases.len(),
        0 <= start < pool@.phases.len(),
        call_ensures(WorkStealingPool::<J>::find_task, (pool, id, start), search),
    ensures
        search is Lost ==> old(pool)@.locals[id as int].len() == 0 && old(pool)@.injector.len() > 0
            && old(pool).draw_lost(),
        search is Nothing <==> old(pool)@.injector.len() == 0 && forall|k: int|
            0 <= k < old(pool)@.locals.len() ==> #[trigger] old(pool)@.locals[k].len() == 0,
        search !is Found ==> final(pool)@ == old(pool)@,
        search matches Search::Found(job) ==> {
            let count = old(pool)@.locals.len() as int;
            let own = old(pool)@.locals[id as int];
            &&& final(pool)@.started == old(pool)@.started.push(job)
            &&& final(pool)@.phases == old(pool)@.phases.update(id as int, Phase::Running)
            &&& final(pool)@ == StealingState {
                injector: final(pool)@.injector,
                locals: final(pool)@.locals,
                phases: final(pool)@.phases,
                started: final(pool)@.started,
                ..old(pool)@
            }
            &&& final(pool)@.locals.len() == count
            &&& own.len() > 0 ==> {
                &&& job == own.last()
                &&& final(pool)@.injector == old(pool)@.injector
                &&& final(pool)@.locals == old(pool)@.locals.update(id as int, own.drop_last())
            }
            &&& own.len() == 0 && old(pool)@.injector.len() > 0 ==> {
                &&& job == old(pool)@.injector.first()
                &&& final(pool)@.locals[id as int].reverse() + final(pool)@.injector == old(pool)@.injector.drop_first()
                &&& forall|other: int|
                    0 <= other < count && other != id as int ==>
                    #[trigger] final(pool)@.locals[other] == old(pool)@.locals[other]
            }
            &&& own.len() == 0 && old(pool)@.injector.len() == 0 ==> {
                &&& final(pool)@.injector == old(pool)@.injector
                &&& exists|victim: int|
                    {
                        &&& 0 <= victim < count && victim != id as int
                        &&& #[trigger] old(pool)@.locals[victim].len() > 0
                        &&& job == old(pool)@.locals[victim].first()
                        &&& final(pool)@.locals == old(pool)@.locals.update(
                            victim,
                            old(pool)@.locals[victim].drop_first(),
                        )
                        &&& forall|other: int|
                            0 <= other < count && other != id as int &&
                            #[trigger] old(pool)@.locals[other].len() > 0 ==> (victim - start) % count
                                <= (other - start) % count
                    }
            }
        },
{
    law_search_keeps_the_order(pool@, id as int, start as int, search, final(pool)@);
}

/// What a worker is told that asks for a job: to run the job due, which is just the
/// one added to those handed out; to search again, if a draw from the shared queue
/// was lost; to park, if all queues are empty; and to leave, if moreover the pool
/// is shut down.  No queue changes but by the job taken and by those that move from
/// the shared queue to its own.
pub proof fn law_worker_is_told_the_job_due<J>(
    pool: &mut WorkStealingPool<J>,
    id: usize,
    start: usize,
    action: StealingAction<J>,
)
    requires
        pool.wf(),
        0 <= id < pool@.phases.len(),
        0 <= start < pool@.phases.len(),
        call_ensures(WorkStealingPool::<J>::next_task, (pool, id, start), action),
    ensures
        action is Retry ==> old(pool)@.locals[id as int].len() == 0 && old(pool)@.injector.len() > 0
            && old(pool).draw_lost(),
        action is Park || action is Exit <==> old(pool)@.injector.len() == 0 && forall|k: int|
            0 <= k < old(pool)@.locals.len() ==> #[trigger] old(pool)@.locals[k].len() == 0,
        action is Park ==> !old(pool)@.shutdown,
        action is Exit ==> old(pool)@.shutdown,
        action !is Run ==> final(pool)@ == (StealingState {
            phases: old(pool)@.phases.update(
                id as int,
                if action is Retry {
                    Phase::Ready
                } else if action is Park {
                    Phase::Waiting
                } else {
                    Phase::Exited
                },
            ),
            ..old(pool)@
        }),
        action matches StealingAction::Run(job) ==> {
            let count = old(pool)@.locals.len() as int;
            let own = old(pool)@.locals[id as int];
            &&& final(pool)@.started == old(pool)@.started.push(job)
            &&& final(pool)@.phases == old(pool)@.phases.update(id as int, Phase::Running)
            &&& final(pool)@ == StealingState {
                injector: final(pool)@.injector,
                locals: final(pool)@.locals,
                phases: final(pool)@.phases,
                started: final(pool)@.started,
                ..old(pool)@
            }
            &&& final(pool)@.locals.len() == count
            &&& own.len() > 0 ==> {
                &&& job == own.last()
                &&& final(pool)@.injector == old(pool)@.injector
                &&& final(pool)@.locals == old(pool)@.locals.update(id as int, own.drop_last())
            }
            &&& own.len() == 0 && old(pool)@.injector.len() > 0 ==> {
                &&& job == old(pool)@.injector.first()
                &&& final(pool)@.locals[id as int].reverse() + final(pool)@.injector == old(pool)@.injector.drop_first()
                &&& forall|other: int|
                    0 <= other < count && other != id as int ==>
                    #[trigger] final(pool)@.locals[other] == old(pool)@.locals[other]
            }
            &&& own.len() == 0 && old(pool)@.injector.len() == 0 ==> {
                &&& final(pool)@.injector == old(pool)@.injector
                &&& exists|victim: int|
                    {
                        &&& 0 <= victim < count && victim != id as int
                        &&& #[trigger] old(pool)@.locals[victim].len() > 0
                        &&& job == old(pool)@.locals[victim].first()
                        &&& final(pool)@.locals == old(pool)@.locals.update(
                            victim,
                            old(pool)@.locals[victim].drop_first(),
                        )
                        &&& forall|other: int|
                            0 <= other < count && other != id as int &&
                            #[trigger] old(pool)@.locals[other].len() > 0 ==> (victim - start) % count
                                <= (other - start) % count
                    }
            }
        },
{
    let before = pool@;
    let after = final(pool)@;
    let (search, found) = choose|search: Search<J>, found: StealingState<J>| #[trigger]
        before.searched(id as int, start as int, search, found) && action == settled(
            search,
            before.shutdown,
        ) && after == found.noted(id as int, action);
    law_search_keeps_the_order(before, id as int, start as int, search, found);
    if action is Run {
        assert(after.phases =~= found.phases);
        assert(after =~= found);
    }
}

/// What follows from a search, without a look at the pool: a job that was found is
/// the one to run, a search that was lost is repeated, and one that found nothing
/// ends in leaving or in parking as the pool is shut down or not.
pub proof fn law_search_is_settled<J>(
    search: Search<J>,
    shutdown: bool,
    action: StealingAction<J>,
)
    requires
        call_ensures(settle::<J>, (search, shutdown), action),
    ensures
        action matches StealingAction::Run(job) ==> search == Search::Found(job),
        search is Found ==> action is Run,
        search is Lost <==> action is Retry,
        search is Nothing && shutdown <==> action is Exit,
        search is Nothing && !shutdown <==> action is Park,
{
}

/// The end of a job takes none and loses none: the shared queue, the queue of each
/// worker and the jobs handed out stay as they are, just one more job has ended,
/// and its worker, but no other, is about to ask again, however the job ended.
pub proof fn law_end_of_a_job_takes_none<J>(
    pool: &mut WorkStealingPool<J>,
    id: usize,
    outcome: JobOutcome,
)
    requires
        0 <= id < pool@.phases.len(),
        call_ensures(WorkStealingPool::<J>::finish, (pool, id, outcome), ()),
    ensures
        final(pool)@.injector == old(pool)@.injector,
        final(pool)@.locals == old(pool)@.locals,
        final(pool)@.submitted == old(pool)@.submitted,
        final(pool)@.started == old(pool)@.started,
        final(pool)@.ended == old(pool)@.ended + 1,
        final(pool)@.shutdown == old(pool)@.shutdown,
        final(pool)@.next_wakeup == old(pool)@.next_wakeup,
        final(pool)@.phases == old(pool)@.phases.update(id as int, Phase::Ready),
{
}

/// A shutdown loses no job and sends no worker away: all that changes is that no
/// more jobs are taken in.
pub proof fn law_shutdown_loses_nothing<J>(pool: &mut WorkStealingPool<J>)
    requires
        call_ensures(WorkStealingPool::<J>::shutdown, (pool,), ()),
    ensures
        final(pool)@.shutdown,
        final(pool)@.injector == old(pool)@.injector,
        final(pool)@.locals == old(pool)@.locals,
        final(pool)@.phases == old(pool)@.phases,
        final(pool)@.submitted == old(pool)@.submitted,
        final(pool)@.started == old(pool)@.started,
        final(pool)@.ended == old(pool)@.ended,
        final(pool)@.next_wakeup == old(pool)@.next_wakeup,
{
}

/// A worker may ask for a job just when it neither runs one nor has left, and may
/// end one just when it runs one; what phase it is in, the pool tells.
pub proof fn law_phase_tells_what_is_due<J>(
    pool: &WorkStealingPool<J>,
    id: usize,
    phase: Option<Phase>,
)
    requires
        call_ensures(WorkStealingPool::<J>::phase, (pool, id), phase),
    ensures
        phase is Some <==> id < pool@.phases.len(),
        phase matches Some(now) ==> now == pool@.phases[id as int],
        pool@.may_ask(id as int) <==> phase == Some(Phase::Ready) || phase == Some(Phase::Waiting),
        pool@.is_running(id as int) <==> phase == Some(Phase::Running),
{
}

/// Each job taken in waits in a queue or was handed out, each job handed out runs
/// or has ended, and no worker has left while a job waits.
pub proof fn law_each_job_is_somewhere<J>(pool: &WorkStealingPool<J>, job: J)
    requires
        pool.wf(),
    ensures
        pool@.submitted.to_multiset().count(job) == pool@.started.to_multiset().count(job)
            + pool@.injector.to_multiset().count(job) + union_of(pool@.locals).count(job),
        pool@.locals.len() == pool@.phases.len(),
        pool@.ended <= pool@.started.len() <= pool@.ended + pool@.phases.len(),
        pool@.next_wakeup == pool@.submitted.len() as int % (usize::MAX + 1),
        forall|id: int|
            0 <= id < pool@.phases.len() && #[trigger] pool@.phases[id] is Exited ==> {
                &&& pool@.shutdown
                &&& pool@.started.len() == pool@.submitted.len()
            },
{
    pool@.submitted.to_multiset_ensures();
    pool@.started.to_multiset_ensures();
    lemma_count_bound(pool@.phases, Phase::Running);
    lemma_count_some(pool@.phases, Phase::Exited);
    assert(pool@.submitted.to_multiset().count(job) == pool@.started.to_multiset().add(
        pool@.pending(),
    ).count(job));
    assert forall|id: int|
        0 <= id < pool@.phases.len() && #[trigger] pool@.phases[id] is Exited implies pool@.shutdown
        && pool@.started.len() == pool@.submitted.len() by {
        assert(pool@.phases[id] == Phase::Exited);
    }
}

/// A draw that is lost is one from the shared queue of the pool.
proof fn law_draw_is_from_the_shared_queue<J>(pool: &WorkStealingPool<J>)
    requires
        pool.draw_lost(),
    ensures
        lost_draw(pool.injector),
{
}

} // verus!
