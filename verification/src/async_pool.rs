//! A pool for futures, backed by a Tokio multi-thread runtime.

use crate::PoolError;
use std::future::Future;
use tokio::runtime::Runtime;
use tokio::task::{JoinError, JoinHandle};
use vstd::future::FutureAdditionalSpecFns;
use vstd::prelude::*;

verus! {

/// `tokio::runtime::Runtime`, with nothing known of its inside.
#[verifier::external_type_specification]
#[verifier::external_body]
pub struct ExRuntime(Runtime);

/// `tokio::task::JoinHandle`, with nothing known of its inside.
#[verifier::external_type_specification]
#[verifier::external_body]
#[verifier::reject_recursive_types(T)]
pub struct ExJoinHandle<T>(JoinHandle<T>);

/// `tokio::task::JoinError`, with nothing known of its inside.
#[verifier::external_type_specification]
#[verifier::external_body]
pub struct ExJoinError(JoinError);

/// `std::io::Error`, with nothing known of its inside.
#[verifier::external_type_specification]
#[verifier::external_body]
pub struct ExIoError(std::io::Error);

/// The number of worker threads that a runtime was built with.
pub uninterp spec fn worker_count(runtime: Runtime) -> nat;

/// `tokio::runtime::Builder`, by `new_multi_thread`, `worker_threads`,
/// `enable_all` and `build`: a runtime that comes out has the number of worker
/// threads asked for.  Whether one comes out rests on what the operating system
/// can spare, and nothing is said of that: an error comes back if the I/O driver
/// cannot be had, and tokio panics if not even one thread can be started.
/// `worker_threads` panics on zero.
#[verifier::external_body]
fn build_runtime(num_threads: usize) -> (built: Result<Runtime, std::io::Error>)
    requires
        num_threads > 0,
    ensures
        built matches Ok(runtime) ==> worker_count(runtime) == num_threads,
{
    tokio::runtime::Builder::new_multi_thread().worker_threads(num_threads).enable_all().build()
}

/// `Runtime::spawn`: the handle resolves to the output of the future, or to an
/// error if the task panicked or was cancelled.
#[verifier::external_body]
fn launch<F>(runtime: &Runtime, future: F) -> (handle: JoinHandle<F::Output>) where
    F: Future + Send + 'static,
    F::Output: Send + 'static,

    ensures
        handle@ matches Ok(output) ==> output == future@,
{
    runtime.spawn(future)
}

/// `Runtime::metrics` and `RuntimeMetrics::num_alive_tasks`: how many of the
/// tasks spawned on the runtime have not ended.  The number changes as they run,
/// so nothing is said of it.
#[verifier::external_body]
fn alive_tasks(runtime: &Runtime) -> (count: usize) {
    runtime.metrics().num_alive_tasks()
}

/// Whether `built` may come of building a runtime with `num_threads` worker
/// threads.
pub closed spec fn built_by(num_threads: usize, built: Result<Runtime, std::io::Error>) -> bool {
    call_ensures(build_runtime, (num_threads,), built)
}

/// Whether `handle` may come of spawning `future` on `runtime`.
pub closed spec fn launched_on<F>(
    runtime: Runtime,
    future: F,
    handle: JoinHandle<F::Output>,
) -> bool where F: Future + Send + 'static, F::Output: Send + 'static {
    call_ensures(launch::<F>, (&runtime, future), handle)
}

/// Whether `count` may be what `runtime` tells of its unfinished tasks.
pub closed spec fn told_alive(runtime: Runtime, count: usize) -> bool {
    call_ensures(alive_tasks, (&runtime,), count)
}

/// What the owner of a pool does before it lets go of it.
#[derive(Debug, Clone, Copy, PartialEq, Eq, Structural)]
pub enum DrainAction {
    /// Wait a while, and ask again.
    Wait,
    /// Let go of the pool: no task is left.
    Done,
}

/// What the owner of a pool does when `alive` tasks have not ended.
pub fn drain_action(alive: usize) -> (action: DrainAction)
    ensures
        action is Done <==> alive == 0,
{
    if alive == 0 {
        DrainAction::Done
    } else {
        DrainAction::Wait
    }
}

/// A pool that runs futures on a Tokio multi-thread runtime, with its I/O and
/// timer drivers enabled.
///
/// Letting go of the runtime drops the tasks that have not ended.  So that none
/// is abandoned, the owner of a pool asks [`Self::drain`] first, until it is
/// done.
pub struct AsyncPool {
    runtime: Runtime,
}

impl AsyncPool {
    /// The runtime that the pool runs on.
    pub closed spec fn runtime(&self) -> Runtime {
        self.runtime
    }

    /// Whether `pool` is what [`Self::adopt`] makes of `built`.
    pub open spec fn adopted(
        built: Result<Runtime, std::io::Error>,
        pool: Result<Self, PoolError>,
    ) -> bool {
        match built {
            Ok(runtime) => pool is Ok && pool->Ok_0.runtime() == runtime,
            Err(_) => pool == Err::<Self, PoolError>(PoolError::SendError),
        }
    }

    /// Create a new `AsyncPool`.
    ///
    /// - `num_threads`: number of worker threads in the runtime.  Must be at
    ///   least 1.
    ///
    /// # Errors
    ///
    /// Returns [`PoolError::InvalidSize`] if `num_threads` is zero.
    /// Returns [`PoolError::SendError`] if the runtime cannot be initialised.
    pub fn new(num_threads: usize) -> (pool: Result<Self, PoolError>)
        ensures
            num_threads == 0 <==> pool == Err::<Self, PoolError>(PoolError::InvalidSize),
            num_threads > 0 ==> exists|built: Result<Runtime, std::io::Error>| #[trigger]
                built_by(num_threads, built) && Self::adopted(built, pool),
            pool matches Ok(made) ==> worker_count(made.runtime()) == num_threads,
    {
        if num_threads == 0 {
            return Err(PoolError::InvalidSize);
        }
        let built = build_runtime(num_threads);
        assert(built_by(num_threads, built));
        Self::adopt(built)
    }

    /// Make a pool of a runtime that was built, if it was.
    ///
    /// # Errors
    ///
    /// Returns [`PoolError::SendError`] if building the runtime failed.
    pub fn adopt(built: Result<Runtime, std::io::Error>) -> (pool: Result<Self, PoolError>)
        ensures
            Self::adopted(built, pool),
    {
        match built {
            Ok(runtime) => Ok(AsyncPool { runtime }),
            Err(_) => Err(PoolError::SendError),
        }
    }

    /// Spawn a future on the pool's runtime and return its `JoinHandle`, which
    /// resolves to the output of the future, or to an error if the task panicked
    /// or was cancelled.
    pub fn spawn<F>(&self, future: F) -> (handle: JoinHandle<F::Output>) where
        F: Future + Send + 'static,
        F::Output: Send + 'static,

        ensures
            launched_on(self.runtime(), future, handle),
            handle@ matches Ok(output) ==> output == future@,
    {
        launch(&self.runtime, future)
    }

    /// The runtime that the pool runs on, for a thread that drives a future on it
    /// and blocks until it completes.
    pub fn lend(&self) -> (runtime: &Runtime)
        ensures
            *runtime == self.runtime(),
    {
        &self.runtime
    }

    /// What the owner does before it lets go of the pool: it waits as long as
    /// the runtime tells of tasks that have not ended.
    pub fn drain(&self) -> (action: DrainAction)
        ensures
            exists|alive: usize| #[trigger]
                told_alive(self.runtime(), alive) && (action is Done <==> alive == 0),
    {
        let alive: usize = alive_tasks(&self.runtime);
        assert(told_alive(self.runtime(), alive));
        drain_action(alive)
    }
}

/// A runtime that was built becomes a pool that runs on it, and one that was not is
/// a send error.
pub proof fn law_built_runtime_is_adopted(
    built: Result<Runtime, std::io::Error>,
    pool: Result<AsyncPool, PoolError>,
)
    requires
        call_ensures(AsyncPool::adopt, (built,), pool),
    ensures
        built is Ok <==> pool is Ok,
        pool matches Ok(made) ==> built == Ok::<Runtime, std::io::Error>(made.runtime()),
        pool matches Err(error) ==> error is SendError,
{
}

/// A pool with no worker threads is refused.  Any other runs on a runtime that was
/// built with the worker threads asked for, and is refused only if none could be
/// built.
proof fn law_pool_runs_on_what_was_built(num_threads: usize, pool: Result<AsyncPool, PoolError>)
    requires
        call_ensures(AsyncPool::new, (num_threads,), pool),
    ensures
        num_threads == 0 ==> pool is Err,
        pool matches Err(PoolError::InvalidSize) ==> num_threads == 0,
        pool matches Err(PoolError::SendError) ==> exists|error: std::io::Error| #[trigger]
            call_ensures(build_runtime, (num_threads,), Err(error)),
        pool matches Ok(made) ==> worker_count(made.runtime()) == num_threads && call_ensures(
            build_runtime,
            (num_threads,),
            Ok(made.runtime()),
        ),
{
    if num_threads > 0 {
        let built = choose|built: Result<Runtime, std::io::Error>| #[trigger]
            built_by(num_threads, built) && AsyncPool::adopted(built, pool);
        if let Err(error) = built {
            assert(call_ensures(build_runtime, (num_threads,), Err(error)));
        }
    }
}

/// What is spawned on a pool is spawned on its runtime, and a value that its handle
/// resolves to is the output of that very future.
proof fn law_future_goes_to_the_runtime<F>(
    pool: &AsyncPool,
    future: F,
    handle: JoinHandle<F::Output>,
) where F: Future + Send + 'static, F::Output: Send + 'static
    requires
        call_ensures(AsyncPool::spawn::<F>, (pool, future), handle),
    ensures
        call_ensures(launch::<F>, (&pool.runtime(), future), handle),
        handle@ matches Ok(output) ==> output == future@,
{
}

/// The owner of a pool is done if and only if the runtime of the pool told of no
/// task, and waits as long as it told of any.
proof fn law_owner_waits_for_tasks(pool: &AsyncPool, action: DrainAction)
    requires
        call_ensures(AsyncPool::drain, (pool,), action),
    ensures
        action is Done ==> call_ensures(alive_tasks, (&pool.runtime(),), 0usize),
        action is Wait ==> exists|alive: usize|
            alive > 0 && #[trigger] call_ensures(alive_tasks, (&pool.runtime(),), alive),
{
    let alive = choose|alive: usize| #[trigger]
        told_alive(pool.runtime(), alive) && (action is Done <==> alive == 0);
    assert(call_ensures(alive_tasks, (&pool.runtime(),), alive));
}

/// Any task that has not ended keeps the owner waiting.
pub proof fn law_any_task_is_waited_for(alive: usize, action: DrainAction)
    requires
        call_ensures(drain_action, (alive,), action),
    ensures
        alive > 0 <==> action is Wait,
        alive == 0 <==> action is Done,
{
}

} // verus!
