# thread_pool

Four thread pools whose decisions are verified with Verus.

| Pool | Where jobs wait | Order |
|---|---|---|
| `ThreadPool` | one bounded queue | first in, first out |
| `work_stealing::WorkStealingPool` | a shared queue and one queue per worker | own queue, shared queue, neighbours |
| `priority::PriorityThreadPool` | a binary heap | highest priority first, then first in, first out |
| `async_pool::AsyncPool` | a Tokio runtime | up to the runtime |

The library holds what the pools decide: which job a worker gets, when it
waits, when it leaves, what is counted, which submission is refused or has to
wait.  A pool is a value, and each method is one step that the caller performs
under a lock.  `app/` puts the pools on threads: it takes the lock, asks for the
next step, runs the job, catches its panic and reports how it ended.  Jobs run
outside the lock.  A future is driven on the runtime that `AsyncPool` lends.  When
a pool is dropped, `app/` drains it: it sends the workers away behind the jobs
that wait, or, for `AsyncPool`, asks until no task is left.

## Layout

- `src/bounded_state.rs`: the states of `ThreadPool` and their laws
- `src/bounded.rs`: `ThreadPool`
- `src/stealing_state.rs`: the states of `WorkStealingPool` and their laws
- `src/work_stealing.rs`: `WorkStealingPool`
- `src/deque.rs`: the `crossbeam_deque` queues, and what is taken for granted of them
- `src/job_table.rs`: jobs kept under the tickets that travel through those queues
- `src/priority.rs`: `PriorityThreadPool`, its states and their laws
- `src/heap.rs`: the binary heap
- `src/async_pool.rs`: `AsyncPool`, and what is taken for granted of Tokio
- `src/metrics.rs`, `src/counter.rs`: counters that start over at zero
- `src/worker.rs`: what a worker is about, and what it is told to do
- `tests/`: the pools driven step by step
- `app/`: the pools on threads, with a demonstration

## Reading the contracts

Each pool has a view, a record of what it holds and of what has happened to it:
which jobs came in, in which order, and which were handed out.  A method says
which state it leaves, as a function of the state it found.  What holds of all
states stands in the proof functions whose names begin with `law_`.
