//! Decision logic of four thread pools, verified.

pub mod async_pool;
pub mod bounded;
pub mod bounded_state;
pub mod counter;
pub mod deque;
pub mod heap;
pub mod job_table;
pub mod metrics;
pub mod priority;
pub mod stealing_state;
pub mod work_stealing;
pub mod worker;

pub use bounded::ThreadPool;
pub use metrics::{JobOutcome, Metrics, MetricsSnapshot};

use vstd::prelude::*;

verus! {

/// Errors that can occur when creating or using any pool type in this crate.
#[derive(Debug)]
pub enum PoolError {
    /// The requested pool size was zero.
    InvalidSize,
    /// The internal channel has closed; no more jobs can be sent.
    SendError,
}

impl PoolError {
    /// The error in words.
    pub fn to_string(&self) -> (text: String)
        ensures
            text@ == match *self {
                PoolError::InvalidSize => "thread pool size must be at least 1"@,
                PoolError::SendError => "failed to send job: channel is closed"@,
            },
    {
        match self {
            PoolError::InvalidSize => "thread pool size must be at least 1".to_string(),
            PoolError::SendError => "failed to send job: channel is closed".to_string(),
        }
    }
}

} // verus!
