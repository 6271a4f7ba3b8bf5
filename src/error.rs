use vstd::prelude::*;

verus! {

/// The failures that the queue and the scheduler report to their callers.
#[derive(Debug, PartialEq, Eq)]
pub enum Error {
    /// A malformed request: a bad cron expression, or one with no future occurrence.
    BadRequest(String),
    /// A referenced script, schedule or job does not exist.
    NotFound(String),
    /// A semantic error while pushing a job (arguments that are not a mapping).
    ExecutionErr(String),
    /// A constraint of the store was violated (a schedule that already exists).
    StoreErr(String),
    /// An instant outside the range that the calendar arithmetic supports.
    Internal(String),
}

} // verus!
