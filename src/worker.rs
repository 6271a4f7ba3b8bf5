use vstd::prelude::*;

verus! {

/// Workers started when the configuration names no number.
pub const DEFAULT_NUM_WORKERS: usize = 3;

/// Seconds without a heartbeat after which a running job counts as a zombie, by default.
pub const DEFAULT_TIMEOUT: i32 = 300;

/// Milliseconds a worker sleeps after finding the queue empty, by default.
pub const DEFAULT_SLEEP_QUEUE: u64 = 50;

/// What happened last to a worker.
pub enum WorkerEvent {
    /// The worker has just started.
    Started,
    /// A claim attempt returned this job, or none.
    Pulled(Option<u64>),
    /// The sleep after an empty claim is over.
    Slept,
    /// The job finished executing, with this outcome.
    Executed { job_id: u64, success: bool },
    /// The job's outcome has been recorded.
    Completed,
}

/// What a worker does next.
#[derive(PartialEq, Eq, Structural, Debug)]
pub enum WorkerAction {
    Pull,
    Sleep(u64),
    Execute(u64),
    Complete { job_id: u64, success: bool },
    Exit,
}

/// A worker's decision after `event`: it claims jobs until shutdown is requested,
/// sleeps when the queue is empty, and never abandons a job it has claimed: a claimed
/// job is executed and then completed, shutdown or not.
pub fn worker_step(event: WorkerEvent, shutdown_requested: bool, sleep_queue_ms: u64) -> (r: WorkerAction)
    ensures
        match event {
            WorkerEvent::Started | WorkerEvent::Slept | WorkerEvent::Completed =>
                r == if shutdown_requested { WorkerAction::Exit } else { WorkerAction::Pull },
            WorkerEvent::Pulled(None) =>
                r == if shutdown_requested { WorkerAction::Exit } else { WorkerAction::Sleep(sleep_queue_ms) },
            WorkerEvent::Pulled(Some(id)) => r == WorkerAction::Execute(id),
            WorkerEvent::Executed { job_id, success } => r == (WorkerAction::Complete { job_id, success }),
        },
{
    match event {
        WorkerEvent::Started | WorkerEvent::Slept | WorkerEvent::Completed => {
            if shutdown_requested {
                WorkerAction::Exit
            } else {
                WorkerAction::Pull
            }
        },
        WorkerEvent::Pulled(None) => {
            if shutdown_requested {
                WorkerAction::Exit
            } else {
                WorkerAction::Sleep(sleep_queue_ms)
            }
        },
        WorkerEvent::Pulled(Some(id)) => WorkerAction::Execute(id),
        WorkerEvent::Executed { job_id, success } => WorkerAction::Complete { job_id, success },
    }
}

} // verus!
