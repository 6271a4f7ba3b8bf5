//! Job lifecycle core: a durable queue of jobs, the cron scheduler that feeds it,
//! and the decisions a worker makes while draining it.

pub mod error;
pub mod cron_time;
pub mod schedule;
pub mod job;
pub mod store;
pub mod scheduler;
pub mod zombie;
pub mod worker;
pub mod laws;
pub mod worker_ping;
