//! `pgqueue`: a Postgres-backed job queue.
//!
//! A job is enqueued, claimed by one worker, and then completed, or failed and retried after
//! a backoff until its attempts are used up. Recurring-job definitions turn into ordinary
//! jobs on a cron schedule. This library holds the rules of all that; the application around
//! it talks to the database and runs the handlers.
use vstd::prelude::*;

pub mod backoff;
pub mod calendar;
pub mod cron;
pub mod cron_error;
pub mod cron_field;
pub mod cron_laws;
pub mod dashboard;
pub mod definition_laws;
pub mod duration;
pub mod expression_laws;
pub mod job;
pub mod job_laws;
pub mod payload;
pub mod queue;
pub mod queue_laws;
pub mod recurring_laws;
pub mod report;
pub mod retry;
pub mod retry_laws;
pub mod scheduler;
pub mod steps;
pub mod tables;
pub mod text;
pub mod text_laws;
pub mod timestamp;
pub mod worker;

pub use cron::CronSchedule;
pub use duration::Duration;
pub use job::{Job, JobStatus, QueueStats, RecurringJob};
pub use queue::Queue;
pub use timestamp::Timestamp;
pub use worker::{HandlerRegistry, WorkerOptions};

verus! {

} // verus!
