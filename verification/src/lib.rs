//! Verified core of a Redis-backed job queue: job lifecycle, retry backoff,
//! repeat schedules, script path resolution and include handling, and the
//! decisions that the queue, its workers and its process pool take.
#![allow(non_snake_case)]

pub mod errors;
mod clock;
pub mod text;
pub mod utils;
pub mod commands;
pub mod mock;

pub mod job;
pub mod queue;
pub mod worker;
pub mod process;
pub mod backoff;
pub mod repeatable;
pub mod cron;

pub use commands::script_loader::ScriptLoader;
pub use errors::BullRsError;
pub use job::{Job, JobOptions, JobPriority, JobState};
pub use queue::{QueueOptions, QueueState};
pub use backoff::{BackoffOptions, BackoffStrategy};
pub use repeatable::{RepeatOptions, RepeatPattern};
