use vstd::prelude::*;

use crate::clock::system_time_millis;

verus! {

#[verifier::external_type_specification]
#[verifier::external_body]
pub struct ExJsonValue(serde_json::Value);

/// `serde_json::Value::clone`, which the crate derives: the copy is the same value.
pub assume_specification[ <serde_json::Value as Clone>::clone ](v: &serde_json::Value) -> (res: serde_json::Value)
    ensures
        res == *v,
;

/// Job state enumeration
#[derive(Debug, Clone, Copy, PartialEq, Eq, Structural)]
pub enum JobState {
    Waiting,
    Active,
    Completed,
    Failed,
    Delayed,
    Paused,
    Stalled,
}

/// Job priority levels, from most urgent (`Critical`, 1) to least (`Lowest`, 5)
#[derive(Debug, Clone, Copy, PartialEq, Eq, Structural)]
pub enum JobPriority {
    Critical,
    High,
    Normal,
    Low,
    Lowest,
}

/// The numeric level of a priority: 1 for `Critical` up to 5 for `Lowest`.
pub open spec fn priority_level(p: JobPriority) -> nat {
    match p {
        JobPriority::Critical => 1,
        JobPriority::High => 2,
        JobPriority::Normal => 3,
        JobPriority::Low => 4,
        JobPriority::Lowest => 5,
    }
}

impl JobPriority {
    /// The numeric level of the priority (1 to 5).
    pub fn value(&self) -> (v: u32)
        ensures
            v == priority_level(*self),
    {
        match self {
            JobPriority::Critical => 1,
            JobPriority::High => 2,
            JobPriority::Normal => 3,
            JobPriority::Low => 4,
            JobPriority::Lowest => 5,
        }
    }
}

impl Default for JobPriority {
    fn default() -> (p: Self)
        ensures
            p == JobPriority::Normal,
    {
        JobPriority::Normal
    }
}

/// Backoff strategy for retrying failed jobs
#[derive(Debug, Clone)]
pub struct Backoff {
    /// Type of backoff strategy (e.g., "fixed", "exponential")
    pub strategy_type: String,
    /// Delay in milliseconds for the backoff
    pub delay: u64,
}

/// Job options for creating a new job
#[derive(Debug, Clone)]
pub struct JobOptions {
    /// Optional job priority
    pub priority: Option<JobPriority>,
    /// Optional delay in milliseconds
    pub delay: Option<u64>,
    /// Optional attempts before job fails
    pub attempts: Option<u32>,
    /// Optional backoff strategy
    pub backoff: Option<Backoff>,
    /// Optional time to live in milliseconds
    pub ttl: Option<u64>,
    /// Optional remove on complete
    pub remove_on_complete: Option<bool>,
    /// Optional remove on fail
    pub remove_on_fail: Option<bool>,
    /// Optional job ID to use
    pub job_id: Option<String>,
    /// Optional timestamp to use
    pub timestamp: Option<u64>,
    /// Optional repeat key for repeatable jobs
    pub repeat_key: Option<String>,
}

/// The options with every field unset.
pub open spec fn no_options() -> JobOptions {
    JobOptions {
        priority: None,
        delay: None,
        attempts: None,
        backoff: None,
        ttl: None,
        remove_on_complete: None,
        remove_on_fail: None,
        job_id: None,
        timestamp: None,
        repeat_key: None,
    }
}

impl Default for JobOptions {
    fn default() -> (o: Self)
        ensures
            o == no_options(),
    {
        JobOptions {
            priority: None,
            delay: None,
            attempts: None,
            backoff: None,
            ttl: None,
            remove_on_complete: None,
            remove_on_fail: None,
            job_id: None,
            timestamp: None,
            repeat_key: None,
        }
    }
}

/// Job structure representing a task in the queue. Progress reporting, which
/// carries a floating-point percentage, is kept by the application layer.
#[derive(Debug, Clone)]
pub struct Job {
    /// Unique job ID
    pub id: String,
    /// Queue name this job belongs to
    pub queue_name: String,
    /// Job name
    pub name: String,
    /// Job data
    pub data: serde_json::Value,
    /// Job options
    pub options: JobOptions,
    /// Current state of the job
    pub state: JobState,
    /// Number of attempts performed
    pub attempts_made: u32,
    /// Maximum number of attempts
    pub max_attempts: u32,
    /// Optional stack trace if the job failed
    pub stack_trace: Option<String>,
    /// Optional result data if the job completed
    pub return_value: Option<serde_json::Value>,
    /// Job creation timestamp in milliseconds since epoch
    pub created_at: u64,
    /// Job process start timestamp in milliseconds since epoch
    pub started_at: Option<u64>,
    /// Job finish timestamp in milliseconds since epoch
    pub finished_at: Option<u64>,
    /// Job process timestamp in milliseconds since epoch
    pub process_at: u64,
    /// Optional promotion timestamp in milliseconds since epoch
    pub promoted_at: Option<u64>,
}

/// The time a job created at `now` becomes processable: `now` plus its delay.
pub open spec fn process_time(options: JobOptions, now: nat) -> nat {
    (now + options.delay.unwrap_or(0)) as nat
}

/// A fresh job created at time `now`.
pub open spec fn fresh_job(
    id: String,
    queue_name: String,
    name: String,
    data: serde_json::Value,
    options: JobOptions,
    now: u64,
    process_at: u64,
) -> Job {
    Job {
        id,
        queue_name,
        name,
        data,
        options,
        state: JobState::Waiting,
        attempts_made: 0,
        max_attempts: options.attempts.unwrap_or(1),
        stack_trace: None,
        return_value: None,
        created_at: now,
        started_at: None,
        finished_at: None,
        process_at,
        promoted_at: None,
    }
}

/// `job` after being picked up at time `now`.
pub open spec fn activated(job: Job, now: u64) -> Job {
    Job {
        state: JobState::Active,
        started_at: Some(now),
        attempts_made: (job.attempts_made + 1) as u32,
        ..job
    }
}

/// `job` after completing at time `now` with `return_value`.
pub open spec fn completed(job: Job, return_value: Option<serde_json::Value>, now: u64) -> Job {
    Job { state: JobState::Completed, return_value, finished_at: Some(now), ..job }
}

/// `job` after failing at time `now` and recording `stack_trace`.
pub open spec fn failed(job: Job, stack_trace: String, now: u64) -> Job {
    Job { state: JobState::Failed, stack_trace: Some(stack_trace), finished_at: Some(now), ..job }
}

/// The trace recorded for a failure: the given trace, or else the error text.
pub open spec fn failure_trace(err: Seq<char>, stack_trace: Option<String>) -> Seq<char> {
    match stack_trace {
        Some(t) => t@,
        None => err,
    }
}

/// Whether a job may be attempted again.
pub open spec fn retryable(job: Job) -> bool {
    job.state == JobState::Failed && job.attempts_made < job.max_attempts
}

/// Reads the clock for a job timestamp; a clock set before the epoch reads as 0.
fn job_clock() -> u64 {
    match system_time_millis() {
        Ok(now) => now,
        Err(_) => 0,
    }
}

impl Job {
    /// Create a new job at time `now`.
    pub fn new_at(
        id: String,
        queue_name: String,
        name: String,
        data: serde_json::Value,
        opts: Option<JobOptions>,
        now: u64,
    ) -> (job: Self)
        requires
            process_time(opts.unwrap_or(no_options()), now as nat) <= u64::MAX,
        ensures
            job == fresh_job(
                id,
                queue_name,
                name,
                data,
                opts.unwrap_or(no_options()),
                now,
                process_time(opts.unwrap_or(no_options()), now as nat) as u64,
            ),
    {
        let opts = match opts {
            Some(o) => o,
            None => JobOptions::default(),
        };
        let max_attempts = match opts.attempts {
            Some(a) => a,
            None => 1,
        };
        let delay = match opts.delay {
            Some(d) => d,
            None => 0,
        };
        let process_at = if delay > 0 {
            now + delay
        } else {
            now
        };
        Job {
            id,
            queue_name,
            name,
            data,
            options: opts,
            state: JobState::Waiting,
            attempts_made: 0,
            max_attempts,
            stack_trace: None,
            return_value: None,
            created_at: now,
            started_at: None,
            finished_at: None,
            process_at,
            promoted_at: None,
        }
    }

    /// Create a new job at the current time. A processing time beyond the
    /// largest `u64` is clamped to it.
    pub fn new(
        id: String,
        queue_name: String,
        name: String,
        data: serde_json::Value,
        opts: Option<JobOptions>,
    ) -> (job: Self)
        ensures
            job == fresh_job(
                id,
                queue_name,
                name,
                data,
                opts.unwrap_or(no_options()),
                job.created_at,
                job.process_at,
            ),
            job.process_at >= job.created_at,
            process_time(opts.unwrap_or(no_options()), job.created_at as nat) <= u64::MAX
                ==> job.process_at == process_time(
                opts.unwrap_or(no_options()),
                job.created_at as nat,
            ),
    {
        let now = job_clock();
        let delay = match &opts {
            Some(o) => match o.delay {
                Some(d) => d,
                None => 0,
            },
            None => 0,
        };
        if delay > u64::MAX - now {
            let mut job = Job::new_at(id, queue_name, name, data, Some(JobOptions::default()), now);
            let opts = match opts {
                Some(o) => o,
                None => JobOptions::default(),
            };
            job.max_attempts = match opts.attempts {
                Some(a) => a,
                None => 1,
            };
            job.options = opts;
            job.process_at = u64::MAX;
            job
        } else {
            Job::new_at(id, queue_name, name, data, opts, now)
        }
    }

    /// Mark the job as active at time `now`
    pub fn mark_as_active_at(&mut self, now: u64)
        requires
            old(self).attempts_made < u32::MAX,
        ensures
            *final(self) == activated(*old(self), now),
    {
        self.state = JobState::Active;
        self.started_at = Some(now);
        self.attempts_made = self.attempts_made + 1;
    }

    /// Mark the job as active
    pub fn mark_as_active(&mut self)
        requires
            old(self).attempts_made < u32::MAX,
        ensures
            final(self).started_at is Some,
            *final(self) == activated(*old(self), final(self).started_at->0),
    {
        let now = job_clock();
        self.mark_as_active_at(now);
    }

    /// Mark the job as completed at time `now`
    pub fn mark_as_completed_at(&mut self, return_value: Option<serde_json::Value>, now: u64)
        ensures
            *final(self) == completed(*old(self), return_value, now),
    {
        self.state = JobState::Completed;
        self.return_value = return_value;
        self.finished_at = Some(now);
    }

    /// Mark the job as completed
    pub fn mark_as_completed(&mut self, return_value: Option<serde_json::Value>)
        ensures
            final(self).finished_at is Some,
            *final(self) == completed(*old(self), return_value, final(self).finished_at->0),
    {
        let now = job_clock();
        self.mark_as_completed_at(return_value, now);
    }

    /// Mark the job as failed at time `now`
    pub fn mark_as_failed_at(&mut self, err: &str, stack_trace: Option<String>, now: u64)
        ensures
            final(self).stack_trace is Some,
            *final(self) == failed(*old(self), final(self).stack_trace->0, now),
            final(self).stack_trace->0@ == failure_trace(err@, stack_trace),
    {
        let trace = match stack_trace {
            Some(t) => t,
            None => err.to_owned(),
        };
        self.state = JobState::Failed;
        self.stack_trace = Some(trace);
        self.finished_at = Some(now);
    }

    /// Mark the job as failed
    pub fn mark_as_failed(&mut self, err: &str, stack_trace: Option<String>)
        ensures
            final(self).stack_trace is Some,
            final(self).finished_at is Some,
            *final(self) == failed(
                *old(self),
                final(self).stack_trace->0,
                final(self).finished_at->0,
            ),
            final(self).stack_trace->0@ == failure_trace(err@, stack_trace),
    {
        let now = job_clock();
        self.mark_as_failed_at(err, stack_trace, now);
    }

    /// Check if the job can be retried: it failed and has attempts left.
    pub fn can_retry(&self) -> (b: bool)
        ensures
            b == retryable(*self),
    {
        self.state == JobState::Failed && self.attempts_made < self.max_attempts
    }
}

/// `job` after `n` attempts that each start at `start` and fail at `end`
/// recording `trace`.
pub open spec fn failing_attempts(job: Job, n: nat, start: u64, trace: String, end: u64) -> Job
    decreases n,
{
    if n == 0 {
        job
    } else {
        failed(activated(failing_attempts(job, (n - 1) as nat, start, trace, end), start), trace, end)
    }
}

/// A job fresh from creation is waiting, has made no attempt, and cannot be retried.
pub proof fn law_new_job_is_waiting(
    id: String,
    queue_name: String,
    name: String,
    data: serde_json::Value,
    options: JobOptions,
    now: u64,
    process_at: u64,
)
    ensures
        fresh_job(id, queue_name, name, data, options, now, process_at).state == JobState::Waiting,
        fresh_job(id, queue_name, name, data, options, now, process_at).attempts_made == 0,
        !retryable(fresh_job(id, queue_name, name, data, options, now, process_at)),
{
}

/// Each failing attempt adds one to the attempts made; after `n >= 1` of them
/// the job can be retried exactly when fewer than `max_attempts` attempts were made.
pub proof fn law_failed_attempts_exhaust_retries(job: Job, n: nat, start: u64, trace: String, end: u64)
    requires
        job.attempts_made + n <= u32::MAX,
    ensures
        failing_attempts(job, n, start, trace, end).attempts_made == job.attempts_made + n,
        failing_attempts(job, n, start, trace, end).max_attempts == job.max_attempts,
        n >= 1 ==> (retryable(failing_attempts(job, n, start, trace, end)) <==> job.attempts_made + n
            < job.max_attempts),
    decreases n,
{
    if n > 0 {
        law_failed_attempts_exhaust_retries(job, (n - 1) as nat, start, trace, end);
    }
}

/// A completed job is never retried, whatever its attempt count.
pub proof fn law_completed_job_not_retryable(job: Job, return_value: Option<serde_json::Value>, now: u64)
    ensures
        !retryable(completed(job, return_value, now)),
{
}

} // verus!
