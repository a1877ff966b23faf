use vstd::prelude::*;

use crate::backoff::{calculate_backoff, capped_backoff_delay, BackoffOptions, BackoffStrategy, MAX_BACKOFF_DELAY};
use crate::job::{completed, failed, failure_trace, retryable, Job, JobOptions};
use crate::queue::{job_key, key_of, queue_key, texts};
use crate::text::{decimal, decimal_string};

verus! {

/// Whether a worker runs, and what starting or stopping it must do.
pub struct WorkerLifecycle {
    running: bool,
}

impl WorkerLifecycle {
    pub closed spec fn is_running(&self) -> bool {
        self.running
    }

    /// A worker that has not started.
    pub fn new() -> (w: Self)
        ensures
            !w.is_running(),
    {
        WorkerLifecycle { running: false }
    }

    /// Whether the worker runs.
    pub fn running(&self) -> (b: bool)
        ensures
            b == self.is_running(),
    {
        self.running
    }

    /// Starts the worker; answers whether its processing tasks must be
    /// spawned, which is only when it was not running.
    pub fn start(&mut self) -> (spawn: bool)
        ensures
            final(self).is_running(),
            spawn == !old(self).is_running(),
    {
        if self.running {
            return false;
        }
        self.running = true;
        true
    }

    /// Stops the worker; answers whether a stop signal must be sent, which is
    /// only when it was running.
    pub fn stop(&mut self) -> (signal: bool)
        ensures
            !final(self).is_running(),
            signal == old(self).is_running(),
    {
        if !self.running {
            return false;
        }
        self.running = false;
        true
    }
}

/// What an attempt to fetch the next job gave.
#[derive(Debug, Clone, Copy, PartialEq, Eq, Structural)]
pub enum FetchOutcome {
    /// A job was fetched
    Job,
    /// The queue had no job
    Empty,
    /// Fetching failed
    Failed,
}

/// How long a processing task waits before fetching again, in milliseconds:
/// not at all after a job, 500 after an empty queue, 1000 after a failure.
pub fn pause_after(outcome: FetchOutcome) -> (ms: Option<u64>)
    ensures
        ms == match outcome {
            FetchOutcome::Job => None,
            FetchOutcome::Empty => Some(500u64),
            FetchOutcome::Failed => Some(1000u64),
        },
{
    match outcome {
        FetchOutcome::Job => None,
        FetchOutcome::Empty => Some(500),
        FetchOutcome::Failed => Some(1000),
    }
}

/// The keys of the move-to-active script: the queue's wait, active and paused lists.
pub fn move_to_active_keys(queue_name: &str) -> (keys: Vec<String>)
    ensures
        texts(keys@) == seq![
            key_of(queue_name@, "wait"@),
            key_of(queue_name@, "active"@),
            key_of(queue_name@, "paused"@),
        ],
{
    let mut keys: Vec<String> = Vec::new();
    keys.push(queue_key(queue_name, "wait"));
    keys.push(queue_key(queue_name, "active"));
    keys.push(queue_key(queue_name, "paused"));
    assert(texts(keys@) =~= seq![
        key_of(queue_name@, "wait"@),
        key_of(queue_name@, "active"@),
        key_of(queue_name@, "paused"@),
    ]);
    keys
}

/// The backoff a failed job is retried with: its own, exponential when its
/// strategy is named `exponential` and otherwise a constant delay; one second
/// when the job has none.
pub open spec fn retry_backoff(options: JobOptions) -> BackoffOptions {
    match options.backoff {
        Some(b) => BackoffOptions {
            strategy: if b.strategy_type@ == "exponential"@ {
                BackoffStrategy::Exponential
            } else {
                BackoffStrategy::Fixed
            },
            delay: b.delay,
        },
        None => BackoffOptions { strategy: BackoffStrategy::Fixed, delay: 1000 },
    }
}

/// The delay before a failed job that has made `attempts` attempts is
/// retried: for an exponential backoff its delay for that attempt, capped at
/// `MAX_BACKOFF_DELAY`; otherwise the backoff's delay as it is (one second
/// when the job has none).
pub open spec fn retry_delay(options: JobOptions, attempts: nat) -> int {
    if retry_backoff(options).strategy is Exponential {
        capped_backoff_delay(retry_backoff(options), attempts)
    } else {
        retry_backoff(options).delay as int
    }
}

/// The delay before a failed job that has made `attempts` attempts is retried.
pub fn retry_delay_ms(options: &JobOptions, attempts: u32) -> (ms: u64)
    ensures
        ms == retry_delay(*options, attempts as nat),
{
    let backoff = retry_backoff_options(options);
    match backoff.strategy {
        BackoffStrategy::Exponential => {
            let d = calculate_backoff(&backoff, attempts);
            if d < MAX_BACKOFF_DELAY {
                d
            } else {
                MAX_BACKOFF_DELAY
            }
        },
        _ => backoff.delay,
    }
}

/// The backoff options a failed job is retried with.
pub fn retry_backoff_options(options: &JobOptions) -> (b: BackoffOptions)
    ensures
        b == retry_backoff(*options),
{
    match &options.backoff {
        Some(backoff) => {
            let exponential = backoff.strategy_type == "exponential".to_owned();
            BackoffOptions {
                strategy: if exponential {
                    BackoffStrategy::Exponential
                } else {
                    BackoffStrategy::Fixed
                },
                delay: backoff.delay,
            }
        },
        None => BackoffOptions { strategy: BackoffStrategy::Fixed, delay: 1000 },
    }
}

/// The list a finished job moves to.
#[derive(Debug, Clone, Copy, PartialEq, Eq, Structural)]
pub enum FinishStatus {
    Completed,
    Failed,
}

/// What to do once a job has been processed.
#[derive(Debug, Clone, Copy)]
pub struct CompletionPlan {
    /// The list the job moves to
    pub status: FinishStatus,
    /// Whether the job is removed once finished
    pub remove: bool,
    /// When the job is retried, if it is
    pub retry_at: Option<u64>,
}

/// Settles a processed job at time `now`: a result completes it, an error
/// fails it with the error as its trace; a failed job that can be retried is
/// scheduled again after its retry delay for the attempts it has made.
pub fn plan_completion(job: &mut Job, result: Result<serde_json::Value, String>, now: u64) -> (plan: CompletionPlan)
    requires
        result is Err && old(job).attempts_made < old(job).max_attempts ==> now + retry_delay(
            old(job).options,
            old(job).attempts_made as nat,
        ) <= u64::MAX,
    ensures
        match result {
            Ok(v) => {
                &&& *final(job) == completed(*old(job), Some(v), now)
                &&& plan.status == FinishStatus::Completed
                &&& plan.remove == old(job).options.remove_on_complete.unwrap_or(false)
                &&& plan.retry_at is None
            },
            Err(e) => {
                &&& final(job).stack_trace is Some
                &&& *final(job) == failed(*old(job), final(job).stack_trace->0, now)
                &&& final(job).stack_trace->0@ == e@
                &&& plan.status == FinishStatus::Failed
                &&& plan.remove == old(job).options.remove_on_fail.unwrap_or(false)
                &&& plan.retry_at == if retryable(*final(job)) {
                    Some((now + retry_delay(old(job).options, old(job).attempts_made as nat)) as u64)
                } else {
                    None
                }
            },
        },
{
    match result {
        Ok(v) => {
            job.mark_as_completed_at(Some(v), now);
            let remove = match job.options.remove_on_complete {
                Some(r) => r,
                None => false,
            };
            CompletionPlan { status: FinishStatus::Completed, remove, retry_at: None }
        },
        Err(e) => {
            job.mark_as_failed_at(e.as_str(), None, now);
            let remove = match job.options.remove_on_fail {
                Some(r) => r,
                None => false,
            };
            let retry_at = if job.can_retry() {
                let delay = retry_delay_ms(&job.options, job.attempts_made);
                Some(now + delay)
            } else {
                None
            };
            CompletionPlan { status: FinishStatus::Failed, remove, retry_at }
        },
    }
}

/// The text of a finish status: `completed` or `failed`.
pub open spec fn status_text(status: FinishStatus) -> Seq<char> {
    match status {
        FinishStatus::Completed => "completed"@,
        FinishStatus::Failed => "failed"@,
    }
}

/// The text of a flag: `true` or `false`.
pub open spec fn flag_text(b: bool) -> Seq<char> {
    if b {
        "true"@
    } else {
        "false"@
    }
}

/// The arguments of the move-to-finished script: five keys (prefix, active,
/// completed, failed, stalled), then the job id, its data, the status and
/// the removal flag.
pub fn finish_script_args(queue_name: &str, job_id: &str, job_data: String, plan: &CompletionPlan) -> (args: Vec<String>)
    ensures
        texts(args@) == seq![
            key_of(queue_name@, Seq::empty()),
            key_of(queue_name@, "active"@),
            key_of(queue_name@, "completed"@),
            key_of(queue_name@, "failed"@),
            key_of(queue_name@, "stalled"@),
            job_id@,
            job_data@,
            status_text(plan.status),
            flag_text(plan.remove),
        ],
{
    let mut args: Vec<String> = Vec::new();
    args.push(queue_key(queue_name, ""));
    args.push(queue_key(queue_name, "active"));
    args.push(queue_key(queue_name, "completed"));
    args.push(queue_key(queue_name, "failed"));
    args.push(queue_key(queue_name, "stalled"));
    args.push(job_id.to_owned());
    args.push(job_data);
    args.push(
        match plan.status {
            FinishStatus::Completed => "completed".to_owned(),
            FinishStatus::Failed => "failed".to_owned(),
        },
    );
    args.push(
        if plan.remove {
            "true".to_owned()
        } else {
            "false".to_owned()
        },
    );
    proof {
        assert(""@ == Seq::<char>::empty()) by {
            reveal_strlit("");
        }
        assert(texts(args@) =~= seq![
            key_of(queue_name@, Seq::empty()),
            key_of(queue_name@, "active"@),
            key_of(queue_name@, "completed"@),
            key_of(queue_name@, "failed"@),
            key_of(queue_name@, "stalled"@),
            job_id@,
            job_data@,
            status_text(plan.status),
            flag_text(plan.remove),
        ]);
    }
    args
}

/// The arguments of the retry script: the failed, wait and delayed keys,
/// then the job id and the retry time.
pub fn retry_script_args(queue_name: &str, job_id: &str, retry_at: u64) -> (args: Vec<String>)
    ensures
        texts(args@) == seq![
            key_of(queue_name@, "failed"@),
            key_of(queue_name@, "wait"@),
            key_of(queue_name@, "delayed"@),
            job_id@,
            decimal(retry_at as nat),
        ],
{
    let mut args: Vec<String> = Vec::new();
    args.push(queue_key(queue_name, "failed"));
    args.push(queue_key(queue_name, "wait"));
    args.push(queue_key(queue_name, "delayed"));
    args.push(job_id.to_owned());
    args.push(decimal_string(retry_at));
    assert(texts(args@) =~= seq![
        key_of(queue_name@, "failed"@),
        key_of(queue_name@, "wait"@),
        key_of(queue_name@, "delayed"@),
        job_id@,
        decimal(retry_at as nat),
    ]);
    args
}

} // verus!
