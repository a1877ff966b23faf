use bullrs::job::{Backoff, Job, JobOptions, JobState};
use bullrs::worker::{
    finish_script_args, move_to_active_keys, pause_after, plan_completion, retry_script_args, FetchOutcome,
    FinishStatus, WorkerLifecycle,
};
use serde_json::Value;

fn job_with(options: JobOptions) -> Job {
    Job::new_at("j".to_string(), "q".to_string(), "n".to_string(), Value::Null, Some(options), 0)
}

#[test]
fn worker_start_and_stop_are_idempotent() {
    let mut w = WorkerLifecycle::new();
    assert!(!w.running());
    assert!(w.start());
    assert!(!w.start());
    assert!(w.running());
    assert!(w.stop());
    assert!(!w.stop());
    assert!(!w.running());
}

#[test]
fn completion_of_successful_job() {
    let mut job = job_with(JobOptions { remove_on_complete: Some(true), ..Default::default() });
    job.mark_as_active_at(1);
    let plan = plan_completion(&mut job, Ok(Value::Bool(true)), 50);
    assert_eq!(plan.status, FinishStatus::Completed);
    assert!(plan.remove);
    assert_eq!(plan.retry_at, None);
    assert_eq!(job.state, JobState::Completed);
    assert_eq!(job.return_value, Some(Value::Bool(true)));
    assert_eq!(job.finished_at, Some(50));
}

#[test]
fn failed_job_is_retried_after_backoff_until_exhausted() {
    let backoff = Backoff { strategy_type: "fixed".to_string(), delay: 300 };
    let mut job = job_with(JobOptions { attempts: Some(2), backoff: Some(backoff), ..Default::default() });
    job.mark_as_active_at(1);
    let plan = plan_completion(&mut job, Err("boom".to_string()), 100);
    assert_eq!(plan.status, FinishStatus::Failed);
    assert!(!plan.remove);
    assert_eq!(plan.retry_at, Some(400));
    assert_eq!(job.stack_trace, Some("boom".to_string()));
    job.mark_as_active_at(500);
    let plan = plan_completion(&mut job, Err("again".to_string()), 600);
    assert_eq!(plan.retry_at, None);
    let mut job = job_with(JobOptions { attempts: Some(5), ..Default::default() });
    job.mark_as_active_at(1);
    assert_eq!(plan_completion(&mut job, Err("x".to_string()), 10).retry_at, Some(1010));
}

#[test]
fn worker_script_arguments() {
    let keys = move_to_active_keys("q");
    assert_eq!(keys, vec!["q:wait".to_string(), "q:active".to_string(), "q:paused".to_string()]);
    let mut job = job_with(JobOptions::default());
    let plan = plan_completion(&mut job, Err("e".to_string()), 3);
    let args = finish_script_args("q", "j", "data".to_string(), &plan);
    let expected: Vec<String> = ["q:", "q:active", "q:completed", "q:failed", "q:stalled", "j", "data", "failed", "false"]
        .iter()
        .map(|s| s.to_string())
        .collect();
    assert_eq!(args, expected);
    let retry = retry_script_args("q", "j", 1234);
    assert_eq!(retry[3], "j");
    assert_eq!(retry[4], "1234");
    assert_eq!(retry[0], "q:failed");
}

#[test]
fn idle_pauses() {
    assert_eq!(pause_after(FetchOutcome::Job), None);
    assert_eq!(pause_after(FetchOutcome::Empty), Some(500));
    assert_eq!(pause_after(FetchOutcome::Failed), Some(1000));
}

#[test]
fn exponential_backoff_doubles_retry_delays() {
    let backoff = Backoff { strategy_type: "exponential".to_string(), delay: 1000 };
    let mut job = job_with(JobOptions { attempts: Some(4), backoff: Some(backoff), ..Default::default() });
    job.mark_as_active_at(1);
    assert_eq!(plan_completion(&mut job, Err("a".to_string()), 0).retry_at, Some(1000));
    job.mark_as_active_at(1);
    assert_eq!(plan_completion(&mut job, Err("b".to_string()), 0).retry_at, Some(2000));
    job.mark_as_active_at(1);
    assert_eq!(plan_completion(&mut job, Err("c".to_string()), 0).retry_at, Some(4000));
    let big = Backoff { strategy_type: "exponential".to_string(), delay: 3_000_000 };
    let mut job = job_with(JobOptions { attempts: Some(4), backoff: Some(big), ..Default::default() });
    job.mark_as_active_at(1);
    job.mark_as_active_at(1);
    assert_eq!(plan_completion(&mut job, Err("d".to_string()), 5).retry_at, Some(3_600_005));
}

#[test]
fn fixed_backoff_is_not_capped() {
    let backoff = Backoff { strategy_type: "fixed".to_string(), delay: 3_600_001 };
    let mut job = job_with(JobOptions { attempts: Some(3), backoff: Some(backoff), ..Default::default() });
    job.mark_as_active_at(1);
    assert_eq!(plan_completion(&mut job, Err("x".to_string()), 10).retry_at, Some(3_600_011));
}
