use bullrs::job::{Backoff, Job, JobOptions, JobPriority, JobState};
use serde_json::Value;

fn foo_bar() -> Value {
    let mut map = serde_json::Map::new();
    map.insert("foo".to_string(), Value::String("bar".to_string()));
    Value::Object(map)
}

#[test]
fn test_job_creation() {
    let job = Job::new("test_id".to_string(), "test_queue".to_string(), "test_job".to_string(), foo_bar(), None);

    assert_eq!(job.id, "test_id");
    assert_eq!(job.queue_name, "test_queue");
    assert_eq!(job.name, "test_job");
    assert_eq!(job.data, foo_bar());
    assert_eq!(job.state, JobState::Waiting);
    assert_eq!(job.attempts_made, 0);
    assert_eq!(job.max_attempts, 1);
}

#[test]
fn test_job_state_transitions() {
    let mut job = Job::new("test_id".to_string(), "test_queue".to_string(), "test_job".to_string(), foo_bar(), None);

    job.mark_as_active();
    assert_eq!(job.state, JobState::Active);
    assert!(job.started_at.is_some());
    assert_eq!(job.attempts_made, 1);

    job.mark_as_completed(Some(Value::String("result".to_string())));
    assert_eq!(job.state, JobState::Completed);
    assert!(job.finished_at.is_some());
    assert_eq!(job.return_value, Some(Value::String("result".to_string())));

    let mut job = Job::new(
        "test_id".to_string(),
        "test_queue".to_string(),
        "test_job".to_string(),
        foo_bar(),
        Some(JobOptions { attempts: Some(3), ..Default::default() }),
    );

    job.mark_as_active();
    job.mark_as_failed("Test error", None);
    assert_eq!(job.state, JobState::Failed);
    assert!(job.finished_at.is_some());
    assert_eq!(job.stack_trace, Some("Test error".to_string()));
    assert!(job.can_retry());

    job.mark_as_active();
    job.mark_as_failed("Test error", None);
    job.mark_as_active();
    job.mark_as_failed("Test error", None);
    assert!(!job.can_retry());
}

#[test]
fn delayed_job_is_processed_after_its_delay() {
    let options = JobOptions { delay: Some(250), ..Default::default() };
    let job = Job::new_at("a".to_string(), "q".to_string(), "n".to_string(), Value::Null, Some(options), 1000);
    assert_eq!(job.created_at, 1000);
    assert_eq!(job.process_at, 1250);
    let job = Job::new_at("a".to_string(), "q".to_string(), "n".to_string(), Value::Null, None, 1000);
    assert_eq!(job.process_at, 1000);
}

#[test]
fn new_job_with_huge_delay_is_clamped() {
    let options = JobOptions { delay: Some(u64::MAX), attempts: Some(4), ..Default::default() };
    let job = Job::new("a".to_string(), "q".to_string(), "n".to_string(), Value::Null, Some(options));
    assert_eq!(job.process_at, u64::MAX);
    assert_eq!(job.max_attempts, 4);
    assert_eq!(job.options.delay, Some(u64::MAX));
}

#[test]
fn timed_transitions_record_their_times() {
    let mut job = Job::new_at("a".to_string(), "q".to_string(), "n".to_string(), Value::Null, None, 1);
    job.mark_as_active_at(10);
    assert_eq!(job.started_at, Some(10));
    job.mark_as_failed_at("boom", Some("trace".to_string()), 20);
    assert_eq!(job.finished_at, Some(20));
    assert_eq!(job.stack_trace, Some("trace".to_string()));
    assert!(!job.can_retry());
    job.mark_as_completed_at(None, 30);
    assert_eq!(job.state, JobState::Completed);
    assert_eq!(job.finished_at, Some(30));
}

#[test]
fn priority_levels() {
    assert_eq!(JobPriority::Critical.value(), 1);
    assert_eq!(JobPriority::High.value(), 2);
    assert_eq!(JobPriority::default().value(), 3);
    assert_eq!(JobPriority::Low.value(), 4);
    assert_eq!(JobPriority::Lowest.value(), 5);
}

#[test]
fn job_options_default_is_empty() {
    let o = JobOptions::default();
    assert!(o.priority.is_none() && o.delay.is_none() && o.attempts.is_none());
    assert!(o.backoff.is_none() && o.job_id.is_none() && o.repeat_key.is_none());
    let b = Backoff { strategy_type: "fixed".to_string(), delay: 10 };
    assert_eq!(b.delay, 10);
}
