use bullrs::job::{Job, JobOptions, JobPriority};
use bullrs::queue::{
    add_job_script_args, count_queries, job_id_for, job_key, pause_command, queue_key, state_after_pause,
    QueueOptions, QueueState,
};
use serde_json::Value;

#[test]
fn queue_options_defaults() {
    let o = QueueOptions::default();
    assert_eq!(o.redis_url, "redis://127.0.0.1:6379");
    assert_eq!(o.prefix, "bull");
    assert_eq!(o.concurrency, 1);
    assert_eq!(o.stalledInterval, 30000);
    assert_eq!(o.maxStalledCount, 1);
    assert!(!o.disableProgressEvents);
    assert!(o.enableRedisCommands);
    assert!(o.redis_client.is_none());
}

#[test]
fn add_job_arguments() {
    let options = JobOptions { priority: Some(JobPriority::High), delay: Some(5), ..Default::default() };
    let job = Job::new_at("j1".to_string(), "q".to_string(), "n".to_string(), Value::Null, Some(options), 100);
    let args = add_job_script_args("q", &job, "{}".to_string());
    let expected: Vec<String> =
        ["q:", "q:job:j1", "q:wait", "q:paused", "q:meta-paused", "q:delayed", "j1", "{}", "2", "105", "0"]
            .iter()
            .map(|s| s.to_string())
            .collect();
    assert_eq!(args, expected);
    let job = Job::new_at("j2".to_string(), "q".to_string(), "n".to_string(), Value::Null, None, 7);
    assert_eq!(add_job_script_args("q", &job, "d".to_string())[8], "3");
}

#[test]
fn job_ids() {
    let options = Some(JobOptions { job_id: Some("mine".to_string()), ..Default::default() });
    assert_eq!(job_id_for(&options), "mine");
    let a = job_id_for(&None);
    let b = job_id_for(&Some(JobOptions::default()));
    assert_eq!(a.len(), 36);
    assert_eq!(b.len(), 36);
    assert_ne!(a, b);
    for id in [a, b] {
        let c: Vec<char> = id.chars().collect();
        for (i, ch) in c.iter().enumerate() {
            if i == 8 || i == 13 || i == 18 || i == 23 {
                assert_eq!(*ch, '-');
            } else {
                assert!(ch.is_ascii_digit() || ('a'..='f').contains(ch));
            }
        }
        assert_eq!(c[14], '4');
        assert!(['8', '9', 'a', 'b'].contains(&c[19]));
    }
}

#[test]
fn keys_and_counts() {
    assert_eq!(queue_key("q", "wait"), "q:wait");
    assert_eq!(job_key("q", "7"), "q:job:7");
    let queries = count_queries("q");
    assert_eq!(queries.len(), 5);
    assert_eq!(queries[0], ("waiting".to_string(), "LLEN".to_string(), "q:wait".to_string()));
    assert_eq!(queries[4], ("delayed".to_string(), "ZCARD".to_string(), "q:delayed".to_string()));
}

#[test]
fn pause_and_resume() {
    assert_eq!(pause_command("q", true), ("q:meta-paused".to_string(), "true".to_string()));
    assert_eq!(pause_command("q", false), ("q:meta-paused".to_string(), "false".to_string()));
    assert_eq!(state_after_pause(true), QueueState::Paused);
    assert_eq!(state_after_pause(false), QueueState::Ready);
}
