use vstd::prelude::*;

use std::sync::Arc;

use crate::job::{priority_level, Job, JobOptions};
use crate::text::{decimal, decimal_string};

verus! {

#[verifier::external_type_specification]
#[verifier::external_body]
pub struct ExRedisClient(redis::Client);

/// Queue configuration options
#[derive(Debug, Clone)]
pub struct QueueOptions {
    /// Redis connection URL (default: "redis://127.0.0.1:6379")
    pub redis_url: String,
    /// Prefix for all queue keys (default: "bull")
    pub prefix: String,
    /// Optional Redis client to use instead of creating a new one
    pub redis_client: Option<Arc<redis::Client>>,
    /// Maximum number of jobs to process concurrently (default: 1)
    pub concurrency: usize,
    /// Maximum job staleness in milliseconds before marked as stalled (default: 30000)
    pub stalledInterval: u64,
    /// Maximum time to wait for a job to be processed in milliseconds (default: 0, no timeout)
    pub maxStalledCount: u32,
    /// Whether to disable tracking of job progress events (default: false)
    pub disableProgressEvents: bool,
    /// Whether to automatically run Redis commands at specified interval (default: true)
    pub enableRedisCommands: bool,
}

impl Default for QueueOptions {
    fn default() -> (o: Self)
        ensures
            o.redis_url@ == "redis://127.0.0.1:6379"@,
            o.prefix@ == "bull"@,
            o.redis_client is None,
            o.concurrency == 1,
            o.stalledInterval == 30000,
            o.maxStalledCount == 1,
            !o.disableProgressEvents,
            o.enableRedisCommands,
    {
        QueueOptions {
            redis_url: "redis://127.0.0.1:6379".to_owned(),
            prefix: "bull".to_owned(),
            redis_client: None,
            concurrency: 1,
            stalledInterval: 30000,
            maxStalledCount: 1,
            disableProgressEvents: false,
            enableRedisCommands: true,
        }
    }
}

/// Queue state enumeration
#[derive(Debug, Clone, Copy, PartialEq, Eq, Structural)]
pub enum QueueState {
    Ready,
    Paused,
    Closed,
}

/// The key `<name>:<suffix>` of a queue's Redis structure.
pub open spec fn key_of(name: Seq<char>, suffix: Seq<char>) -> Seq<char> {
    name + ":"@ + suffix
}

/// The Redis key `<name>:<suffix>` of a queue's structure.
pub fn queue_key(name: &str, suffix: &str) -> (k: String)
    ensures
        k@ == key_of(name@, suffix@),
{
    let mut k = name.to_owned();
    k.append(":");
    k.append(suffix);
    k
}

/// The key under which a job's data is stored: `<queue>:job:<id>`.
pub open spec fn job_key_of(queue_name: Seq<char>, id: Seq<char>) -> Seq<char> {
    key_of(queue_name, "job:"@ + id)
}

/// The key under which a job's data is stored: `<queue>:job:<id>`.
pub fn job_key(queue_name: &str, id: &str) -> (k: String)
    ensures
        k@ == job_key_of(queue_name@, id@),
{
    let mut suffix = "job:".to_owned();
    suffix.append(id);
    queue_key(queue_name, suffix.as_str())
}

/// A lower-case hexadecimal digit.
pub open spec fn is_lower_hex(c: char) -> bool {
    ('0' <= c <= '9') || ('a' <= c <= 'f')
}

/// The hyphenated text of a version 4 (random) UUID: 36 characters, `-` at
/// positions 8, 13, 18 and 23, lower-case hex digits elsewhere, the version
/// digit `4` at position 14 and a variant digit `8`, `9`, `a` or `b` at 19.
pub open spec fn is_uuid_v4_text(s: Seq<char>) -> bool {
    &&& s.len() == 36
    &&& forall|i: int|
        0 <= i < 36 ==> if i == 8 || i == 13 || i == 18 || i == 23 {
            s[i] == '-'
        } else {
            is_lower_hex(#[trigger] s[i])
        }
    &&& s[14] == '4'
    &&& (s[19] == '8' || s[19] == '9' || s[19] == 'a' || s[19] == 'b')
}

/// A fresh random job id: `uuid::Uuid::new_v4` in its `Display` form. The
/// crate masks the random bits to version 4 and the RFC 4122 variant and
/// displays the hyphenated lower-case form; which digits come is left open.
#[verifier::external_body]
fn new_uuid_string() -> (s: String)
    ensures
        is_uuid_v4_text(s@),
{
    uuid::Uuid::new_v4().to_string()
}

/// The id a job added with `options` gets: the id the options ask for, or a
/// fresh random one.
pub fn job_id_for(options: &Option<JobOptions>) -> (id: String)
    ensures
        (options matches Some(o) && o.job_id is Some) ==> id@ == options->0.job_id->0@,
        !(options matches Some(o) && o.job_id is Some) ==> is_uuid_v4_text(id@),
{
    match options {
        Some(opts) => match &opts.job_id {
            Some(id) => id.clone(),
            None => new_uuid_string(),
        },
        None => new_uuid_string(),
    }
}

/// The text views of a list of strings.
pub open spec fn texts(v: Seq<String>) -> Seq<Seq<char>> {
    v.map_values(|x: String| x@)
}

/// The priority level a job is queued with: its own, or 3 (normal).
pub open spec fn queued_priority(options: JobOptions) -> nat {
    match options.priority {
        Some(p) => priority_level(p),
        None => 3,
    }
}

/// The arguments of the add-job script for `job` serialized as `job_data`:
/// six keys (prefix, job, wait, paused, meta-paused, delayed), then the job
/// id, its data, its priority level, its processing time and 0 attempts.
pub open spec fn add_job_args(queue_name: Seq<char>, job: Job, job_data: Seq<char>) -> Seq<Seq<char>> {
    seq![
        key_of(queue_name, Seq::empty()),
        job_key_of(queue_name, job.id@),
        key_of(queue_name, "wait"@),
        key_of(queue_name, "paused"@),
        key_of(queue_name, "meta-paused"@),
        key_of(queue_name, "delayed"@),
        job.id@,
        job_data,
        decimal(queued_priority(job.options)),
        decimal(job.process_at as nat),
        "0"@,
    ]
}

/// The arguments of the add-job script for `job` serialized as `job_data`.
pub fn add_job_script_args(queue_name: &str, job: &Job, job_data: String) -> (args: Vec<String>)
    ensures
        texts(args@) == add_job_args(queue_name@, *job, job_data@),
{
    let priority: u32 = match job.options.priority {
        Some(p) => p.value(),
        None => 3,
    };
    let mut args: Vec<String> = Vec::new();
    args.push(queue_key(queue_name, ""));
    args.push(job_key(queue_name, job.id.as_str()));
    args.push(queue_key(queue_name, "wait"));
    args.push(queue_key(queue_name, "paused"));
    args.push(queue_key(queue_name, "meta-paused"));
    args.push(queue_key(queue_name, "delayed"));
    args.push(job.id.clone());
    args.push(job_data);
    args.push(decimal_string(priority as u64));
    args.push(decimal_string(job.process_at));
    args.push("0".to_owned());
    proof {
        assert(""@ == Seq::<char>::empty()) by {
            reveal_strlit("");
        }
        assert(texts(args@) =~= add_job_args(queue_name@, *job, job_data@));
    }
    args
}

/// A count query of a queue: its label, the Redis command, the key counted.
pub open spec fn count_queries_of(queue_name: Seq<char>) -> Seq<(Seq<char>, Seq<char>, Seq<char>)> {
    seq![
        ("waiting"@, "LLEN"@, key_of(queue_name, "wait"@)),
        ("active"@, "LLEN"@, key_of(queue_name, "active"@)),
        ("completed"@, "LLEN"@, key_of(queue_name, "completed"@)),
        ("failed"@, "LLEN"@, key_of(queue_name, "failed"@)),
        ("delayed"@, "ZCARD"@, key_of(queue_name, "delayed"@)),
    ]
}

/// The queries behind a queue's counts, in order: (label, command, key).
pub fn count_queries(queue_name: &str) -> (q: Vec<(String, String, String)>)
    ensures
        q@.map_values(|t: (String, String, String)| (t.0@, t.1@, t.2@)) == count_queries_of(queue_name@),
{
    let mut q: Vec<(String, String, String)> = Vec::new();
    q.push(("waiting".to_owned(), "LLEN".to_owned(), queue_key(queue_name, "wait")));
    q.push(("active".to_owned(), "LLEN".to_owned(), queue_key(queue_name, "active")));
    q.push(("completed".to_owned(), "LLEN".to_owned(), queue_key(queue_name, "completed")));
    q.push(("failed".to_owned(), "LLEN".to_owned(), queue_key(queue_name, "failed")));
    q.push(("delayed".to_owned(), "ZCARD".to_owned(), queue_key(queue_name, "delayed")));
    proof {
        assert(q@.map_values(|t: (String, String, String)| (t.0@, t.1@, t.2@)) =~= count_queries_of(
            queue_name@,
        ));
    }
    q
}

/// The value the pause flag of a queue is set to for a state: `true` when paused.
pub open spec fn pause_flag(paused: bool) -> Seq<char> {
    if paused {
        "true"@
    } else {
        "false"@
    }
}

/// The key and value that pausing (`paused`) or resuming a queue writes:
/// the queue's `meta-paused` key, `true` or `false`.
pub fn pause_command(queue_name: &str, paused: bool) -> (kv: (String, String))
    ensures
        kv.0@ == key_of(queue_name@, "meta-paused"@),
        kv.1@ == pause_flag(paused),
{
    let value = if paused {
        "true".to_owned()
    } else {
        "false".to_owned()
    };
    (queue_key(queue_name, "meta-paused"), value)
}

/// The state a queue is in after pausing (`paused`) or resuming it.
pub fn state_after_pause(paused: bool) -> (s: QueueState)
    ensures
        s == (if paused {
            QueueState::Paused
        } else {
            QueueState::Ready
        }),
{
    if paused {
        QueueState::Paused
    } else {
        QueueState::Ready
    }
}

} // verus!
