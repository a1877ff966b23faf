use vstd::prelude::*;

use crate::clock::system_time_millis;
use crate::cron::{cron_answer, next_cron_time};
use crate::errors::BullRsError;
use crate::text::{decimal, decimal_string};

verus! {

/// Represents the pattern for a repeatable job
#[derive(Debug, Clone)]
pub enum RepeatPattern {
    /// Every n milliseconds
    Every { milliseconds: u64 },
    /// Cron expression
    Cron { expression: String },
}

/// Text form of a pattern: `every:<milliseconds>` or `cron:<expression>`.
pub open spec fn pattern_text(p: RepeatPattern) -> Seq<char> {
    match p {
        RepeatPattern::Every { milliseconds } => "every:"@ + decimal(milliseconds as nat),
        RepeatPattern::Cron { expression } => "cron:"@ + expression@,
    }
}

impl RepeatPattern {
    /// Text form of the pattern, as used in repeat keys.
    pub fn to_string(&self) -> (s: String)
        ensures
            s@ == pattern_text(*self),
    {
        match self {
            RepeatPattern::Every { milliseconds } => {
                let mut s = "every:".to_owned();
                let digits = decimal_string(*milliseconds);
                s.append(digits.as_str());
                s
            },
            RepeatPattern::Cron { expression } => {
                let mut s = "cron:".to_owned();
                s.append(expression.as_str());
                s
            },
        }
    }

}

/// Options for a repeatable job
#[derive(Debug, Clone)]
pub struct RepeatOptions {
    /// The pattern for repeating the job
    pub pattern: RepeatPattern,
    /// Optional limit to the number of times the job is repeated
    pub limit: Option<u32>,
    /// Optional start time for the first repetition
    pub start_time: Option<u64>,
    /// Optional end time after which the job stops repeating
    pub end_time: Option<u64>,
}

impl Default for RepeatOptions {
    fn default() -> (o: Self)
        ensures
            o.pattern == (RepeatPattern::Every { milliseconds: 3600000 }),
            o.limit is None,
            o.start_time is None,
            o.end_time is None,
    {
        RepeatOptions {
            pattern: RepeatPattern::Every { milliseconds: 3600000 },
            limit: None,
            start_time: None,
            end_time: None,
        }
    }
}

/// Generate a unique key for a repeatable job based on its name and pattern
pub fn get_repeat_key(name: &str, pattern: &RepeatPattern) -> (key: String)
    ensures
        key@ == name@ + ":"@ + pattern_text(*pattern),
{
    let mut key = name.to_owned();
    key.append(":");
    let text = pattern.to_string();
    key.append(text.as_str());
    key
}

/// What the next run of a pattern is, after `prev_time` or, when there was no
/// previous run, after `now`: one interval later for `Every` (`SystemTimeError`
/// when, from `now`, that does not fit in a `u64`); the next matching minute
/// of the cron expression for `Cron`.
pub open spec fn next_time_outcome(pattern: RepeatPattern, prev_time: Option<u64>, now: u64, res: Result<u64, BullRsError>) -> bool {
    match pattern {
        RepeatPattern::Every { milliseconds } => match prev_time {
            Some(p) => res matches Ok(t) && t == p + milliseconds,
            None => if now + milliseconds <= u64::MAX {
                res matches Ok(t) && t == now + milliseconds
            } else {
                res matches Err(e) && e is SystemTimeError
            },
        },
        RepeatPattern::Cron { expression } => cron_answer(expression@, prev_time.unwrap_or(now) as nat, res),
    }
}

/// The next run of a pattern after `prev_time`, or after `now` when there was
/// no previous run: one interval later for `Every` (`SystemTimeError` when,
/// from `now`, that does not fit in a `u64`); the next minute the cron
/// expression matches for `Cron`.
pub fn next_time_from(pattern: &RepeatPattern, prev_time: Option<u64>, now: u64) -> (res: Result<u64, BullRsError>)
    requires
        pattern is Every && prev_time is Some ==> prev_time->0 + pattern->milliseconds <= u64::MAX,
    ensures
        next_time_outcome(*pattern, prev_time, now, res),
{
    match pattern {
        RepeatPattern::Every { milliseconds } => match prev_time {
            Some(prev) => Ok(prev + *milliseconds),
            None => {
                if now > u64::MAX - *milliseconds {
                    Err(BullRsError::SystemTimeError("timestamp out of range".to_string()))
                } else {
                    Ok(now + *milliseconds)
                }
            },
        },
        RepeatPattern::Cron { expression } => {
            let base = match prev_time {
                Some(prev) => prev,
                None => now,
            };
            next_cron_time(expression.as_str(), base)
        },
    }
}

/// Calculate the next time a job should run based on its pattern and the
/// current time (`next_time_from` at the time read). Fails with
/// `SystemTimeError` when the clock cannot be read.
pub fn get_next_time(pattern: &RepeatPattern, prev_time: Option<u64>) -> (res: Result<u64, BullRsError>)
    requires
        pattern is Every && prev_time is Some ==> prev_time->0 + pattern->milliseconds <= u64::MAX,
    ensures
        res is Ok ==> exists|now: u64| next_time_outcome(*pattern, prev_time, now, res),
        res matches Err(e) ==> (e is SystemTimeError || exists|now: u64| next_time_outcome(*pattern, prev_time, now, res)),
{
    match system_time_millis() {
        Err(msg) => Err(BullRsError::SystemTimeError(msg)),
        Ok(now) => next_time_from(pattern, prev_time, now),
    }
}

/// Whether a repeatable job is due for removal at time `now` after
/// `repeat_count` runs: its run limit is reached or its end time has passed.
pub open spec fn repeat_finished(options: RepeatOptions, repeat_count: nat, now: nat) -> bool {
    ||| (options.limit matches Some(limit) && repeat_count >= limit)
    ||| (options.end_time matches Some(end) && now >= end)
}

/// Whether a repeatable job should be removed at time `now`.
pub fn should_remove_at(options: &RepeatOptions, repeat_count: u32, now: u64) -> (b: bool)
    ensures
        b == repeat_finished(*options, repeat_count as nat, now as nat),
{
    if let Some(limit) = options.limit {
        if repeat_count >= limit {
            return true;
        }
    }
    if let Some(end_time) = options.end_time {
        if now >= end_time {
            return true;
        }
    }
    false
}

/// Check if a repeatable job should be removed based on its limit and end
/// time, at the current time. Fails with `SystemTimeError` when the clock
/// cannot be read.
pub fn should_remove_repeatable(options: &RepeatOptions, repeat_count: u32) -> (res: Result<bool, BullRsError>)
    ensures
        res matches Ok(b) ==> ((options.limit matches Some(limit) && repeat_count >= limit) ==> b),
        res matches Ok(b) ==> (options.end_time is None ==> (b <==> (options.limit matches Some(
            limit,
        ) && repeat_count >= limit))),
        res matches Err(e) ==> e is SystemTimeError,
{
    match system_time_millis() {
        Err(msg) => Err(BullRsError::SystemTimeError(msg)),
        Ok(now) => Ok(should_remove_at(options, repeat_count, now)),
    }
}

/// Once a repeatable job is due for removal it stays due: more runs or a
/// later time never bring it back.
pub proof fn law_removal_is_permanent(options: RepeatOptions, count: nat, now: nat, later_count: nat, later: nat)
    requires
        repeat_finished(options, count, now),
        count <= later_count,
        now <= later,
    ensures
        repeat_finished(options, later_count, later),
{
}

/// A job with neither a run limit nor an end time is never due for removal.
pub proof fn law_unbounded_repeat_never_finishes(options: RepeatOptions, count: nat, now: nat)
    requires
        options.limit is None,
        options.end_time is None,
    ensures
        !repeat_finished(options, count, now),
{
}

} // verus!
