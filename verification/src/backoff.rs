use vstd::prelude::*;
use vstd::arithmetic::power2::{pow2, lemma_pow2_unfold};

use crate::clock::system_time_millis;
use crate::errors::BullRsError;

verus! {

/// Backoff strategy types
#[derive(Debug, Clone, PartialEq, Eq)]
pub enum BackoffStrategy {
    Fixed,
    Exponential,
    Custom(String),
}

impl Default for BackoffStrategy {
    fn default() -> (s: Self)
        ensures
            s == BackoffStrategy::Fixed,
    {
        BackoffStrategy::Fixed
    }
}

/// Backoff options for job retries
#[derive(Debug, Clone)]
pub struct BackoffOptions {
    /// Type of backoff strategy
    pub strategy: BackoffStrategy,
    /// Delay in milliseconds
    pub delay: u64,
}

impl Default for BackoffOptions {
    fn default() -> (o: Self)
        ensures
            o.strategy == BackoffStrategy::Fixed,
            o.delay == 1000,
    {
        BackoffOptions { strategy: BackoffStrategy::default(), delay: 1000 }
    }
}

/// Maximum supported backoff delay (1 hour)
pub const MAX_BACKOFF_DELAY: u64 = 3600000;

/// `x` capped at the largest `u64`.
pub open spec fn saturate_u64(x: int) -> int {
    if x > u64::MAX {
        u64::MAX as int
    } else {
        x
    }
}

/// The delay before retry number `attempts`: the base delay for a fixed or
/// custom strategy; for the exponential one, `delay * 2^(attempts - 1)`
/// (the base delay when `attempts` is 0), capped at the largest `u64`.
pub open spec fn backoff_delay(options: BackoffOptions, attempts: nat) -> int {
    match options.strategy {
        BackoffStrategy::Exponential => {
            if attempts == 0 {
                options.delay as int
            } else {
                saturate_u64(options.delay * pow2((attempts - 1) as nat))
            }
        },
        _ => options.delay as int,
    }
}

/// The delay of `backoff_delay`, capped at `MAX_BACKOFF_DELAY`.
pub open spec fn capped_backoff_delay(options: BackoffOptions, attempts: nat) -> int {
    if backoff_delay(options, attempts) < MAX_BACKOFF_DELAY {
        backoff_delay(options, attempts)
    } else {
        MAX_BACKOFF_DELAY as int
    }
}

proof fn lemma_saturated_doubling(d: int, x: int)
    requires
        0 <= x,
        d == saturate_u64(x),
    ensures
        (if d > u64::MAX / 2 { u64::MAX as int } else { d * 2 }) == saturate_u64(2 * x),
{
}

/// Calculate backoff delay for a job retry
pub fn calculate_backoff(options: &BackoffOptions, attempts: u32) -> (delay: u64)
    ensures
        delay == backoff_delay(*options, attempts as nat),
{
    match options.strategy {
        BackoffStrategy::Fixed => options.delay,
        BackoffStrategy::Exponential => {
            let base_delay = options.delay;
            let mut delay = base_delay;
            if attempts == 0 {
                return delay;
            }
            let mut i: u32 = 1;
            proof {
                vstd::arithmetic::power2::lemma_pow2(0);
                vstd::arithmetic::power::lemma_pow0(2);
                assert(pow2(0) == 1);
                assert(base_delay * pow2(0) == base_delay);
            }
            while i < attempts
                invariant
                    1 <= i <= attempts,
                    delay == saturate_u64(base_delay * pow2((i - 1) as nat)),
                decreases attempts - i,
            {
                proof {
                    lemma_pow2_unfold(i as nat);
                    vstd::arithmetic::power2::lemma_pow2_pos((i - 1) as nat);
                    assert(base_delay * pow2(i as nat) == 2 * (base_delay * pow2((i - 1) as nat)))
                        by (nonlinear_arith)
                        requires
                            pow2(i as nat) == 2 * pow2((i - 1) as nat),
                    ;
                    lemma_saturated_doubling(delay as int, base_delay * pow2((i - 1) as nat));
                }
                delay = if delay > u64::MAX / 2 {
                    u64::MAX
                } else {
                    delay * 2
                };
                i = i + 1;
            }
            delay
        },
        BackoffStrategy::Custom(_) => options.delay,
    }
}

/// The retry timestamp for a job whose backoff starts at `now`: `now` plus
/// the computed delay capped at `MAX_BACKOFF_DELAY`.
pub fn backoff_timestamp_at(options: &BackoffOptions, attempts: u32, now: u64) -> (t: u64)
    requires
        now + capped_backoff_delay(*options, attempts as nat) <= u64::MAX,
    ensures
        t == now + capped_backoff_delay(*options, attempts as nat),
{
    let delay = calculate_backoff(options, attempts);
    let capped_delay = if delay < MAX_BACKOFF_DELAY {
        delay
    } else {
        MAX_BACKOFF_DELAY
    };
    now + capped_delay
}

/// The retry timestamp for a backoff that starts at `now`: `now` plus the
/// capped delay, or `SystemTimeError` when that sum does not fit in a `u64`.
pub fn backoff_timestamp_from(options: &BackoffOptions, attempts: u32, now: u64) -> (res: Result<u64, BullRsError>)
    ensures
        now + capped_backoff_delay(*options, attempts as nat) <= u64::MAX ==> (res matches Ok(t) && t == now
            + capped_backoff_delay(*options, attempts as nat)),
        now + capped_backoff_delay(*options, attempts as nat) > u64::MAX ==> (res matches Err(e)
            && e is SystemTimeError),
{
    let delay = calculate_backoff(options, attempts);
    let capped_delay = if delay < MAX_BACKOFF_DELAY {
        delay
    } else {
        MAX_BACKOFF_DELAY
    };
    if now > u64::MAX - capped_delay {
        Err(BullRsError::SystemTimeError("timestamp out of range".to_string()))
    } else {
        Ok(backoff_timestamp_at(options, attempts, now))
    }
}

/// Get a timestamp for when a job should be processed after backoff: the
/// current time plus the capped delay (`backoff_timestamp_from` at the time
/// read). Fails with `SystemTimeError` when the clock cannot be read or the
/// sum does not fit in a `u64`.
pub fn get_backoff_timestamp(options: &BackoffOptions, attempts: u32) -> (res: Result<u64, BullRsError>)
    ensures
        res matches Ok(t) ==> t >= capped_backoff_delay(*options, attempts as nat),
        res matches Err(e) ==> e is SystemTimeError,
{
    match system_time_millis() {
        Err(msg) => Err(BullRsError::SystemTimeError(msg)),
        Ok(now) => backoff_timestamp_from(options, attempts, now),
    }
}

/// A fixed (or custom) strategy waits the same base delay before every retry.
pub proof fn law_fixed_backoff_is_constant(options: BackoffOptions, a: nat, b: nat)
    requires
        !(options.strategy is Exponential),
    ensures
        backoff_delay(options, a) == backoff_delay(options, b),
        backoff_delay(options, a) == options.delay,
{
}

/// With the exponential strategy each further retry waits twice as long as
/// the one before (capped at the largest `u64`), so delays never shrink.
pub proof fn law_exponential_backoff_doubles(options: BackoffOptions, attempts: nat)
    requires
        options.strategy is Exponential,
        attempts >= 1,
    ensures
        backoff_delay(options, attempts + 1) == saturate_u64(2 * backoff_delay(options, attempts)),
        backoff_delay(options, attempts) <= backoff_delay(options, attempts + 1),
{
    let x = options.delay * pow2((attempts - 1) as nat);
    lemma_pow2_unfold(attempts);
    vstd::arithmetic::power2::lemma_pow2_pos((attempts - 1) as nat);
    assert(options.delay * pow2(attempts) == 2 * x) by (nonlinear_arith)
        requires
            pow2(attempts) == 2 * pow2((attempts - 1) as nat),
            x == options.delay * pow2((attempts - 1) as nat),
    ;
    assert(x >= 0) by (nonlinear_arith)
        requires
            x == options.delay * pow2((attempts - 1) as nat),
    ;
}

/// A retry is never scheduled more than `MAX_BACKOFF_DELAY` after its start,
/// and never later than the uncapped delay would put it.
pub proof fn law_backoff_delay_capped(options: BackoffOptions, attempts: nat)
    ensures
        0 <= capped_backoff_delay(options, attempts) <= MAX_BACKOFF_DELAY,
        capped_backoff_delay(options, attempts) <= backoff_delay(options, attempts),
{
    if options.strategy is Exponential && attempts > 0 {
        vstd::arithmetic::power2::lemma_pow2_pos((attempts - 1) as nat);
        assert(options.delay * pow2((attempts - 1) as nat) >= 0) by (nonlinear_arith)
            requires
                pow2((attempts - 1) as nat) > 0,
        ;
    }
}

} // verus!
