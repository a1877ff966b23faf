use std::time::{SystemTime, UNIX_EPOCH};
use bullrs::errors::BullRsError;

use bullrs::backoff::{
    backoff_timestamp_at, backoff_timestamp_from, calculate_backoff, get_backoff_timestamp, BackoffOptions, BackoffStrategy,
    MAX_BACKOFF_DELAY,
};

#[test]
fn test_fixed_backoff() {
    let options = BackoffOptions { strategy: BackoffStrategy::Fixed, delay: 5000 };

    assert_eq!(calculate_backoff(&options, 1), 5000);
    assert_eq!(calculate_backoff(&options, 2), 5000);
    assert_eq!(calculate_backoff(&options, 3), 5000);
}

#[test]
fn test_exponential_backoff() {
    let options = BackoffOptions { strategy: BackoffStrategy::Exponential, delay: 1000 };

    assert_eq!(calculate_backoff(&options, 1), 1000);
    assert_eq!(calculate_backoff(&options, 2), 2000);
    assert_eq!(calculate_backoff(&options, 3), 4000);
    assert_eq!(calculate_backoff(&options, 4), 8000);
}

#[test]
fn test_backoff_timestamp() {
    let options = BackoffOptions { strategy: BackoffStrategy::Fixed, delay: 5000 };

    let timestamp = get_backoff_timestamp(&options, 1).unwrap();
    let now = SystemTime::now().duration_since(UNIX_EPOCH).unwrap().as_millis() as u64;

    assert!(timestamp > now);
    assert!(timestamp <= now + 5100);
}

#[test]
fn exponential_backoff_saturates_at_largest_delay() {
    let options = BackoffOptions { strategy: BackoffStrategy::Exponential, delay: u64::MAX / 2 + 1 };
    assert_eq!(calculate_backoff(&options, 1), u64::MAX / 2 + 1);
    assert_eq!(calculate_backoff(&options, 2), u64::MAX);
    assert_eq!(calculate_backoff(&options, 100), u64::MAX);
}

#[test]
fn exponential_backoff_with_zero_attempts_is_base_delay() {
    let options = BackoffOptions { strategy: BackoffStrategy::Exponential, delay: 700 };
    assert_eq!(calculate_backoff(&options, 0), 700);
}

#[test]
fn custom_backoff_behaves_as_fixed() {
    let options = BackoffOptions { strategy: BackoffStrategy::Custom("mine".to_string()), delay: 42 };
    assert_eq!(calculate_backoff(&options, 5), 42);
}

#[test]
fn backoff_timestamp_is_capped() {
    let options = BackoffOptions { strategy: BackoffStrategy::Exponential, delay: 1000 };
    assert_eq!(backoff_timestamp_at(&options, 3, 10), 4010);
    assert_eq!(backoff_timestamp_at(&options, 40, 10), 10 + MAX_BACKOFF_DELAY);
}

#[test]
fn default_backoff_options() {
    let options = BackoffOptions::default();
    assert_eq!(options.strategy, BackoffStrategy::Fixed);
    assert_eq!(options.delay, 1000);
}

#[test]
fn backoff_timestamp_from_fails_only_when_the_sum_overflows() {
    let fixed = BackoffOptions { strategy: BackoffStrategy::Fixed, delay: 5000 };
    assert_eq!(backoff_timestamp_from(&fixed, 1, 100).unwrap(), 5100);
    assert_eq!(backoff_timestamp_from(&fixed, 1, u64::MAX - 5000).unwrap(), u64::MAX);
    assert!(matches!(backoff_timestamp_from(&fixed, 1, u64::MAX - 4999), Err(BullRsError::SystemTimeError(_))));
    let exp = BackoffOptions { strategy: BackoffStrategy::Exponential, delay: 1000 };
    assert_eq!(backoff_timestamp_from(&exp, 3, 0).unwrap(), 4000);
    assert_eq!(backoff_timestamp_from(&exp, 40, 0).unwrap(), 3_600_000);
}
