use std::time::{SystemTime, UNIX_EPOCH};

use bullrs::errors::BullRsError;
use bullrs::repeatable::{
    get_next_time, get_repeat_key, next_time_from, should_remove_at, should_remove_repeatable,
    RepeatOptions, RepeatPattern,
};

#[test]
fn test_repeat_pattern_display() {
    let every = RepeatPattern::Every { milliseconds: 5000 };
    assert_eq!(every.to_string(), "every:5000");

    let cron = RepeatPattern::Cron { expression: "* * * * *".to_string() };
    assert_eq!(cron.to_string(), "cron:* * * * *");
}

#[test]
fn test_get_repeat_key() {
    let pattern = RepeatPattern::Every { milliseconds: 5000 };
    let key = get_repeat_key("test-job", &pattern);
    assert_eq!(key, "test-job:every:5000");
}

#[test]
fn test_get_next_time() {
    let pattern = RepeatPattern::Every { milliseconds: 5000 };

    let prev_time = 1000000;
    let next_time = get_next_time(&pattern, Some(prev_time)).unwrap();
    assert_eq!(next_time, prev_time + 5000);

    let next_time = get_next_time(&pattern, None).unwrap();
    let now = SystemTime::now().duration_since(UNIX_EPOCH).unwrap().as_millis() as u64;

    assert!(next_time >= now + 5000);
    assert!(next_time <= now + 5500);
}

#[test]
fn test_should_remove_repeatable() {
    let options = RepeatOptions {
        pattern: RepeatPattern::Every { milliseconds: 5000 },
        limit: Some(10),
        start_time: None,
        end_time: None,
    };

    assert!(!should_remove_repeatable(&options, 9).unwrap());
    assert!(should_remove_repeatable(&options, 10).unwrap());

    let now = SystemTime::now().duration_since(UNIX_EPOCH).unwrap().as_millis() as u64;

    let options = RepeatOptions {
        pattern: RepeatPattern::Every { milliseconds: 5000 },
        limit: None,
        start_time: None,
        end_time: Some(now - 1000),
    };

    assert!(should_remove_repeatable(&options, 5).unwrap());

    let options = RepeatOptions {
        pattern: RepeatPattern::Every { milliseconds: 5000 },
        limit: Some(20),
        start_time: None,
        end_time: Some(now + 10000),
    };

    assert!(!should_remove_repeatable(&options, 5).unwrap());
}

#[test]
fn decimal_rendering_of_zero_and_large_intervals() {
    assert_eq!(RepeatPattern::Every { milliseconds: 0 }.to_string(), "every:0");
    assert_eq!(RepeatPattern::Every { milliseconds: u64::MAX }.to_string(), "every:18446744073709551615");
}

#[test]
fn cron_patterns_run_at_matching_minutes() {
    let cron = RepeatPattern::Cron { expression: "0 8 * * *".to_string() };
    assert_eq!(get_next_time(&cron, Some(0)).unwrap(), 28_800_000);
    assert_eq!(next_time_from(&cron, Some(28_800_000), 5).unwrap(), 28_800_000 + 86_400_000);
    assert_eq!(next_time_from(&cron, None, 0).unwrap(), 28_800_000);
    assert_eq!(get_repeat_key("daily", &cron), "daily:cron:0 8 * * *");
    // Every five minutes.
    let every5 = RepeatPattern::Cron { expression: "*/5 * * * *".to_string() };
    assert_eq!(next_time_from(&every5, Some(60_000), 0).unwrap(), 300_000);
    // 1972-02-29 is the first leap day after the epoch: day 789.
    let leap = RepeatPattern::Cron { expression: "30 12 29 2 *".to_string() };
    assert_eq!(next_time_from(&leap, Some(0), 0).unwrap(), (789 * 86_400 + 12 * 3600 + 1800) * 1000);
    // Mondays (1970-01-05 is the first Monday) at 00:00.
    let monday = RepeatPattern::Cron { expression: "0 0 * * 1".to_string() };
    assert_eq!(next_time_from(&monday, Some(0), 0).unwrap(), 4 * 86_400_000);
    // Day of month or day of week when both are restricted: the 10th or a Sunday.
    let either = RepeatPattern::Cron { expression: "0 0 10 * 0".to_string() };
    assert_eq!(next_time_from(&either, Some(0), 0).unwrap(), 3 * 86_400_000);
    // Lists and ranges.
    let list = RepeatPattern::Cron { expression: "15,45 9-10 * * *".to_string() };
    assert_eq!(next_time_from(&list, Some(0), 0).unwrap(), (9 * 3600 + 15 * 60) * 1000);
}

#[test]
fn malformed_or_impossible_cron_patterns() {
    for bad in ["", "* * * *", "60 * * * *", "* 24 * * *", "* * 0 * *", "a * * * *", "*/0 * * * *", "5-1 * * * *", "+5 * * * *", "1,,2 * * * *"] {
        let p = RepeatPattern::Cron { expression: bad.to_string() };
        assert!(matches!(next_time_from(&p, Some(0), 0), Err(BullRsError::InvalidArgument(_))), "{}", bad);
    }
    let never = RepeatPattern::Cron { expression: "0 0 30 2 *".to_string() };
    assert!(matches!(next_time_from(&never, Some(0), 0), Err(BullRsError::InvalidArgument(_))));
    let every = RepeatPattern::Every { milliseconds: 10 };
    assert!(matches!(next_time_from(&every, None, u64::MAX - 5), Err(BullRsError::SystemTimeError(_))));
    assert_eq!(next_time_from(&every, Some(7), u64::MAX).unwrap(), 17);
}

#[test]
fn removal_at_end_time_is_inclusive_and_permanent() {
    let options = RepeatOptions {
        pattern: RepeatPattern::Every { milliseconds: 10 },
        limit: Some(3),
        start_time: None,
        end_time: Some(500),
    };
    assert!(!should_remove_at(&options, 2, 499));
    assert!(should_remove_at(&options, 2, 500));
    assert!(should_remove_at(&options, 2, 900));
    assert!(should_remove_at(&options, 3, 0));
    assert!(should_remove_at(&options, 7, 0));
}

#[test]
fn default_repeat_options_are_hourly_and_unbounded() {
    let options = RepeatOptions::default();
    assert_eq!(options.pattern.to_string(), "every:3600000");
    assert!(options.limit.is_none());
    assert!(!should_remove_at(&options, u32::MAX, u64::MAX));
}
