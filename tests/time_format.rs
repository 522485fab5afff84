use yoitsus::dice::{check_faces, roll_die, RollError};
use yoitsus::monitoring::{log_clock_text, remaining_command_count, uptime_text, BotResources};
use yoitsus::time_format::to_time;

#[test]
fn to_time_under_a_minute() {
    assert_eq!(to_time(0), "00:00");
    assert_eq!(to_time(7), "00:07");
    assert_eq!(to_time(59), "00:59");
}

#[test]
fn to_time_minutes_and_seconds() {
    assert_eq!(to_time(60), "01:00");
    assert_eq!(to_time(754), "12:34");
    assert_eq!(to_time(3599), "59:59");
}

#[test]
fn to_time_from_one_hour_on() {
    assert_eq!(to_time(3600), "1:00:00");
    assert_eq!(to_time(3661), "1:01:01");
    assert_eq!(to_time(86399), "23:59:59");
    assert_eq!(to_time(360000), "100:00:00");
}

#[test]
fn to_time_largest_input() {
    // 18446744073709551615 s = 5124095576030431 h 0 min 15 s
    assert_eq!(to_time(u64::MAX), "5124095576030431:00:15");
}

#[test]
fn to_time_fields_stay_in_range() {
    for secs in [0u64, 59, 61, 599, 3599, 3600, 7199, 45296, 1_000_000] {
        let text = to_time(secs);
        let parts: Vec<&str> = text.split(':').collect();
        let n = parts.len();
        if secs < 3600 {
            assert_eq!(n, 2);
        } else {
            assert_eq!(n, 3);
        }
        let min: u64 = parts[n - 2].parse().unwrap();
        let sec: u64 = parts[n - 1].parse().unwrap();
        assert_eq!(parts[n - 2].len(), 2);
        assert_eq!(parts[n - 1].len(), 2);
        assert!(min <= 59 && sec <= 59);
        let hrs: u64 = if n == 3 { parts[0].parse().unwrap() } else { 0 };
        assert_eq!(hrs * 3600 + min * 60 + sec, secs);
    }
}

#[test]
fn uptime_always_shows_hours() {
    assert_eq!(uptime_text(0), "0:00:00");
    assert_eq!(uptime_text(59), "0:00:59");
    assert_eq!(uptime_text(90061), "25:01:01");
}

#[test]
fn log_clock_wraps_at_a_day() {
    assert_eq!(log_clock_text(0), "[00:00:00]");
    assert_eq!(log_clock_text(45296), "[12:34:56]");
    assert_eq!(log_clock_text(86400 + 3661), "[01:01:01]");
}

#[test]
fn command_count_carries_over() {
    assert_eq!(remaining_command_count(10, 4), 6);
    assert_eq!(remaining_command_count(4, 4), 0);
    assert_eq!(remaining_command_count(3, 4), 0);
}

#[test]
fn bot_resources_keeps_each_value() {
    let r = BotResources::new(
        "1.5".to_string(),
        "12.0".to_string(),
        "80".to_string(),
        "0:01:00".to_string(),
        "3".to_string(),
    );
    assert_eq!(r.memory_usage, "1.5");
    assert_eq!(r.cpu_usage, "12.0");
    assert_eq!(r.latency, "80");
    assert_eq!(r.uptime, "0:01:00");
    assert_eq!(r.command_count, "3");
}

#[test]
fn roll_needs_two_faces() {
    assert_eq!(roll_die(1), Err(RollError::TooFewFaces));
    assert_eq!(roll_die(-5), Err(RollError::TooFewFaces));
    assert_eq!(check_faces(6), Ok(6));
    for _ in 0..100 {
        let v = roll_die(6).unwrap();
        assert!((1..=6).contains(&v));
    }
    assert_eq!(roll_die(2).map(|v| v == 1 || v == 2), Ok(true));
}
