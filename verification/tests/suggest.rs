use httpee::spinner::{spinner_step, SpinnerAction, SpinnerEvent};
use httpee::suggest::{closest_template, levenshtein};
use httpee::units::{format_duration, format_size};
use std::time::Duration;

#[test]
fn levenshtein_basics() {
    assert_eq!(levenshtein("", ""), 0);
    assert_eq!(levenshtein("abc", "abc"), 0);
    assert_eq!(levenshtein("abc", ""), 3);
    assert_eq!(levenshtein("", "abc"), 3);
    assert_eq!(levenshtein("kitten", "sitting"), 3);
    assert_eq!(levenshtein("users/creat", "users/create"), 1);
    assert_eq!(levenshtein("acconts/list", "accounts/list"), 1);
}

#[test]
fn levenshtein_is_symmetric_and_bounded() {
    assert_eq!(levenshtein("flaw", "lawn"), levenshtein("lawn", "flaw"));
    assert_eq!(levenshtein("flaw", "lawn"), 2);
    assert!(levenshtein("short", "a much longer text") <= 18);
    assert_eq!(levenshtein("héllo", "hello"), 1);
}

fn entries(names: &[&str]) -> Vec<(String, String)> {
    names
        .iter()
        .map(|n| (n.to_string(), format!("{n}.toml")))
        .collect()
}

#[test]
fn closest_template_picks_first_nearest_within_three() {
    let t = entries(&["users/create", "users/list", "users/delete"]);
    assert_eq!(closest_template("users/creat", &t), Some("users/create".to_string()));
    assert_eq!(closest_template("users/lost", &t), Some("users/list".to_string()));
    assert_eq!(closest_template("orders/refund", &t), None);
    assert_eq!(closest_template("anything", &[]), None);
    let tie = entries(&["ab", "ac"]);
    assert_eq!(closest_template("aa", &tie), Some("ab".to_string()));
}

#[test]
fn format_duration_units() {
    assert_eq!(format_duration(Duration::from_millis(0)), "0ms");
    assert_eq!(format_duration(Duration::from_millis(142)), "142ms");
    assert_eq!(format_duration(Duration::from_millis(999)), "999ms");
    assert_eq!(format_duration(Duration::from_millis(1234)), "1.2s");
}

#[test]
fn format_duration_seconds_round() {
    assert_eq!(format_duration(Duration::from_millis(1000)), "1.0s");
    assert_eq!(format_duration(Duration::from_millis(61_990)), "62.0s");
    assert_eq!(format_duration(Duration::from_micros(999_999)), "999ms");
}

#[test]
fn format_size_units() {
    assert_eq!(format_size(0), "0 B");
    assert_eq!(format_size(512), "512 B");
    assert_eq!(format_size(1024), "1.0 kB");
    assert_eq!(format_size(1536), "1.5 kB");
    assert_eq!(format_size(1024 * 1024), "1.0 MB");
}

#[test]
fn format_size_rounds_like_float_formatting() {
    for bytes in [1023usize, 1025, 1280, 1331, 2047, 10_000, 1_048_575, 1_572_864, 5_000_000, 123_456_789] {
        let expected = if bytes < 1024 {
            format!("{bytes} B")
        } else if bytes < 1024 * 1024 {
            format!("{:.1} kB", bytes as f64 / 1024.0)
        } else {
            format!("{:.1} MB", bytes as f64 / (1024.0 * 1024.0))
        };
        assert_eq!(format_size(bytes), expected, "bytes = {bytes}");
    }
    let huge = usize::MAX;
    assert_eq!(
        format_size(huge),
        format!("{:.1} MB", huge as f64 / (1024.0 * 1024.0))
    );
    let odd = (1usize << 60) + 123_457;
    assert_eq!(
        format_size(odd),
        format!("{:.1} MB", odd as f64 / (1024.0 * 1024.0))
    );
}

#[test]
fn spinner_shows_elapsed_time_and_clears_only_when_shown() {
    match spinner_step(false, &SpinnerEvent::Tick { secs: 0, nanos: 142_000_000 }) {
        SpinnerAction::Show(label) => assert_eq!(label, "142ms"),
        SpinnerAction::Stop { .. } => panic!("a tick shows the spinner"),
    }
    match spinner_step(true, &SpinnerEvent::Tick { secs: 1, nanos: 234_000_000 }) {
        SpinnerAction::Show(label) => assert_eq!(label, "1.2s"),
        SpinnerAction::Stop { .. } => panic!("a tick shows the spinner"),
    }
    assert!(matches!(spinner_step(false, &SpinnerEvent::Stopped), SpinnerAction::Stop { clear: false }));
    assert!(matches!(spinner_step(true, &SpinnerEvent::Stopped), SpinnerAction::Stop { clear: true }));
}
