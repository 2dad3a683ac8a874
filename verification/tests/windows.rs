use contact_service::clock::Timestamp;
use contact_service::window::{
    RateLimitInfo, LONG_LIMIT, LONG_WINDOW_NANOS, SHORT_LIMIT, SHORT_WINDOW_NANOS,
};

const START: i64 = 1_700_000_000;

fn at(secs: i64) -> Timestamp {
    Timestamp { secs: START + secs, nanos: 0 }
}

#[test]
fn it_works() {
    let result = 2 + 2;
    assert_eq!(result, 4);
}

#[test]
fn limits_and_windows_have_their_values() {
    assert_eq!(SHORT_LIMIT, 2);
    assert_eq!(LONG_LIMIT, 4);
    assert_eq!(SHORT_WINDOW_NANOS, 60 * 1_000_000_000);
    assert_eq!(LONG_WINDOW_NANOS, 12 * 60 * 60 * 1_000_000_000);
}

#[test]
fn elapsed_is_counted_in_nanoseconds() {
    let earlier = Timestamp { secs: 10, nanos: 900_000_000 };
    let later = Timestamp { secs: 12, nanos: 100_000_000 };
    assert_eq!(later.elapsed_since(earlier), 1_200_000_000);
    assert_eq!(earlier.elapsed_since(later), -1_200_000_000);
    assert_eq!(later.elapsed_since(later), 0);
}

#[test]
fn elapsed_does_not_overflow_at_the_ends_of_the_range() {
    let first = Timestamp { secs: i64::MIN, nanos: u32::MAX };
    let last = Timestamp { secs: i64::MAX, nanos: 0 };
    let span = (i64::MAX as i128 - i64::MIN as i128) * 1_000_000_000 - u32::MAX as i128;
    assert_eq!(last.elapsed_since(first), span);
    assert_eq!(first.elapsed_since(last), -span);
}

#[test]
fn a_time_is_within_a_window_until_the_window_has_passed() {
    let then = at(0);
    let just_inside = Timestamp { secs: START + 59, nanos: 999_999_999 };
    assert!(just_inside.is_within(then, SHORT_WINDOW_NANOS));
    assert!(!at(60).is_within(then, SHORT_WINDOW_NANOS));
    assert!(at(60).is_within(then, LONG_WINDOW_NANOS));
    assert!(!at(43_200).is_within(then, LONG_WINDOW_NANOS));
}

#[test]
fn a_later_time_is_within_every_window() {
    assert!(at(0).is_within(at(500), SHORT_WINDOW_NANOS));
}

#[test]
fn a_new_record_is_idle_and_has_everything_left() {
    let info = RateLimitInfo::new();
    assert!(info.is_idle());
    assert_eq!(info.remaining(at(0)), (2, 4));
}

#[test]
fn an_admitted_request_counts_against_both_windows() {
    let mut info = RateLimitInfo::new();
    assert!(info.try_admit(at(0)));
    assert!(!info.is_idle());
    assert_eq!(info.remaining(at(0)), (1, 3));
    assert!(info.try_admit(at(1)));
    assert_eq!(info.remaining(at(1)), (0, 2));
}

#[test]
fn a_refused_request_is_not_recorded() {
    let mut info = RateLimitInfo::new();
    assert!(info.try_admit(at(0)));
    assert!(info.try_admit(at(1)));
    assert!(!info.try_admit(at(2)));
    assert!(!info.try_admit(at(3)));
    assert_eq!(info.remaining(at(3)), (0, 2));
    // sixty seconds after the second request both have left the short window
    assert_eq!(info.remaining(at(61)), (2, 2));
}

#[test]
fn the_short_window_frees_a_place_after_one_minute() {
    let mut info = RateLimitInfo::new();
    assert!(info.try_admit(at(0)));
    assert!(info.try_admit(at(30)));
    assert!(!info.try_admit(at(59)));
    assert!(info.try_admit(at(60)));
    assert_eq!(info.remaining(at(60)), (0, 1));
}

#[test]
fn the_long_window_refuses_the_fifth_request() {
    let mut info = RateLimitInfo::new();
    assert!(info.try_admit(at(0)));
    assert!(info.try_admit(at(100)));
    assert!(info.try_admit(at(200)));
    assert!(info.try_admit(at(300)));
    assert!(!info.try_admit(at(400)));
    assert_eq!(info.remaining(at(400)), (2, 0));
    assert!(!info.try_admit(at(43_199)));
    assert!(info.try_admit(at(43_200)));
    assert_eq!(info.remaining(at(43_200)), (1, 0));
}

#[test]
fn compaction_drops_what_has_left_each_window() {
    let mut info = RateLimitInfo::new();
    assert!(info.try_admit(at(0)));
    info.compact(at(59));
    assert_eq!(info.remaining(at(59)), (1, 3));
    info.compact(at(60));
    assert!(!info.is_idle());
    assert_eq!(info.remaining(at(60)), (2, 3));
    info.compact(at(43_200));
    assert!(info.is_idle());
    assert_eq!(info.remaining(at(43_200)), (2, 4));
}

#[test]
fn remaining_does_not_change_the_record() {
    let mut info = RateLimitInfo::new();
    assert!(info.try_admit(at(0)));
    assert_eq!(info.remaining(at(50_000)), (2, 4));
    assert!(!info.is_idle());
    assert_eq!(info.remaining(at(1)), (1, 3));
}

#[test]
fn the_clock_reading_request_is_admitted_and_counted() {
    let mut info = RateLimitInfo::new();
    assert!(info.can_make_request());
    assert_eq!(info.get_remaining_requests(), (1, 3));
    assert!(info.can_make_request());
    assert_eq!(info.get_remaining_requests(), (0, 2));
    assert!(!info.can_make_request());
    assert_eq!(info.get_remaining_requests(), (0, 2));
}

#[test]
fn the_clock_reads_the_present() {
    // a record that holds a time far in the past has everything left now,
    // which it would not if the clock handed back a fixed early time
    let mut info = RateLimitInfo::new();
    assert!(info.try_admit(Timestamp { secs: 86_400, nanos: 0 }));
    assert_eq!(info.get_remaining_requests(), (2, 4));
}

#[test]
fn the_recorded_times_can_be_read() {
    let mut info = RateLimitInfo::new();
    assert!(info.requests_per_minute().is_empty());
    assert!(info.requests_per_12h().is_empty());
    assert!(info.try_admit(at(0)));
    assert!(info.try_admit(at(70)));
    let short: Vec<i64> = info.requests_per_minute().iter().map(|t| t.secs - START).collect();
    let long: Vec<i64> = info.requests_per_12h().iter().map(|t| t.secs - START).collect();
    assert_eq!(short, vec![70]);
    assert_eq!(long, vec![0, 70]);
}
