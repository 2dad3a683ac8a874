use contact_service::clock::Timestamp;
use contact_service::rate_limiter::{RateLimiter, CLEANUP_INTERVAL_SECS};
use contact_service::registry::Registry;

const START: i64 = 1_700_000_000;

fn at(secs: i64) -> Timestamp {
    Timestamp { secs: START + secs, nanos: 0 }
}

#[test]
fn the_first_check_of_a_client_is_admitted() {
    let mut registry = Registry::new();
    assert_eq!(registry.len(), 0);
    assert!(!registry.contains("10.0.0.1"));
    assert_eq!(registry.check("10.0.0.1", at(0)), (true, (1, 3)));
    assert!(registry.contains("10.0.0.1"));
    assert_eq!(registry.len(), 1);
}

#[test]
fn four_calls_of_one_client() {
    let mut registry = Registry::new();
    assert_eq!(registry.check("1.2.3.4", at(0)), (true, (1, 3)));
    assert_eq!(registry.check("1.2.3.4", at(8)), (true, (0, 2)));
    assert_eq!(registry.check("1.2.3.4", at(30)), (false, (0, 2)));
    assert_eq!(registry.check("1.2.3.4", at(91)), (true, (1, 1)));
}

#[test]
fn the_third_request_within_a_minute_is_refused() {
    let mut registry = Registry::new();
    assert!(registry.check("a", at(0)).0);
    assert!(registry.check("a", at(20)).0);
    let (admitted, remaining) = registry.check("a", at(59));
    assert!(!admitted);
    assert_eq!(remaining.0, 0);
}

#[test]
fn the_fifth_request_within_twelve_hours_is_refused() {
    let mut registry = Registry::new();
    assert_eq!(registry.check("a", at(0)), (true, (1, 3)));
    assert_eq!(registry.check("a", at(3_600)), (true, (1, 2)));
    assert_eq!(registry.check("a", at(7_200)), (true, (1, 1)));
    assert_eq!(registry.check("a", at(10_800)), (true, (1, 0)));
    assert_eq!(registry.check("a", at(14_400)), (false, (2, 0)));
}

#[test]
fn both_windows_can_be_used_up_at_once() {
    let mut registry = Registry::new();
    assert_eq!(registry.check("a", at(0)), (true, (1, 3)));
    assert_eq!(registry.check("a", at(100)), (true, (1, 2)));
    assert_eq!(registry.check("a", at(200)), (true, (1, 1)));
    assert_eq!(registry.check("a", at(230)), (true, (0, 0)));
    assert_eq!(registry.check("a", at(240)), (false, (0, 0)));
    assert_eq!(registry.check("a", at(290)), (false, (2, 0)));
}

#[test]
fn of_a_burst_as_many_pass_as_there_is_room_for() {
    let mut registry = Registry::new();
    assert!(registry.check("a", at(0)).0);
    let outcomes: Vec<(bool, (usize, usize))> =
        [10, 10, 11, 15, 40].iter().map(|&secs| registry.check("a", at(secs))).collect();
    assert_eq!(
        outcomes,
        vec![
            (true, (0, 2)),
            (false, (0, 2)),
            (false, (0, 2)),
            (false, (0, 2)),
            (false, (0, 2))
        ]
    );
    let mut fresh = Registry::new();
    let passed = (0..7).filter(|_| fresh.check("b", at(5)).0).count();
    assert_eq!(passed, 2);
}

#[test]
fn clients_are_counted_apart() {
    let mut registry = Registry::new();
    assert_eq!(registry.check("a", at(0)), (true, (1, 3)));
    assert_eq!(registry.check("a", at(1)), (true, (0, 2)));
    assert_eq!(registry.check("b", at(2)), (true, (1, 3)));
    assert_eq!(registry.check("a", at(3)), (false, (0, 2)));
    assert_eq!(registry.check("unknown", at(3)), (true, (1, 3)));
    assert_eq!(registry.len(), 3);
}

#[test]
fn the_empty_identity_is_a_client_like_any_other() {
    let mut registry = Registry::new();
    assert_eq!(registry.check("", at(0)), (true, (1, 3)));
    assert!(registry.contains(""));
    assert!(!registry.contains(" "));
}

#[test]
fn a_client_whose_requests_have_aged_out_starts_anew() {
    let mut seen = Registry::new();
    assert!(seen.check("a", at(0)).0);
    assert!(seen.check("a", at(1)).0);
    assert!(!seen.check("a", at(2)).0);
    let mut fresh = Registry::new();
    assert_eq!(seen.check("a", at(43_201)), fresh.check("a", at(43_201)));
    assert_eq!(seen.check("a", at(43_202)), fresh.check("a", at(43_202)));
    assert_eq!(seen.check("a", at(43_203)), (false, (0, 2)));
}

#[test]
fn a_sweep_drops_the_idle_and_keeps_the_active() {
    let mut registry = Registry::new();
    assert!(registry.check("old", at(0)).0);
    assert!(registry.check("recent", at(40_000)).0);
    assert!(registry.check("older", at(-10)).0);
    registry.sweep(at(43_200));
    assert!(!registry.contains("old"));
    assert!(!registry.contains("older"));
    assert!(registry.contains("recent"));
    assert_eq!(registry.len(), 1);
    // the long window of the client that stays still counts its request
    assert_eq!(registry.check("recent", at(43_200)), (true, (1, 2)));
}

#[test]
fn a_sweep_keeps_a_client_with_a_request_in_the_long_window_only() {
    let mut registry = Registry::new();
    assert!(registry.check("a", at(0)).0);
    registry.sweep(at(43_199));
    assert!(registry.contains("a"));
    assert_eq!(registry.check("a", at(43_199)), (true, (1, 2)));
    registry.sweep(at(43_199 + 43_200));
    assert!(!registry.contains("a"));
    assert_eq!(registry.len(), 0);
}

#[test]
fn a_sweep_does_not_change_what_a_later_check_returns() {
    let mut swept = Registry::new();
    let mut plain = Registry::new();
    for registry in [&mut swept, &mut plain] {
        assert!(registry.check("a", at(0)).0);
        assert!(registry.check("b", at(50)).0);
        assert!(registry.check("a", at(55)).0);
    }
    swept.sweep(at(70));
    assert_eq!(swept.check("a", at(80)), plain.check("a", at(80)));
    assert_eq!(swept.check("b", at(80)), plain.check("b", at(80)));
    assert_eq!(swept.check("c", at(80)), plain.check("c", at(80)));
}

#[test]
fn a_sweep_of_an_empty_registry_leaves_it_empty() {
    let mut registry = Registry::new();
    registry.sweep(at(0));
    assert_eq!(registry.len(), 0);
}

#[test]
fn the_limiter_counts_under_its_lock() {
    let limiter = RateLimiter::new();
    assert_eq!(limiter.check_rate_limit_at("1.2.3.4", at(0)), (true, (1, 3)));
    assert_eq!(limiter.check_rate_limit_at("1.2.3.4", at(5)), (true, (0, 2)));
    assert_eq!(limiter.check_rate_limit_at("1.2.3.4", at(30)), (false, (0, 2)));
    assert_eq!(limiter.check_rate_limit_at("1.2.3.4", at(91)), (true, (1, 1)));
    assert!(limiter.is_tracked("1.2.3.4"));
    assert!(!limiter.is_tracked("4.3.2.1"));
}

#[test]
fn clones_of_a_limiter_share_its_registry() {
    let limiter = RateLimiter::new();
    let other = limiter.clone();
    assert_eq!(limiter.check_rate_limit_at("a", at(0)), (true, (1, 3)));
    assert_eq!(other.check_rate_limit_at("a", at(1)), (true, (0, 2)));
    assert_eq!(limiter.check_rate_limit_at("a", at(2)), (false, (0, 2)));
    other.cleanup_expired_ips_at(at(50_000));
    assert!(!limiter.is_tracked("a"));
}

#[test]
fn the_default_limiter_has_no_clients() {
    let limiter = RateLimiter::default();
    assert!(!limiter.is_tracked("a"));
    assert_eq!(limiter.check_rate_limit_at("a", at(0)), (true, (1, 3)));
}

#[test]
fn the_limiter_reads_the_clock() {
    let limiter = RateLimiter::new();
    assert_eq!(limiter.check_rate_limit("1.2.3.4"), (true, (1, 3)));
    assert_eq!(limiter.check_rate_limit("1.2.3.4"), (true, (0, 2)));
    assert_eq!(limiter.check_rate_limit("1.2.3.4"), (false, (0, 2)));
    assert_eq!(limiter.check_rate_limit("5.6.7.8"), (true, (1, 3)));
}

#[test]
fn a_cleanup_now_keeps_a_client_seen_now() {
    let limiter = RateLimiter::new();
    assert!(limiter.check_rate_limit("a").0);
    // recorded long ago by the clock: gone after a cleanup at the present
    assert!(limiter.check_rate_limit_at("b", Timestamp { secs: 86_400, nanos: 0 }).0);
    limiter.cleanup_expired_ips();
    assert!(limiter.is_tracked("a"));
    assert!(!limiter.is_tracked("b"));
}

#[test]
fn the_sweep_runs_once_a_day() {
    assert_eq!(CLEANUP_INTERVAL_SECS, 24 * 60 * 60);
}

fn workers() -> tokio::runtime::Runtime {
    tokio::runtime::Builder::new_multi_thread().worker_threads(4).build().unwrap()
}

#[test]
fn callers_on_many_threads_get_no_more_than_the_limit() {
    let limiter = RateLimiter::new();
    let runtime = workers();
    let mut callers = Vec::new();
    for caller in 0..16 {
        let shared = limiter.clone();
        callers.push(runtime.spawn_blocking(move || {
            let same = shared.check_rate_limit_at("1.2.3.4", at(caller % 4));
            let own = shared.check_rate_limit_at(&format!("10.0.0.{}", caller), at(caller % 4));
            (same, own)
        }));
    }
    let mut admitted = 0;
    let mut refused = 0;
    for caller in callers {
        let (same, own) = runtime.block_on(caller).unwrap();
        assert_eq!(own, (true, (1, 3)));
        if same.0 {
            admitted += 1;
            assert!(same.1 == (1, 3) || same.1 == (0, 2));
        } else {
            refused += 1;
            assert_eq!(same.1, (0, 2));
        }
    }
    assert_eq!(admitted, 2);
    assert_eq!(refused, 14);
    assert_eq!(limiter.check_rate_limit_at("1.2.3.4", at(3)), (false, (0, 2)));
}

#[test]
fn a_sweep_on_another_thread_drops_only_the_idle() {
    let limiter = RateLimiter::new();
    assert!(limiter.check_rate_limit_at("old", at(0)).0);
    let runtime = workers();
    let sweeper = limiter.clone();
    let sweeping = runtime.spawn_blocking(move || {
        for _ in 0..100 {
            sweeper.cleanup_expired_ips_at(at(43_200));
        }
    });
    for round in 0..100 {
        let outcome = limiter.check_rate_limit_at("busy", at(43_200 + 60 * round));
        assert!(outcome.0 || outcome.1 .1 == 0);
    }
    runtime.block_on(sweeping).unwrap();
    assert!(!limiter.is_tracked("old"));
    assert!(limiter.is_tracked("busy"));
}
