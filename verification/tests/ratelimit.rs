use api_core::ratelimit::{Admission, RateLimiter, RateWindow, WINDOW_SECONDS};

#[test]
fn four_requests_under_a_limit_of_three() {
    let mut limiter = RateLimiter::new();
    let mut admitted = Vec::new();
    let mut remaining = Vec::new();
    for second in 0..4u64 {
        let d = limiter.request_admission("org-1", 3, 100 + second);
        admitted.push(d.admitted);
        remaining.push(d.limit - d.hits);
    }
    assert_eq!(admitted, vec![true, true, true, false]);
    assert_eq!(remaining, vec![2, 1, 0, 0]);
}

#[test]
fn first_request_opens_a_window_at_its_arrival() {
    let mut limiter = RateLimiter::new();
    assert_eq!(limiter.window("org-1"), None);
    let d = limiter.request_admission("org-1", 10, 1_000);
    assert_eq!(d, Admission { admitted: true, hits: 1, limit: 10 });
    assert_eq!(
        limiter.window("org-1"),
        Some(RateWindow { window_start: 1_000, hits: 1, limit: 10 })
    );
}

#[test]
fn rejected_request_leaves_the_counter_unchanged() {
    let mut limiter = RateLimiter::new();
    assert!(limiter.request_admission("k", 1, 5).admitted);
    let d = limiter.request_admission("k", 1, 6);
    assert_eq!(d, Admission { admitted: false, hits: 1, limit: 1 });
    assert_eq!(limiter.window("k").unwrap().hits, 1);
    let d = limiter.request_admission("k", 1, 7);
    assert_eq!(d, Admission { admitted: false, hits: 1, limit: 1 });
}

#[test]
fn counter_resets_when_the_window_has_passed() {
    let mut limiter = RateLimiter::new();
    assert!(limiter.request_admission("k", 1, 100).admitted);
    assert!(!limiter.request_admission("k", 1, 159).admitted);
    let d = limiter.request_admission("k", 1, 160);
    assert_eq!(d, Admission { admitted: true, hits: 1, limit: 1 });
    assert_eq!(limiter.window("k").unwrap().window_start, 160);
}

#[test]
fn window_start_advances_by_whole_windows() {
    let mut limiter = RateLimiter::new();
    limiter.request_admission("k", 5, 100);
    // 100 + 3 * 60 = 280 is the start of the window that holds 299.
    let d = limiter.request_admission("k", 5, 299);
    assert_eq!(d.hits, 1);
    assert_eq!(
        limiter.window("k"),
        Some(RateWindow { window_start: 280, hits: 1, limit: 5 })
    );
    assert_eq!(WINDOW_SECONDS, 60);
}

#[test]
fn last_second_of_a_window_still_counts_in_it() {
    let mut limiter = RateLimiter::new();
    limiter.request_admission("k", 5, 100);
    let d = limiter.request_admission("k", 5, 159);
    assert_eq!(d.hits, 2);
    assert_eq!(limiter.window("k").unwrap().window_start, 100);
}

#[test]
fn identities_are_counted_separately() {
    let mut limiter = RateLimiter::new();
    assert!(limiter.request_admission("a", 1, 0).admitted);
    assert!(limiter.request_admission("b", 1, 0).admitted);
    assert!(!limiter.request_admission("a", 1, 1).admitted);
    assert!(!limiter.request_admission("b", 1, 1).admitted);
    assert_eq!(limiter.window("c"), None);
}

#[test]
fn limit_of_zero_admits_nothing() {
    let mut limiter = RateLimiter::new();
    let d = limiter.request_admission("k", 0, 0);
    assert_eq!(d, Admission { admitted: false, hits: 0, limit: 0 });
}

#[test]
fn burst_admits_exactly_the_limit_in_any_order_of_arrival() {
    let times = [130u64, 101, 159, 100, 145, 117, 102];
    for limit in 1..=8u64 {
        let mut limiter = RateLimiter::new();
        limiter.request_admission("k", limit, 100);
        let mut admitted = 1u64;
        for t in times {
            if limiter.request_admission("k", limit, t).admitted {
                admitted += 1;
            }
        }
        assert_eq!(admitted, limit.min(times.len() as u64 + 1));
    }
}

#[test]
fn clock_reading_before_the_window_start_stays_in_the_window() {
    let mut limiter = RateLimiter::new();
    limiter.request_admission("k", 5, 100);
    let d = limiter.request_admission("k", 5, 90);
    assert_eq!(d.hits, 2);
    assert_eq!(limiter.window("k").unwrap().window_start, 100);
}

#[test]
fn lowered_limit_rejects_without_touching_the_counter() {
    let mut limiter = RateLimiter::new();
    for t in 0..5u64 {
        limiter.request_admission("k", 5, t);
    }
    let d = limiter.request_admission("k", 3, 6);
    assert_eq!(d, Admission { admitted: false, hits: 5, limit: 3 });
}
