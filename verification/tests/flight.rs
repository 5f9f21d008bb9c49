use api_core::flight::{Role, SingleFlight};

#[test]
fn first_caller_leads_and_the_rest_wait() {
    let mut flights = SingleFlight::new();
    assert!(!flights.is_in_flight("k"));
    assert_eq!(flights.join("k"), Role::Leader);
    assert!(flights.is_in_flight("k"));
    assert_eq!(flights.waiters("k"), 0);
    for n in 1..=20u64 {
        assert_eq!(flights.join("k"), Role::Waiter);
        assert_eq!(flights.waiters("k"), n);
    }
}

#[test]
fn publishing_releases_the_waiters_and_forgets_the_key() {
    let mut flights = SingleFlight::new();
    flights.join("k");
    flights.join("k");
    flights.join("k");
    assert_eq!(flights.publish("k"), 2);
    assert!(!flights.is_in_flight("k"));
    assert_eq!(flights.waiters("k"), 0);
    assert_eq!(flights.join("k"), Role::Leader);
}

#[test]
fn publishing_what_is_not_in_flight_releases_nobody() {
    let mut flights = SingleFlight::new();
    assert_eq!(flights.publish("k"), 0);
    assert!(!flights.is_in_flight("k"));
}

#[test]
fn keys_fly_side_by_side() {
    let mut flights = SingleFlight::new();
    assert_eq!(flights.join("a"), Role::Leader);
    assert_eq!(flights.join("b"), Role::Leader);
    assert_eq!(flights.join("a"), Role::Waiter);
    assert_eq!(flights.publish("b"), 0);
    assert!(flights.is_in_flight("a"));
    assert_eq!(flights.waiters("a"), 1);
    assert_eq!(flights.join("b"), Role::Leader);
}
