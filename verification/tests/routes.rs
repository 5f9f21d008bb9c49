use api_core::cache::Cache;
use api_core::ratelimit::RateLimitData;
use api_core::requests::RequestLogger;
use api_core::routes::{
    enter, is_api_key, rate_limit_headers, ApiError, AppState, Entry, RateLimitHeaders,
    API_KEY_LENGTH, TOO_MANY_REQUESTS,
};

#[test]
fn error_body_carries_its_messages() {
    let e = ApiError::new(&["route not found"]);
    assert!(!e.success);
    assert_eq!(e.errors, vec!["route not found".to_string()]);
    let e = ApiError::new(&["a", "b", "c"]);
    assert_eq!(e.errors, vec!["a".to_string(), "b".to_string(), "c".to_string()]);
    let e = ApiError::new(&[]);
    assert!(!e.success);
    assert!(e.errors.is_empty());
}

#[test]
fn api_key_has_sixty_four_bytes() {
    assert_eq!(API_KEY_LENGTH, 64);
    assert!(is_api_key(&"a".repeat(64)));
    assert!(!is_api_key(&"a".repeat(63)));
    assert!(!is_api_key(&"a".repeat(65)));
    assert!(!is_api_key(""));
    // Length is counted in bytes: thirty-two two-byte letters make a key.
    assert!(is_api_key(&"é".repeat(32)));
}

#[test]
fn headers_report_what_is_left_of_the_quota() {
    let h = rate_limit_headers(RateLimitData { limit: 120, hits: 1 });
    assert_eq!(h, RateLimitHeaders { limit: 120, remaining: 119, reset: 60 });
    let h = rate_limit_headers(RateLimitData { limit: 3, hits: 3 });
    assert_eq!(h, RateLimitHeaders { limit: 3, remaining: 0, reset: 60 });
    let h = rate_limit_headers(RateLimitData { limit: 3, hits: 5 });
    assert_eq!(h, RateLimitHeaders { limit: 3, remaining: 0, reset: 60 });
}

#[test]
fn request_over_quota_is_answered_with_too_many_requests() {
    let entry = enter(Err(RateLimitData { limit: 3, hits: 3 }));
    assert_eq!(
        entry,
        Entry::Reject {
            status: 429,
            quota: RateLimitHeaders { limit: 3, remaining: 0, reset: 60 },
            body: ApiError { success: false, errors: vec!["too many requests".to_string()] },
        }
    );
    assert_eq!(TOO_MANY_REQUESTS, 429);
}

#[test]
fn admitted_request_proceeds_with_its_headers() {
    let entry = enter(Ok((Some(7), Some(RateLimitData { limit: 3, hits: 1 }))));
    assert_eq!(
        entry,
        Entry::Proceed {
            request_id: Some(7),
            headers: Some(RateLimitHeaders { limit: 3, remaining: 2, reset: 60 }),
        }
    );
    let entry = enter(Ok((None, None)));
    assert_eq!(entry, Entry::Proceed { request_id: None, headers: None });
}

#[test]
fn four_requests_through_the_whole_entry() {
    let mut state = AppState {
        start_time: 0,
        version: "1.0.0:abcdef".to_string(),
        cache: Cache::new(),
        requests: RequestLogger::new(8),
    };
    let mut remaining = Vec::new();
    let mut admitted = Vec::new();
    for second in 0..4u64 {
        let metadata = api_core::buffer::RequestMetadata {
            identity: api_core::buffer::CallerIdentity::Organization("org-1".to_string()),
            method: "GET".to_string(),
            path: "/api/v2/types".to_string(),
            ip: "192.0.2.1".to_string(),
            user_agent: "t".to_string(),
            origin: None,
            started_at: second,
        };
        match enter(state.requests.log(metadata, Some(3), second)) {
            Entry::Proceed { headers, .. } => {
                admitted.push(true);
                remaining.push(headers.unwrap().remaining);
            }
            Entry::Reject { quota, .. } => {
                admitted.push(false);
                remaining.push(quota.remaining);
            }
        }
    }
    assert_eq!(admitted, vec![true, true, true, false]);
    assert_eq!(remaining, vec![2, 1, 0, 0]);
    assert_eq!(state.version, "1.0.0:abcdef");
    assert_eq!(state.cache.get("k", state.start_time), None);
}

#[test]
fn new_state_is_empty() {
    let mut state = AppState::new(1_234, "2.0.0:0123abc".to_string(), 3);
    assert_eq!(state.start_time, 1_234);
    assert_eq!(state.version, "2.0.0:0123abc");
    assert_eq!(state.cache.get("k", 0), None);
    assert!(state.requests.process().is_empty());
    assert_eq!(state.requests.lost(), 0);
}

#[test]
fn request_is_recorded_from_its_beginning_to_its_end() {
    let mut state = AppState::new(0, "v".to_string(), 3);
    let metadata = api_core::buffer::RequestMetadata {
        identity: api_core::buffer::CallerIdentity::Organization("org-1".to_string()),
        method: "POST".to_string(),
        path: "/api/v2/build".to_string(),
        ip: "192.0.2.1".to_string(),
        user_agent: "t".to_string(),
        origin: None,
        started_at: 9,
    };
    let entry = state.begin_request(metadata.clone(), None, 9);
    assert_eq!(entry, Entry::Proceed { request_id: Some(0), headers: None });
    let mut note = serde_json::Map::new();
    note.insert("type".to_string(), serde_json::Value::String("lookup".to_string()));
    let note = serde_json::Value::Object(note);
    assert!(state.end_request(Some(0), 200, 17, Some(note.clone())));
    assert!(!state.end_request(Some(0), 500, 18, None));
    assert!(!state.end_request(None, 200, 1, None));
    assert!(!state.end_request(Some(5), 200, 1, None));
    let batches = state.requests.process();
    assert_eq!(
        batches,
        vec![vec![api_core::buffer::PersistedRecord {
            id: Some(0),
            metadata,
            outcome: api_core::buffer::FinalOutcome::Completed(api_core::buffer::Outcome {
                status_code: 200,
                duration_ms: 17,
                annotations: Some(note),
                error: None,
            }),
        }]]
    );
}

#[test]
fn status_and_duration_are_recorded_in_their_low_bits() {
    let mut state = AppState::new(0, "v".to_string(), 3);
    let metadata = api_core::buffer::RequestMetadata {
        identity: api_core::buffer::CallerIdentity::Organization("org-1".to_string()),
        method: "GET".to_string(),
        path: "/".to_string(),
        ip: "".to_string(),
        user_agent: "".to_string(),
        origin: None,
        started_at: 0,
    };
    state.begin_request(metadata, None, 0);
    assert!(state.end_request(Some(0), 40_000, (1u128 << 32) + 5, None));
    let batches = state.requests.process();
    match &batches[0][0].outcome {
        api_core::buffer::FinalOutcome::Completed(o) => {
            assert_eq!(o.status_code, 40_000u16 as i16);
            assert_eq!(o.status_code, -25_536);
            assert_eq!(o.duration_ms, 5);
        }
        api_core::buffer::FinalOutcome::Incomplete => panic!("the end was recorded"),
    }
}
