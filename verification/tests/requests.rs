use api_core::buffer::{CallerIdentity, FinalOutcome, RequestMetadata};
use api_core::ratelimit::RateLimitData;
use api_core::requests::RequestLogger;

fn from(identity: CallerIdentity) -> RequestMetadata {
    RequestMetadata {
        identity,
        method: "GET".to_string(),
        path: "/api/v2/builds/PAPER".to_string(),
        ip: "198.51.100.9".to_string(),
        user_agent: "test".to_string(),
        origin: Some("https://example.org".to_string()),
        started_at: 50,
    }
}

fn org(key: &str) -> RequestMetadata {
    from(CallerIdentity::Organization(key.to_string()))
}

#[test]
fn admitted_request_gets_identifier_and_quota() {
    let mut logger = RequestLogger::new(4);
    let r = logger.log(org("org-1"), Some(3), 50);
    assert_eq!(r, Ok((Some(0), Some(RateLimitData { limit: 3, hits: 1 }))));
}

#[test]
fn request_over_quota_is_rejected_without_a_record() {
    let mut logger = RequestLogger::new(4);
    for _ in 0..3 {
        assert!(logger.log(org("org-1"), Some(3), 50).is_ok());
    }
    let r = logger.log(org("org-1"), Some(3), 51);
    assert_eq!(r, Err(RateLimitData { limit: 3, hits: 3 }));
    let batches = logger.process();
    assert_eq!(batches.len(), 1);
    assert_eq!(batches[0].len(), 3);
}

#[test]
fn exempt_caller_consults_no_window() {
    let mut logger = RequestLogger::new(4);
    for n in 0..100u64 {
        assert_eq!(logger.log(org("internal"), None, 0), Ok((Some(n), None)));
    }
    // The same key under a limit starts from an untouched window.
    let r = logger.log(org("internal"), Some(1), 0);
    assert_eq!(r, Ok((Some(100), Some(RateLimitData { limit: 1, hits: 1 }))));
}

#[test]
fn anonymous_callers_share_one_window_and_get_no_identifier() {
    let mut logger = RequestLogger::new(4);
    let first = logger.log(from(CallerIdentity::Anonymous), Some(2), 0);
    assert_eq!(first, Ok((None, Some(RateLimitData { limit: 2, hits: 1 }))));
    let second = logger.log(from(CallerIdentity::Anonymous), Some(2), 1);
    assert_eq!(second, Ok((None, Some(RateLimitData { limit: 2, hits: 2 }))));
    let third = logger.log(from(CallerIdentity::Anonymous), Some(2), 2);
    assert_eq!(third, Err(RateLimitData { limit: 2, hits: 2 }));
    // The sentinel is the word itself: an organization of that name shares the window.
    let named = logger.log(org("anonymous"), Some(2), 3);
    assert_eq!(named, Err(RateLimitData { limit: 2, hits: 2 }));
}

#[test]
fn rejected_caller_is_admitted_in_the_next_window() {
    let mut logger = RequestLogger::new(4);
    assert!(logger.log(org("k"), Some(1), 10).is_ok());
    assert!(logger.log(org("k"), Some(1), 69).is_err());
    let r = logger.log(org("k"), Some(1), 70);
    assert_eq!(r, Ok((Some(1), Some(RateLimitData { limit: 1, hits: 1 }))));
}

#[test]
fn request_passes_from_admission_to_storage() {
    let mut logger = RequestLogger::new(4);
    let (id, _) = logger.log(org("k"), Some(10), 50).unwrap();
    let id = id.unwrap();
    assert!(logger.finish(id, 404, 3, None, Some("build not found".to_string())));
    assert!(!logger.finish(id, 200, 4, None, None));
    let batches = logger.process();
    assert_eq!(batches.len(), 1);
    assert_eq!(batches[0].len(), 1);
    assert_eq!(batches[0][0].id, Some(id));
    assert_eq!(batches[0][0].metadata, org("k"));
    match &batches[0][0].outcome {
        FinalOutcome::Completed(o) => {
            assert_eq!(o.status_code, 404);
            assert_eq!(o.duration_ms, 3);
            assert_eq!(o.annotations, None);
            assert_eq!(o.error, Some("build not found".to_string()));
        }
        FinalOutcome::Incomplete => panic!("the outcome was recorded before the flush"),
    }
    logger.retain(batches.into_iter().next().unwrap());
    assert_eq!(logger.lost(), 0);
    assert_eq!(logger.process().len(), 1);
}
