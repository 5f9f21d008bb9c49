use api_core::keys::{
    lookups_by_type_key, lookups_history_key, organization_key, organization_stats_key,
    requests_by_type_history_key, requests_by_type_key, requests_by_version_history_key,
    requests_by_version_key, version_field, ORGANIZATION_TTL, STATS_TTL,
};
use api_core::period::month_span;

#[test]
fn keys_of_the_statistics_routes() {
    assert_eq!(requests_by_type_key("PAPER"), "requests::types::PAPER");
    assert_eq!(requests_by_version_key("1.21.1"), "requests::versions::1.21.1");
    assert_eq!(lookups_by_type_key("FABRIC"), "lookups::versions::FABRIC");
    assert_eq!(STATS_TTL, 10800);
}

#[test]
fn keys_of_the_history_routes_name_the_month() {
    let span = month_span(2024, 2).unwrap().key().unwrap();
    assert_eq!(
        requests_by_type_history_key("PAPER", &span),
        "requests::types::PAPER::history::2024-02-01::2024-02-29"
    );
    assert_eq!(
        requests_by_version_history_key("1.21.1", &span),
        "requests::versions::1.21.1::history::2024-02-01::2024-02-29"
    );
    assert_eq!(
        lookups_history_key(&span),
        "lookups::versions::all::history::2024-02-01::2024-02-29"
    );
}

#[test]
fn keys_of_organizations() {
    assert_eq!(organization_stats_key(17), "organization::stats::17");
    assert_eq!(organization_key(17), "organization::17::stats");
    assert_eq!(organization_key(-1), "organization::-1::stats");
    assert_eq!(organization_stats_key(i32::MIN), "organization::stats::-2147483648");
    assert_eq!(ORGANIZATION_TTL, 300);
}

#[test]
fn version_field_of_a_lookup() {
    assert_eq!(version_field(true), "projectVersionId");
    assert_eq!(version_field(false), "versionId");
}
