use api_core::http::{
    conditional, extract_ip, holds_already, is_blacklisted_header, is_client_error, plain_error,
    wraps_plain_error, Conditional, NOT_MODIFIED,
};

#[test]
fn address_comes_from_real_ip_before_forwarded_for() {
    assert_eq!(extract_ip(Some("203.0.113.1"), Some("198.51.100.2")), Some("203.0.113.1".to_string()));
    assert_eq!(extract_ip(None, Some("198.51.100.2")), Some("198.51.100.2".to_string()));
    assert_eq!(extract_ip(None, None), None);
}

#[test]
fn empty_real_ip_hides_forwarded_for() {
    assert_eq!(extract_ip(Some(""), Some("198.51.100.2")), None);
    assert_eq!(extract_ip(None, Some("")), None);
}

#[test]
fn first_element_of_a_list_is_taken_and_trimmed() {
    assert_eq!(
        extract_ip(None, Some(" 203.0.113.1 , 10.0.0.1, 10.0.0.2")),
        Some("203.0.113.1".to_string())
    );
    assert_eq!(extract_ip(Some("2001:db8::1,10.0.0.1"), None), Some("2001:db8::1".to_string()));
    assert_eq!(extract_ip(Some(",10.0.0.1"), None), Some("".to_string()));
    assert_eq!(extract_ip(Some("\t10.0.0.9\u{a0},x"), None), Some("10.0.0.9".to_string()));
}

#[test]
fn single_value_is_not_trimmed() {
    assert_eq!(extract_ip(Some(" 203.0.113.1 "), None), Some(" 203.0.113.1 ".to_string()));
}

#[test]
fn address_text_agrees_with_the_standard_library() {
    for value in ["1.2.3.4", " 1.2.3.4 ,5.6.7.8", ",", " , ", "a,b,c", "\u{3000}x\u{2003},y", "x"] {
        let expected = if value.contains(',') {
            value.split(',').next().unwrap_or_default().trim().to_string()
        } else {
            value.to_string()
        };
        assert_eq!(extract_ip(Some(value), None), Some(expected));
    }
}

#[test]
fn client_errors_are_the_four_hundreds() {
    assert!(!is_client_error(399));
    assert!(is_client_error(400));
    assert!(is_client_error(404));
    assert!(is_client_error(499));
    assert!(!is_client_error(500));
    assert!(!is_client_error(200));
}

#[test]
fn plain_text_client_errors_become_json() {
    assert!(wraps_plain_error(Some("text/plain; charset=utf-8"), 422));
    assert!(wraps_plain_error(Some("text/plain"), 400));
    assert!(!wraps_plain_error(Some("text/plain"), 500));
    assert!(!wraps_plain_error(Some("text/plain"), 200));
    assert!(!wraps_plain_error(Some("application/json"), 404));
    assert!(!wraps_plain_error(Some("text/plai"), 404));
    assert!(!wraps_plain_error(Some(" text/plain"), 404));
    assert!(!wraps_plain_error(None, 404));
    let body = plain_error("Invalid URL: missing field");
    assert!(!body.success);
    assert_eq!(body.errors, vec!["Invalid URL: missing field".to_string()]);
}

#[test]
fn entity_tag_is_the_sha1_of_the_body() {
    let c = conditional(b"hello world", None);
    assert_eq!(
        c,
        Conditional {
            etag: "2aae6c35c94fcfb415dbe95f408b9ce91ee846ed".to_string(),
            not_modified: false,
        }
    );
    let c = conditional(b"", None);
    assert_eq!(c.etag, "da39a3ee5e6b4b0d3255bfef95601890afd80709");
}

#[test]
fn matching_tag_answers_not_modified() {
    let c = conditional(b"hello world", Some("2aae6c35c94fcfb415dbe95f408b9ce91ee846ed"));
    assert!(c.not_modified);
    let c = conditional(b"hello world", Some("2AAE6C35C94FCFB415DBE95F408B9CE91EE846ED"));
    assert!(!c.not_modified);
    let c = conditional(b"hello world!", Some("2aae6c35c94fcfb415dbe95f408b9ce91ee846ed"));
    assert!(!c.not_modified);
    let c = conditional(b"hello world", Some("\"2aae6c35c94fcfb415dbe95f408b9ce91ee846ed\""));
    assert!(!c.not_modified);
    assert_eq!(NOT_MODIFIED, 304);
}

#[test]
fn transfer_headers_are_not_passed_on() {
    assert!(is_blacklisted_header("content-encoding"));
    assert!(is_blacklisted_header("transfer-encoding"));
    assert!(is_blacklisted_header("connection"));
    assert!(!is_blacklisted_header("content-type"));
    assert!(!is_blacklisted_header("Connection"));
    assert!(!is_blacklisted_header(""));
}

#[test]
fn caller_holds_what_it_names_by_its_tag() {
    assert!(holds_already(Some("abc"), "abc"));
    assert!(!holds_already(Some("abc"), "abd"));
    assert!(!holds_already(Some(""), "abc"));
    assert!(!holds_already(None, "abc"));
    assert!(holds_already(Some(""), ""));
}
