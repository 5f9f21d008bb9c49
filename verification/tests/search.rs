use api_core::search::{
    all_of, build_key, escape_string, found_build, too_many_searches, BuildSearch, BUILD_TTL,
    LOOKUP_ROWS, MAX_SEARCHES,
};

fn nothing() -> BuildSearch {
    BuildSearch {
        id: None,
        server_type: None,
        version_id: None,
        project_version_id: None,
        build_number: None,
        experimental: None,
        jar_url: None,
        jar_size: None,
        zip_url: None,
        zip_size: None,
        hash: None,
    }
}

fn no_digest() -> api_core::search::Hash {
    api_core::search::Hash { primary: None, sha1: None, sha224: None, sha256: None, sha384: None, sha512: None, md5: None }
}

#[test]
fn empty_search_says_nothing() {
    assert!(!nothing().any());
    assert!(nothing().conditions().is_empty());
    assert_eq!(all_of(&nothing().conditions()), "");
    assert_eq!(nothing().source(), "builds");
}

#[test]
fn primary_alone_is_no_digest() {
    let mut hash = no_digest();
    hash.primary = Some(true);
    assert!(!hash.any());
    let mut search = nothing();
    search.hash = Some(hash);
    assert!(!search.any());
    assert!(search.conditions().is_empty());
    assert_eq!(search.source(), "builds");
}

#[test]
fn each_field_makes_a_search() {
    let mut s = nothing();
    s.id = Some(1);
    assert!(s.any());
    let mut s = nothing();
    s.zip_size = Some(0);
    assert!(s.any());
    let mut s = nothing();
    s.experimental = Some(false);
    assert!(s.any());
    let mut s = nothing();
    let mut h = no_digest();
    h.md5 = Some("d41d8cd98f00b204e9800998ecf8427e".to_string());
    s.hash = Some(h.clone());
    assert!(h.any());
    assert!(s.any());
}

#[test]
fn conditions_follow_the_fields() {
    let search = BuildSearch {
        id: Some(42),
        server_type: Some("PAPER".to_string()),
        version_id: Some("1.21.1".to_string()),
        project_version_id: Some("it's".to_string()),
        build_number: Some(130),
        experimental: Some(false),
        jar_url: Some("https://example.org/a.jar".to_string()),
        jar_size: Some(0),
        zip_url: Some("z".to_string()),
        zip_size: Some(4_294_967_295),
        hash: Some(api_core::search::Hash {
            primary: Some(true),
            sha1: Some("aa".to_string()),
            sha224: Some("bb".to_string()),
            sha256: Some("cc".to_string()),
            sha384: Some("dd".to_string()),
            sha512: Some("ee".to_string()),
            md5: Some("ff".to_string()),
        }),
    };
    assert_eq!(
        search.conditions(),
        vec![
            "builds.id = 42",
            "builds.type = 'PAPER'",
            "builds.version_id = '1.21.1'",
            "builds.project_version_id = 'it''s'",
            "builds.build_number = 130",
            "builds.experimental = false",
            "builds.jar_url = 'https://example.org/a.jar'",
            "builds.jar_size = 0",
            "builds.zip_url = 'z'",
            "builds.zip_size = 4294967295",
            "build_hashes.primary = true",
            "build_hashes.sha1 = 'aa'",
            "build_hashes.sha224 = 'bb'",
            "build_hashes.sha256 = 'cc'",
            "build_hashes.sha384 = 'dd'",
            "build_hashes.sha512 = 'ee'",
            "build_hashes.md5 = 'ff'",
        ]
    );
    assert_eq!(
        search.source(),
        "build_hashes INNER JOIN builds ON builds.id = build_hashes.build_id"
    );
}

#[test]
fn conditions_are_joined_with_and() {
    let mut search = nothing();
    search.server_type = Some("VANILLA".to_string());
    search.experimental = Some(true);
    let mut h = no_digest();
    h.sha256 = Some("00".to_string());
    search.hash = Some(h);
    assert_eq!(
        all_of(&search.conditions()),
        "builds.type = 'VANILLA' AND builds.experimental = true AND build_hashes.sha256 = '00'"
    );
    assert_eq!(all_of(&vec!["a".to_string()]), "a");
    let parts = vec!["a".to_string(), "".to_string(), "c".to_string()];
    assert_eq!(all_of(&parts), parts.join(" AND "));
}

#[test]
fn single_quotes_are_doubled() {
    assert_eq!(escape_string("o'neil"), "o''neil");
    assert_eq!(escape_string("''"), "''''");
    assert_eq!(escape_string("plain"), "plain");
    assert_eq!(escape_string(""), "");
}

#[test]
fn more_than_ten_searches_are_too_many() {
    assert!(!too_many_searches(0));
    assert!(!too_many_searches(10));
    assert!(too_many_searches(11));
    assert_eq!(MAX_SEARCHES, 10);
}

#[test]
fn lookup_finds_a_build_in_exactly_two_rows() {
    assert!(found_build(2));
    assert!(!found_build(0));
    assert!(!found_build(1));
    assert!(!found_build(3));
    assert_eq!(LOOKUP_ROWS, 2);
}

#[test]
fn search_is_cached_under_its_fingerprint() {
    assert_eq!(build_key(b"hello world"), "build::2aae6c35c94fcfb415dbe95f408b9ce91ee846ed");
    assert_eq!(build_key(b""), "build::da39a3ee5e6b4b0d3255bfef95601890afd80709");
    assert_eq!(BUILD_TTL, 3600);
}
