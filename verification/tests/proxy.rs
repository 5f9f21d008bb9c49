use api_core::proxy::{download_url, icon_location, is_passed_on, DownloadFailure, NOT_FOUND};
use api_core::text::remove_all;

#[test]
fn fabric_downloads_come_from_the_fabric_server() {
    assert_eq!(
        download_url("fabric", "1.21.1", "0.16.5", "1.0.1.jar"),
        Ok("https://meta.fabricmc.net/v2/versions/loader/1.21.1/0.16.5/1.0.1/server/jar".to_string())
    );
    assert_eq!(
        download_url("legacy-fabric", "1.8.9", "0.14.0", "1.0.0"),
        Ok("https://meta.legacyfabric.net/v2/versions/loader/1.8.9/0.14.0/1.0.0/server/jar"
            .to_string())
    );
}

#[test]
fn other_projects_have_no_server() {
    assert_eq!(download_url("paper", "1", "2", "3"), Err(DownloadFailure::UnknownProject));
    assert_eq!(download_url("Fabric", "1", "2", "3"), Err(DownloadFailure::UnknownProject));
    assert_eq!(download_url("", "1", "2", "3"), Err(DownloadFailure::UnknownProject));
}

#[test]
fn failures_carry_their_message() {
    assert_eq!(DownloadFailure::UnknownProject.message(), "project not supported");
    assert_eq!(DownloadFailure::Unreachable.message(), "error fetching build");
    assert_eq!(DownloadFailure::Missing.message(), "build not found");
    assert_eq!(NOT_FOUND, 404);
}

#[test]
fn only_a_success_is_passed_on() {
    assert!(is_passed_on(200));
    assert!(is_passed_on(299));
    assert!(!is_passed_on(199));
    assert!(!is_passed_on(300));
    assert!(!is_passed_on(404));
}

#[test]
fn pattern_is_removed_wherever_it_occurs() {
    assert_eq!(remove_all("1.0.1.jar", ".jar"), "1.0.1");
    assert_eq!(remove_all(".jar.jar", ".jar"), "");
    assert_eq!(remove_all("a.jarb.jar.ja", ".jar"), "ab.ja");
    assert_eq!(remove_all("abc", ""), "abc");
    assert_eq!(remove_all("", ".jar"), "");
    for (s, p) in [("aaaa", "aa"), ("aaa", "aa"), ("abababa", "aba"), (".j.jarar", ".jar"), ("xx", "xxx")] {
        assert_eq!(remove_all(s, p), s.replace(p, ""));
    }
}

#[test]
fn icons_live_under_the_storage() {
    assert_eq!(
        icon_location("https://s3.example.org", "paper"),
        "https://s3.example.org/icons/paper.png"
    );
}
