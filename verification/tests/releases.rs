use yourls::version::{is_newer, latest_release_url, parse_version, release_of_reply, update_outcome, UpdateOutcome};
use yourls::messages::{copied_notice, new_release_notice, restored_notice, shortened_notice, up_to_date_notice};

#[test]
fn versions_are_read_from_tags() {
    assert_eq!(parse_version("v1.2.3"), Some((1, 2, 3)));
    assert_eq!(parse_version("1.2.3-beta.1"), Some((1, 2, 3)));
    assert_eq!(parse_version("10.0.7.9"), Some((10, 0, 7)));
    assert_eq!(parse_version("1.2"), None);
    assert_eq!(parse_version("v1.x.3"), None);
    assert_eq!(parse_version("vv1.2.3"), None);
}

#[test]
fn newer_goes_by_major_minor_patch() {
    assert!(is_newer("v1.10.0", "1.9.9"));
    assert!(is_newer("2.0.0", "1.99.99"));
    assert!(!is_newer("1.2.3", "v1.2.3"));
    assert!(!is_newer("1.2.2", "1.2.3"));
    assert!(is_newer("nightly", "1.0.0"));
    assert!(!is_newer("same", "same"));
}

#[test]
fn a_newer_release_is_offered_with_its_page() {
    match update_outcome(Some("v2.0.0"), None, "1.0.0", "Bluscream", "yourls-tray-app") {
        UpdateOutcome::Offer { tag, page } => {
            assert_eq!(tag, "v2.0.0");
            assert_eq!(page, "https://github.com/Bluscream/yourls-tray-app/releases/latest");
        }
        other => panic!("expected Offer, got {other:?}"),
    }
    match update_outcome(Some("v2.0.0"), Some("https://x/r"), "1.0.0", "u", "r") {
        UpdateOutcome::Offer { page, .. } => assert_eq!(page, "https://x/r"),
        other => panic!("expected Offer, got {other:?}"),
    }
    assert!(matches!(update_outcome(Some("1.0.0"), None, "1.0.0", "u", "r"), UpdateOutcome::UpToDate));
    assert!(matches!(update_outcome(None, None, "1.0.0", "u", "r"), UpdateOutcome::Unknown));
    assert_eq!(
        latest_release_url("Bluscream", "yourls-tray-app"),
        "https://api.github.com/repos/Bluscream/yourls-tray-app/releases/latest"
    );
}

#[test]
fn notices_fill_their_blanks() {
    assert_eq!(shortened_notice("Long: {text}\nShort: {response}", "a", "b"), "Long: a\nShort: b");
    assert_eq!(shortened_notice("{} -> {} ({})", "a", "b"), "a -> b ({})");
    assert_eq!(restored_notice("deleted {short_url}, restored {long_url}", "s", "l"), "deleted s, restored l");
    assert_eq!(restored_notice("{}|{}", "s", "l"), "s|l");
    assert_eq!(copied_notice("{short_url} and {}", "x"), "x and x");
    assert_eq!(new_release_notice("{tag_name} > {current_version}", "v2", "1"), "v2 > 1");
    assert_eq!(new_release_notice("New {} (you have {})", "v2", "1"), "New v2 (you have v2)");
    assert_eq!(up_to_date_notice("{current_version} / {} / {}", "1.0"), "1.0 / 1.0 / 1.0");
}

#[test]
fn a_release_reply_gives_its_tag_and_page() {
    let (tag, page) = release_of_reply(
        r#"{"tag_name":"v1.4.2","html_url":"https://github.com/u/r/releases/tag/v1.4.2","draft":false}"#,
    );
    assert_eq!(tag.as_deref(), Some("v1.4.2"));
    assert_eq!(page.as_deref(), Some("https://github.com/u/r/releases/tag/v1.4.2"));
    assert_eq!(release_of_reply(r#"{"tag_name":7}"#), (None, None));
    assert_eq!(release_of_reply("<html>rate limited</html>"), (None, None));
}
