use screenguard::json::Json;
use screenguard::release_check::{
    is_older, latest_asset_release, latest_releases, parse_semver, releases_url, Releases,
};

fn release(tag: &str, asset: &str) -> Json {
    let assets = Json::Array(vec![Json::object().with("name", Json::text(asset))]);
    Json::object().with("tag_name", Json::text(tag)).with("assets", assets)
}

#[test]
fn only_offer_available_platform_assets_and_stable_releases() {
    let releases = vec![
        release("v0.11.0", "screenguard-agent-x86_64"),
        release("v0.10.9", "screenguard-windows-x86_64.zip"),
        release("v0.12.0", "screenguard-windows-x86_64.zip").with("prerelease", Json::Bool(true)),
        release("v0.13.0", "screenguard-windows-x86_64.zip").with("draft", Json::Bool(true)),
    ];
    assert_eq!(
        latest_asset_release(&releases, "screenguard-windows-x86_64.zip").as_deref(),
        Some("0.10.9")
    );
    assert_eq!(latest_asset_release(&releases, "screenguard-agent-x86_64").as_deref(), Some("0.11.0"));
}

#[test]
fn versions_are_three_numbers() {
    assert_eq!(parse_semver("1.2.3"), Some((1, 2, 3)));
    assert_eq!(parse_semver("1.2.3.4"), Some((1, 2, 3)));
    assert_eq!(parse_semver("+1.02.4294967295"), Some((1, 2, 4294967295)));
    for text in ["", "1.2", "1.2.x", "1..3", "1.2.-3", "1.2.4294967296", "1.2.3-rc1", "v1.2.3", "1.2.+"] {
        assert_eq!(parse_semver(text), None, "{text}");
    }
}

#[test]
fn older_versions() {
    assert!(is_older("0.9.10", "0.10.0"));
    assert!(is_older("0.10.0", "0.10.1"));
    assert!(!is_older("0.10.1", "0.10.1"));
    assert!(!is_older("1.0.0", "0.99.99"));
    assert!(is_older("dev", "0.1.0"));
    assert!(!is_older("dev", "dev"));
    assert!(is_older("0.1", "0.1.0"));
}

#[test]
fn the_highest_version_is_offered_whatever_the_order() {
    let releases = vec![
        release("v1.9.0", "a"),
        release("v1.10.0", "a"),
        release("v1.2.0", "a"),
        release("mobile2.0.0", "a"),
        release("vnext", "a"),
        release("v3.0.0", "b"),
        release("v01.10.0", "a"),
        Json::Null,
    ];
    assert_eq!(latest_asset_release(&releases, "a").as_deref(), Some("01.10.0"));
    assert_eq!(latest_asset_release(&releases, "c"), None);
}

#[test]
fn releases_for_platforms() {
    let found = latest_releases(&vec![
        release("v0.11.0", "screenguard-agent-x86_64"),
        release("v0.10.9", "screenguard-windows-x86_64.zip"),
    ]);
    assert_eq!(found.for_platform("windows"), Some("0.10.9"));
    assert_eq!(found.for_platform("linux"), Some("0.11.0"));
    assert_eq!(found.for_platform("anything"), Some("0.11.0"));
    assert_eq!(Releases::default().for_platform("windows"), None);
    assert_eq!(
        releases_url("owner/name"),
        "https://api.github.com/repos/owner/name/releases?per_page=50"
    );
}

#[test]
fn only_tags_of_three_pieces_count() {
    let releases = vec![
        release("v0.10.0", "screenguard-agent-x86_64"),
        release("v0.11.0.1", "screenguard-agent-x86_64"),
        release("mobile0.12.0", "screenguard-agent-x86_64"),
        release("v0.13", "screenguard-agent-x86_64"),
    ];
    let latest = latest_releases(&releases);
    assert_eq!(latest.linux.as_deref(), Some("0.10.0"));
    assert_eq!(latest.windows, None);
    let releases = vec![release("v9.9.9.9", "screenguard-windows-x86_64.zip")];
    assert_eq!(latest_releases(&releases).windows, None);
}
