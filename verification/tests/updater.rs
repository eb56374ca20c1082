use jotty_core::updater::{
    asset_file_name, check_apk_list, check_latest, install_args, install_outcome, is_newer, parse_release,
    parse_release_list, pick_apk_asset, GhAsset, GhRelease,
};

fn asset(n: &str, u: &str) -> GhAsset {
    GhAsset { name: n.into(), browser_download_url: u.into() }
}

fn release(tag: &str, draft: bool, assets: &[(&str, &str)]) -> GhRelease {
    GhRelease { tag_name: tag.into(), assets: assets.iter().map(|(n, u)| asset(n, u)).collect(), draft }
}

#[test]
fn newer_patch_returns_true() {
    assert!(is_newer("0.6.1", "v0.6.2").unwrap());
}

#[test]
fn same_version_is_not_newer() {
    assert!(!is_newer("0.6.1", "v0.6.1").unwrap());
    assert!(!is_newer("0.6.1", "0.6.1").unwrap());
}

#[test]
fn minor_and_major_bumps_are_newer() {
    assert!(is_newer("0.6.1", "v0.7.0").unwrap());
    assert!(is_newer("0.6.1", "v1.0.0").unwrap());
}

#[test]
fn older_release_is_not_newer() {
    assert!(!is_newer("0.7.0", "v0.6.1").unwrap());
}

#[test]
fn malformed_tag_is_an_error_not_no_update() {
    assert!(is_newer("0.6.1", "banana").is_err());
    assert!(is_newer("garbage", "v0.6.1").is_err());
}

#[test]
fn malformed_versions_name_the_culprit() {
    let e = is_newer("garbage", "banana").unwrap_err();
    assert!(e.starts_with("bad current version \"garbage\": "), "{e}");
    let e = is_newer("0.6.1", "banana").unwrap_err();
    assert!(e.starts_with("bad release tag \"banana\": "), "{e}");
}

#[test]
fn prerelease_orders_below_its_release() {
    assert!(is_newer("0.10.1", "v0.10.2-android-preview").unwrap());
    assert!(!is_newer("0.10.2", "v0.10.2-android-preview").unwrap());
}

#[test]
fn parse_release_finds_the_rpm_asset() {
    let (tag, url) = parse_release(Ok(release("v0.7.0", false, &[
        ("jotty-desktop_0.7.0_amd64.deb", "https://x/deb"),
        ("jotty-desktop-0.7.0-1.x86_64.rpm", "https://x/rpm"),
        ("jotty-desktop_0.7.0_amd64.AppImage", "https://x/ai"),
    ]))).unwrap();
    assert_eq!(tag, "v0.7.0");
    assert_eq!(url.as_deref(), Some("https://x/rpm"));
}

#[test]
fn parse_release_without_rpm_asset_reports_none() {
    let (tag, url) = parse_release(Ok(release("v0.7.0", false, &[("jotty-desktop_0.7.0_amd64.deb", "https://x/deb")]))).unwrap();
    assert_eq!(tag, "v0.7.0");
    assert!(url.is_none());
}

#[test]
fn parse_release_rejects_unexpected_payload() {
    let r = parse_release(Err("missing field `tag_name`".into()));
    assert_eq!(r.unwrap_err(), "unexpected release payload: missing field `tag_name`");
}

#[test]
fn pick_apk_prefers_arm64_and_skips_non_apk_assets() {
    let rel = release("v1", false, &[
        ("jotty-desktop-0.10.2-amd64.deb", "https://x/deb"),
        ("jotty-desktop-0.10.2-android-arm64.apk", "https://x/apk-arm64"),
    ]);
    assert_eq!(pick_apk_asset(&rel.assets).as_deref(), Some("https://x/apk-arm64"));
    let rel2 = release("v1", false, &[("jotty-desktop_1_amd64.deb", "https://x/deb")]);
    assert!(pick_apk_asset(&rel2.assets).is_none());
    let rel3 = release("v1", false, &[("a-x86.apk", "https://x/a"), ("b-arm64.apk", "https://x/b")]);
    assert_eq!(pick_apk_asset(&rel3.assets).as_deref(), Some("https://x/b"));
    let rel4 = release("v1", false, &[("a-x86.apk", "https://x/a"), ("c.apk", "https://x/c")]);
    assert_eq!(pick_apk_asset(&rel4.assets).as_deref(), Some("https://x/a"));
}

#[test]
fn parse_release_list_picks_newest_apk_release_and_skips_drafts_and_desktop_only() {
    let list = vec![
        release("v0.11.0", true, &[("jotty-0.11.0-android-arm64.apk", "https://x/apk-draft")]),
        release("v0.11.0", false, &[("jotty-0.11.0-1.x86_64.rpm", "https://x/rpm")]),
        release("v0.10.2-android-preview", false, &[("jotty-desktop-0.10.2-android-arm64.apk", "https://x/apk-0102")]),
        release("v0.10.1-android-preview", false, &[("jotty-desktop-0.10.1-android-arm64.apk", "https://x/apk-0101")]),
    ];
    let found = parse_release_list(Ok(list)).unwrap();
    assert_eq!(found, Some(("v0.10.2-android-preview".into(), "https://x/apk-0102".into())));
    let empty = vec![release("v0.10.0", false, &[])];
    assert_eq!(parse_release_list(Ok(empty)).unwrap(), None);
}

#[test]
fn check_latest_reports_update_and_package() {
    let info = check_latest("0.6.1", Ok(release("v0.7.0", false, &[("jotty-desktop-0.7.0-1.x86_64.rpm", "https://x/rpm")]))).unwrap();
    assert_eq!(info.current, "0.6.1");
    assert_eq!(info.latest, "v0.7.0");
    assert!(info.available);
    assert_eq!(info.download_url.as_deref(), Some("https://x/rpm"));
    let same = check_latest("0.6.1", Ok(release("v0.6.1", false, &[]))).unwrap();
    assert!(!same.available);
    assert!(check_latest("0.6.1", Ok(release("banana", false, &[]))).is_err());
}

#[test]
fn check_apk_list_without_android_release_is_up_to_date() {
    let info = check_apk_list("0.10.1", Ok(vec![release("v0.10.0", false, &[])])).unwrap();
    assert_eq!(info.latest, "none");
    assert!(!info.available);
    assert!(info.download_url.is_none());
    let info2 = check_apk_list("0.10.1", Ok(vec![release("v0.10.2-android-preview", false, &[("x-arm64.apk", "https://x/apk")])])).unwrap();
    assert!(info2.available);
    assert_eq!(info2.download_url.as_deref(), Some("https://x/apk"));
    assert_eq!(check_apk_list("0.1.0", Err("boom".into())).unwrap_err(), "unexpected releases payload: boom");
}

#[test]
fn asset_file_name_is_the_last_segment() {
    assert_eq!(asset_file_name("https://x/pkgs/jotty-0.7.0.rpm").unwrap(), "jotty-0.7.0.rpm");
    assert_eq!(asset_file_name("plain").unwrap(), "plain");
    assert_eq!(asset_file_name("https://x/").unwrap_err(), "bad asset url \"https://x/\"");
}

#[test]
fn install_command_and_outcome() {
    assert_eq!(install_args("/tmp/x/jotty-0.7.0-1.x86_64.rpm"), vec!["/usr/bin/dnf", "install", "-y", "/tmp/x/jotty-0.7.0-1.x86_64.rpm"]);
    assert_eq!(install_outcome(Ok((true, "exit status: 0".into(), "".into()))), Ok(()));
    assert_eq!(
        install_outcome(Ok((false, "exit status: 1".into(), " nothing provides x \n".into()))),
        Err("dnf install failed (exit status: 1): nothing provides x".to_string())
    );
    assert_eq!(install_outcome(Err("no pkexec".into())), Err("cannot launch installer: no pkexec".to_string()));
}
