use rwinscp::update::{is_newer, platform_asset, release_update, ReleaseAsset};

fn asset(name: &str, url: &str) -> ReleaseAsset {
    ReleaseAsset { name: Some(name.to_owned()), url: Some(url.to_owned()) }
}

#[test]
fn picks_the_asset_for_this_platform() {
    let release = vec![
        asset("rwinSCP-macos-arm64.dmg", "https://example.invalid/arm64.dmg"),
        asset("rwinSCP-macos-x64.dmg", "https://example.invalid/x64.dmg"),
        asset("rwinSCP-0.9.7-linux-x64.AppImage", "https://example.invalid/app.AppImage"),
        asset("rwinSCP-0.9.7-linux-x64.deb", "https://example.invalid/pkg.deb"),
        asset("rwinSCP-0.9.7-windows-x64-setup.exe", "https://example.invalid/setup.exe"),
    ];
    for expected in
        ["macos-arm64.dmg", "macos-x64.dmg", "linux-x64.AppImage", "windows-x64-setup.exe"]
    {
        let asset = platform_asset(&release, Some(expected)).expect("this platform has an asset");
        assert!(
            asset.name.ends_with(expected),
            "picked {} for a platform expecting {expected}",
            asset.name
        );
    }
}

#[test]
fn missing_asset_is_not_invented() {
    let release = vec![asset("source.tar.gz", "https://example.invalid/source.tar.gz")];
    assert!(platform_asset(&release, Some("linux-x64.AppImage")).is_none());
}

#[test]
fn detects_a_newer_release() {
    assert!(is_newer("v0.2.0", "0.1.0"));
    assert!(is_newer("0.1.1", "0.1.0"));
    assert!(is_newer("v1.0.0", "0.9.9"));
}

#[test]
fn ignores_same_or_older() {
    assert!(!is_newer("v0.1.0", "0.1.0"));
    assert!(!is_newer("v0.1.0", "0.2.0"));
    assert!(!is_newer("v0.9.9", "1.0.0"));
}

#[test]
fn compares_numerically_not_lexically() {
    assert!(is_newer("v0.10.0", "0.9.0"));
    assert!(!is_newer("v0.9.0", "0.10.0"));
}

#[test]
fn tolerates_odd_tags() {
    assert!(!is_newer("", "0.1.0"));
    assert!(!is_newer("not-a-version", "0.1.0"));
    assert!(is_newer("v0.2.0-rc1", "0.1.0"));
    assert!(!is_newer("v0.1", "0.1.0"));
}

#[test]
fn newer_is_never_both_ways() {
    let tags = ["v1.2.3", "1.2", "1.2.3.1", "V2", " 0.0.1 ", "1.2.3+build", "x"];
    for a in tags {
        assert!(!is_newer(a, a));
        for b in tags {
            assert!(!(is_newer(a, b) && is_newer(b, a)));
        }
    }
}

#[test]
fn an_asset_without_a_url_is_passed_over() {
    let release = vec![
        ReleaseAsset { name: Some("a-linux-x64.AppImage".to_owned()), url: None },
        asset("b-linux-x64.AppImage", "https://example.invalid/b"),
    ];
    let picked = platform_asset(&release, Some("linux-x64.AppImage")).expect("b fits");
    assert_eq!(picked.name, "b-linux-x64.AppImage");
    assert!(platform_asset(&release, None).is_none());
}

#[test]
fn a_newer_release_is_announced() {
    let assets = vec![asset("rwinSCP-linux-x64.AppImage", "https://example.invalid/app")];
    let update = release_update(Some("vv1.0.0"), None, &assets, Some("linux-x64.AppImage"), "0.9.0")
        .expect("newer");
    assert_eq!(update.version, "1.0.0");
    assert_eq!(update.url, "https://github.com/Rinny-Inc/rwinSCP/releases");
    assert_eq!(update.asset.expect("asset").url, "https://example.invalid/app");
    assert!(release_update(Some("v0.9.0"), None, &assets, None, "0.9.0").is_none());
    assert!(release_update(None, Some("page"), &assets, None, "0.9.0").is_none());
    let update = release_update(Some("2.0"), Some("page"), &assets, None, "1.0").expect("newer");
    assert_eq!(update.url, "page");
    assert!(update.asset.is_none());
}
