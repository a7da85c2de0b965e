use heart_portal::upgrade::{
    asset_name, backup_stamp_text, binary_path, latest_download_url, platform_slug,
    release_version, Platform,
};
use heart_portal::versions::{compare_versions, upgrade_available};
use heart_portal::platform::TargetOs;
use std::cmp::Ordering;

#[test]
fn compare_versions_orders_semver() {
    assert_eq!(compare_versions("0.5.0", "0.4.9"), Ordering::Greater);
    assert_eq!(compare_versions("0.4.9", "0.5.0"), Ordering::Less);
    assert_eq!(compare_versions("0.5.0", "0.5.0"), Ordering::Equal);
    assert_eq!(compare_versions("v1.0.0", "0.9.9"), Ordering::Greater);
    assert_eq!(compare_versions("0.10.0", "0.9.0"), Ordering::Greater);
}

#[test]
fn version_order_is_antisymmetric_on_samples() {
    for (a, b) in [("1.2", "1.10"), ("0.1.0", "0.1"), ("2.0.0", "v2.0.0")] {
        assert_eq!(compare_versions(a, b), compare_versions(b, a).reverse());
    }
}

#[test]
fn upgrade_only_to_newer() {
    assert!(upgrade_available("0.6.1", "0.6.0"));
    assert!(!upgrade_available("0.6.0", "0.6.0"));
    assert!(!upgrade_available("0.5.9", "0.6.0"));
}

#[test]
fn platform_slug_supports_windows() {
    assert_eq!(platform_slug("windows", "x86_64").unwrap(), "windows-x86_64");
    assert_eq!(platform_slug("windows", "aarch64").unwrap(), "windows-aarch64");
    assert!(platform_slug("windows", "i686").is_err());
}

#[test]
fn platform_slug_covers_macos_and_linux() {
    assert_eq!(platform_slug("macos", "aarch64").unwrap(), "macos-arm64");
    assert_eq!(platform_slug("linux", "x86_64").unwrap(), "linux-x86_64");
    assert!(platform_slug("freebsd", "x86_64").is_err());
}

#[test]
fn windows_asset_name_uses_exe_suffix() {
    let platform = Platform { slug: "windows-x86_64".to_string() };
    assert_eq!(asset_name(&platform), "heart-portal-windows-x86_64.exe");
    assert!(latest_download_url(&platform).ends_with("heart-portal-windows-x86_64.exe"));
}

#[test]
fn unix_asset_name_has_no_suffix() {
    let platform = Platform { slug: "linux-x86_64".to_string() };
    assert_eq!(asset_name(&platform), "heart-portal-linux-x86_64");
}

#[test]
fn release_version_drops_leading_v() {
    assert_eq!(release_version("v0.7.0"), "0.7.0");
    assert_eq!(release_version("0.7.0"), "0.7.0");
}

#[test]
fn binary_path_per_platform() {
    assert_eq!(binary_path("/opt/portal", &TargetOs::Linux), "/opt/portal/heart-portal");
    assert!(binary_path(r"C:\portal", &TargetOs::Windows).ends_with("heart-portal.exe"));
}

#[test]
fn backup_stamp_falls_back_to_unknown() {
    assert_eq!(backup_stamp_text(Some(42)), "42");
    assert_eq!(backup_stamp_text(None), "unknown");
}
