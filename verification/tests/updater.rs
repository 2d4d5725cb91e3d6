use serapod::updater::{
    check_digest, check_release_size, check_size, count_download, installer_file_name, offer_from_release,
    parse_handoff, partial_file_name, ready_file_name, redirect_allowed, require_idle,
    valid_old_path, Asset, Offer, Release, MAX_DOWNLOAD,
};
use serapod::paths::{compare_paths, path_components};
use sha2::{Digest, Sha256};

const REPO: &str = "odessadraekavik/SERAPOD";

fn release(version: &str) -> Release {
    Release {
        tag_name: format!("v{version}"),
        draft: false,
        prerelease: false,
        body: Some("Release notes".into()),
        assets: vec![Asset {
            name: format!("SERAPOD-{version}.exe"),
            browser_download_url: format!(
                "https://github.com/{REPO}/releases/download/v{version}/SERAPOD-{version}.exe"
            ),
            size: 2,
            digest: Some(format!("sha256:{}", "a".repeat(64))),
        }],
    }
}

#[test]
fn semver_and_stable_releases_only() {
    assert!(offer_from_release(release("0.10.0"), "0.9.0").unwrap().is_some());
    assert!(offer_from_release(release("0.8.0"), "0.8.0").unwrap().is_none());
    assert!(offer_from_release(release("0.7.3"), "0.8.0").unwrap().is_none());
    assert!(offer_from_release(release("0.9.0-beta.1"), "0.8.0").unwrap().is_none());
    let mut r = release("0.9.0");
    r.draft = true;
    assert!(offer_from_release(r, "0.8.0").unwrap().is_none());
}

#[test]
fn rejects_wrong_origin_missing_digest_and_size() {
    let mut r = release("0.9.0");
    r.assets[0].browser_download_url = "https://example.com/update.exe".into();
    assert!(offer_from_release(r, "0.8.0").is_err());
    let mut r = release("0.9.0");
    r.assets[0].digest = None;
    assert!(offer_from_release(r, "0.8.0").is_err());
    let mut r = release("0.9.0");
    r.assets[0].size = MAX_DOWNLOAD + 1;
    assert!(offer_from_release(r, "0.8.0").is_err());
}

#[test]
fn handoff_never_deletes_unrelated_or_newer_files() {
    let current = r"C:\Apps\SERAPOD-0.9.0.exe";
    assert!(valid_old_path(r"C:\Apps\SERAPOD-0.8.0.exe", current, "0.9.0"));
    for path in [
        r"C:\Other\SERAPOD-0.8.0.exe",
        r"C:\Apps\notes.txt",
        r"C:\Apps\SERAPOD-1.0.0.exe",
        r"C:\Apps\SERAPOD-0.9.0.exe",
    ] {
        assert!(!valid_old_path(path, current, "0.9.0"));
    }
}

#[test]
fn integrity_rejects_corruption_and_truncation() {
    let mut offer = offer_from_release(release("0.9.0"), "0.8.0").unwrap().unwrap();
    offer.sha256 = format!("{:x}", Sha256::digest(b"MZ"));
    assert!(check_size(2, &offer).is_ok());
    assert!(check_digest(b"MZ", &offer).is_ok());
    assert!(check_size(2, &offer).is_ok());
    assert_eq!(check_digest(b"XX", &offer).unwrap_err(), "updateIntegrity");
    assert!(check_size(1, &offer).is_err());
}

#[test]
fn offer_carries_release_details() {
    let mut r = release("0.10.0");
    r.assets[0].digest = Some(format!("sha256:{}", "AB".repeat(32)));
    r.assets[0].size = 1234;
    let offer: Offer = offer_from_release(r, "0.9.0").unwrap().unwrap();
    assert_eq!(offer.current_version, "0.9.0");
    assert_eq!(offer.version, "0.10.0");
    assert_eq!(offer.notes, "Release notes");
    assert_eq!(
        offer.url,
        "https://github.com/odessadraekavik/SERAPOD/releases/download/v0.10.0/SERAPOD-0.10.0.exe"
    );
    assert_eq!(offer.size, 1234);
    assert_eq!(offer.sha256, "ab".repeat(32));
}

#[test]
fn offer_notes_are_cut_and_tag_may_lack_v() {
    let mut r = release("1.2.3");
    r.tag_name = "1.2.3".into();
    r.assets[0].browser_download_url =
        "https://github.com/odessadraekavik/SERAPOD/releases/download/1.2.3/SERAPOD-1.2.3.exe".into();
    r.body = Some("é".repeat(13000));
    let offer = offer_from_release(r, "1.0.0").unwrap().unwrap();
    assert_eq!(offer.notes.chars().count(), 12000);
    let mut r = release("1.2.3");
    r.body = None;
    assert_eq!(offer_from_release(r, "1.0.0").unwrap().unwrap().notes, "");
}

#[test]
fn offer_errors_are_update_invalid() {
    let invalid = Err("updateInvalid".to_string());
    let mut r = release("0.9.0");
    r.tag_name = "vnext".into();
    assert_eq!(offer_from_release(r, "0.8.0").map(|o| o.is_some()), invalid.clone());
    assert_eq!(offer_from_release(release("0.9.0"), "current").map(|o| o.is_some()), invalid.clone());
    let mut r = release("0.9.0");
    r.assets[0].name = "SERAPOD.exe".into();
    assert_eq!(offer_from_release(r, "0.8.0").map(|o| o.is_some()), invalid.clone());
    let mut r = release("0.9.0");
    r.assets[0].digest = Some(format!("md5:{}", "a".repeat(64)));
    assert_eq!(offer_from_release(r, "0.8.0").map(|o| o.is_some()), invalid.clone());
    let mut r = release("0.9.0");
    r.assets[0].digest = Some(format!("sha256:{}", "g".repeat(64)));
    assert_eq!(offer_from_release(r, "0.8.0").map(|o| o.is_some()), invalid.clone());
    let mut r = release("0.9.0");
    r.assets[0].digest = Some(format!("sha256:{}", "a".repeat(63)));
    assert_eq!(offer_from_release(r, "0.8.0").map(|o| o.is_some()), invalid.clone());
    let mut r = release("0.9.0");
    r.assets[0].size = 1;
    assert_eq!(offer_from_release(r, "0.8.0").map(|o| o.is_some()), invalid.clone());
    let mut r = release("0.9.0");
    r.prerelease = true;
    assert!(matches!(offer_from_release(r, "0.8.0"), Ok(None)));
}

#[test]
fn download_counting_and_limits() {
    assert_eq!(count_download(10, 5, 20), Ok(15));
    assert_eq!(count_download(10, 10, 20), Ok(20));
    assert_eq!(count_download(10, 11, 20), Err("updateIntegrity".to_string()));
    assert_eq!(count_download(u64::MAX, usize::MAX, u64::MAX), Err("updateIntegrity".to_string()));
    assert_eq!(check_release_size(2 * 1024 * 1024), Ok(()));
    assert_eq!(check_release_size(2 * 1024 * 1024 + 1), Err("updateInvalid".to_string()));
    assert_eq!(MAX_DOWNLOAD, 200 * 1024 * 1024);
}

#[test]
fn redirects_stay_on_github_over_https() {
    assert!(redirect_allowed(0, "https", "github.com"));
    assert!(redirect_allowed(4, "https", "objects.githubusercontent.com"));
    assert!(redirect_allowed(1, "https", "release-assets.githubusercontent.com"));
    assert!(redirect_allowed(1, "https", "api.github.com"));
    assert!(!redirect_allowed(5, "https", "github.com"));
    assert!(!redirect_allowed(0, "http", "github.com"));
    assert!(!redirect_allowed(0, "https", "example.com"));
}

#[test]
fn handoff_file_names() {
    assert_eq!(installer_file_name("0.9.0"), "SERAPOD-0.9.0.exe");
    assert_eq!(partial_file_name("0.9.0", 4321), ".SERAPOD-0.9.0-4321.part");
    assert_eq!(ready_file_name(0), ".serapod-update-0.ready");
    assert_eq!(ready_file_name(4294967295), ".serapod-update-4294967295.ready");
}

#[test]
fn handoff_command_line() {
    assert_eq!(parse_handoff(1, None, None), Ok(None));
    assert_eq!(parse_handoff(4, Some("--other"), Some("12")), Ok(None));
    assert_eq!(parse_handoff(4, Some("--serapod-update"), Some("12")), Ok(Some(12)));
    assert_eq!(parse_handoff(4, Some("--serapod-update"), Some("+12")), Ok(Some(12)));
    assert_eq!(parse_handoff(3, Some("--serapod-update"), Some("12")), Err("Invalid update handoff".to_string()));
    assert_eq!(parse_handoff(5, Some("--serapod-update"), Some("x")), Err("Invalid update handoff".to_string()));
    assert_eq!(parse_handoff(4, Some("--serapod-update"), Some("x")), Err("Invalid update process".to_string()));
    assert_eq!(parse_handoff(4, Some("--serapod-update"), Some("4294967296")), Err("Invalid update process".to_string()));
    assert_eq!(parse_handoff(4, Some("--serapod-update"), None), Err("Invalid update process".to_string()));
    assert_eq!(parse_handoff(4, Some("--serapod-update"), Some("4294967295")), Ok(Some(4294967295)));
}

#[test]
fn busy_installation_refuses_requests() {
    assert_eq!(require_idle(false), Ok(()));
    assert_eq!(require_idle(true), Err("updateBusy".to_string()));
}

#[test]
fn paths_compare_by_components() {
    assert_eq!(path_components(r"C:\Apps\SERAPOD-0.8.0.exe"), vec!["C:", "\\", "Apps", "SERAPOD-0.8.0.exe"]);
    assert_eq!(path_components(r"C:\Apps\\SERAPOD-0.8.0.exe\"), vec!["C:", "\\", "Apps", "SERAPOD-0.8.0.exe"]);
    assert_eq!(path_components(r"C:\Apps\.\SERAPOD-0.8.0.exe"), vec!["C:", "\\", "Apps", "SERAPOD-0.8.0.exe"]);
    assert_eq!(path_components("dir/sub//file"), vec!["dir", "sub", "file"]);
    assert_eq!(path_components("./a/./b"), vec![".", "a", "b"]);
    assert_eq!(path_components("/./a"), vec!["\\", "a"]);
    assert_eq!(path_components("C:a"), vec!["C:", "a"]);
    assert_eq!(path_components(r"\\?\C:\Apps\.\x/y"), vec![r"\\?\C:", "\\", "Apps", ".", "x/y"]);
    assert_eq!(path_components("file.exe"), vec!["file.exe"]);
    assert_eq!(path_components(""), Vec::<String>::new());
    assert_eq!(compare_paths(r"C:\Apps\x.exe", "C:/Apps/y.exe"), (false, true, "x.exe".to_string()));
    assert_eq!(compare_paths(r"C:\Apps\..", r"C:\Apps\.."), (true, true, String::new()));
    assert_eq!(compare_paths(r"C:\", r"C:\"), (true, true, String::new()));
    assert_eq!(compare_paths(r"C:\", "x.exe"), (false, false, String::new()));
    assert_eq!(compare_paths("x.exe", r"Apps\y.exe"), (false, false, "x.exe".to_string()));
    let current = r"C:\Apps\SERAPOD-0.9.0.exe";
    assert!(valid_old_path(r"C:\Apps\\SERAPOD-0.8.0.exe", current, "0.9.0"));
    assert!(valid_old_path(r"C:\Apps\SERAPOD-0.8.0.exe\", current, "0.9.0"));
    assert!(valid_old_path(r"C:\Apps\.\SERAPOD-0.8.0.exe", current, "0.9.0"));
    assert!(valid_old_path("C:/Apps/SERAPOD-0.8.0.exe", current, "0.9.0"));
    assert!(!valid_old_path(r"C:\Apps\\SERAPOD-0.9.0.exe", current, "0.9.0"));
    assert!(!valid_old_path(r"C:\Apps\Sub\SERAPOD-0.8.0.exe", current, "0.9.0"));
    assert!(!valid_old_path(r"C:Apps\SERAPOD-0.8.0.exe", current, "0.9.0"));
    assert!(valid_old_path(r"\\?\C:\Apps\SERAPOD-0.8.0.exe", r"\\?\C:\Apps\SERAPOD-0.9.0.exe", "0.9.0"));
    assert!(!valid_old_path(r"\\?\C:\Apps\.\SERAPOD-0.8.0.exe", r"\\?\C:\Apps\SERAPOD-0.9.0.exe", "0.9.0"));
}

#[test]
fn older_versions_compare_as_semver() {
    let current = r"C:\Apps\SERAPOD-0.10.0.exe";
    assert!(valid_old_path(r"C:\Apps\SERAPOD-0.9.0.exe", current, "0.10.0"));
    assert!(valid_old_path(r"C:\Apps\SERAPOD-0.10.0-beta.1.exe", current, "0.10.0"));
    assert!(valid_old_path(r"C:\Apps\SERAPOD-0.9.9+build.7.exe", current, "0.10.0"));
    assert!(!valid_old_path(r"C:\Apps\SERAPOD-0.10.1.exe", current, "0.10.0"));
    assert!(!valid_old_path(r"C:\Apps\SERAPOD-v0.9.0.exe", current, "0.10.0"));
    assert!(!valid_old_path(r"C:\Apps\serapod-0.9.0.exe", current, "0.10.0"));
    assert!(!valid_old_path(r"C:\Apps\SERAPOD-0.9.0.exe", current, "not-a-version"));
    assert!(valid_old_path("C:/Apps/SERAPOD-0.9.0.exe", "C:/Apps/SERAPOD-0.10.0.exe", "0.10.0"));
}
