use rustfox::updater::{
    check_failed_message, download_failed_message, hint_or_default, is_prerelease,
    normalize_version, parse_segments, pick_asset, platform_key, release_update_info,
    sanitize_file_name, update_notice, version_gt, GhAsset, UpdateNotice,
};

fn asset(name: &str) -> GhAsset {
    GhAsset {
        name: name.to_string(),
        browser_download_url: format!("https://example.com/{name}"),
        size: 1024,
    }
}

#[test]
fn normalize_strips_v_prefix() {
    assert_eq!(normalize_version("v1.2.3"), "1.2.3");
    assert_eq!(normalize_version("1.2.3"), "1.2.3");
    assert_eq!(normalize_version("  v1.0  "), "1.0");
}

#[test]
fn version_gt_compares_segment_wise() {
    assert!(version_gt("1.2.3", "1.2.2"));
    assert!(version_gt("1.3.0", "1.2.9"));
    assert!(version_gt("2.0.0", "1.99.99"));
    assert!(version_gt("1.2.3", "1.2.3-beta"));
    assert!(!version_gt("1.2.3", "1.2.3"));
    assert!(!version_gt("1.2.3", "1.2.4"));
    assert!(!version_gt("1.2.3", "1.3.0"));
}

#[test]
fn version_gt_handles_v_prefix_and_prerelease() {
    assert!(version_gt("v1.5.0", "1.4.9"));
    assert!(!version_gt("v1.2.3", "v1.2.3"));
    assert!(version_gt("1.10.0", "1.9.9"));
    assert!(version_gt("0.1.1", "0.1.0"));
    assert!(!version_gt("0.1.0", "0.1.0"));
}

#[test]
fn pick_asset_prefers_arch_specific() {
    let assets = vec![
        asset("RustFox-1.0.0-macos-x86_64.zip"),
        asset("RustFox-1.0.0-macos-aarch64.zip"),
    ];
    for arch in ["aarch64", "x86_64"] {
        let key = platform_key("macos", arch);
        let picked = pick_asset(&assets, key, "macos").unwrap();
        if key.contains("aarch64") {
            assert!(picked.name.contains("aarch64"));
        } else {
            assert!(picked.name.contains("x86_64"));
        }
    }
}

#[test]
fn pick_asset_falls_back_to_os() {
    for (os, arch) in [("linux", "x86_64"), ("macos", "aarch64"), ("windows", "x86_64")] {
        let key = platform_key(os, arch);
        let assets = vec![asset(&format!("RustFox-1.0.0-{os}-whatever.zip"))];
        assert!(pick_asset(&assets, key, os).is_some());
        let assets = vec![asset("RustFox-1.0.0-windows-x86_64.zip")];
        if os == "windows" {
            assert!(pick_asset(&assets, key, os).is_some());
        } else {
            assert!(pick_asset(&assets, key, os).is_none(), "不应为当前平台选中 Windows 包");
        }
    }
}

#[test]
fn sanitize_removes_path_separators() {
    assert_eq!(sanitize_file_name("../evil.zip"), ".._evil.zip");
    assert_eq!(sanitize_file_name("a/b.zip"), "a_b.zip");
    assert_eq!(
        sanitize_file_name("RustFox-1.0.0-macos-aarch64.zip"),
        "RustFox-1.0.0-macos-aarch64.zip"
    );
}

#[test]
fn sanitize_replaces_backslashes() {
    assert_eq!(sanitize_file_name("..\\win\\x.msi"), ".._win_x.msi");
}

#[test]
fn platform_keys_per_target() {
    assert_eq!(platform_key("macos", "aarch64"), "macos-aarch64");
    assert_eq!(platform_key("macos", "x86_64"), "macos-x86_64");
    assert_eq!(platform_key("linux", "aarch64"), "linux-aarch64");
    assert_eq!(platform_key("linux", "x86_64"), "linux-x86_64");
    assert_eq!(platform_key("windows", "x86_64"), "windows-x86_64");
    assert_eq!(platform_key("freebsd", "x86_64"), "");
}

#[test]
fn unknown_platform_picks_by_os_only() {
    let assets = vec![asset("RustFox-1.0.0-freebsd.zip")];
    let picked = pick_asset(&assets, "", "freebsd").unwrap();
    assert_eq!(picked.name, "RustFox-1.0.0-freebsd.zip");
}

#[test]
fn segments_and_prerelease() {
    assert_eq!(parse_segments("1.10.3"), vec![1, 10, 3]);
    assert_eq!(parse_segments("v2.0.0-beta"), vec![2, 0, 0]);
    assert!(is_prerelease("1.2.3-beta"));
    assert!(!is_prerelease("1.2.3"));
}

#[test]
fn version_gt_is_not_symmetric() {
    let pairs = [("1.2.3", "1.2.2"), ("2.0", "1.9.9"), ("1.0.0", "1.0.0-beta")];
    for (a, b) in pairs {
        assert!(version_gt(a, b));
        assert!(!version_gt(b, a));
    }
}

#[test]
fn release_info_from_matching_asset() {
    let assets = vec![asset("RustFox-1.4.0-linux-x86_64.tar.gz")];
    let info = release_update_info("v1.4.0", Some("notes".to_string()), &assets, "linux-x86_64", "linux")
        .unwrap();
    assert_eq!(info.version, "1.4.0");
    assert_eq!(info.notes, "notes");
    assert_eq!(info.file_name, "RustFox-1.4.0-linux-x86_64.tar.gz");
    assert_eq!(info.download_url, "https://example.com/RustFox-1.4.0-linux-x86_64.tar.gz");
    assert_eq!(info.size, 1024);
    let info = release_update_info("1.4.0", None, &assets, "linux-x86_64", "linux").unwrap();
    assert_eq!(info.notes, "");
}

#[test]
fn release_info_without_asset_names_platform() {
    let assets = vec![asset("RustFox-1.4.0-windows-x86_64.msi")];
    let err = release_update_info("v1.4.0", None, &assets, "macos-aarch64", "macos").unwrap_err();
    assert_eq!(err, "当前平台（macos-aarch64）暂无可用安装包，请前往 GitHub Releases 手动下载");
}

#[test]
fn update_failure_messages() {
    assert_eq!(check_failed_message(403, "rate limited"), "检查更新失败（HTTP 403）：rate limited");
    assert_eq!(hint_or_default(None), "请稍后重试");
    assert_eq!(hint_or_default(Some("x".to_string())), "x");
    assert_eq!(download_failed_message(404), "下载失败（HTTP 404）");
}

#[test]
fn update_notices() {
    assert!(matches!(update_notice("1.0.0", "1.0.0", true, None), UpdateNotice::UpToDate(Some(t)) if t == "已是最新版本 v1.0.0"));
    assert!(matches!(update_notice("0.9.0", "1.0.0", false, None), UpdateNotice::UpToDate(None)));
    assert!(matches!(update_notice("1.1.0", "1.0.0", true, Some("1.1.0")), UpdateNotice::OpenDialog));
    assert!(matches!(update_notice("1.1.0", "1.0.0", false, Some("1.1.0")), UpdateNotice::Skipped));
    assert!(matches!(
        update_notice("1.2.0", "1.0.0", false, Some("1.1.0")),
        UpdateNotice::Announce(t) if t == "发现新版本 v1.2.0（设置 → 关于 可查看详情并更新）"
    ));
}

#[test]
fn missing_segments_count_as_zero() {
    assert!(version_gt("1.2.0", "1.2-beta"));
    assert!(!version_gt("1.2-beta", "1.2.0"));
    assert!(!version_gt("1.2", "1.2.0"));
    assert!(!version_gt("1.2.0", "1.2"));
    assert!(version_gt("1.2.1", "1.2"));
    assert!(!version_gt("1.2", "1.2.1"));
}

#[test]
fn leading_v_is_ignored() {
    for (a, b) in [("1.2.3", "1.2.2"), ("1.0", "1.0-rc"), ("2", "1.9"), ("1.0", "1.0")] {
        assert_eq!(version_gt(&format!("v{a}"), b), version_gt(a, b));
        assert_eq!(version_gt(b, &format!("v{a}")), version_gt(b, a));
    }
}
