use msvc_helper::toolchain::DirPath;
use msvc_helper::windows_sdk::{
    get_latest_windows_sdk, get_windows_sdk, SdkDirEntry, SdkRootEvidence, SdkVersion, WindowsSdk,
};

fn entry(name: &str, has_windows_h: bool, has_sdkddkver_h: bool) -> SdkDirEntry {
    SdkDirEntry {
        name: Some(name.to_string()),
        has_um_windows_h: has_windows_h,
        has_shared_sdkddkver_h: has_sdkddkver_h,
    }
}

fn root10(root: &str, entries: Vec<SdkDirEntry>) -> SdkRootEvidence {
    SdkRootEvidence {
        root: root.to_string(),
        include_exists: true,
        include_listable: true,
        entries,
    }
}

fn versions(sdks: &[WindowsSdk]) -> Vec<&str> {
    sdks.iter()
        .map(|s| s.windows_target_platform_version.as_str())
        .collect()
}

#[test]
fn missing_marker_excludes_only_the_failing_subdirectory() {
    let roots10 = vec![root10(
        "C:\\Kits\\10",
        vec![
            entry("10.0.17763.0", false, true),
            entry("10.0.16299.0", true, true),
        ],
    )];
    let sdks = get_windows_sdk(roots10, vec![]);
    assert_eq!(versions(&sdks), vec!["10.0.16299.0"]);

    let all_failing = vec![root10(
        "C:\\Kits\\10",
        vec![entry("10.0.17763.0", false, true)],
    )];
    assert_eq!(get_windows_sdk(all_failing, vec![]).len(), 0);
}

#[test]
fn missing_sdkddkver_header_excludes_the_subdirectory() {
    let roots10 = vec![root10(
        "C:\\Kits\\10",
        vec![
            entry("10.0.17763.0", true, false),
            entry("10.0.16299.0", true, true),
        ],
    )];
    let sdks = get_windows_sdk(roots10, vec![]);
    assert_eq!(versions(&sdks), vec!["10.0.16299.0"]);
}

#[test]
fn identical_records_from_two_sources_collapse_to_one() {
    // the same root seen once through the registry and once through the
    // filesystem probe yields field-wise identical records
    let from_registry = root10("C:\\Kits\\10", vec![entry("10.0.17763.0", true, true)]);
    let from_filesystem = root10("C:\\Kits\\10", vec![entry("10.0.17763.0", true, true)]);
    let sdks = get_windows_sdk(vec![from_registry, from_filesystem], vec![]);
    assert_eq!(sdks.len(), 1);
    assert_eq!(sdks[0].windows_version, SdkVersion::Win10);
    assert_eq!(sdks[0].windows_target_platform_version, "10.0.17763.0");
    assert_eq!(sdks[0].path.text, "C:\\Kits\\10\\Include\\10.0.17763.0");
}

#[test]
fn no_evidence_yields_empty_result_and_absent_best() {
    assert_eq!(get_windows_sdk(vec![], vec![]).len(), 0);
    assert_eq!(get_latest_windows_sdk(vec![], vec![]), None);
}

#[test]
fn unavailable_roots_contribute_nothing() {
    let missing = SdkRootEvidence {
        root: "C:\\Kits\\10".to_string(),
        include_exists: false,
        include_listable: false,
        entries: vec![],
    };
    let unlistable = SdkRootEvidence {
        root: "C:\\Kits\\8.1".to_string(),
        include_exists: true,
        include_listable: false,
        entries: vec![],
    };
    assert_eq!(get_windows_sdk(vec![missing], vec![unlistable]).len(), 0);
}

#[test]
fn windows_81_root_yields_one_fixed_version_record() {
    let root81 = SdkRootEvidence {
        root: "C:\\Program Files (x86)\\Windows Kits\\8.1".to_string(),
        include_exists: true,
        include_listable: true,
        entries: vec![],
    };
    let sdks = get_windows_sdk(vec![], vec![root81]);
    assert_eq!(sdks.len(), 1);
    assert_eq!(sdks[0].windows_version, SdkVersion::Win8);
    assert_eq!(sdks[0].windows_target_platform_version, "8.1");
    assert_eq!(
        sdks[0].path.text,
        "C:\\Program Files (x86)\\Windows Kits\\8.1\\Include"
    );
}

#[test]
fn entries_not_named_like_windows_10_are_ignored() {
    let roots10 = vec![root10(
        "C:\\Kits\\10",
        vec![
            entry("abc", true, true),
            SdkDirEntry { name: None, has_um_windows_h: true, has_shared_sdkddkver_h: true },
            entry("10.0.17763.0", true, true),
        ],
    )];
    let sdks = get_windows_sdk(roots10, vec![]);
    assert_eq!(versions(&sdks), vec!["10.0.17763.0"]);
}

#[test]
fn ranked_order_prefers_longer_then_lexicographically_greater_components() {
    let roots10 = vec![root10(
        "C:\\Kits\\10",
        vec![
            entry("10.0.28307.9", true, true),
            entry("10.0.28307.10", true, true),
        ],
    )];
    let root81 = SdkRootEvidence {
        root: "C:\\Kits\\8.1".to_string(),
        include_exists: true,
        include_listable: true,
        entries: vec![],
    };
    let sdks = get_windows_sdk(roots10, vec![root81]);
    assert_eq!(
        versions(&sdks),
        vec!["10.0.28307.10", "10.0.28307.9", "8.1"]
    );
    let roots10 = vec![root10(
        "C:\\Kits\\10",
        vec![
            entry("10.0.28307.9", true, true),
            entry("10.0.28307.10", true, true),
        ],
    )];
    assert_eq!(
        get_latest_windows_sdk(roots10, vec![]),
        Some("10.0.28307.10".to_string())
    );
}

#[test]
fn paths_are_rooted_at_the_probed_root() {
    let sdks = get_windows_sdk(
        vec![root10("D:\\SDK", vec![entry("10.1", true, true)])],
        vec![],
    );
    assert_eq!(sdks.len(), 1);
    let path: &DirPath = &sdks[0].path;
    assert_eq!(path.text, "D:\\SDK\\Include\\10.1");
}
