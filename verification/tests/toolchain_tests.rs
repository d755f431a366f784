use msvc_helper::toolchain::{
    get_lasted_platform_toolset, get_toolchains, platform_toolset_for, transform, RawField,
    RawSetupInstance,
};

fn raw_with_version(id: &str, version: &str) -> RawSetupInstance {
    RawSetupInstance {
        instance_id: RawField::Text(id.to_string()),
        installation_name: RawField::Text(format!("VisualStudio/{}", version)),
        installation_path: RawField::Text(format!("C:\\VS\\{}", id)),
        installation_version: RawField::Text(version.to_string()),
        product_path: RawField::Text(format!("C:\\VS\\{}\\devenv.exe", id)),
    }
}

#[test]
fn best_toolchain_is_latest_major_version() {
    let raws = vec![
        Ok(raw_with_version("a", "12.0.2")),
        Ok(raw_with_version("b", "15.9.28307.665")),
        Ok(raw_with_version("c", "14.1.0")),
    ];
    let ranked = get_toolchains(raws);
    assert_eq!(ranked.len(), 3);
    assert!(ranked[0].installation_version.starts_with("15"));
    assert_eq!(ranked[0].platform_toolset, "v141");
    assert_eq!(ranked[1].platform_toolset, "v140");
    assert_eq!(ranked[2].platform_toolset, "v120");

    let raws = vec![
        Ok(raw_with_version("a", "12.0.2")),
        Ok(raw_with_version("b", "15.9.28307.665")),
        Ok(raw_with_version("c", "14.1.0")),
    ];
    assert_eq!(get_lasted_platform_toolset(raws), Some("v141".to_string()));
}

#[test]
fn major_seven_is_disambiguated_by_second_component() {
    assert_eq!(platform_toolset_for("7.1.0"), Some("v71".to_string()));
    assert_eq!(platform_toolset_for("7.0.5"), Some("v70".to_string()));
    assert_eq!(platform_toolset_for("7.2.0"), None);

    let raws = vec![
        Ok(raw_with_version("a", "7.1.0")),
        Ok(raw_with_version("b", "7.0.5")),
        Ok(raw_with_version("c", "7.2.0")),
    ];
    let ranked = get_toolchains(raws);
    assert_eq!(ranked.len(), 2);
    assert_eq!(ranked[0].platform_toolset, "v71");
    assert_eq!(ranked[1].platform_toolset, "v70");
}

#[test]
fn toolset_table_matches_major_versions() {
    assert_eq!(platform_toolset_for("15.9.1"), Some("v141".to_string()));
    assert_eq!(platform_toolset_for("14.0"), Some("v140".to_string()));
    assert_eq!(platform_toolset_for("12.0"), Some("v120".to_string()));
    assert_eq!(platform_toolset_for("11.0"), Some("v110".to_string()));
    assert_eq!(platform_toolset_for("10.0"), Some("v100".to_string()));
    assert_eq!(platform_toolset_for("9.0"), Some("v90".to_string()));
    assert_eq!(platform_toolset_for("8.0"), Some("v80".to_string()));
    assert_eq!(platform_toolset_for("6.0"), Some("v60".to_string()));
    assert_eq!(platform_toolset_for("13.0"), None);
    assert_eq!(platform_toolset_for("151.0"), None);
}

#[test]
fn normalization_is_all_or_nothing() {
    let mut raw = raw_with_version("a", "15.9.1");
    raw.installation_name = RawField::NotUnicode;
    match transform(&raw) {
        Err(e) => assert_eq!(e, None),
        Ok(_) => panic!("a record with an undecodable field must be rejected"),
    }

    let mut raw = raw_with_version("a", "15.9.1");
    raw.product_path = RawField::Error(-2147024894);
    match transform(&raw) {
        Err(e) => assert_eq!(e, Some(-2147024894)),
        Ok(_) => panic!("a record with a failed source read must be rejected"),
    }

    let raw = raw_with_version("a", "15.9.1");
    let inst = transform(&raw).expect("a fully decoded record must normalize");
    assert_eq!(inst.instance_id, "a");
    assert_eq!(inst.installation_version, "15.9.1");
    assert_eq!(inst.platform_toolset, "");
}

#[test]
fn failing_candidates_do_not_abort_discovery() {
    let mut bad = raw_with_version("bad", "15.9.1");
    bad.instance_id = RawField::NotUnicode;
    let raws = vec![
        Err(-1),
        Ok(bad),
        Ok(raw_with_version("good", "14.0.1")),
    ];
    let ranked = get_toolchains(raws);
    assert_eq!(ranked.len(), 1);
    assert_eq!(ranked[0].instance_id, "good");
    assert_eq!(ranked[0].platform_toolset, "v140");
}

#[test]
fn identical_toolchains_collapse_to_one() {
    let raws = vec![
        Ok(raw_with_version("a", "15.9.1")),
        Ok(raw_with_version("a", "15.9.1")),
        Ok(raw_with_version("b", "15.9.1")),
    ];
    let ranked = get_toolchains(raws);
    assert_eq!(ranked.len(), 2);
}

#[test]
fn no_instances_yield_no_toolset() {
    assert_eq!(get_toolchains(vec![]).len(), 0);
    assert_eq!(get_lasted_platform_toolset(vec![]), None);
}
