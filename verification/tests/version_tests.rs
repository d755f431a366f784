use msvc_helper::version::{compare_versions, VersionOrder};

#[test]
fn longer_component_sorts_first() {
    // at the second component, "10" has more characters than "9", so
    // "28307.10" ranks before "28307.9" even though 9 < 10 would also hold
    assert_eq!(
        compare_versions("28307.10", "28307.9"),
        VersionOrder::Less
    );
    assert_eq!(
        compare_versions("28307.9", "28307.10"),
        VersionOrder::Greater
    );
}

#[test]
fn equal_length_components_compare_lexicographically_descending() {
    assert_eq!(compare_versions("15.9", "14.9"), VersionOrder::Less);
    assert_eq!(compare_versions("14.9", "15.9"), VersionOrder::Greater);
    assert_eq!(compare_versions("12.0.2", "14.1.0"), VersionOrder::Greater);
}

#[test]
fn equal_versions_tie() {
    assert_eq!(compare_versions("10.0.17763.0", "10.0.17763.0"), VersionOrder::Equal);
    assert_eq!(compare_versions("", ""), VersionOrder::Equal);
}

#[test]
fn unmatched_tail_is_ignored() {
    assert_eq!(compare_versions("1.2", "1.2.3"), VersionOrder::Equal);
    assert_eq!(compare_versions("1.2.3", "1.2"), VersionOrder::Equal);
}

#[test]
fn first_differing_component_decides() {
    assert_eq!(compare_versions("10.0.17763.0", "8.1"), VersionOrder::Less);
    assert_eq!(compare_versions("8.1", "10.0.17763.0"), VersionOrder::Greater);
    assert_eq!(compare_versions("15.9.28307.665", "15.9.28307.664"), VersionOrder::Less);
}

#[test]
fn comparator_is_a_strict_weak_ordering_on_samples() {
    let samples = ["28307.10", "28307.9", "15.9.1", "15.9", "8.1", "10.0.17763.0"];
    for a in samples.iter() {
        // irreflexive
        assert_eq!(compare_versions(a, a), VersionOrder::Equal);
        for b in samples.iter() {
            // asymmetric and consistent
            let ab = compare_versions(a, b);
            let ba = compare_versions(b, a);
            match ab {
                VersionOrder::Less => assert_eq!(ba, VersionOrder::Greater),
                VersionOrder::Equal => assert_eq!(ba, VersionOrder::Equal),
                VersionOrder::Greater => assert_eq!(ba, VersionOrder::Less),
            }
            for c in samples.iter() {
                // transitive on the strict part
                if compare_versions(a, b) == VersionOrder::Less
                    && compare_versions(b, c) == VersionOrder::Less
                {
                    assert_eq!(compare_versions(a, c), VersionOrder::Less);
                }
            }
        }
    }
}

#[test]
fn split_components_splits_on_dots() {
    let parts = msvc_helper::version::split_components("10.0.17763.0");
    let texts: Vec<&str> = parts.iter().map(|s| s.as_str()).collect();
    assert_eq!(texts, vec!["10", "0", "17763", "0"]);

    let empty = msvc_helper::version::split_components("");
    let empty_texts: Vec<&str> = empty.iter().map(|s| s.as_str()).collect();
    assert_eq!(empty_texts, vec![""]);

    let trailing = msvc_helper::version::split_components("8.");
    let trailing_texts: Vec<&str> = trailing.iter().map(|s| s.as_str()).collect();
    assert_eq!(trailing_texts, vec!["8", ""]);
}

#[test]
fn str_eq_compares_exact_text() {
    assert!(msvc_helper::version::str_eq("v141", "v141"));
    assert!(!msvc_helper::version::str_eq("v141", "v140"));
    assert!(!msvc_helper::version::str_eq("15", "15.9"));
}
