use cdb_adm::MatchKind;
use cdb_adm::match_kind;
use cdb_adm::select_services_to_boot_up;
use cdb_adm::select_services_to_turn_off;
use cdb_adm::service_matches;

#[test]
fn test_matcher_exact() {
    let patterns = vec!["com.apple.foo".to_string()];
    assert!(service_matches("com.apple.foo", &patterns));
    assert_eq!(
        match_kind("com.apple.foo", "com.apple.foo"),
        Some(MatchKind::Exact)
    );
}

#[test]
fn test_matcher_live_contains_pattern() {
    let patterns = vec!["foo".to_string()];
    assert!(service_matches("com.apple.foo.helper", &patterns));
    assert_eq!(
        match_kind("com.apple.foo.helper", "foo"),
        Some(MatchKind::ServiceContainsPattern)
    );
}

#[test]
fn test_matcher_pattern_contains_live() {
    let patterns = vec!["com.apple.foo.helper".to_string()];
    assert!(service_matches("foo", &patterns));
    assert_eq!(
        match_kind("foo", "com.apple.foo.helper"),
        Some(MatchKind::PatternContainsService)
    );
}

#[test]
fn test_matcher_empty_pattern_set() {
    assert!(!service_matches("com.apple.foo", &Vec::new()));
}

#[test]
fn test_matcher_empty_pattern_matches_everything() {
    // an empty pattern is a substring of every live name
    let patterns = vec![String::new()];
    assert!(service_matches("com.apple.foo", &patterns));
    assert_eq!(
        match_kind("com.apple.foo", ""),
        Some(MatchKind::ServiceContainsPattern)
    );
}

#[test]
fn test_matcher_no_match() {
    let patterns = vec!["com.apple.tipsd".to_string(), "siri".to_string()];
    assert!(!service_matches("com.apple.mdworker", &patterns));
    assert_eq!(match_kind("com.apple.mdworker", "siri"), None);
}

#[test]
fn test_select_services_to_turn_off() {
    let inventory = vec![
        ("system".to_string(), "com.apple.tipsd".to_string(), 120, Some(0)),
        ("system".to_string(), "com.apple.mdworker".to_string(), 121, None),
        ("gui/501".to_string(), "com.apple.tipsd.helper".to_string(), 0, Some(-9)),
    ];
    let patterns = vec!["tipsd".to_string()];
    let selected = select_services_to_turn_off(&inventory, &patterns);
    assert_eq!(
        selected,
        vec![
            ("system".to_string(), "com.apple.tipsd".to_string(), 120),
            ("gui/501".to_string(), "com.apple.tipsd.helper".to_string(), 0),
        ]
    );
}

#[test]
fn test_select_services_to_boot_up_skips_missing_descriptors() {
    let inventory = vec![
        (
            "system".to_string(),
            "com.apple.tipsd".to_string(),
            0,
            None,
            false,
            Some("/System/Library/LaunchDaemons/com.apple.tipsd.plist".to_string()),
        ),
        (
            "system".to_string(),
            "com.apple.tipsd.agent".to_string(),
            0,
            None,
            false,
            None,
        ),
    ];
    let patterns = vec!["tipsd".to_string()];
    let selected = select_services_to_boot_up(&inventory, &patterns);
    assert_eq!(
        selected,
        vec![(
            "system".to_string(),
            "com.apple.tipsd".to_string(),
            0,
            "/System/Library/LaunchDaemons/com.apple.tipsd.plist".to_string()
        )]
    );
}
