use cdb_adm::Uid;
use cdb_adm::descriptor_prefix;
use cdb_adm::determine_agent_or_daemon_label;
use cdb_adm::fallback_label;
use cdb_adm::is_plist_path;
use cdb_adm::list_agents_and_daemons;
use cdb_adm::list_agents_and_daemons_paths;

fn plist_with_label(label: &str) -> Vec<u8> {
    let mut text = String::new();
    text.push_str("<?xml version=\"1.0\" encoding=\"UTF-8\"?>\n");
    text.push_str("<!DOCTYPE plist PUBLIC \"-//Apple//DTD PLIST 1.0//EN\" ");
    text.push_str("\"http://www.apple.com/DTDs/PropertyList-1.0.dtd\">\n");
    text.push_str("<plist version=\"1.0\">\n<dict>\n<key>Label</key>\n<string>");
    text.push_str(label);
    text.push_str("</string>\n</dict>\n</plist>\n");
    text.into_bytes()
}

fn plist_without_label() -> Vec<u8> {
    let text = "<?xml version=\"1.0\" encoding=\"UTF-8\"?>\n<plist version=\"1.0\">\n<dict>\n<key>RunAtLoad</key>\n<true/>\n</dict>\n</plist>\n";
    text.as_bytes().to_vec()
}

#[test]
fn test_determine_agent_or_daemon_label() {
    let bytes = plist_with_label("com.apple.tipsd");
    assert_eq!(
        determine_agent_or_daemon_label("/Library/LaunchAgents/tipsd.plist", &bytes).unwrap(),
        "com.apple.tipsd"
    );
    // no usable label: the file's base name steps in
    let bytes = plist_without_label();
    assert_eq!(
        determine_agent_or_daemon_label("/Library/LaunchAgents/com.apple.noname.plist", &bytes)
            .unwrap(),
        "com.apple.noname"
    );
    // not property-list data at all: an error, so callers can skip it
    let err =
        determine_agent_or_daemon_label("/Library/LaunchAgents/bad.plist", &b"not a plist".to_vec())
            .unwrap_err();
    assert_eq!(err.variant(), "PlistError");
}

#[test]
fn test_discovery_skips_corrupt_descriptor() {
    // the corrupt descriptor in the middle is skipped; the scan of the
    // remaining files goes on
    let entries = vec![
        (
            "/Library/LaunchAgents/a.plist".to_string(),
            Some(plist_with_label("com.example.a")),
        ),
        (
            "/Library/LaunchAgents/broken.plist".to_string(),
            Some(b"\x00\x01 garbage".to_vec()),
        ),
        ("/Library/LaunchAgents/unreadable.plist".to_string(), None),
        (
            "/System/Library/LaunchDaemons/b.plist".to_string(),
            Some(plist_with_label("com.example.b")),
        ),
    ];
    let names = list_agents_and_daemons(Some(Uid::from(501)), false, &entries);
    assert_eq!(names, vec!["com.example.a", "com.example.b"]);
    let qualified = list_agents_and_daemons(Some(Uid::from(501)), true, &entries);
    assert_eq!(qualified, vec!["gui/501/com.example.a", "system/com.example.b"]);
}

#[test]
fn test_fallback_label() {
    assert_eq!(
        fallback_label("/Library/LaunchAgents/com.apple.tipsd.plist"),
        "com.apple.tipsd"
    );
    assert_eq!(fallback_label("noslash.plist"), "noslash");
    assert_eq!(fallback_label("/x/noext"), "noext");
}

#[test]
fn test_descriptor_prefix() {
    assert_eq!(
        descriptor_prefix("/System/Library/LaunchDaemons/a.plist", &Uid::from(501)),
        "system"
    );
    assert_eq!(
        descriptor_prefix("/Library/LaunchAgents/a.plist", &Uid::from(501)),
        "gui/501"
    );
}

#[test]
fn test_is_plist_path() {
    assert!(is_plist_path("/Library/LaunchAgents/a.plist"));
    assert!(!is_plist_path("/Library/LaunchAgents/readme.txt"));
}

#[test]
fn test_list_agents_and_daemons_paths() {
    assert_eq!(
        list_agents_and_daemons_paths(true, false, true),
        vec![
            "~/Library/LaunchAgents",
            "~/Library/LaunchDaemons",
            "/System/Library/LaunchAgents",
            "/System/Library/LaunchDaemons"
        ]
    );
    assert_eq!(
        list_agents_and_daemons_paths(false, true, false),
        vec!["/Library/LaunchAgents", "/Library/LaunchDaemons"]
    );
}
