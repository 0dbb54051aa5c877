use cdb_adm::Error;
use cdb_adm::Uid;
use cdb_adm::bootout_agent_or_daemon;
use cdb_adm::disable_agent_or_daemon;
use cdb_adm::launchctl;
use cdb_adm::launchctl_print;
use cdb_adm::launchctl_subcommand;
use cdb_adm::list_active_agents_and_daemons;
use cdb_adm::list_active_agents_and_daemons_by_domain;
use cdb_adm::list_all_agents_and_daemons;

fn outcome(code: i64, out: &str, err: &str) -> (i64, String, String) {
    (code, out.to_string(), err.to_string())
}

#[test]
fn test_launchctl_classification() {
    let args = vec!["print".to_string(), "system".to_string()];
    assert_eq!(
        launchctl(&args, outcome(0, "text", "warn")).unwrap(),
        (0, "text".to_string(), "warn".to_string())
    );
    assert_eq!(
        launchctl(&args, outcome(3, "", "gone")).unwrap_err(),
        Error::LaunchdServiceNotRunning("`launchctl print system' failed: gone".to_string())
    );
    assert_eq!(
        launchctl(&args, outcome(2, "", "usage")).unwrap_err(),
        Error::LaunchdError(
            "`launchctl print system' failed with exit code 2: usage".to_string()
        )
    );
}

#[test]
fn test_launchctl_subcommand_classification() {
    let args = vec!["bootout".to_string(), "system/x".to_string()];
    assert_eq!(launchctl_subcommand(&args, 0, "").unwrap(), 0);
    assert_eq!(launchctl_subcommand(&args, 64, "").unwrap(), 64);
    assert_eq!(launchctl_subcommand(&args, 113, "").unwrap(), 113);
    assert_eq!(
        launchctl_subcommand(&args, 125, "no such").unwrap_err(),
        Error::LaunchdServiceNotRunning(
            "`launchctl bootout system/x' failed with 125: no such".to_string()
        )
    );
    assert_eq!(
        launchctl_subcommand(&args, 7, "oops").unwrap_err(),
        Error::LaunchdError("`launchctl bootout system/x' failed with 7: oops".to_string())
    );
}

#[test]
fn test_launchctl_print_classification() {
    assert_eq!(
        launchctl_print("system", outcome(0, "services = {\n}", "")).unwrap(),
        "services = {\n}"
    );
    assert_eq!(
        launchctl_print("gui/999", outcome(64, "usage", "bad domain")).unwrap_err(),
        Error::LaunchdError(
            "`launchctl print gui/999' failed with exit code 64: bad domain\nusage".to_string()
        )
    );
}

#[test]
fn test_bootout_and_disable_classification() {
    assert_eq!(
        bootout_agent_or_daemon("com.apple.tipsd", None, false, 0, "").unwrap(),
        0
    );
    // the recoverable error carries the target address itself
    assert_eq!(
        bootout_agent_or_daemon("com.apple.tipsd", Some(Uid::from(501)), true, 3, "x")
            .unwrap_err(),
        Error::LaunchdServiceNotRunning("gui/501/com.apple.tipsd".to_string())
    );
    assert_eq!(
        disable_agent_or_daemon("com.apple.tipsd", None, false, 9, "denied").unwrap_err(),
        Error::LaunchdError(
            "`launchctl disable system/com.apple.tipsd' failed with exit code 9: denied"
                .to_string()
        )
    );
}

#[test]
fn test_list_active_agents_and_daemons() {
    let domains = vec!["system".to_string(), "gui/501".to_string(), "user/501".to_string()];
    let prints = vec![
        Some("services = {\n\t1\t0\ta.one\n\t0\t-9\ta.two\n}".to_string()),
        // this domain's print failed: it is skipped, not fatal
        None,
        Some("services = {\n\t7\t(spawn)\tb.one\n}".to_string()),
    ];
    let rows = list_active_agents_and_daemons(&domains, &prints).unwrap();
    assert_eq!(
        rows,
        vec![
            ("system".to_string(), "a.one".to_string(), 1, Some(0)),
            ("system".to_string(), "a.two".to_string(), 0, Some(-9)),
            ("user/501".to_string(), "b.one".to_string(), 7, None),
        ]
    );
}

#[test]
fn test_list_active_agents_and_daemons_parse_failure() {
    let domains = vec!["system".to_string()];
    let prints = vec![Some("services = {\n\tgarbage\n}".to_string())];
    let err = list_active_agents_and_daemons(&domains, &prints).unwrap_err();
    assert_eq!(err.variant(), "ParseError");
}

#[test]
fn test_list_active_agents_and_daemons_by_domain() {
    let domains = vec!["system".to_string()];
    let prints = vec!["services = {\n\t12\t0\tcom.apple.tipsd\n}".to_string()];
    let keyed = list_active_agents_and_daemons_by_domain(&domains, &prints).unwrap();
    assert_eq!(
        keyed,
        vec![("system/com.apple.tipsd".to_string(), (12, Some(0)))]
    );
}

#[test]
fn test_by_domain_later_record_overwrites_earlier() {
    // two lines of one domain carry the same service name: the map
    // keeps one entry per address, with the later record's value
    let domains = vec!["system".to_string()];
    let prints = vec![
        "services = {\n\t12\t0\tcom.apple.tipsd\n\t99\t-3\tcom.apple.tipsd\n\t7\t0\tcom.apple.mdworker\n}"
            .to_string(),
    ];
    let keyed = list_active_agents_and_daemons_by_domain(&domains, &prints).unwrap();
    assert_eq!(
        keyed,
        vec![
            ("system/com.apple.tipsd".to_string(), (99, Some(-3))),
            ("system/com.apple.mdworker".to_string(), (7, Some(0))),
        ]
    );
}

#[test]
fn test_list_all_agents_and_daemons() {
    let live = vec![
        ("system".to_string(), "com.apple.tipsd".to_string(), 12, Some(0)),
        ("gui/501".to_string(), "com.apple.helper".to_string(), 33, None),
    ];
    let declared = vec![
        (
            "com.apple.tipsd".to_string(),
            "/System/Library/LaunchDaemons/com.apple.tipsd.plist".to_string(),
        ),
        (
            "com.apple.stopped".to_string(),
            "/Library/LaunchAgents/com.apple.stopped.plist".to_string(),
        ),
    ];
    let rows = list_all_agents_and_daemons(&Uid::from(501), &live, &declared);
    assert_eq!(
        rows,
        vec![
            (
                "system".to_string(),
                "com.apple.tipsd".to_string(),
                12,
                Some(0),
                true,
                Some("/System/Library/LaunchDaemons/com.apple.tipsd.plist".to_string())
            ),
            (
                "gui/501".to_string(),
                "com.apple.helper".to_string(),
                33,
                None,
                true,
                None
            ),
            (
                "gui/501".to_string(),
                "com.apple.stopped".to_string(),
                0,
                None,
                false,
                Some("/Library/LaunchAgents/com.apple.stopped.plist".to_string())
            ),
        ]
    );
}
