use cdb_adm::Domain;
use cdb_adm::Uid;
use cdb_adm::agent_or_daemon;
use cdb_adm::agent_or_daemon_prefix;
use cdb_adm::domains_to_probe;
use cdb_adm::i64_to_string;
use cdb_adm::u64_to_string;

#[test]
fn test_agent_or_daemon_prefix() {
    assert_eq!(agent_or_daemon_prefix(None, false), "system");
    assert_eq!(agent_or_daemon_prefix(Some(Uid::from(242)), false), "user/242");
    assert_eq!(agent_or_daemon_prefix(Some(Uid::from(202)), true), "gui/202");
}

#[test]
fn test_agent_or_daemon() {
    assert_eq!(
        agent_or_daemon("com.apple.calaccessd", None, false),
        "system/com.apple.calaccessd"
    );
    assert_eq!(
        agent_or_daemon("com.apple.calaccessd", Some(Uid::from(242)), false),
        "user/242/com.apple.calaccessd"
    );
    assert_eq!(
        agent_or_daemon("com.apple.calaccessd", Some(Uid::from(202)), true),
        "gui/202/com.apple.calaccessd"
    );
}

#[test]
fn test_domain_render() {
    assert_eq!(Domain::System.render(), "system");
    assert_eq!(Domain::User(Uid::from(242)).render(), "user/242");
    assert_eq!(Domain::GuiSession(Uid::from(202)).render(), "gui/202");
}

#[test]
fn test_domain_address() {
    assert_eq!(
        Domain::System.address("com.apple.calaccessd"),
        "system/com.apple.calaccessd"
    );
    assert_eq!(
        Domain::GuiSession(Uid::from(501)).address("com.apple.Music"),
        "gui/501/com.apple.Music"
    );
}

#[test]
fn test_uid_default() {
    assert_eq!(Uid::default(), Uid(501));
    assert_eq!(Uid::from(77).value(), 77);
}

#[test]
fn test_uid_from_optional() {
    assert_eq!(Uid::from(Some(242u64)), Uid(242));
    assert_eq!(Uid::from(None::<u64>), Uid(501));
}

#[test]
fn test_decimal_rendering() {
    assert_eq!(u64_to_string(0), "0");
    assert_eq!(u64_to_string(501), "501");
    assert_eq!(u64_to_string(18446744073709551615), "18446744073709551615");
    assert_eq!(i64_to_string(0), "0");
    assert_eq!(i64_to_string(-9), "-9");
    assert_eq!(i64_to_string(i64::MIN), "-9223372036854775808");
    assert_eq!(i64_to_string(i64::MAX), "9223372036854775807");
}

#[test]
fn test_domains_to_probe() {
    let base = domains_to_probe(&Uid::from(501), &Vec::new(), false);
    assert_eq!(base, vec!["system", "user/501", "gui/501"]);
    let widened = domains_to_probe(&Uid::from(501), &vec![Uid::from(201), Uid::from(202)], true);
    assert_eq!(
        widened,
        vec![
            "system", "user/501", "gui/501", "user/201", "gui/201", "user/202", "gui/202"
        ]
    );
    let not_widened =
        domains_to_probe(&Uid::from(501), &vec![Uid::from(201)], false);
    assert_eq!(not_widened, vec!["system", "user/501", "gui/501"]);
}
