use cdb_adm::CDBSettingsDelete;
use cdb_adm::Error;
use cdb_adm::defaults;
use cdb_adm::defaults_delete;
use cdb_adm::list_domains;
use cdb_adm::spctl_global_disable;
use cdb_adm::turn_off_mdutil;
use cdb_adm::validate_domain_path_for_current_user;

fn outcome(code: i64, out: &str, err: &str) -> (i64, String, String) {
    (code, out.to_string(), err.to_string())
}

#[test]
fn test_list_domains() {
    let csv = "com.apple.AMPLibraryAgent, com.apple.AddressBook,\n com.apple.FontBook, com.apple.Safari";
    let domains = list_domains(outcome(0, csv, "")).unwrap();
    assert_eq!(domains.is_empty(), false);
    assert_eq!(domains.contains(&"com.apple.FontBook".to_string()), true);
    assert_eq!(
        domains,
        vec![
            "com.apple.AMPLibraryAgent",
            "com.apple.AddressBook",
            "com.apple.FontBook",
            "com.apple.Safari"
        ]
    );
}

#[test]
fn test_list_domains_failures() {
    assert_eq!(
        list_domains(outcome(1, "", "empty listing")).unwrap_err(),
        Error::IOError("command `default domains' exited[1]: empty listing".to_string())
    );
    assert_eq!(
        list_domains(outcome(5, "", "spawn trouble")).unwrap_err(),
        Error::IOError("command `defaults domains' failed with exit code 5".to_string())
    );
}

#[test]
fn test_defaults_classification() {
    let args = vec!["read".to_string(), "com.apple.dock".to_string()];
    assert!(defaults(&args, outcome(0, "{}", "")).is_ok());
    assert!(defaults(&args, outcome(1, "", "missing")).is_ok());
    assert_eq!(
        defaults(&args, outcome(2, "", "")).unwrap_err(),
        Error::IOError("command `defaults read com.apple.dock' failed with exit code 2".to_string())
    );
}

#[test]
fn test_defaults_delete_classification() {
    let key = vec!["NSGlobalDomain".to_string(), "AppleInterfaceStyle".to_string()];
    assert!(defaults_delete(&key, outcome(1, "", "")).is_ok());
    assert_eq!(
        defaults_delete(&key, outcome(3, "", "")).unwrap_err(),
        Error::IOError(
            "command `defaults delete NSGlobalDomain AppleInterfaceStyle' failed with exit code 3"
                .to_string()
        )
    );
}

#[test]
fn test_validate_domain_path_for_current_user() {
    assert!(validate_domain_path_for_current_user(
        "/Users/alex/Library/Preferences/com.apple.dock.plist",
        "alex"
    )
    .is_ok());
    assert!(validate_domain_path_for_current_user("/Library/Preferences/x.plist", "alex").is_ok());
    // a home path without a trailing slash after the account names no owner
    assert!(validate_domain_path_for_current_user("/Users/alex", "alex").is_ok());
    let err = validate_domain_path_for_current_user(
        "/Users/sam/Library/Preferences/com.apple.dock.plist",
        "alex",
    )
    .unwrap_err();
    assert_eq!(
        err,
        Error::CoreDataError(
            "domain file /Users/sam/Library/Preferences/com.apple.dock.plist does not belong to user alex"
                .to_string()
        )
    );
}

#[test]
fn test_turn_off_mdutil_commands() {
    assert_eq!(
        turn_off_mdutil(),
        vec![vec!["-i".to_string(), "off".to_string()], vec!["-d".to_string()]]
    );
}

#[test]
fn test_spctl_global_disable_command() {
    assert_eq!(spctl_global_disable(), vec!["--global-disable".to_string()]);
}

#[test]
fn test_defaults_exec_args() {
    let plan = CDBSettingsDelete {
        domains: vec!["com.apple.Siri".to_string(), "com.apple.tipsd".to_string()],
        keys: vec![vec![
            "NSGlobalDomain".to_string(),
            "NSPreferredWebServices".to_string(),
        ]],
    };
    assert_eq!(
        plan.defaults_exec_args(),
        vec![
            vec!["delete".to_string(), "com.apple.Siri".to_string()],
            vec!["delete".to_string(), "com.apple.tipsd".to_string()],
            vec![
                "delete".to_string(),
                "NSGlobalDomain".to_string(),
                "NSPreferredWebServices".to_string()
            ],
        ]
    );
    let empty = CDBSettingsDelete::default();
    assert_eq!(empty.defaults_exec_args(), Vec::<Vec<String>>::new());
}
