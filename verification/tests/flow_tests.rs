use cdb_adm::Error;
use cdb_adm::ExitClass;
use cdb_adm::TurnOffStep;
use cdb_adm::BootUpFlow;
use cdb_adm::TurnOffFlow;
use cdb_adm::classify_exit;
use cdb_adm::classify_subcommand_exit;
use cdb_adm::collect_outcomes;
use cdb_adm::run_turn_off_flow;

fn ok_outcome() -> (i64, String) {
    (0, String::new())
}

fn not_running_outcome() -> (i64, String) {
    (3, "No such process".to_string())
}

#[test]
fn test_classify_exit() {
    assert_eq!(classify_exit(0), ExitClass::Success);
    assert_eq!(classify_exit(3), ExitClass::NotRunning);
    assert_eq!(classify_exit(125), ExitClass::NotRunning);
    assert_eq!(classify_exit(1), ExitClass::Fatal);
    assert_eq!(classify_exit(64), ExitClass::Fatal);
}

#[test]
fn test_classify_subcommand_exit() {
    assert_eq!(classify_subcommand_exit(0), ExitClass::Success);
    assert_eq!(classify_subcommand_exit(64), ExitClass::Success);
    assert_eq!(classify_subcommand_exit(113), ExitClass::Success);
    assert_eq!(classify_subcommand_exit(3), ExitClass::NotRunning);
    assert_eq!(classify_subcommand_exit(125), ExitClass::NotRunning);
    assert_eq!(classify_subcommand_exit(1), ExitClass::Fatal);
}

#[test]
fn test_turn_off_flow_steps() {
    let mut flow = TurnOffFlow::new("system", "com.apple.tipsd", true);
    assert_eq!(
        flow.pending_args(),
        Some(vec!["bootout".to_string(), "system/com.apple.tipsd".to_string()])
    );
    flow.absorb(0, "");
    assert_eq!(
        flow.pending_args(),
        Some(vec!["disable".to_string(), "system/com.apple.tipsd".to_string()])
    );
    flow.absorb(0, "");
    assert_eq!(
        flow.pending_args(),
        Some(vec![
            "kill".to_string(),
            "9".to_string(),
            "system/com.apple.tipsd".to_string()
        ])
    );
    flow.absorb(1, "kill failed");
    assert!(flow.is_done());
    let (target, failure) = flow.into_result();
    assert_eq!(target, "system/com.apple.tipsd");
    assert_eq!(failure, None);
}

#[test]
fn test_turn_off_twice_on_stopped_target() {
    // the target is already stopped: the unload step reports "not
    // running" both times, and both runs still succeed
    let outcomes = vec![not_running_outcome(), ok_outcome(), ok_outcome()];
    let first = run_turn_off_flow("system", "com.apple.tipsd", false, &outcomes);
    let (target, failure) = first.into_result();
    assert_eq!(target, "system/com.apple.tipsd");
    assert_eq!(failure, None);
    let outcomes_again = vec![not_running_outcome(), (125, String::new()), ok_outcome()];
    let second = run_turn_off_flow("system", "com.apple.tipsd", false, &outcomes_again);
    let (target, failure) = second.into_result();
    assert_eq!(target, "system/com.apple.tipsd");
    assert_eq!(failure, None);
}

#[test]
fn test_turn_off_fatal_bootout_stops_flow() {
    let mut flow = TurnOffFlow::new("system", "com.apple.tipsd", false);
    flow.absorb(1, "boom");
    assert!(flow.is_done());
    assert_eq!(flow.step, TurnOffStep::Done);
    let (_, failure) = flow.into_result();
    assert_eq!(
        failure,
        Some(Error::LaunchdError(
            "`launchctl bootout system/com.apple.tipsd' failed with 1: boom".to_string()
        ))
    );
}

#[test]
fn test_batch_resilience() {
    // three targets; the second target's unload returns an arbitrary
    // fatal exit code, the others succeed throughout
    let names = ["com.apple.a", "com.apple.b", "com.apple.c"];
    let mut results: Vec<(String, Option<Error>)> = Vec::new();
    for name in names.iter() {
        let outcomes = if *name == "com.apple.b" {
            vec![(1, "denied".to_string()), ok_outcome(), ok_outcome()]
        } else {
            vec![ok_outcome(), ok_outcome(), ok_outcome()]
        };
        let flow = run_turn_off_flow("system", name, false, &outcomes);
        results.push(flow.into_result());
    }
    let outcome = collect_outcomes(results);
    assert_eq!(
        outcome.successes,
        vec!["system/com.apple.a".to_string(), "system/com.apple.c".to_string()]
    );
    assert_eq!(outcome.errors.len(), 1);
    assert_eq!(outcome.errors[0].0, "system/com.apple.b");
    assert_eq!(
        outcome.errors[0].1,
        Error::LaunchdError(
            "`launchctl bootout system/com.apple.b' failed with 1: denied".to_string()
        )
    );
    assert_eq!(outcome.successes.len() + outcome.errors.len(), 3);
}

#[test]
fn test_boot_up_flow() {
    let mut flow = BootUpFlow::new(
        "gui/501",
        "com.apple.tipsd",
        "/System/Library/LaunchAgents/com.apple.tipsd.plist",
    );
    assert_eq!(
        flow.pending_args(),
        Some(vec!["enable".to_string(), "gui/501/com.apple.tipsd".to_string()])
    );
    // "not running" on enable is a soft warning: the flow continues
    flow.absorb(3, "not running");
    assert_eq!(
        flow.pending_args(),
        Some(vec![
            "bootstrap".to_string(),
            "gui/501/com.apple.tipsd".to_string(),
            "/System/Library/LaunchAgents/com.apple.tipsd.plist".to_string()
        ])
    );
    flow.absorb(0, "");
    assert!(flow.is_done());
    let (_, failure) = flow.into_result();
    assert_eq!(failure, None);
}

#[test]
fn test_boot_up_flow_fatal_bootstrap() {
    let mut flow = BootUpFlow::new("system", "com.apple.tipsd", "/tmp/x.plist");
    flow.absorb(0, "");
    flow.absorb(5, "bad descriptor");
    assert!(flow.is_done());
    let (_, failure) = flow.into_result();
    assert_eq!(
        failure,
        Some(Error::LaunchdError(
            "`launchctl bootstrap system/com.apple.tipsd /tmp/x.plist' failed with 5: bad descriptor"
                .to_string()
        ))
    );
}
