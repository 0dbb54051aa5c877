use cdb_adm::Error;
use cdb_adm::extract_disabled_service_info;
use cdb_adm::extract_service_info_opt;
use cdb_adm::extract_service_name;
use cdb_adm::parse_services;

#[test]
fn test_parse_services_round_trip() {
    let text = "system info = {\n\tx\n}\nservices = {\n\t120\t0\tcom.apple.mdworker\n\t0\t-9\tcom.apple.calaccessd\n\t433\t(spawn)\tcom.apple.cloudd\n}\nignored trailing = {\n\tnot a service line\n}\n";
    let records = parse_services(text, false).unwrap();
    assert_eq!(
        records,
        vec![
            (120, Some(0), "com.apple.mdworker".to_string(), true),
            (0, Some(-9), "com.apple.calaccessd".to_string(), true),
            (433, None, "com.apple.cloudd".to_string(), true),
        ]
    );
}

#[test]
fn test_parse_services_synthetic_block() {
    let text = "services = {\n  1  0  a.b\n  22  -1  c.d\n  303  7  e\n}";
    let records = parse_services(text, false).unwrap();
    assert_eq!(records.len(), 3);
    assert_eq!(records[0], (1, Some(0), "a.b".to_string(), true));
    assert_eq!(records[1], (22, Some(-1), "c.d".to_string(), true));
    assert_eq!(records[2], (303, Some(7), "e".to_string(), true));
}

#[test]
fn test_parse_services_absent_section() {
    assert_eq!(parse_services("", false).unwrap(), vec![]);
    assert_eq!(parse_services("no header here\n}\n", false).unwrap(), vec![]);
}

#[test]
fn test_parse_services_bad_line() {
    let text = "services = {\n\tnot a service line\n}\n";
    let err = parse_services(text, false).unwrap_err();
    assert_eq!(
        err,
        Error::ParseError("service info not found in \tnot a service line".to_string())
    );
}

#[test]
fn test_parse_services_disabled_section() {
    let text = "disabled services = {\n\t\"com.example.foo\"    disabled\n\t\"com.example.bar\" => enabled\n}\n";
    let records = parse_services(text, true).unwrap();
    assert_eq!(
        records,
        vec![
            (0, None, "com.example.foo".to_string(), false),
            (0, None, "com.example.bar".to_string(), true),
        ]
    );
}

#[test]
fn test_extract_disabled_service_info() {
    assert_eq!(
        extract_disabled_service_info("  \"com.example.foo\"    disabled"),
        Some(("com.example.foo".to_string(), false))
    );
    assert_eq!(
        extract_disabled_service_info("  \"com.example.foo\"    enabled"),
        Some(("com.example.foo".to_string(), true))
    );
    assert_eq!(extract_disabled_service_info("\"unindented\" disabled"), None);
    assert_eq!(extract_disabled_service_info("  \"noflag\""), None);
}

#[test]
fn test_extract_service_info_opt() {
    assert_eq!(
        extract_service_info_opt("\t120\t0\tcom.apple.mdworker").unwrap(),
        (120, Some(0), "com.apple.mdworker".to_string())
    );
    assert_eq!(
        extract_service_info_opt("  433  (spawn)  com.apple.cloudd trailing junk").unwrap(),
        (433, None, "com.apple.cloudd".to_string())
    );
    // a pid too large for a machine integer falls back to zero
    assert_eq!(
        extract_service_info_opt("  99999999999999999999  0  big.pid").unwrap(),
        (0, Some(0), "big.pid".to_string())
    );
    // a status token with an inner dash is not numeric
    assert_eq!(
        extract_service_info_opt("  5  9-2  odd.status").unwrap(),
        (5, None, "odd.status".to_string())
    );
    assert!(extract_service_info_opt("no digits here").is_err());
    assert!(extract_service_info_opt("  12  0").is_err());
}

#[test]
fn test_parse_services_stops_at_closing_brace() {
    // the closing brace ends the scan: later sections never reach the
    // line grammar, even when they would fail it
    let text = "services = {\n\t1\t0\ta.b\n}\ngarbage that matches nothing\n";
    let records = parse_services(text, false).unwrap();
    assert_eq!(records, vec![(1, Some(0), "a.b".to_string(), true)]);
}

#[test]
fn test_parse_services_status_extremes() {
    let text = "services = {\n  1  9223372036854775807  max.status\n  2  -9223372036854775808  min.status\n  3  99999999999999999999  overflow.status\n}";
    let records = parse_services(text, false).unwrap();
    assert_eq!(records[0], (1, Some(i64::MAX), "max.status".to_string(), true));
    assert_eq!(records[1], (2, Some(i64::MIN), "min.status".to_string(), true));
    assert_eq!(records[2], (3, None, "overflow.status".to_string(), true));
}

#[test]
fn test_extract_service_name() {
    assert_eq!(
        extract_service_name("\t0\t78\tcom.apple.tipsd").unwrap(),
        "com.apple.tipsd"
    );
    let err = extract_service_name("###").unwrap_err();
    assert_eq!(err.variant(), "ParseError");
}
