use cdb_adm::Error;
use cdb_adm::KeychainData;
use cdb_adm::no_doubles;

#[test]
fn test_no_doubles() {
    let names = no_doubles(&["b", "a", "b", "c", "a"]);
    assert_eq!(names, vec!["a", "b", "c"]);
    assert_eq!(no_doubles(&[]), Vec::<String>::new());
    assert_eq!(no_doubles(&["only"]), vec!["only"]);
}

#[test]
fn test_error_variant() {
    assert_eq!(Error::IOError("x".to_string()).variant(), "IOError");
    assert_eq!(
        Error::LaunchdServiceNotRunning("x".to_string()).variant(),
        "LaunchdServiceNotRunning"
    );
    assert_eq!(Error::LaunchdError("x".to_string()).variant(), "LaunchdError");
    assert_eq!(Error::ParseError("x".to_string()).variant(), "ParseError");
    assert_eq!(Error::ParseIntError("x".to_string()).variant(), "ParseIntError");
    assert_eq!(Error::KeychainError("x".to_string()).variant(), "KeychainError");
    assert_eq!(Error::PlistError("x".to_string()).variant(), "PlistError");
    assert_eq!(Error::TomlError("x".to_string()).variant(), "TomlError");
    assert_eq!(Error::JsonError("x".to_string()).variant(), "JsonError");
    assert_eq!(Error::CoreDataError("x".to_string()).variant(), "CoreDataError");
    assert_eq!(Error::SystemError("x".to_string()).variant(), "SystemError");
    assert_eq!(
        Error::ConfigurationError("x".to_string()).variant(),
        "ConfigurationError"
    );
    assert_eq!(Error::SettingsError("x".to_string()).variant(), "SettingsError");
}

#[test]
fn test_error_describe_and_eq() {
    let e = Error::LaunchdError("went wrong".to_string());
    assert_eq!(e.describe(), "LaunchdError: went wrong");
    assert_eq!(e, Error::LaunchdError("went wrong".to_string()));
    assert_ne!(e, Error::IOError("went wrong".to_string()));
    assert_ne!(e, Error::LaunchdError("other".to_string()));
}

#[test]
fn test_keychain_data_rendering() {
    let text = KeychainData::new("cdb-adm-test", b"cdb adm data");
    assert_eq!(text.data(), "cdb adm data");
    // bytes that are not UTF-8 render as lowercase hex instead
    let binary = KeychainData::new("cdb-adm-test", &[0xff, 0x00, 0xab]);
    assert_eq!(binary.data(), "ff00ab");
    assert_eq!(
        KeychainData::new("s", b"x"),
        KeychainData::new("s", b"x")
    );
    assert_ne!(KeychainData::new("s", b"x"), KeychainData::new("s", b"y"));
}
