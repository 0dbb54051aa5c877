//! The error taxonomy: one variant per failure kind, each carrying a
//! human-readable message.

use vstd::prelude::*;
use vstd::string::StringExecFns;

verus! {

/// Every failure the library and its callers distinguish.
///
/// `LaunchdServiceNotRunning` is the recoverable "target already absent"
/// outcome; `LaunchdError` is any other service-manager rejection;
/// `ParseError` is print-output text that did not match the expected
/// grammar; the remaining variants belong to the surrounding tooling.
#[derive(Debug, Clone)]
pub enum Error {
    IOError(String),
    JsonError(String),
    LaunchdError(String),
    LaunchdServiceNotRunning(String),
    ParseIntError(String),
    KeychainError(String),
    PlistError(String),
    TomlError(String),
    CoreDataError(String),
    ParseError(String),
    SystemError(String),
    ConfigurationError(String),
    SettingsError(String),
}

/// The name of an error's variant, as `variant` returns it.
pub open spec fn spec_variant_name(e: Error) -> Seq<char> {
    match e {
        Error::IOError(_) => "IOError"@,
        Error::JsonError(_) => "JsonError"@,
        Error::LaunchdError(_) => "LaunchdError"@,
        Error::LaunchdServiceNotRunning(_) => "LaunchdServiceNotRunning"@,
        Error::ParseIntError(_) => "ParseIntError"@,
        Error::KeychainError(_) => "KeychainError"@,
        Error::PlistError(_) => "PlistError"@,
        Error::TomlError(_) => "TomlError"@,
        Error::CoreDataError(_) => "CoreDataError"@,
        Error::ParseError(_) => "ParseError"@,
        Error::SystemError(_) => "SystemError"@,
        Error::ConfigurationError(_) => "ConfigurationError"@,
        Error::SettingsError(_) => "SettingsError"@,
    }
}

/// The message an error carries.
pub open spec fn spec_message(e: Error) -> Seq<char> {
    match e {
        Error::IOError(m) => m@,
        Error::JsonError(m) => m@,
        Error::LaunchdError(m) => m@,
        Error::LaunchdServiceNotRunning(m) => m@,
        Error::ParseIntError(m) => m@,
        Error::KeychainError(m) => m@,
        Error::PlistError(m) => m@,
        Error::TomlError(m) => m@,
        Error::CoreDataError(m) => m@,
        Error::ParseError(m) => m@,
        Error::SystemError(m) => m@,
        Error::ConfigurationError(m) => m@,
        Error::SettingsError(m) => m@,
    }
}

impl Error {
    /// The variant's name.
    pub fn variant(&self) -> (r: String)
        ensures
            r@ == spec_variant_name(*self),
    {
        match self {
            Error::IOError(_) => String::from_str("IOError"),
            Error::JsonError(_) => String::from_str("JsonError"),
            Error::LaunchdError(_) => String::from_str("LaunchdError"),
            Error::LaunchdServiceNotRunning(_) => String::from_str("LaunchdServiceNotRunning"),
            Error::ParseIntError(_) => String::from_str("ParseIntError"),
            Error::KeychainError(_) => String::from_str("KeychainError"),
            Error::PlistError(_) => String::from_str("PlistError"),
            Error::TomlError(_) => String::from_str("TomlError"),
            Error::CoreDataError(_) => String::from_str("CoreDataError"),
            Error::ParseError(_) => String::from_str("ParseError"),
            Error::SystemError(_) => String::from_str("SystemError"),
            Error::ConfigurationError(_) => String::from_str("ConfigurationError"),
            Error::SettingsError(_) => String::from_str("SettingsError"),
        }
    }

    /// The message the error carries.
    pub fn message(&self) -> (r: &String)
        ensures
            r@ == spec_message(*self),
    {
        match self {
            Error::IOError(m) => m,
            Error::JsonError(m) => m,
            Error::LaunchdError(m) => m,
            Error::LaunchdServiceNotRunning(m) => m,
            Error::ParseIntError(m) => m,
            Error::KeychainError(m) => m,
            Error::PlistError(m) => m,
            Error::TomlError(m) => m,
            Error::CoreDataError(m) => m,
            Error::ParseError(m) => m,
            Error::SystemError(m) => m,
            Error::ConfigurationError(m) => m,
            Error::SettingsError(m) => m,
        }
    }

    /// The display form: the variant's name, a colon, and the message.
    pub fn describe(&self) -> (r: String)
        ensures
            r@ == spec_variant_name(*self) + ": "@ + spec_message(*self),
    {
        let mut r = self.variant();
        r.append(": ");
        let m = self.message();
        r.append(m.as_str());
        r
    }
}

/// Structural equality of two errors: same variant, same message.
pub open spec fn spec_error_eq(a: Error, b: Error) -> bool {
    match (a, b) {
        (Error::IOError(x), Error::IOError(y)) => x@ == y@,
        (Error::JsonError(x), Error::JsonError(y)) => x@ == y@,
        (Error::LaunchdError(x), Error::LaunchdError(y)) => x@ == y@,
        (Error::LaunchdServiceNotRunning(x), Error::LaunchdServiceNotRunning(y)) => x@ == y@,
        (Error::ParseIntError(x), Error::ParseIntError(y)) => x@ == y@,
        (Error::KeychainError(x), Error::KeychainError(y)) => x@ == y@,
        (Error::PlistError(x), Error::PlistError(y)) => x@ == y@,
        (Error::TomlError(x), Error::TomlError(y)) => x@ == y@,
        (Error::CoreDataError(x), Error::CoreDataError(y)) => x@ == y@,
        (Error::ParseError(x), Error::ParseError(y)) => x@ == y@,
        (Error::SystemError(x), Error::SystemError(y)) => x@ == y@,
        (Error::ConfigurationError(x), Error::ConfigurationError(y)) => x@ == y@,
        (Error::SettingsError(x), Error::SettingsError(y)) => x@ == y@,
        _ => false,
    }
}

impl PartialEq for Error {
    fn eq(&self, other: &Error) -> (r: bool) {
        match (self, other) {
            (Error::IOError(a), Error::IOError(b)) => a.eq(b),
            (Error::JsonError(a), Error::JsonError(b)) => a.eq(b),
            (Error::LaunchdError(a), Error::LaunchdError(b)) => a.eq(b),
            (Error::LaunchdServiceNotRunning(a), Error::LaunchdServiceNotRunning(b)) => a.eq(b),
            (Error::ParseIntError(a), Error::ParseIntError(b)) => a.eq(b),
            (Error::KeychainError(a), Error::KeychainError(b)) => a.eq(b),
            (Error::PlistError(a), Error::PlistError(b)) => a.eq(b),
            (Error::TomlError(a), Error::TomlError(b)) => a.eq(b),
            (Error::CoreDataError(a), Error::CoreDataError(b)) => a.eq(b),
            (Error::ParseError(a), Error::ParseError(b)) => a.eq(b),
            (Error::SystemError(a), Error::SystemError(b)) => a.eq(b),
            (Error::ConfigurationError(a), Error::ConfigurationError(b)) => a.eq(b),
            (Error::SettingsError(a), Error::SettingsError(b)) => a.eq(b),
            _ => false,
        }
    }
}

impl Eq for Error {

}

impl vstd::std_specs::cmp::PartialEqSpecImpl for Error {
    open spec fn obeys_eq_spec() -> bool {
        true
    }

    open spec fn eq_spec(&self, other: &Error) -> bool {
        spec_error_eq(*self, *other)
    }
}

} // verus!
