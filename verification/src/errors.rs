//! The error taxonomy of the registry and its backends.
//!
//! Registry-structural failures (`NoSuchGame`, `GameExists`) are returned
//! synchronously to the caller; configuration and backend failures propagate
//! unchanged up to the refresh orchestrator, which turns any of them into a
//! `QueryStatus::Error` on the affected game entry.

use vstd::prelude::*;

verus! {

/// One failure of a registry operation, a configuration lookup, or a
/// backend query. Each variant carries a human-readable detail string;
/// for the key-driven variants it is the offending key or game identifier.
#[derive(Debug)]
pub enum Error {
    /// The named game identifier is not present in the registry.
    NoSuchGame(String),
    /// The named game identifier is already present in the registry.
    GameExists(String),
    /// A configuration key was requested but is absent from the store.
    InvalidSettingKey(String),
    /// A configuration key is present but holds a value of another type.
    SettingTypeMismatch(String),
    /// Captured backend output was not valid UTF-8 or not the expected JSON.
    DataParseError(String),
    /// The probe subprocess could not be started or exited abnormally.
    IOError(String),
    /// A backend-reported failure that fits no more specific kind.
    BackendError(String),
}

impl Error {
    /// The detail string carried by the variant, whichever it is.
    pub fn detail(&self) -> (r: &str)
        ensures
            r@ == self.spec_detail(),
    {
        match self {
            Error::NoSuchGame(s) => s.as_str(),
            Error::GameExists(s) => s.as_str(),
            Error::InvalidSettingKey(s) => s.as_str(),
            Error::SettingTypeMismatch(s) => s.as_str(),
            Error::DataParseError(s) => s.as_str(),
            Error::IOError(s) => s.as_str(),
            Error::BackendError(s) => s.as_str(),
        }
    }

    /// The detail string of any variant, seen as a sequence of characters.
    pub open spec fn spec_detail(&self) -> Seq<char> {
        match self {
            Error::NoSuchGame(s) => s@,
            Error::GameExists(s) => s@,
            Error::InvalidSettingKey(s) => s@,
            Error::SettingTypeMismatch(s) => s@,
            Error::DataParseError(s) => s@,
            Error::IOError(s) => s@,
            Error::BackendError(s) => s@,
        }
    }
}

} // verus!
