//! The library's error type.

use vstd::prelude::*;

verus! {

#[verifier::external_type_specification]
#[verifier::external_body]
pub struct ExIoError(std::io::Error);

/// What can go wrong while loading the rules and the configuration, or while
/// acting on processes.
#[derive(Debug)]
pub enum SwytError {
    ConfigFileNotFound,
    ConfigParseError,
    RuleParseError,
    ProcessFetchError,
    ProcessKillError,
    IoError(std::io::Error),
}

impl From<std::io::Error> for SwytError {
    fn from(e: std::io::Error) -> (r: SwytError)
        ensures
            r == SwytError::IoError(e),
    {
        SwytError::IoError(e)
    }
}

impl vstd::std_specs::convert::FromSpecImpl<std::io::Error> for SwytError {
    open spec fn obeys_from_spec() -> bool {
        true
    }

    open spec fn from_spec(e: std::io::Error) -> SwytError {
        SwytError::IoError(e)
    }
}

impl SwytError {
    /// A message that describes the error to a person.
    pub fn message(&self) -> (r: String)
        ensures
            (*self matches SwytError::ConfigFileNotFound) ==> r@ == "Couldn't find config file"@,
            (*self matches SwytError::ConfigParseError) ==> r@ == "Couldn't parse config file"@,
            (*self matches SwytError::RuleParseError) ==> r@ == "Couldn't parse rule"@,
            (*self matches SwytError::ProcessFetchError) ==> r@ == "Couldn't fetch process"@,
            (*self matches SwytError::ProcessKillError) ==> r@ == "Couldn't kill process"@,
    {
        match self {
            SwytError::ConfigFileNotFound => String::from_str("Couldn't find config file"),
            SwytError::ConfigParseError => String::from_str("Couldn't parse config file"),
            SwytError::RuleParseError => String::from_str("Couldn't parse rule"),
            SwytError::ProcessFetchError => String::from_str("Couldn't fetch process"),
            SwytError::ProcessKillError => String::from_str("Couldn't kill process"),
            SwytError::IoError(e) => e.to_string(),
        }
    }
}

}
