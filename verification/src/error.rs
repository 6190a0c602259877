//! Faults in the configuration of a run.

use crate::credentials::BasicAuthCredentialsParseError;
use vstd::prelude::*;

verus! {

/// A fault in the configuration. It is found before any check runs, and ends the run.
#[derive(Debug, Clone, Copy, PartialEq, Eq)]
pub enum ConfigurationError {
    /// A text that should hold `<username>:<password>` does not.
    MalformedCredentials(BasicAuthCredentialsParseError),
    /// The pattern of a remap rule is no regular expression.
    MalformedRemapPattern,
    /// An exclusion pattern is no regular expression.
    MalformedExcludePattern,
    /// No URI may be checked at a time.
    NoConcurrency,
}

} // verus!
