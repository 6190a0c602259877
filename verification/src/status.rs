//! The outcome of checking one URI.

use crate::text::{decimal, decimal_string};
use vstd::prelude::*;

verus! {

/// Why a check failed.
#[derive(Debug, Clone, Copy, PartialEq, Eq, Hash, Structural)]
pub enum ErrorKind {
    /// No HTTP response was obtained.
    TransportFailure,
    /// The response carried a status code that the rules do not accept.
    RejectedStatusCode,
    /// The resource was fetched, but it has no anchor for the requested fragment.
    FragmentNotFound,
}

/// What an error carries along: a status code, or a description.
#[derive(Debug, PartialEq, Eq, Hash)]
pub enum Detail {
    Code(u16),
    Text(String),
}

/// The final classification of a checked URI.
#[derive(Debug, PartialEq, Eq, Hash)]
pub enum Status {
    /// The response carried an accepted status code.
    Success(u16),
    /// The check failed.
    Error(ErrorKind, Detail),
    /// The URI was left out by configuration; no request was made.
    Excluded,
    /// No request could be made for this URI.
    Unsupported(String),
    /// The response carried a status code outside the known classes.
    Unknown(u16),
}

impl Clone for Detail {
    fn clone(&self) -> (out: Self)
        ensures
            out == *self,
    {
        match self {
            Detail::Code(code) => Detail::Code(*code),
            Detail::Text(text) => Detail::Text(text.clone()),
        }
    }
}

impl Clone for Status {
    fn clone(&self) -> (out: Self)
        ensures
            out == *self,
    {
        match self {
            Status::Success(code) => Status::Success(*code),
            Status::Error(kind, detail) => Status::Error(*kind, detail.clone()),
            Status::Excluded => Status::Excluded,
            Status::Unsupported(reason) => Status::Unsupported(reason.clone()),
            Status::Unknown(code) => Status::Unknown(*code),
        }
    }
}

impl Status {
    /// The status code that the status carries, if it carries one.
    pub open spec fn spec_code(&self) -> Option<u16> {
        match *self {
            Status::Success(code) => Some(code),
            Status::Unknown(code) => Some(code),
            Status::Error(_, Detail::Code(code)) => Some(code),
            _ => None,
        }
    }

    /// The status code that the status carries, if it carries one.
    #[verifier::when_used_as_spec(spec_code)]
    pub fn code(&self) -> (out: Option<u16>)
        ensures
            out == self.spec_code(),
    {
        match self {
            Status::Success(code) => Some(*code),
            Status::Unknown(code) => Some(*code),
            Status::Error(_, Detail::Code(code)) => Some(*code),
            _ => None,
        }
    }

    /// True for `Success` only.
    pub fn is_success(&self) -> (out: bool)
        ensures
            out == (*self is Success),
    {
        match self {
            Status::Success(_) => true,
            _ => false,
        }
    }

    /// True for `Error` only.
    pub fn is_error(&self) -> (out: bool)
        ensures
            out == (*self is Error),
    {
        match self {
            Status::Error(_, _) => true,
            _ => false,
        }
    }

    /// The short text that stands for the status in a report: the status code in decimal
    /// where the status carries one, a fixed word otherwise.
    pub open spec fn code_text(&self) -> Seq<char> {
        match *self {
            Status::Success(code) => decimal(code as nat),
            Status::Unknown(code) => decimal(code as nat),
            Status::Error(_, Detail::Code(code)) => decimal(code as nat),
            Status::Error(_, Detail::Text(_)) => "ERROR"@,
            Status::Excluded => "EXCLUDED"@,
            Status::Unsupported(_) => "IGNORED"@,
        }
    }

    /// The short text that stands for the status in a report.
    pub fn code_as_string(&self) -> (out: String)
        ensures
            out@ == self.code_text(),
    {
        match self {
            Status::Success(code) => decimal_string(*code as u64),
            Status::Unknown(code) => decimal_string(*code as u64),
            Status::Error(_, Detail::Code(code)) => decimal_string(*code as u64),
            Status::Error(_, Detail::Text(_)) => "ERROR".to_owned(),
            Status::Excluded => "EXCLUDED".to_owned(),
            Status::Unsupported(_) => "IGNORED".to_owned(),
        }
    }

    /// The description that the status carries, if it carries one.
    pub open spec fn spec_details(&self) -> Option<String> {
        match *self {
            Status::Error(_, Detail::Text(text)) => Some(text),
            Status::Unsupported(reason) => Some(reason),
            _ => None,
        }
    }

    /// The description that the status carries, if it carries one.
    pub fn details(&self) -> (out: Option<String>)
        ensures
            out == self.spec_details(),
    {
        match self {
            Status::Error(_, Detail::Text(text)) => Some(text.clone()),
            Status::Unsupported(reason) => Some(reason.clone()),
            _ => None,
        }
    }
}

/// True where at least one of `statuses` is an error.
pub open spec fn has_error(statuses: Seq<Status>) -> bool {
    exists|i: int| 0 <= i < statuses.len() && #[trigger] statuses[i] is Error
}

/// A run has failed where at least one status is an error.
pub fn run_failed(statuses: &Vec<Status>) -> (out: bool)
    ensures
        out == has_error(statuses@),
{
    let mut i: usize = 0;
    while i < statuses.len()
        invariant
            i <= statuses@.len(),
            forall|j: int| 0 <= j < i ==> !(#[trigger] statuses@[j] is Error),
        decreases statuses@.len() - i,
    {
        if statuses[i].is_error() {
            return true;
        }
        i = i + 1;
    }
    false
}

} // verus!
