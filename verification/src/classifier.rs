//! The status classifier: from what a request gave, and the configured rules, to a status.

use crate::status::{Detail, ErrorKind, Status};
use vstd::prelude::*;

verus! {

/// The kind of a failure below HTTP.
#[derive(Debug, Clone, Copy, PartialEq, Eq, Hash, Structural)]
pub enum TransportError {
    /// No answer came in time.
    Timeout,
    /// The connection was reset.
    ConnectionReset,
    /// Any other failure.
    Other,
}

/// What one attempt to fetch a URI gave.
#[derive(Debug, PartialEq, Eq)]
pub enum Outcome {
    /// An HTTP response with this status code.
    Response(u16),
    /// No HTTP response: the kind of the failure and its description.
    TransportFailure(TransportError, String),
}

/// Whether a request can be made for a URI.
#[derive(Debug, PartialEq, Eq)]
pub enum Support {
    /// A request can be made.
    Supported,
    /// The configuration leaves the URI out: its scheme is not among those to check, or it
    /// matches an exclusion pattern.
    Excluded,
    /// No client exists for the scheme; the reason is kept.
    NoClient(String),
}

/// The status codes that count as success.
#[derive(Debug, PartialEq, Eq)]
pub enum AcceptSet {
    /// Nothing was configured: the codes of the success class, 200 to 299.
    Conventional,
    /// The configured codes, and no others.
    Only(Vec<u16>),
}

impl Clone for Outcome {
    fn clone(&self) -> (out: Self)
        ensures
            out == *self,
    {
        match self {
            Outcome::Response(code) => Outcome::Response(*code),
            Outcome::TransportFailure(kind, detail) => Outcome::TransportFailure(
                *kind,
                detail.clone(),
            ),
        }
    }
}

/// A code of one of the five classes of HTTP status codes.
pub open spec fn is_known(code: u16) -> bool {
    100 <= code <= 599
}

/// Whether `codes` holds `code`.
pub fn holds_code(codes: &Vec<u16>, code: u16) -> (out: bool)
    ensures
        out == codes@.contains(code),
{
    let mut i: usize = 0;
    while i < codes.len()
        invariant
            i <= codes@.len(),
            forall|j: int| 0 <= j < i ==> codes@[j] != code,
        decreases codes@.len() - i,
    {
        if codes[i] == code {
            return true;
        }
        i = i + 1;
    }
    false
}

impl AcceptSet {
    /// Whether the set holds `code`.
    pub open spec fn holds(&self, code: u16) -> bool {
        match *self {
            AcceptSet::Conventional => 200 <= code <= 299,
            AcceptSet::Only(codes) => codes@.contains(code),
        }
    }

    /// Whether the set holds `code`.
    pub fn contains(&self, code: u16) -> (out: bool)
        ensures
            out == self.holds(code),
    {
        match self {
            AcceptSet::Conventional => 200 <= code && code <= 299,
            AcceptSet::Only(codes) => holds_code(codes, code),
        }
    }
}

/// The status of a response with status code `code`: success where the code is accepted and
/// not rejected; unknown where it is then of none of the five classes; else an error that
/// carries the code.
pub open spec fn code_status(code: u16, accept: AcceptSet, reject: Seq<u16>) -> Status {
    if accept.holds(code) && !reject.contains(code) {
        Status::Success(code)
    } else if !is_known(code) {
        Status::Unknown(code)
    } else {
        Status::Error(ErrorKind::RejectedStatusCode, Detail::Code(code))
    }
}

/// The classification. Where no request can be made, `outcome` does not count: the status
/// is `Excluded`, or `Unsupported` with the reason. A failure below HTTP is an error that
/// carries its description. A response is classified by its status code.
pub open spec fn classified(
    outcome: Outcome,
    accept: AcceptSet,
    reject: Seq<u16>,
    support: Support,
) -> Status {
    match support {
        Support::Excluded => Status::Excluded,
        Support::NoClient(reason) => Status::Unsupported(reason),
        Support::Supported => match outcome {
            Outcome::TransportFailure(_, detail) => Status::Error(
                ErrorKind::TransportFailure,
                Detail::Text(detail),
            ),
            Outcome::Response(code) => code_status(code, accept, reject),
        },
    }
}

/// The rules of one run: which status codes count as success, which are rejected whatever the
/// accept set holds, and which are never cached.
#[derive(Debug, PartialEq, Eq)]
pub struct Rules {
    pub accept: AcceptSet,
    pub reject: Vec<u16>,
    pub cache_exclude: Vec<u16>,
}

impl Rules {
    /// The status of a response with status code `code`.
    pub open spec fn status_of(&self, code: u16) -> Status {
        code_status(code, self.accept, self.reject@)
    }

    /// A status that may be cached: a success, or an error that carries a status code, whose
    /// code is not excluded from caching.
    pub open spec fn cacheable(&self, status: Status) -> bool {
        match status {
            Status::Success(code) => !self.cache_exclude@.contains(code),
            Status::Error(_, Detail::Code(code)) => !self.cache_exclude@.contains(code),
            _ => false,
        }
    }

    /// A status code that may stand in the cache: one that is not excluded from caching and
    /// that the rules classify as success or as error.
    pub open spec fn storable(&self, code: u16) -> bool {
        !self.cache_exclude@.contains(code) && !(self.status_of(code) is Unknown)
    }

    /// The status of a response with status code `code`.
    pub fn classify_code(&self, code: u16) -> (out: Status)
        ensures
            out == self.status_of(code),
    {
        classify_code(code, &self.accept, &self.reject)
    }

    /// Whether `status` may be cached.
    pub fn is_cacheable(&self, status: &Status) -> (out: bool)
        ensures
            out == self.cacheable(*status),
    {
        match status {
            Status::Success(code) => !holds_code(&self.cache_exclude, *code),
            Status::Error(_, Detail::Code(code)) => !holds_code(&self.cache_exclude, *code),
            _ => false,
        }
    }

    /// Whether `code` may stand in the cache.
    pub fn is_storable(&self, code: u16) -> (out: bool)
        ensures
            out == self.storable(code),
    {
        if holds_code(&self.cache_exclude, code) {
            false
        } else {
            match self.classify_code(code) {
                Status::Unknown(_) => false,
                _ => true,
            }
        }
    }
}

/// Classifies a status code.
pub fn classify_code(code: u16, accept: &AcceptSet, reject: &Vec<u16>) -> (out: Status)
    ensures
        out == code_status(code, *accept, reject@),
{
    if accept.contains(code) && !holds_code(reject, code) {
        Status::Success(code)
    } else if !(100 <= code && code <= 599) {
        Status::Unknown(code)
    } else {
        Status::Error(ErrorKind::RejectedStatusCode, Detail::Code(code))
    }
}

/// Classifies what a request gave. The status depends on the arguments alone.
pub fn classify(outcome: Outcome, accept: &AcceptSet, reject: &Vec<u16>, support: Support) -> (out:
    Status)
    ensures
        out == classified(outcome, *accept, reject@, support),
{
    match support {
        Support::Excluded => Status::Excluded,
        Support::NoClient(reason) => Status::Unsupported(reason),
        Support::Supported => match outcome {
            Outcome::TransportFailure(_, detail) => Status::Error(
                ErrorKind::TransportFailure,
                Detail::Text(detail),
            ),
            Outcome::Response(code) => classify_code(code, accept, reject),
        },
    }
}

/// Classification is a function: equal arguments are classified alike, whenever and however
/// often they are classified.
pub proof fn lemma_classification_is_a_function(
    first: Status,
    second: Status,
    outcome: Outcome,
    accept: AcceptSet,
    reject: Seq<u16>,
    support: Support,
)
    requires
        first == classified(outcome, accept, reject, support),
        second == classified(outcome, accept, reject, support),
    ensures
        first == second,
{
}

/// A configured accept set replaces the conventional one: a code of the success class that
/// the configured set does not hold is no success.
pub proof fn lemma_accept_set_replaces(code: u16, codes: Vec<u16>, reject: Seq<u16>)
    requires
        !codes@.contains(code),
    ensures
        !(code_status(code, AcceptSet::Only(codes), reject) is Success),
{
}

/// The anchors of a resource.
#[derive(Debug, PartialEq, Eq)]
pub enum Anchors {
    /// The content is of a type that is not read for anchors.
    Unreadable,
    /// The anchors that the content holds.
    Found(Vec<String>),
}

/// Whether one of `anchors` is `fragment`.
pub open spec fn has_anchor(anchors: Seq<String>, fragment: Seq<char>) -> bool {
    exists|i: int| 0 <= i < anchors.len() && (#[trigger] anchors[i])@ == fragment
}

/// The status after the fragment check: a success is turned into an error, which carries the
/// fragment, where a fragment was requested, the content was read for anchors, and none of
/// them is the fragment. Every other status stays.
pub open spec fn fragment_checked(base: Status, fragment: Option<String>, anchors: Anchors) -> Status {
    if base is Success && fragment is Some && anchors is Found && !has_anchor(
        anchors->Found_0@,
        fragment->Some_0@,
    ) {
        Status::Error(ErrorKind::FragmentNotFound, Detail::Text(fragment->Some_0))
    } else {
        base
    }
}

/// Whether one of `anchors` is `fragment`.
pub fn holds_anchor(anchors: &Vec<String>, fragment: &String) -> (out: bool)
    ensures
        out == has_anchor(anchors@, fragment@),
{
    let mut i: usize = 0;
    while i < anchors.len()
        invariant
            i <= anchors@.len(),
            forall|j: int| 0 <= j < i ==> (#[trigger] anchors@[j])@ != fragment@,
        decreases anchors@.len() - i,
    {
        if anchors[i] == *fragment {
            return true;
        }
        i = i + 1;
    }
    false
}

/// Checks the requested fragment against the anchors of the resource.
pub fn check_fragment(base: Status, fragment: Option<String>, anchors: &Anchors) -> (out: Status)
    ensures
        out == fragment_checked(base, fragment, *anchors),
{
    if !base.is_success() {
        return base;
    }
    match fragment {
        None => base,
        Some(wanted) => match anchors {
            Anchors::Unreadable => base,
            Anchors::Found(found) => {
                if holds_anchor(found, &wanted) {
                    base
                } else {
                    Status::Error(ErrorKind::FragmentNotFound, Detail::Text(wanted))
                }
            },
        },
    }
}

} // verus!
