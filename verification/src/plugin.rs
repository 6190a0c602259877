//! What is exchanged with handlers that live outside: external plugin modules, and the
//! service that gets past bot protection.

use crate::chain::ChainResult;
use crate::request::{is_method, Request};
use crate::status::Status;
use crate::uri::{normalized, Uri};
use vstd::prelude::*;

verus! {

/// A request in the form in which a plugin gets it and hands it back.
#[derive(Debug, PartialEq, Eq)]
pub struct ExtismRequest {
    pub method: String,
    pub url: String,
}

/// A status in the form in which a plugin hands it back.
#[derive(Debug, Clone, Copy, PartialEq, Eq, Structural)]
pub enum ExtismStatus {
    /// The plugin has checked the URI; the status code that it found.
    Success(u16),
    /// The plugin leaves the URI out.
    Excluded,
}

/// What the `chain` operation of a plugin hands back.
#[derive(Debug, PartialEq, Eq)]
pub enum ExtismChainResult {
    Next(ExtismRequest),
    Done(ExtismStatus),
}

/// Calls `http::StatusCode::from_u16` and hands back the number of the status code
/// (`StatusCode::as_u16`). The codes from 100 to 999 are status codes, and no others.
#[verifier::external_body]
fn status_code(code: u16) -> (out: Option<u16>)
    ensures
        out == if 100 <= code <= 999 {
            Some(code)
        } else {
            None::<u16>
        },
{
    match http::StatusCode::from_u16(code) {
        Ok(status) => Some(status.as_u16()),
        Err(_) => None,
    }
}

impl ExtismRequest {
    /// The request as a plugin gets it: the name of the method and the text of the URI.
    /// Headers are not handed to plugins.
    pub fn from_request(request: &Request) -> (out: ExtismRequest)
        ensures
            out.method@ == request.method@,
            out.url@ == request.uri@,
    {
        ExtismRequest {
            method: request.method.as_str().to_owned(),
            url: request.uri.as_str().to_owned(),
        }
    }

    /// The request that a plugin handed back: without headers, for the normalized URI.
    /// `None` where the method is no HTTP method or the URL is no URI.
    pub fn into_request(self) -> (out: Option<Request>)
        ensures
            out is Some <==> is_method(self.method@) && normalized(self.url@) is Some,
            out matches Some(request) ==> {
                &&& request.method@ == self.method@
                &&& normalized(self.url@) == Some(request.uri@)
                &&& request.headers@.len() == 0
            },
    {
        match Uri::parse(self.url.as_str()) {
            None => None,
            Some(uri) => Request::new(self.method.as_str(), uri),
        }
    }
}

impl ExtismStatus {
    /// The status that the plugin's status stands for. `None` where the plugin reports a
    /// number that is no status code.
    pub open spec fn converted(self) -> Option<Status> {
        match self {
            ExtismStatus::Success(code) => if 100 <= code <= 999 {
                Some(Status::Success(code))
            } else {
                None
            },
            ExtismStatus::Excluded => Some(Status::Excluded),
        }
    }

    /// The status that the plugin's status stands for.
    pub fn into_status(self) -> (out: Option<Status>)
        ensures
            out == self.converted(),
    {
        match self {
            ExtismStatus::Success(code) => match status_code(code) {
                Some(valid) => Some(Status::Success(valid)),
                None => None,
            },
            ExtismStatus::Excluded => Some(Status::Excluded),
        }
    }
}

/// The reason that is kept where a plugin could not be called or its answer could not be
/// used.
pub open spec fn plugin_failure() -> Seq<char> {
    "plugin call failed"@
}

/// Whether `out` is what the chain is given for the answer `reply` of a plugin; `None`
/// stands for a call that failed. An answer that can be used is handed on as it is: `Next`
/// with the request, `Done` with the status. A call that failed, and an answer that holds no
/// HTTP method, no URI or no status code, end the chain with `Unsupported` for this one
/// request.
pub open spec fn plugin_answers(
    reply: Option<ExtismChainResult>,
    out: ChainResult<Request, Status>,
) -> bool {
    match reply {
        Some(ExtismChainResult::Next(request)) => if is_method(request.method@) && normalized(
            request.url@,
        ) is Some {
            &&& out matches ChainResult::Next(next)
            &&& next.method@ == request.method@
            &&& normalized(request.url@) == Some(next.uri@)
            &&& next.headers@.len() == 0
        } else {
            out matches ChainResult::Done(Status::Unsupported(reason)) && reason@
                == plugin_failure()
        },
        Some(ExtismChainResult::Done(status)) => match status.converted() {
            Some(done) => out == ChainResult::<Request, Status>::Done(done),
            None => out matches ChainResult::Done(Status::Unsupported(reason)) && reason@
                == plugin_failure(),
        },
        None => out matches ChainResult::Done(Status::Unsupported(reason)) && reason@
            == plugin_failure(),
    }
}

/// What the chain is given for the answer of a plugin.
pub fn plugin_result(reply: Option<ExtismChainResult>) -> (out: ChainResult<Request, Status>)
    ensures
        plugin_answers(reply, out),
{
    match reply {
        Some(ExtismChainResult::Next(request)) => match request.into_request() {
            Some(next) => ChainResult::Next(next),
            None => ChainResult::Done(Status::Unsupported("plugin call failed".to_owned())),
        },
        Some(ExtismChainResult::Done(status)) => match status.into_status() {
            Some(done) => ChainResult::Done(done),
            None => ChainResult::Done(Status::Unsupported("plugin call failed".to_owned())),
        },
        None => ChainResult::Done(Status::Unsupported("plugin call failed".to_owned())),
    }
}

/// What the service that gets past bot protection is sent.
#[derive(Debug, PartialEq, Eq)]
pub struct FlaresolverrRequest {
    pub url: String,
    pub cmd: String,
}

/// The request for the service: the URI, and the command `request.get`.
pub fn flaresolverr_request(request: &Request) -> (out: FlaresolverrRequest)
    ensures
        out.url@ == request.uri@,
        out.cmd@ == "request.get"@,
{
    FlaresolverrRequest { url: request.uri.as_str().to_owned(), cmd: "request.get".to_owned() }
}

/// What the chain is given for the answer of the service: the chain ends with success for
/// the status code that the service reports, whatever that code is.
pub fn flaresolverr_result(status: u16) -> (out: ChainResult<Request, Status>)
    ensures
        out == ChainResult::<Request, Status>::Done(Status::Success(status)),
{
    ChainResult::Done(Status::Success(status))
}

} // verus!
