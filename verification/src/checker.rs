//! The checker: for each request, first the cache, then the admission of a check, and at the
//! end of the check the cache again and the requests that waited for it.

use crate::cache::{hit, updated, Cache};
use crate::chain::ClientRequestChain;
use crate::classifier::{
    check_fragment, classified, classify, fragment_checked, Anchors, Outcome, Rules, Support,
};
use crate::controller::{slots_of, Admission, Controller, Slot};
use crate::keyed::has_key;
use crate::credentials::BasicAuthCredentials;
use crate::request::{copy_headers, is_method, Request, Span};
use crate::retry::{RetryPolicy, RetryStep};
use crate::status::Status;
use crate::uri::Uri;
use vstd::prelude::*;

verus! {

/// What the checker answers to a request.
#[derive(Debug, PartialEq, Eq)]
pub enum Begin {
    /// The cache holds a status for the URI: this is the status of the request. No check is
    /// made and no request is sent.
    Cached(Status),
    /// The cache holds nothing for the URI: what the controller answered.
    Admitted(Admission),
}

/// What the end of a check sets off.
#[derive(Debug, PartialEq, Eq)]
pub struct Finished {
    /// The status of the check: the one status of all the requests in `tickets`.
    pub status: Status,
    /// The requests that get the status.
    pub tickets: Vec<u64>,
    /// The URI whose check starts now in the place that became free.
    pub next: Option<Uri>,
}

/// Where a link stands: the document, and the position in it where that is known.
#[derive(Debug, PartialEq, Eq)]
pub struct Source {
    pub document: String,
    pub span: Option<Span>,
}

/// One occurrence of a link, as it comes from the extraction of links.
#[derive(Debug, PartialEq, Eq)]
pub struct CheckRequest {
    pub uri: Uri,
    /// The fragment that is looked for among the anchors of the resource.
    pub fragment: Option<String>,
    pub source: Source,
    /// The name of the HTTP method.
    pub method: String,
    /// Headers for this request, beside the static ones.
    pub headers: Vec<(String, String)>,
    /// The credentials that were found for the URI.
    pub credentials: Option<BasicAuthCredentials>,
}

impl CheckRequest {
    /// The request that enters the chain: method, URI and headers of the occurrence. `None`
    /// where the method is no HTTP method.
    pub fn request(&self) -> (out: Option<Request>)
        ensures
            out is Some <==> is_method(self.method@),
            out matches Some(request) ==> {
                &&& request.method@ == self.method@
                &&& request.uri == self.uri
                &&& request.headers@ == self.headers@
            },
    {
        match Request::new(self.method.as_str(), self.uri.clone()) {
            None => None,
            Some(request) => Some(
                Request {
                    method: request.method,
                    uri: request.uri,
                    headers: copy_headers(&self.headers),
                },
            ),
        }
    }
}

/// What follows one attempt to fetch a URI.
#[derive(Debug, PartialEq, Eq)]
pub enum FetchStep {
    /// Try again after this many milliseconds.
    Again(u64),
    /// The status of the request.
    Done(Status),
}

/// What follows the attempt with number `attempts`, counted from 1, that gave `outcome`:
/// another attempt where the retry policy asks for one; else the status in which the
/// request ends, which is that of the outcome, classified with no regard to the attempts
/// that went before.
pub open spec fn fetch_stepped(
    policy: RetryPolicy,
    attempts: u32,
    outcome: Outcome,
    rules: Rules,
    fragment: Option<String>,
    anchors: Anchors,
    include_fragments: bool,
) -> FetchStep {
    match policy.step(attempts, outcome) {
        RetryStep::Again(delay) => FetchStep::Again(delay),
        RetryStep::Settled => FetchStep::Done(
            concluded(outcome, rules, Support::Supported, fragment, anchors, include_fragments),
        ),
    }
}

/// Decides what follows one attempt of the terminal fetch.
pub fn fetch_step(
    policy: &RetryPolicy,
    attempts: u32,
    outcome: Outcome,
    rules: &Rules,
    fragment: Option<String>,
    anchors: &Anchors,
    include_fragments: bool,
) -> (out: FetchStep)
    ensures
        out == fetch_stepped(
            *policy,
            attempts,
            outcome,
            *rules,
            fragment,
            *anchors,
            include_fragments,
        ),
{
    match policy.next_step(attempts, &outcome) {
        RetryStep::Again(delay) => FetchStep::Again(delay),
        RetryStep::Settled => FetchStep::Done(
            conclude(outcome, rules, Support::Supported, fragment, anchors, include_fragments),
        ),
    }
}

/// What the check of one request came to.
#[derive(Debug, PartialEq, Eq)]
pub enum Checked {
    /// The cache holds a status for the URI: this is the status of the request. No chain was
    /// traversed.
    Cached(Status),
    /// The check was made: the chains were traversed, and the status is recorded.
    Done(Finished),
    /// No check was made for this request: it has joined a check that is under way or
    /// waiting, its own check waits for a place, or the run was cancelled.
    Deferred(Admission),
}

/// The checker of one run.
pub struct Checker {
    pub cache: Cache,
    pub controller: Controller,
}

/// The status of a request that was sent: the classification of what came back, and then,
/// where fragments are checked, the fragment check.
pub open spec fn concluded(
    outcome: Outcome,
    rules: Rules,
    support: Support,
    fragment: Option<String>,
    anchors: Anchors,
    include_fragments: bool,
) -> Status {
    let base = classified(outcome, rules.accept, rules.reject@, support);
    if include_fragments {
        fragment_checked(base, fragment, anchors)
    } else {
        base
    }
}

/// Classifies what a request gave and, where fragments are checked, checks the fragment.
pub fn conclude(
    outcome: Outcome,
    rules: &Rules,
    support: Support,
    fragment: Option<String>,
    anchors: &Anchors,
    include_fragments: bool,
) -> (out: Status)
    ensures
        out == concluded(outcome, *rules, support, fragment, *anchors, include_fragments),
{
    let base = classify(outcome, &rules.accept, &rules.reject, support);
    if include_fragments {
        check_fragment(base, fragment, anchors)
    } else {
        base
    }
}

impl Checker {
    /// Cache and controller are well formed.
    pub open spec fn wf(&self) -> bool {
        self.cache.wf() && self.controller@.wf()
    }

    /// The checker over `cache` and `controller`.
    pub fn new(cache: Cache, controller: Controller) -> (out: Checker)
        requires
            cache.wf(),
            controller@.wf(),
        ensures
            out.wf(),
            out.cache == cache,
            out.controller == controller,
    {
        Checker { cache, controller }
    }

    /// Takes up the request `ticket` for `uri`. A status that the cache holds for the URI is
    /// the answer, and nothing changes. Else the request is submitted to the controller.
    pub fn begin(&mut self, ticket: u64, uri: Uri) -> (out: Begin)
        requires
            old(self).wf(),
        ensures
            final(self).wf(),
            final(self).cache == old(self).cache,
            match hit(old(self).cache@, old(self).cache.rules(), uri@) {
                Some(status) => out == Begin::Cached(status) && final(self).controller@ == old(
                    self,
                ).controller@,
                None => out matches Begin::Admitted(answer) && (final(self).controller@, answer)
                    == old(self).controller@.submit(ticket, uri@),
            },
    {
        match self.cache.lookup(&uri) {
            Some(status) => Begin::Cached(status),
            None => Begin::Admitted(self.controller.submit(ticket, uri)),
        }
    }

    /// Records that the check of `uri` has ended in `status`: the cache is updated, the place
    /// of the check becomes free, and all the requests that waited for the check get
    /// `status`.
    pub fn finish(&mut self, uri: Uri, status: Status) -> (out: Finished)
        requires
            old(self).wf(),
        ensures
            final(self).wf(),
            final(self).cache.rules() == old(self).cache.rules(),
            final(self).cache@ == updated(
                old(self).cache@,
                old(self).cache.rules(),
                uri@,
                status,
            ),
            final(self).controller@ == old(self).controller@.complete(uri@).0,
            out.status == status,
            out.tickets@ == old(self).controller@.complete(uri@).1,
            match out.next {
                Some(next) => old(self).controller@.complete(uri@).2 == Some(next@),
                None => old(self).controller@.complete(uri@).2 is None,
            },
    {
        let completion = self.controller.complete(&uri);
        self.cache.insert(uri, &status);
        Finished { status, tickets: completion.tickets, next: completion.next }
    }

    /// Whether the check of the request `ticket` for `key`, which enters the chains as
    /// `request`, may come to `out` and leave checker and chains as `after` and
    /// `chains_after`.
    ///
    /// A status that the cache holds for the URI is the answer: nothing changes, and no chain
    /// is traversed. Else the request is submitted. Where its check starts, the chains are
    /// traversed, the status on which they settle is recorded in the cache, the place of
    /// the check becomes free again, and the status goes to this request. Where it does not
    /// start, the submission is all that happens.
    pub open spec fn checks(
        &self,
        chains: &ClientRequestChain,
        ticket: u64,
        key: Seq<char>,
        request: Request,
        out: Checked,
        after: &Self,
        chains_after: &ClientRequestChain,
    ) -> bool {
        match hit(self.cache@, self.cache.rules(), key) {
            Some(status) => {
                &&& out == Checked::Cached(status)
                &&& after.cache == self.cache
                &&& after.controller@ == self.controller@
                &&& chains_after@ == chains@
            },
            None => {
                let (admitted, answer) = self.controller@.submit(ticket, key);
                if answer == Admission::Started {
                    &&& out matches Checked::Done(finished)
                    &&& chains.traverses(request, finished.status, chains_after)
                    &&& after.cache.rules() == self.cache.rules()
                    &&& after.cache@ == updated(
                        self.cache@,
                        self.cache.rules(),
                        key,
                        finished.status,
                    )
                    &&& after.controller@ == admitted.complete(key).0
                    &&& finished.tickets@ == seq![ticket]
                    &&& match finished.next {
                        Some(next) => admitted.complete(key).2 == Some(next@),
                        None => admitted.complete(key).2 is None,
                    }
                } else {
                    &&& out == Checked::Deferred(answer)
                    &&& after.cache == self.cache
                    &&& after.controller@ == admitted
                    &&& chains_after@ == chains@
                }
            },
        }
    }

    /// Checks one request from beginning to end: first the cache, then the admission, and
    /// where the check starts, the chains, the cache again and the release of the place.
    pub fn check(
        &mut self,
        chains: &mut ClientRequestChain,
        ticket: u64,
        uri: Uri,
        request: Request,
    ) -> (out: Checked)
        requires
            old(self).wf(),
        ensures
            final(self).wf(),
            old(self).checks(old(chains), ticket, uri@, request, out, final(self), final(chains)),
    {
        let ghost before = self.controller@;
        match self.begin(ticket, uri.clone()) {
            Begin::Cached(status) => Checked::Cached(status),
            Begin::Admitted(Admission::Started) => {
                let status = chains.traverse(request);
                proof {
                    before.lemma_submit(ticket, uri@);
                    self.controller@.lemma_complete(uri@);
                    assert(before.tickets_for(uri@).len() == 0);
                    assert(Seq::<u64>::empty().push(ticket) == seq![ticket]);
                }
                Checked::Done(self.finish(uri, status))
            },
            Begin::Admitted(answer) => Checked::Deferred(answer),
        }
    }

    /// Cancels the run: from now on requests for URIs that the cache does not hold are
    /// refused. The checks under way go on, and their results are still recorded. The checks
    /// that waited are handed back.
    pub fn cancel(&mut self) -> (out: Vec<Slot>)
        requires
            old(self).wf(),
        ensures
            final(self).wf(),
            final(self).cache == old(self).cache,
            final(self).controller@ == old(self).controller@.cancel().0,
            slots_of(out@) == old(self).controller@.cancel().1,
    {
        self.controller.cancel()
    }

    /// The cache, to be written out at the end of the run.
    pub fn into_cache(self) -> (out: Cache)
        ensures
            out == self.cache,
    {
        self.cache
    }
}

/// One check for all: while a check of a URI is under way or waiting, a further request for
/// that URI traverses no chain. It joins the check, and when the check ends, it is among the
/// requests that get its one status.
pub proof fn lemma_duplicate_traverses_nothing(
    checker: Checker,
    chains: ClientRequestChain,
    ticket: u64,
    key: Seq<char>,
    request: Request,
    out: Checked,
    after: Checker,
    chains_after: ClientRequestChain,
)
    requires
        checker.wf(),
        checker.checks(&chains, ticket, key, request, out, &after, &chains_after),
        hit(checker.cache@, checker.cache.rules(), key) is None,
        !checker.controller@.cancelled,
        has_key(checker.controller@.running, key) || has_key(checker.controller@.waiting, key),
    ensures
        out == Checked::Deferred(Admission::Joined),
        chains_after@ == chains@,
        after.cache == checker.cache,
        after.controller@.wf(),
        after.controller@.tickets_for(key) == checker.controller@.tickets_for(key).push(ticket),
        has_key(after.controller@.running, key) ==> after.controller@.complete(key).1
            == checker.controller@.tickets_for(key).push(ticket),
{
    checker.controller@.lemma_submit(ticket, key);
    after.controller@.lemma_complete(key);
}

} // verus!
