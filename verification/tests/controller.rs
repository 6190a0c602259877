use lychee_lib::cache::Cache;
use lychee_lib::chain::{Chain, ChainResult, Chainable, ClientRequestChain, RequestChain};
use lychee_lib::checker::{
    fetch_step, Begin, CheckRequest, Checked, Checker, FetchStep, Finished, Source,
};
use lychee_lib::classifier::{Anchors, Outcome, TransportError};
use lychee_lib::credentials::BasicAuthCredentials;
use lychee_lib::request::{Request, Span};
use lychee_lib::retry::RetryPolicy;
use lychee_lib::classifier::{AcceptSet, Rules};
use lychee_lib::controller::{Admission, Completion, Controller, Slot};
use lychee_lib::status::{Detail, ErrorKind, Status};
use lychee_lib::uri::Uri;

fn uri(text: &str) -> Uri {
    Uri::parse(text).unwrap()
}

fn rules() -> Rules {
    Rules { accept: AcceptSet::Conventional, reject: vec![], cache_exclude: vec![] }
}

#[test]
fn controller_needs_a_place() {
    assert!(Controller::new(0).is_none());
    let controller = Controller::new(1).unwrap();
    assert_eq!(controller.in_flight(), 0);
    assert_eq!(controller.queued(), 0);
    assert!(!controller.is_cancelled());
}

#[test]
fn duplicates_share_one_check() {
    let mut controller = Controller::new(4).unwrap();
    assert_eq!(controller.submit(1, uri("https://example.com")), Admission::Started);
    assert_eq!(controller.submit(2, uri("https://example.com/")), Admission::Joined);
    assert_eq!(controller.submit(3, uri("HTTPS://EXAMPLE.COM")), Admission::Joined);
    assert_eq!(controller.submit(4, uri("https://example.org")), Admission::Started);
    assert_eq!(controller.submit(5, uri("https://example.com:443")), Admission::Joined);
    assert_eq!(controller.in_flight(), 2);
    assert_eq!(
        controller.complete(&uri("https://example.com")),
        Completion { tickets: vec![1, 2, 3, 5], next: None }
    );
    assert_eq!(controller.in_flight(), 1);
    assert_eq!(controller.submit(6, uri("https://example.com")), Admission::Started);
}

#[test]
fn checks_beyond_the_bound_wait_their_turn() {
    let mut controller = Controller::new(2).unwrap();
    assert_eq!(controller.submit(1, uri("https://a.example")), Admission::Started);
    assert_eq!(controller.submit(2, uri("https://b.example")), Admission::Started);
    assert_eq!(controller.submit(3, uri("https://c.example")), Admission::Queued);
    assert_eq!(controller.submit(4, uri("https://d.example")), Admission::Queued);
    assert_eq!(controller.submit(5, uri("https://c.example")), Admission::Joined);
    assert_eq!(controller.submit(6, uri("https://a.example")), Admission::Joined);
    assert_eq!(controller.in_flight(), 2);
    assert_eq!(controller.queued(), 2);
    assert_eq!(
        controller.complete(&uri("https://b.example")),
        Completion { tickets: vec![2], next: Some(uri("https://c.example")) }
    );
    assert_eq!(controller.in_flight(), 2);
    assert_eq!(controller.queued(), 1);
    assert_eq!(
        controller.complete(&uri("https://c.example")),
        Completion { tickets: vec![3, 5], next: Some(uri("https://d.example")) }
    );
    assert_eq!(
        controller.complete(&uri("https://a.example")),
        Completion { tickets: vec![1, 6], next: None }
    );
    assert_eq!(
        controller.complete(&uri("https://d.example")),
        Completion { tickets: vec![4], next: None }
    );
    assert_eq!(controller.in_flight(), 0);
}

#[test]
fn completing_what_is_not_under_way_changes_nothing() {
    let mut controller = Controller::new(1).unwrap();
    assert_eq!(controller.submit(1, uri("https://a.example")), Admission::Started);
    assert_eq!(controller.submit(2, uri("https://b.example")), Admission::Queued);
    assert_eq!(
        controller.complete(&uri("https://b.example")),
        Completion { tickets: vec![], next: None }
    );
    assert_eq!(
        controller.complete(&uri("https://c.example")),
        Completion { tickets: vec![], next: None }
    );
    assert_eq!(controller.in_flight(), 1);
    assert_eq!(controller.queued(), 1);
}

#[test]
fn cancel_stops_admission_and_lets_checks_end() {
    let mut controller = Controller::new(1).unwrap();
    assert_eq!(controller.submit(1, uri("https://a.example")), Admission::Started);
    assert_eq!(controller.submit(2, uri("https://b.example")), Admission::Queued);
    assert_eq!(controller.submit(3, uri("https://b.example")), Admission::Joined);
    assert_eq!(
        controller.cancel(),
        vec![Slot { uri: uri("https://b.example"), tickets: vec![2, 3] }]
    );
    assert!(controller.is_cancelled());
    assert_eq!(controller.cancel(), vec![]);
    assert!(controller.is_cancelled());
    assert_eq!(controller.submit(4, uri("https://c.example")), Admission::Refused);
    assert_eq!(controller.submit(5, uri("https://a.example")), Admission::Refused);
    assert_eq!(controller.in_flight(), 1);
    assert_eq!(
        controller.complete(&uri("https://a.example")),
        Completion { tickets: vec![1], next: None }
    );
    assert_eq!(controller.in_flight(), 0);
}

#[test]
fn checker_answers_from_the_cache_first() {
    let cache = Cache::load("https://example.com/,200\nhttps://example.org/,404\n", rules());
    let mut checker = Checker::new(cache, Controller::new(2).unwrap());
    assert_eq!(checker.begin(1, uri("https://example.com")), Begin::Cached(Status::Success(200)));
    assert_eq!(
        checker.begin(2, uri("https://example.org")),
        Begin::Cached(Status::Error(ErrorKind::RejectedStatusCode, Detail::Code(404)))
    );
    assert_eq!(checker.controller.in_flight(), 0);
    assert_eq!(checker.begin(3, uri("https://example.net")), Begin::Admitted(Admission::Started));
    assert_eq!(checker.begin(4, uri("https://example.net")), Begin::Admitted(Admission::Joined));
    assert_eq!(checker.controller.in_flight(), 1);
}

#[test]
fn finished_check_is_cached_and_told_to_all() {
    let mut checker = Checker::new(Cache::new(rules()), Controller::new(1).unwrap());
    assert_eq!(checker.begin(1, uri("https://example.com")), Begin::Admitted(Admission::Started));
    assert_eq!(checker.begin(2, uri("https://example.com")), Begin::Admitted(Admission::Joined));
    assert_eq!(checker.begin(3, uri("https://example.org")), Begin::Admitted(Admission::Queued));
    assert_eq!(
        checker.finish(uri("https://example.com"), Status::Success(200)),
        Finished {
            status: Status::Success(200),
            tickets: vec![1, 2],
            next: Some(uri("https://example.org"))
        }
    );
    assert_eq!(checker.begin(4, uri("https://example.com")), Begin::Cached(Status::Success(200)));
    assert_eq!(
        checker.finish(uri("https://example.org"), Status::Excluded),
        Finished { status: Status::Excluded, tickets: vec![3], next: None }
    );
    assert_eq!(checker.begin(5, uri("https://example.org")), Begin::Admitted(Admission::Started));
    assert_eq!(checker.cancel(), vec![]);
    assert_eq!(checker.begin(6, uri("https://example.net")), Begin::Admitted(Admission::Refused));
    assert_eq!(checker.begin(7, uri("https://example.com")), Begin::Cached(Status::Success(200)));
    assert_eq!(
        checker.finish(uri("https://example.org"), Status::Success(201)),
        Finished { status: Status::Success(201), tickets: vec![5], next: None }
    );
    assert_eq!(checker.into_cache().persist(), "https://example.com/,200\nhttps://example.org/,201\n");
}

#[test]
fn check_request_enters_the_chain_as_request() {
    let occurrence = CheckRequest {
        uri: uri("https://example.com/a#top"),
        fragment: Some("top".to_string()),
        source: Source { document: "a.md".to_string(), span: Some(Span { line: 3, column: 9 }) },
        method: "HEAD".to_string(),
        headers: vec![("x-foo".to_string(), "Bar".to_string())],
        credentials: Some(BasicAuthCredentials {
            username: "user".to_string(),
            password: "secret".to_string(),
        }),
    };
    let mut expected = Request::new("HEAD", uri("https://example.com/a#top")).unwrap();
    expected.append_header("x-foo".to_string(), "Bar".to_string());
    assert_eq!(occurrence.request(), Some(expected));
    let broken = CheckRequest { method: "NOT A METHOD".to_string(), ..occurrence };
    assert_eq!(broken.request(), None);
}

#[test]
fn fetch_retries_and_then_concludes() {
    let policy = RetryPolicy::standard();
    let anchors = Anchors::Found(vec!["top".to_string()]);
    let step = |attempts: u32, outcome: Outcome, fragment: Option<&str>| {
        fetch_step(
            &policy,
            attempts,
            outcome,
            &rules(),
            fragment.map(|fragment| fragment.to_string()),
            &anchors,
            true,
        )
    };
    assert_eq!(step(1, Outcome::Response(429), None), FetchStep::Again(1000));
    assert_eq!(step(2, Outcome::Response(200), None), FetchStep::Done(Status::Success(200)));
    assert_eq!(
        step(3, Outcome::Response(429), None),
        FetchStep::Done(Status::Error(ErrorKind::RejectedStatusCode, Detail::Code(429)))
    );
    assert_eq!(
        step(1, Outcome::TransportFailure(TransportError::Timeout, "late".to_string()), None),
        FetchStep::Again(1000)
    );
    assert_eq!(
        step(1, Outcome::TransportFailure(TransportError::Other, "refused".to_string()), None),
        FetchStep::Done(Status::Error(ErrorKind::TransportFailure, Detail::Text("refused".to_string())))
    );
    assert_eq!(
        step(1, Outcome::Response(200), Some("missing")),
        FetchStep::Done(Status::Error(ErrorKind::FragmentNotFound, Detail::Text("missing".to_string())))
    );
    assert_eq!(step(1, Outcome::Response(200), Some("top")), FetchStep::Done(Status::Success(200)));
}

/// Stands for the network: each attempt gives the next of the scripted outcomes.
struct Scripted {
    outcomes: Vec<Outcome>,
    attempts: std::sync::Arc<std::sync::atomic::AtomicUsize>,
    policy: RetryPolicy,
    anchors: Anchors,
}

impl Chainable<Request, Status> for Scripted {
    fn chain(&mut self, input: Request) -> ChainResult<Request, Status> {
        let mut attempts: u32 = 0;
        loop {
            let made = self.attempts.fetch_add(1, std::sync::atomic::Ordering::SeqCst);
            attempts += 1;
            let step = fetch_step(
                &self.policy,
                attempts,
                self.outcomes[made].clone(),
                &rules(),
                input.uri.fragment(),
                &self.anchors,
                true,
            );
            match step {
                FetchStep::Again(_) => {}
                FetchStep::Done(status) => return ChainResult::Done(status),
            }
        }
    }
}

fn scripted(
    outcomes: Vec<Outcome>,
    anchors: Anchors,
) -> (ClientRequestChain, std::sync::Arc<std::sync::atomic::AtomicUsize>) {
    let attempts = std::sync::Arc::new(std::sync::atomic::AtomicUsize::new(0));
    let handler =
        Scripted { outcomes, attempts: attempts.clone(), policy: RetryPolicy::standard(), anchors };
    let chain: RequestChain = Chain::new(vec![Box::new(handler)]);
    (ClientRequestChain::new(vec![Chain::default(), chain]), attempts)
}

fn made(attempts: &std::sync::Arc<std::sync::atomic::AtomicUsize>) -> usize {
    attempts.load(std::sync::atomic::Ordering::SeqCst)
}

#[test]
fn check_fetches_once_and_then_answers_from_the_cache() {
    let (mut chains, attempts) =
        scripted(vec![Outcome::Response(429), Outcome::Response(200)], Anchors::Unreadable);
    let mut checker = Checker::new(Cache::new(rules()), Controller::new(1).unwrap());
    let target = uri("https://example.com");
    assert_eq!(
        checker.check(&mut chains, 1, target.clone(), Request::get(target.clone())),
        Checked::Done(Finished { status: Status::Success(200), tickets: vec![1], next: None })
    );
    assert_eq!(made(&attempts), 2);
    assert_eq!(
        checker.check(&mut chains, 2, target.clone(), Request::get(target.clone())),
        Checked::Cached(Status::Success(200))
    );
    assert_eq!(
        checker.check(&mut chains, 3, uri("HTTPS://EXAMPLE.com:443/"), Request::get(target.clone())),
        Checked::Cached(Status::Success(200))
    );
    assert_eq!(made(&attempts), 2);
    assert_eq!(checker.controller.in_flight(), 0);
    assert_eq!(checker.into_cache().persist(), "https://example.com/,200\n");
}

#[test]
fn check_does_not_cache_what_may_not_be_cached() {
    let (mut chains, attempts) = scripted(
        vec![Outcome::Response(999), Outcome::Response(200), Outcome::Response(200)],
        Anchors::Found(vec!["top".to_string()]),
    );
    let mut checker = Checker::new(Cache::new(rules()), Controller::new(1).unwrap());
    let unknown = uri("https://www.linkedin.com/company/corrode");
    assert_eq!(
        checker.check(&mut chains, 1, unknown.clone(), Request::get(unknown.clone())),
        Checked::Done(Finished { status: Status::Unknown(999), tickets: vec![1], next: None })
    );
    let missing = uri("https://example.com/page#missing");
    assert_eq!(
        checker.check(&mut chains, 2, missing.clone(), Request::get(missing.clone())),
        Checked::Done(Finished {
            status: Status::Error(ErrorKind::FragmentNotFound, Detail::Text("missing".to_string())),
            tickets: vec![2],
            next: None
        })
    );
    let top = uri("https://example.com/page#top");
    assert_eq!(
        checker.check(&mut chains, 3, top.clone(), Request::get(top.clone())),
        Checked::Done(Finished { status: Status::Success(200), tickets: vec![3], next: None })
    );
    assert_eq!(made(&attempts), 3);
    assert_eq!(checker.into_cache().persist(), "https://example.com/page#top,200\n");
}

#[test]
fn check_is_deferred_where_no_check_starts() {
    let (mut chains, attempts) = scripted(vec![Outcome::Response(200)], Anchors::Unreadable);
    let mut checker = Checker::new(Cache::new(rules()), Controller::new(1).unwrap());
    let busy = uri("https://example.com/busy");
    assert_eq!(checker.begin(1, busy.clone()), Begin::Admitted(Admission::Started));
    assert_eq!(
        checker.check(&mut chains, 2, busy.clone(), Request::get(busy.clone())),
        Checked::Deferred(Admission::Joined)
    );
    let other = uri("https://example.com/other");
    assert_eq!(
        checker.check(&mut chains, 3, other.clone(), Request::get(other.clone())),
        Checked::Deferred(Admission::Queued)
    );
    assert_eq!(checker.cancel().len(), 1);
    assert_eq!(
        checker.check(&mut chains, 4, other.clone(), Request::get(other.clone())),
        Checked::Deferred(Admission::Refused)
    );
    assert_eq!(made(&attempts), 0);
    assert_eq!(
        checker.finish(busy, Status::Success(200)),
        Finished { status: Status::Success(200), tickets: vec![1, 2], next: None }
    );
}
