use lychee_lib::chain::{
    Chain, ChainResult, ChainResult::Done, ChainResult::Next, Chainable, ClientRequestChain,
    RequestChain,
};
use lychee_lib::credentials::BasicAuthCredentials;
use lychee_lib::handlers::HeaderInjection;
use lychee_lib::request::Request;
use lychee_lib::status::Status;
use lychee_lib::uri::Uri;
use std::sync::atomic::{AtomicUsize, Ordering};
use std::sync::Arc;

#[derive(Debug)]
struct Add(usize);

#[derive(Debug, PartialEq, Eq)]
struct Result(usize);

impl Chainable<Result, Result> for Add {
    fn chain(&mut self, req: Result) -> ChainResult<Result, Result> {
        let added = req.0 + self.0;
        if added > 100 {
            Done(Result(req.0))
        } else {
            Next(Result(added))
        }
    }
}

/// Ends the chain with 80 as long as what it is given does not exceed the threshold.
struct Threshold(usize);

impl Chainable<usize, usize> for Threshold {
    fn chain(&mut self, input: usize) -> ChainResult<usize, usize> {
        if input <= self.0 {
            Done(80)
        } else {
            Next(input)
        }
    }
}

/// Adds to what it is given, and counts how often it is invoked.
struct Counting(usize, Arc<AtomicUsize>);

impl Chainable<usize, usize> for Counting {
    fn chain(&mut self, input: usize) -> ChainResult<usize, usize> {
        self.1.fetch_add(1, Ordering::SeqCst);
        Next(input + self.0)
    }
}

struct Settle(Status);

impl Chainable<Request, Status> for Settle {
    fn chain(&mut self, _input: Request) -> ChainResult<Request, Status> {
        Done(self.0.clone())
    }
}

fn request(text: &str) -> Request {
    Request::get(Uri::parse(text).unwrap())
}

#[test]
fn simple_chain() {
    let mut chain: Chain<Result, Result> = Chain::new(vec![Box::new(Add(7)), Box::new(Add(3))]);
    let result = chain.traverse(Result(0));
    assert_eq!(result, Next(Result(10)));
}

#[test]
fn early_exit_chain() {
    let mut chain: Chain<Result, Result> =
        Chain::new(vec![Box::new(Add(80)), Box::new(Add(30)), Box::new(Add(1))]);
    let result = chain.traverse(Result(0));
    assert_eq!(result, Done(Result(80)));
}

#[test]
fn done_skips_the_handlers_behind_it() {
    let invoked = Arc::new(AtomicUsize::new(0));
    let mut chain: Chain<usize, usize> =
        Chain::new(vec![Box::new(Threshold(10)), Box::new(Counting(3, invoked.clone()))]);
    assert_eq!(chain.traverse(0), Done(80));
    assert_eq!(invoked.load(Ordering::SeqCst), 0);
    assert_eq!(chain.len(), 2);
}

#[test]
fn additive_handlers_hand_their_sum_on() {
    let invoked = Arc::new(AtomicUsize::new(0));
    let mut chain: Chain<usize, usize> = Chain::new(vec![
        Box::new(Counting(7, invoked.clone())),
        Box::new(Counting(3, invoked.clone())),
    ]);
    assert_eq!(chain.traverse(0), Next(10));
    assert_eq!(invoked.load(Ordering::SeqCst), 2);
}

#[test]
fn handlers_are_applied_in_their_order() {
    let invoked = Arc::new(AtomicUsize::new(0));
    let mut chain: Chain<usize, usize> =
        Chain::new(vec![Box::new(Counting(11, invoked.clone())), Box::new(Threshold(10))]);
    assert_eq!(chain.traverse(0), Next(11));
    let mut other: Chain<usize, usize> =
        Chain::new(vec![Box::new(Threshold(10)), Box::new(Counting(11, invoked.clone()))]);
    assert_eq!(other.traverse(0), Done(80));
}

#[test]
fn empty_chain_hands_its_input_on() {
    let mut chain: Chain<usize, usize> = Chain::default();
    assert_eq!(chain.len(), 0);
    assert_eq!(chain.traverse(5), Next(5));
    chain.push(Box::new(Threshold(10)));
    assert_eq!(chain.len(), 1);
    assert_eq!(chain.traverse(5), Done(80));
}

#[test]
fn exhausted_request_chains_mean_excluded() {
    let headers: RequestChain = Chain::new(vec![Box::new(HeaderInjection {
        headers: vec![("x-foo".to_string(), "Bar".to_string())],
    })]);
    let mut chains = ClientRequestChain::new(vec![headers, Chain::default()]);
    assert_eq!(chains.traverse(request("https://example.com")), Status::Excluded);
    assert_eq!(chains.into_chains().len(), 2);
}

struct CountingRequests(Arc<AtomicUsize>);

impl Chainable<Request, Status> for CountingRequests {
    fn chain(&mut self, input: Request) -> ChainResult<Request, Status> {
        self.0.fetch_add(1, Ordering::SeqCst);
        Next(input)
    }
}

#[test]
fn chains_behind_the_one_that_settles_are_not_traversed() {
    let before = Arc::new(AtomicUsize::new(0));
    let behind = Arc::new(AtomicUsize::new(0));
    let first: RequestChain = Chain::new(vec![Box::new(CountingRequests(before.clone()))]);
    let second: RequestChain = Chain::new(vec![
        Box::new(CountingRequests(before.clone())),
        Box::new(Settle(Status::Success(200))),
        Box::new(CountingRequests(behind.clone())),
    ]);
    let third: RequestChain = Chain::new(vec![Box::new(CountingRequests(behind.clone()))]);
    let mut chains = ClientRequestChain::new(vec![first, second, third]);
    assert_eq!(chains.traverse(request("https://example.com")), Status::Success(200));
    assert_eq!(before.load(Ordering::SeqCst), 2);
    assert_eq!(behind.load(Ordering::SeqCst), 0);
}

#[test]
fn first_chain_that_is_done_decides() {
    let auth: Option<BasicAuthCredentials> = None;
    let first: RequestChain = Chain::new(vec![Box::new(auth)]);
    let second: RequestChain = Chain::new(vec![Box::new(Settle(Status::Success(204)))]);
    let third: RequestChain = Chain::new(vec![Box::new(Settle(Status::Success(500)))]);
    let mut chains = ClientRequestChain::new(vec![first, second, third]);
    assert_eq!(chains.traverse(request("https://example.com")), Status::Success(204));
}
