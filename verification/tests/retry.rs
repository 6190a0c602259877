use lychee_lib::classifier::{classify, AcceptSet, Outcome, Support, TransportError};
use lychee_lib::retry::{Backoff, RetryPolicy, RetryStep};
use lychee_lib::status::{Detail, ErrorKind, Status};

fn failure(kind: TransportError) -> Outcome {
    Outcome::TransportFailure(kind, "failed".to_string())
}

#[test]
fn retry_after_429_then_success() {
    let policy = RetryPolicy::standard();
    let outcomes = vec![Outcome::Response(429), Outcome::Response(200)];
    let mut attempts: u32 = 0;
    let settled = loop {
        let outcome = outcomes[attempts as usize].clone();
        attempts += 1;
        match policy.next_step(attempts, &outcome) {
            RetryStep::Again(delay) => assert_eq!(delay, 1000),
            RetryStep::Settled => break outcome,
        }
    };
    assert_eq!(attempts, 2);
    assert_eq!(
        classify(settled, &AcceptSet::Conventional, &vec![], Support::Supported),
        Status::Success(200)
    );
    assert_eq!(policy.settle(&outcomes), Some(2));
}

#[test]
fn standard_policy_has_two_retries() {
    assert_eq!(
        RetryPolicy::standard(),
        RetryPolicy {
            max_retries: 2,
            backoff: Backoff::Fixed(1000),
            retry_timeouts: true,
            retry_resets: true
        }
    );
}

#[test]
fn exhausted_budget_leaves_the_last_outcome() {
    let policy = RetryPolicy::standard();
    let outcomes = vec![
        Outcome::Response(429),
        Outcome::Response(429),
        Outcome::Response(429),
        Outcome::Response(200),
    ];
    assert_eq!(policy.settle(&outcomes), Some(3));
    assert_eq!(policy.next_step(3, &outcomes[2]), RetryStep::Settled);
    assert_eq!(
        classify(outcomes[2].clone(), &AcceptSet::Conventional, &vec![], Support::Supported),
        Status::Error(ErrorKind::RejectedStatusCode, Detail::Code(429))
    );
}

#[test]
fn script_that_ends_early_does_not_settle() {
    let policy = RetryPolicy::standard();
    assert_eq!(policy.settle(&vec![]), None);
    assert_eq!(policy.settle(&vec![Outcome::Response(429)]), None);
    assert_eq!(policy.settle(&vec![Outcome::Response(429), Outcome::Response(429)]), None);
    assert_eq!(policy.settle(&vec![Outcome::Response(404)]), Some(1));
}

#[test]
fn only_transient_outcomes_are_retried() {
    let policy = RetryPolicy::standard();
    assert!(policy.is_retryable(&Outcome::Response(429)));
    assert!(!policy.is_retryable(&Outcome::Response(500)));
    assert!(!policy.is_retryable(&Outcome::Response(200)));
    assert!(policy.is_retryable(&failure(TransportError::Timeout)));
    assert!(policy.is_retryable(&failure(TransportError::ConnectionReset)));
    assert!(!policy.is_retryable(&failure(TransportError::Other)));
    let strict = RetryPolicy { retry_timeouts: false, retry_resets: false, ..policy };
    assert!(!strict.is_retryable(&failure(TransportError::Timeout)));
    assert!(!strict.is_retryable(&failure(TransportError::ConnectionReset)));
    assert!(strict.is_retryable(&Outcome::Response(429)));
}

#[test]
fn no_retries_settles_at_once() {
    let policy = RetryPolicy { max_retries: 0, ..RetryPolicy::standard() };
    assert_eq!(policy.next_step(1, &Outcome::Response(429)), RetryStep::Settled);
    assert_eq!(policy.settle(&vec![Outcome::Response(429), Outcome::Response(200)]), Some(1));
}

#[test]
fn exponential_backoff_doubles() {
    let policy = RetryPolicy {
        max_retries: 70,
        backoff: Backoff::Exponential(250),
        retry_timeouts: true,
        retry_resets: true,
    };
    assert_eq!(policy.delay_after(1), 250);
    assert_eq!(policy.delay_after(2), 500);
    assert_eq!(policy.delay_after(3), 1000);
    assert_eq!(policy.delay_after(5), 4000);
    assert_eq!(policy.delay_after(70), u64::MAX);
    assert_eq!(policy.next_step(4, &Outcome::Response(429)), RetryStep::Again(2000));
    let none = RetryPolicy { backoff: Backoff::Exponential(0), ..policy };
    assert_eq!(none.delay_after(70), 0);
    let fixed = RetryPolicy { backoff: Backoff::Fixed(30), ..policy };
    assert_eq!(fixed.delay_after(1), 30);
    assert_eq!(fixed.delay_after(9), 30);
}
