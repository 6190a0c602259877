use lychee_lib::checker::conclude;
use lychee_lib::classifier::{
    check_fragment, classify, classify_code, holds_anchor, holds_code, AcceptSet, Anchors, Outcome,
    Rules, Support, TransportError,
};
use lychee_lib::status::{Detail, ErrorKind, Status};

fn rejected(code: u16) -> Status {
    Status::Error(ErrorKind::RejectedStatusCode, Detail::Code(code))
}

#[test]
fn accept_set_replaces_the_conventional_one() {
    let only_404 = AcceptSet::Only(vec![404]);
    assert_eq!(classify(Outcome::Response(200), &only_404, &vec![], Support::Supported), rejected(200));
    assert_eq!(
        classify(Outcome::Response(404), &only_404, &vec![], Support::Supported),
        Status::Success(404)
    );
    assert_eq!(
        classify(Outcome::Response(200), &AcceptSet::Conventional, &vec![], Support::Supported),
        Status::Success(200)
    );
    assert_eq!(
        classify(Outcome::Response(404), &AcceptSet::Conventional, &vec![], Support::Supported),
        rejected(404)
    );
}

#[test]
fn conventional_set_is_the_success_class() {
    let accept = AcceptSet::Conventional;
    assert!(!accept.contains(199));
    assert!(accept.contains(200));
    assert!(accept.contains(299));
    assert!(!accept.contains(300));
    assert!(AcceptSet::Only(vec![418, 500]).contains(500));
    assert!(!AcceptSet::Only(vec![418, 500]).contains(200));
    assert!(!AcceptSet::Only(vec![]).contains(200));
}

#[test]
fn reject_set_wins_over_the_accept_set() {
    assert_eq!(classify_code(200, &AcceptSet::Conventional, &vec![200]), rejected(200));
    assert_eq!(classify_code(201, &AcceptSet::Conventional, &vec![200]), Status::Success(201));
    assert_eq!(classify_code(404, &AcceptSet::Only(vec![404]), &vec![500, 404]), rejected(404));
}

#[test]
fn codes_outside_the_classes_are_unknown() {
    assert_eq!(classify_code(999, &AcceptSet::Conventional, &vec![]), Status::Unknown(999));
    assert_eq!(classify_code(600, &AcceptSet::Conventional, &vec![]), Status::Unknown(600));
    assert_eq!(classify_code(99, &AcceptSet::Conventional, &vec![]), Status::Unknown(99));
    assert_eq!(classify_code(0, &AcceptSet::Conventional, &vec![]), Status::Unknown(0));
    assert_eq!(classify_code(599, &AcceptSet::Conventional, &vec![]), rejected(599));
    assert_eq!(classify_code(100, &AcceptSet::Conventional, &vec![]), rejected(100));
    assert_eq!(classify_code(999, &AcceptSet::Only(vec![999]), &vec![]), Status::Success(999));
    assert_eq!(classify_code(999, &AcceptSet::Only(vec![999]), &vec![999]), Status::Unknown(999));
}

#[test]
fn transport_failure_is_an_error_with_its_description() {
    let outcome = Outcome::TransportFailure(TransportError::Timeout, "operation timed out".to_string());
    assert_eq!(
        classify(outcome, &AcceptSet::Conventional, &vec![], Support::Supported),
        Status::Error(ErrorKind::TransportFailure, Detail::Text("operation timed out".to_string()))
    );
}

#[test]
fn nothing_is_classified_where_no_request_can_be_made() {
    assert_eq!(
        classify(Outcome::Response(200), &AcceptSet::Conventional, &vec![], Support::Excluded),
        Status::Excluded
    );
    assert_eq!(
        classify(
            Outcome::Response(200),
            &AcceptSet::Conventional,
            &vec![],
            Support::NoClient("slack".to_string())
        ),
        Status::Unsupported("slack".to_string())
    );
}

#[test]
fn classification_repeats() {
    let accept = AcceptSet::Only(vec![200, 404]);
    let reject = vec![404];
    for code in [0u16, 99, 100, 200, 204, 404, 429, 500, 599, 600, 999, 65535] {
        let first = classify(Outcome::Response(code), &accept, &reject, Support::Supported);
        let second = classify(Outcome::Response(code), &accept, &reject, Support::Supported);
        assert_eq!(first, second);
    }
}

#[test]
fn fragment_that_exists_keeps_success() {
    let anchors = Anchors::Found(vec!["intro".to_string(), "top".to_string()]);
    assert_eq!(
        check_fragment(Status::Success(200), Some("top".to_string()), &anchors),
        Status::Success(200)
    );
}

#[test]
fn missing_fragment_is_an_error() {
    let anchors = Anchors::Found(vec!["intro".to_string(), "top".to_string()]);
    assert_eq!(
        check_fragment(Status::Success(200), Some("missing".to_string()), &anchors),
        Status::Error(ErrorKind::FragmentNotFound, Detail::Text("missing".to_string()))
    );
    assert_eq!(
        check_fragment(Status::Success(200), Some("Top".to_string()), &anchors),
        Status::Error(ErrorKind::FragmentNotFound, Detail::Text("Top".to_string()))
    );
    assert_eq!(
        check_fragment(Status::Success(200), Some("x".to_string()), &Anchors::Found(vec![])),
        Status::Error(ErrorKind::FragmentNotFound, Detail::Text("x".to_string()))
    );
}

#[test]
fn binary_resource_skips_the_fragment_check() {
    assert_eq!(
        check_fragment(Status::Success(200), Some("fragment".to_string()), &Anchors::Unreadable),
        Status::Success(200)
    );
    assert_eq!(
        check_fragment(Status::Success(200), Some("".to_string()), &Anchors::Unreadable),
        Status::Success(200)
    );
}

#[test]
fn fragment_check_leaves_other_statuses_alone() {
    let anchors = Anchors::Found(vec![]);
    assert_eq!(check_fragment(rejected(404), Some("missing".to_string()), &anchors), rejected(404));
    assert_eq!(check_fragment(Status::Excluded, Some("missing".to_string()), &anchors), Status::Excluded);
    assert_eq!(
        check_fragment(Status::Unknown(999), Some("missing".to_string()), &anchors),
        Status::Unknown(999)
    );
    assert_eq!(check_fragment(Status::Success(200), None, &anchors), Status::Success(200));
}

#[test]
fn helpers_find_what_is_there() {
    assert!(holds_code(&vec![204, 429], 429));
    assert!(!holds_code(&vec![204, 429], 200));
    assert!(!holds_code(&vec![], 200));
    assert!(holds_anchor(&vec!["a".to_string(), "b".to_string()], &"b".to_string()));
    assert!(!holds_anchor(&vec!["a".to_string(), "b".to_string()], &"c".to_string()));
}

#[test]
fn rules_decide_what_is_cacheable() {
    let rules = Rules { accept: AcceptSet::Conventional, reject: vec![], cache_exclude: vec![204, 429] };
    assert!(rules.is_cacheable(&Status::Success(200)));
    assert!(!rules.is_cacheable(&Status::Success(204)));
    assert!(rules.is_cacheable(&rejected(404)));
    assert!(!rules.is_cacheable(&rejected(429)));
    assert!(!rules.is_cacheable(&Status::Excluded));
    assert!(!rules.is_cacheable(&Status::Unsupported("x".to_string())));
    assert!(!rules.is_cacheable(&Status::Unknown(999)));
    assert!(!rules
        .is_cacheable(&Status::Error(ErrorKind::TransportFailure, Detail::Text("reset".to_string()))));
    assert!(rules.is_storable(200));
    assert!(rules.is_storable(404));
    assert!(!rules.is_storable(204));
    assert!(!rules.is_storable(999));
    assert_eq!(rules.classify_code(404), rejected(404));
}

#[test]
fn conclusion_checks_fragments_only_where_asked() {
    let rules = Rules { accept: AcceptSet::Conventional, reject: vec![], cache_exclude: vec![] };
    let anchors = Anchors::Found(vec!["top".to_string()]);
    assert_eq!(
        conclude(
            Outcome::Response(200),
            &rules,
            Support::Supported,
            Some("missing".to_string()),
            &anchors,
            true
        ),
        Status::Error(ErrorKind::FragmentNotFound, Detail::Text("missing".to_string()))
    );
    assert_eq!(
        conclude(
            Outcome::Response(200),
            &rules,
            Support::Supported,
            Some("missing".to_string()),
            &anchors,
            false
        ),
        Status::Success(200)
    );
    assert_eq!(
        conclude(
            Outcome::Response(404),
            &rules,
            Support::Supported,
            Some("missing".to_string()),
            &anchors,
            true
        ),
        rejected(404)
    );
}
