use lychee_lib::cache::Cache;
use lychee_lib::classifier::{AcceptSet, Rules};
use lychee_lib::status::{Detail, ErrorKind, Status};
use lychee_lib::uri::Uri;

fn rules() -> Rules {
    Rules { accept: AcceptSet::Conventional, reject: vec![], cache_exclude: vec![] }
}

fn uri(text: &str) -> Uri {
    Uri::parse(text).unwrap()
}

fn rejected(code: u16) -> Status {
    Status::Error(ErrorKind::RejectedStatusCode, Detail::Code(code))
}

#[test]
fn empty_cache_holds_nothing() {
    let cache = Cache::new(rules());
    assert_eq!(cache.len(), 0);
    assert_eq!(cache.lookup(&uri("https://example.com")), None);
    assert_eq!(cache.persist(), "");
}

#[test]
fn cacheable_status_is_found_again() {
    let mut cache = Cache::new(rules());
    cache.insert(uri("https://example.com"), &Status::Success(200));
    cache.insert(uri("https://example.org/missing"), &rejected(404));
    assert_eq!(cache.len(), 2);
    assert_eq!(cache.lookup(&uri("https://example.com")), Some(Status::Success(200)));
    assert_eq!(cache.lookup(&uri("https://example.org/missing")), Some(rejected(404)));
    assert_eq!(cache.lookup(&uri("https://example.net")), None);
}

#[test]
fn lookup_goes_by_the_normalized_uri() {
    let mut cache = Cache::new(rules());
    cache.insert(uri("HTTPS://EXAMPLE.com:443"), &Status::Success(200));
    assert_eq!(cache.lookup(&uri("https://example.com/")), Some(Status::Success(200)));
    assert_eq!(cache.persist(), "https://example.com/,200\n");
}

#[test]
fn cache_round_trip() {
    let mut cache = Cache::new(rules());
    cache.insert(uri("https://example.com"), &Status::Success(200));
    cache.insert(uri("https://example.org/a,b?c=d,e"), &rejected(404));
    cache.insert(uri("https://example.net/x"), &Status::Success(204));
    let file = cache.persist();
    assert_eq!(
        file,
        "https://example.com/,200\nhttps://example.org/a,b?c=d,e,404\nhttps://example.net/x,204\n"
    );
    let reloaded = Cache::load(&file, rules());
    assert_eq!(reloaded.len(), 3);
    assert_eq!(reloaded.lookup(&uri("https://example.com")), Some(Status::Success(200)));
    assert_eq!(reloaded.lookup(&uri("https://example.org/a,b?c=d,e")), Some(rejected(404)));
    assert_eq!(reloaded.lookup(&uri("https://example.net/x")), Some(Status::Success(204)));
    assert_eq!(reloaded.persist(), file);
}

#[test]
fn uncacheable_statuses_are_never_written() {
    let mut cache = Cache::new(rules());
    cache.insert(uri("https://example.com/excluded"), &Status::Excluded);
    cache.insert(uri("slack://user"), &Status::Unsupported("slack".to_string()));
    cache.insert(uri("https://example.com/unknown"), &Status::Unknown(999));
    cache.insert(
        uri("https://example.com/reset"),
        &Status::Error(ErrorKind::TransportFailure, Detail::Text("connection reset".to_string())),
    );
    cache.insert(
        uri("https://example.com/page#missing"),
        &Status::Error(ErrorKind::FragmentNotFound, Detail::Text("missing".to_string())),
    );
    assert_eq!(cache.len(), 0);
    assert_eq!(cache.persist(), "");
}

#[test]
fn uncacheable_status_removes_what_was_cached() {
    let mut cache = Cache::new(rules());
    cache.insert(uri("https://example.com"), &Status::Success(200));
    cache.insert(uri("https://example.org"), &Status::Success(200));
    cache.insert(uri("https://example.com"), &Status::Excluded);
    assert_eq!(cache.lookup(&uri("https://example.com")), None);
    assert_eq!(cache.persist(), "https://example.org/,200\n");
}

#[test]
fn later_status_replaces_the_earlier() {
    let mut cache = Cache::new(rules());
    cache.insert(uri("https://example.com"), &Status::Success(200));
    cache.insert(uri("https://example.org"), &Status::Success(200));
    cache.insert(uri("https://example.com"), &rejected(500));
    assert_eq!(cache.len(), 2);
    assert_eq!(cache.lookup(&uri("https://example.com")), Some(rejected(500)));
    assert_eq!(cache.persist(), "https://example.com/,500\nhttps://example.org/,200\n");
}

#[test]
fn excluded_codes_are_not_cached() {
    let excluding =
        Rules { accept: AcceptSet::Conventional, reject: vec![], cache_exclude: vec![204, 429] };
    let mut cache = Cache::new(excluding);
    assert!(cache.is_cacheable(&Status::Success(200)));
    assert!(!cache.is_cacheable(&Status::Success(204)));
    assert!(!cache.is_cacheable(&rejected(429)));
    assert!(!cache.is_cacheable(&Status::Unknown(999)));
    cache.insert(uri("https://example.com/200"), &Status::Success(200));
    cache.insert(uri("https://example.com/204"), &Status::Success(204));
    cache.insert(uri("https://example.com/429"), &rejected(429));
    assert_eq!(cache.persist(), "https://example.com/200,200\n");
}

#[test]
fn malformed_lines_are_skipped() {
    let file = "https://example.com/,200\n\
                no comma here\n\
                https://example.org/,abc\n\
                https://example.org/,\n\
                not a uri,200\n\
                ,200\n\
                https://example.net/,999\n\
                https://example.net/,70000\n\
                https://example.net/ ,404\n\
                \n\
                https://example.org/last,0404";
    let cache = Cache::load(file, rules());
    assert_eq!(
        cache.persist(),
        "https://example.com/,200\nhttps://example.net/,404\nhttps://example.org/last,404\n"
    );
}

#[test]
fn loading_classifies_under_the_rules_of_the_run() {
    let file = "https://example.com/a,418\nhttps://example.com/b,500\nhttps://example.com/c,200\n";
    let accepting =
        Rules { accept: AcceptSet::Only(vec![418, 500]), reject: vec![], cache_exclude: vec![200] };
    let cache = Cache::load(file, accepting);
    assert_eq!(cache.lookup(&uri("https://example.com/a")), Some(Status::Success(418)));
    assert_eq!(cache.lookup(&uri("https://example.com/b")), Some(Status::Success(500)));
    assert_eq!(cache.lookup(&uri("https://example.com/c")), None);
    let plain = Cache::load(file, rules());
    assert_eq!(plain.lookup(&uri("https://example.com/a")), Some(rejected(418)));
    assert_eq!(plain.lookup(&uri("https://example.com/c")), Some(Status::Success(200)));
}

#[test]
fn last_line_for_a_uri_counts() {
    let file = "https://example.com/,200\nhttps://example.org/,200\nHTTPS://example.com,404\n";
    let cache = Cache::load(file, rules());
    assert_eq!(cache.len(), 2);
    assert_eq!(cache.lookup(&uri("https://example.com")), Some(rejected(404)));
}

#[test]
fn status_that_the_rules_would_not_give_is_dropped() {
    let mut cache = Cache::new(rules());
    cache.insert(uri("https://example.com"), &Status::Success(200));
    cache.insert(uri("https://example.com"), &Status::Success(999));
    assert_eq!(cache.lookup(&uri("https://example.com")), None);
}
