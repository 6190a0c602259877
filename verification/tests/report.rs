use lychee_lib::config::{Config, DEFAULT_MAX_CONCURRENCY, DEFAULT_MAX_RETRIES, DEFAULT_RETRY_WAIT};
use lychee_lib::classifier::AcceptSet;
use lychee_lib::error::ConfigurationError;
use lychee_lib::junit::{junit_testcases, junit_xml, Junit, OutputStats, ResponseBody, ResponseStats};
use lychee_lib::process_ext::{CommandSet, CommandTemplate, ProcessExt, ProcessExtParseError};
use lychee_lib::request::{copy_headers, Method, Request, RequestMethods, Span};
use lychee_lib::retry::Backoff;
use lychee_lib::status::{run_failed, Detail, ErrorKind, Status};
use lychee_lib::text::{chars_of, decimal_string, read_code, string_of, string_of_range};
use lychee_lib::uri::Uri;

fn uri(text: &str) -> Uri {
    Uri::parse(text).unwrap()
}

fn body(target: &str, status: Status, line: Option<usize>) -> ResponseBody {
    ResponseBody { uri: uri(target), status, span: line.map(|line| Span { line, column: 1 }) }
}

fn stats() -> ResponseStats {
    ResponseStats {
        error_map: vec![
            (
                "https://example.com/".to_string(),
                vec![
                    body(
                        "https://github.com/mre/idiomatic-rust-doesnt-exist-man",
                        Status::Error(ErrorKind::RejectedStatusCode, Detail::Code(404)),
                        Some(7),
                    ),
                    body(
                        "https://example.org/page",
                        Status::Error(ErrorKind::TransportFailure, Detail::Text("timed out".to_string())),
                        None,
                    ),
                ],
            ),
            ("empty.md".to_string(), vec![]),
            ("b.md".to_string(), vec![body("slack://user", Status::Unsupported("slack".to_string()), Some(12))]),
        ],
    }
}

const CASES: &str = "
    <testcase name=\"Broken URL: https://github.com/mre/idiomatic-rust-doesnt-exist-man\" file=\"https://example.com/\" line=\"7\">
        <failure message=\"Check returned: 404\"></failure>
    </testcase>

\x20   <testcase name=\"Broken URL: https://example.org/page\" file=\"https://example.com/\">
        <failure message=\"Check returned: ERROR\">timed out</failure>
    </testcase>

\x20   <testcase name=\"Broken URL: slack://user\" file=\"b.md\" line=\"12\">
        <failure message=\"Check returned: IGNORED\">slack</failure>
    </testcase>
";

fn get_dummy_stats() -> OutputStats {
    OutputStats {
        response_stats: ResponseStats {
            error_map: vec![(
                "https://example.com/".to_string(),
                vec![body(
                    "https://github.com/mre/idiomatic-rust-doesnt-exist-man",
                    Status::Error(ErrorKind::RejectedStatusCode, Detail::Code(404)),
                    None,
                )],
            )],
        },
    }
}

#[test]
fn test_junit_formatter() {
    let formatter = Junit::new();
    let result = formatter.format(get_dummy_stats());

    assert_eq!(
        result,
        r#"<?xml version="1.0" encoding="UTF-8"?>
<testsuites name="lychee link check results">
    <testcase name="Broken URL: https://github.com/mre/idiomatic-rust-doesnt-exist-man" file="https://example.com/">
        <failure message="Check returned: 404"></failure>
    </testcase>
</testsuites>
"#
    );
}

#[test]
fn junit_testcases_are_joined_by_line_breaks() {
    let expected = CASES.replace("\n\n\x20   <testcase", "\n\n\n    <testcase");
    assert_eq!(junit_testcases(stats()), expected);
}

#[test]
fn junit_report_wraps_the_testcases() {
    let expected = format!(
        "<?xml version=\"1.0\" encoding=\"UTF-8\"?>\n<testsuites name=\"lychee link check results\">{}</testsuites>\n",
        CASES.replace("\n\n\x20   <testcase", "\n\n\n    <testcase")
    );
    assert_eq!(junit_xml(stats()), expected);
    assert_eq!(Junit::new().format(OutputStats { response_stats: stats() }), expected);
}

#[test]
fn junit_report_without_failures() {
    assert_eq!(junit_testcases(ResponseStats { error_map: vec![] }), "");
    assert_eq!(
        junit_xml(ResponseStats { error_map: vec![("a.md".to_string(), vec![])] }),
        "<?xml version=\"1.0\" encoding=\"UTF-8\"?>\n<testsuites name=\"lychee link check results\"></testsuites>\n"
    );
}

#[test]
fn status_texts() {
    assert_eq!(Status::Success(200).code_as_string(), "200");
    assert_eq!(Status::Unknown(999).code_as_string(), "999");
    assert_eq!(Status::Error(ErrorKind::RejectedStatusCode, Detail::Code(0)).code_as_string(), "0");
    assert_eq!(
        Status::Error(ErrorKind::RejectedStatusCode, Detail::Code(65535)).code_as_string(),
        "65535"
    );
    assert_eq!(
        Status::Error(ErrorKind::TransportFailure, Detail::Text("reset".to_string())).code_as_string(),
        "ERROR"
    );
    assert_eq!(Status::Excluded.code_as_string(), "EXCLUDED");
    assert_eq!(Status::Unsupported("slack".to_string()).code_as_string(), "IGNORED");
    assert_eq!(Status::Success(200).details(), None);
    assert_eq!(Status::Error(ErrorKind::RejectedStatusCode, Detail::Code(404)).details(), None);
    assert_eq!(
        Status::Error(ErrorKind::FragmentNotFound, Detail::Text("top".to_string())).details(),
        Some("top".to_string())
    );
    assert_eq!(Status::Unsupported("slack".to_string()).details(), Some("slack".to_string()));
    assert_eq!(Status::Success(200).code(), Some(200));
    assert_eq!(Status::Error(ErrorKind::RejectedStatusCode, Detail::Code(404)).code(), Some(404));
    assert_eq!(Status::Unknown(999).code(), Some(999));
    assert_eq!(Status::Excluded.code(), None);
    assert!(Status::Success(200).is_success());
    assert!(!Status::Unknown(200).is_success());
    assert!(Status::Error(ErrorKind::RejectedStatusCode, Detail::Code(404)).is_error());
    assert!(!Status::Excluded.is_error());
}

#[test]
fn run_fails_with_any_error() {
    assert!(!run_failed(&vec![]));
    assert!(!run_failed(&vec![Status::Success(200), Status::Excluded]));
    assert!(!run_failed(&vec![Status::Unsupported("x".to_string()), Status::Unknown(999)]));
    assert!(run_failed(&vec![
        Status::Success(200),
        Status::Error(ErrorKind::RejectedStatusCode, Detail::Code(500)),
        Status::Excluded
    ]));
}

#[test]
fn uris_are_normalized() {
    assert_eq!(uri("HTTP://EXAMPLE.com:80").as_str(), "http://example.com/");
    assert_eq!(uri("https://example.com").as_str(), "https://example.com/");
    assert_eq!(uri("https://example.com:443/a/../b").as_str(), "https://example.com/b");
    assert_eq!(uri("https://example.com:8443/").as_str(), "https://example.com:8443/");
    assert_eq!(uri(" https://exa\nmple.com/a b ").as_str(), "https://example.com/a%20b");
    assert_eq!(Uri::parse("example.com"), None);
    assert_eq!(Uri::parse("/relative/path"), None);
    assert_eq!(Uri::parse(""), None);
    assert_eq!(Uri::parse("https://"), None);
}

#[test]
fn normalizing_twice_changes_nothing() {
    for text in ["HTTP://EXAMPLE.com:80", "https://example.com/a/./b/../c?q=1#Frag", "mailto:A@Example.com"] {
        let once = uri(text);
        let twice = uri(once.as_str());
        assert_eq!(once, twice);
        assert!(once.same_as(&twice));
    }
    assert!(uri("https://example.com").same_as(&uri("HTTPS://example.com:443/")));
    assert!(!uri("https://example.com").same_as(&uri("http://example.com")));
}

#[test]
fn parts_of_a_uri() {
    assert_eq!(uri("HTTPS://example.com/a#top").scheme(), "https");
    assert_eq!(uri("slack://user").scheme(), "slack");
    assert_eq!(uri("https://example.com/a#top").fragment(), Some("top".to_string()));
    assert_eq!(uri("https://example.com/a#").fragment(), Some("".to_string()));
    assert_eq!(uri("https://example.com/a#a#b").fragment(), Some("a#b".to_string()));
    assert_eq!(uri("https://example.com/a").fragment(), None);
    assert_eq!(uri("https://User@EXAMPLE.com:8443/a").host(), Some("example.com".to_string()));
    assert_eq!(uri("http://127.0.0.1:8080").host(), Some("127.0.0.1".to_string()));
    assert_eq!(uri("mailto:user@example.com").host(), None);
}

#[test]
fn requests_name_a_method() {
    let request = Request::new("DELETE", uri("https://example.com")).unwrap();
    assert_eq!(request.method.as_str(), "DELETE");
    assert_eq!(request.method, Method::new("DELETE").unwrap());
    assert_eq!(request.uri, uri("https://example.com/"));
    assert!(request.headers.is_empty());
    assert_eq!(Request::get(uri("https://example.com")).method, Method::get());
    assert_eq!(Method::get().as_str(), "GET");
    assert_eq!(Method::new("get").map(|method| method.as_str().to_string()), Some("get".to_string()));
    assert_eq!(Method::new("GET /"), None);
    assert_eq!(Method::new(""), None);
    assert!(Request::new("M-SEARCH", uri("https://example.com")).is_some());
    assert_eq!(Request::new("", uri("https://example.com")), None);
    assert_eq!(Request::new("GET ", uri("https://example.com")), None);
    assert_eq!(Request::new("G(T", uri("https://example.com")), None);
    assert_eq!(Request::new("GÉT", uri("https://example.com")), None);
}

#[test]
fn get_is_the_method_where_none_is_named() {
    assert_eq!(RequestMethods::default(), RequestMethods(vec![Method::get()]));
    let headers = vec![("a".to_string(), "1".to_string()), ("a".to_string(), "2".to_string())];
    assert_eq!(copy_headers(&headers), headers);
}

#[test]
fn numbers_are_written_and_read() {
    assert_eq!(decimal_string(0), "0");
    assert_eq!(decimal_string(7), "7");
    assert_eq!(decimal_string(404), "404");
    assert_eq!(decimal_string(u64::MAX), "18446744073709551615");
    let chars = chars_of("a,0404,65535,65536,x1");
    assert_eq!(string_of(&chars), "a,0404,65535,65536,x1");
    assert_eq!(string_of_range(&chars, 2, 6), "0404");
    assert_eq!(read_code(&chars, 2, 6), Some(404));
    assert_eq!(read_code(&chars, 7, 12), Some(65535));
    assert_eq!(read_code(&chars, 13, 18), None);
    assert_eq!(read_code(&chars, 19, 21), None);
    assert_eq!(read_code(&chars, 2, 2), None);
    assert_eq!(read_code(&chars, 1, 6), None);
}

#[test]
fn empty_configuration_falls_back() {
    let config = Config::empty();
    assert_eq!(config.max_concurrency(), DEFAULT_MAX_CONCURRENCY);
    assert_eq!(config.max_concurrency(), 128);
    assert_eq!(config.max_retries(), DEFAULT_MAX_RETRIES);
    assert_eq!(config.max_retries(), 2);
    assert_eq!(config.retry_wait_time(), DEFAULT_RETRY_WAIT);
    assert!(!config.exponential_backoff());
    assert!(!config.include_fragments());
    assert_eq!(config.accept(), AcceptSet::Conventional);
    assert_eq!(config.retry_policy().backoff, Backoff::Fixed(1000));
    assert_eq!(config.retry_policy().max_retries, 2);
    assert!(config.controller().is_ok());
}

#[test]
fn configured_values_replace_the_fallbacks() {
    let config = Config {
        max_concurrency: Some(0),
        max_retries: Some(5),
        retry_wait_time: Some(10),
        exponential_backoff: Some(true),
        include_fragments: Some(true),
        accept: Some(vec![200, 404]),
        reject: vec![500],
        cache_exclude_status: vec![204, 429],
    };
    assert_eq!(config.max_concurrency(), 0);
    assert_eq!(config.max_retries(), 5);
    assert_eq!(config.retry_wait_time(), 10);
    assert!(config.exponential_backoff());
    assert!(config.include_fragments());
    assert_eq!(config.accept(), AcceptSet::Only(vec![200, 404]));
    let rules = config.rules();
    assert_eq!(rules.accept, AcceptSet::Only(vec![200, 404]));
    assert_eq!(rules.reject, vec![500]);
    assert_eq!(rules.cache_exclude, vec![204, 429]);
    assert_eq!(config.retry_policy().backoff, Backoff::Exponential(10));
    assert_eq!(config.controller().err(), Some(ConfigurationError::NoConcurrency));
}

#[test]
fn command_sets_take_every_command() {
    let words = |list: &[&str]| list.iter().map(|word| word.to_string()).collect::<Vec<String>>();
    let set = CommandSet::new(&vec![words(&["pdftotext", "{}", "-"]), words(&[]), words(&["cat"])]);
    assert_eq!(set.map(|set| set.commands.len()), Ok::<usize, ProcessExtParseError>(3));
    assert_eq!(CommandSet::new(&vec![]), Ok(CommandSet { commands: vec![] }));
    assert_eq!(CommandTemplate::new(&words(&["echo"])), Ok(CommandTemplate {}));
    assert_eq!(ProcessExt {}, ProcessExt {});
}
