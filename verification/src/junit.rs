//! The JUnit XML report of the links that failed.

use crate::request::Span;
use crate::status::Status;
use crate::text::{decimal, push_chars, push_decimal, string_of};
use crate::uri::Uri;
use vstd::prelude::*;

verus! {

/// One checked link: the URI, what the check gave, and where the link stands in its document.
#[derive(Debug, PartialEq, Eq)]
pub struct ResponseBody {
    pub uri: Uri,
    pub status: Status,
    pub span: Option<Span>,
}

/// The links that failed, grouped by the document that holds them, in the order of the
/// report.
#[derive(Debug, PartialEq, Eq)]
pub struct ResponseStats {
    pub error_map: Vec<(String, Vec<ResponseBody>)>,
}

/// What a formatter is given.
#[derive(Debug, PartialEq, Eq)]
pub struct OutputStats {
    pub response_stats: ResponseStats,
}

/// The JUnit XML report format, which code forges read to annotate the links that failed.
pub struct Junit {}

/// The `line` attribute of a test case: empty where the position is not known.
pub open spec fn line_attribute(span: Option<Span>) -> Seq<char> {
    match span {
        Some(at) => " line=\""@ + decimal(at.line as nat) + "\""@,
        None => Seq::empty(),
    }
}

/// The description that a status carries; empty where it carries none.
pub open spec fn details_text(status: Status) -> Seq<char> {
    match status.spec_details() {
        Some(text) => text@,
        None => Seq::empty(),
    }
}

/// The test case for one link of the document `source`.
pub open spec fn testcase(source: Seq<char>, body: ResponseBody) -> Seq<char> {
    "\n    <testcase name=\"Broken URL: "@ + body.uri@ + "\" file=\""@ + source + "\""@
        + line_attribute(body.span) + ">\n        <failure message=\"Check returned: "@
        + body.status.code_text() + "\">"@ + details_text(body.status)
        + "</failure>\n    </testcase>\n"@
}

/// The test cases for the links of one document, in their order.
pub open spec fn group_cases(source: Seq<char>, bodies: Seq<ResponseBody>) -> Seq<Seq<char>> {
    Seq::new(bodies.len(), |i: int| testcase(source, bodies[i]))
}

/// The test cases for all documents, in the order of the documents.
pub open spec fn all_cases(groups: Seq<(String, Vec<ResponseBody>)>) -> Seq<Seq<char>>
    decreases groups.len(),
{
    if groups.len() == 0 {
        Seq::empty()
    } else {
        all_cases(groups.drop_last()) + group_cases(groups.last().0@, groups.last().1@)
    }
}

/// The parts in order, with the separator between each two.
pub open spec fn joined(parts: Seq<Seq<char>>, separator: Seq<char>) -> Seq<char>
    decreases parts.len(),
{
    if parts.len() == 0 {
        Seq::empty()
    } else if parts.len() == 1 {
        parts[0]
    } else {
        joined(parts.drop_last(), separator) + separator + parts.last()
    }
}

/// The test cases of a report: one for each link, separated by line breaks.
pub open spec fn testcases_text(stats: ResponseStats) -> Seq<char> {
    joined(all_cases(stats.error_map@), "\n"@)
}

/// The whole report.
pub open spec fn report_text(stats: ResponseStats) -> Seq<char> {
    "<?xml version=\"1.0\" encoding=\"UTF-8\"?>\n<testsuites name=\"lychee link check results\">"@
        + testcases_text(stats) + "</testsuites>\n"@
}

/// Appends the test case for one link of the document `source`.
fn push_testcase(out: &mut Vec<char>, source: &str, body: &ResponseBody)
    ensures
        final(out)@ == old(out)@ + testcase(source@, *body),
{
    push_chars(out, "\n    <testcase name=\"Broken URL: ");
    push_chars(out, body.uri.as_str());
    push_chars(out, "\" file=\"");
    push_chars(out, source);
    push_chars(out, "\"");
    match body.span {
        Some(at) => {
            push_chars(out, " line=\"");
            push_decimal(out, at.line as u64);
            push_chars(out, "\"");
        },
        None => {},
    }
    push_chars(out, ">\n        <failure message=\"Check returned: ");
    let code = body.status.code_as_string();
    push_chars(out, code.as_str());
    push_chars(out, "\">");
    match body.status.details() {
        Some(text) => {
            push_chars(out, text.as_str());
        },
        None => {},
    }
    push_chars(out, "</failure>\n    </testcase>\n");
    proof {
        assert(out@ == old(out)@ + testcase(source@, *body));
    }
}

/// The test cases of the report, one for each link that failed.
pub fn junit_testcases(response_stats: ResponseStats) -> (out: String)
    ensures
        out@ == testcases_text(response_stats),
{
    let mut out: Vec<char> = Vec::new();
    let mut first = true;
    let groups = &response_stats.error_map;
    let ghost mut done: Seq<Seq<char>> = Seq::empty();
    let mut g: usize = 0;
    while g < groups.len()
        invariant
            g <= groups@.len(),
            done == all_cases(groups@.take(g as int)),
            out@ == joined(done, "\n"@),
            first == (done.len() == 0),
        decreases groups@.len() - g,
    {
        let source = groups[g].0.as_str();
        let bodies = &groups[g].1;
        let ghost before = done;
        let mut b: usize = 0;
        while b < bodies.len()
            invariant
                b <= bodies@.len(),
                done == before + group_cases(source@, bodies@.take(b as int)),
                out@ == joined(done, "\n"@),
                first == (done.len() == 0),
            decreases bodies@.len() - b,
        {
            if !first {
                push_chars(&mut out, "\n");
            }
            push_testcase(&mut out, source, &bodies[b]);
            first = false;
            proof {
                let case = testcase(source@, bodies@[b as int]);
                let next = done.push(case);
                assert(next.drop_last() == done);
                assert(next.last() == case);
                assert(group_cases(source@, bodies@.take(b + 1)) == group_cases(
                    source@,
                    bodies@.take(b as int),
                ).push(case));
                assert(next == before + group_cases(source@, bodies@.take(b + 1)));
                if done.len() == 0 {
                    assert(out@ == case);
                } else {
                    assert(out@ == joined(done, "\n"@) + "\n"@ + case);
                }
                done = next;
            }
            b = b + 1;
        }
        proof {
            assert(bodies@.take(b as int) == bodies@);
            assert(groups@.take(g + 1).drop_last() == groups@.take(g as int));
            assert(groups@.take(g + 1).last() == groups@[g as int]);
        }
        g = g + 1;
    }
    proof {
        assert(groups@.take(g as int) == groups@);
    }
    string_of(&out)
}

/// The report: the XML declaration and the test suites element around the test cases.
pub fn junit_xml(response_stats: ResponseStats) -> (out: String)
    ensures
        out@ == report_text(response_stats),
{
    let ghost stats = response_stats;
    let testcases = junit_testcases(response_stats);
    let mut out: Vec<char> = Vec::new();
    push_chars(
        &mut out,
        "<?xml version=\"1.0\" encoding=\"UTF-8\"?>\n<testsuites name=\"lychee link check results\">",
    );
    push_chars(&mut out, testcases.as_str());
    push_chars(&mut out, "</testsuites>\n");
    proof {
        assert(out@ == report_text(stats));
    }
    string_of(&out)
}

impl Junit {
    /// The formatter. It holds nothing: every report is made from the statistics alone.
    pub fn new() -> (out: Self)
        ensures
            out == (Junit {  }),
    {
        Junit {  }
    }

    /// The statistics as a JUnit XML report.
    pub fn format(&self, stats: OutputStats) -> (out: String)
        ensures
            out@ == report_text(stats.response_stats),
    {
        junit_xml(stats.response_stats)
    }
}

} // verus!
