//! Handlers that work on the request alone: static headers, rewriting of the URI, and the
//! decision whether a request can be made at all.

use crate::chain::{stays, ChainResult, Chainable};
use crate::classifier::Support;
use crate::error::ConfigurationError;
use crate::request::Request;
use crate::status::Status;
use crate::uri::{normalized, scheme_of, Uri};
use vstd::prelude::*;

verus! {

/// Whether the `regex` crate compiles `pattern`.
pub uninterp spec fn regex_valid(pattern: Seq<char>) -> bool;

/// Whether the regular expression that the `regex` crate compiles from `pattern` matches
/// somewhere in `text`.
pub uninterp spec fn regex_matches(pattern: Seq<char>, text: Seq<char>) -> bool;

/// What `Regex::replace_all` makes of `text` for the regular expression compiled from
/// `pattern` and the replacement `replacement`, in which `$1` and `$name` stand for capture
/// groups.
pub uninterp spec fn regex_replaced(
    pattern: Seq<char>,
    replacement: Seq<char>,
    text: Seq<char>,
) -> Seq<char>;

/// Calls `regex::Regex::new` on `pattern` and says whether it gave a regular expression.
#[verifier::external_body]
fn is_pattern(pattern: &str) -> (out: bool)
    ensures
        out == regex_valid(pattern@),
{
    regex::Regex::new(pattern).is_ok()
}

/// Compiles `pattern` with `regex::Regex::new` and calls `Regex::is_match` on `text`. `None`
/// where the pattern does not compile.
#[verifier::external_body]
fn pattern_matches(pattern: &str, text: &str) -> (out: Option<bool>)
    ensures
        out is Some <==> regex_valid(pattern@),
        out matches Some(found) ==> found == regex_matches(pattern@, text@),
{
    match regex::Regex::new(pattern) {
        Ok(compiled) => Some(compiled.is_match(text)),
        Err(_) => None,
    }
}

/// Compiles `pattern` with `regex::Regex::new` and calls `Regex::replace_all` on `text`.
/// `None` where the pattern does not compile.
#[verifier::external_body]
fn pattern_replace(pattern: &str, replacement: &str, text: &str) -> (out: Option<String>)
    ensures
        out is Some <==> regex_valid(pattern@),
        out matches Some(replaced) ==> replaced@ == regex_replaced(
            pattern@,
            replacement@,
            text@,
        ),
{
    match regex::Regex::new(pattern) {
        Ok(compiled) => Some(compiled.replace_all(text, replacement).into_owned()),
        Err(_) => None,
    }
}

/// Static headers that are added to every request.
#[derive(Debug, PartialEq, Eq)]
pub struct HeaderInjection {
    pub headers: Vec<(String, String)>,
}

impl HeaderInjection {
    /// Whether `after` is `before` with the static headers added behind its own.
    pub open spec fn injected(&self, before: Request, after: Request) -> bool {
        &&& after.method == before.method
        &&& after.uri == before.uri
        &&& after.headers@ == before.headers@ + self.headers@
    }
}

/// The header injection handler: the static headers are added, and the request is handed on.
/// The handler stays as it is.
impl<R> Chainable<Request, R> for HeaderInjection {
    open spec fn answers(&self, input: Request, out: ChainResult<Request, R>) -> bool {
        out matches ChainResult::Next(request) && self.injected(input, request)
    }

    fn chain(&mut self, input: Request) -> (out: ChainResult<Request, R>)
        ensures
            stays::<HeaderInjection, Request, R>(*old(self), *final(self), out),
    {
        let mut request = input;
        let mut i: usize = 0;
        while i < self.headers.len()
            invariant
                i <= self.headers@.len(),
                request.method == input.method,
                request.uri == input.uri,
                request.headers@ == input.headers@ + self.headers@.take(i as int),
            decreases self.headers@.len() - i,
        {
            let name = self.headers[i].0.clone();
            let value = self.headers[i].1.clone();
            request.append_header(name, value);
            proof {
                assert(self.headers@.take(i + 1) == self.headers@.take(i as int).push(
                    self.headers@[i as int],
                ));
            }
            i = i + 1;
        }
        proof {
            assert(self.headers@.take(i as int) == self.headers@);
        }
        ChainResult::Next(request)
    }
}

/// A rule that rewrites URIs: a pattern, and what stands in for what it matches.
#[derive(Debug, PartialEq, Eq)]
pub struct RemapRule {
    pub pattern: String,
    pub replacement: String,
}

impl RemapRule {
    /// The rule for `pattern` and `replacement`. A pattern that is no regular expression is
    /// a fault in the configuration.
    pub fn new(pattern: String, replacement: String) -> (out: Result<RemapRule, ConfigurationError>)
        ensures
            match out {
                Ok(rule) => regex_valid(pattern@) && rule.pattern == pattern && rule.replacement
                    == replacement,
                Err(error) => !regex_valid(pattern@) && error
                    == ConfigurationError::MalformedRemapPattern,
            },
    {
        if is_pattern(pattern.as_str()) {
            Ok(RemapRule { pattern, replacement })
        } else {
            Err(ConfigurationError::MalformedRemapPattern)
        }
    }

    /// What the rule makes of `text`: `None` where its pattern is no regular expression or
    /// matches nowhere in `text`.
    pub open spec fn rewrites(&self, text: Seq<char>) -> Option<Seq<char>> {
        if regex_valid(self.pattern@) && regex_matches(self.pattern@, text) {
            Some(regex_replaced(self.pattern@, self.replacement@, text))
        } else {
            None
        }
    }

    /// Applies the rule to `text`.
    pub fn rewrite(&self, text: &str) -> (out: Option<String>)
        ensures
            match out {
                Some(replaced) => self.rewrites(text@) == Some(replaced@),
                None => self.rewrites(text@) is None,
            },
    {
        match pattern_matches(self.pattern.as_str(), text) {
            Some(true) => pattern_replace(self.pattern.as_str(), self.replacement.as_str(), text),
            _ => None,
        }
    }
}

/// The remap rules of one run, in the order in which they are tried.
#[derive(Debug, PartialEq, Eq)]
pub struct Remaps {
    pub rules: Vec<RemapRule>,
}

/// What the first of the rules `from..` that matches makes of `text`.
pub open spec fn remapped(rules: Seq<RemapRule>, from: int, text: Seq<char>) -> Option<Seq<char>>
    decreases rules.len() - from,
{
    if from < 0 || from >= rules.len() {
        None
    } else {
        match rules[from].rewrites(text) {
            Some(replaced) => Some(replaced),
            None => remapped(rules, from + 1, text),
        }
    }
}

impl Remaps {
    /// What the rules make of `text`: the first rule that matches wins.
    pub fn remap(&self, text: &str) -> (out: Option<String>)
        ensures
            match out {
                Some(replaced) => remapped(self.rules@, 0, text@) == Some(replaced@),
                None => remapped(self.rules@, 0, text@) is None,
            },
    {
        let mut i: usize = 0;
        while i < self.rules.len()
            invariant
                i <= self.rules@.len(),
                remapped(self.rules@, 0, text@) == remapped(self.rules@, i as int, text@),
            decreases self.rules@.len() - i,
        {
            match self.rules[i].rewrite(text) {
                Some(replaced) => {
                    return Some(replaced);
                },
                None => {},
            }
            i = i + 1;
        }
        None
    }
}

/// The remap handler. Where no rule matches, the request is handed on as it is. Where one
/// does, the request is handed on for the rewritten URI; where what was written is no URI,
/// the chain ends with `Unsupported`, which carries what was written. The rules stay as they
/// are.
impl Chainable<Request, Status> for Remaps {
    open spec fn answers(&self, input: Request, out: ChainResult<Request, Status>) -> bool {
        match remapped(self.rules@, 0, input.uri@) {
            None => out == ChainResult::<Request, Status>::Next(input),
            Some(replaced) => match normalized(replaced) {
                Some(target) => {
                    &&& out matches ChainResult::Next(request)
                    &&& request.method == input.method
                    &&& request.headers == input.headers
                    &&& request.uri@ == target
                },
                None => out matches ChainResult::Done(Status::Unsupported(reason)) && reason@
                    == replaced,
            },
        }
    }

    fn chain(&mut self, input: Request) -> (out: ChainResult<Request, Status>)
        ensures
            stays::<Remaps, Request, Status>(*old(self), *final(self), out),
    {
        match self.remap(input.uri.as_str()) {
            None => ChainResult::Next(input),
            Some(replaced) => match Uri::parse(replaced.as_str()) {
                Some(target) => ChainResult::Next(
                    Request { method: input.method, uri: target, headers: input.headers },
                ),
                None => ChainResult::Done(Status::Unsupported(replaced)),
            },
        }
    }
}

/// The patterns of the URIs that are left out of a run.
#[derive(Debug, PartialEq, Eq)]
pub struct Exclusions {
    pub patterns: Vec<String>,
}

/// Whether one of `patterns` is a regular expression that matches in `text`.
pub open spec fn any_matches(patterns: Seq<String>, text: Seq<char>) -> bool {
    exists|i: int|
        0 <= i < patterns.len() && regex_valid((#[trigger] patterns[i])@) && regex_matches(
            patterns[i]@,
            text,
        )
}

/// Whether one of `texts` is `text`.
pub open spec fn holds_text(texts: Seq<String>, text: Seq<char>) -> bool {
    exists|i: int| 0 <= i < texts.len() && (#[trigger] texts[i])@ == text
}

impl Exclusions {
    /// The exclusions for `patterns`. A pattern that is no regular expression is a fault in
    /// the configuration.
    pub fn new(patterns: Vec<String>) -> (out: Result<Exclusions, ConfigurationError>)
        ensures
            match out {
                Ok(exclusions) => exclusions.patterns == patterns && forall|i: int|
                    0 <= i < patterns@.len() ==> regex_valid((#[trigger] patterns@[i])@),
                Err(error) => error == ConfigurationError::MalformedExcludePattern && exists|
                    i: int,
                | 0 <= i < patterns@.len() && !regex_valid((#[trigger] patterns@[i])@),
            },
    {
        let mut i: usize = 0;
        while i < patterns.len()
            invariant
                i <= patterns@.len(),
                forall|j: int| 0 <= j < i ==> regex_valid((#[trigger] patterns@[j])@),
            decreases patterns@.len() - i,
        {
            if !is_pattern(patterns[i].as_str()) {
                return Err(ConfigurationError::MalformedExcludePattern);
            }
            i = i + 1;
        }
        Ok(Exclusions { patterns })
    }

    /// Whether `uri` matches one of the patterns.
    pub fn excludes(&self, uri: &Uri) -> (out: bool)
        ensures
            out == any_matches(self.patterns@, uri@),
    {
        let mut i: usize = 0;
        while i < self.patterns.len()
            invariant
                i <= self.patterns@.len(),
                forall|j: int|
                    0 <= j < i ==> !(regex_valid((#[trigger] self.patterns@[j])@)
                        && regex_matches(self.patterns@[j]@, uri@)),
            decreases self.patterns@.len() - i,
        {
            match pattern_matches(self.patterns[i].as_str(), uri.as_str()) {
                Some(true) => {
                    return true;
                },
                _ => {},
            }
            i = i + 1;
        }
        false
    }
}

/// A scheme for which a client exists.
pub open spec fn has_client(scheme: Seq<char>) -> bool {
    scheme == "http"@ || scheme == "https"@
}

/// Whether a request can be made for a URI. A URI that matches an exclusion pattern is left
/// out, and so is one whose scheme is not among the configured schemes, where some are
/// configured. For any other URI a request can be made where a client exists for its scheme.
pub open spec fn supported(
    uri: Seq<char>,
    schemes: Seq<String>,
    patterns: Seq<String>,
    support: Support,
) -> bool {
    if any_matches(patterns, uri) || (schemes.len() > 0 && !holds_text(schemes, scheme_of(uri))) {
        support == Support::Excluded
    } else if has_client(scheme_of(uri)) {
        support == Support::Supported
    } else {
        support matches Support::NoClient(reason) && reason@ == scheme_of(uri)
    }
}

/// Decides whether a request can be made for `uri`. Where no client exists, the reason that
/// is kept is the scheme.
pub fn support_for(uri: &Uri, schemes: &Vec<String>, exclusions: &Exclusions) -> (out: Support)
    ensures
        supported(uri@, schemes@, exclusions.patterns@, out),
{
    if exclusions.excludes(uri) {
        return Support::Excluded;
    }
    let scheme = uri.scheme();
    if schemes.len() > 0 {
        let mut found = false;
        let mut i: usize = 0;
        while i < schemes.len() && !found
            invariant
                i <= schemes@.len(),
                !found ==> forall|j: int| 0 <= j < i ==> (#[trigger] schemes@[j])@ != scheme@,
                found ==> holds_text(schemes@, scheme@),
            decreases schemes@.len() - i,
        {
            if schemes[i] == scheme {
                found = true;
            }
            i = i + 1;
        }
        if !found {
            return Support::Excluded;
        }
    }
    let http = "http".to_owned();
    let https = "https".to_owned();
    if scheme == http || scheme == https {
        Support::Supported
    } else {
        Support::NoClient(scheme)
    }
}

} // verus!
