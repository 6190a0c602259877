//! Basic auth credentials: parsing `<username>:<password>` and attaching them to a request.

use crate::chain::{stays, ChainResult, Chainable};
use crate::error::ConfigurationError;
use crate::request::Request;
use crate::text::{
    chars_of, decimal, find_first, push_chars, push_decimal, slice_of, string_of, string_of_range,
    trim_bounds, trimmed,
};
use crate::uri::url_host;
use vstd::prelude::*;

verus! {

/// Why a text is no pair of basic auth credentials.
#[derive(Copy, Clone, Debug, PartialEq, Eq, Structural)]
pub enum BasicAuthCredentialsParseError {
    /// The text holds no colon.
    InvalidSyntax,
    /// Nothing stands behind the colon.
    MissingPassword,
    /// Nothing stands before the colon.
    MissingUsername,
    /// The text holds more than one colon; the number is that of the parts that the colons
    /// separate.
    TooManyParts(usize),
}

impl BasicAuthCredentialsParseError {
    /// The message for the error.
    pub open spec fn message_text(&self) -> Seq<char> {
        match *self {
            BasicAuthCredentialsParseError::InvalidSyntax => "Invalid basic auth credentials syntax"@,
            BasicAuthCredentialsParseError::MissingPassword => "Missing basic auth password"@,
            BasicAuthCredentialsParseError::MissingUsername => "Missing basic auth username"@,
            BasicAuthCredentialsParseError::TooManyParts(parts) =>
                "Too many values separated by colon. Expected 2, got "@ + decimal(parts as nat)
                    + ". Valid form is '<username>:<password>'"@,
        }
    }

    /// The message for the error.
    pub fn message(&self) -> (out: String)
        ensures
            out@ == self.message_text(),
    {
        match self {
            BasicAuthCredentialsParseError::InvalidSyntax => "Invalid basic auth credentials syntax".to_owned(),
            BasicAuthCredentialsParseError::MissingPassword => "Missing basic auth password".to_owned(),
            BasicAuthCredentialsParseError::MissingUsername => "Missing basic auth username".to_owned(),
            BasicAuthCredentialsParseError::TooManyParts(parts) => {
                let mut out: Vec<char> = Vec::new();
                push_chars(&mut out, "Too many values separated by colon. Expected 2, got ");
                push_decimal(&mut out, *parts as u64);
                push_chars(&mut out, ". Valid form is '<username>:<password>'");
                proof {
                    assert(out@ == self.message_text());
                }
                string_of(&out)
            },
        }
    }
}

/// How many times `c` occurs in `s`.
pub open spec fn count_of(s: Seq<char>, c: char) -> nat
    decreases s.len(),
{
    if s.len() == 0 {
        0
    } else {
        count_of(s.drop_last(), c) + if s.last() == c {
            1nat
        } else {
            0nat
        }
    }
}

/// The number of parts that the colons of `s` separate, as far as a `usize` holds it.
pub open spec fn parts_of(s: Seq<char>) -> usize {
    if count_of(s, ':') < usize::MAX {
        (count_of(s, ':') + 1) as usize
    } else {
        usize::MAX
    }
}

/// What a text holds when read as `<username>:<password>`: the white space at its ends does
/// not count, exactly one colon is required, and neither side of it may be empty.
pub open spec fn parsed(text: Seq<char>) -> Result<(Seq<char>, Seq<char>), BasicAuthCredentialsParseError> {
    let inner = trimmed(text);
    let parts = parts_of(inner);
    if parts <= 1 {
        Err(BasicAuthCredentialsParseError::InvalidSyntax)
    } else if parts > 2 {
        Err(BasicAuthCredentialsParseError::TooManyParts(parts))
    } else {
        let colon = inner.index_of(':');
        if colon == 0 {
            Err(BasicAuthCredentialsParseError::MissingUsername)
        } else if colon + 1 == inner.len() {
            Err(BasicAuthCredentialsParseError::MissingPassword)
        } else {
            Ok((inner.take(colon), inner.skip(colon + 1)))
        }
    }
}

/// A text holds a character as often as it has places at most, and not at all where the
/// count is zero.
proof fn lemma_count_bound(s: Seq<char>, c: char)
    ensures
        count_of(s, c) <= s.len(),
        count_of(s, c) == 0 <==> !s.contains(c),
    decreases s.len(),
{
    if s.len() > 0 {
        lemma_count_bound(s.drop_last(), c);
        if s.last() == c {
            assert(s[s.len() - 1] == c);
        } else if s.contains(c) {
            let i = choose|i: int| 0 <= i < s.len() && s[i] == c;
            assert(s.drop_last()[i] == c);
        } else if s.drop_last().contains(c) {
            let i = choose|i: int| 0 <= i < s.drop_last().len() && s.drop_last()[i] == c;
            assert(s[i] == c);
        }
    }
}

/// A text with exactly one `c` holds none behind the first.
proof fn lemma_single(s: Seq<char>, c: char, at: int)
    requires
        0 <= at < s.len(),
        s[at] == c,
        forall|j: int| 0 <= j < at ==> s[j] != c,
    ensures
        count_of(s, c) == 1 + count_of(s.skip(at + 1), c),
    decreases s.len(),
{
    if s.len() - 1 == at {
        lemma_count_bound(s.drop_last(), c);
        assert(s.skip(at + 1).len() == 0);
    } else {
        lemma_single(s.drop_last(), c, at);
        assert(s.drop_last().skip(at + 1) == s.skip(at + 1).drop_last());
        assert(s.skip(at + 1).last() == s.last());
    }
}

/// How many times `c` occurs in `v[from..to]`.
fn count_in(v: &Vec<char>, from: usize, to: usize, c: char) -> (out: usize)
    requires
        from <= to <= v@.len(),
    ensures
        out == count_of(v@.subrange(from as int, to as int), c),
{
    let mut i: usize = from;
    let mut found: usize = 0;
    while i < to
        invariant
            from <= i <= to <= v@.len(),
            found == count_of(v@.subrange(from as int, i as int), c),
            found <= i - from,
        decreases to - i,
    {
        proof {
            assert(v@.subrange(from as int, i + 1).drop_last() == v@.subrange(
                from as int,
                i as int,
            ));
        }
        if v[i] == c {
            found = found + 1;
        }
        i = i + 1;
    }
    found
}

/// A pair of basic auth credentials: username and password.
#[derive(Debug, PartialEq, Eq, Hash)]
pub struct BasicAuthCredentials {
    /// Basic auth username
    pub username: String,
    /// Basic auth password
    pub password: String,
}

impl Clone for BasicAuthCredentials {
    fn clone(&self) -> (out: Self)
        ensures
            out == *self,
    {
        BasicAuthCredentials { username: self.username.clone(), password: self.password.clone() }
    }
}

/// The value of the `Authorization` header that the `headers` crate encodes for the basic
/// credentials `username` and `password`.
pub uninterp spec fn basic_authorization(username: Seq<char>, password: Seq<char>) -> Seq<char>;

/// Builds `headers::Authorization::basic` from username and password and hands back the text
/// of the header value that `Credentials::encode` gives for it.
#[verifier::external_body]
fn encode_basic(username: &str, password: &str) -> (out: String)
    ensures
        out@ == basic_authorization(username@, password@),
{
    let value = headers::authorization::Credentials::encode(
        &headers::Authorization::basic(username, password).0,
    );
    String::from_utf8_lossy(value.as_bytes()).into_owned()
}

/// The name of the header that carries credentials.
pub open spec fn authorization_name() -> Seq<char> {
    "authorization"@
}

impl BasicAuthCredentials {
    /// Reads `<username>:<password>`.
    pub fn from_str(credentials: &str) -> (out: Result<Self, BasicAuthCredentialsParseError>)
        ensures
            match out {
                Ok(pair) => parsed(credentials@) == Ok::<_, BasicAuthCredentialsParseError>(
                    (pair.username@, pair.password@),
                ),
                Err(error) => parsed(credentials@) == Err::<(Seq<char>, Seq<char>), _>(error),
            },
    {
        let chars = chars_of(credentials);
        let (from, to) = trim_bounds(&chars);
        let ghost inner = trimmed(credentials@);
        let colons = count_in(&chars, from, to, ':');
        let parts = if colons < usize::MAX {
            colons + 1
        } else {
            usize::MAX
        };
        if parts <= 1 {
            return Err(BasicAuthCredentialsParseError::InvalidSyntax);
        }
        if parts > 2 {
            return Err(BasicAuthCredentialsParseError::TooManyParts(parts));
        }
        let inner_chars = slice_of(&chars, from, to);
        proof {
            lemma_count_bound(inner, ':');
        }
        match find_first(&inner_chars, ':') {
            None => Err(BasicAuthCredentialsParseError::InvalidSyntax),
            Some(colon) => {
                proof {
                    inner.index_of_first_ensures(':');
                    assert(inner.index_of(':') == colon) by {
                        let k = inner.index_of(':');
                        assert(inner.contains(':'));
                        lemma_single(inner, ':', colon as int);
                        lemma_count_bound(inner.skip(colon + 1), ':');
                        if k > colon {
                            assert(inner.skip(colon + 1)[k - colon - 1] == ':');
                        }
                    }
                }
                if colon == 0 {
                    Err(BasicAuthCredentialsParseError::MissingUsername)
                } else if colon + 1 == inner_chars.len() {
                    Err(BasicAuthCredentialsParseError::MissingPassword)
                } else {
                    let username = string_of_range(&inner_chars, 0, colon);
                    let password = string_of_range(&inner_chars, colon + 1, inner_chars.len());
                    Ok(BasicAuthCredentials { username, password })
                }
            },
        }
    }

    /// The value of the `Authorization` header for the credentials.
    #[must_use]
    pub fn to_authorization(&self) -> (out: String)
        ensures
            out@ == basic_authorization(self.username@, self.password@),
    {
        encode_basic(self.username.as_str(), self.password.as_str())
    }

    /// Adds the credentials to `request` as an `Authorization` header, behind the headers
    /// that the request holds.
    pub fn append_to_request(&self, request: &mut Request)
        ensures
            self.attached(*old(request), *final(request)),
    {
        let name = "authorization".to_owned();
        let value = self.to_authorization();
        request.append_header(name, value);
        proof {
            assert(request.headers@.drop_last() == old(request).headers@);
        }
    }

    /// Whether `after` is `before` with the credentials added: one more header, the last,
    /// which is the `Authorization` header for the credentials; all else as before.
    pub open spec fn attached(&self, before: Request, after: Request) -> bool {
        &&& after.method == before.method
        &&& after.uri == before.uri
        &&& after.headers@.len() == before.headers@.len() + 1
        &&& after.headers@.drop_last() == before.headers@
        &&& after.headers@.last().0@ == authorization_name()
        &&& after.headers@.last().1@ == basic_authorization(self.username@, self.password@)
    }
}

impl std::str::FromStr for BasicAuthCredentials {
    type Err = BasicAuthCredentialsParseError;

    /// Reads `<username>:<password>`, as the function of the same name on the type does.
    fn from_str(credentials: &str) -> (out: Result<Self, Self::Err>)
        ensures
            match out {
                Ok(pair) => parsed(credentials@) == Ok::<_, BasicAuthCredentialsParseError>(
                    (pair.username@, pair.password@),
                ),
                Err(error) => parsed(credentials@) == Err::<(Seq<char>, Seq<char>), _>(error),
            },
    {
        BasicAuthCredentials::from_str(credentials)
    }
}

/// The basic auth handler: credentials, where the request has some, are attached to it. The
/// request is always handed on, and the handler stays as it is.
impl<R> Chainable<Request, R> for Option<BasicAuthCredentials> {
    open spec fn answers(&self, input: Request, out: ChainResult<Request, R>) -> bool {
        match out {
            ChainResult::Next(request) => match *self {
                Some(credentials) => credentials.attached(input, request),
                None => request == input,
            },
            ChainResult::Done(_) => false,
        }
    }

    fn chain(&mut self, input: Request) -> (out: ChainResult<Request, R>)
        ensures
            stays::<Option<BasicAuthCredentials>, Request, R>(*old(self), *final(self), out),
    {
        let mut request = input;
        if let Some(credentials) = self {
            credentials.append_to_request(&mut request);
        }
        ChainResult::Next(request)
    }
}

/// Credentials for the requests to one host.
#[derive(Debug, PartialEq, Eq)]
pub struct BasicAuthRule {
    pub host: String,
    pub credentials: BasicAuthCredentials,
}

impl BasicAuthRule {
    /// The rule for `host` with the credentials that `credentials` holds as
    /// `<username>:<password>`. A text that holds no credentials is a fault in the
    /// configuration.
    pub fn new(host: String, credentials: &str) -> (out: Result<BasicAuthRule, ConfigurationError>)
        ensures
            match out {
                Ok(rule) => rule.host == host && parsed(credentials@) == Ok::<
                    _,
                    BasicAuthCredentialsParseError,
                >((rule.credentials.username@, rule.credentials.password@)),
                Err(error) => parsed(credentials@) matches Err(reason) && error
                    == ConfigurationError::MalformedCredentials(reason),
            },
    {
        match BasicAuthCredentials::from_str(credentials) {
            Ok(pair) => Ok(BasicAuthRule { host, credentials: pair }),
            Err(reason) => Err(ConfigurationError::MalformedCredentials(reason)),
        }
    }
}

/// The basic auth rules of one run, in the order in which they are tried.
#[derive(Debug, PartialEq, Eq)]
pub struct BasicAuth {
    pub rules: Vec<BasicAuthRule>,
}

/// The first of the rules `from..` that is for `host`.
pub open spec fn rule_for(rules: Seq<BasicAuthRule>, from: int, host: Seq<char>) -> Option<int>
    decreases rules.len() - from,
{
    if from < 0 || from >= rules.len() {
        None
    } else if rules[from].host@ == host {
        Some(from)
    } else {
        rule_for(rules, from + 1, host)
    }
}

impl BasicAuth {
    /// The credentials for the requests to `host`, where a rule holds some.
    pub fn credentials_for(&self, host: &String) -> (out: Option<&BasicAuthCredentials>)
        ensures
            match out {
                Some(credentials) => rule_for(self.rules@, 0, host@) matches Some(at) && self.rules@[at].credentials
                    == *credentials,
                None => rule_for(self.rules@, 0, host@) is None,
            },
    {
        let mut i: usize = 0;
        while i < self.rules.len()
            invariant
                i <= self.rules@.len(),
                rule_for(self.rules@, 0, host@) == rule_for(self.rules@, i as int, host@),
            decreases self.rules@.len() - i,
        {
            if self.rules[i].host == *host {
                return Some(&self.rules[i].credentials);
            }
            i = i + 1;
        }
        None
    }
}

/// The basic auth handler for requests to several hosts: the credentials of the first rule
/// for the host of the request are attached. A request to a host without a rule, or without
/// a host, is handed on as it is. The rules stay as they are.
impl<R> Chainable<Request, R> for BasicAuth {
    open spec fn answers(&self, input: Request, out: ChainResult<Request, R>) -> bool {
        match out {
            ChainResult::Next(request) => match url_host(input.uri@) {
                Some(host) => match rule_for(self.rules@, 0, host) {
                    Some(at) => self.rules@[at].credentials.attached(input, request),
                    None => request == input,
                },
                None => request == input,
            },
            ChainResult::Done(_) => false,
        }
    }

    fn chain(&mut self, input: Request) -> (out: ChainResult<Request, R>)
        ensures
            stays::<BasicAuth, Request, R>(*old(self), *final(self), out),
    {
        let mut request = input;
        match request.uri.host() {
            Some(host) => match self.credentials_for(&host) {
                Some(credentials) => {
                    credentials.append_to_request(&mut request);
                },
                None => {},
            },
            None => {},
        }
        ChainResult::Next(request)
    }
}

} // verus!
