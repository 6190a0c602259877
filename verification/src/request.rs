//! The request that travels through a chain of handlers.

use crate::uri::Uri;
use vstd::prelude::*;

verus! {

/// The characters that an HTTP method may hold: those of a token.
pub open spec fn is_token_char(c: char) -> bool {
    ||| 'a' <= c <= 'z'
    ||| 'A' <= c <= 'Z'
    ||| '0' <= c <= '9'
    ||| c == '!'
    ||| c == '#'
    ||| c == '$'
    ||| c == '%'
    ||| c == '&'
    ||| c == '\''
    ||| c == '*'
    ||| c == '+'
    ||| c == '-'
    ||| c == '.'
    ||| c == '^'
    ||| c == '_'
    ||| c == '`'
    ||| c == '|'
    ||| c == '~'
}

/// A text that names an HTTP method: a non-empty run of token characters.
pub open spec fn is_method(text: Seq<char>) -> bool {
    text.len() > 0 && forall|i: int| 0 <= i < text.len() ==> is_token_char(#[trigger] text[i])
}

/// Calls `http::Method::from_bytes` on the bytes of `text` and hands back the method's name
/// (`Method::as_str`). The parser accepts a non-empty run of token characters and nothing
/// else, and the name of the method that it returns is the text that it was given.
#[verifier::external_body]
fn method_name(text: &str) -> (out: Option<String>)
    ensures
        out is Some <==> is_method(text@),
        out matches Some(name) ==> name@ == text@,
{
    match http::Method::from_bytes(text.as_bytes()) {
        Ok(method) => Some(String::from(method.as_str())),
        Err(_) => None,
    }
}

/// A position in a document.
#[derive(Debug, Clone, Copy, PartialEq, Eq, Hash, Structural)]
pub struct Span {
    pub line: usize,
    pub column: usize,
}

/// A copy of `headers`.
pub fn copy_headers(headers: &Vec<(String, String)>) -> (out: Vec<(String, String)>)
    ensures
        out@ == headers@,
{
    let mut out: Vec<(String, String)> = Vec::new();
    let mut i: usize = 0;
    while i < headers.len()
        invariant
            i <= headers@.len(),
            out@ == headers@.take(i as int),
        decreases headers@.len() - i,
    {
        let name = headers[i].0.clone();
        let value = headers[i].1.clone();
        out.push((name, value));
        proof {
            assert(headers@.take(i + 1) == headers@.take(i as int).push(headers@[i as int]));
        }
        i = i + 1;
    }
    proof {
        assert(headers@.take(i as int) == headers@);
    }
    out
}

/// The name of an HTTP method: a non-empty run of token characters.
#[derive(Debug, PartialEq, Eq, Hash)]
pub struct Method {
    name: String,
}

impl View for Method {
    type V = Seq<char>;

    closed spec fn view(&self) -> Seq<char> {
        self.name@
    }
}

impl Clone for Method {
    fn clone(&self) -> (out: Self)
        ensures
            out == *self,
    {
        proof {
            use_type_invariant(self);
        }
        Method { name: self.name.clone() }
    }
}

impl Method {
    /// Every `Method` names an HTTP method.
    #[verifier::type_invariant]
    pub open spec fn wf(&self) -> bool {
        is_method(self@)
    }

    /// The method of the name `name`. `None` where `name` names no HTTP method.
    pub fn new(name: &str) -> (out: Option<Method>)
        ensures
            out is Some <==> is_method(name@),
            out matches Some(method) ==> method@ == name@,
    {
        match method_name(name) {
            Some(name) => Some(Method { name }),
            None => None,
        }
    }

    /// The method `GET`.
    pub fn get() -> (out: Method)
        ensures
            out@ == "GET"@,
    {
        proof {
            reveal_strlit("GET");
        }
        Method { name: "GET".to_owned() }
    }

    /// The name.
    pub fn as_str(&self) -> (out: &str)
        ensures
            out@ == self@,
            is_method(out@),
    {
        proof {
            use_type_invariant(self);
        }
        self.name.as_str()
    }
}

/// A request for one URI.
#[derive(Debug, PartialEq, Eq)]
pub struct Request {
    /// The HTTP method.
    pub method: Method,
    /// The target.
    pub uri: Uri,
    /// The headers, as pairs of name and value, in the order in which they were added.
    pub headers: Vec<(String, String)>,
}

impl Request {
    /// A request without headers. `None` where `method` names no HTTP method.
    pub fn new(method: &str, uri: Uri) -> (out: Option<Request>)
        ensures
            out is Some <==> is_method(method@),
            out matches Some(request) ==> {
                &&& request.method@ == method@
                &&& request.uri == uri
                &&& request.headers@.len() == 0
            },
    {
        match Method::new(method) {
            Some(method) => Some(Request { method, uri, headers: Vec::new() }),
            None => None,
        }
    }

    /// A `GET` request without headers.
    pub fn get(uri: Uri) -> (out: Request)
        ensures
            out.method@ == "GET"@,
            out.uri == uri,
            out.headers@.len() == 0,
    {
        Request { method: Method::get(), uri, headers: Vec::new() }
    }

    /// Adds a header behind those that the request holds. Headers of the same name stay.
    pub fn append_header(&mut self, name: String, value: String)
        ensures
            final(self).method == old(self).method,
            final(self).uri == old(self).uri,
            final(self).headers@ == old(self).headers@.push((name, value)),
    {
        self.headers.push((name, value));
    }
}

/// The HTTP methods with which a URI is requested, in the order in which they are tried.
#[derive(Debug, PartialEq, Eq)]
pub struct RequestMethods(pub Vec<Method>);

impl Default for RequestMethods {
    fn default() -> (out: Self)
        ensures
            out.0@.len() == 1,
            out.0@[0]@ == "GET"@,
    {
        let mut methods: Vec<Method> = Vec::new();
        methods.push(Method::get());
        RequestMethods(methods)
    }
}

} // verus!
