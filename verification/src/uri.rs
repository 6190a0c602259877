//! Normalized URIs: the keys under which checks are cached and deduplicated.

use crate::text::{chars_of, find_first, string_of_range};
use vstd::prelude::*;

verus! {

/// The serialization that the `url` crate gives to the URL that it parses from `text`;
/// `None` where it parses none.
pub uninterp spec fn url_normal_form(text: Seq<char>) -> Option<Seq<char>>;

/// Calls `url::Url::parse` on `text` and hands back the serialization of the URL
/// (`Url::as_str`), or `None` where the parser reports an error.
#[verifier::external_body]
fn normal_form(text: &str) -> (out: Option<String>)
    ensures
        match out {
            Some(normal) => url_normal_form(text@) == Some(normal@),
            None => url_normal_form(text@) is None,
        },
{
    match url::Url::parse(text) {
        Ok(parsed) => Some(String::from(parsed.as_str())),
        Err(_) => None,
    }
}

/// The host of the URL that the `url` crate parses from `text`; `None` where it parses
/// none, or one without a host.
pub uninterp spec fn url_host(text: Seq<char>) -> Option<Seq<char>>;

/// Calls `url::Url::parse` on `text` and hands back the host of the URL (`Url::host_str`),
/// or `None` where the parser reports an error or the URL has no host.
#[verifier::external_body]
fn host_text(text: &str) -> (out: Option<String>)
    ensures
        match out {
            Some(host) => url_host(text@) == Some(host@),
            None => url_host(text@) is None,
        },
{
    match url::Url::parse(text) {
        Ok(parsed) => match parsed.host_str() {
            Some(host) => Some(String::from(host)),
            None => None,
        },
        Err(_) => None,
    }
}

/// A text that is its own normal form and holds no line break.
pub open spec fn is_normal(text: Seq<char>) -> bool {
    url_normal_form(text) == Some(text) && !text.contains('\n')
}

/// The normalized form of `text`: its normal form, where that is a normalized text.
pub open spec fn normalized(text: Seq<char>) -> Option<Seq<char>> {
    match url_normal_form(text) {
        Some(normal) => if is_normal(normal) {
            Some(normal)
        } else {
            None
        },
        None => None,
    }
}

/// Normalizing is idempotent: what normalizing gives is its own normalized form.
pub proof fn lemma_normalize_idempotent(text: Seq<char>)
    ensures
        normalized(text) matches Some(normal) ==> normalized(normal) == Some(normal),
{
}

/// The text of every URI is its own normalized form: to read it again gives the same URI.
pub proof fn lemma_uri_is_normalized(uri: Uri)
    requires
        uri.wf(),
    ensures
        normalized(uri@) == Some(uri@),
{
}

/// The part of `text` before its first colon; all of it where it has none.
pub open spec fn scheme_of(text: Seq<char>) -> Seq<char> {
    let at = text.index_of_first(':');
    match at {
        Some(i) => text.take(i),
        None => text,
    }
}

/// The part of `text` behind its first `#`, if it has one.
pub open spec fn fragment_of(text: Seq<char>) -> Option<Seq<char>> {
    match text.index_of_first('#') {
        Some(i) => Some(text.skip(i + 1)),
        None => None,
    }
}

/// An absolute URI in normalized form.
#[derive(Debug, PartialEq, Eq, Hash)]
pub struct Uri {
    text: String,
}

impl View for Uri {
    type V = Seq<char>;

    closed spec fn view(&self) -> Seq<char> {
        self.text@
    }
}

impl Clone for Uri {
    fn clone(&self) -> (out: Self)
        ensures
            out == *self,
    {
        proof {
            use_type_invariant(self);
        }
        Uri { text: self.text.clone() }
    }
}

impl Uri {
    /// Every `Uri` holds a normalized text.
    #[verifier::type_invariant]
    pub open spec fn wf(&self) -> bool {
        is_normal(self@)
    }

    /// Normalizes `text`. `None` where `text` is no absolute URI.
    pub fn parse(text: &str) -> (out: Option<Uri>)
        ensures
            match out {
                Some(uri) => normalized(text@) == Some(uri@),
                None => normalized(text@) is None,
            },
    {
        match normal_form(text) {
            None => None,
            Some(first) => {
                match normal_form(first.as_str()) {
                    None => None,
                    Some(second) => {
                        let chars = chars_of(first.as_str());
                        if second == first && find_first(&chars, '\n').is_none() {
                            proof {
                                first@.index_of_first_ensures('\n');
                            }
                            Some(Uri { text: first })
                        } else {
                            proof {
                                first@.index_of_first_ensures('\n');
                            }
                            None
                        }
                    },
                }
            },
        }
    }

    /// The normalized text.
    pub fn as_str(&self) -> (out: &str)
        ensures
            out@ == self@,
    {
        self.text.as_str()
    }

    /// True where both are the same normalized text.
    pub fn same_as(&self, other: &Uri) -> (out: bool)
        ensures
            out == (self@ == other@),
    {
        self.text == other.text
    }

    /// The host, where the URI has one.
    pub fn host(&self) -> (out: Option<String>)
        ensures
            match out {
                Some(host) => url_host(self@) == Some(host@),
                None => url_host(self@) is None,
            },
    {
        host_text(self.text.as_str())
    }

    /// The scheme: what stands before the first colon.
    pub fn scheme(&self) -> (out: String)
        ensures
            out@ == scheme_of(self@),
    {
        let chars = chars_of(self.text.as_str());
        match find_first(&chars, ':') {
            Some(i) => {
                let out = string_of_range(&chars, 0, i);
                out
            },
            None => self.text.clone(),
        }
    }

    /// The fragment: what stands behind the first `#`, if there is one.
    pub fn fragment(&self) -> (out: Option<String>)
        ensures
            match out {
                Some(fragment) => fragment_of(self@) == Some(fragment@),
                None => fragment_of(self@) is None,
            },
    {
        let chars = chars_of(self.text.as_str());
        let n = chars.len();
        match find_first(&chars, '#') {
            Some(i) => Some(string_of_range(&chars, i + 1, n)),
            None => None,
        }
    }
}

} // verus!
