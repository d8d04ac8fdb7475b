//! Absolute URLs in their normal form.

use vstd::prelude::*;
use vstd::std_specs::cmp::PartialEqSpecImpl;

use crate::error::InputError;

verus! {

/// What `reqwest::Url::parse` makes of `text`: the serialization of the URL
/// it reads there, or `None` where it reports an error.
pub uninterp spec fn parsed_url(text: Seq<char>) -> Option<Seq<char>>;

/// Calls `reqwest::Url::parse` and keeps the serialization of the URL that it
/// returns, or nothing where it returns an error. The contract is taken on
/// trust; it only gives the outcome its name, `parsed_url`.
#[verifier::external_body]
fn parse_text(text: &str) -> (r: Option<String>)
    ensures
        match r {
            Some(s) => parsed_url(text@) == Some(s@),
            None => parsed_url(text@) is None,
        },
{
    reqwest::Url::parse(text).ok().map(String::from)
}

/// An absolute URL, held as the serialization that the parser gave it.
///
/// Two URLs are the same when their serializations are: `HTTP://a.example`
/// and `http://a.example/` parse to one URL.
#[derive(Debug)]
pub struct Url {
    text: String,
}

impl View for Url {
    type V = Seq<char>;

    closed spec fn view(&self) -> Seq<char> {
        self.text@
    }
}

/// `text` is the serialization of a URL: some input parses to it.
pub open spec fn is_serialization(text: Seq<char>) -> bool {
    exists|input: Seq<char>| parsed_url(input) == Some(text)
}

/// The serializations of a list of URLs, in the same order.
pub open spec fn texts(urls: Seq<Url>) -> Seq<Seq<char>> {
    urls.map_values(|url: Url| url@)
}

impl Url {
    #[verifier::type_invariant]
    spec fn well_formed(self) -> bool {
        is_serialization(self.text@)
    }

    /// Parses an absolute URL. A text that the parser refuses, such as a
    /// relative reference or an empty text, is a malformed URL.
    pub fn parse(text: &str) -> (r: Result<Url, InputError>)
        ensures
            match r {
                Ok(url) => parsed_url(text@) == Some(url@),
                Err(e) => parsed_url(text@) is None && e == InputError::MalformedUrl,
            },
    {
        match parse_text(text) {
            Some(s) => Ok(Url { text: s }),
            None => Err(InputError::MalformedUrl),
        }
    }

    /// The serialization of this URL, which some input parses to.
    pub fn as_str(&self) -> (r: &str)
        ensures
            r@ == self@,
            is_serialization(self@),
    {
        proof {
            use_type_invariant(self);
        }
        self.text.as_str()
    }

    /// A copy of the serialization.
    pub fn to_text(&self) -> (r: String)
        ensures
            r@ == self@,
    {
        self.text.clone()
    }
}

impl Clone for Url {
    fn clone(&self) -> (r: Url)
        ensures
            r@ == self@,
    {
        proof {
            use_type_invariant(self);
        }
        Url { text: self.text.clone() }
    }
}

impl PartialEq for Url {
    fn eq(&self, other: &Url) -> (r: bool) {
        self.text == other.text
    }
}

impl PartialEqSpecImpl for Url {
    open spec fn obeys_eq_spec() -> bool {
        true
    }

    open spec fn eq_spec(&self, other: &Url) -> bool {
        self@ == other@
    }
}

impl Eq for Url {

}

} // verus!
