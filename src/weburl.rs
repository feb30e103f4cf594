use vstd::prelude::*;

verus! {

/// The serialization that `url::Url::parse` gives of a text, or `None` where
/// the text is not an absolute URL.
pub uninterp spec fn url_parsed(text: Seq<char>) -> Option<Seq<char>>;

/// The serialization of the URL that `url::Url::join` gives for `input`
/// against the URL parsed from `base`, or `None` where either step fails.
pub uninterp spec fn url_joined(base: Seq<char>, input: Seq<char>) -> Option<Seq<char>>;

#[verifier::external_type_specification]
#[verifier::external_body]
pub struct ExParseError(url::ParseError);

/// Relies on `url::Url::parse`: the serialization of the parsed URL, or its error.
#[verifier::external_body]
fn parse_url(text: &str) -> (r: Result<String, url::ParseError>)
    ensures
        match r {
            Ok(s) => url_parsed(text@) == Some(s@),
            Err(_) => url_parsed(text@) is None,
        },
{
    url::Url::parse(text).map(|u| u.as_str().to_owned())
}

/// Relies on `url::Url::parse` of `base` and `url::Url::join` of `input` on it:
/// the serialization of the joined URL, or the error of either step.
#[verifier::external_body]
fn join_url(base: &str, input: &str) -> (r: Result<String, url::ParseError>)
    ensures
        match r {
            Ok(s) => url_joined(base@, input@) == Some(s@),
            Err(_) => url_joined(base@, input@) is None,
        },
{
    url::Url::parse(base).and_then(|b| b.join(input)).map(|u| u.as_str().to_owned())
}

/// A URL, held as the text of its serialization.
#[derive(Debug)]
pub struct WebUrl {
    text: String,
}

impl View for WebUrl {
    type V = Seq<char>;

    closed spec fn view(&self) -> Seq<char> {
        self.text@
    }
}

impl Clone for WebUrl {
    fn clone(&self) -> (r: WebUrl)
        ensures
            r@ == self@,
    {
        WebUrl { text: self.text.clone() }
    }
}

impl PartialEq for WebUrl {
    fn eq(&self, other: &WebUrl) -> (r: bool)
        ensures
            r == (self@ == other@),
    {
        self.text == other.text
    }
}

impl vstd::std_specs::cmp::PartialEqSpecImpl for WebUrl {
    open spec fn obeys_eq_spec() -> bool {
        true
    }

    open spec fn eq_spec(&self, other: &WebUrl) -> bool {
        self@ == other@
    }
}

impl Eq for WebUrl {}

impl WebUrl {
    /// Parses `text` as an absolute URL and keeps its serialization.
    pub fn parse(text: &str) -> (r: Option<WebUrl>)
        ensures
            match url_parsed(text@) {
                Some(s) => r matches Some(u) && u@ == s,
                None => r is None,
            },
    {
        match parse_url(text) {
            Ok(s) => Some(WebUrl { text: s }),
            Err(_) => None,
        }
    }

    /// Resolves `input` against this URL, as a link on the page at this URL would.
    pub fn join(&self, input: &str) -> (r: Result<WebUrl, String>)
        ensures
            match url_joined(self@, input@) {
                Some(s) => r matches Ok(u) && u@ == s,
                None => r is Err,
            },
    {
        match join_url(self.text.as_str(), input) {
            Ok(s) => Ok(WebUrl { text: s }),
            Err(e) => Err(e.to_string()),
        }
    }

    /// The serialization of the URL.
    pub fn as_str(&self) -> (r: &str)
        ensures
            r@ == self@,
    {
        self.text.as_str()
    }

    /// A URL from a text already known to be a serialization that
    /// `url::Url::parse` gives back unchanged.
    pub(crate) fn from_serialization(text: &str) -> (r: WebUrl)
        ensures
            r@ == text@,
    {
        WebUrl { text: text.to_owned() }
    }
}

} // verus!
