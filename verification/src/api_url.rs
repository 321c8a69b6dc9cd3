//! URLs of the APIs that the bouncer talks to.
use vstd::prelude::*;

verus! {

/// What `reqwest::Url` reads from a text: the URL as it is written out again, and its scheme.
pub uninterp spec fn parsed_url(text: Seq<char>) -> Option<(Seq<char>, Seq<char>)>;

/// What `reqwest::Url` makes of a reference relative to a base URL.
pub uninterp spec fn joined_url(base: Seq<char>, reference: Seq<char>) -> Option<Seq<char>>;

/// The views of two texts.
pub open spec fn pair_view(pair: Option<(String, String)>) -> Option<(Seq<char>, Seq<char>)> {
    match pair {
        Some(p) => Some((p.0@, p.1@)),
        None => None,
    }
}

/// The view of a text that may be absent.
pub open spec fn text_view(text: Option<String>) -> Option<Seq<char>> {
    match text {
        Some(t) => Some(t@),
        None => None,
    }
}

/// Reads a URL with `reqwest::Url::parse` and hands out `as_str` and `scheme`. The contract claims
/// that both depend on the text alone, and that a colon follows the scheme at the start of the URL.
#[verifier::external_body]
fn parse_url(text: &str) -> (url: Option<(String, String)>)
    ensures
        pair_view(url) == parsed_url(text@),
        url matches Some(u) ==> u.1@.push(':').is_prefix_of(u.0@),
{
    let url = reqwest::Url::parse(text).ok()?;
    Some((url.as_str().to_owned(), url.scheme().to_owned()))
}

/// Resolves a reference with `reqwest::Url::join`. The contract claims that the outcome depends on
/// the two texts alone.
#[verifier::external_body]
fn join_url(base: &str, reference: &str) -> (url: Option<String>)
    ensures
        text_view(url) == joined_url(base@, reference@),
{
    let url = reqwest::Url::parse(base).ok()?.join(reference).ok()?;
    Some(url.as_str().to_owned())
}

/// The URL of an API.
pub struct ApiUrl {
    text: String,
    scheme: String,
}

impl ApiUrl {
    /// The URL as text.
    pub closed spec fn spec_text(self) -> Seq<char> {
        self.text@
    }

    /// The scheme of the URL, in lower case.
    pub closed spec fn spec_scheme(self) -> Seq<char> {
        self.scheme@
    }

    /// Reads a URL.
    pub fn parse(text: &str) -> (url: Option<ApiUrl>)
        ensures
            match parsed_url(text@) {
                Some((whole, scheme)) => url matches Some(u) && u.spec_text() == whole
                    && u.spec_scheme() == scheme,
                None => url is None,
            },
            url matches Some(u) ==> u.spec_scheme().push(':').is_prefix_of(u.spec_text()),
    {
        match parse_url(text) {
            Some((whole, scheme)) => Some(ApiUrl { text: whole, scheme }),
            None => None,
        }
    }

    /// The URL as text.
    pub fn as_str(&self) -> (text: &str)
        ensures
            text@ == self.spec_text(),
    {
        self.text.as_str()
    }

    /// The scheme of the URL, in lower case.
    pub fn scheme(&self) -> (scheme: &str)
        ensures
            scheme@ == self.spec_scheme(),
    {
        self.scheme.as_str()
    }

    /// The URL that a reference relative to this one stands for.
    pub fn join(&self, reference: &str) -> (url: Option<String>)
        ensures
            text_view(url) == joined_url(self.spec_text(), reference@),
    {
        join_url(self.text.as_str(), reference)
    }

    /// A copy of the URL.
    pub fn copy(&self) -> (url: ApiUrl)
        ensures
            url.spec_text() == self.spec_text(),
            url.spec_scheme() == self.spec_scheme(),
    {
        ApiUrl { text: self.text.clone(), scheme: self.scheme.clone() }
    }
}

/// A view is there if and only if what it is a view of is there, and shows it.
pub proof fn lemma_optional_views(text: Option<String>, pair: Option<(String, String)>)
    ensures
        text is None <==> text_view(text) is None,
        text matches Some(t) ==> text_view(text) == Some(t@),
        pair is None <==> pair_view(pair) is None,
        pair matches Some(p) ==> pair_view(pair) == Some((p.0@, p.1@)),
{
}

} // verus!
