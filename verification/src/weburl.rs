//! URLs as plain values: the parts that the rules of this crate read, and the whole text.

use vstd::prelude::*;

verus! {

/// A parsed URL.
#[derive(Debug, PartialEq, Eq)]
pub struct Url {
    pub scheme: String,
    pub host: Option<String>,
    /// The port it names; none where that is its scheme's own.
    pub port: Option<u16>,
    pub path: String,
    /// The whole URL, normalized.
    pub text: String,
}

/// What a parsed URL holds.
pub struct UrlView {
    pub scheme: Seq<char>,
    pub host: Option<Seq<char>>,
    pub port: Option<u16>,
    pub path: Seq<char>,
    pub text: Seq<char>,
}

/// The text of an optional string.
pub open spec fn opt_view(s: Option<String>) -> Option<Seq<char>> {
    match s {
        Some(text) => Some(text@),
        None => None,
    }
}

impl View for Url {
    type V = UrlView;

    open spec fn view(&self) -> UrlView {
        UrlView {
            scheme: self.scheme@,
            host: opt_view(self.host),
            port: self.port,
            path: self.path@,
            text: self.text@,
        }
    }
}

impl Clone for Url {
    fn clone(&self) -> (r: Self)
        ensures
            r == *self,
    {
        Url {
            scheme: self.scheme.clone(),
            host: match &self.host {
                Some(h) => Some(h.clone()),
                None => None,
            },
            port: self.port,
            path: self.path.clone(),
            text: self.text.clone(),
        }
    }
}

/// What `reqwest::Url::parse` makes of a text: the parts of the URL, or what is wrong with it.
pub uninterp spec fn parsed_url(raw: Seq<char>) -> Result<UrlView, Seq<char>>;

/// `reqwest::Url::parse`: the URL's parts as its accessors give them, or the parse error's
/// message. Both depend on `raw` alone.
#[verifier::external_body]
pub(crate) fn parse_url(raw: &str) -> (r: Result<Url, String>)
    ensures
        match r {
            Ok(url) => parsed_url(raw@) == Ok::<UrlView, Seq<char>>(url@),
            Err(error) => parsed_url(raw@) == Err::<UrlView, Seq<char>>(error@),
        },
{
    match reqwest::Url::parse(raw) {
        Ok(url) => Ok(Url {
            scheme: url.scheme().to_string(),
            host: url.host_str().map(|h| h.to_string()),
            port: url.port(),
            path: url.path().to_string(),
            text: url.as_str().to_string(),
        }),
        Err(error) => Err(error.to_string()),
    }
}

/// What `reqwest::Url::join` makes of a reference on the page at `base`: the URL it resolves
/// to, if both are well-formed.
pub uninterp spec fn joined_url(base: Seq<char>, reference: Seq<char>) -> Option<UrlView>;

/// `reqwest::Url::join`: `reference` resolved against the URL whose text is `base`.
#[verifier::external_body]
pub(crate) fn join_url(base: &str, reference: &str) -> (r: Option<Url>)
    ensures
        match r {
            Some(url) => joined_url(base@, reference@) == Some(url@),
            None => joined_url(base@, reference@) is None,
        },
{
    let url = reqwest::Url::parse(base).ok()?.join(reference).ok()?;
    Some(Url {
        scheme: url.scheme().to_string(),
        host: url.host_str().map(|h| h.to_string()),
        port: url.port(),
        path: url.path().to_string(),
        text: url.as_str().to_string(),
    })
}

impl Url {
    /// The URL that `raw` writes.
    pub fn parse(raw: &str) -> (r: Result<Url, String>)
        ensures
            match r {
                Ok(url) => parsed_url(raw@) == Ok::<UrlView, Seq<char>>(url@),
                Err(error) => parsed_url(raw@) == Err::<UrlView, Seq<char>>(error@),
            },
    {
        parse_url(raw)
    }

    /// `reference` resolved against this URL.
    pub fn join(&self, reference: &str) -> (r: Option<Url>)
        ensures
            match r {
                Some(url) => joined_url(self@.text, reference@) == Some(url@),
                None => joined_url(self@.text, reference@) is None,
            },
    {
        join_url(self.text.as_str(), reference)
    }
}

} // verus!
