//! Addresses of the web: URLs, in their parts, and HTTP status lines.
use vstd::prelude::*;

use crate::text::optional;

verus! {

/// The parts of a URL.
#[derive(Debug)]
pub struct UrlParts {
    pub scheme: String,
    pub username: String,
    pub password: Option<String>,
    pub host: Option<String>,
    /// The port that is named, or the usual one of the scheme.
    pub port: Option<u16>,
    pub path: String,
    pub query: Option<String>,
    pub fragment: Option<String>,
}

/// What the parts of a URL say.
pub struct UrlView {
    pub scheme: Seq<char>,
    pub username: Seq<char>,
    pub password: Option<Seq<char>>,
    pub host: Option<Seq<char>>,
    pub port: Option<u16>,
    pub path: Seq<char>,
    pub query: Option<Seq<char>>,
    pub fragment: Option<Seq<char>>,
}

impl View for UrlParts {
    type V = UrlView;

    open spec fn view(&self) -> UrlView {
        UrlView {
            scheme: self.scheme@,
            username: self.username@,
            password: optional(self.password),
            host: optional(self.host),
            port: self.port,
            path: self.path@,
            query: optional(self.query),
            fragment: optional(self.fragment),
        }
    }
}

/// The parts that the url crate finds in a text, or what it says is wrong with it.
pub uninterp spec fn url_parts(text: Seq<char>) -> Result<UrlView, Seq<char>>;

/// What is read from a text as a URL.
pub open spec fn url_outcome(r: Result<UrlParts, String>) -> Result<UrlView, Seq<char>> {
    match r {
        Ok(u) => Ok(u@),
        Err(e) => Err(e@),
    }
}

/// `reqwest::Url::parse`, which is the url crate's, with the parts that its getters
/// give, and the text of its error. All are functions of the text alone.
#[verifier::external_body]
pub(crate) fn parse_url(text: &str) -> (r: Result<UrlParts, String>)
    ensures
        url_outcome(r) == url_parts(text@),
{
    let u = reqwest::Url::parse(text).map_err(|e| e.to_string())?;
    Ok(UrlParts {
        scheme: u.scheme().to_owned(),
        username: u.username().to_owned(),
        password: u.password().map(str::to_owned),
        host: u.host_str().map(str::to_owned),
        port: u.port_or_known_default(),
        path: u.path().to_owned(),
        query: u.query().map(str::to_owned),
        fragment: u.fragment().map(str::to_owned),
    })
}

/// The text that the http crate writes for a status: the number and its usual reason.
pub uninterp spec fn status_text(code: u16) -> Seq<char>;

/// `reqwest::StatusCode`'s `to_string`, which is the http crate's. The text is a function
/// of the number alone. Numbers that are no status are left out.
#[verifier::external_body]
pub(crate) fn status_line(code: u16) -> (r: String)
    requires
        100 <= code < 1000,
    ensures
        r@ == status_text(code),
{
    reqwest::StatusCode::from_u16(code).unwrap().to_string()
}

/// Whether a text can stand in a header: no ASCII control character but the tab.
pub open spec fn header_text(s: Seq<char>) -> bool {
    forall|i: int|
        0 <= i < s.len() ==> ((#[trigger] s[i]) >= ' ' && s[i] != '\u{7f}') || s[i] == '\t'
}

/// `reqwest::header::HeaderValue::from_str`, which is the http crate's. It refuses a text
/// with an ASCII control character other than the tab, and no other.
#[verifier::external_body]
pub(crate) fn fits_header(text: &str) -> (r: bool)
    ensures
        r == header_text(text@),
{
    reqwest::header::HeaderValue::from_str(text).is_ok()
}

} // verus!
