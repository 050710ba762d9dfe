//! Stream URLs: what the `url` crate's parser makes of them.
use vstd::prelude::*;

use crate::models::text_opt;
use crate::text::same_text;

verus! {

/// What `url::Url::parse` makes of a text: `None` where it refuses it, else the scheme, the host
/// (`host_str`) and the path segments (`path_segments`, absent for cannot-be-a-base URLs).
pub uninterp spec fn url_parts(s: Seq<char>) -> Option<(Seq<char>, Option<Seq<char>>, Option<Seq<Seq<char>>>)>;

/// The text of each segment, where there are segments.
pub open spec fn segments_text(o: Option<Vec<String>>) -> Option<Seq<Seq<char>>> {
    match o {
        Some(v) => Some(v@.map_values(|s: String| s@)),
        None => None,
    }
}

/// The parts of a URL as plain values.
pub struct UrlParts {
    pub scheme: String,
    pub host: Option<String>,
    pub path_segments: Option<Vec<String>>,
}

/// `url::Url::parse`, then `scheme`, `host_str` and `path_segments` of the parsed URL. The result
/// is `url_parts` of the text: the parser's rules (WHATWG URL) are not restated.
#[verifier::external_body]
pub(crate) fn parse_url(s: &str) -> (r: Option<UrlParts>)
    ensures
        match (r, url_parts(s@)) {
            (None, None) => true,
            (Some(p), Some((scheme, host, segments))) => {
                &&& p.scheme@ == scheme
                &&& text_opt(p.host) == host
                &&& segments_text(p.path_segments) == segments
            },
            _ => false,
        },
{
    match url::Url::parse(s) {
        Ok(u) => Some(
            UrlParts {
                scheme: u.scheme().to_owned(),
                host: u.host_str().map(str::to_owned),
                path_segments: u.path_segments().map(|segments| segments.map(str::to_owned).collect()),
            },
        ),
        Err(_) => None,
    }
}

/// An absolute URL with scheme `http` or `https` and a host.
pub open spec fn is_http_url_text(s: Seq<char>) -> bool {
    match url_parts(s) {
        Some((scheme, host, _)) => (scheme == "http"@ || scheme == "https"@) && host is Some,
        None => false,
    }
}

/// Whether `value` is an absolute HTTP or HTTPS URL with a host.
pub fn is_http_url(value: &str) -> (r: bool)
    ensures
        r == is_http_url_text(value@),
{
    match parse_url(value) {
        Some(parts) => (same_text(parts.scheme.as_str(), "http") || same_text(
            parts.scheme.as_str(),
            "https",
        )) && parts.host.is_some(),
        None => false,
    }
}

} // verus!
