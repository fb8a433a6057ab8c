//! Addresses, as far as the passes read them.

use vstd::prelude::*;
use crate::formatter::{AstNodeView, NodeValueView};
use crate::text::opt_view;

verus! {

/// What the logic reads of a parsed address: the host where it is a domain
/// name, and the path.
pub struct UrlParts {
    pub domain: Option<String>,
    pub path: String,
}

/// What `Url::parse` of the `url` crate makes of a text: the domain
/// (`Url::domain`) and the path (`Url::path`) of the address, or the text of
/// the parse error.
pub uninterp spec fn url_parse(text: Seq<char>) -> Result<(Option<Seq<char>>, Seq<char>), Seq<char>>;

/// Parses an address with `Url::parse` and hands out its domain and its
/// path, or the parse error as text. The outcome depends on the text alone;
/// nothing more is claimed of it.
#[verifier::external_body]
pub(crate) fn parse_url(text: &str) -> (r: Result<UrlParts, String>)
    ensures
        parsed_view(r) == url_parse(text@),
{
    match url::Url::parse(text) {
        Ok(u) => Ok(UrlParts { domain: u.domain().map(String::from), path: String::from(u.path()) }),
        Err(e) => Err(e.to_string()),
    }
}

/// What was parsed of an address, or the error of parsing it, as a view.
pub open spec fn parsed_view(parsed: Result<UrlParts, String>) -> Result<
    (Option<Seq<char>>, Seq<char>),
    Seq<char>,
> {
    match parsed {
        Ok(parts) => Ok((opt_view(parts.domain), parts.path@)),
        Err(message) => Err(message@),
    }
}

/// The address that a link or an image holds; empty for any other node.
pub open spec fn address_of(n: AstNodeView) -> Seq<char> {
    match n.value {
        NodeValueView::Link { url, .. } => url,
        NodeValueView::Image { url, .. } => url,
        _ => Seq::empty(),
    }
}

/// Whether a text parses as an address.
pub(crate) fn parses_as_url(text: &str) -> (r: bool)
    ensures
        r == (url_parse(text@) is Ok),
{
    parse_url(text).is_ok()
}

} // verus!
