//! Links.
use vstd::prelude::*;

verus! {

/// The names and values of a query, in their order.
pub open spec fn pairs_view(list: Seq<(String, String)>) -> Seq<(Seq<char>, Seq<char>)> {
    list.map_values(|pair: (String, String)| (pair.0@, pair.1@))
}

/// The parts of a link.
#[derive(Debug)]
pub struct Link {
    pub scheme: String,
    pub host: Option<String>,
    pub path: String,
    pub query: Vec<(String, String)>,
}

/// What the parts of a link are.
pub struct LinkView {
    pub scheme: Seq<char>,
    pub host: Option<Seq<char>>,
    pub path: Seq<char>,
    pub query: Seq<(Seq<char>, Seq<char>)>,
}

impl View for Link {
    type V = LinkView;

    open spec fn view(&self) -> LinkView {
        LinkView {
            scheme: self.scheme@,
            host: crate::text::optional_view(self.host),
            path: self.path@,
            query: pairs_view(self.query@),
        }
    }
}

/// The parts of a text that is a link.
pub uninterp spec fn link_of(text: Seq<char>) -> Option<LinkView>;

/// Calls `url::Url::parse` and reads the scheme, the host, the path and the decoded pairs of the
/// query off the result. Which texts are links, and what their parts are, is the URL standard's
/// matter; here it has a name only.
#[verifier::external_body]
pub(crate) fn parse_link(text: &str) -> (link: Option<Link>)
    ensures
        match link {
            Some(link) => link_of(text@) == Some(link@),
            None => link_of(text@) is None,
        },
{
    let url = url::Url::parse(text).ok()?;
    Some(
        Link {
            scheme: url.scheme().to_owned(),
            host: url.host_str().map(str::to_owned),
            path: url.path().to_owned(),
            query: url.query_pairs().into_owned().collect(),
        },
    )
}

/// A link with pairs added to its query.
pub uninterp spec fn extended_link(
    base: Seq<char>,
    pairs: Seq<(Seq<char>, Seq<char>)>,
) -> Option<Seq<char>>;

/// Calls `url::Url::parse`, then `extend_pairs` on the query of the result, and writes it out. How
/// names and values are escaped is the URL standard's matter; here the result has a name only.
#[verifier::external_body]
pub(crate) fn extend_link(base: &str, pairs: &Vec<(String, String)>) -> (link: Option<String>)
    ensures
        match link {
            Some(link) => extended_link(base@, pairs_view(pairs@)) == Some(link@),
            None => extended_link(base@, pairs_view(pairs@)) is None,
        },
{
    let mut url = url::Url::parse(base).ok()?;
    url.query_pairs_mut().extend_pairs(pairs);
    Some(String::from(url))
}

/// Whether a text is an HTTPS link with a host.
pub open spec fn is_https(text: Seq<char>) -> bool {
    match link_of(text) {
        Some(link) => link.scheme == "https"@ && link.host is Some,
        None => false,
    }
}

/// Tests a parsed link.
pub fn names_https_host(link: &Option<Link>) -> (result: bool)
    ensures
        result == match link {
            Some(link) => link@.scheme == "https"@ && link@.host is Some,
            None => false,
        },
{
    match link {
        Some(link) => crate::text::text_eq(link.scheme.as_str(), "https") && link.host.is_some(),
        None => false,
    }
}

/// Whether a text is an HTTPS link with a host.
pub fn https_link(text: &str) -> (result: bool)
    ensures
        result == is_https(text@),
{
    names_https_host(&parse_link(text))
}

} // verus!
