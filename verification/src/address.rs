//! URLs, taken apart.

use url::Url;
use vstd::prelude::*;

use crate::text::view_opt;

verus! {

/// The parts of a URL that decisions are taken on.
#[derive(Debug, PartialEq, Eq)]
pub struct ParsedUrl {
    pub scheme: String,
    pub host: Option<String>,
    pub query: Vec<(String, String)>,
}

/// The parts of a URL: its scheme, its host and its query.
pub type UrlParts = (Seq<char>, Option<Seq<char>>, Seq<(Seq<char>, Seq<char>)>);

/// The contents of the pairs of a list.
pub open spec fn pair_views(pairs: Seq<(String, String)>) -> Seq<(Seq<char>, Seq<char>)> {
    Seq::new(pairs.len(), |i: int| (pairs[i].0@, pairs[i].1@))
}

impl View for ParsedUrl {
    type V = UrlParts;

    open spec fn view(&self) -> UrlParts {
        (self.scheme@, view_opt(self.host), pair_views(self.query@))
    }
}

/// What `Url::parse` makes of a text: the scheme, the host and the decoded pairs
/// of the query, or what it says is wrong.
pub uninterp spec fn url_parsed(s: Seq<char>) -> Result<
    (Seq<char>, Option<Seq<char>>, Seq<(Seq<char>, Seq<char>)>),
    Seq<char>,
>;

/// `Url::parse` with what `scheme`, `host_str` and `query_pairs` give of its
/// result, and what its error says. How a URL is read is named, not stated.
#[verifier::external_body]
pub(crate) fn parse_url(s: &str) -> (out: Result<ParsedUrl, String>)
    ensures
        match out {
            Ok(url) => url_parsed(s@) == Ok::<UrlParts, Seq<char>>(url@),
            Err(e) => url_parsed(s@) == Err::<UrlParts, Seq<char>>(e@),
        },
{
    match Url::parse(s) {
        Ok(url) => Ok(ParsedUrl {
            scheme: url.scheme().to_string(),
            host: url.host_str().map(|host| host.to_string()),
            query: url.query_pairs().into_owned().collect(),
        }),
        Err(e) => Err(e.to_string()),
    }
}

} // verus!
