//! URLs: what the `url` crate makes of one, and the pieces of the web flows
//! that are computed from them.
use vstd::prelude::*;

verus! {

/// A parsed URL, as far as this crate reads one: its path and its query
/// pairs, decoded, in order.
#[derive(Debug)]
pub struct ParsedUrl {
    pub path: String,
    pub query: Vec<(String, String)>,
}

/// The views of a list of string pairs.
pub open spec fn pairs_view(v: Seq<(String, String)>) -> Seq<(Seq<char>, Seq<char>)> {
    v.map_values(|p: (String, String)| (p.0@, p.1@))
}

/// What `url::Url::parse` makes of `text`: the URL's path and query pairs,
/// or the parser's error message.
pub uninterp spec fn url_parse(text: Seq<char>) -> Result<(Seq<char>, Seq<(Seq<char>, Seq<char>)>), Seq<char>>;

/// Calls `url::Url::parse`, then reads `Url::path` and `Url::query_pairs`.
/// Trusted: the outcome is `url_parse(text)`, the error being the `Display`
/// text of the parse error; how URLs are parsed is left to the crate.
#[verifier::external_body]
pub(crate) fn parse_url(text: &str) -> (res: Result<ParsedUrl, String>)
    ensures
        match (res, url_parse(text@)) {
            (Ok(u), Ok((p, q))) => u.path@ == p && pairs_view(u.query@) == q,
            (Err(e), Err(m)) => e@ == m,
            _ => false,
        },
{
    match url::Url::parse(text) {
        Ok(u) => Ok(
            ParsedUrl {
                path: u.path().to_string(),
                query: u.query_pairs().map(|(k, v)| (k.into_owned(), v.into_owned())).collect(),
            },
        ),
        Err(e) => Err(e.to_string()),
    }
}

} // verus!
