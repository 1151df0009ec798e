//! The narrow reads this library makes of the search engine's response
//! bodies: the index names of the alias listing, the cursor token and hit
//! ids of a scroll page, and the top-hit document id of each query of a
//! multi-search.
//!
//! Each read is a pure function of the body text; the library names the
//! three functions and trusts serde_json to compute them. Everything done
//! with the extracted values is verified.

use vstd::prelude::*;

verus! {

/// What the engine's alias listing parses to: the keys of the body's JSON
/// object, in the sorted order serde_json's object model keeps them in, or
/// nothing when the body is not a JSON object.
pub uninterp spec fn alias_names_of(body: Seq<char>) -> Option<Seq<Seq<char>>>;

/// Relies on serde_json::from_str for `Map<String, Value>` and on
/// Map::keys: a JSON object body parses to its keys, sorted, since the map
/// is backed by a BTreeMap; any other body fails to parse.
#[verifier::external_body]
pub(crate) fn parse_alias_names(body: &str) -> (r: Option<Vec<String>>)
    ensures
        r.deep_view() == alias_names_of(body@),
{
    let map: serde_json::Map<String, serde_json::Value> = match serde_json::from_str(body) {
        Ok(m) => m,
        Err(_) => return None,
    };
    Some(map.keys().cloned().collect())
}

/// What a scroll response parses to: the cursor token the engine returned,
/// if any, and the `_id` of every hit of the page; nothing when the body is
/// not JSON or some hit has no string id.
pub uninterp spec fn scroll_page_of(body: Seq<char>) -> Option<(Option<Seq<char>>, Seq<Seq<char>>)>;

/// Relies on serde_json::from_str for `Value` and on Value::get, pointer,
/// as_str and as_array: `_scroll_id` is read as a string and each
/// `hits.hits[]._id` as a string, all pure functions of the body text. A
/// body without a `hits.hits` array is an empty page.
#[verifier::external_body]
pub(crate) fn parse_scroll_page(body: &str) -> (r: Option<(Option<String>, Vec<String>)>)
    ensures
        r.deep_view() == scroll_page_of(body@),
{
    let v: serde_json::Value = match serde_json::from_str(body) {
        Ok(v) => v,
        Err(_) => return None,
    };
    let scroll_id = v.get("_scroll_id").and_then(|s| s.as_str()).map(|s| s.to_string());
    let hits: &[serde_json::Value] = match v.pointer("/hits/hits").and_then(|h| h.as_array()) {
        Some(a) => a,
        None => &[],
    };
    let ids: Option<Vec<String>> = hits
        .iter()
        .map(|h| Some(h.get("_id")?.as_str()?.to_string()))
        .collect();
    Some((scroll_id, ids?))
}

/// What a multi-search response parses to: for each query of the request,
/// in order, the `id` field of its best hit's source document, or nothing
/// where the query had no hit; None when the body is not JSON or has no
/// `responses` array.
pub uninterp spec fn msearch_matches_of(body: Seq<char>) -> Option<Seq<Option<Seq<char>>>>;

/// Relies on serde_json::from_str for `Value` and on Value::get, pointer,
/// as_str and as_array: each element of `responses` is read at
/// `hits.hits[0]._source.id` as a string, a pure function of the body
/// text.
#[verifier::external_body]
pub(crate) fn parse_msearch_matches(body: &str) -> (r: Option<Vec<Option<String>>>)
    ensures
        r.deep_view() == msearch_matches_of(body@),
{
    let v: serde_json::Value = match serde_json::from_str(body) {
        Ok(v) => v,
        Err(_) => return None,
    };
    let responses = v.get("responses")?.as_array()?;
    Some(
        responses
            .iter()
            .map(|r| r.pointer("/hits/hits/0/_source/id").and_then(|s| s.as_str()).map(|s| s.to_string()))
            .collect(),
    )
}

} // verus!
