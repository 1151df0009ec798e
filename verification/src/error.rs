use vstd::prelude::*;

verus! {

/// Errors surfaced by the indexing library. Remote transport failures are
/// reported by the caller that performs the request; the variants here cover
/// malformed input records and responses that do not have the expected shape.
#[derive(Debug, Clone, PartialEq, Eq)]
pub enum Error {
    /// An owning-entity id field that is not a decimal number, with the line it came from.
    InvalidId(String, u32),
    /// A title-type code outside the known set.
    InvalidTitleType(String),
    /// A record that does not have the expected number of fields, by line.
    InvalidParse(u32),
    /// An endpoint URL that could not be parsed.
    InvalidUrl(String),
    /// A response whose body does not have the shape the protocol step expects,
    /// as (endpoint, body).
    UnexpectedResponse(String, String),
}

} // verus!
