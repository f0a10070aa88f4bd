//! Extraction of CIDR entries from provider documents, and the outcome of a
//! whole fetch.

use vstd::prelude::*;
use crate::cidr::string_views;

verus! {

#[verifier::external_type_specification]
#[verifier::external_body]
pub struct ExRegexError(regex::Error);

/// Whether `pattern` compiles into a regex: it is valid syntax and fits the
/// default size limit.
pub uninterp spec fn regex_compiles(pattern: Seq<char>) -> bool;

/// The texts of the successive non-overlapping matches of `pattern` in
/// `hay`, leftmost first.
pub uninterp spec fn regex_matches(pattern: Seq<char>, hay: Seq<char>) -> Seq<Seq<char>>;

/// Relies on `regex::Regex::new` to compile `pattern` (it fails on invalid
/// syntax or on a regex over the default size limit, which depends on the
/// pattern alone) and on
/// `regex::Regex::find_iter` for its successive non-overlapping matches in
/// `hay`, each taken as text.
#[verifier::external_body]
fn find_all(pattern: &str, hay: &str) -> (r: Result<Vec<String>, regex::Error>)
    ensures
        r is Ok <==> regex_compiles(pattern@),
        r matches Ok(v) ==> string_views(v@) == regex_matches(pattern@, hay@),
{
    let re = regex::Regex::new(pattern)?;
    Ok(re.find_iter(hay).map(|m| m.as_str().to_string()).collect())
}

/// An IPv4 CIDR: four octets from 0 to 255 joined by dots, a slash and a
/// prefix length from 0 to 32.
pub const CIDR_PATTERN: &'static str = "(([0-9]|[1-9][0-9]|1[0-9]{2}|2[0-4][0-9]|25[0-5])\\.){3}([0-9]|[1-9][0-9]|1[0-9]{2}|2[0-4][0-9]|25[0-5])(/(3[0-2]|[1-2][0-9]|[0-9]))";

/// Why a fetch produced no cache.
#[derive(Clone, Copy, Debug, PartialEq, Eq, Structural)]
pub enum FetchError {
    /// The CIDR pattern did not compile.
    Pattern,
    /// No provider yielded a single entry.
    NothingFetched,
}

/// The CIDR entries in a provider document, in the order a scan from the
/// start finds them.
pub fn extract_cidrs(body: &str) -> (r: Result<Vec<String>, FetchError>)
    ensures
        r is Ok <==> regex_compiles(CIDR_PATTERN@),
        r matches Ok(v) ==> string_views(v@) == regex_matches(CIDR_PATTERN@, body@),
        r matches Err(e) ==> e == FetchError::Pattern,
{
    match find_all(CIDR_PATTERN, body) {
        Ok(v) => Ok(v),
        Err(_) => Err(FetchError::Pattern),
    }
}

/// The outcome of a fetch that wrote `written` entries in all: a fetch that
/// found nothing fails.
pub fn fetch_outcome(written: usize) -> (r: Result<(), FetchError>)
    ensures
        r is Ok <==> written > 0,
        r matches Err(e) ==> e == FetchError::NothingFetched,
{
    if written == 0 {
        Err(FetchError::NothingFetched)
    } else {
        Ok(())
    }
}

} // verus!
