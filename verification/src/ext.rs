//! The places where the library leans on code it does not verify:
//! percent-decoding of query values, the age cutoff taken from the wall
//! clock, and the one std function vstd gives no contract.

use vstd::prelude::*;
use chrono::Datelike;

verus! {

/// What percent-decoding returns for a given text: a function of the input
/// alone; `None` where the decoded bytes are not valid text.
pub uninterp spec fn url_decoded(s: Seq<char>) -> Option<Seq<char>>;

/// Relies on urlencoding::decode: percent-decodes a query value. The result
/// depends on the input characters alone.
#[verifier::external_body]
pub fn url_decode(s: &Vec<char>) -> (r: Option<Vec<char>>)
    ensures
        r is Some <==> url_decoded(s@) is Some,
        r matches Some(v) ==> url_decoded(s@) == Some(v@),
{
    let text: String = s.iter().collect();
    match urlencoding::decode(&text) {
        Ok(c) => Some(c.chars().collect()),
        Err(_) => None,
    }
}

/// Relies on chrono's Utc::now and Datelike::with_year: the current UTC
/// moment with its year lowered by `k`, as a Unix timestamp, or `None` where
/// the shifted date does not exist. The result depends on the clock, so
/// nothing is promised of it; callers state what holds of every outcome.
#[verifier::external_body]
pub fn timestamp_years_back(k: i32) -> (r: Option<i64>)
{
    let now = chrono::Utc::now();
    match now.year().checked_sub(k) {
        Some(y) => now.with_year(y).map(|d| d.timestamp()),
        None => None,
    }
}

/// Relies on char::from_u32 of std: `Some` exactly for a valid scalar value
/// — not a surrogate and at most the highest code point — and then the
/// character with that value.
pub assume_specification[ char::from_u32 ](n: u32) -> (r: Option<char>)
    ensures
        r matches Some(c) ==> c == n as char && c as u32 == n,
        (r is Some) <==> (n < 0xD800 || (0xE000 <= n && n <= 0x10FFFF)),
;

} // verus!
