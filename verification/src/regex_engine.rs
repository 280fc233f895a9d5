//! The regular-expression engine: the `regex` crate, with what the rest of
//! the library relies on stated as contracts that are taken on trust.

use vstd::prelude::*;
use vstd::string::*;
use vstd::utf8::*;
use crate::range::{fits, MatchRange};

verus! {

/// `regex::Regex`, a compiled regular expression. Nothing is seen of what
/// it holds.
#[verifier::external_type_specification]
#[verifier::external_body]
pub struct ExRegex(regex::Regex);

/// `regex::Error`, the reason why a pattern did not compile. Nothing is
/// seen of what it holds.
#[verifier::external_type_specification]
#[verifier::external_body]
pub struct ExRegexError(regex::Error);

/// Whether `regex::Regex::new` compiles `pattern`: whether the pattern is
/// well-formed and, once compiled, within the size that the engine allows
/// by default.
pub uninterp spec fn regex_accepts(pattern: Seq<char>) -> bool;

/// The pattern text that a compiled regex was built from by
/// `regex::Regex::new`, the only way in which this library builds one.
pub uninterp spec fn regex_source(re: regex::Regex) -> Seq<char>;

/// Whether the regex compiled from `pattern` matches anywhere in `haystack`.
pub uninterp spec fn regex_is_match(pattern: Seq<char>, haystack: Seq<char>) -> bool;

/// The successive non-overlapping matches of the regex compiled from
/// `pattern` in `haystack`, as byte ranges of the haystack, from left to right.
pub uninterp spec fn regex_find_all(pattern: Seq<char>, haystack: Seq<char>) -> Seq<MatchRange>;

/// `regex::Regex::new`: whether a pattern compiles depends on the pattern
/// alone, and a compiled regex is the regex of the pattern it was built
/// from.
pub assume_specification[ regex::Regex::new ](re: &str) -> (r: Result<regex::Regex, regex::Error>)
    ensures
        r is Ok <==> regex_accepts(re@),
        r matches Ok(compiled) ==> regex_source(compiled) == re@,
;

/// `regex::Regex::is_match`: the answer depends on the pattern and the
/// haystack alone.
pub assume_specification[ regex::Regex::is_match ](re: &regex::Regex, haystack: &str) -> (found:
    bool)
    ensures
        found == regex_is_match(regex_source(*re), haystack@),
;

/// `regex::Regex::find_iter`, collected: the matches depend on the pattern
/// and the haystack alone. Each match has `start <= end` inside the
/// haystack, a match begins no earlier than the one before it ended, and
/// every offset falls on a character boundary.
#[verifier::external_body]
pub(crate) fn find_all(re: &regex::Regex, haystack: &str) -> (ranges: Vec<MatchRange>)
    ensures
        ranges@ == regex_find_all(regex_source(*re), haystack@),
        fits(encode_utf8(haystack@), ranges@),
{
    re.find_iter(haystack).map(|m| MatchRange { start: m.start(), end: m.end() }).collect()
}

} // verus!
