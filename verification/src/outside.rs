//! The calls this library makes into the `regex` and `num_cpus` crates,
//! and one function of the standard library. Nothing here is
//! proved: each contract restates what is documented of the function it
//! stands for, and the rest of the library is verified against it.

use vstd::prelude::*;

verus! {

/// `regex::Regex`, a compiled regular expression. Nothing is known of what
/// is inside; `regex_source` names the pattern that it stands for.
#[verifier::external_type_specification]
#[verifier::external_body]
pub struct ExRegex(regex::Regex);

/// `regex::Error`, why a pattern did not compile. It is only passed on.
#[verifier::external_type_specification]
#[verifier::external_body]
pub struct ExRegexError(regex::Error);

/// `String::push` of the standard library appends the character to the
/// end of the text.
pub assume_specification[ String::push ](s: &mut String, c: char)
    ensures
        final(s)@ == old(s)@.push(c),
;

/// Whether `regex::Regex::new` accepts a pattern.
pub uninterp spec fn pattern_compiles(pattern: Seq<char>) -> bool;

/// The pattern that a compiled regex stands for: for a regex that
/// `Regex::new` built, the pattern it was built from.
pub uninterp spec fn regex_source(re: regex::Regex) -> Seq<char>;

/// The text of the leftmost match of a pattern in a haystack, as
/// `Regex::find` reports it, or `None` where nothing matches.
pub uninterp spec fn first_match_of(pattern: Seq<char>, haystack: Seq<char>) -> Option<Seq<char>>;

/// For each successive non-overlapping match of a pattern in a haystack, as
/// `Regex::captures_iter` yields them, the text of one capture group, or
/// `None` where the group took no part in that match.
pub uninterp spec fn group_matches_of(pattern: Seq<char>, haystack: Seq<char>, group: nat) -> Seq<
    Option<Seq<char>>,
>;

/// Calls `regex::Regex::new`. Whether the call succeeds depends on the
/// pattern alone, and the regex that comes back stands for the pattern.
#[verifier::external_body]
pub(crate) fn compile_pattern(pattern: &str) -> (r: Result<regex::Regex, regex::Error>)
    ensures
        r is Ok <==> pattern_compiles(pattern@),
        r matches Ok(re) ==> regex_source(re) == pattern@,
{
    regex::Regex::new(pattern)
}

/// Calls `Regex::find`, the search for the leftmost match, and copies out
/// the matched text. The result depends on the pattern that the regex
/// stands for and on the haystack alone.
#[verifier::external_body]
pub(crate) fn first_match(re: &regex::Regex, haystack: &str) -> (m: Option<String>)
    ensures
        m.deep_view() == first_match_of(regex_source(*re), haystack@),
{
    re.find(haystack).map(|m| m.as_str().to_string())
}

/// Calls `Regex::captures_iter` and, for every match, copies out the text of
/// capture group `group` (`Captures::get`). The result depends on the
/// pattern that the regex stands for, the haystack and the group number
/// alone.
#[verifier::external_body]
pub(crate) fn group_matches(re: &regex::Regex, haystack: &str, group: usize) -> (r: Vec<
    Option<String>,
>)
    ensures
        r.deep_view() == group_matches_of(regex_source(*re), haystack@, group as nat),
{
    re.captures_iter(haystack).map(|c| c.get(group).map(|m| m.as_str().to_string())).collect()
}

/// Calls `num_cpus::get`, the number of logical cores available to this
/// process. The crate documents that it is at least 1; the value itself
/// depends on the machine.
#[verifier::external_body]
pub(crate) fn available_cores() -> (n: usize)
    ensures
        n >= 1,
{
    num_cpus::get()
}

} // verus!
