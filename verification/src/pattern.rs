//! Regular expressions, compiled and matched by the `regex` crate.
//!
//! What the crate answers for a pattern and a text is not derived here: each
//! answer has a name, and the contracts of the library speak of these names.

use vstd::prelude::*;

verus! {

/// `regex::Regex`: a compiled regular expression. Of such a value the library
/// knows what the names below say and nothing else.
#[verifier::external_type_specification]
#[verifier::external_body]
pub struct ExRegex(regex::Regex);

/// Whether the `regex` crate accepts `pattern` as a regular expression.
pub uninterp spec fn regex_accepts(pattern: Seq<char>) -> bool;

/// The pattern that `Regex::new` made `re` of; `None` for a regex that was
/// made in another way.
pub uninterp spec fn regex_pattern(re: regex::Regex) -> Option<Seq<char>>;

/// Whether the regular expression `pattern`, as the `regex` crate reads it,
/// matches somewhere in `haystack`.
pub uninterp spec fn regex_is_match(pattern: Seq<char>, haystack: Seq<char>) -> bool;

/// The text of the capture group with the number `group` in the leftmost
/// match of `pattern` in `haystack`, as the `regex` crate finds it; `None`
/// where nothing matches, the pattern has no such group or the group took no
/// part in the match.
pub uninterp spec fn regex_group(pattern: Seq<char>, haystack: Seq<char>, group: nat) -> Option<
    Seq<char>,
>;

/// `regex::Regex::new`. Believed: it gives a regex for the patterns that the
/// crate accepts and for no others, and the regex is one of the pattern given.
#[verifier::external_body]
pub(crate) fn compile(pattern: &str) -> (r: Option<regex::Regex>)
    ensures
        r is Some == regex_accepts(pattern@),
        r matches Some(re) ==> regex_pattern(re) == Some(pattern@),
{
    match regex::Regex::new(pattern) {
        Ok(re) => Some(re),
        Err(_) => None,
    }
}

/// `regex::Regex::is_match`, on a regex that `Regex::new` made. Believed: the
/// answer is the one that `regex_is_match` names, a function of the pattern
/// and the text alone.
#[verifier::external_body]
pub(crate) fn is_match(re: &regex::Regex, haystack: &str) -> (r: bool)
    requires
        regex_pattern(*re) is Some,
    ensures
        r == regex_is_match(regex_pattern(*re).unwrap(), haystack@),
{
    re.is_match(haystack)
}

/// `regex::Regex::captures`, on a regex that `Regex::new` made, then
/// `Captures::get` and `Match::as_str`. Believed: the answer is the one that
/// `regex_group` names, a function of the pattern, the text and the group's
/// number alone.
#[verifier::external_body]
pub(crate) fn group_text(re: &regex::Regex, haystack: &str, group: usize) -> (r: Option<String>)
    requires
        regex_pattern(*re) is Some,
    ensures
        r is Some == regex_group(regex_pattern(*re).unwrap(), haystack@, group as nat) is Some,
        r matches Some(text) ==> regex_group(regex_pattern(*re).unwrap(), haystack@, group as nat)
            == Some(text@),
{
    match re.captures(haystack) {
        Some(found) => match found.get(group) {
            Some(part) => Some(part.as_str().to_string()),
            None => None,
        },
        None => None,
    }
}

} // verus!
