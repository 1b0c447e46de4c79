//! Trusted interface to the `regex` crate.
//!
//! A compiled `regex::Regex` is opaque to the verifier; what the engine
//! needs of it is named here. `regex_pattern` is the pattern a compiled
//! regex holds, and the behaviour of compilation and matching is a function
//! of patterns and haystacks alone, so `regex_valid`, `regex_groups` and
//! `regex_captures_spec` name those functions. The wrappers below are the
//! only places the crate is called from verified code.

use vstd::prelude::*;
use regex::Regex;

verus! {

#[verifier::external_type_specification]
#[verifier::external_body]
pub struct ExRegex(Regex);

/// The pattern a compiled regex was built from (`Regex::as_str`).
pub uninterp spec fn regex_pattern(re: Regex) -> Seq<char>;

/// Whether `regex::Regex::new` accepts the pattern.
pub uninterp spec fn regex_valid(pattern: Seq<char>) -> bool;

/// The group count `regex::Regex::captures_len` reports for the pattern,
/// counting the implicit group 0 for the whole match.
pub uninterp spec fn regex_groups(pattern: Seq<char>) -> nat;

/// What `regex::Regex::captures` returns for the pattern on the haystack:
/// `None` when the regex does not match anywhere in the haystack, else one
/// entry per group of the pattern (group 0 first), each the captured text
/// or `None` for a group that did not participate in the match.
pub uninterp spec fn regex_captures_spec(pattern: Seq<char>, token: Seq<char>) -> Option<
    Seq<Option<Seq<char>>>,
>;

/// A regex compiled by this library through `regex::Regex::new`. The
/// inner value is crate-private and `regex_new` below is its only
/// producer, so no regex configured another way (for instance through
/// `regex::RegexBuilder`, which can change matching and even the group
/// count without changing the pattern string) ever reaches the trusted
/// wrappers: on every value the crate holds, match behaviour really is a
/// function of the pattern alone, as `regex_captures_spec` and
/// `regex_groups` state.
#[derive(Debug)]
pub struct CompiledRegex {
    pub(crate) re: Regex,
}

/// Relies on `regex::Regex::new`: compilation succeeds exactly for the
/// patterns the crate accepts, and the compiled regex keeps its pattern
/// (`Regex::as_str` returns the original string).
#[verifier::external_body]
pub(crate) fn regex_new(pattern: &str) -> (r: Option<CompiledRegex>)
    ensures
        r is Some <==> regex_valid(pattern@),
        r matches Some(cre) ==> regex_pattern(cre.re) == pattern@,
{
    Regex::new(pattern).ok().map(|re| CompiledRegex { re })
}

/// Relies on `regex::Regex::captures_len`: the number of capture groups in
/// the pattern, including the implicit whole-match group, so at least 1.
#[verifier::external_body]
pub(crate) fn regex_captures_len(cre: &CompiledRegex) -> (r: usize)
    ensures
        r == regex_groups(regex_pattern(cre.re)),
        r >= 1,
{
    cre.re.captures_len()
}

/// Relies on `regex::Regex::captures`: the leftmost match is a function of
/// the pattern and the haystack alone; when it matches, `Captures::len`
/// equals `Regex::captures_len`, and `Captures::get` yields each group's
/// text (`Match::as_str`) or `None` for a group that did not participate.
#[verifier::external_body]
pub(crate) fn regex_captures(cre: &CompiledRegex, token: &str) -> (r: Option<Vec<Option<String>>>)
    ensures
        r is Some <==> regex_captures_spec(regex_pattern(cre.re), token@) is Some,
        r matches Some(groups) ==> {
            &&& regex_captures_spec(regex_pattern(cre.re), token@) == Some(groups.deep_view())
            &&& groups@.len() == regex_groups(regex_pattern(cre.re))
        },
{
    cre.re.captures(token).map(
        |caps| (0..caps.len()).map(|i| caps.get(i).map(|m| m.as_str().to_string())).collect(),
    )
}

} // verus!
