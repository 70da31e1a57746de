//! Regular expressions over bytes, as far as key extraction needs them.
//!
//! Matching is done by `regex::bytes::Regex`. What a pattern means is not
//! restated here: the result of each call is given a name, a function of
//! the call's arguments whose value only the engine knows, and the
//! contracts of this module say that the call returns it. They are taken
//! on trust.

use regex::bytes::Regex;
use regex::Error;
use vstd::prelude::*;

verus! {

/// `regex::bytes::Regex`, a compiled pattern. Nothing is known of its inside.
#[verifier::external_type_specification]
#[verifier::external_body]
pub struct ExRegex(Regex);

/// `regex::Error`, the reason why a pattern did not compile.
#[verifier::external_type_specification]
#[verifier::external_body]
pub struct ExRegexError(Error);

/// What compiling `pattern` gives: the regex, or nothing if the engine
/// refuses the pattern.
pub uninterp spec fn compiled(pattern: Seq<char>) -> Option<Regex>;

/// What the leftmost match of `re` in `line` captured, or nothing if `re`
/// does not match. Group 0 is the whole match; a group that took no part in
/// the match holds nothing, another one the bytes it matched.
pub uninterp spec fn captures_of(re: Regex, line: Seq<u8>) -> Option<Seq<Option<Seq<u8>>>>;

/// `line` with every non-overlapping match of `re` replaced by what `with`
/// stands for: its bytes, but for the places where it refers to a group by
/// `$`.
pub uninterp spec fn replaced(re: Regex, line: Seq<u8>, with: Seq<u8>) -> Seq<u8>;

/// The contents of captured groups.
pub open spec fn groups_view(groups: Seq<Option<Vec<u8>>>) -> Seq<Option<Seq<u8>>> {
    Seq::new(
        groups.len(),
        |i: int|
            match groups[i] {
                Some(bytes) => Some(bytes@),
                None => None,
            },
    )
}

/// The contents of what a search captured.
pub open spec fn captures_view(found: Option<Vec<Option<Vec<u8>>>>) -> Option<
    Seq<Option<Seq<u8>>>,
> {
    match found {
        Some(groups) => Some(groups_view(groups@)),
        None => None,
    }
}

/// `Regex::new`: compiles `pattern`. The result depends on the pattern
/// alone.
#[verifier::external_body]
pub(crate) fn regex_new(pattern: &str) -> (made: Result<Regex, Error>)
    ensures
        made matches Ok(re) ==> compiled(pattern@) == Some(re),
        made is Err ==> compiled(pattern@) is None,
{
    Regex::new(pattern)
}

/// `Regex::captures`: searches `line` for the leftmost match and hands out
/// a copy of the bytes of each group.
#[verifier::external_body]
pub(crate) fn regex_captures(re: &Regex, line: &[u8]) -> (found: Option<Vec<Option<Vec<u8>>>>)
    ensures
        captures_view(found) == captures_of(*re, line@),
{
    re.captures(line).map(|caps| caps.iter().map(|group| group.map(|m| m.as_bytes().to_vec())).collect())
}

/// `Regex::replace_all`: replaces every non-overlapping match in `line` as
/// `with` says. Where `re` does not match, the line comes back as it is.
#[verifier::external_body]
pub(crate) fn regex_replace_all(re: &Regex, line: &[u8], with: &[u8]) -> (out: Vec<u8>)
    ensures
        out@ == replaced(*re, line@, with@),
        captures_of(*re, line@) is None ==> out@ == line@,
{
    re.replace_all(line, with).into_owned()
}

} // verus!
