use vstd::prelude::*;

verus! {

/// Whether the regex crate accepts this pattern text: the success of
/// `regex::Regex::new`, a function of the pattern alone.
pub uninterp spec fn regex_is_valid(pat: Seq<char>) -> bool;

/// Whether the compiled pattern matches somewhere in the text: the result of
/// `regex::Regex::is_match`, a function of pattern and text alone.
pub uninterp spec fn regex_matches(pat: Seq<char>, text: Seq<char>) -> bool;

/// Relies on regex::Regex::new: compiling a pattern succeeds or fails on the
/// pattern text alone.
#[verifier::external_body]
pub(crate) fn regex_pattern_valid(pat: &str) -> (r: bool)
    ensures
        r == regex_is_valid(pat@),
{
    regex::Regex::new(pat).is_ok()
}

/// Relies on regex::Regex::new and regex::Regex::is_match: whether the
/// pattern compiles and then matches somewhere in the text; `false` on a
/// pattern that does not compile.
#[verifier::external_body]
pub(crate) fn regex_match(pat: &str, text: &str) -> (r: bool)
    ensures
        r == (regex_is_valid(pat@) && regex_matches(pat@, text@)),
{
    match regex::Regex::new(pat) {
        Ok(re) => re.is_match(text),
        Err(_) => false,
    }
}

} // verus!
