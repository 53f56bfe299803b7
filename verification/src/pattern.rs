//! Regular expressions, through the `regex` crate.
use vstd::prelude::*;

verus! {

/// Whether `pattern` compiles as a regular expression (`regex::Regex::new`).
pub uninterp spec fn regex_valid(pattern: Seq<char>) -> bool;

/// Whether the regular expression `pattern` matches somewhere in `text`
/// (`regex::Regex::is_match`).
pub uninterp spec fn regex_is_match(pattern: Seq<char>, text: Seq<char>) -> bool;

/// Compiles `pattern` with `regex::Regex::new` and, when that succeeds, asks
/// `Regex::is_match` about `text`. Claimed: `None` exactly when the pattern
/// does not compile; otherwise the match answer, which depends on the
/// pattern and the text alone.
#[verifier::external_body]
pub(crate) fn regex_match(pattern: &str, text: &str) -> (r: Option<bool>)
    ensures
        r == (if regex_valid(pattern@) {
            Some(regex_is_match(pattern@, text@))
        } else {
            None
        }),
{
    match regex::Regex::new(pattern) {
        Ok(re) => Some(re.is_match(text)),
        Err(_) => None,
    }
}


/// `text` with every match of `pattern` replaced by `rep`
/// (`regex::Regex::replace_all`).
pub uninterp spec fn regex_replaced(pattern: Seq<char>, text: Seq<char>, rep: Seq<char>) -> Seq<
    char,
>;

/// Compiles `pattern` with `regex::Regex::new` and, when that succeeds,
/// replaces its matches in `text` with `rep` (`Regex::replace_all`).
/// Claimed: `None` exactly when the pattern does not compile; otherwise a
/// result that depends on the three strings alone.
#[verifier::external_body]
pub(crate) fn regex_replace_all(pattern: &str, text: &str, rep: &str) -> (r: Option<String>)
    ensures
        r is None <==> !regex_valid(pattern@),
        r matches Some(x) ==> x@ == regex_replaced(pattern@, text@, rep@),
{
    match regex::Regex::new(pattern) {
        Ok(re) => Some(re.replace_all(text, rep).into_owned()),
        Err(_) => None,
    }
}

} // verus!
