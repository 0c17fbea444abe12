//! The branch validator: checks the current branch name against the
//! resolved branch pattern.

use vstd::prelude::*;

verus! {

/// Whether a pattern is accepted by the regular-expression compiler; it
/// depends on the pattern text alone.
pub uninterp spec fn pattern_compiles(pattern: Seq<char>) -> bool;

/// Whether a compiled pattern matches anywhere in a text; it depends on the
/// two texts alone.
pub uninterp spec fn pattern_matches(pattern: Seq<char>, text: Seq<char>) -> bool;

/// Relies on regex's `Regex::new` and `Regex::is_match`: whether a pattern
/// compiles is a function of the pattern text, and whether it matches
/// somewhere in a haystack is a function of pattern and haystack; `is_match`
/// reports a match anywhere, with no implicit anchoring.
#[verifier::external_body]
fn regex_try_match(pattern: &str, text: &str) -> (r: Option<bool>)
    ensures
        r is Some <==> pattern_compiles(pattern@),
        r matches Some(b) ==> b == pattern_matches(pattern@, text@),
{
    match regex::Regex::new(pattern) {
        Ok(re) => Some(re.is_match(text)),
        Err(_) => None,
    }
}

/// The outcome of checking a branch name against a branch pattern.
#[derive(Clone, Copy, Debug, PartialEq, Eq, Structural)]
pub enum BranchCheck {
    /// The pattern compiled and matched somewhere in the branch name.
    Matched,
    /// The pattern compiled and matched nowhere in the branch name.
    Mismatch,
    /// The pattern is not a valid regular expression.
    InvalidPattern,
}

/// Compiles the resolved branch pattern and tests it anywhere against the
/// current branch name.
pub fn validate_branch(pattern: &String, branch: &String) -> (r: BranchCheck)
    ensures
        r == BranchCheck::InvalidPattern <==> !pattern_compiles(pattern@),
        pattern_compiles(pattern@) ==> (r == BranchCheck::Matched <==> pattern_matches(
            pattern@,
            branch@,
        )),
        pattern_compiles(pattern@) ==> (r == BranchCheck::Mismatch <==> !pattern_matches(
            pattern@,
            branch@,
        )),
{
    match regex_try_match(pattern.as_str(), branch.as_str()) {
        Some(true) => BranchCheck::Matched,
        Some(false) => BranchCheck::Mismatch,
        None => BranchCheck::InvalidPattern,
    }
}

} // verus!
