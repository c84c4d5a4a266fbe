//! Fuzzy scores of catalog labels against typed text.

use vstd::prelude::*;

verus! {

/// The longest label and the longest pattern, in characters, that are scored.
///
/// The matcher keeps its scores in 32-bit integers. A score grows by at most
/// 32 points for each character of the pattern and falls by at most 4 for each
/// character of the label, so up to this length it stays inside their range.
/// For texts of twice this length that can no longer be said.
pub const MAX_SCORED_CHARS: usize = 33_554_432;

/// The score that the Skim matcher, in its second version and as it comes by
/// default, gives to `choice` for `pattern`; `None` where the pattern does not
/// match the choice.
pub uninterp spec fn skim_score(choice: Seq<char>, pattern: Seq<char>) -> Option<i64>;

/// The score of a label against a pattern: the matcher's, for texts of at most
/// [`MAX_SCORED_CHARS`] characters. A longer label or pattern matches nothing.
pub open spec fn label_score(choice: Seq<char>, pattern: Seq<char>) -> Option<i64> {
    if choice.len() <= MAX_SCORED_CHARS && pattern.len() <= MAX_SCORED_CHARS {
        skim_score(choice, pattern)
    } else {
        None
    }
}

/// Calls `fuzzy_match` of `fuzzy_matcher::skim::SkimMatcherV2` on a matcher
/// fresh from `default()`. The matcher's result depends on the two texts
/// alone, which is all that is claimed of it here. It adds its scores up in
/// 32-bit integers; the bound on the lengths keeps those sums inside their
/// range.
#[verifier::external_body]
fn skim_match(choice: &str, pattern: &str) -> (r: Option<i64>)
    requires
        choice@.len() <= MAX_SCORED_CHARS,
        pattern@.len() <= MAX_SCORED_CHARS,
    ensures
        r == skim_score(choice@, pattern@),
{
    let matcher = fuzzy_matcher::skim::SkimMatcherV2::default();
    fuzzy_matcher::FuzzyMatcher::fuzzy_match(&matcher, choice, pattern)
}

/// Scores `choice` against `pattern`.
pub fn score(choice: &str, pattern: &str) -> (r: Option<i64>)
    ensures
        r == label_score(choice@, pattern@),
{
    if choice.unicode_len() <= MAX_SCORED_CHARS && pattern.unicode_len() <= MAX_SCORED_CHARS {
        skim_match(choice, pattern)
    } else {
        None
    }
}

} // verus!
