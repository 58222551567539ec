//! The exclusion policy: interfaces whose name matches one of a list of
//! regular expressions are left out of the directory.

use vstd::prelude::*;

verus! {

/// `regex::Regex`, a compiled regular expression. Nothing is known of what
/// it holds.
#[verifier::external_type_specification]
#[verifier::external_body]
pub struct ExRegex(regex::Regex);

/// Whether the regular expression `re` matches somewhere in `text`.
pub uninterp spec fn matches_somewhere(re: regex::Regex, text: Seq<char>) -> bool;

/// `regex::Regex::is_match` says whether the expression matches anywhere in
/// the haystack; the answer depends on the expression and the haystack alone.
pub assume_specification[ regex::Regex::is_match ](re: &regex::Regex, haystack: &str) -> (found:
    bool)
    ensures
        found == matches_somewhere(*re, haystack@),
;

/// Whether one of `patterns` matches somewhere in `name`.
pub open spec fn name_excluded(patterns: Seq<regex::Regex>, name: Seq<char>) -> bool {
    exists|i: int| 0 <= i < patterns.len() && matches_somewhere(#[trigger] patterns[i], name)
}

/// Whether the exclusion list keeps an interface of this name out.
pub fn is_excluded(patterns: &Vec<regex::Regex>, name: &str) -> (excluded: bool)
    ensures
        excluded == name_excluded(patterns@, name@),
{
    let mut i: usize = 0;
    while i < patterns.len()
        invariant
            i <= patterns.len(),
            forall|j: int| 0 <= j < i ==> !matches_somewhere(#[trigger] patterns@[j], name@),
        decreases patterns.len() - i,
    {
        if patterns[i].is_match(name) {
            return true;
        }
        i = i + 1;
    }
    false
}

} // verus!
