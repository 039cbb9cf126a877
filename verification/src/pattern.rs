//! Matching texts against patterns, by the `regex` crate.

use crate::tag::{tag_pattern, tag_shaped};
use vstd::prelude::*;

verus! {

/// Whether `regex::Regex::captures` finds the pattern `pattern` in `text`;
/// `None` where `regex::Regex::new` does not take the pattern.
pub uninterp spec fn pattern_found(pattern: Seq<char>, text: Seq<char>) -> Option<bool>;

/// Makes the pattern with `regex::Regex::new` and looks for it in `text`
/// with `regex::Regex::captures`. The contract names the answer. Of the
/// pattern of a tag it says more: that pattern is taken, it is anchored at
/// both ends of the text and its classes hold ASCII characters only, so it
/// is found exactly in the texts of the shape of a tag.
#[verifier::external_body]
pub(crate) fn find_pattern(pattern: &str, text: &str) -> (r: Option<bool>)
    ensures
        r == pattern_found(pattern@, text@),
        pattern@ == tag_pattern() ==> r == Some(tag_shaped(text@)),
{
    match regex::Regex::new(pattern) {
        Ok(re) => Some(re.captures(text).is_some()),
        Err(_) => None,
    }
}

} // verus!
