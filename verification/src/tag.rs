//! Tags: which strings may be one.

use crate::pattern::find_pattern;
use crate::text::chars_of;
use vstd::prelude::*;

verus! {

/// A tag, owned.
pub type Tag = String;

/// A tag, borrowed.
pub type TagSlice<'a> = &'a str;

/// What `char::is_lowercase` says of a character beyond ASCII.
pub uninterp spec fn lowercase_beyond_ascii(c: char) -> bool;

/// What `char::is_whitespace` says of a character beyond ASCII.
pub uninterp spec fn whitespace_beyond_ascii(c: char) -> bool;

/// What `char::is_alphanumeric` says of a character beyond ASCII.
pub uninterp spec fn alphanumeric_beyond_ascii(c: char) -> bool;

/// `c` is an ASCII character.
pub open spec fn ascii(c: char) -> bool {
    c <= '\u{7f}'
}

/// What `char::is_lowercase` says of `c`: of the ASCII characters, the
/// letters `a` to `z` are lowercase and no other.
pub open spec fn lowercase(c: char) -> bool {
    if ascii(c) {
        'a' <= c <= 'z'
    } else {
        lowercase_beyond_ascii(c)
    }
}

/// What `char::is_whitespace` says of `c`: of the ASCII characters, the
/// blank and the five from the tabulator to the carriage return are
/// whitespace and no other.
pub open spec fn whitespace(c: char) -> bool {
    if ascii(c) {
        c == ' ' || ('\u{9}' <= c <= '\u{d}')
    } else {
        whitespace_beyond_ascii(c)
    }
}

/// What `char::is_alphanumeric` says of `c`: of the ASCII characters, the
/// letters and the decimal digits are alphanumeric and no other.
pub open spec fn alphanumeric(c: char) -> bool {
    if ascii(c) {
        ascii_letter(c) || ('0' <= c <= '9')
    } else {
        alphanumeric_beyond_ascii(c)
    }
}

/// `char::is_lowercase` of the standard library. Its answer is fixed for
/// the ASCII characters and named for the others.
#[verifier::external_body]
fn is_lowercase(c: char) -> (r: bool)
    ensures
        r == lowercase(c),
        !ascii(c) ==> r == lowercase_beyond_ascii(c),
{
    c.is_lowercase()
}

/// `char::is_whitespace` of the standard library. Its answer is fixed for
/// the ASCII characters and named for the others.
#[verifier::external_body]
fn is_whitespace(c: char) -> (r: bool)
    ensures
        r == whitespace(c),
        !ascii(c) ==> r == whitespace_beyond_ascii(c),
{
    c.is_whitespace()
}

/// `char::is_alphanumeric` of the standard library. Its answer is fixed
/// for the ASCII characters and named for the others.
#[verifier::external_body]
fn is_alphanumeric(c: char) -> (r: bool)
    ensures
        r == alphanumeric(c),
        !ascii(c) ==> r == alphanumeric_beyond_ascii(c),
{
    c.is_alphanumeric()
}

/// `c` is one of the letters `a` to `z` and `A` to `Z`.
pub open spec fn ascii_letter(c: char) -> bool {
    ('a' <= c <= 'z') || ('A' <= c <= 'Z')
}

/// `c` may stand in a tag: an ASCII letter, a decimal digit, `_` or `-`.
pub open spec fn tag_character(c: char) -> bool {
    ascii_letter(c) || ('0' <= c <= '9') || c == '_' || c == '-'
}

/// The shape of a tag: an ASCII letter, then ASCII letters, digits, `_` and
/// `-`.
pub open spec fn tag_shaped(s: Seq<char>) -> bool {
    &&& s.len() > 0
    &&& ascii_letter(s[0])
    &&& forall|i: int| 0 <= i < s.len() ==> tag_character(s[i])
}

/// The pattern of the shape of a tag.
pub open spec fn tag_pattern() -> Seq<char> {
    "^[a-zA-Z]([a-zA-Z0-9_-]*)$"@
}

/// The strings that are tags: of the shape of a tag, and every character
/// lowercase, alphanumeric and no whitespace.
pub open spec fn valid_tag(s: Seq<char>) -> bool {
    &&& forall|i: int| 0 <= i < s.len() ==> lowercase(s[i])
    &&& forall|i: int| 0 <= i < s.len() ==> !whitespace(s[i])
    &&& forall|i: int| 0 <= i < s.len() ==> alphanumeric(s[i])
    &&& tag_shaped(s)
}

/// `c` is one of the letters `a` to `z`.
pub open spec fn small_letter(c: char) -> bool {
    'a' <= c <= 'z'
}

/// `s` is made of the letters `a` to `z`, at least one.
pub open spec fn small_letters(s: Seq<char>) -> bool {
    s.len() > 0 && forall|i: int| 0 <= i < s.len() ==> small_letter(s[i])
}

/// The tags are the texts made of the letters `a` to `z`, at least one.
pub proof fn lemma_valid_tag(s: Seq<char>)
    ensures
        valid_tag(s) <==> small_letters(s),
{
    if valid_tag(s) {
        assert forall|i: int| 0 <= i < s.len() implies small_letter(s[i]) by {
            assert(tag_character(s[i]));
            assert(lowercase(s[i]));
        }
    }
    if small_letters(s) {
        assert forall|i: int| 0 <= i < s.len() implies lowercase(s[i]) && !whitespace(s[i])
            && alphanumeric(s[i]) && tag_character(s[i]) by {
            assert(small_letter(s[i]));
        }
        assert(small_letter(s[0]));
    }
}

/// What is said of a string that is no tag.
pub open spec fn refusal(s: Seq<char>) -> Seq<char> {
    "The string '"@ + s + "' is not a valid tag"@
}

/// Whether `s` is a tag; to be handed to an argument parser as a validator.
pub fn is_tag(s: String) -> (r: Result<(), String>)
    ensures
        match r {
            Ok(_) => valid_tag(s@),
            Err(msg) => !valid_tag(s@) && msg@ == refusal(s@),
        },
        r is Ok <==> small_letters(s@),
{
    is_tag_str(&s)
}

/// Whether `s` is a tag.
pub fn is_tag_str(s: &String) -> (r: Result<(), String>)
    ensures
        match r {
            Ok(_) => valid_tag(s@),
            Err(msg) => !valid_tag(s@) && msg@ == refusal(s@),
        },
        r is Ok <==> small_letters(s@),
{
    proof {
        lemma_valid_tag(s@);
    }
    let chars = chars_of(s.as_str());
    let mut good = true;
    let mut i: usize = 0;
    while i < chars.len()
        invariant
            i <= chars.len(),
            chars@ == s@,
            good <==> ((forall|k: int| 0 <= k < i ==> lowercase(s@[k])) && (forall|k: int|
                0 <= k < i ==> !whitespace(s@[k])) && (forall|k: int|
                0 <= k < i ==> alphanumeric(s@[k]))),
        decreases chars.len() - i,
    {
        let c = chars[i];
        if !(is_lowercase(c) && !is_whitespace(c) && is_alphanumeric(c)) {
            good = false;
        }
        i += 1;
    }
    let shaped = match find_pattern("^[a-zA-Z]([a-zA-Z0-9_-]*)$", s.as_str()) {
        Some(found) => found,
        None => false,
    };
    if good && shaped {
        Ok(())
    } else {
        let mut msg = "The string '".to_string();
        msg.append(s.as_str());
        msg.append("' is not a valid tag");
        Err(msg)
    }
}

} // verus!
