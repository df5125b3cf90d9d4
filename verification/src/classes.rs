//! The classes of characters that the rules speak of. Unicode decides them,
//! through std; here each has a name, and nothing is proved of the tables
//! behind it.
use vstd::prelude::*;

verus! {

/// Whether Unicode gives `c` the property White_Space.
pub uninterp spec fn unicode_whitespace(c: char) -> bool;

/// Whether Unicode classes `c` as a letter or a number.
pub uninterp spec fn unicode_alphanumeric(c: char) -> bool;

/// The lower-case form of a text under Unicode's default case mapping.
pub uninterp spec fn unicode_lowercase(s: Seq<char>) -> Seq<char>;

/// `char::is_whitespace` of std answers by the character alone; its answer
/// is named, not described. Taken on trust.
pub assume_specification[ char::is_whitespace ](c: char) -> (r: bool)
    ensures
        r == unicode_whitespace(c),
;

/// `char::is_alphanumeric` of std answers by the character alone; its answer
/// is named, not described. Taken on trust.
pub assume_specification[ char::is_alphanumeric ](c: char) -> (r: bool)
    ensures
        r == unicode_alphanumeric(c),
;

/// `str::to_lowercase` of std gives a new string that depends on the
/// characters of `s` alone; it is named, not described. Taken on trust.
pub assume_specification[ str::to_lowercase ](s: &str) -> (r: String)
    ensures
        r@ == unicode_lowercase(s@),
;

/// White space: the blank, and whatever else Unicode counts as such.
pub open spec fn is_space(c: char) -> bool {
    c == ' ' || unicode_whitespace(c)
}

/// Whether `c` is white space.
pub fn is_space_char(c: char) -> (r: bool)
    ensures
        r == is_space(c),
{
    c == ' ' || c.is_whitespace()
}

} // verus!
