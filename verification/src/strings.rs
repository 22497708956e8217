//! Character and string operations of std that vstd gives no specification.

use vstd::prelude::*;

verus! {

/// What `char::is_alphanumeric` answers for a character: whether it has the
/// Unicode `Alphabetic` property or is `Numeric` (general categories Nd, Nl, No).
pub uninterp spec fn char_is_alphanumeric(c: char) -> bool;

/// Calls `char::is_alphanumeric`. Trusted: its result is named
/// `char_is_alphanumeric` of the character; the Unicode tables behind it are
/// not restated here.
#[verifier::external_body]
pub(crate) fn is_alphanumeric(c: char) -> (r: bool)
    ensures
        r == char_is_alphanumeric(c),
{
    c.is_alphanumeric()
}

/// Calls `String::push`, which appends the character to the end of the string.
#[verifier::external_body]
pub(crate) fn push_char(s: &mut String, c: char)
    ensures
        final(s)@ == old(s)@.push(c),
{
    s.push(c);
}

} // verus!
