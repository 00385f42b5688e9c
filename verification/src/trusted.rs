//! Contracts for the standard-library functions that the crate calls and
//! that come without one. Nothing in this file is proved.
use vstd::prelude::*;
use vstd::utf8::is_scalar;

verus! {

/// `String::push` appends the given character to the end of the string and
/// leaves the characters before it as they were.
pub assume_specification[ std::string::String::push ](s: &mut std::string::String, ch: char)
    ensures
        final(s)@ == old(s)@.push(ch),
;

/// `char::from_u32` gives the character with the given code point where the
/// number is a Unicode scalar value (at most `0x10FFFF` and no surrogate),
/// and `None` for every other number.
pub assume_specification[ char::from_u32 ](i: u32) -> (r: Option<char>)
    ensures
        r == if is_scalar(i) {
            Some(i as char)
        } else {
            None::<char>
        },
;

/// Whether `char::is_alphanumeric` holds of `c`: the character is a letter
/// or a number by the Unicode tables that the standard library carries.
pub uninterp spec fn unicode_alphanumeric(c: char) -> bool;

/// Whether `char::is_numeric` holds of `c`: the character is a number by
/// the Unicode tables that the standard library carries.
pub uninterp spec fn unicode_numeric(c: char) -> bool;

/// `char::is_alphanumeric` looks the character up in tables and does nothing
/// else, so its answer depends on the character alone.
pub assume_specification[ char::is_alphanumeric ](c: char) -> (b: bool)
    ensures
        b == unicode_alphanumeric(c),
;

/// `char::is_numeric` looks the character up in tables and does nothing
/// else, so its answer depends on the character alone.
pub assume_specification[ char::is_numeric ](c: char) -> (b: bool)
    ensures
        b == unicode_numeric(c),
;

} // verus!
