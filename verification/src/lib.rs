//! A bidirectional codec between XML text and a JSON-like structured value,
//! together with a few small verified utilities around it.

use vstd::prelude::*;

pub mod chars;
pub mod builder;
pub mod coerce;
pub mod events;
pub mod dates;
pub mod elemid;
pub mod err;
pub mod escape;
pub mod laws;
pub mod num;
pub mod randbuf;
pub mod tokenize;
pub mod unparse;
pub mod value;
pub mod xattr;

verus! {

/// True when the character is an ASCII decimal digit.
pub open spec fn spec_is_digit(c: char) -> bool {
    '0' <= c && c <= '9'
}

/// Numeric value of an ASCII decimal digit.
pub open spec fn spec_digit_val(c: char) -> int {
    c as int - '0' as int
}

pub fn is_digit(c: char) -> (r: bool)
    ensures
        r == spec_is_digit(c),
{
    '0' <= c && c <= '9'
}

} // verus!
