//! The attribute-name helpers: the JSON shape keeps a field name as it is,
//! the XML shape marks it with the `@` prefix, taking an explicit override
//! of the XML spelling when one is given.

use vstd::prelude::*;

use crate::chars::chars_to_string;
use crate::chars::str_to_chars;

verus! {

/// The field name, unchanged, for the JSON shape; the XML spelling plays
/// no part here.
pub fn xattr_json(name: String, xml: Option<&str>) -> (r: String)
    ensures
        r == name,
{
    match xml {
        Some(_) => name,
        None => name,
    }
}

/// The `@`-prefixed attribute key for the XML shape: the override where one
/// is given, else the field name.
pub fn xattr_xml(name: &str, xml: Option<&str>) -> (r: String)
    ensures
        r@ == seq!['@'] + match xml {
            Some(x) => x@,
            None => name@,
        },
{
    let source = match xml {
        Some(x) => x,
        None => name,
    };
    let mut cs: Vec<char> = Vec::new();
    cs.push('@');
    let mut rest = str_to_chars(source);
    cs.append(&mut rest);
    let out = chars_to_string(&cs);
    proof {
        assert(out@ =~= seq!['@'] + source@);
    }
    out
}

} // verus!
