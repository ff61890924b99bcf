//! The type coercion engine: raw text becomes a typed scalar, chosen by the
//! exact name of the attribute or enclosing element.

use vstd::prelude::*;

use crate::chars::contains_char;
use crate::chars::str_eq;
use crate::chars::str_to_chars;
use crate::dates::g_parse_iso;
use crate::dates::g_parse_spaced;
use crate::dates::parse_iso;
use crate::dates::parse_spaced;
use crate::err::GErr;
use crate::err::XmlError;
use crate::num::g_is_float;
use crate::num::g_parse_i64;
use crate::num::is_float_literal;
use crate::num::parse_i64;
use crate::value::GValue;
use crate::value::Value;

verus! {

/// Keys whose text must literally be `true` or `false`.
pub open spec fn g_is_bool_key(k: Seq<char>) -> bool {
    k == "open"@ || k == "pending"@ || k == "visible"@
}

/// Keys whose text must parse as a 64-bit float.
pub open spec fn g_is_float_key(k: Seq<char>) -> bool {
    k == "ele"@ || k == "lat"@ || k == "lon"@ || k == "max_lat"@ || k == "max_lon"@ || k
        == "min_lat"@ || k == "min_lon"@
}

/// Keys whose text must parse as a 64-bit signed integer.
pub open spec fn g_is_int_key(k: Seq<char>) -> bool {
    k == "changes_count"@ || k == "changeset"@ || k == "comments_count"@ || k == "id"@ || k
        == "num_changes"@ || k == "ref"@ || k == "uid"@
}

/// Keys whose text is a timestamp.
pub open spec fn g_is_date_key(k: Seq<char>) -> bool {
    k == "closed_at"@ || k == "created_at"@ || k == "date"@ || k == "time"@ || k == "timestamp"@
        || k == "updated_at"@
}

/// The full coercion rule: `(key, raw)` to a typed value, or the error
/// naming both. Keys match exactly; any key outside the table keeps the raw
/// text as a string. `version` is a float when the text holds a point, else
/// an integer. A date key delegates to the spaced grammar when the text
/// holds a space, else to the ISO grammar.
pub open spec fn g_coerce(k: Seq<char>, raw: Seq<char>) -> Result<GValue, GErr> {
    if g_is_bool_key(k) {
        if raw == "true"@ {
            Ok(GValue::Bool(true))
        } else if raw == "false"@ {
            Ok(GValue::Bool(false))
        } else {
            Err(GErr::InvalidFormat(k, raw))
        }
    } else if g_is_float_key(k) {
        if g_is_float(raw) {
            Ok(GValue::Float(raw))
        } else {
            Err(GErr::InvalidFormat(k, raw))
        }
    } else if g_is_int_key(k) {
        match g_parse_i64(raw) {
            Some(n) => Ok(GValue::Int(n)),
            None => Err(GErr::InvalidFormat(k, raw)),
        }
    } else if k == "version"@ {
        if crate::chars::spec_contains_char(raw, '.') {
            if g_is_float(raw) {
                Ok(GValue::Float(raw))
            } else {
                Err(GErr::InvalidFormat(k, raw))
            }
        } else {
            match g_parse_i64(raw) {
                Some(n) => Ok(GValue::Int(n)),
                None => Err(GErr::InvalidFormat(k, raw)),
            }
        }
    } else if g_is_date_key(k) {
        let t = if crate::chars::spec_contains_char(raw, ' ') {
            g_parse_spaced(raw)
        } else {
            g_parse_iso(raw)
        };
        match t {
            Some(ts) => Ok(GValue::Ts(ts)),
            None => Err(GErr::InvalidFormat(k, raw)),
        }
    } else {
        Ok(GValue::Str(raw))
    }
}

fn is_bool_key(k: &str) -> (r: bool)
    ensures
        r == g_is_bool_key(k@),
{
    str_eq(k, "open") || str_eq(k, "pending") || str_eq(k, "visible")
}

fn is_float_key(k: &str) -> (r: bool)
    ensures
        r == g_is_float_key(k@),
{
    str_eq(k, "ele") || str_eq(k, "lat") || str_eq(k, "lon") || str_eq(k, "max_lat") || str_eq(
        k,
        "max_lon",
    ) || str_eq(k, "min_lat") || str_eq(k, "min_lon")
}

fn is_int_key(k: &str) -> (r: bool)
    ensures
        r == g_is_int_key(k@),
{
    str_eq(k, "changes_count") || str_eq(k, "changeset") || str_eq(k, "comments_count") || str_eq(
        k,
        "id",
    ) || str_eq(k, "num_changes") || str_eq(k, "ref") || str_eq(k, "uid")
}

fn is_date_key(k: &str) -> (r: bool)
    ensures
        r == g_is_date_key(k@),
{
    str_eq(k, "closed_at") || str_eq(k, "created_at") || str_eq(k, "date") || str_eq(k, "time")
        || str_eq(k, "timestamp") || str_eq(k, "updated_at")
}

fn invalid(k: &str, raw: &str) -> (r: XmlError)
    ensures
        r@ == GErr::InvalidFormat(k@, raw@),
{
    XmlError::InvalidFormat(k.to_owned(), raw.to_owned())
}

/// Coerces raw text under a key, by the table of `g_coerce`.
pub fn coerce(k: &str, raw: &str) -> (r: Result<Value, XmlError>)
    ensures
        match r {
            Ok(v) => g_coerce(k@, raw@) == Ok::<GValue, GErr>(v@),
            Err(e) => g_coerce(k@, raw@) == Err::<GValue, GErr>(e@),
        },
{
    if is_bool_key(k) {
        if str_eq(raw, "true") {
            Ok(Value::Bool(true))
        } else if str_eq(raw, "false") {
            Ok(Value::Bool(false))
        } else {
            Err(invalid(k, raw))
        }
    } else if is_float_key(k) {
        let rc = str_to_chars(raw);
        if is_float_literal(&rc) {
            Ok(Value::Float(raw.to_owned()))
        } else {
            Err(invalid(k, raw))
        }
    } else if is_int_key(k) {
        let rc = str_to_chars(raw);
        match parse_i64(&rc) {
            Some(n) => Ok(Value::Int(n)),
            None => Err(invalid(k, raw)),
        }
    } else if str_eq(k, "version") {
        let rc = str_to_chars(raw);
        if contains_char(raw, '.') {
            if is_float_literal(&rc) {
                Ok(Value::Float(raw.to_owned()))
            } else {
                Err(invalid(k, raw))
            }
        } else {
            match parse_i64(&rc) {
                Some(n) => Ok(Value::Int(n)),
                None => Err(invalid(k, raw)),
            }
        }
    } else if is_date_key(k) {
        let rc = str_to_chars(raw);
        let t = if contains_char(raw, ' ') {
            parse_spaced(&rc)
        } else {
            parse_iso(&rc)
        };
        match t {
            Some(ts) => Ok(Value::Ts(ts)),
            None => Err(invalid(k, raw)),
        }
    } else {
        Ok(Value::Str(raw.to_owned()))
    }
}

} // verus!
