//! The serializer: a structured value becomes XML text, inverting the parse
//! builder's decisions.
//!
//! A mapping serializes one element: `@`-prefixed keys become attributes,
//! `#text` becomes inline character data, every other key a nested element.
//! A sequence serializes its pair entries as one aggregated element standing
//! where the first pair stood, and each bare entry as a sibling element of
//! the same name. Raw (CDATA) values pass through unescaped.

use vstd::prelude::*;

use crate::chars::str_to_chars;
use crate::chars::chars_to_string;
use crate::dates::g_ts_str;
use crate::dates::push_ts_chars;
use crate::err::GErr;
use crate::err::XmlError;
use crate::escape::escape_chars;
use crate::escape::g_escape;
use crate::num::g_i64_str;
use crate::num::i64_chars;
use crate::value::Entry;
use crate::value::GEntry;
use crate::value::GValue;
use crate::value::Value;
use crate::value::g_of_map;
use crate::value::g_of_value;
use crate::value::g_of_entry;
use crate::value::g_of_entries;
use crate::value::lemma_g_of_map_index;
use crate::value::lemma_g_of_map_len;
use crate::value::lemma_g_of_entries_index;
use crate::value::lemma_g_of_entries_len;

verus! {

/// The scalar text of a value where attribute or inline text is needed:
/// fails on a non-zero zone offset, and on a mapping or sequence.
pub open spec fn g_val_str(v: GValue) -> Result<Seq<char>, GErr> {
    match v {
        GValue::Str(s) => Ok(s),
        GValue::Int(n) => Ok(g_i64_str(n as int)),
        GValue::Float(f) => Ok(f),
        GValue::Bool(b) => Ok(
            if b {
                "true"@
            } else {
                "false"@
            },
        ),
        GValue::Absent => Ok(Seq::empty()),
        GValue::Raw(t) => Ok(t),
        GValue::Ts(t) => if t.is_utc_like() {
            Ok(g_ts_str(t))
        } else {
            Err(GErr::InvalidTimezone)
        },
        GValue::Mapping(_) => Err(GErr::TypeMismatch),
        GValue::List(_) => Err(GErr::TypeMismatch),
    }
}

/// An element around already-serialized parts: self-closing when the inner
/// content is empty.
pub open spec fn g_assemble(name: Seq<char>, attrs: Seq<char>, inner: Seq<char>) -> Seq<char> {
    if inner.len() == 0 {
        "<"@ + name + attrs + "/>"@
    } else {
        "<"@ + name + attrs + ">"@ + inner + "</"@ + name + ">"@
    }
}

/// One element holding a scalar: raw text goes inside `CDATA` unescaped,
/// empty text self-closes, anything else is escaped text content.
pub open spec fn g_scalar_elem(name: Seq<char>, v: GValue) -> Result<Seq<char>, GErr> {
    match v {
        GValue::Raw(t) => Ok("<"@ + name + ">"@ + "<![CDATA["@ + t + "]]>"@ + "</"@ + name + ">"@),
        _ => match g_val_str(v) {
            Err(e) => Err(e),
            Ok(s) => if s.len() == 0 {
                Ok("<"@ + name + "/>"@)
            } else {
                Ok("<"@ + name + ">"@ + g_escape(s, false) + "</"@ + name + ">"@)
            },
        },
    }
}

/// The serialized form of one `(key, value)` pair, split into what it adds
/// to the attribute text and to the inner content.
pub open spec fn g_pair_parts(k: Seq<char>, v: GValue) -> Result<(Seq<char>, Seq<char>), GErr>
    decreases v, 6int, 0int,
{
    if k.len() > 0 && k[0] == '@' {
        match g_val_str(v) {
            Err(e) => Err(e),
            Ok(s) => Ok(
                (" "@ + k.skip(1) + "=\""@ + g_escape(s, true) + "\""@, Seq::empty()),
            ),
        }
    } else if k == "#text"@ {
        match v {
            GValue::Raw(t) => Ok((Seq::empty(), "<![CDATA["@ + t + "]]>"@)),
            _ => match g_val_str(v) {
                Err(e) => Err(e),
                Ok(s) => Ok((Seq::empty(), g_escape(s, false))),
            },
        }
    } else {
        match g_emit_value(k, v, false) {
            Err(e) => Err(e),
            Ok(s) => Ok((Seq::empty(), s)),
        }
    }
}

/// Attribute and inner text accumulated over a mapping's pairs, in order.
pub open spec fn g_pairs_parts(m: Seq<(Seq<char>, GValue)>) -> Result<
    (Seq<char>, Seq<char>),
    GErr,
>
    decreases m, 2int, 0int,
{
    if m.len() == 0 {
        Ok((Seq::empty(), Seq::empty()))
    } else {
        match g_pairs_parts(m.drop_last()) {
            Err(e) => Err(e),
            Ok((a, inn)) => match g_pair_parts(m.last().0, m.last().1) {
                Err(e) => Err(e),
                Ok((a2, inn2)) => Ok((a + a2, inn + inn2)),
            },
        }
    }
}

/// A mapping as one element.
pub open spec fn g_emit_map(name: Seq<char>, m: Seq<(Seq<char>, GValue)>) -> Result<
    Seq<char>,
    GErr,
>
    decreases m, 3int, 0int,
{
    match g_pairs_parts(m) {
        Err(e) => Err(e),
        Ok((a, inn)) => Ok(g_assemble(name, a, inn)),
    }
}

/// Attribute and inner text accumulated over a sequence's pair entries, in
/// order, skipping bare entries.
pub open spec fn g_entry_parts(l: Seq<GEntry>) -> Result<(Seq<char>, Seq<char>), GErr>
    decreases l, 1int, 0int,
{
    if l.len() == 0 {
        Ok((Seq::empty(), Seq::empty()))
    } else {
        match g_entry_parts(l.drop_last()) {
            Err(e) => Err(e),
            Ok((a, inn)) => match l.last() {
                GEntry::Item(_) => Ok((a, inn)),
                GEntry::Pair(k, v) => match g_pair_parts(k, v) {
                    Err(e) => Err(e),
                    Ok((a2, inn2)) => Ok((a + a2, inn + inn2)),
                },
            },
        }
    }
}

/// First position in a sequence holding a pair entry.
pub open spec fn g_first_pair(l: Seq<GEntry>, i: int) -> Option<int>
    decreases l.len() - i,
{
    if i >= l.len() {
        None
    } else if l[i] is Pair {
        Some(i)
    } else {
        g_first_pair(l, i + 1)
    }
}

/// The serialized entries of a sequence from position `i` on: at the first
/// pair's position stands the element aggregating every pair entry; each
/// bare mapping or scalar entry is a sibling element of the same name; a
/// bare sequence entry fails; at the document root a bare entry beside any
/// other entry fails.
pub open spec fn g_emit_entries(
    name: Seq<char>,
    l: Seq<GEntry>,
    i: int,
    is_root: bool,
    fp: Option<int>,
) -> Result<Seq<char>, GErr>
    decreases l, 2int, l.len() - i,
{
    if !(0 <= i < l.len()) {
        Ok(Seq::empty())
    } else {
        let head: Result<Seq<char>, GErr> = if fp == Some(i) {
            match g_entry_parts(l) {
                Err(e) => Err(e),
                Ok((a, inn)) => Ok(g_assemble(name, a, inn)),
            }
        } else {
            match l[i] {
                GEntry::Pair(_, _) => Ok(Seq::empty()),
                GEntry::Item(v) => match v {
                    GValue::Mapping(m) => if is_root && l.len() > 1 {
                        Err(GErr::RootMultiValue)
                    } else {
                        proof {
                            assert(decreases_to!(l => l[i]));
                            assert(decreases_to!(l[i] => v));
                            assert(decreases_to!(v => m));
                        }
                        g_emit_map(name, m)
                    },
                    GValue::List(_) => Err(GErr::NestedSequenceNotAllowed),
                    _ => if is_root && l.len() > 1 {
                        Err(GErr::RootMultiValue)
                    } else {
                        g_scalar_elem(name, v)
                    },
                },
            }
        };
        match head {
            Err(e) => Err(e),
            Ok(h) => match g_emit_entries(name, l, i + 1, is_root, fp) {
                Err(e) => Err(e),
                Ok(rest) => Ok(h + rest),
            },
        }
    }
}

/// A sequence under one name: nothing at all when empty.
pub open spec fn g_emit_list(name: Seq<char>, l: Seq<GEntry>, is_root: bool) -> Result<
    Seq<char>,
    GErr,
>
    decreases l, 3int, 0int,
{
    if l.len() == 0 {
        Ok(Seq::empty())
    } else {
        g_emit_entries(name, l, 0, is_root, g_first_pair(l, 0))
    }
}

/// A value under one name.
pub open spec fn g_emit_value(name: Seq<char>, v: GValue, is_root: bool) -> Result<Seq<char>, GErr>
    decreases v, 5int, 0int,
{
    match v {
        GValue::Mapping(m) => g_emit_map(name, m),
        GValue::List(l) => g_emit_list(name, l, is_root),
        _ => g_scalar_elem(name, v),
    }
}

/// The fixed declaration line.
pub open spec fn g_decl() -> Seq<char> {
    "<?xml version='1.0' encoding='UTF-8'?>\n"@
}

/// The whole serialization: the root must be a mapping with exactly one
/// entry; the declaration line precedes the root element, and a newline
/// follows it when it is non-empty.
pub open spec fn g_unparse(root: GValue) -> Result<Seq<char>, GErr> {
    match root {
        GValue::Mapping(m) => if m.len() == 1 {
            match g_emit_value(m[0].0, m[0].1, true) {
                Err(e) => Err(e),
                Ok(body) => Ok(
                    g_decl() + body + if body.len() > 0 {
                        "\n"@
                    } else {
                        Seq::<char>::empty()
                    },
                ),
            }
        } else {
            Err(GErr::InvalidRoot)
        },
        _ => Err(GErr::InvalidRoot),
    }
}

} // verus!

verus! {

/// Appends every character of `src`.
fn push_all(out: &mut Vec<char>, src: &Vec<char>)
    ensures
        final(out)@ == old(out)@ + src@,
{
    let n = src.len();
    let mut i: usize = 0;
    while i < n
        invariant
            0 <= i <= n,
            n == src@.len(),
            out@ == old(out)@ + src@.take(i as int),
        decreases n - i,
    {
        out.push(src[i]);
        proof {
            assert(old(out)@ + src@.take(i + 1int) =~= (old(out)@ + src@.take(i as int)).push(
                src@[i as int],
            ));
        }
        i = i + 1;
    }
    proof {
        assert(src@.take(n as int) =~= src@);
    }
}

/// Appends every character of a string slice.
fn push_str_chars(out: &mut Vec<char>, s: &str)
    ensures
        final(out)@ == old(out)@ + s@,
{
    let cs = str_to_chars(s);
    push_all(out, &cs);
}

/// The scalar text of a value, as `g_val_str` gives it.
fn val_str(v: &Value) -> (r: Result<String, XmlError>)
    ensures
        match r {
            Ok(s) => g_val_str(v@) == Ok::<Seq<char>, GErr>(s@),
            Err(e) => g_val_str(v@) == Err::<Seq<char>, GErr>(e@),
        },
{
    match v {
        Value::Str(s) => Ok(s.clone()),
        Value::Int(n) => {
            let cs = i64_chars(*n);
            Ok(chars_to_string(&cs))
        },
        Value::Float(f) => Ok(f.clone()),
        Value::Bool(b) => Ok(
            if *b {
                "true".to_owned()
            } else {
                "false".to_owned()
            },
        ),
        Value::Absent => Ok(String::new()),
        Value::Raw(t) => Ok(t.clone()),
        Value::Ts(t) => {
            let utc_like = match t.zone {
                crate::value::Zone::Naive => true,
                crate::value::Zone::Offset(m) => m == 0,
            };
            if utc_like {
                let mut cs: Vec<char> = Vec::new();
                push_ts_chars(&mut cs, t);
                proof {
                    assert(cs@ =~= g_ts_str(*t));
                }
                Ok(chars_to_string(&cs))
            } else {
                Err(XmlError::InvalidTimezone)
            }
        },
        Value::Mapping(_) => Err(XmlError::TypeMismatch),
        Value::List(_) => Err(XmlError::TypeMismatch),
    }
}

/// Wraps already-serialized parts into one element.
fn assemble(name: &str, attrs: &Vec<char>, inner: &Vec<char>) -> (r: Vec<char>)
    ensures
        r@ == g_assemble(name@, attrs@, inner@),
{
    let mut out: Vec<char> = Vec::new();
    push_str_chars(&mut out, "<");
    push_str_chars(&mut out, name);
    push_all(&mut out, attrs);
    if inner.len() == 0 {
        push_str_chars(&mut out, "/>");
        proof {
            assert(out@ =~= g_assemble(name@, attrs@, inner@));
        }
    } else {
        push_str_chars(&mut out, ">");
        push_all(&mut out, inner);
        push_str_chars(&mut out, "</");
        push_str_chars(&mut out, name);
        push_str_chars(&mut out, ">");
        proof {
            assert(out@ =~= g_assemble(name@, attrs@, inner@));
        }
    }
    out
}

/// One element holding a scalar.
fn scalar_elem(name: &str, v: &Value) -> (r: Result<Vec<char>, XmlError>)
    ensures
        match r {
            Ok(s) => g_scalar_elem(name@, v@) == Ok::<Seq<char>, GErr>(s@),
            Err(e) => g_scalar_elem(name@, v@) == Err::<Seq<char>, GErr>(e@),
        },
{
    match v {
        Value::Raw(t) => {
            let mut out: Vec<char> = Vec::new();
            push_str_chars(&mut out, "<");
            push_str_chars(&mut out, name);
            push_str_chars(&mut out, ">");
            push_str_chars(&mut out, "<![CDATA[");
            push_str_chars(&mut out, t.as_str());
            push_str_chars(&mut out, "]]>");
            push_str_chars(&mut out, "</");
            push_str_chars(&mut out, name);
            push_str_chars(&mut out, ">");
            proof {
                assert(out@ =~= "<"@ + name@ + ">"@ + "<![CDATA["@ + t@ + "]]>"@ + "</"@ + name@
                    + ">"@);
            }
            Ok(out)
        },
        _ => {
            match val_str(v) {
                Err(e) => Err(e),
                Ok(s) => {
                    let mut out: Vec<char> = Vec::new();
                    if s.as_str().unicode_len() == 0 {
                        push_str_chars(&mut out, "<");
                        push_str_chars(&mut out, name);
                        push_str_chars(&mut out, "/>");
                        proof {
                            assert(out@ =~= "<"@ + name@ + "/>"@);
                        }
                    } else {
                        let cs = str_to_chars(s.as_str());
                        let esc = escape_chars(&cs, false);
                        push_str_chars(&mut out, "<");
                        push_str_chars(&mut out, name);
                        push_str_chars(&mut out, ">");
                        push_all(&mut out, &esc);
                        push_str_chars(&mut out, "</");
                        push_str_chars(&mut out, name);
                        push_str_chars(&mut out, ">");
                        proof {
                            assert(out@ =~= "<"@ + name@ + ">"@ + g_escape(s@, false) + "</"@
                                + name@ + ">"@);
                        }
                    }
                    Ok(out)
                },
            }
        },
    }
}

/// What one pair adds to an element's attribute text and inner content.
fn pair_parts(k: &str, v: &Value) -> (r: Result<(Vec<char>, Vec<char>), XmlError>)
    ensures
        match r {
            Ok(p) => g_pair_parts(k@, v@) == Ok::<(Seq<char>, Seq<char>), GErr>((p.0@, p.1@)),
            Err(e) => g_pair_parts(k@, v@) == Err::<(Seq<char>, Seq<char>), GErr>(e@),
        },
    decreases v, 6int, 0int,
{
    let n = k.unicode_len();
    if n > 0 && k.get_char(0) == '@' {
        match val_str(v) {
            Err(e) => Err(e),
            Ok(s) => {
                let mut attrs: Vec<char> = Vec::new();
                push_str_chars(&mut attrs, " ");
                let rest = k.substring_char(1, n);
                push_str_chars(&mut attrs, rest);
                push_str_chars(&mut attrs, "=\"");
                let cs = str_to_chars(s.as_str());
                let esc = escape_chars(&cs, true);
                push_all(&mut attrs, &esc);
                push_str_chars(&mut attrs, "\"");
                proof {
                    assert(rest@ =~= k@.skip(1));
                    assert(attrs@ =~= " "@ + k@.skip(1) + "=\""@ + g_escape(s@, true) + "\""@);
                }
                Ok((attrs, Vec::new()))
            },
        }
    } else if crate::chars::str_eq(k, "#text") {
        match v {
            Value::Raw(t) => {
                let mut inner: Vec<char> = Vec::new();
                push_str_chars(&mut inner, "<![CDATA[");
                push_str_chars(&mut inner, t.as_str());
                push_str_chars(&mut inner, "]]>");
                proof {
                    assert(inner@ =~= "<![CDATA["@ + t@ + "]]>"@);
                }
                Ok((Vec::new(), inner))
            },
            _ => match val_str(v) {
                Err(e) => Err(e),
                Ok(s) => {
                    let cs = str_to_chars(s.as_str());
                    let esc = escape_chars(&cs, false);
                    Ok((Vec::new(), esc))
                },
            },
        }
    } else {
        match emit_value(k, v, false) {
            Err(e) => Err(e),
            Ok(s) => Ok((Vec::new(), s)),
        }
    }
}

/// Attribute and inner text of a mapping's pairs, in order.
fn pairs_parts(m: &Vec<(String, Value)>) -> (r: Result<(Vec<char>, Vec<char>), XmlError>)
    ensures
        match r {
            Ok(p) => g_pairs_parts(g_of_map(m@)) == Ok::<(Seq<char>, Seq<char>), GErr>(
                (p.0@, p.1@),
            ),
            Err(e) => g_pairs_parts(g_of_map(m@)) == Err::<(Seq<char>, Seq<char>), GErr>(e@),
        },
    decreases m@, 2int, 0int,
{
    let ghost gm = g_of_map(m@);
    proof {
        lemma_g_of_map_len(m@);
    }
    let mut attrs: Vec<char> = Vec::new();
    let mut inner: Vec<char> = Vec::new();
    let n = m.len();
    proof {
        assert(gm.take(0) =~= Seq::<(Seq<char>, GValue)>::empty());
    }
    let mut i: usize = 0;
    while i < n
        invariant
            0 <= i <= n,
            n == m@.len(),
            gm == g_of_map(m@),
            gm.len() == n,
            g_pairs_parts(gm.take(i as int)) == Ok::<(Seq<char>, Seq<char>), GErr>(
                (attrs@, inner@),
            ),
        decreases n - i,
    {
        proof {
            lemma_g_of_map_index(m@, i as int);
            assert(gm.take(i + 1int).drop_last() =~= gm.take(i as int));
            assert(gm.take(i + 1int).last() == gm[i as int]);
            assert(decreases_to!(m@ => m@[i as int]));
            assert(decreases_to!(m@[i as int] => m@[i as int].1));
        }
        let p = &m[i];
        match pair_parts(p.0.as_str(), &p.1) {
            Err(e) => {
                proof {
                    lemma_pairs_parts_err_persists(gm, i as int, e@);
                }
                return Err(e);
            },
            Ok((a2, inn2)) => {
                push_all(&mut attrs, &a2);
                push_all(&mut inner, &inn2);
            },
        }
        i = i + 1;
    }
    proof {
        assert(gm.take(n as int) =~= gm);
    }
    Ok((attrs, inner))
}

/// Once a prefix of the pairs fails, the whole mapping fails the same way.
proof fn lemma_pairs_parts_err_persists(m: Seq<(Seq<char>, GValue)>, i: int, e: GErr)
    requires
        0 <= i < m.len(),
        ({
            let pre = g_pairs_parts(m.take(i));
            pre is Ok && g_pair_parts(m[i].0, m[i].1) == Err::<(Seq<char>, Seq<char>), GErr>(e)
        }),
    ensures
        g_pairs_parts(m) == Err::<(Seq<char>, Seq<char>), GErr>(e),
    decreases m.len() - i,
{
    assert(m.take(i + 1).drop_last() =~= m.take(i));
    assert(m.take(i + 1).last() == m[i]);
    lemma_pairs_parts_err_from(m, i + 1, e);
}

/// An error at a prefix of the pairs propagates to the whole mapping.
proof fn lemma_pairs_parts_err_from(m: Seq<(Seq<char>, GValue)>, i: int, e: GErr)
    requires
        0 <= i <= m.len(),
        g_pairs_parts(m.take(i)) == Err::<(Seq<char>, Seq<char>), GErr>(e),
    ensures
        g_pairs_parts(m) == Err::<(Seq<char>, Seq<char>), GErr>(e),
    decreases m.len() - i,
{
    if i == m.len() {
        assert(m.take(i) =~= m);
    } else {
        assert(m.take(i + 1).drop_last() =~= m.take(i));
        lemma_pairs_parts_err_from(m, i + 1, e);
    }
}

/// A mapping as one element.
fn emit_map(name: &str, m: &Vec<(String, Value)>) -> (r: Result<Vec<char>, XmlError>)
    ensures
        match r {
            Ok(s) => g_emit_map(name@, g_of_map(m@)) == Ok::<Seq<char>, GErr>(s@),
            Err(e) => g_emit_map(name@, g_of_map(m@)) == Err::<Seq<char>, GErr>(e@),
        },
    decreases m@, 3int, 0int,
{
    match pairs_parts(m) {
        Err(e) => Err(e),
        Ok((a, inn)) => Ok(assemble(name, &a, &inn)),
    }
}

/// A value under one name.
fn emit_value(name: &str, v: &Value, is_root: bool) -> (r: Result<Vec<char>, XmlError>)
    ensures
        match r {
            Ok(s) => g_emit_value(name@, v@, is_root) == Ok::<Seq<char>, GErr>(s@),
            Err(e) => g_emit_value(name@, v@, is_root) == Err::<Seq<char>, GErr>(e@),
        },
    decreases v, 5int, 0int,
{
    match v {
        Value::Mapping(m) => emit_map(name, m),
        Value::List(l) => emit_list(name, l, is_root),
        _ => scalar_elem(name, v),
    }
}

/// Attribute and inner text of a sequence's pair entries, in order.
fn entry_parts(l: &Vec<Entry>) -> (r: Result<(Vec<char>, Vec<char>), XmlError>)
    ensures
        match r {
            Ok(p) => g_entry_parts(g_of_entries(l@)) == Ok::<(Seq<char>, Seq<char>), GErr>(
                (p.0@, p.1@),
            ),
            Err(e) => g_entry_parts(g_of_entries(l@)) == Err::<(Seq<char>, Seq<char>), GErr>(e@),
        },
    decreases l@, 1int, 0int,
{
    let ghost gl = g_of_entries(l@);
    proof {
        lemma_g_of_entries_len(l@);
    }
    let mut attrs: Vec<char> = Vec::new();
    let mut inner: Vec<char> = Vec::new();
    let n = l.len();
    proof {
        assert(gl.take(0) =~= Seq::<GEntry>::empty());
    }
    let mut i: usize = 0;
    while i < n
        invariant
            0 <= i <= n,
            n == l@.len(),
            gl == g_of_entries(l@),
            gl.len() == n,
            g_entry_parts(gl.take(i as int)) == Ok::<(Seq<char>, Seq<char>), GErr>(
                (attrs@, inner@),
            ),
        decreases n - i,
    {
        proof {
            lemma_g_of_entries_index(l@, i as int);
            assert(gl.take(i + 1int).drop_last() =~= gl.take(i as int));
            assert(gl.take(i + 1int).last() == gl[i as int]);
        }
        match &l[i] {
            Entry::Item(_) => {},
            Entry::Pair(k, v) => {
                proof {
                    assert(decreases_to!(l@ => l@[i as int]));
                    assert(decreases_to!(l@[i as int] => *v));
                }
                match pair_parts(k.as_str(), v) {
                    Err(e) => {
                        proof {
                            lemma_entry_parts_err_from(gl, i + 1, e@);
                        }
                        return Err(e);
                    },
                    Ok((a2, inn2)) => {
                        push_all(&mut attrs, &a2);
                        push_all(&mut inner, &inn2);
                    },
                }
            },
        }
        i = i + 1;
    }
    proof {
        assert(gl.take(n as int) =~= gl);
    }
    Ok((attrs, inner))
}

/// An error at a prefix of the entries propagates to the whole sequence.
proof fn lemma_entry_parts_err_from(l: Seq<GEntry>, i: int, e: GErr)
    requires
        0 <= i <= l.len(),
        g_entry_parts(l.take(i)) == Err::<(Seq<char>, Seq<char>), GErr>(e),
    ensures
        g_entry_parts(l) == Err::<(Seq<char>, Seq<char>), GErr>(e),
    decreases l.len() - i,
{
    if i == l.len() {
        assert(l.take(i) =~= l);
    } else {
        assert(l.take(i + 1).drop_last() =~= l.take(i));
        lemma_entry_parts_err_from(l, i + 1, e);
    }
}

/// First position of a pair entry.
fn first_pair(l: &Vec<Entry>) -> (r: Option<usize>)
    ensures
        match r {
            Some(p) => p < l@.len() && g_first_pair(g_of_entries(l@), 0) == Some(p as int),
            None => g_first_pair(g_of_entries(l@), 0) is None,
        },
{
    let ghost gl = g_of_entries(l@);
    proof {
        lemma_g_of_entries_len(l@);
    }
    let n = l.len();
    let mut i: usize = 0;
    while i < n
        invariant
            0 <= i <= n,
            n == l@.len(),
            gl == g_of_entries(l@),
            gl.len() == n,
            g_first_pair(gl, 0) == g_first_pair(gl, i as int),
        decreases n - i,
    {
        proof {
            lemma_g_of_entries_index(l@, i as int);
        }
        let hit = match &l[i] {
            Entry::Pair(_, _) => true,
            Entry::Item(_) => false,
        };
        if hit {
            return Some(i);
        }
        i = i + 1;
    }
    None
}

/// A sequence under one name.
fn emit_list(name: &str, l: &Vec<Entry>, is_root: bool) -> (r: Result<Vec<char>, XmlError>)
    ensures
        match r {
            Ok(s) => g_emit_list(name@, g_of_entries(l@), is_root) == Ok::<Seq<char>, GErr>(s@),
            Err(e) => g_emit_list(name@, g_of_entries(l@), is_root) == Err::<Seq<char>, GErr>(e@),
        },
    decreases l@, 3int, 0int,
{
    let ghost gl = g_of_entries(l@);
    proof {
        lemma_g_of_entries_len(l@);
    }
    let n = l.len();
    if n == 0 {
        return Ok(Vec::new());
    }
    let fp = first_pair(l);
    let ghost gfp = g_first_pair(gl, 0);
    let mut out: Vec<char> = Vec::new();
    let mut i: usize = 0;
    while i < n
        invariant
            0 <= i <= n,
            n == l@.len(),
            n > 0,
            gl == g_of_entries(l@),
            gl.len() == n,
            gfp == g_first_pair(gl, 0),
            match fp {
                Some(p) => p < n && gfp == Some(p as int),
                None => gfp is None,
            },
            match g_emit_entries(name@, gl, i as int, is_root, gfp) {
                Ok(rest) => g_emit_entries(name@, gl, 0, is_root, gfp) == Ok::<Seq<char>, GErr>(
                    out@ + rest,
                ),
                Err(e) => g_emit_entries(name@, gl, 0, is_root, gfp) == Err::<Seq<char>, GErr>(
                    e,
                ),
            },
        decreases n - i,
    {
        proof {
            lemma_g_of_entries_index(l@, i as int);
        }
        let at_fp = match fp {
            Some(p) => p == i,
            None => false,
        };
        let head: Vec<char> = if at_fp {
            match entry_parts(l) {
                Err(e) => {
                    return Err(e);
                },
                Ok((a, inn)) => assemble(name, &a, &inn),
            }
        } else {
            match &l[i] {
                Entry::Pair(_, _) => Vec::new(),
                Entry::Item(v) => {
                    proof {
                        assert(decreases_to!(l@ => l@[i as int]));
                        assert(decreases_to!(l@[i as int] => *v));
                    }
                    match v {
                        Value::Mapping(m) => {
                            if is_root && n > 1 {
                                return Err(XmlError::RootMultiValue);
                            }
                            proof {
                                assert(decreases_to!(*v => *m));
                            }
                            match emit_map(name, m) {
                                Err(e) => {
                                    return Err(e);
                                },
                                Ok(h) => h,
                            }
                        },
                        Value::List(_) => {
                            return Err(XmlError::NestedSequenceNotAllowed);
                        },
                        _ => {
                            if is_root && n > 1 {
                                return Err(XmlError::RootMultiValue);
                            }
                            match scalar_elem(name, v) {
                                Err(e) => {
                                    return Err(e);
                                },
                                Ok(h) => h,
                            }
                        },
                    }
                },
            }
        };
        let ghost out0 = out@;
        push_all(&mut out, &head);
        proof {
            let ge_n = g_emit_entries(name@, gl, i + 1int, is_root, gfp);
            if ge_n is Ok {
                assert(out0 + (head@ + ge_n->Ok_0) =~= (out0 + head@) + ge_n->Ok_0);
            }
        }
        i = i + 1;
    }
    proof {
        assert(out@ + Seq::<char>::empty() =~= out@);
    }
    Ok(out)
}

/// Serializes a document: the root must be a mapping with exactly one entry.
/// The output starts with the fixed declaration line and ends with a newline
/// when the root element is non-empty.
pub fn xml_unparse(root: &Value) -> (r: Result<String, XmlError>)
    ensures
        match r {
            Ok(s) => g_unparse(root@) == Ok::<Seq<char>, GErr>(s@),
            Err(e) => g_unparse(root@) == Err::<Seq<char>, GErr>(e@),
        },
{
    match root {
        Value::Mapping(m) => {
            proof {
                lemma_g_of_map_len(m@);
            }
            if m.len() == 1 {
                proof {
                    lemma_g_of_map_index(m@, 0);
                }
                let p = &m[0];
                match emit_value(p.0.as_str(), &p.1, true) {
                    Err(e) => Err(e),
                    Ok(body) => {
                        let mut out: Vec<char> = Vec::new();
                        push_str_chars(&mut out, "<?xml version='1.0' encoding='UTF-8'?>\n");
                        push_all(&mut out, &body);
                        if body.len() > 0 {
                            out.push('\n');
                            proof {
                                reveal_strlit("\n");
                                assert(out@ =~= g_decl() + body@ + "\n"@);
                            }
                        } else {
                            proof {
                                assert(out@ =~= g_decl() + body@ + Seq::<char>::empty());
                            }
                        }
                        Ok(chars_to_string(&out))
                    },
                }
            } else {
                Err(XmlError::InvalidRoot)
            }
        },
        _ => Err(XmlError::InvalidRoot),
    }
}

} // verus!
