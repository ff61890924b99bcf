//! The typed-element-id codec: an element's kind and signed id packed into
//! one 64-bit word — the kind in bits 60–61, the sign in bit 59, and the
//! magnitude in the low 56 bits.

use vstd::prelude::*;

use crate::chars::is_space;
use crate::chars::str_eq;
use crate::chars::str_to_chars;
use crate::num::g_find2;
use crate::num::g_parse_i64;
use crate::num::find2;
use crate::num::parse_i64;

verus! {

pub const NODE_TYPE_NUM: u64 = 0;

pub const WAY_TYPE_NUM: u64 = 1;

pub const RELATION_TYPE_NUM: u64 = 2;

/// The magnitude mask: 56 low bits.
pub const ID_MASK: u64 = 0x00ff_ffff_ffff_ffff;

/// The sign bit.
pub const SIGN_MASK: u64 = 0x0800_0000_0000_0000;

/// What can go wrong around typed element ids.
#[derive(Debug, Clone, PartialEq, Eq)]
pub enum ElemIdError {
    UnsupportedType,
    EmptyType,
    IdOutOfRange,
    InvalidReference,
    ZeroId,
    NonPositiveVersion,
}

/// The kind number packed in a typed id.
pub open spec fn g_type_num_of(typed_id: u64) -> u64 {
    (typed_id >> 60) & 0b11
}

/// The signed element id packed in a typed id.
pub open spec fn g_element_id_of(typed_id: u64) -> int {
    if typed_id & SIGN_MASK != 0 {
        -((typed_id & ID_MASK) as int)
    } else {
        (typed_id & ID_MASK) as int
    }
}

/// The packed word of a kind number and a signed id.
pub open spec fn g_typed_id(type_num: u64, id: int) -> u64 {
    let abs = if id < 0 {
        (-id) as u64
    } else {
        id as u64
    };
    (if id < 0 {
        abs | SIGN_MASK
    } else {
        abs
    }) | (type_num << 60)
}

/// Extracts the kind number.
pub fn type_num_from_typed_id(typed_id: u64) -> (r: u64)
    ensures
        r == g_type_num_of(typed_id),
        r <= 3,
{
    proof {
        assert((typed_id >> 60) & 0b11 <= 3) by (bit_vector);
    }
    (typed_id >> 60) & 0b11
}

/// Extracts the signed element id.
pub fn element_id_from_typed_id(typed_id: u64) -> (r: i64)
    ensures
        r == g_element_id_of(typed_id),
{
    proof {
        assert(typed_id & 0x00ff_ffff_ffff_ffffu64 <= 0x00ff_ffff_ffff_ffffu64) by (bit_vector);
    }
    let mag = (typed_id & ID_MASK) as i64;
    if typed_id & SIGN_MASK != 0 {
        -mag
    } else {
        mag
    }
}

/// The kind's name, for the three supported kinds.
pub open spec fn g_type_str(type_num: u64) -> Result<Seq<char>, ElemIdError> {
    if type_num == 0 {
        Ok("node"@)
    } else if type_num == 1 {
        Ok("way"@)
    } else if type_num == 2 {
        Ok("relation"@)
    } else {
        Err(ElemIdError::UnsupportedType)
    }
}

/// Names a kind number.
pub fn type_str_from_num(type_num: u64) -> (r: Result<String, ElemIdError>)
    ensures
        match r {
            Ok(s) => g_type_str(type_num) == Ok::<Seq<char>, ElemIdError>(s@),
            Err(e) => g_type_str(type_num) == Err::<Seq<char>, ElemIdError>(e),
        },
{
    if type_num == 0 {
        Ok("node".to_owned())
    } else if type_num == 1 {
        Ok("way".to_owned())
    } else if type_num == 2 {
        Ok("relation".to_owned())
    } else {
        Err(ElemIdError::UnsupportedType)
    }
}

/// The kind number of a kind's name.
pub open spec fn g_type_num(s: Seq<char>) -> Result<u64, ElemIdError> {
    if s == "node"@ {
        Ok(0u64)
    } else if s == "way"@ {
        Ok(1u64)
    } else if s == "relation"@ {
        Ok(2u64)
    } else if s.len() == 0 {
        Err(ElemIdError::EmptyType)
    } else {
        Err(ElemIdError::UnsupportedType)
    }
}

/// Numbers a kind's name.
pub fn type_num_from_str(s: &str) -> (r: Result<u64, ElemIdError>)
    ensures
        r == g_type_num(s@),
{
    if str_eq(s, "node") {
        Ok(0)
    } else if str_eq(s, "way") {
        Ok(1)
    } else if str_eq(s, "relation") {
        Ok(2)
    } else if s.unicode_len() == 0 {
        Err(ElemIdError::EmptyType)
    } else {
        Err(ElemIdError::UnsupportedType)
    }
}

/// Packs a kind number and a signed id; an id whose magnitude needs more
/// than 56 bits is out of range.
pub fn typed_element_id_impl(type_num: u64, id: i64) -> (r: Result<u64, ElemIdError>)
    requires
        type_num <= 2,
    ensures
        match r {
            Ok(w) => -0x00ff_ffff_ffff_ffff <= id <= 0x00ff_ffff_ffff_ffff && w == g_typed_id(
                type_num,
                id as int,
            ),
            Err(e) => e == ElemIdError::IdOutOfRange && !(-0x00ff_ffff_ffff_ffff <= id
                <= 0x00ff_ffff_ffff_ffff),
        },
{
    let wide = id as i128;
    let abs: u64 = if wide < 0 {
        (-wide) as u64
    } else {
        wide as u64
    };
    if abs > ID_MASK {
        return Err(ElemIdError::IdOutOfRange);
    }
    let signed = if id < 0 {
        abs | SIGN_MASK
    } else {
        abs
    };
    Ok(signed | (type_num << 60))
}

/// Packing then unpacking restores the kind and the id.
pub proof fn lemma_typed_id_roundtrip(type_num: u64, id: i64)
    requires
        type_num <= 2,
        -0x00ff_ffff_ffff_ffff <= id <= 0x00ff_ffff_ffff_ffff,
    ensures
        g_type_num_of(g_typed_id(type_num, id as int)) == type_num,
        g_element_id_of(g_typed_id(type_num, id as int)) == id,
{
    let abs: u64 = if id < 0 {
        (-(id as int)) as u64
    } else {
        id as u64
    };
    let w = g_typed_id(type_num, id as int);
    assert(abs <= 0x00ff_ffff_ffff_ffffu64);
    if id < 0 {
        let b: u64 = abs | 0x0800_0000_0000_0000u64;
        assert(w == b | (type_num << 60));
        assert((((b | (type_num << 60)) >> 60) & 0b11 == type_num) && ((b | (type_num << 60))
            & 0x0800_0000_0000_0000u64 != 0) && ((b | (type_num << 60)) & 0x00ff_ffff_ffff_ffffu64
            == abs)) by (bit_vector)
            requires
                type_num <= 2,
                abs <= 0x00ff_ffff_ffff_ffffu64,
                b == abs | 0x0800_0000_0000_0000u64,
        ;
        assert(g_element_id_of(w) == -(abs as int));
        assert(-(abs as int) == id);
    } else {
        assert(w == abs | (type_num << 60));
        assert((((abs | (type_num << 60)) >> 60) & 0b11 == type_num) && ((abs | (type_num << 60))
            & 0x0800_0000_0000_0000u64 == 0) && ((abs | (type_num << 60))
            & 0x00ff_ffff_ffff_ffffu64 == abs)) by (bit_vector)
            requires
                type_num <= 2,
                abs <= 0x00ff_ffff_ffff_ffffu64,
        ;
        assert(g_element_id_of(w) == abs as int);
    }
}

/// Packs a kind's name and a signed id.
pub fn typed_element_id(type_s: &str, id: i64) -> (r: Result<u64, ElemIdError>)
    ensures
        match r {
            Ok(w) => g_type_num(type_s@) matches Ok(t) && -0x00ff_ffff_ffff_ffff <= id
                <= 0x00ff_ffff_ffff_ffff && w == g_typed_id(t, id as int),
            Err(e) => g_type_num(type_s@) == Err::<u64, ElemIdError>(e) || (g_type_num(type_s@)
                is Ok && e == ElemIdError::IdOutOfRange && !(-0x00ff_ffff_ffff_ffff <= id
                <= 0x00ff_ffff_ffff_ffff)),
        },
{
    match type_num_from_str(type_s) {
        Err(e) => Err(e),
        Ok(t) => typed_element_id_impl(t, id),
    }
}

/// Unpacks a word into the kind's name and the signed id; only the three
/// known kinds have names.
pub fn split_typed_element_id(id: i64) -> (r: Result<(String, i64), ElemIdError>)
    ensures
        match r {
            Ok(p) => g_type_str(g_type_num_of(id as u64)) == Ok::<Seq<char>, ElemIdError>(p.0@)
                && p.1 == g_element_id_of(id as u64),
            Err(e) => g_type_str(g_type_num_of(id as u64)) == Err::<Seq<char>, ElemIdError>(e),
        },
{
    let typed_id = id as u64;
    let element_id = element_id_from_typed_id(typed_id);
    let type_num = type_num_from_typed_id(typed_id);
    match type_str_from_num(type_num) {
        Err(e) => Err(e),
        Ok(s) => Ok((s, element_id)),
    }
}

/// Unpacks a whole list, stopping at the first failure.
pub fn split_typed_element_ids(ids: &Vec<i64>) -> (r: Result<Vec<(String, i64)>, ElemIdError>)
    ensures
        match r {
            Ok(out) => out@.len() == ids@.len() && forall|i: int|
                0 <= i < ids@.len() ==> g_type_str(g_type_num_of(#[trigger] ids@[i] as u64))
                    == Ok::<Seq<char>, ElemIdError>(out@[i].0@) && out@[i].1 == g_element_id_of(
                    ids@[i] as u64,
                ),
            Err(e) => exists|i: int|
                0 <= i < ids@.len() && g_type_str(g_type_num_of(#[trigger] ids@[i] as u64))
                    == Err::<Seq<char>, ElemIdError>(e),
        },
{
    let n = ids.len();
    let mut out: Vec<(String, i64)> = Vec::new();
    let mut i: usize = 0;
    while i < n
        invariant
            0 <= i <= n,
            n == ids@.len(),
            out@.len() == i,
            forall|j: int|
                0 <= j < i ==> g_type_str(g_type_num_of(#[trigger] ids@[j] as u64)) == Ok::<
                    Seq<char>,
                    ElemIdError,
                >(out@[j].0@) && out@[j].1 == g_element_id_of(ids@[j] as u64),
        decreases n - i,
    {
        match split_typed_element_id(ids[i]) {
            Err(e) => {
                return Err(e);
            },
            Ok(p) => out.push(p),
        }
        i = i + 1;
    }
    Ok(out)
}

/// White space trimmed from both ends, as `str::trim` does it.
pub open spec fn g_trim(s: Seq<char>) -> Seq<char>
    decreases s.len(),
{
    if s.len() == 0 {
        s
    } else if crate::chars::spec_is_space(s[0]) {
        g_trim(s.skip(1))
    } else if crate::chars::spec_is_space(s.last()) {
        g_trim(s.drop_last())
    } else {
        s
    }
}

/// Trims white space from both ends of a character list.
fn trim_chars(s: Vec<char>) -> (r: Vec<char>)
    ensures
        r@ == g_trim(s@),
    decreases s@.len(),
{
    if s.len() == 0 {
        return s;
    }
    if is_space(s[0]) {
        let ghost s0 = s@;
        let mut t = s;
        t.remove(0);
        proof {
            assert(t@ =~= s0.skip(1));
        }
        return trim_chars(t);
    }
    if is_space(s[s.len() - 1]) {
        let mut t = s;
        t.pop();
        return trim_chars(t);
    }
    s
}

/// What a versioned element reference `<id>v<version>` means: the reference
/// is trimmed, split at its first `v`, and both halves must parse as 64-bit
/// integers; the id must be non-zero and in packing range, the version
/// positive, and the kind one of the three known names.
pub open spec fn g_versioned(type_s: Seq<char>, s: Seq<char>) -> Result<(u64, i64), ElemIdError> {
    let t = g_trim(s);
    if t.len() == 0 {
        Err(ElemIdError::InvalidReference)
    } else {
        match g_find2(t, 0, t.len() as int, 'v', 'v') {
            None => Err(ElemIdError::InvalidReference),
            Some(vi) => match g_parse_i64(t.take(vi)) {
                None => Err(ElemIdError::InvalidReference),
                Some(id) => if id == 0 {
                    Err(ElemIdError::ZeroId)
                } else {
                    match g_parse_i64(t.skip(vi + 1)) {
                        None => Err(ElemIdError::InvalidReference),
                        Some(ver) => if ver <= 0 {
                            Err(ElemIdError::NonPositiveVersion)
                        } else {
                            match g_type_num(type_s) {
                                Err(e) => Err(e),
                                Ok(tn) => if !(-0x00ff_ffff_ffff_ffff <= id
                                    <= 0x00ff_ffff_ffff_ffff) {
                                    Err(ElemIdError::IdOutOfRange)
                                } else {
                                    Ok((g_typed_id(tn, id as int), ver))
                                },
                            }
                        },
                    }
                },
            },
        }
    }
}

/// A versioned element reference, by `g_versioned`.
pub fn versioned_typed_element_id(type_s: &str, s: &str) -> (r: Result<(u64, i64), ElemIdError>)
    ensures
        r == g_versioned(type_s@, s@),
{
    let cs = str_to_chars(s);
    let t = trim_chars(cs);
    if t.len() == 0 {
        return Err(ElemIdError::InvalidReference);
    }
    match find2(&t, 0, t.len(), 'v', 'v') {
        None => Err(ElemIdError::InvalidReference),
        Some(vi) => {
            let ghost gt = t@;
            let mut id_part: Vec<char> = Vec::new();
            let mut k: usize = 0;
            while k < vi
                invariant
                    0 <= k <= vi < gt.len(),
                    t@ == gt,
                    id_part@ =~= gt.take(vi as int).take(k as int),
                decreases vi - k,
            {
                id_part.push(t[k]);
                k = k + 1;
            }
            proof {
                assert(id_part@ =~= gt.take(vi as int));
            }
            let mut ver_part: Vec<char> = Vec::new();
            let n = t.len();
            let mut k2: usize = vi + 1;
            while k2 < n
                invariant
                    vi + 1 <= k2 <= n,
                    n == gt.len(),
                    t@ == gt,
                    ver_part@ =~= gt.skip(vi + 1).take(k2 - vi - 1),
                decreases n - k2,
            {
                proof {
                    assert(gt.skip(vi + 1)[k2 - vi - 1] == gt[k2 as int]);
                    assert(gt.skip(vi + 1).take(k2 - vi) =~= gt.skip(vi + 1).take(
                        k2 - vi - 1,
                    ).push(gt[k2 as int]));
                }
                ver_part.push(t[k2]);
                k2 = k2 + 1;
            }
            proof {
                assert(ver_part@ =~= gt.skip(vi + 1));
            }
            let id = match parse_i64(&id_part) {
                None => {
                    return Err(ElemIdError::InvalidReference);
                },
                Some(v) => v,
            };
            if id == 0 {
                return Err(ElemIdError::ZeroId);
            }
            let version = match parse_i64(&ver_part) {
                None => {
                    return Err(ElemIdError::InvalidReference);
                },
                Some(v) => v,
            };
            if version <= 0 {
                return Err(ElemIdError::NonPositiveVersion);
            }
            let tn = match type_num_from_str(type_s) {
                Err(e) => {
                    return Err(e);
                },
                Ok(tn) => tn,
            };
            match typed_element_id_impl(tn, id) {
                Err(e) => Err(e),
                Ok(w) => Ok((w, version)),
            }
        },
    }
}

} // verus!
