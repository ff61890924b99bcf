//! Verified numeric text handling: parsing 64-bit signed integers with the
//! grammar of `i64::from_str`, printing integers in decimal, zero-padded
//! fields, and recognising the literal grammar of `f64::from_str`.

use vstd::prelude::*;

use crate::spec_is_digit;
use crate::spec_digit_val;
use crate::is_digit;

verus! {

/// Every character in the window `[lo, hi)` is an ASCII digit.
pub open spec fn g_digits_in(s: Seq<char>, lo: int, hi: int) -> bool {
    forall|i: int| lo <= i < hi ==> spec_is_digit(s[i])
}

/// Numeric value of a digit string.
pub open spec fn g_digits_val(s: Seq<char>) -> int
    decreases s.len(),
{
    if s.len() == 0 {
        0
    } else {
        g_digits_val(s.drop_last()) * 10 + spec_digit_val(s.last())
    }
}

/// What `i64::from_str` accepts and returns: an optional sign, then one or
/// more ASCII digits, valued within the `i64` range.
pub open spec fn g_parse_i64(s: Seq<char>) -> Option<i64> {
    let neg = s.len() > 0 && s[0] == '-';
    let ds = if s.len() > 0 && (s[0] == '+' || s[0] == '-') {
        s.skip(1)
    } else {
        s
    };
    if ds.len() > 0 && g_digits_in(ds, 0, ds.len() as int) {
        let v = if neg {
            -g_digits_val(ds)
        } else {
            g_digits_val(ds)
        };
        if i64::MIN <= v <= i64::MAX {
            Some(v as i64)
        } else {
            None
        }
    } else {
        None
    }
}

proof fn lemma_digits_val_nonneg(s: Seq<char>)
    requires
        g_digits_in(s, 0, s.len() as int),
    ensures
        g_digits_val(s) >= 0,
    decreases s.len(),
{
    if s.len() > 0 {
        assert(g_digits_in(s.drop_last(), 0, s.drop_last().len() as int));
        lemma_digits_val_nonneg(s.drop_last());
    }
}

fn digit_val(c: char) -> (r: u8)
    requires
        spec_is_digit(c),
    ensures
        r == spec_digit_val(c),
{
    (c as u8) - 48
}

/// Parses text as `i64::from_str` does: `None` where that parse fails,
/// whether on a stray character or on overflow.
pub fn parse_i64(s: &Vec<char>) -> (r: Option<i64>)
    ensures
        r == g_parse_i64(s@),
{
    let n = s.len();
    let has_sign = n > 0 && (s[0] == '+' || s[0] == '-');
    let neg = n > 0 && s[0] == '-';
    let start: usize = if has_sign {
        1
    } else {
        0
    };
    let ghost ds = if has_sign {
        s@.skip(1)
    } else {
        s@
    };
    if n == start {
        return None;
    }
    // 0x8000_0000_0000_0000 is the magnitude of i64::MIN.
    let cap: u128 = 0x8000_0000_0000_0000;
    let mut mag: u128 = 0;
    let mut i: usize = start;
    while i < n
        invariant
            start <= i <= n,
            n == s@.len(),
            n > start,
            has_sign == (s@.len() > 0 && (s@[0] == '+' || s@[0] == '-')),
            start == if has_sign { 1int } else { 0int },
            ds == if has_sign { s@.skip(1) } else { s@ },
            cap == 0x8000_0000_0000_0000u128,
            g_digits_in(ds, 0, i - start),
            mag <= cap ==> mag == g_digits_val(ds.take(i - start)),
            mag > cap ==> g_digits_val(ds.take(i - start)) > cap,
            mag <= cap * 10 + 9,
        decreases n - i,
    {
        let c = s[i];
        if !is_digit(c) {
            proof {
                let j = i - start;
                assert(0 <= j < ds.len());
                assert(ds[j] == s@[i as int]);
                assert(!spec_is_digit(ds[j]));
                assert(!g_digits_in(ds, 0, ds.len() as int));
            }
            return None;
        }
        let d = digit_val(c);
        proof {
            assert(ds.take(i - start + 1).drop_last() =~= ds.take(i - start));
            assert(ds.take(i - start + 1).last() == ds[i - start]);
            assert(ds[i - start] == s@[i as int]);
        }
        if mag <= cap {
            mag = mag * 10 + (d as u128);
        } else {
            proof {
                let prev = g_digits_val(ds.take(i - start));
                assert(g_digits_val(ds.take(i - start + 1)) == prev * 10 + spec_digit_val(
                    ds[i - start],
                ));
                assert(prev * 10 >= prev) by (nonlinear_arith)
                    requires
                        prev > 0,
                ;
            }
        }
        i = i + 1;
    }
    proof {
        assert(ds.take(n - start) =~= ds);
        assert(g_digits_in(ds, 0, ds.len() as int));
        lemma_digits_val_nonneg(ds);
    }
    if neg {
        if mag > cap {
            return None;
        }
        if mag == cap {
            return Some(i64::MIN);
        }
        Some(-(mag as i64))
    } else {
        if mag >= cap {
            return None;
        }
        Some(mag as i64)
    }
}

/// Decimal digits of a non-negative integer, no sign, no padding.
pub open spec fn g_u_digits(n: int) -> Seq<char>
    decreases n,
{
    if n < 0 {
        Seq::empty()
    } else if n < 10 {
        seq![g_digit_char(n)]
    } else {
        g_u_digits(n / 10) + seq![g_digit_char(n % 10)]
    }
}

/// The character of one decimal digit.
pub open spec fn g_digit_char(d: int) -> char {
    if d == 0 {
        '0'
    } else if d == 1 {
        '1'
    } else if d == 2 {
        '2'
    } else if d == 3 {
        '3'
    } else if d == 4 {
        '4'
    } else if d == 5 {
        '5'
    } else if d == 6 {
        '6'
    } else if d == 7 {
        '7'
    } else if d == 8 {
        '8'
    } else {
        '9'
    }
}

/// Decimal text of a signed integer, with `-` for negative values.
pub open spec fn g_i64_str(n: int) -> Seq<char> {
    if n < 0 {
        seq!['-'] + g_u_digits(-n)
    } else {
        g_u_digits(n)
    }
}

fn digit_char(d: u64) -> (r: char)
    requires
        d < 10,
    ensures
        r == g_digit_char(d as int),
{
    match d {
        0 => '0',
        1 => '1',
        2 => '2',
        3 => '3',
        4 => '4',
        5 => '5',
        6 => '6',
        7 => '7',
        8 => '8',
        _ => '9',
    }
}

/// Decimal digits of a `u64`.
pub fn u64_digits(n: u64) -> (r: Vec<char>)
    ensures
        r@ == g_u_digits(n as int),
    decreases n,
{
    if n < 10 {
        let mut out: Vec<char> = Vec::new();
        out.push(digit_char(n));
        proof {
            assert(out@ =~= g_u_digits(n as int));
        }
        out
    } else {
        let mut out = u64_digits(n / 10);
        out.push(digit_char(n % 10));
        proof {
            assert(out@ =~= g_u_digits(n as int));
        }
        out
    }
}

/// Decimal text of an `i64`.
pub fn i64_chars(n: i64) -> (r: Vec<char>)
    ensures
        r@ == g_i64_str(n as int),
{
    if n >= 0 {
        u64_digits(n as u64)
    } else {
        // The magnitude of i64::MIN does not fit in i64; widen first.
        let m = n as i128;
        let mag = (-m) as u64;
        let ds = u64_digits(mag);
        let mut out: Vec<char> = Vec::new();
        out.push('-');
        let mut i: usize = 0;
        let k = ds.len();
        while i < k
            invariant
                0 <= i <= k,
                k == ds@.len(),
                out@ == seq!['-'] + ds@.take(i as int),
            decreases k - i,
        {
            out.push(ds[i]);
            proof {
                assert(seq!['-'] + ds@.take(i + 1int) =~= (seq!['-'] + ds@.take(i as int)).push(
                    ds@[i as int],
                ));
            }
            i = i + 1;
        }
        proof {
            assert(ds@.take(k as int) =~= ds@);
        }
        out
    }
}

/// Decimal text of a non-negative integer, left-padded with zeros to at
/// least `w` characters.
pub open spec fn g_padded(n: int, w: int) -> Seq<char> {
    let d = g_u_digits(n);
    if d.len() >= w {
        d
    } else {
        Seq::new((w - d.len()) as nat, |i: int| '0') + d
    }
}

/// Appends the zero-padded decimal text of `n` to `out`.
pub fn push_padded(out: &mut Vec<char>, n: u64, w: usize)
    ensures
        final(out)@ == old(out)@ + g_padded(n as int, w as int),
{
    let ds = u64_digits(n);
    let ghost base = out@;
    let k = ds.len();
    let mut pad: usize = 0;
    let ghost padn = if k >= w {
        0int
    } else {
        w - k
    };
    while pad + k < w
        invariant
            out@ == base + Seq::new(pad as nat, |i: int| '0'),
            k == ds@.len(),
            padn == if k >= w { 0int } else { w - k },
            pad <= padn,
        decreases w - pad - k,
    {
        out.push('0');
        proof {
            assert(base + Seq::new((pad + 1) as nat, |i: int| '0') =~= (base + Seq::new(
                pad as nat,
                |i: int| '0',
            )).push('0'));
        }
        pad = pad + 1;
    }
    proof {
        assert(pad == padn);
    }
    let mut i: usize = 0;
    while i < k
        invariant
            0 <= i <= k,
            k == ds@.len(),
            out@ == base + Seq::new(padn as nat, |j: int| '0') + ds@.take(i as int),
        decreases k - i,
    {
        out.push(ds[i]);
        proof {
            assert(base + Seq::new(padn as nat, |j: int| '0') + ds@.take(i + 1int) =~= (base
                + Seq::new(padn as nat, |j: int| '0') + ds@.take(i as int)).push(ds@[i as int]));
        }
        i = i + 1;
    }
    proof {
        assert(ds@.take(k as int) =~= ds@);
        if k >= w {
            assert(Seq::new(padn as nat, |j: int| '0') =~= Seq::<char>::empty());
            assert(out@ =~= base + g_padded(n as int, w as int));
        } else {
            assert(out@ =~= base + g_padded(n as int, w as int));
        }
    }
}

} // verus!

verus! {

/// Case-insensitive match of one character against a lower-case letter.
pub open spec fn g_char_ci(c: char, l: char) -> bool {
    c == l || (l == 'i' && c == 'I') || (l == 'n' && c == 'N') || (l == 'f' && c == 'F') || (l
        == 't' && c == 'T') || (l == 'y' && c == 'Y') || (l == 'a' && c == 'A')
}

/// The window `[lo, hi)` spells the lower-case word `w`, ignoring case.
pub open spec fn g_word_ci(s: Seq<char>, lo: int, hi: int, w: Seq<char>) -> bool {
    hi - lo == w.len() && (forall|i: int| 0 <= i < w.len() ==> g_char_ci(s[lo + i], w[i]))
}

/// First position in `[lo, hi)` holding `t1` or `t2`.
pub open spec fn g_find2(s: Seq<char>, lo: int, hi: int, t1: char, t2: char) -> Option<int>
    decreases hi - lo,
{
    if lo >= hi {
        None
    } else if s[lo] == t1 || s[lo] == t2 {
        Some(lo)
    } else {
        g_find2(s, lo + 1, hi, t1, t2)
    }
}

/// Exponent part of a float literal: optional sign, then one or more digits.
pub open spec fn g_float_exp(s: Seq<char>, lo: int, hi: int) -> bool {
    let b = if lo < hi && (s[lo] == '+' || s[lo] == '-') {
        lo + 1
    } else {
        lo
    };
    hi - b > 0 && g_digits_in(s, b, hi)
}

/// Mantissa of a float literal: digits with at most one point and at least
/// one digit overall.
pub open spec fn g_float_mant(s: Seq<char>, lo: int, hi: int) -> bool {
    match g_find2(s, lo, hi, '.', '.') {
        Option::None => hi - lo > 0 && g_digits_in(s, lo, hi),
        Option::Some(d) => hi - lo > 1 && g_digits_in(s, lo, d) && g_digits_in(s, d + 1, hi),
    }
}

/// The grammar that `f64::from_str` accepts: optional sign, then `inf`,
/// `infinity` or `nan` (ignoring case), or a mantissa with an optional
/// exponent. Parsing a literal of this shape never fails; magnitudes beyond
/// the finite range round to an infinity.
pub open spec fn g_is_float(s: Seq<char>) -> bool {
    let b = if s.len() > 0 && (s[0] == '+' || s[0] == '-') {
        1int
    } else {
        0int
    };
    let hi = s.len() as int;
    ||| g_word_ci(s, b, hi, seq!['i', 'n', 'f'])
    ||| g_word_ci(s, b, hi, seq!['i', 'n', 'f', 'i', 'n', 'i', 't', 'y'])
    ||| g_word_ci(s, b, hi, seq!['n', 'a', 'n'])
    ||| match g_find2(s, b, hi, 'e', 'E') {
        Option::None => g_float_mant(s, b, hi),
        Option::Some(e) => g_float_mant(s, b, e) && g_float_exp(s, e + 1, hi),
    }
}

fn char_ci(c: char, l: char) -> (r: bool)
    ensures
        r == g_char_ci(c, l),
{
    c == l || (l == 'i' && c == 'I') || (l == 'n' && c == 'N') || (l == 'f' && c == 'F') || (l
        == 't' && c == 'T') || (l == 'y' && c == 'Y') || (l == 'a' && c == 'A')
}

fn word_ci(s: &Vec<char>, lo: usize, hi: usize, w: &[char]) -> (r: bool)
    requires
        lo <= hi <= s@.len(),
    ensures
        r == g_word_ci(s@, lo as int, hi as int, w@),
{
    let k = w.len();
    if hi - lo != k {
        return false;
    }
    let mut i: usize = 0;
    while i < k
        invariant
            0 <= i <= k,
            k == w@.len(),
            lo + k == hi <= s@.len(),
            forall|j: int| 0 <= j < i ==> g_char_ci(s@[lo + j], w@[j]),
        decreases k - i,
    {
        if !char_ci(s[lo + i], w[i]) {
            return false;
        }
        i = i + 1;
    }
    true
}

pub fn find2(s: &Vec<char>, lo: usize, hi: usize, t1: char, t2: char) -> (r: Option<usize>)
    requires
        lo <= hi <= s@.len(),
    ensures
        match r {
            Option::Some(p) => lo <= p < hi && g_find2(s@, lo as int, hi as int, t1, t2)
                == Option::Some(p as int),
            Option::None => g_find2(s@, lo as int, hi as int, t1, t2) is None,
        },
{
    let mut i: usize = lo;
    while i < hi
        invariant
            lo <= i <= hi <= s@.len(),
            g_find2(s@, lo as int, hi as int, t1, t2) == g_find2(s@, i as int, hi as int, t1, t2),
        decreases hi - i,
    {
        if s[i] == t1 || s[i] == t2 {
            return Some(i);
        }
        i = i + 1;
    }
    None
}

pub fn digits_in(s: &Vec<char>, lo: usize, hi: usize) -> (r: bool)
    requires
        lo <= hi <= s@.len(),
    ensures
        r == g_digits_in(s@, lo as int, hi as int),
{
    let mut i: usize = lo;
    while i < hi
        invariant
            lo <= i <= hi <= s@.len(),
            forall|j: int| lo <= j < i ==> spec_is_digit(s@[j]),
        decreases hi - i,
    {
        if !is_digit(s[i]) {
            return false;
        }
        i = i + 1;
    }
    true
}

fn float_mant(s: &Vec<char>, lo: usize, hi: usize) -> (r: bool)
    requires
        lo <= hi <= s@.len(),
    ensures
        r == g_float_mant(s@, lo as int, hi as int),
{
    match find2(s, lo, hi, '.', '.') {
        Some(d) => hi - lo > 1 && digits_in(s, lo, d) && digits_in(s, d + 1, hi),
        None => hi - lo > 0 && digits_in(s, lo, hi),
    }
}

fn float_exp(s: &Vec<char>, lo: usize, hi: usize) -> (r: bool)
    requires
        lo <= hi <= s@.len(),
    ensures
        r == g_float_exp(s@, lo as int, hi as int),
{
    let b = if lo < hi && (s[lo] == '+' || s[lo] == '-') {
        lo + 1
    } else {
        lo
    };
    hi - b > 0 && digits_in(s, b, hi)
}

/// Whether `f64::from_str` accepts this text.
pub fn is_float_literal(s: &Vec<char>) -> (r: bool)
    ensures
        r == g_is_float(s@),
{
    let n = s.len();
    let b: usize = if n > 0 && (s[0] == '+' || s[0] == '-') {
        1
    } else {
        0
    };
    let inf = ['i', 'n', 'f'];
    let infinity = ['i', 'n', 'f', 'i', 'n', 'i', 't', 'y'];
    let nan = ['n', 'a', 'n'];
    proof {
        assert(inf@ =~= seq!['i', 'n', 'f']);
        assert(infinity@ =~= seq!['i', 'n', 'f', 'i', 'n', 'i', 't', 'y']);
        assert(nan@ =~= seq!['n', 'a', 'n']);
    }
    if word_ci(s, b, n, &inf) || word_ci(s, b, n, &infinity) || word_ci(s, b, n, &nan) {
        return true;
    }
    match find2(s, b, n, 'e', 'E') {
        Some(e) => float_mant(s, b, e) && float_exp(s, e + 1, n),
        None => float_mant(s, b, n),
    }
}

} // verus!
