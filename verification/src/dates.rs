//! Timestamp text handling.
//!
//! Two parsers cover the forms the coercion table routes here: an ISO-8601
//! subset `YYYY-MM-DD[Thh:mm:ss[.ffffff]][Z|+hh:mm|-hh:mm]`, and a spaced
//! form `YYYY-MM-DD hh:mm:ss[.ffffff][ UTC]`. Both validate the calendar
//! (month lengths, leap years) and field ranges. The canonical text of a
//! timestamp is `YYYY-MM-DDThh:mm:ssZ`, with `.ffffff` before `Z` when the
//! sub-second part is non-zero, and with `+hh:mm`/`-hh:mm` in place of `Z`
//! at a non-zero offset.

use vstd::prelude::*;

use crate::spec_is_digit;
use crate::spec_digit_val;
use crate::is_digit;
use crate::num::g_digits_in;
use crate::num::g_digits_val;
use crate::num::g_padded;
use crate::num::push_padded;
use crate::value::Timestamp;
use crate::value::Zone;

verus! {

/// Value of two digit characters at `i`.
pub open spec fn g_num2(s: Seq<char>, i: int) -> int {
    spec_digit_val(s[i]) * 10 + spec_digit_val(s[i + 1])
}

/// Value of four digit characters at `i`.
pub open spec fn g_num4(s: Seq<char>, i: int) -> int {
    ((spec_digit_val(s[i]) * 10 + spec_digit_val(s[i + 1])) * 10 + spec_digit_val(s[i + 2])) * 10
        + spec_digit_val(s[i + 3])
}

/// A Gregorian leap year.
pub open spec fn g_is_leap(y: int) -> bool {
    y % 4 == 0 && (y % 100 != 0 || y % 400 == 0)
}

/// Days in a month of a year.
pub open spec fn g_days_in_month(y: int, m: int) -> int {
    if m == 2 {
        if g_is_leap(y) {
            29
        } else {
            28
        }
    } else if m == 4 || m == 6 || m == 9 || m == 11 {
        30
    } else {
        31
    }
}

/// A valid calendar date with a four-digit year.
pub open spec fn g_valid_date(y: int, m: int, d: int) -> bool {
    1 <= y <= 9999 && 1 <= m <= 12 && 1 <= d <= g_days_in_month(y, m)
}

/// `[i, i+10)` spells `YYYY-MM-DD`.
pub open spec fn g_date_shape(s: Seq<char>, i: int) -> bool {
    g_digits_in(s, i, i + 4) && s[i + 4] == '-' && g_digits_in(s, i + 5, i + 7) && s[i + 7] == '-'
        && g_digits_in(s, i + 8, i + 10)
}

/// `[i, i+8)` spells `hh:mm:ss`.
pub open spec fn g_time_shape(s: Seq<char>, i: int) -> bool {
    g_digits_in(s, i, i + 2) && s[i + 2] == ':' && g_digits_in(s, i + 3, i + 5) && s[i + 5] == ':'
        && g_digits_in(s, i + 6, i + 8)
}

/// Number of consecutive digit characters from `i` on.
pub open spec fn g_digit_run(s: Seq<char>, i: int) -> int
    decreases s.len() - i,
{
    if 0 <= i < s.len() && spec_is_digit(s[i]) {
        1 + g_digit_run(s, i + 1)
    } else {
        0
    }
}

/// Powers of ten up to one million.
pub open spec fn g_pow10(k: int) -> int {
    if k <= 0 {
        1
    } else if k == 1 {
        10
    } else if k == 2 {
        100
    } else if k == 3 {
        1000
    } else if k == 4 {
        10000
    } else if k == 5 {
        100000
    } else {
        1000000
    }
}

/// Value of the digit window `[lo, hi)`.
pub open spec fn g_win_val(s: Seq<char>, lo: int, hi: int) -> int
    decreases hi - lo,
{
    if hi <= lo {
        0
    } else {
        g_win_val(s, lo, hi - 1) * 10 + spec_digit_val(s[hi - 1])
    }
}

/// The fraction part starting at `i`: a point and one to six digits running
/// to exactly `hi`. Yields microseconds, scaled as if right-padded to six
/// digits.
pub open spec fn g_fraction(s: Seq<char>, i: int, hi: int) -> Option<int> {
    if i < hi && s[i] == '.' {
        let fl = g_digit_run(s, i + 1);
        if 1 <= fl <= 6 && i + 1 + fl == hi {
            Some(g_win_val(s, i + 1, hi) * g_pow10(6 - fl))
        } else {
            None
        }
    } else {
        None
    }
}

/// The zone suffix `[i, len)`: empty for a naive stamp, `Z` for UTC, or a
/// `+hh:mm`/`-hh:mm` offset.
pub open spec fn g_zone_suffix(s: Seq<char>, i: int) -> Option<Zone> {
    let hi = s.len() as int;
    if i == hi {
        Some(Zone::Naive)
    } else if s[i] == 'Z' && i + 1 == hi {
        Some(Zone::Offset(0))
    } else if (s[i] == '+' || s[i] == '-') && i + 6 == hi && g_digits_in(s, i + 1, i + 3) && s[i
        + 3] == ':' && g_digits_in(s, i + 4, i + 6) && g_num2(s, i + 1) <= 23 && g_num2(s, i + 4)
        <= 59 {
        let m = g_num2(s, i + 1) * 60 + g_num2(s, i + 4);
        Some(Zone::Offset((if s[i] == '-' {
            -m
        } else {
            m
        }) as i32))
    } else {
        None
    }
}

/// Timestamp made of already-validated fields.
pub open spec fn g_ts(y: int, mo: int, d: int, h: int, mi: int, se: int, mic: int, z: Zone) -> Timestamp {
    Timestamp {
        year: y as u32,
        month: mo as u8,
        day: d as u8,
        hour: h as u8,
        minute: mi as u8,
        second: se as u8,
        micro: mic as u32,
        zone: z,
    }
}

/// The time-of-day tail `[19, ..)` of an ISO stamp: optional fraction, then
/// the zone suffix.
pub open spec fn g_iso_tail(s: Seq<char>, i: int) -> Option<(int, Zone)> {
    let hi = s.len() as int;
    if i < hi && s[i] == '.' {
        let fl = g_digit_run(s, i + 1);
        let fe = i + 1 + fl;
        if 1 <= fl <= 6 {
            match g_zone_suffix(s, fe) {
                Some(z) => Some((g_win_val(s, i + 1, fe) * g_pow10(6 - fl), z)),
                None => None,
            }
        } else {
            None
        }
    } else {
        match g_zone_suffix(s, i) {
            Some(z) => Some((0, z)),
            None => None,
        }
    }
}

/// The ISO-8601 subset grammar: a date, optionally `T` and a time with
/// fraction and zone.
pub open spec fn g_parse_iso(s: Seq<char>) -> Option<Timestamp> {
    let hi = s.len() as int;
    if hi < 10 || !g_date_shape(s, 0) {
        None
    } else {
        let y = g_num4(s, 0);
        let mo = g_num2(s, 5);
        let d = g_num2(s, 8);
        if !g_valid_date(y, mo, d) {
            None
        } else if hi == 10 {
            Some(g_ts(y, mo, d, 0, 0, 0, 0, Zone::Naive))
        } else if s[10] != 'T' || hi < 19 || !g_time_shape(s, 11) {
            None
        } else {
            let h = g_num2(s, 11);
            let mi = g_num2(s, 14);
            let se = g_num2(s, 17);
            if h > 23 || mi > 59 || se > 59 {
                None
            } else {
                match g_iso_tail(s, 19) {
                    Some((mic, z)) => Some(g_ts(y, mo, d, h, mi, se, mic, z)),
                    None => None,
                }
            }
        }
    }
}

/// The tail of a spaced stamp after the seconds: optional fraction, then
/// either the end or a literal ` UTC`.
pub open spec fn g_spaced_tail(s: Seq<char>, i: int) -> Option<(int, Zone)> {
    let hi = s.len() as int;
    if i < hi && s[i] == '.' {
        let fl = g_digit_run(s, i + 1);
        let fe = i + 1 + fl;
        if 1 <= fl <= 6 {
            match g_spaced_zone(s, fe) {
                Some(z) => Some((g_win_val(s, i + 1, fe) * g_pow10(6 - fl), z)),
                None => None,
            }
        } else {
            None
        }
    } else {
        match g_spaced_zone(s, i) {
            Some(z) => Some((0, z)),
            None => None,
        }
    }
}

/// Zone of a spaced stamp: nothing, or ` UTC`.
pub open spec fn g_spaced_zone(s: Seq<char>, i: int) -> Option<Zone> {
    let hi = s.len() as int;
    if i == hi {
        Some(Zone::Naive)
    } else if i + 4 == hi && s[i] == ' ' && s[i + 1] == 'U' && s[i + 2] == 'T' && s[i + 3] == 'C' {
        Some(Zone::Offset(0))
    } else {
        None
    }
}

/// The spaced grammar: `YYYY-MM-DD hh:mm:ss`, optional fraction, optional
/// ` UTC`.
pub open spec fn g_parse_spaced(s: Seq<char>) -> Option<Timestamp> {
    let hi = s.len() as int;
    if hi < 19 || !g_date_shape(s, 0) || s[10] != ' ' || !g_time_shape(s, 11) {
        None
    } else {
        let y = g_num4(s, 0);
        let mo = g_num2(s, 5);
        let d = g_num2(s, 8);
        let h = g_num2(s, 11);
        let mi = g_num2(s, 14);
        let se = g_num2(s, 17);
        if !g_valid_date(y, mo, d) || h > 23 || mi > 59 || se > 59 {
            None
        } else {
            match g_spaced_tail(s, 19) {
                Some((mic, z)) => Some(g_ts(y, mo, d, h, mi, se, mic, z)),
                None => None,
            }
        }
    }
}

/// Digit windows value below the power of ten of their width.
pub proof fn lemma_win_val_bound(s: Seq<char>, lo: int, hi: int)
    requires
        lo <= hi,
        g_digits_in(s, lo, hi),
    ensures
        0 <= g_win_val(s, lo, hi),
        hi - lo <= 6 ==> g_win_val(s, lo, hi) < g_pow10(hi - lo),
    decreases hi - lo,
{
    if hi > lo {
        lemma_win_val_bound(s, lo, hi - 1);
    }
}

/// A fraction scales to less than one million microseconds.
proof fn lemma_fraction_bound(s: Seq<char>, i: int, fl: int)
    requires
        1 <= fl <= 6,
        g_digits_in(s, i + 1, i + 1 + fl),
    ensures
        0 <= g_win_val(s, i + 1, i + 1 + fl) * g_pow10(6 - fl) <= 999999,
{
    let v = g_win_val(s, i + 1, i + 1 + fl);
    lemma_win_val_bound(s, i + 1, i + 1 + fl);
    assert(0 <= v < g_pow10(fl));
    assert(v * g_pow10(6 - fl) <= (g_pow10(fl) - 1) * g_pow10(6 - fl)) by (nonlinear_arith)
        requires
            0 <= v < g_pow10(fl),
            g_pow10(6 - fl) > 0,
    ;
    assert((g_pow10(fl) - 1) * g_pow10(6 - fl) <= 999999) by {
        if fl == 1 {
        } else if fl == 2 {
        } else if fl == 3 {
        } else if fl == 4 {
        } else if fl == 5 {
        } else {
        }
    }
    assert(v * g_pow10(6 - fl) >= 0) by (nonlinear_arith)
        requires
            v >= 0,
            g_pow10(6 - fl) > 0,
    ;
}

/// The digits of a run are digits.
proof fn lemma_digit_run_digits(s: Seq<char>, i: int)
    requires
        0 <= i,
    ensures
        g_digit_run(s, i) >= 0,
        g_digits_in(s, i, i + g_digit_run(s, i)),
    decreases s.len() - i,
{
    if 0 <= i < s.len() && spec_is_digit(s[i]) {
        lemma_digit_run_digits(s, i + 1);
    }
}

/// A parsed timestamp has well-formed fields.
pub proof fn lemma_parse_iso_wf(s: Seq<char>)
    ensures
        g_parse_iso(s) matches Some(t) ==> t.wf(),
{
    if g_parse_iso(s) is Some {
        let hi = s.len() as int;
        if hi > 10 && s[10] == 'T' {
            let i: int = 19;
            if i < hi && s[i] == '.' {
                let fl = g_digit_run(s, i + 1);
                lemma_digit_run_digits(s, i + 1);
                if 1 <= fl <= 6 {
                    lemma_fraction_bound(s, i, fl);
                }
            }
        }
    }
}

pub proof fn lemma_parse_spaced_wf(s: Seq<char>)
    ensures
        g_parse_spaced(s) matches Some(t) ==> t.wf(),
{
    if g_parse_spaced(s) is Some {
        let hi = s.len() as int;
        let i: int = 19;
        if i < hi && s[i] == '.' {
            let fl = g_digit_run(s, i + 1);
            lemma_digit_run_digits(s, i + 1);
            if 1 <= fl <= 6 {
                lemma_fraction_bound(s, i, fl);
            }
        }
    }
}

/// Date part of the canonical timestamp text.
pub open spec fn g_ts_date(t: Timestamp) -> Seq<char> {
    g_padded(t.year as int, 4) + seq!['-'] + g_padded(t.month as int, 2) + seq!['-'] + g_padded(
        t.day as int,
        2,
    )
}

/// Time-of-day part of the canonical timestamp text.
pub open spec fn g_ts_time(t: Timestamp) -> Seq<char> {
    g_padded(t.hour as int, 2) + seq![':'] + g_padded(t.minute as int, 2) + seq![':'] + g_padded(
        t.second as int,
        2,
    )
}

/// Date and time part of the canonical timestamp text.
pub open spec fn g_ts_datetime(t: Timestamp) -> Seq<char> {
    g_ts_date(t) + seq!['T'] + g_ts_time(t)
}

/// Fraction part: empty at zero microseconds.
pub open spec fn g_ts_frac(t: Timestamp) -> Seq<char> {
    if t.micro != 0 {
        seq!['.'] + g_padded(t.micro as int, 6)
    } else {
        Seq::<char>::empty()
    }
}

/// Zone part: `Z` when naive or at offset zero, else the signed offset.
pub open spec fn g_ts_zone(t: Timestamp) -> Seq<char> {
    match t.zone {
        Zone::Naive => seq!['Z'],
        Zone::Offset(m) => if m == 0 {
            seq!['Z']
        } else {
            let a = if m < 0 {
                -(m as int)
            } else {
                m as int
            };
            seq![if m < 0 { '-' } else { '+' }] + g_padded(a / 60, 2) + seq![':'] + g_padded(
                a % 60,
                2,
            )
        },
    }
}

/// Canonical text of a timestamp: date, `T`, time, fraction when non-zero,
/// then `Z` or the signed offset.
pub open spec fn g_ts_str(t: Timestamp) -> Seq<char> {
    g_ts_datetime(t) + g_ts_frac(t) + g_ts_zone(t)
}

fn push_date_part(out: &mut Vec<char>, t: &Timestamp)
    ensures
        final(out)@ == old(out)@ + g_ts_date(*t),
{
    push_padded(out, t.year as u64, 4);
    out.push('-');
    push_padded(out, t.month as u64, 2);
    out.push('-');
    push_padded(out, t.day as u64, 2);
    proof {
        assert(out@ =~= old(out)@ + g_ts_date(*t));
    }
}

fn push_time_part(out: &mut Vec<char>, t: &Timestamp)
    ensures
        final(out)@ == old(out)@ + g_ts_time(*t),
{
    push_padded(out, t.hour as u64, 2);
    out.push(':');
    push_padded(out, t.minute as u64, 2);
    out.push(':');
    push_padded(out, t.second as u64, 2);
    proof {
        assert(out@ =~= old(out)@ + g_ts_time(*t));
    }
}

fn push_zone_part(out: &mut Vec<char>, t: &Timestamp)
    ensures
        final(out)@ == old(out)@ + g_ts_zone(*t),
{
    match t.zone {
        Zone::Naive => out.push('Z'),
        Zone::Offset(m) => {
            if m == 0 {
                out.push('Z');
            } else {
                let a: i64 = if m < 0 {
                    -(m as i64)
                } else {
                    m as i64
                };
                let hh: i64 = a / 60;
                let mm: i64 = a % 60;
                proof {
                    let ga = if m < 0 {
                        -(m as int)
                    } else {
                        m as int
                    };
                    assert(a == ga);
                    assert(0 <= hh && hh == ga / 60);
                    assert(0 <= mm && mm == ga % 60);
                }
                out.push(if m < 0 {
                    '-'
                } else {
                    '+'
                });
                push_padded(out, hh as u64, 2);
                out.push(':');
                push_padded(out, mm as u64, 2);
                proof {
                    assert(out@ =~= old(out)@ + g_ts_zone(*t));
                }
            }
        },
    }
}

/// Writes the canonical text of a timestamp.
pub fn push_ts_chars(out: &mut Vec<char>, t: &Timestamp)
    ensures
        final(out)@ == old(out)@ + g_ts_str(*t),
{
    let ghost base = out@;
    push_date_part(out, t);
    out.push('T');
    push_time_part(out, t);
    proof {
        assert(out@ =~= base + g_ts_datetime(*t));
    }
    let ghost with_dt = out@;
    if t.micro != 0 {
        out.push('.');
        push_padded(out, t.micro as u64, 6);
    }
    proof {
        assert(out@ =~= with_dt + g_ts_frac(*t));
    }
    let ghost with_frac = out@;
    push_zone_part(out, t);
    proof {
        assert(out@ =~= base + g_ts_str(*t));
    }
}

} // verus!

verus! {

fn num2(s: &Vec<char>, i: usize) -> (r: u32)
    requires
        i + 2 <= s@.len(),
        g_digits_in(s@, i as int, i + 2),
    ensures
        r == g_num2(s@, i as int),
        r <= 99,
{
    let n = s.len();
    proof {
        assert(i + 2 <= n);
        assert(spec_is_digit(s@[i as int]));
        assert(spec_is_digit(s@[i + 1int]));
    }
    let a = (s[i] as u32) - 48;
    let b = (s[i + 1] as u32) - 48;
    a * 10 + b
}

fn num4(s: &Vec<char>, i: usize) -> (r: u32)
    requires
        i + 4 <= s@.len(),
        g_digits_in(s@, i as int, i + 4),
    ensures
        r == g_num4(s@, i as int),
        r <= 9999,
{
    let n = s.len();
    proof {
        assert(i + 4 <= n);
        assert(spec_is_digit(s@[i as int]));
        assert(spec_is_digit(s@[i + 1int]));
        assert(spec_is_digit(s@[i + 2int]));
        assert(spec_is_digit(s@[i + 3int]));
    }
    let a = (s[i] as u32) - 48;
    let b = (s[i + 1] as u32) - 48;
    let c = (s[i + 2] as u32) - 48;
    let d = (s[i + 3] as u32) - 48;
    ((a * 10 + b) * 10 + c) * 10 + d
}

fn date_shape(s: &Vec<char>, i: usize) -> (r: bool)
    requires
        i + 10 <= s@.len(),
    ensures
        r == g_date_shape(s@, i as int),
{
    let n = s.len();
    proof {
        assert(i + 10 <= n);
    }
    crate::num::digits_in(s, i, i + 4) && s[i + 4] == '-' && crate::num::digits_in(s, i + 5, i + 7)
        && s[i + 7] == '-' && crate::num::digits_in(s, i + 8, i + 10)
}

fn time_shape(s: &Vec<char>, i: usize) -> (r: bool)
    requires
        i + 8 <= s@.len(),
    ensures
        r == g_time_shape(s@, i as int),
{
    let n = s.len();
    proof {
        assert(i + 8 <= n);
    }
    crate::num::digits_in(s, i, i + 2) && s[i + 2] == ':' && crate::num::digits_in(s, i + 3, i + 5)
        && s[i + 5] == ':' && crate::num::digits_in(s, i + 6, i + 8)
}

fn is_leap(y: u32) -> (r: bool)
    ensures
        r == g_is_leap(y as int),
{
    y % 4 == 0 && (y % 100 != 0 || y % 400 == 0)
}

fn days_in_month(y: u32, m: u32) -> (r: u32)
    ensures
        r == g_days_in_month(y as int, m as int),
{
    if m == 2 {
        if is_leap(y) {
            29
        } else {
            28
        }
    } else if m == 4 || m == 6 || m == 9 || m == 11 {
        30
    } else {
        31
    }
}

fn valid_date(y: u32, m: u32, d: u32) -> (r: bool)
    ensures
        r == g_valid_date(y as int, m as int, d as int),
{
    1 <= y && y <= 9999 && 1 <= m && m <= 12 && 1 <= d && d <= days_in_month(y, m)
}

fn digit_run(s: &Vec<char>, i: usize) -> (r: usize)
    requires
        i <= s@.len(),
    ensures
        r == g_digit_run(s@, i as int),
        i + r <= s@.len(),
{
    let n = s.len();
    let mut j: usize = i;
    while j < n && is_digit(s[j])
        invariant
            i <= j <= n,
            n == s@.len(),
            g_digit_run(s@, i as int) == (j - i) + g_digit_run(s@, j as int),
        decreases n - j,
    {
        j = j + 1;
    }
    j - i
}

fn win_val(s: &Vec<char>, lo: usize, hi: usize) -> (r: u32)
    requires
        lo <= hi <= s@.len(),
        hi - lo <= 6,
        g_digits_in(s@, lo as int, hi as int),
    ensures
        r == g_win_val(s@, lo as int, hi as int),
        r <= 999999,
{
    let mut acc: u32 = 0;
    let mut j: usize = lo;
    while j < hi
        invariant
            lo <= j <= hi <= s@.len(),
            hi - lo <= 6,
            g_digits_in(s@, lo as int, hi as int),
            acc == g_win_val(s@, lo as int, j as int),
            acc < 1000000,
        decreases hi - j,
    {
        proof {
            lemma_win_val_bound(s@, lo as int, j as int);
            lemma_win_val_bound(s@, lo as int, j + 1int);
        }
        acc = acc * 10 + ((s[j] as u32) - 48);
        j = j + 1;
    }
    proof {
        lemma_win_val_bound(s@, lo as int, hi as int);
    }
    acc
}

fn pow10(k: u32) -> (r: u32)
    ensures
        r == g_pow10(k as int),
{
    if k == 0 {
        1
    } else if k == 1 {
        10
    } else if k == 2 {
        100
    } else if k == 3 {
        1000
    } else if k == 4 {
        10000
    } else if k == 5 {
        100000
    } else {
        1000000
    }
}

fn zone_suffix(s: &Vec<char>, i: usize) -> (r: Option<Zone>)
    requires
        i <= s@.len(),
    ensures
        r == g_zone_suffix(s@, i as int),
{
    let n = s.len();
    if i == n {
        return Some(Zone::Naive);
    }
    if s[i] == 'Z' && i + 1 == n {
        return Some(Zone::Offset(0));
    }
    if (s[i] == '+' || s[i] == '-') && n - i == 6 && crate::num::digits_in(s, i + 1, i + 3) && s[i
        + 3] == ':' && crate::num::digits_in(s, i + 4, i + 6) {
        let hh = num2(s, i + 1);
        let mm = num2(s, i + 4);
        if hh <= 23 && mm <= 59 {
            let m = (hh * 60 + mm) as i32;
            return Some(Zone::Offset(if s[i] == '-' {
                -m
            } else {
                m
            }));
        }
    }
    None
}

fn spaced_zone(s: &Vec<char>, i: usize) -> (r: Option<Zone>)
    requires
        i <= s@.len(),
    ensures
        r == g_spaced_zone(s@, i as int),
{
    let n = s.len();
    if i == n {
        Some(Zone::Naive)
    } else if n - i == 4 && s[i] == ' ' && s[i + 1] == 'U' && s[i + 2] == 'T' && s[i + 3] == 'C' {
        Some(Zone::Offset(0))
    } else {
        None
    }
}

fn iso_tail(s: &Vec<char>, i: usize) -> (r: Option<(u32, Zone)>)
    requires
        i <= s@.len(),
    ensures
        match r {
            Some(p) => g_iso_tail(s@, i as int) == Some((p.0 as int, p.1)) && p.0 <= 999999,
            None => g_iso_tail(s@, i as int) is None,
        },
{
    let n = s.len();
    if i < n && s[i] == '.' {
        let fl = digit_run(s, i + 1);
        let fe = i + 1 + fl;
        if 1 <= fl && fl <= 6 {
            proof {
                lemma_digit_run_digits(s@, i + 1int);
            }
            match zone_suffix(s, fe) {
                Some(z) => {
                    let v = win_val(s, i + 1, fe);
                    let p = pow10(6 - (fl as u32));
                    proof {
                        lemma_fraction_bound(s@, i as int, fl as int);
                    }
                    let mic = v * p;
                    Some((mic, z))
                },
                None => None,
            }
        } else {
            None
        }
    } else {
        match zone_suffix(s, i) {
            Some(z) => Some((0, z)),
            None => None,
        }
    }
}

fn spaced_tail(s: &Vec<char>, i: usize) -> (r: Option<(u32, Zone)>)
    requires
        i <= s@.len(),
    ensures
        match r {
            Some(p) => g_spaced_tail(s@, i as int) == Some((p.0 as int, p.1)) && p.0 <= 999999,
            None => g_spaced_tail(s@, i as int) is None,
        },
{
    let n = s.len();
    if i < n && s[i] == '.' {
        let fl = digit_run(s, i + 1);
        let fe = i + 1 + fl;
        if 1 <= fl && fl <= 6 {
            proof {
                lemma_digit_run_digits(s@, i + 1int);
            }
            match spaced_zone(s, fe) {
                Some(z) => {
                    let v = win_val(s, i + 1, fe);
                    let p = pow10(6 - (fl as u32));
                    proof {
                        lemma_fraction_bound(s@, i as int, fl as int);
                    }
                    let mic = v * p;
                    Some((mic, z))
                },
                None => None,
            }
        } else {
            None
        }
    } else {
        match spaced_zone(s, i) {
            Some(z) => Some((0, z)),
            None => None,
        }
    }
}

/// Parses the ISO-8601 subset grammar.
pub fn parse_iso(s: &Vec<char>) -> (r: Option<Timestamp>)
    ensures
        r == g_parse_iso(s@),
{
    let n = s.len();
    if n < 10 || !date_shape(s, 0) {
        return None;
    }
    let y = num4(s, 0);
    let mo = num2(s, 5);
    let d = num2(s, 8);
    if !valid_date(y, mo, d) {
        return None;
    }
    if n == 10 {
        return Some(
            Timestamp {
                year: y,
                month: mo as u8,
                day: d as u8,
                hour: 0,
                minute: 0,
                second: 0,
                micro: 0,
                zone: Zone::Naive,
            },
        );
    }
    if s[10] != 'T' || n < 19 || !time_shape(s, 11) {
        return None;
    }
    let h = num2(s, 11);
    let mi = num2(s, 14);
    let se = num2(s, 17);
    if h > 23 || mi > 59 || se > 59 {
        return None;
    }
    match iso_tail(s, 19) {
        Some((mic, z)) => Some(
            Timestamp {
                year: y,
                month: mo as u8,
                day: d as u8,
                hour: h as u8,
                minute: mi as u8,
                second: se as u8,
                micro: mic,
                zone: z,
            },
        ),
        None => None,
    }
}

/// Parses the spaced grammar.
pub fn parse_spaced(s: &Vec<char>) -> (r: Option<Timestamp>)
    ensures
        r == g_parse_spaced(s@),
{
    let n = s.len();
    if n < 19 || !date_shape(s, 0) || s[10] != ' ' || !time_shape(s, 11) {
        return None;
    }
    let y = num4(s, 0);
    let mo = num2(s, 5);
    let d = num2(s, 8);
    let h = num2(s, 11);
    let mi = num2(s, 14);
    let se = num2(s, 17);
    if !valid_date(y, mo, d) || h > 23 || mi > 59 || se > 59 {
        return None;
    }
    match spaced_tail(s, 19) {
        Some((mic, z)) => Some(
            Timestamp {
                year: y,
                month: mo as u8,
                day: d as u8,
                hour: h as u8,
                minute: mi as u8,
                second: se as u8,
                micro: mic,
                zone: z,
            },
        ),
        None => None,
    }
}

} // verus!

verus! {

proof fn lemma_digits_val_zeros(k: nat)
    ensures
        g_digits_val(Seq::new(k, |i: int| '0')) == 0,
        g_digits_in(Seq::new(k, |i: int| '0'), 0, k as int),
    decreases k,
{
    if k > 0 {
        let z = Seq::new(k, |i: int| '0');
        let z1 = Seq::new((k - 1) as nat, |i: int| '0');
        assert(z.drop_last() =~= z1);
        lemma_digits_val_zeros((k - 1) as nat);
    }
}

proof fn lemma_val_zero_prefix(z: Seq<char>, d: Seq<char>)
    requires
        forall|i: int| 0 <= i < z.len() ==> z[i] == '0',
    ensures
        g_digits_val(z + d) == g_digits_val(d),
    decreases d.len(),
{
    if d.len() == 0 {
        assert(z + d =~= z);
        assert(forall|i: int| 0 <= i < z.len() ==> z[i] == Seq::new(z.len(), |j: int| '0')[i]);
        assert(z =~= Seq::new(z.len(), |j: int| '0'));
        lemma_digits_val_zeros(z.len());
    } else {
        assert((z + d).drop_last() =~= z + d.drop_last());
        assert((z + d).last() == d.last());
        lemma_val_zero_prefix(z, d.drop_last());
    }
}

proof fn lemma_u_digits_len(n: int, w: int)
    requires
        1 <= w <= 6,
        0 <= n < g_pow10(w),
    ensures
        1 <= crate::num::g_u_digits(n).len() <= w,
    decreases w,
{
    if n >= 10 {
        assert(w >= 2);
        assert(n / 10 < g_pow10(w - 1));
        lemma_u_digits_len(n / 10, w - 1);
    }
}

/// The value of a window that carries an embedded digit string.
proof fn lemma_win_of_embedded(s: Seq<char>, lo: int, p: Seq<char>)
    requires
        0 <= lo,
        lo + p.len() <= s.len(),
        forall|i: int| 0 <= i < p.len() ==> s[lo + i] == p[i],
    ensures
        g_win_val(s, lo, lo + p.len()) == g_digits_val(p),
    decreases p.len(),
{
    if p.len() > 0 {
        assert(s[lo + (p.len() - 1)] == p.last());
        lemma_win_of_embedded(s, lo, p.drop_last());
    }
}

proof fn lemma_padded(n: int, w: int)
    requires
        1 <= w <= 6,
        0 <= n < g_pow10(w),
    ensures
        g_padded(n, w).len() == w,
        g_digits_in(g_padded(n, w), 0, w),
        g_digits_val(g_padded(n, w)) == n,
{
    let d = crate::num::g_u_digits(n);
    lemma_u_digits_len(n, w);
    crate::laws::lemma_u_digits_value(n);
    if d.len() >= w {
        assert(g_padded(n, w) == d);
    } else {
        let z = Seq::new((w - d.len()) as nat, |i: int| '0');
        assert(g_padded(n, w) == z + d);
        lemma_val_zero_prefix(z, d);
        assert(g_digits_in(z + d, 0, w)) by {
            assert(forall|i: int|
                0 <= i < w ==> (z + d)[i] == if i < z.len() {
                    z[i]
                } else {
                    d[i - z.len()]
                });
        }
    }
}

proof fn lemma_num2_win(s: Seq<char>, i: int)
    ensures
        g_num2(s, i) == g_win_val(s, i, i + 2),
{
    assert(g_win_val(s, i, i) == 0);
    assert(g_win_val(s, i, i + 1) == spec_digit_val(s[i]));
    assert(g_win_val(s, i, i + 2) == g_win_val(s, i, i + 1) * 10 + spec_digit_val(s[i + 1]));
}

proof fn lemma_num4_win(s: Seq<char>, i: int)
    ensures
        g_num4(s, i) == g_win_val(s, i, i + 4),
{
    assert(g_win_val(s, i, i) == 0);
    assert(g_win_val(s, i, i + 1) == spec_digit_val(s[i]));
    assert(g_win_val(s, i, i + 2) == g_win_val(s, i, i + 1) * 10 + spec_digit_val(s[i + 1]));
    assert(g_win_val(s, i, i + 3) == g_win_val(s, i, i + 2) * 10 + spec_digit_val(s[i + 2]));
    assert(g_win_val(s, i, i + 4) == g_win_val(s, i, i + 3) * 10 + spec_digit_val(s[i + 3]));
}

proof fn lemma_digit_run_exact(s: Seq<char>, i: int, j: int)
    requires
        0 <= i <= j <= s.len(),
        g_digits_in(s, i, j),
        j == s.len() || !spec_is_digit(s[j]),
    ensures
        g_digit_run(s, i) == j - i,
    decreases j - i,
{
    if i < j {
        lemma_digit_run_exact(s, i + 1, j);
    }
}

/// A calendar-valid timestamp at a fixed offset prints to text that the ISO
/// grammar parses back to the very same timestamp: the timestamp fragment
/// of the codec's round trip. A naive timestamp is excluded only because
/// its text is the same as UTC's, so it reads back at offset zero.
pub proof fn lemma_ts_print_parse_roundtrip(t: Timestamp)
    requires
        t.wf(),
        g_valid_date(t.year as int, t.month as int, t.day as int),
        t.zone is Offset,
    ensures
        g_parse_iso(g_ts_str(t)) == Some(t),
{
    let s = g_ts_str(t);
    let date = g_ts_date(t);
    let time = g_ts_time(t);
    let frac = g_ts_frac(t);
    let zone = g_ts_zone(t);
    let py = g_padded(t.year as int, 4);
    let pmo = g_padded(t.month as int, 2);
    let pd = g_padded(t.day as int, 2);
    let ph = g_padded(t.hour as int, 2);
    let pmi = g_padded(t.minute as int, 2);
    let pse = g_padded(t.second as int, 2);
    lemma_padded(t.year as int, 4);
    lemma_padded(t.month as int, 2);
    lemma_padded(t.day as int, 2);
    lemma_padded(t.hour as int, 2);
    lemma_padded(t.minute as int, 2);
    lemma_padded(t.second as int, 2);
    assert(date =~= py + seq!['-'] + pmo + seq!['-'] + pd);
    assert(time =~= ph + seq![':'] + pmi + seq![':'] + pse);
    assert(date.len() == 10);
    assert(time.len() == 8);
    assert(s =~= date + seq!['T'] + time + frac + zone);
    let head = date + seq!['T'] + time;
    assert(s =~= head + frac + zone);
    assert(head.len() == 19);

    // The date and time digits sit at their fixed positions.
    assert(forall|i: int| 0 <= i < 4 ==> s[i] == py[i]);
    assert(s[4] == '-');
    assert(forall|i: int| 0 <= i < 2 ==> s[5 + i] == pmo[i]);
    assert(s[7] == '-');
    assert(forall|i: int| 0 <= i < 2 ==> s[8 + i] == pd[i]);
    assert(s[10] == 'T');
    assert(forall|i: int| 0 <= i < 2 ==> s[11 + i] == ph[i]);
    assert(s[13] == ':');
    assert(forall|i: int| 0 <= i < 2 ==> s[14 + i] == pmi[i]);
    assert(s[16] == ':');
    assert(forall|i: int| 0 <= i < 2 ==> s[17 + i] == pse[i]);

    lemma_win_of_embedded(s, 0, py);
    lemma_win_of_embedded(s, 5, pmo);
    lemma_win_of_embedded(s, 8, pd);
    lemma_win_of_embedded(s, 11, ph);
    lemma_win_of_embedded(s, 14, pmi);
    lemma_win_of_embedded(s, 17, pse);
    assert(g_date_shape(s, 0));
    assert(g_time_shape(s, 11));
    lemma_num4_win(s, 0);
    assert(g_num4(s, 0) == t.year as int);
    lemma_num2_win(s, 5);
    assert(g_num2(s, 5) == t.month as int);
    lemma_num2_win(s, 8);
    assert(g_num2(s, 8) == t.day as int);
    lemma_num2_win(s, 11);
    assert(g_num2(s, 11) == t.hour as int);
    lemma_num2_win(s, 14);
    assert(g_num2(s, 14) == t.minute as int);
    lemma_num2_win(s, 17);
    assert(g_num2(s, 17) == t.second as int);

    // The zone text parses back to the same offset.
    if t.micro != 0 {
        lemma_padded(t.micro as int, 6);
        assert(frac =~= seq!['.'] + g_padded(t.micro as int, 6));
        assert(frac.len() == 7);
    } else {
        assert(frac.len() == 0);
    }
    let zstart: int = 19 + frac.len() as int;
    assert(s.len() == zstart + zone.len());
    assert forall|i: int| zstart <= i < s.len() implies s[i] == zone[i - zstart] by {
        assert(s[i] == (head + frac + zone)[i]);
    }
    lemma_ts_zone_reads_back(t, s, zstart);

    // The fraction, when present, reads back as the same microseconds.
    if t.micro != 0 {
        let pmic = g_padded(t.micro as int, 6);
        assert(s[19] == frac[0]);
        assert(s[19] == '.');
        assert forall|i: int| 0 <= i < 6 implies s[20 + i] == pmic[i] by {
            assert(s[20 + i] == (head + frac + zone)[20 + i]);
            assert(s[20 + i] == frac[1 + i]);
        }
        lemma_win_of_embedded(s, 20, pmic);
        assert(zone.len() > 0);
        assert(s[26] == zone[0]);
        assert(!spec_is_digit(s[26]));
        lemma_digit_run_exact(s, 20, 26);
        assert(g_digit_run(s, 20) == 6);
        assert(g_iso_tail(s, 19) == Some((t.micro as int, t.zone)));
    } else {
        assert(s[19] == zone[0]);
        assert(!(s[19] == '.'));
        assert(g_iso_tail(s, 19) == Some((0int, t.zone)));
    }
    assert(g_parse_iso(s) == Some(g_ts(t.year as int, t.month as int, t.day as int, t.hour as int,
        t.minute as int, t.second as int, t.micro as int, t.zone)));
    assert(g_ts(t.year as int, t.month as int, t.day as int, t.hour as int, t.minute as int,
        t.second as int, t.micro as int, t.zone) == t);
}

/// The zone suffix of the printed form reads back as the same zone.
proof fn lemma_ts_zone_reads_back(t: Timestamp, s: Seq<char>, zstart: int)
    requires
        t.wf(),
        t.zone is Offset,
        0 <= zstart,
        s.len() == zstart + g_ts_zone(t).len(),
        forall|i: int| zstart <= i < s.len() ==> s[i] == g_ts_zone(t)[i - zstart],
    ensures
        g_zone_suffix(s, zstart) == Some(t.zone),
{
    let m = t.zone->Offset_0;
    let zone = g_ts_zone(t);
    if m == 0 {
        assert(zone =~= seq!['Z']);
        assert(s[zstart] == zone[0]);
        assert(s[zstart] == 'Z');
        assert(zstart + 1 == s.len());
    } else {
        let a = if m < 0 {
            -(m as int)
        } else {
            m as int
        };
        let phh = g_padded(a / 60, 2);
        let pmm = g_padded(a % 60, 2);
        assert(0 < a < 1440);
        assert(0 <= a / 60 <= 23);
        assert(0 <= a % 60 <= 59);
        lemma_padded(a / 60, 2);
        lemma_padded(a % 60, 2);
        assert(zone =~= seq![if m < 0 { '-' } else { '+' }] + phh + seq![':'] + pmm);
        assert(zone.len() == 6);
        assert(s[zstart] == zone[0]);
        assert(s[zstart] == (if m < 0 { '-' } else { '+' }));
        assert(s[zstart + 1] == zone[1] && s[zstart + 2] == zone[2]);
        assert(s[zstart + 1] == phh[0] && s[zstart + 2] == phh[1]);
        assert(s[zstart + 3] == zone[3]);
        assert(s[zstart + 3] == ':');
        assert(s[zstart + 4] == zone[4] && s[zstart + 5] == zone[5]);
        assert(s[zstart + 4] == pmm[0] && s[zstart + 5] == pmm[1]);
        lemma_win_of_embedded(s, zstart + 1, phh);
        lemma_win_of_embedded(s, zstart + 4, pmm);
        lemma_num2_win(s, zstart + 1);
        lemma_num2_win(s, zstart + 4);
        assert(g_num2(s, zstart + 1) == a / 60);
        assert(g_num2(s, zstart + 4) == a % 60);
        assert(s[zstart] != 'Z');
        assert(g_digits_in(s, zstart + 1, zstart + 3));
        assert(g_digits_in(s, zstart + 4, zstart + 6));
        assert(a / 60 * 60 + a % 60 == a);
        assert(g_zone_suffix(s, zstart) == Some(Zone::Offset((if m < 0 {
            -a
        } else {
            a
        }) as i32)));
        assert((if m < 0 {
            -a
        } else {
            a
        }) == m as int);
    }
}

} // verus!
