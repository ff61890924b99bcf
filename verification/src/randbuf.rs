//! A buffered random-byte source with base64url token encoding.
//!
//! The buffer refills from the operating system's randomness in one block
//! and hands out slices of it; the encoding is ordinary base64url without
//! padding, with an optional plain-text suffix.

use vstd::prelude::*;

use crate::chars::chars_to_string;
use crate::chars::str_to_chars;

verus! {

/// Size of the refill block.
pub const RAND_BUFFER_SIZE: usize = 8192;

/// Random bytes in a storage key.
pub const STORAGE_KEY_RAND_SIZE: usize = 16;

/// What can go wrong when taking random bytes.
#[derive(Debug, Clone, PartialEq, Eq)]
pub enum RandError {
    /// More bytes were asked for than one refill block holds.
    TooManyBytes,
    /// The operating system's randomness was unavailable.
    SourceFailed,
}

/// Relies on `getrandom::fill`: fills the whole slice with random bytes, or
/// fails; either way the vector keeps its length.
#[verifier::external_body]
fn fill_random(buf: &mut Vec<u8>) -> (r: Result<(), RandError>)
    ensures
        final(buf)@.len() == old(buf)@.len(),
        r matches Err(e) ==> e == RandError::SourceFailed,
{
    match getrandom::fill(buf.as_mut_slice()) {
        Ok(()) => Ok(()),
        Err(_) => Err(RandError::SourceFailed),
    }
}

/// A block of random bytes and the position up to which it is spent.
pub struct BufferedRand {
    pub buf: Vec<u8>,
    pub pos: usize,
}

impl BufferedRand {
    /// The buffer holds one block, spent up to `pos`.
    pub open spec fn wf(&self) -> bool {
        self.buf@.len() == RAND_BUFFER_SIZE && self.pos <= RAND_BUFFER_SIZE
    }

    /// A fresh buffer, fully spent, so that the first take refills it.
    pub fn new() -> (r: BufferedRand)
        ensures
            r.wf(),
            r.pos == RAND_BUFFER_SIZE,
    {
        let mut buf: Vec<u8> = Vec::new();
        let mut i: usize = 0;
        while i < RAND_BUFFER_SIZE
            invariant
                0 <= i <= RAND_BUFFER_SIZE,
                buf@.len() == i,
            decreases RAND_BUFFER_SIZE - i,
        {
            buf.push(0);
            i = i + 1;
        }
        BufferedRand { buf, pos: RAND_BUFFER_SIZE }
    }

    /// Makes `needed` unspent bytes available, refilling the block when too
    /// few are left. Asking for more than a block holds always fails; the
    /// refill itself can fail only with `SourceFailed`.
    pub fn ensure(&mut self, needed: usize) -> (r: Result<(), RandError>)
        requires
            old(self).wf(),
        ensures
            final(self).wf(),
            needed > RAND_BUFFER_SIZE <==> r == Err::<(), RandError>(RandError::TooManyBytes),
            r is Ok ==> final(self).pos + needed <= RAND_BUFFER_SIZE,
            r is Ok ==> final(self).pos == old(self).pos || final(self).pos == 0,
            r is Ok && old(self).pos + needed <= RAND_BUFFER_SIZE ==> *final(self) == *old(self),
    {
        if needed > RAND_BUFFER_SIZE {
            return Err(RandError::TooManyBytes);
        }
        if self.pos > RAND_BUFFER_SIZE - needed {
            match fill_random(&mut self.buf) {
                Ok(()) => {
                    self.pos = 0;
                },
                Err(e) => {
                    return Err(e);
                },
            }
        }
        Ok(())
    }

    /// Takes the next `needed` random bytes. Asking for more than a block
    /// holds always fails with `TooManyBytes`; a successful take returns
    /// exactly `needed` bytes and advances the position by `needed`.
    pub fn take(&mut self, needed: usize) -> (r: Result<Vec<u8>, RandError>)
        requires
            old(self).wf(),
        ensures
            final(self).wf(),
            needed > RAND_BUFFER_SIZE <==> r == Err::<Vec<u8>, RandError>(
                RandError::TooManyBytes,
            ),
            r matches Ok(bytes) ==> bytes@.len() == needed && (final(self).pos == old(self).pos
                + needed || final(self).pos == needed),
    {
        match self.ensure(needed) {
            Err(e) => Err(e),
            Ok(()) => {
                let start = self.pos;
                let mut out: Vec<u8> = Vec::new();
                let mut i: usize = 0;
                while i < needed
                    invariant
                        0 <= i <= needed,
                        start + needed <= RAND_BUFFER_SIZE,
                        self.buf@.len() == RAND_BUFFER_SIZE,
                        out@.len() == i,
                    decreases needed - i,
                {
                    out.push(self.buf[start + i]);
                    i = i + 1;
                }
                self.pos = start + needed;
                Ok(out)
            },
        }
    }
}

/// The base64url alphabet, by six-bit value.
pub open spec fn g_b64_alphabet() -> Seq<char> {
    "ABCDEFGHIJKLMNOPQRSTUVWXYZabcdefghijklmnopqrstuvwxyz0123456789-_"@
}

/// The four characters of one full three-byte group.
pub open spec fn g_b64_group(b0: u8, b1: u8, b2: u8) -> Seq<char> {
    let v = ((b0 as u32) << 16) | ((b1 as u32) << 8) | (b2 as u32);
    seq![
        g_b64_alphabet()[((v >> 18) & 0x3f) as int],
        g_b64_alphabet()[((v >> 12) & 0x3f) as int],
        g_b64_alphabet()[((v >> 6) & 0x3f) as int],
        g_b64_alphabet()[(v & 0x3f) as int],
    ]
}

/// The two characters of a trailing single byte.
pub open spec fn g_b64_tail1(b0: u8) -> Seq<char> {
    let v = (b0 as u32) << 16;
    seq![g_b64_alphabet()[((v >> 18) & 0x3f) as int], g_b64_alphabet()[((v >> 12) & 0x3f) as int]]
}

/// The three characters of a trailing byte pair.
pub open spec fn g_b64_tail2(b0: u8, b1: u8) -> Seq<char> {
    let v = ((b0 as u32) << 16) | ((b1 as u32) << 8);
    seq![
        g_b64_alphabet()[((v >> 18) & 0x3f) as int],
        g_b64_alphabet()[((v >> 12) & 0x3f) as int],
        g_b64_alphabet()[((v >> 6) & 0x3f) as int],
    ]
}

/// Unpadded base64url of a byte string: full groups of three, then the
/// shortened tail.
pub open spec fn g_b64(src: Seq<u8>) -> Seq<char>
    decreases src.len(),
{
    if src.len() == 0 {
        Seq::empty()
    } else if src.len() == 1 {
        g_b64_tail1(src[0])
    } else if src.len() == 2 {
        g_b64_tail2(src[0], src[1])
    } else {
        g_b64_group(src[0], src[1], src[2]) + g_b64(src.skip(3))
    }
}

fn b64_char(v: u32) -> (r: char)
    requires
        v < 64,
    ensures
        r == g_b64_alphabet()[v as int],
{
    let alphabet = "ABCDEFGHIJKLMNOPQRSTUVWXYZabcdefghijklmnopqrstuvwxyz0123456789-_";
    proof {
        reveal_strlit("ABCDEFGHIJKLMNOPQRSTUVWXYZabcdefghijklmnopqrstuvwxyz0123456789-_");
    }
    alphabet.get_char(v as usize)
}

/// Unpadded base64url of the bytes, with the suffix appended untouched.
pub fn encode_base64url(src: &Vec<u8>, suffix: Option<&str>) -> (r: String)
    ensures
        r@ == g_b64(src@) + match suffix {
            Some(s) => s@,
            None => Seq::<char>::empty(),
        },
{
    let n = src.len();
    let mut out: Vec<char> = Vec::new();
    proof {
        assert(src@.skip(0) =~= src@);
    }
    let mut i: usize = 0;
    while n - i > 2
        invariant
            0 <= i <= n,
            n == src@.len(),
            out@ + g_b64(src@.skip(i as int)) == g_b64(src@),
        decreases n - i,
    {
        let b0 = src[i];
        let b1 = src[i + 1];
        let b2 = src[i + 2];
        let v: u32 = ((b0 as u32) << 16) | ((b1 as u32) << 8) | (b2 as u32);
        proof {
            let rest = src@.skip(i as int);
            assert(rest[0] == src@[i as int]);
            assert(rest[1] == src@[i + 1int]);
            assert(rest[2] == src@[i + 2int]);
            assert(rest.skip(3) =~= src@.skip(i + 3int));
            let vv = ((b0 as u32) << 16) | ((b1 as u32) << 8) | (b2 as u32);
            assert(((vv >> 18) & 0x3f) < 64 && ((vv >> 12) & 0x3f) < 64 && ((vv >> 6) & 0x3f) < 64
                && (vv & 0x3f) < 64) by (bit_vector);
        }
        let ghost out0 = out@;
        out.push(b64_char((v >> 18) & 0x3f));
        out.push(b64_char((v >> 12) & 0x3f));
        out.push(b64_char((v >> 6) & 0x3f));
        out.push(b64_char(v & 0x3f));
        proof {
            assert(out@ =~= out0 + g_b64_group(b0, b1, b2));
            assert(out0 + (g_b64_group(b0, b1, b2) + g_b64(src@.skip(i + 3int))) =~= (out0
                + g_b64_group(b0, b1, b2)) + g_b64(src@.skip(i + 3int)));
        }
        i = i + 3;
    }
    proof {
        let rest = src@.skip(i as int);
        assert(rest.len() == n - i);
        if n - i >= 1 {
            assert(rest[0] == src@[i as int]);
        }
        if n - i >= 2 {
            assert(rest[1] == src@[i + 1int]);
        }
    }
    if n - i == 1 {
        let b0 = src[i];
        let v: u32 = (b0 as u32) << 16;
        proof {
            let vv = (b0 as u32) << 16;
            assert(((vv >> 18) & 0x3f) < 64 && ((vv >> 12) & 0x3f) < 64) by (bit_vector);
        }
        let ghost out0 = out@;
        out.push(b64_char((v >> 18) & 0x3f));
        out.push(b64_char((v >> 12) & 0x3f));
        proof {
            assert(out@ =~= out0 + g_b64_tail1(b0));
        }
    } else if n - i == 2 {
        let b0 = src[i];
        let b1 = src[i + 1];
        let v: u32 = ((b0 as u32) << 16) | ((b1 as u32) << 8);
        proof {
            let vv = ((b0 as u32) << 16) | ((b1 as u32) << 8);
            assert(((vv >> 18) & 0x3f) < 64 && ((vv >> 12) & 0x3f) < 64 && ((vv >> 6) & 0x3f) < 64)
                by (bit_vector);
        }
        let ghost out0 = out@;
        out.push(b64_char((v >> 18) & 0x3f));
        out.push(b64_char((v >> 12) & 0x3f));
        out.push(b64_char((v >> 6) & 0x3f));
        proof {
            assert(out@ =~= out0 + g_b64_tail2(b0, b1));
        }
    } else {
        proof {
            assert(src@.skip(i as int) =~= Seq::<u8>::empty());
            assert(out@ + Seq::<char>::empty() =~= out@);
        }
    }
    match suffix {
        Some(sfx) => {
            let mut tail = str_to_chars(sfx);
            out.append(&mut tail);
            chars_to_string(&out)
        },
        None => {
            proof {
                assert(out@ + Seq::<char>::empty() =~= out@);
            }
            chars_to_string(&out)
        },
    }
}

impl BufferedRand {
    /// Takes `n` random bytes as a base64url token.
    pub fn rand_urlsafe(&mut self, n: usize) -> (r: Result<String, RandError>)
        requires
            old(self).wf(),
        ensures
            final(self).wf(),
            n > RAND_BUFFER_SIZE <==> r == Err::<String, RandError>(RandError::TooManyBytes),
            r matches Ok(s) ==> exists|bs: Seq<u8>| bs.len() == n && s@ == g_b64(bs),
    {
        match self.take(n) {
            Err(e) => Err(e),
            Ok(bytes) => {
                let s = encode_base64url(&bytes, None);
                proof {
                    assert(s@ =~= g_b64(bytes@));
                }
                Ok(s)
            },
        }
    }

    /// Takes a fixed block of random bytes as a base64url token with the
    /// given suffix appended.
    pub fn rand_storage_key(&mut self, suffix: &str) -> (r: Result<String, RandError>)
        requires
            old(self).wf(),
        ensures
            final(self).wf(),
            r matches Ok(s) ==> exists|bs: Seq<u8>|
                bs.len() == STORAGE_KEY_RAND_SIZE && s@ == g_b64(bs) + suffix@,
    {
        match self.take(STORAGE_KEY_RAND_SIZE) {
            Err(e) => Err(e),
            Ok(bytes) => Ok(encode_base64url(&bytes, Some(suffix))),
        }
    }
}

} // verus!
