//! The Fixnum codec: the format's variable-length signed 32-bit integer.
//!
//! A Fixnum is a self-describing prefix byte `c` (read as a signed 8-bit
//! value) followed by zero to four trailing bytes:
//! - `c == 0` encodes `0`;
//! - `5 <= c <= 127` encodes `c - 5`;
//! - `1 <= c <= 4` announces `c` trailing little-endian magnitude bytes,
//!   zero-extended, giving a non-negative value;
//! - `-128 <= c <= -5` encodes `c + 5`;
//! - `-4 <= c <= -1` announces `-c` trailing little-endian magnitude bytes
//!   `m`, giving the negative value `m - 256^(-c)`.
//!
//! A magnitude that does not fit in a signed 32-bit integer is rejected as
//! `IntegerTooLarge`.  Encoding is the exact inverse and always picks the
//! shortest form.

use vstd::prelude::*;

use crate::error::{DecodeError, ErrorKind, SpecError, SpecErrorKind};

verus! {

/// `256^k` (1 for `k <= 0`).
pub open spec fn pow256(k: int) -> int
    decreases k,
{
    if k <= 0 {
        1
    } else {
        256 * pow256(k - 1)
    }
}

/// The value of a little-endian byte sequence, zero-extended.
pub open spec fn le_val(s: Seq<u8>) -> int
    decreases s.len(),
{
    if s.len() == 0 {
        0
    } else {
        s[0] + 256 * le_val(s.drop_first())
    }
}

/// The `k` little-endian bytes of `m` (meaningful for `0 <= m < 256^k`).
pub open spec fn le_bytes_of(m: int, k: int) -> Seq<u8>
    decreases k,
{
    if k <= 0 {
        Seq::empty()
    } else {
        seq![(m % 256) as u8] + le_bytes_of(m / 256, k - 1)
    }
}

/// How many magnitude bytes the shortest encoding of a positive value uses.
pub open spec fn fixnum_len_pos(v: int) -> int {
    if v < 256 {
        1
    } else if v < 65536 {
        2
    } else if v < 16777216 {
        3
    } else {
        4
    }
}

/// How many magnitude bytes the shortest encoding of a negative value uses.
pub open spec fn fixnum_len_neg(v: int) -> int {
    if v >= -256 {
        1
    } else if v >= -65536 {
        2
    } else if v >= -16777216 {
        3
    } else {
        4
    }
}

/// The canonical (shortest) encoding of a 32-bit value.
pub open spec fn spec_encode_fixnum(v: int) -> Seq<u8> {
    if v == 0 {
        seq![0u8]
    } else if 1 <= v <= 122 {
        seq![(v + 5) as u8]
    } else if -123 <= v <= -1 {
        seq![(v - 5 + 256) as u8]
    } else if v > 0 {
        let k = fixnum_len_pos(v);
        seq![k as u8] + le_bytes_of(v, k)
    } else {
        let k = fixnum_len_neg(v);
        seq![(256 - k) as u8] + le_bytes_of(v + pow256(k), k)
    }
}

/// Decoding one Fixnum from `input` at `pos`: the value and the position
/// just past it, or the error the decoder reports.
pub open spec fn spec_decode_fixnum(input: Seq<u8>, pos: int) -> Result<(i32, int), SpecError> {
    if !(0 <= pos && pos + 1 <= input.len()) {
        Err(SpecError { kind: SpecErrorKind::UnexpectedEof, offset: pos })
    } else {
        let b = input[pos];
        let c = if b < 128 {
            b as int
        } else {
            b as int - 256
        };
        if c == 0 {
            Ok((0i32, pos + 1))
        } else if 5 <= c {
            Ok(((c - 5) as i32, pos + 1))
        } else if 1 <= c <= 4 {
            if pos + 1 + c <= input.len() {
                let m = le_val(input.subrange(pos + 1, pos + 1 + c));
                if m <= i32::MAX {
                    Ok((m as i32, pos + 1 + c))
                } else {
                    Err(SpecError { kind: SpecErrorKind::IntegerTooLarge, offset: pos })
                }
            } else {
                Err(SpecError { kind: SpecErrorKind::UnexpectedEof, offset: pos + 1 })
            }
        } else if c <= -5 {
            Ok(((c + 5) as i32, pos + 1))
        } else {
            let n = -c;
            if pos + 1 + n <= input.len() {
                let m = le_val(input.subrange(pos + 1, pos + 1 + n));
                let v = m - pow256(n);
                if v >= i32::MIN {
                    Ok((v as i32, pos + 1 + n))
                } else {
                    Err(SpecError { kind: SpecErrorKind::IntegerTooLarge, offset: pos })
                }
            } else {
                Err(SpecError { kind: SpecErrorKind::UnexpectedEof, offset: pos + 1 })
            }
        }
    }
}

/// The first five powers of 256.
pub proof fn lemma_pow256_small()
    ensures
        pow256(0) == 1,
        pow256(1) == 256,
        pow256(2) == 65536,
        pow256(3) == 16777216,
        pow256(4) == 4294967296,
        pow256(8) == 0x1_0000_0000_0000_0000,
{
    reveal_with_fuel(pow256, 9);
}

/// A little-endian byte sequence's value lies below `256^len`.
pub proof fn lemma_le_val_bound(s: Seq<u8>)
    ensures
        0 <= le_val(s) < pow256(s.len() as int),
    decreases s.len(),
{
    if s.len() == 0 {
    } else {
        lemma_le_val_bound(s.drop_first());
    }
}

/// Peeling one byte off the front of a little-endian read.
pub proof fn lemma_le_val_step(s: Seq<u8>, p: int, q: int)
    requires
        0 <= p < q <= s.len(),
    ensures
        le_val(s.subrange(p, q)) == s[p] + 256 * le_val(s.subrange(p + 1, q)),
{
    assert(s.subrange(p, q).drop_first() =~= s.subrange(p + 1, q));
}

/// `le_bytes_of` really is the little-endian encoding of `m`.
pub proof fn lemma_le_bytes_val(m: int, k: int)
    requires
        0 <= k,
        0 <= m < pow256(k),
    ensures
        le_bytes_of(m, k).len() == k,
        le_val(le_bytes_of(m, k)) == m,
    decreases k,
{
    if k > 0 {
        assert(pow256(k) == 256 * pow256(k - 1));
        assert(0 <= m / 256 < pow256(k - 1)) by (nonlinear_arith)
            requires
                0 <= m < 256 * pow256(k - 1),
        ;
        lemma_le_bytes_val(m / 256, k - 1);
        assert(le_bytes_of(m, k).drop_first() =~= le_bytes_of(m / 256, k - 1));
        assert(m == 256 * (m / 256) + m % 256);
    }
}

/// Reads `n` little-endian magnitude bytes starting at `p`.
fn read_le(input: &Vec<u8>, p: usize, n: usize) -> (m: u64)
    requires
        1 <= n <= 4,
        p + n <= input.len(),
    ensures
        m == le_val(input@.subrange(p as int, p as int + n as int)),
        m < pow256(n as int),
{
    proof {
        lemma_le_val_bound(input@.subrange(p as int, p as int + n as int));
    }
    let b0: u64 = input[p] as u64;
    let m: u64 = if n == 1 {
        b0
    } else if n == 2 {
        b0 + 256 * (input[p + 1] as u64)
    } else if n == 3 {
        b0 + 256 * (input[p + 1] as u64) + 65536 * (input[p + 2] as u64)
    } else {
        b0 + 256 * (input[p + 1] as u64) + 65536 * (input[p + 2] as u64) + 16777216 * (input[p
            + 3] as u64)
    };
    proof {
        let i = input@;
        let pi = p as int;
        let q = pi + n as int;
        lemma_le_val_step(i, pi, q);
        if n >= 2 {
            lemma_le_val_step(i, pi + 1, q);
        }
        if n >= 3 {
            lemma_le_val_step(i, pi + 2, q);
        }
        if n >= 4 {
            lemma_le_val_step(i, pi + 3, q);
        }
        assert(le_val(i.subrange(q, q)) == 0);
    }
    m
}

/// Decodes one Fixnum from `input` at `pos`, returning the value and the
/// position just past it.
pub fn decode_fixnum(input: &Vec<u8>, pos: usize) -> (r: Result<(i32, usize), DecodeError>)
    ensures
        match r {
            Ok(p) => spec_decode_fixnum(input@, pos as int) == Ok::<(i32, int), SpecError>(
                (p.0, p.1 as int),
            ) && pos < p.1 <= input.len(),
            Err(e) => spec_decode_fixnum(input@, pos as int) == Err::<(i32, int), SpecError>(e@),
        },
{
    if pos >= input.len() {
        return Err(DecodeError { kind: ErrorKind::UnexpectedEof, offset: pos });
    }
    let b: u8 = input[pos];
    if b == 0 {
        Ok((0, pos + 1))
    } else if b >= 5 && b < 128 {
        Ok(((b - 5) as i32, pos + 1))
    } else if b < 5 {
        // prefix 1..=4: that many little-endian magnitude bytes, non-negative
        let n: usize = b as usize;
        let p1: usize = pos + 1;
        if n > input.len() - p1 {
            return Err(DecodeError { kind: ErrorKind::UnexpectedEof, offset: p1 });
        }
        let m: u64 = read_le(input, p1, n);
        if m <= 0x7FFF_FFFF {
            Ok((m as i32, p1 + n))
        } else {
            Err(DecodeError { kind: ErrorKind::IntegerTooLarge, offset: pos })
        }
    } else if b >= 252 {
        // prefix -4..=-1: that many little-endian magnitude bytes, negative
        let n: usize = 256 - b as usize;
        let p1: usize = pos + 1;
        if n > input.len() - p1 {
            return Err(DecodeError { kind: ErrorKind::UnexpectedEof, offset: p1 });
        }
        let m: u64 = read_le(input, p1, n);
        let w: i64 = if n == 1 {
            256
        } else if n == 2 {
            65536
        } else if n == 3 {
            16777216
        } else {
            4294967296
        };
        proof {
            lemma_pow256_small();
            assert(w == pow256(n as int));
        }
        let v: i64 = m as i64 - w;
        if v >= -2147483648 {
            Ok((v as i32, p1 + n))
        } else {
            Err(DecodeError { kind: ErrorKind::IntegerTooLarge, offset: pos })
        }
    } else {
        // prefix -128..=-5: the value plus five
        Ok(((b as i32) - 251, pos + 1))
    }
}

/// Appends the `k` little-endian bytes of `m`.
fn push_le(out: &mut Vec<u8>, m: u64, k: usize)
    requires
        1 <= k <= 4,
        m < pow256(k as int),
    ensures
        final(out)@ == old(out)@ + le_bytes_of(m as int, k as int),
{
    proof {
        lemma_pow256_small();
        reveal_with_fuel(le_bytes_of, 5);
    }
    if k == 1 {
        out.push(m as u8);
        proof {
            assert(out@ =~= old(out)@ + le_bytes_of(m as int, 1));
        }
    } else if k == 2 {
        out.push((m % 256) as u8);
        out.push((m / 256) as u8);
        proof {
            assert(m as int / 256 < 256);
            assert(out@ =~= old(out)@ + le_bytes_of(m as int, 2));
        }
    } else if k == 3 {
        out.push((m % 256) as u8);
        out.push((m / 256 % 256) as u8);
        out.push((m / 65536) as u8);
        proof {
            vstd::arithmetic::div_mod::lemma_div_denominator(m as int, 256, 256);
            assert(m as int / 65536 < 256);
            assert(out@ =~= old(out)@ + le_bytes_of(m as int, 3));
        }
    } else {
        out.push((m % 256) as u8);
        out.push((m / 256 % 256) as u8);
        out.push((m / 65536 % 256) as u8);
        out.push((m / 16777216) as u8);
        proof {
            vstd::arithmetic::div_mod::lemma_div_denominator(m as int, 256, 256);
            vstd::arithmetic::div_mod::lemma_div_denominator(m as int, 65536, 256);
            assert(m as int / 16777216 < 256);
            assert(out@ =~= old(out)@ + le_bytes_of(m as int, 4));
        }
    }
}

/// Encodes a 32-bit value in the canonical (shortest) Fixnum form; needed
/// for building test fixtures, not for decoding.
pub fn encode_fixnum(v: i32) -> (r: Vec<u8>)
    ensures
        r@ == spec_encode_fixnum(v as int),
{
    proof {
        lemma_pow256_small();
    }
    let mut out: Vec<u8> = Vec::new();
    if v == 0 {
        out.push(0);
        proof {
            assert(out@ =~= spec_encode_fixnum(0));
        }
    } else if v >= 1 && v <= 122 {
        out.push((v + 5) as u8);
        proof {
            assert(out@ =~= spec_encode_fixnum(v as int));
        }
    } else if v <= -1 && v >= -123 {
        out.push((v + 251) as u8);
        proof {
            assert(out@ =~= spec_encode_fixnum(v as int));
        }
    } else if v > 0 {
        let k: usize = if v < 256 {
            1
        } else if v < 65536 {
            2
        } else if v < 16777216 {
            3
        } else {
            4
        };
        out.push(k as u8);
        push_le(&mut out, v as u64, k);
        proof {
            assert(out@ =~= spec_encode_fixnum(v as int));
        }
    } else {
        let k: usize = if v >= -256 {
            1
        } else if v >= -65536 {
            2
        } else if v >= -16777216 {
            3
        } else {
            4
        };
        out.push((256 - k) as u8);
        let w: i64 = if k == 1 {
            256
        } else if k == 2 {
            65536
        } else if k == 3 {
            16777216
        } else {
            4294967296
        };
        let m: i64 = v as i64 + w;
        push_le(&mut out, m as u64, k);
        proof {
            assert(out@ =~= spec_encode_fixnum(v as int));
        }
    }
    out
}

/// Round trip: decoding a canonical encoding yields the value back and
/// consumes the whole encoding; this holds for every 32-bit value.
pub proof fn lemma_fixnum_round_trip(v: i32)
    ensures
        spec_decode_fixnum(spec_encode_fixnum(v as int), 0) == Ok::<(i32, int), SpecError>(
            (v, spec_encode_fixnum(v as int).len() as int),
        ),
{
    let enc = spec_encode_fixnum(v as int);
    lemma_pow256_small();
    if v == 0 {
    } else if 1 <= v <= 122 {
    } else if -123 <= v <= -1 {
    } else if v > 0 {
        let k = fixnum_len_pos(v as int);
        lemma_le_bytes_val(v as int, k);
        assert(enc.subrange(1, 1 + k) =~= le_bytes_of(v as int, k));
    } else {
        let k = fixnum_len_neg(v as int);
        let m = v as int + pow256(k);
        lemma_le_bytes_val(m, k);
        assert(enc.subrange(1, 1 + k) =~= le_bytes_of(m, k));
    }
}

} // verus!
