//! Integer codec: a variable-length, magnitude-based, sign-symmetric
//! encoding centred at [`INT_ZERO_CODE`].
//!
//! Zero is the single byte `0x14`. A non-zero value is tagged
//! `0x14 + n` (positive) or `0x14 - n` (negative), where `n` is the byte
//! length of the magnitude, followed by `n` big-endian magnitude bytes;
//! negative payloads are biased by `2^(8n) - 1` so that lexicographic byte
//! order matches numeric order throughout.

use vstd::prelude::*;

use crate::tuple::{
    lex_lt, lemma_lex_lt_append, lemma_lex_lt_append_same_len, lemma_lex_lt_cons,
    lemma_lex_lt_first, Pack, Unpack, UnpackError, INT_ZERO_CODE, NEG_INT_START, POS_INT_END,
};

verus! {

/// `256^n`, the number of values expressible in `n` bytes.
pub open spec fn pow256(n: nat) -> nat
    decreases n,
{
    if n == 0 {
        1
    } else {
        256 * pow256((n - 1) as nat)
    }
}

/// The number of bytes needed for a magnitude: the least `n` with
/// `m < 256^n`.
pub open spec fn byte_len(m: nat) -> nat
    decreases m,
{
    if m == 0 {
        0
    } else {
        1 + byte_len(m / 256)
    }
}

/// The `n` low-order bytes of `m`, most significant first.
pub open spec fn be_bytes(m: nat, n: nat) -> Seq<u8>
    decreases n,
{
    if n == 0 {
        Seq::empty()
    } else {
        be_bytes(m / 256, (n - 1) as nat) + seq![(m % 256) as u8]
    }
}

/// The value of a big-endian byte string.
pub open spec fn be_val(s: Seq<u8>) -> nat
    decreases s.len(),
{
    if s.len() == 0 {
        0
    } else {
        be_val(s.drop_last()) * 256 + s.last() as nat
    }
}

/// The exact bytes of the integer encoding, for any 64-bit-representable
/// value (and, vacuously, beyond).
pub open spec fn spec_pack_int(v: int) -> Seq<u8> {
    if v == 0 {
        seq![INT_ZERO_CODE]
    } else if v > 0 {
        seq![((INT_ZERO_CODE + byte_len(v as nat)) as u8)] + be_bytes(v as nat, byte_len(v as nat))
    } else {
        let mag = (-v) as nat;
        let n = byte_len(mag);
        seq![((INT_ZERO_CODE - n) as u8)] + be_bytes((pow256(n) - 1 - mag) as nat, n)
    }
}

/// The exact outcome of decoding a signed integer of unbounded width from
/// the front of `inp`: the decoded value and the remainder, or the error.
pub open spec fn spec_unpack_int(inp: Seq<u8>) -> Result<(int, Seq<u8>), UnpackError> {
    if inp.len() == 0 {
        Err(UnpackError::OutOfData)
    } else {
        let code = inp[0];
        if NEG_INT_START < code < POS_INT_END {
            let n = if code >= INT_ZERO_CODE {
                (code - INT_ZERO_CODE) as nat
            } else {
                (INT_ZERO_CODE - code) as nat
            };
            if inp.len() < 1 + n {
                Err(UnpackError::OutOfData)
            } else {
                let payload = inp.subrange(1, 1 + n as int);
                let rest = inp.subrange(1 + n as int, inp.len() as int);
                if code >= INT_ZERO_CODE {
                    Ok((be_val(payload) as int, rest))
                } else {
                    Ok((be_val(payload) - (pow256(n) - 1), rest))
                }
            }
        } else {
            Err(UnpackError::WrongCode)
        }
    }
}

/// The exact outcome of decoding an unsigned integer: as
/// [`spec_unpack_int`], but a negative code is not a valid code here.
pub open spec fn spec_unpack_uint(inp: Seq<u8>) -> Result<(int, Seq<u8>), UnpackError> {
    if inp.len() == 0 {
        Err(UnpackError::OutOfData)
    } else {
        let code = inp[0];
        if INT_ZERO_CODE <= code < POS_INT_END {
            let n = (code - INT_ZERO_CODE) as nat;
            if inp.len() < 1 + n {
                Err(UnpackError::OutOfData)
            } else {
                let payload = inp.subrange(1, 1 + n as int);
                let rest = inp.subrange(1 + n as int, inp.len() as int);
                Ok((be_val(payload) as int, rest))
            }
        } else {
            Err(UnpackError::WrongCode)
        }
    }
}

pub proof fn lemma_pow256_pos(n: nat)
    ensures
        pow256(n) >= 1,
    decreases n,
{
    if n > 0 {
        lemma_pow256_pos((n - 1) as nat);
    }
}

pub proof fn lemma_pow256_mono(m: nat, n: nat)
    requires
        m <= n,
    ensures
        pow256(m) <= pow256(n),
    decreases n,
{
    if m < n {
        lemma_pow256_mono(m, (n - 1) as nat);
        lemma_pow256_pos((n - 1) as nat);
    }
}

/// A magnitude fits in its own byte length: `m < 256^byte_len(m)`.
pub proof fn lemma_byte_len_fits(m: nat)
    ensures
        m < pow256(byte_len(m)),
    decreases m,
{
    if m > 0 {
        lemma_byte_len_fits(m / 256);
        assert(m < 256 * pow256(byte_len(m / 256))) by (nonlinear_arith)
            requires
                m / 256 < pow256(byte_len(m / 256)),
                m >= 0,
        ;
    }
}

/// The byte length is minimal: a positive magnitude does not fit in one
/// byte fewer.
pub proof fn lemma_byte_len_min(m: nat)
    requires
        m > 0,
    ensures
        byte_len(m) >= 1,
        pow256((byte_len(m) - 1) as nat) <= m,
    decreases m,
{
    if m / 256 > 0 {
        lemma_byte_len_min(m / 256);
        assert(256 * pow256((byte_len(m / 256) - 1) as nat) <= m) by (nonlinear_arith)
            requires
                pow256((byte_len(m / 256) - 1) as nat) <= m / 256,
                m > 0,
        ;
        assert(byte_len(m / 256) >= 1);
        assert(pow256(byte_len(m / 256)) == 256 * pow256((byte_len(m / 256) - 1) as nat));
        assert(byte_len(m) - 1 == byte_len(m / 256));
    } else {
        reveal_with_fuel(byte_len, 2);
        assert(byte_len(m) == 1);
        assert(pow256(0) == 1);
    }
}

/// Any magnitude below `256^n` takes at most `n` bytes.
pub proof fn lemma_byte_len_bound(m: nat, n: nat)
    requires
        m < pow256(n),
    ensures
        byte_len(m) <= n,
{
    if m > 0 {
        lemma_byte_len_min(m);
        if byte_len(m) > n {
            lemma_pow256_mono(n, (byte_len(m) - 1) as nat);
        }
    }
}

/// Byte length is monotone in the magnitude.
pub proof fn lemma_byte_len_mono(m1: nat, m2: nat)
    requires
        m1 <= m2,
    ensures
        byte_len(m1) <= byte_len(m2),
{
    lemma_byte_len_fits(m2);
    lemma_byte_len_bound(m1, byte_len(m2));
}

pub proof fn lemma_be_bytes_len(m: nat, n: nat)
    ensures
        be_bytes(m, n).len() == n,
    decreases n,
{
    if n > 0 {
        lemma_be_bytes_len(m / 256, (n - 1) as nat);
    }
}

/// Reading back the big-endian bytes of `m` yields `m`, provided `m` fits.
pub proof fn lemma_be_val_of_be_bytes(m: nat, n: nat)
    requires
        m < pow256(n),
    ensures
        be_val(be_bytes(m, n)) == m,
    decreases n,
{
    if n == 0 {
    } else {
        let s = be_bytes(m, n);
        lemma_be_bytes_len(m / 256, (n - 1) as nat);
        assert(s.drop_last() =~= be_bytes(m / 256, (n - 1) as nat));
        assert(m / 256 < pow256((n - 1) as nat)) by (nonlinear_arith)
            requires
                m < 256 * pow256((n - 1) as nat),
        ;
        lemma_be_val_of_be_bytes(m / 256, (n - 1) as nat);
    }
}

/// A big-endian byte string of length `n` holds a value below `256^n`.
pub proof fn lemma_be_val_bound(s: Seq<u8>)
    ensures
        be_val(s) < pow256(s.len() as nat),
    decreases s.len(),
{
    if s.len() > 0 {
        lemma_be_val_bound(s.drop_last());
        assert(be_val(s.drop_last()) * 256 + s.last() < 256 * pow256((s.len() - 1) as nat))
            by (nonlinear_arith)
            requires
                be_val(s.drop_last()) < pow256((s.len() - 1) as nat),
                s.last() < 256,
        ;
    }
}

/// Big-endian encodings of equal length compare as their values do.
pub proof fn lemma_be_bytes_order(m1: nat, m2: nat, n: nat)
    requires
        m1 < m2,
        m2 < pow256(n),
    ensures
        lex_lt(be_bytes(m1, n), be_bytes(m2, n)),
    decreases n,
{
    let a = be_bytes(m1, n);
    let b = be_bytes(m2, n);
    lemma_be_bytes_len(m1 / 256, (n - 1) as nat);
    lemma_be_bytes_len(m2 / 256, (n - 1) as nat);
    assert(m1 / 256 <= m2 / 256 && m2 / 256 < pow256((n - 1) as nat) && m1 % 256 < 256)
        by (nonlinear_arith)
        requires
            m1 < m2,
            m2 < 256 * pow256((n - 1) as nat),
    ;
    if m1 / 256 == m2 / 256 {
        assert(m1 % 256 < m2 % 256);
        lemma_lex_lt_append(
            be_bytes(m1 / 256, (n - 1) as nat),
            seq![(m1 % 256) as u8],
            seq![(m2 % 256) as u8],
        );
    } else {
        lemma_be_bytes_order(m1 / 256, m2 / 256, (n - 1) as nat);
        lemma_lex_lt_append_same_len(
            be_bytes(m1 / 256, (n - 1) as nat),
            be_bytes(m2 / 256, (n - 1) as nat),
            seq![(m1 % 256) as u8],
            seq![(m2 % 256) as u8],
        );
    }
}

/// Order preservation for integers: numeric order of the values is
/// lexicographic order of their encodings, across signs, magnitudes and
/// the zero boundary, for every value whose magnitude fits in 8 bytes.
pub proof fn lemma_pack_int_order(a: int, b: int)
    requires
        a < b,
        -pow256(8) < a,
        b < pow256(8),
    ensures
        lex_lt(spec_pack_int(a), spec_pack_int(b)),
{
    let ea = spec_pack_int(a);
    let eb = spec_pack_int(b);
    if a < 0 && b >= 0 {
        let maga = (-a) as nat;
        lemma_byte_len_min(maga);
        lemma_byte_len_bound(maga, 8);
        if b > 0 {
            lemma_byte_len_min(b as nat);
            lemma_byte_len_bound(b as nat, 8);
        }
        assert(ea[0] < eb[0]);
        lemma_lex_lt_first(ea, eb);
    } else if a >= 0 {
        let nb = byte_len(b as nat);
        lemma_byte_len_min(b as nat);
        lemma_byte_len_bound(b as nat, 8);
        if a == 0 {
            assert(ea[0] < eb[0]);
            lemma_lex_lt_first(ea, eb);
        } else {
            let na = byte_len(a as nat);
            lemma_byte_len_min(a as nat);
            lemma_byte_len_mono(a as nat, b as nat);
            if na < nb {
                assert(ea[0] < eb[0]);
                lemma_lex_lt_first(ea, eb);
            } else {
                lemma_byte_len_fits(b as nat);
                lemma_be_bytes_order(a as nat, b as nat, na);
                lemma_lex_lt_cons(
                    (INT_ZERO_CODE + na) as u8,
                    be_bytes(a as nat, na),
                    be_bytes(b as nat, na),
                );
            }
        }
    } else {
        let maga = (-a) as nat;
        let magb = (-b) as nat;
        let na = byte_len(maga);
        let nb = byte_len(magb);
        lemma_byte_len_min(maga);
        lemma_byte_len_min(magb);
        lemma_byte_len_bound(maga, 8);
        lemma_byte_len_mono(magb, maga);
        if nb < na {
            assert(ea[0] < eb[0]);
            lemma_lex_lt_first(ea, eb);
        } else {
            lemma_byte_len_fits(maga);
            let pa = (pow256(na) - 1 - maga) as nat;
            let pb = (pow256(na) - 1 - magb) as nat;
            lemma_be_bytes_order(pa, pb, na);
            lemma_lex_lt_cons((INT_ZERO_CODE - na) as u8, be_bytes(pa, na), be_bytes(pb, na));
        }
    }
}

/// An integer encoding is non-empty and starts with a code byte, which is
/// always in the inner integer code range and so below `0xFF`.
pub proof fn lemma_pack_int_first_byte(v: int)
    requires
        -pow256(8) < v < pow256(8),
    ensures
        spec_pack_int(v).len() > 0,
        spec_pack_int(v)[0] < 0xFF,
{
    if v > 0 {
        lemma_byte_len_min(v as nat);
        lemma_byte_len_bound(v as nat, 8);
    } else if v < 0 {
        lemma_byte_len_min((-v) as nat);
        lemma_byte_len_bound((-v) as nat, 8);
    }
}

/// Round trip at the spec level: decoding a signed encoding yields the
/// value and leaves exactly the trailing bytes.
pub proof fn lemma_int_round_trip(v: int, rest: Seq<u8>)
    requires
        -pow256(8) < v < pow256(8),
    ensures
        spec_unpack_int(spec_pack_int(v) + rest) == Ok::<(int, Seq<u8>), UnpackError>((v, rest)),
{
    let enc = spec_pack_int(v);
    let inp = enc + rest;
    if v == 0 {
        assert(inp[0] == INT_ZERO_CODE);
        assert(inp.subrange(1, 1) =~= Seq::<u8>::empty());
        assert(inp.subrange(1, inp.len() as int) =~= rest);
    } else if v > 0 {
        let n = byte_len(v as nat);
        lemma_byte_len_min(v as nat);
        lemma_byte_len_bound(v as nat, 8);
        lemma_byte_len_fits(v as nat);
        lemma_be_bytes_len(v as nat, n);
        let c = (INT_ZERO_CODE + n) as u8;
        assert(inp[0] == c);
        assert(NEG_INT_START < c < POS_INT_END);
        assert(c >= INT_ZERO_CODE && (c - INT_ZERO_CODE) as nat == n);
        assert(inp.len() == 1 + n + rest.len());
        assert(inp.subrange(1, 1 + n as int) =~= be_bytes(v as nat, n));
        assert(inp.subrange(1 + n as int, inp.len() as int) =~= rest);
        lemma_be_val_of_be_bytes(v as nat, n);
    } else {
        let mag = (-v) as nat;
        let n = byte_len(mag);
        lemma_byte_len_min(mag);
        lemma_byte_len_bound(mag, 8);
        lemma_byte_len_fits(mag);
        let p = (pow256(n) - 1 - mag) as nat;
        lemma_be_bytes_len(p, n);
        let c = (INT_ZERO_CODE - n) as u8;
        assert(inp[0] == c);
        assert(NEG_INT_START < c < POS_INT_END);
        assert(c < INT_ZERO_CODE && (INT_ZERO_CODE - c) as nat == n);
        assert(inp.len() == 1 + n + rest.len());
        assert(inp.subrange(1, 1 + n as int) =~= be_bytes(p, n));
        assert(inp.subrange(1 + n as int, inp.len() as int) =~= rest);
        lemma_pow256_pos(n);
        lemma_be_val_of_be_bytes(p, n);
    }
}

/// Round trip at the spec level for the unsigned decoder.
pub proof fn lemma_uint_round_trip(v: int, rest: Seq<u8>)
    requires
        0 <= v < pow256(8),
    ensures
        spec_unpack_uint(spec_pack_int(v) + rest) == Ok::<(int, Seq<u8>), UnpackError>((v, rest)),
{
    let enc = spec_pack_int(v);
    let inp = enc + rest;
    if v == 0 {
        assert(inp[0] == INT_ZERO_CODE);
        assert(inp.subrange(1, 1) =~= Seq::<u8>::empty());
        assert(inp.subrange(1, inp.len() as int) =~= rest);
    } else {
        let n = byte_len(v as nat);
        lemma_byte_len_min(v as nat);
        lemma_byte_len_bound(v as nat, 8);
        lemma_byte_len_fits(v as nat);
        lemma_be_bytes_len(v as nat, n);
        let c = (INT_ZERO_CODE + n) as u8;
        assert(inp[0] == c);
        assert(INT_ZERO_CODE <= c < POS_INT_END);
        assert((c - INT_ZERO_CODE) as nat == n);
        assert(inp.len() == 1 + n + rest.len());
        assert(inp.subrange(1, 1 + n as int) =~= be_bytes(v as nat, n));
        assert(inp.subrange(1 + n as int, inp.len() as int) =~= rest);
        lemma_be_val_of_be_bytes(v as nat, n);
    }
}

fn byte_len_u64(m: u64) -> (n: usize)
    ensures
        n as nat == byte_len(m as nat),
        n <= 8,
        m == 0 <==> n == 0,
    decreases m,
{
    if m == 0 {
        0
    } else {
        proof {
            lemma_byte_len_fits(m as nat);
            assert(pow256(8) == 0x1_0000_0000_0000_0000) by {
                reveal_with_fuel(pow256, 9);
            }
            lemma_byte_len_bound(m as nat, 8);
        }
        1 + byte_len_u64(m / 256)
    }
}

/// Append the `n` low-order bytes of `m`, most significant first.
pub(crate) fn push_be(out: &mut Vec<u8>, m: u64, n: usize)
    ensures
        final(out)@ == old(out)@ + be_bytes(m as nat, n as nat),
    decreases n,
{
    if n > 0 {
        push_be(out, m / 256, n - 1);
        out.push((m % 256) as u8);
        proof {
            assert(out@ =~= old(out)@ + be_bytes(m as nat, n as nat));
        }
    } else {
        proof {
            assert(out@ =~= old(out)@ + be_bytes(m as nat, 0));
        }
    }
}

/// The largest value expressible in `n` bytes, `256^n - 1`.
fn max_for(n: usize) -> (maxv: u64)
    requires
        1 <= n <= 8,
    ensures
        maxv as nat == pow256(n as nat) - 1,
{
    let maxv: u64 = match n {
        1 => 0xFF,
        2 => 0xFFFF,
        3 => 0xFF_FFFF,
        4 => 0xFFFF_FFFF,
        5 => 0xFF_FFFF_FFFF,
        6 => 0xFFFF_FFFF_FFFF,
        7 => 0xFF_FFFF_FFFF_FFFF,
        _ => 0xFFFF_FFFF_FFFF_FFFF,
    };
    proof {
        reveal_with_fuel(pow256, 9);
    }
    maxv
}

/// Read a big-endian value of at most 8 bytes.
pub(crate) fn be_val_u64(payload: &[u8]) -> (val: u64)
    requires
        payload@.len() <= 8,
    ensures
        val as nat == be_val(payload@),
{
    let ghost all = payload@;
    let mut val: u64 = 0;
    let mut i: usize = 0;
    proof {
        assert(all.subrange(0, 0) =~= Seq::<u8>::empty());
    }
    while i < payload.len()
        invariant
            i <= all.len() <= 8,
            payload@ == all,
            val as nat == be_val(all.subrange(0, i as int)),
        decreases all.len() - i,
    {
        proof {
            lemma_be_val_bound(all.subrange(0, i as int));
            lemma_pow256_mono(i as nat, 7);
            assert(pow256(7) == 0x100_0000_0000_0000) by {
                reveal_with_fuel(pow256, 8);
            }
            assert(all.subrange(0, i + 1).drop_last() =~= all.subrange(0, i as int));
        }
        let b = *vstd::slice::slice_index_get(payload, i);
        val = val * 256 + b as u64;
        i = i + 1;
    }
    proof {
        assert(all.subrange(0, all.len() as int) =~= all);
    }
    val
}

/// Append the encoding of a signed 64-bit value.
pub fn pack_int(inp: i64, out: &mut Vec<u8>)
    ensures
        final(out)@ == old(out)@ + spec_pack_int(inp as int),
{
    if inp >= 0 {
        pack_uint(inp as u64, out);
    } else {
        let mag: u64 = ((-(inp + 1)) as u64) + 1;
        proof {
            assert(mag as int == -(inp as int));
        }
        let n = byte_len_u64(mag);
        proof {
            lemma_byte_len_fits(mag as nat);
        }
        out.push(INT_ZERO_CODE - (n as u8));
        let maxv = max_for(n);
        push_be(out, maxv - mag, n);
        proof {
            assert(out@ =~= old(out)@ + spec_pack_int(inp as int));
        }
    }
}

/// Append the encoding of an unsigned 64-bit value.
pub fn pack_uint(inp: u64, out: &mut Vec<u8>)
    ensures
        final(out)@ == old(out)@ + spec_pack_int(inp as int),
{
    if inp == 0 {
        out.push(INT_ZERO_CODE);
        proof {
            assert(out@ =~= old(out)@ + spec_pack_int(0));
        }
    } else {
        let n = byte_len_u64(inp);
        out.push(INT_ZERO_CODE + (n as u8));
        push_be(out, inp, n);
        proof {
            assert(out@ =~= old(out)@ + spec_pack_int(inp as int));
        }
    }
}

/// Decode a signed integer; fails with `OutOfRange` when the decoded value
/// does not fit a 64-bit signed width.
pub fn unpack_int(inp: &[u8]) -> (r: Result<(i64, &[u8]), UnpackError>)
    ensures
        (match r {
            Ok(vr) => spec_unpack_int(inp@) == Ok::<(int, Seq<u8>), UnpackError>((
                vr.0 as int,
                vr.1@,
            )),
            Err(e) => (match spec_unpack_int(inp@) {
                Ok(vr) => e == UnpackError::OutOfRange && !(i64::MIN <= vr.0 <= i64::MAX),
                Err(e2) => e == e2,
            }),
        }),
{
    if inp.len() == 0 {
        return Err(UnpackError::OutOfData);
    }
    let code = *vstd::slice::slice_index_get(inp, 0);
    if !(code > NEG_INT_START && code < POS_INT_END) {
        return Err(UnpackError::WrongCode);
    }
    let n: usize = if code >= INT_ZERO_CODE {
        (code - INT_ZERO_CODE) as usize
    } else {
        (INT_ZERO_CODE - code) as usize
    };
    if inp.len() < 1 + n {
        return Err(UnpackError::OutOfData);
    }
    let payload = vstd::slice::slice_subrange(inp, 1, 1 + n);
    let val = be_val_u64(payload);
    let rest = vstd::slice::slice_subrange(inp, 1 + n, inp.len());
    proof {
        lemma_be_val_bound(payload@);
    }
    if code >= INT_ZERO_CODE {
        if val > i64::MAX as u64 {
            return Err(UnpackError::OutOfRange);
        }
        Ok((val as i64, rest))
    } else {
        let maxv = max_for(n);
        let mag = maxv - val;
        if mag > 0x8000_0000_0000_0000u64 {
            return Err(UnpackError::OutOfRange);
        }
        let v: i64 = if mag == 0x8000_0000_0000_0000u64 {
            i64::MIN
        } else {
            -(mag as i64)
        };
        Ok((v, rest))
    }
}

/// Decode an unsigned integer; a negative code is rejected as `WrongCode`.
pub fn unpack_uint(inp: &[u8]) -> (r: Result<(u64, &[u8]), UnpackError>)
    ensures
        (match r {
            Ok(vr) => spec_unpack_uint(inp@) == Ok::<(int, Seq<u8>), UnpackError>((
                vr.0 as int,
                vr.1@,
            )),
            Err(e) => (match spec_unpack_uint(inp@) {
                Ok(vr) => false,
                Err(e2) => e == e2,
            }),
        }),
{
    if inp.len() == 0 {
        return Err(UnpackError::OutOfData);
    }
    let code = *vstd::slice::slice_index_get(inp, 0);
    if !(code >= INT_ZERO_CODE && code < POS_INT_END) {
        return Err(UnpackError::WrongCode);
    }
    let n: usize = (code - INT_ZERO_CODE) as usize;
    if inp.len() < 1 + n {
        return Err(UnpackError::OutOfData);
    }
    let payload = vstd::slice::slice_subrange(inp, 1, 1 + n);
    let val = be_val_u64(payload);
    let rest = vstd::slice::slice_subrange(inp, 1 + n, inp.len());
    Ok((val, rest))
}

impl Pack for i64 {
    type Model = i64;

    open spec fn model(&self) -> i64 {
        *self
    }

    open spec fn spec_pack(m: i64, nested: bool) -> Seq<u8> {
        spec_pack_int(m as int)
    }

    fn pack(&self, out: &mut Vec<u8>, nested: bool) {
        pack_int(*self, out);
    }
}

impl Unpack for i64 {
    open spec fn spec_unpack(inp: Seq<u8>, nested: bool) -> Result<(i64, Seq<u8>), UnpackError> {
        match spec_unpack_int(inp) {
            Ok(vr) => if i64::MIN <= vr.0 <= i64::MAX {
                Ok((vr.0 as i64, vr.1))
            } else {
                Err(UnpackError::OutOfRange)
            },
            Err(e) => Err(e),
        }
    }

    open spec fn unambiguous(m: i64, nested: bool) -> bool {
        true
    }

    proof fn lemma_pack_shape(m: i64, nested: bool) {
        assert(pow256(8) == 0x1_0000_0000_0000_0000) by {
            reveal_with_fuel(pow256, 9);
        }
        lemma_pack_int_first_byte(m as int);
    }

    proof fn lemma_round_trip(m: i64, rest: Seq<u8>, nested: bool) {
        assert(pow256(8) == 0x1_0000_0000_0000_0000) by {
            reveal_with_fuel(pow256, 9);
        }
        lemma_int_round_trip(m as int, rest);
    }

    fn unpack(inp: &[u8], nested: bool) -> (r: Result<(i64, &[u8]), UnpackError>) {
        match unpack_int(inp) {
            Ok(vr) => Ok(vr),
            Err(e) => Err(e),
        }
    }
}

impl Pack for i32 {
    type Model = i32;

    open spec fn model(&self) -> i32 {
        *self
    }

    open spec fn spec_pack(m: i32, nested: bool) -> Seq<u8> {
        spec_pack_int(m as int)
    }

    fn pack(&self, out: &mut Vec<u8>, nested: bool) {
        pack_int(*self as i64, out);
    }
}

impl Unpack for i32 {
    open spec fn spec_unpack(inp: Seq<u8>, nested: bool) -> Result<(i32, Seq<u8>), UnpackError> {
        match spec_unpack_int(inp) {
            Ok(vr) => if i32::MIN <= vr.0 <= i32::MAX {
                Ok((vr.0 as i32, vr.1))
            } else {
                Err(UnpackError::OutOfRange)
            },
            Err(e) => Err(e),
        }
    }

    open spec fn unambiguous(m: i32, nested: bool) -> bool {
        true
    }

    proof fn lemma_pack_shape(m: i32, nested: bool) {
        assert(pow256(8) == 0x1_0000_0000_0000_0000) by {
            reveal_with_fuel(pow256, 9);
        }
        lemma_pack_int_first_byte(m as int);
    }

    proof fn lemma_round_trip(m: i32, rest: Seq<u8>, nested: bool) {
        assert(pow256(8) == 0x1_0000_0000_0000_0000) by {
            reveal_with_fuel(pow256, 9);
        }
        lemma_int_round_trip(m as int, rest);
    }

    fn unpack(inp: &[u8], nested: bool) -> (r: Result<(i32, &[u8]), UnpackError>) {
        match unpack_int(inp) {
            Ok((v, rest)) => if i32::MIN as i64 <= v && v <= i32::MAX as i64 {
                Ok((v as i32, rest))
            } else {
                Err(UnpackError::OutOfRange)
            },
            Err(e) => Err(e),
        }
    }
}

impl Pack for i16 {
    type Model = i16;

    open spec fn model(&self) -> i16 {
        *self
    }

    open spec fn spec_pack(m: i16, nested: bool) -> Seq<u8> {
        spec_pack_int(m as int)
    }

    fn pack(&self, out: &mut Vec<u8>, nested: bool) {
        pack_int(*self as i64, out);
    }
}

impl Unpack for i16 {
    open spec fn spec_unpack(inp: Seq<u8>, nested: bool) -> Result<(i16, Seq<u8>), UnpackError> {
        match spec_unpack_int(inp) {
            Ok(vr) => if i16::MIN <= vr.0 <= i16::MAX {
                Ok((vr.0 as i16, vr.1))
            } else {
                Err(UnpackError::OutOfRange)
            },
            Err(e) => Err(e),
        }
    }

    open spec fn unambiguous(m: i16, nested: bool) -> bool {
        true
    }

    proof fn lemma_pack_shape(m: i16, nested: bool) {
        assert(pow256(8) == 0x1_0000_0000_0000_0000) by {
            reveal_with_fuel(pow256, 9);
        }
        lemma_pack_int_first_byte(m as int);
    }

    proof fn lemma_round_trip(m: i16, rest: Seq<u8>, nested: bool) {
        assert(pow256(8) == 0x1_0000_0000_0000_0000) by {
            reveal_with_fuel(pow256, 9);
        }
        lemma_int_round_trip(m as int, rest);
    }

    fn unpack(inp: &[u8], nested: bool) -> (r: Result<(i16, &[u8]), UnpackError>) {
        match unpack_int(inp) {
            Ok((v, rest)) => if i16::MIN as i64 <= v && v <= i16::MAX as i64 {
                Ok((v as i16, rest))
            } else {
                Err(UnpackError::OutOfRange)
            },
            Err(e) => Err(e),
        }
    }
}

impl Pack for i8 {
    type Model = i8;

    open spec fn model(&self) -> i8 {
        *self
    }

    open spec fn spec_pack(m: i8, nested: bool) -> Seq<u8> {
        spec_pack_int(m as int)
    }

    fn pack(&self, out: &mut Vec<u8>, nested: bool) {
        pack_int(*self as i64, out);
    }
}

impl Unpack for i8 {
    open spec fn spec_unpack(inp: Seq<u8>, nested: bool) -> Result<(i8, Seq<u8>), UnpackError> {
        match spec_unpack_int(inp) {
            Ok(vr) => if i8::MIN <= vr.0 <= i8::MAX {
                Ok((vr.0 as i8, vr.1))
            } else {
                Err(UnpackError::OutOfRange)
            },
            Err(e) => Err(e),
        }
    }

    open spec fn unambiguous(m: i8, nested: bool) -> bool {
        true
    }

    proof fn lemma_pack_shape(m: i8, nested: bool) {
        assert(pow256(8) == 0x1_0000_0000_0000_0000) by {
            reveal_with_fuel(pow256, 9);
        }
        lemma_pack_int_first_byte(m as int);
    }

    proof fn lemma_round_trip(m: i8, rest: Seq<u8>, nested: bool) {
        assert(pow256(8) == 0x1_0000_0000_0000_0000) by {
            reveal_with_fuel(pow256, 9);
        }
        lemma_int_round_trip(m as int, rest);
    }

    fn unpack(inp: &[u8], nested: bool) -> (r: Result<(i8, &[u8]), UnpackError>) {
        match unpack_int(inp) {
            Ok((v, rest)) => if i8::MIN as i64 <= v && v <= i8::MAX as i64 {
                Ok((v as i8, rest))
            } else {
                Err(UnpackError::OutOfRange)
            },
            Err(e) => Err(e),
        }
    }
}

impl Pack for u64 {
    type Model = u64;

    open spec fn model(&self) -> u64 {
        *self
    }

    open spec fn spec_pack(m: u64, nested: bool) -> Seq<u8> {
        spec_pack_int(m as int)
    }

    fn pack(&self, out: &mut Vec<u8>, nested: bool) {
        pack_uint(*self, out);
    }
}

impl Unpack for u64 {
    open spec fn spec_unpack(inp: Seq<u8>, nested: bool) -> Result<(u64, Seq<u8>), UnpackError> {
        match spec_unpack_uint(inp) {
            Ok(vr) => Ok((vr.0 as u64, vr.1)),
            Err(e) => Err(e),
        }
    }

    open spec fn unambiguous(m: u64, nested: bool) -> bool {
        true
    }

    proof fn lemma_pack_shape(m: u64, nested: bool) {
        assert(pow256(8) == 0x1_0000_0000_0000_0000) by {
            reveal_with_fuel(pow256, 9);
        }
        lemma_pack_int_first_byte(m as int);
    }

    proof fn lemma_round_trip(m: u64, rest: Seq<u8>, nested: bool) {
        assert(pow256(8) == 0x1_0000_0000_0000_0000) by {
            reveal_with_fuel(pow256, 9);
        }
        lemma_uint_round_trip(m as int, rest);
    }

    fn unpack(inp: &[u8], nested: bool) -> (r: Result<(u64, &[u8]), UnpackError>) {
        match unpack_uint(inp) {
            Ok(vr) => Ok(vr),
            Err(e) => Err(e),
        }
    }
}

impl Pack for u32 {
    type Model = u32;

    open spec fn model(&self) -> u32 {
        *self
    }

    open spec fn spec_pack(m: u32, nested: bool) -> Seq<u8> {
        spec_pack_int(m as int)
    }

    fn pack(&self, out: &mut Vec<u8>, nested: bool) {
        pack_uint(*self as u64, out);
    }
}

impl Unpack for u32 {
    open spec fn spec_unpack(inp: Seq<u8>, nested: bool) -> Result<(u32, Seq<u8>), UnpackError> {
        match spec_unpack_uint(inp) {
            Ok(vr) => if vr.0 <= u32::MAX {
                Ok((vr.0 as u32, vr.1))
            } else {
                Err(UnpackError::OutOfRange)
            },
            Err(e) => Err(e),
        }
    }

    open spec fn unambiguous(m: u32, nested: bool) -> bool {
        true
    }

    proof fn lemma_pack_shape(m: u32, nested: bool) {
        assert(pow256(8) == 0x1_0000_0000_0000_0000) by {
            reveal_with_fuel(pow256, 9);
        }
        lemma_pack_int_first_byte(m as int);
    }

    proof fn lemma_round_trip(m: u32, rest: Seq<u8>, nested: bool) {
        assert(pow256(8) == 0x1_0000_0000_0000_0000) by {
            reveal_with_fuel(pow256, 9);
        }
        lemma_uint_round_trip(m as int, rest);
    }

    fn unpack(inp: &[u8], nested: bool) -> (r: Result<(u32, &[u8]), UnpackError>) {
        match unpack_uint(inp) {
            Ok((v, rest)) => if v <= u32::MAX as u64 {
                Ok((v as u32, rest))
            } else {
                Err(UnpackError::OutOfRange)
            },
            Err(e) => Err(e),
        }
    }
}

impl Pack for u16 {
    type Model = u16;

    open spec fn model(&self) -> u16 {
        *self
    }

    open spec fn spec_pack(m: u16, nested: bool) -> Seq<u8> {
        spec_pack_int(m as int)
    }

    fn pack(&self, out: &mut Vec<u8>, nested: bool) {
        pack_uint(*self as u64, out);
    }
}

impl Unpack for u16 {
    open spec fn spec_unpack(inp: Seq<u8>, nested: bool) -> Result<(u16, Seq<u8>), UnpackError> {
        match spec_unpack_uint(inp) {
            Ok(vr) => if vr.0 <= u16::MAX {
                Ok((vr.0 as u16, vr.1))
            } else {
                Err(UnpackError::OutOfRange)
            },
            Err(e) => Err(e),
        }
    }

    open spec fn unambiguous(m: u16, nested: bool) -> bool {
        true
    }

    proof fn lemma_pack_shape(m: u16, nested: bool) {
        assert(pow256(8) == 0x1_0000_0000_0000_0000) by {
            reveal_with_fuel(pow256, 9);
        }
        lemma_pack_int_first_byte(m as int);
    }

    proof fn lemma_round_trip(m: u16, rest: Seq<u8>, nested: bool) {
        assert(pow256(8) == 0x1_0000_0000_0000_0000) by {
            reveal_with_fuel(pow256, 9);
        }
        lemma_uint_round_trip(m as int, rest);
    }

    fn unpack(inp: &[u8], nested: bool) -> (r: Result<(u16, &[u8]), UnpackError>) {
        match unpack_uint(inp) {
            Ok((v, rest)) => if v <= u16::MAX as u64 {
                Ok((v as u16, rest))
            } else {
                Err(UnpackError::OutOfRange)
            },
            Err(e) => Err(e),
        }
    }
}

impl Pack for u8 {
    type Model = u8;

    open spec fn model(&self) -> u8 {
        *self
    }

    open spec fn spec_pack(m: u8, nested: bool) -> Seq<u8> {
        spec_pack_int(m as int)
    }

    fn pack(&self, out: &mut Vec<u8>, nested: bool) {
        pack_uint(*self as u64, out);
    }
}

impl Unpack for u8 {
    open spec fn spec_unpack(inp: Seq<u8>, nested: bool) -> Result<(u8, Seq<u8>), UnpackError> {
        match spec_unpack_uint(inp) {
            Ok(vr) => if vr.0 <= u8::MAX {
                Ok((vr.0 as u8, vr.1))
            } else {
                Err(UnpackError::OutOfRange)
            },
            Err(e) => Err(e),
        }
    }

    open spec fn unambiguous(m: u8, nested: bool) -> bool {
        true
    }

    proof fn lemma_pack_shape(m: u8, nested: bool) {
        assert(pow256(8) == 0x1_0000_0000_0000_0000) by {
            reveal_with_fuel(pow256, 9);
        }
        lemma_pack_int_first_byte(m as int);
    }

    proof fn lemma_round_trip(m: u8, rest: Seq<u8>, nested: bool) {
        assert(pow256(8) == 0x1_0000_0000_0000_0000) by {
            reveal_with_fuel(pow256, 9);
        }
        lemma_uint_round_trip(m as int, rest);
    }

    fn unpack(inp: &[u8], nested: bool) -> (r: Result<(u8, &[u8]), UnpackError>) {
        match unpack_uint(inp) {
            Ok((v, rest)) => if v <= u8::MAX as u64 {
                Ok((v as u8, rest))
            } else {
                Err(UnpackError::OutOfRange)
            },
            Err(e) => Err(e),
        }
    }
}

} // verus!
