//! Order-preserving float codec, over IEEE-754 bit patterns.
//!
//! The verified library does not touch float values themselves; callers
//! hand in the raw bit pattern (`f32::to_bits`, `f64::to_bits`) and take
//! one back. The bits are first mapped so that unsigned integer order of
//! the mapped value matches the numeric order of the floats: a value with
//! the sign bit clear gets the sign bit set, and a value with the sign bit
//! set is complemented. The mapped value then goes out as fixed-width
//! big-endian bytes after the type code.

use vstd::prelude::*;

use crate::tuple::integer::{
    be_bytes, be_val, be_val_u64, lemma_be_bytes_len, lemma_be_bytes_order,
    lemma_be_val_of_be_bytes, pow256, push_be,
};
use crate::tuple::{
    lemma_lex_lt_cons, lex_lt, spec_expect, UnpackError, DOUBLE_CODE, FLOAT_CODE,
};

verus! {

/// The order-preserving map on 32-bit float patterns.
pub open spec fn sortable_bits_32(b: u32) -> nat {
    if b < 0x8000_0000 {
        (b + 0x8000_0000) as nat
    } else {
        (0xFFFF_FFFF - b) as nat
    }
}

/// The order-preserving map on 64-bit float patterns.
pub open spec fn sortable_bits_64(b: u64) -> nat {
    if b < 0x8000_0000_0000_0000 {
        (b + 0x8000_0000_0000_0000) as nat
    } else {
        (0xFFFF_FFFF_FFFF_FFFF - b) as nat
    }
}

/// The exact bytes of a single-precision element, from its bit pattern.
pub open spec fn spec_pack_f32_bits(b: u32) -> Seq<u8> {
    seq![FLOAT_CODE] + be_bytes(sortable_bits_32(b), 4)
}

/// The exact bytes of a double-precision element, from its bit pattern.
pub open spec fn spec_pack_f64_bits(b: u64) -> Seq<u8> {
    seq![DOUBLE_CODE] + be_bytes(sortable_bits_64(b), 8)
}

/// The exact outcome of decoding a single-precision element.
pub open spec fn spec_unpack_f32_bits(inp: Seq<u8>) -> Result<(u32, Seq<u8>), UnpackError> {
    match spec_expect(inp, FLOAT_CODE) {
        Ok(body) => if body.len() < 4 {
            Err(UnpackError::OutOfData)
        } else {
            let t = be_val(body.subrange(0, 4));
            let b = if t >= 0x8000_0000 {
                t - 0x8000_0000
            } else {
                0xFFFF_FFFF - t
            };
            Ok((b as u32, body.skip(4)))
        },
        Err(e) => Err(e),
    }
}

/// The exact outcome of decoding a double-precision element.
pub open spec fn spec_unpack_f64_bits(inp: Seq<u8>) -> Result<(u64, Seq<u8>), UnpackError> {
    match spec_expect(inp, DOUBLE_CODE) {
        Ok(body) => if body.len() < 8 {
            Err(UnpackError::OutOfData)
        } else {
            let t = be_val(body.subrange(0, 8));
            let b = if t >= 0x8000_0000_0000_0000 {
                t - 0x8000_0000_0000_0000
            } else {
                0xFFFF_FFFF_FFFF_FFFF - t
            };
            Ok((b as u64, body.skip(8)))
        },
        Err(e) => Err(e),
    }
}

/// Append the encoding of a single-precision bit pattern.
pub fn pack_f32_bits(bits: u32, out: &mut Vec<u8>)
    ensures
        final(out)@ == old(out)@ + spec_pack_f32_bits(bits),
{
    out.push(FLOAT_CODE);
    let t: u32 = if bits < 0x8000_0000 {
        bits + 0x8000_0000
    } else {
        0xFFFF_FFFF - bits
    };
    push_be(out, t as u64, 4);
    proof {
        assert(out@ =~= old(out)@ + spec_pack_f32_bits(bits));
    }
}

/// Append the encoding of a double-precision bit pattern.
pub fn pack_f64_bits(bits: u64, out: &mut Vec<u8>)
    ensures
        final(out)@ == old(out)@ + spec_pack_f64_bits(bits),
{
    out.push(DOUBLE_CODE);
    let t: u64 = if bits < 0x8000_0000_0000_0000 {
        bits + 0x8000_0000_0000_0000
    } else {
        0xFFFF_FFFF_FFFF_FFFF - bits
    };
    push_be(out, t, 8);
    proof {
        assert(out@ =~= old(out)@ + spec_pack_f64_bits(bits));
    }
}

/// Decode a single-precision element back to its bit pattern.
pub fn unpack_f32_bits(inp: &[u8]) -> (r: Result<(u32, &[u8]), UnpackError>)
    ensures
        (match r {
            Ok(vr) => spec_unpack_f32_bits(inp@) == Ok::<(u32, Seq<u8>), UnpackError>((
                vr.0,
                vr.1@,
            )),
            Err(e) => spec_unpack_f32_bits(inp@) == Err::<(u32, Seq<u8>), UnpackError>(e),
        }),
{
    let body = crate::tuple::expect(inp, FLOAT_CODE)?;
    if body.len() < 4 {
        return Err(UnpackError::OutOfData);
    }
    let payload = vstd::slice::slice_subrange(body, 0, 4);
    let t = be_val_u64(payload);
    proof {
        crate::tuple::integer::lemma_be_val_bound(payload@);
        assert(pow256(4) == 0x1_0000_0000) by {
            reveal_with_fuel(pow256, 5);
        }
    }
    let t32 = t as u32;
    let bits: u32 = if t32 >= 0x8000_0000 {
        t32 - 0x8000_0000
    } else {
        0xFFFF_FFFF - t32
    };
    let rest = vstd::slice::slice_subrange(body, 4, body.len());
    proof {
        assert(body@.skip(4) =~= rest@);
    }
    Ok((bits, rest))
}

/// Decode a double-precision element back to its bit pattern.
pub fn unpack_f64_bits(inp: &[u8]) -> (r: Result<(u64, &[u8]), UnpackError>)
    ensures
        (match r {
            Ok(vr) => spec_unpack_f64_bits(inp@) == Ok::<(u64, Seq<u8>), UnpackError>((
                vr.0,
                vr.1@,
            )),
            Err(e) => spec_unpack_f64_bits(inp@) == Err::<(u64, Seq<u8>), UnpackError>(e),
        }),
{
    let body = crate::tuple::expect(inp, DOUBLE_CODE)?;
    if body.len() < 8 {
        return Err(UnpackError::OutOfData);
    }
    let payload = vstd::slice::slice_subrange(body, 0, 8);
    let t = be_val_u64(payload);
    proof {
        crate::tuple::integer::lemma_be_val_bound(payload@);
        assert(pow256(8) == 0x1_0000_0000_0000_0000) by {
            reveal_with_fuel(pow256, 9);
        }
    }
    let bits: u64 = if t >= 0x8000_0000_0000_0000 {
        t - 0x8000_0000_0000_0000
    } else {
        0xFFFF_FFFF_FFFF_FFFF - t
    };
    let rest = vstd::slice::slice_subrange(body, 8, body.len());
    proof {
        assert(body@.skip(8) =~= rest@);
    }
    Ok((bits, rest))
}

/// Round trip for single-precision patterns.
pub proof fn lemma_f32_bits_round_trip(b: u32, rest: Seq<u8>)
    ensures
        spec_unpack_f32_bits(spec_pack_f32_bits(b) + rest) == Ok::<(u32, Seq<u8>), UnpackError>((
            b,
            rest,
        )),
{
    let t = sortable_bits_32(b);
    assert(pow256(4) == 0x1_0000_0000) by {
        reveal_with_fuel(pow256, 5);
    }
    lemma_be_bytes_len(t, 4);
    let inp = spec_pack_f32_bits(b) + rest;
    assert(inp[0] == FLOAT_CODE);
    let body = inp.drop_first();
    assert(body =~= be_bytes(t, 4) + rest);
    assert(body.subrange(0, 4) =~= be_bytes(t, 4));
    assert(body.skip(4) =~= rest);
    lemma_be_val_of_be_bytes(t, 4);
}

/// Round trip for double-precision patterns.
pub proof fn lemma_f64_bits_round_trip(b: u64, rest: Seq<u8>)
    ensures
        spec_unpack_f64_bits(spec_pack_f64_bits(b) + rest) == Ok::<(u64, Seq<u8>), UnpackError>((
            b,
            rest,
        )),
{
    let t = sortable_bits_64(b);
    assert(pow256(8) == 0x1_0000_0000_0000_0000) by {
        reveal_with_fuel(pow256, 9);
    }
    lemma_be_bytes_len(t, 8);
    let inp = spec_pack_f64_bits(b) + rest;
    assert(inp[0] == DOUBLE_CODE);
    let body = inp.drop_first();
    assert(body =~= be_bytes(t, 8) + rest);
    assert(body.subrange(0, 8) =~= be_bytes(t, 8));
    assert(body.skip(8) =~= rest);
    lemma_be_val_of_be_bytes(t, 8);
}

/// Order preservation for single-precision patterns: when the mapped
/// values are ordered — and the map carries the numeric order of the
/// floats — so are the encodings.
pub proof fn lemma_pack_f32_bits_order(a: u32, b: u32)
    requires
        sortable_bits_32(a) < sortable_bits_32(b),
    ensures
        lex_lt(spec_pack_f32_bits(a), spec_pack_f32_bits(b)),
{
    assert(pow256(4) == 0x1_0000_0000) by {
        reveal_with_fuel(pow256, 5);
    }
    lemma_be_bytes_order(sortable_bits_32(a), sortable_bits_32(b), 4);
    lemma_lex_lt_cons(FLOAT_CODE, be_bytes(sortable_bits_32(a), 4), be_bytes(sortable_bits_32(b), 4));
}

/// Order preservation for double-precision patterns.
pub proof fn lemma_pack_f64_bits_order(a: u64, b: u64)
    requires
        sortable_bits_64(a) < sortable_bits_64(b),
    ensures
        lex_lt(spec_pack_f64_bits(a), spec_pack_f64_bits(b)),
{
    assert(pow256(8) == 0x1_0000_0000_0000_0000) by {
        reveal_with_fuel(pow256, 9);
    }
    lemma_be_bytes_order(sortable_bits_64(a), sortable_bits_64(b), 8);
    lemma_lex_lt_cons(DOUBLE_CODE, be_bytes(sortable_bits_64(a), 8), be_bytes(sortable_bits_64(b), 8));
}

} // verus!
