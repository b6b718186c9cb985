//! The tuple codec: type-tagged, order-preserving encodings of scalar and
//! composite values.
//!
//! Every encodable type implements [`Pack`], and every decodable type
//! implements [`Unpack`]. Both traits carry a mathematical model of the
//! value (`Model`) and of the byte layout (`spec_pack`, `spec_unpack`),
//! so that the encoding itself — not just the code — is the object of the
//! contracts. Each `Unpack` implementation is obliged to prove
//! [`Unpack::lemma_round_trip`]: decoding an encoding yields the value back
//! with nothing left over.

use vstd::prelude::*;

pub mod booleans;
pub mod bytes;
pub mod float;
pub mod integer;
pub mod optional;
pub mod tuples;
pub mod uuid;

verus! {

/// Type code for a null / absent value.
pub const NULL_CODE: u8 = 0x00;
/// Type code for a byte string.
pub const BYTES_CODE: u8 = 0x01;
/// Type code for a UTF-8 string.
pub const STRING_CODE: u8 = 0x02;
/// Type code wrapping a tuple that occurs as an element of another tuple.
pub const NESTED_CODE: u8 = 0x05;
/// Code reserved for negative integers of 9 or more magnitude bytes.
pub const NEG_INT_START: u8 = 0x0b;
/// Type code for the integer zero; `ZERO ± n` tags an `n`-byte magnitude.
pub const INT_ZERO_CODE: u8 = 0x14;
/// Code reserved for positive integers of 9 or more magnitude bytes.
pub const POS_INT_END: u8 = 0x1d;
/// Type code for a single-precision float (over its bit pattern).
pub const FLOAT_CODE: u8 = 0x20;
/// Type code for a double-precision float (over its bit pattern).
pub const DOUBLE_CODE: u8 = 0x21;
/// Type code for boolean false.
pub const FALSE_CODE: u8 = 0x26;
/// Type code for boolean true; false sorts before true.
pub const TRUE_CODE: u8 = 0x27;
/// Type code for a 128-bit identifier (16 raw bytes).
pub const UUID_CODE: u8 = 0x30;

/// Why a decode failed. Every decode path returns one of these; none panics.
#[derive(Debug, Clone, Copy, PartialEq, Eq, Structural)]
pub enum UnpackError {
    /// The leading byte is not a code valid for the type being decoded.
    WrongCode,
    /// The buffer ends before the value is complete.
    OutOfData,
    /// A decoded integer does not fit the requested width.
    OutOfRange,
    /// A decoded byte string is not valid UTF-8 where a string was expected.
    BadEncoding,
    /// The input does not start with the subspace prefix.
    MissingPrefix,
    /// Bytes remain after the expected tuple shape was decoded.
    TrailingData,
}

/// Strict lexicographic order on byte strings: `a` comes before `b` when `a`
/// is a proper prefix of `b`, or when they differ at the first diverging
/// position.
pub open spec fn lex_lt(a: Seq<u8>, b: Seq<u8>) -> bool
    decreases a.len(),
{
    &&& b.len() > 0
    &&& {
        ||| a.len() == 0
        ||| a[0] < b[0]
        ||| (a[0] == b[0] && lex_lt(a.drop_first(), b.drop_first()))
    }
}

/// Non-empty strings whose first bytes differ compare by those bytes.
pub proof fn lemma_lex_lt_first(a: Seq<u8>, b: Seq<u8>)
    requires
        a.len() > 0,
        b.len() > 0,
        a[0] < b[0],
    ensures
        lex_lt(a, b),
{
}

/// A shared first byte does not affect the comparison.
pub proof fn lemma_lex_lt_cons(c: u8, a: Seq<u8>, b: Seq<u8>)
    requires
        lex_lt(a, b),
    ensures
        lex_lt(seq![c] + a, seq![c] + b),
{
    assert((seq![c] + a).drop_first() =~= a);
    assert((seq![c] + b).drop_first() =~= b);
}

/// A shared prefix does not affect the comparison.
pub proof fn lemma_lex_lt_append(p: Seq<u8>, x: Seq<u8>, y: Seq<u8>)
    requires
        lex_lt(x, y),
    ensures
        lex_lt(p + x, p + y),
    decreases p.len(),
{
    if p.len() == 0 {
        assert(p + x =~= x);
        assert(p + y =~= y);
    } else {
        lemma_lex_lt_append(p.drop_first(), x, y);
        assert((p + x).drop_first() =~= p.drop_first() + x);
        assert((p + y).drop_first() =~= p.drop_first() + y);
    }
}

/// Strings of equal length that already compare strictly keep comparing
/// strictly whatever is appended to each.
pub proof fn lemma_lex_lt_append_same_len(a: Seq<u8>, b: Seq<u8>, x: Seq<u8>, y: Seq<u8>)
    requires
        a.len() == b.len(),
        lex_lt(a, b),
    ensures
        lex_lt(a + x, b + y),
    decreases a.len(),
{
    if a[0] == b[0] {
        lemma_lex_lt_append_same_len(a.drop_first(), b.drop_first(), x, y);
        assert((a + x).drop_first() =~= a.drop_first() + x);
        assert((b + y).drop_first() =~= b.drop_first() + y);
    }
}

/// What [`expect`] returns: the input without its first byte if that byte is
/// the expected code, and the matching error otherwise.
pub open spec fn spec_expect(inp: Seq<u8>, expected: u8) -> Result<Seq<u8>, UnpackError> {
    if inp.len() == 0 {
        Err(UnpackError::OutOfData)
    } else if inp[0] == expected {
        Ok(inp.drop_first())
    } else {
        Err(UnpackError::WrongCode)
    }
}

/// Consume one expected code byte from the front of the input.
pub fn expect(inp: &[u8], expected: u8) -> (r: Result<&[u8], UnpackError>)
    ensures
        (match r {
            Ok(rest) => spec_expect(inp@, expected) == Ok::<Seq<u8>, UnpackError>(rest@),
            Err(e) => spec_expect(inp@, expected) == Err::<Seq<u8>, UnpackError>(e),
        }),
{
    if inp.len() == 0 {
        Err(UnpackError::OutOfData)
    } else if *vstd::slice::slice_index_get(inp, 0) == expected {
        let rest = vstd::slice::slice_subrange(inp, 1, inp.len());
        proof {
            assert(rest@ =~= inp@.drop_first());
        }
        Ok(rest)
    } else {
        Err(UnpackError::WrongCode)
    }
}

/// A value that can be encoded as one element of a key tuple.
pub trait Pack {
    /// The mathematical value that the encoding represents.
    type Model;

    /// The model of this value.
    spec fn model(&self) -> Self::Model;

    /// The exact bytes that [`Pack::pack`] appends for a value with model
    /// `m`. `nested` tells whether the value occurs as an element inside
    /// another tuple; only tuple values encode differently for it.
    spec fn spec_pack(m: Self::Model, nested: bool) -> Seq<u8>;

    /// Append the encoding of `self` to `out`.
    fn pack(&self, out: &mut Vec<u8>, nested: bool)
        ensures
            final(out)@ == old(out)@ + Self::spec_pack(self.model(), nested),
    ;
}

/// A value that can be decoded back from the front of a byte buffer.
pub trait Unpack: Pack + Sized {
    /// The exact outcome of decoding: either the decoded model and the
    /// unconsumed remainder of the input, or the error, as a total function
    /// of the input bytes.
    spec fn spec_unpack(inp: Seq<u8>, nested: bool) -> Result<(Self::Model, Seq<u8>), UnpackError>;

    /// Whether the encoding of `m` decodes back unambiguously at this
    /// nesting. This is `true` everywhere except for the optional values
    /// whose inner encoding collides with the null code or depends on the
    /// nesting flag.
    spec fn unambiguous(m: Self::Model, nested: bool) -> bool;

    /// The shape of an unambiguous value's encoding: it is non-empty
    /// whenever the value is nested, and it never begins with `0xFF`, which
    /// is above every type code. This is what lets `0xFF` close a subspace
    /// range beyond every encoded element, and what keeps the byte after a
    /// terminator from reading as part of an escape.
    proof fn lemma_pack_shape(m: Self::Model, nested: bool)
        requires
            Self::unambiguous(m, nested),
        ensures
            nested ==> Self::spec_pack(m, nested).len() > 0,
            Self::spec_pack(m, nested).len() > 0 ==> Self::spec_pack(m, nested)[0] < 0xFF,
    ;

    /// Round trip: decoding an encoding yields the encoded value and leaves
    /// exactly the trailing bytes, for every unambiguous value. The trailing
    /// bytes may not begin with `0xFF`, which no encoded element starts
    /// with (see [`Unpack::lemma_pack_shape`]): right after a terminator
    /// byte, a `0xFF` would read as the escape of a `0x00` instead.
    proof fn lemma_round_trip(m: Self::Model, rest: Seq<u8>, nested: bool)
        requires
            Self::unambiguous(m, nested),
            rest.len() == 0 || rest[0] != 0xFF,
        ensures
            Self::spec_unpack(Self::spec_pack(m, nested) + rest, nested)
                == Ok::<(Self::Model, Seq<u8>), UnpackError>((m, rest)),
    ;

    /// Decode one value from the front of `inp`, returning it with the
    /// unconsumed remainder.
    fn unpack(inp: &[u8], nested: bool) -> (r: Result<(Self, &[u8]), UnpackError>)
        ensures
            (match r {
                Ok(vr) => Self::spec_unpack(inp@, nested)
                    == Ok::<(Self::Model, Seq<u8>), UnpackError>((vr.0.model(), vr.1@)),
                Err(e) => Self::spec_unpack(inp@, nested)
                    == Err::<(Self::Model, Seq<u8>), UnpackError>(e),
            }),
    ;
}

} // verus!
