//! Byte string and UTF-8 string codec.
//!
//! The content bytes follow the type code with every literal `0x00` escaped
//! as `0x00 0xFF`, and a bare `0x00` terminator closes the element, so the
//! encoding is self-delimiting while an embedded NUL still sorts below
//! every other byte.

use vstd::prelude::*;
use vstd::string::StringSliceAdditionalSpecFns;
use vstd::utf8::{
    char_is_scalar, decode_utf8, encode_scalar, encode_utf8, encode_utf8_decode_utf8,
    encode_utf8_valid_utf8, has_width_1_encoding, has_width_2_encoding, has_width_3_encoding,
    is_scalar, valid_utf8,
};

use crate::tuple::{
    lex_lt, lemma_lex_lt_append, lemma_lex_lt_cons, lemma_lex_lt_first, spec_expect, Pack, Unpack,
    UnpackError, BYTES_CODE, STRING_CODE,
};

verus! {

/// The escaped form of content bytes: each `0x00` becomes `0x00 0xFF`.
pub open spec fn escape(s: Seq<u8>) -> Seq<u8>
    decreases s.len(),
{
    if s.len() == 0 {
        Seq::empty()
    } else if s[0] == 0x00 {
        seq![0x00u8, 0xFFu8] + escape(s.drop_first())
    } else {
        seq![s[0]] + escape(s.drop_first())
    }
}

/// The body of a bytes or string element: escaped content plus the
/// terminator byte.
pub open spec fn spec_pack_bytes(s: Seq<u8>) -> Seq<u8> {
    escape(s) + seq![0x00u8]
}

/// The exact outcome of the escaping scan: the recovered content bytes and
/// whatever follows the terminator. A `0x00` followed by `0xFF` is a
/// literal `0x00`; a bare `0x00` (or the end of the buffer) ends the
/// element.
pub open spec fn spec_unpack_bytes(s: Seq<u8>) -> (Seq<u8>, Seq<u8>)
    decreases s.len(),
{
    if s.len() == 0 {
        (Seq::empty(), Seq::empty())
    } else if s[0] == 0x00 {
        if s.len() >= 2 && s[1] == 0xFF {
            let r = spec_unpack_bytes(s.subrange(2, s.len() as int));
            (seq![0x00u8] + r.0, r.1)
        } else {
            (Seq::empty(), s.drop_first())
        }
    } else {
        let r = spec_unpack_bytes(s.drop_first());
        (seq![s[0]] + r.0, r.1)
    }
}

/// Escaping distributes over concatenation.
pub proof fn lemma_escape_append(a: Seq<u8>, b: Seq<u8>)
    ensures
        escape(a + b) == escape(a) + escape(b),
    decreases a.len(),
{
    if a.len() == 0 {
        assert(a + b =~= b);
        assert(escape(a) + escape(b) =~= escape(b));
    } else {
        lemma_escape_append(a.drop_first(), b);
        assert((a + b).drop_first() =~= a.drop_first() + b);
        assert(escape(a + b) =~= escape(a) + escape(b));
    }
}

/// Round trip of the escaping scan: the escaped and terminated content
/// reads back exactly, provided what follows the terminator does not start
/// with `0xFF`.
pub proof fn lemma_unpack_bytes_of_pack_bytes(v: Seq<u8>, rest: Seq<u8>)
    requires
        rest.len() == 0 || rest[0] != 0xFF,
    ensures
        spec_unpack_bytes(spec_pack_bytes(v) + rest) == (v, rest),
    decreases v.len(),
{
    let inp = spec_pack_bytes(v) + rest;
    if v.len() == 0 {
        assert(inp[0] == 0x00);
        assert(inp.drop_first() =~= rest);
    } else if v[0] == 0x00 {
        lemma_unpack_bytes_of_pack_bytes(v.drop_first(), rest);
        assert(inp.subrange(2, inp.len() as int) =~= spec_pack_bytes(v.drop_first()) + rest);
        assert(seq![0x00u8] + v.drop_first() =~= v);
    } else {
        lemma_unpack_bytes_of_pack_bytes(v.drop_first(), rest);
        assert(inp.drop_first() =~= spec_pack_bytes(v.drop_first()) + rest);
        assert(seq![v[0]] + v.drop_first() =~= v);
    }
}

/// Order preservation of the escaped body: lexicographic order of the raw
/// content, embedded NULs included, is preserved by escaping and
/// termination.
pub proof fn lemma_pack_bytes_order(a: Seq<u8>, b: Seq<u8>)
    requires
        lex_lt(a, b),
    ensures
        lex_lt(spec_pack_bytes(a), spec_pack_bytes(b)),
    decreases a.len(),
{
    let ea = spec_pack_bytes(a);
    let eb = spec_pack_bytes(b);
    if a.len() == 0 {
        if b[0] == 0x00 {
            assert(ea =~= seq![0x00u8]);
            assert(eb =~= seq![0x00u8, 0xFFu8] + (escape(b.drop_first()) + seq![0x00u8]));
            assert(ea[0] == eb[0]);
            assert(ea.drop_first() =~= Seq::<u8>::empty());
            assert(eb.drop_first().len() > 0);
            assert(lex_lt(ea.drop_first(), eb.drop_first()));
        } else {
            lemma_lex_lt_first(ea, eb);
        }
    } else if a[0] < b[0] {
        if a[0] == 0x00 {
            assert(ea[0] == 0x00 && eb[0] == b[0]);
            lemma_lex_lt_first(ea, eb);
        } else {
            lemma_lex_lt_first(ea, eb);
        }
    } else {
        lemma_pack_bytes_order(a.drop_first(), b.drop_first());
        if a[0] == 0x00 {
            lemma_lex_lt_append(
                seq![0x00u8, 0xFFu8],
                spec_pack_bytes(a.drop_first()),
                spec_pack_bytes(b.drop_first()),
            );
            assert(ea =~= seq![0x00u8, 0xFFu8] + spec_pack_bytes(a.drop_first()));
            assert(eb =~= seq![0x00u8, 0xFFu8] + spec_pack_bytes(b.drop_first()));
        } else {
            lemma_lex_lt_append(
                seq![a[0]],
                spec_pack_bytes(a.drop_first()),
                spec_pack_bytes(b.drop_first()),
            );
            assert(ea =~= seq![a[0]] + spec_pack_bytes(a.drop_first()));
            assert(eb =~= seq![b[0]] + spec_pack_bytes(b.drop_first()));
        }
    }
}

/// Strict lexicographic order on character sequences, by code point: the
/// natural order of strings.
pub open spec fn lex_lt_chars(a: Seq<char>, b: Seq<char>) -> bool
    decreases a.len(),
{
    &&& b.len() > 0
    &&& {
        ||| a.len() == 0
        ||| (a[0] as u32) < (b[0] as u32)
        ||| (a[0] == b[0] && lex_lt_chars(a.drop_first(), b.drop_first()))
    }
}

proof fn lemma_encode_scalar_nonempty(u: u32)
    ensures
        encode_scalar(u).len() > 0,
{
}

/// UTF-8 encodes smaller scalars to byte strings that stay smaller under
/// any continuation: the widths are told apart by the leading byte, and
/// within a width the bytes compare as the scalars do.
proof fn lemma_encode_scalar_order(u: u32, v: u32, x: Seq<u8>, y: Seq<u8>)
    requires
        is_scalar(u),
        is_scalar(v),
        u < v,
    ensures
        lex_lt(encode_scalar(u) + x, encode_scalar(v) + y),
{
    let eu = encode_scalar(u) + x;
    let ev = encode_scalar(v) + y;
    lemma_encode_scalar_nonempty(u);
    lemma_encode_scalar_nonempty(v);
    if has_width_1_encoding(v) {
        // u < v <= 0x7F: both one byte, compared directly
        assert(((u & 0x7F) as u8) < ((v & 0x7F) as u8)) by (bit_vector)
            requires
                u < v,
                v <= 0x7F,
        ;
        lemma_lex_lt_first(eu, ev);
    } else if has_width_1_encoding(u) {
        // one byte against a longer width: 0x7F below every longer leading byte
        assert(((u & 0x7F) as u8) <= 0x7F && (0xC0u8 | (((v >> 6) & 0x1F) as u8)) >= 0xC0 && (
        0xE0u8 | (((v >> 12) & 0x0F) as u8)) >= 0xE0 && (0xF0u8 | (((v >> 18) & 0x7) as u8))
            >= 0xF0) by (bit_vector)
            requires
                u <= 0x7F,
        ;
        lemma_lex_lt_first(eu, ev);
    } else if has_width_2_encoding(v) {
        // u is width 2 as well, since it is above 0x7F and below v
        assert(has_width_2_encoding(u));
        assert((0xC0u8 | (((u >> 6) & 0x1F) as u8)) < (0xC0u8 | (((v >> 6) & 0x1F) as u8)) || ((
        0xC0u8 | (((u >> 6) & 0x1F) as u8)) == (0xC0u8 | (((v >> 6) & 0x1F) as u8)) && (0x80u8 | ((
        u & 0x3F) as u8)) < (0x80u8 | ((v & 0x3F) as u8)))) by (bit_vector)
            requires
                u < v,
                0x80 <= u <= 0x7FF,
                0x80 <= v <= 0x7FF,
        ;
        if eu[0] < ev[0] {
            lemma_lex_lt_first(eu, ev);
        } else {
            assert(eu.drop_first() =~= seq![(0x80u8 | ((u & 0x3F) as u8))] + x);
            assert(ev.drop_first() =~= seq![(0x80u8 | ((v & 0x3F) as u8))] + y);
            lemma_lex_lt_first(eu.drop_first(), ev.drop_first());
        }
    } else if has_width_2_encoding(u) {
        // width 2 against width 3 or 4: 0xDF below 0xE0 and 0xF0
        assert((0xC0u8 | (((u >> 6) & 0x1F) as u8)) <= 0xDF && (0xE0u8 | (((v >> 12) & 0x0F)
            as u8)) >= 0xE0 && (0xF0u8 | (((v >> 18) & 0x7) as u8)) >= 0xF0) by (bit_vector);
        lemma_lex_lt_first(eu, ev);
    } else if has_width_3_encoding(v) {
        assert(has_width_3_encoding(u));
        let lu = (0xE0u8 | (((u >> 12) & 0x0F) as u8));
        let lv = (0xE0u8 | (((v >> 12) & 0x0F) as u8));
        let mu = (0x80u8 | (((u >> 6) & 0x3F) as u8));
        let mv = (0x80u8 | (((v >> 6) & 0x3F) as u8));
        let su = (0x80u8 | ((u & 0x3F) as u8));
        let sv = (0x80u8 | ((v & 0x3F) as u8));
        assert((0xE0u8 | (((u >> 12) & 0x0F) as u8)) < (0xE0u8 | (((v >> 12) & 0x0F) as u8)) || ((
        0xE0u8 | (((u >> 12) & 0x0F) as u8)) == (0xE0u8 | (((v >> 12) & 0x0F) as u8)) && (0x80u8
            | (((u >> 6) & 0x3F) as u8)) < (0x80u8 | (((v >> 6) & 0x3F) as u8))) || ((0xE0u8 | (((u
            >> 12) & 0x0F) as u8)) == (0xE0u8 | (((v >> 12) & 0x0F) as u8)) && (0x80u8 | (((u >> 6)
            & 0x3F) as u8)) == (0x80u8 | (((v >> 6) & 0x3F) as u8)) && (0x80u8 | ((u & 0x3F)
            as u8)) < (0x80u8 | ((v & 0x3F) as u8)))) by (bit_vector)
            requires
                u < v,
                0x800 <= u <= 0xFFFF,
                0x800 <= v <= 0xFFFF,
        ;
        if lu < lv {
            lemma_lex_lt_first(eu, ev);
        } else {
            assert(eu.drop_first() =~= seq![mu, su] + x);
            assert(ev.drop_first() =~= seq![mv, sv] + y);
            if mu < mv {
                lemma_lex_lt_first(eu.drop_first(), ev.drop_first());
            } else {
                assert(eu.drop_first().drop_first() =~= seq![su] + x);
                assert(ev.drop_first().drop_first() =~= seq![sv] + y);
                lemma_lex_lt_first(eu.drop_first().drop_first(), ev.drop_first().drop_first());
                assert(lex_lt(eu.drop_first(), ev.drop_first()));
            }
        }
    } else if has_width_3_encoding(u) {
        // width 3 against width 4: 0xEF below 0xF0
        assert((0xE0u8 | (((u >> 12) & 0x0F) as u8)) <= 0xEF && (0xF0u8 | (((v >> 18) & 0x7)
            as u8)) >= 0xF0) by (bit_vector);
        lemma_lex_lt_first(eu, ev);
    } else {
        // both width 4
        let lu = (0xF0u8 | (((u >> 18) & 0x7) as u8));
        let lv = (0xF0u8 | (((v >> 18) & 0x7) as u8));
        let tu = (0x80u8 | (((u >> 12) & 0x3F) as u8));
        let tv = (0x80u8 | (((v >> 12) & 0x3F) as u8));
        let mu = (0x80u8 | (((u >> 6) & 0x3F) as u8));
        let mv = (0x80u8 | (((v >> 6) & 0x3F) as u8));
        let su = (0x80u8 | ((u & 0x3F) as u8));
        let sv = (0x80u8 | ((v & 0x3F) as u8));
        assert((0xF0u8 | (((u >> 18) & 0x7) as u8)) < (0xF0u8 | (((v >> 18) & 0x7) as u8)) || ((
        0xF0u8 | (((u >> 18) & 0x7) as u8)) == (0xF0u8 | (((v >> 18) & 0x7) as u8)) && (0x80u8 | (((
        u >> 12) & 0x3F) as u8)) < (0x80u8 | (((v >> 12) & 0x3F) as u8))) || ((0xF0u8 | (((u >> 18)
            & 0x7) as u8)) == (0xF0u8 | (((v >> 18) & 0x7) as u8)) && (0x80u8 | (((u >> 12) & 0x3F)
            as u8)) == (0x80u8 | (((v >> 12) & 0x3F) as u8)) && (0x80u8 | (((u >> 6) & 0x3F)
            as u8)) < (0x80u8 | (((v >> 6) & 0x3F) as u8))) || ((0xF0u8 | (((u >> 18) & 0x7)
            as u8)) == (0xF0u8 | (((v >> 18) & 0x7) as u8)) && (0x80u8 | (((u >> 12) & 0x3F)
            as u8)) == (0x80u8 | (((v >> 12) & 0x3F) as u8)) && (0x80u8 | (((u >> 6) & 0x3F)
            as u8)) == (0x80u8 | (((v >> 6) & 0x3F) as u8)) && (0x80u8 | ((u & 0x3F) as u8)) < (
        0x80u8 | ((v & 0x3F) as u8)))) by (bit_vector)
            requires
                u < v,
                0x10000 <= u <= 0x10FFFF,
                0x10000 <= v <= 0x10FFFF,
        ;
        if lu < lv {
            lemma_lex_lt_first(eu, ev);
        } else {
            assert(eu.drop_first() =~= seq![tu, mu, su] + x);
            assert(ev.drop_first() =~= seq![tv, mv, sv] + y);
            if tu < tv {
                lemma_lex_lt_first(eu.drop_first(), ev.drop_first());
            } else {
                assert(eu.drop_first().drop_first() =~= seq![mu, su] + x);
                assert(ev.drop_first().drop_first() =~= seq![mv, sv] + y);
                if mu < mv {
                    lemma_lex_lt_first(eu.drop_first().drop_first(), ev.drop_first().drop_first());
                    assert(lex_lt(eu.drop_first(), ev.drop_first()));
                } else {
                    assert(eu.drop_first().drop_first().drop_first() =~= seq![su] + x);
                    assert(ev.drop_first().drop_first().drop_first() =~= seq![sv] + y);
                    lemma_lex_lt_first(
                        eu.drop_first().drop_first().drop_first(),
                        ev.drop_first().drop_first().drop_first(),
                    );
                    assert(lex_lt(eu.drop_first().drop_first(), ev.drop_first().drop_first()));
                    assert(lex_lt(eu.drop_first(), ev.drop_first()));
                }
            }
        }
    }
}

/// UTF-8 preserves the order of texts: character order of two sequences,
/// by code point, is lexicographic order of their encoded bytes.
pub proof fn lemma_encode_utf8_order(a: Seq<char>, b: Seq<char>)
    requires
        lex_lt_chars(a, b),
    ensures
        lex_lt(encode_utf8(a), encode_utf8(b)),
    decreases a.len(),
{
    lemma_encode_scalar_nonempty(b[0] as u32);
    if a.len() == 0 {
        assert(encode_utf8(b).len() > 0);
    } else if (a[0] as u32) < (b[0] as u32) {
        char_is_scalar(a[0]);
        char_is_scalar(b[0]);
        lemma_encode_scalar_order(
            a[0] as u32,
            b[0] as u32,
            encode_utf8(a.drop_first()),
            encode_utf8(b.drop_first()),
        );
    } else {
        lemma_encode_utf8_order(a.drop_first(), b.drop_first());
        lemma_lex_lt_append(
            encode_scalar(a[0] as u32),
            encode_utf8(a.drop_first()),
            encode_utf8(b.drop_first()),
        );
    }
}

/// Order preservation for whole byte-string elements: numeric order of the
/// content bytes, embedded NULs included, is lexicographic order of the
/// encodings.
pub proof fn lemma_pack_byte_string_order(a: Seq<u8>, b: Seq<u8>)
    requires
        lex_lt(a, b),
    ensures
        lex_lt(
            <Vec<u8> as Pack>::spec_pack(a, false),
            <Vec<u8> as Pack>::spec_pack(b, false),
        ),
{
    lemma_pack_bytes_order(a, b);
    lemma_lex_lt_cons(BYTES_CODE, spec_pack_bytes(a), spec_pack_bytes(b));
}

/// Order preservation for whole string elements in their natural order:
/// character order of the texts, by code point, is lexicographic order of
/// the encodings.
pub proof fn lemma_pack_string_order(a: Seq<char>, b: Seq<char>)
    requires
        lex_lt_chars(a, b),
    ensures
        lex_lt(
            <String as Pack>::spec_pack(a, false),
            <String as Pack>::spec_pack(b, false),
        ),
{
    lemma_encode_utf8_order(a, b);
    lemma_pack_bytes_order(encode_utf8(a), encode_utf8(b));
    lemma_lex_lt_cons(STRING_CODE, spec_pack_bytes(encode_utf8(a)), spec_pack_bytes(encode_utf8(b)));
}

/// Append the escaped content bytes and the terminator.
pub fn pack_bytes(inp: &[u8], out: &mut Vec<u8>)
    ensures
        final(out)@ == old(out)@ + spec_pack_bytes(inp@),
{
    let mut i: usize = 0;
    proof {
        assert(inp@.subrange(0, 0) =~= Seq::<u8>::empty());
        assert(out@ =~= old(out)@ + escape(inp@.subrange(0, 0)));
    }
    while i < inp.len()
        invariant
            i <= inp@.len(),
            out@ == old(out)@ + escape(inp@.subrange(0, i as int)),
        decreases inp@.len() - i,
    {
        let b = *vstd::slice::slice_index_get(inp, i);
        out.push(b);
        if b == 0x00 {
            out.push(0xFF);
        }
        proof {
            reveal_with_fuel(escape, 2);
            lemma_escape_append(inp@.subrange(0, i as int), seq![inp@[i as int]]);
            assert(inp@.subrange(0, i + 1) =~= inp@.subrange(0, i as int) + seq![inp@[i as int]]);
            assert(seq![inp@[i as int]].drop_first() =~= Seq::<u8>::empty());
            if b == 0x00 {
                assert(escape(seq![inp@[i as int]]) =~= seq![0x00u8, 0xFFu8]);
            } else {
                assert(escape(seq![inp@[i as int]]) =~= seq![inp@[i as int]]);
            }
            assert(out@ =~= old(out)@ + escape(inp@.subrange(0, i + 1)));
        }
        i = i + 1;
    }
    out.push(0x00);
    proof {
        assert(inp@.subrange(0, inp@.len() as int) =~= inp@);
        assert(out@ =~= old(out)@ + spec_pack_bytes(inp@));
    }
}

/// Scan the escaped content up to the terminator (or the end of the
/// buffer), returning the recovered bytes and what follows.
pub fn unpack_bytes(inp: &[u8]) -> (r: (Vec<u8>, &[u8]))
    ensures
        r.0@ == spec_unpack_bytes(inp@).0,
        r.1@ == spec_unpack_bytes(inp@).1,
{
    let mut out: Vec<u8> = Vec::new();
    let mut i: usize = 0;
    proof {
        assert(inp@.subrange(0, inp@.len() as int) =~= inp@);
        assert(Seq::<u8>::empty() + spec_unpack_bytes(inp@).0 =~= spec_unpack_bytes(inp@).0);
    }
    while i < inp.len()
        invariant
            i <= inp@.len(),
            spec_unpack_bytes(inp@).0 == out@ + spec_unpack_bytes(
                inp@.subrange(i as int, inp@.len() as int),
            ).0,
            spec_unpack_bytes(inp@).1 == spec_unpack_bytes(
                inp@.subrange(i as int, inp@.len() as int),
            ).1,
        decreases inp@.len() - i,
    {
        let ghost tail = inp@.subrange(i as int, inp@.len() as int);
        let b = *vstd::slice::slice_index_get(inp, i);
        if b == 0x00 {
            if i + 1 < inp.len() && *vstd::slice::slice_index_get(inp, i + 1) == 0xFF {
                out.push(0x00);
                proof {
                    assert(tail.subrange(2, tail.len() as int) =~= inp@.subrange(
                        i + 2,
                        inp@.len() as int,
                    ));
                    assert(out@ + spec_unpack_bytes(inp@.subrange(i + 2, inp@.len() as int)).0
                        =~= spec_unpack_bytes(inp@).0);
                }
                i = i + 2;
            } else {
                let rest = vstd::slice::slice_subrange(inp, i + 1, inp.len());
                proof {
                    assert(tail.drop_first() =~= rest@);
                    assert(out@ + Seq::<u8>::empty() =~= out@);
                }
                return (out, rest);
            }
        } else {
            out.push(b);
            proof {
                assert(tail.drop_first() =~= inp@.subrange(i + 1, inp@.len() as int));
                assert(out@ + spec_unpack_bytes(inp@.subrange(i + 1, inp@.len() as int)).0
                    =~= spec_unpack_bytes(inp@).0);
            }
            i = i + 1;
        }
    }
    let rest = vstd::slice::slice_subrange(inp, inp.len(), inp.len());
    proof {
        assert(inp@.subrange(inp@.len() as int, inp@.len() as int) =~= Seq::<u8>::empty());
        assert(rest@ =~= Seq::<u8>::empty());
        assert(out@ + Seq::<u8>::empty() =~= out@);
    }
    (out, rest)
}

impl Pack for Vec<u8> {
    type Model = Seq<u8>;

    open spec fn model(&self) -> Seq<u8> {
        self@
    }

    open spec fn spec_pack(m: Seq<u8>, nested: bool) -> Seq<u8> {
        seq![BYTES_CODE] + spec_pack_bytes(m)
    }

    fn pack(&self, out: &mut Vec<u8>, nested: bool) {
        out.push(BYTES_CODE);
        pack_bytes(self.as_slice(), out);
        proof {
            assert(out@ =~= old(out)@ + Self::spec_pack(self.model(), nested));
        }
    }
}

impl Unpack for Vec<u8> {
    open spec fn spec_unpack(inp: Seq<u8>, nested: bool) -> Result<(Seq<u8>, Seq<u8>), UnpackError> {
        match spec_expect(inp, BYTES_CODE) {
            Ok(body) => Ok(spec_unpack_bytes(body)),
            Err(e) => Err(e),
        }
    }

    open spec fn unambiguous(m: Seq<u8>, nested: bool) -> bool {
        true
    }

    proof fn lemma_pack_shape(m: Seq<u8>, nested: bool) {
    }

    proof fn lemma_round_trip(m: Seq<u8>, rest: Seq<u8>, nested: bool) {
        let inp = Self::spec_pack(m, nested) + rest;
        assert(inp[0] == BYTES_CODE);
        assert(inp.drop_first() =~= spec_pack_bytes(m) + rest);
        lemma_unpack_bytes_of_pack_bytes(m, rest);
    }

    fn unpack(inp: &[u8], nested: bool) -> (r: Result<(Vec<u8>, &[u8]), UnpackError>) {
        let body = crate::tuple::expect(inp, BYTES_CODE)?;
        let (content, rest) = unpack_bytes(body);
        Ok((content, rest))
    }
}

/// Relies on `String::from_utf8` of std: returns the string whose UTF-8
/// bytes are exactly the input when the input is valid UTF-8, and nothing
/// otherwise.
#[verifier::external_body]
fn string_from_utf8(v: Vec<u8>) -> (r: Option<String>)
    ensures
        r is Some <==> valid_utf8(v@),
        (match r {
            Some(s) => s@ == decode_utf8(v@),
            None => true,
        }),
{
    String::from_utf8(v).ok()
}

impl Pack for String {
    type Model = Seq<char>;

    open spec fn model(&self) -> Seq<char> {
        self@
    }

    open spec fn spec_pack(m: Seq<char>, nested: bool) -> Seq<u8> {
        seq![STRING_CODE] + spec_pack_bytes(encode_utf8(m))
    }

    fn pack(&self, out: &mut Vec<u8>, nested: bool) {
        out.push(STRING_CODE);
        pack_bytes(self.as_str().as_bytes(), out);
        proof {
            assert(out@ =~= old(out)@ + Self::spec_pack(self.model(), nested));
        }
    }
}

impl Unpack for String {
    open spec fn spec_unpack(inp: Seq<u8>, nested: bool) -> Result<(Seq<char>, Seq<u8>), UnpackError> {
        match spec_expect(inp, STRING_CODE) {
            Ok(body) => {
                let r = spec_unpack_bytes(body);
                if valid_utf8(r.0) {
                    Ok((decode_utf8(r.0), r.1))
                } else {
                    Err(UnpackError::BadEncoding)
                }
            },
            Err(e) => Err(e),
        }
    }

    open spec fn unambiguous(m: Seq<char>, nested: bool) -> bool {
        true
    }

    proof fn lemma_pack_shape(m: Seq<char>, nested: bool) {
    }

    proof fn lemma_round_trip(m: Seq<char>, rest: Seq<u8>, nested: bool) {
        let inp = Self::spec_pack(m, nested) + rest;
        assert(inp[0] == STRING_CODE);
        assert(inp.drop_first() =~= spec_pack_bytes(encode_utf8(m)) + rest);
        lemma_unpack_bytes_of_pack_bytes(encode_utf8(m), rest);
        encode_utf8_valid_utf8(m);
        encode_utf8_decode_utf8(m);
    }

    fn unpack(inp: &[u8], nested: bool) -> (r: Result<(String, &[u8]), UnpackError>) {
        let body = crate::tuple::expect(inp, STRING_CODE)?;
        let (content, rest) = unpack_bytes(body);
        match string_from_utf8(content) {
            Some(s) => Ok((s, rest)),
            None => Err(UnpackError::BadEncoding),
        }
    }
}

impl<'a> Pack for &'a str {
    type Model = Seq<char>;

    open spec fn model(&self) -> Seq<char> {
        (*self)@
    }

    open spec fn spec_pack(m: Seq<char>, nested: bool) -> Seq<u8> {
        seq![STRING_CODE] + spec_pack_bytes(encode_utf8(m))
    }

    fn pack(&self, out: &mut Vec<u8>, nested: bool) {
        out.push(STRING_CODE);
        pack_bytes(self.as_bytes(), out);
        proof {
            assert(out@ =~= old(out)@ + Self::spec_pack(self.model(), nested));
        }
    }
}

impl<'a> Pack for &'a [u8] {
    type Model = Seq<u8>;

    open spec fn model(&self) -> Seq<u8> {
        (*self)@
    }

    open spec fn spec_pack(m: Seq<u8>, nested: bool) -> Seq<u8> {
        seq![BYTES_CODE] + spec_pack_bytes(m)
    }

    fn pack(&self, out: &mut Vec<u8>, nested: bool) {
        out.push(BYTES_CODE);
        pack_bytes(self, out);
        proof {
            assert(out@ =~= old(out)@ + Self::spec_pack(self.model(), nested));
        }
    }
}

} // verus!
