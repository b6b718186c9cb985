//! 128-bit identifier codec: one type code byte followed by the 16 raw
//! big-endian bytes of the identifier. The fixed length makes escaping
//! unnecessary.

use vstd::prelude::*;

use crate::tuple::integer::{
    be_bytes, be_val, be_val_u64, lemma_be_bytes_len, lemma_be_val_of_be_bytes, pow256, push_be,
};
use crate::tuple::{spec_expect, Pack, Unpack, UnpackError, UUID_CODE};

verus! {

/// A 128-bit identifier, held as its high and low big-endian halves.
#[derive(Clone, Copy, Debug, PartialEq, Eq, Structural, Hash)]
pub struct Uuid {
    /// The first eight bytes of the identifier, most significant first.
    pub hi: u64,
    /// The last eight bytes of the identifier.
    pub lo: u64,
}

/// The value of a hexadecimal digit character, or a negative marker for
/// any other character.
pub open spec fn hex_val(c: char) -> int {
    let v = c as int;
    if 48 <= v <= 57 {
        v - 48
    } else if 97 <= v <= 102 {
        v - 87
    } else if 65 <= v <= 70 {
        v - 55
    } else {
        -1
    }
}

/// Whether every character of the sequence is a hexadecimal digit.
pub open spec fn all_hex(cs: Seq<char>) -> bool {
    forall|i: int| 0 <= i < cs.len() ==> hex_val(cs[i]) >= 0
}

/// The value of a big-endian string of hexadecimal digits.
pub open spec fn chars_hex_val(cs: Seq<char>) -> int
    decreases cs.len(),
{
    if cs.len() == 0 {
        0
    } else {
        chars_hex_val(cs.drop_last()) * 16 + hex_val(cs.last())
    }
}

/// `16^n`, the number of values of `n` hexadecimal digits.
pub open spec fn pow16(n: nat) -> nat
    decreases n,
{
    if n == 0 {
        1
    } else {
        16 * pow16((n - 1) as nat)
    }
}

/// The exact outcome of parsing the 36-character hyphenated hexadecimal
/// text of an identifier.
pub open spec fn spec_parse_uuid(s: Seq<char>) -> Option<Uuid> {
    if s.len() == 36 && s[8] == '-' && s[13] == '-' && s[18] == '-' && s[23] == '-' && all_hex(
        s.subrange(0, 8),
    ) && all_hex(s.subrange(9, 13)) && all_hex(s.subrange(14, 18)) && all_hex(s.subrange(19, 23))
        && all_hex(s.subrange(24, 36)) {
        Some(
            Uuid {
                hi: (chars_hex_val(s.subrange(0, 8)) * 0x1_0000_0000 + chars_hex_val(
                    s.subrange(9, 13),
                ) * 0x1_0000 + chars_hex_val(s.subrange(14, 18))) as u64,
                lo: (chars_hex_val(s.subrange(19, 23)) * 0x1_0000_0000_0000 + chars_hex_val(
                    s.subrange(24, 36),
                )) as u64,
            },
        )
    } else {
        None
    }
}

fn hex_digit(c: char) -> (d: u8)
    ensures
        hex_val(c) >= 0 ==> d as int == hex_val(c),
        hex_val(c) < 0 ==> d == 0xFF,
{
    let v = c as u32;
    if v >= 48 && v <= 57 {
        (v - 48) as u8
    } else if v >= 97 && v <= 102 {
        (v - 87) as u8
    } else if v >= 65 && v <= 70 {
        (v - 55) as u8
    } else {
        0xFF
    }
}

/// Parse one run of hexadecimal digits, most significant first.
fn parse_hex_group(s: &str, from: usize, to: usize) -> (r: Option<u64>)
    requires
        from <= to <= s@.len(),
        to - from <= 12,
    ensures
        (match r {
            Some(v) => {
                &&& all_hex(s@.subrange(from as int, to as int))
                &&& v as int == chars_hex_val(s@.subrange(from as int, to as int))
                &&& (v as nat) < pow16((to - from) as nat)
            },
            None => !all_hex(s@.subrange(from as int, to as int)),
        }),
{
    let mut v: u64 = 0;
    let mut i: usize = from;
    proof {
        assert(s@.subrange(from as int, from as int) =~= Seq::<char>::empty());
    }
    while i < to
        invariant
            from <= i <= to <= s@.len(),
            to - from <= 12,
            all_hex(s@.subrange(from as int, i as int)),
            v as int == chars_hex_val(s@.subrange(from as int, i as int)),
            (v as nat) < pow16((i - from) as nat),
        decreases to - i,
    {
        let c = s.get_char(i);
        let d = hex_digit(c);
        if d == 0xFF {
            proof {
                assert(s@.subrange(from as int, to as int)[i - from] == s@[i as int]);
            }
            return None;
        }
        proof {
            assert(pow16(12) == 0x1_0000_0000_0000) by {
                reveal_with_fuel(pow16, 13);
            }
            lemma_pow16_mono((i - from) as nat, 11);
            assert(v as int * 16 + d < 16 * pow16((i - from) as nat)) by (nonlinear_arith)
                requires
                    (v as int) < pow16((i - from) as nat),
                    0 <= d < 16,
            ;
            assert(s@.subrange(from as int, i + 1).drop_last() =~= s@.subrange(
                from as int,
                i as int,
            ));
            assert(s@.subrange(from as int, i + 1).last() == s@[i as int]);
        }
        v = v * 16 + d as u64;
        i = i + 1;
    }
    Some(v)
}

proof fn lemma_pow16_mono(m: nat, n: nat)
    requires
        m <= n,
    ensures
        pow16(m) <= pow16(n),
    decreases n,
{
    if m < n {
        lemma_pow16_mono(m, (n - 1) as nat);
        lemma_pow16_pos((n - 1) as nat);
    }
}

proof fn lemma_pow16_pos(n: nat)
    ensures
        pow16(n) >= 1,
    decreases n,
{
    if n > 0 {
        lemma_pow16_pos((n - 1) as nat);
    }
}

impl Uuid {
    /// Parse the 36-character hyphenated hexadecimal form, upper or lower
    /// case.
    pub fn parse_str(s: &str) -> (r: Option<Uuid>)
        ensures
            r == spec_parse_uuid(s@),
    {
        let n = s.unicode_len();
        if n != 36 {
            return None;
        }
        if s.get_char(8) != '-' || s.get_char(13) != '-' || s.get_char(18) != '-' || s.get_char(23)
            != '-' {
            return None;
        }
        let g1 = match parse_hex_group(s, 0, 8) {
            Some(v) => v,
            None => {
                return None;
            },
        };
        let g2 = match parse_hex_group(s, 9, 13) {
            Some(v) => v,
            None => {
                return None;
            },
        };
        let g3 = match parse_hex_group(s, 14, 18) {
            Some(v) => v,
            None => {
                return None;
            },
        };
        let g4 = match parse_hex_group(s, 19, 23) {
            Some(v) => v,
            None => {
                return None;
            },
        };
        let g5 = match parse_hex_group(s, 24, 36) {
            Some(v) => v,
            None => {
                return None;
            },
        };
        proof {
            assert(pow16(4) == 0x1_0000 && pow16(8) == 0x1_0000_0000 && pow16(12)
                == 0x1_0000_0000_0000) by {
                reveal_with_fuel(pow16, 13);
            }
        }
        let hi = g1 * 0x1_0000_0000 + g2 * 0x1_0000 + g3;
        let lo = g4 * 0x1_0000_0000_0000 + g5;
        Some(Uuid { hi, lo })
    }
}

/// Order preservation for identifiers: the order of the 128-bit values,
/// high half first, is lexicographic order of the encodings.
pub proof fn lemma_pack_uuid_order(a: Uuid, b: Uuid)
    requires
        a.hi < b.hi || (a.hi == b.hi && a.lo < b.lo),
    ensures
        crate::tuple::lex_lt(
            <Uuid as Pack>::spec_pack(a, false),
            <Uuid as Pack>::spec_pack(b, false),
        ),
{
    assert(pow256(8) == 0x1_0000_0000_0000_0000) by {
        reveal_with_fuel(pow256, 9);
    }
    lemma_be_bytes_len(a.hi as nat, 8);
    lemma_be_bytes_len(b.hi as nat, 8);
    if a.hi < b.hi {
        crate::tuple::integer::lemma_be_bytes_order(a.hi as nat, b.hi as nat, 8);
        crate::tuple::lemma_lex_lt_append_same_len(
            be_bytes(a.hi as nat, 8),
            be_bytes(b.hi as nat, 8),
            be_bytes(a.lo as nat, 8),
            be_bytes(b.lo as nat, 8),
        );
    } else {
        crate::tuple::integer::lemma_be_bytes_order(a.lo as nat, b.lo as nat, 8);
        crate::tuple::lemma_lex_lt_append(
            be_bytes(a.hi as nat, 8),
            be_bytes(a.lo as nat, 8),
            be_bytes(b.lo as nat, 8),
        );
    }
    crate::tuple::lemma_lex_lt_cons(
        UUID_CODE,
        be_bytes(a.hi as nat, 8) + be_bytes(a.lo as nat, 8),
        be_bytes(b.hi as nat, 8) + be_bytes(b.lo as nat, 8),
    );
    assert(<Uuid as Pack>::spec_pack(a, false) =~= seq![UUID_CODE] + (be_bytes(a.hi as nat, 8)
        + be_bytes(a.lo as nat, 8)));
    assert(<Uuid as Pack>::spec_pack(b, false) =~= seq![UUID_CODE] + (be_bytes(b.hi as nat, 8)
        + be_bytes(b.lo as nat, 8)));
}

impl Pack for Uuid {
    type Model = Uuid;

    open spec fn model(&self) -> Uuid {
        *self
    }

    open spec fn spec_pack(m: Uuid, nested: bool) -> Seq<u8> {
        seq![UUID_CODE] + be_bytes(m.hi as nat, 8) + be_bytes(m.lo as nat, 8)
    }

    fn pack(&self, out: &mut Vec<u8>, nested: bool) {
        out.push(UUID_CODE);
        push_be(out, self.hi, 8);
        push_be(out, self.lo, 8);
        proof {
            assert(out@ =~= old(out)@ + Self::spec_pack(self.model(), nested));
        }
    }
}

impl Unpack for Uuid {
    open spec fn spec_unpack(inp: Seq<u8>, nested: bool) -> Result<(Uuid, Seq<u8>), UnpackError> {
        match spec_expect(inp, UUID_CODE) {
            Ok(body) => if body.len() < 16 {
                Err(UnpackError::OutOfData)
            } else {
                Ok(
                    (
                        Uuid {
                            hi: be_val(body.subrange(0, 8)) as u64,
                            lo: be_val(body.subrange(8, 16)) as u64,
                        },
                        body.skip(16),
                    ),
                )
            },
            Err(e) => Err(e),
        }
    }

    open spec fn unambiguous(m: Uuid, nested: bool) -> bool {
        true
    }

    proof fn lemma_pack_shape(m: Uuid, nested: bool) {
    }

    proof fn lemma_round_trip(m: Uuid, rest: Seq<u8>, nested: bool) {
        let ehi = be_bytes(m.hi as nat, 8);
        let elo = be_bytes(m.lo as nat, 8);
        lemma_be_bytes_len(m.hi as nat, 8);
        lemma_be_bytes_len(m.lo as nat, 8);
        let inp = Self::spec_pack(m, nested) + rest;
        assert(inp[0] == UUID_CODE);
        let body = inp.drop_first();
        assert(body =~= ehi + elo + rest);
        assert(body.subrange(0, 8) =~= ehi);
        assert(body.subrange(8, 16) =~= elo);
        assert(body.skip(16) =~= rest);
        assert(pow256(8) == 0x1_0000_0000_0000_0000) by {
            reveal_with_fuel(pow256, 9);
        }
        lemma_be_val_of_be_bytes(m.hi as nat, 8);
        lemma_be_val_of_be_bytes(m.lo as nat, 8);
    }

    fn unpack(inp: &[u8], nested: bool) -> (r: Result<(Uuid, &[u8]), UnpackError>) {
        let body = crate::tuple::expect(inp, UUID_CODE)?;
        if body.len() < 16 {
            return Err(UnpackError::OutOfData);
        }
        let hi = be_val_u64(vstd::slice::slice_subrange(body, 0, 8));
        let lo = be_val_u64(vstd::slice::slice_subrange(body, 8, 16));
        let rest = vstd::slice::slice_subrange(body, 16, body.len());
        proof {
            assert(body@.skip(16) =~= rest@);
        }
        Ok((Uuid { hi, lo }, rest))
    }
}

} // verus!
