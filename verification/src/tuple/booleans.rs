//! Boolean codec: one byte, chosen so that false sorts before true.

use vstd::prelude::*;

use crate::tuple::{lex_lt, Pack, Unpack, UnpackError, FALSE_CODE, TRUE_CODE};

verus! {

impl Pack for bool {
    type Model = bool;

    open spec fn model(&self) -> bool {
        *self
    }

    open spec fn spec_pack(m: bool, nested: bool) -> Seq<u8> {
        if m {
            seq![TRUE_CODE]
        } else {
            seq![FALSE_CODE]
        }
    }

    fn pack(&self, out: &mut Vec<u8>, nested: bool) {
        out.push(if *self {
            TRUE_CODE
        } else {
            FALSE_CODE
        });
        proof {
            assert(out@ =~= old(out)@ + Self::spec_pack(self.model(), nested));
        }
    }
}

impl Unpack for bool {
    open spec fn spec_unpack(inp: Seq<u8>, nested: bool) -> Result<(bool, Seq<u8>), UnpackError> {
        if inp.len() == 0 {
            Err(UnpackError::OutOfData)
        } else if inp[0] == TRUE_CODE {
            Ok((true, inp.drop_first()))
        } else if inp[0] == FALSE_CODE {
            Ok((false, inp.drop_first()))
        } else {
            Err(UnpackError::WrongCode)
        }
    }

    open spec fn unambiguous(m: bool, nested: bool) -> bool {
        true
    }

    proof fn lemma_pack_shape(m: bool, nested: bool) {
    }

    proof fn lemma_round_trip(m: bool, rest: Seq<u8>, nested: bool) {
        assert((Self::spec_pack(m, nested) + rest).drop_first() =~= rest);
    }

    fn unpack(inp: &[u8], nested: bool) -> (r: Result<(bool, &[u8]), UnpackError>) {
        if inp.len() == 0 {
            Err(UnpackError::OutOfData)
        } else {
            let code = *vstd::slice::slice_index_get(inp, 0);
            if code == TRUE_CODE || code == FALSE_CODE {
                let rest = vstd::slice::slice_subrange(inp, 1, inp.len());
                proof {
                    assert(rest@ =~= inp@.drop_first());
                }
                Ok((code == TRUE_CODE, rest))
            } else {
                Err(UnpackError::WrongCode)
            }
        }
    }
}

/// Order preservation for booleans: false encodes strictly below true.
pub proof fn lemma_pack_bool_order(a: bool, b: bool, nested: bool)
    requires
        !a && b,
    ensures
        lex_lt(<bool as Pack>::spec_pack(a, nested), <bool as Pack>::spec_pack(b, nested)),
{
}

} // verus!
