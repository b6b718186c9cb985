//! Optional values: `None` is the single null code byte; `Some(v)` is
//! `v`'s own encoding with no wrapper.
//!
//! The format is ambiguous wherever the inner encoding itself starts with
//! the null code, and the inner value is always written un-nested while the
//! decoder honours the nesting flag; [`Unpack::unambiguous`] names exactly
//! the values that are free of both hazards, and the round-trip law holds
//! for those.

use vstd::prelude::*;

use crate::tuple::{Pack, Unpack, UnpackError, NULL_CODE};

verus! {

impl<T: Pack> Pack for Option<T> {
    type Model = Option<T::Model>;

    open spec fn model(&self) -> Option<T::Model> {
        match self {
            Some(v) => Some(v.model()),
            None => None,
        }
    }

    open spec fn spec_pack(m: Option<T::Model>, nested: bool) -> Seq<u8> {
        match m {
            Some(x) => T::spec_pack(x, false),
            None => seq![NULL_CODE],
        }
    }

    fn pack(&self, out: &mut Vec<u8>, nested: bool) {
        match self {
            Some(v) => {
                v.pack(out, false);
            },
            None => {
                out.push(NULL_CODE);
                proof {
                    assert(out@ =~= old(out)@ + Self::spec_pack(self.model(), nested));
                }
            },
        }
    }
}

impl<T: Unpack> Unpack for Option<T> {
    open spec fn spec_unpack(inp: Seq<u8>, nested: bool) -> Result<
        (Option<T::Model>, Seq<u8>),
        UnpackError,
    > {
        if inp.len() == 0 {
            Err(UnpackError::OutOfData)
        } else if inp[0] == NULL_CODE {
            Ok((None, inp.drop_first()))
        } else {
            match T::spec_unpack(inp, nested) {
                Ok(vr) => Ok((Some(vr.0), vr.1)),
                Err(e) => Err(e),
            }
        }
    }

    open spec fn unambiguous(m: Option<T::Model>, nested: bool) -> bool {
        match m {
            None => true,
            Some(x) => {
                &&& T::spec_pack(x, false).len() > 0
                &&& T::spec_pack(x, false)[0] != NULL_CODE
                &&& T::unambiguous(x, false)
                &&& (nested ==> T::spec_pack(x, false) == T::spec_pack(x, true) && T::unambiguous(
                    x,
                    true,
                ))
            },
        }
    }

    proof fn lemma_pack_shape(m: Option<T::Model>, nested: bool) {
        match m {
            None => {},
            Some(x) => T::lemma_pack_shape(x, false),
        }
    }

    proof fn lemma_round_trip(m: Option<T::Model>, rest: Seq<u8>, nested: bool) {
        match m {
            None => {
                assert((seq![NULL_CODE] + rest).drop_first() =~= rest);
            },
            Some(x) => {
                if nested {
                    T::lemma_round_trip(x, rest, true);
                } else {
                    T::lemma_round_trip(x, rest, false);
                }
            },
        }
    }

    fn unpack(inp: &[u8], nested: bool) -> (r: Result<(Option<T>, &[u8]), UnpackError>) {
        if inp.len() == 0 {
            Err(UnpackError::OutOfData)
        } else if *vstd::slice::slice_index_get(inp, 0) == NULL_CODE {
            let rest = vstd::slice::slice_subrange(inp, 1, inp.len());
            proof {
                assert(rest@ =~= inp@.drop_first());
            }
            Ok((None, rest))
        } else {
            match T::unpack(inp, nested) {
                Ok((v, rest)) => Ok((Some(v), rest)),
                Err(e) => Err(e),
            }
        }
    }
}

} // verus!
