//! Composite codec: fixed-arity heterogeneous tuples.
//!
//! At the top level the elements are concatenated with no wrapper; a tuple
//! that is itself an element of another tuple is wrapped in a leading
//! [`NESTED_CODE`] byte and a trailing `0x00` terminator. Elements are
//! always encoded as nested, whatever their own type.

use vstd::prelude::*;

use crate::tuple::{spec_expect, Pack, Unpack, UnpackError, NESTED_CODE};

verus! {

/// Marker for the types that form whole key tuples: what a subspace packs
/// and unpacks.
pub trait Tuple {}

impl Tuple for () {
}

impl Pack for () {
    type Model = ();

    open spec fn model(&self) -> () {
        ()
    }

    open spec fn spec_pack(m: (), nested: bool) -> Seq<u8> {
        if nested {
            seq![NESTED_CODE, 0x00u8]
        } else {
            Seq::empty()
        }
    }

    fn pack(&self, out: &mut Vec<u8>, nested: bool) {
        if nested {
            out.push(NESTED_CODE);
            out.push(0x00);
        }
        proof {
            assert(out@ =~= old(out)@ + Self::spec_pack(self.model(), nested));
        }
    }
}

impl Unpack for () {
    open spec fn spec_unpack(inp: Seq<u8>, nested: bool) -> Result<((), Seq<u8>), UnpackError> {
        if nested {
            match spec_expect(inp, NESTED_CODE) {
                Ok(b0) => match spec_expect(b0, 0x00) {
                    Ok(rest) => Ok(((), rest)),
                    Err(e) => Err(e),
                },
                Err(e) => Err(e),
            }
        } else {
            Ok(((), inp))
        }
    }

    open spec fn unambiguous(m: (), nested: bool) -> bool {
        true
    }

    proof fn lemma_pack_shape(m: (), nested: bool) {
    }

    proof fn lemma_round_trip(m: (), rest: Seq<u8>, nested: bool) {
        if nested {
            let inp = Self::spec_pack(m, nested) + rest;
            assert(inp[0] == NESTED_CODE);
            assert(inp.drop_first() =~= seq![0x00u8] + rest);
            assert((seq![0x00u8] + rest)[0] == 0x00);
            assert((seq![0x00u8] + rest).drop_first() =~= rest);
        } else {
            assert(Self::spec_pack(m, nested) + rest =~= rest);
        }
    }

    fn unpack(inp: &[u8], nested: bool) -> (r: Result<((), &[u8]), UnpackError>) {
        if nested {
            let b0 = crate::tuple::expect(inp, NESTED_CODE)?;
            let rest = crate::tuple::expect(b0, 0x00)?;
            Ok(((), rest))
        } else {
            Ok(((), inp))
        }
    }
}

impl<T1: Pack> Tuple for (T1,) {
}

impl<T1: Pack> Pack for (T1,) {
    type Model = (T1::Model,);

    open spec fn model(&self) -> (T1::Model,) {
        (self.0.model(),)
    }

    open spec fn spec_pack(m: (T1::Model,), nested: bool) -> Seq<u8> {
        let body = T1::spec_pack(m.0, true);
        if nested {
            seq![NESTED_CODE] + body + seq![0x00u8]
        } else {
            body
        }
    }

    fn pack(&self, out: &mut Vec<u8>, nested: bool) {
        if nested {
            out.push(NESTED_CODE);
        }
        self.0.pack(out, true);
        if nested {
            out.push(0x00);
        }
        proof {
            assert(out@ =~= old(out)@ + Self::spec_pack(self.model(), nested));
        }
    }
}

impl<T1: Unpack> Unpack for (T1,) {
    open spec fn spec_unpack(inp: Seq<u8>, nested: bool) -> Result<
        ((T1::Model,), Seq<u8>),
        UnpackError,
    > {
        let start: Result<Seq<u8>, UnpackError> = if nested {
            spec_expect(inp, NESTED_CODE)
        } else {
            Ok(inp)
        };
        match start {
            Ok(b0) => match T1::spec_unpack(b0, true) {
                Ok(r1) => {
                    let tail: Result<Seq<u8>, UnpackError> = if nested {
                        spec_expect(r1.1, 0x00)
                    } else {
                        Ok(r1.1)
                    };
                    match tail {
                        Ok(rest) => Ok(((r1.0,), rest)),
                        Err(e) => Err(e),
                    }
                },
                Err(e) => Err(e),
            },
            Err(e) => Err(e),
        }
    }

    open spec fn unambiguous(m: (T1::Model,), nested: bool) -> bool {
        T1::unambiguous(m.0, true)
    }

    proof fn lemma_pack_shape(m: (T1::Model,), nested: bool) {
        T1::lemma_pack_shape(m.0, true);
        if !nested {
            assert(Self::spec_pack(m, nested) == T1::spec_pack(m.0, true));
        }
    }

    proof fn lemma_round_trip(m: (T1::Model,), rest: Seq<u8>, nested: bool) {
        let e1 = T1::spec_pack(m.0, true);
        T1::lemma_pack_shape(m.0, true);
        let tail: Seq<u8> = if nested {
            seq![0x00u8] + rest
        } else {
            rest
        };
        T1::lemma_round_trip(m.0, tail, true);
        let inp = Self::spec_pack(m, nested) + rest;
        if nested {
            assert(inp[0] == NESTED_CODE);
            assert(inp.drop_first() =~= e1 + tail);
            assert(tail[0] == 0x00);
            assert(tail.drop_first() =~= rest);
        } else {
            assert(inp =~= e1 + tail);
        }
    }

    fn unpack(inp: &[u8], nested: bool) -> (r: Result<((T1,), &[u8]), UnpackError>) {
        let b0 = if nested {
            crate::tuple::expect(inp, NESTED_CODE)?
        } else {
            inp
        };
        let (v1, r1) = T1::unpack(b0, true)?;
        let rest = if nested {
            crate::tuple::expect(r1, 0x00)?
        } else {
            r1
        };
        Ok(((v1,), rest))
    }
}

impl<T1: Pack, T2: Pack> Tuple for (T1, T2) {
}

impl<T1: Pack, T2: Pack> Pack for (T1, T2) {
    type Model = (T1::Model, T2::Model);

    open spec fn model(&self) -> (T1::Model, T2::Model) {
        (self.0.model(), self.1.model())
    }

    open spec fn spec_pack(m: (T1::Model, T2::Model), nested: bool) -> Seq<u8> {
        let body = T1::spec_pack(m.0, true) + T2::spec_pack(m.1, true);
        if nested {
            seq![NESTED_CODE] + body + seq![0x00u8]
        } else {
            body
        }
    }

    fn pack(&self, out: &mut Vec<u8>, nested: bool) {
        if nested {
            out.push(NESTED_CODE);
        }
        self.0.pack(out, true);
        self.1.pack(out, true);
        if nested {
            out.push(0x00);
        }
        proof {
            assert(out@ =~= old(out)@ + Self::spec_pack(self.model(), nested));
        }
    }
}

impl<T1: Unpack, T2: Unpack> Unpack for (T1, T2) {
    open spec fn spec_unpack(inp: Seq<u8>, nested: bool) -> Result<
        ((T1::Model, T2::Model), Seq<u8>),
        UnpackError,
    > {
        let start: Result<Seq<u8>, UnpackError> = if nested {
            spec_expect(inp, NESTED_CODE)
        } else {
            Ok(inp)
        };
        match start {
            Ok(b0) => match T1::spec_unpack(b0, true) {
                Ok(r1) => match T2::spec_unpack(r1.1, true) {
                    Ok(r2) => {
                        let tail: Result<Seq<u8>, UnpackError> = if nested {
                            spec_expect(r2.1, 0x00)
                        } else {
                            Ok(r2.1)
                        };
                        match tail {
                            Ok(rest) => Ok(((r1.0, r2.0), rest)),
                            Err(e) => Err(e),
                        }
                    },
                    Err(e) => Err(e),
                },
                Err(e) => Err(e),
            },
            Err(e) => Err(e),
        }
    }

    open spec fn unambiguous(m: (T1::Model, T2::Model), nested: bool) -> bool {
        T1::unambiguous(m.0, true) && T2::unambiguous(m.1, true)
    }

    proof fn lemma_pack_shape(m: (T1::Model, T2::Model), nested: bool) {
        T1::lemma_pack_shape(m.0, true);
        T2::lemma_pack_shape(m.1, true);
        if !nested {
            let e1 = T1::spec_pack(m.0, true);
            let e2 = T2::spec_pack(m.1, true);
            assert(Self::spec_pack(m, nested) == e1 + e2);
            assert((e1 + e2)[0] == e1[0]);
        }
    }

    proof fn lemma_round_trip(m: (T1::Model, T2::Model), rest: Seq<u8>, nested: bool) {
        let e1 = T1::spec_pack(m.0, true);
        let e2 = T2::spec_pack(m.1, true);
        T1::lemma_pack_shape(m.0, true);
        T2::lemma_pack_shape(m.1, true);
        let tail: Seq<u8> = if nested {
            seq![0x00u8] + rest
        } else {
            rest
        };
        T2::lemma_round_trip(m.1, tail, true);
        assert((e2 + tail)[0] == e2[0]);
        T1::lemma_round_trip(m.0, e2 + tail, true);
        let inp = Self::spec_pack(m, nested) + rest;
        if nested {
            assert(inp[0] == NESTED_CODE);
            assert(inp.drop_first() =~= e1 + (e2 + tail));
            assert(tail[0] == 0x00);
            assert(tail.drop_first() =~= rest);
        } else {
            assert(inp =~= e1 + (e2 + tail));
        }
    }

    fn unpack(inp: &[u8], nested: bool) -> (r: Result<((T1, T2), &[u8]), UnpackError>) {
        let b0 = if nested {
            crate::tuple::expect(inp, NESTED_CODE)?
        } else {
            inp
        };
        let (v1, r1) = T1::unpack(b0, true)?;
        let (v2, r2) = T2::unpack(r1, true)?;
        let rest = if nested {
            crate::tuple::expect(r2, 0x00)?
        } else {
            r2
        };
        Ok(((v1, v2), rest))
    }
}

impl<T1: Pack, T2: Pack, T3: Pack> Tuple for (T1, T2, T3) {
}

impl<T1: Pack, T2: Pack, T3: Pack> Pack for (T1, T2, T3) {
    type Model = (T1::Model, T2::Model, T3::Model);

    open spec fn model(&self) -> (T1::Model, T2::Model, T3::Model) {
        (self.0.model(), self.1.model(), self.2.model())
    }

    open spec fn spec_pack(m: (T1::Model, T2::Model, T3::Model), nested: bool) -> Seq<u8> {
        let body = T1::spec_pack(m.0, true) + T2::spec_pack(m.1, true) + T3::spec_pack(m.2, true);
        if nested {
            seq![NESTED_CODE] + body + seq![0x00u8]
        } else {
            body
        }
    }

    fn pack(&self, out: &mut Vec<u8>, nested: bool) {
        if nested {
            out.push(NESTED_CODE);
        }
        self.0.pack(out, true);
        self.1.pack(out, true);
        self.2.pack(out, true);
        if nested {
            out.push(0x00);
        }
        proof {
            assert(out@ =~= old(out)@ + Self::spec_pack(self.model(), nested));
        }
    }
}

impl<T1: Unpack, T2: Unpack, T3: Unpack> Unpack for (T1, T2, T3) {
    open spec fn spec_unpack(inp: Seq<u8>, nested: bool) -> Result<
        ((T1::Model, T2::Model, T3::Model), Seq<u8>),
        UnpackError,
    > {
        let start: Result<Seq<u8>, UnpackError> = if nested {
            spec_expect(inp, NESTED_CODE)
        } else {
            Ok(inp)
        };
        match start {
            Ok(b0) => match T1::spec_unpack(b0, true) {
                Ok(r1) => match T2::spec_unpack(r1.1, true) {
                Ok(r2) => match T3::spec_unpack(r2.1, true) {
                Ok(r3) => {
                        let tail: Result<Seq<u8>, UnpackError> = if nested {
                            spec_expect(r3.1, 0x00)
                        } else {
                            Ok(r3.1)
                        };
                        match tail {
                            Ok(rest) => Ok(((r1.0, r2.0, r3.0), rest)),
                            Err(e) => Err(e),
                        }
                    },
                Err(e) => Err(e),
            },
                Err(e) => Err(e),
            },
                Err(e) => Err(e),
            },
            Err(e) => Err(e),
        }
    }

    open spec fn unambiguous(m: (T1::Model, T2::Model, T3::Model), nested: bool) -> bool {
        T1::unambiguous(m.0, true) && T2::unambiguous(m.1, true) && T3::unambiguous(m.2, true)
    }

    proof fn lemma_pack_shape(m: (T1::Model, T2::Model, T3::Model), nested: bool) {
        T1::lemma_pack_shape(m.0, true);
        T2::lemma_pack_shape(m.1, true);
        T3::lemma_pack_shape(m.2, true);
        if !nested {
        let e1 = T1::spec_pack(m.0, true);
        let e2 = T2::spec_pack(m.1, true);
        let e3 = T3::spec_pack(m.2, true);
            assert(Self::spec_pack(m, nested) =~= e1 + (e2 + (e3 + (Seq::<u8>::empty()))));
            assert(Self::spec_pack(m, nested)[0] == e1[0]);
        }
    }

    proof fn lemma_round_trip(m: (T1::Model, T2::Model, T3::Model), rest: Seq<u8>, nested: bool) {
        let e1 = T1::spec_pack(m.0, true);
        let e2 = T2::spec_pack(m.1, true);
        let e3 = T3::spec_pack(m.2, true);
        T1::lemma_pack_shape(m.0, true);
        T2::lemma_pack_shape(m.1, true);
        T3::lemma_pack_shape(m.2, true);
        let tail: Seq<u8> = if nested {
            seq![0x00u8] + rest
        } else {
            rest
        };
        T3::lemma_round_trip(m.2, tail, true);
        assert((e3 + (tail)).len() > 0 && (e3 + (tail))[0] == e3[0]);
        T2::lemma_round_trip(m.1, e3 + (tail), true);
        assert((e2 + (e3 + (tail))).len() > 0 && (e2 + (e3 + (tail)))[0] == e2[0]);
        T1::lemma_round_trip(m.0, e2 + (e3 + (tail)), true);
        let inp = Self::spec_pack(m, nested) + rest;
        if nested {
            assert(inp[0] == NESTED_CODE);
            assert(inp.drop_first() =~= e1 + (e2 + (e3 + (tail))));
            assert(tail[0] == 0x00);
            assert(tail.drop_first() =~= rest);
        } else {
            assert(inp =~= e1 + (e2 + (e3 + (tail))));
        }
    }

    fn unpack(inp: &[u8], nested: bool) -> (r: Result<((T1, T2, T3), &[u8]), UnpackError>) {
        let b0 = if nested {
            crate::tuple::expect(inp, NESTED_CODE)?
        } else {
            inp
        };
        let (v1, r1) = T1::unpack(b0, true)?;
        let (v2, r2) = T2::unpack(r1, true)?;
        let (v3, r3) = T3::unpack(r2, true)?;
        let rest = if nested {
            crate::tuple::expect(r3, 0x00)?
        } else {
            r3
        };
        Ok(((v1, v2, v3), rest))
    }
}

impl<T1: Pack, T2: Pack, T3: Pack, T4: Pack> Tuple for (T1, T2, T3, T4) {
}

impl<T1: Pack, T2: Pack, T3: Pack, T4: Pack> Pack for (T1, T2, T3, T4) {
    type Model = (T1::Model, T2::Model, T3::Model, T4::Model);

    open spec fn model(&self) -> (T1::Model, T2::Model, T3::Model, T4::Model) {
        (self.0.model(), self.1.model(), self.2.model(), self.3.model())
    }

    open spec fn spec_pack(m: (T1::Model, T2::Model, T3::Model, T4::Model), nested: bool) -> Seq<u8> {
        let body = T1::spec_pack(m.0, true) + T2::spec_pack(m.1, true) + T3::spec_pack(m.2, true) + T4::spec_pack(m.3, true);
        if nested {
            seq![NESTED_CODE] + body + seq![0x00u8]
        } else {
            body
        }
    }

    fn pack(&self, out: &mut Vec<u8>, nested: bool) {
        if nested {
            out.push(NESTED_CODE);
        }
        self.0.pack(out, true);
        self.1.pack(out, true);
        self.2.pack(out, true);
        self.3.pack(out, true);
        if nested {
            out.push(0x00);
        }
        proof {
            assert(out@ =~= old(out)@ + Self::spec_pack(self.model(), nested));
        }
    }
}

impl<T1: Unpack, T2: Unpack, T3: Unpack, T4: Unpack> Unpack for (T1, T2, T3, T4) {
    open spec fn spec_unpack(inp: Seq<u8>, nested: bool) -> Result<
        ((T1::Model, T2::Model, T3::Model, T4::Model), Seq<u8>),
        UnpackError,
    > {
        let start: Result<Seq<u8>, UnpackError> = if nested {
            spec_expect(inp, NESTED_CODE)
        } else {
            Ok(inp)
        };
        match start {
            Ok(b0) => match T1::spec_unpack(b0, true) {
                Ok(r1) => match T2::spec_unpack(r1.1, true) {
                Ok(r2) => match T3::spec_unpack(r2.1, true) {
                Ok(r3) => match T4::spec_unpack(r3.1, true) {
                Ok(r4) => {
                        let tail: Result<Seq<u8>, UnpackError> = if nested {
                            spec_expect(r4.1, 0x00)
                        } else {
                            Ok(r4.1)
                        };
                        match tail {
                            Ok(rest) => Ok(((r1.0, r2.0, r3.0, r4.0), rest)),
                            Err(e) => Err(e),
                        }
                    },
                Err(e) => Err(e),
            },
                Err(e) => Err(e),
            },
                Err(e) => Err(e),
            },
                Err(e) => Err(e),
            },
            Err(e) => Err(e),
        }
    }

    open spec fn unambiguous(m: (T1::Model, T2::Model, T3::Model, T4::Model), nested: bool) -> bool {
        T1::unambiguous(m.0, true) && T2::unambiguous(m.1, true) && T3::unambiguous(m.2, true) && T4::unambiguous(m.3, true)
    }

    proof fn lemma_pack_shape(m: (T1::Model, T2::Model, T3::Model, T4::Model), nested: bool) {
        T1::lemma_pack_shape(m.0, true);
        T2::lemma_pack_shape(m.1, true);
        T3::lemma_pack_shape(m.2, true);
        T4::lemma_pack_shape(m.3, true);
        if !nested {
        let e1 = T1::spec_pack(m.0, true);
        let e2 = T2::spec_pack(m.1, true);
        let e3 = T3::spec_pack(m.2, true);
        let e4 = T4::spec_pack(m.3, true);
            assert(Self::spec_pack(m, nested) =~= e1 + (e2 + (e3 + (e4 + (Seq::<u8>::empty())))));
            assert(Self::spec_pack(m, nested)[0] == e1[0]);
        }
    }

    proof fn lemma_round_trip(m: (T1::Model, T2::Model, T3::Model, T4::Model), rest: Seq<u8>, nested: bool) {
        let e1 = T1::spec_pack(m.0, true);
        let e2 = T2::spec_pack(m.1, true);
        let e3 = T3::spec_pack(m.2, true);
        let e4 = T4::spec_pack(m.3, true);
        T1::lemma_pack_shape(m.0, true);
        T2::lemma_pack_shape(m.1, true);
        T3::lemma_pack_shape(m.2, true);
        T4::lemma_pack_shape(m.3, true);
        let tail: Seq<u8> = if nested {
            seq![0x00u8] + rest
        } else {
            rest
        };
        T4::lemma_round_trip(m.3, tail, true);
        assert((e4 + (tail)).len() > 0 && (e4 + (tail))[0] == e4[0]);
        T3::lemma_round_trip(m.2, e4 + (tail), true);
        assert((e3 + (e4 + (tail))).len() > 0 && (e3 + (e4 + (tail)))[0] == e3[0]);
        T2::lemma_round_trip(m.1, e3 + (e4 + (tail)), true);
        assert((e2 + (e3 + (e4 + (tail)))).len() > 0 && (e2 + (e3 + (e4 + (tail))))[0] == e2[0]);
        T1::lemma_round_trip(m.0, e2 + (e3 + (e4 + (tail))), true);
        let inp = Self::spec_pack(m, nested) + rest;
        if nested {
            assert(inp[0] == NESTED_CODE);
            assert(inp.drop_first() =~= e1 + (e2 + (e3 + (e4 + (tail)))));
            assert(tail[0] == 0x00);
            assert(tail.drop_first() =~= rest);
        } else {
            assert(inp =~= e1 + (e2 + (e3 + (e4 + (tail)))));
        }
    }

    fn unpack(inp: &[u8], nested: bool) -> (r: Result<((T1, T2, T3, T4), &[u8]), UnpackError>) {
        let b0 = if nested {
            crate::tuple::expect(inp, NESTED_CODE)?
        } else {
            inp
        };
        let (v1, r1) = T1::unpack(b0, true)?;
        let (v2, r2) = T2::unpack(r1, true)?;
        let (v3, r3) = T3::unpack(r2, true)?;
        let (v4, r4) = T4::unpack(r3, true)?;
        let rest = if nested {
            crate::tuple::expect(r4, 0x00)?
        } else {
            r4
        };
        Ok(((v1, v2, v3, v4), rest))
    }
}

impl<T1: Pack, T2: Pack, T3: Pack, T4: Pack, T5: Pack> Tuple for (T1, T2, T3, T4, T5) {
}

impl<T1: Pack, T2: Pack, T3: Pack, T4: Pack, T5: Pack> Pack for (T1, T2, T3, T4, T5) {
    type Model = (T1::Model, T2::Model, T3::Model, T4::Model, T5::Model);

    open spec fn model(&self) -> (T1::Model, T2::Model, T3::Model, T4::Model, T5::Model) {
        (self.0.model(), self.1.model(), self.2.model(), self.3.model(), self.4.model())
    }

    open spec fn spec_pack(m: (T1::Model, T2::Model, T3::Model, T4::Model, T5::Model), nested: bool) -> Seq<u8> {
        let body = T1::spec_pack(m.0, true) + T2::spec_pack(m.1, true) + T3::spec_pack(m.2, true) + T4::spec_pack(m.3, true) + T5::spec_pack(m.4, true);
        if nested {
            seq![NESTED_CODE] + body + seq![0x00u8]
        } else {
            body
        }
    }

    fn pack(&self, out: &mut Vec<u8>, nested: bool) {
        if nested {
            out.push(NESTED_CODE);
        }
        self.0.pack(out, true);
        self.1.pack(out, true);
        self.2.pack(out, true);
        self.3.pack(out, true);
        self.4.pack(out, true);
        if nested {
            out.push(0x00);
        }
        proof {
            assert(out@ =~= old(out)@ + Self::spec_pack(self.model(), nested));
        }
    }
}

impl<T1: Unpack, T2: Unpack, T3: Unpack, T4: Unpack, T5: Unpack> Unpack for (T1, T2, T3, T4, T5) {
    open spec fn spec_unpack(inp: Seq<u8>, nested: bool) -> Result<
        ((T1::Model, T2::Model, T3::Model, T4::Model, T5::Model), Seq<u8>),
        UnpackError,
    > {
        let start: Result<Seq<u8>, UnpackError> = if nested {
            spec_expect(inp, NESTED_CODE)
        } else {
            Ok(inp)
        };
        match start {
            Ok(b0) => match T1::spec_unpack(b0, true) {
                Ok(r1) => match T2::spec_unpack(r1.1, true) {
                Ok(r2) => match T3::spec_unpack(r2.1, true) {
                Ok(r3) => match T4::spec_unpack(r3.1, true) {
                Ok(r4) => match T5::spec_unpack(r4.1, true) {
                Ok(r5) => {
                        let tail: Result<Seq<u8>, UnpackError> = if nested {
                            spec_expect(r5.1, 0x00)
                        } else {
                            Ok(r5.1)
                        };
                        match tail {
                            Ok(rest) => Ok(((r1.0, r2.0, r3.0, r4.0, r5.0), rest)),
                            Err(e) => Err(e),
                        }
                    },
                Err(e) => Err(e),
            },
                Err(e) => Err(e),
            },
                Err(e) => Err(e),
            },
                Err(e) => Err(e),
            },
                Err(e) => Err(e),
            },
            Err(e) => Err(e),
        }
    }

    open spec fn unambiguous(m: (T1::Model, T2::Model, T3::Model, T4::Model, T5::Model), nested: bool) -> bool {
        T1::unambiguous(m.0, true) && T2::unambiguous(m.1, true) && T3::unambiguous(m.2, true) && T4::unambiguous(m.3, true) && T5::unambiguous(m.4, true)
    }

    proof fn lemma_pack_shape(m: (T1::Model, T2::Model, T3::Model, T4::Model, T5::Model), nested: bool) {
        T1::lemma_pack_shape(m.0, true);
        T2::lemma_pack_shape(m.1, true);
        T3::lemma_pack_shape(m.2, true);
        T4::lemma_pack_shape(m.3, true);
        T5::lemma_pack_shape(m.4, true);
        if !nested {
        let e1 = T1::spec_pack(m.0, true);
        let e2 = T2::spec_pack(m.1, true);
        let e3 = T3::spec_pack(m.2, true);
        let e4 = T4::spec_pack(m.3, true);
        let e5 = T5::spec_pack(m.4, true);
            assert(Self::spec_pack(m, nested) =~= e1 + (e2 + (e3 + (e4 + (e5 + (Seq::<u8>::empty()))))));
            assert(Self::spec_pack(m, nested)[0] == e1[0]);
        }
    }

    proof fn lemma_round_trip(m: (T1::Model, T2::Model, T3::Model, T4::Model, T5::Model), rest: Seq<u8>, nested: bool) {
        let e1 = T1::spec_pack(m.0, true);
        let e2 = T2::spec_pack(m.1, true);
        let e3 = T3::spec_pack(m.2, true);
        let e4 = T4::spec_pack(m.3, true);
        let e5 = T5::spec_pack(m.4, true);
        T1::lemma_pack_shape(m.0, true);
        T2::lemma_pack_shape(m.1, true);
        T3::lemma_pack_shape(m.2, true);
        T4::lemma_pack_shape(m.3, true);
        T5::lemma_pack_shape(m.4, true);
        let tail: Seq<u8> = if nested {
            seq![0x00u8] + rest
        } else {
            rest
        };
        T5::lemma_round_trip(m.4, tail, true);
        assert((e5 + (tail)).len() > 0 && (e5 + (tail))[0] == e5[0]);
        T4::lemma_round_trip(m.3, e5 + (tail), true);
        assert((e4 + (e5 + (tail))).len() > 0 && (e4 + (e5 + (tail)))[0] == e4[0]);
        T3::lemma_round_trip(m.2, e4 + (e5 + (tail)), true);
        assert((e3 + (e4 + (e5 + (tail)))).len() > 0 && (e3 + (e4 + (e5 + (tail))))[0] == e3[0]);
        T2::lemma_round_trip(m.1, e3 + (e4 + (e5 + (tail))), true);
        assert((e2 + (e3 + (e4 + (e5 + (tail))))).len() > 0 && (e2 + (e3 + (e4 + (e5 + (tail)))))[0] == e2[0]);
        T1::lemma_round_trip(m.0, e2 + (e3 + (e4 + (e5 + (tail)))), true);
        let inp = Self::spec_pack(m, nested) + rest;
        if nested {
            assert(inp[0] == NESTED_CODE);
            assert(inp.drop_first() =~= e1 + (e2 + (e3 + (e4 + (e5 + (tail))))));
            assert(tail[0] == 0x00);
            assert(tail.drop_first() =~= rest);
        } else {
            assert(inp =~= e1 + (e2 + (e3 + (e4 + (e5 + (tail))))));
        }
    }

    fn unpack(inp: &[u8], nested: bool) -> (r: Result<((T1, T2, T3, T4, T5), &[u8]), UnpackError>) {
        let b0 = if nested {
            crate::tuple::expect(inp, NESTED_CODE)?
        } else {
            inp
        };
        let (v1, r1) = T1::unpack(b0, true)?;
        let (v2, r2) = T2::unpack(r1, true)?;
        let (v3, r3) = T3::unpack(r2, true)?;
        let (v4, r4) = T4::unpack(r3, true)?;
        let (v5, r5) = T5::unpack(r4, true)?;
        let rest = if nested {
            crate::tuple::expect(r5, 0x00)?
        } else {
            r5
        };
        Ok(((v1, v2, v3, v4, v5), rest))
    }
}

impl<T1: Pack, T2: Pack, T3: Pack, T4: Pack, T5: Pack, T6: Pack> Tuple for (T1, T2, T3, T4, T5, T6) {
}

impl<T1: Pack, T2: Pack, T3: Pack, T4: Pack, T5: Pack, T6: Pack> Pack for (T1, T2, T3, T4, T5, T6) {
    type Model = (T1::Model, T2::Model, T3::Model, T4::Model, T5::Model, T6::Model);

    open spec fn model(&self) -> (T1::Model, T2::Model, T3::Model, T4::Model, T5::Model, T6::Model) {
        (self.0.model(), self.1.model(), self.2.model(), self.3.model(), self.4.model(), self.5.model())
    }

    open spec fn spec_pack(m: (T1::Model, T2::Model, T3::Model, T4::Model, T5::Model, T6::Model), nested: bool) -> Seq<u8> {
        let body = T1::spec_pack(m.0, true) + T2::spec_pack(m.1, true) + T3::spec_pack(m.2, true) + T4::spec_pack(m.3, true) + T5::spec_pack(m.4, true) + T6::spec_pack(m.5, true);
        if nested {
            seq![NESTED_CODE] + body + seq![0x00u8]
        } else {
            body
        }
    }

    fn pack(&self, out: &mut Vec<u8>, nested: bool) {
        if nested {
            out.push(NESTED_CODE);
        }
        self.0.pack(out, true);
        self.1.pack(out, true);
        self.2.pack(out, true);
        self.3.pack(out, true);
        self.4.pack(out, true);
        self.5.pack(out, true);
        if nested {
            out.push(0x00);
        }
        proof {
            assert(out@ =~= old(out)@ + Self::spec_pack(self.model(), nested));
        }
    }
}

impl<T1: Unpack, T2: Unpack, T3: Unpack, T4: Unpack, T5: Unpack, T6: Unpack> Unpack for (T1, T2, T3, T4, T5, T6) {
    open spec fn spec_unpack(inp: Seq<u8>, nested: bool) -> Result<
        ((T1::Model, T2::Model, T3::Model, T4::Model, T5::Model, T6::Model), Seq<u8>),
        UnpackError,
    > {
        let start: Result<Seq<u8>, UnpackError> = if nested {
            spec_expect(inp, NESTED_CODE)
        } else {
            Ok(inp)
        };
        match start {
            Ok(b0) => match T1::spec_unpack(b0, true) {
                Ok(r1) => match T2::spec_unpack(r1.1, true) {
                Ok(r2) => match T3::spec_unpack(r2.1, true) {
                Ok(r3) => match T4::spec_unpack(r3.1, true) {
                Ok(r4) => match T5::spec_unpack(r4.1, true) {
                Ok(r5) => match T6::spec_unpack(r5.1, true) {
                Ok(r6) => {
                        let tail: Result<Seq<u8>, UnpackError> = if nested {
                            spec_expect(r6.1, 0x00)
                        } else {
                            Ok(r6.1)
                        };
                        match tail {
                            Ok(rest) => Ok(((r1.0, r2.0, r3.0, r4.0, r5.0, r6.0), rest)),
                            Err(e) => Err(e),
                        }
                    },
                Err(e) => Err(e),
            },
                Err(e) => Err(e),
            },
                Err(e) => Err(e),
            },
                Err(e) => Err(e),
            },
                Err(e) => Err(e),
            },
                Err(e) => Err(e),
            },
            Err(e) => Err(e),
        }
    }

    open spec fn unambiguous(m: (T1::Model, T2::Model, T3::Model, T4::Model, T5::Model, T6::Model), nested: bool) -> bool {
        T1::unambiguous(m.0, true) && T2::unambiguous(m.1, true) && T3::unambiguous(m.2, true) && T4::unambiguous(m.3, true) && T5::unambiguous(m.4, true) && T6::unambiguous(m.5, true)
    }

    proof fn lemma_pack_shape(m: (T1::Model, T2::Model, T3::Model, T4::Model, T5::Model, T6::Model), nested: bool) {
        T1::lemma_pack_shape(m.0, true);
        T2::lemma_pack_shape(m.1, true);
        T3::lemma_pack_shape(m.2, true);
        T4::lemma_pack_shape(m.3, true);
        T5::lemma_pack_shape(m.4, true);
        T6::lemma_pack_shape(m.5, true);
        if !nested {
        let e1 = T1::spec_pack(m.0, true);
        let e2 = T2::spec_pack(m.1, true);
        let e3 = T3::spec_pack(m.2, true);
        let e4 = T4::spec_pack(m.3, true);
        let e5 = T5::spec_pack(m.4, true);
        let e6 = T6::spec_pack(m.5, true);
            assert(Self::spec_pack(m, nested) =~= e1 + (e2 + (e3 + (e4 + (e5 + (e6 + (Seq::<u8>::empty())))))));
            assert(Self::spec_pack(m, nested)[0] == e1[0]);
        }
    }

    proof fn lemma_round_trip(m: (T1::Model, T2::Model, T3::Model, T4::Model, T5::Model, T6::Model), rest: Seq<u8>, nested: bool) {
        let e1 = T1::spec_pack(m.0, true);
        let e2 = T2::spec_pack(m.1, true);
        let e3 = T3::spec_pack(m.2, true);
        let e4 = T4::spec_pack(m.3, true);
        let e5 = T5::spec_pack(m.4, true);
        let e6 = T6::spec_pack(m.5, true);
        T1::lemma_pack_shape(m.0, true);
        T2::lemma_pack_shape(m.1, true);
        T3::lemma_pack_shape(m.2, true);
        T4::lemma_pack_shape(m.3, true);
        T5::lemma_pack_shape(m.4, true);
        T6::lemma_pack_shape(m.5, true);
        let tail: Seq<u8> = if nested {
            seq![0x00u8] + rest
        } else {
            rest
        };
        T6::lemma_round_trip(m.5, tail, true);
        assert((e6 + (tail)).len() > 0 && (e6 + (tail))[0] == e6[0]);
        T5::lemma_round_trip(m.4, e6 + (tail), true);
        assert((e5 + (e6 + (tail))).len() > 0 && (e5 + (e6 + (tail)))[0] == e5[0]);
        T4::lemma_round_trip(m.3, e5 + (e6 + (tail)), true);
        assert((e4 + (e5 + (e6 + (tail)))).len() > 0 && (e4 + (e5 + (e6 + (tail))))[0] == e4[0]);
        T3::lemma_round_trip(m.2, e4 + (e5 + (e6 + (tail))), true);
        assert((e3 + (e4 + (e5 + (e6 + (tail))))).len() > 0 && (e3 + (e4 + (e5 + (e6 + (tail)))))[0] == e3[0]);
        T2::lemma_round_trip(m.1, e3 + (e4 + (e5 + (e6 + (tail)))), true);
        assert((e2 + (e3 + (e4 + (e5 + (e6 + (tail)))))).len() > 0 && (e2 + (e3 + (e4 + (e5 + (e6 + (tail))))))[0] == e2[0]);
        T1::lemma_round_trip(m.0, e2 + (e3 + (e4 + (e5 + (e6 + (tail))))), true);
        let inp = Self::spec_pack(m, nested) + rest;
        if nested {
            assert(inp[0] == NESTED_CODE);
            assert(inp.drop_first() =~= e1 + (e2 + (e3 + (e4 + (e5 + (e6 + (tail)))))));
            assert(tail[0] == 0x00);
            assert(tail.drop_first() =~= rest);
        } else {
            assert(inp =~= e1 + (e2 + (e3 + (e4 + (e5 + (e6 + (tail)))))));
        }
    }

    fn unpack(inp: &[u8], nested: bool) -> (r: Result<((T1, T2, T3, T4, T5, T6), &[u8]), UnpackError>) {
        let b0 = if nested {
            crate::tuple::expect(inp, NESTED_CODE)?
        } else {
            inp
        };
        let (v1, r1) = T1::unpack(b0, true)?;
        let (v2, r2) = T2::unpack(r1, true)?;
        let (v3, r3) = T3::unpack(r2, true)?;
        let (v4, r4) = T4::unpack(r3, true)?;
        let (v5, r5) = T5::unpack(r4, true)?;
        let (v6, r6) = T6::unpack(r5, true)?;
        let rest = if nested {
            crate::tuple::expect(r6, 0x00)?
        } else {
            r6
        };
        Ok(((v1, v2, v3, v4, v5, v6), rest))
    }
}

impl<T1: Pack, T2: Pack, T3: Pack, T4: Pack, T5: Pack, T6: Pack, T7: Pack> Tuple for (T1, T2, T3, T4, T5, T6, T7) {
}

impl<T1: Pack, T2: Pack, T3: Pack, T4: Pack, T5: Pack, T6: Pack, T7: Pack> Pack for (T1, T2, T3, T4, T5, T6, T7) {
    type Model = (T1::Model, T2::Model, T3::Model, T4::Model, T5::Model, T6::Model, T7::Model);

    open spec fn model(&self) -> (T1::Model, T2::Model, T3::Model, T4::Model, T5::Model, T6::Model, T7::Model) {
        (self.0.model(), self.1.model(), self.2.model(), self.3.model(), self.4.model(), self.5.model(), self.6.model())
    }

    open spec fn spec_pack(m: (T1::Model, T2::Model, T3::Model, T4::Model, T5::Model, T6::Model, T7::Model), nested: bool) -> Seq<u8> {
        let body = T1::spec_pack(m.0, true) + T2::spec_pack(m.1, true) + T3::spec_pack(m.2, true) + T4::spec_pack(m.3, true) + T5::spec_pack(m.4, true) + T6::spec_pack(m.5, true) + T7::spec_pack(m.6, true);
        if nested {
            seq![NESTED_CODE] + body + seq![0x00u8]
        } else {
            body
        }
    }

    fn pack(&self, out: &mut Vec<u8>, nested: bool) {
        if nested {
            out.push(NESTED_CODE);
        }
        self.0.pack(out, true);
        self.1.pack(out, true);
        self.2.pack(out, true);
        self.3.pack(out, true);
        self.4.pack(out, true);
        self.5.pack(out, true);
        self.6.pack(out, true);
        if nested {
            out.push(0x00);
        }
        proof {
            assert(out@ =~= old(out)@ + Self::spec_pack(self.model(), nested));
        }
    }
}

impl<T1: Unpack, T2: Unpack, T3: Unpack, T4: Unpack, T5: Unpack, T6: Unpack, T7: Unpack> Unpack for (T1, T2, T3, T4, T5, T6, T7) {
    open spec fn spec_unpack(inp: Seq<u8>, nested: bool) -> Result<
        ((T1::Model, T2::Model, T3::Model, T4::Model, T5::Model, T6::Model, T7::Model), Seq<u8>),
        UnpackError,
    > {
        let start: Result<Seq<u8>, UnpackError> = if nested {
            spec_expect(inp, NESTED_CODE)
        } else {
            Ok(inp)
        };
        match start {
            Ok(b0) => match T1::spec_unpack(b0, true) {
                Ok(r1) => match T2::spec_unpack(r1.1, true) {
                Ok(r2) => match T3::spec_unpack(r2.1, true) {
                Ok(r3) => match T4::spec_unpack(r3.1, true) {
                Ok(r4) => match T5::spec_unpack(r4.1, true) {
                Ok(r5) => match T6::spec_unpack(r5.1, true) {
                Ok(r6) => match T7::spec_unpack(r6.1, true) {
                Ok(r7) => {
                        let tail: Result<Seq<u8>, UnpackError> = if nested {
                            spec_expect(r7.1, 0x00)
                        } else {
                            Ok(r7.1)
                        };
                        match tail {
                            Ok(rest) => Ok(((r1.0, r2.0, r3.0, r4.0, r5.0, r6.0, r7.0), rest)),
                            Err(e) => Err(e),
                        }
                    },
                Err(e) => Err(e),
            },
                Err(e) => Err(e),
            },
                Err(e) => Err(e),
            },
                Err(e) => Err(e),
            },
                Err(e) => Err(e),
            },
                Err(e) => Err(e),
            },
                Err(e) => Err(e),
            },
            Err(e) => Err(e),
        }
    }

    open spec fn unambiguous(m: (T1::Model, T2::Model, T3::Model, T4::Model, T5::Model, T6::Model, T7::Model), nested: bool) -> bool {
        T1::unambiguous(m.0, true) && T2::unambiguous(m.1, true) && T3::unambiguous(m.2, true) && T4::unambiguous(m.3, true) && T5::unambiguous(m.4, true) && T6::unambiguous(m.5, true) && T7::unambiguous(m.6, true)
    }

    proof fn lemma_pack_shape(m: (T1::Model, T2::Model, T3::Model, T4::Model, T5::Model, T6::Model, T7::Model), nested: bool) {
        T1::lemma_pack_shape(m.0, true);
        T2::lemma_pack_shape(m.1, true);
        T3::lemma_pack_shape(m.2, true);
        T4::lemma_pack_shape(m.3, true);
        T5::lemma_pack_shape(m.4, true);
        T6::lemma_pack_shape(m.5, true);
        T7::lemma_pack_shape(m.6, true);
        if !nested {
        let e1 = T1::spec_pack(m.0, true);
        let e2 = T2::spec_pack(m.1, true);
        let e3 = T3::spec_pack(m.2, true);
        let e4 = T4::spec_pack(m.3, true);
        let e5 = T5::spec_pack(m.4, true);
        let e6 = T6::spec_pack(m.5, true);
        let e7 = T7::spec_pack(m.6, true);
            assert(Self::spec_pack(m, nested) =~= e1 + (e2 + (e3 + (e4 + (e5 + (e6 + (e7 + (Seq::<u8>::empty()))))))));
            assert(Self::spec_pack(m, nested)[0] == e1[0]);
        }
    }

    proof fn lemma_round_trip(m: (T1::Model, T2::Model, T3::Model, T4::Model, T5::Model, T6::Model, T7::Model), rest: Seq<u8>, nested: bool) {
        let e1 = T1::spec_pack(m.0, true);
        let e2 = T2::spec_pack(m.1, true);
        let e3 = T3::spec_pack(m.2, true);
        let e4 = T4::spec_pack(m.3, true);
        let e5 = T5::spec_pack(m.4, true);
        let e6 = T6::spec_pack(m.5, true);
        let e7 = T7::spec_pack(m.6, true);
        T1::lemma_pack_shape(m.0, true);
        T2::lemma_pack_shape(m.1, true);
        T3::lemma_pack_shape(m.2, true);
        T4::lemma_pack_shape(m.3, true);
        T5::lemma_pack_shape(m.4, true);
        T6::lemma_pack_shape(m.5, true);
        T7::lemma_pack_shape(m.6, true);
        let tail: Seq<u8> = if nested {
            seq![0x00u8] + rest
        } else {
            rest
        };
        T7::lemma_round_trip(m.6, tail, true);
        assert((e7 + (tail)).len() > 0 && (e7 + (tail))[0] == e7[0]);
        T6::lemma_round_trip(m.5, e7 + (tail), true);
        assert((e6 + (e7 + (tail))).len() > 0 && (e6 + (e7 + (tail)))[0] == e6[0]);
        T5::lemma_round_trip(m.4, e6 + (e7 + (tail)), true);
        assert((e5 + (e6 + (e7 + (tail)))).len() > 0 && (e5 + (e6 + (e7 + (tail))))[0] == e5[0]);
        T4::lemma_round_trip(m.3, e5 + (e6 + (e7 + (tail))), true);
        assert((e4 + (e5 + (e6 + (e7 + (tail))))).len() > 0 && (e4 + (e5 + (e6 + (e7 + (tail)))))[0] == e4[0]);
        T3::lemma_round_trip(m.2, e4 + (e5 + (e6 + (e7 + (tail)))), true);
        assert((e3 + (e4 + (e5 + (e6 + (e7 + (tail)))))).len() > 0 && (e3 + (e4 + (e5 + (e6 + (e7 + (tail))))))[0] == e3[0]);
        T2::lemma_round_trip(m.1, e3 + (e4 + (e5 + (e6 + (e7 + (tail))))), true);
        assert((e2 + (e3 + (e4 + (e5 + (e6 + (e7 + (tail))))))).len() > 0 && (e2 + (e3 + (e4 + (e5 + (e6 + (e7 + (tail)))))))[0] == e2[0]);
        T1::lemma_round_trip(m.0, e2 + (e3 + (e4 + (e5 + (e6 + (e7 + (tail)))))), true);
        let inp = Self::spec_pack(m, nested) + rest;
        if nested {
            assert(inp[0] == NESTED_CODE);
            assert(inp.drop_first() =~= e1 + (e2 + (e3 + (e4 + (e5 + (e6 + (e7 + (tail))))))));
            assert(tail[0] == 0x00);
            assert(tail.drop_first() =~= rest);
        } else {
            assert(inp =~= e1 + (e2 + (e3 + (e4 + (e5 + (e6 + (e7 + (tail))))))));
        }
    }

    fn unpack(inp: &[u8], nested: bool) -> (r: Result<((T1, T2, T3, T4, T5, T6, T7), &[u8]), UnpackError>) {
        let b0 = if nested {
            crate::tuple::expect(inp, NESTED_CODE)?
        } else {
            inp
        };
        let (v1, r1) = T1::unpack(b0, true)?;
        let (v2, r2) = T2::unpack(r1, true)?;
        let (v3, r3) = T3::unpack(r2, true)?;
        let (v4, r4) = T4::unpack(r3, true)?;
        let (v5, r5) = T5::unpack(r4, true)?;
        let (v6, r6) = T6::unpack(r5, true)?;
        let (v7, r7) = T7::unpack(r6, true)?;
        let rest = if nested {
            crate::tuple::expect(r7, 0x00)?
        } else {
            r7
        };
        Ok(((v1, v2, v3, v4, v5, v6, v7), rest))
    }
}

impl<T1: Pack, T2: Pack, T3: Pack, T4: Pack, T5: Pack, T6: Pack, T7: Pack, T8: Pack> Tuple for (T1, T2, T3, T4, T5, T6, T7, T8) {
}

impl<T1: Pack, T2: Pack, T3: Pack, T4: Pack, T5: Pack, T6: Pack, T7: Pack, T8: Pack> Pack for (T1, T2, T3, T4, T5, T6, T7, T8) {
    type Model = (T1::Model, T2::Model, T3::Model, T4::Model, T5::Model, T6::Model, T7::Model, T8::Model);

    open spec fn model(&self) -> (T1::Model, T2::Model, T3::Model, T4::Model, T5::Model, T6::Model, T7::Model, T8::Model) {
        (self.0.model(), self.1.model(), self.2.model(), self.3.model(), self.4.model(), self.5.model(), self.6.model(), self.7.model())
    }

    open spec fn spec_pack(m: (T1::Model, T2::Model, T3::Model, T4::Model, T5::Model, T6::Model, T7::Model, T8::Model), nested: bool) -> Seq<u8> {
        let body = T1::spec_pack(m.0, true) + T2::spec_pack(m.1, true) + T3::spec_pack(m.2, true) + T4::spec_pack(m.3, true) + T5::spec_pack(m.4, true) + T6::spec_pack(m.5, true) + T7::spec_pack(m.6, true) + T8::spec_pack(m.7, true);
        if nested {
            seq![NESTED_CODE] + body + seq![0x00u8]
        } else {
            body
        }
    }

    fn pack(&self, out: &mut Vec<u8>, nested: bool) {
        if nested {
            out.push(NESTED_CODE);
        }
        self.0.pack(out, true);
        self.1.pack(out, true);
        self.2.pack(out, true);
        self.3.pack(out, true);
        self.4.pack(out, true);
        self.5.pack(out, true);
        self.6.pack(out, true);
        self.7.pack(out, true);
        if nested {
            out.push(0x00);
        }
        proof {
            assert(out@ =~= old(out)@ + Self::spec_pack(self.model(), nested));
        }
    }
}

impl<T1: Unpack, T2: Unpack, T3: Unpack, T4: Unpack, T5: Unpack, T6: Unpack, T7: Unpack, T8: Unpack> Unpack for (T1, T2, T3, T4, T5, T6, T7, T8) {
    open spec fn spec_unpack(inp: Seq<u8>, nested: bool) -> Result<
        ((T1::Model, T2::Model, T3::Model, T4::Model, T5::Model, T6::Model, T7::Model, T8::Model), Seq<u8>),
        UnpackError,
    > {
        let start: Result<Seq<u8>, UnpackError> = if nested {
            spec_expect(inp, NESTED_CODE)
        } else {
            Ok(inp)
        };
        match start {
            Ok(b0) => match T1::spec_unpack(b0, true) {
                Ok(r1) => match T2::spec_unpack(r1.1, true) {
                Ok(r2) => match T3::spec_unpack(r2.1, true) {
                Ok(r3) => match T4::spec_unpack(r3.1, true) {
                Ok(r4) => match T5::spec_unpack(r4.1, true) {
                Ok(r5) => match T6::spec_unpack(r5.1, true) {
                Ok(r6) => match T7::spec_unpack(r6.1, true) {
                Ok(r7) => match T8::spec_unpack(r7.1, true) {
                Ok(r8) => {
                        let tail: Result<Seq<u8>, UnpackError> = if nested {
                            spec_expect(r8.1, 0x00)
                        } else {
                            Ok(r8.1)
                        };
                        match tail {
                            Ok(rest) => Ok(((r1.0, r2.0, r3.0, r4.0, r5.0, r6.0, r7.0, r8.0), rest)),
                            Err(e) => Err(e),
                        }
                    },
                Err(e) => Err(e),
            },
                Err(e) => Err(e),
            },
                Err(e) => Err(e),
            },
                Err(e) => Err(e),
            },
                Err(e) => Err(e),
            },
                Err(e) => Err(e),
            },
                Err(e) => Err(e),
            },
                Err(e) => Err(e),
            },
            Err(e) => Err(e),
        }
    }

    open spec fn unambiguous(m: (T1::Model, T2::Model, T3::Model, T4::Model, T5::Model, T6::Model, T7::Model, T8::Model), nested: bool) -> bool {
        T1::unambiguous(m.0, true) && T2::unambiguous(m.1, true) && T3::unambiguous(m.2, true) && T4::unambiguous(m.3, true) && T5::unambiguous(m.4, true) && T6::unambiguous(m.5, true) && T7::unambiguous(m.6, true) && T8::unambiguous(m.7, true)
    }

    proof fn lemma_pack_shape(m: (T1::Model, T2::Model, T3::Model, T4::Model, T5::Model, T6::Model, T7::Model, T8::Model), nested: bool) {
        T1::lemma_pack_shape(m.0, true);
        T2::lemma_pack_shape(m.1, true);
        T3::lemma_pack_shape(m.2, true);
        T4::lemma_pack_shape(m.3, true);
        T5::lemma_pack_shape(m.4, true);
        T6::lemma_pack_shape(m.5, true);
        T7::lemma_pack_shape(m.6, true);
        T8::lemma_pack_shape(m.7, true);
        if !nested {
        let e1 = T1::spec_pack(m.0, true);
        let e2 = T2::spec_pack(m.1, true);
        let e3 = T3::spec_pack(m.2, true);
        let e4 = T4::spec_pack(m.3, true);
        let e5 = T5::spec_pack(m.4, true);
        let e6 = T6::spec_pack(m.5, true);
        let e7 = T7::spec_pack(m.6, true);
        let e8 = T8::spec_pack(m.7, true);
            assert(Self::spec_pack(m, nested) =~= e1 + (e2 + (e3 + (e4 + (e5 + (e6 + (e7 + (e8 + (Seq::<u8>::empty())))))))));
            assert(Self::spec_pack(m, nested)[0] == e1[0]);
        }
    }

    proof fn lemma_round_trip(m: (T1::Model, T2::Model, T3::Model, T4::Model, T5::Model, T6::Model, T7::Model, T8::Model), rest: Seq<u8>, nested: bool) {
        let e1 = T1::spec_pack(m.0, true);
        let e2 = T2::spec_pack(m.1, true);
        let e3 = T3::spec_pack(m.2, true);
        let e4 = T4::spec_pack(m.3, true);
        let e5 = T5::spec_pack(m.4, true);
        let e6 = T6::spec_pack(m.5, true);
        let e7 = T7::spec_pack(m.6, true);
        let e8 = T8::spec_pack(m.7, true);
        T1::lemma_pack_shape(m.0, true);
        T2::lemma_pack_shape(m.1, true);
        T3::lemma_pack_shape(m.2, true);
        T4::lemma_pack_shape(m.3, true);
        T5::lemma_pack_shape(m.4, true);
        T6::lemma_pack_shape(m.5, true);
        T7::lemma_pack_shape(m.6, true);
        T8::lemma_pack_shape(m.7, true);
        let tail: Seq<u8> = if nested {
            seq![0x00u8] + rest
        } else {
            rest
        };
        T8::lemma_round_trip(m.7, tail, true);
        assert((e8 + (tail)).len() > 0 && (e8 + (tail))[0] == e8[0]);
        T7::lemma_round_trip(m.6, e8 + (tail), true);
        assert((e7 + (e8 + (tail))).len() > 0 && (e7 + (e8 + (tail)))[0] == e7[0]);
        T6::lemma_round_trip(m.5, e7 + (e8 + (tail)), true);
        assert((e6 + (e7 + (e8 + (tail)))).len() > 0 && (e6 + (e7 + (e8 + (tail))))[0] == e6[0]);
        T5::lemma_round_trip(m.4, e6 + (e7 + (e8 + (tail))), true);
        assert((e5 + (e6 + (e7 + (e8 + (tail))))).len() > 0 && (e5 + (e6 + (e7 + (e8 + (tail)))))[0] == e5[0]);
        T4::lemma_round_trip(m.3, e5 + (e6 + (e7 + (e8 + (tail)))), true);
        assert((e4 + (e5 + (e6 + (e7 + (e8 + (tail)))))).len() > 0 && (e4 + (e5 + (e6 + (e7 + (e8 + (tail))))))[0] == e4[0]);
        T3::lemma_round_trip(m.2, e4 + (e5 + (e6 + (e7 + (e8 + (tail))))), true);
        assert((e3 + (e4 + (e5 + (e6 + (e7 + (e8 + (tail))))))).len() > 0 && (e3 + (e4 + (e5 + (e6 + (e7 + (e8 + (tail)))))))[0] == e3[0]);
        T2::lemma_round_trip(m.1, e3 + (e4 + (e5 + (e6 + (e7 + (e8 + (tail)))))), true);
        assert((e2 + (e3 + (e4 + (e5 + (e6 + (e7 + (e8 + (tail)))))))).len() > 0 && (e2 + (e3 + (e4 + (e5 + (e6 + (e7 + (e8 + (tail))))))))[0] == e2[0]);
        T1::lemma_round_trip(m.0, e2 + (e3 + (e4 + (e5 + (e6 + (e7 + (e8 + (tail))))))), true);
        let inp = Self::spec_pack(m, nested) + rest;
        if nested {
            assert(inp[0] == NESTED_CODE);
            assert(inp.drop_first() =~= e1 + (e2 + (e3 + (e4 + (e5 + (e6 + (e7 + (e8 + (tail)))))))));
            assert(tail[0] == 0x00);
            assert(tail.drop_first() =~= rest);
        } else {
            assert(inp =~= e1 + (e2 + (e3 + (e4 + (e5 + (e6 + (e7 + (e8 + (tail)))))))));
        }
    }

    fn unpack(inp: &[u8], nested: bool) -> (r: Result<((T1, T2, T3, T4, T5, T6, T7, T8), &[u8]), UnpackError>) {
        let b0 = if nested {
            crate::tuple::expect(inp, NESTED_CODE)?
        } else {
            inp
        };
        let (v1, r1) = T1::unpack(b0, true)?;
        let (v2, r2) = T2::unpack(r1, true)?;
        let (v3, r3) = T3::unpack(r2, true)?;
        let (v4, r4) = T4::unpack(r3, true)?;
        let (v5, r5) = T5::unpack(r4, true)?;
        let (v6, r6) = T6::unpack(r5, true)?;
        let (v7, r7) = T7::unpack(r6, true)?;
        let (v8, r8) = T8::unpack(r7, true)?;
        let rest = if nested {
            crate::tuple::expect(r8, 0x00)?
        } else {
            r8
        };
        Ok(((v1, v2, v3, v4, v5, v6, v7, v8), rest))
    }
}

} // verus!
