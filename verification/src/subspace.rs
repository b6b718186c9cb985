//! A namespace for keys: an owned byte prefix, itself produced by packing
//! a tuple, under which further tuples are packed, unpacked, tested and
//! bracketed for range scans.

use vstd::prelude::*;

use crate::tuple::tuples::Tuple;
use crate::tuple::{lex_lt, Pack, Unpack, UnpackError};

verus! {

/// A key namespace: every key it makes starts with its prefix bytes.
pub struct Subspace {
    prefix_bytes: Vec<u8>,
}

impl View for Subspace {
    type V = Seq<u8>;

    closed spec fn view(&self) -> Seq<u8> {
        self.prefix_bytes@
    }
}

impl Subspace {
    /// Create a subspace whose prefix is the top-level encoding of
    /// `prefix`.
    pub fn new<T: Tuple + Pack>(prefix: &T) -> (s: Self)
        ensures
            s@ == T::spec_pack(prefix.model(), false),
    {
        let mut prefix_bytes: Vec<u8> = Vec::new();
        prefix.pack(&mut prefix_bytes, false);
        proof {
            assert(prefix_bytes@ =~= T::spec_pack(prefix.model(), false));
        }
        Subspace { prefix_bytes }
    }

    /// The prefix bytes themselves.
    pub fn key(&self) -> (k: &Vec<u8>)
        ensures
            k@ == self@,
    {
        &self.prefix_bytes
    }

    /// A key under this subspace: the prefix followed by the top-level
    /// encoding of `tuple`.
    pub fn pack<T: Tuple + Pack>(&self, tuple: &T) -> (k: Vec<u8>)
        ensures
            k@ == self@ + T::spec_pack(tuple.model(), false),
    {
        let mut bytes = self.prefix_bytes.clone();
        proof {
            assert(bytes@ =~= self@);
        }
        tuple.pack(&mut bytes, false);
        bytes
    }

    /// Decode a key of this subspace back into a tuple: the input must
    /// start with the prefix (else `MissingPrefix`), the remainder must
    /// decode as `T`, and nothing may be left over (else `TrailingData`).
    pub fn unpack<T: Tuple + Unpack>(&self, inp: &[u8]) -> (r: Result<T, UnpackError>)
        ensures
            (match r {
                Ok(v) => {
                    &&& inp@.len() >= self@.len()
                    &&& inp@.subrange(0, self@.len() as int) == self@
                    &&& T::spec_unpack(inp@.skip(self@.len() as int), false) == Ok::<
                        (T::Model, Seq<u8>),
                        UnpackError,
                    >((v.model(), Seq::<u8>::empty()))
                },
                Err(e) => {
                    if inp@.len() < self@.len() || inp@.subrange(0, self@.len() as int) != self@ {
                        e == UnpackError::MissingPrefix
                    } else {
                        match T::spec_unpack(inp@.skip(self@.len() as int), false) {
                            Ok(vr) => e == UnpackError::TrailingData && vr.1.len() > 0,
                            Err(e2) => e == e2,
                        }
                    }
                },
            }),
    {
        let plen = self.prefix_bytes.len();
        if inp.len() < plen {
            return Err(UnpackError::MissingPrefix);
        }
        let mut i: usize = 0;
        while i < plen
            invariant
                i <= plen,
                plen == self@.len() <= inp@.len(),
                forall|j: int| 0 <= j < i ==> inp@[j] == self@[j],
            decreases plen - i,
        {
            if *vstd::slice::slice_index_get(inp, i) != self.prefix_bytes[i] {
                proof {
                    assert(inp@.subrange(0, plen as int)[i as int] != self@[i as int]);
                }
                return Err(UnpackError::MissingPrefix);
            }
            i = i + 1;
        }
        proof {
            assert(inp@.subrange(0, plen as int) =~= self@);
        }
        let remainder = vstd::slice::slice_subrange(inp, plen, inp.len());
        match T::unpack(remainder, false) {
            Ok((v, rest)) => {
                if rest.len() == 0 {
                    proof {
                        assert(rest@ =~= Seq::<u8>::empty());
                    }
                    Ok(v)
                } else {
                    Err(UnpackError::TrailingData)
                }
            },
            Err(e) => Err(e),
        }
    }

    /// Whether `inp` lies under this subspace: a structural prefix test
    /// only, with no decoding.
    pub fn contains(&self, inp: &[u8]) -> (r: bool)
        ensures
            r == (inp@.len() >= self@.len() && inp@.subrange(0, self@.len() as int) == self@),
    {
        let plen = self.prefix_bytes.len();
        if inp.len() < plen {
            return false;
        }
        let mut i: usize = 0;
        while i < plen
            invariant
                i <= plen,
                plen == self@.len() <= inp@.len(),
                forall|j: int| 0 <= j < i ==> inp@[j] == self@[j],
            decreases plen - i,
        {
            if *vstd::slice::slice_index_get(inp, i) != self.prefix_bytes[i] {
                proof {
                    assert(inp@.subrange(0, plen as int)[i as int] != self@[i as int]);
                }
                return false;
            }
            i = i + 1;
        }
        proof {
            assert(inp@.subrange(0, plen as int) =~= self@);
        }
        true
    }

    /// The scan interval for the keys under `tuple`: the packed key
    /// followed by `0x00` (at or below every continuation) and by `0xFF`
    /// (above every continuation).
    pub fn range<T: Tuple + Pack>(&self, tuple: &T) -> (r: (Vec<u8>, Vec<u8>))
        ensures
            r.0@ == self@ + T::spec_pack(tuple.model(), false) + seq![0x00u8],
            r.1@ == self@ + T::spec_pack(tuple.model(), false) + seq![0xFFu8],
    {
        let bytes = self.pack(tuple);
        let mut begin = bytes.clone();
        proof {
            assert(begin@ =~= bytes@);
        }
        begin.push(0x00);
        let mut end = bytes;
        end.push(0xFF);
        proof {
            assert(begin@ =~= self@ + T::spec_pack(tuple.model(), false) + seq![0x00u8]);
            assert(end@ =~= self@ + T::spec_pack(tuple.model(), false) + seq![0xFFu8]);
        }
        (begin, end)
    }

    /// A child namespace: the prefix extended by the top-level encoding of
    /// `tuple`.
    pub fn subspace<T: Tuple + Pack>(&self, tuple: &T) -> (s: Self)
        ensures
            s@ == self@ + T::spec_pack(tuple.model(), false),
    {
        Subspace { prefix_bytes: self.pack(tuple) }
    }
}

/// Keys round-trip through a subspace: a key packed under a prefix starts
/// with that prefix, and what follows it decodes back to exactly the
/// packed tuple with nothing left over — so `unpack` after `pack` returns
/// the tuple, for every unambiguous tuple value.
pub proof fn lemma_subspace_round_trip<T: Tuple + Unpack>(prefix: Seq<u8>, m: T::Model)
    requires
        T::unambiguous(m, false),
    ensures
        (prefix + T::spec_pack(m, false)).len() >= prefix.len(),
        (prefix + T::spec_pack(m, false)).subrange(0, prefix.len() as int) == prefix,
        T::spec_unpack((prefix + T::spec_pack(m, false)).skip(prefix.len() as int), false) == Ok::<
            (T::Model, Seq<u8>),
            UnpackError,
        >((m, Seq::<u8>::empty())),
{
    let k = prefix + T::spec_pack(m, false);
    assert(k.subrange(0, prefix.len() as int) =~= prefix);
    T::lemma_round_trip(m, Seq::<u8>::empty(), false);
    assert(k.skip(prefix.len() as int) =~= T::spec_pack(m, false) + Seq::<u8>::empty());
}

/// The range keys bracket every continuation of the packed key: a key that
/// extends `p` by anything that starts below `0xFF` — and every encoded
/// element does — lies at or above `p + 0x00` and strictly below
/// `p + 0xFF`.
pub proof fn lemma_range_covers(p: Seq<u8>, extra: Seq<u8>)
    requires
        extra.len() > 0,
        extra[0] < 0xFF,
    ensures
        p + extra == p + seq![0x00u8] || lex_lt(p + seq![0x00u8], p + extra),
        lex_lt(p + extra, p + seq![0xFFu8]),
{
    crate::tuple::lemma_lex_lt_first(extra, seq![0xFFu8]);
    crate::tuple::lemma_lex_lt_append(p, extra, seq![0xFFu8]);
    if extra[0] == 0x00 {
        if extra.len() == 1 {
            assert(p + extra =~= p + seq![0x00u8]);
        } else {
            assert(lex_lt(seq![0x00u8], extra)) by {
                assert(extra.drop_first().len() > 0);
                assert(lex_lt(Seq::<u8>::empty(), extra.drop_first()));
                assert(seq![0x00u8].drop_first() =~= Seq::<u8>::empty());
            }
            crate::tuple::lemma_lex_lt_append(p, seq![0x00u8], extra);
        }
    } else {
        crate::tuple::lemma_lex_lt_first(seq![0x00u8], extra);
        crate::tuple::lemma_lex_lt_append(p, seq![0x00u8], extra);
    }
}

/// The converse: any key at or above `p + 0x00` and strictly below
/// `p + 0xFF` starts with `p`, so the interval holds only keys of the
/// namespace.
pub proof fn lemma_range_only(p: Seq<u8>, k: Seq<u8>)
    requires
        !lex_lt(k, p + seq![0x00u8]),
        lex_lt(k, p + seq![0xFFu8]),
    ensures
        k.len() >= p.len(),
        k.subrange(0, p.len() as int) == p,
    decreases p.len(),
{
    if p.len() == 0 {
        assert(k.subrange(0, 0) =~= p);
    } else {
        assert(k.len() > 0);
        assert((p + seq![0x00u8])[0] == p[0]);
        assert((p + seq![0xFFu8])[0] == p[0]);
        if k[0] < p[0] {
            crate::tuple::lemma_lex_lt_first(k, p + seq![0x00u8]);
        }
        assert(k[0] == p[0]);
        assert((p + seq![0x00u8]).drop_first() =~= p.drop_first() + seq![0x00u8]);
        assert((p + seq![0xFFu8]).drop_first() =~= p.drop_first() + seq![0xFFu8]);
        lemma_range_only(p.drop_first(), k.drop_first());
        assert(k.subrange(0, p.len() as int) =~= p) by {
            assert(forall|j: int|
                1 <= j < p.len() ==> k.subrange(0, p.len() as int)[j] == k.drop_first().subrange(
                    0,
                    p.len() - 1,
                )[j - 1]);
        }
    }
}

} // verus!
