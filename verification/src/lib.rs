//! An order-preserving tuple encoding for byte-string keys, with a
//! `Subspace` utility for namespacing encoded keys under a byte prefix.
//!
//! A heterogeneous, typed tuple of scalars — booleans, integers up to 64
//! bits, byte strings, UTF-8 strings, 128-bit identifiers, optional
//! values, and nested tuples — encodes to a self-delimiting byte string
//! with one critical property: lexicographic order of the encodings is
//! the natural order of the values. That is what lets an ordered
//! key-value store answer range scans over composite keys correctly, and
//! it is stated and proved here, not just implemented: every codec
//! carries an exact byte-level model ([`Pack::spec_pack`],
//! [`Unpack::spec_unpack`]), every decoder is proved to invert its
//! encoder ([`Unpack::lemma_round_trip`]), and order preservation is a
//! theorem per scalar family (`lemma_pack_int_order`,
//! `lemma_pack_byte_string_order`, and their kin).
//!
//! [`Subspace`] scopes keys under an owned prefix, itself a packed tuple:
//! it packs and unpacks keys below the prefix, tests membership, derives
//! child namespaces, and brackets the keys of a tuple between a `0x00`
//! and a `0xFF` continuation for range scans (`lemma_range_covers`,
//! `lemma_range_only`).

pub mod selector;
pub mod subspace;
pub mod tuple;

pub use selector::{GetRangeOpt, KeySelector, MutationType, StreamingMode};
pub use subspace::Subspace;
pub use tuple::tuples::Tuple;
pub use tuple::{lex_lt, Pack, Unpack, UnpackError};
