//! Plain value types for addressing keys in an ordered key-value store:
//! key selectors, range options, and the modes a transport layer takes.
//! These carry no behaviour of their own beyond construction.

use vstd::prelude::*;

verus! {

/// Names a key relative to an anchor key: the last key before it, the
/// first after it, or the anchor itself.
pub struct KeySelector<'a> {
    /// The anchor key.
    pub key: &'a [u8],
    /// Whether a key equal to the anchor satisfies the base selector.
    pub equal: bool,
    /// How many keys past the base position the selector names.
    pub offset: i32,
}

impl<'a> KeySelector<'a> {
    /// The last key strictly before `key`.
    pub fn last_less_than(key: &'a [u8]) -> (s: Self)
        ensures
            s.key@ == key@,
            !s.equal,
            s.offset == 0,
    {
        Self { key, equal: false, offset: 0 }
    }

    /// The last key at or before `key`.
    pub fn last_less_or_equal(key: &'a [u8]) -> (s: Self)
        ensures
            s.key@ == key@,
            s.equal,
            s.offset == 0,
    {
        Self { key, equal: true, offset: 0 }
    }

    /// The first key strictly after `key`.
    pub fn first_greater_than(key: &'a [u8]) -> (s: Self)
        ensures
            s.key@ == key@,
            s.equal,
            s.offset == 1,
    {
        Self { key, equal: true, offset: 1 }
    }

    /// The first key at or after `key`.
    pub fn first_greater_or_equal(key: &'a [u8]) -> (s: Self)
        ensures
            s.key@ == key@,
            !s.equal,
            s.offset == 1,
    {
        Self { key, equal: false, offset: 1 }
    }
}

impl<'a> Default for KeySelector<'a> {
    /// The first key at or after the empty key: the start of the keyspace.
    fn default() -> (s: Self)
        ensures
            s.key@ == Seq::<u8>::empty(),
            s.equal,
            s.offset == 0,
    {
        Self { key: &[], equal: true, offset: 0 }
    }
}

/// How eagerly a range read streams its results.
#[derive(Clone, Copy, Debug, PartialEq, Eq, Structural)]
pub enum StreamingMode {
    /// Sized for repeated iteration.
    Iterator,
    /// Small batches.
    Small,
    /// Medium batches.
    Medium,
    /// Large batches.
    Large,
    /// One batch after another with no parallelism.
    Serial,
    /// Everything at once.
    WantAll,
    /// Exactly what the limit asks for.
    Exact,
}

impl Default for StreamingMode {
    fn default() -> (m: Self)
        ensures
            m == StreamingMode::Medium,
    {
        StreamingMode::Medium
    }
}

/// The options of a range read, bracketed by two key selectors.
pub struct GetRangeOpt<'a> {
    /// Where the range begins.
    pub begin_selector: KeySelector<'a>,
    /// Where the range ends.
    pub end_selector: KeySelector<'a>,
    /// At most this many pairs, when positive.
    pub limit: i32,
    /// At most this many bytes, when positive.
    pub target_bytes: i32,
    /// How the results are streamed.
    pub mode: StreamingMode,
    /// Which iteration of a repeated read this is.
    pub iteration: i32,
    /// Whether the read is a snapshot read.
    pub snapshot: bool,
    /// Whether the results come in reverse order.
    pub reverse: bool,
}

impl<'a> Default for GetRangeOpt<'a> {
    /// The whole keyspace, medium streaming, no limits.
    fn default() -> (o: Self)
        ensures
            o.begin_selector.key@ == Seq::<u8>::empty(),
            o.begin_selector.equal,
            o.begin_selector.offset == 0,
            o.end_selector.key@ == Seq::<u8>::empty(),
            o.end_selector.equal,
            o.end_selector.offset == 0,
            o.limit == 0,
            o.target_bytes == 0,
            o.mode == StreamingMode::Medium,
            o.iteration == 0,
            !o.snapshot,
            !o.reverse,
    {
        GetRangeOpt {
            begin_selector: Default::default(),
            end_selector: Default::default(),
            limit: 0,
            target_bytes: 0,
            mode: Default::default(),
            iteration: 0,
            snapshot: false,
            reverse: false,
        }
    }
}

/// The atomic operations a transport layer can apply to a value.
#[derive(Clone, Copy, Debug, PartialEq, Eq, Structural)]
pub enum MutationType {
    /// Little-endian addition.
    Add,
    /// Bitwise and.
    And,
    /// Bitwise or.
    Or,
    /// Bitwise exclusive or.
    Xor,
    /// Arithmetic maximum.
    Max,
    /// Lexicographic maximum.
    ByteMax,
    /// Arithmetic minimum.
    Min,
    /// Lexicographic minimum.
    ByteMin,
    /// Replace a placeholder in the key with the commit versionstamp.
    SetVersionstampedKey,
}

} // verus!
