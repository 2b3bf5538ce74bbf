//! Child indexes and derivation steps of hierarchical key derivation paths.

use vstd::prelude::*;
use crate::codec::{DecodeError, le32, u32_at, lemma_u32_at, push_u32, read_u32};

verus! {

/// Boundary on `u32` child numbers at and above which an index is hardened.
pub const HARDENED_INDEX_BOUNDARY: u32 = 0x8000_0000;

/// Derivation path index is outside of the allowed range: below 2^31 for
/// unhardened derivation and from 2^31 up for hardened.
#[derive(Clone, Copy, Debug, Default, PartialEq, Eq, PartialOrd, Ord)]
pub struct IndexOverflowError;

/// Index for unhardened child derivation; the wrapped value is below 2^31.
#[derive(Clone, Copy, Debug, PartialEq, Eq, PartialOrd, Ord)]
pub struct UnhardenedIndex(u32);

impl View for UnhardenedIndex {
    type V = u32;

    closed spec fn view(&self) -> u32 {
        self.0
    }
}

impl UnhardenedIndex {
    #[verifier::type_invariant]
    pub open spec fn wf(self) -> bool {
        self@ < HARDENED_INDEX_BOUNDARY
    }

    pub fn zero() -> (r: Self)
        ensures
            r@ == 0,
    {
        UnhardenedIndex(0)
    }

    pub fn one() -> (r: Self)
        ensures
            r@ == 1,
    {
        UnhardenedIndex(1)
    }

    /// Builds an index from a child number, failing on hardened numbers.
    pub fn try_from_u32(value: u32) -> (r: Result<Self, IndexOverflowError>)
        ensures
            value < HARDENED_INDEX_BOUNDARY <==> r.is_ok(),
            r matches Ok(i) ==> i@ == value,
    {
        if value >= HARDENED_INDEX_BOUNDARY {
            Err(IndexOverflowError)
        } else {
            Ok(UnhardenedIndex(value))
        }
    }

    /// Builds an index from a child number given as a `u64`, failing on
    /// hardened numbers and on numbers beyond `u32`.
    pub fn try_from_u64(value: u64) -> (r: Result<Self, IndexOverflowError>)
        ensures
            value < HARDENED_INDEX_BOUNDARY <==> r.is_ok(),
            r matches Ok(i) ==> i@ == value,
    {
        if value > u32::MAX as u64 {
            return Err(IndexOverflowError);
        }
        UnhardenedIndex::try_from_u32(value as u32)
    }

    /// Builds an index from a child number given as a `usize`, failing on
    /// hardened numbers and on numbers beyond `u32`.
    pub fn try_from_usize(value: usize) -> (r: Result<Self, IndexOverflowError>)
        ensures
            value < HARDENED_INDEX_BOUNDARY <==> r.is_ok(),
            r matches Ok(i) ==> i@ == value,
    {
        if value > u32::MAX as usize {
            return Err(IndexOverflowError);
        }
        UnhardenedIndex::try_from_u32(value as u32)
    }

    pub fn into_u32(self) -> (r: u32)
        ensures
            r == self@,
            r < HARDENED_INDEX_BOUNDARY,
    {
        proof {
            use_type_invariant(self);
        }
        self.0
    }

    /// The next index, unless it would reach the hardened range.
    pub fn try_increment(self) -> (r: Result<Self, IndexOverflowError>)
        ensures
            self@ + 1 < HARDENED_INDEX_BOUNDARY <==> r.is_ok(),
            r matches Ok(i) ==> i@ == self@ + 1,
    {
        proof {
            use_type_invariant(self);
        }
        if self.0 + 1 >= HARDENED_INDEX_BOUNDARY {
            return Err(IndexOverflowError);
        }
        Ok(UnhardenedIndex(self.0 + 1))
    }

    /// The previous index, unless this one is zero.
    pub fn try_decrement(self) -> (r: Result<Self, IndexOverflowError>)
        ensures
            self@ > 0 <==> r.is_ok(),
            r matches Ok(i) ==> i@ == self@ - 1,
    {
        proof {
            use_type_invariant(self);
        }
        if self.0 == 0 {
            return Err(IndexOverflowError);
        }
        Ok(UnhardenedIndex(self.0 - 1))
    }
}

/// Index for hardened child derivation; the wrapped value is at least 2^31.
#[derive(Clone, Copy, Debug, PartialEq, Eq, PartialOrd, Ord)]
pub struct HardenedIndex(u32);

impl View for HardenedIndex {
    type V = u32;

    closed spec fn view(&self) -> u32 {
        self.0
    }
}

impl HardenedIndex {
    #[verifier::type_invariant]
    pub open spec fn wf(self) -> bool {
        self@ >= HARDENED_INDEX_BOUNDARY
    }

    pub fn zero() -> (r: Self)
        ensures
            r@ == HARDENED_INDEX_BOUNDARY,
    {
        HardenedIndex(HARDENED_INDEX_BOUNDARY)
    }

    pub fn one() -> (r: Self)
        ensures
            r@ == HARDENED_INDEX_BOUNDARY + 1,
    {
        HardenedIndex(HARDENED_INDEX_BOUNDARY + 1)
    }

    /// Sets the hardened bit on `index`: the child number of hardened
    /// ordinal `index % 2^31`.
    pub fn from_ordinal(index: u32) -> (r: Self)
        ensures
            r@ == HARDENED_INDEX_BOUNDARY + index % HARDENED_INDEX_BOUNDARY,
    {
        let v = index | HARDENED_INDEX_BOUNDARY;
        assert(index | 0x8000_0000u32 == 0x8000_0000u32 + index % 0x8000_0000u32) by (bit_vector);
        HardenedIndex(v)
    }

    /// The hardened index of ordinal `value % 2^31`; values beyond `u32`
    /// are refused.
    pub fn try_from_u64(value: u64) -> (r: Result<Self, IndexOverflowError>)
        ensures
            value <= u32::MAX <==> r.is_ok(),
            r matches Ok(i) ==> i@ == HARDENED_INDEX_BOUNDARY + value % (HARDENED_INDEX_BOUNDARY as u64),
    {
        if value > u32::MAX as u64 {
            return Err(IndexOverflowError);
        }
        Ok(HardenedIndex::from_ordinal(value as u32))
    }

    /// The hardened index of ordinal `value % 2^31`; values beyond `u32`
    /// are refused.
    pub fn try_from_usize(value: usize) -> (r: Result<Self, IndexOverflowError>)
        ensures
            value <= u32::MAX <==> r.is_ok(),
            r matches Ok(i) ==> i@ == HARDENED_INDEX_BOUNDARY + value % (HARDENED_INDEX_BOUNDARY as usize),
    {
        if value > u32::MAX as usize {
            return Err(IndexOverflowError);
        }
        Ok(HardenedIndex::from_ordinal(value as u32))
    }

    pub fn into_u32(self) -> (r: u32)
        ensures
            r == self@,
            r >= HARDENED_INDEX_BOUNDARY,
    {
        proof {
            use_type_invariant(self);
        }
        self.0
    }

    /// The hardened ordinal: the child number with the hardened bit cleared.
    pub fn into_ordinal(self) -> (r: u32)
        ensures
            r == self@ - HARDENED_INDEX_BOUNDARY,
    {
        proof {
            use_type_invariant(self);
        }
        let v = self.0;
        assert(v >= 0x8000_0000u32 ==> v ^ 0x8000_0000u32 == v - 0x8000_0000u32) by (bit_vector);
        v ^ HARDENED_INDEX_BOUNDARY
    }

    /// The next index, unless this one is the largest `u32`.
    pub fn try_increment(self) -> (r: Result<Self, IndexOverflowError>)
        ensures
            self@ < u32::MAX <==> r.is_ok(),
            r matches Ok(i) ==> i@ == self@ + 1,
    {
        proof {
            use_type_invariant(self);
        }
        if self.0 == u32::MAX {
            return Err(IndexOverflowError);
        }
        Ok(HardenedIndex(self.0 + 1))
    }

    /// The previous index, unless this one is the first hardened index.
    pub fn try_decrement(self) -> (r: Result<Self, IndexOverflowError>)
        ensures
            self@ > HARDENED_INDEX_BOUNDARY <==> r.is_ok(),
            r matches Ok(i) ==> i@ == self@ - 1,
    {
        proof {
            use_type_invariant(self);
        }
        if self.0 <= HARDENED_INDEX_BOUNDARY {
            return Err(IndexOverflowError);
        }
        Ok(HardenedIndex(self.0 - 1))
    }
}

/// One step of a derivation template: a fixed unhardened or hardened child
/// number, or a wildcard standing for any child of that kind.
///
/// Steps are ordered by kind first (in the order of the variants), then by
/// index.
#[derive(Clone, Copy, PartialEq, Eq, PartialOrd, Ord, Debug, Hash)]
pub enum DerivationStep {
    Normal(u32),
    Hardened(u32),
    WildcardNormal,
    WildcardHardened,
}

/// A derivation path whose steps may hold wildcards.
#[derive(Clone, PartialEq, Eq, PartialOrd, Ord, Debug, Hash, Default)]
pub struct DerivationTemplate(pub Vec<DerivationStep>);

/// The unhardened steps with the given child numbers, in order.
pub open spec fn normal_steps(indexes: Seq<u32>) -> Seq<DerivationStep> {
    indexes.map_values(|i: u32| DerivationStep::Normal(i))
}

/// Paths that can be empty: the path of the master key.
pub trait DerivationPathMaster: Sized {
    /// The number of steps below the master key.
    spec fn depth(&self) -> nat;

    /// The empty path, `m`.
    fn master() -> (r: Self)
        ensures
            r.depth() == 0,
    ;

    /// Whether this path is the empty path, `m`.
    fn is_master(&self) -> (r: bool)
        ensures
            r == (self.depth() == 0),
    ;
}

impl DerivationPathMaster for DerivationTemplate {
    open spec fn depth(&self) -> nat {
        self.0@.len()
    }

    fn master() -> (r: Self) {
        DerivationTemplate(Vec::new())
    }

    fn is_master(&self) -> (r: bool) {
        self.0.len() == 0
    }
}

impl DerivationTemplate {
    /// Splits the path into the branch part, which ends with any step other
    /// than an unhardened one, and the terminal run of unhardened child
    /// numbers that follows it.
    pub fn hardened_normal_split(&self) -> (r: (DerivationTemplate, Vec<u32>))
        ensures
            r.0.0@ + normal_steps(r.1@) == self.0@,
            r.0.0@.len() == 0 || !(r.0.0@.last() is Normal),
    {
        let steps = &self.0;
        let mut split: usize = steps.len();
        while split > 0
            invariant
                split <= steps@.len(),
                forall|k: int| split <= k < steps@.len() ==> steps@[k] is Normal,
            ensures
                split == 0 || !(steps@[split - 1] is Normal),
                forall|k: int| split <= k < steps@.len() ==> steps@[k] is Normal,
            decreases split,
        {
            match steps[split - 1] {
                DerivationStep::Normal(_) => {
                    split = split - 1;
                },
                _ => {
                    break;
                },
            }
        }
        let mut branch: Vec<DerivationStep> = Vec::new();
        let mut i: usize = 0;
        while i < split
            invariant
                i <= split <= steps@.len(),
                branch@ == steps@.subrange(0, i as int),
            decreases split - i,
        {
            branch.push(steps[i]);
            i = i + 1;
        }
        let mut terminal: Vec<u32> = Vec::new();
        let mut j: usize = split;
        while j < steps.len()
            invariant
                split <= j <= steps@.len(),
                forall|k: int| split <= k < steps@.len() ==> steps@[k] is Normal,
                normal_steps(terminal@) == steps@.subrange(split as int, j as int),
            decreases steps@.len() - j,
        {
            match steps[j] {
                DerivationStep::Normal(index) => {
                    let ghost before = terminal@;
                    terminal.push(index);
                    assert(normal_steps(terminal@) =~= normal_steps(before).push(
                        DerivationStep::Normal(index),
                    ));
                    assert(steps@.subrange(split as int, j + 1) =~= steps@.subrange(
                        split as int,
                        j as int,
                    ).push(steps@[j as int]));
                },
                _ => {},
            }
            j = j + 1;
        }
        assert(branch@ + normal_steps(terminal@) =~= steps@);
        (DerivationTemplate(branch), terminal)
    }
}

/// A contiguous, inclusive range of child numbers, `start..=end`.
#[derive(Clone, Copy, PartialEq, Eq, PartialOrd, Ord, Debug, Hash)]
pub struct DerivationRange(pub u32, pub u32);

impl DerivationRange {
    /// The number of child numbers in the range.
    pub fn count(&self) -> (r: u32)
        requires
            self.0 <= self.1,
            self.1 - self.0 < u32::MAX,
        ensures
            r == self.1 - self.0 + 1,
    {
        self.1 - self.0 + 1
    }

    pub fn start(&self) -> (r: u32)
        ensures
            r == self.0,
    {
        self.0
    }

    pub fn end(&self) -> (r: u32)
        ensures
            r == self.1,
    {
        self.1
    }

    /// The strict encoding of the range: start, then end, as `u32`s.
    pub fn strict_encode(&self) -> (r: Vec<u8>)
        ensures
            r@ == range_bytes(*self),
    {
        let mut out: Vec<u8> = Vec::new();
        push_u32(&mut out, self.0);
        push_u32(&mut out, self.1);
        assert(out@ =~= range_bytes(*self));
        out
    }

    /// Reads a strictly encoded range at `pos`: the range, as it is, and the
    /// position right after its eight bytes.
    pub fn decode_at(s: &[u8], pos: usize) -> (r: Result<(DerivationRange, usize), DecodeError>)
        ensures
            pos + 8 <= s@.len() <==> r is Ok,
            r matches Ok((d, end)) ==> d == DerivationRange(u32_at(s@, pos as int), u32_at(s@, pos + 4))
                && end == pos + 8,
            r matches Err(e) ==> e == DecodeError::UnexpectedEof,
    {
        let total = s.len();
        let start = match read_u32(s, pos) {
            Ok(v) => v,
            Err(e) => return Err(e),
        };
        let end = match read_u32(s, pos + 4) {
            Ok(v) => v,
            Err(e) => return Err(e),
        };
        Ok((DerivationRange(start, end), pos + 8))
    }

    /// Decodes a byte string that must hold exactly one strictly encoded
    /// range.
    pub fn strict_decode(s: &[u8]) -> (r: Result<DerivationRange, DecodeError>)
        ensures
            s@.len() < 8 <==> r == Err::<DerivationRange, DecodeError>(DecodeError::UnexpectedEof),
            s@.len() > 8 <==> r == Err::<DerivationRange, DecodeError>(DecodeError::TrailingBytes),
            s@.len() == 8 <==> r == Ok::<DerivationRange, DecodeError>(
                DerivationRange(u32_at(s@, 0), u32_at(s@, 4)),
            ),
    {
        let start = match read_u32(s, 0) {
            Ok(v) => v,
            Err(e) => return Err(e),
        };
        let end = match read_u32(s, 4) {
            Ok(v) => v,
            Err(e) => return Err(e),
        };
        if s.len() != 8 {
            return Err(DecodeError::TrailingBytes);
        }
        Ok(DerivationRange(start, end))
    }
}

/// The strict encoding of a range.
pub open spec fn range_bytes(r: DerivationRange) -> Seq<u8> {
    le32(r.0) + le32(r.1)
}

/// A range decodes from its strict encoding to itself.
pub proof fn law_range_round_trip(r: DerivationRange)
    ensures
        range_bytes(r).len() == 8,
        u32_at(range_bytes(r), 0) == r.0,
        u32_at(range_bytes(r), 4) == r.1,
{
    let s = range_bytes(r);
    assert(s.subrange(0, 4) =~= le32(r.0));
    assert(s.subrange(4, 8) =~= le32(r.1));
    lemma_u32_at(s, 0, r.0);
    lemma_u32_at(s, 4, r.1);
}

/// Error parsing a textual description of derivation components.
#[derive(Clone, PartialEq, Eq, PartialOrd, Ord, Debug, Hash)]
pub struct ComponentsParseError(pub String);

} // verus!
