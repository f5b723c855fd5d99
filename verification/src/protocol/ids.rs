//! Identity types: plain arrays and integers, no wall-time requirement.

use vstd::prelude::*;

verus! {

/// Session identity: sixteen driver-generated random bytes.
#[derive(Clone, Copy, Debug, PartialEq, Eq, Hash, PartialOrd, Ord)]
pub struct SessionId(pub [u8; 16]);

/// Correlates one driver-side unit of work (an effect) across its start,
/// progress, terminal, and cancellation.
#[derive(Clone, Copy, Debug, PartialEq, Eq, Structural, Hash, PartialOrd, Ord)]
pub struct EffectId(pub u64);

/// Monotonic turn identity. Every effect and completion carries the epoch it
/// belongs to; completions from an aborted epoch are dropped with a trace.
#[derive(Clone, Copy, Debug, PartialEq, Eq, Structural, Hash, PartialOrd, Ord)]
pub struct TurnEpoch(pub u64);

impl Default for TurnEpoch {
    fn default() -> (r: Self)
        ensures
            r.0 == 0,
    {
        TurnEpoch(0)
    }
}

/// Correlates a client submission with the events it caused.
#[derive(Clone, Copy, Debug, PartialEq, Eq, Structural, Hash, PartialOrd, Ord)]
pub struct SubmissionId(pub u64);

/// A content digest as plain bytes; the hashing algorithm is declared by the
/// producing context, not by this type.
#[derive(Clone, Copy, Debug, PartialEq, Eq, Hash)]
pub struct Digest(pub [u8; 32]);

/// A `major.minor.patch` version as plain integers.
#[derive(Clone, Copy, Debug, PartialEq, Eq, Hash, PartialOrd, Ord)]
pub struct VersionTriple(pub [u16; 3]);

impl Default for VersionTriple {
    fn default() -> (r: Self)
        ensures
            r.0@ == seq![0u16, 0u16, 0u16],
    {
        VersionTriple([0, 0, 0])
    }
}

} // verus!
