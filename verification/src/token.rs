//! Tokens: the value a registration carries through the kernel and back.

use vstd::prelude::*;

verus! {

/// Number of distinct values of each half of a token.
pub const HALF: u64 = 0x1_0000_0000;

/// Names one registration: a slot of the store and the generation of that
/// slot at the time of registering. The kernel sees it as one `u64`.
#[derive(Clone, Copy, Debug, PartialEq, Eq, Structural)]
pub struct PendingToken {
    pub index: u32,
    pub generation: u32,
}

impl PendingToken {
    /// The `u64` that stands for this token: generation in the upper half,
    /// index in the lower half.
    pub open spec fn encode(self) -> u64 {
        (self.generation as int * 0x1_0000_0000 + self.index as int) as u64
    }

    /// The token that a `u64` stands for. Every `u64` stands for one.
    pub open spec fn decode(raw: u64) -> PendingToken {
        PendingToken {
            index: (raw as int % 0x1_0000_0000) as u32,
            generation: (raw as int / 0x1_0000_0000) as u32,
        }
    }

    /// The value to hand to the kernel.
    pub fn to_raw(&self) -> (raw: u64)
        ensures
            raw == self.encode(),
    {
        self.generation as u64 * HALF + self.index as u64
    }

    /// The token carried by a value that came back from the kernel.
    pub fn from_raw(raw: u64) -> (token: PendingToken)
        ensures
            token == Self::decode(raw),
    {
        PendingToken { index: (raw % HALF) as u32, generation: (raw / HALF) as u32 }
    }

    /// Decoding undoes encoding: a token survives the trip through the kernel.
    pub proof fn lemma_decode_encode(token: PendingToken)
        ensures
            Self::decode(token.encode()) == token,
    {
    }

    /// Encoding undoes decoding: no two raw values stand for the same token.
    pub proof fn lemma_encode_decode(raw: u64)
        ensures
            Self::decode(raw).encode() == raw,
    {
    }

    /// Distinct tokens travel as distinct raw values.
    pub proof fn lemma_encode_injective(a: PendingToken, b: PendingToken)
        requires
            a.encode() == b.encode(),
        ensures
            a == b,
    {
        Self::lemma_decode_encode(a);
        Self::lemma_decode_encode(b);
    }
}

} // verus!
