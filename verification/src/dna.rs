//! Identifier generation: a fresh 32-byte identifier derived from the
//! calling account and host-provided context.
//!
//! The derivation is deterministic in its inputs, as the host's replay
//! rules require, and is only a best-effort uniqueness source: a collision
//! is caught by the mint operation's duplicate check, never silently
//! overwritten.

use vstd::prelude::*;

use crate::types::AccountId;

verus! {

/// Byte `i` of the identifier derived from `who`, the host-provided
/// entropy bytes, and the current registry counter.
pub open spec fn spec_dna_byte(who: AccountId, entropy: Seq<u8>, count: u32, i: int) -> u8 {
    (entropy[i] ^ ((who >> (((i % 8) * 8) as u64)) as u8)) ^ (((count as u64) >> (((i % 4) * 8)
        as u64)) as u8)
}

/// The identifier derived from `who`, the host-provided entropy bytes,
/// and the current registry counter.
pub open spec fn spec_gen_dna(who: AccountId, entropy: Seq<u8>, count: u32) -> Seq<u8> {
    Seq::new(32, |i: int| spec_dna_byte(who, entropy, count, i))
}

/// Derive a fresh identifier for an asset minted by `who`, folding the
/// caller identity and the registry counter into the host's entropy.
pub fn gen_dna(who: AccountId, entropy: &[u8; 32], count: u32) -> (dna: [u8; 32])
    ensures
        dna@ == spec_gen_dna(who, entropy@, count),
{
    let mut out: [u8; 32] = [0u8; 32];
    let mut i: usize = 0;
    while i < 32
        invariant
            i <= 32,
            forall|j: int| 0 <= j < i ==> out@[j] == spec_dna_byte(who, entropy@, count, j),
        decreases 32 - i,
    {
        let shift_w: u64 = ((i % 8) * 8) as u64;
        let shift_c: u64 = ((i % 4) * 8) as u64;
        let b: u8 = (entropy[i] ^ (#[verifier::truncate] ((who >> shift_w) as u8)))
            ^ (#[verifier::truncate] (((count as u64) >> shift_c) as u8));
        out[i] = b;
        proof {
            assert(out@[i as int] == spec_dna_byte(who, entropy@, count, i as int));
        }
        i += 1;
    }
    proof {
        assert(out@ =~= spec_gen_dna(who, entropy@, count));
    }
    out
}

} // verus!
