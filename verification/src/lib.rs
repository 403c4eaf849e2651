//! Verified core of a semi-honest two-party computation stack built on
//! garbled circuits: 128-bit block utilities, fixed-key AES hashes, an AES
//! counter-mode pseudorandom generator, and the ALSZ oblivious-transfer
//! extension algebra, each with a proved contract.

pub mod aes;
pub mod bits;
pub mod gc;
pub mod hash;
pub mod ote;
pub mod prg;

use vstd::prelude::*;

verus! {

/// A 128-bit chunk: the universal unit for OT messages, hash outputs and
/// AES blocks.
pub type Block = [u8; 16];

/// Bitwise XOR of two blocks.
pub fn xor_block(x: &Block, y: &Block) -> (z: Block)
    ensures
        z@ == crate::bits::spec_xor(x@, y@),
{
    let mut z: Block = [0u8; 16];
    for i in 0..16
        invariant
            forall|k: int| 0 <= k < i ==> z@[k] == (x@[k] ^ y@[k]),
    {
        z[i] = x[i] ^ y[i];
    }
    proof {
        assert(z@ =~= crate::bits::spec_xor(x@, y@));
    }
    z
}

/// The all-zero block, the identity of XOR.
pub fn zero_block() -> (z: Block)
    ensures
        forall|k: int| 0 <= k < 16 ==> z@[k] == 0u8,
{
    [0u8; 16]
}

} // verus!
