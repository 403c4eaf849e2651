//! Fixed-key AES-128, the pseudorandom permutation under the hashes and the
//! counter-mode generator.

use aes::cipher::generic_array::GenericArray;
use aes::cipher::BlockEncrypt;
use aes::cipher::KeyInit;
use vstd::prelude::*;

verus! {

/// What AES-128 returns for a key and a plaintext block: a fixed function of
/// the two arguments alone.
pub uninterp spec fn aes128_of(key: Seq<u8>, x: Seq<u8>) -> Seq<u8>;

/// Relies on the `aes` crate's `Aes128`: NIST AES-128 encryption of one
/// 16-byte block under a 16-byte key, a deterministic function of the key
/// and the block alone, returning one 16-byte block.
#[verifier::external_body]
pub(crate) fn aes128_encrypt(key: &[u8; 16], x: &[u8; 16]) -> (r: [u8; 16])
    ensures
        r@ == aes128_of(key@, x@),
        r@.len() == 16,
{
    let cipher = aes::Aes128::new(GenericArray::from_slice(key));
    let mut block = GenericArray::clone_from_slice(x);
    cipher.encrypt_block(&mut block);
    block.into()
}

/// The 16-byte little-endian encoding of a 64-bit value: the low 8 bytes
/// hold the value, the high 8 bytes are zero.
pub open spec fn le_block(c: int) -> Seq<u8> {
    Seq::new(
        16,
        |i: int|
            if i < 8 {
                ((((c as u64)) >> ((8 * i) as u64)) & 0xff) as u8
            } else {
                0u8
            },
    )
}

/// Encode a counter as its 16-byte little-endian block.
pub fn ctr_to_block(c: u64) -> (r: [u8; 16])
    ensures
        r@ == le_block(c as int),
{
    let mut r: [u8; 16] = [0u8; 16];
    let mut i: usize = 0;
    while i < 8
        invariant
            i <= 8,
            forall|k: int| 0 <= k < i ==> r@[k] == le_block(c as int)[k],
            forall|k: int| i <= k < 16 ==> r@[k] == 0u8,
        decreases 8 - i,
    {
        let sh: u64 = 8 * (i as u64);
        r[i] = ((c >> sh) & 0xff) as u8;
        i = i + 1;
    }
    proof {
        assert(r@ =~= le_block(c as int));
    }
    r
}

} // verus!
