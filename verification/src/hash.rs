//! Correlation-robust hash functions derived from fixed-key AES, and the
//! point hash that the base OT uses for key derivation.

use vstd::prelude::*;

verus! {

use crate::aes::aes128_encrypt;
use crate::aes::aes128_of;
use crate::aes::ctr_to_block;
use crate::aes::le_block;
use crate::Block;

/// The correlation-robust hash of `x` under key `k`: `AES_k(x) ^ x`.
pub open spec fn cr_hash_of(k: Seq<u8>, x: Seq<u8>) -> Seq<u8> {
    Seq::new(16, |i: int| aes128_of(k, x)[i] ^ x[i])
}

/// The linear map under the circular hash: the low 64 bits are kept, the
/// high 64 bits become the XOR of the two halves.
pub open spec fn sigma_of(x: Seq<u8>) -> Seq<u8> {
    Seq::new(
        16,
        |i: int|
            if i < 8 {
                x[i]
            } else {
                x[i] ^ x[i - 8]
            },
    )
}

/// AES-based correlation-robust hash function under a fixed key.
pub struct AesHash {
    key: [u8; 16],
}

impl AesHash {
    /// The fixed AES key of this hash.
    pub closed spec fn key(&self) -> Seq<u8> {
        self.key@
    }

    /// Fix the AES key of the hash.
    pub fn new(key: &Block) -> (r: Self)
        ensures
            r.key() == key@,
    {
        AesHash { key: *key }
    }

    /// Correlation-robust hash for 128-bit inputs: `AES_K(x) ^ x` under the
    /// fixed key `K`. The tweak is reserved for tweakable constructions and
    /// ignored.
    pub fn cr_hash(&self, _i: usize, x: &Block) -> (r: Block)
        ensures
            r@ == cr_hash_of(self.key(), x@),
    {
        let y = aes128_encrypt(&self.key, x);
        let r = crate::xor_block(&y, x);
        proof {
            assert(r@ =~= cr_hash_of(self.key(), x@));
        }
        r
    }

    /// Circular correlation-robust hash: the correlation-robust hash of
    /// `sigma(x)`, where `sigma` XORs the low half of the block into its
    /// high half and keeps the low half.
    pub fn ccr_hash(&self, i: usize, x: &Block) -> (r: Block)
        ensures
            r@ == cr_hash_of(self.key(), sigma_of(x@)),
    {
        let mut s: Block = [0u8; 16];
        let mut k: usize = 0;
        while k < 8
            invariant
                k <= 8,
                forall|t: int| 0 <= t < k ==> s@[t] == x@[t],
            decreases 8 - k,
        {
            s[k] = x[k];
            k = k + 1;
        }
        while k < 16
            invariant
                8 <= k <= 16,
                forall|t: int| 0 <= t < 8 ==> s@[t] == x@[t],
                forall|t: int| 8 <= t < k ==> s@[t] == (x@[t] ^ x@[t - 8]),
            decreases 16 - k,
        {
            s[k] = x[k] ^ x[k - 8];
            k = k + 1;
        }
        proof {
            assert(s@ =~= sigma_of(x@));
        }
        self.cr_hash(i, &s)
    }
}

/// AES encryption of the little-endian index block under a caller-supplied
/// 16-byte key; the verified tail of the point hash.
pub fn hash_index_with_key(key: &[u8; 16], i: usize) -> (r: Block)
    ensures
        r@ == aes128_of(key@, le_block(i as int)),
{
    let blk = ctr_to_block(i as u64);
    aes128_encrypt(key, &blk)
}

#[verifier::external_type_specification]
#[verifier::external_body]
pub struct ExRistrettoPoint(curve25519_dalek::ristretto::RistrettoPoint);

/// Relies on RistrettoPoint::compress: the canonical 32-byte Ristretto
/// encoding of the point.
#[verifier::external_body]
fn compress_point(pt: &curve25519_dalek::ristretto::RistrettoPoint) -> (r: [u8; 32])
    ensures
        r@.len() == 32,
{
    pt.compress().to_bytes()
}

/// Hash an elliptic-curve point under an index: AES-encrypt the little-endian
/// encoding of `i`, keyed by the first 16 bytes of the point's canonical
/// compression.
pub fn hash_pt_block(i: usize, pt: &curve25519_dalek::ristretto::RistrettoPoint) -> (r: Block)
    ensures
        exists|k: Seq<u8>| r@ == aes128_of(k, le_block(i as int)),
{
    let c = compress_point(pt);
    let mut key: [u8; 16] = [0u8; 16];
    let mut t: usize = 0;
    while t < 16
        invariant
            t <= 16,
            forall|j: int| 0 <= j < t ==> key@[j] == c@[j],
        decreases 16 - t,
    {
        key[t] = c[t];
        t = t + 1;
    }
    let r = hash_index_with_key(&key, i);
    proof {
        assert(r@ == aes128_of(key@, le_block(i as int)));
    }
    r
}

} // verus!
