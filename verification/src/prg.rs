//! AES counter-mode pseudorandom generator: a seed block keys AES-128, and
//! the stream is the encryption of the block counter, 16 bytes at a time.

use vstd::prelude::*;

verus! {

use crate::aes::aes128_encrypt;
use crate::aes::aes128_of;
use crate::aes::ctr_to_block;
use crate::aes::le_block;
use crate::Block;

/// Byte `i` of the AES counter-mode stream keyed by `key`, starting at block
/// counter `base`.
pub open spec fn prg_byte(key: Seq<u8>, base: u64, i: int) -> u8 {
    aes128_of(key, le_block(base + i / 16))[i % 16]
}

/// A pseudorandom generator: AES-128 keyed by the seed, applied to a block
/// counter that starts at 0 and grows by one per 16 bytes produced.
pub struct AesRng {
    key: [u8; 16],
    counter: u64,
}

impl AesRng {
    /// The seed, which keys the stream.
    pub closed spec fn key(&self) -> Seq<u8> {
        self.key@
    }

    /// The block counter: how many 16-byte blocks have been consumed.
    pub closed spec fn ctr(&self) -> u64 {
        self.counter
    }

    /// Seed a fresh generator; its counter starts at 0.
    pub fn new(seed: &Block) -> (r: Self)
        ensures
            r.key() == seed@,
            r.ctr() == 0,
    {
        AesRng { key: *seed, counter: 0 }
    }

    /// Fill `buf` with the next bytes of the stream. A length that is not a
    /// multiple of 16 takes the prefix of one final block.
    pub fn random(&mut self, buf: &mut Vec<u8>)
        requires
            old(self).ctr() + (old(buf).len() + 15) / 16 <= u64::MAX,
        ensures
            final(buf).len() == old(buf).len(),
            forall|i: int|
                0 <= i < old(buf).len() ==> final(buf)@[i] == prg_byte(
                    old(self).key(),
                    old(self).ctr(),
                    i,
                ),
            final(self).key() == old(self).key(),
            final(self).ctr() == old(self).ctr() + (old(buf).len() + 15) / 16,
    {
        let n = buf.len();
        let ghost c0 = self.counter;
        let mut pos: usize = 0;
        while pos < n
            invariant
                buf.len() == n,
                self.key@ == old(self).key(),
                pos <= n,
                pos == n || pos % 16 == 0,
                c0 + (n + 15) / 16 <= u64::MAX,
                self.counter == c0 + (pos + 15) / 16,
                forall|i: int| 0 <= i < pos ==> buf@[i] == prg_byte(old(self).key(), c0, i),
            decreases n - pos,
        {
            proof {
                assert(self.counter < u64::MAX) by {
                    assert(pos % 16 == 0);
                    vstd::arithmetic::div_mod::lemma_fundamental_div_mod(pos as int, 16);
                    assert((pos + 15) / 16 == pos / 16) by {
                        vstd::arithmetic::div_mod::lemma_fundamental_div_mod(
                            (pos + 15) as int,
                            16,
                        );
                    }
                    assert(pos / 16 + 1 <= (n + 15) / 16) by {
                        vstd::arithmetic::div_mod::lemma_div_is_ordered(
                            (pos + 16) as int,
                            (n + 15) as int,
                            16,
                        );
                        assert((pos + 16) / 16 == pos / 16 + 1) by {
                            vstd::arithmetic::div_mod::lemma_div_plus_one(pos as int, 16);
                        }
                    }
                }
            }
            let blk = ctr_to_block(self.counter);
            let enc = aes128_encrypt(&self.key, &blk);
            let chunk: usize = if n - pos < 16 {
                n - pos
            } else {
                16
            };
            let mut k: usize = 0;
            while k < chunk
                invariant
                    buf.len() == n,
                    k <= chunk,
                    chunk <= 16,
                    pos + chunk <= n,
                    pos % 16 == 0,
                    self.counter == c0 + pos / 16,
                    enc@ == aes128_of(old(self).key(), le_block(self.counter as int)),
                    enc@.len() == 16,
                    forall|i: int| 0 <= i < pos ==> buf@[i] == prg_byte(old(self).key(), c0, i),
                    forall|i: int|
                        pos <= i < pos + k ==> buf@[i] == prg_byte(old(self).key(), c0, i),
                decreases chunk - k,
            {
                buf.set(pos + k, enc[k]);
                proof {
                    let i = (pos + k) as int;
                    assert(i / 16 == pos / 16 && i % 16 == k) by {
                        vstd::arithmetic::div_mod::lemma_fundamental_div_mod(pos as int, 16);
                        vstd::arithmetic::div_mod::lemma_fundamental_div_mod_converse(
                            i,
                            16,
                            pos as int / 16,
                            k as int,
                        );
                    }
                    assert(buf@[i] == prg_byte(old(self).key(), c0, i));
                }
                k = k + 1;
            }
            proof {
                vstd::arithmetic::div_mod::lemma_fundamental_div_mod(pos as int, 16);
                assert((pos + 15) / 16 == pos / 16) by {
                    vstd::arithmetic::div_mod::lemma_fundamental_div_mod((pos + 15) as int, 16);
                }
                if chunk == 16 {
                    assert((pos + 16 + 15) / 16 == pos / 16 + 1) by {
                        vstd::arithmetic::div_mod::lemma_fundamental_div_mod_converse(
                            (pos + 16 + 15) as int,
                            16,
                            pos as int / 16 + 1,
                            15,
                        );
                    }
                } else {
                    assert(pos + chunk == n);
                    assert((n + 15) / 16 == pos / 16 + 1) by {
                        vstd::arithmetic::div_mod::lemma_fundamental_div_mod_converse(
                            (n + 15) as int,
                            16,
                            pos as int / 16 + 1,
                            (chunk - 1) as int,
                        );
                    }
                }
            }
            self.counter = self.counter + 1;
            pos = pos + chunk;
        }
    }
}

/// The stream is a function of the seed alone: any two buffers filled from
/// the start of streams with the same seed agree.
pub proof fn lemma_prg_deterministic(key: Seq<u8>, out1: Seq<u8>, out2: Seq<u8>)
    requires
        out1.len() == out2.len(),
        forall|i: int| 0 <= i < out1.len() ==> out1[i] == prg_byte(key, 0, i),
        forall|i: int| 0 <= i < out2.len() ==> out2[i] == prg_byte(key, 0, i),
    ensures
        out1 == out2,
{
    assert(out1 =~= out2);
}

} // verus!
