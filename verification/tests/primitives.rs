//! Tests of the block, bit, hash, PRG and adapter-logic primitives.

use twopac::bits::boolvec_to_u8vec;
use twopac::bits::get_bit;
use twopac::bits::set_bit;
use twopac::bits::transpose;
use twopac::bits::u8vec_to_boolvec;
use twopac::bits::xor_inplace;
use twopac::gc::garbler_emit_action;
use twopac::gc::index_byte;
use twopac::gc::num_bits;
use twopac::gc::u16_to_bits;
use twopac::gc::EmitAction;
use twopac::gc::GarblerMsgKind;
use twopac::hash::hash_index_with_key;
use twopac::hash::hash_pt_block;
use twopac::hash::AesHash;
use twopac::prg::AesRng;
use twopac::xor_block;
use twopac::zero_block;

#[test]
fn test_xor_block() {
    let x = rand::random::<[u8; 16]>();
    let y = rand::random::<[u8; 16]>();
    let z = xor_block(&x, &y);
    let z = xor_block(&z, &y);
    assert_eq!(x, z);
}

#[test]
fn test_xor_involutive_concrete() {
    let x: [u8; 16] = [1, 2, 3, 4, 5, 6, 7, 8, 9, 10, 11, 12, 13, 14, 15, 16];
    let y: [u8; 16] = [0xFF; 16];
    assert_eq!(xor_block(&xor_block(&x, &y), &y), x);
    let z = zero_block();
    assert_eq!(xor_block(&x, &z), x);
}

#[test]
fn test_xor_inplace() {
    let mut d = vec![0x0Fu8, 0xF0, 0xAA];
    let s = vec![0xFFu8, 0xFF, 0xAA];
    xor_inplace(&mut d, &s);
    assert_eq!(d, vec![0xF0u8, 0x0F, 0x00]);
}

#[test]
fn test_bit_get_set() {
    let mut v = vec![0u8; 2];
    set_bit(&mut v, 0, true);
    set_bit(&mut v, 9, true);
    assert_eq!(v, vec![0x01u8, 0x02]);
    assert!(get_bit(&v, 0));
    assert!(!get_bit(&v, 1));
    assert!(get_bit(&v, 9));
}

#[test]
fn test_pack_unpack_roundtrip() {
    let bits: Vec<bool> = (0..64).map(|i| (i * 7 + 3) % 5 < 2).collect();
    let packed = boolvec_to_u8vec(&bits);
    assert_eq!(packed.len(), 8);
    let back = u8vec_to_boolvec(&packed);
    assert_eq!(back, bits);
}

#[test]
fn test_pack_exact_bytes() {
    let mut bits = vec![false; 8];
    bits[0] = true;
    bits[7] = true;
    let packed = boolvec_to_u8vec(&bits);
    assert_eq!(packed, vec![0x81u8]);
    let unpacked = u8vec_to_boolvec(&vec![0x80u8]);
    assert_eq!(unpacked[7], true);
    assert_eq!(&unpacked[0..7], &[false; 7]);
}

#[test]
fn test_transpose_positions() {
    // An 8 x 16 matrix with exactly one bit set, at row 3, column 11.
    let mut m = vec![0u8; 16];
    set_bit(&mut m, 3 * 16 + 11, true);
    let t = transpose(&m, 8, 16);
    assert_eq!(t.len(), 16);
    // In the 16 x 8 result the bit sits at row 11, column 3.
    for i in 0..16 {
        for j in 0..8 {
            assert_eq!(get_bit(&t, i * 8 + j), i == 11 && j == 3);
        }
    }
}

#[test]
fn test_transpose_involutive() {
    let m: Vec<u8> = (0..48).map(|i| (i * 37 + 11) as u8).collect();
    // 16 rows of 24 bits each.
    let t = transpose(&m, 16, 24);
    let back = transpose(&t, 24, 16);
    assert_eq!(back, m);
}

#[test]
fn test_prg_deterministic() {
    let seed: [u8; 16] = [7u8; 16];
    let mut rng1 = AesRng::new(&seed);
    let mut rng2 = AesRng::new(&seed);
    let mut a = vec![0u8; 40];
    rng1.random(&mut a);
    let mut b1 = vec![0u8; 16];
    let mut b2 = vec![0u8; 24];
    rng2.random(&mut b1);
    rng2.random(&mut b2);
    let b: Vec<u8> = b1.into_iter().chain(b2.into_iter()).collect();
    assert_eq!(a, b);
    // The stream is not the all-zero identity.
    assert!(a.iter().any(|&x| x != 0));
}

#[test]
fn test_prg_seed_matters() {
    let mut rng1 = AesRng::new(&[0u8; 16]);
    let mut rng2 = AesRng::new(&[1u8; 16]);
    let mut a = vec![0u8; 32];
    let mut b = vec![0u8; 32];
    rng1.random(&mut a);
    rng2.random(&mut b);
    assert_ne!(a, b);
}

#[test]
fn test_cr_hash_nist_vector() {
    // FIPS-197 AES-128: the hash is the ciphertext XORed with the input.
    let key: [u8; 16] = [
        0x00, 0x01, 0x02, 0x03, 0x04, 0x05, 0x06, 0x07, 0x08, 0x09, 0x0a, 0x0b, 0x0c, 0x0d,
        0x0e, 0x0f,
    ];
    let pt: [u8; 16] = [
        0x00, 0x11, 0x22, 0x33, 0x44, 0x55, 0x66, 0x77, 0x88, 0x99, 0xaa, 0xbb, 0xcc, 0xdd,
        0xee, 0xff,
    ];
    let ct: [u8; 16] = [
        0x69, 0xc4, 0xe0, 0xd8, 0x6a, 0x7b, 0x04, 0x30, 0xd8, 0xcd, 0xb7, 0x80, 0x70, 0xb4,
        0xc5, 0x5a,
    ];
    let hash = AesHash::new(&key);
    let h = hash.cr_hash(0, &pt);
    let mut expected = [0u8; 16];
    for i in 0..16 {
        expected[i] = ct[i] ^ pt[i];
    }
    assert_eq!(h, expected);
}

#[test]
fn test_ccr_hash_is_cr_of_sigma() {
    let key = rand::random::<[u8; 16]>();
    let x = rand::random::<[u8; 16]>();
    let hash = AesHash::new(&key);
    let mut sigma = [0u8; 16];
    for i in 0..8 {
        sigma[i] = x[i];
    }
    for i in 8..16 {
        sigma[i] = x[i] ^ x[i - 8];
    }
    assert_eq!(hash.ccr_hash(5, &x), hash.cr_hash(5, &sigma));
}

#[test]
fn test_hash_pt_block() {
    let uniform = [0x42u8; 64];
    let pt = curve25519_dalek::ristretto::RistrettoPoint::from_uniform_bytes(&uniform);
    // The point hash is AES of the index under the head of the compression.
    let compressed = pt.compress().to_bytes();
    let mut key = [0u8; 16];
    key.copy_from_slice(&compressed[0..16]);
    assert_eq!(hash_pt_block(7, &pt), hash_index_with_key(&key, 7));
    // AES is a permutation: distinct indices hash to distinct blocks.
    assert_ne!(hash_pt_block(7, &pt), hash_pt_block(8, &pt));
}

#[test]
fn test_num_bits() {
    assert_eq!(num_bits(1), 0);
    assert_eq!(num_bits(2), 1);
    assert_eq!(num_bits(3), 2);
    assert_eq!(num_bits(16), 4);
    assert_eq!(num_bits(17), 5);
    assert_eq!(num_bits(65535), 16);
}

#[test]
fn test_u16_to_bits() {
    let bits = u16_to_bits(0xABCD, 16);
    let expected: Vec<bool> = (0..16).map(|i| (0xABCDu16 >> i) & 1 == 1).collect();
    assert_eq!(bits, expected);
    assert_eq!(u16_to_bits(1, 1), vec![true]);
    assert_eq!(u16_to_bits(2, 2), vec![false, true]);
}

#[test]
fn test_index_byte() {
    assert_eq!(index_byte(Some(3)), 3);
    assert_eq!(index_byte(None), 0xFF);
}

#[test]
fn test_garbler_emit_action() {
    assert_eq!(
        garbler_emit_action(&GarblerMsgKind::UnencodedGarblerInput),
        EmitAction::EncodeGarblerInput
    );
    assert_eq!(
        garbler_emit_action(&GarblerMsgKind::UnencodedEvaluatorInput),
        EmitAction::Reject
    );
    assert_eq!(garbler_emit_action(&GarblerMsgKind::EvaluatorInput), EmitAction::Reject);
    assert_eq!(garbler_emit_action(&GarblerMsgKind::Other), EmitAction::Forward);
}

#[test]
fn test_xor_algebra() {
    let x = rand::random::<[u8; 16]>();
    let y = rand::random::<[u8; 16]>();
    let w = rand::random::<[u8; 16]>();
    assert_eq!(xor_block(&x, &y), xor_block(&y, &x));
    assert_eq!(
        xor_block(&xor_block(&x, &y), &w),
        xor_block(&x, &xor_block(&y, &w))
    );
    assert_eq!(xor_block(&x, &zero_block()), x);
}
