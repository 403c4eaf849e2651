//! End-to-end tests of the oblivious-transfer extension core: both sides run
//! in one process, with the rows and the masked pairs handed over directly in
//! place of the transport.

use twopac::bits::boolvec_to_u8vec;
use twopac::hash::AesHash;
use twopac::ote::ot_receive_path;
use twopac::ote::ot_send_path;
use twopac::ote::ote_receiver_outputs;
use twopac::ote::ote_receiver_rows;
use twopac::ote::ote_sender_pairs;
use twopac::ote::ote_sender_rows;
use twopac::ote::OtPath;
use twopac::bits::transpose;

fn rand_block_vec(size: usize) -> Vec<[u8; 16]> {
    (0..size).map(|_| rand::random::<[u8; 16]>()).collect()
}

fn rand_bool_vec(size: usize) -> Vec<bool> {
    (0..size).map(|_| rand::random::<bool>()).collect()
}

/// Run the whole extension for `m` OTs and check every received block
/// against the chosen message.
fn run_extension(m: usize) {
    let w = m / 8;

    // Receiver side: seed pairs, choices, matrix T and the rows to send.
    let k0 = rand_block_vec(128);
    let k1 = rand_block_vec(128);
    let seeds: Vec<([u8; 16], [u8; 16])> =
        k0.iter().cloned().zip(k1.iter().cloned()).collect();
    let choices = rand_bool_vec(m);
    let r_packed = boolvec_to_u8vec(&choices);
    let (ts, gs) = ote_receiver_rows(&seeds, &r_packed);
    let tst = transpose(&ts, 128, m);

    // Sender side: a choice vector over the seed pairs, the matrix Q.
    let s = rand_bool_vec(128);
    let s_packed_vec = boolvec_to_u8vec(&s);
    let mut s_packed = [0u8; 16];
    s_packed.copy_from_slice(&s_packed_vec);
    let sseeds: Vec<[u8; 16]> =
        (0..128).map(|i| if s[i] { k1[i] } else { k0[i] }).collect();
    let qs = ote_sender_rows(&s, &sseeds, &gs, w);
    let qst = transpose(&qs, 128, m);

    // Message pairs, masked and unmasked.
    let m0s = rand_block_vec(m);
    let m1s = rand_block_vec(m);
    let inputs: Vec<([u8; 16], [u8; 16])> =
        m0s.iter().cloned().zip(m1s.iter().cloned()).collect();
    let hash_key = rand::random::<[u8; 16]>();
    let hash = AesHash::new(&hash_key);
    let ys = ote_sender_pairs(&hash, &qst, &s_packed, &inputs);
    let out = ote_receiver_outputs(&hash, &tst, &choices, &ys);

    assert_eq!(out.len(), m);
    for j in 0..m {
        let expected = if choices[j] { m1s[j] } else { m0s[j] };
        assert_eq!(out[j], expected, "column {} disagrees", j);
    }
}

#[test]
fn test_extension_small() {
    run_extension(256);
}

#[test]
fn test_extension_large() {
    run_extension(4096);
}

#[test]
fn test_receiver_rows_blind_the_choices() {
    // Two runs from the same seed pairs and different choice vectors: the
    // rows sent differ exactly by the packed choice difference, so the seeds
    // mask everything else the rows could reveal.
    let m = 256;
    let k0 = rand_block_vec(128);
    let k1 = rand_block_vec(128);
    let seeds: Vec<([u8; 16], [u8; 16])> =
        k0.iter().cloned().zip(k1.iter().cloned()).collect();
    let c1 = rand_bool_vec(m);
    let c2 = rand_bool_vec(m);
    let rp1 = boolvec_to_u8vec(&c1);
    let rp2 = boolvec_to_u8vec(&c2);
    let (_, gs1) = ote_receiver_rows(&seeds, &rp1);
    let (_, gs2) = ote_receiver_rows(&seeds, &rp2);
    for i in 0..128 {
        for b in 0..m / 8 {
            assert_eq!(gs1[i][b] ^ gs2[i][b], rp1[b] ^ rp2[b]);
        }
    }
}

#[test]
fn test_ot_path_routing() {
    // Counts of at most 128 fall back to the base OT.
    assert_eq!(ot_send_path(8), OtPath::Base);
    assert_eq!(ot_send_path(16), OtPath::Base);
    assert_eq!(ot_send_path(128), OtPath::Base);
    assert_eq!(ot_receive_path(128), OtPath::Base);
    // A count that is not a multiple of 8 is rejected before any transfer.
    assert_eq!(ot_send_path(129), OtPath::Rejected);
    assert_eq!(ot_receive_path(129), OtPath::Rejected);
    assert_eq!(ot_send_path(4100), OtPath::Rejected);
    // Larger multiples of 8 take the extension.
    assert_eq!(ot_send_path(136), OtPath::Extension);
    assert_eq!(ot_send_path(4096), OtPath::Extension);
    assert_eq!(ot_receive_path(4096), OtPath::Extension);
}

#[test]
fn test_extension_exchange_function() {
    let m = 512;
    let k0 = rand_block_vec(128);
    let k1 = rand_block_vec(128);
    let seeds: Vec<([u8; 16], [u8; 16])> =
        k0.iter().cloned().zip(k1.iter().cloned()).collect();
    let s = rand_bool_vec(128);
    let choices = rand_bool_vec(m);
    let m0s = rand_block_vec(m);
    let m1s = rand_block_vec(m);
    let inputs: Vec<([u8; 16], [u8; 16])> =
        m0s.iter().cloned().zip(m1s.iter().cloned()).collect();
    let hash = AesHash::new(&rand::random::<[u8; 16]>());
    let out = twopac::ote::ote_extension_exchange(&hash, &seeds, &s, &choices, &inputs);
    for j in 0..m {
        assert_eq!(out[j], if choices[j] { m1s[j] } else { m0s[j] });
    }
}
