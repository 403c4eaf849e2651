//! The oblivious-transfer extension core in the style of
//! Asharov, Lindell, Schneider and Zohner: 128 base OTs of seed blocks are
//! stretched to `m` OTs through counter-mode PRG expansion of a 128-row bit
//! matrix, a transpose, and a correlation-robust hash per column.
//!
//! The functions here are the protocol's computation, free of any transport:
//! the extension sender plays base-OT receiver and feeds the rows it read
//! from its peer to [`ote_sender_rows`]; the extension receiver plays
//! base-OT sender and writes the rows [`ote_receiver_rows`] returns. After
//! both transpose their matrix, [`ote_sender_pairs`] masks the message pairs
//! and [`ote_receiver_outputs`] unmasks the chosen ones.

use vstd::prelude::*;

verus! {

use crate::bits::bit_of;
use crate::bits::lemma_rowmajor_lt;
use crate::bits::mbit;
use crate::bits::spec_xor;
use crate::bits::vec_zero;
use crate::hash::cr_hash_of;
use crate::hash::AesHash;
use crate::prg::prg_byte;
use crate::prg::AesRng;
use crate::Block;

/// Byte `b` of row `row` in a row-major matrix whose rows hold `w` bytes.
pub open spec fn mat_byte(m: Seq<u8>, row: int, b: int, w: int) -> u8 {
    m[row * w + b]
}

/// The 16-byte column `j` of a transposed matrix: one block per extension OT.
pub open spec fn column(mt: Seq<u8>, j: int) -> Seq<u8> {
    mt.subrange(16 * j, 16 * j + 16)
}

/// How a request for `m` OTs on the sending side is routed: a count that is
/// not a multiple of 8 is rejected before any transfer, and a count of at
/// most 128 falls back to the base OT, whose cost the extension only
/// amortizes beyond its 128 rows.
#[derive(Clone, Copy, Debug, PartialEq, Eq, Structural)]
pub enum OtPath {
    Rejected,
    Base,
    Extension,
}

/// Routing decision for the extension sender.
pub fn ot_send_path(m: usize) -> (r: OtPath)
    ensures
        r == (if m % 8 != 0 {
            OtPath::Rejected
        } else if m <= 128 {
            OtPath::Base
        } else {
            OtPath::Extension
        }),
{
    if m % 8 != 0 {
        OtPath::Rejected
    } else if m <= 128 {
        OtPath::Base
    } else {
        OtPath::Extension
    }
}

/// Routing decision for the extension receiver.
pub fn ot_receive_path(m: usize) -> (r: OtPath)
    ensures
        r == (if m <= 128 {
            OtPath::Base
        } else if m % 8 != 0 {
            OtPath::Rejected
        } else {
            OtPath::Extension
        }),
{
    if m <= 128 {
        OtPath::Base
    } else if m % 8 != 0 {
        OtPath::Rejected
    } else {
        OtPath::Extension
    }
}

/// Expand one seed to a `w`-byte PRG row.
fn prg_row(seed: &Block, w: usize) -> (r: Vec<u8>)
    requires
        w <= usize::MAX / 128,
    ensures
        r.len() == w,
        forall|b: int| 0 <= b < w ==> r@[b] == prg_byte(seed@, 0, b),
{
    let mut rng = AesRng::new(seed);
    let mut r = vec_zero(w);
    proof {
        vstd::arithmetic::div_mod::lemma_div_is_ordered(
            (w + 15) as int,
            (usize::MAX / 128 + 15) as int,
            16,
        );
    }
    rng.random(&mut r);
    r
}

/// The extension receiver's row expansion. Given the 128 seed pairs it dealt
/// through the base OT and its packed choice vector `r_packed`, returns its
/// matrix `T` (row `i` is the PRG row of the first seed) and the 128 rows
/// `g_i = PRG(k1_i) ^ PRG(k0_i) ^ r_packed` that it must send to the
/// extension sender, in row order.
pub fn ote_receiver_rows(seeds: &Vec<(Block, Block)>, r_packed: &Vec<u8>) -> (res: (
    Vec<u8>,
    Vec<Vec<u8>>,
))
    requires
        seeds.len() == 128,
        r_packed.len() <= usize::MAX / 128,
    ensures
        res.0.len() == 128 * r_packed.len(),
        res.1.len() == 128,
        forall|i: int, b: int|
            0 <= i < 128 && 0 <= b < r_packed.len() ==> mat_byte(
                res.0@,
                i,
                b,
                r_packed.len() as int,
            ) == prg_byte(seeds@[i].0@, 0, b),
        forall|i: int| 0 <= i < 128 ==> res.1@[i].len() == r_packed.len(),
        forall|i: int, b: int|
            0 <= i < 128 && 0 <= b < r_packed.len() ==> res.1@[i]@[b] == ((prg_byte(
                seeds@[i].1@,
                0,
                b,
            ) ^ prg_byte(seeds@[i].0@, 0, b)) ^ r_packed@[b]),
{
    let w = r_packed.len();
    let mut ts: Vec<u8> = Vec::new();
    let mut gs: Vec<Vec<u8>> = Vec::new();
    let mut i: usize = 0;
    while i < 128
        invariant
            seeds.len() == 128,
            r_packed.len() == w,
            w <= usize::MAX / 128,
            i <= 128,
            ts.len() == i * w,
            gs.len() == i,
            forall|a: int, b: int|
                0 <= a < i && 0 <= b < w ==> mat_byte(ts@, a, b, w as int) == prg_byte(
                    seeds@[a].0@,
                    0,
                    b,
                ),
            forall|a: int| 0 <= a < i ==> gs@[a].len() == w,
            forall|a: int, b: int|
                0 <= a < i && 0 <= b < w ==> gs@[a]@[b] == ((prg_byte(seeds@[a].1@, 0, b)
                    ^ prg_byte(seeds@[a].0@, 0, b)) ^ r_packed@[b]),
        decreases 128 - i,
    {
        let t = prg_row(&seeds[i].0, w);
        let mut g = prg_row(&seeds[i].1, w);
        crate::bits::xor_inplace(&mut g, &t);
        crate::bits::xor_inplace(&mut g, r_packed);
        let ghost ts_old = ts@;
        let mut b: usize = 0;
        while b < w
            invariant
                t.len() == w,
                ts.len() == i * w + b,
                b <= w,
                ts@ == ts_old + t@.subrange(0, b as int),
            decreases w - b,
        {
            ts.push(t[b]);
            proof {
                assert(ts@ == ts_old + t@.subrange(0, b + 1)) by {
                    assert(t@.subrange(0, b + 1) == t@.subrange(0, b as int).push(t@[b as int]));
                    assert(ts@ =~= ts_old + t@.subrange(0, b + 1));
                }
            }
            b = b + 1;
        }
        proof {
            assert((i + 1) * w == i * w + w) by (nonlinear_arith);
            assert(t@.subrange(0, w as int) == t@);
            assert(ts@ == ts_old + t@);
            assert forall|a: int, c: int| 0 <= a < i + 1 && 0 <= c < w implies mat_byte(
                ts@,
                a,
                c,
                w as int,
            ) == prg_byte(seeds@[a].0@, 0, c) by {
                lemma_rowmajor_lt(a, c, i + 1, 0, w as int);
                if a < i {
                    lemma_rowmajor_lt(a, c, i as int, 0, w as int);
                    assert(mat_byte(ts_old, a, c, w as int) == prg_byte(seeds@[a].0@, 0, c));
                    assert(ts@[a * w + c] == ts_old[a * w + c]);
                } else {
                    assert(a == i);
                    assert(a * w + c == i * w + c);
                    assert(ts@[i * w + c] == t@[c]);
                    assert(t@[c] == prg_byte(seeds@[i as int].0@, 0, c));
                }
            }
        }
        gs.push(g);
        i = i + 1;
    }
    (ts, gs)
}

/// The extension sender's row expansion. Given its 128-bit base-OT choice
/// vector `s`, the 128 seeds it learned, and the 128 rows read from the
/// extension receiver, returns its matrix `Q`: row `i` is the PRG row of its
/// seed, XORed with the received row exactly when `s_i` is set.
pub fn ote_sender_rows(s: &Vec<bool>, seeds: &Vec<Block>, gs: &Vec<Vec<u8>>, w: usize) -> (qs: Vec<
    u8,
>)
    requires
        s.len() == 128,
        seeds.len() == 128,
        gs.len() == 128,
        forall|i: int| 0 <= i < 128 ==> gs@[i].len() == w,
        w <= usize::MAX / 128,
    ensures
        qs.len() == 128 * w,
        forall|i: int, b: int|
            0 <= i < 128 && 0 <= b < w ==> mat_byte(qs@, i, b, w as int) == (if s@[i] {
                (prg_byte(seeds@[i]@, 0, b) ^ gs@[i]@[b])
            } else {
                prg_byte(seeds@[i]@, 0, b)
            }),
{
    let mut qs: Vec<u8> = Vec::new();
    let mut i: usize = 0;
    while i < 128
        invariant
            s.len() == 128,
            seeds.len() == 128,
            gs.len() == 128,
            forall|a: int| 0 <= a < 128 ==> gs@[a].len() == w,
            w <= usize::MAX / 128,
            i <= 128,
            qs.len() == i * w,
            forall|a: int, b: int|
                0 <= a < i && 0 <= b < w ==> mat_byte(qs@, a, b, w as int) == (if s@[a] {
                    (prg_byte(seeds@[a]@, 0, b) ^ gs@[a]@[b])
                } else {
                    prg_byte(seeds@[a]@, 0, b)
                }),
        decreases 128 - i,
    {
        let mut q = prg_row(&seeds[i], w);
        if s[i] {
            crate::bits::xor_inplace(&mut q, &gs[i]);
        }
        let ghost qs_old = qs@;
        let ghost qrow = q@;
        let mut b: usize = 0;
        while b < w
            invariant
                q.len() == w,
                qs.len() == i * w + b,
                b <= w,
                qs@ == qs_old + q@.subrange(0, b as int),
                q@ == qrow,
            decreases w - b,
        {
            qs.push(q[b]);
            proof {
                assert(qs@ == qs_old + q@.subrange(0, b + 1)) by {
                    assert(q@.subrange(0, b + 1) == q@.subrange(0, b as int).push(q@[b as int]));
                    assert(qs@ =~= qs_old + q@.subrange(0, b + 1));
                }
            }
            b = b + 1;
        }
        proof {
            assert((i + 1) * w == i * w + w) by (nonlinear_arith);
            assert(qrow.subrange(0, w as int) == qrow);
            assert(qs@ == qs_old + qrow);
            assert forall|a: int, c: int| 0 <= a < i + 1 && 0 <= c < w implies mat_byte(
                qs@,
                a,
                c,
                w as int,
            ) == (if s@[a] {
                (prg_byte(seeds@[a]@, 0, c) ^ gs@[a]@[c])
            } else {
                prg_byte(seeds@[a]@, 0, c)
            }) by {
                lemma_rowmajor_lt(a, c, i + 1, 0, w as int);
                if a < i {
                    lemma_rowmajor_lt(a, c, i as int, 0, w as int);
                    assert(mat_byte(qs_old, a, c, w as int) == (if s@[a] {
                        (prg_byte(seeds@[a]@, 0, c) ^ gs@[a]@[c])
                    } else {
                        prg_byte(seeds@[a]@, 0, c)
                    }));
                    assert(qs@[a * w + c] == qs_old[a * w + c]);
                } else {
                    assert(a == i);
                    assert(a * w + c == i * w + c);
                    assert(qs@[i * w + c] == qrow[c]);
                }
            }
        }
        i = i + 1;
    }
    qs
}

/// Copy the 16-byte column `j` out of a transposed matrix.
pub fn get_column(mt: &Vec<u8>, j: usize) -> (r: Block)
    requires
        16 * j + 16 <= mt.len(),
    ensures
        r@ == column(mt@, j as int),
{
    let mut r: Block = [0u8; 16];
    let mut k: usize = 0;
    while k < 16
        invariant
            16 * j + 16 <= mt.len(),
            k <= 16,
            forall|t: int| 0 <= t < k ==> r@[t] == mt@[16 * j + t],
        decreases 16 - k,
    {
        r[k] = mt[16 * j + k];
        k = k + 1;
    }
    proof {
        assert(r@ =~= column(mt@, j as int));
    }
    r
}

/// The extension sender's final step. For each message pair `(m0, m1)` and
/// column `q_j` of its transposed matrix, the pair sent to the receiver is
/// `(H(q_j) ^ m0, H(q_j ^ s) ^ m1)`, with `H` the correlation-robust hash
/// and `s` the packed base-OT choice vector.
pub fn ote_sender_pairs(
    hash: &AesHash,
    qst: &Vec<u8>,
    s_packed: &Block,
    inputs: &Vec<(Block, Block)>,
) -> (ys: Vec<(Block, Block)>)
    requires
        qst.len() == 16 * inputs.len(),
    ensures
        ys.len() == inputs.len(),
        forall|j: int|
            0 <= j < inputs.len() ==> ys@[j].0@ == spec_xor(
                cr_hash_of(hash.key(), column(qst@, j)),
                inputs@[j].0@,
            ),
        forall|j: int|
            0 <= j < inputs.len() ==> ys@[j].1@ == spec_xor(
                cr_hash_of(hash.key(), spec_xor(column(qst@, j), s_packed@)),
                inputs@[j].1@,
            ),
{
    let n = inputs.len();
    let mut ys: Vec<(Block, Block)> = Vec::new();
    let mut j: usize = 0;
    while j < n
        invariant
            inputs.len() == n,
            qst.len() == 16 * n,
            j <= n,
            ys.len() == j,
            forall|a: int|
                0 <= a < j ==> ys@[a].0@ == spec_xor(
                    cr_hash_of(hash.key(), column(qst@, a)),
                    inputs@[a].0@,
                ),
            forall|a: int|
                0 <= a < j ==> ys@[a].1@ == spec_xor(
                    cr_hash_of(hash.key(), spec_xor(column(qst@, a), s_packed@)),
                    inputs@[a].1@,
                ),
        decreases n - j,
    {
        let q = get_column(qst, j);
        let y0 = crate::xor_block(&hash.cr_hash(j, &q), &inputs[j].0);
        let qx = crate::xor_block(&q, s_packed);
        let y1 = crate::xor_block(&hash.cr_hash(j, &qx), &inputs[j].1);
        ys.push((y0, y1));
        j = j + 1;
    }
    ys
}

/// The extension receiver's final step. For each choice bit `b_j`, the
/// selected half of the received pair, unmasked with the hash of column
/// `t_j` of its transposed matrix.
pub fn ote_receiver_outputs(
    hash: &AesHash,
    tst: &Vec<u8>,
    choices: &Vec<bool>,
    ys: &Vec<(Block, Block)>,
) -> (out: Vec<Block>)
    requires
        tst.len() == 16 * choices.len(),
        ys.len() == choices.len(),
    ensures
        out.len() == choices.len(),
        forall|j: int|
            0 <= j < choices.len() ==> out@[j]@ == spec_xor(
                (if choices@[j] {
                    ys@[j].1@
                } else {
                    ys@[j].0@
                }),
                cr_hash_of(hash.key(), column(tst@, j)),
            ),
{
    let n = choices.len();
    let mut out: Vec<Block> = Vec::new();
    let mut j: usize = 0;
    while j < n
        invariant
            choices.len() == n,
            ys.len() == n,
            tst.len() == 16 * n,
            j <= n,
            out.len() == j,
            forall|a: int|
                0 <= a < j ==> out@[a]@ == spec_xor(
                    (if choices@[a] {
                        ys@[a].1@
                    } else {
                        ys@[a].0@
                    }),
                    cr_hash_of(hash.key(), column(tst@, a)),
                ),
        decreases n - j,
    {
        let t = get_column(tst, j);
        let y = if choices[j] {
            ys[j].1
        } else {
            ys[j].0
        };
        let o = crate::xor_block(&y, &hash.cr_hash(j, &t));
        out.push(o);
        j = j + 1;
    }
    out
}

/// Unmasking from the left: `(a ^ b) ^ a == b`.
proof fn lemma_u8_xor_cancel_front(a: u8, b: u8)
    by (bit_vector)
    ensures
        (a ^ b) ^ a == b,
{
}

/// Equal masks fall away across two maskings: `(x ^ a) ^ (x ^ c) == a ^ c`.
proof fn lemma_u8_xor_mask_diff(x: u8, a: u8, c: u8)
    by (bit_vector)
    ensures
        (x ^ a) ^ (x ^ c) == a ^ c,
{
}

/// XOR with a mask a second time falls away: `a ^ ((a ^ b) ^ c) == b ^ c`.
proof fn lemma_u8_xor_abc(a: u8, b: u8, c: u8)
    by (bit_vector)
    ensures
        a ^ ((a ^ b) ^ c) == b ^ c,
{
}

/// Boolean form of the bitwise XOR on one bit position.
proof fn lemma_u8_xor_bit_bool(a: u8, b: u8, k: u8)
    by (bit_vector)
    requires
        k < 8,
    ensures
        (((a ^ b) >> k) & 1 == 1) == ((((a >> k) & 1) == 1) != (((b >> k) & 1) == 1)),
{
}

/// A bit of an XOR of equal-length sequences is the XOR of the bits.
proof fn lemma_spec_xor_bit(a: Seq<u8>, b: Seq<u8>, i: int)
    requires
        a.len() == b.len(),
        0 <= i < 8 * a.len(),
    ensures
        bit_of(spec_xor(a, b), i) == (bit_of(a, i) != bit_of(b, i)),
{
    assert(0 <= i / 8 < a.len()) by {
        vstd::arithmetic::div_mod::lemma_fundamental_div_mod(i, 8);
    }
    assert(spec_xor(a, b)[i / 8] == (a[i / 8] ^ b[i / 8]));
    lemma_u8_xor_bit_bool(a[i / 8], b[i / 8], (i % 8) as u8);
}

/// Masking with a hash value and unmasking with the same hash value gives
/// the message back.
proof fn lemma_seq_xor_cancel_front(h: Seq<u8>, msg: Seq<u8>)
    requires
        h.len() == msg.len(),
    ensures
        spec_xor(spec_xor(h, msg), h) == msg,
{
    assert forall|i: int| 0 <= i < msg.len() implies spec_xor(spec_xor(h, msg), h)[i]
        == msg[i] by {
        lemma_u8_xor_cancel_front(h[i], msg[i]);
    }
    assert(spec_xor(spec_xor(h, msg), h) =~= msg);
}

/// A matrix bit read through its row byte: bit `j` of row `i`, when rows
/// hold `8 * w` bits, is bit `j % 8` of the row's byte `j / 8`.
proof fn lemma_mbit_byte(msq: Seq<u8>, i: int, j: int, w: int)
    requires
        0 <= i,
        0 <= j,
        0 <= w,
    ensures
        mbit(msq, i, j, 8 * w) == (((mat_byte(msq, i, j / 8, w) >> ((j % 8) as u8)) & 1) == 1),
{
    assert(i * (8 * w) == 8 * (i * w)) by (nonlinear_arith);
    vstd::arithmetic::div_mod::lemma_fundamental_div_mod(j, 8);
    vstd::arithmetic::div_mod::lemma_fundamental_div_mod_converse(
        i * (8 * w) + j,
        8,
        i * w + j / 8,
        j % 8,
    );
}

/// A bit of a 16-byte column of a transposed matrix, read back in the
/// matrix itself.
proof fn lemma_column_bit(mt: Seq<u8>, j: int, i: int)
    requires
        0 <= i < 128,
        0 <= j,
        16 * j + 16 <= mt.len(),
    ensures
        bit_of(column(mt, j), i) == mbit(mt, j, i, 128),
{
    vstd::arithmetic::div_mod::lemma_fundamental_div_mod(i, 8);
    vstd::arithmetic::div_mod::lemma_fundamental_div_mod_converse(
        128 * j + i,
        8,
        16 * j + i / 8,
        i % 8,
    );
    assert(column(mt, j)[i / 8] == mt[16 * j + i / 8]);
    assert(j * 128 + i == 128 * j + i);
}

/// Correctness of the extension: when the sender's seeds are the halves of
/// the receiver's seed pairs that its choice vector `s` selects, and both
/// sides compute their matrices, transposes, and masked pairs as the
/// functions of this module state, then for every column the receiver's
/// unmasked output block is exactly the half of the message pair that its
/// choice bit selected.
pub proof fn lemma_ote_correctness(
    key: Seq<u8>,
    k0: Seq<Seq<u8>>,
    k1: Seq<Seq<u8>>,
    s: Seq<bool>,
    sseed: Seq<Seq<u8>>,
    sp: Seq<u8>,
    r: Seq<bool>,
    rp: Seq<u8>,
    w: int,
    m: int,
    ts: Seq<u8>,
    gs: Seq<Seq<u8>>,
    qs: Seq<u8>,
    tst: Seq<u8>,
    qst: Seq<u8>,
    m0: Seq<Seq<u8>>,
    m1: Seq<Seq<u8>>,
    y0: Seq<Seq<u8>>,
    y1: Seq<Seq<u8>>,
    out: Seq<Seq<u8>>,
)
    requires
        m == 8 * w,
        w > 0,
        k0.len() == 128,
        k1.len() == 128,
        s.len() == 128,
        sseed.len() == 128,
        forall|i: int| 0 <= i < 128 ==> sseed[i] == (if s[i] { k1[i] } else { k0[i] }),
        sp.len() == 16,
        forall|i: int| 0 <= i < 128 ==> bit_of(sp, i) == s[i],
        r.len() == m,
        rp.len() == w,
        forall|j: int| 0 <= j < m ==> bit_of(rp, j) == r[j],
        ts.len() == 128 * w,
        forall|i: int, b: int|
            0 <= i < 128 && 0 <= b < w ==> mat_byte(ts, i, b, w) == prg_byte(k0[i], 0, b),
        gs.len() == 128,
        forall|i: int| 0 <= i < 128 ==> gs[i].len() == w,
        forall|i: int, b: int|
            0 <= i < 128 && 0 <= b < w ==> gs[i][b] == ((prg_byte(k1[i], 0, b) ^ prg_byte(
                k0[i],
                0,
                b,
            )) ^ rp[b]),
        qs.len() == 128 * w,
        forall|i: int, b: int|
            0 <= i < 128 && 0 <= b < w ==> mat_byte(qs, i, b, w) == (if s[i] {
                (prg_byte(sseed[i], 0, b) ^ gs[i][b])
            } else {
                prg_byte(sseed[i], 0, b)
            }),
        tst.len() == 128 * w,
        qst.len() == 128 * w,
        forall|i: int, j: int|
            0 <= i < m && 0 <= j < 128 ==> mbit(tst, i, j, 128) == mbit(ts, j, i, m),
        forall|i: int, j: int|
            0 <= i < m && 0 <= j < 128 ==> mbit(qst, i, j, 128) == mbit(qs, j, i, m),
        m0.len() == m,
        m1.len() == m,
        y0.len() == m,
        y1.len() == m,
        out.len() == m,
        forall|j: int| 0 <= j < m ==> m0[j].len() == 16,
        forall|j: int| 0 <= j < m ==> m1[j].len() == 16,
        forall|j: int|
            0 <= j < m ==> y0[j] == spec_xor(cr_hash_of(key, column(qst, j)), m0[j]),
        forall|j: int|
            0 <= j < m ==> y1[j] == spec_xor(
                cr_hash_of(key, spec_xor(column(qst, j), sp)),
                m1[j],
            ),
        forall|j: int|
            0 <= j < m ==> out[j] == spec_xor(
                (if r[j] {
                    y1[j]
                } else {
                    y0[j]
                }),
                cr_hash_of(key, column(tst, j)),
            ),
    ensures
        forall|j: int|
            0 <= j < m ==> out[j] == (if r[j] {
                m1[j]
            } else {
                m0[j]
            }),
{
    assert(128 * w == 16 * m);
    assert forall|j: int| 0 <= j < m implies out[j] == (if r[j] {
        m1[j]
    } else {
        m0[j]
    }) by {
        let tcol = column(tst, j);
        let qcol = column(qst, j);
        assert(16 * j + 16 <= 16 * m);
        assert(tcol.len() == 16 && qcol.len() == 16);
        assert forall|i: int| 0 <= i < 128 implies bit_of(qcol, i) == (bit_of(tcol, i) != (s[i]
            && r[j])) by {
            lemma_column_bit(qst, j, i);
            lemma_column_bit(tst, j, i);
            assert(mbit(qst, j, i, 128) == mbit(qs, i, j, m));
            assert(mbit(tst, j, i, 128) == mbit(ts, i, j, m));
            let b = j / 8;
            let k = (j % 8) as u8;
            assert(0 <= b < w && k < 8) by {
                vstd::arithmetic::div_mod::lemma_fundamental_div_mod(j, 8);
                assert(j < 8 * w);
                assert(j / 8 < w) by {
                    vstd::arithmetic::div_mod::lemma_div_is_ordered(j, 8 * w - 1, 8);
                    vstd::arithmetic::div_mod::lemma_fundamental_div_mod(8 * w - 1, 8);
                }
            }
            lemma_mbit_byte(qs, i, j, w);
            lemma_mbit_byte(ts, i, j, w);
            let p0 = prg_byte(k0[i], 0, b);
            let p1 = prg_byte(k1[i], 0, b);
            let qb = mat_byte(qs, i, b, w);
            let tb = mat_byte(ts, i, b, w);
            assert(tb == p0);
            assert(bit_of(rp, j) == (((rp[b] >> k) & 1) == 1));
            if s[i] {
                assert(sseed[i] == k1[i]);
                assert(qb == (p1 ^ ((p1 ^ p0) ^ rp[b])));
                lemma_u8_xor_abc(p1, p0, rp[b]);
                assert(qb == (p0 ^ rp[b]));
                lemma_u8_xor_bit_bool(p0, rp[b], k);
                assert((((qb >> k) & 1) == 1) == ((((p0 >> k) & 1) == 1) != r[j]));
            } else {
                assert(sseed[i] == k0[i]);
                assert(qb == p0);
            }
        }
        if r[j] {
            assert forall|i: int| 0 <= i < 128 implies bit_of(spec_xor(qcol, sp), i) == bit_of(
                tcol,
                i,
            ) by {
                lemma_spec_xor_bit(qcol, sp, i);
            }
            crate::bits::lemma_seq_eq_by_bits(spec_xor(qcol, sp), tcol);
            assert(cr_hash_of(key, spec_xor(qcol, sp)) == cr_hash_of(key, tcol));
            assert(out[j] == spec_xor(spec_xor(cr_hash_of(key, tcol), m1[j]), cr_hash_of(key,
                tcol)));
            lemma_seq_xor_cancel_front(cr_hash_of(key, tcol), m1[j]);
        } else {
            assert forall|i: int| 0 <= i < 128 implies bit_of(qcol, i) == bit_of(tcol, i) by {}
            crate::bits::lemma_seq_eq_by_bits(qcol, tcol);
            assert(cr_hash_of(key, qcol) == cr_hash_of(key, tcol));
            assert(out[j] == spec_xor(spec_xor(cr_hash_of(key, tcol), m0[j]), cr_hash_of(key,
                tcol)));
            lemma_seq_xor_cancel_front(cr_hash_of(key, tcol), m0[j]);
        }
    }
}

/// Both extension endpoints composed in one process, transport left out:
/// the receiver expands its rows from its seed pairs, the sender expands
/// its matrix from the seeds that `s` selects and the receiver's rows, both
/// transpose, the sender masks the message pairs, the receiver unmasks its
/// chosen halves. The result is exactly the chosen messages: the
/// correctness of the extension, proved of the executable pipeline.
pub fn ote_extension_exchange(
    hash: &AesHash,
    seeds: &Vec<(Block, Block)>,
    s: &Vec<bool>,
    choices: &Vec<bool>,
    inputs: &Vec<(Block, Block)>,
) -> (out: Vec<Block>)
    requires
        seeds.len() == 128,
        s.len() == 128,
        choices.len() == inputs.len(),
        choices.len() % 8 == 0,
        choices.len() > 0,
        choices.len() <= usize::MAX / 128,
    ensures
        out.len() == choices.len(),
        forall|j: int|
            0 <= j < choices.len() ==> out@[j]@ == (if choices@[j] {
                inputs@[j].1@
            } else {
                inputs@[j].0@
            }),
{
    let m = choices.len();
    let w = m / 8;
    proof {
        vstd::arithmetic::div_mod::lemma_fundamental_div_mod(m as int, 8);
    }
    // Receiver side: matrix T and the rows it would send.
    let r_packed = crate::bits::boolvec_to_u8vec(choices);
    let (ts, gs) = ote_receiver_rows(seeds, &r_packed);
    proof {
        assert(8 * (128 * w) == 128 * (8 * w)) by (nonlinear_arith);
    }
    let tst = crate::bits::transpose(&ts, 128, m);
    // Sender side: the seeds its vector selects, and matrix Q from the rows.
    let s_packed_vec = crate::bits::boolvec_to_u8vec(s);
    let s_packed = get_column(&s_packed_vec, 0);
    let mut sseeds: Vec<Block> = Vec::new();
    let mut i: usize = 0;
    while i < 128
        invariant
            seeds.len() == 128,
            s.len() == 128,
            i <= 128,
            sseeds.len() == i,
            forall|a: int|
                0 <= a < i ==> sseeds@[a] == (if s@[a] {
                    seeds@[a].1
                } else {
                    seeds@[a].0
                }),
        decreases 128 - i,
    {
        if s[i] {
            sseeds.push(seeds[i].1);
        } else {
            sseeds.push(seeds[i].0);
        }
        i = i + 1;
    }
    let qs = ote_sender_rows(s, &sseeds, &gs, w);
    let qst = crate::bits::transpose(&qs, 128, m);
    // The masked pairs, then the receiver's unmasking.
    let ys = ote_sender_pairs(hash, &qst, &s_packed, inputs);
    let out = ote_receiver_outputs(hash, &tst, choices, &ys);
    proof {
        let mi = m as int;
        let wi = w as int;
        let key = hash.key();
        let k0 = Seq::new(128, |a: int| seeds@[a].0@);
        let k1 = Seq::new(128, |a: int| seeds@[a].1@);
        let sseq = Seq::new(128, |a: int| s@[a]);
        let sseedv = Seq::new(128, |a: int| sseeds@[a]@);
        let rseq = Seq::new(mi as nat, |j: int| choices@[j]);
        let gseq = Seq::new(128, |a: int| gs@[a]@);
        let m0 = Seq::new(mi as nat, |j: int| inputs@[j].0@);
        let m1 = Seq::new(mi as nat, |j: int| inputs@[j].1@);
        let y0 = Seq::new(mi as nat, |j: int| ys@[j].0@);
        let y1 = Seq::new(mi as nat, |j: int| ys@[j].1@);
        let outv = Seq::new(mi as nat, |j: int| out@[j]@);
        assert(s_packed@ == s_packed_vec@) by {
            assert(s_packed@ =~= s_packed_vec@);
        }
        lemma_ote_correctness(
            key,
            k0,
            k1,
            sseq,
            sseedv,
            s_packed@,
            rseq,
            r_packed@,
            wi,
            mi,
            ts@,
            gseq,
            qs@,
            tst@,
            qst@,
            m0,
            m1,
            y0,
            y1,
            outv,
        );
        assert forall|j: int| 0 <= j < mi implies out@[j]@ == (if choices@[j] {
            inputs@[j].1@
        } else {
            inputs@[j].0@
        }) by {
            assert(outv[j] == (if rseq[j] {
                m1[j]
            } else {
                m0[j]
            }));
        }
    }
    out
}

/// What the receiver sends reveals its choices only under a seed-derived
/// one-time mask: two runs from the same seed pairs and different choice
/// vectors produce rows whose XOR is exactly the XOR of the packed choice
/// vectors, independent of the seeds.
pub proof fn lemma_receiver_row_blinding(
    k0: Seq<u8>,
    k1: Seq<u8>,
    rp1: Seq<u8>,
    rp2: Seq<u8>,
    g1: Seq<u8>,
    g2: Seq<u8>,
)
    requires
        rp1.len() == rp2.len(),
        g1.len() == rp1.len(),
        g2.len() == rp1.len(),
        forall|b: int|
            0 <= b < g1.len() ==> g1[b] == ((prg_byte(k1, 0, b) ^ prg_byte(k0, 0, b)) ^ rp1[b]),
        forall|b: int|
            0 <= b < g2.len() ==> g2[b] == ((prg_byte(k1, 0, b) ^ prg_byte(k0, 0, b)) ^ rp2[b]),
    ensures
        spec_xor(g1, g2) == spec_xor(rp1, rp2),
{
    assert forall|b: int| 0 <= b < g1.len() implies spec_xor(g1, g2)[b] == spec_xor(
        rp1,
        rp2,
    )[b] by {
        lemma_u8_xor_mask_diff(prg_byte(k1, 0, b) ^ prg_byte(k0, 0, b), rp1[b], rp2[b]);
    }
    assert(spec_xor(g1, g2) =~= spec_xor(rp1, rp2));
}

} // verus!
