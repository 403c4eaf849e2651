//! Decision logic of the garbler and evaluator protocol adapters: how many
//! wire labels an input modulus takes, how an input value decomposes into
//! choice bits, the sync-index prefix byte, and what the garbler does with
//! each message the circuit builder emits.

use vstd::prelude::*;

verus! {

/// Powers of two.
pub open spec fn spec_pow2(n: nat) -> nat
    decreases n,
{
    if n == 0 {
        1nat
    } else {
        2 * spec_pow2((n - 1) as nat)
    }
}

/// Powers of two grow monotonically.
proof fn lemma_pow2_le_mono(a: nat, b: nat)
    requires
        a <= b,
    ensures
        spec_pow2(a) <= spec_pow2(b),
    decreases b,
{
    if a < b {
        lemma_pow2_le_mono(a, (b - 1) as nat);
        assert(spec_pow2(b) == 2 * spec_pow2((b - 1) as nat));
        assert(spec_pow2((b - 1) as nat) >= 1) by {
            lemma_pow2_pos((b - 1) as nat);
        }
    }
}

/// Powers of two are positive.
proof fn lemma_pow2_pos(n: nat)
    ensures
        spec_pow2(n) >= 1,
    decreases n,
{
    if n > 0 {
        lemma_pow2_pos((n - 1) as nat);
    }
}

/// The number of wire labels one input of modulus `q` takes: the least `n`
/// with `2^n >= q`.
pub fn num_bits(q: u16) -> (n: usize)
    requires
        q >= 1,
    ensures
        n <= 16,
        spec_pow2(n as nat) >= q,
        n > 0 ==> spec_pow2((n - 1) as nat) < q,
{
    let mut n: usize = 0;
    let mut p: u32 = 1;
    while p < q as u32
        invariant
            q >= 1,
            p == spec_pow2(n as nat),
            n <= 16,
            n > 0 ==> spec_pow2((n - 1) as nat) < q,
        decreases 16 - n,
    {
        proof {
            if n >= 16 {
                lemma_pow2_le_mono(16, n as nat);
                reveal_with_fuel(spec_pow2, 18);
                assert(spec_pow2(16) == 65536);
                assert(false);
            }
            lemma_pow2_pos(n as nat);
        }
        let ghost p0 = p;
        p = 2 * p;
        n = n + 1;
        proof {
            assert(p == 2 * p0 && p0 >= 1);
            assert(spec_pow2(n as nat) == 2 * spec_pow2((n - 1) as nat));
        }
    }
    n
}

/// The `n` low bits of an input value, least significant first: bit `i` is
/// set exactly when `x >> i` is odd. These are the choice bits the evaluator
/// feeds to the OT for one input of `n` labels.
pub fn u16_to_bits(x: u16, n: usize) -> (r: Vec<bool>)
    requires
        n <= 16,
    ensures
        r.len() == n,
        forall|i: int| 0 <= i < n ==> r@[i] == (((x >> (i as u16)) & 1) == 1),
{
    let mut r: Vec<bool> = Vec::new();
    let mut i: usize = 0;
    while i < n
        invariant
            n <= 16,
            i <= n,
            r.len() == i,
            forall|t: int| 0 <= t < i ==> r@[t] == (((x >> (t as u16)) & 1) == 1),
        decreases n - i,
    {
        let sh: u16 = i as u16;
        r.push((x >> sh) & 1 == 1);
        i = i + 1;
    }
    r
}

/// The value a run of choice bits encodes, least significant first: the sum
/// of `2^i` over the set bits.
pub open spec fn val_of_bits(bs: Seq<bool>) -> nat
    decreases bs.len(),
{
    if bs.len() == 0 {
        0nat
    } else {
        ((if bs[0] {
            1nat
        } else {
            0nat
        }) + 2 * val_of_bits(bs.drop_first()))
    }
}

/// A bit of a shifted value is the next bit of the value.
proof fn lemma_u16_shift_shift(x: u16, k: u16)
    by (bit_vector)
    requires
        k < 15,
    ensures
        (((x >> (k + 1)) & 1) == 1) == ((((x >> 1) >> k) & 1) == 1),
{
}

/// A value splits into its lowest bit and its shifted rest.
proof fn lemma_u16_split_low_bit(x: u16)
    by (bit_vector)
    ensures
        (x & 1) + 2 * (x >> 1u16) == x,
        (x & 1) < 2,
{
}

/// A sum of a low bit and a doubled value, reduced modulo a doubled modulus.
proof fn lemma_mod_double(a: int, b: int, p: int)
    requires
        0 <= a < 2,
        0 <= b,
        p > 0,
    ensures
        (a + 2 * b) % (2 * p) == a + 2 * (b % p),
{
    let q = b / p;
    let r = b % p;
    vstd::arithmetic::div_mod::lemma_fundamental_div_mod(b, p);
    assert(b == p * q + r);
    assert(a + 2 * b == (2 * p) * q + (a + 2 * r)) by (nonlinear_arith)
        requires
            b == p * q + r,
    ;
    assert(0 <= q) by (nonlinear_arith)
        requires
            b == p * q + r,
            0 <= b,
            0 <= r < p,
            p > 0,
    ;
    vstd::arithmetic::div_mod::lemma_fundamental_div_mod_converse(a + 2 * b, 2 * p, q, a + 2 * r);
}

/// Decomposing a value into its low choice bits and recombining them as
/// `sum of bit_i * 2^i` gives the value back, reduced modulo `2^n`: the
/// recombination the adapters perform on wire labels, stated on the values.
pub proof fn lemma_bits_value_roundtrip(x: u16, bs: Seq<bool>)
    requires
        bs.len() <= 16,
        forall|i: int| 0 <= i < bs.len() ==> bs[i] == (((x >> (i as u16)) & 1) == 1),
    ensures
        val_of_bits(bs) == (x as nat) % spec_pow2(bs.len()),
    decreases bs.len(),
{
    if bs.len() == 0 {
        assert(spec_pow2(0) == 1);
    } else {
        let y = x >> 1u16;
        let rest = bs.drop_first();
        assert forall|i: int| 0 <= i < rest.len() implies rest[i] == (((y >> (i as u16)) & 1)
            == 1) by {
            assert(rest[i] == bs[i + 1]);
            assert(bs[i + 1] == (((x >> ((i + 1) as u16)) & 1) == 1));
            lemma_u16_shift_shift(x, i as u16);
            assert((i + 1) as u16 == (i as u16) + 1);
        }
        lemma_bits_value_roundtrip(y, rest);
        lemma_u16_split_low_bit(x);
        let p = spec_pow2((bs.len() - 1) as nat);
        lemma_pow2_pos((bs.len() - 1) as nat);
        assert(spec_pow2(bs.len()) == 2 * p);
        lemma_mod_double((x & 1) as int, y as int, p as int);
        assert(bs[0] == (((x >> 0u16) & 1) == 1));
        assert((((x >> 0u16) & 1) == 1) == ((x & 1) == 1)) by (bit_vector);
        assert(val_of_bits(bs) == (if bs[0] {
            1nat
        } else {
            0nat
        }) + 2 * val_of_bits(rest));
    }
}

/// The sync-index byte that prefixes each garbled message on the stream:
/// the index itself, or the sentinel 0xFF for an unsynchronized message.
pub fn index_byte(ix: Option<u8>) -> (r: u8)
    ensures
        r == (match ix {
            Some(i) => i,
            None => 0xFFu8,
        }),
{
    match ix {
        Some(i) => i,
        None => 0xFF,
    }
}

/// The message kinds the garbler adapter distinguishes when the circuit
/// builder emits a message.
#[derive(Clone, Copy, Debug, PartialEq, Eq, Structural)]
pub enum GarblerMsgKind {
    UnencodedGarblerInput,
    UnencodedEvaluatorInput,
    EvaluatorInput,
    Other,
}

/// What the garbler adapter does with an emitted message: encode its own
/// next input value onto the wire pair, reject a kind that must never
/// surface at the garbler (evaluator-input labels travel by OT, not by
/// serialization), or forward the message as it is.
#[derive(Clone, Copy, Debug, PartialEq, Eq, Structural)]
pub enum EmitAction {
    EncodeGarblerInput,
    Reject,
    Forward,
}

/// The garbler adapter's dispatch on an emitted message.
pub fn garbler_emit_action(kind: &GarblerMsgKind) -> (r: EmitAction)
    ensures
        r == (match kind {
            GarblerMsgKind::UnencodedGarblerInput => EmitAction::EncodeGarblerInput,
            GarblerMsgKind::UnencodedEvaluatorInput => EmitAction::Reject,
            GarblerMsgKind::EvaluatorInput => EmitAction::Reject,
            GarblerMsgKind::Other => EmitAction::Forward,
        }),
{
    match kind {
        GarblerMsgKind::UnencodedGarblerInput => EmitAction::EncodeGarblerInput,
        GarblerMsgKind::UnencodedEvaluatorInput => EmitAction::Reject,
        GarblerMsgKind::EvaluatorInput => EmitAction::Reject,
        GarblerMsgKind::Other => EmitAction::Forward,
    }
}

} // verus!
