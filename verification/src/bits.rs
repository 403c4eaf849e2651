//! Bit-level utilities: XOR over byte vectors, LSB-first packing of bit
//! vectors into bytes, and the bit-matrix transpose that OT extension uses.

use vstd::prelude::*;

verus! {

/// Bit `i` of a byte sequence, LSB first within each byte.
pub open spec fn bit_of(s: Seq<u8>, i: int) -> bool {
    (s[i / 8] >> ((i % 8) as u8)) & 1 == 1
}

/// Pointwise XOR; the result has the length of `a`.
pub open spec fn spec_xor(a: Seq<u8>, b: Seq<u8>) -> Seq<u8> {
    Seq::new(a.len(), |i: int| a[i] ^ b[i])
}

/// Bit `col` of row `row` in a packed row-major matrix whose rows hold
/// `ncols` bits each.
pub open spec fn mbit(s: Seq<u8>, row: int, col: int, ncols: int) -> bool {
    bit_of(s, row * ncols + col)
}

/// XOR on a byte cancels itself out.
pub proof fn lemma_u8_xor_cancel(a: u8, b: u8)
    by (bit_vector)
    ensures
        (a ^ b) ^ b == a,
{
}

/// XOR twice with the same sequence gives the original back.
pub proof fn lemma_seq_xor_cancel(a: Seq<u8>, b: Seq<u8>)
    requires
        a.len() == b.len(),
    ensures
        spec_xor(spec_xor(a, b), b) == a,
{
    assert forall|i: int| 0 <= i < a.len() implies spec_xor(spec_xor(a, b), b)[i] == a[i] by {
        lemma_u8_xor_cancel(a[i], b[i]);
    }
    assert(spec_xor(spec_xor(a, b), b) =~= a);
}

/// Two bytes whose eight bits agree are equal.
pub proof fn lemma_u8_eq_by_bits(a: u8, b: u8)
    requires
        forall|k: u8| k < 8 ==> ((a >> k) & 1) == ((b >> k) & 1),
    ensures
        a == b,
{
    assert((a >> 0) & 1 == (b >> 0) & 1);
    assert((a >> 1) & 1 == (b >> 1) & 1);
    assert((a >> 2) & 1 == (b >> 2) & 1);
    assert((a >> 3) & 1 == (b >> 3) & 1);
    assert((a >> 4) & 1 == (b >> 4) & 1);
    assert((a >> 5) & 1 == (b >> 5) & 1);
    assert((a >> 6) & 1 == (b >> 6) & 1);
    assert((a >> 7) & 1 == (b >> 7) & 1);
    assert(a == b) by (bit_vector)
        requires
            (a >> 0u8) & 1 == (b >> 0u8) & 1,
            (a >> 1u8) & 1 == (b >> 1u8) & 1,
            (a >> 2u8) & 1 == (b >> 2u8) & 1,
            (a >> 3u8) & 1 == (b >> 3u8) & 1,
            (a >> 4u8) & 1 == (b >> 4u8) & 1,
            (a >> 5u8) & 1 == (b >> 5u8) & 1,
            (a >> 6u8) & 1 == (b >> 6u8) & 1,
            (a >> 7u8) & 1 == (b >> 7u8) & 1,
    ;
}

/// Two byte sequences of equal length whose bits all agree are equal.
pub proof fn lemma_seq_eq_by_bits(a: Seq<u8>, b: Seq<u8>)
    requires
        a.len() == b.len(),
        forall|i: int| 0 <= i < 8 * a.len() ==> bit_of(a, i) == bit_of(b, i),
    ensures
        a == b,
{
    assert forall|j: int| 0 <= j < a.len() implies a[j] == b[j] by {
        assert forall|k: u8| k < 8 implies ((a[j] >> k) & 1) == ((b[j] >> k) & 1) by {
            let i = 8 * j + k;
            assert(i / 8 == j && i % 8 == k as int);
            assert(bit_of(a, i) == bit_of(b, i));
            lemma_u8_bit_is_boolean(a[j], k);
            lemma_u8_bit_is_boolean(b[j], k);
        }
        lemma_u8_eq_by_bits(a[j], b[j]);
    }
    assert(a =~= b);
}

/// Every bit of the zero byte is clear.
pub proof fn lemma_u8_zero_bits(k: u8)
    by (bit_vector)
    ensures
        ((0u8 >> k) & 1) == 0,
{
}

/// A masked single bit is zero or one.
pub proof fn lemma_u8_bit_is_boolean(a: u8, k: u8)
    by (bit_vector)
    ensures
        ((a >> k) & 1) == 1 || ((a >> k) & 1) == 0,
{
}

/// `dst[i] <- dst[i] ^ src[i]` for every index.
pub fn xor_inplace(dst: &mut Vec<u8>, src: &Vec<u8>)
    requires
        old(dst).len() == src.len(),
    ensures
        final(dst)@ == spec_xor(old(dst)@, src@),
{
    let n = dst.len();
    for i in 0..n
        invariant
            dst.len() == n,
            src.len() == n,
            forall|k: int| 0 <= k < i ==> dst@[k] == (old(dst)@[k] ^ src@[k]),
            forall|k: int| i <= k < n ==> dst@[k] == old(dst)@[k],
    {
        let b = dst[i] ^ src[i];
        dst.set(i, b);
    }
    proof {
        assert(dst@ =~= spec_xor(old(dst)@, src@));
    }
}

/// Read bit `i` of a packed byte vector, LSB first.
pub fn get_bit(bytes: &Vec<u8>, i: usize) -> (r: bool)
    requires
        i / 8 < bytes.len(),
    ensures
        r == bit_of(bytes@, i as int),
{
    let sh: u8 = (i % 8) as u8;
    (bytes[i / 8] >> sh) & 1 == 1
}

/// Setting bit `k` leaves the other bits of the byte unchanged.
proof fn lemma_u8_set_bit(b: u8, k: u8, v: bool, j: u8)
    by (bit_vector)
    requires
        k < 8,
        j < 8,
    ensures
        v && j == k ==> (((b | (1u8 << k)) >> j) & 1) == 1,
        v && j != k ==> (((b | (1u8 << k)) >> j) & 1) == ((b >> j) & 1),
        !v && j == k ==> (((b & !(1u8 << k)) >> j) & 1) == 0,
        !v && j != k ==> (((b & !(1u8 << k)) >> j) & 1) == ((b >> j) & 1),
{
}

/// Write bit `i` of a packed byte vector, LSB first.
pub fn set_bit(bytes: &mut Vec<u8>, i: usize, v: bool)
    requires
        i / 8 < old(bytes).len(),
    ensures
        final(bytes).len() == old(bytes).len(),
        bit_of(final(bytes)@, i as int) == v,
        forall|j: int|
            0 <= j < 8 * old(bytes).len() && j != i ==> bit_of(final(bytes)@, j) == bit_of(
                old(bytes)@,
                j,
            ),
{
    let sh: u8 = (i % 8) as u8;
    let b = bytes[i / 8];
    let nb = if v {
        b | (1u8 << sh)
    } else {
        b & !(1u8 << sh)
    };
    bytes.set(i / 8, nb);
    proof {
        let ii = i as int;
        assert forall|j: int| 0 <= j < 8 * old(bytes).len() && j != ii implies bit_of(
            final(bytes)@,
            j,
        ) == bit_of(old(bytes)@, j) by {
            if j / 8 == ii / 8 {
                assert(j % 8 != ii % 8) by {
                    vstd::arithmetic::div_mod::lemma_fundamental_div_mod(j, 8);
                    vstd::arithmetic::div_mod::lemma_fundamental_div_mod(ii, 8);
                }
                lemma_u8_set_bit(b, sh, v, (j % 8) as u8);
            }
        }
        lemma_u8_set_bit(b, sh, v, sh);
    }
}

/// Pack a bit vector into bytes, LSB first within each byte. The length of
/// `bits` must be a multiple of 8.
pub fn boolvec_to_u8vec(bits: &Vec<bool>) -> (r: Vec<u8>)
    requires
        bits.len() % 8 == 0,
    ensures
        r.len() == bits.len() / 8,
        forall|i: int| 0 <= i < bits.len() ==> bit_of(r@, i) == bits@[i],
{
    let n = bits.len();
    let nb = n / 8;
    let mut r: Vec<u8> = Vec::new();
    let mut k: usize = 0;
    while k < nb
        invariant
            bits.len() == n,
            n % 8 == 0,
            nb == n / 8,
            k <= nb,
            r.len() == k,
            forall|i: int| 0 <= i < 8 * k ==> bit_of(r@, i) == bits@[i],
        decreases nb - k,
    {
        let mut b: u8 = 0;
        proof {
            assert forall|t: u8| t < 8 implies ((b >> t) & 1) == 0 by {
                lemma_u8_zero_bits(t);
            }
        }
        let mut j: usize = 0;
        while j < 8
            invariant
                bits.len() == n,
                k < nb,
                nb == n / 8,
                n % 8 == 0,
                j <= 8,
                forall|t: u8| t < j ==> (((b >> t) & 1) == 1) == bits@[8 * k + t],
                forall|t: u8| j <= t < 8 ==> ((b >> t) & 1) == 0,
            decreases 8 - j,
        {
            proof {
                assert(8 * k + j < n) by {
                    assert(k + 1 <= nb);
                    assert(8 * (k + 1) <= 8 * nb);
                    assert(8 * nb <= n) by {
                        vstd::arithmetic::div_mod::lemma_fundamental_div_mod(n as int, 8);
                    }
                }
            }
            let sh: u8 = j as u8;
            let ghost bold = b;
            if bits[8 * k + j] {
                b = b | (1u8 << sh);
            }
            proof {
                assert forall|t: u8| t < j + 1 implies (((b >> t) & 1) == 1) == bits@[8 * k
                    + t] by {
                    lemma_u8_set_bit(bold, sh, true, t);
                    lemma_u8_bit_is_boolean(bold, t);
                }
                assert forall|t: u8| j + 1 <= t < 8 implies ((b >> t) & 1) == 0 by {
                    lemma_u8_set_bit(bold, sh, true, t);
                }
            }
            j = j + 1;
        }
        r.push(b);
        proof {
            assert forall|i: int| 0 <= i < 8 * (k + 1) implies bit_of(r@, i) == bits@[i] by {
                if i >= 8 * k {
                    assert(i / 8 == k && i % 8 == i - 8 * k);
                    assert((((b >> ((i - 8 * k) as u8)) & 1) == 1) == bits@[i]);
                }
            }
        }
        k = k + 1;
    }
    r
}

/// Unpack bytes into a bit vector, LSB first within each byte.
pub fn u8vec_to_boolvec(bytes: &Vec<u8>) -> (r: Vec<bool>)
    requires
        bytes.len() <= usize::MAX / 8,
    ensures
        r.len() == 8 * bytes.len(),
        forall|i: int| 0 <= i < r.len() ==> r@[i] == bit_of(bytes@, i),
{
    let n = 8 * bytes.len();
    let mut r: Vec<bool> = Vec::new();
    for i in 0..n
        invariant
            n == 8 * bytes.len(),
            r.len() == i,
            forall|t: int| 0 <= t < i ==> r@[t] == bit_of(bytes@, t),
    {
        let v = get_bit(bytes, i);
        r.push(v);
    }
    r
}

/// Packing a bit vector and unpacking the bytes gives the bit vector back,
/// for any length that is a multiple of 8.
pub proof fn lemma_pack_unpack_roundtrip(bs: Seq<bool>, packed: Seq<u8>, unpacked: Seq<bool>)
    requires
        bs.len() % 8 == 0,
        packed.len() == bs.len() / 8,
        forall|i: int| 0 <= i < bs.len() ==> bit_of(packed, i) == bs[i],
        unpacked.len() == 8 * packed.len(),
        forall|i: int| 0 <= i < unpacked.len() ==> unpacked[i] == bit_of(packed, i),
    ensures
        unpacked == bs,
{
    assert(8 * (bs.len() as int / 8) == bs.len()) by {
        vstd::arithmetic::div_mod::lemma_fundamental_div_mod(bs.len() as int, 8);
    }
    assert(unpacked =~= bs);
}

/// A vector of `n` zero bytes.
pub fn vec_zero(n: usize) -> (r: Vec<u8>)
    ensures
        r.len() == n,
        forall|i: int| 0 <= i < n ==> r@[i] == 0u8,
{
    let mut r: Vec<u8> = Vec::new();
    for k in 0..n
        invariant
            r.len() == k,
            forall|i: int| 0 <= i < k ==> r@[i] == 0u8,
    {
        r.push(0u8);
    }
    r
}

/// Positions in a row-major layout respect the lexicographic row order.
pub proof fn lemma_rowmajor_lt(i1: int, j1: int, i2: int, j2: int, n: int)
    requires
        0 <= j1 < n,
        0 <= j2,
        0 <= i1 < i2,
    ensures
        i1 * n + j1 < i2 * n + j2,
{
    assert((i1 + 1) * n == i1 * n + n) by (nonlinear_arith);
    vstd::arithmetic::mul::lemma_mul_inequality(i1 + 1, i2, n);
}

/// Transpose a packed bit matrix of `nrows` rows by `ncols` columns, both
/// multiples of 8, row-major and LSB first, into the `ncols` by `nrows`
/// matrix in the same layout.
pub fn transpose(m: &Vec<u8>, nrows: usize, ncols: usize) -> (r: Vec<u8>)
    requires
        nrows % 8 == 0,
        ncols % 8 == 0,
        8 * m.len() == nrows * ncols,
        m.len() <= usize::MAX / 8,
    ensures
        r.len() == m.len(),
        forall|i: int, j: int|
            0 <= i < ncols && 0 <= j < nrows ==> mbit(r@, i, j, nrows as int) == mbit(
                m@,
                j,
                i,
                ncols as int,
            ),
{
    let len = m.len();
    let mut r = vec_zero(len);
    let mut i: usize = 0;
    while i < ncols
        invariant
            r.len() == len,
            m.len() == len,
            8 * len == nrows * ncols,
            len <= usize::MAX / 8,
            i <= ncols,
            forall|a: int, b: int|
                0 <= a < i && 0 <= b < nrows ==> mbit(r@, a, b, nrows as int) == mbit(
                    m@,
                    b,
                    a,
                    ncols as int,
                ),
        decreases ncols - i,
    {
        let mut j: usize = 0;
        while j < nrows
            invariant
                r.len() == len,
                m.len() == len,
                8 * len == nrows * ncols,
                len <= usize::MAX / 8,
                i < ncols,
                j <= nrows,
                forall|a: int, b: int|
                    0 <= a < i && 0 <= b < nrows ==> mbit(r@, a, b, nrows as int) == mbit(
                        m@,
                        b,
                        a,
                        ncols as int,
                    ),
                forall|b: int|
                    0 <= b < j ==> mbit(r@, i as int, b, nrows as int) == mbit(
                        m@,
                        b,
                        i as int,
                        ncols as int,
                    ),
            decreases nrows - j,
        {
            proof {
                lemma_rowmajor_lt(j as int, i as int, nrows as int, 0, ncols as int);
                lemma_rowmajor_lt(i as int, j as int, ncols as int, 0, nrows as int);
                assert((j * ncols + i) / 8 < len) by {
                    vstd::arithmetic::div_mod::lemma_fundamental_div_mod(
                        (j * ncols + i) as int,
                        8,
                    );
                }
                assert((i * nrows + j) / 8 < len) by {
                    vstd::arithmetic::div_mod::lemma_fundamental_div_mod(
                        (i * nrows + j) as int,
                        8,
                    );
                }
            }
            let v = get_bit(m, j * ncols + i);
            let ghost rold = r@;
            set_bit(&mut r, i * nrows + j, v);
            proof {
                let pos = (i * nrows + j) as int;
                assert forall|a: int, b: int| 0 <= a < i && 0 <= b < nrows implies mbit(
                    r@,
                    a,
                    b,
                    nrows as int,
                ) == mbit(m@, b, a, ncols as int) by {
                    lemma_rowmajor_lt(a, b, i as int, j as int, nrows as int);
                    lemma_rowmajor_lt(a, b, ncols as int, 0, nrows as int);
                    assert(bit_of(r@, a * nrows + b) == bit_of(rold, a * nrows + b));
                    assert(mbit(rold, a, b, nrows as int) == mbit(m@, b, a, ncols as int));
                }
                assert forall|b: int| 0 <= b < j + 1 implies mbit(r@, i as int, b, nrows as int)
                    == mbit(m@, b, i as int, ncols as int) by {
                    if b < j {
                        assert(i * nrows + b != pos);
                        assert(i * nrows + b < 8 * len) by {
                            lemma_rowmajor_lt(i as int, b, ncols as int, 0, nrows as int);
                        }
                        assert(bit_of(r@, i * nrows + b) == bit_of(rold, i * nrows + b));
                        assert(mbit(rold, i as int, b, nrows as int) == mbit(
                            m@,
                            b,
                            i as int,
                            ncols as int,
                        ));
                    } else {
                        assert(bit_of(r@, pos) == v);
                        assert(bit_of(m@, (j * ncols + i) as int) == v);
                    }
                }
            }
            j = j + 1;
        }
        i = i + 1;
    }
    r
}

/// Transposing twice, with the dimensions swapped in between, gives the
/// original matrix back.
pub proof fn lemma_transpose_involutive(
    m: Seq<u8>,
    t: Seq<u8>,
    m2: Seq<u8>,
    nrows: int,
    ncols: int,
)
    requires
        nrows >= 0,
        ncols >= 0,
        8 * m.len() == nrows * ncols,
        t.len() == m.len(),
        m2.len() == m.len(),
        forall|i: int, j: int|
            0 <= i < ncols && 0 <= j < nrows ==> mbit(t, i, j, nrows) == mbit(m, j, i, ncols),
        forall|i: int, j: int|
            0 <= i < nrows && 0 <= j < ncols ==> mbit(m2, i, j, ncols) == mbit(t, j, i, nrows),
    ensures
        m2 == m,
{
    assert forall|p: int| 0 <= p < 8 * m.len() implies bit_of(m2, p) == bit_of(m, p) by {
        assert(ncols > 0 && nrows > 0) by (nonlinear_arith)
            requires
                nrows >= 0,
                ncols >= 0,
                nrows * ncols > 0,
        ;
        let i = p / ncols;
        let j = p % ncols;
        vstd::arithmetic::div_mod::lemma_fundamental_div_mod(p, ncols);
        assert(p == ncols * i + j);
        assert(i < nrows) by (nonlinear_arith)
            requires
                ncols * i + j == p,
                0 <= j < ncols,
                0 <= p,
                p < nrows * ncols,
        ;
        assert(i * ncols + j == p) by (nonlinear_arith)
            requires
                ncols * i + j == p,
        ;
        assert(mbit(m2, i, j, ncols) == mbit(t, j, i, nrows));
        assert(mbit(t, j, i, nrows) == mbit(m, i, j, ncols));
        assert(bit_of(m2, p) == bit_of(m2, i * ncols + j));
        assert(bit_of(m, p) == bit_of(m, i * ncols + j));
    }
    lemma_seq_eq_by_bits(m2, m);
}

/// XOR of byte sequences is commutative.
pub proof fn lemma_xor_commutative(x: Seq<u8>, y: Seq<u8>)
    requires
        x.len() == y.len(),
    ensures
        spec_xor(x, y) == spec_xor(y, x),
{
    assert forall|i: int| 0 <= i < x.len() implies spec_xor(x, y)[i] == spec_xor(y, x)[i] by {
        lemma_u8_xor_comm(x[i], y[i]);
    }
    assert(spec_xor(x, y) =~= spec_xor(y, x));
}

/// XOR on bytes is commutative.
proof fn lemma_u8_xor_comm(a: u8, b: u8)
    by (bit_vector)
    ensures
        a ^ b == b ^ a,
{
}

/// XOR of byte sequences is associative.
pub proof fn lemma_xor_associative(x: Seq<u8>, y: Seq<u8>, z: Seq<u8>)
    requires
        x.len() == y.len(),
        y.len() == z.len(),
    ensures
        spec_xor(spec_xor(x, y), z) == spec_xor(x, spec_xor(y, z)),
{
    assert forall|i: int| 0 <= i < x.len() implies spec_xor(spec_xor(x, y), z)[i] == spec_xor(
        x,
        spec_xor(y, z),
    )[i] by {
        lemma_u8_xor_assoc(x[i], y[i], z[i]);
    }
    assert(spec_xor(spec_xor(x, y), z) =~= spec_xor(x, spec_xor(y, z)));
}

/// XOR on bytes is associative.
proof fn lemma_u8_xor_assoc(a: u8, b: u8, c: u8)
    by (bit_vector)
    ensures
        (a ^ b) ^ c == a ^ (b ^ c),
{
}

/// The all-zero sequence is the identity of XOR.
pub proof fn lemma_xor_zero_identity(x: Seq<u8>, z: Seq<u8>)
    requires
        x.len() == z.len(),
        forall|i: int| 0 <= i < z.len() ==> z[i] == 0u8,
    ensures
        spec_xor(x, z) == x,
{
    assert forall|i: int| 0 <= i < x.len() implies spec_xor(x, z)[i] == x[i] by {
        lemma_u8_xor_zero(x[i]);
    }
    assert(spec_xor(x, z) =~= x);
}

/// XOR with zero changes nothing.
proof fn lemma_u8_xor_zero(a: u8)
    by (bit_vector)
    ensures
        a ^ 0 == a,
{
}

/// XOR of blocks undoes itself: `(x ^ y) ^ y == x`.
pub proof fn lemma_xor_involutive(x: Seq<u8>, y: Seq<u8>)
    requires
        x.len() == y.len(),
    ensures
        spec_xor(spec_xor(x, y), y) == x,
{
    lemma_seq_xor_cancel(x, y);
}

} // verus!
