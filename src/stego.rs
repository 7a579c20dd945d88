//! The steganographic codec: payload bits in the low bits of samples.
//!
//! Samples are visited in buffer order (ascending frame, then ascending
//! channel). Each sample carries `bits` payload bits in its low bits, the
//! most significant bit of the chunk first; payload bytes are read most
//! significant bit first. Bit `j` of the payload therefore lands in sample
//! `j / bits` at bit position `bits - 1 - j % bits`.

use vstd::prelude::*;
use vstd::arithmetic::div_mod::{lemma_fundamental_div_mod, lemma_mod_pos_bound, lemma_div_pos_is_pos};
use crate::error::Error;

verus! {

/// Bit `t` (0 = least significant) of a sample, in two's complement.
pub open spec fn sample_bit(v: i32, t: u32) -> bool {
    ((v as u32) >> t) & 1u32 == 1u32
}

/// Bit `j` of a byte string, most significant bit of each byte first.
pub open spec fn payload_bit(p: Seq<u8>, j: int) -> bool {
    (p[j / 8] >> ((7 - j % 8) as u8)) & 1u8 == 1u8
}

/// The carrier bit that holds payload bit `j` under a `bits`-per-sample
/// profile.
pub open spec fn carrier_bit(s: Seq<i32>, bits: u32, j: int) -> bool {
    sample_bit(s[j / (bits as int)], (bits - 1 - j % (bits as int)) as u32)
}

/// Bytes that `sample_count` samples can carry at `bits` bits each.
pub open spec fn capacity_of(sample_count: int, bits: int) -> int {
    (bits * sample_count) / 8
}

/// `new` is `old` with `p` embedded: the first `8 * p.len()` carrier bits
/// hold the payload, every other bit of every sample is unchanged.
pub open spec fn embedded(old: Seq<i32>, new: Seq<i32>, p: Seq<u8>, bits: u32) -> bool {
    &&& new.len() == old.len()
    &&& forall|j: int| 0 <= j < 8 * p.len() ==> #[trigger] carrier_bit(new, bits, j) == payload_bit(p, j)
    &&& forall|j: int|
        8 * p.len() <= j < old.len() * bits ==> #[trigger] carrier_bit(new, bits, j) == carrier_bit(old, bits, j)
    &&& forall|i: int| 0 <= i < old.len() ==> (#[trigger] new[i] >> bits) == old[i] >> bits
}

/// `r` holds the first `len` bytes carried by `s`.
pub open spec fn extracted(s: Seq<i32>, r: Seq<u8>, len: int, bits: u32) -> bool {
    &&& r.len() == len
    &&& forall|j: int| 0 <= j < 8 * len ==> #[trigger] payload_bit(r, j) == carrier_bit(s, bits, j)
}

/// Bit `7 - tt` of a byte: its `tt`-th bit, most significant first.
pub open spec fn byte_bit(a: u8, tt: u8) -> u8 {
    (a >> ((7 - tt) as u8)) & 1u8
}

/// A valid embedding profile.
pub open spec fn valid_bits(bits: u32) -> bool {
    1 <= bits <= 4
}

/// `v` with bit `pos` set to `b`.
pub open spec fn with_bit(v: i32, pos: u32, b: bool) -> i32 {
    if b { v | (1i32 << pos) } else { v & !(1i32 << pos) }
}

proof fn lemma_with_bit(v: i32, pos: u32, b: bool, t: u32, bits: u32)
    by (bit_vector)
    requires
        pos < bits,
        bits <= 4,
        t < 32,
    ensures
        sample_bit(with_bit(v, pos, b), t) == if t == pos { b } else { sample_bit(v, t) },
        with_bit(v, pos, b) >> bits == v >> bits,
{
}

proof fn lemma_u8_bit(a: u8, pos: u8, t: u8)
    by (bit_vector)
    requires
        pos < 8,
        t < 8,
    ensures
        (a | (1u8 << pos)) >> t & 1u8 == if t == pos { 1u8 } else { (a >> t) & 1u8 },
{
}

proof fn lemma_zero_u8_bits(t: u8)
    by (bit_vector)
    requires
        t < 8,
    ensures
        (0u8 >> t) & 1u8 == 0u8,
{
}

/// Two bytes that agree on all eight bits are equal.
pub proof fn lemma_byte_from_bits(a: u8, b: u8)
    by (bit_vector)
    requires
        (a >> 0u8) & 1u8 == (b >> 0u8) & 1u8,
        (a >> 1u8) & 1u8 == (b >> 1u8) & 1u8,
        (a >> 2u8) & 1u8 == (b >> 2u8) & 1u8,
        (a >> 3u8) & 1u8 == (b >> 3u8) & 1u8,
        (a >> 4u8) & 1u8 == (b >> 4u8) & 1u8,
        (a >> 5u8) & 1u8 == (b >> 5u8) & 1u8,
        (a >> 6u8) & 1u8 == (b >> 6u8) & 1u8,
        (a >> 7u8) & 1u8 == (b >> 7u8) & 1u8,
    ensures
        a == b,
{
}

proof fn lemma_div_mod_unique(j1: int, j2: int, k: int)
    requires
        k > 0,
        j1 >= 0,
        j2 >= 0,
        j1 / k == j2 / k,
        j1 % k == j2 % k,
    ensures
        j1 == j2,
{
    lemma_fundamental_div_mod(j1, k);
    lemma_fundamental_div_mod(j2, k);
}

proof fn lemma_index_in_range(j: int, n: int, k: int)
    requires
        k > 0,
        0 <= j < n * k,
    ensures
        0 <= j / k < n,
{
    lemma_fundamental_div_mod(j, k);
    lemma_mod_pos_bound(j, k);
    lemma_div_pos_is_pos(j, k);
    assert(j / k < n) by (nonlinear_arith)
        requires
            j == k * (j / k) + j % k,
            0 <= j % k,
            j < n * k,
            k > 0,
    ;
}

/// Round trip: extracting `p.len()` bytes from a buffer that `p` was
/// embedded into gives back exactly `p`, for every profile and every
/// payload that fits.
pub proof fn lemma_round_trip(old: Seq<i32>, new: Seq<i32>, p: Seq<u8>, r: Seq<u8>, bits: u32)
    requires
        valid_bits(bits),
        embedded(old, new, p, bits),
        extracted(new, r, p.len() as int, bits),
    ensures
        r == p,
{
    assert forall|j: int| 0 <= j < 8 * p.len() implies #[trigger] payload_bit(r, j) == payload_bit(p, j) by {
        assert(payload_bit(r, j) == carrier_bit(new, bits, j));
    }
    lemma_prefix_from_bits(r, p, p.len() as int);
    assert(r =~= p);
}

/// Two byte strings whose first `8 * n` bits agree agree on their first
/// `n` bytes.
pub proof fn lemma_prefix_from_bits(a: Seq<u8>, b: Seq<u8>, n: int)
    requires
        0 <= n <= a.len(),
        n <= b.len(),
        forall|j: int| 0 <= j < 8 * n ==> #[trigger] payload_bit(a, j) == payload_bit(b, j),
    ensures
        forall|m: int| 0 <= m < n ==> a[m] == b[m],
{
    assert forall|m: int| 0 <= m < n implies a[m] == b[m] by {
        assert forall|t: u8| t < 8 implies #[trigger] byte_bit(a[m], t) == byte_bit(b[m], t) by {
            let j = 8 * m + t;
            assert(j / 8 == m && j % 8 == t);
            assert(payload_bit(a, j) == payload_bit(b, j));
            lemma_bit_is_bool(a[m], (7 - t) as u8);
            lemma_bit_is_bool(b[m], (7 - t) as u8);
        }
        assert(byte_bit(a[m], 0) == byte_bit(b[m], 0));
        assert(byte_bit(a[m], 1) == byte_bit(b[m], 1));
        assert(byte_bit(a[m], 2) == byte_bit(b[m], 2));
        assert(byte_bit(a[m], 3) == byte_bit(b[m], 3));
        assert(byte_bit(a[m], 4) == byte_bit(b[m], 4));
        assert(byte_bit(a[m], 5) == byte_bit(b[m], 5));
        assert(byte_bit(a[m], 6) == byte_bit(b[m], 6));
        assert(byte_bit(a[m], 7) == byte_bit(b[m], 7));
        lemma_byte_from_bits(a[m], b[m]);
    }
}

proof fn lemma_bit_is_bool(a: u8, s: u8)
    by (bit_vector)
    ensures
        (a >> s) & 1u8 == 0u8 || (a >> s) & 1u8 == 1u8,
{
}

/// Bytes that `sample_count` samples carry at `bits` bits per sample:
/// `floor(bits * sample_count / 8)`.
pub fn capacity(sample_count: usize, bits: u32) -> (r: usize)
    requires
        valid_bits(bits),
    ensures
        r == capacity_of(sample_count as int, bits as int),
{
    assert(sample_count <= u64::MAX);
    assert((bits as int) * (sample_count as int) <= 4 * u64::MAX) by (nonlinear_arith)
        requires
            bits <= 4,
            sample_count <= u64::MAX,
    ;
    let total: u128 = (bits as u128) * (sample_count as u128);
    assert(total / 8 <= sample_count) by (nonlinear_arith)
        requires
            total == bits * sample_count,
            bits <= 4,
    ;
    (total / 8) as usize
}

/// Embeds `payload` into `samples` under a `bits`-per-sample profile.
/// Fails with `Capacity` when the payload is longer than `capacity`,
/// leaving the samples untouched.
pub fn embed(samples: &mut Vec<i32>, payload: &[u8], bits: u32) -> (r: Result<(), Error>)
    requires
        valid_bits(bits),
    ensures
        payload@.len() <= capacity_of(old(samples)@.len() as int, bits as int) <==> r is Ok,
        r is Ok ==> embedded(old(samples)@, final(samples)@, payload@, bits),
        r is Err ==> final(samples)@ == old(samples)@ && r == Err::<(), Error>(
            Error::Capacity {
                required: payload@.len() as usize,
                available: capacity_of(old(samples)@.len() as int, bits as int) as usize,
            },
        ),
{
    let available = capacity(samples.len(), bits);
    if payload.len() > available {
        return Err(Error::Capacity { required: payload.len(), available });
    }
    let ghost old_s = samples@;
    let n = samples.len();
    let k = bits as u128;
    let nbits: u128 = 8 * (payload.len() as u128);
    assert(nbits <= n * k) by (nonlinear_arith)
        requires
            payload@.len() <= (k * n) / 8,
            nbits == 8 * payload@.len(),
    ;
    let mut j: u128 = 0;
    while j < nbits
        invariant
            valid_bits(bits),
            k == bits,
            nbits == 8 * payload@.len(),
            nbits <= n * k,
            n == old_s.len(),
            samples@.len() == n,
            0 <= j <= nbits,
            forall|jj: int| 0 <= jj < j ==> #[trigger] carrier_bit(samples@, bits, jj) == payload_bit(payload@, jj),
            forall|jj: int| j <= jj < n * k ==> #[trigger] carrier_bit(samples@, bits, jj) == carrier_bit(old_s, bits, jj),
            forall|i: int| 0 <= i < n ==> (#[trigger] samples@[i] >> bits) == old_s[i] >> bits,
        decreases nbits - j,
    {
        let byte = payload[(j / 8) as usize];
        let b = (byte >> ((7 - j % 8) as u8)) & 1u8 == 1u8;
        let i = (j / k) as usize;
        let pos = (k - 1 - j % k) as u32;
        proof {
            lemma_index_in_range(j as int, n as int, k as int);
        }
        let v = samples[i];
        let nv = if b { v | (1i32 << pos) } else { v & !(1i32 << pos) };
        let ghost prev = samples@;
        samples.set(i, nv);
        proof {
            assert(nv == with_bit(v, pos, b));
            assert forall|t: u32| t < 32 implies sample_bit(nv, t) == if t == pos { b } else { sample_bit(v, t) } by {
                lemma_with_bit(v, pos, b, t, bits);
            }
            lemma_with_bit(v, pos, b, 0, bits);
            assert forall|jj: int| 0 <= jj < n * k && jj != j implies #[trigger] carrier_bit(samples@, bits, jj) == carrier_bit(prev, bits, jj) by {
                lemma_index_in_range(jj, n as int, k as int);
                if jj / (k as int) == i as int {
                    if jj % (k as int) == j % k {
                        lemma_div_mod_unique(jj, j as int, k as int);
                    }
                }
            }
            assert(carrier_bit(samples@, bits, j as int) == payload_bit(payload@, j as int));
        }
        j = j + 1;
    }
    Ok(())
}

/// Reads `len` bytes out of `samples` under a `bits`-per-sample profile.
pub fn extract(samples: &[i32], bits: u32, len: usize) -> (r: Vec<u8>)
    requires
        valid_bits(bits),
        len <= capacity_of(samples@.len() as int, bits as int),
    ensures
        extracted(samples@, r@, len as int, bits),
{
    let n = samples.len();
    let k = bits as u128;
    assert(8 * len <= n * k) by (nonlinear_arith)
        requires
            len <= (k * n) / 8,
    ;
    let mut out: Vec<u8> = Vec::new();
    let mut m: usize = 0;
    while m < len
        invariant
            valid_bits(bits),
            k == bits,
            8 * len <= n * k,
            n == samples@.len(),
            m <= len,
            out@.len() == m,
            forall|jj: int| 0 <= jj < 8 * m ==> #[trigger] payload_bit(out@, jj) == carrier_bit(samples@, bits, jj),
        decreases len - m,
    {
        let mut acc: u8 = 0;
        let mut t: u8 = 0;
        proof {
            assert forall|tt: u8| tt < 8 implies #[trigger] byte_bit(acc, tt) == 0u8 by {
                lemma_zero_u8_bits((7 - tt) as u8);
            }
        }
        while t < 8
            invariant
                valid_bits(bits),
                k == bits,
                8 * len <= n * k,
                n == samples@.len(),
                m < len,
                t <= 8,
                forall|tt: u8| tt < t ==> (#[trigger] byte_bit(acc, tt) == 1u8) == carrier_bit(samples@, bits, 8 * m + tt),
                forall|tt: u8| t <= tt < 8 ==> #[trigger] byte_bit(acc, tt) == 0u8,
            decreases 8 - t,
        {
            let j: u128 = 8 * (m as u128) + (t as u128);
            proof {
                lemma_index_in_range(j as int, n as int, k as int);
            }
            let i = (j / k) as usize;
            let pos = (k - 1 - j % k) as u32;
            let v = samples[i];
            let b = ((v as u32) >> pos) & 1u32 == 1u32;
            assert(b == carrier_bit(samples@, bits, j as int));
            let ghost prev = acc;
            if b {
                acc = acc | (1u8 << (7 - t));
            }
            proof {
                assert forall|tt: u8| tt < 8 implies #[trigger] byte_bit(acc, tt) == if tt == t && b { 1u8 } else { byte_bit(prev, tt) } by {
                    if b {
                        lemma_u8_bit(prev, (7 - t) as u8, (7 - tt) as u8);
                    }
                }
            }
            t = t + 1;
        }
        let ghost prev_out = out@;
        out.push(acc);
        proof {
            assert forall|jj: int| 0 <= jj < 8 * (m + 1) implies #[trigger] payload_bit(out@, jj) == carrier_bit(samples@, bits, jj) by {
                if jj < 8 * m {
                    assert(jj / 8 < m);
                    assert(out@[jj / 8] == prev_out[jj / 8]);
                    assert(payload_bit(prev_out, jj) == carrier_bit(samples@, bits, jj));
                } else {
                    let tt = (jj - 8 * m) as u8;
                    assert(jj / 8 == m);
                    assert(jj % 8 == tt);
                    assert(byte_bit(acc, tt) == 1u8 <==> carrier_bit(samples@, bits, 8 * m + tt));
                    assert(out@[jj / 8] == acc);
                    assert(((7 - jj % 8) as u8) == ((7 - tt) as u8));
                }
            }
        }
        m = m + 1;
    }
    out
}

} // verus!
