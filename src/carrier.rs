//! Hiding an envelope in a carrier file and finding it again.

use vstd::prelude::*;
use vstd::arithmetic::div_mod::{
    lemma_div_pos_is_pos, lemma_fundamental_div_mod, lemma_fundamental_div_mod_converse, lemma_mod_pos_bound,
};
use crate::crypto::SIGNATURE_LEN;
use crate::envelope::{be32, header_ok, parse_header, Header, HEADER_LEN};
use crate::error::Error;
use crate::stego::{carrier_bit, sample_bit, capacity, capacity_of, embed, embedded, extract, extracted, lemma_round_trip, valid_bits};
use crate::wav::{lemma_sample_bytes_inverse, lemma_stored_bytes_low_bits, lemma_stored_sample_fits, sample_bytes, carrier_sample_count, decoded, lemma_load_of_save, loaded_from, sample_value, in_range, lemma_high_bits_keep_range, load, saved, samples_fit, valid_wav, WavFile};

verus! {

/// `out` is `carrier` with `payload` embedded at `profile` bits per sample.
pub open spec fn hidden_in(carrier: Seq<u8>, payload: Seq<u8>, profile: u32, out: Seq<u8>) -> bool {
    exists|w: WavFile, s: Seq<i32>, s2: Seq<i32>|
        #[trigger] saved(&w, s2, out) && w.wf() && w.bytes@ == carrier && #[trigger] decoded(&w, s) && embedded(
            s,
            s2,
            payload,
            profile,
        ) && loaded_from(&w, carrier) && samples_fit(&w, s2)
}

/// `e` is the first `e.len()` bytes carried by `carrier` at `profile`,
/// and no smaller profile holds a well-formed header naming itself.
pub open spec fn carried_by(carrier: Seq<u8>, e: Seq<u8>, profile: u32) -> bool {
    exists|w: WavFile, s: Seq<i32>|
        #[trigger] decoded(&w, s) && w.wf() && w.bytes@ == carrier && extracted(s, e, e.len() as int, profile)
            && forall|q: u32| 1 <= q < profile ==> #[trigger] no_header_at(s, q)
}

/// Embeds `payload` into the carrier file at `profile` bits per sample and
/// returns the new file. Fails with `Format` when the carrier is not an
/// integer PCM WAV file and with `Capacity` when the payload does not fit.
pub fn conceal(carrier: &[u8], payload: &[u8], profile: u32) -> (r: Result<Vec<u8>, Error>)
    requires
        valid_bits(profile),
    ensures
        !valid_wav(carrier@) ==> r == Err::<Vec<u8>, Error>(Error::Format),
        valid_wav(carrier@) ==> (r is Ok <==> payload@.len() <= capacity_of(carrier_sample_count(carrier@), profile as int)),
        valid_wav(carrier@) && r is Err ==> r == Err::<Vec<u8>, Error>(
            Error::Capacity {
                required: payload@.len() as usize,
                available: capacity_of(carrier_sample_count(carrier@), profile as int) as usize,
            },
        ),
        r matches Ok(out) ==> hidden_in(carrier@, payload@, profile, out@),
{
    let (w, mut s) = load(carrier)?;
    let ghost s0 = s@;
    proof {
        assert(samples_fit(&w, s0)) by {
            assert forall|i: int| 0 <= i < s0.len() implies in_range(#[trigger] s0[i] as int, w.bits()) by {
                assert(s0[i] as int == w.stored_sample(i));
                crate::wav::lemma_stored_sample_fits(&w, i);
            }
        }
    }
    embed(&mut s, payload, profile)?;
    proof {
        assert forall|i: int| 0 <= i < s@.len() implies in_range(#[trigger] s@[i] as int, w.bits()) by {
            assert(s@[i] >> profile == s0[i] >> profile);
            lemma_high_bits_keep_range(s0[i], s@[i], profile, w.bits());
        }
    }
    let out = w.save(&s);
    assert(saved(&w, s@, out@));
    Ok(out)
}

/// No well-formed header naming profile `p` can be read at profile `p`.
pub open spec fn no_header_at(s: Seq<i32>, p: u32) -> bool {
    capacity_of(s.len() as int, p as int) < HEADER_LEN || forall|hb: Seq<u8>|
        #[trigger] extracted(s, hb, HEADER_LEN as int, p) ==> !(header_ok(hb) && hb[4] % 16 == p)
}

/// At profile `p` a well-formed header naming `p` can be read, and the
/// envelope it announces is longer than the samples carry at `p`.
pub open spec fn announced_too_long(s: Seq<i32>, p: u32) -> bool {
    exists|hb: Seq<u8>|
        #[trigger] extracted(s, hb, HEADER_LEN as int, p) && header_ok(hb) && hb[4] % 16 == p && HEADER_LEN
            + be32(hb, 6) + SIGNATURE_LEN > capacity_of(s.len() as int, p as int)
}

/// Round trip through the carrier file: loading what `conceal` wrote and
/// extracting as many bytes as were hidden, at the same profile, gives back
/// exactly the hidden bytes.
pub proof fn lemma_conceal_round_trip(
    carrier: Seq<u8>,
    payload: Seq<u8>,
    profile: u32,
    out: Seq<u8>,
    w2: WavFile,
    s3: Seq<i32>,
    r: Seq<u8>,
)
    requires
        valid_bits(profile),
        hidden_in(carrier, payload, profile, out),
        w2.wf(),
        loaded_from(&w2, out),
        decoded(&w2, s3),
        extracted(s3, r, payload.len() as int, profile),
    ensures
        r == payload,
{
    let (w, s, s2) = choose|w: WavFile, s: Seq<i32>, s2: Seq<i32>|
        #[trigger] saved(&w, s2, out) && w.wf() && w.bytes@ == carrier && #[trigger] decoded(&w, s) && embedded(
            s,
            s2,
            payload,
            profile,
        ) && loaded_from(&w, carrier) && samples_fit(&w, s2);
    lemma_load_of_save(&w, s2, out);
    assert(w2.format == w.format);
    assert(w2.data_start == w.data_start);
    assert(w2.data_len == w.data_len);
    assert(s3.len() == s2.len());
    assert forall|i: int| 0 <= i < s3.len() implies s3[i] == s2[i] by {
        assert(s3[i] as int == w2.stored_sample(i));
        assert(sample_value(out, w.data_start + i * (w.bits() / 8), w.bits()) == s2[i] as int);
    }
    assert(s3 =~= s2);
    lemma_round_trip(s, s2, payload, r, profile);
}

/// `g` differs from `f` only in the low `k` bits of the first byte of
/// samples below `touched`, in a sample area starting at `start` with
/// `bps` bytes per sample.
pub open spec fn low_bit_changes(f: Seq<u8>, g: Seq<u8>, start: int, bps: int, k: u32, touched: int) -> bool {
    &&& f.len() == g.len()
    &&& forall|p: int|
        0 <= p < f.len() && #[trigger] f[p] != g[p] ==> start <= p < start + touched * bps && (p - start) % bps
            == 0 && f[p] >> (k as u8) == g[p] >> (k as u8)
}

proof fn lemma_rebuild(v1: i32, v2: i32, k: u32)
    by (bit_vector)
    requires
        1 <= k <= 4,
        v1 >> k == v2 >> k,
        k > 0 ==> sample_bit(v1, 0) == sample_bit(v2, 0),
        k > 1 ==> sample_bit(v1, 1) == sample_bit(v2, 1),
        k > 2 ==> sample_bit(v1, 2) == sample_bit(v2, 2),
        k > 3 ==> sample_bit(v1, 3) == sample_bit(v2, 3),
    ensures
        v1 == v2,
{
}

/// Carrier fidelity: the file that `conceal` writes differs from the
/// carrier only in the low `profile` bits of the first stored byte of the
/// samples that hold payload bits, `ceil(8 * payload.len() / profile)` of
/// them from the start of the `data` chunk; every other byte, other chunks
/// included, is identical.
pub proof fn lemma_conceal_changes_low_bits(carrier: Seq<u8>, payload: Seq<u8>, profile: u32, out: Seq<u8>)
    requires
        valid_bits(profile),
        hidden_in(carrier, payload, profile, out),
    ensures
        exists|w: WavFile|
            #[trigger] loaded_from(&w, carrier) && low_bit_changes(
                carrier,
                out,
                w.data_start as int,
                w.bits() / 8,
                profile,
                (8 * payload.len() + profile - 1) / (profile as int),
            ),
{
    let (w, s, s2) = choose|w: WavFile, s: Seq<i32>, s2: Seq<i32>|
        #[trigger] saved(&w, s2, out) && w.wf() && w.bytes@ == carrier && #[trigger] decoded(&w, s) && embedded(
            s,
            s2,
            payload,
            profile,
        ) && loaded_from(&w, carrier) && samples_fit(&w, s2);
    let k = profile as int;
    let bps = w.bits() / 8;
    let start = w.data_start as int;
    let touched = (8 * payload.len() + k - 1) / k;
    lemma_fundamental_div_mod(8 * payload.len() + k - 1, k);
    lemma_mod_pos_bound(8 * payload.len() + k - 1, k);
    assert(touched * k >= 8 * payload.len()) by (nonlinear_arith)
        requires
            8 * payload.len() + k - 1 == k * touched + (8 * payload.len() + k - 1) % k,
            (8 * payload.len() + k - 1) % k < k,
    ;
    assert forall|p: int| 0 <= p < carrier.len() && #[trigger] carrier[p] != out[p] implies start <= p < start
        + touched * bps && (p - start) % bps == 0 && carrier[p] >> (profile as u8) == out[p] >> (profile as u8) by {
        let m = w.data_len as int / bps;
        lemma_fundamental_div_mod(w.data_len as int, bps);
        let i = (p - start) / bps;
        let q = (p - start) % bps;
        lemma_fundamental_div_mod(p - start, bps);
        lemma_mod_pos_bound(p - start, bps);
        lemma_div_pos_is_pos(p - start, bps);
        let off = start + i * bps;
        assert(i < m && off + bps <= start + w.data_len) by (nonlinear_arith)
            requires
                i * bps + q == p - start,
                p - start < w.data_len,
                w.data_len == bps * m + 0,
                off == start + i * bps,
                0 <= q < bps,
                i >= 0,
        ;
        lemma_sample_bytes_inverse(carrier, off, w.bits());
        assert(s[i] as int == w.stored_sample(i));
        lemma_stored_sample_fits(&w, i);
        assert(carrier[p] == sample_bytes(s[i] as int, w.bits())[q]);
        assert(out[p] == sample_bytes(s2[i] as int, w.bits())[q]);
        assert(s2[i] >> profile == s[i] >> profile);
        lemma_stored_bytes_low_bits(s[i], s2[i], profile, w.bits());
        if i >= touched {
            assert(i * k >= touched * k) by (nonlinear_arith)
                requires
                    i >= touched,
                    k > 0,
            ;
            assert forall|t: int| 0 <= t < k implies #[trigger] sample_bit(s[i], (k - 1 - t) as u32) == sample_bit(
                s2[i],
                (k - 1 - t) as u32,
            ) by {
                let j = i * k + t;
                lemma_fundamental_div_mod_converse(j, k, i, t);
                assert(i < s.len());
                assert(j < s.len() * k) by (nonlinear_arith)
                    requires
                        j == i * k + t,
                        0 <= t < k,
                        0 <= i < s.len(),
                ;
                assert(carrier_bit(s2, profile, j) == carrier_bit(s, profile, j));
            }
            assert(k > 0 ==> sample_bit(s[i], 0) == sample_bit(s2[i], 0)) by {
                if k > 0 {
                    assert(sample_bit(s[i], (k - 1 - (k - 1)) as u32) == sample_bit(s2[i], (k - 1 - (k - 1)) as u32));
                }
            }
            assert(k > 1 ==> sample_bit(s[i], 1) == sample_bit(s2[i], 1)) by {
                if k > 1 {
                    assert(sample_bit(s[i], (k - 1 - (k - 2)) as u32) == sample_bit(s2[i], (k - 1 - (k - 2)) as u32));
                }
            }
            assert(k > 2 ==> sample_bit(s[i], 2) == sample_bit(s2[i], 2)) by {
                if k > 2 {
                    assert(sample_bit(s[i], (k - 1 - (k - 3)) as u32) == sample_bit(s2[i], (k - 1 - (k - 3)) as u32));
                }
            }
            assert(k > 3 ==> sample_bit(s[i], 3) == sample_bit(s2[i], 3)) by {
                if k > 3 {
                    assert(sample_bit(s[i], (k - 1 - (k - 4)) as u32) == sample_bit(s2[i], (k - 1 - (k - 4)) as u32));
                }
            }
            lemma_rebuild(s[i], s2[i], profile);
        }
        if q >= 1 {
            assert(sample_bytes(s[i] as int, w.bits())[q] == sample_bytes(s2[i] as int, w.bits())[q]);
        }
        assert(i * bps + bps <= touched * bps) by (nonlinear_arith)
            requires
                i < touched,
                bps >= 1,
        ;
    }
    assert(loaded_from(&w, carrier));
}

/// Finds the envelope header in decoded samples: the first profile, from 1
/// to 4 bits per sample, at which a well-formed header naming that same
/// profile can be read.
pub fn find_header(s: &[i32]) -> (r: Result<Header, Error>)
    ensures
        r matches Err(e) ==> e is Format,
        r is Err ==> forall|p: u32| 1 <= p <= 4 ==> #[trigger] no_header_at(s@, p),
        r matches Ok(h) ==> valid_bits(h.profile) && exists|hb: Seq<u8>|
            #[trigger] extracted(s@, hb, HEADER_LEN as int, h.profile) && header_ok(hb) && h.read_from(hb),
        r matches Ok(h) ==> forall|p: u32| 1 <= p < h.profile ==> #[trigger] no_header_at(s@, p),
{
    let mut profile: u32 = 1;
    while profile <= 4
        invariant
            1 <= profile <= 5,
            forall|p: u32| 1 <= p < profile ==> #[trigger] no_header_at(s@, p),
        decreases 5 - profile,
    {
        if capacity(s.len(), profile) >= HEADER_LEN {
            let hb = extract(s, profile, HEADER_LEN);
            match parse_header(&hb) {
                Ok(h) => {
                    if h.profile == profile {
                        assert(extracted(s@, hb@, HEADER_LEN as int, h.profile));
                        return Ok(h);
                    }
                },
                Err(_) => {},
            }
            proof {
                assert forall|other: Seq<u8>| #[trigger] extracted(s@, other, HEADER_LEN as int, profile) implies !(
                header_ok(other) && other[4] % 16 == profile) by {
                    crate::stego::lemma_prefix_from_bits(other, hb@, HEADER_LEN as int);
                    assert(other =~= hb@);
                }
                assert(no_header_at(s@, profile));
            }
        }
        profile = profile + 1;
    }
    Err(Error::Format)
}

/// Reads the cleartext header of the envelope hidden in a carrier file,
/// without any key.
pub fn inspect(carrier: &[u8]) -> (r: Result<Header, Error>)
    ensures
        !valid_wav(carrier@) ==> r == Err::<Header, Error>(Error::Format),
        r matches Err(e) ==> e is Format,
        valid_wav(carrier@) && r is Err ==> exists|w: WavFile, s: Seq<i32>|
            #[trigger] decoded(&w, s) && w.wf() && w.bytes@ == carrier@ && forall|p: u32|
                1 <= p <= 4 ==> #[trigger] no_header_at(s, p),
        r matches Ok(h) ==> valid_bits(h.profile) && exists|w: WavFile, s: Seq<i32>, hb: Seq<u8>|
            #[trigger] decoded(&w, s) && w.wf() && w.bytes@ == carrier@ && extracted(s, hb, HEADER_LEN as int, h.profile)
                && header_ok(hb) && #[trigger] h.read_from(hb) && forall|p: u32|
                1 <= p < h.profile ==> #[trigger] no_header_at(s, p),
{
    let (w, s) = load(carrier)?;
    let r = find_header(&s);
    assert(decoded(&w, s@));
    r
}

/// Extracts the whole envelope hidden in a carrier file: its header is
/// found as `find_header` does, then header, body and signature are read
/// at the profile it names. Fails with `Format` when there is no header or
/// the envelope it announces is longer than the carrier holds.
pub fn recover(carrier: &[u8]) -> (r: Result<Vec<u8>, Error>)
    ensures
        !valid_wav(carrier@) ==> r == Err::<Vec<u8>, Error>(Error::Format),
        r matches Err(e) ==> e is Format,
        valid_wav(carrier@) && r is Err ==> exists|w: WavFile, s: Seq<i32>|
            #[trigger] decoded(&w, s) && w.wf() && w.bytes@ == carrier@ && ((forall|p: u32|
                1 <= p <= 4 ==> #[trigger] no_header_at(s, p)) || exists|p: u32|
                valid_bits(p) && (forall|q: u32| 1 <= q < p ==> #[trigger] no_header_at(s, q))
                    && #[trigger] announced_too_long(s, p)),
        r matches Ok(e) ==> header_ok(e@) && e@.len() == HEADER_LEN + be32(e@, 6) + 64 && carried_by(
            carrier@,
            e@,
            (e@[4] % 16) as u32,
        ),
{
    let (w, s) = load(carrier)?;
    let h = match find_header(&s) {
        Ok(h) => h,
        Err(e) => {
            assert(decoded(&w, s@));
            return Err(e);
        },
    };
    let cap = capacity(s.len(), h.profile);
    let ghost hb0 = choose|hb: Seq<u8>|
        #[trigger] extracted(s@, hb, HEADER_LEN as int, h.profile) && header_ok(hb) && h.read_from(hb);
    let total = match h.envelope_len() {
        Some(n) => n,
        None => {
            assert(announced_too_long(s@, h.profile));
            assert(decoded(&w, s@));
            return Err(Error::Format);
        },
    };
    if total > cap {
        assert(announced_too_long(s@, h.profile));
        assert(decoded(&w, s@));
        return Err(Error::Format);
    }
    let e = extract(&s, h.profile, total);
    proof {
        let hb = choose|hb: Seq<u8>| #[trigger] extracted(s@, hb, HEADER_LEN as int, h.profile) && header_ok(hb) && h.read_from(hb);
        assert forall|j: int| 0 <= j < 8 * HEADER_LEN implies #[trigger] crate::stego::payload_bit(e@, j) == crate::stego::payload_bit(hb, j) by {
            assert(crate::stego::payload_bit(e@, j) == crate::stego::carrier_bit(s@, h.profile, j));
            assert(crate::stego::payload_bit(hb, j) == crate::stego::carrier_bit(s@, h.profile, j));
        }
        crate::stego::lemma_prefix_from_bits(e@, hb, HEADER_LEN as int);
        assert(e@.subrange(0, 4) =~= hb.subrange(0, 4));
        assert(decoded(&w, s@));
    }
    Ok(e)
}

} // verus!
