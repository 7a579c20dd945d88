//! The RIFF/WAVE carrier: parsing, sample access and byte-exact saving.
//!
//! A loaded file keeps the bytes it was read from. Samples are normalized to signed
//! integers of the file's width; saving writes them back over the `data`
//! chunk and leaves every other byte, unknown chunks included, as it was.

use vstd::prelude::*;
use vstd::arithmetic::div_mod::{
    lemma_div_denominator, lemma_small_mod, lemma_div_pos_is_pos, lemma_fundamental_div_mod,
    lemma_fundamental_div_mod_converse, lemma_mod_multiples_basic, lemma_mod_pos_bound,
};
use crate::bytes::copy_of;
use crate::error::Error;

verus! {

/// Little-endian unsigned value of `n` (at most 4) bytes at `off`.
pub open spec fn le_value(b: Seq<u8>, off: int, n: int) -> int {
    if n <= 0 {
        0
    } else if n == 1 {
        b[off] as int
    } else if n == 2 {
        b[off] + 256 * b[off + 1]
    } else if n == 3 {
        b[off] + 256 * b[off + 1] + 65536 * b[off + 2]
    } else {
        b[off] + 256 * b[off + 1] + 65536 * b[off + 2] + 16777216 * b[off + 3]
    }
}

/// Half the range of a signed sample of `bits` bits.
pub open spec fn half_range(bits: int) -> int {
    if bits == 8 {
        128
    } else if bits == 16 {
        32768
    } else if bits == 24 {
        8388608
    } else {
        2147483648
    }
}

/// Supported integer PCM widths.
pub open spec fn supported_bits(bits: int) -> bool {
    bits == 8 || bits == 16 || bits == 24 || bits == 32
}

/// A sample value that a `bits`-bit PCM sample can hold.
pub open spec fn in_range(v: int, bits: int) -> bool {
    -half_range(bits) <= v < half_range(bits)
}

/// The normalized value of the sample stored at `off`: 8-bit PCM is
/// unsigned with a bias of 128, wider PCM is two's complement.
pub open spec fn sample_value(b: Seq<u8>, off: int, bits: int) -> int {
    let u = le_value(b, off, bits / 8);
    if bits == 8 {
        u - 128
    } else if u >= half_range(bits) {
        u - 2 * half_range(bits)
    } else {
        u
    }
}

/// The stored (unsigned) form of a normalized sample.
pub open spec fn stored_value(v: int, bits: int) -> int {
    if bits == 8 {
        v + 128
    } else if v < 0 {
        v + 2 * half_range(bits)
    } else {
        v
    }
}

/// The `bits / 8` little-endian bytes that store sample `v`.
pub open spec fn sample_bytes(v: int, bits: int) -> Seq<u8> {
    let u = stored_value(v, bits);
    seq![
        (u % 256) as u8,
        ((u / 256) % 256) as u8,
        ((u / 65536) % 256) as u8,
        ((u / 16777216) % 256) as u8,
    ].subrange(0, bits / 8)
}

/// Offset of the first chunk at or after `pos` whose id is `id`, walking
/// the chunk list (8-byte header, body, one pad byte after an odd body).
pub open spec fn locate(b: Seq<u8>, pos: int, id: Seq<u8>) -> Option<int>
    decreases b.len() - pos,
{
    if pos < 0 || pos + 8 > b.len() {
        None
    } else if b.subrange(pos, pos + 4) == id {
        Some(pos)
    } else {
        let size = le_value(b, pos + 4, 4);
        let next = pos + 8 + size + size % 2;
        if next <= pos || next > b.len() {
            None
        } else {
            locate(b, next, id)
        }
    }
}

pub open spec fn riff_id() -> Seq<u8> {
    seq![0x52u8, 0x49, 0x46, 0x46]
}

pub open spec fn wave_id() -> Seq<u8> {
    seq![0x57u8, 0x41, 0x56, 0x45]
}

pub open spec fn fmt_id() -> Seq<u8> {
    seq![0x66u8, 0x6d, 0x74, 0x20]
}

pub open spec fn data_id() -> Seq<u8> {
    seq![0x64u8, 0x61, 0x74, 0x61]
}

/// How samples are encoded in a `fmt ` chunk.
#[derive(Debug, Clone, Copy, PartialEq, Eq, Structural)]
pub enum SampleEncoding {
    /// Format tag 1: integer PCM, the only embeddable encoding.
    IntegerPcm,
    /// Any other format tag (floating point, compressed, extensible).
    Other(u16),
}

/// The format descriptor of a carrier.
#[derive(Debug, Clone, Copy, PartialEq, Eq, Structural)]
pub struct AudioFormat {
    pub sample_rate: u32,
    pub bits_per_sample: u16,
    pub channels: u16,
    pub encoding: SampleEncoding,
}

/// The descriptor that the `fmt ` chunk at `f` holds.
pub open spec fn format_at(b: Seq<u8>, f: int) -> AudioFormat {
    AudioFormat {
        sample_rate: le_value(b, f + 12, 4) as u32,
        bits_per_sample: le_value(b, f + 22, 2) as u16,
        channels: le_value(b, f + 10, 2) as u16,
        encoding: if le_value(b, f + 8, 2) == 1 {
            SampleEncoding::IntegerPcm
        } else {
            SampleEncoding::Other(le_value(b, f + 8, 2) as u16)
        },
    }
}

/// `b` is a RIFF/WAVE file with an integer PCM `fmt ` chunk of a supported
/// width and a `data` chunk of whole frames, both inside the file.
pub open spec fn valid_wav(b: Seq<u8>) -> bool {
    &&& b.len() >= 12
    &&& b.subrange(0, 4) == riff_id()
    &&& b.subrange(8, 12) == wave_id()
    &&& locate(b, 12, fmt_id()) is Some
    &&& locate(b, 12, data_id()) is Some
    &&& {
        let f = locate(b, 12, fmt_id())->0;
        let d = locate(b, 12, data_id())->0;
        let fmt = format_at(b, f);
        let frame = fmt.channels * (fmt.bits_per_sample / 8);
        &&& le_value(b, f + 4, 4) >= 16
        &&& f + 8 + le_value(b, f + 4, 4) <= b.len()
        &&& fmt.encoding == SampleEncoding::IntegerPcm
        &&& supported_bits(fmt.bits_per_sample as int)
        &&& fmt.channels >= 1
        &&& le_value(b, f + 20, 2) == frame
        &&& d + 8 + le_value(b, d + 4, 4) <= b.len()
        &&& le_value(b, d + 4, 4) % frame == 0
    }
}

/// How many samples the `data` chunk of a valid carrier holds.
pub open spec fn carrier_sample_count(b: Seq<u8>) -> int {
    let f = locate(b, 12, fmt_id())->0;
    let d = locate(b, 12, data_id())->0;
    le_value(b, d + 4, 4) / (format_at(b, f).bits_per_sample / 8) as int
}

/// A loaded carrier: the bytes it was read from and where its samples lie.
pub struct WavFile {
    pub format: AudioFormat,
    /// The whole file as it was read.
    pub bytes: Vec<u8>,
    /// Offset of the first sample byte.
    pub data_start: usize,
    /// Length of the sample bytes.
    pub data_len: usize,
}

impl WavFile {
    pub open spec fn view_bytes(&self) -> Seq<u8> {
        self.bytes@
    }

    pub open spec fn spec_data_start(&self) -> int {
        self.data_start as int
    }

    pub open spec fn spec_sample_count(&self) -> int {
        self.data_len as int / (self.format.bits_per_sample / 8) as int
    }

    pub open spec fn bits(&self) -> int {
        self.format.bits_per_sample as int
    }

    /// The sample at index `i`, as stored in the file.
    pub open spec fn stored_sample(&self, i: int) -> int {
        sample_value(self.bytes@, self.data_start + i * (self.bits() / 8), self.bits())
    }

    pub open spec fn wf(&self) -> bool {
        &&& supported_bits(self.bits())
        &&& self.format.encoding == SampleEncoding::IntegerPcm
        &&& self.format.channels >= 1
        &&& self.data_start + self.data_len <= self.bytes@.len()
        &&& self.data_len as int % (self.bits() / 8) == 0
    }

    /// The number of samples (frames times channels).
    pub fn sample_count(&self) -> (r: usize)
        requires
            self.wf(),
        ensures
            r == self.spec_sample_count(),
    {
        self.data_len / (self.format.bits_per_sample as usize / 8)
    }
}

/// Reads `n` (1 to 4) little-endian bytes at `off`.
fn read_le(b: &[u8], off: usize, n: usize) -> (r: u32)
    requires
        1 <= n <= 4,
        off + n <= b@.len(),
    ensures
        r == le_value(b@, off as int, n as int),
{
    let mut v: u32 = b[off] as u32;
    if n >= 2 {
        v = v + 256 * (b[off + 1] as u32);
    }
    if n >= 3 {
        v = v + 65536 * (b[off + 2] as u32);
    }
    if n >= 4 {
        v = v + 16777216 * (b[off + 3] as u32);
    }
    v
}

fn same_id(b: &[u8], pos: usize, id: [u8; 4]) -> (r: bool)
    requires
        pos + 4 <= b@.len(),
    ensures
        r == (b@.subrange(pos as int, pos + 4) == id@),
{
    let r = b[pos] == id[0] && b[pos + 1] == id[1] && b[pos + 2] == id[2] && b[pos + 3] == id[3];
    proof {
        if r {
            assert(b@.subrange(pos as int, pos + 4) =~= id@);
        } else if b@.subrange(pos as int, pos + 4) == id@ {
            assert(b@.subrange(pos as int, pos + 4)[0] == id@[0]);
            assert(b@.subrange(pos as int, pos + 4)[1] == id@[1]);
            assert(b@.subrange(pos as int, pos + 4)[2] == id@[2]);
            assert(b@.subrange(pos as int, pos + 4)[3] == id@[3]);
        }
    }
    r
}

/// Offset of the first chunk with id `id` after the RIFF header.
fn find_chunk(b: &[u8], id: [u8; 4]) -> (r: Option<usize>)
    ensures
        r matches Some(p) ==> locate(b@, 12, id@) == Some(p as int) && p + 8 <= b@.len(),
        r is None ==> locate(b@, 12, id@) is None,
{
    let len = b.len();
    let mut pos: usize = 12;
    loop
        invariant
            len == b@.len(),
            locate(b@, 12, id@) == locate(b@, pos as int, id@),
        decreases len - pos,
    {
        if pos > len || len - pos < 8 {
            return None;
        }
        if same_id(b, pos, id) {
            return Some(pos);
        }
        let size = read_le(b, pos + 4, 4) as u128;
        let next: u128 = pos as u128 + 8 + size + size % 2;
        if next > len as u128 {
            assert(locate(b@, next as int, id@) is None);
            return None;
        }
        pos = next as usize;
    }
}

/// Parses a carrier. Fails with `Format` unless the bytes are a RIFF/WAVE
/// file with an integer PCM `fmt ` chunk of 8, 16, 24 or 32 bits and a
/// `data` chunk of whole frames.
pub fn load(b: &[u8]) -> (r: Result<(WavFile, Vec<i32>), Error>)
    ensures
        r is Ok <==> valid_wav(b@),
        r is Err ==> r == Err::<(WavFile, Vec<i32>), Error>(Error::Format),
        r matches Ok((w, s)) ==> {
            &&& w.wf()
            &&& w.view_bytes() == b@
            &&& w.format == format_at(b@, locate(b@, 12, fmt_id())->0)
            &&& w.spec_data_start() == locate(b@, 12, data_id())->0 + 8
            &&& w.data_len == le_value(b@, locate(b@, 12, data_id())->0 + 4, 4)
            &&& w.spec_sample_count() == carrier_sample_count(b@)
            &&& loaded_from(&w, b@)
            &&& decoded(&w, s@)
        },
{
    let len = b.len();
    if len < 12 || !same_id(b, 0, [0x52u8, 0x49, 0x46, 0x46]) || !same_id(b, 8, [0x57u8, 0x41, 0x56, 0x45]) {
        return Err(Error::Format);
    }
    let f = match find_chunk(b, [0x66u8, 0x6d, 0x74, 0x20]) {
        Some(f) => f,
        None => return Err(Error::Format),
    };
    let d = match find_chunk(b, [0x64u8, 0x61, 0x74, 0x61]) {
        Some(d) => d,
        None => return Err(Error::Format),
    };
    let fsize = read_le(b, f + 4, 4) as usize;
    if fsize < 16 || len - (f + 8) < fsize {
        return Err(Error::Format);
    }
    let tag = read_le(b, f + 8, 2);
    let channels = read_le(b, f + 10, 2) as u16;
    let sample_rate = read_le(b, f + 12, 4);
    let block_align = read_le(b, f + 20, 2);
    let bits = read_le(b, f + 22, 2) as u16;
    let format = AudioFormat {
        sample_rate,
        bits_per_sample: bits,
        channels,
        encoding: if tag == 1 { SampleEncoding::IntegerPcm } else { SampleEncoding::Other(tag as u16) },
    };
    assert(format == format_at(b@, f as int));
    if tag != 1 || !(bits == 8 || bits == 16 || bits == 24 || bits == 32) || channels < 1 {
        return Err(Error::Format);
    }
    let frame: u32 = (channels as u32) * (bits as u32 / 8);
    let dsize = read_le(b, d + 4, 4) as usize;
    if block_align != frame || len - (d + 8) < dsize || dsize as u32 % frame != 0 {
        return Err(Error::Format);
    }
    let w = WavFile { format, bytes: copy_of(b), data_start: d + 8, data_len: dsize };
    proof {
        let bps = (bits / 8) as int;
        let ch = channels as int;
        let ds = dsize as int;
        let q = ds / (ch * bps);
        lemma_fundamental_div_mod(ds, ch * bps);
        assert(ds == (q * ch) * bps) by (nonlinear_arith)
            requires
                ds == (ch * bps) * q + ds % (ch * bps),
                ds % (ch * bps) == 0,
        ;
        lemma_mod_multiples_basic(q * ch, bps);
    }
    let s = read_samples(&w);
    Ok((w, s))
}

/// `s` holds every sample of `w`, in file order.
pub open spec fn decoded(w: &WavFile, s: Seq<i32>) -> bool {
    &&& s.len() == w.spec_sample_count()
    &&& forall|i: int| 0 <= i < s.len() ==> #[trigger] s[i] as int == w.stored_sample(i)
}

/// Every sample of `s` fits the width of `w`.
pub open spec fn samples_fit(w: &WavFile, s: Seq<i32>) -> bool {
    forall|i: int| 0 <= i < s.len() ==> in_range(#[trigger] s[i] as int, w.bits())
}

fn read_sample(b: &[u8], off: usize, bits: u16) -> (r: i32)
    requires
        supported_bits(bits as int),
        off + bits / 8 <= b@.len(),
    ensures
        r == sample_value(b@, off as int, bits as int),
        in_range(r as int, bits as int),
{
    let u = read_le(b, off, bits as usize / 8) as i64;
    if bits == 8 {
        (u - 128) as i32
    } else if bits == 16 {
        if u >= 32768 { (u - 65536) as i32 } else { u as i32 }
    } else if bits == 24 {
        if u >= 8388608 { (u - 16777216) as i32 } else { u as i32 }
    } else {
        if u >= 2147483648 { (u - 4294967296) as i32 } else { u as i32 }
    }
}

fn read_samples(w: &WavFile) -> (s: Vec<i32>)
    requires
        w.wf(),
    ensures
        decoded(w, s@),
        samples_fit(w, s@),
{
    let bps = w.format.bits_per_sample as usize / 8;
    let count = w.data_len / bps;
    let total = w.bytes.len();
    let mut s: Vec<i32> = Vec::new();
    let mut i: usize = 0;
    let mut off: usize = w.data_start;
    proof {
        assert(count * bps == w.data_len) by (nonlinear_arith)
            requires
                count == w.data_len / bps,
                w.data_len % bps == 0,
                bps >= 1,
        ;
    }
    while i < count
        invariant
            w.wf(),
            bps == w.bits() / 8,
            count == w.spec_sample_count(),
            count * bps == w.data_len,
            total == w.bytes@.len(),
            i <= count,
            off == w.data_start + i * bps,
            s@.len() == i,
            forall|k: int| 0 <= k < i ==> #[trigger] s@[k] as int == w.stored_sample(k),
            samples_fit(w, s@),
        decreases count - i,
    {
        proof {
            assert((i + 1) * bps <= count * bps) by (nonlinear_arith)
                requires
                    i < count,
            ;
            assert((i + 1) * bps == i * bps + bps) by (nonlinear_arith);
        }
        let v = read_sample(&w.bytes, off, w.format.bits_per_sample);
        s.push(v);
        off = off + bps;
        i = i + 1;
        proof {
            assert(i * bps == (i - 1) * bps + bps) by (nonlinear_arith);
        }
    }
    s
}

/// `r` is `w`'s file with the sample bytes replaced by the stored form of
/// `s` and every other byte as it was.
pub open spec fn saved(w: &WavFile, s: Seq<i32>, r: Seq<u8>) -> bool {
    let start = w.data_start as int;
    let bps = w.bits() / 8;
    &&& r.len() == w.bytes@.len()
    &&& forall|p: int|
        0 <= p < r.len() && !(start <= p < start + w.data_len) ==> #[trigger] r[p] == w.bytes@[p]
    &&& forall|p: int|
        start <= p < start + w.data_len ==> #[trigger] r[p] == sample_bytes(
            s[(p - start) / bps] as int,
            w.bits(),
        )[(p - start) % bps]
}

pub proof fn lemma_sample_bytes_inverse(b: Seq<u8>, off: int, bits: int)
    requires
        supported_bits(bits),
        0 <= off,
        off + bits / 8 <= b.len(),
    ensures
        sample_bytes(sample_value(b, off, bits), bits) =~= b.subrange(off, off + bits / 8),
{
    let u = le_value(b, off, bits / 8);
    assert(stored_value(sample_value(b, off, bits), bits) == u);
    let b0 = b[off] as int;
    if bits == 8 {
        lemma_fundamental_div_mod_converse(u, 256, 0, b0);
    } else if bits == 16 {
        let b1 = b[off + 1] as int;
        lemma_fundamental_div_mod_converse(u, 256, b1, b0);
        lemma_fundamental_div_mod_converse(b1, 256, 0, b1);
    } else if bits == 24 {
        let b1 = b[off + 1] as int;
        let b2 = b[off + 2] as int;
        lemma_fundamental_div_mod_converse(u, 256, b1 + 256 * b2, b0);
        lemma_fundamental_div_mod_converse(b1 + 256 * b2, 256, b2, b1);
        lemma_fundamental_div_mod_converse(u, 65536, b2, b0 + 256 * b1);
        lemma_fundamental_div_mod_converse(b2, 256, 0, b2);
    } else {
        let b1 = b[off + 1] as int;
        let b2 = b[off + 2] as int;
        let b3 = b[off + 3] as int;
        lemma_fundamental_div_mod_converse(u, 256, b1 + 256 * b2 + 65536 * b3, b0);
        lemma_fundamental_div_mod_converse(b1 + 256 * b2 + 65536 * b3, 256, b2 + 256 * b3, b1);
        lemma_fundamental_div_mod_converse(u, 65536, b2 + 256 * b3, b0 + 256 * b1);
        lemma_fundamental_div_mod_converse(b2 + 256 * b3, 256, b3, b2);
        lemma_fundamental_div_mod_converse(u, 16777216, b3, b0 + 256 * b1 + 65536 * b2);
        lemma_fundamental_div_mod_converse(b3, 256, 0, b3);
    }
}

proof fn lemma_stored_fits(v: int, bits: int)
    requires
        supported_bits(bits),
        in_range(v, bits),
    ensures
        0 <= stored_value(v, bits) < 2 * half_range(bits),
{
}

/// Writes the stored form of sample `v` at `off`.
fn write_sample(out: &mut Vec<u8>, off: usize, v: i32, bits: u16)
    requires
        supported_bits(bits as int),
        in_range(v as int, bits as int),
        off + bits / 8 <= old(out)@.len(),
    ensures
        final(out)@.len() == old(out)@.len(),
        forall|p: int|
            0 <= p < old(out)@.len() && !(off <= p < off + bits / 8) ==> #[trigger] final(out)@[p] == old(out)@[p],
        forall|q: int| 0 <= q < bits / 8 ==> #[trigger] final(out)@[off + q] == sample_bytes(v as int, bits as int)[q],
{
    proof {
        lemma_stored_fits(v as int, bits as int);
    }
    let u: u32 = if bits == 8 {
        (v as i64 + 128) as u32
    } else if v < 0 {
        (v as i64 + 2 * (if bits == 16 { 32768i64 } else if bits == 24 { 8388608i64 } else { 2147483648i64 })) as u32
    } else {
        v as u32
    };
    assert(u == stored_value(v as int, bits as int));
    let total = out.len();
    out.set(off, (u % 256) as u8);
    if bits >= 16 {
        out.set(off + 1, ((u / 256) % 256) as u8);
    }
    if bits >= 24 {
        out.set(off + 2, ((u / 65536) % 256) as u8);
    }
    if bits >= 32 {
        out.set(off + 3, ((u / 16777216) % 256) as u8);
    }
}

impl WavFile {
    /// The carrier file with `samples` written over its sample bytes; every
    /// byte outside the `data` chunk's body is kept as loaded.
    pub fn save(&self, samples: &[i32]) -> (r: Vec<u8>)
        requires
            self.wf(),
            samples@.len() == self.spec_sample_count(),
            samples_fit(self, samples@),
        ensures
            saved(self, samples@, r@),
    {
        let bps = self.format.bits_per_sample as usize / 8;
        let count = self.data_len / bps;
        let start = self.data_start;
        let mut out = copy_of(&self.bytes);
        let ghost b = self.bytes@;
        let ghost bi = bps as int;
        proof {
            assert(count * bps == self.data_len) by (nonlinear_arith)
                requires
                    count == self.data_len / bps,
                    self.data_len % bps == 0,
                    bps >= 1,
            ;
        }
        let mut i: usize = 0;
        let mut off: usize = start;
        let total = out.len();
        while i < count
            invariant
                self.wf(),
                total == b.len(),
                bps == self.bits() / 8,
                bi == bps,
                b == self.bytes@,
                start == self.data_start,
                count == self.spec_sample_count(),
                count * bps == self.data_len,
                samples@.len() == count,
                samples_fit(self, samples@),
                i <= count,
                off == start + i * bps,
                out@.len() == b.len(),
                forall|p: int| 0 <= p < b.len() && !(start <= p < off) ==> #[trigger] out@[p] == b[p],
                forall|p: int|
                    start <= p < off ==> #[trigger] out@[p] == sample_bytes(
                        samples@[(p - start) / bi] as int,
                        self.bits(),
                    )[(p - start) % bi],
            decreases count - i,
        {
            proof {
                assert((i + 1) * bps <= count * bps) by (nonlinear_arith)
                    requires
                        i < count,
                ;
                assert((i + 1) * bps == i * bps + bps) by (nonlinear_arith);
            }
            let ghost prev = out@;
            write_sample(&mut out, off, samples[i], self.format.bits_per_sample);
            proof {
                assert forall|p: int| start <= p < off + bps implies #[trigger] out@[p] == sample_bytes(
                    samples@[(p - start) / bi] as int,
                    self.bits(),
                )[(p - start) % bi] by {
                    if p >= off {
                        lemma_fundamental_div_mod_converse(p - start, bi, i as int, p - off);
                        assert(out@[off + (p - off)] == sample_bytes(samples@[i as int] as int, self.bits())[p - off]);
                    } else {
                        assert(out@[p] == prev[p]);
                    }
                }
            }
            off = off + bps;
            i = i + 1;
        }
        out
    }
}

/// Carrier fidelity: saving the samples exactly as loaded gives back the
/// file as it was read, byte for byte.
pub proof fn lemma_save_of_load(w: &WavFile, s: Seq<i32>, r: Seq<u8>)
    requires
        w.wf(),
        decoded(w, s),
        saved(w, s, r),
    ensures
        r == w.bytes@,
{
    let start = w.data_start as int;
    let bps = w.bits() / 8;
    assert forall|p: int| 0 <= p < r.len() implies r[p] == w.bytes@[p] by {
        if start <= p < start + w.data_len {
            let i = (p - start) / bps;
            let q = (p - start) % bps;
            lemma_fundamental_div_mod(p - start, bps);
            lemma_mod_pos_bound(p - start, bps);
            lemma_div_pos_is_pos(p - start, bps);
            let off = start + i * bps;
            assert(off == start + bps * i);
            let m = w.data_len as int / bps;
            lemma_fundamental_div_mod(w.data_len as int, bps);
            assert(i < m && off + bps <= start + w.data_len) by (nonlinear_arith)
                requires
                    i * bps + q == p - start,
                    p - start < w.data_len,
                    w.data_len == bps * m,
                    off == start + i * bps,
                    0 <= q < bps,
                    i >= 0,
            ;
            lemma_sample_bytes_inverse(w.bytes@, off, w.bits());
            assert(sample_bytes(s[i] as int, w.bits())[q] == w.bytes@.subrange(off, off + bps)[q]);
            assert(s[i] as int == w.stored_sample(i));
        }
    }
    assert(r =~= w.bytes@);
}

/// A sample whose bits above the low `k` (at most 4) are those of a
/// sample that fits the width still fits it.
pub proof fn lemma_high_bits_keep_range(a: i32, b: i32, k: u32, bits: int)
    requires
        1 <= k <= 4,
        a >> k == b >> k,
        supported_bits(bits),
        in_range(a as int, bits),
    ensures
        in_range(b as int, bits),
{
    lemma_shift_range(a, b, k);
}

/// Every stored sample fits the file's width.
pub proof fn lemma_stored_sample_fits(w: &WavFile, i: int)
    requires
        w.wf(),
    ensures
        in_range(w.stored_sample(i), w.bits()),
{
}

proof fn lemma_shift_range(a: i32, b: i32, k: u32)
    by (bit_vector)
    requires
        1 <= k <= 4,
        a >> k == b >> k,
    ensures
        -128 <= a && a < 128 ==> -128 <= b && b < 128,
        -32768 <= a && a < 32768 ==> -32768 <= b && b < 32768,
        -8388608 <= a && a < 8388608 ==> -8388608 <= b && b < 8388608,
{
}

proof fn lemma_sample_value_inverse(v: int, bits: int)
    requires
        supported_bits(bits),
        in_range(v, bits),
    ensures
        sample_value(sample_bytes(v, bits), 0, bits) == v,
{
    let u = stored_value(v, bits);
    lemma_stored_fits(v, bits);
    let b = sample_bytes(v, bits);
    lemma_fundamental_div_mod(u, 256);
    lemma_mod_pos_bound(u, 256);
    lemma_div_pos_is_pos(u, 256);
    if bits == 8 {
        lemma_small_mod(u as nat, 256);
        assert(le_value(b, 0, 1) == u);
    } else if bits == 16 {
        lemma_div_is_ordered_by_denominator_bound(u, 65536);
        lemma_small_mod((u / 256) as nat, 256);
        assert(le_value(b, 0, 2) == u);
    } else if bits == 24 {
        let u1 = u / 256;
        lemma_fundamental_div_mod(u1, 256);
        lemma_mod_pos_bound(u1, 256);
        lemma_div_pos_is_pos(u1, 256);
        lemma_div_denominator(u, 256, 256);
        lemma_div_is_ordered_by_denominator_bound(u, 16777216);
        lemma_small_mod((u / 65536) as nat, 256);
        assert(le_value(b, 0, 3) == u);
    } else {
        let u1 = u / 256;
        let u2 = u / 65536;
        lemma_fundamental_div_mod(u1, 256);
        lemma_mod_pos_bound(u1, 256);
        lemma_div_pos_is_pos(u1, 256);
        lemma_div_denominator(u, 256, 256);
        lemma_fundamental_div_mod(u2, 256);
        lemma_mod_pos_bound(u2, 256);
        lemma_div_pos_is_pos(u2, 256);
        lemma_div_denominator(u, 65536, 256);
        lemma_div_is_ordered_by_denominator_bound(u, 4294967296);
        lemma_small_mod((u / 16777216) as nat, 256);
        assert(le_value(b, 0, 4) == u);
    }
}

proof fn lemma_div_is_ordered_by_denominator_bound(u: int, m: int)
    requires
        0 <= u < m,
        m == 65536 || m == 16777216 || m == 4294967296,
    ensures
        m == 65536 ==> u / 256 < 256,
        m == 16777216 ==> u / 65536 < 256,
        m == 4294967296 ==> u / 16777216 < 256,
{
    if m == 65536 {
        lemma_div_strict_upper(u, 256, 256);
    } else if m == 16777216 {
        lemma_div_strict_upper(u, 65536, 256);
    } else {
        lemma_div_strict_upper(u, 16777216, 256);
    }
}

proof fn lemma_div_strict_upper(u: int, d: int, q: int)
    requires
        d > 0,
        q > 0,
        0 <= u < d * q,
    ensures
        u / d < q,
{
    lemma_fundamental_div_mod(u, d);
    lemma_mod_pos_bound(u, d);
    assert(u / d < q) by (nonlinear_arith)
        requires
            u == d * (u / d) + u % d,
            0 <= u % d,
            u < d * q,
            d > 0,
    ;
}

/// Lossless re-quantization: in the bytes that `save` writes, every sample
/// position of the `data` chunk decodes back to exactly the sample that
/// was written there.
pub proof fn lemma_saved_samples_read_back(w: &WavFile, s: Seq<i32>, r: Seq<u8>, i: int)
    requires
        w.wf(),
        s.len() == w.spec_sample_count(),
        samples_fit(w, s),
        saved(w, s, r),
        0 <= i < s.len(),
    ensures
        sample_value(r, w.data_start + i * (w.bits() / 8), w.bits()) == s[i] as int,
{
    let bps = w.bits() / 8;
    let start = w.data_start as int;
    let off = start + i * bps;
    let m = w.data_len as int / bps;
    lemma_fundamental_div_mod(w.data_len as int, bps);
    assert(off + bps <= start + w.data_len) by (nonlinear_arith)
        requires
            off == start + i * bps,
            w.data_len == bps * m + 0,
            0 <= i < m,
            bps >= 1,
    ;
    let b = sample_bytes(s[i] as int, w.bits());
    lemma_sample_value_inverse(s[i] as int, w.bits());
    lemma_fundamental_div_mod_converse(off - start, bps, i, 0);
    assert(r[off] == b[0]);
    if bps >= 2 {
        lemma_fundamental_div_mod_converse(off + 1 - start, bps, i, 1);
        assert(r[off + 1] == b[1]);
    }
    if bps >= 3 {
        lemma_fundamental_div_mod_converse(off + 2 - start, bps, i, 2);
        assert(r[off + 2] == b[2]);
    }
    if bps >= 4 {
        lemma_fundamental_div_mod_converse(off + 3 - start, bps, i, 3);
        assert(r[off + 3] == b[3]);
    }
}

proof fn lemma_locate_bounds(b: Seq<u8>, pos: int, id: Seq<u8>)
    requires
        locate(b, pos, id) is Some,
    ensures
        pos <= locate(b, pos, id)->0,
        locate(b, pos, id)->0 + 8 <= b.len(),
        b.subrange(locate(b, pos, id)->0, locate(b, pos, id)->0 + 4) == id,
    decreases b.len() - pos,
{
    if pos >= 0 && pos + 8 <= b.len() && b.subrange(pos, pos + 4) != id {
        let size = le_value(b, pos + 4, 4);
        lemma_locate_bounds(b, pos + 8 + size + size % 2, id);
    }
}

/// Two byte strings of one length that agree from `lo` on.
pub open spec fn agree_from(b: Seq<u8>, b2: Seq<u8>, lo: int) -> bool {
    b.len() == b2.len() && forall|p: int| lo <= p < b.len() ==> #[trigger] b[p] == b2[p]
}

/// Two byte strings of one length that agree outside `[lo, hi)`.
pub open spec fn agree_outside(b: Seq<u8>, b2: Seq<u8>, lo: int, hi: int) -> bool {
    b.len() == b2.len() && forall|p: int| 0 <= p < b.len() && !(lo <= p < hi) ==> #[trigger] b[p] == b2[p]
}

proof fn lemma_locate_tail(b: Seq<u8>, b2: Seq<u8>, lo: int, pos: int, id: Seq<u8>)
    requires
        agree_from(b, b2, lo),
        pos >= lo,
    ensures
        locate(b, pos, id) == locate(b2, pos, id),
        locate(b, pos, id) matches Some(x) ==> x >= lo,
    decreases b.len() - pos,
{
    if pos >= 0 && pos + 8 <= b.len() {
        assert(b.subrange(pos, pos + 4) =~= b2.subrange(pos, pos + 4));
        assert(b[pos + 4] == b2[pos + 4] && b[pos + 5] == b2[pos + 5] && b[pos + 6] == b2[pos + 6] && b[pos + 7]
            == b2[pos + 7]);
        if b.subrange(pos, pos + 4) != id {
            let size = le_value(b, pos + 4, 4);
            let next = pos + 8 + size + size % 2;
            if next > pos && next <= b.len() {
                lemma_locate_tail(b, b2, lo, next, id);
            }
        }
    }
}

/// Walking the chunk list reads no byte of the data chunk's body, so two
/// files that differ only there have the same chunks, and every other chunk
/// found lies wholly before or after that body.
proof fn lemma_locate_skips_data(b: Seq<u8>, b2: Seq<u8>, d: int, pos: int, id: Seq<u8>)
    requires
        locate(b, pos, data_id()) == Some(d),
        agree_outside(b, b2, d + 8, d + 8 + le_value(b, d + 4, 4)),
        d + 8 + le_value(b, d + 4, 4) <= b.len(),
        0 <= pos,
    ensures
        locate(b, pos, id) == locate(b2, pos, id),
        locate(b, pos, id) matches Some(x) ==> x == d || x + 8 + le_value(b, x + 4, 4) <= d || x >= d + 8
            + le_value(b, d + 4, 4),
    decreases b.len() - pos,
{
    let hi = d + 8 + le_value(b, d + 4, 4);
    lemma_locate_bounds(b, pos, data_id());
    if pos + 8 <= b.len() {
        let size = le_value(b, pos + 4, 4);
        let next = pos + 8 + size + size % 2;
        if pos < d {
            assert(b.subrange(pos, pos + 4) != data_id());
            assert(next > pos && next <= b.len());
            lemma_locate_bounds(b, next, data_id());
        }
        assert(b.subrange(pos, pos + 4) =~= b2.subrange(pos, pos + 4));
        assert(b[pos + 4] == b2[pos + 4] && b[pos + 5] == b2[pos + 5] && b[pos + 6] == b2[pos + 6] && b[pos + 7]
            == b2[pos + 7]);
        if b.subrange(pos, pos + 4) != id {
            if next > pos && next <= b.len() {
                if pos < d {
                    lemma_locate_skips_data(b, b2, d, next, id);
                } else {
                    assert(agree_from(b, b2, hi));
                    lemma_locate_tail(b, b2, hi, next, id);
                }
            }
        }
    }
}

/// `w` is what `load` makes of the valid carrier `b`.
pub open spec fn loaded_from(w: &WavFile, b: Seq<u8>) -> bool {
    let f = locate(b, 12, fmt_id())->0;
    let d = locate(b, 12, data_id())->0;
    &&& valid_wav(b)
    &&& w.bytes@ == b
    &&& w.format == format_at(b, f)
    &&& w.data_start == d + 8
    &&& w.data_len == le_value(b, d + 4, 4)
}

/// Round trip through a file: the bytes that `save` writes are a valid
/// carrier with the same format and `data` chunk, and its samples are
/// exactly the ones that were saved.
pub proof fn lemma_load_of_save(w: &WavFile, s: Seq<i32>, r: Seq<u8>)
    requires
        w.wf(),
        loaded_from(w, w.bytes@),
        s.len() == w.spec_sample_count(),
        samples_fit(w, s),
        saved(w, s, r),
    ensures
        valid_wav(r),
        locate(r, 12, fmt_id()) == locate(w.bytes@, 12, fmt_id()),
        locate(r, 12, data_id()) == locate(w.bytes@, 12, data_id()),
        format_at(r, locate(r, 12, fmt_id())->0) == w.format,
        le_value(r, locate(r, 12, data_id())->0 + 4, 4) == w.data_len,
        carrier_sample_count(r) == s.len(),
        forall|i: int| 0 <= i < s.len() ==> #[trigger] sample_value(r, w.data_start + i * (w.bits() / 8), w.bits()) == s[i] as int,
{
    let b = w.bytes@;
    let f = locate(b, 12, fmt_id())->0;
    let d = locate(b, 12, data_id())->0;
    let hi = d + 8 + le_value(b, d + 4, 4);
    assert(agree_outside(b, r, d + 8, hi));
    lemma_locate_bounds(b, 12, data_id());
    lemma_locate_bounds(b, 12, fmt_id());
    lemma_locate_skips_data(b, r, d, 12, fmt_id());
    lemma_locate_skips_data(b, r, d, 12, data_id());
    assert(fmt_id()[0] != data_id()[0]);
    assert(b.subrange(f, f + 4)[0] == fmt_id()[0]);
    assert(b.subrange(d, d + 4)[0] == data_id()[0]);
    assert(f != d);
    assert(f + 8 + le_value(b, f + 4, 4) <= d || f >= hi);
    assert forall|p: int| f <= p < f + 24 implies r[p] == b[p] by {
        assert(!(d + 8 <= p < hi));
    }
    assert forall|p: int| 0 <= p < 12 implies r[p] == b[p] by {}
    assert forall|p: int| d <= p < d + 8 implies r[p] == b[p] by {}
    assert(r.subrange(0, 4) =~= b.subrange(0, 4));
    assert(r.subrange(8, 12) =~= b.subrange(8, 12));
    assert(format_at(r, f) == format_at(b, f));
    assert(le_value(r, f + 4, 4) == le_value(b, f + 4, 4));
    assert(le_value(r, f + 20, 2) == le_value(b, f + 20, 2));
    assert(le_value(r, d + 4, 4) == le_value(b, d + 4, 4));
    assert forall|i: int| 0 <= i < s.len() implies #[trigger] sample_value(r, w.data_start + i * (w.bits() / 8), w.bits()) == s[i] as int by {
        lemma_saved_samples_read_back(w, s, r, i);
    }
}

proof fn lemma_split_low_nibble(v1: i32, v2: i32, k: u32)
    by (bit_vector)
    requires
        1 <= k <= 4,
        v1 >> k == v2 >> k,
    ensures
        v1 >> 4u32 == v2 >> 4u32,
        ((v1 & 15i32) as u8) >> (k as u8) == ((v2 & 15i32) as u8) >> (k as u8),
        v1 as int == (v1 >> 4u32) as int * 16 + (v1 & 15i32) as int,
        v2 as int == (v2 >> 4u32) as int * 16 + (v2 & 15i32) as int,
        0 <= (v1 & 15i32) < 16,
        0 <= (v2 & 15i32) < 16,
{
}

proof fn lemma_low_nibble_byte(m: u8, l1: u8, l2: u8, k: u8)
    by (bit_vector)
    requires
        1 <= k <= 4,
        m < 16,
        l1 < 16,
        l2 < 16,
        l1 >> k == l2 >> k,
    ensures
        ((16 * m + l1) as u8) >> k == ((16 * m + l2) as u8) >> k,
{
}

proof fn lemma_stored_split(u: int, hh: int, l: int)
    requires
        u == 16 * hh + l,
        0 <= l < 16,
        u >= 0,
    ensures
        hh >= 0,
        u / 256 == hh / 16,
        u % 256 == 16 * (hh % 16) + l,
        0 <= hh % 16 < 16,
{
    lemma_fundamental_div_mod(hh, 16);
    lemma_mod_pos_bound(hh, 16);
    lemma_fundamental_div_mod_converse(u, 256, hh / 16, 16 * (hh % 16) + l);
}

/// Two samples of one width that agree above their low `k` bits are
/// stored in bytes that agree but for the low `k` bits of the first byte.
pub proof fn lemma_stored_bytes_low_bits(v1: i32, v2: i32, k: u32, bits: int)
    requires
        1 <= k <= 4,
        supported_bits(bits),
        in_range(v1 as int, bits),
        in_range(v2 as int, bits),
        v1 >> k == v2 >> k,
    ensures
        forall|q: int| 1 <= q < bits / 8 ==> #[trigger] sample_bytes(v1 as int, bits)[q] == sample_bytes(v2 as int, bits)[q],
        sample_bytes(v1 as int, bits)[0] >> (k as u8) == sample_bytes(v2 as int, bits)[0] >> (k as u8),
{
    lemma_split_low_nibble(v1, v2, k);
    let h = (v1 >> 4u32) as int;
    let l1 = (v1 & 15i32) as int;
    let l2 = (v2 & 15i32) as int;
    let c = if bits == 8 { 128 } else if h < 0 { 2 * half_range(bits) } else { 0 };
    assert(stored_value(v1 as int, bits) == 16 * (h + c / 16) + l1);
    assert(stored_value(v2 as int, bits) == 16 * (h + c / 16) + l2);
    let u1 = stored_value(v1 as int, bits);
    let u2 = stored_value(v2 as int, bits);
    lemma_stored_fits(v1 as int, bits);
    lemma_stored_fits(v2 as int, bits);
    let hh = h + c / 16;
    lemma_stored_split(u1, hh, l1);
    lemma_stored_split(u2, hh, l2);
    lemma_div_denominator(u1, 256, 256);
    lemma_div_denominator(u2, 256, 256);
    lemma_div_denominator(u1, 65536, 256);
    lemma_div_denominator(u2, 65536, 256);
    let m = (hh % 16) as u8;
    lemma_low_nibble_byte(m, l1 as u8, l2 as u8, k as u8);
    assert((u1 % 256) as u8 == (16 * m + l1 as u8) as u8);
    assert((u2 % 256) as u8 == (16 * m + l2 as u8) as u8);
}

} // verus!
