use zimhide::wav::{load, AudioFormat, SampleEncoding};
use zimhide::Error;

fn wav_bytes(tag: u16, channels: u16, bits: u16, data: &[u8], extra: bool) -> Vec<u8> {
    let mut body = Vec::new();
    body.extend_from_slice(b"WAVE");
    body.extend_from_slice(b"fmt ");
    body.extend_from_slice(&16u32.to_le_bytes());
    body.extend_from_slice(&tag.to_le_bytes());
    body.extend_from_slice(&channels.to_le_bytes());
    body.extend_from_slice(&44_100u32.to_le_bytes());
    let align = channels * (bits / 8);
    body.extend_from_slice(&(44_100u32 * align as u32).to_le_bytes());
    body.extend_from_slice(&align.to_le_bytes());
    body.extend_from_slice(&bits.to_le_bytes());
    if extra {
        body.extend_from_slice(b"LIST");
        body.extend_from_slice(&3u32.to_le_bytes());
        body.extend_from_slice(&[1, 2, 3, 0]);
    }
    body.extend_from_slice(b"data");
    body.extend_from_slice(&(data.len() as u32).to_le_bytes());
    body.extend_from_slice(data);
    let mut out = Vec::new();
    out.extend_from_slice(b"RIFF");
    out.extend_from_slice(&(body.len() as u32).to_le_bytes());
    out.extend_from_slice(&body);
    out
}

#[test]
fn loads_16_bit_samples() {
    let data = [0x01, 0x00, 0xFF, 0xFF, 0x00, 0x80, 0xFF, 0x7F];
    let f = wav_bytes(1, 2, 16, &data, true);
    let (w, s) = load(&f).unwrap();
    assert_eq!(s, vec![1, -1, -32768, 32767]);
    assert_eq!(
        w.format,
        AudioFormat { sample_rate: 44_100, bits_per_sample: 16, channels: 2, encoding: SampleEncoding::IntegerPcm }
    );
    assert_eq!(w.sample_count(), 4);
}

#[test]
fn loads_8_24_and_32_bit_samples() {
    let (_, s) = load(&wav_bytes(1, 1, 8, &[0, 128, 255], false)).unwrap();
    assert_eq!(s, vec![-128, 0, 127]);
    let (_, s) = load(&wav_bytes(1, 1, 24, &[0xFF, 0xFF, 0xFF, 0x00, 0x00, 0x80], false)).unwrap();
    assert_eq!(s, vec![-1, -8_388_608]);
    let (_, s) = load(&wav_bytes(1, 1, 32, &[0x00, 0x00, 0x00, 0x80, 0x05, 0x00, 0x00, 0x00], false)).unwrap();
    assert_eq!(s, vec![i32::MIN, 5]);
}

#[test]
fn save_of_load_is_identical() {
    for bits in [8u16, 16, 24, 32] {
        let data: Vec<u8> = (0..(bits as usize / 8) * 6).map(|i| (i * 53 + 7) as u8).collect();
        let f = wav_bytes(1, 2, bits, &data, true);
        let (w, s) = load(&f).unwrap();
        assert_eq!(w.save(&s), f);
    }
}

#[test]
fn save_changes_only_sample_bytes() {
    let f = wav_bytes(1, 1, 16, &[0, 0, 0, 0], true);
    let (w, mut s) = load(&f).unwrap();
    s[1] = -2;
    let out = w.save(&s);
    assert_eq!(out.len(), f.len());
    assert_eq!(&out[..f.len() - 2], &f[..f.len() - 2]);
    assert_eq!(&out[f.len() - 2..], &[0xFE, 0xFF]);
}

#[test]
fn rejects_float_and_malformed_carriers() {
    assert!(matches!(load(&wav_bytes(3, 1, 32, &[0, 0, 0, 0], false)), Err(Error::Format)));
    assert!(matches!(load(&wav_bytes(1, 1, 12, &[0, 0], false)), Err(Error::Format)));
    assert!(matches!(load(b"RIFF\x04\x00\x00\x00WAVX"), Err(Error::Format)));
    assert!(matches!(load(&[]), Err(Error::Format)));
    // a data chunk of a partial frame
    assert!(matches!(load(&wav_bytes(1, 2, 16, &[0, 0, 0], false)), Err(Error::Format)));
    // truncated data chunk
    let mut f = wav_bytes(1, 1, 16, &[0, 0, 0, 0], false);
    f.truncate(f.len() - 1);
    assert!(matches!(load(&f), Err(Error::Format)));
}
