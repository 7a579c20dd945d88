use zimhide::carrier::{conceal, inspect, recover};
use zimhide::crypto::{fingerprint, generate_keypair};
use zimhide::envelope::{build_envelope, open_envelope, PayloadType};
use zimhide::wav::load;
use zimhide::Error;

fn mono16(samples: usize) -> Vec<u8> {
    let data: Vec<u8> = (0..samples).flat_map(|i| (((i * 7919) % 65_536) as u16).to_le_bytes()).collect();
    let mut body = Vec::new();
    body.extend_from_slice(b"WAVEfmt ");
    body.extend_from_slice(&16u32.to_le_bytes());
    body.extend_from_slice(&1u16.to_le_bytes());
    body.extend_from_slice(&1u16.to_le_bytes());
    body.extend_from_slice(&44_100u32.to_le_bytes());
    body.extend_from_slice(&88_200u32.to_le_bytes());
    body.extend_from_slice(&2u16.to_le_bytes());
    body.extend_from_slice(&16u16.to_le_bytes());
    body.extend_from_slice(b"data");
    body.extend_from_slice(&(data.len() as u32).to_le_bytes());
    body.extend_from_slice(&data);
    let mut out = b"RIFF".to_vec();
    out.extend_from_slice(&(body.len() as u32).to_le_bytes());
    out.extend_from_slice(&body);
    out
}

#[test]
fn hello_world_in_ten_seconds_of_audio() {
    let a = generate_keypair().unwrap();
    let b = generate_keypair().unwrap();
    let carrier = mono16(441_000);
    let env = build_envelope(PayloadType::Text, b"hello world", &a.enc_public, &a, 1).unwrap();
    let out = conceal(&carrier, &env, 1).unwrap();
    assert_eq!(out.len(), carrier.len());

    let h = inspect(&out).unwrap();
    assert_eq!(h.payload_type, PayloadType::Text);
    assert!(h.body_length > 0);
    assert_eq!(h.fingerprint, fingerprint(&a.sig_public));

    let found = recover(&out).unwrap();
    assert_eq!(found, env);
    assert_eq!(open_envelope(&found, &a, &a.sig_public).unwrap(), (PayloadType::Text, b"hello world".to_vec()));
    assert!(matches!(open_envelope(&found, &b, &a.sig_public), Err(Error::Decrypt)));
}

#[test]
fn conceal_changes_only_low_bits() {
    let carrier = mono16(2_000);
    let payload = vec![0xC3u8; 100];
    for profile in 1..=4u32 {
        let out = conceal(&carrier, &payload, profile).unwrap();
        let (_, before) = load(&carrier).unwrap();
        let (_, after) = load(&out).unwrap();
        for (x, y) in before.iter().zip(after.iter()) {
            assert_eq!(x >> profile, y >> profile);
        }
        assert_eq!(&out[..44], &carrier[..44]);
    }
}

#[test]
fn carrier_errors() {
    let carrier = mono16(100);
    assert!(matches!(conceal(&carrier, &[0u8; 13], 1), Err(Error::Capacity { required: 13, available: 12 })));
    assert!(conceal(&carrier, &[0u8; 12], 1).is_ok());
    assert!(matches!(conceal(b"not a wav", &[], 1), Err(Error::Format)));
    assert!(matches!(inspect(&carrier), Err(Error::Format)));
    assert!(matches!(recover(&carrier), Err(Error::Format)));
}

#[test]
fn every_profile_is_found() {
    let a = generate_keypair().unwrap();
    let carrier = mono16(4_000);
    for profile in 1..=4u32 {
        let env = build_envelope(PayloadType::Audio, &[1, 2, 3], &a.enc_public, &a, profile).unwrap();
        let out = conceal(&carrier, &env, profile).unwrap();
        assert_eq!(inspect(&out).unwrap().profile, profile);
        assert_eq!(recover(&out).unwrap(), env);
    }
}

#[test]
fn announced_envelope_longer_than_carrier() {
    let a = generate_keypair().unwrap();
    let carrier = mono16(2_000);
    let env = build_envelope(PayloadType::Text, b"abc", &a.enc_public, &a, 1).unwrap();
    // keep only the header: the announced body does not fit a carrier of 30 bytes' capacity
    let out = conceal(&mono16(240), &env[..30], 1).unwrap();
    assert!(inspect(&out).is_ok());
    assert!(matches!(recover(&out), Err(Error::Format)));
    assert!(conceal(&carrier, &env, 1).is_ok());
}
