use zimhide::crypto::{decrypt, encrypt, fingerprint, generate_keypair, sign, verify, Keypair};
use zimhide::envelope::{
    build_envelope, encode_header, open_envelope, open_from, parse_header, seal_envelope, seal_for, PayloadType,
    HEADER_LEN,
};
use zimhide::keys::{decode_key, encode_key, PublicKeys, TAG_ENC_PUBLIC, TAG_SIG_PUBLIC};
use zimhide::Error;

fn fixed_keypair(seed: u8) -> Keypair {
    Keypair::from_private(vec![seed; 32], vec![seed.wrapping_add(1); 32])
}

#[test]
fn header_round_trip() {
    let fp = [1u8, 2, 3, 4, 5, 6, 7, 8];
    let nonce = [9u8; 12];
    let h = encode_header(2, PayloadType::Audio, 0x0102_0304, &fp, &nonce);
    assert_eq!(h.len(), HEADER_LEN);
    assert_eq!(&h[..10], &[0x5a, 0x4d, 0x48, 0x31, 0x12, 1, 1, 2, 3, 4]);
    let mut b = h.clone();
    b.extend_from_slice(&[0xEE; 50]);
    let p = parse_header(&b).unwrap();
    assert_eq!(p.profile, 2);
    assert_eq!(p.payload_type, PayloadType::Audio);
    assert_eq!(p.body_length, 0x0102_0304);
    assert_eq!(p.fingerprint, fp.to_vec());
    assert_eq!(p.nonce, nonce.to_vec());
    assert_eq!(p.envelope_len(), Some(30 + 0x0102_0304 + 64));
}

#[test]
fn header_errors_are_format() {
    let h = encode_header(1, PayloadType::Text, 5, &[0u8; 8], &[0u8; 12]);
    assert!(matches!(parse_header(&h[..29]), Err(Error::Format)));
    let mut bad = h.clone();
    bad[0] = b'X';
    assert!(matches!(parse_header(&bad), Err(Error::Format)));
    let mut bad = h.clone();
    bad[4] = 0x21;
    assert!(matches!(parse_header(&bad), Err(Error::Format)));
    let mut bad = h.clone();
    bad[4] = 0x15;
    assert!(matches!(parse_header(&bad), Err(Error::Format)));
    let mut bad = h.clone();
    bad[5] = 2;
    assert!(matches!(parse_header(&bad), Err(Error::Format)));
}

#[test]
fn keys_encode_and_refuse_other_roles() {
    let k = [7u8; 32];
    let e = encode_key(TAG_SIG_PUBLIC, &k);
    assert_eq!(e.len(), 33);
    assert_eq!(decode_key(TAG_SIG_PUBLIC, &e).unwrap(), k.to_vec());
    assert!(matches!(decode_key(TAG_ENC_PUBLIC, &e), Err(Error::Format)));
    assert!(matches!(decode_key(TAG_SIG_PUBLIC, &e[..32]), Err(Error::Format)));
}

#[test]
fn key_files_round_trip() {
    let a = generate_keypair().unwrap();
    let private = a.to_private_bytes();
    assert_eq!(private.len(), 132);
    let back = Keypair::from_private_bytes(&private).unwrap();
    assert_eq!(back.enc_private, a.enc_private);
    assert_eq!(back.sig_public, a.sig_public);
    let public = a.public_keys().to_bytes();
    assert_eq!(public.len(), 66);
    let p = PublicKeys::from_bytes(&public).unwrap();
    assert_eq!(p.enc_public, a.enc_public);
    assert_eq!(p.sig_public, a.sig_public);
    // swapped halves: a signing key where the encryption key belongs
    let mut swapped = public[33..].to_vec();
    swapped.extend_from_slice(&public[..33]);
    assert!(matches!(PublicKeys::from_bytes(&swapped), Err(Error::Format)));
    // a private file whose public half does not match
    let mut tampered = private.clone();
    tampered[1] ^= 1;
    assert!(matches!(Keypair::from_private_bytes(&tampered), Err(Error::Format)));
}

#[test]
fn keypair_halves_are_independent_and_derived() {
    let a = fixed_keypair(3);
    let again = fixed_keypair(3);
    assert_eq!(a.enc_public, again.enc_public);
    assert_eq!(a.sig_public, again.sig_public);
    assert_ne!(a.enc_public, a.sig_public);
    assert_ne!(a.enc_public, a.enc_private);
    assert_ne!(a.sig_public, a.sig_private);
    assert_eq!(fingerprint(&a.sig_public).len(), 8);
    assert_ne!(fingerprint(&a.sig_public), a.sig_public[..8].to_vec());
}

#[test]
fn encrypt_decrypt_and_sign_verify() {
    let a = generate_keypair().unwrap();
    let b = generate_keypair().unwrap();
    let (c, n) = encrypt(b"secret", &a.enc_public).unwrap();
    assert_eq!(c.len(), 6 + 32 + 16);
    assert_ne!(&c[32..38], b"secret");
    assert_eq!(decrypt(&c, &n, &a).unwrap(), b"secret".to_vec());
    assert!(matches!(decrypt(&c, &n, &b), Err(Error::Decrypt)));
    assert!(matches!(decrypt(&c[..40], &n, &a), Err(Error::Decrypt)));
    let sig = sign(b"msg", &a.sig_private);
    assert_eq!(sig.len(), 64);
    assert!(verify(b"msg", &sig, &a.sig_public));
    assert!(!verify(b"msh", &sig, &a.sig_public));
    assert!(!verify(b"msg", &sig, &b.sig_public));
    assert!(!verify(b"msg", &sig[..63], &a.sig_public));
}

#[test]
fn envelope_round_trip_and_layout() {
    let a = fixed_keypair(1);
    let eph = [5u8; 32];
    let nonce = [6u8; 12];
    let e = seal_envelope(PayloadType::Text, b"hi", &a.enc_public, &a, 3, &eph, &nonce);
    assert_eq!(e.len(), 2 + 142);
    assert_eq!(e, seal_envelope(PayloadType::Text, b"hi", &a.enc_public, &a, 3, &eph, &nonce));
    let h = parse_header(&e).unwrap();
    assert_eq!(h.profile, 3);
    assert_eq!(h.payload_type, PayloadType::Text);
    assert_eq!(h.body_length, 2 + 48);
    assert_eq!(h.fingerprint, fingerprint(&a.sig_public));
    assert_eq!(h.nonce, nonce.to_vec());
    assert_eq!(open_envelope(&e, &a, &a.sig_public).unwrap(), (PayloadType::Text, b"hi".to_vec()));
}

#[test]
fn tampering_is_detected() {
    let a = generate_keypair().unwrap();
    let e = build_envelope(PayloadType::Audio, b"payload bytes", &a.enc_public, &a, 1).unwrap();
    for i in 0..e.len() {
        {
            let bit = i % 8;
            let mut t = e.clone();
            t[i] ^= 1 << bit;
            match open_envelope(&t, &a, &a.sig_public) {
                Err(Error::Auth) | Err(Error::Decrypt) => {}
                other => panic!("byte {} bit {} gave {:?}", i, bit, other.map(|x| x.0)),
            }
        }
    }
    assert!(matches!(open_envelope(&e[..e.len() - 1], &a, &a.sig_public), Err(Error::Auth)));
    assert!(matches!(open_envelope(&e[..93], &a, &a.sig_public), Err(Error::Format)));
}

#[test]
fn wrong_keys_fail_cleanly() {
    let a = generate_keypair().unwrap();
    let b = generate_keypair().unwrap();
    let e = build_envelope(PayloadType::Text, b"x", &a.enc_public, &a, 1).unwrap();
    assert!(matches!(open_envelope(&e, &b, &a.sig_public), Err(Error::Decrypt)));
    assert!(matches!(open_envelope(&e, &a, &b.sig_public), Err(Error::Auth)));
    assert!(matches!(open_envelope(&e, &a, &a.enc_public), Err(Error::Auth)));
}

#[test]
fn key_file_level_seal_and_open() {
    let a = generate_keypair().unwrap();
    let public = a.public_keys().to_bytes();
    let private = a.to_private_bytes();
    let e = seal_for(PayloadType::Text, b"via files", &public, &private, 2).unwrap();
    assert_eq!(open_from(&e, &private, &public).unwrap(), (PayloadType::Text, b"via files".to_vec()));
    assert!(matches!(seal_for(PayloadType::Text, b"x", &private, &private, 2), Err(Error::Format)));
    assert!(matches!(open_from(&e, &public, &public), Err(Error::Format)));
}

#[test]
fn error_messages_are_distinct() {
    let all = [
        Error::Format,
        Error::Capacity { required: 2, available: 1 },
        Error::Decrypt,
        Error::Auth,
        Error::Entropy,
    ];
    for (i, a) in all.iter().enumerate() {
        for b in all.iter().skip(i + 1) {
            assert_ne!(a.message(), b.message());
        }
    }
}

#[test]
fn built_envelope_length_and_header_field() {
    let a = generate_keypair().unwrap();
    let e = build_envelope(PayloadType::Text, b"hello world", &a.enc_public, &a, 2).unwrap();
    assert_eq!(e.len(), 11 + 142);
    let h = parse_header(&e).unwrap();
    assert_eq!(h.body_length as usize, e.len() - 94);
    assert_eq!(h.profile, 2);
}

#[test]
fn key_file_errors_are_format() {
    let a = generate_keypair().unwrap();
    let public = a.public_keys().to_bytes();
    let private = a.to_private_bytes();
    let e = seal_for(PayloadType::Text, b"y", &public, &private, 1).unwrap();
    assert!(matches!(open_from(&e, &private, &private), Err(Error::Format)));
    assert!(matches!(seal_for(PayloadType::Text, b"y", &public, &public, 1), Err(Error::Format)));
    let mut bad_tag = private.clone();
    bad_tag[99] = 0x03;
    assert!(matches!(open_from(&e, &bad_tag, &public), Err(Error::Format)));
}

#[test]
fn every_header_bit_flip_is_auth() {
    let a = generate_keypair().unwrap();
    let e = build_envelope(PayloadType::Text, b"hello", &a.enc_public, &a, 1).unwrap();
    for i in 0..HEADER_LEN {
        for bit in 0..8 {
            let mut t = e.clone();
            t[i] ^= 1 << bit;
            assert!(matches!(open_envelope(&t, &a, &a.sig_public), Err(Error::Auth)), "byte {} bit {}", i, bit);
        }
    }
}
