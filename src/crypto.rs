//! The cryptographic engine: key generation, hybrid encryption, signing.
//!
//! Encryption keys are X25519, signing keys Ed25519, the symmetric cipher
//! ChaCha20-Poly1305. A message is sealed under a fresh ephemeral X25519
//! key: the symmetric key is SHA-256 of the shared secret, the ephemeral
//! public key and the recipient's public key. The sealed body is the
//! ephemeral public key followed by the AEAD ciphertext and tag.

use vstd::prelude::*;
use chacha20poly1305::aead::{Aead, KeyInit};
use chacha20poly1305::{ChaCha20Poly1305, Key, Nonce};
use ed25519_dalek::{Signature, Signer, SigningKey, Verifier, VerifyingKey};
use sha2::{Digest, Sha256};
use crate::bytes::append;
use crate::error::Error;

verus! {

/// Length of every key, public or private.
pub const KEY_LEN: usize = 32;
/// Length of an AEAD nonce.
pub const NONCE_LEN: usize = 12;
/// Length of an AEAD tag.
pub const TAG_LEN: usize = 16;
/// Length of a signature.
pub const SIGNATURE_LEN: usize = 64;
/// Length of a key fingerprint.
pub const FINGERPRINT_LEN: usize = 8;

/// The X25519 function on a scalar and a u-coordinate.
pub uninterp spec fn x25519_of(k: Seq<u8>, u: Seq<u8>) -> Seq<u8>;

/// The SHA-256 digest of a message.
pub uninterp spec fn sha256_of(m: Seq<u8>) -> Seq<u8>;

/// The Ed25519 public key of a secret key.
pub uninterp spec fn ed25519_public_of(sk: Seq<u8>) -> Seq<u8>;

/// The (deterministic) Ed25519 signature of a message.
pub uninterp spec fn ed25519_sign_of(sk: Seq<u8>, m: Seq<u8>) -> Seq<u8>;

/// Whether a signature verifies under a public key.
pub uninterp spec fn ed25519_verify_of(pk: Seq<u8>, m: Seq<u8>, sig: Seq<u8>) -> bool;

/// ChaCha20-Poly1305 encryption: ciphertext followed by the tag.
pub uninterp spec fn aead_seal_of(key: Seq<u8>, nonce: Seq<u8>, pt: Seq<u8>) -> Seq<u8>;

/// ChaCha20-Poly1305 decryption; `None` when the tag does not match.
pub uninterp spec fn aead_open_of(key: Seq<u8>, nonce: Seq<u8>, ct: Seq<u8>) -> Option<Seq<u8>>;

/// Relies on getrandom::getrandom: fills `n` bytes from the system source,
/// or reports that it could not.
#[verifier::external_body]
fn fill_random(n: usize) -> (r: Option<Vec<u8>>)
    ensures
        r is Some ==> r->Some_0@.len() == n,
{
    let mut buf = vec![0u8; n];
    match getrandom::getrandom(&mut buf) {
        Ok(()) => Some(buf),
        Err(_) => None,
    }
}

/// `n` random bytes, or `Entropy`.
fn random_bytes(n: usize) -> (r: Result<Vec<u8>, Error>)
    ensures
        r matches Ok(v) ==> v@.len() == n,
        r is Err ==> r == Err::<Vec<u8>, Error>(Error::Entropy),
{
    match fill_random(n) {
        Some(v) => Ok(v),
        None => Err(Error::Entropy),
    }
}

/// Relies on x25519_dalek::x25519: the 32-byte X25519 result of a scalar
/// (clamped by the callee) and a u-coordinate. Applied to the base point
/// it gives a public key, and Diffie-Hellman agreement with that key is
/// symmetric: any other secret reaches the same shared value from either
/// side.
#[verifier::external_body]
fn x25519(k: &[u8], u: &[u8]) -> (r: Vec<u8>)
    requires
        k@.len() == KEY_LEN,
        u@.len() == KEY_LEN,
    ensures
        r@ == x25519_of(k@, u@),
        r@.len() == KEY_LEN,
        u@ == base_point() ==> forall|sk: Seq<u8>|
            sk.len() == KEY_LEN ==> #[trigger] x25519_of(sk, r@) == x25519_of(k@, x25519_of(sk, u@)),
{
    let ka: [u8; 32] = k.try_into().unwrap();
    let ua: [u8; 32] = u.try_into().unwrap();
    x25519_dalek::x25519(ka, ua).to_vec()
}

/// Relies on sha2::Sha256::digest: the 32-byte SHA-256 digest.
#[verifier::external_body]
fn sha256(m: &[u8]) -> (r: Vec<u8>)
    ensures
        r@ == sha256_of(m@),
        r@.len() == 32,
{
    Sha256::digest(m).to_vec()
}

/// Relies on ed25519_dalek::SigningKey::verifying_key: the 32-byte public
/// key of a 32-byte secret key.
#[verifier::external_body]
fn ed25519_public(sk: &[u8]) -> (r: Vec<u8>)
    requires
        sk@.len() == KEY_LEN,
    ensures
        r@ == ed25519_public_of(sk@),
        r@.len() == KEY_LEN,
{
    let ska: [u8; 32] = sk.try_into().unwrap();
    SigningKey::from_bytes(&ska).verifying_key().to_bytes().to_vec()
}

/// Relies on ed25519_dalek::SigningKey::sign: the 64-byte signature of a
/// message, which verifies under the matching public key.
#[verifier::external_body]
fn ed25519_sign(sk: &[u8], m: &[u8]) -> (r: Vec<u8>)
    requires
        sk@.len() == KEY_LEN,
    ensures
        r@ == ed25519_sign_of(sk@, m@),
        r@.len() == SIGNATURE_LEN,
        ed25519_verify_of(ed25519_public_of(sk@), m@, r@),
{
    let ska: [u8; 32] = sk.try_into().unwrap();
    SigningKey::from_bytes(&ska).sign(m).to_bytes().to_vec()
}

/// Relies on ed25519_dalek::VerifyingKey::verify: whether a signature
/// verifies; a public key that is no curve point verifies nothing.
#[verifier::external_body]
fn ed25519_verify(pk: &[u8], m: &[u8], sig: &[u8]) -> (r: bool)
    requires
        pk@.len() == KEY_LEN,
        sig@.len() == SIGNATURE_LEN,
    ensures
        r == ed25519_verify_of(pk@, m@, sig@),
{
    let pka: [u8; 32] = pk.try_into().unwrap();
    let siga: [u8; 64] = sig.try_into().unwrap();
    match VerifyingKey::from_bytes(&pka) {
        Ok(vk) => vk.verify(m, &Signature::from_bytes(&siga)).is_ok(),
        Err(_) => false,
    }
}

/// Relies on chacha20poly1305::ChaCha20Poly1305::encrypt: the ciphertext,
/// as long as the plaintext, followed by a 16-byte tag. It fails only on
/// plaintexts of 256 GiB and more, which `requires` leaves out. Decryption
/// under the same key and nonce gives the plaintext back.
#[verifier::external_body]
fn aead_seal(key: &[u8], nonce: &[u8], pt: &[u8]) -> (r: Vec<u8>)
    requires
        key@.len() == KEY_LEN,
        nonce@.len() == NONCE_LEN,
        pt@.len() <= u32::MAX,
    ensures
        r@ == aead_seal_of(key@, nonce@, pt@),
        r@.len() == pt@.len() + TAG_LEN,
        aead_open_of(key@, nonce@, r@) == Some(pt@),
{
    let cipher = ChaCha20Poly1305::new(Key::from_slice(key));
    cipher.encrypt(Nonce::from_slice(nonce), pt).expect("plaintext below the cipher's limit")
}

/// Relies on chacha20poly1305::ChaCha20Poly1305::decrypt: the plaintext
/// when the tag matches, which is then the one that encrypts to `ct`.
#[verifier::external_body]
fn aead_open(key: &[u8], nonce: &[u8], ct: &[u8]) -> (r: Option<Vec<u8>>)
    requires
        key@.len() == KEY_LEN,
        nonce@.len() == NONCE_LEN,
    ensures
        r is Some == aead_open_of(key@, nonce@, ct@) is Some,
        r is Some ==> aead_open_of(key@, nonce@, ct@) == Some(r->Some_0@),
        r is Some ==> aead_seal_of(key@, nonce@, r->Some_0@) == ct@,
{
    let cipher = ChaCha20Poly1305::new(Key::from_slice(key));
    cipher.decrypt(Nonce::from_slice(nonce), ct).ok()
}

/// The X25519 base point, u = 9.
pub open spec fn base_point() -> Seq<u8> {
    seq![9u8].add(Seq::new(31, |i: int| 0u8))
}

fn base_point_bytes() -> (r: Vec<u8>)
    ensures
        r@ == base_point(),
{
    let mut r: Vec<u8> = Vec::new();
    r.push(9u8);
    let mut i: usize = 1;
    while i < 32
        invariant
            1 <= i <= 32,
            r@ == seq![9u8].add(Seq::new((i - 1) as nat, |j: int| 0u8)),
        decreases 32 - i,
    {
        r.push(0u8);
        i = i + 1;
        assert(r@ =~= seq![9u8].add(Seq::new((i - 1) as nat, |j: int| 0u8)));
    }
    r
}

/// The encryption public key of an encryption secret key.
pub open spec fn encryption_public_of(sk: Seq<u8>) -> Seq<u8> {
    x25519_of(sk, base_point())
}

/// The first eight bytes of SHA-256 of a signing public key.
pub open spec fn fingerprint_of(pk: Seq<u8>) -> Seq<u8> {
    sha256_of(pk).subrange(0, 8)
}

/// The symmetric key for a message: SHA-256 of the shared secret, the
/// ephemeral public key and the recipient's public key.
pub open spec fn message_key(shared: Seq<u8>, eph_pub: Seq<u8>, recipient: Seq<u8>) -> Seq<u8> {
    sha256_of(shared + eph_pub + recipient)
}

/// The sealed body for `pt` to `recipient` under ephemeral secret `eph`.
pub open spec fn sealed_body(pt: Seq<u8>, recipient: Seq<u8>, eph: Seq<u8>, nonce: Seq<u8>) -> Seq<u8> {
    let eph_pub = encryption_public_of(eph);
    eph_pub + aead_seal_of(message_key(x25519_of(eph, recipient), eph_pub, recipient), nonce, pt)
}

/// What opening `body` with the recipient's keys gives: the plaintext, or
/// `Decrypt` when the body is too short or fails authentication.
pub open spec fn opened_body(body: Seq<u8>, nonce: Seq<u8>, sk: Seq<u8>, pk: Seq<u8>) -> Result<Seq<u8>, Error> {
    if body.len() < KEY_LEN + TAG_LEN {
        Err(Error::Decrypt)
    } else {
        let eph_pub = body.subrange(0, 32);
        let key = message_key(x25519_of(sk, eph_pub), eph_pub, pk);
        match aead_open_of(key, nonce, body.subrange(32, body.len() as int)) {
            Some(p) => Ok(p),
            None => Err(Error::Decrypt),
        }
    }
}

/// A keypair: an X25519 pair for encryption and an Ed25519 pair for
/// signing, independent of each other.
pub struct Keypair {
    pub enc_public: Vec<u8>,
    pub enc_private: Vec<u8>,
    pub sig_public: Vec<u8>,
    pub sig_private: Vec<u8>,
}

impl Keypair {
    /// Both public halves belong to their private halves.
    pub open spec fn wf(&self) -> bool {
        &&& self.enc_private@.len() == KEY_LEN
        &&& self.sig_private@.len() == KEY_LEN
        &&& self.enc_public@ == encryption_public_of(self.enc_private@)
        &&& self.sig_public@ == ed25519_public_of(self.sig_private@)
        &&& self.enc_public@.len() == KEY_LEN
        &&& self.sig_public@.len() == KEY_LEN
    }

    /// The keypair whose private halves are `enc_private` and
    /// `sig_private`.
    pub fn from_private(enc_private: Vec<u8>, sig_private: Vec<u8>) -> (r: Keypair)
        requires
            enc_private@.len() == KEY_LEN,
            sig_private@.len() == KEY_LEN,
        ensures
            r.wf(),
            r.enc_private@ == enc_private@,
            r.sig_private@ == sig_private@,
    {
        let base = base_point_bytes();
        let enc_public = x25519(&enc_private, &base);
        let sig_public = ed25519_public(&sig_private);
        Keypair { enc_public, enc_private, sig_public, sig_private }
    }
}

/// Generates a fresh keypair from the system's randomness. Fails only with
/// `Entropy`.
pub fn generate_keypair() -> (r: Result<Keypair, Error>)
    ensures
        r matches Ok(k) ==> k.wf(),
        r is Err ==> r == Err::<Keypair, Error>(Error::Entropy),
{
    let enc_private = random_bytes(KEY_LEN)?;
    let sig_private = random_bytes(KEY_LEN)?;
    Ok(Keypair::from_private(enc_private, sig_private))
}

/// The fingerprint of a signing public key.
pub fn fingerprint(sig_public: &[u8]) -> (r: Vec<u8>)
    ensures
        r@ == fingerprint_of(sig_public@),
        r@.len() == FINGERPRINT_LEN,
{
    let d = sha256(sig_public);
    crate::bytes::slice_of(&d, 0, 8)
}

/// Seals `pt` to `recipient` with the given ephemeral secret and nonce.
pub fn seal_with(pt: &[u8], recipient: &[u8], eph: &[u8], nonce: &[u8]) -> (r: Vec<u8>)
    requires
        recipient@.len() == KEY_LEN,
        eph@.len() == KEY_LEN,
        nonce@.len() == NONCE_LEN,
        pt@.len() <= u32::MAX,
    ensures
        r@ == sealed_body(pt@, recipient@, eph@, nonce@),
        r@.len() == pt@.len() + KEY_LEN + TAG_LEN,
        forall|sk: Seq<u8>|
            sk.len() == KEY_LEN && encryption_public_of(sk) == recipient@ ==> #[trigger] opened_body(
                r@,
                nonce@,
                sk,
                recipient@,
            ) == Ok::<Seq<u8>, Error>(pt@),
{
    let base = base_point_bytes();
    let eph_pub = x25519(eph, &base);
    let shared = x25519(eph, recipient);
    let mut material = shared;
    append(&mut material, &eph_pub);
    append(&mut material, recipient);
    let key = sha256(&material);
    let sealed = aead_seal(&key, nonce, pt);
    let ghost ep = eph_pub@;
    let mut out = eph_pub;
    append(&mut out, &sealed);
    proof {
        assert(out@.subrange(0, 32) =~= ep);
        assert(out@.subrange(32, out@.len() as int) =~= sealed@);
        assert forall|sk: Seq<u8>|
            sk.len() == KEY_LEN && encryption_public_of(sk) == recipient@ implies #[trigger] opened_body(
            out@,
            nonce@,
            sk,
            recipient@,
        ) == Ok::<Seq<u8>, Error>(pt@) by {
            assert(x25519_of(sk, ep) == x25519_of(eph@, x25519_of(sk, base_point())));
        }
    }
    out
}

/// Encrypts `pt` to `recipient` under a fresh ephemeral key and nonce,
/// returning the sealed body and the nonce. Fails only with `Entropy`.
pub fn encrypt(pt: &[u8], recipient: &[u8]) -> (r: Result<(Vec<u8>, Vec<u8>), Error>)
    requires
        recipient@.len() == KEY_LEN,
        pt@.len() <= u32::MAX,
    ensures
        r is Err ==> r == Err::<(Vec<u8>, Vec<u8>), Error>(Error::Entropy),
        r matches Ok((c, n)) ==> c@.len() == pt@.len() + KEY_LEN + TAG_LEN,
        r matches Ok((c, n)) ==> n@.len() == NONCE_LEN && exists|eph: Seq<u8>|
            eph.len() == KEY_LEN && c@ == #[trigger] sealed_body(pt@, recipient@, eph, n@),
{
    let (eph, nonce) = fresh_secrets()?;
    let c = seal_with(pt, recipient, &eph, &nonce);
    Ok((c, nonce))
}

/// A fresh ephemeral secret and nonce, or `Entropy`.
pub fn fresh_secrets() -> (r: Result<(Vec<u8>, Vec<u8>), Error>)
    ensures
        r matches Ok((e, n)) ==> e@.len() == KEY_LEN && n@.len() == NONCE_LEN,
        r is Err ==> r == Err::<(Vec<u8>, Vec<u8>), Error>(Error::Entropy),
{
    let eph = random_bytes(KEY_LEN)?;
    let nonce = random_bytes(NONCE_LEN)?;
    Ok((eph, nonce))
}

/// Opens a sealed body with the recipient's keypair. Fails with `Decrypt`
/// when the body is too short or does not authenticate.
pub fn decrypt(body: &[u8], nonce: &[u8], recipient: &Keypair) -> (r: Result<Vec<u8>, Error>)
    requires
        recipient.wf(),
        nonce@.len() == NONCE_LEN,
    ensures
        r matches Ok(p) ==> opened_body(body@, nonce@, recipient.enc_private@, recipient.enc_public@) == Ok::<
            Seq<u8>,
            Error,
        >(p@),
        r is Err ==> r == Err::<Vec<u8>, Error>(Error::Decrypt) && opened_body(
            body@,
            nonce@,
            recipient.enc_private@,
            recipient.enc_public@,
        ) == Err::<Seq<u8>, Error>(Error::Decrypt),
{
    if body.len() < KEY_LEN + TAG_LEN {
        return Err(Error::Decrypt);
    }
    let eph_pub = crate::bytes::slice_of(body, 0, 32);
    let shared = x25519(&recipient.enc_private, &eph_pub);
    let mut material = shared;
    append(&mut material, &eph_pub);
    append(&mut material, &recipient.enc_public);
    let key = sha256(&material);
    let ct = crate::bytes::slice_of(body, 32, body.len());
    match aead_open(&key, nonce, &ct) {
        Some(p) => Ok(p),
        None => Err(Error::Decrypt),
    }
}

/// Signs `m` with a signing secret key.
pub fn sign(m: &[u8], sk: &[u8]) -> (r: Vec<u8>)
    requires
        sk@.len() == KEY_LEN,
    ensures
        r@ == ed25519_sign_of(sk@, m@),
        r@.len() == SIGNATURE_LEN,
        ed25519_verify_of(ed25519_public_of(sk@), m@, r@),
{
    ed25519_sign(sk, m)
}

/// Whether `sig` is a valid signature of `m` under `pk`; malformed keys or
/// signatures verify nothing.
pub fn verify(m: &[u8], sig: &[u8], pk: &[u8]) -> (r: bool)
    ensures
        r == (pk@.len() == KEY_LEN && sig@.len() == SIGNATURE_LEN && ed25519_verify_of(pk@, m@, sig@)),
{
    if pk.len() != KEY_LEN || sig.len() != SIGNATURE_LEN {
        return false;
    }
    ed25519_verify(pk, m, sig)
}

} // verus!
