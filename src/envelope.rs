//! The payload envelope: a cleartext header, the sealed body and a
//! signature over both.
//!
//! Layout, integers big-endian:
//! `magic "ZMH1" (4) | version (1) | payload type (1) | body length (4) |
//! sender fingerprint (8) | nonce (12) | body (body length) | signature (64)`.
//! The version byte holds the format version in its high nibble and the
//! embedding profile (bits per sample, 1 to 4) in its low nibble, so that
//! the header can be found and read without any key.

use vstd::prelude::*;
use vstd::arithmetic::div_mod::lemma_fundamental_div_mod_converse;
use crate::bytes::{append, slice_of};
use crate::crypto::{
    ed25519_sign_of, ed25519_verify_of, encryption_public_of, fingerprint, fingerprint_of, opened_body, sealed_body, Keypair,
    KEY_LEN, NONCE_LEN, SIGNATURE_LEN, TAG_LEN,
};
use crate::error::Error;
use crate::keys::PublicKeys;

verus! {

/// Format version, stored in the high nibble of the version byte.
pub const FORMAT_VERSION: u8 = 1;
/// Length of the cleartext header.
pub const HEADER_LEN: usize = 30;
/// Bytes an envelope adds around its plaintext: header, ephemeral key,
/// tag and signature.
pub const ENVELOPE_OVERHEAD: usize = 142;
/// Longest plaintext whose body length still fits the header's field.
pub const MAX_PLAINTEXT_LEN: usize = 4294967247;

/// What an envelope carries.
#[derive(Debug, Clone, Copy, PartialEq, Eq, Structural)]
pub enum PayloadType {
    /// UTF-8 text.
    Text,
    /// A WAV file.
    Audio,
}

pub open spec fn magic() -> Seq<u8> {
    seq![0x5au8, 0x4d, 0x48, 0x31]
}

pub open spec fn type_byte(t: PayloadType) -> u8 {
    match t {
        PayloadType::Text => 0u8,
        PayloadType::Audio => 1u8,
    }
}

pub open spec fn type_of(b: u8) -> PayloadType {
    if b == 0 {
        PayloadType::Text
    } else {
        PayloadType::Audio
    }
}

pub open spec fn version_byte(profile: u32) -> u8 {
    (16 * FORMAT_VERSION + profile) as u8
}

/// Big-endian value of the four bytes at `off`.
pub open spec fn be32(b: Seq<u8>, off: int) -> int {
    16777216 * b[off] + 65536 * b[off + 1] + 256 * b[off + 2] + b[off + 3]
}

/// The big-endian bytes of `v`.
pub open spec fn be32_bytes(v: u32) -> Seq<u8> {
    seq![(v / 16777216) as u8, ((v / 65536) % 256) as u8, ((v / 256) % 256) as u8, (v % 256) as u8]
}

/// The header bytes of an envelope.
pub open spec fn header_bytes(profile: u32, t: PayloadType, len: u32, fp: Seq<u8>, nonce: Seq<u8>) -> Seq<u8> {
    magic() + seq![version_byte(profile), type_byte(t)] + be32_bytes(len) + fp + nonce
}

/// `b` starts with a well-formed header.
pub open spec fn header_ok(b: Seq<u8>) -> bool {
    &&& b.len() >= HEADER_LEN
    &&& b.subrange(0, 4) == magic()
    &&& b[4] / 16 == FORMAT_VERSION
    &&& 1 <= b[4] % 16 <= 4
    &&& b[5] <= 1
}

/// The decoded cleartext header.
pub struct Header {
    /// Bits per sample that the envelope was embedded with.
    pub profile: u32,
    pub payload_type: PayloadType,
    /// Length of the sealed body.
    pub body_length: u32,
    /// Fingerprint of the sender's signing public key.
    pub fingerprint: Vec<u8>,
    pub nonce: Vec<u8>,
}

impl Header {
    /// `self` is what the header at the start of `b` says.
    pub open spec fn read_from(&self, b: Seq<u8>) -> bool {
        &&& self.profile == b[4] % 16
        &&& self.payload_type == type_of(b[5])
        &&& self.body_length == be32(b, 6)
        &&& self.fingerprint@ == b.subrange(10, 18)
        &&& self.nonce@ == b.subrange(18, 30)
    }

    /// Length of the whole envelope that this header starts.
    pub open spec fn spec_envelope_len(&self) -> int {
        HEADER_LEN + self.body_length + SIGNATURE_LEN
    }

    /// Length of the whole envelope that this header starts, or `None`
    /// where it does not fit a `usize`.
    pub fn envelope_len(&self) -> (r: Option<usize>)
        ensures
            r matches Some(n) ==> n == self.spec_envelope_len(),
            r is None ==> self.spec_envelope_len() > usize::MAX,
    {
        let n: u64 = HEADER_LEN as u64 + self.body_length as u64 + SIGNATURE_LEN as u64;
        if n > usize::MAX as u64 {
            None
        } else {
            Some(n as usize)
        }
    }
}

/// Reads the cleartext header at the start of `b`; no key is needed.
/// Fails with `Format` on a short input, bad magic, unknown version or
/// profile, or unknown payload type.
pub fn parse_header(b: &[u8]) -> (r: Result<Header, Error>)
    ensures
        r is Ok <==> header_ok(b@),
        r is Err ==> r == Err::<Header, Error>(Error::Format),
        r matches Ok(h) ==> h.read_from(b@),
{
    if b.len() < HEADER_LEN || b[0] != 0x5au8 || b[1] != 0x4du8 || b[2] != 0x48u8 || b[3] != 0x31u8 {
        proof {
            if b@.len() >= HEADER_LEN && b@.subrange(0, 4) == magic() {
                assert(b@.subrange(0, 4)[0] == magic()[0]);
                assert(b@.subrange(0, 4)[1] == magic()[1]);
                assert(b@.subrange(0, 4)[2] == magic()[2]);
                assert(b@.subrange(0, 4)[3] == magic()[3]);
            }
        }
        return Err(Error::Format);
    }
    assert(b@.subrange(0, 4) =~= magic());
    let v = b[4];
    if v / 16 != FORMAT_VERSION || v % 16 < 1 || v % 16 > 4 || b[5] > 1 {
        return Err(Error::Format);
    }
    let payload_type = if b[5] == 0 { PayloadType::Text } else { PayloadType::Audio };
    let body_length: u32 = 16777216 * (b[6] as u32) + 65536 * (b[7] as u32) + 256 * (b[8] as u32) + (b[9] as u32);
    Ok(Header {
        profile: (v % 16) as u32,
        payload_type,
        body_length,
        fingerprint: slice_of(b, 10, 18),
        nonce: slice_of(b, 18, 30),
    })
}

/// Writes the header for the given fields.
pub fn encode_header(profile: u32, t: PayloadType, len: u32, fp: &[u8], nonce: &[u8]) -> (r: Vec<u8>)
    requires
        1 <= profile <= 4,
    ensures
        r@ == header_bytes(profile, t, len, fp@, nonce@),
{
    let mut r: Vec<u8> = Vec::new();
    r.push(0x5au8);
    r.push(0x4du8);
    r.push(0x48u8);
    r.push(0x31u8);
    r.push((16 * FORMAT_VERSION as u32 + profile) as u8);
    r.push(match t {
        PayloadType::Text => 0u8,
        PayloadType::Audio => 1u8,
    });
    r.push((len / 16777216) as u8);
    r.push(((len / 65536) % 256) as u8);
    r.push(((len / 256) % 256) as u8);
    r.push((len % 256) as u8);
    append(&mut r, fp);
    append(&mut r, nonce);
    assert(r@ =~= header_bytes(profile, t, len, fp@, nonce@));
    r
}

proof fn lemma_be32(v: u32)
    ensures
        be32(be32_bytes(v), 0) == v,
{
    let x = v as int;
    let b0 = x / 16777216;
    let rest0 = x % 16777216;
    lemma_fundamental_div_mod_converse(x, 16777216, b0, rest0);
    let b1 = rest0 / 65536;
    let rest1 = rest0 % 65536;
    lemma_fundamental_div_mod_converse(rest0, 65536, b1, rest1);
    lemma_fundamental_div_mod_converse(x, 65536, 256 * b0 + b1, rest1);
    lemma_fundamental_div_mod_converse(256 * b0 + b1, 256, b0, b1);
    let b2 = rest1 / 256;
    let b3 = rest1 % 256;
    lemma_fundamental_div_mod_converse(rest1, 256, b2, b3);
    lemma_fundamental_div_mod_converse(x, 256, 65536 * b0 + 256 * b1 + b2, b3);
    lemma_fundamental_div_mod_converse(65536 * b0 + 256 * b1 + b2, 256, 256 * b0 + b1, b2);
}

/// Header self-description: whatever follows it, a header written for
/// any profile, payload type, body length, fingerprint and nonce is
/// well-formed and reads back as exactly those fields, with no key.
pub proof fn lemma_header_self_describing(
    profile: u32,
    t: PayloadType,
    len: u32,
    fp: Seq<u8>,
    nonce: Seq<u8>,
    rest: Seq<u8>,
)
    requires
        1 <= profile <= 4,
        fp.len() == 8,
        nonce.len() == 12,
    ensures
        header_ok(header_bytes(profile, t, len, fp, nonce) + rest),
        ({
            let b = header_bytes(profile, t, len, fp, nonce) + rest;
            &&& b[4] % 16 == profile
            &&& type_of(b[5]) == t
            &&& be32(b, 6) == len
            &&& b.subrange(10, 18) == fp
            &&& b.subrange(18, 30) == nonce
        }),
{
    let b = header_bytes(profile, t, len, fp, nonce) + rest;
    lemma_be32(len);
    let lb = be32_bytes(len);
    assert(b[6] == lb[0] && b[7] == lb[1] && b[8] == lb[2] && b[9] == lb[3]);
    assert(b.subrange(0, 4) =~= magic());
    assert(b.subrange(10, 18) =~= fp);
    assert(b.subrange(18, 30) =~= nonce);
}

/// The envelope for `pt`, sealed to `recipient` under ephemeral secret
/// `eph` and `nonce`, and signed by the sender.
pub open spec fn envelope_bytes(
    profile: u32,
    t: PayloadType,
    pt: Seq<u8>,
    recipient: Seq<u8>,
    sender_sk: Seq<u8>,
    sender_pk: Seq<u8>,
    eph: Seq<u8>,
    nonce: Seq<u8>,
) -> Seq<u8> {
    let body = sealed_body(pt, recipient, eph, nonce);
    let signed = header_bytes(profile, t, body.len() as u32, fingerprint_of(sender_pk), nonce) + body;
    signed + ed25519_sign_of(sender_sk, signed)
}

/// What a freshly built envelope `e` shows and gives: its header names the
/// profile, payload type, body length and sender fingerprint, and the
/// holder of any encryption secret key whose public key is `recipient`
/// opens it, with the sender's public key, to exactly `(t, pt)`.
pub open spec fn built_for(
    e: Seq<u8>,
    profile: u32,
    t: PayloadType,
    pt: Seq<u8>,
    recipient: Seq<u8>,
    sender_pk: Seq<u8>,
) -> bool {
    &&& e.len() == pt.len() + ENVELOPE_OVERHEAD
    &&& header_ok(e)
    &&& e[4] % 16 == profile
    &&& type_of(e[5]) == t
    &&& be32(e, 6) == pt.len() + KEY_LEN + TAG_LEN
    &&& e.subrange(10, 18) == fingerprint_of(sender_pk)
    &&& forall|sk: Seq<u8>|
        sk.len() == KEY_LEN && encryption_public_of(sk) == recipient ==> #[trigger] opened_envelope(
            e,
            sk,
            recipient,
            sender_pk,
        ) == Ok::<(PayloadType, Seq<u8>), Error>((t, pt))
}

proof fn lemma_built_for(
    hdr: Seq<u8>,
    body: Seq<u8>,
    sig: Seq<u8>,
    profile: u32,
    t: PayloadType,
    pt: Seq<u8>,
    recipient: Seq<u8>,
    sender_pk: Seq<u8>,
    fp: Seq<u8>,
    nonce: Seq<u8>,
)
    requires
        1 <= profile <= 4,
        pt.len() <= MAX_PLAINTEXT_LEN,
        body.len() == pt.len() + KEY_LEN + TAG_LEN,
        fp == fingerprint_of(sender_pk),
        fp.len() == 8,
        nonce.len() == NONCE_LEN,
        sig.len() == SIGNATURE_LEN,
        sender_pk.len() == KEY_LEN,
        hdr == header_bytes(profile, t, body.len() as u32, fp, nonce),
        ed25519_verify_of(sender_pk, hdr + body, sig),
        forall|sk: Seq<u8>|
            sk.len() == KEY_LEN && encryption_public_of(sk) == recipient ==> #[trigger] opened_body(
                body,
                nonce,
                sk,
                recipient,
            ) == Ok::<Seq<u8>, Error>(pt),
    ensures
        built_for(hdr + body + sig, profile, t, pt, recipient, sender_pk),
{
    let e = hdr + body + sig;
    lemma_header_self_describing(profile, t, body.len() as u32, fp, nonce, body + sig);
    assert(hdr + (body + sig) =~= e);
    assert(hdr.len() == HEADER_LEN);
    assert(e.subrange(0, e.len() - SIGNATURE_LEN) =~= hdr + body);
    assert(e.subrange(e.len() - SIGNATURE_LEN, e.len() as int) =~= sig);
    assert(e.subrange(HEADER_LEN as int, e.len() - SIGNATURE_LEN) =~= body);
    assert forall|sk: Seq<u8>|
        sk.len() == KEY_LEN && encryption_public_of(sk) == recipient implies #[trigger] opened_envelope(
        e,
        sk,
        recipient,
        sender_pk,
    ) == Ok::<(PayloadType, Seq<u8>), Error>((t, pt)) by {
        assert(opened_body(body, nonce, sk, recipient) == Ok::<Seq<u8>, Error>(pt));
    }
}

/// Builds the envelope with the given ephemeral secret and nonce.
pub fn seal_envelope(
    t: PayloadType,
    pt: &[u8],
    recipient: &[u8],
    sender: &Keypair,
    profile: u32,
    eph: &[u8],
    nonce: &[u8],
) -> (r: Vec<u8>)
    requires
        1 <= profile <= 4,
        sender.wf(),
        recipient@.len() == KEY_LEN,
        eph@.len() == KEY_LEN,
        nonce@.len() == NONCE_LEN,
        pt@.len() <= MAX_PLAINTEXT_LEN,
    ensures
        r@ == envelope_bytes(profile, t, pt@, recipient@, sender.sig_private@, sender.sig_public@, eph@, nonce@),
        built_for(r@, profile, t, pt@, recipient@, sender.sig_public@),
{
    let body = crate::crypto::seal_with(pt, recipient, eph, nonce);
    let fp = fingerprint(&sender.sig_public);
    let mut signed = encode_header(profile, t, body.len() as u32, &fp, nonce);
    append(&mut signed, &body);
    let ghost hdr = header_bytes(profile, t, body@.len() as u32, fp@, nonce@);
    let ghost sb = signed@;
    let sig = crate::crypto::sign(&signed, &sender.sig_private);
    append(&mut signed, &sig);
    proof {
        assert(sb =~= hdr + body@);
        assert(signed@ =~= hdr + body@ + sig@);
        lemma_built_for(hdr, body@, sig@, profile, t, pt@, recipient@, sender.sig_public@, fp@, nonce@);
    }
    signed
}

/// Builds an envelope for `pt` to the recipient's encryption public key,
/// signed by `sender`, under a fresh ephemeral key and nonce. Fails with
/// `Capacity` when the body would not fit the length field and with
/// `Entropy` when no randomness can be had.
pub fn build_envelope(t: PayloadType, pt: &[u8], recipient: &[u8], sender: &Keypair, profile: u32) -> (r: Result<
    Vec<u8>,
    Error,
>)
    requires
        1 <= profile <= 4,
        sender.wf(),
        recipient@.len() == KEY_LEN,
    ensures
        pt@.len() > MAX_PLAINTEXT_LEN ==> r == Err::<Vec<u8>, Error>(
            Error::Capacity { required: pt@.len() as usize, available: MAX_PLAINTEXT_LEN },
        ),
        pt@.len() <= MAX_PLAINTEXT_LEN && r is Err ==> r == Err::<Vec<u8>, Error>(Error::Entropy),
        r matches Ok(e) ==> built_for(e@, profile, t, pt@, recipient@, sender.sig_public@),
        r matches Ok(e) ==> exists|eph: Seq<u8>, nonce: Seq<u8>|
            eph.len() == KEY_LEN && nonce.len() == NONCE_LEN && e@ == #[trigger] envelope_bytes(
                profile,
                t,
                pt@,
                recipient@,
                sender.sig_private@,
                sender.sig_public@,
                eph,
                nonce,
            ),
{
    if pt.len() > MAX_PLAINTEXT_LEN {
        return Err(Error::Capacity { required: pt.len(), available: MAX_PLAINTEXT_LEN });
    }
    let (body_seed, nonce) = crate::crypto::fresh_secrets()?;
    Ok(seal_envelope(t, pt, recipient, sender, profile, &body_seed, &nonce))
}

/// What opening envelope `b` gives.
pub open spec fn opened_envelope(b: Seq<u8>, sk: Seq<u8>, pk: Seq<u8>, sender: Seq<u8>) -> Result<
    (PayloadType, Seq<u8>),
    Error,
> {
    if b.len() < HEADER_LEN + SIGNATURE_LEN {
        Err(Error::Format)
    } else {
        let signed_len = b.len() - SIGNATURE_LEN;
        let signed = b.subrange(0, signed_len);
        let sig = b.subrange(signed_len, b.len() as int);
        if !(sender.len() == KEY_LEN && ed25519_verify_of(sender, signed, sig)) {
            Err(Error::Auth)
        } else if !header_ok(b) || b.len() != HEADER_LEN + be32(b, 6) + SIGNATURE_LEN {
            Err(Error::Format)
        } else {
            match opened_body(b.subrange(HEADER_LEN as int, signed_len), b.subrange(18, 30), sk, pk) {
                Ok(p) => Ok((type_of(b[5]), p)),
                Err(e) => Err(e),
            }
        }
    }
}

/// Opens an envelope. An input too short to hold a header and a signature
/// is `Format`. Otherwise the signature over everything before it is
/// checked first, so any change to header or body that the signature does
/// not accept is `Auth`; a signed envelope with a malformed header or a
/// length that disagrees with it is `Format`; a body that does not decrypt
/// under the recipient's keys is `Decrypt`; else the payload type and
/// plaintext.
pub fn open_envelope(b: &[u8], recipient: &Keypair, sender: &[u8]) -> (r: Result<(PayloadType, Vec<u8>), Error>)
    requires
        recipient.wf(),
    ensures
        r is Ok <==> opened_envelope(b@, recipient.enc_private@, recipient.enc_public@, sender@) is Ok,
        r matches Ok((t, p)) ==> opened_envelope(b@, recipient.enc_private@, recipient.enc_public@, sender@)
            == Ok::<(PayloadType, Seq<u8>), Error>((t, p@)),
        r matches Err(e) ==> opened_envelope(b@, recipient.enc_private@, recipient.enc_public@, sender@)
            == Err::<(PayloadType, Seq<u8>), Error>(e),
{
    if b.len() < HEADER_LEN + SIGNATURE_LEN {
        return Err(Error::Format);
    }
    let signed_len = b.len() - SIGNATURE_LEN;
    let signed = slice_of(b, 0, signed_len);
    let sig = slice_of(b, signed_len, b.len());
    if !crate::crypto::verify(&signed, &sig, sender) {
        return Err(Error::Auth);
    }
    let h = parse_header(b)?;
    if b.len() - HEADER_LEN - SIGNATURE_LEN != h.body_length as usize {
        return Err(Error::Format);
    }
    let body = slice_of(b, HEADER_LEN, signed_len);
    match crate::crypto::decrypt(&body, &h.nonce, recipient) {
        Ok(p) => Ok((h.payload_type, p)),
        Err(e) => Err(e),
    }
}

/// Builds an envelope from key files: the recipient's public-key file and
/// the sender's private-key file. Fails with `Format` when either file is
/// malformed, otherwise as `build_envelope` does.
pub fn seal_for(t: PayloadType, pt: &[u8], recipient_file: &[u8], sender_file: &[u8], profile: u32) -> (r: Result<
    Vec<u8>,
    Error,
>)
    requires
        1 <= profile <= 4,
    ensures
        PublicKeys::from_bytes_spec_ok(recipient_file@) is None ==> r == Err::<Vec<u8>, Error>(Error::Format),
        PublicKeys::from_bytes_spec_ok(recipient_file@) is Some && !Keypair::private_file_ok(sender_file@) ==> r
            == Err::<Vec<u8>, Error>(Error::Format),
        PublicKeys::from_bytes_spec_ok(recipient_file@) is Some && Keypair::private_file_ok(sender_file@)
            && pt@.len() > MAX_PLAINTEXT_LEN ==> r == Err::<Vec<u8>, Error>(
            Error::Capacity { required: pt@.len() as usize, available: MAX_PLAINTEXT_LEN },
        ),
        PublicKeys::from_bytes_spec_ok(recipient_file@) is Some && Keypair::private_file_ok(sender_file@)
            && pt@.len() <= MAX_PLAINTEXT_LEN && r is Err ==> r == Err::<Vec<u8>, Error>(Error::Entropy),
        r matches Ok(e) ==> built_for(
            e@,
            profile,
            t,
            pt@,
            recipient_file@.subrange(1, 33),
            sender_file@.subrange(67, 99),
        ),
        r matches Ok(e) ==> exists|eph: Seq<u8>, nonce: Seq<u8>|
            eph.len() == KEY_LEN && nonce.len() == NONCE_LEN && e@ == #[trigger] envelope_bytes(
                profile,
                t,
                pt@,
                recipient_file@.subrange(1, 33),
                sender_file@.subrange(100, 132),
                sender_file@.subrange(67, 99),
                eph,
                nonce,
            ),
{
    let recipient = PublicKeys::from_bytes(recipient_file)?;
    let sender = Keypair::from_private_bytes(sender_file)?;
    build_envelope(t, pt, &recipient.enc_public, &sender, profile)
}

/// Opens an envelope with key files: the recipient's private-key file and
/// the sender's public-key file. Fails with `Format` when either file is
/// malformed, otherwise as `open_envelope` does.
pub fn open_from(b: &[u8], recipient_file: &[u8], sender_file: &[u8]) -> (r: Result<(PayloadType, Vec<u8>), Error>)
    ensures
        !Keypair::private_file_ok(recipient_file@) ==> r == Err::<(PayloadType, Vec<u8>), Error>(Error::Format),
        Keypair::private_file_ok(recipient_file@) && PublicKeys::from_bytes_spec_ok(sender_file@) is None ==> r
            == Err::<(PayloadType, Vec<u8>), Error>(Error::Format),
        Keypair::private_file_ok(recipient_file@) && PublicKeys::from_bytes_spec_ok(sender_file@) is Some ==> {
            let opened = opened_envelope(
                b@,
                recipient_file@.subrange(34, 66),
                recipient_file@.subrange(1, 33),
                sender_file@.subrange(34, 66),
            );
            &&& r is Ok <==> opened is Ok
            &&& r matches Ok((t, p)) ==> opened == Ok::<(PayloadType, Seq<u8>), Error>((t, p@))
            &&& r matches Err(e) ==> opened == Err::<(PayloadType, Seq<u8>), Error>(e)
        },
{
    let recipient = Keypair::from_private_bytes(recipient_file)?;
    let sender = PublicKeys::from_bytes(sender_file)?;
    open_envelope(b, &recipient, &sender.sig_public)
}

} // verus!
