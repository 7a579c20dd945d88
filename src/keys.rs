//! Key encodings and key files.
//!
//! Every key is stored as one tag byte naming its algorithm and role,
//! followed by its 32 bytes. A public-key file is the encryption public key
//! then the signing public key; a private-key file is encryption public,
//! encryption private, signing public, signing private. A key of one role
//! is never accepted where another is expected.

use vstd::prelude::*;
use crate::bytes::{append, slice_of};
use crate::crypto::{Keypair, KEY_LEN};
use crate::error::Error;

verus! {

/// Tag of an X25519 encryption public key.
pub const TAG_ENC_PUBLIC: u8 = 0x01;
/// Tag of an X25519 encryption private key.
pub const TAG_ENC_PRIVATE: u8 = 0x02;
/// Tag of an Ed25519 signing public key.
pub const TAG_SIG_PUBLIC: u8 = 0x03;
/// Tag of an Ed25519 signing private key.
pub const TAG_SIG_PRIVATE: u8 = 0x04;
/// Length of one encoded key.
pub const ENCODED_KEY_LEN: usize = 33;
/// Length of a public-key file.
pub const PUBLIC_FILE_LEN: usize = 66;
/// Length of a private-key file.
pub const PRIVATE_FILE_LEN: usize = 132;

/// The encoding of key `k` under `tag`.
pub open spec fn encoded_key(tag: u8, k: Seq<u8>) -> Seq<u8> {
    seq![tag] + k
}

/// What decoding `b` as a key with `tag` gives.
pub open spec fn decoded_key(tag: u8, b: Seq<u8>) -> Result<Seq<u8>, Error> {
    if b.len() == ENCODED_KEY_LEN && b[0] == tag {
        Ok(b.subrange(1, 33))
    } else {
        Err(Error::Format)
    }
}

/// Encodes a 32-byte key under `tag`.
pub fn encode_key(tag: u8, k: &[u8]) -> (r: Vec<u8>)
    ensures
        r@ == encoded_key(tag, k@),
{
    let mut r: Vec<u8> = Vec::new();
    r.push(tag);
    append(&mut r, k);
    r
}

/// Decodes a key that must carry `tag`; anything else is `Format`.
pub fn decode_key(tag: u8, b: &[u8]) -> (r: Result<Vec<u8>, Error>)
    ensures
        r matches Ok(k) ==> decoded_key(tag, b@) == Ok::<Seq<u8>, Error>(k@),
        r is Err ==> r == Err::<Vec<u8>, Error>(Error::Format) && decoded_key(tag, b@) == Err::<
            Seq<u8>,
            Error,
        >(Error::Format),
{
    if b.len() != ENCODED_KEY_LEN || b[0] != tag {
        return Err(Error::Format);
    }
    Ok(slice_of(b, 1, 33))
}

/// Decoding is the inverse of encoding for a key of the expected role.
pub proof fn lemma_key_round_trip(tag: u8, k: Seq<u8>)
    requires
        k.len() == KEY_LEN,
    ensures
        decoded_key(tag, encoded_key(tag, k)) == Ok::<Seq<u8>, Error>(k),
{
    assert(encoded_key(tag, k).subrange(1, 33) =~= k);
}

/// Keys of different roles are not interchangeable: a key encoded under
/// one tag is refused with `Format` wherever another tag is expected, so a
/// signing public key never stands in for an encryption public key.
pub proof fn lemma_keys_not_interchangeable(given: u8, expected: u8, k: Seq<u8>)
    requires
        given != expected,
    ensures
        decoded_key(expected, encoded_key(given, k)) == Err::<Seq<u8>, Error>(Error::Format),
{
    assert(encoded_key(given, k)[0] == given);
}

/// The two public halves of a keypair, as handed to correspondents.
pub struct PublicKeys {
    pub enc_public: Vec<u8>,
    pub sig_public: Vec<u8>,
}

impl PublicKeys {
    /// The encryption and signing public keys that a public-key file
    /// holds, if it is well-formed.
    pub open spec fn from_bytes_spec_ok(b: Seq<u8>) -> Option<(Seq<u8>, Seq<u8>)> {
        if b.len() == PUBLIC_FILE_LEN && b[0] == TAG_ENC_PUBLIC && b[33] == TAG_SIG_PUBLIC {
            Some((b.subrange(1, 33), b.subrange(34, 66)))
        } else {
            None
        }
    }

    pub open spec fn wf(&self) -> bool {
        self.enc_public@.len() == KEY_LEN && self.sig_public@.len() == KEY_LEN
    }

    /// The public-key file.
    pub fn to_bytes(&self) -> (r: Vec<u8>)
        ensures
            r@ == encoded_key(TAG_ENC_PUBLIC, self.enc_public@) + encoded_key(TAG_SIG_PUBLIC, self.sig_public@),
    {
        let mut r = encode_key(TAG_ENC_PUBLIC, &self.enc_public);
        let s = encode_key(TAG_SIG_PUBLIC, &self.sig_public);
        append(&mut r, &s);
        r
    }

    /// Reads a public-key file; `Format` unless it is two correctly tagged
    /// keys in the right order.
    pub fn from_bytes(b: &[u8]) -> (r: Result<PublicKeys, Error>)
        ensures
            r is Ok <==> (b@.len() == PUBLIC_FILE_LEN && b@[0] == TAG_ENC_PUBLIC && b@[33] == TAG_SIG_PUBLIC),
            r is Err ==> r == Err::<PublicKeys, Error>(Error::Format),
            r matches Ok(k) ==> k.wf() && k.enc_public@ == b@.subrange(1, 33) && k.sig_public@ == b@.subrange(34, 66),
    {
        if b.len() != PUBLIC_FILE_LEN {
            return Err(Error::Format);
        }
        let e = slice_of(b, 0, 33);
        let s = slice_of(b, 33, 66);
        let enc_public = decode_key(TAG_ENC_PUBLIC, &e)?;
        let sig_public = decode_key(TAG_SIG_PUBLIC, &s)?;
        assert(enc_public@ =~= b@.subrange(1, 33));
        assert(sig_public@ =~= b@.subrange(34, 66));
        Ok(PublicKeys { enc_public, sig_public })
    }
}

impl Keypair {
    /// `b` is a well-formed private-key file: four correctly tagged keys in
    /// order, whose public halves belong to the private ones.
    pub open spec fn private_file_ok(b: Seq<u8>) -> bool {
        &&& b.len() == PRIVATE_FILE_LEN
        &&& b[0] == TAG_ENC_PUBLIC
        &&& b[33] == TAG_ENC_PRIVATE
        &&& b[66] == TAG_SIG_PUBLIC
        &&& b[99] == TAG_SIG_PRIVATE
        &&& b.subrange(1, 33) == crate::crypto::encryption_public_of(b.subrange(34, 66))
        &&& b.subrange(67, 99) == crate::crypto::ed25519_public_of(b.subrange(100, 132))
    }

    /// The private-key file of this keypair.
    pub open spec fn private_file_spec(&self) -> Seq<u8> {
        encoded_key(TAG_ENC_PUBLIC, self.enc_public@) + encoded_key(TAG_ENC_PRIVATE, self.enc_private@)
            + encoded_key(TAG_SIG_PUBLIC, self.sig_public@) + encoded_key(TAG_SIG_PRIVATE, self.sig_private@)
    }

    /// The public halves.
    pub fn public_keys(&self) -> (r: PublicKeys)
        ensures
            r.enc_public@ == self.enc_public@,
            r.sig_public@ == self.sig_public@,
    {
        PublicKeys { enc_public: crate::bytes::copy_of(&self.enc_public), sig_public: crate::bytes::copy_of(&self.sig_public) }
    }

    /// The private-key file.
    pub fn to_private_bytes(&self) -> (r: Vec<u8>)
        ensures
            r@ == encoded_key(TAG_ENC_PUBLIC, self.enc_public@) + encoded_key(TAG_ENC_PRIVATE, self.enc_private@)
                + encoded_key(TAG_SIG_PUBLIC, self.sig_public@) + encoded_key(TAG_SIG_PRIVATE, self.sig_private@),
    {
        let mut r = encode_key(TAG_ENC_PUBLIC, &self.enc_public);
        let a = encode_key(TAG_ENC_PRIVATE, &self.enc_private);
        let b = encode_key(TAG_SIG_PUBLIC, &self.sig_public);
        let c = encode_key(TAG_SIG_PRIVATE, &self.sig_private);
        append(&mut r, &a);
        append(&mut r, &b);
        append(&mut r, &c);
        r
    }

    /// Reads a private-key file; `Format` unless it is four correctly
    /// tagged keys in order whose public halves belong to the private ones.
    pub fn from_private_bytes(b: &[u8]) -> (r: Result<Keypair, Error>)
        ensures
            r is Ok <==> Keypair::private_file_ok(b@),
            r is Err ==> r == Err::<Keypair, Error>(Error::Format),
            r matches Ok(k) ==> {
                &&& k.wf()
                &&& b@ == k.private_file_spec()
                &&& k.enc_public@ == b@.subrange(1, 33)
                &&& k.enc_private@ == b@.subrange(34, 66)
                &&& k.sig_public@ == b@.subrange(67, 99)
                &&& k.sig_private@ == b@.subrange(100, 132)
            },
    {
        if b.len() != PRIVATE_FILE_LEN {
            return Err(Error::Format);
        }
        let part0 = slice_of(b, 0, 33);
        let part1 = slice_of(b, 33, 66);
        let part2 = slice_of(b, 66, 99);
        let part3 = slice_of(b, 99, 132);
        let enc_public = decode_key(TAG_ENC_PUBLIC, &part0)?;
        let enc_private = decode_key(TAG_ENC_PRIVATE, &part1)?;
        let sig_public = decode_key(TAG_SIG_PUBLIC, &part2)?;
        let sig_private = decode_key(TAG_SIG_PRIVATE, &part3)?;
        assert(enc_public@ =~= b@.subrange(1, 33));
        assert(enc_private@ =~= b@.subrange(34, 66));
        assert(sig_public@ =~= b@.subrange(67, 99));
        assert(sig_private@ =~= b@.subrange(100, 132));
        let k = Keypair::from_private(enc_private, sig_private);
        if !same_bytes(&k.enc_public, &enc_public) || !same_bytes(&k.sig_public, &sig_public) {
            return Err(Error::Format);
        }
        proof {
            assert(part0@[0] == b@[0] && part1@[0] == b@[33] && part2@[0] == b@[66] && part3@[0] == b@[99]);
            assert(b@ =~= part0@ + part1@ + part2@ + part3@);
            assert(part0@ =~= encoded_key(TAG_ENC_PUBLIC, k.enc_public@));
            assert(part1@ =~= encoded_key(TAG_ENC_PRIVATE, k.enc_private@));
            assert(part2@ =~= encoded_key(TAG_SIG_PUBLIC, k.sig_public@));
            assert(part3@ =~= encoded_key(TAG_SIG_PRIVATE, k.sig_private@));
        }
        Ok(k)
    }
}

/// Whether two byte strings are equal.
pub fn same_bytes(a: &[u8], b: &[u8]) -> (r: bool)
    ensures
        r == (a@ == b@),
{
    if a.len() != b.len() {
        return false;
    }
    let mut i: usize = 0;
    while i < a.len()
        invariant
            a@.len() == b@.len(),
            i <= a@.len(),
            a@.subrange(0, i as int) == b@.subrange(0, i as int),
        decreases a@.len() - i,
    {
        if a[i] != b[i] {
            assert(a@.subrange(0, i + 1)[i as int] != b@.subrange(0, i + 1)[i as int]);
            return false;
        }
        i = i + 1;
        assert(a@.subrange(0, i as int) =~= a@.subrange(0, i - 1) + seq![a@[i - 1]]);
        assert(b@.subrange(0, i as int) =~= b@.subrange(0, i - 1) + seq![b@[i - 1]]);
    }
    assert(a@ =~= a@.subrange(0, a@.len() as int));
    assert(b@ =~= b@.subrange(0, b@.len() as int));
    true
}

} // verus!
