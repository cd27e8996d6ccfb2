//! Keyed symmetric cipher: authenticated encryption of plaintext bytes under
//! a passphrase-derived key.
//!
//! The key is the SHA3-256 digest of the passphrase. Sealing draws a fresh
//! random 96-bit nonce, runs AES-256-GCM with no associated data, and encodes
//! `nonce || ciphertext || tag` as base64 (standard alphabet, padded) — the
//! envelope. Opening reverses each step and fails with the class that names
//! the step that refused.

use crate::error::Error;
use crate::error::ErrorKind;
use aes_gcm::aead::Aead;
use aes_gcm::aead::OsRng;
use aes_gcm::AeadCore;
use aes_gcm::Aes256Gcm;
use aes_gcm::Key;
use aes_gcm::KeyInit;
use aes_gcm::Nonce;
use base64::Engine;
use sha3::Digest;
use vstd::prelude::*;

verus! {

/// The 256-bit key derived from a passphrase: the SHA3-256 digest of its
/// UTF-8 bytes, a function of the passphrase alone.
pub uninterp spec fn sha3_256_of(passphrase: Seq<char>) -> Seq<u8>;

/// What AES-256-GCM opens a ciphertext with its trailing 16-byte tag to,
/// under a 32-byte key and a 12-byte nonce: the plaintext, or `None` where
/// the tag does not verify.
pub uninterp spec fn aes256_gcm_open(key: Seq<u8>, nonce: Seq<u8>, ciphertext: Seq<u8>) -> Option<
    Seq<u8>,
>;

/// What base64 (standard alphabet, padded, canonical) decodes a text to: the
/// bytes, or `None` where the text is not a canonical encoding.
pub uninterp spec fn base64_decode_of(text: Seq<char>) -> Option<Seq<u8>>;

/// The most plaintext bytes one seal accepts: 1 GiB, comfortably within
/// AES-256-GCM's own limit of 2^36 bytes and small enough that the base64
/// encoder's buffer arithmetic cannot overflow on any machine.
pub const MAX_PLAINTEXT_LEN: u64 = 0x40000000;

/// A struct that derives the cipher key from the passphrase
pub struct Sha256;

impl Sha256 {
    /// Relies on `sha3::Sha3_256::digest`: a 32-byte digest that is a
    /// function of the input bytes alone, named by [`sha3_256_of`].
    #[verifier::external_body]
    pub fn digest(data: &str) -> (r: Vec<u8>)
        ensures
            r@ == sha3_256_of(data@),
            r@.len() == 32,
    {
        sha3::Sha3_256::digest(data.as_bytes()).to_vec()
    }
}

/// Relies on `aead::OsRng` through `Aes256Gcm::generate_nonce`: a fresh
/// random 96-bit nonce; nothing is promised of its value beyond its length.
#[verifier::external_body]
fn generate_nonce() -> (r: Vec<u8>)
    ensures
        r@.len() == 12,
{
    Aes256Gcm::generate_nonce(&mut OsRng).to_vec()
}

/// Relies on `aes_gcm::Aes256Gcm`'s encrypt: the ciphertext with its 16-byte
/// tag appended. Its source accepts any plaintext of at most 2^36 bytes, and
/// opening the result under the same key and nonce gives the plaintext back.
#[verifier::external_body]
fn aes_encrypt(key: &Vec<u8>, nonce: &Vec<u8>, plaintext: &Vec<u8>) -> (r: Vec<u8>)
    requires
        key@.len() == 32,
        nonce@.len() == 12,
        plaintext@.len() <= MAX_PLAINTEXT_LEN,
    ensures
        r@.len() == plaintext@.len() + 16,
        aes256_gcm_open(key@, nonce@, r@) == Some(plaintext@),
{
    let key = Key::<Aes256Gcm>::from_slice(key.as_slice());
    let nonce = Nonce::from_slice(nonce.as_slice());
    let cipher = Aes256Gcm::new(key);
    cipher.encrypt(nonce, plaintext.as_slice()).unwrap()
}

/// Relies on `aes_gcm::Aes256Gcm`'s decrypt: verifies the trailing 16-byte
/// tag; the result is a function of key, nonce and ciphertext alone, named by
/// [`aes256_gcm_open`].
#[verifier::external_body]
fn aes_decrypt(key: &Vec<u8>, nonce: &Vec<u8>, ciphertext: &Vec<u8>) -> (r: Option<Vec<u8>>)
    requires
        key@.len() == 32,
        nonce@.len() == 12,
    ensures
        match r {
            Some(p) => aes256_gcm_open(key@, nonce@, ciphertext@) == Some(p@),
            None => aes256_gcm_open(key@, nonce@, ciphertext@) is None,
        },
{
    let key = Key::<Aes256Gcm>::from_slice(key.as_slice());
    let nonce = Nonce::from_slice(nonce.as_slice());
    let cipher = Aes256Gcm::new(key);
    cipher.decrypt(nonce, ciphertext.as_slice()).ok()
}

/// Relies on base64's standard padded engine: encodes bytes to text; the
/// engine's decoder is canonical, so the encoding decodes back to the same
/// bytes.
#[verifier::external_body]
fn b64_encode(data: &Vec<u8>) -> (r: String)
    requires
        data@.len() <= MAX_PLAINTEXT_LEN + 28,
    ensures
        base64_decode_of(r@) == Some(data@),
{
    base64::prelude::BASE64_STANDARD.encode(data.as_slice())
}

/// Relies on base64's standard padded engine: decoding is a function of the
/// text alone, named by [`base64_decode_of`].
#[verifier::external_body]
fn b64_decode(data: &str) -> (r: Option<Vec<u8>>)
    ensures
        match r {
            Some(b) => base64_decode_of(data@) == Some(b@),
            None => base64_decode_of(data@) is None,
        },
{
    base64::prelude::BASE64_STANDARD.decode(data.as_bytes()).ok()
}

/// What opening an envelope under a passphrase yields: the plaintext bytes,
/// or the failure class of the step that refused — `DecodeError` for
/// malformed base64 or a blob shorter than the nonce, `AuthenticationFailed`
/// where the tag does not verify.
pub open spec fn cipher_plain_of(passphrase: Seq<char>, envelope: Seq<char>) -> Result<
    Seq<u8>,
    ErrorKind,
> {
    match base64_decode_of(envelope) {
        None => Err(ErrorKind::DecodeError),
        Some(blob) => {
            if blob.len() < 12 {
                Err(ErrorKind::DecodeError)
            } else {
                match aes256_gcm_open(
                    sha3_256_of(passphrase),
                    blob.subrange(0, 12),
                    blob.subrange(12, blob.len() as int),
                ) {
                    None => Err(ErrorKind::AuthenticationFailed),
                    Some(plain) => Ok(plain),
                }
            }
        },
    }
}

/// A struct that seals and opens envelopes under a passphrase
pub struct Aes;

impl Aes {
    /// Seal plaintext bytes under a passphrase into an envelope that opens
    /// back to exactly those bytes under the same passphrase. The envelope
    /// decodes as base64 to the 12-byte nonce, the ciphertext (as long as the
    /// plaintext) and the 16-byte tag.
    pub fn encrypt(plaintext: &Vec<u8>, key: &str) -> (r: Result<String, Error>)
        ensures
            match r {
                Ok(env) => plaintext@.len() <= MAX_PLAINTEXT_LEN && cipher_plain_of(key@, env@)
                    == Ok::<Seq<u8>, ErrorKind>(plaintext@) && (match base64_decode_of(env@) {
                    Some(blob) => blob.len() == plaintext@.len() + 12 + 16,
                    None => false,
                }),
                Err(e) => e.spec_kind() == ErrorKind::EncryptionFailed && plaintext@.len()
                    > MAX_PLAINTEXT_LEN,
            },
    {
        if plaintext.len() as u64 > MAX_PLAINTEXT_LEN {
            return Err(Error::from(ErrorKind::EncryptionFailed));
        }
        let key_hash = Sha256::digest(key);
        let mut sealed = generate_nonce();
        let mut ciphertext = aes_encrypt(&key_hash, &sealed, plaintext);
        let ghost nonce_view = sealed@;
        let ghost ct_view = ciphertext@;
        sealed.append(&mut ciphertext);
        proof {
            assert(sealed@.subrange(0, 12) =~= nonce_view);
            assert(sealed@.subrange(12, sealed@.len() as int) =~= ct_view);
        }
        Ok(b64_encode(&sealed))
    }

    /// Open an envelope under a passphrase: exactly [`cipher_plain_of`].
    pub fn decrypt(data: &str, key: &str) -> (r: Result<Vec<u8>, Error>)
        ensures
            match r {
                Ok(p) => cipher_plain_of(key@, data@) == Ok::<Seq<u8>, ErrorKind>(p@),
                Err(e) => cipher_plain_of(key@, data@) == Err::<Seq<u8>, ErrorKind>(
                    e.spec_kind(),
                ),
            },
    {
        let blob = match b64_decode(data) {
            None => {
                return Err(Error::from(ErrorKind::DecodeError));
            },
            Some(b) => b,
        };
        if blob.len() < 12 {
            return Err(Error::from(ErrorKind::DecodeError));
        }
        let key_hash = Sha256::digest(key);
        let mut nonce: Vec<u8> = Vec::new();
        let mut i: usize = 0;
        while i < 12
            invariant
                i <= 12 <= blob@.len(),
                nonce@ == blob@.subrange(0, i as int),
            decreases 12 - i,
        {
            nonce.push(blob[i]);
            i = i + 1;
            proof {
                assert(nonce@ =~= blob@.subrange(0, i as int));
            }
        }
        let mut ciphertext: Vec<u8> = Vec::new();
        let mut k: usize = 12;
        while k < blob.len()
            invariant
                12 <= k <= blob@.len(),
                ciphertext@ == blob@.subrange(12, k as int),
            decreases blob@.len() - k,
        {
            ciphertext.push(blob[k]);
            k = k + 1;
            proof {
                assert(ciphertext@ =~= blob@.subrange(12, k as int));
            }
        }
        proof {
            assert(ciphertext@ =~= blob@.subrange(12, blob@.len() as int));
        }
        match aes_decrypt(&key_hash, &nonce, &ciphertext) {
            None => Err(Error::from(ErrorKind::AuthenticationFailed)),
            Some(p) => Ok(p),
        }
    }
}

} // verus!
