//! Crypto primitives: a SHA-256 content hash, AES-256-GCM authenticated
//! encryption with a random 96-bit nonce prefix, and the save-key derivation.

use vstd::prelude::*;

use crate::errors::CacaoError;
use crate::strutil::ascii_bytes_to_string;

verus! {

/// The SHA-256 digest of a byte sequence, as the outside hash computes it.
pub uninterp spec fn sha256_of(data: Seq<u8>) -> Seq<u8>;

/// The plaintext that AES-256-GCM recovers from `nonce-prefixed ciphertext`
/// under `key`, or nothing when authentication fails.
pub uninterp spec fn aead_open_of(data: Seq<u8>, key: Seq<u8>) -> Option<Seq<u8>>;

/// Relies on sha2::Sha256 (Digest::update / Digest::finalize): SHA-256 is a
/// pure function of the input bytes and always yields a 32-byte digest.
#[verifier::external_body]
pub fn sha256_digest(data: &[u8]) -> (r: [u8; 32])
    ensures
        r@ == sha256_of(data@),
{
    let mut hasher: sha2::Sha256 = sha2::Digest::new();
    sha2::Digest::update(&mut hasher, data);
    let digest = sha2::Digest::finalize(hasher);
    let mut out = [0u8; 32];
    out.copy_from_slice(&digest);
    out
}

/// Relies on rand::rng (ThreadRng::fill_bytes): 12 bytes from a
/// cryptographically secure source; nothing is promised of their value.
#[verifier::external_body]
fn random_nonce() -> [u8; 12] {
    let mut bytes = [0u8; 12];
    rand::Rng::fill_bytes(&mut rand::rng(), &mut bytes);
    bytes
}

/// Relies on aes_gcm::Aes256Gcm (aead::Aead::encrypt, postfix tag): when the
/// cipher accepts the message, decrypting the nonce-prefixed result under the
/// same key yields the plaintext back, and the ciphertext is the plaintext
/// plus the 16-byte tag. The cipher rejects only messages over its 2^36 - 32
/// byte limit, and a 32-byte key always initializes it.
#[verifier::external_body]
fn aead_seal(key: &[u8; 32], nonce: &[u8; 12], plaintext: &[u8]) -> (r: Option<Vec<u8>>)
    ensures
        r matches Some(c) ==> aead_open_of(nonce@ + c@, key@) == Some(plaintext@),
        r matches Some(c) ==> c@.len() == plaintext@.len() + 16,
        plaintext@.len() <= 0xF_FFFF_FFE0 ==> r is Some,
{
    let cipher = match <aes_gcm::Aes256Gcm as aes_gcm::KeyInit>::new_from_slice(key) {
        Ok(c) => c,
        Err(_) => return None,
    };
    let nonce = aes_gcm::Nonce::from(*nonce);
    aes_gcm::aead::Aead::encrypt(&cipher, &nonce, plaintext).ok()
}

/// Relies on aes_gcm::Aes256Gcm (aead::Aead::decrypt): authenticated
/// decryption is a deterministic function of the nonce-prefixed ciphertext
/// and the key; it returns the plaintext exactly when authentication passes.
#[verifier::external_body]
fn aead_open(key: &[u8; 32], data: &[u8]) -> (r: Option<Vec<u8>>)
    requires
        data@.len() >= 12,
    ensures
        r matches Some(p) ==> aead_open_of(data@, key@) == Some(p@),
        r is Some <==> aead_open_of(data@, key@) is Some,
{
    let cipher = match <aes_gcm::Aes256Gcm as aes_gcm::KeyInit>::new_from_slice(key) {
        Ok(c) => c,
        Err(_) => return None,
    };
    let (nonce_bytes, ciphertext) = data.split_at(12);
    let nonce = aes_gcm::Nonce::<aes_gcm::aead::consts::U12>::from_slice(nonce_bytes);
    aes_gcm::aead::Aead::decrypt(&cipher, nonce, ciphertext).ok()
}

/// One hex digit, lower case.
pub open spec fn hex_digit(n: u8) -> char {
    ((if n < 10 {
        n + 48
    } else {
        n + 87
    }) as u8) as char
}

/// The lower-case hex rendering of a byte sequence, two digits per byte.
pub open spec fn hex_of(bytes: Seq<u8>) -> Seq<char> {
    Seq::new(
        bytes.len() * 2,
        |i: int|
            if i % 2 == 0 {
                hex_digit(bytes[i / 2] / 16)
            } else {
                hex_digit(bytes[i / 2] % 16)
            },
    )
}

/// The hex-rendered SHA-256 digest, as it is embedded in manifests and saves.
pub open spec fn sha256_hex_of(data: Seq<u8>) -> Seq<char> {
    hex_of(sha256_of(data))
}

fn hex_digit_exec(n: u8) -> (r: u8)
    requires
        n < 16,
    ensures
        r == hex_digit(n) as u8,
        r < 128,
        (hex_digit(n) as u32) < 128,
{
    if n < 10 {
        n + 48
    } else {
        n + 87
    }
}

/// Renders bytes as lower-case hex, two digits per byte.
pub fn bytes_to_hex(bytes: &[u8]) -> (r: String)
    requires
        bytes@.len() * 2 <= usize::MAX,
    ensures
        r@ == hex_of(bytes@),
{
    let n = bytes.len();
    let mut out: Vec<u8> = Vec::new();
    let mut i: usize = 0;
    while i < n
        invariant
            n == bytes@.len(),
            n * 2 <= usize::MAX,
            0 <= i <= n,
            out@.len() == 2 * i,
            forall|j: int| 0 <= j < 2 * i ==> #[trigger] out@[j] < 128,
            forall|j: int|
                0 <= j < 2 * i ==> out@[j] == #[trigger] hex_of(bytes@)[j] as u8
                    && (hex_of(bytes@)[j] as u32) < 128,
        decreases n - i,
    {
        let b = bytes[i];
        let hi = hex_digit_exec(b / 16);
        let lo = hex_digit_exec(b % 16);
        out.push(hi);
        out.push(lo);
        i = i + 1;
    }
    let r = ascii_bytes_to_string(out);
    proof {
        assert(r@ =~= hex_of(bytes@));
    }
    r
}

/// The hex-rendered SHA-256 content hash of `data`.
pub fn hash_data(data: &[u8]) -> (r: String)
    ensures
        r@ == sha256_hex_of(data@),
        r@.len() == 64,
{
    let digest = sha256_digest(data);
    let r = bytes_to_hex(digest.as_slice());
    r
}

/// The fixed salt appended to a secret key before hashing it into a save key.
pub open spec fn save_salt() -> Seq<u8> {
    vstd::utf8::encode_utf8("cacao_engine_salt"@)
}

/// The 256-bit save encryption key a secret key derives to.
pub open spec fn save_key_of(secret: Seq<char>) -> Seq<u8> {
    sha256_of(vstd::utf8::encode_utf8(secret) + save_salt())
}

/// Derives the AES-256 key for a bundle's saves from its secret key. The
/// fixed salt makes the derivation stable across machines.
pub fn derive_encryption_key(secret_key: &str) -> (r: [u8; 32])
    ensures
        r@ == save_key_of(secret_key@),
{
    let mut message = secret_key.as_bytes_vec();
    let mut salt = "cacao_engine_salt".as_bytes_vec();
    message.append(&mut salt);
    sha256_digest(message.as_slice())
}

/// Encrypts `data` under `key` with AES-256-GCM and a fresh random 96-bit
/// nonce; the result is the nonce followed by the tag-included ciphertext,
/// and decrypting it under the same key yields `data` again. Every message
/// up to the cipher's 2^36 - 32 byte limit is accepted.
pub fn encrypt_data(data: &[u8], key: &[u8; 32]) -> (r: Result<Vec<u8>, CacaoError>)
    ensures
        r matches Ok(c) ==> c@.len() == data@.len() + 28 && aead_open_of(c@, key@) == Some(data@),
        data@.len() <= 0xF_FFFF_FFE0 ==> r is Ok,
        r matches Err(e) ==> e is CryptoError,
{
    let nonce = random_nonce();
    match aead_seal(key, &nonce, data) {
        Some(sealed) => {
            let mut out: Vec<u8> = Vec::new();
            out.extend_from_slice(nonce.as_slice());
            out.extend_from_slice(sealed.as_slice());
            proof {
                assert(out@ =~= nonce@ + sealed@);
            }
            Ok(out)
        },
        None => Err(CacaoError::CryptoError(String::from_str("Encryption failed"))),
    }
}

/// Decrypts a nonce-prefixed AES-256-GCM ciphertext under `key`. Fails with
/// `CryptoError` exactly when the input is shorter than 12 bytes or when
/// authentication fails.
pub fn decrypt_data(data: &[u8], key: &[u8; 32]) -> (r: Result<Vec<u8>, CacaoError>)
    ensures
        r matches Ok(p) ==> data@.len() >= 12 && aead_open_of(data@, key@) == Some(p@),
        r is Ok <==> data@.len() >= 12 && aead_open_of(data@, key@) is Some,
        r matches Err(e) ==> e is CryptoError,
{
    if data.len() < 12 {
        return Err(CacaoError::CryptoError(String::from_str("Invalid encrypted data: too short")));
    }
    match aead_open(key, data) {
        Some(plain) => Ok(plain),
        None => Err(CacaoError::CryptoError(String::from_str("Decryption failed"))),
    }
}

} // verus!
