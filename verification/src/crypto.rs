//! Cryptographic primitives behind trusted contracts: SHA-256, the Argon2
//! key derivation, XChaCha20-Poly1305 sealing, Argon2 password hashing,
//! Ed25519 signatures and X25519 key agreement, plus the sources of
//! randomness and time that the callers hand on as plain values.

use vstd::prelude::*;
use crate::encoding::{b64_decode_of, b64_encode, b64_decode, hex_of, hex_encode};
use crate::errors::CryptoError;
use sha2::Digest;
use chacha20poly1305::KeyInit;
use chacha20poly1305::AeadCore;
use chacha20poly1305::aead::Aead;
use ed25519_dalek::Signer;
use ed25519_dalek::Verifier;
use argon2::PasswordHasher;
use argon2::PasswordVerifier;
use rand::RngCore;

verus! {

/// What SHA-256 returns for a byte sequence.
pub uninterp spec fn sha256_of(data: Seq<u8>) -> Seq<u8>;

/// Relies on `sha2::Sha256::digest`: a 32-byte digest that depends on the
/// input bytes alone.
#[verifier::external_body]
pub fn sha256(data: &[u8]) -> (r: Vec<u8>)
    ensures
        r@ == sha256_of(data@),
        r@.len() == 32,
{
    sha2::Sha256::digest(data).to_vec()
}

/// SHA-256 as a lowercase hex string, the content address used throughout
/// the store.
pub fn sha256_hex(data: &[u8]) -> (r: String)
    ensures
        r@ == hex_of(sha256_of(data@)),
        r@.len() == 64,
{
    let digest = sha256(data);
    let r = hex_encode(digest.as_slice());
    proof {
        crate::encoding::lemma_hex_of_len(sha256_of(data@));
    }
    r
}

/// What the Argon2 key derivation returns for a secret and a salt.
pub uninterp spec fn kdf_of(secret: Seq<u8>, salt: Seq<u8>) -> Seq<u8>;

/// Relies on `argon2::Argon2::hash_password_into` with the default
/// parameters: a 32-byte key that depends on the secret and salt alone.
#[verifier::external_body]
pub fn derive_key(secret: &[u8], salt: &[u8]) -> (r: Vec<u8>)
    requires
        secret@.len() <= 0xFFFFFFFF,
        8 <= salt@.len() <= 64,
    ensures
        r@ == kdf_of(secret@, salt@),
        r@.len() == 32,
{
    let mut out = [0u8; 32];
    argon2::Argon2::default()
        .hash_password_into(secret, salt, &mut out)
        .expect("derive_key: salt and output lengths are within the documented bounds");
    out.to_vec()
}

/// What XChaCha20-Poly1305 decryption returns for a key, ciphertext and
/// 24-byte nonce: the plaintext, or nothing when authentication fails.
pub uninterp spec fn aead_open_of(key: Seq<u8>, ct: Seq<u8>, nonce: Seq<u8>) -> Option<Seq<u8>>;

/// Relies on `chacha20poly1305::XChaCha20Poly1305::encrypt` with a fresh
/// random 24-byte nonce: decryption under the same key and nonce returns
/// the plaintext, and the tag adds 16 bytes.
#[verifier::external_body]
pub fn aead_seal(key: &[u8], plain: &[u8]) -> (r: Option<(Vec<u8>, Vec<u8>)>)
    requires
        key@.len() == 32,
    ensures
        match r {
            Some((ct, nonce)) => {
                &&& aead_open_of(key@, ct@, nonce@) == Some(plain@)
                &&& ct@.len() == plain@.len() + 16
                &&& nonce@.len() == 24
            },
            None => true,
        },
{
    let cipher = chacha20poly1305::XChaCha20Poly1305::new(key.into());
    let nonce = chacha20poly1305::XChaCha20Poly1305::generate_nonce(&mut chacha20poly1305::aead::OsRng);
    let ct = cipher.encrypt(&nonce, plain).ok()?;
    Some((ct, nonce.to_vec()))
}

/// Relies on `chacha20poly1305::XChaCha20Poly1305::decrypt`: succeeds
/// exactly when the ciphertext authenticates under the key and nonce.
#[verifier::external_body]
pub fn aead_open(key: &[u8], ct: &[u8], nonce: &[u8]) -> (r: Option<Vec<u8>>)
    requires
        key@.len() == 32,
        nonce@.len() == 24,
    ensures
        match r {
            Some(p) => aead_open_of(key@, ct@, nonce@) == Some(p@),
            None => aead_open_of(key@, ct@, nonce@) is None,
        },
{
    let cipher = chacha20poly1305::XChaCha20Poly1305::new(key.into());
    cipher.decrypt(chacha20poly1305::XNonce::from_slice(nonce), ct).ok()
}

/// Whether a ciphertext and nonce, both base64, open under a key to the
/// given plaintext.
pub open spec fn opens_to(key: Seq<u8>, ct_b64: Seq<char>, nonce_b64: Seq<char>, plain: Seq<u8>) -> bool {
    match (b64_decode_of(ct_b64), b64_decode_of(nonce_b64)) {
        (Some(ct), Some(nonce)) => nonce.len() == 24 && aead_open_of(key, ct, nonce) == Some(plain),
        _ => false,
    }
}

/// Seal a plaintext under a 32-byte key; the ciphertext and fresh nonce
/// come back base64-encoded, ready for storage or the wire.
pub fn encrypt_with_key(key: &[u8], plain: &[u8]) -> (r: Result<(String, String), CryptoError>)
    requires
        key@.len() == 32,
    ensures
        match r {
            Ok((ct_b64, nonce_b64)) => opens_to(key@, ct_b64@, nonce_b64@, plain@),
            Err(e) => e == CryptoError::Auth,
        },
{
    match aead_seal(key, plain) {
        Some((ct, nonce)) => Ok((b64_encode(ct.as_slice()), b64_encode(&nonce))),
        None => Err(CryptoError::Auth),
    }
}

/// Open a base64 ciphertext and nonce under a 32-byte key. Returns
/// `BadNonce` when the nonce is not base64 or not 24 bytes, and `Auth`
/// when the ciphertext is not base64 or does not authenticate.
pub fn decrypt_with_key(key: &[u8], ct_b64: &str, nonce_b64: &str) -> (r: Result<
    Vec<u8>,
    CryptoError,
>)
    requires
        key@.len() == 32,
    ensures
        match r {
            Ok(p) => opens_to(key@, ct_b64@, nonce_b64@, p@),
            Err(_) => forall|p: Seq<u8>| !opens_to(key@, ct_b64@, nonce_b64@, p),
        },
        r is Err ==> (r->Err_0 == CryptoError::BadNonce || r->Err_0 == CryptoError::Auth),
{
    let nonce = match b64_decode(nonce_b64) {
        Some(n) => n,
        None => {
            return Err(CryptoError::BadNonce);
        },
    };
    if nonce.len() != 24 {
        return Err(CryptoError::BadNonce);
    }
    let ct = match b64_decode(ct_b64) {
        Some(c) => c,
        None => {
            return Err(CryptoError::Auth);
        },
    };
    match aead_open(key, ct.as_slice(), nonce.as_slice()) {
        Some(p) => Ok(p),
        None => Err(CryptoError::Auth),
    }
}

/// What Argon2 password verification returns for a password and a stored
/// hash string.
pub uninterp spec fn pwhash_verify_of(password: Seq<u8>, hash: Seq<char>) -> bool;

/// Relies on `argon2::PasswordHasher::hash_password` with a fresh random
/// salt: the produced hash string verifies against the password.
#[verifier::external_body]
pub fn hash_data(password: &[u8]) -> (r: Result<String, CryptoError>)
    ensures
        match r {
            Ok(h) => pwhash_verify_of(password@, h@),
            Err(e) => e == CryptoError::KdfParam,
        },
{
    let salt = argon2::password_hash::SaltString::generate(&mut rand::rngs::OsRng);
    match argon2::Argon2::default().hash_password(password, &salt) {
        Ok(h) => Ok(h.to_string()),
        Err(_) => Err(CryptoError::KdfParam),
    }
}

/// Relies on `argon2::PasswordVerifier::verify_password`: the outcome
/// depends on the password and the hash string alone.
#[verifier::external_body]
pub fn verify_password(password: &[u8], hash: &str) -> (r: bool)
    ensures
        r == pwhash_verify_of(password@, hash@),
{
    match argon2::password_hash::PasswordHash::new(hash) {
        Ok(parsed) => argon2::Argon2::default().verify_password(password, &parsed).is_ok(),
        Err(_) => false,
    }
}

/// What the Ed25519 verifying key is for a 32-byte signing key.
pub uninterp spec fn ed_pk_of(sk: Seq<u8>) -> Seq<u8>;

/// What the Ed25519 signature is for a signing key and message.
pub uninterp spec fn ed_sign_of(sk: Seq<u8>, msg: Seq<u8>) -> Seq<u8>;

/// Whether an Ed25519 signature verifies for a verifying key and message.
pub uninterp spec fn ed_verify_of(vk: Seq<u8>, msg: Seq<u8>, sig: Seq<u8>) -> bool;

/// Relies on `ed25519_dalek::SigningKey::verifying_key`: a function of the
/// signing key bytes alone.
#[verifier::external_body]
pub fn ed_public_key(sk: &[u8]) -> (r: Vec<u8>)
    requires
        sk@.len() == 32,
    ensures
        r@ == ed_pk_of(sk@),
        r@.len() == 32,
{
    let mut key = [0u8; 32];
    key.copy_from_slice(sk);
    ed25519_dalek::SigningKey::from_bytes(&key).verifying_key().to_bytes().to_vec()
}

/// Relies on `ed25519_dalek::Signer::sign`: Ed25519 signing is
/// deterministic, yields 64 bytes, and the signature verifies under the
/// signer's verifying key.
#[verifier::external_body]
pub fn sign(sk: &[u8], msg: &[u8]) -> (r: Vec<u8>)
    requires
        sk@.len() == 32,
    ensures
        r@ == ed_sign_of(sk@, msg@),
        r@.len() == 64,
        ed_verify_of(ed_pk_of(sk@), msg@, r@),
{
    let mut key = [0u8; 32];
    key.copy_from_slice(sk);
    ed25519_dalek::SigningKey::from_bytes(&key).sign(msg).to_bytes().to_vec()
}

/// Relies on `ed25519_dalek::Verifier::verify`: the outcome depends on the
/// key, message and signature bytes alone; malformed keys or signatures
/// never verify.
#[verifier::external_body]
pub fn verify(vk: &[u8], msg: &[u8], sig: &[u8]) -> (r: bool)
    requires
        vk@.len() == 32,
    ensures
        r == ed_verify_of(vk@, msg@, sig@),
{
    let mut kb = [0u8; 32];
    kb.copy_from_slice(vk);
    let key = match ed25519_dalek::VerifyingKey::from_bytes(&kb) {
        Ok(k) => k,
        Err(_) => {
            return false;
        },
    };
    let signature = match ed25519_dalek::Signature::from_slice(sig) {
        Ok(s) => s,
        Err(_) => {
            return false;
        },
    };
    key.verify(msg, &signature).is_ok()
}

/// What the X25519 public key is for a 32-byte secret.
pub uninterp spec fn x_pk_of(sk: Seq<u8>) -> Seq<u8>;

/// What the X25519 shared secret is for a secret key and a peer public key.
pub uninterp spec fn x_dh_of(sk: Seq<u8>, pk: Seq<u8>) -> Seq<u8>;

/// Relies on `x25519_dalek::PublicKey::from`: a function of the secret
/// bytes alone.
#[verifier::external_body]
pub fn x_public_key(sk: &[u8]) -> (r: Vec<u8>)
    requires
        sk@.len() == 32,
    ensures
        r@ == x_pk_of(sk@),
        r@.len() == 32,
{
    let mut kb = [0u8; 32];
    kb.copy_from_slice(sk);
    let secret = x25519_dalek::StaticSecret::from(kb);
    x25519_dalek::PublicKey::from(&secret).as_bytes().to_vec()
}

/// Relies on `x25519_dalek::StaticSecret::diffie_hellman`: a function of
/// the two keys alone, and both sides of an exchange agree on it.
#[verifier::external_body]
pub fn diffie_hellman(sk: &[u8], pk: &[u8]) -> (r: Vec<u8>)
    requires
        sk@.len() == 32,
        pk@.len() == 32,
    ensures
        r@ == x_dh_of(sk@, pk@),
        r@.len() == 32,
        forall|other: Seq<u8>| pk@ == x_pk_of(other) ==> r@ == #[trigger] x_dh_of(
            other,
            x_pk_of(sk@),
        ),
{
    let mut skb = [0u8; 32];
    skb.copy_from_slice(sk);
    let mut pkb = [0u8; 32];
    pkb.copy_from_slice(pk);
    let secret = x25519_dalek::StaticSecret::from(skb);
    let public = x25519_dalek::PublicKey::from(pkb);
    secret.diffie_hellman(&public).to_bytes().to_vec()
}

/// Relies on `rand::rngs::OsRng::fill_bytes` for a fresh 16-byte value.
#[verifier::external_body]
pub fn rand_bytes_16() -> (r: Vec<u8>)
    ensures
        r@.len() == 16,
{
    let mut out = [0u8; 16];
    rand::rngs::OsRng.fill_bytes(&mut out);
    out.to_vec()
}

/// Relies on `rand::rngs::OsRng::fill_bytes` for a fresh 32-byte value.
#[verifier::external_body]
pub fn rand_bytes_32() -> (r: Vec<u8>)
    ensures
        r@.len() == 32,
{
    let mut out = [0u8; 32];
    rand::rngs::OsRng.fill_bytes(&mut out);
    out.to_vec()
}

/// Relies on `std::time::SystemTime::now`: seconds since the Unix epoch,
/// zero if the clock reads before it.
#[verifier::external_body]
pub fn now_unix() -> u64 {
    match std::time::SystemTime::now().duration_since(std::time::UNIX_EPOCH) {
        Ok(d) => d.as_secs(),
        Err(_) => 0,
    }
}

} // verus!
