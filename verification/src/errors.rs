//! Error kinds shared across the crate.

use vstd::prelude::*;

verus! {

/// Failures of the cryptographic primitives.
#[derive(Debug, Clone, Copy, PartialEq, Eq, Structural)]
pub enum CryptoError {
    /// A key had the wrong length or shape.
    BadKey,
    /// A nonce had the wrong length or shape.
    BadNonce,
    /// Authentication failed on decryption.
    Auth,
    /// The key-derivation parameters were rejected.
    KdfParam,
}

/// Failures of the invite codec.
#[derive(Debug, Clone, Copy, PartialEq, Eq, Structural)]
pub enum InviteError {
    /// The passphrase is not exactly 14 ASCII characters.
    BadLength,
    /// The envelope is syntactically broken (salt or payload encoding).
    Encoding,
    /// Encryption itself failed.
    Crypto,
}

/// Failures of the hierarchical key tree import and export.
#[derive(Debug, Clone, Copy, PartialEq, Eq, Structural)]
pub enum HksError {
    /// The friend cap was reached.
    Capacity,
    /// A key had the wrong length or shape.
    BadKey,
    /// Our public key has no entry in the blob's roster.
    NotInRoster,
    /// The blob's signature does not verify.
    BadSignature,
    /// An up-link is missing at the given node index.
    BrokenLink(usize),
    /// An up-link or leaf entry failed to decrypt at the given node index.
    BadAuth(usize),
    /// The blob bytes do not decode to a well-formed blob.
    Encoding,
}

/// Failures of the local store and object store.
#[derive(Debug, Clone, Copy, PartialEq, Eq, Structural)]
pub enum StoreError {
    /// No row with the given key exists.
    NotFound,
    /// A row with the given key already exists.
    Duplicate,
    /// A chunk named by a file is absent from the chunk store.
    ChunkMissing,
    /// Received bytes do not hash to the name they came under.
    HashMismatch,
    /// A row the operation needs is absent, or the row to remove is
    /// still referenced.
    ForeignKey,
}

impl CryptoError {
    /// A short description, in place of a `Display` impl.
    pub fn message(&self) -> (r: &'static str)
        ensures
            r@.len() > 0,
    {
        let r = match self {
            CryptoError::BadKey => "bad key",
            CryptoError::BadNonce => "bad nonce",
            CryptoError::Auth => "authentication failed",
            CryptoError::KdfParam => "key derivation rejected",
        };
        proof {
            reveal_strlit("bad key");
            reveal_strlit("bad nonce");
            reveal_strlit("authentication failed");
            reveal_strlit("key derivation rejected");
        }
        r
    }
}

impl StoreError {
    /// A short description, in place of a `Display` impl.
    pub fn message(&self) -> (r: &'static str)
        ensures
            r@.len() > 0,
    {
        let r = match self {
            StoreError::NotFound => "not found",
            StoreError::Duplicate => "already present",
            StoreError::ChunkMissing => "chunk missing",
            StoreError::HashMismatch => "chunk bytes do not match their hash",
            StoreError::ForeignKey => "foreign key constraint failed",
        };
        proof {
            reveal_strlit("not found");
            reveal_strlit("already present");
            reveal_strlit("chunk missing");
            reveal_strlit("chunk bytes do not match their hash");
            reveal_strlit("foreign key constraint failed");
        }
        r
    }
}

} // verus!
