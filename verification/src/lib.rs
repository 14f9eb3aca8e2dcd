//! Core of a peer-to-peer chat node: identity and invitation cryptography,
//! a hierarchical key tree for group-readable blobs, a content-addressed
//! object store, the local message store, and the decision logic of the
//! network manager. Network and disk I/O live outside this crate; every
//! call into an outside library goes through a small trusted wrapper whose
//! contract names what the library returns.

pub mod config;
pub mod crypto;
pub mod dm;
pub mod encoding;
pub mod errors;
pub mod hks;
pub mod invite;
pub mod json;
pub mod manager;
pub mod message;
pub mod mdns;
pub mod oauth;
pub mod object;
pub mod rendezvous;
pub mod store;
pub mod stun;
pub mod text;
pub mod theme;
