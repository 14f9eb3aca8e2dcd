//! The hierarchical key set: a complete binary tree of node keys that
//! lets one published blob carry a payload readable by every enrolled
//! friend, the canonical JSON wire form of that blob, and its signing.

use vstd::prelude::*;
use crate::crypto::{
    aead_open_of,
    aead_seal,
    diffie_hellman,
    ed_pk_of,
    ed_public_key,
    ed_sign_of,
    ed_verify_of,
    rand_bytes_32,
    sign,
    verify,
    x_dh_of,
    x_pk_of,
    x_public_key,
};
use crate::encoding::{
    b64_decode,
    b64_decode_of,
    b64_encode,
    b64_of,
    inflate_of,
    zlib_compress,
    zlib_decompress,
};
use crate::errors::HksError;
use crate::json::{
    check_lit,
    dec_rep,
    esc,
    jstr,
    match_lit,
    parse_string_at,
    parse_u64_at,
    push_bytes,
    spec_parse_string,
    spec_parse_u64,
    write_json_string,
    write_u64,
};
use crate::text::{str_eq, string_from_utf8};
use vstd::string::StringSliceAdditionalSpecFns;

verus! {

/// How deep the tree is.
pub const TREE_DEPTH: u32 = 12;

/// The number of nodes of the complete binary tree.
pub const MAX_NODES: usize = 8191;

/// The index of the first leaf.
pub const LEAF_START_IDX: usize = 4095;

/// The friend cap.
pub const MAX_FRIENDS: usize = 15000;

/// One enrolled friend: its X25519 public key and its leaf key sealed
/// under the shared secret.
#[derive(Debug, Clone)]
pub struct FriendEntry {
    pub name: String,
    /// Base64 of the friend's X25519 public key.
    pub x25519_pubkey: String,
    /// Base64 ciphertext of the leaf key, sealed under the shared secret.
    pub encrypted_leaf_key: String,
    /// Base64 nonce of that sealing.
    pub nonce: String,
    pub leaf_index: usize,
}

/// An invitation published with the blob, expiring two minutes after
/// `created_at`.
#[derive(Debug, Clone)]
pub struct TrackedInvite {
    /// Base64 of the 16-byte Argon2 salt.
    pub salt: String,
    /// Base64 of the XChaCha20 nonce.
    pub nonce: String,
    /// Base64 of the sealed payload.
    pub ciphertext: String,
    /// Unix time of creation.
    pub created_at: u64,
}

/// The invitee's answer envelope, published under its own directory
/// entry, expiring like an invitation.
#[derive(Debug, Clone)]
pub struct ShadowInvite {
    /// The normalized name of the peer the shadow answers.
    pub target_username: String,
    /// Base64 of the 16-byte Argon2 salt.
    pub salt: String,
    /// Base64 of the XChaCha20 nonce.
    pub nonce: String,
    /// Base64 of the sealed payload.
    pub ciphertext: String,
    /// Unix time of creation.
    pub created_at: u64,
}

/// The published blob: the sealed payload, one up-link per non-root node
/// (entry `i` belongs to node `i + 1` and seals that node's parent key
/// under its own key), the roster, an Ed25519 signature over the blob
/// with the signature field empty, and the appended invitations and
/// shadows.
#[derive(Debug, Clone)]
pub struct PublishedBlob {
    pub payload: String,
    pub payload_nonce: String,
    /// `(nonce, ciphertext)` pairs, base64.
    pub tree_links: Vec<(String, String)>,
    pub roster: Vec<FriendEntry>,
    pub signature: String,
    pub sender_x25519_pubkey: String,
    pub invitations: Vec<TrackedInvite>,
    pub shadow_invites: Vec<ShadowInvite>,
}

// --- Views ---

pub ghost struct FriendEntryV {
    pub name: Seq<char>,
    pub x25519_pubkey: Seq<char>,
    pub encrypted_leaf_key: Seq<char>,
    pub nonce: Seq<char>,
    pub leaf_index: int,
}

pub ghost struct TrackedInviteV {
    pub salt: Seq<char>,
    pub nonce: Seq<char>,
    pub ciphertext: Seq<char>,
    pub created_at: u64,
}

pub ghost struct ShadowInviteV {
    pub target_username: Seq<char>,
    pub salt: Seq<char>,
    pub nonce: Seq<char>,
    pub ciphertext: Seq<char>,
    pub created_at: u64,
}

pub ghost struct PublishedBlobV {
    pub payload: Seq<char>,
    pub payload_nonce: Seq<char>,
    pub tree_links: Seq<(Seq<char>, Seq<char>)>,
    pub roster: Seq<FriendEntryV>,
    pub signature: Seq<char>,
    pub sender_x25519_pubkey: Seq<char>,
    pub invitations: Seq<TrackedInviteV>,
    pub shadow_invites: Seq<ShadowInviteV>,
}

impl View for FriendEntry {
    type V = FriendEntryV;

    open spec fn view(&self) -> FriendEntryV {
        FriendEntryV {
            name: self.name@,
            x25519_pubkey: self.x25519_pubkey@,
            encrypted_leaf_key: self.encrypted_leaf_key@,
            nonce: self.nonce@,
            leaf_index: self.leaf_index as int,
        }
    }
}

impl View for TrackedInvite {
    type V = TrackedInviteV;

    open spec fn view(&self) -> TrackedInviteV {
        TrackedInviteV {
            salt: self.salt@,
            nonce: self.nonce@,
            ciphertext: self.ciphertext@,
            created_at: self.created_at,
        }
    }
}

impl View for ShadowInvite {
    type V = ShadowInviteV;

    open spec fn view(&self) -> ShadowInviteV {
        ShadowInviteV {
            target_username: self.target_username@,
            salt: self.salt@,
            nonce: self.nonce@,
            ciphertext: self.ciphertext@,
            created_at: self.created_at,
        }
    }
}

impl View for PublishedBlob {
    type V = PublishedBlobV;

    open spec fn view(&self) -> PublishedBlobV {
        PublishedBlobV {
            payload: self.payload@,
            payload_nonce: self.payload_nonce@,
            tree_links: self.tree_links@.map_values(|p: (String, String)| (p.0@, p.1@)),
            roster: self.roster@.map_values(|f: FriendEntry| f@),
            signature: self.signature@,
            sender_x25519_pubkey: self.sender_x25519_pubkey@,
            invitations: self.invitations@.map_values(|t: TrackedInvite| t@),
            shadow_invites: self.shadow_invites@.map_values(|t: ShadowInvite| t@),
        }
    }
}

// --- The wire form ---

/// The literal `{"payload":` of the blob schema.
pub open spec fn bl_payload() -> Seq<u8> {
    seq![123u8, 34u8, 112u8, 97u8, 121u8, 108u8, 111u8, 97u8, 100u8, 34u8, 58u8]
}

fn bl_payload_vec() -> (r: Vec<u8>)
    ensures
        r@ == bl_payload(),
{
    let mut v: Vec<u8> = Vec::new();
    v.push(123u8);
    v.push(34u8);
    v.push(112u8);
    v.push(97u8);
    v.push(121u8);
    v.push(108u8);
    v.push(111u8);
    v.push(97u8);
    v.push(100u8);
    v.push(34u8);
    v.push(58u8);
    proof {
        assert(v@ =~= bl_payload());
    }
    v
}

/// The literal `,"payload_nonce":` of the blob schema.
pub open spec fn bl_payload_nonce() -> Seq<u8> {
    seq![44u8, 34u8, 112u8, 97u8, 121u8, 108u8, 111u8, 97u8, 100u8, 95u8, 110u8, 111u8, 110u8, 99u8, 101u8, 34u8, 58u8]
}

fn bl_payload_nonce_vec() -> (r: Vec<u8>)
    ensures
        r@ == bl_payload_nonce(),
{
    let mut v: Vec<u8> = Vec::new();
    v.push(44u8);
    v.push(34u8);
    v.push(112u8);
    v.push(97u8);
    v.push(121u8);
    v.push(108u8);
    v.push(111u8);
    v.push(97u8);
    v.push(100u8);
    v.push(95u8);
    v.push(110u8);
    v.push(111u8);
    v.push(110u8);
    v.push(99u8);
    v.push(101u8);
    v.push(34u8);
    v.push(58u8);
    proof {
        assert(v@ =~= bl_payload_nonce());
    }
    v
}

/// The literal `,"tree_links":[` of the blob schema.
pub open spec fn bl_tree_links() -> Seq<u8> {
    seq![44u8, 34u8, 116u8, 114u8, 101u8, 101u8, 95u8, 108u8, 105u8, 110u8, 107u8, 115u8, 34u8, 58u8, 91u8]
}

fn bl_tree_links_vec() -> (r: Vec<u8>)
    ensures
        r@ == bl_tree_links(),
{
    let mut v: Vec<u8> = Vec::new();
    v.push(44u8);
    v.push(34u8);
    v.push(116u8);
    v.push(114u8);
    v.push(101u8);
    v.push(101u8);
    v.push(95u8);
    v.push(108u8);
    v.push(105u8);
    v.push(110u8);
    v.push(107u8);
    v.push(115u8);
    v.push(34u8);
    v.push(58u8);
    v.push(91u8);
    proof {
        assert(v@ =~= bl_tree_links());
    }
    v
}

/// The literal `],"roster":[` of the blob schema.
pub open spec fn bl_roster() -> Seq<u8> {
    seq![93u8, 44u8, 34u8, 114u8, 111u8, 115u8, 116u8, 101u8, 114u8, 34u8, 58u8, 91u8]
}

fn bl_roster_vec() -> (r: Vec<u8>)
    ensures
        r@ == bl_roster(),
{
    let mut v: Vec<u8> = Vec::new();
    v.push(93u8);
    v.push(44u8);
    v.push(34u8);
    v.push(114u8);
    v.push(111u8);
    v.push(115u8);
    v.push(116u8);
    v.push(101u8);
    v.push(114u8);
    v.push(34u8);
    v.push(58u8);
    v.push(91u8);
    proof {
        assert(v@ =~= bl_roster());
    }
    v
}

/// The literal `{"name":` of the blob schema.
pub open spec fn bl_name() -> Seq<u8> {
    seq![123u8, 34u8, 110u8, 97u8, 109u8, 101u8, 34u8, 58u8]
}

fn bl_name_vec() -> (r: Vec<u8>)
    ensures
        r@ == bl_name(),
{
    let mut v: Vec<u8> = Vec::new();
    v.push(123u8);
    v.push(34u8);
    v.push(110u8);
    v.push(97u8);
    v.push(109u8);
    v.push(101u8);
    v.push(34u8);
    v.push(58u8);
    proof {
        assert(v@ =~= bl_name());
    }
    v
}

/// The literal `,"x25519_pubkey":` of the blob schema.
pub open spec fn bl_x25519() -> Seq<u8> {
    seq![44u8, 34u8, 120u8, 50u8, 53u8, 53u8, 49u8, 57u8, 95u8, 112u8, 117u8, 98u8, 107u8, 101u8, 121u8, 34u8, 58u8]
}

fn bl_x25519_vec() -> (r: Vec<u8>)
    ensures
        r@ == bl_x25519(),
{
    let mut v: Vec<u8> = Vec::new();
    v.push(44u8);
    v.push(34u8);
    v.push(120u8);
    v.push(50u8);
    v.push(53u8);
    v.push(53u8);
    v.push(49u8);
    v.push(57u8);
    v.push(95u8);
    v.push(112u8);
    v.push(117u8);
    v.push(98u8);
    v.push(107u8);
    v.push(101u8);
    v.push(121u8);
    v.push(34u8);
    v.push(58u8);
    proof {
        assert(v@ =~= bl_x25519());
    }
    v
}

/// The literal `,"encrypted_leaf_key":` of the blob schema.
pub open spec fn bl_enc_leaf() -> Seq<u8> {
    seq![44u8, 34u8, 101u8, 110u8, 99u8, 114u8, 121u8, 112u8, 116u8, 101u8, 100u8, 95u8, 108u8, 101u8, 97u8, 102u8, 95u8, 107u8, 101u8, 121u8, 34u8, 58u8]
}

fn bl_enc_leaf_vec() -> (r: Vec<u8>)
    ensures
        r@ == bl_enc_leaf(),
{
    let mut v: Vec<u8> = Vec::new();
    v.push(44u8);
    v.push(34u8);
    v.push(101u8);
    v.push(110u8);
    v.push(99u8);
    v.push(114u8);
    v.push(121u8);
    v.push(112u8);
    v.push(116u8);
    v.push(101u8);
    v.push(100u8);
    v.push(95u8);
    v.push(108u8);
    v.push(101u8);
    v.push(97u8);
    v.push(102u8);
    v.push(95u8);
    v.push(107u8);
    v.push(101u8);
    v.push(121u8);
    v.push(34u8);
    v.push(58u8);
    proof {
        assert(v@ =~= bl_enc_leaf());
    }
    v
}

/// The literal `,"nonce":` of the blob schema.
pub open spec fn bl_nonce() -> Seq<u8> {
    seq![44u8, 34u8, 110u8, 111u8, 110u8, 99u8, 101u8, 34u8, 58u8]
}

fn bl_nonce_vec() -> (r: Vec<u8>)
    ensures
        r@ == bl_nonce(),
{
    let mut v: Vec<u8> = Vec::new();
    v.push(44u8);
    v.push(34u8);
    v.push(110u8);
    v.push(111u8);
    v.push(110u8);
    v.push(99u8);
    v.push(101u8);
    v.push(34u8);
    v.push(58u8);
    proof {
        assert(v@ =~= bl_nonce());
    }
    v
}

/// The literal `,"leaf_index":` of the blob schema.
pub open spec fn bl_leaf_index() -> Seq<u8> {
    seq![44u8, 34u8, 108u8, 101u8, 97u8, 102u8, 95u8, 105u8, 110u8, 100u8, 101u8, 120u8, 34u8, 58u8]
}

fn bl_leaf_index_vec() -> (r: Vec<u8>)
    ensures
        r@ == bl_leaf_index(),
{
    let mut v: Vec<u8> = Vec::new();
    v.push(44u8);
    v.push(34u8);
    v.push(108u8);
    v.push(101u8);
    v.push(97u8);
    v.push(102u8);
    v.push(95u8);
    v.push(105u8);
    v.push(110u8);
    v.push(100u8);
    v.push(101u8);
    v.push(120u8);
    v.push(34u8);
    v.push(58u8);
    proof {
        assert(v@ =~= bl_leaf_index());
    }
    v
}

/// The literal `],"signature":` of the blob schema.
pub open spec fn bl_signature() -> Seq<u8> {
    seq![93u8, 44u8, 34u8, 115u8, 105u8, 103u8, 110u8, 97u8, 116u8, 117u8, 114u8, 101u8, 34u8, 58u8]
}

fn bl_signature_vec() -> (r: Vec<u8>)
    ensures
        r@ == bl_signature(),
{
    let mut v: Vec<u8> = Vec::new();
    v.push(93u8);
    v.push(44u8);
    v.push(34u8);
    v.push(115u8);
    v.push(105u8);
    v.push(103u8);
    v.push(110u8);
    v.push(97u8);
    v.push(116u8);
    v.push(117u8);
    v.push(114u8);
    v.push(101u8);
    v.push(34u8);
    v.push(58u8);
    proof {
        assert(v@ =~= bl_signature());
    }
    v
}

/// The literal `,"sender_x25519_pubkey":` of the blob schema.
pub open spec fn bl_sender() -> Seq<u8> {
    seq![44u8, 34u8, 115u8, 101u8, 110u8, 100u8, 101u8, 114u8, 95u8, 120u8, 50u8, 53u8, 53u8, 49u8, 57u8, 95u8, 112u8, 117u8, 98u8, 107u8, 101u8, 121u8, 34u8, 58u8]
}

fn bl_sender_vec() -> (r: Vec<u8>)
    ensures
        r@ == bl_sender(),
{
    let mut v: Vec<u8> = Vec::new();
    v.push(44u8);
    v.push(34u8);
    v.push(115u8);
    v.push(101u8);
    v.push(110u8);
    v.push(100u8);
    v.push(101u8);
    v.push(114u8);
    v.push(95u8);
    v.push(120u8);
    v.push(50u8);
    v.push(53u8);
    v.push(53u8);
    v.push(49u8);
    v.push(57u8);
    v.push(95u8);
    v.push(112u8);
    v.push(117u8);
    v.push(98u8);
    v.push(107u8);
    v.push(101u8);
    v.push(121u8);
    v.push(34u8);
    v.push(58u8);
    proof {
        assert(v@ =~= bl_sender());
    }
    v
}

/// The literal `,"invitations":[` of the blob schema.
pub open spec fn bl_invitations() -> Seq<u8> {
    seq![44u8, 34u8, 105u8, 110u8, 118u8, 105u8, 116u8, 97u8, 116u8, 105u8, 111u8, 110u8, 115u8, 34u8, 58u8, 91u8]
}

fn bl_invitations_vec() -> (r: Vec<u8>)
    ensures
        r@ == bl_invitations(),
{
    let mut v: Vec<u8> = Vec::new();
    v.push(44u8);
    v.push(34u8);
    v.push(105u8);
    v.push(110u8);
    v.push(118u8);
    v.push(105u8);
    v.push(116u8);
    v.push(97u8);
    v.push(116u8);
    v.push(105u8);
    v.push(111u8);
    v.push(110u8);
    v.push(115u8);
    v.push(34u8);
    v.push(58u8);
    v.push(91u8);
    proof {
        assert(v@ =~= bl_invitations());
    }
    v
}

/// The literal `],"shadow_invites":[` of the blob schema.
pub open spec fn bl_shadows() -> Seq<u8> {
    seq![93u8, 44u8, 34u8, 115u8, 104u8, 97u8, 100u8, 111u8, 119u8, 95u8, 105u8, 110u8, 118u8, 105u8, 116u8, 101u8, 115u8, 34u8, 58u8, 91u8]
}

fn bl_shadows_vec() -> (r: Vec<u8>)
    ensures
        r@ == bl_shadows(),
{
    let mut v: Vec<u8> = Vec::new();
    v.push(93u8);
    v.push(44u8);
    v.push(34u8);
    v.push(115u8);
    v.push(104u8);
    v.push(97u8);
    v.push(100u8);
    v.push(111u8);
    v.push(119u8);
    v.push(95u8);
    v.push(105u8);
    v.push(110u8);
    v.push(118u8);
    v.push(105u8);
    v.push(116u8);
    v.push(101u8);
    v.push(115u8);
    v.push(34u8);
    v.push(58u8);
    v.push(91u8);
    proof {
        assert(v@ =~= bl_shadows());
    }
    v
}

/// The literal `{"salt":` of the blob schema.
pub open spec fn bl_salt() -> Seq<u8> {
    seq![123u8, 34u8, 115u8, 97u8, 108u8, 116u8, 34u8, 58u8]
}

fn bl_salt_vec() -> (r: Vec<u8>)
    ensures
        r@ == bl_salt(),
{
    let mut v: Vec<u8> = Vec::new();
    v.push(123u8);
    v.push(34u8);
    v.push(115u8);
    v.push(97u8);
    v.push(108u8);
    v.push(116u8);
    v.push(34u8);
    v.push(58u8);
    proof {
        assert(v@ =~= bl_salt());
    }
    v
}

/// The literal `,"ciphertext":` of the blob schema.
pub open spec fn bl_ciphertext() -> Seq<u8> {
    seq![44u8, 34u8, 99u8, 105u8, 112u8, 104u8, 101u8, 114u8, 116u8, 101u8, 120u8, 116u8, 34u8, 58u8]
}

fn bl_ciphertext_vec() -> (r: Vec<u8>)
    ensures
        r@ == bl_ciphertext(),
{
    let mut v: Vec<u8> = Vec::new();
    v.push(44u8);
    v.push(34u8);
    v.push(99u8);
    v.push(105u8);
    v.push(112u8);
    v.push(104u8);
    v.push(101u8);
    v.push(114u8);
    v.push(116u8);
    v.push(101u8);
    v.push(120u8);
    v.push(116u8);
    v.push(34u8);
    v.push(58u8);
    proof {
        assert(v@ =~= bl_ciphertext());
    }
    v
}

/// The literal `,"created_at":` of the blob schema.
pub open spec fn bl_created_at() -> Seq<u8> {
    seq![44u8, 34u8, 99u8, 114u8, 101u8, 97u8, 116u8, 101u8, 100u8, 95u8, 97u8, 116u8, 34u8, 58u8]
}

fn bl_created_at_vec() -> (r: Vec<u8>)
    ensures
        r@ == bl_created_at(),
{
    let mut v: Vec<u8> = Vec::new();
    v.push(44u8);
    v.push(34u8);
    v.push(99u8);
    v.push(114u8);
    v.push(101u8);
    v.push(97u8);
    v.push(116u8);
    v.push(101u8);
    v.push(100u8);
    v.push(95u8);
    v.push(97u8);
    v.push(116u8);
    v.push(34u8);
    v.push(58u8);
    proof {
        assert(v@ =~= bl_created_at());
    }
    v
}

/// The literal `{"target_username":` of the blob schema.
pub open spec fn bl_target() -> Seq<u8> {
    seq![123u8, 34u8, 116u8, 97u8, 114u8, 103u8, 101u8, 116u8, 95u8, 117u8, 115u8, 101u8, 114u8, 110u8, 97u8, 109u8, 101u8, 34u8, 58u8]
}

fn bl_target_vec() -> (r: Vec<u8>)
    ensures
        r@ == bl_target(),
{
    let mut v: Vec<u8> = Vec::new();
    v.push(123u8);
    v.push(34u8);
    v.push(116u8);
    v.push(97u8);
    v.push(114u8);
    v.push(103u8);
    v.push(101u8);
    v.push(116u8);
    v.push(95u8);
    v.push(117u8);
    v.push(115u8);
    v.push(101u8);
    v.push(114u8);
    v.push(110u8);
    v.push(97u8);
    v.push(109u8);
    v.push(101u8);
    v.push(34u8);
    v.push(58u8);
    proof {
        assert(v@ =~= bl_target());
    }
    v
}


/// A JSON string token of a text field.
pub open spec fn jfield(s: Seq<char>) -> Seq<u8> {
    jstr(vstd::utf8::encode_utf8(s))
}

/// The encoding of the first `k` links: `["nonce","cipher"]` items,
/// comma-separated.
pub open spec fn enc_links(links: Seq<(Seq<char>, Seq<char>)>, k: int) -> Seq<u8>
    decreases k,
{
    if k <= 0 {
        Seq::<u8>::empty()
    } else {
        enc_links(links, k - 1) + (if k > 1 {
            seq![44u8]
        } else {
            Seq::<u8>::empty()
        }) + seq![91u8] + jfield(links[k - 1].0) + seq![44u8] + jfield(links[k - 1].1)
            + seq![93u8]
    }
}

/// The encoding of one roster entry.
pub open spec fn enc_friend(f: FriendEntryV) -> Seq<u8> {
    bl_name() + jfield(f.name) + bl_x25519() + jfield(f.x25519_pubkey) + bl_enc_leaf() + jfield(
        f.encrypted_leaf_key,
    ) + bl_nonce() + jfield(f.nonce) + bl_leaf_index() + dec_rep(f.leaf_index as u64) + seq![125u8]
}

/// The encoding of the first `k` roster entries.
pub open spec fn enc_roster(roster: Seq<FriendEntryV>, k: int) -> Seq<u8>
    decreases k,
{
    if k <= 0 {
        Seq::<u8>::empty()
    } else {
        enc_roster(roster, k - 1) + (if k > 1 {
            seq![44u8]
        } else {
            Seq::<u8>::empty()
        }) + enc_friend(roster[k - 1])
    }
}

/// The encoding of one invitation.
pub open spec fn enc_invite(t: TrackedInviteV) -> Seq<u8> {
    bl_salt() + jfield(t.salt) + bl_nonce() + jfield(t.nonce) + bl_ciphertext() + jfield(
        t.ciphertext,
    ) + bl_created_at() + dec_rep(t.created_at) + seq![125u8]
}

/// The encoding of the first `k` invitations.
pub open spec fn enc_invites(ts: Seq<TrackedInviteV>, k: int) -> Seq<u8>
    decreases k,
{
    if k <= 0 {
        Seq::<u8>::empty()
    } else {
        enc_invites(ts, k - 1) + (if k > 1 {
            seq![44u8]
        } else {
            Seq::<u8>::empty()
        }) + enc_invite(ts[k - 1])
    }
}

/// The encoding of one shadow.
pub open spec fn enc_shadow(t: ShadowInviteV) -> Seq<u8> {
    bl_target() + jfield(t.target_username) + bl_salt() + jfield(t.salt) + bl_nonce() + jfield(
        t.nonce,
    ) + bl_ciphertext() + jfield(t.ciphertext) + bl_created_at() + dec_rep(t.created_at)
        + seq![125u8]
}

/// The encoding of the first `k` shadows.
pub open spec fn enc_shadows(ts: Seq<ShadowInviteV>, k: int) -> Seq<u8>
    decreases k,
{
    if k <= 0 {
        Seq::<u8>::empty()
    } else {
        enc_shadows(ts, k - 1) + (if k > 1 {
            seq![44u8]
        } else {
            Seq::<u8>::empty()
        }) + enc_shadow(ts[k - 1])
    }
}

/// The canonical JSON encoding of a published blob.
pub open spec fn enc_blob(b: PublishedBlobV) -> Seq<u8> {
    bl_payload() + jfield(b.payload) + bl_payload_nonce() + jfield(b.payload_nonce)
        + bl_tree_links() + enc_links(b.tree_links, b.tree_links.len() as int) + bl_roster()
        + enc_roster(b.roster, b.roster.len() as int) + bl_signature() + jfield(b.signature)
        + bl_sender() + jfield(b.sender_x25519_pubkey) + bl_invitations() + enc_invites(
        b.invitations,
        b.invitations.len() as int,
    ) + bl_shadows() + enc_shadows(b.shadow_invites, b.shadow_invites.len() as int) + seq![
        93u8,
        125u8,
    ]
}

/// Append a text field as a JSON string token.
fn write_jfield(out: &mut Vec<u8>, s: &str)
    ensures
        final(out)@ == old(out)@ + jfield(s@),
{
    write_json_string(out, s.as_bytes());
}

/// Encode a published blob in its canonical JSON form.
#[verifier::rlimit(100)]
pub fn encode_blob(b: &PublishedBlob) -> (r: Vec<u8>)
    ensures
        r@ == enc_blob(b@),
{
    let mut out: Vec<u8> = Vec::new();
    let l = bl_payload_vec();
    push_bytes(&mut out, l.as_slice());
    write_jfield(&mut out, b.payload.as_str());
    let l = bl_payload_nonce_vec();
    push_bytes(&mut out, l.as_slice());
    write_jfield(&mut out, b.payload_nonce.as_str());
    let l = bl_tree_links_vec();
    push_bytes(&mut out, l.as_slice());
    let n = b.tree_links.len();
    let mut i: usize = 0;
    let ghost links = b@.tree_links;
    let ghost head = out@;
    while i < n
        invariant
            n == links.len(),
            i <= n,
            links == b@.tree_links,
            b@.tree_links == b.tree_links@.map_values(|p: (String, String)| (p.0@, p.1@)),
            out@ == head + enc_links(links, i as int),
        decreases n - i,
    {
        if i > 0 {
            out.push(44u8);
        }
        out.push(91u8);
        write_jfield(&mut out, b.tree_links[i].0.as_str());
        out.push(44u8);
        write_jfield(&mut out, b.tree_links[i].1.as_str());
        out.push(93u8);
        proof {
            assert((b.tree_links@.map_values(|p: (String, String)| (p.0@, p.1@)))[i as int]
                == (b.tree_links@[i as int].0@, b.tree_links@[i as int].1@));
            assert(out@ =~= head + enc_links(links, i + 1));
        }
        i += 1;
    }
    let l = bl_roster_vec();
    push_bytes(&mut out, l.as_slice());
    let m = b.roster.len();
    let mut j: usize = 0;
    let ghost roster = b@.roster;
    let ghost head2 = out@;
    while j < m
        invariant
            m == roster.len(),
            j <= m,
            roster == b@.roster,
            b@.roster == b.roster@.map_values(|f: FriendEntry| f@),
            out@ == head2 + enc_roster(roster, j as int),
        decreases m - j,
    {
        if j > 0 {
            out.push(44u8);
        }
        let l = bl_name_vec();
        push_bytes(&mut out, l.as_slice());
        write_jfield(&mut out, b.roster[j].name.as_str());
        let l = bl_x25519_vec();
        push_bytes(&mut out, l.as_slice());
        write_jfield(&mut out, b.roster[j].x25519_pubkey.as_str());
        let l = bl_enc_leaf_vec();
        push_bytes(&mut out, l.as_slice());
        write_jfield(&mut out, b.roster[j].encrypted_leaf_key.as_str());
        let l = bl_nonce_vec();
        push_bytes(&mut out, l.as_slice());
        write_jfield(&mut out, b.roster[j].nonce.as_str());
        let l = bl_leaf_index_vec();
        push_bytes(&mut out, l.as_slice());
        write_u64(&mut out, b.roster[j].leaf_index as u64);
        out.push(125u8);
        proof {
            assert((b.roster@.map_values(|f: FriendEntry| f@))[j as int] == b.roster@[j as int]@);
            assert(out@ =~= head2 + enc_roster(roster, j + 1));
        }
        j += 1;
    }
    let l = bl_signature_vec();
    push_bytes(&mut out, l.as_slice());
    write_jfield(&mut out, b.signature.as_str());
    let l = bl_sender_vec();
    push_bytes(&mut out, l.as_slice());
    write_jfield(&mut out, b.sender_x25519_pubkey.as_str());
    let l = bl_invitations_vec();
    push_bytes(&mut out, l.as_slice());
    let p = b.invitations.len();
    let mut k: usize = 0;
    let ghost invs = b@.invitations;
    let ghost head3 = out@;
    while k < p
        invariant
            p == invs.len(),
            k <= p,
            invs == b@.invitations,
            b@.invitations == b.invitations@.map_values(|t: TrackedInvite| t@),
            out@ == head3 + enc_invites(invs, k as int),
        decreases p - k,
    {
        if k > 0 {
            out.push(44u8);
        }
        let l = bl_salt_vec();
        push_bytes(&mut out, l.as_slice());
        write_jfield(&mut out, b.invitations[k].salt.as_str());
        let l = bl_nonce_vec();
        push_bytes(&mut out, l.as_slice());
        write_jfield(&mut out, b.invitations[k].nonce.as_str());
        let l = bl_ciphertext_vec();
        push_bytes(&mut out, l.as_slice());
        write_jfield(&mut out, b.invitations[k].ciphertext.as_str());
        let l = bl_created_at_vec();
        push_bytes(&mut out, l.as_slice());
        write_u64(&mut out, b.invitations[k].created_at);
        out.push(125u8);
        proof {
            assert((b.invitations@.map_values(|t: TrackedInvite| t@))[k as int] == b.invitations@[
                k as int]@);
            assert(out@ =~= head3 + enc_invites(invs, k + 1));
        }
        k += 1;
    }
    let l = bl_shadows_vec();
    push_bytes(&mut out, l.as_slice());
    let q = b.shadow_invites.len();
    let mut w: usize = 0;
    let ghost shs = b@.shadow_invites;
    let ghost head4 = out@;
    while w < q
        invariant
            q == shs.len(),
            w <= q,
            shs == b@.shadow_invites,
            b@.shadow_invites == b.shadow_invites@.map_values(|t: ShadowInvite| t@),
            out@ == head4 + enc_shadows(shs, w as int),
        decreases q - w,
    {
        if w > 0 {
            out.push(44u8);
        }
        let l = bl_target_vec();
        push_bytes(&mut out, l.as_slice());
        write_jfield(&mut out, b.shadow_invites[w].target_username.as_str());
        let l = bl_salt_vec();
        push_bytes(&mut out, l.as_slice());
        write_jfield(&mut out, b.shadow_invites[w].salt.as_str());
        let l = bl_nonce_vec();
        push_bytes(&mut out, l.as_slice());
        write_jfield(&mut out, b.shadow_invites[w].nonce.as_str());
        let l = bl_ciphertext_vec();
        push_bytes(&mut out, l.as_slice());
        write_jfield(&mut out, b.shadow_invites[w].ciphertext.as_str());
        let l = bl_created_at_vec();
        push_bytes(&mut out, l.as_slice());
        write_u64(&mut out, b.shadow_invites[w].created_at);
        out.push(125u8);
        proof {
            assert((b.shadow_invites@.map_values(|t: ShadowInvite| t@))[w as int]
                == b.shadow_invites@[w as int]@);
            assert(out@ =~= head4 + enc_shadows(shs, w + 1));
        }
        w += 1;
    }
    out.push(93u8);
    out.push(125u8);
    proof {
        assert(out@ =~= enc_blob(b@));
    }
    out
}


// --- Parsing the wire form ---

/// Parse one JSON string field into a `String`.
fn parse_text(s: &[u8], i: usize) -> (r: Option<(String, usize)>)
    requires
        i <= s@.len(),
    ensures
        match r {
            Some((v, j)) => spec_text(s@, i as int) == Some((v@, j as int)) && i < j <= s@.len(),
            None => spec_text(s@, i as int) is None,
        },
{
    match parse_string_at(s, i) {
        None => None,
        Some((raw, j)) => match string_from_utf8(raw) {
            None => None,
            Some(t) => Some((t, j)),
        },
    }
}

// --- What the wire parser accepts, stated ---

/// One text field of the wire form: a JSON string that must decode as
/// UTF-8.
pub open spec fn spec_text(s: Seq<u8>, i: int) -> Option<(Seq<char>, int)> {
    match spec_parse_string(s, i) {
        None => None,
        Some((raw, j)) => if vstd::utf8::valid_utf8(raw) {
            Some((vstd::utf8::decode_utf8(raw), j))
        } else {
            None
        },
    }
}

/// The tree-links list from `pos` up to its closing bracket: items
/// `["nonce","cipher"]`, comma-separated, ending before a `]`.
pub open spec fn sp_links(s: Seq<u8>, pos: int, first: bool) -> Option<
    (Seq<(Seq<char>, Seq<char>)>, int),
>
    decreases s.len() - pos,
{
    if pos < 0 || pos >= s.len() {
        None
    } else if s[pos] == 93 {
        Some((Seq::<(Seq<char>, Seq<char>)>::empty(), pos))
    } else if !first && s[pos] != 44 {
        None
    } else {
        let p1 = if first {
            pos
        } else {
            pos + 1
        };
        if p1 >= s.len() || s[p1] != 91 {
            None
        } else {
            match spec_text(s, p1 + 1) {
                None => None,
                Some((nonce, p2)) => if p2 >= s.len() || s[p2] != 44 {
                    None
                } else {
                    match spec_text(s, p2 + 1) {
                        None => None,
                        Some((cipher, p3)) => if p3 >= s.len() || s[p3] != 93 {
                            None
                        } else if p3 + 1 <= pos {
                            None
                        } else {
                            match sp_links(s, p3 + 1, false) {
                                None => None,
                                Some((rest, end)) => Some(
                                    (seq![(nonce, cipher)] + rest, end),
                                ),
                            }
                        },
                    }
                },
            }
        }
    }
}

/// The roster list from `pos` up to its closing bracket.
pub open spec fn sp_roster(s: Seq<u8>, pos: int, first: bool) -> Option<(Seq<FriendEntryV>, int)>
    decreases s.len() - pos,
{
    if pos < 0 || pos >= s.len() {
        None
    } else if s[pos] == 93 {
        Some((Seq::<FriendEntryV>::empty(), pos))
    } else if !first && s[pos] != 44 {
        None
    } else {
        let p1 = if first {
            pos
        } else {
            pos + 1
        };
        if !match_lit(s, p1, bl_name()) {
            None
        } else {
            match spec_text(s, p1 + bl_name().len()) {
                None => None,
                Some((name, p2)) => if !match_lit(s, p2, bl_x25519()) {
                    None
                } else {
                    match spec_text(s, p2 + bl_x25519().len()) {
                        None => None,
                        Some((xpk, p3)) => if !match_lit(s, p3, bl_enc_leaf()) {
                            None
                        } else {
                            match spec_text(s, p3 + bl_enc_leaf().len()) {
                                None => None,
                                Some((elk, p4)) => if !match_lit(s, p4, bl_nonce()) {
                                    None
                                } else {
                                    match spec_text(s, p4 + bl_nonce().len()) {
                                        None => None,
                                        Some((non, p5)) => if !match_lit(s, p5, bl_leaf_index()) {
                                            None
                                        } else {
                                            match spec_parse_u64(s, p5 + bl_leaf_index().len()) {
                                                None => None,
                                                Some((leaf, p6)) => if leaf > 0x7fffffff {
                                                    None
                                                } else if p6 >= s.len() || s[p6] != 125 {
                                                    None
                                                } else if p6 + 1 <= pos {
                                                    None
                                                } else {
                                                    match sp_roster(s, p6 + 1, false) {
                                                        None => None,
                                                        Some((rest, end)) => Some(
                                                            (
                                                                seq![
                                                                    FriendEntryV {
                                                                        name: name,
                                                                        x25519_pubkey: xpk,
                                                                        encrypted_leaf_key: elk,
                                                                        nonce: non,
                                                                        leaf_index: leaf as int,
                                                                    },
                                                                ] + rest,
                                                                end,
                                                            ),
                                                        ),
                                                    }
                                                },
                                            }
                                        },
                                    }
                                },
                            }
                        },
                    }
                },
            }
        }
    }
}

/// The invitation list from `pos` up to its closing bracket.
pub open spec fn sp_invites(s: Seq<u8>, pos: int, first: bool) -> Option<
    (Seq<TrackedInviteV>, int),
>
    decreases s.len() - pos,
{
    if pos < 0 || pos >= s.len() {
        None
    } else if s[pos] == 93 {
        Some((Seq::<TrackedInviteV>::empty(), pos))
    } else if !first && s[pos] != 44 {
        None
    } else {
        let p1 = if first {
            pos
        } else {
            pos + 1
        };
        if !match_lit(s, p1, bl_salt()) {
            None
        } else {
            match spec_text(s, p1 + bl_salt().len()) {
                None => None,
                Some((salt, p2)) => if !match_lit(s, p2, bl_nonce()) {
                    None
                } else {
                    match spec_text(s, p2 + bl_nonce().len()) {
                        None => None,
                        Some((non, p3)) => if !match_lit(s, p3, bl_ciphertext()) {
                            None
                        } else {
                            match spec_text(s, p3 + bl_ciphertext().len()) {
                                None => None,
                                Some((ct, p4)) => if !match_lit(s, p4, bl_created_at()) {
                                    None
                                } else {
                                    match spec_parse_u64(s, p4 + bl_created_at().len()) {
                                        None => None,
                                        Some((at, p5)) => if p5 >= s.len() || s[p5] != 125 {
                                            None
                                        } else if p5 + 1 <= pos {
                                            None
                                        } else {
                                            match sp_invites(s, p5 + 1, false) {
                                                None => None,
                                                Some((rest, end)) => Some(
                                                    (
                                                        seq![
                                                            TrackedInviteV {
                                                                salt: salt,
                                                                nonce: non,
                                                                ciphertext: ct,
                                                                created_at: at,
                                                            },
                                                        ] + rest,
                                                        end,
                                                    ),
                                                ),
                                            }
                                        },
                                    }
                                },
                            }
                        },
                    }
                },
            }
        }
    }
}

/// The shadow list from `pos` up to its closing bracket.
pub open spec fn sp_shadows(s: Seq<u8>, pos: int, first: bool) -> Option<
    (Seq<ShadowInviteV>, int),
>
    decreases s.len() - pos,
{
    if pos < 0 || pos >= s.len() {
        None
    } else if s[pos] == 93 {
        Some((Seq::<ShadowInviteV>::empty(), pos))
    } else if !first && s[pos] != 44 {
        None
    } else {
        let p1 = if first {
            pos
        } else {
            pos + 1
        };
        if !match_lit(s, p1, bl_target()) {
            None
        } else {
            match spec_text(s, p1 + bl_target().len()) {
                None => None,
                Some((target, p2)) => if !match_lit(s, p2, bl_salt()) {
                    None
                } else {
                    match spec_text(s, p2 + bl_salt().len()) {
                        None => None,
                        Some((salt, p3)) => if !match_lit(s, p3, bl_nonce()) {
                            None
                        } else {
                            match spec_text(s, p3 + bl_nonce().len()) {
                                None => None,
                                Some((non, p4)) => if !match_lit(s, p4, bl_ciphertext()) {
                                    None
                                } else {
                                    match spec_text(s, p4 + bl_ciphertext().len()) {
                                        None => None,
                                        Some((ct, p5)) => if !match_lit(s, p5, bl_created_at()) {
                                            None
                                        } else {
                                            match spec_parse_u64(s, p5 + bl_created_at().len()) {
                                                None => None,
                                                Some((at, p6)) => if p6 >= s.len() || s[p6]
                                                    != 125 {
                                                    None
                                                } else if p6 + 1 <= pos {
                                                    None
                                                } else {
                                                    match sp_shadows(s, p6 + 1, false) {
                                                        None => None,
                                                        Some((rest, end)) => Some(
                                                            (
                                                                seq![
                                                                    ShadowInviteV {
                                                                        target_username: target,
                                                                        salt: salt,
                                                                        nonce: non,
                                                                        ciphertext: ct,
                                                                        created_at: at,
                                                                    },
                                                                ] + rest,
                                                                end,
                                                            ),
                                                        ),
                                                    }
                                                },
                                            }
                                        },
                                    }
                                },
                            }
                        },
                    }
                },
            }
        }
    }
}

/// The end of the wire form: exactly `]}` remains, and the parsed parts
/// form the blob.
pub open spec fn sp_stage_end(
    s: Seq<u8>,
    pos: int,
    payload: Seq<char>,
    payload_nonce: Seq<char>,
    links: Seq<(Seq<char>, Seq<char>)>,
    roster: Seq<FriendEntryV>,
    signature: Seq<char>,
    sender: Seq<char>,
    invs: Seq<TrackedInviteV>,
    shs: Seq<ShadowInviteV>,
) -> Option<PublishedBlobV> {
    if pos < s.len() && s.len() - pos == 2 && s[pos] == 93 && s[pos + 1] == 125 {
        Some(
            PublishedBlobV {
                payload: payload,
                payload_nonce: payload_nonce,
                tree_links: links,
                roster: roster,
                signature: signature,
                sender_x25519_pubkey: sender,
                invitations: invs,
                shadow_invites: shs,
            },
        )
    } else {
        None
    }
}

/// The shadow-list field and what follows it.
pub open spec fn sp_stage_shadows(
    s: Seq<u8>,
    pos: int,
    payload: Seq<char>,
    payload_nonce: Seq<char>,
    links: Seq<(Seq<char>, Seq<char>)>,
    roster: Seq<FriendEntryV>,
    signature: Seq<char>,
    sender: Seq<char>,
    invs: Seq<TrackedInviteV>,
) -> Option<PublishedBlobV> {
    if !match_lit(s, pos, bl_shadows()) {
        None
    } else {
        match sp_shadows(s, pos + bl_shadows().len(), true) {
            None => None,
            Some((shs, end)) => sp_stage_end(
                s,
                end,
                payload,
                payload_nonce,
                links,
                roster,
                signature,
                sender,
                invs,
                shs,
            ),
        }
    }
}

/// The invitation-list field and what follows it.
pub open spec fn sp_stage_invites(
    s: Seq<u8>,
    pos: int,
    payload: Seq<char>,
    payload_nonce: Seq<char>,
    links: Seq<(Seq<char>, Seq<char>)>,
    roster: Seq<FriendEntryV>,
    signature: Seq<char>,
    sender: Seq<char>,
) -> Option<PublishedBlobV> {
    if !match_lit(s, pos, bl_invitations()) {
        None
    } else {
        match sp_invites(s, pos + bl_invitations().len(), true) {
            None => None,
            Some((invs, end)) => sp_stage_shadows(
                s,
                end,
                payload,
                payload_nonce,
                links,
                roster,
                signature,
                sender,
                invs,
            ),
        }
    }
}

/// The signature and sender fields and what follows them.
pub open spec fn sp_stage_sig(
    s: Seq<u8>,
    pos: int,
    payload: Seq<char>,
    payload_nonce: Seq<char>,
    links: Seq<(Seq<char>, Seq<char>)>,
    roster: Seq<FriendEntryV>,
) -> Option<PublishedBlobV> {
    if !match_lit(s, pos, bl_signature()) {
        None
    } else {
        match spec_text(s, pos + bl_signature().len()) {
            None => None,
            Some((signature, p2)) => if !match_lit(s, p2, bl_sender()) {
                None
            } else {
                match spec_text(s, p2 + bl_sender().len()) {
                    None => None,
                    Some((sender, p3)) => sp_stage_invites(
                        s,
                        p3,
                        payload,
                        payload_nonce,
                        links,
                        roster,
                        signature,
                        sender,
                    ),
                }
            },
        }
    }
}

/// The roster field and what follows it.
pub open spec fn sp_stage_roster(
    s: Seq<u8>,
    pos: int,
    payload: Seq<char>,
    payload_nonce: Seq<char>,
    links: Seq<(Seq<char>, Seq<char>)>,
) -> Option<PublishedBlobV> {
    if !match_lit(s, pos, bl_roster()) {
        None
    } else {
        match sp_roster(s, pos + bl_roster().len(), true) {
            None => None,
            Some((roster, end)) => sp_stage_sig(s, end, payload, payload_nonce, links, roster),
        }
    }
}

/// The structural parse of the wire form, from the first byte: the spec
/// the executable parser is held to, stage by stage.
pub open spec fn sp_blob(s: Seq<u8>) -> Option<PublishedBlobV> {
    if !match_lit(s, 0, bl_payload()) {
        None
    } else {
        match spec_text(s, bl_payload().len() as int) {
            None => None,
            Some((payload, p1)) => if !match_lit(s, p1, bl_payload_nonce()) {
                None
            } else {
                match spec_text(s, p1 + bl_payload_nonce().len()) {
                    None => None,
                    Some((payload_nonce, p2)) => if !match_lit(s, p2, bl_tree_links()) {
                        None
                    } else {
                        match sp_links(s, p2 + bl_tree_links().len(), true) {
                            None => None,
                            Some((links, end)) => sp_stage_roster(
                                s,
                                end,
                                payload,
                                payload_nonce,
                                links,
                            ),
                        }
                    },
                }
            },
        }
    }
}

/// A blob the wire bytes stand for: the structural parse must succeed
/// and the blob's canonical encoding must be the bytes themselves.
pub open spec fn canon_blob(s: Seq<u8>) -> Option<PublishedBlobV> {
    match sp_blob(s) {
        None => None,
        Some(bv) => if enc_blob(bv) == s {
            Some(bv)
        } else {
            None
        },
    }
}

/// Parse the canonical JSON form of a published blob. A candidate is
/// accepted only when re-encoding it reproduces the input byte for
/// byte, so a successful parse names a blob whose canonical form is
/// exactly these bytes.
pub fn parse_blob(s: &[u8]) -> (r: Option<PublishedBlob>)
    ensures
        match r {
            Some(b) => canon_blob(s@) == Some(b@),
            None => canon_blob(s@) is None,
        },
{
    let n = s.len();
    let l = bl_payload_vec();
    if !check_lit(s, 0, l.as_slice()) {
        return None;
    }
    let (payload, mut pos) = parse_text(s, l.len())?;
    let l = bl_payload_nonce_vec();
    if !check_lit(s, pos, l.as_slice()) {
        return None;
    }
    if pos > n - l.len() {
        return None;
    }
    let (payload_nonce, pos2) = parse_text(s, pos + l.len())?;
    pos = pos2;
    let l = bl_tree_links_vec();
    if !check_lit(s, pos, l.as_slice()) {
        return None;
    }
    if pos > n - l.len() {
        return None;
    }
    pos = pos + l.len();
    let mut tree_links: Vec<(String, String)> = Vec::new();
    proof {
        let scrut = sp_links(s@, pos as int, true);
        if scrut is Some {
            let (rest, end) = scrut->Some_0;
            assert(Seq::<(Seq<char>, Seq<char>)>::empty() + rest =~= rest);
        }
        assert(tree_links@.map_values(|p: (String, String)| (p.0@, p.1@)) =~= Seq::<(
            Seq<char>,
            Seq<char>,
        )>::empty());
        assert(sp_blob(s@) == (match sp_links(s@, pos as int, true) {
            None => None::<PublishedBlobV>,
            Some((links, end)) => sp_stage_roster(s@, end, payload@, payload_nonce@, links),
        }));
    }
    loop
        invariant
            pos <= n,
            n == s@.len(),
            sp_blob(s@) == (match sp_links(s@, pos as int, tree_links@.len() == 0) {
                None => None::<PublishedBlobV>,
                Some((rest, end)) => sp_stage_roster(
                    s@,
                    end,
                    payload@,
                    payload_nonce@,
                    tree_links@.map_values(|p: (String, String)| (p.0@, p.1@)) + rest,
                ),
            }),
        ensures
            pos <= n,
            n == s@.len(),
            sp_blob(s@) == sp_stage_roster(
                s@,
                pos as int,
                payload@,
                payload_nonce@,
                tree_links@.map_values(|p: (String, String)| (p.0@, p.1@)),
            ),
        decreases n - pos,
    {
        let ghost pos0 = pos as int;
        let ghost first0 = tree_links@.len() == 0;
        let ghost acc0 = tree_links@.map_values(|p: (String, String)| (p.0@, p.1@));
        if pos >= n {
            return None;
        }
        if s[pos] == 93u8 {
            proof {
                assert(sp_links(s@, pos0, first0) == Some(
                    (Seq::<(Seq<char>, Seq<char>)>::empty(), pos0),
                ));
                assert(acc0 + Seq::<(Seq<char>, Seq<char>)>::empty() =~= acc0);
            }
            break;
        }
        if tree_links.len() > 0 {
            if s[pos] != 44u8 {
                return None;
            }
            pos += 1;
        }
        if pos >= n || s[pos] != 91u8 {
            return None;
        }
        let (nonce, p2) = parse_text(s, pos + 1)?;
        if p2 >= n || s[p2] != 44u8 {
            return None;
        }
        let (cipher, p3) = parse_text(s, p2 + 1)?;
        if p3 >= n || s[p3] != 93u8 {
            return None;
        }
        if p3 + 1 <= pos {
            return None;
        }
        let ghost entry = (nonce@, cipher@);
        pos = p3 + 1;
        tree_links.push((nonce, cipher));
        proof {
            let nxt = sp_links(s@, pos as int, false);
            assert(sp_links(s@, pos0, first0) == (match nxt {
                None => None::<(Seq<(Seq<char>, Seq<char>)>, int)>,
                Some((rest, end)) => Some::<(Seq<(Seq<char>, Seq<char>)>, int)>(
                    (seq![entry] + rest, end),
                ),
            }));
            assert(tree_links@.map_values(|p: (String, String)| (p.0@, p.1@)) =~= acc0.push(
                entry,
            ));
            if nxt is Some {
                let (rest, end) = nxt->Some_0;
                assert(acc0 + (seq![entry] + rest) =~= acc0.push(entry) + rest);
            }
        }
    }
    let l = bl_roster_vec();
    if !check_lit(s, pos, l.as_slice()) {
        return None;
    }
    pos = pos + l.len();
    let mut roster: Vec<FriendEntry> = Vec::new();
    proof {
        let scrut = sp_roster(s@, pos as int, true);
        if scrut is Some {
            let (rest, end) = scrut->Some_0;
            assert(Seq::<FriendEntryV>::empty() + rest =~= rest);
        }
        assert(roster@.map_values(|f: FriendEntry| f@) =~= Seq::<FriendEntryV>::empty());
    }
    loop
        invariant
            pos <= n,
            n == s@.len(),
            sp_blob(s@) == (match sp_roster(s@, pos as int, roster@.len() == 0) {
                None => None::<PublishedBlobV>,
                Some((rest, end)) => sp_stage_sig(
                    s@,
                    end,
                    payload@,
                    payload_nonce@,
                    tree_links@.map_values(|p: (String, String)| (p.0@, p.1@)),
                    roster@.map_values(|f: FriendEntry| f@) + rest,
                ),
            }),
        ensures
            pos <= n,
            n == s@.len(),
            sp_blob(s@) == sp_stage_sig(
                s@,
                pos as int,
                payload@,
                payload_nonce@,
                tree_links@.map_values(|p: (String, String)| (p.0@, p.1@)),
                roster@.map_values(|f: FriendEntry| f@),
            ),
        decreases n - pos,
    {
        let ghost pos0 = pos as int;
        let ghost first0 = roster@.len() == 0;
        let ghost acc0 = roster@.map_values(|f: FriendEntry| f@);
        if pos >= n {
            return None;
        }
        if s[pos] == 93u8 {
            proof {
                assert(sp_roster(s@, pos0, first0) == Some(
                    (Seq::<FriendEntryV>::empty(), pos0),
                ));
                assert(acc0 + Seq::<FriendEntryV>::empty() =~= acc0);
            }
            break;
        }
        if roster.len() > 0 {
            if s[pos] != 44u8 {
                return None;
            }
            pos += 1;
        }
        let l = bl_name_vec();
        if !check_lit(s, pos, l.as_slice()) {
            return None;
        }
        let (name, p2) = parse_text(s, pos + l.len())?;
        let l = bl_x25519_vec();
        if !check_lit(s, p2, l.as_slice()) {
            return None;
        }
        let (x25519_pubkey, p3) = parse_text(s, p2 + l.len())?;
        let l = bl_enc_leaf_vec();
        if !check_lit(s, p3, l.as_slice()) {
            return None;
        }
        let (encrypted_leaf_key, p4) = parse_text(s, p3 + l.len())?;
        let l = bl_nonce_vec();
        if !check_lit(s, p4, l.as_slice()) {
            return None;
        }
        let (nonce, p5) = parse_text(s, p4 + l.len())?;
        let l = bl_leaf_index_vec();
        if !check_lit(s, p5, l.as_slice()) {
            return None;
        }
        let (leaf_u, p6) = match parse_u64_at(s, p5 + l.len()) {
            Some(x) => x,
            None => {
                return None;
            },
        };
        if leaf_u > 0x7fffffff {
            return None;
        }
        if p6 >= n || s[p6] != 125u8 {
            return None;
        }
        if p6 + 1 <= pos {
            return None;
        }
        let ghost entry = FriendEntryV {
            name: name@,
            x25519_pubkey: x25519_pubkey@,
            encrypted_leaf_key: encrypted_leaf_key@,
            nonce: nonce@,
            leaf_index: leaf_u as int,
        };
        pos = p6 + 1;
        roster.push(
            FriendEntry {
                name,
                x25519_pubkey,
                encrypted_leaf_key,
                nonce,
                leaf_index: leaf_u as usize,
            },
        );
        proof {
            let nxt = sp_roster(s@, pos as int, false);
            assert(sp_roster(s@, pos0, first0) == (match nxt {
                None => None::<(Seq<FriendEntryV>, int)>,
                Some((rest, end)) => Some::<(Seq<FriendEntryV>, int)>(
                    (seq![entry] + rest, end),
                ),
            }));
            assert(roster@.map_values(|f: FriendEntry| f@) =~= acc0.push(entry));
            if nxt is Some {
                let (rest, end) = nxt->Some_0;
                assert(acc0 + (seq![entry] + rest) =~= acc0.push(entry) + rest);
            }
        }
    }
    let l = bl_signature_vec();
    if !check_lit(s, pos, l.as_slice()) {
        return None;
    }
    let (signature, p2) = parse_text(s, pos + l.len())?;
    pos = p2;
    let l = bl_sender_vec();
    if !check_lit(s, pos, l.as_slice()) {
        return None;
    }
    let (sender_x25519_pubkey, p3) = parse_text(s, pos + l.len())?;
    pos = p3;
    let l = bl_invitations_vec();
    if !check_lit(s, pos, l.as_slice()) {
        return None;
    }
    pos = pos + l.len();
    let mut invitations: Vec<TrackedInvite> = Vec::new();
    proof {
        let scrut = sp_invites(s@, pos as int, true);
        if scrut is Some {
            let (rest, end) = scrut->Some_0;
            assert(Seq::<TrackedInviteV>::empty() + rest =~= rest);
        }
        assert(invitations@.map_values(|t: TrackedInvite| t@) =~= Seq::<TrackedInviteV>::empty());
    }
    loop
        invariant
            pos <= n,
            n == s@.len(),
            sp_blob(s@) == (match sp_invites(s@, pos as int, invitations@.len() == 0) {
                None => None::<PublishedBlobV>,
                Some((rest, end)) => sp_stage_shadows(
                    s@,
                    end,
                    payload@,
                    payload_nonce@,
                    tree_links@.map_values(|p: (String, String)| (p.0@, p.1@)),
                    roster@.map_values(|f: FriendEntry| f@),
                    signature@,
                    sender_x25519_pubkey@,
                    invitations@.map_values(|t: TrackedInvite| t@) + rest,
                ),
            }),
        ensures
            pos <= n,
            n == s@.len(),
            sp_blob(s@) == sp_stage_shadows(
                s@,
                pos as int,
                payload@,
                payload_nonce@,
                tree_links@.map_values(|p: (String, String)| (p.0@, p.1@)),
                roster@.map_values(|f: FriendEntry| f@),
                signature@,
                sender_x25519_pubkey@,
                invitations@.map_values(|t: TrackedInvite| t@),
            ),
        decreases n - pos,
    {
        let ghost pos0 = pos as int;
        let ghost first0 = invitations@.len() == 0;
        let ghost acc0 = invitations@.map_values(|t: TrackedInvite| t@);
        if pos >= n {
            return None;
        }
        if s[pos] == 93u8 {
            proof {
                assert(sp_invites(s@, pos0, first0) == Some(
                    (Seq::<TrackedInviteV>::empty(), pos0),
                ));
                assert(acc0 + Seq::<TrackedInviteV>::empty() =~= acc0);
            }
            break;
        }
        if invitations.len() > 0 {
            if s[pos] != 44u8 {
                return None;
            }
            pos += 1;
        }
        let l = bl_salt_vec();
        if !check_lit(s, pos, l.as_slice()) {
            return None;
        }
        let (salt, p2) = parse_text(s, pos + l.len())?;
        let l = bl_nonce_vec();
        if !check_lit(s, p2, l.as_slice()) {
            return None;
        }
        let (nonce, p3) = parse_text(s, p2 + l.len())?;
        let l = bl_ciphertext_vec();
        if !check_lit(s, p3, l.as_slice()) {
            return None;
        }
        let (ciphertext, p4) = parse_text(s, p3 + l.len())?;
        let l = bl_created_at_vec();
        if !check_lit(s, p4, l.as_slice()) {
            return None;
        }
        let (created_at, p5) = match parse_u64_at(s, p4 + l.len()) {
            Some(x) => x,
            None => {
                return None;
            },
        };
        if p5 >= n || s[p5] != 125u8 {
            return None;
        }
        if p5 + 1 <= pos {
            return None;
        }
        let ghost entry = TrackedInviteV {
            salt: salt@,
            nonce: nonce@,
            ciphertext: ciphertext@,
            created_at: created_at,
        };
        pos = p5 + 1;
        invitations.push(TrackedInvite { salt, nonce, ciphertext, created_at });
        proof {
            let nxt = sp_invites(s@, pos as int, false);
            assert(sp_invites(s@, pos0, first0) == (match nxt {
                None => None::<(Seq<TrackedInviteV>, int)>,
                Some((rest, end)) => Some::<(Seq<TrackedInviteV>, int)>(
                    (seq![entry] + rest, end),
                ),
            }));
            assert(invitations@.map_values(|t: TrackedInvite| t@) =~= acc0.push(entry));
            if nxt is Some {
                let (rest, end) = nxt->Some_0;
                assert(acc0 + (seq![entry] + rest) =~= acc0.push(entry) + rest);
            }
        }
    }
    let l = bl_shadows_vec();
    if !check_lit(s, pos, l.as_slice()) {
        return None;
    }
    pos = pos + l.len();
    let mut shadow_invites: Vec<ShadowInvite> = Vec::new();
    proof {
        let scrut = sp_shadows(s@, pos as int, true);
        if scrut is Some {
            let (rest, end) = scrut->Some_0;
            assert(Seq::<ShadowInviteV>::empty() + rest =~= rest);
        }
        assert(shadow_invites@.map_values(|t: ShadowInvite| t@) =~= Seq::<
            ShadowInviteV,
        >::empty());
    }
    loop
        invariant
            pos <= n,
            n == s@.len(),
            sp_blob(s@) == (match sp_shadows(s@, pos as int, shadow_invites@.len() == 0) {
                None => None::<PublishedBlobV>,
                Some((rest, end)) => sp_stage_end(
                    s@,
                    end,
                    payload@,
                    payload_nonce@,
                    tree_links@.map_values(|p: (String, String)| (p.0@, p.1@)),
                    roster@.map_values(|f: FriendEntry| f@),
                    signature@,
                    sender_x25519_pubkey@,
                    invitations@.map_values(|t: TrackedInvite| t@),
                    shadow_invites@.map_values(|t: ShadowInvite| t@) + rest,
                ),
            }),
        ensures
            pos <= n,
            n == s@.len(),
            sp_blob(s@) == sp_stage_end(
                s@,
                pos as int,
                payload@,
                payload_nonce@,
                tree_links@.map_values(|p: (String, String)| (p.0@, p.1@)),
                roster@.map_values(|f: FriendEntry| f@),
                signature@,
                sender_x25519_pubkey@,
                invitations@.map_values(|t: TrackedInvite| t@),
                shadow_invites@.map_values(|t: ShadowInvite| t@),
            ),
        decreases n - pos,
    {
        let ghost pos0 = pos as int;
        let ghost first0 = shadow_invites@.len() == 0;
        let ghost acc0 = shadow_invites@.map_values(|t: ShadowInvite| t@);
        if pos >= n {
            return None;
        }
        if s[pos] == 93u8 {
            proof {
                assert(sp_shadows(s@, pos0, first0) == Some(
                    (Seq::<ShadowInviteV>::empty(), pos0),
                ));
                assert(acc0 + Seq::<ShadowInviteV>::empty() =~= acc0);
            }
            break;
        }
        if shadow_invites.len() > 0 {
            if s[pos] != 44u8 {
                return None;
            }
            pos += 1;
        }
        let l = bl_target_vec();
        if !check_lit(s, pos, l.as_slice()) {
            return None;
        }
        let (target_username, p2) = parse_text(s, pos + l.len())?;
        let l = bl_salt_vec();
        if !check_lit(s, p2, l.as_slice()) {
            return None;
        }
        let (salt, p3) = parse_text(s, p2 + l.len())?;
        let l = bl_nonce_vec();
        if !check_lit(s, p3, l.as_slice()) {
            return None;
        }
        let (nonce, p4) = parse_text(s, p3 + l.len())?;
        let l = bl_ciphertext_vec();
        if !check_lit(s, p4, l.as_slice()) {
            return None;
        }
        let (ciphertext, p5) = parse_text(s, p4 + l.len())?;
        let l = bl_created_at_vec();
        if !check_lit(s, p5, l.as_slice()) {
            return None;
        }
        let (created_at, p6) = match parse_u64_at(s, p5 + l.len()) {
            Some(x) => x,
            None => {
                return None;
            },
        };
        if p6 >= n || s[p6] != 125u8 {
            return None;
        }
        if p6 + 1 <= pos {
            return None;
        }
        let ghost entry = ShadowInviteV {
            target_username: target_username@,
            salt: salt@,
            nonce: nonce@,
            ciphertext: ciphertext@,
            created_at: created_at,
        };
        pos = p6 + 1;
        shadow_invites.push(
            ShadowInvite { target_username, salt, nonce, ciphertext, created_at },
        );
        proof {
            let nxt = sp_shadows(s@, pos as int, false);
            assert(sp_shadows(s@, pos0, first0) == (match nxt {
                None => None::<(Seq<ShadowInviteV>, int)>,
                Some((rest, end)) => Some::<(Seq<ShadowInviteV>, int)>(
                    (seq![entry] + rest, end),
                ),
            }));
            assert(shadow_invites@.map_values(|t: ShadowInvite| t@) =~= acc0.push(entry));
            if nxt is Some {
                let (rest, end) = nxt->Some_0;
                assert(acc0 + (seq![entry] + rest) =~= acc0.push(entry) + rest);
            }
        }
    }
    if !(pos < n && n - pos == 2 && s[pos] == 93u8 && s[pos + 1] == 125u8) {
        return None;
    }
    let ghost bv = PublishedBlobV {
        payload: payload@,
        payload_nonce: payload_nonce@,
        tree_links: tree_links@.map_values(|p: (String, String)| (p.0@, p.1@)),
        roster: roster@.map_values(|f: FriendEntry| f@),
        signature: signature@,
        sender_x25519_pubkey: sender_x25519_pubkey@,
        invitations: invitations@.map_values(|t: TrackedInvite| t@),
        shadow_invites: shadow_invites@.map_values(|t: ShadowInvite| t@),
    };
    proof {
        assert(sp_blob(s@) == Some(bv));
    }
    let blob = PublishedBlob {
        payload,
        payload_nonce,
        tree_links,
        roster,
        signature,
        sender_x25519_pubkey,
        invitations,
        shadow_invites,
    };
    proof {
        assert(blob@ == bv);
    }
    let reencoded = encode_blob(&blob);
    if !crate::text::bytes_eq(reencoded.as_slice(), s) {
        return None;
    }
    Some(blob)
}


// --- The tree ---

/// The hierarchical key set: one random 32-byte key per node of a
/// complete binary tree, and the roster of enrolled friends. Node 0 is
/// the root; the children of `i` are `2i + 1` and `2i + 2`; leaves start
/// at `LEAF_START_IDX`, four friends per leaf.
pub struct HksTree {
    pub nodes: Vec<Vec<u8>>,
    pub roster: Vec<FriendEntry>,
    pub next_friend_idx: usize,
}

pub ghost struct HksTreeV {
    pub nodes: Seq<Seq<u8>>,
    pub roster: Seq<FriendEntryV>,
    pub next_friend_idx: int,
}

impl View for HksTree {
    type V = HksTreeV;

    open spec fn view(&self) -> HksTreeV {
        HksTreeV {
            nodes: self.nodes@.map_values(|n: Vec<u8>| n@),
            roster: self.roster@.map_values(|f: FriendEntry| f@),
            next_friend_idx: self.next_friend_idx as int,
        }
    }
}

impl HksTreeV {
    /// A full complement of 32-byte node keys and a sane friend count.
    pub open spec fn wf(self) -> bool {
        &&& self.nodes.len() == MAX_NODES
        &&& (forall|i: int| 0 <= i < self.nodes.len() ==> (#[trigger] self.nodes[i]).len() == 32)
        &&& 0 <= self.next_friend_idx <= MAX_FRIENDS
    }
}

/// A roster entry seals a leaf key, as base64 text, under a shared
/// secret, and the plaintext decodes back to the key.
pub open spec fn key_text_opens(
    key: Seq<u8>,
    ct_b64: Seq<char>,
    nonce_b64: Seq<char>,
    inner: Seq<u8>,
) -> bool {
    &&& crate::crypto::opens_to(key, ct_b64, nonce_b64, vstd::utf8::encode_utf8(b64_of(inner)))
    &&& b64_decode_of(b64_of(inner)) == Some(inner)
}

impl HksTree {
    /// A fresh tree: every node gets a random key, the roster is empty.
    pub fn new() -> (r: HksTree)
        ensures
            r@.wf(),
            r@.roster.len() == 0,
            r@.next_friend_idx == 0,
    {
        let mut nodes: Vec<Vec<u8>> = Vec::new();
        let mut i: usize = 0;
        while i < MAX_NODES
            invariant
                i <= MAX_NODES,
                nodes@.len() == i,
                forall|j: int| 0 <= j < i ==> (#[trigger] nodes@[j])@.len() == 32,
            decreases MAX_NODES - i,
        {
            nodes.push(rand_bytes_32());
            i += 1;
        }
        let r = HksTree { nodes, roster: Vec::new(), next_friend_idx: 0 };
        proof {
            assert forall|j: int| 0 <= j < r@.nodes.len() implies (#[trigger] r@.nodes[j]).len()
                == 32 by {
                assert(r@.nodes[j] == r.nodes@[j]@);
            }
        }
        r
    }

    /// Rebuild a tree from persisted node keys and roster; the friend
    /// counter resumes at the roster's size.
    pub fn restore(nodes: Vec<Vec<u8>>, roster: Vec<FriendEntry>) -> (r: HksTree)
        ensures
            r@.nodes == nodes@.map_values(|n: Vec<u8>| n@),
            r@.roster == roster@.map_values(|f: FriendEntry| f@),
            r@.next_friend_idx == roster@.len(),
    {
        let next_friend_idx = roster.len();
        HksTree { nodes, roster, next_friend_idx }
    }

    /// The root key, which seals every published payload.
    pub fn root_key(&self) -> (r: &Vec<u8>)
        requires
            self@.nodes.len() > 0,
        ensures
            r@ == self@.nodes[0],
    {
        &self.nodes[0]
    }

    /// A fresh identity: an Ed25519 signing key and an X25519 secret,
    /// both as 32 random bytes.
    pub fn generate_identity() -> (r: (Vec<u8>, Vec<u8>))
        ensures
            r.0@.len() == 32,
            r.1@.len() == 32,
    {
        (rand_bytes_32(), rand_bytes_32())
    }

    /// The index of the roster entry with this public key, if any.
    fn find_roster(&self, pubkey_b64: &str) -> (r: Option<usize>)
        ensures
            match r {
                Some(i) => i < self@.roster.len() && self@.roster[i as int].x25519_pubkey
                    == pubkey_b64@ && (forall|j: int|
                    0 <= j < i ==> (#[trigger] self@.roster[j]).x25519_pubkey != pubkey_b64@),
                None => forall|j: int|
                    0 <= j < self@.roster.len() ==> (#[trigger] self@.roster[j]).x25519_pubkey
                        != pubkey_b64@,
            },
    {
        let n = self.roster.len();
        let mut i: usize = 0;
        while i < n
            invariant
                n == self@.roster.len(),
                i <= n,
                forall|j: int|
                    0 <= j < i ==> (#[trigger] self@.roster[j]).x25519_pubkey != pubkey_b64@,
            decreases n - i,
        {
            if str_eq(self.roster[i].x25519_pubkey.as_str(), pubkey_b64) {
                return Some(i);
            }
            i += 1;
        }
        None
    }

    /// Whether a text is the base64 of a 32-byte X25519 public key.
    pub open spec fn friend_key_ok(pubkey_b64: Seq<char>) -> bool {
        match b64_decode_of(pubkey_b64) {
            Some(pkb) => pkb.len() == 32,
            None => false,
        }
    }

    /// Enroll a friend: seal that friend's leaf key under the Diffie-
    /// Hellman shared secret and record the entry under the friend's
    /// public key, replacing any earlier entry under that key and
    /// leaving the rest of the roster as it was. The entry opens under
    /// the shared secret computed from either side of the exchange.
    /// `Capacity` comes exactly at the friend cap and `BadKey` exactly
    /// on a malformed key; only the AEAD seal's own refusal is free.
    pub fn add_friend(&mut self, name: &str, friend_pubkey_b64: &str, my_secret: &[u8]) -> (r:
        Result<(), HksError>)
        requires
            old(self)@.wf(),
            my_secret@.len() == 32,
        ensures
            final(self)@.wf(),
            final(self)@.nodes == old(self)@.nodes,
            match r {
                Ok(()) => {
                    let leaf = LEAF_START_IDX + old(self)@.next_friend_idx / 4;
                    &&& old(self)@.next_friend_idx < MAX_FRIENDS
                    &&& Self::friend_key_ok(friend_pubkey_b64@)
                    &&& final(self)@.next_friend_idx == old(self)@.next_friend_idx + 1
                    &&& final(self)@.roster.len() >= 1
                    &&& (match first_roster_match(old(self)@.roster, friend_pubkey_b64@, 0) {
                        Some(i) => final(self)@.roster == old(self)@.roster.remove(i).push(
                            final(self)@.roster.last(),
                        ),
                        None => final(self)@.roster == old(self)@.roster.push(
                            final(self)@.roster.last(),
                        ),
                    })
                    &&& ({
                        let e = final(self)@.roster.last();
                        &&& e.name == name@
                        &&& e.x25519_pubkey == friend_pubkey_b64@
                        &&& e.leaf_index == leaf
                        &&& (match b64_decode_of(friend_pubkey_b64@) {
                            Some(pkb) => {
                                &&& pkb.len() == 32
                                &&& key_text_opens(
                                    x_dh_of(my_secret@, pkb),
                                    e.encrypted_leaf_key,
                                    e.nonce,
                                    old(self)@.nodes[leaf as int],
                                )
                                &&& (forall|other: Seq<u8>|
                                    pkb == x_pk_of(other) ==> key_text_opens(
                                        #[trigger] x_dh_of(other, x_pk_of(my_secret@)),
                                        e.encrypted_leaf_key,
                                        e.nonce,
                                        old(self)@.nodes[leaf as int],
                                    ))
                            },
                            None => false,
                        })
                    })
                },
                Err(e) => final(self)@.roster == old(self)@.roster && final(self)@.next_friend_idx
                    == old(self)@.next_friend_idx && (
                if old(self)@.next_friend_idx >= MAX_FRIENDS {
                    e == HksError::Capacity
                } else if !Self::friend_key_ok(friend_pubkey_b64@) {
                    e == HksError::BadKey
                } else {
                    e == HksError::Encoding
                }),
            },
    {
        if self.next_friend_idx >= MAX_FRIENDS {
            return Err(HksError::Capacity);
        }
        let leaf_offset = self.next_friend_idx / 4;
        let leaf_index = LEAF_START_IDX + leaf_offset;
        let friend_pubkey_bytes = match b64_decode(friend_pubkey_b64) {
            Some(v) => v,
            None => {
                return Err(HksError::BadKey);
            },
        };
        if friend_pubkey_bytes.len() != 32 {
            return Err(HksError::BadKey);
        }
        let shared = diffie_hellman(my_secret, friend_pubkey_bytes.as_slice());
        proof {
            assert(self@.nodes[leaf_index as int] == self.nodes@[leaf_index as int]@);
        }
        let leaf_key_b64 = b64_encode(self.nodes[leaf_index].as_slice());
        let (ciphertext, nonce) = match crate::crypto::encrypt_with_key(
            shared.as_slice(),
            leaf_key_b64.as_str().as_bytes(),
        ) {
            Ok(p) => p,
            Err(_) => {
                return Err(HksError::Encoding);
            },
        };
        // an entry under the same public key is replaced, so remove it first
        let ghost roster0 = self@.roster;
        match self.find_roster(friend_pubkey_b64) {
            Some(i) => {
                proof {
                    lemma_first_match_finds(roster0, friend_pubkey_b64@, 0, i as int);
                }
                self.roster.remove(i);
                proof {
                    assert(self@.roster =~= roster0.remove(i as int));
                }
            },
            None => {
                proof {
                    lemma_first_match_none(roster0, friend_pubkey_b64@, 0);
                }
            },
        }
        let entry = FriendEntry {
            name: name.to_owned(),
            x25519_pubkey: friend_pubkey_b64.to_owned(),
            encrypted_leaf_key: ciphertext,
            nonce,
            leaf_index,
        };
        self.roster.push(entry);
        self.next_friend_idx = self.next_friend_idx + 1;
        proof {
            assert(final(self)@.roster.last() == final(self)@.roster[final(self)@.roster.len()
                - 1]);
            match first_roster_match(roster0, friend_pubkey_b64@, 0) {
                Some(i) => {
                    assert(final(self)@.roster =~= roster0.remove(i).push(
                        final(self)@.roster.last(),
                    ));
                },
                None => {
                    assert(final(self)@.roster =~= roster0.push(final(self)@.roster.last()));
                },
            }
            let e = final(self)@.roster.last();
            let pkb = friend_pubkey_bytes@;
            assert(key_text_opens(
                x_dh_of(my_secret@, pkb),
                e.encrypted_leaf_key,
                e.nonce,
                old(self)@.nodes[leaf_index as int],
            ));
            assert forall|other: Seq<u8>| pkb == x_pk_of(other) implies key_text_opens(
                #[trigger] x_dh_of(other, x_pk_of(my_secret@)),
                e.encrypted_leaf_key,
                e.nonce,
                old(self)@.nodes[leaf_index as int],
            ) by {
                assert(shared@ == x_dh_of(other, x_pk_of(my_secret@)));
            }
        }
        Ok(())
    }
}

/// What the export pipeline promises of the blob it encodes: the payload
/// opens under the root key, every up-link opens the parent key under
/// its child key, the sender key is the owner's, and the signature
/// verifies over the blob with the signature field cleared.
pub open spec fn export_props(
    bv: PublishedBlobV,
    nodes: Seq<Seq<u8>>,
    roster: Seq<FriendEntryV>,
    payload: Seq<u8>,
    signing_key: Seq<u8>,
    enc_pubkey: Seq<u8>,
) -> bool {
    &&& crate::crypto::opens_to(nodes[0], bv.payload, bv.payload_nonce, payload)
    &&& bv.tree_links.len() == nodes.len() - 1
    &&& (forall|i: int|
        0 <= i < bv.tree_links.len() ==> key_text_opens(
            nodes[i + 1],
            (#[trigger] bv.tree_links[i]).1,
            bv.tree_links[i].0,
            nodes[((i + 1) - 1) / 2],
        ))
    &&& bv.roster == roster
    &&& b64_decode_of(bv.sender_x25519_pubkey) == Some(enc_pubkey)
    &&& (match b64_decode_of(bv.signature) {
        Some(sig) => ed_verify_of(
            ed_pk_of(signing_key),
            enc_blob(PublishedBlobV { signature: Seq::<char>::empty(), ..bv }),
            sig,
        ),
        None => false,
    })
    &&& bv.invitations.len() == 0
    &&& bv.shadow_invites.len() == 0
}

/// The blob text decodes, inflates and parses back to some blob value.
pub open spec fn blob_wire_ok(s: Seq<char>, bv: PublishedBlobV) -> bool {
    match b64_decode_of(s) {
        Some(z) => inflate_of(z) == Some(enc_blob(bv)),
        None => false,
    }
}

impl HksTree {
    /// Publish the tree: seal the payload under the root key, seal every
    /// node's parent key under the node's own key, sign the whole blob
    /// and compress it for the directory.
    #[verifier::rlimit(100)]
    #[verifier::spinoff_prover]
    pub fn export(&self, payload_data: &str, signing_key: &[u8], encryption_pubkey: &[u8]) -> (r:
        Result<String, HksError>)
        requires
            self@.wf(),
            signing_key@.len() == 32,
            encryption_pubkey@.len() == 32,
        ensures
            match r {
                Ok(s) => exported_to(
                    s@,
                    self@.nodes,
                    self@.roster,
                    vstd::utf8::encode_utf8(payload_data@),
                    signing_key@,
                    encryption_pubkey@,
                ),
                Err(e) => e == HksError::Encoding,
            },
    {
        let root = &self.nodes[0];
        proof {
            assert(self@.nodes[0] == self.nodes@[0]@);
        }
        let (payload_cipher, payload_nonce) = match crate::crypto::encrypt_with_key(
            root.as_slice(),
            payload_data.as_bytes(),
        ) {
            Ok(p) => p,
            Err(_) => {
                return Err(HksError::Encoding);
            },
        };
        let n = self.nodes.len();
        let mut tree_links: Vec<(String, String)> = Vec::new();
        let mut i: usize = 1;
        while i < n
            invariant
                self@.wf(),
                n == self@.nodes.len(),
                1 <= i <= n,
                tree_links@.len() == i - 1,
                forall|k: int|
                    0 <= k < i - 1 ==> key_text_opens(
                        self@.nodes[k + 1],
                        (#[trigger] tree_links@[k]).1@,
                        tree_links@[k].0@,
                        self@.nodes[((k + 1) - 1) / 2],
                    ),
            decreases n - i,
        {
            let parent_idx = (i - 1) / 2;
            proof {
                assert(self@.nodes[i as int] == self.nodes@[i as int]@);
                assert(self@.nodes[parent_idx as int] == self.nodes@[parent_idx as int]@);
            }
            let parent_key_b64 = b64_encode(self.nodes[parent_idx].as_slice());
            let (cipher, nonce) = match crate::crypto::encrypt_with_key(
                self.nodes[i].as_slice(),
                parent_key_b64.as_str().as_bytes(),
            ) {
                Ok(p) => p,
                Err(_) => {
                    return Err(HksError::Encoding);
                },
            };
            tree_links.push((nonce, cipher));
            proof {
                assert(key_text_opens(
                    self@.nodes[i as int],
                    tree_links@.last().1@,
                    tree_links@.last().0@,
                    self@.nodes[(i - 1) as int / 2],
                ));
            }
            i += 1;
        }
        let mut blob = PublishedBlob {
            payload: payload_cipher,
            payload_nonce,
            tree_links,
            roster: copy_roster(&self.roster),
            signature: String::new(),
            sender_x25519_pubkey: b64_encode(encryption_pubkey),
            invitations: Vec::new(),
            shadow_invites: Vec::new(),
        };
        let unsigned_json = encode_blob(&blob);
        let signature = sign(signing_key, unsigned_json.as_slice());
        blob.signature = b64_encode(signature.as_slice());
        let ghost unsigned_view = PublishedBlobV { signature: Seq::<char>::empty(), ..blob@ };
        proof {
            assert(unsigned_json@ == enc_blob(unsigned_view));
        }
        let final_json = encode_blob(&blob);
        let compressed = match zlib_compress(final_json.as_slice()) {
            Some(c) => c,
            None => {
                return Err(HksError::Encoding);
            },
        };
        let out = b64_encode(compressed.as_slice());
        proof {
            assert(blob_wire_ok(out@, blob@));
            assert(export_props(
                blob@,
                self@.nodes,
                self@.roster,
                vstd::utf8::encode_utf8(payload_data@),
                signing_key@,
                encryption_pubkey@,
            ));
            lemma_export_package(
                out@,
                blob@,
                self@.nodes,
                self@.roster,
                vstd::utf8::encode_utf8(payload_data@),
                signing_key@,
                encryption_pubkey@,
            );
        }
        Ok(out)
    }
}

/// The exported text carries some blob with the export properties.
pub open spec fn exported_to(
    out: Seq<char>,
    nodes: Seq<Seq<u8>>,
    roster: Seq<FriendEntryV>,
    payload: Seq<u8>,
    signing_key: Seq<u8>,
    enc_pubkey: Seq<u8>,
) -> bool {
    exists|w: PublishedBlobV|
        #[trigger] blob_wire_ok(out, w) && export_props(
            w,
            nodes,
            roster,
            payload,
            signing_key,
            enc_pubkey,
        )
}

/// Packaging the export facts as the existence the contract states.
proof fn lemma_export_package(
    out: Seq<char>,
    bv: PublishedBlobV,
    nodes: Seq<Seq<u8>>,
    roster: Seq<FriendEntryV>,
    payload: Seq<u8>,
    signing_key: Seq<u8>,
    enc_pubkey: Seq<u8>,
)
    requires
        blob_wire_ok(out, bv),
        export_props(bv, nodes, roster, payload, signing_key, enc_pubkey),
    ensures
        exported_to(out, nodes, roster, payload, signing_key, enc_pubkey),
{
}

/// A roster copy with equal views.
fn copy_roster(roster: &Vec<FriendEntry>) -> (r: Vec<FriendEntry>)
    ensures
        r@.map_values(|f: FriendEntry| f@) == roster@.map_values(|f: FriendEntry| f@),
{
    let mut out: Vec<FriendEntry> = Vec::new();
    let n = roster.len();
    let mut i: usize = 0;
    while i < n
        invariant
            n == roster@.len(),
            i <= n,
            out@.len() == i,
            forall|j: int| 0 <= j < i ==> (#[trigger] out@[j])@ == roster@[j]@,
        decreases n - i,
    {
        let f = &roster[i];
        out.push(
            FriendEntry {
                name: f.name.clone(),
                x25519_pubkey: f.x25519_pubkey.clone(),
                encrypted_leaf_key: f.encrypted_leaf_key.clone(),
                nonce: f.nonce.clone(),
                leaf_index: f.leaf_index,
            },
        );
        i += 1;
    }
    proof {
        assert(out@.map_values(|f: FriendEntry| f@) =~= roster@.map_values(|f: FriendEntry| f@));
    }
    out
}

/// One base64 AEAD opening step of the import walk: the ciphertext and
/// nonce open under `key` to base64 text that decodes to the inner key.
pub open spec fn open_key_step(key: Seq<u8>, ct_b64: Seq<char>, nonce_b64: Seq<char>) -> Option<
    Seq<u8>,
> {
    match (b64_decode_of(ct_b64), b64_decode_of(nonce_b64)) {
        (Some(ct), Some(nb)) => {
            if nb.len() == 24 {
                match aead_open_of(key, ct, nb) {
                    Some(pt) => {
                        if vstd::utf8::valid_utf8(pt) {
                            match b64_decode_of(vstd::utf8::decode_utf8(pt)) {
                                Some(inner) => {
                                    if inner.len() == 32 {
                                        Some(inner)
                                    } else {
                                        None
                                    }
                                },
                                None => None,
                            }
                        } else {
                            None
                        }
                    },
                    None => None,
                }
            } else {
                None
            }
        },
        _ => None,
    }
}

/// Climb from a node to the root, opening each up-link with the key in
/// hand.
pub open spec fn walk_up(
    links: Seq<(Seq<char>, Seq<char>)>,
    idx: int,
    key: Seq<u8>,
) -> Result<Seq<u8>, HksError>
    decreases idx,
{
    if idx <= 0 {
        Ok(key)
    } else if idx - 1 >= links.len() {
        Err(HksError::BrokenLink(idx as usize))
    } else {
        match open_key_step(key, links[idx - 1].1, links[idx - 1].0) {
            Some(parent) => walk_up(links, (idx - 1) / 2, parent),
            None => Err(HksError::BadAuth(idx as usize)),
        }
    }
}

/// Opening the payload under the recovered root key.
pub open spec fn finish_payload(bv: PublishedBlobV, root_key: Seq<u8>) -> Result<
    Seq<u8>,
    HksError,
> {
    match (b64_decode_of(bv.payload), b64_decode_of(bv.payload_nonce)) {
        (Some(ct), Some(nb)) => {
            if nb.len() == 24 {
                match aead_open_of(root_key, ct, nb) {
                    Some(pt) => Ok(pt),
                    None => Err(HksError::BadAuth(0)),
                }
            } else {
                Err(HksError::BadAuth(0))
            }
        },
        _ => Err(HksError::BadAuth(0)),
    }
}

/// What importing a structured blob returns.
pub open spec fn import_spec(
    bv: PublishedBlobV,
    my_pubkey_b64: Seq<char>,
    my_secret: Seq<u8>,
    friend_vk: Seq<u8>,
) -> Result<Seq<u8>, HksError> {
    let unsigned = PublishedBlobV { signature: Seq::<char>::empty(), ..bv };
    match b64_decode_of(bv.signature) {
        None => Err(HksError::BadSignature),
        Some(sig) => {
            if !ed_verify_of(friend_vk, enc_blob(unsigned), sig) {
                Err(HksError::BadSignature)
            } else {
                match first_roster_match(bv.roster, my_pubkey_b64, 0) {
                    None => Err(HksError::NotInRoster),
                    Some(fi) => {
                        let e = bv.roster[fi];
                        match b64_decode_of(bv.sender_x25519_pubkey) {
                            None => Err(HksError::BadKey),
                            Some(sender_pk) => {
                                if sender_pk.len() != 32 {
                                    Err(HksError::BadKey)
                                } else {
                                    let shared = x_dh_of(my_secret, sender_pk);
                                    match open_key_step(shared, e.encrypted_leaf_key, e.nonce) {
                                        None => Err(HksError::BadAuth(e.leaf_index as usize)),
                                        Some(leaf_key) => {
                                            match walk_up(bv.tree_links, e.leaf_index, leaf_key) {
                                                Err(err) => Err(err),
                                                Ok(root_key) => finish_payload(bv, root_key),
                                            }
                                        },
                                    }
                                }
                            },
                        }
                    },
                }
            }
        },
    }
}

/// The first roster index whose public key matches.
pub open spec fn first_roster_match(
    roster: Seq<FriendEntryV>,
    pk: Seq<char>,
    i: int,
) -> Option<int>
    decreases roster.len() - i,
{
    if i < 0 || i >= roster.len() {
        None
    } else if roster[i].x25519_pubkey == pk {
        Some(i)
    } else {
        first_roster_match(roster, pk, i + 1)
    }
}


/// Check a blob's signature: decode it and verify it over the blob with
/// the signature field cleared.
fn signature_ok(blob: &PublishedBlob, friend_identity_pubkey: &[u8]) -> (r: bool)
    requires
        friend_identity_pubkey@.len() == 32,
    ensures
        r == (match b64_decode_of(blob@.signature) {
            Some(sig) => ed_verify_of(
                friend_identity_pubkey@,
                enc_blob(PublishedBlobV { signature: Seq::<char>::empty(), ..blob@ }),
                sig,
            ),
            None => false,
        }),
{
    let sig = match b64_decode(blob.signature.as_str()) {
        Some(v) => v,
        None => {
            return false;
        },
    };
    let mut unsigned = copy_blob(blob);
    unsigned.signature = String::new();
    let unsigned_json = encode_blob(&unsigned);
    proof {
        assert(unsigned@ == (PublishedBlobV { signature: Seq::<char>::empty(), ..blob@ }));
    }
    verify(friend_identity_pubkey, unsigned_json.as_slice(), sig.as_slice())
}

/// One opening step, executably: open the ciphertext under `key` and
/// decode the base64 text inside to a 32-byte key.
fn open_key_exec(key: &[u8], ct_b64: &str, nonce_b64: &str) -> (r: Option<Vec<u8>>)
    requires
        key@.len() == 32,
    ensures
        match r {
            Some(k) => open_key_step(key@, ct_b64@, nonce_b64@) == Some(k@) && k@.len() == 32,
            None => open_key_step(key@, ct_b64@, nonce_b64@) is None,
        },
{
    let pt = match crate::crypto::decrypt_with_key(key, ct_b64, nonce_b64) {
        Ok(p) => p,
        Err(_) => {
            proof {
                if open_key_step(key@, ct_b64@, nonce_b64@) is Some {
                    let ct = b64_decode_of(ct_b64@)->Some_0;
                    let nb = b64_decode_of(nonce_b64@)->Some_0;
                    let pt0 = aead_open_of(key@, ct, nb)->Some_0;
                    assert(crate::crypto::opens_to(key@, ct_b64@, nonce_b64@, pt0));
                }
            }
            return None;
        },
    };
    let text = match string_from_utf8(pt) {
        Some(t) => t,
        None => {
            return None;
        },
    };
    let inner = match b64_decode(text.as_str()) {
        Some(v) => v,
        None => {
            return None;
        },
    };
    if inner.len() != 32 {
        return None;
    }
    Some(inner)
}

impl HksTree {
    /// The admission step of an import: the signature must verify and
    /// our key must be in the roster.
    #[verifier::rlimit(100)]
    #[verifier::spinoff_prover]
    fn import_admission(blob: &PublishedBlob, my_pubkey_b64: &str, friend_identity_pubkey: &[u8]) -> (r:
        Result<usize, HksError>)
        requires
            friend_identity_pubkey@.len() == 32,
        ensures
            match r {
                Ok(fi) => (match b64_decode_of(blob@.signature) {
                    Some(sig) => ed_verify_of(
                        friend_identity_pubkey@,
                        enc_blob(PublishedBlobV { signature: Seq::<char>::empty(), ..blob@ }),
                        sig,
                    ),
                    None => false,
                }) && first_roster_match(blob@.roster, my_pubkey_b64@, 0) == Some(fi as int) && fi
                    < blob@.roster.len(),
                Err(e) => forall|sk: Seq<u8>|
                    #[trigger] import_spec(blob@, my_pubkey_b64@, sk, friend_identity_pubkey@)
                        == Err::<Seq<u8>, HksError>(e),
            },
    {
        if !signature_ok(blob, friend_identity_pubkey) {
            return Err(HksError::BadSignature);
        }
        match find_first_entry(&blob.roster, my_pubkey_b64) {
            Some(i) => {
                proof {
                    lemma_first_roster_match_range(blob@.roster, my_pubkey_b64@, 0);
                }
                Ok(i)
            },
            None => Err(HksError::NotInRoster),
        }
    }

    /// The steps of an import before the climb: signature, roster entry,
    /// sender key, and the leaf key opened under the shared secret.
    #[verifier::rlimit(100)]
    #[verifier::spinoff_prover]
    fn import_prelude(
        blob: &PublishedBlob,
        my_pubkey_b64: &str,
        my_secret: &[u8],
        friend_identity_pubkey: &[u8],
    ) -> (r: Result<(Vec<u8>, usize), HksError>)
        requires
            my_secret@.len() == 32,
            friend_identity_pubkey@.len() == 32,
        ensures
            match r {
                Ok((k, li)) => k@.len() == 32 && import_spec(
                    blob@,
                    my_pubkey_b64@,
                    my_secret@,
                    friend_identity_pubkey@,
                ) == (match walk_up(blob@.tree_links, li as int, k@) {
                    Err(err) => Err::<Seq<u8>, HksError>(err),
                    Ok(rk) => finish_payload(blob@, rk),
                }),
                Err(e) => import_spec(blob@, my_pubkey_b64@, my_secret@, friend_identity_pubkey@)
                    == Err::<Seq<u8>, HksError>(e),
            },
    {
        let fi = match Self::import_admission(blob, my_pubkey_b64, friend_identity_pubkey) {
            Ok(i) => i,
            Err(e) => {
                return Err(e);
            },
        };
        let sender_pk = match b64_decode(blob.sender_x25519_pubkey.as_str()) {
            Some(v) => v,
            None => {
                return Err(HksError::BadKey);
            },
        };
        if sender_pk.len() != 32 {
            return Err(HksError::BadKey);
        }
        let shared = diffie_hellman(my_secret, sender_pk.as_slice());
        proof {
            assert(blob@.roster[fi as int] == blob.roster@[fi as int]@);
        }
        let leaf_index = blob.roster[fi].leaf_index;
        let key = match open_key_exec(
            shared.as_slice(),
            blob.roster[fi].encrypted_leaf_key.as_str(),
            blob.roster[fi].nonce.as_str(),
        ) {
            Some(k) => k,
            None => {
                return Err(HksError::BadAuth(leaf_index));
            },
        };
        Ok((key, leaf_index))
    }

    /// Recover the payload from a structured blob: verify the signature
    /// over the blob with its signature cleared, find our roster entry,
    /// open our leaf key with the shared secret, climb the up-links to
    /// the root, and open the payload.
    #[verifier::rlimit(100)]
    #[verifier::spinoff_prover]
    pub fn import_from_blob(
        blob: &PublishedBlob,
        my_pubkey_b64: &str,
        my_secret: &[u8],
        friend_identity_pubkey: &[u8],
    ) -> (r: Result<Vec<u8>, HksError>)
        requires
            my_secret@.len() == 32,
            friend_identity_pubkey@.len() == 32,
        ensures
            match r {
                Ok(p) => import_spec(blob@, my_pubkey_b64@, my_secret@, friend_identity_pubkey@)
                    == Ok::<Seq<u8>, HksError>(p@),
                Err(e) => import_spec(blob@, my_pubkey_b64@, my_secret@, friend_identity_pubkey@)
                    == Err::<Seq<u8>, HksError>(e),
            },
    {
        let (mut key, leaf_index) = match Self::import_prelude(
            blob,
            my_pubkey_b64,
            my_secret,
            friend_identity_pubkey,
        ) {
            Ok(p) => p,
            Err(e) => {
                return Err(e);
            },
        };
        let mut idx: usize = leaf_index;
        let ghost links = blob@.tree_links;
        while idx > 0
            invariant
                links == blob@.tree_links,
                blob@.tree_links == blob.tree_links@.map_values(
                    |p: (String, String)| (p.0@, p.1@),
                ),
                key@.len() == 32,
                import_spec(blob@, my_pubkey_b64@, my_secret@, friend_identity_pubkey@)
                    == (match walk_up(links, idx as int, key@) {
                    Err(err) => Err::<Seq<u8>, HksError>(err),
                    Ok(rk) => finish_payload(blob@, rk),
                }),
            decreases idx,
        {
            if idx - 1 >= blob.tree_links.len() {
                return Err(HksError::BrokenLink(idx));
            }
            proof {
                assert(links[idx - 1] == (blob.tree_links@[idx - 1].0@, blob.tree_links@[idx
                    - 1].1@));
            }
            let next = match open_key_exec(
                key.as_slice(),
                blob.tree_links[idx - 1].1.as_str(),
                blob.tree_links[idx - 1].0.as_str(),
            ) {
                Some(k) => k,
                None => {
                    return Err(HksError::BadAuth(idx));
                },
            };
            key = next;
            idx = (idx - 1) / 2;
        }
        match crate::crypto::decrypt_with_key(
            key.as_slice(),
            blob.payload.as_str(),
            blob.payload_nonce.as_str(),
        ) {
            Ok(p) => Ok(p),
            Err(_) => {
                proof {
                    if (match (b64_decode_of(blob@.payload), b64_decode_of(blob@.payload_nonce)) {
                        (Some(ct), Some(nb)) => nb.len() == 24 && aead_open_of(key@, ct, nb)
                            is Some,
                        _ => false,
                    }) {
                        let ct = b64_decode_of(blob@.payload)->Some_0;
                        let nb = b64_decode_of(blob@.payload_nonce)->Some_0;
                        let pt0 = aead_open_of(key@, ct, nb)->Some_0;
                        assert(crate::crypto::opens_to(key@, blob@.payload, blob@.payload_nonce,
                            pt0));
                    }
                }
                Err(HksError::BadAuth(0))
            },
        }
    }
}

/// A found roster match lies within the roster.
proof fn lemma_first_roster_match_range(roster: Seq<FriendEntryV>, pk: Seq<char>, i: int)
    ensures
        match first_roster_match(roster, pk, i) {
            Some(j) => i <= j < roster.len() && roster[j].x25519_pubkey == pk,
            None => true,
        },
    decreases roster.len() - i,
{
    if 0 <= i < roster.len() && roster[i].x25519_pubkey != pk {
        lemma_first_roster_match_range(roster, pk, i + 1);
    }
}

/// The first roster entry with this public key, executably.
fn find_first_entry(roster: &Vec<FriendEntry>, pk: &str) -> (r: Option<usize>)
    ensures
        ({
            let views = roster@.map_values(|f: FriendEntry| f@);
            match r {
                Some(i) => first_roster_match(views, pk@, 0) == Some(i as int),
                None => first_roster_match(views, pk@, 0) is None,
            }
        }),
{
    let ghost views = roster@.map_values(|f: FriendEntry| f@);
    let n = roster.len();
    let mut i: usize = 0;
    while i < n
        invariant
            views == roster@.map_values(|f: FriendEntry| f@),
            n == views.len(),
            i <= n,
            first_roster_match(views, pk@, 0) == first_roster_match(views, pk@, i as int),
        decreases n - i,
    {
        proof {
            assert(views[i as int] == roster@[i as int]@);
        }
        if str_eq(roster[i].x25519_pubkey.as_str(), pk) {
            return Some(i);
        }
        i += 1;
    }
    None
}

/// A blob copy with an equal view.
fn copy_blob(b: &PublishedBlob) -> (r: PublishedBlob)
    ensures
        r@ == b@,
{
    let mut tree_links: Vec<(String, String)> = Vec::new();
    let n = b.tree_links.len();
    let mut i: usize = 0;
    while i < n
        invariant
            n == b.tree_links@.len(),
            i <= n,
            tree_links@.len() == i,
            forall|j: int|
                0 <= j < i ==> (#[trigger] tree_links@[j]).0@ == b.tree_links@[j].0@
                    && tree_links@[j].1@ == b.tree_links@[j].1@,
        decreases n - i,
    {
        tree_links.push((b.tree_links[i].0.clone(), b.tree_links[i].1.clone()));
        i += 1;
    }
    let mut invitations: Vec<TrackedInvite> = Vec::new();
    let m = b.invitations.len();
    let mut j: usize = 0;
    while j < m
        invariant
            m == b.invitations@.len(),
            j <= m,
            invitations@.len() == j,
            forall|k: int| 0 <= k < j ==> (#[trigger] invitations@[k])@ == b.invitations@[k]@,
        decreases m - j,
    {
        let t = &b.invitations[j];
        invitations.push(
            TrackedInvite {
                salt: t.salt.clone(),
                nonce: t.nonce.clone(),
                ciphertext: t.ciphertext.clone(),
                created_at: t.created_at,
            },
        );
        j += 1;
    }
    let mut shadow_invites: Vec<ShadowInvite> = Vec::new();
    let q = b.shadow_invites.len();
    let mut w: usize = 0;
    while w < q
        invariant
            q == b.shadow_invites@.len(),
            w <= q,
            shadow_invites@.len() == w,
            forall|k: int| 0 <= k < w ==> (#[trigger] shadow_invites@[k])@ == b.shadow_invites@[
                k]@,
        decreases q - w,
    {
        let t = &b.shadow_invites[w];
        shadow_invites.push(
            ShadowInvite {
                target_username: t.target_username.clone(),
                salt: t.salt.clone(),
                nonce: t.nonce.clone(),
                ciphertext: t.ciphertext.clone(),
                created_at: t.created_at,
            },
        );
        w += 1;
    }
    let r = PublishedBlob {
        payload: b.payload.clone(),
        payload_nonce: b.payload_nonce.clone(),
        tree_links,
        roster: copy_roster(&b.roster),
        signature: b.signature.clone(),
        sender_x25519_pubkey: b.sender_x25519_pubkey.clone(),
        invitations,
        shadow_invites,
    };
    proof {
        assert(r@.tree_links =~= b@.tree_links);
        assert(r@.roster =~= b@.roster);
        assert(r@.invitations =~= b@.invitations);
        assert(r@.shadow_invites =~= b@.shadow_invites);
    }
    r
}


/// The blob a wire text stands for: the text must be base64 of a zlib
/// stream that inflates to the canonical form of exactly one blob.
pub open spec fn wire_decoded(s: Seq<char>) -> Option<PublishedBlobV> {
    match b64_decode_of(s) {
        None => None,
        Some(z) => match inflate_of(z) {
            None => None,
            Some(j) => canon_blob(j),
        },
    }
}

impl HksTree {
    /// Recover the payload from a published blob as fetched from the
    /// directory: base64, zlib, the JSON form, then the cryptographic
    /// import. `Encoding` comes exactly when the text decodes to no
    /// blob; otherwise the outcome is that of importing the decoded
    /// blob.
    pub fn import(
        blob_b64: &str,
        my_pubkey_b64: &str,
        my_secret: &[u8],
        friend_identity_pubkey: &[u8],
    ) -> (r: Result<Vec<u8>, HksError>)
        requires
            my_secret@.len() == 32,
            friend_identity_pubkey@.len() == 32,
        ensures
            match r {
                Ok(p) => wire_decoded(blob_b64@) is Some && import_spec(
                    wire_decoded(blob_b64@)->Some_0,
                    my_pubkey_b64@,
                    my_secret@,
                    friend_identity_pubkey@,
                ) == Ok::<Seq<u8>, HksError>(p@),
                Err(e) => match wire_decoded(blob_b64@) {
                    None => e == HksError::Encoding,
                    Some(bv) => import_spec(
                        bv,
                        my_pubkey_b64@,
                        my_secret@,
                        friend_identity_pubkey@,
                    ) == Err::<Seq<u8>, HksError>(e),
                },
            },
    {
        let compressed = match b64_decode(blob_b64) {
            Some(v) => v,
            None => {
                return Err(HksError::Encoding);
            },
        };
        let json = match zlib_decompress(compressed.as_slice()) {
            Some(v) => v,
            None => {
                return Err(HksError::Encoding);
            },
        };
        let blob = match parse_blob(json.as_slice()) {
            Some(b) => b,
            None => {
                return Err(HksError::Encoding);
            },
        };
        proof {
            assert(wire_decoded(blob_b64@) == Some(blob@));
        }
        Self::import_from_blob(&blob, my_pubkey_b64, my_secret, friend_identity_pubkey)
    }
}

// --- The round trip ---

/// Climbing from any node of an exported blob reaches the root key.
proof fn lemma_walk_reaches_root(bv: PublishedBlobV, nodes: Seq<Seq<u8>>, idx: int)
    requires
        forall|i: int| 0 <= i < nodes.len() ==> (#[trigger] nodes[i]).len() == 32,
        bv.tree_links.len() == nodes.len() - 1,
        forall|i: int|
            0 <= i < bv.tree_links.len() ==> key_text_opens(
                nodes[i + 1],
                (#[trigger] bv.tree_links[i]).1,
                bv.tree_links[i].0,
                nodes[((i + 1) - 1) / 2],
            ),
        0 <= idx < nodes.len(),
    ensures
        walk_up(bv.tree_links, idx, nodes[idx]) == Ok::<Seq<u8>, HksError>(nodes[0]),
    decreases idx,
{
    broadcast use vstd::utf8::encode_utf8_valid_utf8, vstd::utf8::encode_utf8_decode_utf8;

    if idx <= 0 {
    } else {
        let parent = (idx - 1) / 2;
        assert(key_text_opens(nodes[idx], bv.tree_links[idx - 1].1, bv.tree_links[idx - 1].0,
            nodes[parent]));
        assert(open_key_step(nodes[idx], bv.tree_links[idx - 1].1, bv.tree_links[idx - 1].0)
            == Some(nodes[parent])) by {
            let ct = b64_decode_of(bv.tree_links[idx - 1].1)->Some_0;
            let nb = b64_decode_of(bv.tree_links[idx - 1].0)->Some_0;
            let text = vstd::utf8::encode_utf8(b64_of(nodes[parent]));
            assert(aead_open_of(nodes[idx], ct, nb) == Some(text));
            assert(vstd::utf8::decode_utf8(text) == b64_of(nodes[parent]));
            assert(b64_decode_of(b64_of(nodes[parent])) == Some(nodes[parent]));
        }
        lemma_walk_reaches_root(bv, nodes, parent);
    }
}

/// The key-set round trip: a friend enrolled in the tree recovers, from
/// the exported blob, exactly the payload the owner published. The
/// friend supplies its own X25519 secret and the owner's Ed25519
/// verifying key; its entry seals the leaf key under the agreed shared
/// secret, and the climb from that leaf ends at the root that seals the
/// payload.
pub proof fn lemma_hks_round_trip(
    bv: PublishedBlobV,
    nodes: Seq<Seq<u8>>,
    roster: Seq<FriendEntryV>,
    payload: Seq<u8>,
    signing_key: Seq<u8>,
    owner_secret: Seq<u8>,
    friend_secret: Seq<u8>,
    fi: int,
)
    requires
        export_props(bv, nodes, roster, payload, signing_key, x_pk_of(owner_secret)),
        nodes.len() == MAX_NODES,
        forall|i: int| 0 <= i < nodes.len() ==> (#[trigger] nodes[i]).len() == 32,
        0 <= fi < roster.len(),
        roster[fi].x25519_pubkey == b64_of(x_pk_of(friend_secret)),
        forall|j: int|
            0 <= j < fi ==> (#[trigger] roster[j]).x25519_pubkey != b64_of(x_pk_of(friend_secret)),
        0 <= roster[fi].leaf_index < nodes.len(),
        key_text_opens(
            x_dh_of(friend_secret, x_pk_of(owner_secret)),
            roster[fi].encrypted_leaf_key,
            roster[fi].nonce,
            nodes[roster[fi].leaf_index],
        ),
        x_pk_of(owner_secret).len() == 32,
    ensures
        import_spec(
            bv,
            b64_of(x_pk_of(friend_secret)),
            friend_secret,
            ed_pk_of(signing_key),
        ) == Ok::<Seq<u8>, HksError>(payload),
{
    broadcast use vstd::utf8::encode_utf8_valid_utf8, vstd::utf8::encode_utf8_decode_utf8;

    let me = b64_of(x_pk_of(friend_secret));
    lemma_first_match_finds(bv.roster, me, 0, fi);
    let e = bv.roster[fi];
    let leaf = e.leaf_index;
    let shared = x_dh_of(friend_secret, x_pk_of(owner_secret));
    assert(open_key_step(shared, e.encrypted_leaf_key, e.nonce) == Some(nodes[leaf])) by {
        let ct = b64_decode_of(e.encrypted_leaf_key)->Some_0;
        let nb = b64_decode_of(e.nonce)->Some_0;
        let text = vstd::utf8::encode_utf8(b64_of(nodes[leaf]));
        assert(aead_open_of(shared, ct, nb) == Some(text));
        assert(vstd::utf8::decode_utf8(text) == b64_of(nodes[leaf]));
    }
    lemma_walk_reaches_root(bv, nodes, leaf);
    assert(finish_payload(bv, nodes[0]) == Ok::<Seq<u8>, HksError>(payload)) by {
        let ct = b64_decode_of(bv.payload)->Some_0;
        let nb = b64_decode_of(bv.payload_nonce)->Some_0;
        assert(aead_open_of(nodes[0], ct, nb) == Some(payload));
    }
}

/// No key match at all means the scan returns nothing.
proof fn lemma_first_match_none(roster: Seq<FriendEntryV>, pk: Seq<char>, i: int)
    requires
        forall|j: int| i <= j < roster.len() ==> (#[trigger] roster[j]).x25519_pubkey != pk,
    ensures
        first_roster_match(roster, pk, i) is None,
    decreases roster.len() - i,
{
    if 0 <= i < roster.len() {
        lemma_first_match_none(roster, pk, i + 1);
    }
}

proof fn lemma_first_match_finds(roster: Seq<FriendEntryV>, pk: Seq<char>, i: int, fi: int)
    requires
        0 <= i <= fi < roster.len(),
        roster[fi].x25519_pubkey == pk,
        forall|j: int| i <= j < fi ==> (#[trigger] roster[j]).x25519_pubkey != pk,
    ensures
        first_roster_match(roster, pk, i) == Some(fi),
    decreases fi - i,
{
    if i < fi {
        lemma_first_match_finds(roster, pk, i + 1, fi);
    }
}

} // verus!




