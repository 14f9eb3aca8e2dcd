//! The encrypted configuration: its data model, the session-key state of
//! the manager, and the pure edits the commands perform on it. Reading
//! and writing the file, and the keystore that guards the key, live
//! outside the crate.

use vstd::prelude::*;
use crate::text::str_eq;
use vstd::string::StringExecFns;

verus! {

/// Internal settings: the rendezvous account and the master hash.
#[derive(Debug, Clone)]
pub struct SystemConfig {
    pub github_username: Option<String>,
    pub github_token: Option<String>,
    pub public_key: Option<String>,
    pub private_key: Option<String>,
    pub master_hash: Option<String>,
}

/// A friend as the configuration stores it.
#[derive(Debug, Clone)]
pub struct FriendConfig {
    pub username: String,
    pub x25519_pubkey: Option<String>,
    pub ed25519_pubkey: Option<String>,
    pub leaf_index: usize,
    pub encrypted_leaf_key: Option<String>,
    pub nonce: Option<String>,
}

/// The user's display profile.
#[derive(Debug, Clone)]
pub struct UserProfile {
    pub alias: Option<String>,
    pub avatar_path: Option<String>,
}

/// User-facing settings.
#[derive(Debug, Clone)]
pub struct UserConfig {
    pub dark_mode: bool,
    pub timeout: u16,
    pub identity_private_key: Option<String>,
    pub identity_public_key: Option<String>,
    pub encryption_private_key: Option<String>,
    pub friends: Vec<FriendConfig>,
    pub hks_nodes: Vec<String>,
    pub profile: UserProfile,
    pub pinned_peers: Vec<String>,
    pub is_online: bool,
    pub libp2p_keypair: Option<String>,
}

/// The whole configuration.
#[derive(Debug, Clone)]
pub struct Config {
    pub system: SystemConfig,
    pub user: UserConfig,
}

impl UserConfig {
    /// The settings of a fresh account: dark mode, no timeout, offline,
    /// no keys, no friends.
    pub fn fresh() -> (r: UserConfig)
        ensures
            r.dark_mode == true,
            r.timeout == 0,
            r.identity_private_key is None,
            r.friends@.len() == 0,
            r.hks_nodes@.len() == 0,
            r.pinned_peers@.len() == 0,
            r.is_online == false,
    {
        UserConfig {
            dark_mode: true,
            timeout: 0,
            identity_private_key: None,
            identity_public_key: None,
            encryption_private_key: None,
            friends: Vec::new(),
            hks_nodes: Vec::new(),
            profile: UserProfile { alias: None, avatar_path: None },
            pinned_peers: Vec::new(),
            is_online: false,
            libp2p_keypair: None,
        }
    }

    /// Whether a friend with this name is recorded.
    pub fn has_friend(&self, username: &str) -> (r: bool)
        ensures
            r == (exists|i: int|
                0 <= i < self.friends@.len() && (#[trigger] self.friends@[i]).username@
                    == username@),
    {
        let n = self.friends.len();
        let mut i: usize = 0;
        while i < n
            invariant
                n == self.friends@.len(),
                i <= n,
                forall|j: int| 0 <= j < i ==> (#[trigger] self.friends@[j]).username@ != username@,
            decreases n - i,
        {
            if str_eq(self.friends[i].username.as_str(), username) {
                return true;
            }
            i += 1;
        }
        false
    }

    /// Record a new friend by name; a name already present is left
    /// alone.
    pub fn add_friend(&mut self, username: &str, x25519_key: Option<String>, ed25519_key: Option<
        String,
    >)
        ensures
            (exists|i: int|
                0 <= i < old(self).friends@.len() && (#[trigger] old(self).friends@[i]).username@
                    == username@) ==> *final(self) == *old(self),
            !(exists|i: int|
                0 <= i < old(self).friends@.len() && (#[trigger] old(self).friends@[i]).username@
                    == username@) ==> final(self).friends@.len() == old(self).friends@.len() + 1
                && final(self).friends@.last().username@ == username@,
    {
        if !self.has_friend(username) {
            self.friends.push(
                FriendConfig {
                    username: username.to_owned(),
                    x25519_pubkey: x25519_key,
                    ed25519_pubkey: ed25519_key,
                    leaf_index: 0,
                    encrypted_leaf_key: None,
                    nonce: None,
                },
            );
        }
    }

    /// Forget every friend with this name, keeping the others in order.
    pub fn remove_friend(&mut self, username: &str)
        ensures
            forall|i: int|
                0 <= i < final(self).friends@.len() ==> (
                #[trigger] final(self).friends@[i]).username@ != username@,
            final(self).friends@.len() <= old(self).friends@.len(),
    {
        let mut kept: Vec<FriendConfig> = Vec::new();
        let n = self.friends.len();
        let mut i: usize = 0;
        while i < n
            invariant
                self == old(self),
                n == self.friends@.len(),
                i <= n,
                kept@.len() <= i,
                forall|j: int| 0 <= j < kept@.len() ==> (#[trigger] kept@[j]).username@
                    != username@,
            decreases n - i,
        {
            if !str_eq(self.friends[i].username.as_str(), username) {
                let f = &self.friends[i];
                kept.push(
                    FriendConfig {
                        username: f.username.clone(),
                        x25519_pubkey: clone_opt(&f.x25519_pubkey),
                        ed25519_pubkey: clone_opt(&f.ed25519_pubkey),
                        leaf_index: f.leaf_index,
                        encrypted_leaf_key: clone_opt(&f.encrypted_leaf_key),
                        nonce: clone_opt(&f.nonce),
                    },
                );
            }
            i += 1;
        }
        self.friends = kept;
    }

    /// Pin an unpinned peer or unpin a pinned one; says whether the peer
    /// ends up pinned.
    pub fn toggle_pin_peer(&mut self, username: &str) -> (r: bool)
        ensures
            r == !(exists|i: int|
                0 <= i < old(self).pinned_peers@.len()
                    && (#[trigger] old(self).pinned_peers@[i])@ == username@),
            r ==> final(self).pinned_peers@.len() == old(self).pinned_peers@.len() + 1
                && final(self).pinned_peers@.last()@ == username@,
            !r ==> forall|i: int|
                0 <= i < final(self).pinned_peers@.len() ==> (
                #[trigger] final(self).pinned_peers@[i])@ != username@,
    {
        let n = self.pinned_peers.len();
        let mut found = false;
        let mut i: usize = 0;
        while i < n
            invariant
                self == old(self),
                n == self.pinned_peers@.len(),
                i <= n,
                found == (exists|j: int|
                    0 <= j < i && (#[trigger] self.pinned_peers@[j])@ == username@),
            decreases n - i,
        {
            if str_eq(self.pinned_peers[i].as_str(), username) {
                found = true;
            }
            proof {
                if !found {
                    assert(forall|j: int|
                        0 <= j <= i ==> (#[trigger] self.pinned_peers@[j])@ != username@);
                }
            }
            i += 1;
        }
        if found {
            let mut kept: Vec<String> = Vec::new();
            let m = self.pinned_peers.len();
            let mut k: usize = 0;
            while k < m
                invariant
                    self == old(self),
                    m == self.pinned_peers@.len(),
                    k <= m,
                    forall|j: int| 0 <= j < kept@.len() ==> (#[trigger] kept@[j])@ != username@,
                decreases m - k,
            {
                if !str_eq(self.pinned_peers[k].as_str(), username) {
                    kept.push(self.pinned_peers[k].clone());
                }
                k += 1;
            }
            self.pinned_peers = kept;
            false
        } else {
            self.pinned_peers.push(username.to_owned());
            proof {
                assert(final(self).pinned_peers@.last()@ == username@);
            }
            true
        }
    }

    /// Update the profile: each given field replaces the stored one,
    /// absent fields stay.
    pub fn update_profile(&mut self, alias: Option<String>, avatar_path: Option<String>)
        ensures
            final(self).profile.alias == (if alias is Some {
                alias
            } else {
                old(self).profile.alias
            }),
            final(self).profile.avatar_path == (if avatar_path is Some {
                avatar_path
            } else {
                old(self).profile.avatar_path
            }),
    {
        match alias {
            Some(a) => {
                self.profile.alias = Some(a);
            },
            None => {},
        }
        match avatar_path {
            Some(p) => {
                self.profile.avatar_path = Some(p);
            },
            None => {},
        }
    }
}

/// A copy of an optional string with equal views.
pub fn clone_opt(o: &Option<String>) -> (r: Option<String>)
    ensures
        crate::store::opt_view(r) == crate::store::opt_view(*o),
{
    match o {
        Some(s) => Some(s.clone()),
        None => None,
    }
}

/// The manager of the encrypted configuration: it remembers where the
/// file lives and, once unlocked, the session key.
pub struct ConfigManager {
    file_path: String,
    key: Option<Vec<u8>>,
}

/// Where the crate's keystore sits, next to the configuration.
pub fn rchat_keystore_path(app_dir: &str) -> (r: String)
    ensures
        r@ == app_dir@ + "/rchat.keystore"@,
{
    let mut out = app_dir.to_owned();
    out.append("/rchat.keystore");
    out
}

impl ConfigManager {
    /// A locked manager for the configuration under the given directory.
    pub fn new(app_dir: &str) -> (r: ConfigManager)
        ensures
            !r.unlocked(),
            r.path_view() == app_dir@ + "/rchat.config"@,
    {
        let mut file_path = app_dir.to_owned();
        file_path.append("/rchat.config");
        ConfigManager { file_path, key: None }
    }

    /// Whether a session key is loaded.
    pub closed spec fn unlocked(&self) -> bool {
        self.key is Some
    }

    /// The loaded session key.
    pub closed spec fn key_view(&self) -> Seq<u8> {
        self.key->Some_0@
    }

    /// Where the configuration file lives.
    pub closed spec fn path_view(&self) -> Seq<char> {
        self.file_path@
    }

    /// Load a session key.
    pub fn unlock(&mut self, key: Vec<u8>)
        ensures
            final(self).unlocked(),
            final(self).key_view() == key@,
            final(self).path_view() == old(self).path_view(),
    {
        self.key = Some(key);
    }

    /// Whether the vault is unlocked.
    pub fn is_unlocked(&self) -> (r: bool)
        ensures
            r == self.unlocked(),
    {
        self.key.is_some()
    }

    /// Drop the session key.
    pub fn lock(&mut self)
        ensures
            !final(self).unlocked(),
            final(self).path_view() == old(self).path_view(),
    {
        self.key = None;
    }

    /// The configuration file's path, for the I/O around the crate.
    pub fn file_path(&self) -> (r: &str)
        ensures
            r@ == self.path_view(),
    {
        self.file_path.as_str()
    }

    /// The session key, for sealing and opening the file.
    pub fn session_key(&self) -> (r: Option<&Vec<u8>>)
        ensures
            match r {
                Some(k) => self.unlocked() && k@ == self.key_view(),
                None => !self.unlocked(),
            },
    {
        match &self.key {
            Some(k) => Some(k),
            None => None,
        }
    }

    /// Relies on `std::path::Path::exists`: whether the configuration
    /// file is on disk; the answer depends on the file system.
    #[verifier::external_body]
    pub fn exists_on_disk(&self) -> bool {
        std::path::Path::new(&self.file_path).exists()
    }
}

} // verus!
