//! The local store: peers, chats, messages, files, chunks, envelopes and
//! chat assignments, modelled as in-memory tables with the relational
//! invariants the schema enforces. Persistence mirrors this model.

use vstd::prelude::*;
use vstd::multiset::Multiset;
use crate::errors::StoreError;
use crate::text::str_eq;

verus! {

/// A known peer.
#[derive(Debug, Clone)]
pub struct Peer {
    pub id: String,
    pub alias: String,
    /// Unix seconds of the last appearance.
    pub last_seen: i64,
    pub public_key: Vec<u8>,
    /// How the peer was met: `self`, `local`, `gist`, `direct`, `github`
    /// or `manual`.
    pub method: String,
}

/// A 1:1 or group chat. For 1:1 the id equals the remote peer id.
#[derive(Debug, Clone)]
pub struct Chat {
    pub id: String,
    pub name: String,
    pub is_group: bool,
    pub encryption_key: Vec<u8>,
}

/// Membership of a peer in a chat.
#[derive(Debug, Clone)]
pub struct ChatPeer {
    pub chat_id: String,
    pub peer_id: String,
    pub role: String,
    pub joined_at: i64,
}

/// Delivery state of a message; it only ever moves forward.
#[derive(Debug, Clone, Copy, PartialEq, Eq, Structural)]
pub enum MessageStatus {
    Pending,
    Failed,
    Delivered,
    Read,
}

/// The rank a status may only climb.
pub open spec fn status_rank(s: MessageStatus) -> int {
    match s {
        MessageStatus::Pending => 0,
        MessageStatus::Failed => 1,
        MessageStatus::Delivered => 2,
        MessageStatus::Read => 3,
    }
}

impl MessageStatus {
    /// The label stored and sent on the wire.
    pub fn label(&self) -> (r: &'static str)
        ensures
            r@ == self.label_spec(),
    {
        let r = match self {
            MessageStatus::Pending => "pending",
            MessageStatus::Failed => "failed",
            MessageStatus::Delivered => "delivered",
            MessageStatus::Read => "read",
        };
        proof {
            reveal_strlit("pending");
            reveal_strlit("failed");
            reveal_strlit("delivered");
            reveal_strlit("read");
        }
        r
    }

    /// The label as a character sequence.
    pub open spec fn label_spec(&self) -> Seq<char> {
        match self {
            MessageStatus::Pending => "pending"@,
            MessageStatus::Failed => "failed"@,
            MessageStatus::Delivered => "delivered"@,
            MessageStatus::Read => "read"@,
        }
    }
}

/// A message row.
#[derive(Debug, Clone)]
pub struct Message {
    /// Unique id, formed from a timestamp and a random suffix.
    pub id: String,
    pub chat_id: String,
    /// The sender; `Me` for local messages.
    pub peer_id: String,
    /// Unix seconds.
    pub timestamp: i64,
    /// `text`, `image`, `video`, `document` or `voice`.
    pub content_type: String,
    pub text_content: Option<String>,
    /// Present for media messages.
    pub file_hash: Option<String>,
    pub status: MessageStatus,
    /// Lazily computed JSON blob of media dimensions and sizes.
    pub content_metadata: Option<String>,
    pub sender_alias: Option<String>,
}

/// A stored file, addressed by the hex SHA-256 of its full contents.
#[derive(Debug, Clone)]
pub struct FileMetadata {
    pub file_hash: String,
    pub file_name: String,
    pub mime_type: String,
    pub size_bytes: i64,
    pub is_complete: bool,
}

/// One chunk of a file, addressed by the hex SHA-256 of the chunk bytes.
#[derive(Debug, Clone)]
pub struct FileChunk {
    pub file_hash: String,
    pub chunk_order: i64,
    pub chunk_hash: String,
    pub chunk_size: i64,
}

/// A folder of chats.
#[derive(Debug, Clone)]
pub struct Envelope {
    pub id: String,
    pub name: String,
    pub icon: Option<String>,
}

/// The envelope a chat is filed under; absence means the root.
#[derive(Debug, Clone)]
pub struct ChatAssignment {
    pub chat_id: String,
    pub envelope_id: String,
}

// --- Spec views of the rows ---

pub ghost struct PeerV {
    pub id: Seq<char>,
    pub alias: Seq<char>,
    pub last_seen: int,
    pub public_key: Seq<u8>,
    pub method: Seq<char>,
}

pub ghost struct ChatV {
    pub id: Seq<char>,
    pub name: Seq<char>,
    pub is_group: bool,
    pub encryption_key: Seq<u8>,
}

pub ghost struct ChatPeerV {
    pub chat_id: Seq<char>,
    pub peer_id: Seq<char>,
    pub role: Seq<char>,
    pub joined_at: int,
}

pub ghost struct MessageV {
    pub id: Seq<char>,
    pub chat_id: Seq<char>,
    pub peer_id: Seq<char>,
    pub timestamp: int,
    pub content_type: Seq<char>,
    pub text_content: Option<Seq<char>>,
    pub file_hash: Option<Seq<char>>,
    pub status: MessageStatus,
    pub content_metadata: Option<Seq<char>>,
    pub sender_alias: Option<Seq<char>>,
}

pub ghost struct FileV {
    pub file_hash: Seq<char>,
    pub file_name: Seq<char>,
    pub mime_type: Seq<char>,
    pub size_bytes: int,
    pub is_complete: bool,
}

pub ghost struct FileChunkV {
    pub file_hash: Seq<char>,
    pub chunk_order: int,
    pub chunk_hash: Seq<char>,
    pub chunk_size: int,
}

pub ghost struct EnvelopeV {
    pub id: Seq<char>,
    pub name: Seq<char>,
    pub icon: Option<Seq<char>>,
}

pub ghost struct ChatAssignmentV {
    pub chat_id: Seq<char>,
    pub envelope_id: Seq<char>,
}

/// Whether a blob with this hash is present in a chunk directory.
pub open spec fn blob_present(blobs: Seq<ChunkBlobV>, hash: Seq<char>) -> bool {
    exists|i: int| 0 <= i < blobs.len() && (#[trigger] blobs[i]).chunk_hash == hash
}

/// The view of an optional string.
pub open spec fn opt_view(o: Option<String>) -> Option<Seq<char>> {
    match o {
        Some(s) => Some(s@),
        None => None,
    }
}

impl View for Peer {
    type V = PeerV;

    open spec fn view(&self) -> PeerV {
        PeerV {
            id: self.id@,
            alias: self.alias@,
            last_seen: self.last_seen as int,
            public_key: self.public_key@,
            method: self.method@,
        }
    }
}

impl View for Chat {
    type V = ChatV;

    open spec fn view(&self) -> ChatV {
        ChatV {
            id: self.id@,
            name: self.name@,
            is_group: self.is_group,
            encryption_key: self.encryption_key@,
        }
    }
}

impl View for ChatPeer {
    type V = ChatPeerV;

    open spec fn view(&self) -> ChatPeerV {
        ChatPeerV {
            chat_id: self.chat_id@,
            peer_id: self.peer_id@,
            role: self.role@,
            joined_at: self.joined_at as int,
        }
    }
}

impl View for Message {
    type V = MessageV;

    open spec fn view(&self) -> MessageV {
        MessageV {
            id: self.id@,
            chat_id: self.chat_id@,
            peer_id: self.peer_id@,
            timestamp: self.timestamp as int,
            content_type: self.content_type@,
            text_content: opt_view(self.text_content),
            file_hash: opt_view(self.file_hash),
            status: self.status,
            content_metadata: opt_view(self.content_metadata),
            sender_alias: opt_view(self.sender_alias),
        }
    }
}

impl View for FileMetadata {
    type V = FileV;

    open spec fn view(&self) -> FileV {
        FileV {
            file_hash: self.file_hash@,
            file_name: self.file_name@,
            mime_type: self.mime_type@,
            size_bytes: self.size_bytes as int,
            is_complete: self.is_complete,
        }
    }
}

impl View for FileChunk {
    type V = FileChunkV;

    open spec fn view(&self) -> FileChunkV {
        FileChunkV {
            file_hash: self.file_hash@,
            chunk_order: self.chunk_order as int,
            chunk_hash: self.chunk_hash@,
            chunk_size: self.chunk_size as int,
        }
    }
}

impl View for Envelope {
    type V = EnvelopeV;

    open spec fn view(&self) -> EnvelopeV {
        EnvelopeV { id: self.id@, name: self.name@, icon: opt_view(self.icon) }
    }
}

impl View for ChatAssignment {
    type V = ChatAssignmentV;

    open spec fn view(&self) -> ChatAssignmentV {
        ChatAssignmentV { chat_id: self.chat_id@, envelope_id: self.envelope_id@ }
    }
}

/// A stored chunk blob, as the chunk directory holds it: content bytes
/// under the hex SHA-256 that names the file on disk.
#[derive(Debug, Clone)]
pub struct ChunkBlob {
    pub chunk_hash: String,
    pub data: Vec<u8>,
}

pub ghost struct ChunkBlobV {
    pub chunk_hash: Seq<char>,
    pub data: Seq<u8>,
}

impl View for ChunkBlob {
    type V = ChunkBlobV;

    open spec fn view(&self) -> ChunkBlobV {
        ChunkBlobV { chunk_hash: self.chunk_hash@, data: self.data@ }
    }
}

// --- The store ---

/// The whole local state: the database tables and the chunk directory.
pub struct Store {
    pub peers: Vec<Peer>,
    pub chats: Vec<Chat>,
    pub chat_peers: Vec<ChatPeer>,
    pub messages: Vec<Message>,
    pub files: Vec<FileMetadata>,
    pub file_chunks: Vec<FileChunk>,
    pub envelopes: Vec<Envelope>,
    pub chat_assignments: Vec<ChatAssignment>,
    pub chunk_blobs: Vec<ChunkBlob>,
}

pub ghost struct StoreV {
    pub peers: Seq<PeerV>,
    pub chats: Seq<ChatV>,
    pub chat_peers: Seq<ChatPeerV>,
    pub messages: Seq<MessageV>,
    pub files: Seq<FileV>,
    pub file_chunks: Seq<FileChunkV>,
    pub envelopes: Seq<EnvelopeV>,
    pub chat_assignments: Seq<ChatAssignmentV>,
    pub chunk_blobs: Seq<ChunkBlobV>,
}

impl View for Store {
    type V = StoreV;

    open spec fn view(&self) -> StoreV {
        StoreV {
            peers: self.peers@.map_values(|p: Peer| p@),
            chats: self.chats@.map_values(|c: Chat| c@),
            chat_peers: self.chat_peers@.map_values(|c: ChatPeer| c@),
            messages: self.messages@.map_values(|m: Message| m@),
            files: self.files@.map_values(|f: FileMetadata| f@),
            file_chunks: self.file_chunks@.map_values(|c: FileChunk| c@),
            envelopes: self.envelopes@.map_values(|e: Envelope| e@),
            chat_assignments: self.chat_assignments@.map_values(|a: ChatAssignment| a@),
            chunk_blobs: self.chunk_blobs@.map_values(|b: ChunkBlob| b@),
        }
    }
}

impl StoreV {
    /// A message's references hold: its chat and sender exist, and so
    /// does the file row of a media message.
    pub open spec fn msg_refs_ok(self, m: MessageV) -> bool {
        &&& self.has_chat(m.chat_id)
        &&& self.has_peer(m.peer_id)
        &&& (m.file_hash is Some ==> self.has_file(m.file_hash->Some_0))
    }

    /// The keys of every table are unique — one row per peer, chat,
    /// message, file, `(file, order)` pair, envelope, assigned chat and
    /// chunk hash — and every message's foreign keys are enforced.
    pub open spec fn wf(self) -> bool {
        &&& (forall|i: int, j: int|
            0 <= i < j < self.peers.len() ==> (#[trigger] self.peers[i]).id != (
            #[trigger] self.peers[j]).id)
        &&& (forall|i: int, j: int|
            0 <= i < j < self.chats.len() ==> (#[trigger] self.chats[i]).id != (
            #[trigger] self.chats[j]).id)
        &&& (forall|i: int, j: int|
            0 <= i < j < self.messages.len() ==> (#[trigger] self.messages[i]).id != (
            #[trigger] self.messages[j]).id)
        &&& (forall|i: int, j: int|
            0 <= i < j < self.files.len() ==> (#[trigger] self.files[i]).file_hash != (
            #[trigger] self.files[j]).file_hash)
        &&& (forall|i: int, j: int|
            0 <= i < j < self.file_chunks.len() ==> !((#[trigger] self.file_chunks[i]).file_hash
                == (#[trigger] self.file_chunks[j]).file_hash && self.file_chunks[i].chunk_order
                == self.file_chunks[j].chunk_order))
        &&& (forall|i: int, j: int|
            0 <= i < j < self.envelopes.len() ==> (#[trigger] self.envelopes[i]).id != (
            #[trigger] self.envelopes[j]).id)
        &&& (forall|i: int, j: int|
            0 <= i < j < self.chat_assignments.len() ==> (
            #[trigger] self.chat_assignments[i]).chat_id != (
            #[trigger] self.chat_assignments[j]).chat_id)
        &&& (forall|i: int, j: int|
            0 <= i < j < self.chunk_blobs.len() ==> (#[trigger] self.chunk_blobs[i]).chunk_hash
                != (#[trigger] self.chunk_blobs[j]).chunk_hash)
        &&& (forall|i: int|
            0 <= i < self.file_chunks.len() ==> self.has_file(
                (#[trigger] self.file_chunks[i]).file_hash,
            ))
        &&& (forall|i: int|
            0 <= i < self.messages.len() ==> self.msg_refs_ok(#[trigger] self.messages[i]))
    }

    /// Whether a peer with this id exists.
    pub open spec fn has_peer(self, id: Seq<char>) -> bool {
        exists|i: int| 0 <= i < self.peers.len() && (#[trigger] self.peers[i]).id == id
    }

    /// Whether a chat with this id exists.
    pub open spec fn has_chat(self, id: Seq<char>) -> bool {
        exists|i: int| 0 <= i < self.chats.len() && (#[trigger] self.chats[i]).id == id
    }

    /// Whether a message with this id exists.
    pub open spec fn has_message(self, id: Seq<char>) -> bool {
        exists|i: int| 0 <= i < self.messages.len() && (#[trigger] self.messages[i]).id == id
    }

    /// Whether a file row with this hash exists.
    pub open spec fn has_file(self, hash: Seq<char>) -> bool {
        exists|i: int| 0 <= i < self.files.len() && (#[trigger] self.files[i]).file_hash == hash
    }

    /// Whether the chunk directory holds a blob under this hash.
    pub open spec fn has_blob(self, hash: Seq<char>) -> bool {
        blob_present(self.chunk_blobs, hash)
    }

    /// The number of unread messages of a chat: from someone else and not
    /// yet read.
    pub open spec fn unread_in(self, chat_id: Seq<char>) -> int {
        self.messages.filter(
            |m: MessageV| m.chat_id == chat_id && m.peer_id != "Me"@ && m.status
                != MessageStatus::Read,
        ).len() as int
    }
}

/// The messages' references survive an edit that leaves the messages and
/// the referenced tables alone.
pub proof fn lemma_msg_refs_frame(pre: StoreV, post: StoreV)
    requires
        post.messages == pre.messages,
        post.chats == pre.chats,
        post.peers == pre.peers,
        post.files == pre.files,
        forall|i: int| 0 <= i < pre.messages.len() ==> pre.msg_refs_ok(#[trigger] pre.messages[i]),
    ensures
        forall|i: int|
            0 <= i < post.messages.len() ==> post.msg_refs_ok(#[trigger] post.messages[i]),
{
    assert forall|i: int| 0 <= i < post.messages.len() implies post.msg_refs_ok(
        #[trigger] post.messages[i],
    ) by {
        assert(pre.msg_refs_ok(pre.messages[i]));
    }
}

/// The chunk rows' file references survive an edit that leaves the
/// chunk rows and the files alone.
pub proof fn lemma_chunk_refs_frame(pre: StoreV, post: StoreV)
    requires
        post.file_chunks == pre.file_chunks,
        post.files == pre.files,
        forall|i: int|
            0 <= i < pre.file_chunks.len() ==> pre.has_file(
                (#[trigger] pre.file_chunks[i]).file_hash,
            ),
    ensures
        forall|i: int|
            0 <= i < post.file_chunks.len() ==> post.has_file(
                (#[trigger] post.file_chunks[i]).file_hash,
            ),
{
    assert forall|i: int|
        0 <= i < post.file_chunks.len() implies post.has_file(
        (#[trigger] post.file_chunks[i]).file_hash,
    ) by {
        assert(pre.has_file(pre.file_chunks[i].file_hash));
        let w = choose|j: int|
            0 <= j < pre.files.len() && (#[trigger] pre.files[j]).file_hash
                == pre.file_chunks[i].file_hash;
        assert((#[trigger] post.files[w]).file_hash == post.file_chunks[i].file_hash);
    }
}

/// The messages' references survive an edit that keeps every message's
/// reference fields and only grows or key-preservingly rewrites the
/// referenced tables.
pub proof fn lemma_msg_refs_preserved(pre: StoreV, post: StoreV)
    requires
        post.messages.len() == pre.messages.len(),
        forall|i: int|
            0 <= i < post.messages.len() ==> (#[trigger] post.messages[i]).chat_id
                == pre.messages[i].chat_id && post.messages[i].peer_id == pre.messages[i].peer_id
                && post.messages[i].file_hash == pre.messages[i].file_hash,
        forall|k: int| 0 <= k < pre.chats.len() ==> post.has_chat((#[trigger] pre.chats[k]).id),
        forall|k: int| 0 <= k < pre.peers.len() ==> post.has_peer((#[trigger] pre.peers[k]).id),
        forall|k: int|
            0 <= k < pre.files.len() ==> post.has_file((#[trigger] pre.files[k]).file_hash),
        forall|i: int| 0 <= i < pre.messages.len() ==> pre.msg_refs_ok(#[trigger] pre.messages[i]),
    ensures
        forall|i: int|
            0 <= i < post.messages.len() ==> post.msg_refs_ok(#[trigger] post.messages[i]),
{
    assert forall|i: int| 0 <= i < post.messages.len() implies post.msg_refs_ok(
        #[trigger] post.messages[i],
    ) by {
        let m = pre.messages[i];
        assert(pre.msg_refs_ok(m));
        let jc = choose|j: int| 0 <= j < pre.chats.len() && (#[trigger] pre.chats[j]).id
            == m.chat_id;
        assert(post.has_chat(pre.chats[jc].id));
        let jp = choose|j: int| 0 <= j < pre.peers.len() && (#[trigger] pre.peers[j]).id
            == m.peer_id;
        assert(post.has_peer(pre.peers[jp].id));
        if m.file_hash is Some {
            let jf = choose|j: int|
                0 <= j < pre.files.len() && (#[trigger] pre.files[j]).file_hash
                    == m.file_hash->Some_0;
            assert(post.has_file(pre.files[jf].file_hash));
        }
    }
}

/// A peer stays present while the peers table is untouched.
pub proof fn lemma_has_peer_carry(pre: StoreV, post: StoreV, id: Seq<char>)
    requires
        post.peers == pre.peers,
        pre.has_peer(id),
    ensures
        post.has_peer(id),
{
    let j = choose|j: int| 0 <= j < pre.peers.len() && (#[trigger] pre.peers[j]).id == id;
    assert((#[trigger] post.peers[j]).id == id);
}

/// A chat stays present while the chats table is untouched.
pub proof fn lemma_has_chat_carry(pre: StoreV, post: StoreV, id: Seq<char>)
    requires
        post.chats == pre.chats,
        pre.has_chat(id),
    ensures
        post.has_chat(id),
{
    let j = choose|j: int| 0 <= j < pre.chats.len() && (#[trigger] pre.chats[j]).id == id;
    assert((#[trigger] post.chats[j]).id == id);
}

/// A file row stays present while the files table is untouched.
pub proof fn lemma_has_file_carry(pre: StoreV, post: StoreV, hash: Seq<char>)
    requires
        post.files == pre.files,
        pre.has_file(hash),
    ensures
        post.has_file(hash),
{
    let j = choose|j: int| 0 <= j < pre.files.len() && (#[trigger] pre.files[j]).file_hash
        == hash;
    assert((#[trigger] post.files[j]).file_hash == hash);
}

/// Message presence follows the messages table.
pub proof fn lemma_has_message_carry(pre: StoreV, post: StoreV, id: Seq<char>)
    requires
        post.messages == pre.messages,
    ensures
        post.has_message(id) == pre.has_message(id),
{
    if pre.has_message(id) {
        let j = choose|j: int| 0 <= j < pre.messages.len() && (#[trigger] pre.messages[j]).id
            == id;
        assert((#[trigger] post.messages[j]).id == id);
    }
    if post.has_message(id) {
        let j = choose|j: int| 0 <= j < post.messages.len() && (#[trigger] post.messages[j]).id
            == id;
        assert((#[trigger] pre.messages[j]).id == id);
    }
}

/// Lexicographic order on character sequences, as the database collates
/// text keys.
pub open spec fn chars_le(a: Seq<char>, b: Seq<char>) -> bool
    decreases a.len(),
{
    if a.len() == 0 {
        true
    } else if b.len() == 0 {
        false
    } else if a[0] != b[0] {
        a[0] < b[0]
    } else {
        chars_le(a.drop_first(), b.drop_first())
    }
}

/// The order is total.
pub proof fn lemma_chars_le_total(a: Seq<char>, b: Seq<char>)
    ensures
        chars_le(a, b) || chars_le(b, a),
    decreases a.len(),
{
    if a.len() > 0 && b.len() > 0 && a[0] == b[0] {
        lemma_chars_le_total(a.drop_first(), b.drop_first());
    }
}

/// The order is transitive.
pub proof fn lemma_chars_le_trans(a: Seq<char>, b: Seq<char>, c: Seq<char>)
    requires
        chars_le(a, b),
        chars_le(b, c),
    ensures
        chars_le(a, c),
    decreases a.len(),
{
    if a.len() > 0 && b.len() > 0 && c.len() > 0 && a[0] == b[0] && b[0] == c[0] {
        lemma_chars_le_trans(a.drop_first(), b.drop_first(), c.drop_first());
    }
}

/// Compare two strings in the collation order.
pub fn str_le(a: &str, b: &str) -> (r: bool)
    ensures
        r == chars_le(a@, b@),
{
    let an = a.unicode_len();
    let bn = b.unicode_len();
    let mut i: usize = 0;
    proof {
        assert(a@.skip(0) =~= a@);
        assert(b@.skip(0) =~= b@);
    }
    loop
        invariant
            an == a@.len(),
            bn == b@.len(),
            i <= an,
            i <= bn,
            chars_le(a@, b@) == chars_le(a@.skip(i as int), b@.skip(i as int)),
            chars_le(b@, a@) == chars_le(b@.skip(i as int), a@.skip(i as int)),
        decreases an - i,
    {
        if i >= an {
            proof {
                assert(chars_le(a@.skip(i as int), b@.skip(i as int)));
            }
            return true;
        }
        if i >= bn {
            proof {
                assert(b@.skip(i as int).len() == 0);
                assert(a@.skip(i as int).len() > 0);
            }
            return false;
        }
        let ca = a.get_char(i);
        let cb = b.get_char(i);
        if ca != cb {
            proof {
                assert(a@.skip(i as int)[0] == ca && b@.skip(i as int)[0] == cb);
            }
            return ca < cb;
        }
        proof {
            assert(a@.skip(i as int)[0] == ca && b@.skip(i as int)[0] == cb);
            assert(a@.skip(i as int).drop_first() =~= a@.skip(i + 1));
            assert(b@.skip(i as int).drop_first() =~= b@.skip(i + 1));
        }
        i += 1;
    }
}

/// The presentation order of messages: by timestamp, ties broken by id.
pub open spec fn msg_le(a: MessageV, b: MessageV) -> bool {
    a.timestamp < b.timestamp || (a.timestamp == b.timestamp && chars_le(a.id, b.id))
}

/// Whether a run of messages is in presentation order.
pub open spec fn msgs_sorted(s: Seq<MessageV>) -> bool {
    forall|i: int, j: int| 0 <= i < j < s.len() ==> msg_le(#[trigger] s[i], #[trigger] s[j])
}

pub proof fn lemma_msg_le_total(a: MessageV, b: MessageV)
    ensures
        msg_le(a, b) || msg_le(b, a),
{
    lemma_chars_le_total(a.id, b.id);
}

pub proof fn lemma_msg_le_trans(a: MessageV, b: MessageV, c: MessageV)
    requires
        msg_le(a, b),
        msg_le(b, c),
    ensures
        msg_le(a, c),
{
    if a.timestamp == b.timestamp && b.timestamp == c.timestamp {
        lemma_chars_le_trans(a.id, b.id, c.id);
    }
}

/// Compare two messages in presentation order.
pub fn msg_le_exec(a: &Message, b: &Message) -> (r: bool)
    ensures
        r == msg_le(a@, b@),
{
    if a.timestamp < b.timestamp {
        true
    } else if a.timestamp == b.timestamp {
        str_le(a.id.as_str(), b.id.as_str())
    } else {
        false
    }
}

/// Inserting anywhere adds one copy to the multiset.
pub proof fn lemma_insert_to_multiset<A>(s: Seq<A>, pos: int, x: A)
    requires
        0 <= pos <= s.len(),
    ensures
        s.insert(pos, x).to_multiset() == s.to_multiset().insert(x),
{
    broadcast use vstd::seq_lib::group_to_multiset_ensures;

    let t = s.insert(pos, x);
    assert(t.remove(pos) =~= s);
    assert(t[pos] == x);
    assert(t.remove(pos).to_multiset() =~= t.to_multiset().remove(x));
    assert(t.to_multiset().contains(x)) by {
        assert(t.contains(x));
    }
    assert(t.to_multiset() =~= s.to_multiset().insert(x));
}

impl Store {
    /// An empty store seeded with the `Me` peer and the `self` notes
    /// chat, as opening the database does.
    pub fn new() -> (r: Store)
        ensures
            r@.wf(),
            r@.peers.len() == 1 && r@.peers[0].id == "Me"@,
            r@.chats.len() == 1 && r@.chats[0].id == "self"@,
            r@.chat_peers.len() == 1,
            r@.messages.len() == 0 && r@.files.len() == 0 && r@.file_chunks.len() == 0,
            r@.envelopes.len() == 0 && r@.chat_assignments.len() == 0 && r@.chunk_blobs.len() == 0,
    {
        let me = Peer {
            id: "Me".to_owned(),
            alias: "Me".to_owned(),
            last_seen: 0,
            public_key: Vec::new(),
            method: "self".to_owned(),
        };
        let self_chat = Chat {
            id: "self".to_owned(),
            name: "Note to Self".to_owned(),
            is_group: false,
            encryption_key: Vec::new(),
        };
        let membership = ChatPeer {
            chat_id: "self".to_owned(),
            peer_id: "Me".to_owned(),
            role: "admin".to_owned(),
            joined_at: 0,
        };
        let mut peers: Vec<Peer> = Vec::new();
        peers.push(me);
        let mut chats: Vec<Chat> = Vec::new();
        chats.push(self_chat);
        let mut chat_peers: Vec<ChatPeer> = Vec::new();
        chat_peers.push(membership);
        Store {
            peers,
            chats,
            chat_peers,
            messages: Vec::new(),
            files: Vec::new(),
            file_chunks: Vec::new(),
            envelopes: Vec::new(),
            chat_assignments: Vec::new(),
            chunk_blobs: Vec::new(),
        }
    }

    /// The index of the peer with this id.
    fn find_peer(&self, id: &str) -> (r: Option<usize>)
        ensures
            match r {
                Some(i) => i < self@.peers.len() && self@.peers[i as int].id == id@,
                None => !self@.has_peer(id@),
            },
    {
        let n = self.peers.len();
        let mut i: usize = 0;
        while i < n
            invariant
                n == self@.peers.len(),
                i <= n,
                forall|j: int| 0 <= j < i ==> (#[trigger] self@.peers[j]).id != id@,
            decreases n - i,
        {
            if str_eq(self.peers[i].id.as_str(), id) {
                return Some(i);
            }
            i += 1;
        }
        None
    }

    /// The index of the chat with this id.
    fn find_chat(&self, id: &str) -> (r: Option<usize>)
        ensures
            match r {
                Some(i) => i < self@.chats.len() && self@.chats[i as int].id == id@,
                None => !self@.has_chat(id@),
            },
    {
        let n = self.chats.len();
        let mut i: usize = 0;
        while i < n
            invariant
                n == self@.chats.len(),
                i <= n,
                forall|j: int| 0 <= j < i ==> (#[trigger] self@.chats[j]).id != id@,
            decreases n - i,
        {
            if str_eq(self.chats[i].id.as_str(), id) {
                return Some(i);
            }
            i += 1;
        }
        None
    }

    /// The index of the message with this id.
    fn find_message(&self, id: &str) -> (r: Option<usize>)
        ensures
            match r {
                Some(i) => i < self@.messages.len() && self@.messages[i as int].id == id@,
                None => !self@.has_message(id@),
            },
    {
        let n = self.messages.len();
        let mut i: usize = 0;
        while i < n
            invariant
                n == self@.messages.len(),
                i <= n,
                forall|j: int| 0 <= j < i ==> (#[trigger] self@.messages[j]).id != id@,
            decreases n - i,
        {
            if str_eq(self.messages[i].id.as_str(), id) {
                return Some(i);
            }
            i += 1;
        }
        None
    }

    /// Whether a peer with this id is known.
    pub fn is_peer(&self, peer_id: &str) -> (r: bool)
        ensures
            r == self@.has_peer(peer_id@),
    {
        self.find_peer(peer_id).is_some()
    }

    /// Whether a chat with this id exists.
    pub fn chat_exists(&self, chat_id: &str) -> (r: bool)
        ensures
            r == self@.has_chat(chat_id@),
    {
        self.find_chat(chat_id).is_some()
    }

    /// Insert or refresh a peer. A new peer gets the alias (or its id),
    /// the key (or a zero placeholder) and the method; a known peer gets
    /// its alias and `last_seen` refreshed, keeping its key and method.
    pub fn add_peer(
        &mut self,
        peer_id: &str,
        alias: Option<&str>,
        public_key: Option<&Vec<u8>>,
        method: &str,
        now: i64,
    )
        requires
            old(self)@.wf(),
        ensures
            final(self)@.wf(),
            final(self)@ == (StoreV {
                peers: final(self)@.peers,
                ..old(self)@
            }),
            final(self)@.has_peer(peer_id@),
            ({
                let alias_v = if alias is Some {
                    alias->Some_0@
                } else {
                    peer_id@
                };
                if old(self)@.has_peer(peer_id@) {
                    exists|i: int|
                        {
                            &&& 0 <= i < old(self)@.peers.len()
                            &&& (#[trigger] old(self)@.peers[i]).id == peer_id@
                            &&& final(self)@.peers == old(self)@.peers.update(
                                i,
                                PeerV {
                                    alias: alias_v,
                                    last_seen: now as int,
                                    ..old(self)@.peers[i]
                                },
                            )
                        }
                } else {
                    final(self)@.peers == old(self)@.peers.push(
                        PeerV {
                            id: peer_id@,
                            alias: alias_v,
                            last_seen: now as int,
                            public_key: if public_key is Some {
                                public_key->Some_0@
                            } else {
                                Seq::new(32, |i: int| 0u8)
                            },
                            method: method@,
                        },
                    )
                }
            }),
    {
        let alias_s: String = match alias {
            Some(a) => a.to_owned(),
            None => peer_id.to_owned(),
        };
        match self.find_peer(peer_id) {
            Some(i) => {
                let mut p = self.peers.remove(i);
                p.alias = alias_s;
                p.last_seen = now;
                self.peers.insert(i, p);
                proof {
                    assert(final(self)@.peers =~= old(self)@.peers.update(
                        i as int,
                        PeerV {
                            alias: if alias is Some {
                                alias->Some_0@
                            } else {
                                peer_id@
                            },
                            last_seen: now as int,
                            ..old(self)@.peers[i as int]
                        },
                    ));
                    assert(final(self)@ == (StoreV { peers: final(self)@.peers, ..old(self)@ }));
                    assert((#[trigger] final(self)@.peers[i as int]).id == peer_id@);
                    assert forall|k: int|
                        0 <= k < old(self)@.chats.len() implies final(self)@.has_chat(
                        (#[trigger] old(self)@.chats[k]).id,
                    ) by {
                        assert(final(self)@.chats[k].id == old(self)@.chats[k].id);
                    }
                    assert forall|k: int|
                        0 <= k < old(self)@.peers.len() implies final(self)@.has_peer(
                        (#[trigger] old(self)@.peers[k]).id,
                    ) by {
                        assert(final(self)@.peers[k].id == old(self)@.peers[k].id);
                    }
                    assert forall|k: int|
                        0 <= k < old(self)@.files.len() implies final(self)@.has_file(
                        (#[trigger] old(self)@.files[k]).file_hash,
                    ) by {
                        assert(final(self)@.files[k].file_hash == old(self)@.files[k].file_hash);
                    }
                    lemma_msg_refs_preserved(old(self)@, final(self)@);
                }
            },
            None => {
                let key: Vec<u8> = match public_key {
                    Some(k) => k.clone(),
                    None => {
                        let mut z: Vec<u8> = Vec::new();
                        let mut c: usize = 0;
                        while c < 32
                            invariant
                                c <= 32,
                                z@ =~= Seq::new(c as nat, |i: int| 0u8),
                            decreases 32 - c,
                        {
                            z.push(0u8);
                            proof {
                                assert(z@ =~= Seq::new((c + 1) as nat, |i: int| 0u8));
                            }
                            c += 1;
                        }
                        z
                    },
                };
                let p = Peer {
                    id: peer_id.to_owned(),
                    alias: alias_s,
                    last_seen: now,
                    public_key: key,
                    method: method.to_owned(),
                };
                self.peers.push(p);
                proof {
                    assert(final(self)@.peers =~= old(self)@.peers.push(final(self)@.peers.last()));
                    assert(final(self)@ == (StoreV { peers: final(self)@.peers, ..old(self)@ }));
                    let kk = final(self)@.peers.len() - 1;
                    assert((#[trigger] final(self)@.peers[kk]).id == peer_id@);
                    assert forall|k: int|
                        0 <= k < old(self)@.chats.len() implies final(self)@.has_chat(
                        (#[trigger] old(self)@.chats[k]).id,
                    ) by {
                        assert(final(self)@.chats[k].id == old(self)@.chats[k].id);
                    }
                    assert forall|k: int|
                        0 <= k < old(self)@.peers.len() implies final(self)@.has_peer(
                        (#[trigger] old(self)@.peers[k]).id,
                    ) by {
                        assert(final(self)@.peers[k].id == old(self)@.peers[k].id);
                    }
                    assert forall|k: int|
                        0 <= k < old(self)@.files.len() implies final(self)@.has_file(
                        (#[trigger] old(self)@.files[k]).file_hash,
                    ) by {
                        assert(final(self)@.files[k].file_hash == old(self)@.files[k].file_hash);
                    }
                    lemma_msg_refs_preserved(old(self)@, final(self)@);
                }
            },
        }
    }

    /// Remove a peer. An unknown id is an error, and so is removing a
    /// peer some message still references: the schema's foreign keys
    /// forbid orphaning a sender.
    pub fn delete_peer(&mut self, peer_id: &str) -> (r: Result<(), StoreError>)
        requires
            old(self)@.wf(),
        ensures
            final(self)@.wf(),
            match r {
                Ok(()) => (forall|j: int|
                    0 <= j < old(self)@.messages.len() ==> (
                    #[trigger] old(self)@.messages[j]).peer_id != peer_id@) && exists|i: int|
                    {
                        &&& 0 <= i < old(self)@.peers.len()
                        &&& (#[trigger] old(self)@.peers[i]).id == peer_id@
                        &&& final(self)@ == (StoreV {
                            peers: old(self)@.peers.remove(i),
                            ..old(self)@
                        })
                    },
                Err(e) => final(self)@ == old(self)@ && (if !old(self)@.has_peer(peer_id@) {
                    e == StoreError::NotFound
                } else {
                    e == StoreError::ForeignKey && (exists|j: int|
                        0 <= j < old(self)@.messages.len() && (
                        #[trigger] old(self)@.messages[j]).peer_id == peer_id@)
                }),
            },
    {
        let i = match self.find_peer(peer_id) {
            Some(i) => i,
            None => {
                return Err(StoreError::NotFound);
            },
        };
        let n = self.messages.len();
        let mut k: usize = 0;
        while k < n
            invariant
                self == old(self),
                old(self)@.wf(),
                old(self)@.has_peer(peer_id@),
                n == self@.messages.len(),
                k <= n,
                forall|j: int| 0 <= j < k ==> (#[trigger] self@.messages[j]).peer_id != peer_id@,
            decreases n - k,
        {
            if str_eq(self.messages[k].peer_id.as_str(), peer_id) {
                proof {
                    assert((#[trigger] self@.messages[k as int]).peer_id == peer_id@);
                }
                return Err(StoreError::ForeignKey);
            }
            k += 1;
        }
        proof {
            assert forall|j: int|
                0 <= j < old(self)@.messages.len() implies (#[trigger] old(
                self,
            )@.messages[j]).peer_id != peer_id@ by {
                assert(self@.messages[j].peer_id != peer_id@);
            }
        }
        self.peers.remove(i);
        proof {
            assert(final(self)@.peers =~= old(self)@.peers.remove(i as int));
            assert(final(self)@ == (StoreV {
                peers: old(self)@.peers.remove(i as int),
                ..old(self)@
            }));
            // no message named the removed peer, so every reference
            // survives the removal at a shifted index
            assert forall|m: int| 0 <= m < final(self)@.messages.len() implies final(self)@
                .msg_refs_ok(#[trigger] final(self)@.messages[m]) by {
                let mm = old(self)@.messages[m];
                assert(old(self)@.msg_refs_ok(mm));
                let jp = choose|j: int|
                    0 <= j < old(self)@.peers.len() && (#[trigger] old(self)@.peers[j]).id
                        == mm.peer_id;
                assert(old(self)@.peers[jp].id != peer_id@);
                assert(jp != i as int);
                if jp < i as int {
                    assert(final(self)@.peers[jp] == old(self)@.peers[jp]);
                    assert((#[trigger] final(self)@.peers[jp]).id == mm.peer_id);
                } else {
                    assert(final(self)@.peers[jp - 1] == old(self)@.peers[jp]);
                    assert((#[trigger] final(self)@.peers[jp - 1]).id == mm.peer_id);
                }
                let jc = choose|j: int|
                    0 <= j < old(self)@.chats.len() && (#[trigger] old(self)@.chats[j]).id
                        == mm.chat_id;
                assert((#[trigger] final(self)@.chats[jc]).id == mm.chat_id);
                if mm.file_hash is Some {
                    let jf = choose|j: int|
                        0 <= j < old(self)@.files.len() && (#[trigger] old(
                            self,
                        )@.files[j]).file_hash == mm.file_hash->Some_0;
                    assert((#[trigger] final(self)@.files[jf]).file_hash == mm.file_hash->Some_0);
                }
            }
            lemma_chunk_refs_frame(old(self)@, final(self)@);
        }
        Ok(())
    }

    /// Create a chat; a duplicate id is an error.
    pub fn create_chat(&mut self, chat_id: &str, name: &str, is_group: bool) -> (r: Result<
        (),
        StoreError,
    >)
        requires
            old(self)@.wf(),
        ensures
            final(self)@.wf(),
            match r {
                Ok(()) => !old(self)@.has_chat(chat_id@) && final(self)@ == (StoreV {
                    chats: old(self)@.chats.push(
                        ChatV {
                            id: chat_id@,
                            name: name@,
                            is_group: is_group,
                            encryption_key: Seq::<u8>::empty(),
                        },
                    ),
                    ..old(self)@
                }),
                Err(e) => e == StoreError::Duplicate && old(self)@.has_chat(chat_id@)
                    && final(self)@ == old(self)@,
            },
    {
        if self.chat_exists(chat_id) {
            return Err(StoreError::Duplicate);
        }
        let c = Chat {
            id: chat_id.to_owned(),
            name: name.to_owned(),
            is_group,
            encryption_key: Vec::new(),
        };
        self.chats.push(c);
        proof {
            assert(final(self)@.chats =~= old(self)@.chats.push(final(self)@.chats.last()));
            assert(final(self)@ == (StoreV { chats: final(self)@.chats, ..old(self)@ }));
            assert forall|k: int|
                0 <= k < old(self)@.chats.len() implies final(self)@.has_chat(
                (#[trigger] old(self)@.chats[k]).id,
            ) by {
                assert(final(self)@.chats[k].id == old(self)@.chats[k].id);
            }
            assert forall|k: int|
                0 <= k < old(self)@.peers.len() implies final(self)@.has_peer(
                (#[trigger] old(self)@.peers[k]).id,
            ) by {
                assert(final(self)@.peers[k].id == old(self)@.peers[k].id);
            }
            assert forall|k: int|
                0 <= k < old(self)@.files.len() implies final(self)@.has_file(
                (#[trigger] old(self)@.files[k]).file_hash,
            ) by {
                assert(final(self)@.files[k].file_hash == old(self)@.files[k].file_hash);
            }
            lemma_msg_refs_preserved(old(self)@, final(self)@);
        }
        Ok(())
    }
}


// --- Messages ---

/// The monotonic status step: a write only takes effect when it moves the
/// status forward.
pub open spec fn status_advance(cur: MessageStatus, new: MessageStatus) -> MessageStatus {
    if status_rank(new) > status_rank(cur) {
        new
    } else {
        cur
    }
}

/// A status write never moves a message's status backwards.
pub proof fn lemma_status_never_regresses(cur: MessageStatus, new: MessageStatus)
    ensures
        status_rank(status_advance(cur, new)) >= status_rank(cur),
{
}

/// Applying `pending`, then `delivered`, then `read`, then a late
/// `delivered` leaves the status at `read`: the late delivery is a no-op.
pub proof fn lemma_status_sequence(s0: MessageStatus)
    ensures
        status_advance(
            status_advance(
                status_advance(status_advance(s0, MessageStatus::Pending), MessageStatus::Delivered),
                MessageStatus::Read,
            ),
            MessageStatus::Delivered,
        ) == MessageStatus::Read,
{
}

/// The views of a list of strings.
pub open spec fn string_views(ss: Seq<String>) -> Seq<Seq<char>> {
    ss.map_values(|s: String| s@)
}

/// The ids of a list of messages.
pub open spec fn msg_ids(ms: Seq<MessageV>) -> Seq<Seq<char>> {
    ms.map_values(|m: MessageV| m.id)
}

/// A message a mark-read sweep touches: in the chat, from the sender, and
/// not yet read.
pub open spec fn needs_read_mark(m: MessageV, chat_id: Seq<char>, sender_id: Seq<char>) -> bool {
    m.chat_id == chat_id && m.peer_id == sender_id && m.status != MessageStatus::Read
}

impl Store {
    /// Insert a message. A duplicate id is an error; so is a missing
    /// reference — the chat and the sender must exist, and a media
    /// message's file row too, as the schema's foreign keys demand.
    pub fn insert_message(&mut self, msg: Message) -> (r: Result<(), StoreError>)
        requires
            old(self)@.wf(),
        ensures
            final(self)@.wf(),
            match r {
                Ok(()) => !old(self)@.has_message(msg.id@) && old(self)@.msg_refs_ok(msg@)
                    && final(self)@ == (StoreV {
                    messages: old(self)@.messages.push(msg@),
                    ..old(self)@
                }),
                Err(e) => final(self)@ == old(self)@ && (if old(self)@.has_message(msg.id@) {
                    e == StoreError::Duplicate
                } else {
                    e == StoreError::ForeignKey && !old(self)@.msg_refs_ok(msg@)
                }),
            },
    {
        if self.find_message(msg.id.as_str()).is_some() {
            return Err(StoreError::Duplicate);
        }
        if !self.chat_exists(msg.chat_id.as_str()) {
            return Err(StoreError::ForeignKey);
        }
        if !self.is_peer(msg.peer_id.as_str()) {
            return Err(StoreError::ForeignKey);
        }
        match &msg.file_hash {
            Some(h) => {
                if self.find_file(h.as_str()).is_none() {
                    return Err(StoreError::ForeignKey);
                }
            },
            None => {},
        }
        self.messages.push(msg);
        proof {
            assert(final(self)@.messages =~= old(self)@.messages.push(
                final(self)@.messages.last(),
            ));
            assert(final(self)@ == (StoreV { messages: final(self)@.messages, ..old(self)@ }));
            assert(old(self)@.msg_refs_ok(msg@));
            assert forall|k: int|
                0 <= k < old(self)@.chats.len() implies final(self)@.has_chat(
                (#[trigger] old(self)@.chats[k]).id,
            ) by {
                assert(final(self)@.chats[k].id == old(self)@.chats[k].id);
            }
            assert forall|k: int|
                0 <= k < old(self)@.peers.len() implies final(self)@.has_peer(
                (#[trigger] old(self)@.peers[k]).id,
            ) by {
                assert(final(self)@.peers[k].id == old(self)@.peers[k].id);
            }
            assert forall|k: int|
                0 <= k < old(self)@.files.len() implies final(self)@.has_file(
                (#[trigger] old(self)@.files[k]).file_hash,
            ) by {
                assert(final(self)@.files[k].file_hash == old(self)@.files[k].file_hash);
            }
            assert forall|i: int| 0 <= i < final(self)@.messages.len() implies final(self)@
                .msg_refs_ok(#[trigger] final(self)@.messages[i]) by {
                if i < old(self)@.messages.len() {
                    let m = old(self)@.messages[i];
                    assert(old(self)@.msg_refs_ok(m));
                    let jc = choose|j: int|
                        0 <= j < old(self)@.chats.len() && (#[trigger] old(self)@.chats[j]).id
                            == m.chat_id;
                    assert(final(self)@.has_chat(old(self)@.chats[jc].id));
                    let jp = choose|j: int|
                        0 <= j < old(self)@.peers.len() && (#[trigger] old(self)@.peers[j]).id
                            == m.peer_id;
                    assert(final(self)@.has_peer(old(self)@.peers[jp].id));
                    if m.file_hash is Some {
                        let jf = choose|j: int|
                            0 <= j < old(self)@.files.len() && (#[trigger] old(
                                self,
                            )@.files[j]).file_hash == m.file_hash->Some_0;
                        assert(final(self)@.has_file(old(self)@.files[jf].file_hash));
                    }
                    assert(final(self)@.messages[i] == m);
                } else {
                    let m = msg@;
                    let jc = choose|j: int|
                        0 <= j < old(self)@.chats.len() && (#[trigger] old(self)@.chats[j]).id
                            == m.chat_id;
                    assert(final(self)@.has_chat(old(self)@.chats[jc].id));
                    let jp = choose|j: int|
                        0 <= j < old(self)@.peers.len() && (#[trigger] old(self)@.peers[j]).id
                            == m.peer_id;
                    assert(final(self)@.has_peer(old(self)@.peers[jp].id));
                    if m.file_hash is Some {
                        let jf = choose|j: int|
                            0 <= j < old(self)@.files.len() && (#[trigger] old(
                                self,
                            )@.files[j]).file_hash == m.file_hash->Some_0;
                        assert(final(self)@.has_file(old(self)@.files[jf].file_hash));
                    }
                    assert(final(self)@.messages[i] == msg@);
                }
            }
        }
        Ok(())
    }

    /// Make sure a file row exists for a hash learned from the wire,
    /// adding an incomplete placeholder when none is there yet, as the
    /// media path does before it persists the message.
    pub fn ensure_placeholder_file(&mut self, file_hash: &str, file_name: Option<&str>)
        requires
            old(self)@.wf(),
        ensures
            final(self)@.wf(),
            final(self)@.has_file(file_hash@),
            final(self)@ == (StoreV { files: final(self)@.files, ..old(self)@ }),
            old(self)@.has_file(file_hash@) ==> final(self)@ == old(self)@,
            !old(self)@.has_file(file_hash@) ==> final(self)@.files == old(self)@.files.push(
                FileV {
                    file_hash: file_hash@,
                    file_name: (match file_name {
                        Some(n) => n@,
                        None => Seq::<char>::empty(),
                    }),
                    mime_type: Seq::<char>::empty(),
                    size_bytes: 0,
                    is_complete: false,
                },
            ),
    {
        if self.find_file(file_hash).is_some() {
            return ;
        }
        let row = FileMetadata {
            file_hash: file_hash.to_owned(),
            file_name: match file_name {
                Some(n) => n.to_owned(),
                None => String::new(),
            },
            mime_type: String::new(),
            size_bytes: 0,
            is_complete: false,
        };
        self.files.push(row);
        proof {
            assert(final(self)@.files =~= old(self)@.files.push(final(self)@.files.last()));
            assert(final(self)@ == (StoreV { files: final(self)@.files, ..old(self)@ }));
            let kk = final(self)@.files.len() - 1;
            assert((#[trigger] final(self)@.files[kk]).file_hash == file_hash@);
            assert forall|k: int|
                0 <= k < old(self)@.chats.len() implies final(self)@.has_chat(
                (#[trigger] old(self)@.chats[k]).id,
            ) by {
                assert(final(self)@.chats[k].id == old(self)@.chats[k].id);
            }
            assert forall|k: int|
                0 <= k < old(self)@.peers.len() implies final(self)@.has_peer(
                (#[trigger] old(self)@.peers[k]).id,
            ) by {
                assert(final(self)@.peers[k].id == old(self)@.peers[k].id);
            }
            assert forall|k: int|
                0 <= k < old(self)@.files.len() implies final(self)@.has_file(
                (#[trigger] old(self)@.files[k]).file_hash,
            ) by {
                assert(final(self)@.files[k].file_hash == old(self)@.files[k].file_hash);
            }
            lemma_msg_refs_preserved(old(self)@, final(self)@);
        }
    }

    /// Advance a message's status monotonically: a write of an earlier
    /// state after a later one is a no-op. An unknown id is an error.
    pub fn update_message_status(&mut self, msg_id: &str, new_status: MessageStatus) -> (r: Result<
        (),
        StoreError,
    >)
        requires
            old(self)@.wf(),
        ensures
            final(self)@.wf(),
            match r {
                Ok(()) => exists|i: int|
                    {
                        &&& 0 <= i < old(self)@.messages.len()
                        &&& (#[trigger] old(self)@.messages[i]).id == msg_id@
                        &&& final(self)@ == (StoreV {
                            messages: old(self)@.messages.update(
                                i,
                                MessageV {
                                    status: status_advance(
                                        old(self)@.messages[i].status,
                                        new_status,
                                    ),
                                    ..old(self)@.messages[i]
                                },
                            ),
                            ..old(self)@
                        })
                    },
                Err(e) => e == StoreError::NotFound && !old(self)@.has_message(msg_id@)
                    && final(self)@ == old(self)@,
            },
    {
        match self.find_message(msg_id) {
            None => Err(StoreError::NotFound),
            Some(i) => {
                let mut m = self.messages.remove(i);
                let advanced = match (m.status, new_status) {
                    (MessageStatus::Pending, _) => new_status,
                    (MessageStatus::Failed, MessageStatus::Delivered) => new_status,
                    (MessageStatus::Failed, MessageStatus::Read) => new_status,
                    (MessageStatus::Delivered, MessageStatus::Read) => new_status,
                    (cur, _) => cur,
                };
                proof {
                    assert(advanced == status_advance(old(self)@.messages[i as int].status,
                        new_status));
                }
                m.status = advanced;
                self.messages.insert(i, m);
                proof {
                    assert(final(self)@.messages =~= old(self)@.messages.update(
                        i as int,
                        MessageV {
                            status: status_advance(old(self)@.messages[i as int].status,
                                new_status),
                            ..old(self)@.messages[i as int]
                        },
                    ));
                    assert(final(self)@ == (StoreV {
                        messages: final(self)@.messages,
                        ..old(self)@
                    }));
                    assert forall|k: int|
                        0 <= k < old(self)@.chats.len() implies final(self)@.has_chat(
                        (#[trigger] old(self)@.chats[k]).id,
                    ) by {
                        assert(final(self)@.chats[k].id == old(self)@.chats[k].id);
                    }
                    assert forall|k: int|
                        0 <= k < old(self)@.peers.len() implies final(self)@.has_peer(
                        (#[trigger] old(self)@.peers[k]).id,
                    ) by {
                        assert(final(self)@.peers[k].id == old(self)@.peers[k].id);
                    }
                    assert forall|k: int|
                        0 <= k < old(self)@.files.len() implies final(self)@.has_file(
                        (#[trigger] old(self)@.files[k]).file_hash,
                    ) by {
                        assert(final(self)@.files[k].file_hash == old(self)@.files[k].file_hash);
                    }
                    lemma_msg_refs_preserved(old(self)@, final(self)@);
                }
                Ok(())
            },
        }
    }

    /// Mark every message of a chat from one sender as read. Returns
    /// exactly the ids of the messages whose status was not yet `read`,
    /// in store order; afterwards their status is `read` and nothing else
    /// changed.
    pub fn mark_messages_read(&mut self, chat_id: &str, sender_id: &str) -> (r: Vec<String>)
        requires
            old(self)@.wf(),
        ensures
            final(self)@.wf(),
            final(self)@ == (StoreV { messages: final(self)@.messages, ..old(self)@ }),
            final(self)@.messages.len() == old(self)@.messages.len(),
            forall|j: int|
                0 <= j < old(self)@.messages.len() ==> (#[trigger] final(self)@.messages[j])
                    == (if needs_read_mark(old(self)@.messages[j], chat_id@, sender_id@) {
                    MessageV { status: MessageStatus::Read, ..old(self)@.messages[j] }
                } else {
                    old(self)@.messages[j]
                }),
            string_views(r@) == msg_ids(old(self)@.messages.filter(
                (|m: MessageV| needs_read_mark(m, chat_id@, sender_id@)),
            )),
    {
        let ghost pred = |m: MessageV| needs_read_mark(m, chat_id@, sender_id@);
        let mut ids: Vec<String> = Vec::new();
        let n = self.messages.len();
        let mut i: usize = 0;
        proof {
            assert(old(self)@.messages.take(0).filter(pred) =~= Seq::<MessageV>::empty());
        }
        while i < n
            invariant
                old(self)@.wf(),
                n == self@.messages.len() == old(self)@.messages.len(),
                i <= n,
                pred == (|m: MessageV| needs_read_mark(m, chat_id@, sender_id@)),
                self@ == (StoreV { messages: self@.messages, ..old(self)@ }),
                forall|j: int|
                    i <= j < n ==> (#[trigger] self@.messages[j]) == old(self)@.messages[j],
                forall|j: int|
                    0 <= j < i ==> (#[trigger] self@.messages[j]) == (if needs_read_mark(
                        old(self)@.messages[j],
                        chat_id@,
                        sender_id@,
                    ) {
                        MessageV { status: MessageStatus::Read, ..old(self)@.messages[j] }
                    } else {
                        old(self)@.messages[j]
                    }),
                string_views(ids@) == msg_ids(old(self)@.messages.take(i as int).filter(pred)),
            decreases n - i,
        {
            let ghost taken = old(self)@.messages.take(i as int);
            let ghost cur = old(self)@.messages[i as int];
            proof {
                assert(old(self)@.messages.take(i + 1) =~= taken.push(cur));
                Seq::filter_distributes_over_add(taken, seq![cur], pred);
                assert(taken + seq![cur] =~= taken.push(cur));
                reveal_with_fuel(Seq::filter, 3);
                assert(Seq::<MessageV>::empty().filter(pred) =~= Seq::<MessageV>::empty());
                assert(seq![cur].drop_last() =~= Seq::<MessageV>::empty());
                assert(seq![cur].last() == cur);
                if pred(cur) {
                    assert(seq![cur].filter(pred) =~= seq![cur]);
                } else {
                    assert(seq![cur].filter(pred) =~= Seq::<MessageV>::empty());
                }
            }
            proof {
                assert(self@.messages[i as int] == old(self)@.messages[i as int]);
            }
            let matches_chat = str_eq(self.messages[i].chat_id.as_str(), chat_id);
            let matches_sender = str_eq(self.messages[i].peer_id.as_str(), sender_id);
            let already_read = match self.messages[i].status {
                MessageStatus::Read => true,
                _ => false,
            };
            if matches_chat && matches_sender && !already_read {
                let ghost before = self@.messages;
                let ghost prev_ids = ids@;
                ids.push(self.messages[i].id.clone());
                let mut m = self.messages.remove(i);
                m.status = MessageStatus::Read;
                self.messages.insert(i, m);
                proof {
                    assert(pred(cur));
                    assert(self@.messages =~= before.update(
                        i as int,
                        MessageV { status: MessageStatus::Read, ..cur },
                    ));
                    assert(self@ == (StoreV { messages: self@.messages, ..old(self)@ }));
                    assert(old(self)@.messages.take(i + 1).filter(pred) =~= taken.filter(pred)
                        + seq![cur]);
                    assert(ids@ =~= prev_ids.push(ids@.last()));
                    assert(ids@.last()@ == cur.id);
                    let f = old(self)@.messages.take(i + 1).filter(pred);
                    let tf = taken.filter(pred);
                    assert(string_views(prev_ids).len() == msg_ids(tf).len());
                    assert(prev_ids.len() == tf.len());
                    assert(f =~= tf + seq![cur]);
                    assert forall|k: int| 0 <= k < ids@.len() implies string_views(ids@)[k]
                        == msg_ids(f)[k] by {
                        if k < prev_ids.len() {
                            assert(string_views(prev_ids)[k] == msg_ids(tf)[k]);
                            assert(ids@[k] == prev_ids[k]);
                            assert(f[k] == tf[k]);
                        } else {
                            assert(ids@[k] == ids@.last());
                            assert(f[k] == cur);
                        }
                    }
                    assert(string_views(ids@) =~= msg_ids(f));
                }
            } else {
                proof {
                    assert(!pred(cur));
                    assert(string_views(ids@) =~= msg_ids(old(self)@.messages.take(i + 1).filter(
                        pred,
                    )));
                }
            }
            i += 1;
        }
        proof {
            assert(old(self)@.messages.take(n as int) =~= old(self)@.messages);
            assert forall|k: int|
                0 <= k < old(self)@.chats.len() implies final(self)@.has_chat(
                (#[trigger] old(self)@.chats[k]).id,
            ) by {
                assert(final(self)@.chats[k].id == old(self)@.chats[k].id);
            }
            assert forall|k: int|
                0 <= k < old(self)@.peers.len() implies final(self)@.has_peer(
                (#[trigger] old(self)@.peers[k]).id,
            ) by {
                assert(final(self)@.peers[k].id == old(self)@.peers[k].id);
            }
            assert forall|k: int|
                0 <= k < old(self)@.files.len() implies final(self)@.has_file(
                (#[trigger] old(self)@.files[k]).file_hash,
            ) by {
                assert(final(self)@.files[k].file_hash == old(self)@.files[k].file_hash);
            }
            lemma_msg_refs_preserved(old(self)@, final(self)@);
        }
        ids
    }

    /// The number of unread messages of a chat: messages from someone
    /// else whose status is not yet `read`.
    pub fn unread_count(&self, chat_id: &str) -> (r: usize)
        ensures
            r == self@.unread_in(chat_id@),
    {
        let ghost pred = |m: MessageV| m.chat_id == chat_id@ && m.peer_id != "Me"@ && m.status
            != MessageStatus::Read;
        let n = self.messages.len();
        let mut count: usize = 0;
        let mut i: usize = 0;
        proof {
            assert(self@.messages.take(0).filter(pred) =~= Seq::<MessageV>::empty());
        }
        while i < n
            invariant
                n == self@.messages.len(),
                i <= n,
                pred == (|m: MessageV| m.chat_id == chat_id@ && m.peer_id != "Me"@ && m.status
                    != MessageStatus::Read),
                count == self@.messages.take(i as int).filter(pred).len(),
                count <= i,
            decreases n - i,
        {
            let ghost taken = self@.messages.take(i as int);
            let ghost cur = self@.messages[i as int];
            proof {
                assert(self@.messages.take(i + 1) =~= taken.push(cur));
                Seq::filter_distributes_over_add(taken, seq![cur], pred);
                assert(taken + seq![cur] =~= taken.push(cur));
                reveal_with_fuel(Seq::filter, 3);
                assert(Seq::<MessageV>::empty().filter(pred) =~= Seq::<MessageV>::empty());
                assert(seq![cur].drop_last() =~= Seq::<MessageV>::empty());
                assert(seq![cur].last() == cur);
                if pred(cur) {
                    assert(seq![cur].filter(pred) =~= seq![cur]);
                } else {
                    assert(seq![cur].filter(pred) =~= Seq::<MessageV>::empty());
                }
            }
            let in_chat = str_eq(self.messages[i].chat_id.as_str(), chat_id);
            let from_me = str_eq(self.messages[i].peer_id.as_str(), "Me");
            let already_read = match self.messages[i].status {
                MessageStatus::Read => true,
                _ => false,
            };
            if in_chat && !from_me && !already_read {
                proof {
                    reveal_strlit("Me");
                }
                count += 1;
            } else {
                proof {
                    reveal_strlit("Me");
                    assert(!pred(cur));
                }
            }
            i += 1;
        }
        proof {
            assert(self@.messages.take(n as int) =~= self@.messages);
        }
        count
    }
}


// --- Envelopes and assignments ---

impl Store {
    /// The index of the envelope with this id.
    fn find_envelope(&self, id: &str) -> (r: Option<usize>)
        ensures
            match r {
                Some(i) => i < self@.envelopes.len() && self@.envelopes[i as int].id == id@,
                None => forall|j: int|
                    0 <= j < self@.envelopes.len() ==> (#[trigger] self@.envelopes[j]).id != id@,
            },
    {
        let n = self.envelopes.len();
        let mut i: usize = 0;
        while i < n
            invariant
                n == self@.envelopes.len(),
                i <= n,
                forall|j: int| 0 <= j < i ==> (#[trigger] self@.envelopes[j]).id != id@,
            decreases n - i,
        {
            if str_eq(self.envelopes[i].id.as_str(), id) {
                return Some(i);
            }
            i += 1;
        }
        None
    }

    /// Create an envelope; a duplicate id is an error.
    pub fn create_envelope(&mut self, id: &str, name: &str, icon: Option<&str>) -> (r: Result<
        (),
        StoreError,
    >)
        requires
            old(self)@.wf(),
        ensures
            final(self)@.wf(),
            match r {
                Ok(()) => final(self)@ == (StoreV {
                    envelopes: old(self)@.envelopes.push(
                        EnvelopeV {
                            id: id@,
                            name: name@,
                            icon: (match icon {
                                Some(s) => Some(s@),
                                None => None,
                            }),
                        },
                    ),
                    ..old(self)@
                }),
                Err(e) => e == StoreError::Duplicate && final(self)@ == old(self)@,
            },
    {
        if self.find_envelope(id).is_some() {
            return Err(StoreError::Duplicate);
        }
        let icon_s: Option<String> = match icon {
            Some(s) => Some(s.to_owned()),
            None => None,
        };
        self.envelopes.push(Envelope { id: id.to_owned(), name: name.to_owned(), icon: icon_s });
        proof {
            assert(final(self)@.envelopes =~= old(self)@.envelopes.push(
                final(self)@.envelopes.last(),
            ));
            assert(final(self)@ == (StoreV { envelopes: final(self)@.envelopes, ..old(self)@ }));
            lemma_msg_refs_frame(old(self)@, final(self)@);
            lemma_chunk_refs_frame(old(self)@, final(self)@);
        }
        Ok(())
    }

    /// Rename an envelope and replace its icon; an unknown id is an
    /// error.
    pub fn update_envelope(&mut self, id: &str, name: &str, icon: Option<&str>) -> (r: Result<
        (),
        StoreError,
    >)
        requires
            old(self)@.wf(),
        ensures
            final(self)@.wf(),
            match r {
                Ok(()) => exists|i: int|
                    {
                        &&& 0 <= i < old(self)@.envelopes.len()
                        &&& (#[trigger] old(self)@.envelopes[i]).id == id@
                        &&& final(self)@ == (StoreV {
                            envelopes: old(self)@.envelopes.update(
                                i,
                                EnvelopeV {
                                    id: id@,
                                    name: name@,
                                    icon: (match icon {
                                        Some(s) => Some(s@),
                                        None => None,
                                    }),
                                },
                            ),
                            ..old(self)@
                        })
                    },
                Err(e) => e == StoreError::NotFound && final(self)@ == old(self)@,
            },
    {
        let i = match self.find_envelope(id) {
            Some(i) => i,
            None => {
                return Err(StoreError::NotFound);
            },
        };
        let icon_s: Option<String> = match icon {
            Some(s) => Some(s.to_owned()),
            None => None,
        };
        self.envelopes.remove(i);
        self.envelopes.insert(
            i,
            Envelope { id: id.to_owned(), name: name.to_owned(), icon: icon_s },
        );
        proof {
            assert(final(self)@.envelopes =~= old(self)@.envelopes.update(
                i as int,
                final(self)@.envelopes[i as int],
            ));
            assert(final(self)@ == (StoreV { envelopes: final(self)@.envelopes, ..old(self)@ }));
            lemma_msg_refs_frame(old(self)@, final(self)@);
            lemma_chunk_refs_frame(old(self)@, final(self)@);
        }
        Ok(())
    }

    /// Delete an envelope and, as the schema cascades, every assignment
    /// to it; an unknown id is an error.
    pub fn delete_envelope(&mut self, id: &str) -> (r: Result<(), StoreError>)
        requires
            old(self)@.wf(),
        ensures
            final(self)@.wf(),
            match r {
                Ok(()) => final(self)@ == (StoreV {
                    envelopes: old(self)@.envelopes.filter((|e: EnvelopeV| e.id != id@)),
                    chat_assignments: old(self)@.chat_assignments.filter(
                        (|a: ChatAssignmentV| a.envelope_id != id@),
                    ),
                    ..old(self)@
                }),
                Err(e) => e == StoreError::NotFound && final(self)@ == old(self)@ && (forall|
                    j: int,
                |
                    0 <= j < old(self)@.envelopes.len() ==> (#[trigger] old(
                        self,
                    )@.envelopes[j]).id != id@),
            },
    {
        if self.find_envelope(id).is_none() {
            return Err(StoreError::NotFound);
        }
        let ghost keep_e = |e: EnvelopeV| e.id != id@;
        let ghost keep_a = |a: ChatAssignmentV| a.envelope_id != id@;
        let mut kept: Vec<Envelope> = Vec::new();
        let n = self.envelopes.len();
        let mut i: usize = 0;
        proof {
            reveal_with_fuel(Seq::filter, 2);
            assert(old(self)@.envelopes.take(0).filter(keep_e) =~= Seq::<EnvelopeV>::empty());
        }
        while i < n
            invariant
                self == old(self),
                n == self@.envelopes.len(),
                i <= n,
                keep_e == (|e: EnvelopeV| e.id != id@),
                kept@.map_values(|e: Envelope| e@) == old(self)@.envelopes.take(i as int).filter(
                    keep_e,
                ),
            decreases n - i,
        {
            let ghost taken = old(self)@.envelopes.take(i as int);
            let ghost cur = old(self)@.envelopes[i as int];
            proof {
                reveal_with_fuel(Seq::filter, 2);
                assert(old(self)@.envelopes.take(i + 1) =~= taken.push(cur));
                Seq::filter_distributes_over_add(taken, seq![cur], keep_e);
                assert(taken + seq![cur] =~= taken.push(cur));
                assert(seq![cur].drop_last() =~= Seq::<EnvelopeV>::empty());
                assert(seq![cur].last() == cur);
                assert(Seq::<EnvelopeV>::empty().filter(keep_e) =~= Seq::<EnvelopeV>::empty());
                if keep_e(cur) {
                    assert(seq![cur].filter(keep_e) =~= seq![cur]);
                } else {
                    assert(seq![cur].filter(keep_e) =~= Seq::<EnvelopeV>::empty());
                }
                assert(old(self)@.envelopes[i as int] == self.envelopes@[i as int]@);
            }
            if !str_eq(self.envelopes[i].id.as_str(), id) {
                let e = &self.envelopes[i];
                kept.push(
                    Envelope {
                        id: e.id.clone(),
                        name: e.name.clone(),
                        icon: crate::config::clone_opt(&e.icon),
                    },
                );
                proof {
                    assert(kept@.map_values(|e: Envelope| e@) =~= old(self)@.envelopes.take(
                        i + 1,
                    ).filter(keep_e));
                }
            } else {
                proof {
                    assert(!keep_e(cur));
                    assert(kept@.map_values(|e: Envelope| e@) =~= old(self)@.envelopes.take(
                        i + 1,
                    ).filter(keep_e));
                }
            }
            i += 1;
        }
        proof {
            assert(old(self)@.envelopes.take(n as int) =~= old(self)@.envelopes);
        }
        self.envelopes = kept;

        let mut kept_a: Vec<ChatAssignment> = Vec::new();
        let m = self.chat_assignments.len();
        let mut j: usize = 0;
        proof {
            reveal_with_fuel(Seq::filter, 2);
            assert(old(self)@.chat_assignments.take(0).filter(keep_a) =~= Seq::<
                ChatAssignmentV,
            >::empty());
        }
        while j < m
            invariant
                m == self@.chat_assignments.len(),
                self@.chat_assignments == old(self)@.chat_assignments,
                j <= m,
                keep_a == (|a: ChatAssignmentV| a.envelope_id != id@),
                kept_a@.map_values(|a: ChatAssignment| a@) == old(self)@.chat_assignments.take(
                    j as int,
                ).filter(keep_a),
            decreases m - j,
        {
            let ghost taken = old(self)@.chat_assignments.take(j as int);
            let ghost cur = old(self)@.chat_assignments[j as int];
            proof {
                reveal_with_fuel(Seq::filter, 2);
                assert(old(self)@.chat_assignments.take(j + 1) =~= taken.push(cur));
                Seq::filter_distributes_over_add(taken, seq![cur], keep_a);
                assert(taken + seq![cur] =~= taken.push(cur));
                assert(seq![cur].drop_last() =~= Seq::<ChatAssignmentV>::empty());
                assert(seq![cur].last() == cur);
                assert(Seq::<ChatAssignmentV>::empty().filter(keep_a) =~= Seq::<
                    ChatAssignmentV,
                >::empty());
                if keep_a(cur) {
                    assert(seq![cur].filter(keep_a) =~= seq![cur]);
                } else {
                    assert(seq![cur].filter(keep_a) =~= Seq::<ChatAssignmentV>::empty());
                }
                assert(old(self)@.chat_assignments[j as int] == self.chat_assignments@[
                    j as int]@);
            }
            if !str_eq(self.chat_assignments[j].envelope_id.as_str(), id) {
                let a = &self.chat_assignments[j];
                kept_a.push(
                    ChatAssignment { chat_id: a.chat_id.clone(), envelope_id: a.envelope_id.clone() },
                );
                proof {
                    assert(kept_a@.map_values(|a: ChatAssignment| a@) =~= old(
                        self,
                    )@.chat_assignments.take(j + 1).filter(keep_a));
                }
            } else {
                proof {
                    assert(!keep_a(cur));
                    assert(kept_a@.map_values(|a: ChatAssignment| a@) =~= old(
                        self,
                    )@.chat_assignments.take(j + 1).filter(keep_a));
                }
            }
            j += 1;
        }
        proof {
            assert(old(self)@.chat_assignments.take(m as int) =~= old(self)@.chat_assignments);
        }
        self.chat_assignments = kept_a;
        proof {
            lemma_filter_unique_envelopes(old(self)@.envelopes, keep_e);
            lemma_filter_unique_assignments(old(self)@.chat_assignments, keep_a);
            lemma_msg_refs_frame(old(self)@, final(self)@);
        }
        Ok(())
    }

    /// File a chat under an envelope, replacing any earlier assignment;
    /// no envelope means back to the root, dropping the assignment.
    pub fn assign_chat_to_envelope(&mut self, chat_id: &str, envelope_id: Option<&str>)
        requires
            old(self)@.wf(),
        ensures
            final(self)@.wf(),
            final(self)@ == (StoreV {
                chat_assignments: final(self)@.chat_assignments,
                ..old(self)@
            }),
            ({
                let others = old(self)@.chat_assignments.filter(
                    (|a: ChatAssignmentV| a.chat_id != chat_id@),
                );
                match envelope_id {
                    Some(e) => final(self)@.chat_assignments == others.push(
                        ChatAssignmentV { chat_id: chat_id@, envelope_id: e@ },
                    ),
                    None => final(self)@.chat_assignments == others,
                }
            }),
    {
        let ghost keep = |a: ChatAssignmentV| a.chat_id != chat_id@;
        let mut kept: Vec<ChatAssignment> = Vec::new();
        let m = self.chat_assignments.len();
        let mut j: usize = 0;
        proof {
            reveal_with_fuel(Seq::filter, 2);
            assert(old(self)@.chat_assignments.take(0).filter(keep) =~= Seq::<
                ChatAssignmentV,
            >::empty());
        }
        while j < m
            invariant
                self == old(self),
                m == self@.chat_assignments.len(),
                j <= m,
                keep == (|a: ChatAssignmentV| a.chat_id != chat_id@),
                kept@.map_values(|a: ChatAssignment| a@) == old(self)@.chat_assignments.take(
                    j as int,
                ).filter(keep),
            decreases m - j,
        {
            let ghost taken = old(self)@.chat_assignments.take(j as int);
            let ghost cur = old(self)@.chat_assignments[j as int];
            proof {
                reveal_with_fuel(Seq::filter, 2);
                assert(old(self)@.chat_assignments.take(j + 1) =~= taken.push(cur));
                Seq::filter_distributes_over_add(taken, seq![cur], keep);
                assert(taken + seq![cur] =~= taken.push(cur));
                assert(seq![cur].drop_last() =~= Seq::<ChatAssignmentV>::empty());
                assert(seq![cur].last() == cur);
                assert(Seq::<ChatAssignmentV>::empty().filter(keep) =~= Seq::<
                    ChatAssignmentV,
                >::empty());
                if keep(cur) {
                    assert(seq![cur].filter(keep) =~= seq![cur]);
                } else {
                    assert(seq![cur].filter(keep) =~= Seq::<ChatAssignmentV>::empty());
                }
                assert(old(self)@.chat_assignments[j as int] == self.chat_assignments@[
                    j as int]@);
            }
            if !str_eq(self.chat_assignments[j].chat_id.as_str(), chat_id) {
                let a = &self.chat_assignments[j];
                kept.push(
                    ChatAssignment { chat_id: a.chat_id.clone(), envelope_id: a.envelope_id.clone() },
                );
                proof {
                    assert(kept@.map_values(|a: ChatAssignment| a@) =~= old(
                        self,
                    )@.chat_assignments.take(j + 1).filter(keep));
                }
            } else {
                proof {
                    assert(!keep(cur));
                    assert(kept@.map_values(|a: ChatAssignment| a@) =~= old(
                        self,
                    )@.chat_assignments.take(j + 1).filter(keep));
                }
            }
            j += 1;
        }
        proof {
            assert(old(self)@.chat_assignments.take(m as int) =~= old(self)@.chat_assignments);
        }
        match envelope_id {
            Some(e) => {
                kept.push(ChatAssignment { chat_id: chat_id.to_owned(), envelope_id: e.to_owned() });
                proof {
                    assert(kept@.map_values(|a: ChatAssignment| a@) =~= old(
                        self,
                    )@.chat_assignments.filter(keep).push(kept@.last()@));
                }
            },
            None => {},
        }
        self.chat_assignments = kept;
        proof {
            lemma_msg_refs_frame(old(self)@, final(self)@);
            lemma_chunk_refs_frame(old(self)@, final(self)@);
            lemma_filter_unique_assignments(old(self)@.chat_assignments, keep);
            match envelope_id {
                Some(e) => {
                    assert forall|a: int, b: int|
                        0 <= a < b < final(self)@.chat_assignments.len() implies (
                    #[trigger] final(self)@.chat_assignments[a]).chat_id != (
                    #[trigger] final(self)@.chat_assignments[b]).chat_id by {
                        let fs = old(self)@.chat_assignments.filter(keep);
                        if b < fs.len() {
                        } else {
                            Seq::lemma_filter_pred(old(self)@.chat_assignments, keep, a);
                        }
                    }
                },
                None => {},
            }
        }
    }

    /// The messages of one chat, ordered for presentation: ascending by
    /// timestamp, ties broken by id. The result holds exactly the chat's
    /// messages.
    pub fn get_messages(&self, chat_id: &str) -> (r: Vec<Message>)
        ensures
            r@.map_values(|m: Message| m@).to_multiset() == self@.messages.filter(
                (|m: MessageV| m.chat_id == chat_id@),
            ).to_multiset(),
            msgs_sorted(r@.map_values(|m: Message| m@)),
    {
        let ghost pred = |m: MessageV| m.chat_id == chat_id@;
        let mut out: Vec<Message> = Vec::new();
        let n = self.messages.len();
        let mut i: usize = 0;
        proof {
            reveal_with_fuel(Seq::filter, 2);
            assert(self@.messages.take(0).filter(pred) =~= Seq::<MessageV>::empty());
        }
        while i < n
            invariant
                n == self@.messages.len(),
                i <= n,
                pred == (|m: MessageV| m.chat_id == chat_id@),
                out@.map_values(|m: Message| m@) == self@.messages.take(i as int).filter(pred),
            decreases n - i,
        {
            let ghost taken = self@.messages.take(i as int);
            let ghost cur = self@.messages[i as int];
            proof {
                reveal_with_fuel(Seq::filter, 2);
                assert(self@.messages.take(i + 1) =~= taken.push(cur));
                Seq::filter_distributes_over_add(taken, seq![cur], pred);
                assert(taken + seq![cur] =~= taken.push(cur));
                assert(seq![cur].drop_last() =~= Seq::<MessageV>::empty());
                assert(seq![cur].last() == cur);
                assert(Seq::<MessageV>::empty().filter(pred) =~= Seq::<MessageV>::empty());
                if pred(cur) {
                    assert(seq![cur].filter(pred) =~= seq![cur]);
                } else {
                    assert(seq![cur].filter(pred) =~= Seq::<MessageV>::empty());
                }
                assert(self@.messages[i as int] == self.messages@[i as int]@);
            }
            if str_eq(self.messages[i].chat_id.as_str(), chat_id) {
                let m = &self.messages[i];
                out.push(
                    Message {
                        id: m.id.clone(),
                        chat_id: m.chat_id.clone(),
                        peer_id: m.peer_id.clone(),
                        timestamp: m.timestamp,
                        content_type: m.content_type.clone(),
                        text_content: crate::config::clone_opt(&m.text_content),
                        file_hash: crate::config::clone_opt(&m.file_hash),
                        status: m.status,
                        content_metadata: crate::config::clone_opt(&m.content_metadata),
                        sender_alias: crate::config::clone_opt(&m.sender_alias),
                    },
                );
                proof {
                    assert(out@.map_values(|m: Message| m@) =~= self@.messages.take(i + 1).filter(
                        pred,
                    ));
                }
            } else {
                proof {
                    assert(!pred(cur));
                    assert(out@.map_values(|m: Message| m@) =~= self@.messages.take(i + 1).filter(
                        pred,
                    ));
                }
            }
            i += 1;
        }
        proof {
            assert(self@.messages.take(n as int) =~= self@.messages);
        }
        // order the collected rows for presentation
        let mut sorted: Vec<Message> = Vec::new();
        proof {
            broadcast use vstd::seq_lib::group_to_multiset_ensures;

            assert(sorted@.map_values(|m: Message| m@).to_multiset().add(
                out@.map_values(|m: Message| m@).to_multiset(),
            ) =~= out@.map_values(|m: Message| m@).to_multiset());
        }
        while out.len() > 0
            invariant
                msgs_sorted(sorted@.map_values(|m: Message| m@)),
                sorted@.map_values(|m: Message| m@).to_multiset().add(
                    out@.map_values(|m: Message| m@).to_multiset(),
                ) == self@.messages.filter((|m: MessageV| m.chat_id == chat_id@)).to_multiset(),
            decreases out@.len(),
        {
            let ghost out0 = out@.map_values(|m: Message| m@);
            let ghost sorted0 = sorted@.map_values(|m: Message| m@);
            let m = out.remove(0);
            proof {
                broadcast use vstd::seq_lib::group_to_multiset_ensures;

                assert(out@.map_values(|mm: Message| mm@) =~= out0.remove(0));
                assert(out0.remove(0).to_multiset() =~= out0.to_multiset().remove(out0[0]));
                assert(out0[0] == m@);
            }
            let mut pos: usize = 0;
            while pos < sorted.len() && msg_le_exec(&sorted[pos], &m)
                invariant
                    pos <= sorted@.len(),
                    sorted@.map_values(|mm: Message| mm@) == sorted0,
                    forall|k: int| 0 <= k < pos ==> msg_le(#[trigger] sorted0[k], m@),
                decreases sorted@.len() - pos,
            {
                proof {
                    assert(sorted0[pos as int] == sorted@[pos as int]@);
                }
                pos += 1;
            }
            proof {
                assert(pos < sorted@.len() ==> !msg_le(sorted0[pos as int], m@)) by {
                    if pos < sorted@.len() {
                        assert(sorted0[pos as int] == sorted@[pos as int]@);
                    }
                }
                if pos < sorted@.len() {
                    lemma_msg_le_total(sorted0[pos as int], m@);
                }
            }
            sorted.insert(pos, m);
            proof {
                broadcast use vstd::seq_lib::group_to_multiset_ensures;

                let now_v = sorted@.map_values(|mm: Message| mm@);
                assert(now_v =~= sorted0.insert(pos as int, m@));
                lemma_insert_to_multiset(sorted0, pos as int, m@);
                assert(now_v.to_multiset() =~= sorted0.to_multiset().insert(m@));
                assert forall|i: int, j: int| 0 <= i < j < now_v.len() implies msg_le(
                    #[trigger] now_v[i],
                    #[trigger] now_v[j],
                ) by {
                    if j < pos {
                        assert(now_v[i] == sorted0[i] && now_v[j] == sorted0[j]);
                    } else if j == pos {
                        assert(now_v[i] == sorted0[i] && now_v[j] == m@);
                    } else {
                        assert(now_v[j] == sorted0[j - 1]);
                        if i < pos {
                            assert(now_v[i] == sorted0[i]);
                            if pos < sorted0.len() && i < pos {
                                assert(msg_le(sorted0[i], sorted0[j - 1]));
                            }
                        } else if i == pos {
                            assert(now_v[i] == m@);
                            assert(msg_le(m@, sorted0[pos as int]));
                            if j - 1 > pos {
                                assert(msg_le(sorted0[pos as int], sorted0[j - 1]));
                                lemma_msg_le_trans(m@, sorted0[pos as int], sorted0[j - 1]);
                            }
                        } else {
                            assert(now_v[i] == sorted0[i - 1]);
                        }
                    }
                }
                assert(now_v.to_multiset().add(out@.map_values(|mm: Message| mm@).to_multiset())
                    =~= self@.messages.filter(
                    (|mm: MessageV| mm.chat_id == chat_id@),
                ).to_multiset());
            }
        }
        proof {
            broadcast use vstd::seq_lib::group_to_multiset_ensures;

            assert(out@.map_values(|m: Message| m@).to_multiset() =~= Multiset::<
                MessageV,
            >::empty());
            assert(sorted@.map_values(|m: Message| m@).to_multiset().add(Multiset::<
                MessageV,
            >::empty()) =~= sorted@.map_values(|m: Message| m@).to_multiset());
        }
        sorted
    }
}

impl Store {
    /// Every known peer, ordered as the roster is shown: most recently
    /// seen first, ties broken by id. The result holds exactly the
    /// peers table.
    pub fn get_all_peers(&self) -> (r: Vec<Peer>)
        ensures
            r@.map_values(|p: Peer| p@).to_multiset() == self@.peers.to_multiset(),
            peers_sorted(r@.map_values(|p: Peer| p@)),
    {
        let mut sorted: Vec<Peer> = Vec::new();
        let n = self.peers.len();
        let mut w: usize = 0;
        proof {
            broadcast use vstd::seq_lib::group_to_multiset_ensures;

            assert(self@.peers.take(0).to_multiset() =~= Multiset::<PeerV>::empty());
            assert(sorted@.map_values(|p: Peer| p@).to_multiset() =~= Multiset::<
                PeerV,
            >::empty());
        }
        while w < n
            invariant
                n == self@.peers.len(),
                w <= n,
                sorted@.map_values(|p: Peer| p@).to_multiset() == self@.peers.take(
                    w as int,
                ).to_multiset(),
                peers_sorted(sorted@.map_values(|p: Peer| p@)),
            decreases n - w,
        {
            let ghost sorted0 = sorted@.map_values(|p: Peer| p@);
            let src = &self.peers[w];
            let m = Peer {
                id: src.id.clone(),
                alias: src.alias.clone(),
                last_seen: src.last_seen,
                public_key: src.public_key.clone(),
                method: src.method.clone(),
            };
            proof {
                assert(m@ == self@.peers[w as int]);
            }
            let mut pos: usize = 0;
            while pos < sorted.len() && peer_le_exec(&sorted[pos], &m)
                invariant
                    pos <= sorted@.len(),
                    sorted@.map_values(|p: Peer| p@) == sorted0,
                    m@ == self@.peers[w as int],
                    forall|k: int| 0 <= k < pos ==> peer_le(#[trigger] sorted0[k], m@),
                decreases sorted@.len() - pos,
            {
                proof {
                    assert(sorted0[pos as int] == sorted@[pos as int]@);
                }
                pos += 1;
            }
            proof {
                if pos < sorted@.len() {
                    assert(sorted0[pos as int] == sorted@[pos as int]@);
                    lemma_peer_le_total(sorted0[pos as int], m@);
                }
            }
            sorted.insert(pos, m);
            proof {
                broadcast use vstd::seq_lib::group_to_multiset_ensures;

                let now_v = sorted@.map_values(|p: Peer| p@);
                assert(now_v =~= sorted0.insert(pos as int, self@.peers[w as int]));
                lemma_insert_to_multiset(sorted0, pos as int, self@.peers[w as int]);
                assert(self@.peers.take(w + 1) =~= self@.peers.take(w as int).push(
                    self@.peers[w as int],
                ));
                assert(now_v.to_multiset() =~= self@.peers.take(w + 1).to_multiset());
                assert forall|i: int, j: int| 0 <= i < j < now_v.len() implies peer_le(
                    #[trigger] now_v[i],
                    #[trigger] now_v[j],
                ) by {
                    let mv = self@.peers[w as int];
                    if j < pos {
                        assert(now_v[i] == sorted0[i] && now_v[j] == sorted0[j]);
                    } else if j == pos {
                        assert(now_v[i] == sorted0[i] && now_v[j] == mv);
                    } else {
                        assert(now_v[j] == sorted0[j - 1]);
                        if i < pos {
                            assert(now_v[i] == sorted0[i]);
                        } else if i == pos {
                            assert(now_v[i] == mv);
                            assert(peer_le(mv, sorted0[pos as int]));
                            if j - 1 > pos {
                                lemma_peer_le_trans(mv, sorted0[pos as int], sorted0[j - 1]);
                            }
                        } else {
                            assert(now_v[i] == sorted0[i - 1]);
                        }
                    }
                }
            }
            w += 1;
        }
        proof {
            assert(self@.peers.take(n as int) =~= self@.peers);
        }
        sorted
    }
}

/// Whether a run of peers is in roster order.
pub open spec fn peers_sorted(s: Seq<PeerV>) -> bool {
    forall|i: int, j: int| 0 <= i < j < s.len() ==> peer_le(#[trigger] s[i], #[trigger] s[j])
}

/// The roster order of peers: most recently seen first, ties broken by
/// id.
pub open spec fn peer_le(a: PeerV, b: PeerV) -> bool {
    a.last_seen > b.last_seen || (a.last_seen == b.last_seen && chars_le(a.id, b.id))
}

pub proof fn lemma_peer_le_total(a: PeerV, b: PeerV)
    ensures
        peer_le(a, b) || peer_le(b, a),
{
    lemma_chars_le_total(a.id, b.id);
}

pub proof fn lemma_peer_le_trans(a: PeerV, b: PeerV, c: PeerV)
    requires
        peer_le(a, b),
        peer_le(b, c),
    ensures
        peer_le(a, c),
{
    if a.last_seen == b.last_seen && b.last_seen == c.last_seen {
        lemma_chars_le_trans(a.id, b.id, c.id);
    }
}

/// Compare two peers in roster order.
pub fn peer_le_exec(a: &Peer, b: &Peer) -> (r: bool)
    ensures
        r == peer_le(a@, b@),
{
    if a.last_seen > b.last_seen {
        true
    } else if a.last_seen == b.last_seen {
        str_le(a.id.as_str(), b.id.as_str())
    } else {
        false
    }
}

/// Each chat appears at most once among the latest-time pairs.
pub open spec fn latest_keys_unique(pairs: Seq<(String, i64)>) -> bool {
    forall|a: int, b: int|
        0 <= a < b < pairs.len() ==> (#[trigger] pairs[a]).0@ != (#[trigger] pairs[b]).0@
}

/// Every message's chat has a pair, at or above its timestamp.
pub open spec fn latest_covers(pairs: Seq<(String, i64)>, msgs: Seq<MessageV>) -> bool {
    forall|j: int|
        0 <= j < msgs.len() ==> exists|k: int|
            0 <= k < pairs.len() && (#[trigger] pairs[k]).0@ == (#[trigger] msgs[j]).chat_id
                && pairs[k].1 >= msgs[j].timestamp
}

/// Every pair's value is the timestamp of some message of that chat, so
/// a chat without messages has no pair, and with `latest_covers` each
/// value is the chat's maximum.
pub open spec fn latest_attained(pairs: Seq<(String, i64)>, msgs: Seq<MessageV>) -> bool {
    forall|k: int|
        0 <= k < pairs.len() ==> exists|j: int|
            0 <= j < msgs.len() && (#[trigger] pairs[k]).0@ == (#[trigger] msgs[j]).chat_id
                && pairs[k].1 == msgs[j].timestamp
}

/// One fold step of the latest-time scan: updating or appending the
/// pair of one more message keeps the keys unique and the coverage.
proof fn lemma_latest_step(
    prev: Seq<(String, i64)>,
    cur: Seq<(String, i64)>,
    pref: Seq<MessageV>,
    msg: MessageV,
    k: int,
    found: bool,
    updated: bool,
)
    requires
        latest_keys_unique(prev),
        latest_covers(prev, pref),
        latest_attained(prev, pref),
        found ==> 0 <= k < prev.len() && prev[k].0@ == msg.chat_id,
        !found ==> forall|a: int| 0 <= a < prev.len() ==> (#[trigger] prev[a]).0@ != msg.chat_id,
        found && updated ==> cur.len() == prev.len() && cur[k].0@ == prev[k].0@ && cur[k].1
            == msg.timestamp && cur[k].1 >= prev[k].1 && (forall|q: int|
            0 <= q < cur.len() && q != k ==> #[trigger] cur[q] == prev[q]),
        found && !updated ==> cur == prev && prev[k].1 >= msg.timestamp,
        !found ==> cur.len() == prev.len() + 1 && cur[prev.len() as int].0@ == msg.chat_id
            && cur[prev.len() as int].1 == msg.timestamp && (forall|q: int|
            0 <= q < prev.len() ==> #[trigger] cur[q] == prev[q]),
    ensures
        latest_keys_unique(cur),
        latest_covers(cur, pref.push(msg)),
        latest_attained(cur, pref.push(msg)),
{
    assert forall|a: int, b: int|
        0 <= a < b < cur.len() implies (#[trigger] cur[a]).0@ != (#[trigger] cur[b]).0@ by {
        if found {
            assert((#[trigger] prev[a]).0@ != (#[trigger] prev[b]).0@);
            if updated {
                if a != k {
                    assert(cur[a] == prev[a]);
                }
                if b != k {
                    assert(cur[b] == prev[b]);
                }
            }
        } else {
            assert(cur[a] == prev[a]);
            if b < prev.len() {
                assert((#[trigger] prev[a]).0@ != (#[trigger] prev[b]).0@);
                assert(cur[b] == prev[b]);
            } else {
                assert(cur[b].0@ == msg.chat_id);
                assert(prev[a].0@ != msg.chat_id);
            }
        }
    }
    assert forall|j: int|
        0 <= j < pref.push(msg).len() implies exists|q: int|
        0 <= q < cur.len() && (#[trigger] cur[q]).0@ == (#[trigger] pref.push(msg)[j]).chat_id
            && cur[q].1 >= pref.push(msg)[j].timestamp by {
        if j == pref.len() {
            assert(pref.push(msg)[j] == msg);
            if found {
                assert(cur[k].0@ == msg.chat_id && cur[k].1 >= msg.timestamp);
            } else {
                let q = prev.len() as int;
                assert(cur[q].0@ == msg.chat_id && cur[q].1 >= msg.timestamp);
            }
        } else {
            assert(pref.push(msg)[j] == pref[j]);
            let q = choose|q: int|
                0 <= q < prev.len() && (#[trigger] prev[q]).0@ == pref[j].chat_id && prev[q].1
                    >= pref[j].timestamp;
            if found && updated && q == k {
                assert(cur[q].0@ == prev[q].0@ && cur[q].1 >= prev[q].1);
            } else {
                assert(cur[q] == prev[q]);
            }
            assert(cur[q].0@ == pref[j].chat_id && cur[q].1 >= pref[j].timestamp);
        }
    }
    assert forall|q: int|
        0 <= q < cur.len() implies exists|j: int|
        0 <= j < pref.push(msg).len() && (#[trigger] cur[q]).0@ == (#[trigger] pref.push(msg)[
            j]).chat_id && cur[q].1 == pref.push(msg)[j].timestamp by {
        let last = pref.len() as int;
        if found && updated && q == k {
            assert(cur[q].0@ == msg.chat_id && cur[q].1 == msg.timestamp);
            assert(pref.push(msg)[last] == msg);
            assert(0 <= last < pref.push(msg).len() && cur[q].0@ == pref.push(msg)[last].chat_id
                && cur[q].1 == pref.push(msg)[last].timestamp);
        } else if !found && q == prev.len() {
            assert(cur[q].0@ == msg.chat_id && cur[q].1 == msg.timestamp);
            assert(pref.push(msg)[last] == msg);
            assert(0 <= last < pref.push(msg).len() && cur[q].0@ == pref.push(msg)[last].chat_id
                && cur[q].1 == pref.push(msg)[last].timestamp);
        } else {
            assert(cur[q] == prev[q]);
            let j = choose|j: int|
                0 <= j < pref.len() && (#[trigger] prev[q]).0@ == pref[j].chat_id && prev[q].1
                    == pref[j].timestamp;
            assert(pref.push(msg)[j] == pref[j]);
            assert(0 <= j < pref.push(msg).len() && cur[q].0@ == pref.push(msg)[j].chat_id
                && cur[q].1 == pref.push(msg)[j].timestamp);
        }
    }
}

impl Store {
    /// The newest message timestamp of every chat that has messages:
    /// one pair per such chat, at or above every timestamp the chat
    /// holds; the running maximum is kept as the messages are folded in.
    #[verifier::rlimit(100)]
    #[verifier::spinoff_prover]
    pub fn get_chat_latest_times(&self) -> (r: Vec<(String, i64)>)
        ensures
            latest_keys_unique(r@),
            latest_covers(r@, self@.messages),
            latest_attained(r@, self@.messages),
    {
        let ghost msgs = self@.messages;
        let mut out: Vec<(String, i64)> = Vec::new();
        let n = self.messages.len();
        let mut i: usize = 0;
        proof {
            assert(msgs.take(0).len() == 0);
        }
        while i < n
            invariant
                msgs == self@.messages,
                n == msgs.len(),
                i <= n,
                latest_keys_unique(out@),
                latest_covers(out@, msgs.take(i as int)),
                latest_attained(out@, msgs.take(i as int)),
            decreases n - i,
        {
            let ghost prev = out@;
            proof {
                assert(latest_keys_unique(prev));
                assert(latest_covers(prev, msgs.take(i as int)));
                assert(latest_attained(prev, msgs.take(i as int)));
            }
            let chat = self.messages[i].chat_id.as_str();
            let ts = self.messages[i].timestamp;
            let m = out.len();
            let mut k: usize = 0;
            let mut found = false;
            while k < m && !found
                invariant
                    m == out@.len(),
                    out@ == prev,
                    k <= m,
                    !found ==> forall|a: int| 0 <= a < k ==> (#[trigger] out@[a]).0@ != chat@,
                    found ==> k < m && out@[k as int].0@ == chat@,
                    chat@ == msgs[i as int].chat_id,
                decreases m - k, (if found { 0int } else { 1int }),
            {
                if str_eq(out[k].0.as_str(), chat) {
                    found = true;
                } else {
                    k += 1;
                }
            }
            proof {
                if !found {
                    assert forall|a: int| 0 <= a < prev.len() implies (#[trigger] prev[a]).0@
                        != chat@ by {
                        assert(out@[a].0@ != chat@);
                    }
                } else {
                    assert(prev[k as int].0@ == chat@);
                }
            }
            let mut updated = false;
            if found {
                if out[k].1 < ts {
                    let key = out[k].0.clone();
                    out.remove(k);
                    out.insert(k, (key, ts));
                    updated = true;
                    proof {
                        let rebuilt = prev.remove(k as int).insert(k as int, out@[k as int]);
                        assert(out@ =~= rebuilt);
                        assert(out@[k as int].0@ == prev[k as int].0@);
                        assert(out@[k as int].1 == ts);
                        assert(prev[k as int].1 < ts);
                        assert forall|q: int|
                            0 <= q < out@.len() && q != k as int implies out@[q] == prev[q] by {
                            if q < k as int {
                                assert(rebuilt[q] == prev.remove(k as int)[q]);
                                assert(prev.remove(k as int)[q] == prev[q]);
                            } else {
                                assert(rebuilt[q] == prev.remove(k as int)[q - 1]);
                                assert(prev.remove(k as int)[q - 1] == prev[q]);
                            }
                        }
                    }
                }
            } else {
                out.push((self.messages[i].chat_id.clone(), ts));
            }
            proof {
                lemma_latest_step(
                    prev,
                    out@,
                    msgs.take(i as int),
                    msgs[i as int],
                    k as int,
                    found,
                    updated,
                );
                assert(msgs.take(i + 1) =~= msgs.take(i as int).push(msgs[i as int]));
            }
            i += 1;
        }
        proof {
            assert(msgs.take(n as int) =~= msgs);
        }
        out
    }
}

/// Filtering keeps envelope ids unique.
proof fn lemma_filter_unique_envelopes(es: Seq<EnvelopeV>, pred: spec_fn(EnvelopeV) -> bool)
    requires
        forall|i: int, j: int|
            0 <= i < j < es.len() ==> (#[trigger] es[i]).id != (#[trigger] es[j]).id,
    ensures
        forall|i: int, j: int|
            0 <= i < j < es.filter(pred).len() ==> (#[trigger] es.filter(pred)[i]).id != (
            #[trigger] es.filter(pred)[j]).id,
    decreases es.len(),
{
    reveal(Seq::filter);
    if es.len() > 0 {
        lemma_filter_unique_envelopes(es.drop_last(), pred);
        assert forall|i: int, j: int|
            0 <= i < j < es.filter(pred).len() implies (#[trigger] es.filter(pred)[i]).id != (
        #[trigger] es.filter(pred)[j]).id by {
            let fp = es.filter(pred);
            let dp = es.drop_last().filter(pred);
            if pred(es.last()) {
                assert(fp =~= dp.push(es.last()));
                if j < fp.len() - 1 {
                    assert(fp[i] == dp[i] && fp[j] == dp[j]);
                } else {
                    assert(fp[j] == es.last());
                    assert(fp[i] == dp[i]);
                    crate::object::lemma_filter_from_source(es.drop_last(), pred, i);
                }
            } else {
                assert(fp =~= dp);
            }
        }
    }
}

/// Filtering keeps assigned chats unique.
proof fn lemma_filter_unique_assignments(
    cs: Seq<ChatAssignmentV>,
    pred: spec_fn(ChatAssignmentV) -> bool,
)
    requires
        forall|i: int, j: int|
            0 <= i < j < cs.len() ==> (#[trigger] cs[i]).chat_id != (#[trigger] cs[j]).chat_id,
    ensures
        forall|i: int, j: int|
            0 <= i < j < cs.filter(pred).len() ==> (#[trigger] cs.filter(pred)[i]).chat_id != (
            #[trigger] cs.filter(pred)[j]).chat_id,
    decreases cs.len(),
{
    reveal(Seq::filter);
    if cs.len() > 0 {
        lemma_filter_unique_assignments(cs.drop_last(), pred);
        assert forall|i: int, j: int|
            0 <= i < j < cs.filter(pred).len() implies (#[trigger] cs.filter(pred)[i]).chat_id
            != (#[trigger] cs.filter(pred)[j]).chat_id by {
            let fp = cs.filter(pred);
            let dp = cs.drop_last().filter(pred);
            if pred(cs.last()) {
                assert(fp =~= dp.push(cs.last()));
                if j < fp.len() - 1 {
                    assert(fp[i] == dp[i] && fp[j] == dp[j]);
                } else {
                    assert(fp[j] == cs.last());
                    assert(fp[i] == dp[i]);
                    crate::object::lemma_filter_from_source(cs.drop_last(), pred, i);
                }
            } else {
                assert(fp =~= dp);
            }
        }
    }
}


} // verus!



