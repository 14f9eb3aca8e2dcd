//! The direct-message protocol: its request and response shapes and the
//! responder's persistence step for an incoming message. The transport
//! that carries the frames lives outside the crate.

use vstd::prelude::*;
use crate::store::{Message, MessageStatus, MessageV, Store, StoreV, opt_view, status_advance};
use crate::errors::StoreError;

verus! {

/// A direct-message request, CBOR-framed on the wire.
#[derive(Debug, Clone)]
pub struct DirectMessageRequest {
    /// Unique message id.
    pub id: String,
    /// The sender's peer id.
    pub sender_id: String,
    /// `text`, a media kind, `read_receipt`, a chunk-transfer kind, or
    /// `invite_handshake`.
    pub msg_type: String,
    pub text_content: Option<String>,
    pub file_hash: Option<String>,
    /// Unix seconds.
    pub timestamp: i64,
    pub chunk_hash: Option<String>,
    /// Base64 chunk bytes during a transfer.
    pub chunk_data: Option<String>,
    /// `(order, chunk_hash, size)` rows of a file under transfer.
    pub chunk_list: Option<Vec<(u64, String, u64)>>,
    pub sender_alias: Option<String>,
}

/// The acknowledgement sent back for a request.
#[derive(Debug, Clone)]
pub struct DirectMessageResponse {
    pub msg_id: String,
    /// `delivered` or `error`.
    pub status: String,
    pub error: Option<String>,
}

impl DirectMessageResponse {
    /// The plain delivery acknowledgement for a request id.
    pub fn delivered(msg_id: &str) -> (r: DirectMessageResponse)
        ensures
            r.msg_id@ == msg_id@,
            r.status@ == "delivered"@,
            r.error is None,
    {
        proof {
            reveal_strlit("delivered");
        }
        DirectMessageResponse {
            msg_id: msg_id.to_owned(),
            status: "delivered".to_owned(),
            error: None,
        }
    }
}

/// The row an incoming request persists as.
pub open spec fn row_of_request(req: DirectMessageRequest) -> MessageV {
    MessageV {
        id: req.id@,
        chat_id: req.sender_id@,
        peer_id: req.sender_id@,
        timestamp: req.timestamp as int,
        content_type: req.msg_type@,
        text_content: opt_view(req.text_content),
        file_hash: opt_view(req.file_hash),
        status: MessageStatus::Delivered,
        content_metadata: None::<Seq<char>>,
        sender_alias: opt_view(req.sender_alias),
    }
}

/// Persist an incoming text or media message. The sender's peer row and
/// 1:1 chat are created on first contact, a media message gets a
/// placeholder file row, and the message lands with status `delivered`
/// (received means delivered). A replayed id adds no second row but is
/// still acknowledged, so delivery is idempotent. Only those four
/// tables move.
pub fn receive_message(store: &mut Store, req: &DirectMessageRequest) -> (r:
    DirectMessageResponse)
    requires
        old(store)@.wf(),
    ensures
        final(store)@.wf(),
        r.msg_id@ == req.id@,
        r.status@ == "delivered"@,
        r.error is None,
        final(store)@.has_peer(req.sender_id@),
        final(store)@.has_chat(req.sender_id@),
        (req.file_hash matches Some(h) ==> final(store)@.has_file(h@)),
        final(store)@ == (StoreV {
            peers: final(store)@.peers,
            chats: final(store)@.chats,
            files: final(store)@.files,
            messages: final(store)@.messages,
            ..old(store)@
        }),
        !old(store)@.has_message(req.id@) ==> final(store)@.messages == old(store)@.messages.push(
            row_of_request(*req),
        ),
        old(store)@.has_message(req.id@) ==> final(store)@.messages == old(store)@.messages,
{
    if !store.is_peer(req.sender_id.as_str()) {
        store.add_peer(req.sender_id.as_str(), None, None, "direct", req.timestamp);
    }
    let ghost s1 = store@;
    proof {
        assert(s1.has_peer(req.sender_id@));
    }
    if !store.chat_exists(req.sender_id.as_str()) {
        let created = store.create_chat(req.sender_id.as_str(), req.sender_id.as_str(), false);
        proof {
            assert(created is Ok);
        }
    }
    let ghost s2 = store@;
    proof {
        crate::store::lemma_has_peer_carry(s1, s2, req.sender_id@);
        assert(s2.has_chat(req.sender_id@)) by {
            if s1.has_chat(req.sender_id@) {
                crate::store::lemma_has_chat_carry(s1, s2, req.sender_id@);
            } else {
                assert(s2.chats.last().id == req.sender_id@);
            }
        }
    }
    match &req.file_hash {
        Some(h) => {
            store.ensure_placeholder_file(h.as_str(), req.text_content.as_ref().map(|t| t.as_str()));
        },
        None => {},
    }
    let ghost s3 = store@;
    proof {
        crate::store::lemma_has_peer_carry(s2, s3, req.sender_id@);
        crate::store::lemma_has_chat_carry(s2, s3, req.sender_id@);
        crate::store::lemma_has_message_carry(old(store)@, s3, req.id@);
    }
    let msg = Message {
        id: req.id.clone(),
        chat_id: req.sender_id.clone(),
        peer_id: req.sender_id.clone(),
        timestamp: req.timestamp,
        content_type: req.msg_type.clone(),
        text_content: crate::config::clone_opt(&req.text_content),
        file_hash: crate::config::clone_opt(&req.file_hash),
        status: MessageStatus::Delivered,
        content_metadata: None,
        sender_alias: crate::config::clone_opt(&req.sender_alias),
    };
    proof {
        assert(msg@ == row_of_request(*req));
    }
    let inserted = store.insert_message(msg);
    proof {
        if !old(store)@.has_message(req.id@) {
            assert(inserted is Ok);
        }
        crate::store::lemma_has_peer_carry(s3, final(store)@, req.sender_id@);
        crate::store::lemma_has_chat_carry(s3, final(store)@, req.sender_id@);
        if req.file_hash is Some {
            crate::store::lemma_has_file_carry(s3, final(store)@, req.file_hash->Some_0@);
        }
    }
    DirectMessageResponse::delivered(req.id.as_str())
}

/// Apply a delivery acknowledgement to the outbound message it names:
/// the stored status moves forward to `delivered` and never backwards,
/// and nothing else changes. An unknown id changes nothing at all.
pub fn apply_delivery_ack(store: &mut Store, msg_id: &str)
    requires
        old(store)@.wf(),
    ensures
        final(store)@.wf(),
        !old(store)@.has_message(msg_id@) ==> final(store)@ == old(store)@,
        old(store)@.has_message(msg_id@) ==> exists|i: int|
            {
                &&& 0 <= i < old(store)@.messages.len()
                &&& (#[trigger] old(store)@.messages[i]).id == msg_id@
                &&& final(store)@ == (StoreV {
                    messages: old(store)@.messages.update(
                        i,
                        MessageV {
                            status: status_advance(
                                old(store)@.messages[i].status,
                                MessageStatus::Delivered,
                            ),
                            ..old(store)@.messages[i]
                        },
                    ),
                    ..old(store)@
                })
            },
{
    let r = store.update_message_status(msg_id, MessageStatus::Delivered);
    proof {
        if old(store)@.has_message(msg_id@) {
            assert(r is Ok);
        }
    }
}

} // verus!
