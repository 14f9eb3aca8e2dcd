use rchat::object::{chunk_spans, create, delete, ingest_chunk, load, register_incoming_file};
use rchat::crypto::sha256_hex;
use rchat::store::{Message, MessageStatus, Store};

fn plain_text_message(id: &str, chat: &str, peer: &str, ts: i64, status: MessageStatus) -> Message {
    Message {
        id: id.to_string(),
        chat_id: chat.to_string(),
        peer_id: peer.to_string(),
        timestamp: ts,
        content_type: "text".to_string(),
        text_content: Some("hi".to_string()),
        file_hash: None,
        status,
        content_metadata: None,
        sender_alias: None,
    }
}

#[test]
fn test_create_and_load() {
    let mut store = Store::new();

    // Create test data (larger than chunk size to ensure multiple chunks)
    let test_data: Vec<u8> = (0..100_000).map(|i| (i % 256) as u8).collect();

    let file_hash = create(
        &mut store,
        &test_data,
        Some("test.bin"),
        Some("application/octet-stream"),
    );

    let loaded_data = load(&store, &file_hash).expect("Failed to load object");

    assert_eq!(test_data, loaded_data);
}

#[test]
fn test_deduplication() {
    let mut store = Store::new();

    let test_data = b"Hello, World! This is a test file.".to_vec();

    let hash1 = create(&mut store, &test_data, Some("file1.txt"), None);
    let blobs_after_first = store.chunk_blobs.len();
    let hash2 = create(&mut store, &test_data, Some("file2.txt"), None);

    // Hashes should be identical
    assert_eq!(hash1, hash2);

    // Only one file record should exist
    assert_eq!(store.files.len(), 1);
    // and re-creation wrote no new chunk blobs
    assert_eq!(store.chunk_blobs.len(), blobs_after_first);
}

#[test]
fn test_delete() {
    let mut store = Store::new();

    let test_data = b"Data to be deleted".to_vec();

    let file_hash = create(&mut store, &test_data, None, None);

    // Verify exists
    assert!(load(&store, &file_hash).is_ok());

    // Delete
    delete(&mut store, &file_hash).unwrap();

    // Verify load fails
    assert!(load(&store, &file_hash).is_err());
}

#[test]
fn test_delete_nonexistent() {
    let mut store = Store::new();

    // Deleting non-existent file should error
    assert!(delete(&mut store, "nonexistent_hash").is_err());
}

#[test]
fn test_delete_keeps_chunk_blobs() {
    let mut store = Store::new();
    let data = b"chunks outlive their file".to_vec();
    let file_hash = create(&mut store, &data, None, None);
    let blobs = store.chunk_blobs.len();
    delete(&mut store, &file_hash).unwrap();
    assert_eq!(store.chunk_blobs.len(), blobs);
}

#[test]
fn test_monotonic_status() {
    let mut store = Store::new();
    store
        .insert_message(plain_text_message("m1", "self", "Me", 10, MessageStatus::Pending))
        .unwrap();
    store.update_message_status("m1", MessageStatus::Pending).unwrap();
    store.update_message_status("m1", MessageStatus::Delivered).unwrap();
    store.update_message_status("m1", MessageStatus::Read).unwrap();
    // a late delivery never regresses a read message
    store.update_message_status("m1", MessageStatus::Delivered).unwrap();
    assert_eq!(store.messages[0].status, MessageStatus::Read);
}

#[test]
fn test_mark_messages_read() {
    let mut store = Store::new();
    store.add_peer("alice", None, None, "local", 1);
    store.add_peer("bob", None, None, "local", 1);
    store.create_chat("alice", "alice", false).unwrap();
    store.create_chat("bob", "bob", false).unwrap();
    store
        .insert_message(plain_text_message("a1", "alice", "alice", 1, MessageStatus::Delivered))
        .unwrap();
    store
        .insert_message(plain_text_message("a2", "alice", "alice", 2, MessageStatus::Read))
        .unwrap();
    store
        .insert_message(plain_text_message("a3", "alice", "Me", 3, MessageStatus::Delivered))
        .unwrap();
    store
        .insert_message(plain_text_message("b1", "bob", "bob", 4, MessageStatus::Delivered))
        .unwrap();

    let ids = store.mark_messages_read("alice", "alice");
    // exactly the not-yet-read messages from that sender in that chat
    assert_eq!(ids, vec!["a1".to_string()]);
    assert_eq!(store.messages[0].status, MessageStatus::Read);
    assert_eq!(store.messages[1].status, MessageStatus::Read);
    // the local echo and the other chat are untouched
    assert_eq!(store.messages[2].status, MessageStatus::Delivered);
    assert_eq!(store.messages[3].status, MessageStatus::Delivered);

    assert_eq!(store.unread_count("alice"), 0);
    assert_eq!(store.unread_count("bob"), 1);
}

#[test]
fn test_file_transfer_fan_in() {
    // a simulated transfer: the receiver knows the chunk list, then the
    // chunk bytes arrive in arbitrary order
    let mut data = Vec::with_capacity(200_000);
    let mut x: u64 = 0x2545f491_4f6cdd1d;
    for _ in 0..200_000 {
        x ^= x << 13;
        x ^= x >> 7;
        x ^= x << 17;
        data.push((x & 0xff) as u8);
    }
    let spans = chunk_spans(&data);
    assert!(spans.len() > 1);
    let file_hash = sha256_hex(&data);

    let mut store = Store::new();
    let chunk_list: Vec<(u64, String, u64)> = spans
        .iter()
        .enumerate()
        .map(|(k, (off, len))| (k as u64, sha256_hex(&data[*off..*off + *len]), *len as u64))
        .collect();
    register_incoming_file(
        &mut store,
        &file_hash,
        "incoming.bin",
        "application/octet-stream",
        data.len() as i64,
        &chunk_list,
    )
    .unwrap();

    // deliver the chunks in reverse order; completion fires exactly once
    let mut completions = 0;
    for (off, len) in spans.iter().rev() {
        let bytes = &data[*off..*off + *len];
        let h = sha256_hex(bytes);
        if ingest_chunk(&mut store, &file_hash, &h, bytes).unwrap() {
            completions += 1;
        }
    }
    assert_eq!(completions, 1);
    assert!(store.files[0].is_complete);

    // a repeated delivery reports no second completion
    let (off, len) = spans[0];
    let h = sha256_hex(&data[off..off + len]);
    assert_eq!(ingest_chunk(&mut store, &file_hash, &h, &data[off..off + len]).unwrap(), false);

    // and the reassembled bytes match
    assert_eq!(load(&store, &file_hash).unwrap(), data);
}

#[test]
fn test_ingest_rejects_wrong_hash() {
    let mut store = Store::new();
    let err = ingest_chunk(&mut store, "f", "not-the-hash", b"bytes").unwrap_err();
    assert_eq!(err, rchat::errors::StoreError::HashMismatch);
}

#[test]
fn test_store_seeds_self_chat() {
    let store = Store::new();
    assert!(store.is_peer("Me"));
    assert!(store.chat_exists("self"));
    assert!(!store.is_peer("nobody"));
}

#[test]
fn test_add_peer_upserts() {
    let mut store = Store::new();
    store.add_peer("p1", Some("Pat"), None, "local", 100);
    assert!(store.is_peer("p1"));
    store.add_peer("p1", Some("Patricia"), None, "gist", 200);
    // still one row, refreshed in place
    assert_eq!(store.peers.len(), 2);
    let p = store.peers.iter().find(|p| p.id == "p1").unwrap();
    assert_eq!(p.alias, "Patricia");
    assert_eq!(p.last_seen, 200);
    // the method of the first sighting is kept
    assert_eq!(p.method, "local");
}

#[test]
fn test_envelopes_and_assignments() {
    let mut store = Store::new();
    store.create_envelope("e1", "Work", None).unwrap();
    assert!(store.create_envelope("e1", "Again", None).is_err());
    store.update_envelope("e1", "Workplace", Some("folder")).unwrap();
    store.create_chat("alice", "alice", false).unwrap();
    store.assign_chat_to_envelope("alice", Some("e1"));
    assert_eq!(store.chat_assignments.len(), 1);
    // moving back to the root drops the assignment
    store.assign_chat_to_envelope("alice", None);
    assert_eq!(store.chat_assignments.len(), 0);
    store.assign_chat_to_envelope("alice", Some("e1"));
    store.delete_envelope("e1").unwrap();
    assert_eq!(store.envelopes.len(), 0);
    // the cascade removed the assignment too
    assert_eq!(store.chat_assignments.len(), 0);
}

#[test]
fn test_get_messages_filters_by_chat() {
    let mut store = Store::new();
    store.add_peer("alice", None, None, "local", 1);
    store.add_peer("bob", None, None, "local", 1);
    store.create_chat("alice", "alice", false).unwrap();
    store.create_chat("bob", "bob", false).unwrap();
    store
        .insert_message(plain_text_message("a1", "alice", "alice", 1, MessageStatus::Delivered))
        .unwrap();
    store
        .insert_message(plain_text_message("b1", "bob", "bob", 2, MessageStatus::Delivered))
        .unwrap();
    let msgs = store.get_messages("alice");
    assert_eq!(msgs.len(), 1);
    assert_eq!(msgs[0].id, "a1");
}

#[test]
fn test_receive_message_is_idempotent() {
    let mut store = Store::new();
    let req = rchat::dm::DirectMessageRequest {
        id: "m-1".to_string(),
        sender_id: "peer-a".to_string(),
        msg_type: "text".to_string(),
        text_content: Some("hello".to_string()),
        file_hash: None,
        timestamp: 42,
        chunk_hash: None,
        chunk_data: None,
        chunk_list: None,
        sender_alias: None,
    };
    let r1 = rchat::dm::receive_message(&mut store, &req);
    assert_eq!(r1.status, "delivered");
    assert_eq!(r1.msg_id, "m-1");
    let r2 = rchat::dm::receive_message(&mut store, &req);
    assert_eq!(r2.status, "delivered");
    assert_eq!(store.messages.len(), 1);
    assert_eq!(store.messages[0].status, MessageStatus::Delivered);
}

#[test]
fn test_insert_message_enforces_references() {
    let mut store = Store::new();
    // no such chat or peer: the foreign keys reject the row
    let err = store
        .insert_message(plain_text_message("x1", "ghost-chat", "ghost-peer", 1, MessageStatus::Pending))
        .unwrap_err();
    assert_eq!(err, rchat::errors::StoreError::ForeignKey);
    assert_eq!(store.messages.len(), 0);

    // a media message needs its file row too
    store.add_peer("alice", None, None, "local", 1);
    store.create_chat("alice", "alice", false).unwrap();
    let mut media = plain_text_message("x2", "alice", "alice", 2, MessageStatus::Pending);
    media.content_type = "image".to_string();
    media.file_hash = Some("absent".to_string());
    let err = store.insert_message(media.clone()).unwrap_err();
    assert_eq!(err, rchat::errors::StoreError::ForeignKey);
    store.ensure_placeholder_file("absent", None);
    store.insert_message(media).unwrap();
    assert_eq!(store.messages.len(), 1);
}

#[test]
fn test_delete_guards_references() {
    let mut store = Store::new();
    store.add_peer("alice", None, None, "local", 1);
    store.create_chat("alice", "alice", false).unwrap();
    store
        .insert_message(plain_text_message("m1", "alice", "alice", 1, MessageStatus::Delivered))
        .unwrap();
    // the sender of a stored message cannot be removed
    let err = store.delete_peer("alice").unwrap_err();
    assert_eq!(err, rchat::errors::StoreError::ForeignKey);

    // nor can the file a media message points at
    let file_hash = create(&mut store, b"referenced bytes", None, None);
    let mut media = plain_text_message("m2", "alice", "alice", 2, MessageStatus::Delivered);
    media.content_type = "image".to_string();
    media.file_hash = Some(file_hash.clone());
    store.insert_message(media).unwrap();
    let err = delete(&mut store, &file_hash).unwrap_err();
    assert_eq!(err, rchat::errors::StoreError::ForeignKey);
}

#[test]
fn test_get_messages_sorted_by_timestamp_then_id() {
    let mut store = Store::new();
    store.add_peer("alice", None, None, "local", 1);
    store.create_chat("alice", "alice", false).unwrap();
    store
        .insert_message(plain_text_message("z-late", "alice", "alice", 30, MessageStatus::Delivered))
        .unwrap();
    store
        .insert_message(plain_text_message("b-tie", "alice", "alice", 10, MessageStatus::Delivered))
        .unwrap();
    store
        .insert_message(plain_text_message("a-tie", "alice", "alice", 10, MessageStatus::Delivered))
        .unwrap();
    let msgs = store.get_messages("alice");
    let ids: Vec<&str> = msgs.iter().map(|m| m.id.as_str()).collect();
    assert_eq!(ids, vec!["a-tie", "b-tie", "z-late"]);
}

#[test]
fn test_get_all_peers_most_recent_first() {
    let mut store = Store::new();
    store.add_peer("old", None, None, "local", 5);
    store.add_peer("new", None, None, "local", 50);
    store.add_peer("mid", None, None, "local", 20);
    let peers = store.get_all_peers();
    let ids: Vec<&str> = peers.iter().map(|p| p.id.as_str()).collect();
    // the seeded local account has never been seen
    assert_eq!(ids, vec!["new", "mid", "old", "Me"]);
}

#[test]
fn test_get_chat_latest_times() {
    let mut store = Store::new();
    store.add_peer("alice", None, None, "local", 1);
    store.add_peer("bob", None, None, "local", 1);
    store.create_chat("alice", "alice", false).unwrap();
    store.create_chat("bob", "bob", false).unwrap();
    store
        .insert_message(plain_text_message("a1", "alice", "alice", 10, MessageStatus::Delivered))
        .unwrap();
    store
        .insert_message(plain_text_message("a2", "alice", "alice", 25, MessageStatus::Delivered))
        .unwrap();
    store
        .insert_message(plain_text_message("b1", "bob", "bob", 7, MessageStatus::Delivered))
        .unwrap();
    let mut times = store.get_chat_latest_times();
    times.sort();
    assert_eq!(times, vec![("alice".to_string(), 25), ("bob".to_string(), 7)]);
}
