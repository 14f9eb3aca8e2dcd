use rchat::hks::{PublishedBlob, ShadowInvite, TrackedInvite, encode_blob, parse_blob};
use rchat::manager::{
    HandshakeEffect, HandshakeState, PunchTarget, UiCommand, add_punch_target,
    expire_punch_targets, parse_ui_command, requery_interval_secs,
};
use rchat::mdns::{multiaddr_for, needs_host_resolution, service_host_name, txt_items};
use rchat::rendezvous::{clean_expired_invitations, clean_expired_shadows, payload_to_addresses, upsert_shadow};
use rchat::stun::{StunAddress, StunResult, build_binding_request, parse_binding_response};
use rchat::message::{MessageContent, content_of_row, data_url, make_message_id, mime_for_extension};
use rchat::manager::{GossipEvent, connection_request_text, parse_gossip};

fn empty_blob() -> PublishedBlob {
    PublishedBlob {
        payload: "p".to_string(),
        payload_nonce: "n".to_string(),
        tree_links: vec![("n1".to_string(), "c1".to_string())],
        roster: vec![],
        signature: "s".to_string(),
        sender_x25519_pubkey: "k".to_string(),
        invitations: vec![],
        shadow_invites: vec![],
    }
}

fn invite_at(created_at: u64) -> TrackedInvite {
    TrackedInvite {
        salt: "s".to_string(),
        nonce: "n".to_string(),
        ciphertext: "c".to_string(),
        created_at,
    }
}

#[test]
fn test_invite_ttl_eviction() {
    let mut blob = empty_blob();
    blob.invitations = vec![invite_at(0), invite_at(881), invite_at(950), invite_at(1100)];
    clean_expired_invitations(&mut blob, 1000);
    // survivors are exactly those younger than two minutes at t = 1000
    assert_eq!(blob.invitations.len(), 3);
    for t in &blob.invitations {
        assert!(1000u64.saturating_sub(t.created_at) < 120);
    }
    assert_eq!(blob.invitations[0].created_at, 881);
}

#[test]
fn test_shadow_upsert_replaces_by_target() {
    let mut blob = empty_blob();
    let sh = |target: &str, at: u64| ShadowInvite {
        target_username: target.to_string(),
        salt: "s".to_string(),
        nonce: "n".to_string(),
        ciphertext: "c".to_string(),
        created_at: at,
    };
    upsert_shadow(&mut blob, sh("alice", 1));
    upsert_shadow(&mut blob, sh("bob", 2));
    upsert_shadow(&mut blob, sh("alice", 3));
    assert_eq!(blob.shadow_invites.len(), 2);
    assert_eq!(blob.shadow_invites[0].target_username, "bob");
    assert_eq!(blob.shadow_invites[1].target_username, "alice");
    assert_eq!(blob.shadow_invites[1].created_at, 3);

    clean_expired_shadows(&mut blob, 400);
    assert_eq!(blob.shadow_invites.len(), 0);
}

#[test]
fn test_blob_json_round_trip() {
    let mut blob = empty_blob();
    blob.roster = vec![rchat::hks::FriendEntry {
        name: "a \"quoted\" name".to_string(),
        x25519_pubkey: "pk".to_string(),
        encrypted_leaf_key: "elk".to_string(),
        nonce: "nn".to_string(),
        leaf_index: 4095,
    }];
    blob.invitations = vec![invite_at(7)];
    blob.shadow_invites = vec![ShadowInvite {
        target_username: "bob".to_string(),
        salt: "s2".to_string(),
        nonce: "n2".to_string(),
        ciphertext: "c2".to_string(),
        created_at: 9,
    }];
    let bytes = encode_blob(&blob);
    let parsed = parse_blob(&bytes).expect("the encoder's output parses");
    assert_eq!(parsed.payload, blob.payload);
    assert_eq!(parsed.tree_links, blob.tree_links);
    assert_eq!(parsed.roster[0].name, "a \"quoted\" name");
    assert_eq!(parsed.roster[0].leaf_index, 4095);
    assert_eq!(parsed.invitations[0].created_at, 7);
    assert_eq!(parsed.shadow_invites[0].target_username, "bob");
    // and the round trip is byte-exact
    assert_eq!(encode_blob(&parsed), bytes);
}

#[test]
fn test_mutual_handshake() {
    // node A asks for B first, then B's request arrives
    let mut a = HandshakeState::new();
    assert_eq!(a.request_connection("peer-b"), HandshakeEffect::Waiting);
    assert_eq!(a.incoming_request("peer-b"), HandshakeEffect::Completed);
    // no trace is left, so a repeat does not complete again
    assert_eq!(a.incoming_request("peer-b"), HandshakeEffect::RequestRecorded);

    // node B sees A's request before its user presses connect
    let mut b = HandshakeState::new();
    assert_eq!(b.incoming_request("peer-a"), HandshakeEffect::RequestRecorded);
    assert_eq!(b.request_connection("peer-a"), HandshakeEffect::Completed);
}

#[test]
fn test_punch_targets_expire() {
    let mut targets: Vec<PunchTarget> = Vec::new();
    add_punch_target(&mut targets, "alice", "/ip4/10.0.0.1/udp/1/quic-v1", 100);
    add_punch_target(&mut targets, "bob", "/ip4/10.0.0.2/udp/1/quic-v1", 80);
    expire_punch_targets(&mut targets, 115);
    assert_eq!(targets.len(), 1);
    assert_eq!(targets[0].name, "alice");
}

#[test]
fn test_requery_interval() {
    assert_eq!(requery_interval_secs(true), 5);
    assert_eq!(requery_interval_secs(false), 30);
}

#[test]
fn test_parse_dm_command_keeps_colons_in_content() {
    let cmd = parse_ui_command("DM:peer1:msg7:1700000000:Al:hello: world: with colons");
    match cmd {
        UiCommand::DirectMessage { peer_id, msg_id, timestamp, alias, content } => {
            assert_eq!(peer_id, "peer1");
            assert_eq!(msg_id, "msg7");
            assert_eq!(timestamp, "1700000000");
            assert_eq!(alias, "Al");
            assert_eq!(content, "hello: world: with colons");
        },
        _ => panic!("expected a direct message"),
    }
}

#[test]
fn test_parse_other_commands() {
    match parse_ui_command("REQUEST_CONNECTION:12D3KooW") {
        UiCommand::RequestConnection { peer_id } => assert_eq!(peer_id, "12D3KooW"),
        _ => panic!("expected a connection request"),
    }
    match parse_ui_command("READ_RECEIPT:peer1:m1,m2,m3") {
        UiCommand::ReadReceipt { peer_id, ids } => {
            assert_eq!(peer_id, "peer1");
            assert_eq!(ids, "m1,m2,m3");
        },
        _ => panic!("expected a read receipt"),
    }
    match parse_ui_command("just some chat text") {
        UiCommand::Broadcast => {},
        _ => panic!("expected presence traffic"),
    }
    match parse_ui_command("__IMAGE_MSG__:abcd:peer9") {
        UiCommand::ImageMessage { file_hash, peer } => {
            assert_eq!(file_hash, "abcd");
            assert_eq!(peer, "peer9");
        },
        _ => panic!("expected an image pointer"),
    }
}

#[test]
fn test_stun_request_and_response() {
    let txid = [9u8; 12];
    let req = build_binding_request(&txid);
    assert_eq!(req.len(), 20);
    assert_eq!(&req[4..8], &[0x21, 0x12, 0xa4, 0x42]);

    // a binding response with one XOR-MAPPED-ADDRESS (IPv4)
    let mut resp = vec![0x01u8, 0x01, 0x00, 0x0c];
    resp.extend_from_slice(&[0x21, 0x12, 0xa4, 0x42]);
    resp.extend_from_slice(&txid);
    resp.extend_from_slice(&[0x00, 0x20, 0x00, 0x08]); // attr header
    // family v4, port 40001 ^ 0x2112, ip 203.0.113.5 ^ cookie
    let port = 40001u16 ^ 0x2112;
    resp.extend_from_slice(&[0x00, 0x01, (port >> 8) as u8, (port & 0xff) as u8]);
    resp.extend_from_slice(&[203 ^ 0x21, 0 ^ 0x12, 113 ^ 0xa4, 5 ^ 0x42]);
    let len = resp.len();
    match parse_binding_response(&resp, len) {
        Some(StunAddress::V4 { ip, port }) => {
            assert_eq!(ip, [203, 0, 113, 5]);
            assert_eq!(port, 40001);
        },
        _ => panic!("expected an IPv4 mapping"),
    }

    let r = StunResult {
        ipv6: None,
        ipv4: Some(StunAddress::V4 { ip: [1, 2, 3, 4], port: 1 }),
    };
    assert!(matches!(r.best(), Some(StunAddress::V4 { .. })));
}

#[test]
fn test_mdns_helpers() {
    assert_eq!(multiaddr_for("192.168.1.7", 4001), "/ip4/192.168.1.7/tcp/4001");
    assert_eq!(service_host_name("9starts-with-digit", "12D3KooWabcdefgh"), "rchat-12D3KooWabcd");
    assert_eq!(service_host_name("mybox", "12D3KooW"), "mybox");
    assert!(needs_host_resolution("0.0.0.0"));
    assert!(!needs_host_resolution("10.0.0.1"));
    let txt = txt_items("peer-1", Some("Ana"));
    assert_eq!(txt.len(), 4);
    assert_eq!(txt[0], ("peer_id".to_string(), "peer-1".to_string()));
    assert_eq!(txt[3], ("alias".to_string(), "Ana".to_string()));
}

#[test]
fn test_parse_id_list() {
    let ids = rchat::rendezvous::parse_id_list(" m1, m2 ,,m3 ");
    assert_eq!(ids, vec!["m1".to_string(), "m2".to_string(), "m3".to_string()]);
}

#[test]
fn test_payload_to_addresses() {
    let addrs = payload_to_addresses("/ip4/1.2.3.4/tcp/1\n\n  /ip4/5.6.7.8/tcp/2  \n");
    assert_eq!(addrs, vec!["/ip4/1.2.3.4/tcp/1".to_string(), "/ip4/5.6.7.8/tcp/2".to_string()]);
}

#[test]
fn test_theme_and_oauth_helpers() {
    let tm = rchat::theme::ThemeManager::new();
    assert_eq!(tm.list_presets().len(), 10);
    assert_eq!(tm.hex_to_rgb("#14b8a6"), (0x14, 0xb8, 0xa6));
    assert_eq!(tm.hex_to_rgb("zzz"), (0, 0, 0));

    let t = rchat::oauth::TokenResponse {
        access_token: Some("tok".to_string()),
        error: None,
        error_description: None,
    };
    assert_eq!(rchat::oauth::token_from_response(t), Some("tok".to_string()));
    let t2 = rchat::oauth::TokenResponse {
        access_token: Some("tok".to_string()),
        error: Some("authorization_pending".to_string()),
        error_description: None,
    };
    assert_eq!(rchat::oauth::token_from_response(t2), None);
}

#[test]
fn test_message_content_row_projection() {
    let c = content_of_row("image", Some("cap".to_string()), Some("hash".to_string()));
    assert!(matches!(c, MessageContent::Photo { .. }));
    assert_eq!(c.type_label(), "image");
    let t = content_of_row("text", Some("hi".to_string()), None);
    assert_eq!(t.type_label(), "text");
}

#[test]
fn test_gossip_classification() {
    match parse_gossip("__CONNECTION_REQUEST__:12D3KooWxyz") {
        GossipEvent::ConnectionRequest { peer_id } => assert_eq!(peer_id, "12D3KooWxyz"),
        _ => panic!("expected a connection request"),
    }
    match parse_gossip("__IMAGE_MSG__:deadbeef:peer3") {
        GossipEvent::ImagePointer { file_hash, from_peer } => {
            assert_eq!(file_hash, "deadbeef");
            assert_eq!(from_peer, "peer3");
        },
        _ => panic!("expected an image pointer"),
    }
    assert!(matches!(parse_gossip("good morning"), GossipEvent::Chat));
    assert_eq!(connection_request_text("me-1"), "__CONNECTION_REQUEST__:me-1");
}

#[test]
fn test_media_helpers() {
    assert_eq!(make_message_id(1700000000, 42), "1700000000-42");
    assert_eq!(mime_for_extension("jpg"), "image/jpeg");
    assert_eq!(mime_for_extension("jpeg"), "image/jpeg");
    assert_eq!(mime_for_extension("gif"), "image/gif");
    assert_eq!(mime_for_extension("webp"), "image/webp");
    assert_eq!(mime_for_extension("bin"), "image/png");
    assert_eq!(data_url("image/png", "QUJD"), "data:image/png;base64,QUJD");
}

#[test]
fn test_stun_response_without_mapping_is_none() {
    let txid = [7u8; 12];
    // not a binding response at all
    let mut wrong_type = vec![0x00u8, 0x01, 0x00, 0x00];
    wrong_type.extend_from_slice(&[0x21, 0x12, 0xa4, 0x42]);
    wrong_type.extend_from_slice(&txid);
    let len = wrong_type.len();
    assert!(parse_binding_response(&wrong_type, len).is_none());

    // a binding response whose only attribute is not a mapped address
    let mut resp = vec![0x01u8, 0x01, 0x00, 0x08];
    resp.extend_from_slice(&[0x21, 0x12, 0xa4, 0x42]);
    resp.extend_from_slice(&txid);
    resp.extend_from_slice(&[0x80, 0x28, 0x00, 0x04]); // FINGERPRINT
    resp.extend_from_slice(&[0xde, 0xad, 0xbe, 0xef]);
    let len = resp.len();
    assert!(parse_binding_response(&resp, len).is_none());

    // too short for a header
    assert!(parse_binding_response(&resp, 10).is_none());
}
