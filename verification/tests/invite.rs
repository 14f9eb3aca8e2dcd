use rchat::invite::{generate_invite, harvest_key, process_invites};

#[test]
fn test_harvest_key_determinism() {
    let key1 = harvest_key("12345678901234", "Alice", "Bob").unwrap();
    let key2 = harvest_key("12345678901234", "Alice", "Bob").unwrap();
    assert_eq!(key1.as_str(), key2.as_str());
}

#[test]
fn test_harvest_key_length() {
    let key = harvest_key("12345678901234", "Alice", "Bob").unwrap();
    assert_eq!(key.as_str().len(), 18);
}

#[test]
fn test_harvest_key_different_users() {
    let key1 = harvest_key("12345678901234", "Alice", "Bob").unwrap();
    let key2 = harvest_key("12345678901234", "Charlie", "Bob").unwrap();
    assert_ne!(key1.as_str(), key2.as_str());
}

#[test]
fn test_harvest_key_case_insensitive() {
    let key1 = harvest_key("12345678901234", "Alice", "Bob").unwrap();
    let key2 = harvest_key("12345678901234", "ALICE", "BOB").unwrap();
    assert_eq!(key1.as_str(), key2.as_str());
}

#[test]
fn test_harvest_key_trims_names() {
    let key1 = harvest_key("12345678901234", "Alice", "Bob").unwrap();
    let key2 = harvest_key("12345678901234", "  Alice ", " Bob  ").unwrap();
    assert_eq!(key1.as_str(), key2.as_str());
}

#[test]
fn test_harvest_key_rejects_short_password() {
    assert!(harvest_key("short", "Alice", "Bob").is_err());
    assert!(harvest_key("123456789012345", "Alice", "Bob").is_err());
}

#[test]
fn test_harvest_key_interleaves_password() {
    // the four chunks of the passphrase reappear verbatim at their slots
    let key = harvest_key("12345678901234", "Alice", "Bob").unwrap();
    let s = key.as_str();
    assert_eq!(&s[0..4], "1234");
    assert_eq!(&s[5..8], "567");
    assert_eq!(&s[9..13], "8901");
    assert_eq!(&s[14..17], "234");
}

#[test]
fn test_encrypt_decrypt_roundtrip() {
    let password = "12345678901234";
    let inviter = "Alice";
    let invitee = "Bob";

    let invite = generate_invite(password, inviter, invitee, "192.168.1.100", 3600).unwrap();

    let invites = vec![invite];
    let result = process_invites(&invites, password, inviter, invitee).unwrap();

    assert!(result.is_some());
    let (payload, _) = result.unwrap();
    assert_eq!(payload.ip_address, "192.168.1.100");
}

#[test]
fn test_wrong_password_fails() {
    let invite =
        generate_invite("12345678901234", "Alice", "Bob", "192.168.1.100", 3600).unwrap();

    let invites = vec![invite];
    let result = process_invites(&invites, "wrongpassword1", "Alice", "Bob").unwrap();

    // Wrong password means key derivation produces different key, decrypt fails
    assert!(result.is_none());
}

#[test]
fn test_wrong_username_fails() {
    let invite =
        generate_invite("12345678901234", "Alice", "Bob", "192.168.1.100", 3600).unwrap();

    let invites = vec![invite];
    let result = process_invites(&invites, "12345678901234", "Alice", "Charlie").unwrap();

    // Should return None (no matching invite found)
    assert!(result.is_none());
}

#[test]
fn test_invite_accept_multiaddr() {
    // Alice invites Bob with a full multiaddress; Bob finds it
    let invite = generate_invite(
        "12345678901234",
        "Alice",
        "Bob",
        "/ip4/203.0.113.5/udp/40001/quic-v1",
        3600,
    )
    .unwrap();
    let invites = vec![invite];
    let result = process_invites(&invites, "12345678901234", "Alice", "Bob").unwrap();
    let (payload, idx) = result.unwrap();
    assert_eq!(idx, 0);
    assert_eq!(payload.ip_address, "/ip4/203.0.113.5/udp/40001/quic-v1");
    assert_eq!(payload.target_username, "bob");
}

#[test]
fn test_expired_invite_is_skipped() {
    // a zero ttl expires immediately
    let invite =
        generate_invite("12345678901234", "Alice", "Bob", "192.168.1.100", 0).unwrap();
    let invites = vec![invite];
    let result = process_invites(&invites, "12345678901234", "Alice", "Bob").unwrap();
    assert!(result.is_none());
}

#[test]
fn test_second_invite_found_by_index() {
    let wrong = generate_invite("12345678901234", "Alice", "Dora", "10.0.0.1", 3600).unwrap();
    let right = generate_invite("12345678901234", "Alice", "Bob", "10.0.0.2", 3600).unwrap();
    let invites = vec![wrong, right];
    let (payload, idx) =
        process_invites(&invites, "12345678901234", "Alice", "Bob").unwrap().unwrap();
    assert_eq!(idx, 1);
    assert_eq!(payload.ip_address, "10.0.0.2");
}
