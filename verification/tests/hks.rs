use rchat::crypto::{ed_public_key, x_public_key};
use rchat::encoding::{b64_decode, b64_encode};
use rchat::errors::HksError;
use rchat::hks::HksTree;

fn owner_with_friends(friends: &[&[u8; 32]]) -> (HksTree, Vec<u8>, Vec<u8>) {
    let (signing_key, encryption_secret) = HksTree::generate_identity();
    let mut tree = HksTree::new();
    for (i, friend_secret) in friends.iter().enumerate() {
        let friend_public = x_public_key(&friend_secret[..]);
        let friend_public_b64 = b64_encode(&friend_public);
        let name = format!("friend-{}", i);
        tree.add_friend(&name, &friend_public_b64, &encryption_secret).unwrap();
    }
    (tree, signing_key, encryption_secret)
}

#[test]
fn test_hks_two_friend_decryption() {
    let f1_secret = [7u8; 32];
    let f2_secret = [9u8; 32];
    let (tree, signing_key, encryption_secret) = owner_with_friends(&[&f1_secret, &f2_secret]);
    let owner_enc_pub = x_public_key(&encryption_secret);
    let owner_vk = ed_public_key(&signing_key);

    let payload = "/ip4/203.0.113.5/tcp/4001";
    let blob_b64 = tree.export(payload, &signing_key, &owner_enc_pub).unwrap();

    let f1_pub_b64 = b64_encode(&x_public_key(&f1_secret[..]));
    let got1 = HksTree::import(&blob_b64, &f1_pub_b64, &f1_secret[..], &owner_vk).unwrap();
    assert_eq!(got1, payload.as_bytes());

    let f2_pub_b64 = b64_encode(&x_public_key(&f2_secret[..]));
    let got2 = HksTree::import(&blob_b64, &f2_pub_b64, &f2_secret[..], &owner_vk).unwrap();
    assert_eq!(got2, payload.as_bytes());

    // a third party with no roster entry is turned away
    let outsider_secret = [11u8; 32];
    let outsider_pub_b64 = b64_encode(&x_public_key(&outsider_secret[..]));
    let err = HksTree::import(&blob_b64, &outsider_pub_b64, &outsider_secret[..], &owner_vk)
        .unwrap_err();
    assert_eq!(err, HksError::NotInRoster);
}

#[test]
fn test_hks_tampered_signature_rejected() {
    let f_secret = [5u8; 32];
    let (tree, signing_key, encryption_secret) = owner_with_friends(&[&f_secret]);
    let owner_enc_pub = x_public_key(&encryption_secret);
    let owner_vk = ed_public_key(&signing_key);
    let blob_b64 = tree.export("payload-bytes", &signing_key, &owner_enc_pub).unwrap();

    // flip one byte inside the compressed blob: either the stream breaks
    // or the signature no longer verifies
    let mut raw = b64_decode(&blob_b64).unwrap();
    let mid = raw.len() / 2;
    raw[mid] ^= 0x01;
    let tampered = b64_encode(&raw);
    let f_pub_b64 = b64_encode(&x_public_key(&f_secret[..]));
    let err = HksTree::import(&tampered, &f_pub_b64, &f_secret[..], &owner_vk).unwrap_err();
    assert!(err == HksError::BadSignature || err == HksError::Encoding);
}

#[test]
fn test_hks_wrong_verifying_key_rejected() {
    let f_secret = [5u8; 32];
    let (tree, signing_key, encryption_secret) = owner_with_friends(&[&f_secret]);
    let owner_enc_pub = x_public_key(&encryption_secret);
    let blob_b64 = tree.export("payload-bytes", &signing_key, &owner_enc_pub).unwrap();

    let (other_signing, _) = HksTree::generate_identity();
    let other_vk = ed_public_key(&other_signing);
    let f_pub_b64 = b64_encode(&x_public_key(&f_secret[..]));
    let err = HksTree::import(&blob_b64, &f_pub_b64, &f_secret[..], &other_vk).unwrap_err();
    assert_eq!(err, HksError::BadSignature);
}

#[test]
fn test_hks_capacity_and_restore() {
    let tree = HksTree::new();
    assert_eq!(tree.nodes.len(), 8191);
    assert_eq!(tree.root_key().len(), 32);

    let restored = HksTree::restore(tree.nodes.clone(), tree.roster.clone());
    assert_eq!(restored.next_friend_idx, 0);
    assert_eq!(restored.nodes.len(), 8191);
}

#[test]
fn test_hks_friends_share_a_leaf() {
    // four friends per leaf: the first four all sit on the first leaf
    let secrets = [[1u8; 32], [2u8; 32], [3u8; 32], [4u8; 32], [5u8; 32]];
    let (signing_key, encryption_secret) = HksTree::generate_identity();
    let _ = signing_key;
    let mut tree = HksTree::new();
    for s in secrets.iter() {
        let pk = b64_encode(&x_public_key(&s[..]));
        tree.add_friend("f", &pk, &encryption_secret).unwrap();
    }
    assert_eq!(tree.roster[0].leaf_index, 4095);
    assert_eq!(tree.roster[3].leaf_index, 4095);
    assert_eq!(tree.roster[4].leaf_index, 4096);
}

#[test]
fn test_hks_import_undecodable_text_is_encoding_error() {
    let f_secret = [6u8; 32];
    let (_, signing_key, _) = owner_with_friends(&[&f_secret]);
    let owner_vk = ed_public_key(&signing_key);
    let f_pub_b64 = b64_encode(&x_public_key(&f_secret[..]));

    // not base64 at all
    let err = HksTree::import("*!*", &f_pub_b64, &f_secret[..], &owner_vk).unwrap_err();
    assert_eq!(err, HksError::Encoding);

    // base64, but no zlib stream inside
    let not_zlib = b64_encode(b"plainly not compressed");
    let err = HksTree::import(&not_zlib, &f_pub_b64, &f_secret[..], &owner_vk).unwrap_err();
    assert_eq!(err, HksError::Encoding);
}
