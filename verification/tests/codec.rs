use rchat::crypto::{
    decrypt_with_key, derive_key, encrypt_with_key, hash_data, sha256_hex, sign, verify,
    verify_password, ed_public_key, x_public_key, diffie_hellman,
};
use rchat::encoding::{b64_decode, b64_encode, hex_encode, zlib_compress, zlib_decompress};
use rchat::json::{parse_string_at, parse_u64_at, write_json_string, write_u64};

#[test]
fn test_crypto_verification() {
    let password = "test_password";
    let hashed = hash_data(password.as_bytes()).expect("Hashing failed");
    assert!(verify_password(password.as_bytes(), &hashed), "Verification failed");
    assert!(!verify_password(b"other_password", &hashed));
}

#[test]
fn test_sha256_known_digest() {
    // the digest of "abc", a published test vector
    assert_eq!(
        sha256_hex(b"abc"),
        "ba7816bf8f01cfea414140de5dae2223b00361a396177a9cb410ff61f20015ad"
    );
}

#[test]
fn test_hex_known_value() {
    assert_eq!(hex_encode(&[0u8, 15, 255]), "000fff");
}

#[test]
fn test_base64_round_trip() {
    assert_eq!(b64_encode(b"hello"), "aGVsbG8=");
    assert_eq!(b64_decode("aGVsbG8=").unwrap(), b"hello".to_vec());
    assert!(b64_decode("!!!not base64!!!").is_none());
}

#[test]
fn test_zlib_round_trip() {
    let data: Vec<u8> = (0..10_000).map(|i| (i % 7) as u8).collect();
    let packed = zlib_compress(&data).unwrap();
    assert!(packed.len() < data.len());
    assert_eq!(zlib_decompress(&packed).unwrap(), data);
    assert!(zlib_decompress(b"not a zlib stream").is_none());
}

#[test]
fn test_aead_round_trip_and_tamper() {
    let key = [42u8; 32];
    let (ct_b64, nonce_b64) = encrypt_with_key(&key, b"secret text").unwrap();
    let plain = decrypt_with_key(&key, &ct_b64, &nonce_b64).unwrap();
    assert_eq!(plain, b"secret text".to_vec());

    let other_key = [43u8; 32];
    assert!(decrypt_with_key(&other_key, &ct_b64, &nonce_b64).is_err());
}

#[test]
fn test_kdf_is_deterministic() {
    let salt = [1u8; 16];
    let k1 = derive_key(b"secret", &salt);
    let k2 = derive_key(b"secret", &salt);
    assert_eq!(k1, k2);
    let k3 = derive_key(b"secret", &[2u8; 16]);
    assert_ne!(k1, k3);
}

#[test]
fn test_sign_and_verify() {
    let sk = [3u8; 32];
    let vk = ed_public_key(&sk);
    let sig = sign(&sk, b"a message");
    assert!(verify(&vk, b"a message", &sig));
    assert!(!verify(&vk, b"another message", &sig));
}

#[test]
fn test_diffie_hellman_agreement() {
    let a = [5u8; 32];
    let b = [6u8; 32];
    let a_pub = x_public_key(&a);
    let b_pub = x_public_key(&b);
    assert_eq!(diffie_hellman(&a, &b_pub), diffie_hellman(&b, &a_pub));
}

#[test]
fn test_json_string_token_round_trip() {
    let mut out: Vec<u8> = Vec::new();
    let tricky = b"quote \" backslash \\ newline \n plain";
    write_json_string(&mut out, tricky);
    let (parsed, end) = parse_string_at(&out, 0).unwrap();
    assert_eq!(parsed, tricky.to_vec());
    assert_eq!(end, out.len());
    // the escapes are really there: the token is longer than the bytes
    assert!(out.len() > tricky.len() + 2);
}

#[test]
fn test_json_u64_round_trip() {
    for v in [0u64, 1, 9, 10, 120, 16384, u64::MAX] {
        let mut out: Vec<u8> = Vec::new();
        write_u64(&mut out, v);
        let (parsed, end) = parse_u64_at(&out, 0).unwrap();
        assert_eq!(parsed, v);
        assert_eq!(end, out.len());
    }
    assert_eq!(
        String::from_utf8({
            let mut o = Vec::new();
            write_u64(&mut o, 120);
            o
        })
        .unwrap(),
        "120"
    );
}

#[test]
fn test_normalize_name() {
    assert_eq!(rchat::text::normalize_name("  AlIcE "), "alice");
    assert_eq!(rchat::text::normalize_name("bob"), "bob");
}
