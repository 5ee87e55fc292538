use spa_pq::clock::now_unix;
use spa_pq::crypto::{
    decapsulate, encapsulate, fresh_nonce, generate_keypair, hmac_sha256, hmac_sha256_verify,
    mac_message,
};

#[test]
fn hmac_message_format() {
    let key = [7u8; 32];
    let psk = [1u8; 32];
    let nonce = [2u8; 16];
    let ip = 0x7f000001u32; // 127.0.0.1
    let ts: i64 = 123456789;
    let mut msg = Vec::new();
    msg.extend_from_slice(&psk);
    msg.extend_from_slice(&nonce);
    msg.extend_from_slice(&ip.to_be_bytes());
    msg.extend_from_slice(&ts.to_be_bytes());
    let tag = hmac_sha256(&key, &msg).unwrap();
    assert_eq!(tag.len(), 32);
}

#[test]
fn time_window_check() {
    let now = now_unix();
    assert!((now - (now - 10)).abs() <= 30);
    assert!((now - (now - 100)).abs() > 30);
}

#[test]
fn crypto_round_trip() {
    // Both peers derive the same shared secret, so a tag computed by the
    // client verifies under the secret the daemon decapsulates.
    let (pk, sk) = generate_keypair();
    assert_eq!(pk.len(), 1184);
    assert_eq!(sk.len(), 2400);
    let (ct, ss) = encapsulate(&pk).expect("well-sized public key");
    assert_eq!(ct.len(), 1088);
    assert_eq!(ss.len(), 32);
    let ss2 = decapsulate(&ct, &sk).expect("well-sized inputs");
    assert_eq!(ss, ss2);

    let psk = [1u8; 32];
    let nonce = [2u8; 16];
    let ts: i64 = 1_700_000_000;
    let msg = mac_message(&psk, &nonce, ts);
    let tag = hmac_sha256(&ss, &msg).unwrap();
    assert_eq!(hmac_sha256_verify(&ss2, &msg, &tag), Some(true));
}

#[test]
fn hmac_verify_rejects_altered_tag() {
    let key = [3u8; 32];
    let msg = [4u8; 57];
    let mut tag = hmac_sha256(&key, &msg).unwrap();
    assert_eq!(hmac_sha256_verify(&key, &msg, &tag), Some(true));
    tag[0] ^= 0x01;
    assert_eq!(hmac_sha256_verify(&key, &msg, &tag), Some(false));
}

#[test]
fn mac_message_layout() {
    // PSK || version || nonce || timestamp_be8, and nothing else: the
    // declared client address is not authenticated.
    let psk = [0xaau8; 32];
    let nonce = [0xbbu8; 16];
    let ts: i64 = 0x0102030405060708;
    let msg = mac_message(&psk, &nonce, ts);
    assert_eq!(msg.len(), 32 + 1 + 16 + 8);
    assert_eq!(&msg[..32], &psk);
    assert_eq!(msg[32], 1);
    assert_eq!(&msg[33..49], &nonce);
    assert_eq!(&msg[49..57], &[1, 2, 3, 4, 5, 6, 7, 8]);
}

#[test]
fn fresh_nonce_is_sixteen_bytes() {
    let a = fresh_nonce().expect("entropy source available");
    assert_eq!(a.len(), 16);
}

#[test]
fn encapsulate_refuses_wrong_key_length() {
    assert!(encapsulate(&[0u8; 100]).is_none());
    assert!(decapsulate(&[0u8; 1088], &[0u8; 100]).is_none());
    assert!(decapsulate(&[0u8; 100], &[0u8; 2400]).is_none());
}
