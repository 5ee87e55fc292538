use base64::engine::general_purpose::STANDARD;
use base64::Engine;
use spa_pq::client::{
    client_knock_packet, decode_client_secrets, ok_reply, reply_is_ok, ClientError,
};
use spa_pq::codec::parse_knock;
use spa_pq::crypto::generate_keypair;

#[test]
fn configured_secrets_decode_and_validate() {
    let (pk, _) = generate_keypair();
    let pk_b64 = STANDARD.encode(&pk);
    let psk_b64 = STANDARD.encode([1u8; 32]);
    let (pk2, psk2) = decode_client_secrets(&pk_b64, &psk_b64).expect("valid secrets");
    assert_eq!(pk2, pk);
    assert_eq!(psk2, vec![1u8; 32]);

    assert_eq!(
        decode_client_secrets("!!!", &psk_b64).unwrap_err(),
        ClientError::BadPubKeyEncoding
    );
    let short = STANDARD.encode([0u8; 10]);
    assert_eq!(
        decode_client_secrets(&short, &psk_b64).unwrap_err(),
        ClientError::BadPubKeyLength
    );
    assert_eq!(
        decode_client_secrets(&pk_b64, "!!!").unwrap_err(),
        ClientError::BadPskEncoding
    );
    assert_eq!(
        decode_client_secrets(&pk_b64, &short).unwrap_err(),
        ClientError::BadPskLength
    );
}

#[test]
fn assembled_knock_carries_its_fields() {
    let (pk, _) = generate_keypair();
    let nonce = [6u8; 16];
    let ts: i64 = 1_700_000_000;
    let client_ip: u32 = 0xc0a80042;
    let pkt = client_knock_packet(&pk, &[1u8; 32], &nonce, ts, client_ip).unwrap();
    assert_eq!(pkt.len(), 1 + 2 + 1088 + 16 + 8 + 4 + 32);
    let f = parse_knock(&pkt).expect("client frame must parse");
    assert_eq!(f.nonce, nonce.to_vec());
    assert_eq!(f.ts, ts);
    assert_eq!(f.client_ip, client_ip);
    assert_eq!(f.tag.len(), 32);
}

#[test]
fn reply_recognition() {
    let ok = ok_reply();
    assert_eq!(ok, vec![0x4f, 0x4b]);
    assert!(reply_is_ok(&ok, 2));
    let mut buf = [0u8; 16];
    buf[0] = 0x4f;
    buf[1] = 0x4b;
    assert!(reply_is_ok(&buf, 16));
    assert!(!reply_is_ok(&buf, 1));
    buf[1] = 0x00;
    assert!(!reply_is_ok(&buf, 16));
}
