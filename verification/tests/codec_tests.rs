use spa_pq::codec::{encode_knock, parse_knock, ParseError, CT_LEN, FRAME_LEN};

fn sample_fields() -> (Vec<u8>, Vec<u8>, i64, u32, Vec<u8>) {
    let ct = vec![5u8; CT_LEN];
    let nonce = vec![2u8; 16];
    let ts: i64 = 1_700_000_000;
    let client_ip: u32 = 0x0a000001;
    let tag = vec![7u8; 32];
    (ct, nonce, ts, client_ip, tag)
}

#[test]
fn frame_round_trip_bit_for_bit() {
    let (ct, nonce, ts, client_ip, tag) = sample_fields();
    let pkt = encode_knock(&ct, &nonce, ts, client_ip, &tag);
    assert_eq!(pkt.len(), FRAME_LEN);
    let f = parse_knock(&pkt).expect("canonical frame must parse");
    assert_eq!(f.ct, ct);
    assert_eq!(f.nonce, nonce);
    assert_eq!(f.ts, ts);
    assert_eq!(f.client_ip, client_ip);
    assert_eq!(f.tag, tag);
}

#[test]
fn negative_timestamp_survives_the_frame() {
    let (ct, nonce, _, client_ip, tag) = sample_fields();
    let ts: i64 = -12345;
    let pkt = encode_knock(&ct, &nonce, ts, client_ip, &tag);
    let f = parse_knock(&pkt).expect("frame must parse");
    assert_eq!(f.ts, ts);
}

#[test]
fn exact_length_accepted_one_off_rejected() {
    let (ct, nonce, ts, client_ip, tag) = sample_fields();
    let pkt = encode_knock(&ct, &nonce, ts, client_ip, &tag);
    assert!(parse_knock(&pkt).is_ok());

    let mut longer = pkt.clone();
    longer.push(0);
    assert_eq!(parse_knock(&longer).unwrap_err(), ParseError::LengthMismatch);

    let shorter = &pkt[..pkt.len() - 1];
    assert_eq!(parse_knock(shorter).unwrap_err(), ParseError::LengthMismatch);
}

#[test]
fn too_short_rejected() {
    let pkt = vec![1u8; 62];
    assert_eq!(parse_knock(&pkt).unwrap_err(), ParseError::TooShort);
}

#[test]
fn bad_version_rejected() {
    let (ct, nonce, ts, client_ip, tag) = sample_fields();
    let mut pkt = encode_knock(&ct, &nonce, ts, client_ip, &tag);
    pkt[0] = 2;
    assert_eq!(parse_knock(&pkt).unwrap_err(), ParseError::BadVersion);
}

#[test]
fn wrong_ct_len_rejected_before_crypto() {
    // A self-consistent frame that declares 1087 ciphertext bytes.
    let ct = vec![5u8; CT_LEN - 1];
    let nonce = vec![2u8; 16];
    let tag = vec![7u8; 32];
    let pkt = encode_knock(&ct, &nonce, 1_700_000_000, 1, &tag);
    assert_eq!(parse_knock(&pkt).unwrap_err(), ParseError::BadCtLen);
}
