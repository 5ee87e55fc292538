use spa_pq::client::client_knock_packet;
use spa_pq::crypto::{encapsulate, generate_keypair, hmac_sha256, mac_message};
use spa_pq::codec::encode_knock;
use spa_pq::daemon::{
    daemon_step, decision_str, reason_token, Action, ConfigError, DaemonState, DecisionRecord,
    Reason,
};

const NOW: i64 = 1_700_000_000;

fn fresh_daemon(sk: Vec<u8>) -> DaemonState {
    DaemonState::new(sk, vec![1u8; 32], 30, 45, 0).expect("valid configuration")
}

fn valid_knock(pk: &[u8], nonce: [u8; 16], ts: i64, client_ip: u32) -> Vec<u8> {
    client_knock_packet(pk, &[1u8; 32], &nonce, ts, client_ip).expect("knock must assemble")
}

fn expect_allow(a: &Action) -> (u32, u64, DecisionRecord) {
    match a {
        Action::InsertAllow { src, open_secs, allow, .. } => (
            *src,
            *open_secs,
            DecisionRecord {
                ts: allow.ts,
                client_ip: allow.client_ip,
                allow: allow.allow,
                reason: allow.reason,
                opens_for_secs: allow.opens_for_secs,
            },
        ),
        _ => panic!("expected an authorization"),
    }
}

fn expect_deny(a: &Action) -> Reason {
    match a {
        Action::DenyLog(rec) => {
            assert!(!rec.allow);
            assert_eq!(rec.opens_for_secs, 0);
            rec.reason
        }
        _ => panic!("expected a logged denial"),
    }
}

#[test]
fn happy_path_allows_and_opens_for_45s() {
    let (pk, sk) = generate_keypair();
    let mut state = fresh_daemon(sk);
    let src: u32 = 0x0a000001;
    let pkt = valid_knock(&pk, [2u8; 16], NOW, src);
    let a = daemon_step(&mut state, &pkt, src, NOW, 100);
    let (ins_src, open_secs, rec) = expect_allow(&a);
    assert_eq!(ins_src, src);
    assert_eq!(open_secs, 45);
    assert!(rec.allow);
    assert_eq!(rec.ts, NOW);
    assert_eq!(rec.client_ip, src);
    assert_eq!(rec.reason, Reason::Allowed);
    assert_eq!(rec.opens_for_secs, 45);
    assert_eq!(reason_token(rec.reason), "ok");
    // Should the shell's insertion fail, the prepared fallback record
    // reports the denial instead.
    match &a {
        Action::InsertAllow { denied, .. } => {
            assert!(!denied.allow);
            assert_eq!(denied.reason, Reason::NftAddFailed);
            assert_eq!(denied.opens_for_secs, 0);
            assert_eq!(reason_token(denied.reason), "nft_add_failed");
        }
        _ => unreachable!(),
    }
}

#[test]
fn declared_address_mismatch_is_allowed_but_noted() {
    let (pk, sk) = generate_keypair();
    let mut state = fresh_daemon(sk);
    let src: u32 = 0x0a000001;
    let pkt = valid_knock(&pk, [2u8; 16], NOW, 0xc0a80101);
    let a = daemon_step(&mut state, &pkt, src, NOW, 100);
    let (_, _, rec) = expect_allow(&a);
    assert_eq!(rec.reason, Reason::AllowedNatMismatch);
    assert_eq!(reason_token(rec.reason), "ok_nat_mismatch");
}

#[test]
fn stale_timestamp_denied() {
    let (pk, sk) = generate_keypair();
    let mut state = fresh_daemon(sk);
    let src: u32 = 0x0a000001;
    let pkt = valid_knock(&pk, [2u8; 16], NOW - 60, src);
    let a = daemon_step(&mut state, &pkt, src, NOW, 100);
    assert_eq!(expect_deny(&a), Reason::StaleTs);
    assert_eq!(reason_token(Reason::StaleTs), "stale_ts");
}

#[test]
fn timestamp_window_edges() {
    let (pk, sk) = generate_keypair();
    let src: u32 = 0x0a000001;
    // At now - window: accepted.
    let mut state = fresh_daemon(sk.clone());
    let a = daemon_step(&mut state, &valid_knock(&pk, [2u8; 16], NOW - 30, src), src, NOW, 100);
    expect_allow(&a);
    // One second beyond: stale.
    let mut state = fresh_daemon(sk.clone());
    let a = daemon_step(&mut state, &valid_knock(&pk, [3u8; 16], NOW - 31, src), src, NOW, 100);
    assert_eq!(expect_deny(&a), Reason::StaleTs);
    // Symmetric for future skew.
    let mut state = fresh_daemon(sk.clone());
    let a = daemon_step(&mut state, &valid_knock(&pk, [4u8; 16], NOW + 30, src), src, NOW, 100);
    expect_allow(&a);
    let mut state = fresh_daemon(sk);
    let a = daemon_step(&mut state, &valid_knock(&pk, [5u8; 16], NOW + 31, src), src, NOW, 100);
    assert_eq!(expect_deny(&a), Reason::StaleTs);
}

#[test]
fn second_identical_packet_is_a_replay_with_one_insertion() {
    let (pk, sk) = generate_keypair();
    let mut state = fresh_daemon(sk);
    let src: u32 = 0x0a000001;
    let pkt = valid_knock(&pk, [2u8; 16], NOW, src);
    let mut insertions = 0;
    let a1 = daemon_step(&mut state, &pkt, src, NOW, 100);
    if matches!(a1, Action::InsertAllow { .. }) {
        insertions += 1;
    }
    expect_allow(&a1);
    let a2 = daemon_step(&mut state, &pkt, src, NOW, 5100);
    if matches!(a2, Action::InsertAllow { .. }) {
        insertions += 1;
    }
    assert_eq!(expect_deny(&a2), Reason::Replay);
    assert_eq!(reason_token(Reason::Replay), "replay");
    assert_eq!(insertions, 1, "exactly one filter insertion per allow");
}

#[test]
fn flipped_tag_bit_denied_as_bad_hmac() {
    let (pk, sk) = generate_keypair();
    let mut state = fresh_daemon(sk);
    let src: u32 = 0x0a000001;
    let mut pkt = valid_knock(&pk, [2u8; 16], NOW, src);
    let last = pkt.len() - 1;
    pkt[last] ^= 0x01;
    let a = daemon_step(&mut state, &pkt, src, NOW, 100);
    assert_eq!(expect_deny(&a), Reason::BadHmac);
    assert_eq!(reason_token(Reason::BadHmac), "bad_hmac");
}

#[test]
fn wrong_ct_len_denied_without_kem_work() {
    let (pk, sk) = generate_keypair();
    let mut state = fresh_daemon(sk);
    let src: u32 = 0x0a000001;
    // A self-consistent frame of 1087 declared ciphertext bytes, with a
    // genuine (truncated) encapsulation and a genuine tag.
    let (ct, ss) = encapsulate(&pk).unwrap();
    let nonce = [2u8; 16];
    let msg = mac_message(&[1u8; 32], &nonce, NOW);
    let tag = hmac_sha256(&ss, &msg).unwrap();
    let pkt = encode_knock(&ct[..1087], &nonce, NOW, src, &tag);
    let a = daemon_step(&mut state, &pkt, src, NOW, 100);
    assert_eq!(expect_deny(&a), Reason::BadCtLen);
    assert_eq!(reason_token(Reason::BadCtLen), "bad_ct_len");
}

#[test]
fn parse_failures_name_their_reasons() {
    let (_, sk) = generate_keypair();
    let mut state = fresh_daemon(sk);
    let src: u32 = 0x0a000001;
    let a = daemon_step(&mut state, &[1u8; 10], src, NOW, 100);
    assert_eq!(expect_deny(&a), Reason::TooShort);
    assert_eq!(reason_token(Reason::TooShort), "packet too short");
    let mut bad_ver = vec![9u8; 1151];
    bad_ver[1] = 0x04; // declared ct_len 1088
    bad_ver[2] = 0x40;
    let a = daemon_step(&mut state, &bad_ver, src, NOW, 101);
    assert_eq!(expect_deny(&a), Reason::BadVersion);
    assert_eq!(reason_token(Reason::BadVersion), "bad_ver");
    let mut bad_len = vec![9u8; 1152];
    bad_len[0] = 1;
    bad_len[1] = 0x04;
    bad_len[2] = 0x40;
    let a = daemon_step(&mut state, &bad_len, src, NOW, 102);
    assert_eq!(expect_deny(&a), Reason::LengthMismatch);
    assert_eq!(reason_token(Reason::LengthMismatch), "length mismatch");
}

#[test]
fn rate_limit_drops_silently_beyond_twenty() {
    let (pk, sk) = generate_keypair();
    let mut state = fresh_daemon(sk);
    let src: u32 = 0x0a000001;
    // 25 distinct valid knocks from one source inside one second.
    let mut records = 0;
    let mut silent = 0;
    for k in 0..25u8 {
        let mut nonce = [0u8; 16];
        nonce[0] = k;
        nonce[15] = 0xee;
        let pkt = valid_knock(&pk, nonce, NOW, src);
        match daemon_step(&mut state, &pkt, src, NOW, 100 + k as u64) {
            Action::SilentDrop => silent += 1,
            Action::DenyLog(_) | Action::InsertAllow { .. } => records += 1,
        }
    }
    assert_eq!(records, 20, "at most the per-source capacity is answered");
    assert_eq!(silent, 5, "rate-limited drops produce no record");
}

#[test]
fn startup_refuses_bad_secrets() {
    assert!(matches!(
        DaemonState::new(vec![0u8; 100], vec![1u8; 32], 30, 45, 0),
        Err(ConfigError::BadKeyLength)
    ));
    assert!(matches!(
        DaemonState::new(vec![0u8; 2400], vec![1u8; 31], 30, 45, 0),
        Err(ConfigError::BadPskLength)
    ));
    assert!(matches!(
        DaemonState::new(vec![0u8; 2400], vec![1u8; 32], -1, 45, 0),
        Err(ConfigError::BadWindow)
    ));
    assert!(DaemonState::new(vec![0u8; 2400], vec![1u8; 32], 30, 45, 0).is_ok());
}

#[test]
fn denial_reason_tokens_are_stable() {
    assert_eq!(reason_token(Reason::DecapFailed), "decap_failed");
    assert_eq!(reason_token(Reason::HmacKey), "hmac_key");
    assert_eq!(reason_token(Reason::NftAddFailed), "nft_add_failed");
    assert_eq!(decision_str(true), "allow");
    assert_eq!(decision_str(false), "deny");
}
