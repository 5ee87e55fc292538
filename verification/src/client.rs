//! The client's side of the knock: decode and validate the configured
//! secrets, assemble one authenticated frame, and recognize the daemon's
//! two-byte acknowledgement.

use vstd::prelude::*;

use crate::codec::{encode_knock, spec_encode, CT_LEN, FRAME_LEN, NONCE_LEN};
use crate::crypto::{
    base64_decode, base64_decoded, encapsulate, hmac_of, hmac_sha256, spec_mac_message,
    mac_message, PK_LEN, PSK_LEN, SS_LEN,
};

verus! {

/// Why the client refuses its configuration or fails to build a knock.
#[derive(Clone, Copy, Debug, PartialEq, Eq, Structural)]
pub enum ClientError {
    /// The public key is not valid base64.
    BadPubKeyEncoding,
    /// The decoded public key is not exactly `PK_LEN` bytes.
    BadPubKeyLength,
    /// The pre-shared key is not valid base64.
    BadPskEncoding,
    /// The decoded pre-shared key is not exactly `PSK_LEN` bytes.
    BadPskLength,
    /// Encapsulation refused the public key.
    EncapFailed,
    /// MAC key initialization failed (not expected to occur).
    MacFailed,
}

/// Decode the two base64-encoded secrets of the client configuration and
/// hold them to their exact lengths.
pub fn decode_client_secrets(pk_b64: &str, psk_b64: &str) -> (r: Result<
    (Vec<u8>, Vec<u8>),
    ClientError,
>)
    ensures
        match r {
            Ok(p) => p.0@ == base64_decoded(pk_b64@) && p.0@.len() == PK_LEN && p.1@
                == base64_decoded(psk_b64@) && p.1@.len() == PSK_LEN,
            Err(e) => e == ClientError::BadPubKeyEncoding || e == ClientError::BadPubKeyLength || e
                == ClientError::BadPskEncoding || e == ClientError::BadPskLength,
        },
{
    let pk = match base64_decode(pk_b64) {
        Some(v) => v,
        None => { return Err(ClientError::BadPubKeyEncoding) },
    };
    if pk.len() != PK_LEN {
        return Err(ClientError::BadPubKeyLength);
    }
    let psk = match base64_decode(psk_b64) {
        Some(v) => v,
        None => { return Err(ClientError::BadPskEncoding) },
    };
    if psk.len() != PSK_LEN {
        return Err(ClientError::BadPskLength);
    }
    Ok((pk, psk))
}

/// `p` is a well-formed version-1 knock for the given PSK, nonce,
/// timestamp and declared address: some encapsulation's ciphertext rides
/// in it, and its tag authenticates the canonical message under that
/// encapsulation's shared secret.
pub open spec fn is_knock_for(
    p: Seq<u8>,
    psk: Seq<u8>,
    nonce: Seq<u8>,
    ts: i64,
    client_ip: u32,
) -> bool {
    exists|ct: Seq<u8>, ss: Seq<u8>|
        ct.len() == CT_LEN && ss.len() == SS_LEN && p == spec_encode(
            ct,
            nonce,
            ts,
            client_ip,
            hmac_of(ss, spec_mac_message(psk, nonce, ts)),
        )
}

/// Assemble one knock: encapsulate against the daemon's public key, MAC
/// the canonical message under the fresh shared secret, and lay the frame
/// out. The caller supplies the nonce and timestamp, so one knock is one
/// datagram and nothing here retries.
pub fn client_knock_packet(
    pk: &[u8],
    psk: &[u8],
    nonce: &[u8],
    ts: i64,
    client_ip: u32,
) -> (r: Result<Vec<u8>, ClientError>)
    requires
        pk@.len() == PK_LEN,
        psk@.len() == PSK_LEN,
        nonce@.len() == NONCE_LEN,
    ensures
        r is Ok,
        match r {
            Ok(p) => p@.len() == FRAME_LEN && is_knock_for(p@, psk@, nonce@, ts, client_ip),
            Err(e) => e == ClientError::EncapFailed || e == ClientError::MacFailed,
        },
{
    let (ct, ss) = match encapsulate(pk) {
        Some(pair) => pair,
        None => { return Err(ClientError::EncapFailed) },
    };
    let msg = mac_message(psk, nonce, ts);
    let tag = match hmac_sha256(ss.as_slice(), msg.as_slice()) {
        Some(t) => t,
        None => { return Err(ClientError::MacFailed) },
    };
    let p = encode_knock(ct.as_slice(), nonce, ts, client_ip, tag.as_slice());
    proof {
        assert(p@ == spec_encode(
            ct@,
            nonce@,
            ts,
            client_ip,
            hmac_of(ss@, spec_mac_message(psk@, nonce@, ts)),
        ));
        assert(is_knock_for(p@, psk@, nonce@, ts, client_ip));
    }
    Ok(p)
}

/// A reply acknowledges the knock when it begins with the bytes `OK`.
pub open spec fn spec_reply_ok(s: Seq<u8>) -> bool {
    s.len() >= 2 && s[0] == 0x4fu8 && s[1] == 0x4bu8
}

/// Does a reply of `n` received bytes acknowledge the knock?
pub fn reply_is_ok(buf: &[u8], n: usize) -> (r: bool)
    requires
        n <= buf@.len(),
    ensures
        r == spec_reply_ok(buf@.subrange(0, n as int)),
{
    if n >= 2 {
        buf[0] == 0x4f && buf[1] == 0x4b
    } else {
        false
    }
}

/// The daemon's acknowledgement: the two ASCII bytes `OK`, and nothing on
/// denial. What this returns is recognized by [`reply_is_ok`].
pub fn ok_reply() -> (r: Vec<u8>)
    ensures
        r@ =~= seq![0x4fu8, 0x4bu8],
        spec_reply_ok(r@),
{
    let mut v: Vec<u8> = Vec::new();
    v.push(0x4f);
    v.push(0x4b);
    v
}

} // verus!
