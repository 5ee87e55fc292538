//! Cryptographic composition of a knock.
//!
//! A knock's authenticator is HMAC-SHA-256, keyed by the 32-byte shared
//! secret of an ML-KEM-768 decapsulation, over the message
//! `PSK || version || nonce || timestamp_be8`. The primitives themselves
//! come from outside crates and are reached through trusted wrappers; the
//! composition around them is verified.

use vstd::prelude::*;

use crate::bytes_be::spec_i64_to_be_bytes;
use crate::codec::{CT_LEN, NONCE_LEN, TAG_LEN, VERSION};

verus! {

/// Length of the long-term pre-shared key.
pub const PSK_LEN: usize = 32;

/// ML-KEM-768 public-key length.
pub const PK_LEN: usize = 1184;

/// ML-KEM-768 secret-key length.
pub const SK_LEN: usize = 2400;

/// Length of a KEM shared secret, and so of an HMAC key here.
pub const SS_LEN: usize = 32;

/// The HMAC-SHA-256 tag of `msg` under `key`: a fixed function of the two,
/// left unspecified here and computed only by the hmac crate.
pub uninterp spec fn hmac_of(key: Seq<u8>, msg: Seq<u8>) -> Seq<u8>;

/// The ML-KEM-768 shared secret that decapsulating `ct` under the secret
/// key `sk` yields: a fixed function of the two (decapsulation never fails;
/// a malformed ciphertext yields the implicit-rejection secret).
pub uninterp spec fn decap_of(ct: Seq<u8>, sk: Seq<u8>) -> Seq<u8>;

/// Relies on hmac's `Hmac<Sha256>` (`new_from_slice`, `update`, `finalize`):
/// the tag is a function of key and message alone, 32 bytes for SHA-256.
/// `new_from_slice` accepts keys of any length and never fails, so the
/// result is always `Some`.
#[verifier::external_body]
fn hmac_sha256_raw(key: &[u8], msg: &[u8]) -> (r: Option<Vec<u8>>)
    ensures
        r is Some,
        match r {
            Some(tag) => tag@ == hmac_of(key@, msg@) && tag@.len() == TAG_LEN,
            None => true,
        },
{
    match <hmac::Hmac<sha2::Sha256> as hmac::KeyInit>::new_from_slice(key) {
        Ok(mut mac) => {
            hmac::Mac::update(&mut mac, msg);
            Some(hmac::Mac::finalize(mac).into_bytes().to_vec())
        },
        Err(_) => None,
    }
}

/// Relies on hmac's `Mac::verify_slice`: a constant-time comparison of
/// `tag` against the tag of `msg` under `key` (accepted exactly when they
/// are equal; a `tag` of the wrong length compares unequal). Key setup
/// accepts keys of any length and never fails, so the result is always
/// `Some`.
#[verifier::external_body]
fn hmac_sha256_check_raw(key: &[u8], msg: &[u8], tag: &[u8]) -> (r: Option<bool>)
    ensures
        r is Some,
        match r {
            Some(ok) => ok == (tag@ == hmac_of(key@, msg@)),
            None => true,
        },
{
    match <hmac::Hmac<sha2::Sha256> as hmac::KeyInit>::new_from_slice(key) {
        Ok(mut mac) => {
            hmac::Mac::update(&mut mac, msg);
            Some(hmac::Mac::verify_slice(mac, tag).is_ok())
        },
        Err(_) => None,
    }
}

/// Relies on pqcrypto_mlkem's `mlkem768::keypair`: a fresh random keypair;
/// only the byte lengths hold of every outcome.
#[verifier::external_body]
fn kem_keypair_raw() -> (r: (Vec<u8>, Vec<u8>))
    ensures
        r.0@.len() == PK_LEN,
        r.1@.len() == SK_LEN,
{
    let (pk, sk) = pqcrypto_mlkem::mlkem768::keypair();
    (
        pqcrypto_traits::kem::PublicKey::as_bytes(&pk).to_vec(),
        pqcrypto_traits::kem::SecretKey::as_bytes(&sk).to_vec(),
    )
}

/// Relies on pqcrypto_mlkem's `mlkem768::encapsulate` and the trait
/// `from_bytes`, which fails exactly on a wrong length: a fresh ciphertext
/// and shared secret; only the byte lengths hold of every outcome.
#[verifier::external_body]
fn kem_encapsulate_raw(pk: &[u8]) -> (r: Option<(Vec<u8>, Vec<u8>)>)
    ensures
        r is Some <==> pk@.len() == PK_LEN,
        match r {
            Some(p) => p.0@.len() == CT_LEN && p.1@.len() == SS_LEN,
            None => true,
        },
{
    match <pqcrypto_mlkem::mlkem768::PublicKey as pqcrypto_traits::kem::PublicKey>::from_bytes(pk) {
        Ok(key) => {
            let (ss, ct) = pqcrypto_mlkem::mlkem768::encapsulate(&key);
            Some(
                (
                    pqcrypto_traits::kem::Ciphertext::as_bytes(&ct).to_vec(),
                    pqcrypto_traits::kem::SharedSecret::as_bytes(&ss).to_vec(),
                ),
            )
        },
        Err(_) => None,
    }
}

/// Relies on pqcrypto_mlkem's `mlkem768::decapsulate` and the trait
/// `from_bytes`, which fails exactly on a wrong length: the shared secret
/// is a function of ciphertext and secret key alone.
#[verifier::external_body]
fn kem_decapsulate_raw(ct: &[u8], sk: &[u8]) -> (r: Option<Vec<u8>>)
    ensures
        r is Some <==> (ct@.len() == CT_LEN && sk@.len() == SK_LEN),
        match r {
            Some(ss) => ss@ == decap_of(ct@, sk@) && ss@.len() == SS_LEN,
            None => true,
        },
{
    let ct_obj = match <pqcrypto_mlkem::mlkem768::Ciphertext as pqcrypto_traits::kem::Ciphertext>::from_bytes(
        ct,
    ) {
        Ok(c) => c,
        Err(_) => { return None },
    };
    let sk_obj = match <pqcrypto_mlkem::mlkem768::SecretKey as pqcrypto_traits::kem::SecretKey>::from_bytes(
        sk,
    ) {
        Ok(k) => k,
        Err(_) => { return None },
    };
    let ss = pqcrypto_mlkem::mlkem768::decapsulate(&ct_obj, &sk_obj);
    Some(pqcrypto_traits::kem::SharedSecret::as_bytes(&ss).to_vec())
}

/// Relies on getrandom's `fill`: bytes from the operating system's entropy
/// source; nothing holds of the value, only of its length.
#[verifier::external_body]
fn random_bytes_raw() -> (r: Option<Vec<u8>>)
    ensures
        match r {
            Some(b) => b@.len() == NONCE_LEN,
            None => true,
        },
{
    let mut buf = [0u8; 16];
    match getrandom::fill(&mut buf) {
        Ok(()) => Some(buf.to_vec()),
        Err(_) => None,
    }
}

/// Relies on base64's `Engine::decode` with the standard alphabet: on
/// success the bytes are a function of the text alone; malformed input
/// yields `None`.
#[verifier::external_body]
fn base64_decode_raw(s: &str) -> (r: Option<Vec<u8>>)
    ensures
        match r {
            Some(b) => b@ == base64_decoded(s@),
            None => true,
        },
{
    match base64::Engine::decode(&base64::engine::general_purpose::STANDARD, s) {
        Ok(v) => Some(v),
        Err(_) => None,
    }
}

/// The bytes a standard-alphabet base64 text denotes, when it is valid:
/// a fixed function of the text, computed only by the base64 crate.
pub uninterp spec fn base64_decoded(s: Seq<char>) -> Seq<u8>;

/// The authenticated message of a version-1 knock:
/// `PSK || version || nonce || timestamp_be8`. The client's self-declared
/// address is deliberately absent: that field is advisory only.
pub open spec fn spec_mac_message(psk: Seq<u8>, nonce: Seq<u8>, ts: i64) -> Seq<u8> {
    psk + seq![VERSION] + nonce + spec_i64_to_be_bytes(ts)
}

/// Assemble the byte string that the knock's tag authenticates.
pub fn mac_message(psk: &[u8], nonce: &[u8], ts: i64) -> (r: Vec<u8>)
    requires
        psk@.len() == PSK_LEN,
        nonce@.len() == NONCE_LEN,
    ensures
        r@ == spec_mac_message(psk@, nonce@, ts),
{
    let mut r: Vec<u8> = Vec::new();
    crate::codec::push_all(&mut r, psk);
    r.push(VERSION);
    crate::codec::push_all(&mut r, nonce);
    let ts_bytes = crate::bytes_be::i64_to_be_bytes(ts);
    crate::codec::push_all(&mut r, ts_bytes.as_slice());
    proof {
        assert(r@ =~= spec_mac_message(psk@, nonce@, ts));
    }
    r
}

/// HMAC-SHA-256 of `msg` under `key`, which may have any length.
pub fn hmac_sha256(key: &[u8], msg: &[u8]) -> (r: Option<Vec<u8>>)
    ensures
        r is Some,
        match r {
            Some(tag) => tag@ == hmac_of(key@, msg@) && tag@.len() == TAG_LEN,
            None => true,
        },
{
    hmac_sha256_raw(key, msg)
}

/// Constant-time check of `tag` against the tag of `msg` under `key`.
pub fn hmac_sha256_verify(key: &[u8], msg: &[u8], tag: &[u8]) -> (r: Option<bool>)
    ensures
        r is Some,
        match r {
            Some(ok) => ok == (tag@ == hmac_of(key@, msg@)),
            None => true,
        },
{
    hmac_sha256_check_raw(key, msg, tag)
}

/// A fresh ML-KEM-768 keypair, as raw `(public, secret)` bytes.
pub fn generate_keypair() -> (r: (Vec<u8>, Vec<u8>))
    ensures
        r.0@.len() == PK_LEN,
        r.1@.len() == SK_LEN,
{
    kem_keypair_raw()
}

/// Encapsulate against a raw public key, yielding `(ciphertext, secret)`.
/// `None` exactly when the key has the wrong length.
pub fn encapsulate(pk: &[u8]) -> (r: Option<(Vec<u8>, Vec<u8>)>)
    ensures
        r is Some <==> pk@.len() == PK_LEN,
        match r {
            Some(p) => p.0@.len() == CT_LEN && p.1@.len() == SS_LEN,
            None => true,
        },
{
    kem_encapsulate_raw(pk)
}

/// Decapsulate a raw ciphertext under a raw secret key. `None` exactly
/// when one of the two has the wrong length.
pub fn decapsulate(ct: &[u8], sk: &[u8]) -> (r: Option<Vec<u8>>)
    ensures
        r is Some <==> (ct@.len() == CT_LEN && sk@.len() == SK_LEN),
        match r {
            Some(ss) => ss@ == decap_of(ct@, sk@) && ss@.len() == SS_LEN,
            None => true,
        },
{
    kem_decapsulate_raw(ct, sk)
}

/// A fresh 16-byte nonce from the operating system's entropy source.
pub fn fresh_nonce() -> (r: Option<Vec<u8>>)
    ensures
        match r {
            Some(b) => b@.len() == NONCE_LEN,
            None => true,
        },
{
    random_bytes_raw()
}

/// Decode standard-alphabet base64 text; `None` on malformed input.
pub fn base64_decode(s: &str) -> (r: Option<Vec<u8>>)
    ensures
        match r {
            Some(b) => b@ == base64_decoded(s@),
            None => true,
        },
{
    base64_decode_raw(s)
}

} // verus!
