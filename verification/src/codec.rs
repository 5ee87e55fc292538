//! Wire format of a version-1 knock.
//!
//! Layout, big-endian, concatenated without padding:
//! version (1 byte) | ct_len (2) | ciphertext (ct_len) | nonce (16) |
//! timestamp (8, signed) | client_ip (4) | tag (32).
//! The daemon accepts only ct_len equal to the ML-KEM-768 ciphertext
//! length, and rejects malformed frames before any cryptographic work.

use vstd::prelude::*;
use vstd::slice::{slice_subrange, slice_to_vec};

use crate::bytes_be::{
    i64_from_be_bytes, i64_to_be_bytes, lemma_i64_be_round_trip, lemma_u16_be_round_trip,
    lemma_u32_be_round_trip, spec_i64_from_be_bytes, spec_i64_to_be_bytes, spec_u16_from_be_bytes,
    spec_u16_to_be_bytes, spec_u32_from_be_bytes, spec_u32_to_be_bytes, u16_from_be_bytes,
    u16_to_be_bytes, u32_from_be_bytes, u32_to_be_bytes,
};

verus! {

/// The only wire version this library speaks.
pub const VERSION: u8 = 1;

/// ML-KEM-768 ciphertext length; any other declared length is rejected.
pub const CT_LEN: usize = 1088;

pub const NONCE_LEN: usize = 16;

pub const TAG_LEN: usize = 32;

/// Bytes of a frame besides the ciphertext: version, ct_len, nonce,
/// timestamp, client_ip, tag.
pub const MIN_FRAME_LEN: usize = 1 + 2 + 16 + 8 + 4 + 32;

/// Total length of a well-formed version-1 knock.
pub const FRAME_LEN: usize = MIN_FRAME_LEN + CT_LEN;

/// The fields of a knock frame, as parsed from the wire.
#[derive(Debug)]
pub struct KnockFields {
    pub ct: Vec<u8>,
    pub nonce: Vec<u8>,
    pub ts: i64,
    pub client_ip: u32,
    pub tag: Vec<u8>,
}

/// Why a frame was refused, before any cryptographic work.
#[derive(Clone, Copy, Debug, PartialEq, Eq, Structural)]
pub enum ParseError {
    /// Shorter than the constant part of a frame.
    TooShort,
    /// Version byte other than `VERSION`.
    BadVersion,
    /// Total length disagrees with the declared structural length.
    LengthMismatch,
    /// Declared ciphertext length is not `CT_LEN`.
    BadCtLen,
}

/// The frame that carries the given fields.
pub open spec fn spec_encode(
    ct: Seq<u8>,
    nonce: Seq<u8>,
    ts: i64,
    client_ip: u32,
    tag: Seq<u8>,
) -> Seq<u8> {
    seq![VERSION] + spec_u16_to_be_bytes(ct.len() as u16) + ct + nonce + spec_i64_to_be_bytes(ts)
        + spec_u32_to_be_bytes(client_ip) + tag
}

/// The ciphertext length a frame declares in its second and third bytes.
pub open spec fn spec_declared_ct_len(pkt: Seq<u8>) -> int
    recommends
        pkt.len() >= 3,
{
    spec_u16_from_be_bytes(pkt.subrange(1, 3)) as int
}

/// The check that runs before any cryptographic operation: `None` means the
/// frame is structurally a version-1 knock of the pinned ciphertext length.
/// The checks are ordered; the first that fails names the error.
pub open spec fn spec_parse_error(pkt: Seq<u8>) -> Option<ParseError> {
    if pkt.len() < MIN_FRAME_LEN {
        Some(ParseError::TooShort)
    } else if pkt[0] != VERSION {
        Some(ParseError::BadVersion)
    } else if pkt.len() != MIN_FRAME_LEN + spec_declared_ct_len(pkt) {
        Some(ParseError::LengthMismatch)
    } else if spec_declared_ct_len(pkt) != CT_LEN {
        Some(ParseError::BadCtLen)
    } else {
        None
    }
}

pub open spec fn spec_ct(pkt: Seq<u8>) -> Seq<u8> {
    pkt.subrange(3, 3 + CT_LEN)
}

pub open spec fn spec_nonce(pkt: Seq<u8>) -> Seq<u8> {
    pkt.subrange(3 + CT_LEN, 3 + CT_LEN + NONCE_LEN)
}

pub open spec fn spec_ts(pkt: Seq<u8>) -> i64 {
    spec_i64_from_be_bytes(pkt.subrange(3 + CT_LEN + NONCE_LEN, 3 + CT_LEN + NONCE_LEN + 8))
}

pub open spec fn spec_client_ip(pkt: Seq<u8>) -> u32 {
    spec_u32_from_be_bytes(
        pkt.subrange(3 + CT_LEN + NONCE_LEN + 8, 3 + CT_LEN + NONCE_LEN + 8 + 4),
    )
}

pub open spec fn spec_tag(pkt: Seq<u8>) -> Seq<u8> {
    pkt.subrange(3 + CT_LEN + NONCE_LEN + 8 + 4, 3 + CT_LEN + NONCE_LEN + 8 + 4 + TAG_LEN)
}

/// The fields `f` are exactly what the accepted frame `pkt` carries.
pub open spec fn fields_of(f: KnockFields, pkt: Seq<u8>) -> bool {
    &&& f.ct@ == spec_ct(pkt)
    &&& f.nonce@ == spec_nonce(pkt)
    &&& f.ts == spec_ts(pkt)
    &&& f.client_ip == spec_client_ip(pkt)
    &&& f.tag@ == spec_tag(pkt)
}

/// Split a datagram into the fields of a version-1 knock, or name the first
/// structural check that fails. No cryptography is touched here.
pub fn parse_knock(pkt: &[u8]) -> (r: Result<KnockFields, ParseError>)
    ensures
        match r {
            Ok(f) => spec_parse_error(pkt@) is None && fields_of(f, pkt@),
            Err(e) => spec_parse_error(pkt@) == Some(e),
        },
{
    if pkt.len() < MIN_FRAME_LEN {
        return Err(ParseError::TooShort);
    }
    if pkt[0] != VERSION {
        return Err(ParseError::BadVersion);
    }
    let ct_len = u16_from_be_bytes(pkt[1], pkt[2]) as usize;
    proof {
        assert(pkt@.subrange(1, 3) =~= seq![pkt@[1], pkt@[2]]);
    }
    if pkt.len() != MIN_FRAME_LEN + ct_len {
        return Err(ParseError::LengthMismatch);
    }
    if ct_len != CT_LEN {
        return Err(ParseError::BadCtLen);
    }
    let ct = slice_to_vec(slice_subrange(pkt, 3, 3 + CT_LEN));
    let nonce = slice_to_vec(slice_subrange(pkt, 3 + CT_LEN, 3 + CT_LEN + NONCE_LEN));
    let ts = i64_from_be_bytes(
        slice_subrange(pkt, 3 + CT_LEN + NONCE_LEN, 3 + CT_LEN + NONCE_LEN + 8),
    );
    let client_ip = u32_from_be_bytes(
        pkt[3 + CT_LEN + NONCE_LEN + 8],
        pkt[3 + CT_LEN + NONCE_LEN + 9],
        pkt[3 + CT_LEN + NONCE_LEN + 10],
        pkt[3 + CT_LEN + NONCE_LEN + 11],
    );
    proof {
        assert(pkt@.subrange(3 + CT_LEN + NONCE_LEN + 8, 3 + CT_LEN + NONCE_LEN + 8 + 4) =~= seq![
            pkt@[3 + CT_LEN + NONCE_LEN + 8],
            pkt@[3 + CT_LEN + NONCE_LEN + 9],
            pkt@[3 + CT_LEN + NONCE_LEN + 10],
            pkt@[3 + CT_LEN + NONCE_LEN + 11],
        ]);
    }
    let tag = slice_to_vec(
        slice_subrange(
            pkt,
            3 + CT_LEN + NONCE_LEN + 8 + 4,
            3 + CT_LEN + NONCE_LEN + 8 + 4 + TAG_LEN,
        ),
    );
    Ok(KnockFields { ct, nonce, ts, client_ip, tag })
}

/// Append every byte of `src` to `dst`.
pub fn push_all(dst: &mut Vec<u8>, src: &[u8])
    requires
        old(dst)@.len() + src@.len() <= usize::MAX,
    ensures
        final(dst)@ == old(dst)@ + src@,
{
    let ghost orig = dst@;
    let mut i: usize = 0;
    while i < src.len()
        invariant
            i <= src@.len(),
            orig.len() + src@.len() <= usize::MAX,
            dst@ == orig + src@.subrange(0, i as int),
        decreases src@.len() - i,
    {
        dst.push(src[i]);
        proof {
            assert(orig + src@.subrange(0, i as int) + seq![src@[i as int]] =~= orig
                + src@.subrange(0, i + 1 as int));
        }
        i = i + 1;
    }
    proof {
        assert(orig + src@.subrange(0, src@.len() as int) =~= orig + src@);
    }
}

/// Lay the given fields out as a version-1 frame.
pub fn encode_knock(ct: &[u8], nonce: &[u8], ts: i64, client_ip: u32, tag: &[u8]) -> (r: Vec<u8>)
    requires
        ct@.len() <= 0xffff,
        nonce@.len() == NONCE_LEN,
        tag@.len() == TAG_LEN,
    ensures
        r@ == spec_encode(ct@, nonce@, ts, client_ip, tag@),
        r@.len() == MIN_FRAME_LEN + ct@.len(),
{
    let mut r: Vec<u8> = Vec::new();
    r.push(VERSION);
    let len_bytes = u16_to_be_bytes(ct.len() as u16);
    push_all(&mut r, len_bytes.as_slice());
    push_all(&mut r, ct);
    push_all(&mut r, nonce);
    let ts_bytes = i64_to_be_bytes(ts);
    push_all(&mut r, ts_bytes.as_slice());
    let ip_bytes = u32_to_be_bytes(client_ip);
    push_all(&mut r, ip_bytes.as_slice());
    push_all(&mut r, tag);
    proof {
        assert(r@ =~= spec_encode(ct@, nonce@, ts, client_ip, tag@));
    }
    r
}

/// For a frame with the right version byte and the pinned declared
/// ciphertext length, the total length alone decides structural
/// acceptance: exactly `FRAME_LEN` passes, any other length (one byte
/// more or less included) is a length mismatch.
pub proof fn lemma_length_boundary(pkt: Seq<u8>)
    requires
        pkt.len() >= MIN_FRAME_LEN,
        pkt[0] == VERSION,
        spec_declared_ct_len(pkt) == CT_LEN,
    ensures
        pkt.len() == FRAME_LEN ==> spec_parse_error(pkt) is None,
        pkt.len() != FRAME_LEN ==> spec_parse_error(pkt) == Some(ParseError::LengthMismatch),
{
}

/// Frame idempotence: encoding canonical fields and parsing the result
/// yields the original field values, bit for bit, and no parse error.
pub proof fn lemma_frame_round_trip(
    ct: Seq<u8>,
    nonce: Seq<u8>,
    ts: i64,
    client_ip: u32,
    tag: Seq<u8>,
)
    requires
        ct.len() == CT_LEN,
        nonce.len() == NONCE_LEN,
        tag.len() == TAG_LEN,
    ensures
        spec_parse_error(spec_encode(ct, nonce, ts, client_ip, tag)) is None,
        spec_ct(spec_encode(ct, nonce, ts, client_ip, tag)) == ct,
        spec_nonce(spec_encode(ct, nonce, ts, client_ip, tag)) == nonce,
        spec_ts(spec_encode(ct, nonce, ts, client_ip, tag)) == ts,
        spec_client_ip(spec_encode(ct, nonce, ts, client_ip, tag)) == client_ip,
        spec_tag(spec_encode(ct, nonce, ts, client_ip, tag)) == tag,
{
    let pkt = spec_encode(ct, nonce, ts, client_ip, tag);
    assert(pkt.len() == FRAME_LEN);
    assert(pkt[0] == VERSION);
    assert(pkt.subrange(1, 3) =~= spec_u16_to_be_bytes(CT_LEN as u16));
    lemma_u16_be_round_trip(CT_LEN as u16);
    assert(spec_declared_ct_len(pkt) == CT_LEN);
    assert(spec_ct(pkt) =~= ct);
    assert(spec_nonce(pkt) =~= nonce);
    assert(pkt.subrange(3 + CT_LEN + NONCE_LEN, 3 + CT_LEN + NONCE_LEN + 8)
        =~= spec_i64_to_be_bytes(ts));
    lemma_i64_be_round_trip(ts);
    assert(pkt.subrange(3 + CT_LEN + NONCE_LEN + 8, 3 + CT_LEN + NONCE_LEN + 8 + 4)
        =~= spec_u32_to_be_bytes(client_ip));
    lemma_u32_be_round_trip(client_ip);
    assert(spec_tag(pkt) =~= tag);
}

} // verus!
