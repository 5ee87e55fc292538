//! The daemon's decision pipeline.
//!
//! For each datagram, in fixed order: rate-limit, parse, freshness,
//! replay-insert, decapsulate, MAC-verify. The outcome is an [`Action`]
//! that the unverified shell performs: stay silent, log a denial, or
//! insert one allow-entry and then acknowledge and log. The replay key is
//! inserted before MAC verification, so a replayed capture cannot spend
//! cryptographic budget twice.

use vstd::prelude::*;

use crate::bytes_be::spec_u128_from_be_bytes;
use crate::bytes_be::u128_from_be_bytes;
use crate::codec::{
    parse_knock, spec_client_ip, spec_ct, spec_nonce, spec_parse_error, spec_tag, spec_ts,
    ParseError,
};
use crate::crypto::{
    decap_of, decapsulate, hmac_of, hmac_sha256_verify, mac_message, spec_mac_message, PSK_LEN,
    SK_LEN,
};
use crate::rate::{spec_permit, RateLimiter, GLOBAL_CAP};
use crate::replay::{
    arrivals_le, spec_has_key, spec_seen_or_insert, ReplayCache, REPLAY_CAP,
};

verus! {

/// The largest usable freshness window: `window_secs` is turned into
/// milliseconds of `u64`.
pub const MAX_WINDOW_SECS: i64 = 18_446_744_073_709_551;

/// The stable reason token of a decision record.
#[derive(Clone, Copy, Debug, PartialEq, Eq, Structural)]
pub enum Reason {
    /// Allowed; the declared client address matched the source.
    Allowed,
    /// Allowed, but the client declared another address than the observed
    /// source (a NAT diagnostic, not a failure).
    AllowedNatMismatch,
    /// Below the minimum frame size.
    TooShort,
    /// Version byte other than 1.
    BadVersion,
    /// Declared and actual sizes disagree.
    LengthMismatch,
    /// Declared ciphertext length is not the pinned constant.
    BadCtLen,
    /// Timestamp outside the freshness window.
    StaleTs,
    /// `(src, nonce, ts)` already seen inside the window.
    Replay,
    /// KEM ciphertext malformed.
    DecapFailed,
    /// MAC key initialization failed (not expected to occur).
    HmacKey,
    /// Tag mismatch.
    BadHmac,
    /// The filter-set insertion command failed.
    NftAddFailed,
}

/// The reason under which a structural parse failure is logged.
pub open spec fn spec_deny_of_parse(e: ParseError) -> Reason {
    match e {
        ParseError::TooShort => Reason::TooShort,
        ParseError::BadVersion => Reason::BadVersion,
        ParseError::LengthMismatch => Reason::LengthMismatch,
        ParseError::BadCtLen => Reason::BadCtLen,
    }
}

/// A timestamp is fresh when it lies within `window` seconds of `now`,
/// in either direction.
pub open spec fn spec_fresh(now: i64, ts: i64, window: i64) -> bool {
    -window <= now - ts <= window
}

/// Freshness check, exact at both window edges.
pub fn is_fresh(now: i64, ts: i64, window: i64) -> (r: bool)
    ensures
        r == spec_fresh(now, ts, window),
{
    let d: i128 = now as i128 - ts as i128;
    -(window as i128) <= d && d <= window as i128
}

/// A timestamp exactly at the window edge is accepted; one second beyond
/// it, in either direction, is rejected.
pub proof fn lemma_freshness_boundary(now: i64, ts: i64, window: i64)
    requires
        window >= 0,
    ensures
        now - ts == window ==> spec_fresh(now, ts, window),
        now - ts == window + 1 ==> !spec_fresh(now, ts, window),
        ts - now == window ==> spec_fresh(now, ts, window),
        ts - now == window + 1 ==> !spec_fresh(now, ts, window),
{
}

/// The replay key of an accepted frame: its nonce as one `u128`.
pub open spec fn spec_nonce_key(pkt: Seq<u8>) -> u128 {
    spec_u128_from_be_bytes(spec_nonce(pkt))
}

/// The denial, if any, that precedes all cryptographic work: a structural
/// parse failure, a stale timestamp, or a replayed key.
pub open spec fn spec_deny_pre_crypto(
    pkt: Seq<u8>,
    src: u32,
    now: i64,
    now_ms: u64,
    cache: Seq<crate::replay::ReplayEntry>,
    cap: int,
    window: i64,
) -> Option<Reason> {
    if spec_parse_error(pkt) is Some {
        Some(spec_deny_of_parse(spec_parse_error(pkt).unwrap()))
    } else if !spec_fresh(now, spec_ts(pkt), window) {
        Some(Reason::StaleTs)
    } else if spec_seen_or_insert(
        cache,
        cap,
        src,
        spec_nonce_key(pkt),
        spec_ts(pkt),
        now_ms,
        (window * 1000) as u64,
    ).0 {
        Some(Reason::Replay)
    } else {
        None
    }
}

/// The replay cache consults and remembers a key only for a frame that is
/// structurally sound and fresh; this is its state afterwards.
pub open spec fn spec_cache_after(
    pkt: Seq<u8>,
    src: u32,
    now: i64,
    now_ms: u64,
    cache: Seq<crate::replay::ReplayEntry>,
    cap: int,
    window: i64,
) -> Seq<crate::replay::ReplayEntry> {
    if spec_parse_error(pkt) is None && spec_fresh(now, spec_ts(pkt), window) {
        spec_seen_or_insert(
            cache,
            cap,
            src,
            spec_nonce_key(pkt),
            spec_ts(pkt),
            now_ms,
            (window * 1000) as u64,
        ).1
    } else {
        cache
    }
}

/// The frame's tag is the HMAC of the canonical message under the shared
/// secret that its own ciphertext decapsulates to.
pub open spec fn spec_mac_ok(pkt: Seq<u8>, sk: Seq<u8>, psk: Seq<u8>) -> bool {
    spec_tag(pkt) == hmac_of(
        decap_of(spec_ct(pkt), sk),
        spec_mac_message(psk, spec_nonce(pkt), spec_ts(pkt)),
    )
}

/// Decide one parsed-or-refused knock, consulting and updating the replay
/// cache. `Ok(nat_mismatch)` authorizes the source; any `Err` names the
/// reason the packet is denied. The cache gains the key of every frame
/// that reaches the replay stage, verified or not.
pub fn handle_packet(
    replay: &mut ReplayCache,
    pkt: &[u8],
    src: u32,
    now: i64,
    now_ms: u64,
    sk: &[u8],
    psk: &[u8],
    window_secs: i64,
) -> (r: Result<bool, Reason>)
    requires
        old(replay).wf(),
        arrivals_le(old(replay).entries@, now_ms),
        sk@.len() == SK_LEN,
        psk@.len() == PSK_LEN,
        0 <= window_secs <= MAX_WINDOW_SECS,
    ensures
        final(replay).wf(),
        final(replay).cap == old(replay).cap,
        arrivals_le(final(replay).entries@, now_ms),
        final(replay).entries@ == spec_cache_after(
            pkt@,
            src,
            now,
            now_ms,
            old(replay).entries@,
            old(replay).cap as int,
            window_secs,
        ),
        ({
            let pre = spec_deny_pre_crypto(
                pkt@,
                src,
                now,
                now_ms,
                old(replay).entries@,
                old(replay).cap as int,
                window_secs,
            );
            match pre {
                Some(reason) => r == Err::<bool, Reason>(reason),
                None => if spec_mac_ok(pkt@, sk@, psk@) {
                    r == Ok::<bool, Reason>(spec_client_ip(pkt@) != src)
                } else {
                    r == Err::<bool, Reason>(Reason::BadHmac)
                },
            }
        }),
        r is Ok ==> spec_parse_error(pkt@) is None && spec_fresh(now, spec_ts(pkt@), window_secs)
            && spec_mac_ok(pkt@, sk@, psk@) && !spec_seen_or_insert(
            old(replay).entries@,
            old(replay).cap as int,
            src,
            spec_nonce_key(pkt@),
            spec_ts(pkt@),
            now_ms,
            (window_secs * 1000) as u64,
        ).0,
        r is Ok || r == Err::<bool, Reason>(Reason::BadHmac) ==> spec_has_key(
            final(replay).entries@,
            src,
            spec_nonce_key(pkt@),
            spec_ts(pkt@),
        ),
{
    let fields = match parse_knock(pkt) {
        Ok(f) => f,
        Err(ParseError::TooShort) => { return Err(Reason::TooShort) },
        Err(ParseError::BadVersion) => { return Err(Reason::BadVersion) },
        Err(ParseError::LengthMismatch) => { return Err(Reason::LengthMismatch) },
        Err(ParseError::BadCtLen) => { return Err(Reason::BadCtLen) },
    };
    if !is_fresh(now, fields.ts, window_secs) {
        return Err(Reason::StaleTs);
    }
    let nonce_key = u128_from_be_bytes(fields.nonce.as_slice());
    let ttl_ms = (window_secs as u64) * 1000;
    let seen = replay.seen_or_insert(src, nonce_key, fields.ts, now_ms, ttl_ms);
    if seen {
        return Err(Reason::Replay);
    }
    // With the ciphertext length pinned by the parser and the key length
    // held by the caller, decapsulation cannot fail here.
    let ss = match decapsulate(fields.ct.as_slice(), sk) {
        Some(s) => s,
        None => { return Err(Reason::DecapFailed) },
    };
    let msg = mac_message(psk, fields.nonce.as_slice(), fields.ts);
    match hmac_sha256_verify(ss.as_slice(), msg.as_slice(), fields.tag.as_slice()) {
        None => Err(Reason::HmacKey),
        Some(false) => Err(Reason::BadHmac),
        Some(true) => Ok(fields.client_ip != src),
    }
}

/// One decision record of the structured log: a line of the daemon's
/// stdout, before rendering.
pub struct DecisionRecord {
    pub ts: i64,
    pub client_ip: u32,
    pub allow: bool,
    pub reason: Reason,
    pub opens_for_secs: u64,
}

/// What the unverified shell must do with one received datagram. Only an
/// `InsertAllow` asks for a filter insertion, and it asks for exactly one;
/// a `SilentDrop` produces neither a record nor a reply byte.
pub enum Action {
    /// Rate-limited: no log record, no reply, no filter change.
    SilentDrop,
    /// Denied: print the record; send nothing.
    DenyLog(DecisionRecord),
    /// Authorized: insert `src` into the filter set with timeout
    /// `open_secs`; on success send `OK` and print `allow`, on failure
    /// print `denied` instead.
    InsertAllow { src: u32, open_secs: u64, allow: DecisionRecord, denied: DecisionRecord },
}

/// Everything the daemon holds for the lifetime of the process: the two
/// secrets, the two windows, and the two mutable tables.
pub struct DaemonState {
    pub sk: Vec<u8>,
    pub psk: Vec<u8>,
    pub window_secs: i64,
    pub open_secs: u64,
    pub replay: ReplayCache,
    pub rate: RateLimiter,
}

/// Why the daemon refuses to start.
#[derive(Clone, Copy, Debug, PartialEq, Eq, Structural)]
pub enum ConfigError {
    /// The KEM secret key is not exactly `SK_LEN` bytes.
    BadKeyLength,
    /// The pre-shared key is not exactly `PSK_LEN` bytes.
    BadPskLength,
    /// The freshness window is negative or too large to hold.
    BadWindow,
}

impl DaemonState {
    pub open spec fn wf(self) -> bool {
        &&& self.sk@.len() == SK_LEN
        &&& self.psk@.len() == PSK_LEN
        &&& 0 <= self.window_secs <= MAX_WINDOW_SECS
        &&& self.replay.wf()
        &&& self.rate.wf()
    }

    /// Validate the secrets and the window once, at startup; the daemon
    /// starts with an empty replay cache and full token buckets.
    pub fn new(sk: Vec<u8>, psk: Vec<u8>, window_secs: i64, open_secs: u64, now_ms: u64) -> (r:
        Result<DaemonState, ConfigError>)
        ensures
            ({
                if sk@.len() != SK_LEN {
                    r == Err::<DaemonState, ConfigError>(ConfigError::BadKeyLength)
                } else if psk@.len() != PSK_LEN {
                    r == Err::<DaemonState, ConfigError>(ConfigError::BadPskLength)
                } else if !(0 <= window_secs <= MAX_WINDOW_SECS) {
                    r == Err::<DaemonState, ConfigError>(ConfigError::BadWindow)
                } else {
                    match r {
                        Ok(s) => s.wf() && s.sk@ == sk@ && s.psk@ == psk@ && s.window_secs
                            == window_secs && s.open_secs == open_secs && s.replay.entries@.len()
                            == 0 && s.replay.cap == REPLAY_CAP && s.rate.global_tokens == GLOBAL_CAP
                            && s.rate.last_global_refill == now_ms && s.rate.buckets@.len() == 0,
                        Err(_) => false,
                    }
                }
            }),
    {
        if sk.len() != SK_LEN {
            return Err(ConfigError::BadKeyLength);
        }
        if psk.len() != PSK_LEN {
            return Err(ConfigError::BadPskLength);
        }
        if window_secs < 0 || window_secs > MAX_WINDOW_SECS {
            return Err(ConfigError::BadWindow);
        }
        Ok(
            DaemonState {
                sk,
                psk,
                window_secs,
                open_secs,
                replay: ReplayCache::new(REPLAY_CAP),
                rate: RateLimiter::new(now_ms),
            },
        )
    }
}

/// A byte-identical second packet inside the window is denied as a replay,
/// and the denial falls before any cryptographic work: it is decided by
/// `spec_deny_pre_crypto`, which reads only the frame, the clock and the
/// replay cache, never a key.
pub proof fn lemma_second_identical_packet_replays(
    pkt: Seq<u8>,
    src: u32,
    now1: i64,
    now2: i64,
    now_ms1: u64,
    now_ms2: u64,
    cache: Seq<crate::replay::ReplayEntry>,
    cap: int,
    window: i64,
)
    requires
        spec_parse_error(pkt) is None,
        spec_fresh(now1, spec_ts(pkt), window),
        spec_fresh(now2, spec_ts(pkt), window),
        0 <= window <= MAX_WINDOW_SECS,
        cap >= 1,
        cache.len() <= cap,
        crate::replay::sorted_by_arrival(cache),
        crate::replay::unique_keys(cache),
        arrivals_le(cache, now_ms1),
        !spec_has_key(cache, src, spec_nonce_key(pkt), spec_ts(pkt)),
        now_ms1 <= now_ms2 <= now_ms1 + window * 1000,
    ensures
        spec_deny_pre_crypto(pkt, src, now1, now_ms1, cache, cap, window) is None,
        spec_deny_pre_crypto(
            pkt,
            src,
            now2,
            now_ms2,
            spec_cache_after(pkt, src, now1, now_ms1, cache, cap, window),
            cap,
            window,
        ) == Some(Reason::Replay),
{
    let nonce = spec_nonce_key(pkt);
    let ts = spec_ts(pkt);
    let ttl = (window * 1000) as u64;
    crate::replay::lemma_purge_count_bounds(cache, now_ms1, ttl);
    let c0 = crate::replay::spec_purge_count(cache, now_ms1, ttl);
    let p0 = crate::replay::spec_purged(cache, now_ms1, ttl);
    assert(!spec_has_key(p0, src, nonce, ts)) by {
        if spec_has_key(p0, src, nonce, ts) {
            crate::replay::lemma_has_key_subrange(cache, c0, cache.len() as int, src, nonce, ts);
        }
    }
    let e1 = crate::replay::ReplayEntry { src, nonce, ts, arrival: now_ms1 };
    let cache1 = spec_cache_after(pkt, src, now1, now_ms1, cache, cap, window);
    assert(cache1 == crate::replay::spec_insert(p0, e1, cap));
    let n1 = cache1.len() as int;
    assert(cache1[n1 - 1] == e1);
    assert(crate::replay::spec_keep(e1, now_ms2, ttl)) by {
        assert(e1.arrival + ttl >= now_ms2);
    }
    crate::replay::lemma_purge_count_le_keeper(cache1, n1 - 1, now_ms2, ttl);
    crate::replay::lemma_purge_count_bounds(cache1, now_ms2, ttl);
    let p1 = crate::replay::spec_purged(cache1, now_ms2, ttl);
    assert(p1[p1.len() - 1] == cache1[n1 - 1]);
    assert(spec_has_key(p1, src, nonce, ts));
}

/// The action of one datagram that passed the rate limit is the right one:
/// a denial is logged under the reason the pipeline found, an authorization
/// asks for exactly one insertion of the observed source, and nothing else
/// is possible.
pub open spec fn spec_action_ok(
    a: Action,
    pkt: Seq<u8>,
    src: u32,
    now: i64,
    now_ms: u64,
    cache: Seq<crate::replay::ReplayEntry>,
    cap: int,
    cache_final: Seq<crate::replay::ReplayEntry>,
    sk: Seq<u8>,
    psk: Seq<u8>,
    window: i64,
    open: u64,
) -> bool {
    let pre = spec_deny_pre_crypto(pkt, src, now, now_ms, cache, cap, window);
    match a {
        Action::SilentDrop => false,
        Action::DenyLog(rec) => {
            &&& rec.ts == now
            &&& rec.client_ip == src
            &&& !rec.allow
            &&& rec.opens_for_secs == 0
            &&& match pre {
                Some(reason) => rec.reason == reason,
                None => rec.reason == Reason::BadHmac && !spec_mac_ok(pkt, sk, psk),
            }
        },
        Action::InsertAllow { src: s, open_secs: o, allow, denied } => {
            &&& pre is None
            &&& spec_mac_ok(pkt, sk, psk)
            &&& s == src
            &&& o == open
            &&& allow.ts == now
            &&& allow.client_ip == src
            &&& allow.allow
            &&& allow.opens_for_secs == open
            &&& allow.reason == (if spec_client_ip(pkt) != src {
                Reason::AllowedNatMismatch
            } else {
                Reason::Allowed
            })
            &&& denied.ts == now
            &&& denied.client_ip == src
            &&& !denied.allow
            &&& denied.reason == Reason::NftAddFailed
            &&& denied.opens_for_secs == 0
            &&& spec_has_key(cache_final, src, spec_nonce_key(pkt), spec_ts(pkt))
        },
    }
}

/// Decide one received datagram: consume the rate buckets, then run the
/// knock pipeline, and say what the shell must do. The secrets and windows
/// are never changed; the replay cache is touched only when the datagram
/// passes the rate limit.
pub fn daemon_step(state: &mut DaemonState, pkt: &[u8], src: u32, now: i64, now_ms: u64) -> (a:
    Action)
    requires
        old(state).wf(),
        arrivals_le(old(state).replay.entries@, now_ms),
    ensures
        final(state).wf(),
        arrivals_le(final(state).replay.entries@, now_ms),
        final(state).sk@ == old(state).sk@,
        final(state).psk@ == old(state).psk@,
        final(state).window_secs == old(state).window_secs,
        final(state).open_secs == old(state).open_secs,
        final(state).replay.cap == old(state).replay.cap,
        ({
            let m = spec_permit(
                old(state).rate.global_tokens,
                old(state).rate.last_global_refill,
                old(state).rate.buckets@,
                src,
                now_ms,
            );
            &&& final(state).rate.global_tokens == m.1
            &&& final(state).rate.last_global_refill == m.2
            &&& final(state).rate.buckets@ == m.3
            &&& (a is SilentDrop <==> !m.0)
            &&& (!m.0 ==> final(state).replay.entries@ == old(state).replay.entries@)
            &&& (m.0 ==> final(state).replay.entries@ == spec_cache_after(
                pkt@,
                src,
                now,
                now_ms,
                old(state).replay.entries@,
                old(state).replay.cap as int,
                old(state).window_secs,
            ))
            &&& (m.0 ==> spec_action_ok(
                a,
                pkt@,
                src,
                now,
                now_ms,
                old(state).replay.entries@,
                old(state).replay.cap as int,
                final(state).replay.entries@,
                old(state).sk@,
                old(state).psk@,
                old(state).window_secs,
                old(state).open_secs,
            ))
        }),
{
    let admitted = state.rate.permit(src, now_ms);
    if !admitted {
        return Action::SilentDrop;
    }
    let open_secs = state.open_secs;
    let window_secs = state.window_secs;
    match handle_packet(
        &mut state.replay,
        pkt,
        src,
        now,
        now_ms,
        state.sk.as_slice(),
        state.psk.as_slice(),
        window_secs,
    ) {
        Err(reason) => Action::DenyLog(
            DecisionRecord { ts: now, client_ip: src, allow: false, reason, opens_for_secs: 0 },
        ),
        Ok(nat_mismatch) => {
            let reason = if nat_mismatch {
                Reason::AllowedNatMismatch
            } else {
                Reason::Allowed
            };
            Action::InsertAllow {
                src,
                open_secs,
                allow: DecisionRecord {
                    ts: now,
                    client_ip: src,
                    allow: true,
                    reason,
                    opens_for_secs: open_secs,
                },
                denied: DecisionRecord {
                    ts: now,
                    client_ip: src,
                    allow: false,
                    reason: Reason::NftAddFailed,
                    opens_for_secs: 0,
                },
            }
        },
    }
}

/// The stable token of a reason, as it appears in the decision log.
pub open spec fn spec_reason_token(r: Reason) -> Seq<char> {
    match r {
        Reason::Allowed => "ok"@,
        Reason::AllowedNatMismatch => "ok_nat_mismatch"@,
        Reason::TooShort => "packet too short"@,
        Reason::BadVersion => "bad_ver"@,
        Reason::LengthMismatch => "length mismatch"@,
        Reason::BadCtLen => "bad_ct_len"@,
        Reason::StaleTs => "stale_ts"@,
        Reason::Replay => "replay"@,
        Reason::DecapFailed => "decap_failed"@,
        Reason::HmacKey => "hmac_key"@,
        Reason::BadHmac => "bad_hmac"@,
        Reason::NftAddFailed => "nft_add_failed"@,
    }
}

/// Render a reason as its stable token.
pub fn reason_token(r: Reason) -> (s: &'static str)
    ensures
        s@ == spec_reason_token(r),
{
    match r {
        Reason::Allowed => "ok",
        Reason::AllowedNatMismatch => "ok_nat_mismatch",
        Reason::TooShort => "packet too short",
        Reason::BadVersion => "bad_ver",
        Reason::LengthMismatch => "length mismatch",
        Reason::BadCtLen => "bad_ct_len",
        Reason::StaleTs => "stale_ts",
        Reason::Replay => "replay",
        Reason::DecapFailed => "decap_failed",
        Reason::HmacKey => "hmac_key",
        Reason::BadHmac => "bad_hmac",
        Reason::NftAddFailed => "nft_add_failed",
    }
}

/// Render the decision word of a record.
pub fn decision_str(allow: bool) -> (s: &'static str)
    ensures
        allow ==> s@ == "allow"@,
        !allow ==> s@ == "deny"@,
{
    if allow {
        "allow"
    } else {
        "deny"
    }
}

} // verus!
