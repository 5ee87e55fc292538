//! Replay suppression.
//!
//! A bounded set of `(source, nonce, timestamp)` triples, held in arrival
//! order. Before each lookup, entries older than the freshness window are
//! purged from the head of the queue; when the cap would be exceeded, the
//! oldest entry is evicted. A triple is inserted before MAC verification,
//! so a replayed capture cannot spend cryptographic budget twice.

use std::collections::VecDeque;
use vstd::prelude::*;

verus! {

/// Default hard capacity of the replay cache.
pub const REPLAY_CAP: usize = 4096;

/// One remembered knock: its key `(src, nonce, ts)` and the monotonic
/// instant (in caller-chosen units) at which it arrived.
#[derive(Clone, Copy)]
pub struct ReplayEntry {
    pub src: u32,
    pub nonce: u128,
    pub ts: i64,
    pub arrival: u64,
}

pub open spec fn same_key(e: ReplayEntry, src: u32, nonce: u128, ts: i64) -> bool {
    e.src == src && e.nonce == nonce && e.ts == ts
}

pub open spec fn spec_has_key(s: Seq<ReplayEntry>, src: u32, nonce: u128, ts: i64) -> bool {
    exists|i: int| 0 <= i < s.len() && same_key(s[i], src, nonce, ts)
}

/// Entries are queued in arrival order.
pub open spec fn sorted_by_arrival(s: Seq<ReplayEntry>) -> bool {
    forall|i: int, j: int| 0 <= i <= j < s.len() ==> s[i].arrival <= s[j].arrival
}

/// No two entries share a key.
pub open spec fn unique_keys(s: Seq<ReplayEntry>) -> bool {
    forall|i: int, j: int|
        0 <= i < j < s.len() ==> !same_key(s[i], s[j].src, s[j].nonce, s[j].ts)
}

/// Every remembered arrival lies at or before `now`.
pub open spec fn arrivals_le(s: Seq<ReplayEntry>, now: u64) -> bool {
    forall|i: int| 0 <= i < s.len() ==> s[i].arrival <= now
}

/// An entry survives a purge at `now` when its arrival is within `ttl`.
pub open spec fn spec_keep(e: ReplayEntry, now: u64, ttl: u64) -> bool {
    e.arrival + ttl >= now
}

/// How many entries a purge at `now` removes from the head of the queue:
/// the purge stops at the first entry young enough to keep.
pub open spec fn spec_purge_count(s: Seq<ReplayEntry>, now: u64, ttl: u64) -> int
    decreases s.len(),
{
    if s.len() == 0 {
        0
    } else if spec_keep(s[0], now, ttl) {
        0
    } else {
        1 + spec_purge_count(s.subrange(1, s.len() as int), now, ttl)
    }
}

/// The queue after a purge at `now`.
pub open spec fn spec_purged(s: Seq<ReplayEntry>, now: u64, ttl: u64) -> Seq<ReplayEntry> {
    s.subrange(spec_purge_count(s, now, ttl), s.len() as int)
}

/// The queue after inserting `e`, evicting the oldest entry if the cap
/// would otherwise be exceeded.
pub open spec fn spec_insert(s: Seq<ReplayEntry>, e: ReplayEntry, cap: int) -> Seq<ReplayEntry> {
    if s.len() >= cap {
        s.subrange(1, s.len() as int).push(e)
    } else {
        s.push(e)
    }
}

/// The whole consult-and-remember step on the mathematical model: purge,
/// then either find the key (and change nothing more) or insert it.
pub open spec fn spec_seen_or_insert(
    s: Seq<ReplayEntry>,
    cap: int,
    src: u32,
    nonce: u128,
    ts: i64,
    now: u64,
    ttl: u64,
) -> (bool, Seq<ReplayEntry>) {
    let p = spec_purged(s, now, ttl);
    if spec_has_key(p, src, nonce, ts) {
        (true, p)
    } else {
        (false, spec_insert(p, ReplayEntry { src, nonce, ts, arrival: now }, cap))
    }
}

pub proof fn lemma_purge_count_bounds(s: Seq<ReplayEntry>, now: u64, ttl: u64)
    ensures
        0 <= spec_purge_count(s, now, ttl) <= s.len(),
    decreases s.len(),
{
    if s.len() > 0 && !spec_keep(s[0], now, ttl) {
        lemma_purge_count_bounds(s.subrange(1, s.len() as int), now, ttl);
    }
}

/// The purge count is the index of the first entry young enough to keep.
pub proof fn lemma_purge_count_char(s: Seq<ReplayEntry>, k: int, now: u64, ttl: u64)
    requires
        0 <= k <= s.len(),
        forall|i: int| 0 <= i < k ==> !spec_keep(s[i], now, ttl),
        k == s.len() || spec_keep(s[k], now, ttl),
    ensures
        spec_purge_count(s, now, ttl) == k,
    decreases k,
{
    if k == 0 {
    } else {
        let tail = s.subrange(1, s.len() as int);
        assert(!spec_keep(s[0], now, ttl));
        assert(forall|i: int| 0 <= i < k - 1 ==> !spec_keep(tail[i], now, ttl));
        lemma_purge_count_char(tail, k - 1, now, ttl);
    }
}

/// The purge never removes an entry young enough to keep.
pub proof fn lemma_purge_count_le_keeper(s: Seq<ReplayEntry>, i: int, now: u64, ttl: u64)
    requires
        0 <= i < s.len(),
        spec_keep(s[i], now, ttl),
    ensures
        spec_purge_count(s, now, ttl) <= i,
    decreases i,
{
    if !spec_keep(s[0], now, ttl) {
        lemma_purge_count_le_keeper(s.subrange(1, s.len() as int), i - 1, now, ttl);
    }
}

/// Order, key uniqueness and the arrival bound all pass to any subrange.
pub proof fn lemma_subrange_props(s: Seq<ReplayEntry>, a: int, b: int, now: u64)
    requires
        0 <= a <= b <= s.len(),
    ensures
        sorted_by_arrival(s) ==> sorted_by_arrival(s.subrange(a, b)),
        unique_keys(s) ==> unique_keys(s.subrange(a, b)),
        arrivals_le(s, now) ==> arrivals_le(s.subrange(a, b), now),
{
}

/// A key found in a subrange is present in the whole queue.
pub proof fn lemma_has_key_subrange(
    s: Seq<ReplayEntry>,
    a: int,
    b: int,
    src: u32,
    nonce: u128,
    ts: i64,
)
    requires
        0 <= a <= b <= s.len(),
        spec_has_key(s.subrange(a, b), src, nonce, ts),
    ensures
        spec_has_key(s, src, nonce, ts),
{
    let sub = s.subrange(a, b);
    let i = choose|i: int| 0 <= i < sub.len() && same_key(sub[i], src, nonce, ts);
    assert(same_key(s[a + i], src, nonce, ts));
}

/// In an arrival-ordered queue, everything that survives a purge is young
/// enough to keep.
pub proof fn lemma_purged_all_keep(s: Seq<ReplayEntry>, now: u64, ttl: u64)
    requires
        sorted_by_arrival(s),
    ensures
        forall|i: int|
            0 <= i < spec_purged(s, now, ttl).len() ==> spec_keep(
                #[trigger] spec_purged(s, now, ttl)[i],
                now,
                ttl,
            ),
{
    lemma_purge_count_bounds(s, now, ttl);
    lemma_purge_count_stops_at_keeper(s, now, ttl);
    let c = spec_purge_count(s, now, ttl);
    let p = spec_purged(s, now, ttl);
    if c < s.len() {
        assert forall|i: int| 0 <= i < p.len() implies spec_keep(p[i], now, ttl) by {
            assert(p[i] == s[c + i]);
            assert(s[c].arrival <= s[c + i].arrival);
        }
    }
}

/// When the purge stops short of emptying the queue, it stops at an entry
/// young enough to keep.
proof fn lemma_purge_count_stops_at_keeper(s: Seq<ReplayEntry>, now: u64, ttl: u64)
    ensures
        spec_purge_count(s, now, ttl) < s.len() ==> spec_keep(
            s[spec_purge_count(s, now, ttl)],
            now,
            ttl,
        ),
    decreases s.len(),
{
    if s.len() > 0 && !spec_keep(s[0], now, ttl) {
        let tail = s.subrange(1, s.len() as int);
        lemma_purge_count_stops_at_keeper(tail, now, ttl);
        lemma_purge_count_bounds(tail, now, ttl);
        let c = spec_purge_count(s, now, ttl);
        if c < s.len() {
            assert(s[c] == tail[c - 1]);
        }
    }
}

/// A key whose every occurrence is too old does not survive a purge.
pub proof fn lemma_stale_key_purged(
    s: Seq<ReplayEntry>,
    now: u64,
    ttl: u64,
    src: u32,
    nonce: u128,
    ts: i64,
)
    requires
        sorted_by_arrival(s),
        forall|i: int|
            0 <= i < s.len() && same_key(#[trigger] s[i], src, nonce, ts) ==> !spec_keep(
                s[i],
                now,
                ttl,
            ),
    ensures
        !spec_has_key(spec_purged(s, now, ttl), src, nonce, ts),
{
    lemma_purge_count_bounds(s, now, ttl);
    lemma_purged_all_keep(s, now, ttl);
    let c = spec_purge_count(s, now, ttl);
    let p = spec_purged(s, now, ttl);
    if spec_has_key(p, src, nonce, ts) {
        let i = choose|i: int| 0 <= i < p.len() && same_key(p[i], src, nonce, ts);
        assert(p[i] == s[c + i]);
    }
}

/// The bounded replay cache: a queue of remembered knocks in arrival order.
pub struct ReplayCache {
    pub entries: VecDeque<ReplayEntry>,
    pub cap: usize,
}

impl ReplayCache {
    pub open spec fn wf(self) -> bool {
        &&& self.cap >= 1
        &&& self.entries@.len() <= self.cap
        &&& sorted_by_arrival(self.entries@)
        &&& unique_keys(self.entries@)
    }

    /// An empty cache that will never hold more than `cap` entries.
    pub fn new(cap: usize) -> (r: ReplayCache)
        requires
            cap >= 1,
        ensures
            r.wf(),
            r.cap == cap,
            r.entries@.len() == 0,
    {
        ReplayCache { entries: VecDeque::new(), cap }
    }

    /// Is `(src, nonce, ts)` remembered?
    pub fn contains_key(&self, src: u32, nonce: u128, ts: i64) -> (r: bool)
        ensures
            r == spec_has_key(self.entries@, src, nonce, ts),
    {
        let mut i: usize = 0;
        while i < self.entries.len()
            invariant
                i <= self.entries@.len(),
                forall|j: int| 0 <= j < i ==> !same_key(self.entries@[j], src, nonce, ts),
            decreases self.entries@.len() - i,
        {
            let e = self.entries[i];
            if e.src == src && e.nonce == nonce && e.ts == ts {
                return true;
            }
            i = i + 1;
        }
        false
    }

    /// Drop entries older than `ttl` from the head of the queue.
    fn purge_expired(&mut self, now: u64, ttl: u64)
        requires
            old(self).wf(),
        ensures
            final(self).wf(),
            final(self).cap == old(self).cap,
            final(self).entries@ == spec_purged(old(self).entries@, now, ttl),
    {
        let ghost orig = self.entries@;
        let ghost mut k: int = 0int;
        loop
            invariant
                self.wf(),
                self.cap == old(self).cap,
                0 <= k <= orig.len(),
                self.entries@ =~= orig.subrange(k, orig.len() as int),
                forall|i: int| 0 <= i < k ==> !spec_keep(orig[i], now, ttl),
            ensures
                self.entries@.len() == 0 || spec_keep(self.entries@[0], now, ttl),
            decreases self.entries@.len(),
        {
            if self.entries.len() == 0 {
                break;
            }
            let e = self.entries[0];
            if keep_entry(&e, now, ttl) {
                break;
            }
            let _ = self.entries.pop_front();
            proof {
                assert(self.entries@ =~= orig.subrange(k + 1, orig.len() as int));
                lemma_subrange_props(orig, k + 1, orig.len() as int, now);
                k = k + 1;
            }
        }
        proof {
            if self.entries@.len() == 0 {
                lemma_purge_count_char(orig, k, now, ttl);
            } else {
                assert(spec_keep(orig[k], now, ttl));
                lemma_purge_count_char(orig, k, now, ttl);
            }
            assert(final(self).entries@ =~= spec_purged(orig, now, ttl));
        }
    }

    /// Consult and remember in one step: purge, then report whether the key
    /// was already present, inserting it (evicting the oldest entry under
    /// cap pressure) when it was not. Returns `true` exactly on a replay.
    pub fn seen_or_insert(&mut self, src: u32, nonce: u128, ts: i64, now: u64, ttl: u64) -> (r:
        bool)
        requires
            old(self).wf(),
            arrivals_le(old(self).entries@, now),
        ensures
            final(self).wf(),
            final(self).cap == old(self).cap,
            arrivals_le(final(self).entries@, now),
            r == spec_seen_or_insert(old(self).entries@, old(self).cap as int, src, nonce, ts, now, ttl).0,
            final(self).entries@ == spec_seen_or_insert(
                old(self).entries@,
                old(self).cap as int,
                src,
                nonce,
                ts,
                now,
                ttl,
            ).1,
            spec_has_key(final(self).entries@, src, nonce, ts),
    {
        let ghost orig = self.entries@;
        self.purge_expired(now, ttl);
        let ghost purged = self.entries@;
        proof {
            lemma_purge_count_bounds(orig, now, ttl);
            lemma_subrange_props(orig, spec_purge_count(orig, now, ttl), orig.len() as int, now);
        }
        if self.contains_key(src, nonce, ts) {
            return true;
        }
        if self.entries.len() >= self.cap {
            let ghost before = self.entries@;
            let _ = self.entries.pop_front();
            proof {
                assert(self.entries@ =~= before.subrange(1, before.len() as int));
                lemma_subrange_props(before, 1, before.len() as int, now);
                assert forall|j: int|
                    0 <= j < self.entries@.len() implies !same_key(
                    self.entries@[j],
                    src,
                    nonce,
                    ts,
                ) by {
                    assert(self.entries@[j] == before[j + 1]);
                }
            }
        }
        let e = ReplayEntry { src, nonce, ts, arrival: now };
        self.entries.push_back(e);
        proof {
            let fin = self.entries@;
            assert(same_key(fin[fin.len() - 1], src, nonce, ts));
            assert(fin == spec_insert(purged, e, old(self).cap as int));
        }
        false
    }
}

/// Replay idempotence. Starting from a cache that does not hold the key,
/// consulting it repeatedly with the same key reports "new" once and
/// "replay" on every later consultation inside the window; once the window
/// has lapsed and the purge has run, the key reports "new" again.
pub proof fn lemma_replay_idempotence(
    s: Seq<ReplayEntry>,
    cap: int,
    src: u32,
    nonce: u128,
    ts: i64,
    now1: u64,
    now2: u64,
    now3: u64,
    now4: u64,
    ttl: u64,
)
    requires
        cap >= 1,
        s.len() <= cap,
        sorted_by_arrival(s),
        unique_keys(s),
        arrivals_le(s, now1),
        !spec_has_key(s, src, nonce, ts),
        now1 <= now2 <= now3 <= now4,
        now2 <= now1 + ttl,
        now3 <= now1 + ttl,
        now4 > now1 + ttl,
    ensures
        ({
            let (r1, s1) = spec_seen_or_insert(s, cap, src, nonce, ts, now1, ttl);
            let (r2, s2) = spec_seen_or_insert(s1, cap, src, nonce, ts, now2, ttl);
            let (r3, s3) = spec_seen_or_insert(s2, cap, src, nonce, ts, now3, ttl);
            let (r4, s4) = spec_seen_or_insert(s3, cap, src, nonce, ts, now4, ttl);
            !r1 && r2 && r3 && !r4
        }),
{
    let e1 = ReplayEntry { src, nonce, ts, arrival: now1 };
    lemma_purge_count_bounds(s, now1, ttl);
    let c0 = spec_purge_count(s, now1, ttl);
    let p0 = spec_purged(s, now1, ttl);
    assert(!spec_has_key(p0, src, nonce, ts)) by {
        if spec_has_key(p0, src, nonce, ts) {
            lemma_has_key_subrange(s, c0, s.len() as int, src, nonce, ts);
        }
    }
    let (r1, s1) = spec_seen_or_insert(s, cap, src, nonce, ts, now1, ttl);
    assert(!r1);
    // The base under the fresh entry: the purged queue, less the evicted
    // head under cap pressure. It holds no occurrence of the key.
    let base = if p0.len() >= cap {
        p0.subrange(1, p0.len() as int)
    } else {
        p0
    };
    assert(s1 == base.push(e1));
    assert(forall|j: int| 0 <= j < base.len() ==> !same_key(#[trigger] base[j], src, nonce, ts))
        by {
        if p0.len() >= cap {
            assert forall|j: int| 0 <= j < base.len() implies !same_key(
                base[j],
                src,
                nonce,
                ts,
            ) by {
                assert(base[j] == p0[j + 1]);
            }
        }
    }
    assert(forall|j: int| 0 <= j < base.len() ==> (#[trigger] base[j]).arrival <= now1) by {
        lemma_subrange_props(s, c0, s.len() as int, now1);
        if p0.len() >= cap {
            assert forall|j: int| 0 <= j < base.len() implies base[j].arrival <= now1 by {
                assert(base[j] == p0[j + 1]);
            }
        }
    }
    // Second call: the fresh entry is last in the queue and young enough,
    // so it survives the purge and is found.
    let n1 = s1.len() as int;
    assert(s1[n1 - 1] == e1);
    assert(spec_keep(e1, now2, ttl));
    lemma_purge_count_le_keeper(s1, n1 - 1, now2, ttl);
    lemma_purge_count_bounds(s1, now2, ttl);
    let c1 = spec_purge_count(s1, now2, ttl);
    let p1 = spec_purged(s1, now2, ttl);
    assert(p1[p1.len() - 1] == s1[n1 - 1]);
    assert(spec_has_key(p1, src, nonce, ts));
    let (r2, s2) = spec_seen_or_insert(s1, cap, src, nonce, ts, now2, ttl);
    assert(r2 && s2 == p1);
    // Third call: unchanged reasoning, one purge later.
    assert(s2[s2.len() - 1] == e1);
    assert(spec_keep(e1, now3, ttl));
    lemma_purge_count_le_keeper(s2, s2.len() as int - 1, now3, ttl);
    lemma_purge_count_bounds(s2, now3, ttl);
    let c2 = spec_purge_count(s2, now3, ttl);
    let p2 = spec_purged(s2, now3, ttl);
    assert(p2[p2.len() - 1] == s2[s2.len() - 1]);
    assert(spec_has_key(p2, src, nonce, ts));
    let (r3, s3) = spec_seen_or_insert(s2, cap, src, nonce, ts, now3, ttl);
    assert(r3 && s3 == p2);
    // After the lapse: every occurrence of the key in the queue is the one
    // inserted at `now1`, now too old to survive the purge.
    assert(forall|j: int|
        0 <= j < s3.len() && same_key(#[trigger] s3[j], src, nonce, ts) ==> s3[j] == e1) by {
        assert forall|j: int|
            0 <= j < s3.len() && same_key(s3[j], src, nonce, ts) implies s3[j] == e1 by {
            assert(s3[j] == s2[c2 + j]);
            assert(s2[c2 + j] == s1[c1 + c2 + j]);
            if c1 + c2 + j < n1 - 1 {
                assert(s1[c1 + c2 + j] == base[c1 + c2 + j]);
            }
        }
    }
    assert(sorted_by_arrival(s1)) by {
        assert forall|i: int, j: int| 0 <= i <= j < s1.len() implies s1[i].arrival
            <= s1[j].arrival by {
            lemma_subrange_props(s, c0, s.len() as int, now1);
            if j < n1 - 1 {
                assert(s1[i] == base[i] && s1[j] == base[j]);
                if p0.len() >= cap {
                    assert(base[i] == p0[i + 1] && base[j] == p0[j + 1]);
                }
            } else if i < n1 - 1 {
                assert(s1[i] == base[i]);
            }
        }
    }
    lemma_subrange_props(s1, c1, n1, now2);
    lemma_subrange_props(s2, c2, s2.len() as int, now3);
    assert(!spec_keep(e1, now4, ttl));
    lemma_stale_key_purged(s3, now4, ttl, src, nonce, ts);
    let (r4, s4) = spec_seen_or_insert(s3, cap, src, nonce, ts, now4, ttl);
    assert(!r4);
}

/// Cap pressure evicts exactly the oldest entry. Inserting a fresh key
/// into a full cache of young entries removes the head alone, and the
/// evicted key is afterwards accepted as new again.
pub proof fn lemma_cap_eviction(
    s: Seq<ReplayEntry>,
    cap: int,
    src: u32,
    nonce: u128,
    ts: i64,
    now: u64,
    now2: u64,
    ttl: u64,
)
    requires
        cap >= 1,
        s.len() == cap,
        sorted_by_arrival(s),
        unique_keys(s),
        arrivals_le(s, now),
        forall|i: int| 0 <= i < s.len() ==> spec_keep(#[trigger] s[i], now, ttl),
        !spec_has_key(s, src, nonce, ts),
    ensures
        ({
            let e = ReplayEntry { src, nonce, ts, arrival: now };
            let (r1, s1) = spec_seen_or_insert(s, cap, src, nonce, ts, now, ttl);
            &&& !r1
            &&& s1 == s.subrange(1, s.len() as int).push(e)
            &&& !spec_has_key(s1, s[0].src, s[0].nonce, s[0].ts)
            &&& !spec_seen_or_insert(s1, cap, s[0].src, s[0].nonce, s[0].ts, now2, ttl).0
        }),
{
    let e = ReplayEntry { src, nonce, ts, arrival: now };
    assert(spec_purge_count(s, now, ttl) == 0) by {
        lemma_purge_count_char(s, 0, now, ttl);
    }
    let p0 = spec_purged(s, now, ttl);
    assert(p0 =~= s);
    let (r1, s1) = spec_seen_or_insert(s, cap, src, nonce, ts, now, ttl);
    assert(!r1);
    assert(s1 =~= s.subrange(1, s.len() as int).push(e));
    let oldest = s[0];
    assert(!spec_has_key(s1, oldest.src, oldest.nonce, oldest.ts)) by {
        if spec_has_key(s1, oldest.src, oldest.nonce, oldest.ts) {
            let i = choose|i: int|
                0 <= i < s1.len() && same_key(s1[i], oldest.src, oldest.nonce, oldest.ts);
            if i < s1.len() - 1 {
                assert(s1[i] == s[i + 1]);
                assert(same_key(s[0], s[i + 1].src, s[i + 1].nonce, s[i + 1].ts));
                assert(!same_key(s[0], s[i + 1].src, s[i + 1].nonce, s[i + 1].ts));
            } else {
                assert(s1[i] == e);
                assert(same_key(s[0], src, nonce, ts));
                assert(spec_has_key(s, src, nonce, ts));
            }
        }
    }
    lemma_purge_count_bounds(s1, now2, ttl);
    assert(!spec_has_key(spec_purged(s1, now2, ttl), oldest.src, oldest.nonce, oldest.ts)) by {
        if spec_has_key(spec_purged(s1, now2, ttl), oldest.src, oldest.nonce, oldest.ts) {
            lemma_has_key_subrange(
                s1,
                spec_purge_count(s1, now2, ttl),
                s1.len() as int,
                oldest.src,
                oldest.nonce,
                oldest.ts,
            );
        }
    }
}

/// Is `e` young enough to survive a purge at `now`?
fn keep_entry(e: &ReplayEntry, now: u64, ttl: u64) -> (r: bool)
    ensures
        r == spec_keep(*e, now, ttl),
{
    if e.arrival > now {
        true
    } else {
        now - e.arrival <= ttl
    }
}

} // verus!
