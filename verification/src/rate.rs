//! Rate limiting: two token buckets in series.
//!
//! A global bucket (capacity 200) and one bucket per source address
//! (capacity 20), each refilled to capacity once a second against a
//! caller-supplied monotonic clock. Both are consumed before any parsing;
//! a datagram that finds either bucket empty is dropped silently. The
//! per-source map is bounded: when a refill tick finds it over its cap,
//! sources idle for ten seconds are evicted.

use vstd::prelude::*;

verus! {

/// Capacity of the global bucket.
pub const GLOBAL_CAP: u32 = 200;

/// Capacity of each per-source bucket.
pub const PER_SRC_CAP: u32 = 20;

/// Both buckets refill to capacity this often (same units as the clock).
pub const REFILL_MS: u64 = 1000;

/// The per-source map is held near this many entries.
pub const SRC_MAP_CAP: usize = 8192;

/// A source idle this long may be evicted under map pressure.
pub const STALE_MS: u64 = 10000;

/// The token bucket of one source address.
#[derive(Clone, Copy)]
pub struct Bucket {
    pub src: u32,
    pub tokens: u32,
    pub last_refill: u64,
}

pub open spec fn unique_srcs(bs: Seq<Bucket>) -> bool {
    forall|i: int, j: int| 0 <= i < j < bs.len() ==> bs[i].src != bs[j].src
}

pub open spec fn has_src(bs: Seq<Bucket>, src: u32) -> bool {
    exists|i: int| 0 <= i < bs.len() && bs[i].src == src
}

pub open spec fn tokens_bounded(bs: Seq<Bucket>) -> bool {
    forall|i: int| 0 <= i < bs.len() ==> (#[trigger] bs[i]).tokens <= PER_SRC_CAP
}

/// A source is fresh while its last refill lies within the staleness bound.
pub open spec fn bucket_fresh(b: Bucket, now: u64) -> bool {
    b.last_refill + STALE_MS >= now
}

/// The per-source map with every stale source removed, order kept.
pub open spec fn spec_evict(bs: Seq<Bucket>, now: u64) -> Seq<Bucket>
    decreases bs.len(),
{
    if bs.len() == 0 {
        Seq::empty()
    } else {
        let rest = spec_evict(bs.subrange(1, bs.len() as int), now);
        if bucket_fresh(bs[0], now) {
            seq![bs[0]] + rest
        } else {
            rest
        }
    }
}

/// Eviction keeps only fresh sources, keeps no source it did not have, and
/// preserves source uniqueness and the token bound.
pub proof fn lemma_evict_props(bs: Seq<Bucket>, now: u64)
    ensures
        forall|i: int|
            0 <= i < spec_evict(bs, now).len() ==> bucket_fresh(
                #[trigger] spec_evict(bs, now)[i],
                now,
            ),
        forall|src: u32| has_src(spec_evict(bs, now), src) ==> has_src(bs, src),
        unique_srcs(bs) ==> unique_srcs(spec_evict(bs, now)),
        tokens_bounded(bs) ==> tokens_bounded(spec_evict(bs, now)),
        spec_evict(bs, now).len() <= bs.len(),
    decreases bs.len(),
{
    if bs.len() > 0 {
        let tail = bs.subrange(1, bs.len() as int);
        lemma_evict_props(tail, now);
        let rest = spec_evict(tail, now);
        assert forall|src: u32| has_src(spec_evict(bs, now), src) implies has_src(bs, src) by {
            let e = spec_evict(bs, now);
            let i = choose|i: int| 0 <= i < e.len() && e[i].src == src;
            if bucket_fresh(bs[0], now) && i == 0 {
                assert(bs[0].src == src);
            } else {
                let j = if bucket_fresh(bs[0], now) {
                    i - 1
                } else {
                    i
                };
                assert(rest[j].src == src);
                assert(has_src(tail, src));
                let k = choose|k: int| 0 <= k < tail.len() && tail[k].src == src;
                assert(bs[k + 1].src == src);
            }
        }
        if unique_srcs(bs) {
            assert(unique_srcs(tail));
            if bucket_fresh(bs[0], now) {
                let e = spec_evict(bs, now);
                assert forall|i: int, j: int| 0 <= i < j < e.len() implies e[i].src != e[j].src by {
                    if i == 0 {
                        assert(e[j] == rest[j - 1]);
                        if e[0].src == e[j].src {
                            assert(has_src(rest, bs[0].src));
                            assert(has_src(tail, bs[0].src));
                            let k = choose|k: int| 0 <= k < tail.len() && tail[k].src == bs[0].src;
                            assert(bs[k + 1].src == bs[0].src);
                        }
                    } else {
                        assert(e[i] == rest[i - 1] && e[j] == rest[j - 1]);
                    }
                }
            }
        }
    }
}

/// The index of the bucket of `src`, or -1 when the map holds none.
pub open spec fn spec_find(bs: Seq<Bucket>, src: u32) -> int
    decreases bs.len(),
{
    if bs.len() == 0 {
        -1
    } else if bs[0].src == src {
        0
    } else {
        let r = spec_find(bs.subrange(1, bs.len() as int), src);
        if r == -1 {
            -1
        } else {
            1 + r
        }
    }
}

pub proof fn lemma_find_props(bs: Seq<Bucket>, src: u32)
    ensures
        -1 <= spec_find(bs, src) < bs.len(),
        spec_find(bs, src) >= 0 ==> bs[spec_find(bs, src)].src == src,
        (spec_find(bs, src) == -1) <==> !has_src(bs, src),
    decreases bs.len(),
{
    if bs.len() > 0 && bs[0].src != src {
        let tail = bs.subrange(1, bs.len() as int);
        lemma_find_props(tail, src);
        if spec_find(tail, src) == -1 {
            assert forall|i: int| 0 <= i < bs.len() implies bs[i].src != src by {
                if i > 0 {
                    assert(tail[i - 1].src != src);
                }
            }
        } else {
            assert(bs[1 + spec_find(tail, src)] == tail[spec_find(tail, src)]);
        }
    }
}

/// `spec_find` names the first index whose source matches.
pub proof fn lemma_find_char(bs: Seq<Bucket>, src: u32, j: int)
    requires
        0 <= j <= bs.len(),
        forall|k: int| 0 <= k < j ==> bs[k].src != src,
        j == bs.len() || bs[j].src == src,
    ensures
        spec_find(bs, src) == if j == bs.len() {
            -1
        } else {
            j
        },
    decreases j,
{
    let tail = bs.subrange(1, bs.len() as int);
    if j == 0 {
        if bs.len() > 0 && bs[0].src != src {
            assert(forall|k: int| 0 <= k < tail.len() ==> tail[k] == bs[k + 1]);
            lemma_find_props(tail, src);
        }
    } else {
        assert(forall|k: int| 0 <= k < j - 1 ==> tail[k] == bs[k + 1]);
        if j < bs.len() {
            assert(tail[j - 1] == bs[j]);
        }
        lemma_find_char(tail, src, j - 1);
    }
}

/// The global bucket, its refill instant, and the per-source map after the
/// refill tick that precedes every permission decision.
pub open spec fn spec_tick(g: u32, last: u64, bs: Seq<Bucket>, now: u64) -> (u32, u64, Seq<
    Bucket,
>) {
    if last + REFILL_MS <= now {
        (
            GLOBAL_CAP,
            now,
            if bs.len() > SRC_MAP_CAP {
                spec_evict(bs, now)
            } else {
                bs
            },
        )
    } else {
        (g, last, bs)
    }
}

/// One bucket after its own lazy refill.
pub open spec fn spec_refill_bucket(b: Bucket, now: u64) -> Bucket {
    if b.last_refill + REFILL_MS <= now {
        Bucket { src: b.src, tokens: PER_SRC_CAP, last_refill: now }
    } else {
        b
    }
}

/// The whole permission decision on the mathematical model: tick, consume a
/// global token, then consume a token of the source's bucket, creating or
/// refilling it as due. The bool says whether the datagram may proceed.
pub open spec fn spec_permit(g: u32, last: u64, bs: Seq<Bucket>, src: u32, now: u64) -> (
    bool,
    u32,
    u64,
    Seq<Bucket>,
) {
    let (g1, l1, bs1) = spec_tick(g, last, bs, now);
    if g1 == 0 {
        (false, g1, l1, bs1)
    } else {
        let g2 = (g1 - 1) as u32;
        let i = spec_find(bs1, src);
        if i == -1 {
            (
                true,
                g2,
                l1,
                bs1.push(Bucket { src, tokens: (PER_SRC_CAP - 1) as u32, last_refill: now }),
            )
        } else {
            let b = spec_refill_bucket(bs1[i], now);
            if b.tokens == 0 {
                (false, g2, l1, bs1.update(i, b))
            } else {
                (
                    true,
                    g2,
                    l1,
                    bs1.update(
                        i,
                        Bucket {
                            src: b.src,
                            tokens: (b.tokens - 1) as u32,
                            last_refill: b.last_refill,
                        },
                    ),
                )
            }
        }
    }
}

/// Both token buckets, global and per-source.
pub struct RateLimiter {
    pub global_tokens: u32,
    pub last_global_refill: u64,
    pub buckets: Vec<Bucket>,
}

impl RateLimiter {
    pub open spec fn wf(self) -> bool {
        &&& self.global_tokens <= GLOBAL_CAP
        &&& unique_srcs(self.buckets@)
        &&& tokens_bounded(self.buckets@)
    }

    /// A limiter with both buckets full, as at daemon start.
    pub fn new(now: u64) -> (r: RateLimiter)
        ensures
            r.wf(),
            r.global_tokens == GLOBAL_CAP,
            r.last_global_refill == now,
            r.buckets@.len() == 0,
    {
        RateLimiter { global_tokens: GLOBAL_CAP, last_global_refill: now, buckets: Vec::new() }
    }

    /// Decide whether a datagram from `src` arriving at `now` may proceed,
    /// consuming at most one token from each bucket.
    pub fn permit(&mut self, src: u32, now: u64) -> (r: bool)
        requires
            old(self).wf(),
        ensures
            final(self).wf(),
            ({
                let (r0, g0, l0, bs0) = spec_permit(
                    old(self).global_tokens,
                    old(self).last_global_refill,
                    old(self).buckets@,
                    src,
                    now,
                );
                r == r0 && final(self).global_tokens == g0 && final(self).last_global_refill == l0
                    && final(self).buckets@ == bs0
            }),
    {
        let ghost m0 = (self.global_tokens, self.last_global_refill, self.buckets@);
        if now >= REFILL_MS && self.last_global_refill <= now - REFILL_MS {
            self.global_tokens = GLOBAL_CAP;
            self.last_global_refill = now;
            if self.buckets.len() > SRC_MAP_CAP {
                let evicted = evict_stale(&self.buckets, now);
                proof {
                    lemma_evict_props(self.buckets@, now);
                }
                self.buckets = evicted;
            }
        }
        proof {
            let (g1, l1, bs1) = spec_tick(m0.0, m0.1, m0.2, now);
            assert(self.global_tokens == g1 && self.last_global_refill == l1 && self.buckets@
                == bs1);
        }
        if self.global_tokens == 0 {
            return false;
        }
        self.global_tokens = self.global_tokens - 1;
        let ghost bs1 = self.buckets@;
        let mut i: usize = 0;
        while i < self.buckets.len()
            invariant_except_break
                i <= self.buckets@.len(),
                self.buckets@ == bs1,
                forall|k: int| 0 <= k < i ==> bs1[k].src != src,
            ensures
                i <= bs1.len(),
                self.buckets@ == bs1,
                forall|k: int| 0 <= k < i ==> bs1[k].src != src,
                i == bs1.len() || bs1[i as int].src == src,
            decreases self.buckets@.len() - i,
        {
            if self.buckets[i].src == src {
                break ;
            }
            i = i + 1;
        }
        proof {
            lemma_find_char(bs1, src, i as int);
        }
        if i == self.buckets.len() {
            self.buckets.push(Bucket { src, tokens: PER_SRC_CAP - 1, last_refill: now });
            return true;
        }
        let mut b = self.buckets[i];
        if now >= REFILL_MS && b.last_refill <= now - REFILL_MS {
            b = Bucket { src: b.src, tokens: PER_SRC_CAP, last_refill: now };
        }
        proof {
            assert(b == spec_refill_bucket(bs1[i as int], now));
        }
        if b.tokens == 0 {
            self.buckets[i] = b;
            return false;
        }
        b = Bucket { src: b.src, tokens: b.tokens - 1, last_refill: b.last_refill };
        self.buckets[i] = b;
        true
    }
}

/// Rebuild the per-source map with every stale source dropped.
fn evict_stale(bs: &Vec<Bucket>, now: u64) -> (r: Vec<Bucket>)
    ensures
        r@ == spec_evict(bs@, now),
{
    let mut r: Vec<Bucket> = Vec::new();
    let mut i: usize = 0;
    proof {
        assert(bs@.subrange(0, bs@.len() as int) =~= bs@);
        assert(r@ + spec_evict(bs@, now) =~= spec_evict(bs@, now));
    }
    while i < bs.len()
        invariant
            i <= bs@.len(),
            spec_evict(bs@, now) =~= r@ + spec_evict(bs@.subrange(i as int, bs@.len() as int), now),
        decreases bs@.len() - i,
    {
        let b = bs[i];
        let ghost pre = bs@.subrange(i as int, bs@.len() as int);
        proof {
            assert(pre.subrange(1, pre.len() as int) =~= bs@.subrange(
                i + 1 as int,
                bs@.len() as int,
            ));
            assert(pre[0] == bs@[i as int]);
        }
        let keep = if b.last_refill > now {
            true
        } else {
            now - b.last_refill <= STALE_MS
        };
        if keep {
            r.push(b);
            proof {
                assert(spec_evict(pre, now) =~= seq![bs@[i as int]] + spec_evict(
                    bs@.subrange(i + 1 as int, bs@.len() as int),
                    now,
                ));
            }
        } else {
            proof {
                assert(spec_evict(pre, now) =~= spec_evict(
                    bs@.subrange(i + 1 as int, bs@.len() as int),
                    now,
                ));
            }
        }
        i = i + 1;
    }
    proof {
        assert(bs@.subrange(bs@.len() as int, bs@.len() as int) =~= Seq::<Bucket>::empty());
        assert(r@ + Seq::<Bucket>::empty() =~= r@);
    }
    r
}

/// Neither bucket is consumed more than once per received datagram, and no
/// bucket of another source is touched by a decision.
pub proof fn lemma_buckets_consumed_at_most_once(
    g: u32,
    last: u64,
    bs: Seq<Bucket>,
    src: u32,
    now: u64,
)
    requires
        unique_srcs(bs),
        tokens_bounded(bs),
    ensures
        ({
            let (g1, l1, bs1) = spec_tick(g, last, bs, now);
            let (r, g2, l2, bs2) = spec_permit(g, last, bs, src, now);
            &&& g2 + 1 >= g1
            &&& forall|j: int|
                0 <= j < bs1.len() && bs1[j].src != src ==> 0 <= j < bs2.len() && bs2[j] == bs1[j]
            &&& forall|j: int|
                0 <= j < bs1.len() && bs1[j].src == src ==> 0 <= j < bs2.len() && (bs2[j] == bs1[j]
                    || bs2[j].tokens + 1 >= spec_refill_bucket(bs1[j], now).tokens)
        }),
{
    let (g1, l1, bs1) = spec_tick(g, last, bs, now);
    let (r, g2, l2, bs2) = spec_permit(g, last, bs, src, now);
    if bs.len() > SRC_MAP_CAP && last + REFILL_MS <= now {
        lemma_evict_props(bs, now);
    }
    lemma_find_props(bs1, src);
    if g1 != 0 {
        let i = spec_find(bs1, src);
        if i == -1 {
            assert forall|j: int| 0 <= j < bs1.len() && bs1[j].src != src implies 0 <= j
                < bs2.len() && bs2[j] == bs1[j] by {
                assert(bs2 == bs1.push(
                    Bucket { src, tokens: (PER_SRC_CAP - 1) as u32, last_refill: now },
                ));
            }
            assert forall|j: int| 0 <= j < bs1.len() && bs1[j].src == src implies 0 <= j
                < bs2.len() && (bs2[j] == bs1[j] || bs2[j].tokens + 1 >= spec_refill_bucket(
                bs1[j],
                now,
            ).tokens) by {
                assert(has_src(bs1, src));
            }
        } else {
            assert(bs1[i].src == src);
            assert forall|j: int| 0 <= j < bs1.len() && bs1[j].src != src implies 0 <= j
                < bs2.len() && bs2[j] == bs1[j] by {}
            assert forall|j: int| 0 <= j < bs1.len() && bs1[j].src == src implies 0 <= j
                < bs2.len() && (bs2[j] == bs1[j] || bs2[j].tokens + 1 >= spec_refill_bucket(
                bs1[j],
                now,
            ).tokens) by {
                if j != i {
                    assert(bs1[i].src == src);
                }
            }
        }
    }
}

} // verus!
