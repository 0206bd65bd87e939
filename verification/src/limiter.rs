//! Per-client request limiting: a bucket of 40 requests per client that
//! refills by 20 on every whole second, up to 40 again.
//!
//! A bucket's token count only ever changes by whole numbers (minus one per
//! request, plus twenty per elapsed second, capped at forty), so it is held
//! as an integer. Time is a count of nanoseconds on a monotonic clock.
use vstd::prelude::*;
use std::collections::HashMap;
use crate::net::IpAddress;

verus! {

broadcast use vstd::std_specs::hash::group_hash_axioms;

/// Requests a fresh client may make at once.
pub open spec fn burst() -> u32 {
    40
}

/// Tokens added per elapsed whole second.
pub open spec fn refill_rate() -> u32 {
    20
}

pub open spec fn nanos_per_second() -> u64 {
    1_000_000_000
}

/// One client's allowance.
#[derive(Clone, Copy, Debug)]
pub struct Bucket {
    pub tokens: u32,
    /// When the allowance last refilled.
    pub refreshed: u64,
}

/// Whole seconds from `from` to `now`; zero when `now` is earlier.
pub open spec fn elapsed_secs(from: u64, now: u64) -> nat {
    if now >= from {
        ((now - from) as int / nanos_per_second() as int) as nat
    } else {
        0
    }
}

/// The bucket after refilling for the whole seconds that have passed; the
/// refill time advances by exactly those seconds.
pub open spec fn refill(b: Bucket, now: u64) -> Bucket {
    let e = elapsed_secs(b.refreshed, now);
    if e > 0 {
        Bucket {
            tokens: if b.tokens + refill_rate() * e >= burst() {
                burst()
            } else {
                (b.tokens + refill_rate() * e) as u32
            },
            refreshed: (b.refreshed + e * nanos_per_second()) as u64,
        }
    } else {
        b
    }
}

/// One request at `now` against a client's bucket (a new client starts
/// full): it passes and spends a token, or it is refused with the number of
/// seconds to wait. With whole tokens a refused bucket is empty, and
/// `ceil((1 - 0) / 20)`, at least one, is one second.
pub open spec fn take_request(b: Option<Bucket>, now: u64) -> (Bucket, Option<u64>) {
    let start = match b {
        Some(b) => b,
        None => Bucket { tokens: burst(), refreshed: now },
    };
    let r = refill(start, now);
    if r.tokens >= 1 {
        (Bucket { tokens: (r.tokens - 1) as u32, refreshed: r.refreshed }, None)
    } else {
        (r, Some(1u64))
    }
}

fn take_request_exec(b: Option<Bucket>, now: u64) -> (res: (Bucket, Option<u64>))
    requires
        b matches Some(x) ==> x.tokens <= burst(),
    ensures
        res == take_request(b, now),
        res.0.tokens <= burst(),
{
    let start = match b {
        Some(b) => b,
        None => Bucket { tokens: 40, refreshed: now },
    };
    let mut r = start;
    if now >= start.refreshed {
        let e = (now - start.refreshed) / 1_000_000_000;
        if e > 0 {
            assert(e * 1_000_000_000 <= now - start.refreshed) by (nonlinear_arith)
                requires
                    e == (now - start.refreshed) / 1_000_000_000,
                    now >= start.refreshed,
            ;
            let tokens = if e >= 2 {
                40
            } else if start.tokens + 20 >= 40 {
                40
            } else {
                start.tokens + 20
            };
            r = Bucket { tokens, refreshed: start.refreshed + e * 1_000_000_000 };
        }
    }
    assert(r == refill(start, now));
    if r.tokens >= 1 {
        (Bucket { tokens: r.tokens - 1, refreshed: r.refreshed }, None)
    } else {
        (r, Some(1))
    }
}

/// The answers to requests at `times`, in order, starting from bucket `b`.
pub open spec fn replay(b: Option<Bucket>, times: Seq<u64>) -> Seq<Option<u64>>
    decreases times.len(),
{
    if times.len() == 0 {
        seq![]
    } else {
        let (next, out) = take_request(b, times[0]);
        seq![out] + replay(Some(next), times.drop_first())
    }
}

proof fn lemma_replay_within_second(k: u32, t0: u64, times: Seq<u64>)
    requires
        k <= burst(),
        forall|i: int| 0 <= i < times.len() ==> t0 <= #[trigger] times[i] < t0 + nanos_per_second(),
    ensures
        replay(Some(Bucket { tokens: k, refreshed: t0 }), times).len() == times.len(),
        forall|i: int|
            0 <= i < times.len() ==> #[trigger] replay(Some(Bucket { tokens: k, refreshed: t0 }), times)[i]
                == if i < k {
                None
            } else {
                Some(1u64)
            },
    decreases times.len(),
{
    if times.len() > 0 {
        let t = times[0];
        assert(((t - t0) as int / nanos_per_second() as int) == 0) by (nonlinear_arith)
            requires
                t0 <= t < t0 + 1_000_000_000,
        ;
        let next_k: u32 = if k >= 1 {
            (k - 1) as u32
        } else {
            0
        };
        let rest = times.drop_first();
        assert forall|i: int| 0 <= i < rest.len() implies t0 <= #[trigger] rest[i] < t0
            + nanos_per_second() by {
            assert(rest[i] == times[i + 1]);
        }
        lemma_replay_within_second(next_k, t0, rest);
        let r = replay(Some(Bucket { tokens: k, refreshed: t0 }), times);
        assert forall|i: int| 0 <= i < times.len() implies #[trigger] r[i] == if i < k {
            None
        } else {
            Some(1u64)
        } by {
            if i > 0 {
                assert(r[i] == replay(Some(Bucket { tokens: next_k, refreshed: t0 }), rest)[i - 1]);
            }
        }
    }
}

/// A client's first forty requests within one second of its first request
/// pass; every further request in that second is refused with a wait of one
/// second.
pub proof fn law_burst_of_forty(times: Seq<u64>)
    requires
        times.len() > 0,
        forall|i: int|
            0 <= i < times.len() ==> times[0] <= #[trigger] times[i] < times[0] + nanos_per_second(),
    ensures
        replay(None, times).len() == times.len(),
        forall|i: int|
            0 <= i < times.len() ==> #[trigger] replay(None, times)[i] == if i < burst() {
                None
            } else {
                Some(1u64)
            },
{
    let t0 = times[0];
    let rest = times.drop_first();
    assert forall|i: int| 0 <= i < rest.len() implies t0 <= #[trigger] rest[i] < t0
        + nanos_per_second() by {
        assert(rest[i] == times[i + 1]);
    }
    lemma_replay_within_second(39, t0, rest);
    let r = replay(None, times);
    assert forall|i: int| 0 <= i < times.len() implies #[trigger] r[i] == if i < burst() {
        None
    } else {
        Some(1u64)
    } by {
        if i > 0 {
            assert(r[i] == replay(Some(Bucket { tokens: 39, refreshed: t0 }), rest)[i - 1]);
        }
    }
}

/// Whole seconds are counted down to the second: waiting `e` whole seconds
/// means at least `e` and less than `e + 1` seconds have passed (none when
/// the clock went back). A refill adds 20 tokens per whole second, never
/// more than 40 in all and never losing a token the bucket had, and moves
/// the refill time forward by exactly those whole seconds.
pub proof fn law_refill(b: Bucket, now: u64)
    requires
        b.tokens <= 40,
    ensures
        ({
            let e = elapsed_secs(b.refreshed, now);
            &&& now >= b.refreshed ==> e * 1_000_000_000 <= now - b.refreshed < (e + 1) * 1_000_000_000
            &&& now < b.refreshed ==> e == 0
            &&& refill(b, now).tokens == if b.tokens + 20 * e >= 40 {
                40
            } else {
                b.tokens + 20 * e
            }
            &&& refill(b, now).tokens >= b.tokens
            &&& refill(b, now).refreshed == b.refreshed + e * 1_000_000_000
        }),
{
    let e = elapsed_secs(b.refreshed, now);
    if now >= b.refreshed {
        let d: int = now - b.refreshed;
        assert(e * 1_000_000_000 <= d < (e + 1) * 1_000_000_000) by (nonlinear_arith)
            requires
                e == d / 1_000_000_000,
                d >= 0,
        ;
    }
}

/// A new client starts with 40 tokens at its first request. A request
/// passes exactly when the refilled bucket holds a token, and then spends
/// exactly one; a refused request spends nothing and is told to wait one
/// second.
pub proof fn law_take_request(b: Option<Bucket>, now: u64)
    ensures
        ({
            let start = match b {
                Some(x) => x,
                None => Bucket { tokens: 40, refreshed: now },
            };
            let r = refill(start, now);
            let (next, out) = take_request(b, now);
            &&& (out is None) == (r.tokens >= 1)
            &&& out is None ==> next == Bucket { tokens: (r.tokens - 1) as u32, refreshed: r.refreshed }
            &&& out is Some ==> out == Some(1u64) && next == r
        }),
{
}

/// How many of the answers let the request through.
pub open spec fn passes(outs: Seq<Option<u64>>) -> nat
    decreases outs.len(),
{
    if outs.len() == 0 {
        0
    } else {
        (if outs[0] is None {
            1nat
        } else {
            0nat
        }) + passes(outs.drop_first())
    }
}

proof fn lemma_replay_len(b: Option<Bucket>, times: Seq<u64>)
    ensures
        replay(b, times).len() == times.len(),
    decreases times.len(),
{
    if times.len() > 0 {
        lemma_replay_len(Some(take_request(b, times[0]).0), times.drop_first());
    }
}

proof fn lemma_window_from(b: Bucket, times: Seq<u64>, t0: u64, k: nat, window: nat)
    requires
        b.tokens <= burst(),
        b.refreshed == t0 + k * nanos_per_second(),
        k * nanos_per_second() <= window,
        forall|i: int| 0 <= i < times.len() ==> t0 <= #[trigger] times[i] <= t0 + window,
    ensures
        passes(replay(Some(b), times)) + 20 * k <= 20 * (window / nanos_per_second() as nat) + b.tokens,
        forall|i: int| 0 <= i < times.len() ==> (#[trigger] replay(Some(b), times)[i] is None || replay(Some(b), times)[i] == Some(1u64)),
    decreases times.len(),
{
    let fw = window / nanos_per_second() as nat;
    assert(k <= fw) by (nonlinear_arith)
        requires
            k * 1_000_000_000 <= window,
            fw == window / 1_000_000_000,
    ;
    if times.len() > 0 {
        let t = times[0];
        let r = refill(b, t);
        let e = elapsed_secs(b.refreshed, t);
        if t >= b.refreshed {
            assert(e * 1_000_000_000 <= t - b.refreshed) by (nonlinear_arith)
                requires
                    e == (t - b.refreshed) / 1_000_000_000,
                    t >= b.refreshed,
            ;
        }
        let k2: nat = k + e;
        assert(r.refreshed == t0 + k2 * nanos_per_second()) by (nonlinear_arith)
            requires
                e > 0 ==> r.refreshed == b.refreshed + e * 1_000_000_000,
                e == 0 ==> r.refreshed == b.refreshed,
                b.refreshed == t0 + k * 1_000_000_000,
                k2 == k + e,
        ;
        assert(k2 * nanos_per_second() <= window) by (nonlinear_arith)
            requires
                e > 0 ==> b.refreshed + e * 1_000_000_000 <= t,
                b.refreshed == t0 + k * 1_000_000_000,
                t <= t0 + window,
                k * 1_000_000_000 <= window,
                k2 == k + e,
        ;
        assert(r.tokens <= b.tokens + 20 * e);
        let (next, out) = take_request(Some(b), t);
        let rest = times.drop_first();
        assert forall|i: int| 0 <= i < rest.len() implies t0 <= #[trigger] rest[i] <= t0 + window by {
            assert(rest[i] == times[i + 1]);
        }
        lemma_window_from(next, rest, t0, k2, window);
        lemma_replay_len(Some(next), rest);
        let outs = replay(Some(b), times);
        assert(outs.drop_first() == replay(Some(next), rest));
        assert forall|i: int| 0 <= i < times.len() implies (#[trigger] outs[i] is None || outs[i] == Some(1u64)) by {
            if i > 0 {
                assert(outs[i] == replay(Some(next), rest)[i - 1]);
            }
        }
    }
}

/// Over any window of `window` nanoseconds that starts with a client's
/// first request, at most 40 plus 20 per whole second of the window of its
/// requests in that window pass; every refused one is told to wait one
/// second.
pub proof fn law_rate_window(times: Seq<u64>, window: nat)
    requires
        times.len() > 0,
        forall|i: int| 0 <= i < times.len() ==> times[0] <= #[trigger] times[i] <= times[0] + window,
    ensures
        passes(replay(None, times)) <= burst() + refill_rate() * (window / nanos_per_second() as nat),
        forall|i: int| 0 <= i < times.len() ==> (#[trigger] replay(None, times)[i] is None || replay(None, times)[i] == Some(1u64)),
{
    let t0 = times[0];
    let rest = times.drop_first();
    let (next, out) = take_request(None, t0);
    assert(next == Bucket { tokens: 39, refreshed: t0 });
    assert(out is None);
    assert forall|i: int| 0 <= i < rest.len() implies t0 <= #[trigger] rest[i] <= t0 + window by {
        assert(rest[i] == times[i + 1]);
    }
    assert(0 * nanos_per_second() <= window);
    lemma_window_from(next, rest, t0, 0, window);
    lemma_replay_len(Some(next), rest);
    let outs = replay(None, times);
    assert(outs.drop_first() == replay(Some(next), rest));
    assert forall|i: int| 0 <= i < times.len() implies (#[trigger] outs[i] is None || outs[i] == Some(1u64)) by {
        if i > 0 {
            assert(outs[i] == replay(Some(next), rest)[i - 1]);
        }
    }
}

/// A client that has been idle for two whole seconds has its full burst
/// again: its next request passes and leaves 39 tokens.
pub proof fn law_idle_client_refills(b: Bucket, now: u64)
    requires
        b.tokens <= burst(),
        now >= b.refreshed + 2 * nanos_per_second(),
    ensures
        refill(b, now).tokens == burst(),
        take_request(Some(b), now).1 is None,
        take_request(Some(b), now).0.tokens == burst() - 1,
{
    assert((now - b.refreshed) as int / 1_000_000_000int >= 2) by (nonlinear_arith)
        requires
            now - b.refreshed >= 2_000_000_000,
    ;
}

/// A refused request spends nothing: the bucket is only refilled.
pub proof fn law_refusal_spends_nothing(b: Option<Bucket>, now: u64)
    ensures
        take_request(b, now).1 is Some ==> take_request(b, now).0 == refill(
            match b {
                Some(x) => x,
                None => Bucket { tokens: burst(), refreshed: now },
            },
            now,
        ),
{
}

/// The map key of an IPv4 address.
pub open spec fn key4(a: u8, b: u8, c: u8, d: u8) -> u32 {
    ((a as u32) << 24u32) | ((b as u32) << 16u32) | ((c as u32) << 8u32) | (d as u32)
}

/// The map key of an IPv6 address.
pub open spec fn key6(s0: u16, s1: u16, s2: u16, s3: u16, s4: u16, s5: u16, s6: u16, s7: u16) -> u128 {
    ((s0 as u128) << 112u128) | ((s1 as u128) << 96u128) | ((s2 as u128) << 80u128) | ((s3
        as u128) << 64u128) | ((s4 as u128) << 48u128) | ((s5 as u128) << 32u128) | ((s6 as u128)
        << 16u128) | (s7 as u128)
}

proof fn lemma_key4_injective(a: u8, b: u8, c: u8, d: u8, e: u8, f: u8, g: u8, h: u8)
    requires
        key4(a, b, c, d) == key4(e, f, g, h),
    ensures
        a == e && b == f && c == g && d == h,
{
    assert(key4(a, b, c, d) == key4(e, f, g, h) ==> a == e && b == f && c == g && d == h)
        by (bit_vector);
}

proof fn lemma_key6_injective(
    s0: u16,
    s1: u16,
    s2: u16,
    s3: u16,
    s4: u16,
    s5: u16,
    s6: u16,
    s7: u16,
    t0: u16,
    t1: u16,
    t2: u16,
    t3: u16,
    t4: u16,
    t5: u16,
    t6: u16,
    t7: u16,
)
    requires
        key6(s0, s1, s2, s3, s4, s5, s6, s7) == key6(t0, t1, t2, t3, t4, t5, t6, t7),
    ensures
        s0 == t0 && s1 == t1 && s2 == t2 && s3 == t3 && s4 == t4 && s5 == t5 && s6 == t6 && s7
            == t7,
{
    assert(key6(s0, s1, s2, s3, s4, s5, s6, s7) == key6(t0, t1, t2, t3, t4, t5, t6, t7) ==> s0
        == t0 && s1 == t1 && s2 == t2 && s3 == t3 && s4 == t4 && s5 == t5 && s6 == t6 && s7 == t7)
        by (bit_vector);
}

/// The buckets of all clients seen so far.
pub struct RateLimiter {
    v4: HashMap<u32, Bucket>,
    v6: HashMap<u128, Bucket>,
}

impl RateLimiter {
    #[verifier::type_invariant]
    spec fn buckets_bounded(self) -> bool {
        &&& forall|k: u32| #[trigger] self.v4@.contains_key(k) ==> self.v4@[k].tokens <= burst()
        &&& forall|k: u128| #[trigger] self.v6@.contains_key(k) ==> self.v6@[k].tokens <= burst()
    }

    /// The bucket of `ip`, if it has made a request.
    pub closed spec fn bucket(self, ip: IpAddress) -> Option<Bucket> {
        match ip {
            IpAddress::V4(a, b, c, d) => {
                let k = key4(a, b, c, d);
                if self.v4@.contains_key(k) {
                    Some(self.v4@[k])
                } else {
                    None
                }
            },
            IpAddress::V6(s0, s1, s2, s3, s4, s5, s6, s7) => {
                let k = key6(s0, s1, s2, s3, s4, s5, s6, s7);
                if self.v6@.contains_key(k) {
                    Some(self.v6@[k])
                } else {
                    None
                }
            },
        }
    }

    /// No client has a bucket yet.
    pub fn new() -> (r: RateLimiter)
        ensures
            forall|ip: IpAddress| #[trigger] r.bucket(ip) is None,
    {
        RateLimiter { v4: HashMap::new(), v6: HashMap::new() }
    }

    /// Decides one request from `ip` at `now`: `None` lets it through,
    /// `Some(s)` refuses it with a wait of `s` seconds. Only the requesting
    /// client's bucket changes.
    pub fn check(&mut self, ip: IpAddress, now: u64) -> (r: Option<u64>)
        ensures
            old(self).bucket(ip) matches Some(b) ==> b.tokens <= burst(),
            r == take_request(old(self).bucket(ip), now).1,
            final(self).bucket(ip) == Some(take_request(old(self).bucket(ip), now).0),
            forall|other: IpAddress|
                other != ip ==> #[trigger] final(self).bucket(other) == old(self).bucket(other),
    {
        proof {
            use_type_invariant(&*self);
        }
        match ip {
            IpAddress::V4(a, b, c, d) => {
                let k: u32 = ((a as u32) << 24u32) | ((b as u32) << 16u32) | ((c as u32) << 8u32)
                    | (d as u32);
                assert(k == key4(a, b, c, d));
                let current = match self.v4.get(&k) {
                    Some(x) => Some(*x),
                    None => None,
                };
                assert(current == self.bucket(ip));
                let (next, out) = take_request_exec(current, now);
                let mut m: HashMap<u32, Bucket> = HashMap::new();
                std::mem::swap(&mut m, &mut self.v4);
                m.insert(k, next);
                std::mem::swap(&mut m, &mut self.v4);
                assert forall|other: IpAddress| other != ip implies #[trigger] self.bucket(other)
                    == old(self).bucket(other) by {
                    if let IpAddress::V4(e, f, g, h) = other {
                        if key4(e, f, g, h) == k {
                            lemma_key4_injective(a, b, c, d, e, f, g, h);
                        }
                    }
                }
                out
            },
            IpAddress::V6(s0, s1, s2, s3, s4, s5, s6, s7) => {
                let k: u128 = ((s0 as u128) << 112u128) | ((s1 as u128) << 96u128) | ((s2 as u128)
                    << 80u128) | ((s3 as u128) << 64u128) | ((s4 as u128) << 48u128) | ((s5 as u128)
                    << 32u128) | ((s6 as u128) << 16u128) | (s7 as u128);
                assert(k == key6(s0, s1, s2, s3, s4, s5, s6, s7));
                let current = match self.v6.get(&k) {
                    Some(x) => Some(*x),
                    None => None,
                };
                assert(current == self.bucket(ip));
                let (next, out) = take_request_exec(current, now);
                let mut m: HashMap<u128, Bucket> = HashMap::new();
                std::mem::swap(&mut m, &mut self.v6);
                m.insert(k, next);
                std::mem::swap(&mut m, &mut self.v6);
                assert forall|other: IpAddress| other != ip implies #[trigger] self.bucket(other)
                    == old(self).bucket(other) by {
                    if let IpAddress::V6(t0, t1, t2, t3, t4, t5, t6, t7) = other {
                        if key6(t0, t1, t2, t3, t4, t5, t6, t7) == k {
                            lemma_key6_injective(
                                s0,
                                s1,
                                s2,
                                s3,
                                s4,
                                s5,
                                s6,
                                s7,
                                t0,
                                t1,
                                t2,
                                t3,
                                t4,
                                t5,
                                t6,
                                t7,
                            );
                        }
                    }
                }
                out
            },
        }
    }
}

} // verus!
