use vstd::prelude::*;
use crate::clock::unix_time_millis;

verus! {

/// How many requests per second a node may make, and how many it may make in a burst.
#[derive(Clone, Copy, Debug)]
pub struct RateLimit {
    pub requests_per_second: u32,
    pub burst_size: u32,
}

/// The state of a token bucket, with tokens counted in thousandths of a token.
pub struct LimiterModel {
    pub requests_per_second: nat,
    pub burst_size: nat,
    /// Tokens in the bucket, in thousandths of a token.
    pub tokens_milli: nat,
    /// The last time the bucket was touched, in milliseconds since the epoch;
    /// 0 while it has never been used.
    pub last_update_ms: nat,
}

impl LimiterModel {
    /// The bucket's size, in thousandths of a token.
    pub open spec fn capacity(self) -> nat {
        self.burst_size * 1000
    }

    /// The bucket never holds more than `burst_size` tokens.
    pub open spec fn wf(self) -> bool {
        self.tokens_milli <= self.capacity()
    }

    /// A bucket that was just made: full, and never used.
    pub open spec fn fresh(requests_per_second: nat, burst_size: nat) -> LimiterModel {
        LimiterModel {
            requests_per_second,
            burst_size,
            tokens_milli: burst_size * 1000,
            last_update_ms: 0,
        }
    }

    /// `now` does not lie before the bucket's last use (always true of a bucket never used).
    pub open spec fn can_advance_to(self, now: nat) -> bool {
        self.last_update_ms == 0 || now >= self.last_update_ms
    }

    /// Tokens available at `now`: the bucket's tokens plus `requests_per_second`
    /// tokens for each second since its last use, at most `burst_size`; a bucket
    /// that was never used gets no refill.
    pub open spec fn available_at(self, now: nat) -> nat {
        if self.last_update_ms == 0 {
            self.tokens_milli
        } else {
            let refilled = self.tokens_milli + (now - self.last_update_ms) * self.requests_per_second;
            if refilled < self.capacity() {
                refilled as nat
            } else {
                self.capacity()
            }
        }
    }

    /// One request at `now`: it is granted when a whole token is available,
    /// which it then spends; the bucket is stamped with `now` either way.
    pub open spec fn acquire(self, now: nat) -> (LimiterModel, bool) {
        let avail = self.available_at(now);
        if avail >= 1000 {
            (LimiterModel { tokens_milli: (avail - 1000) as nat, last_update_ms: now, ..self }, true)
        } else {
            (LimiterModel { tokens_milli: avail, last_update_ms: now, ..self }, false)
        }
    }

    /// How many of `k` requests made one after another at the same instant `now` are granted.
    pub open spec fn grants_at(self, now: nat, k: nat) -> nat
        decreases k,
    {
        if k == 0 {
            0
        } else {
            let (next, granted) = self.acquire(now);
            (if granted { 1nat } else { 0nat }) + next.grants_at(now, (k - 1) as nat)
        }
    }

    /// How many of the requests made one after another at the times of `times`
    /// (milliseconds) are granted.
    pub open spec fn grants_over(self, times: Seq<nat>) -> nat
        decreases times.len(),
    {
        if times.len() == 0 {
            0
        } else {
            let (next, granted) = self.acquire(times[0]);
            (if granted { 1nat } else { 0nat }) + next.grants_over(times.drop_first())
        }
    }
}

/// The times of `times` never go backwards.
pub open spec fn nondecreasing(times: Seq<nat>) -> bool {
    forall|i: int, j: int| 0 <= i <= j < times.len() ==> #[trigger] times[i] <= #[trigger] times[j]
}

/// A token bucket: `burst_size` tokens at most, refilled at `requests_per_second`
/// tokens per second, one token spent per granted request.
#[derive(Clone, Copy, Debug)]
pub struct RateLimiter {
    requests_per_second: u32,
    burst_size: u32,
    tokens_milli: u64,
    last_update_ms: u64,
}

impl View for RateLimiter {
    type V = LimiterModel;

    closed spec fn view(&self) -> LimiterModel {
        LimiterModel {
            requests_per_second: self.requests_per_second as nat,
            burst_size: self.burst_size as nat,
            tokens_milli: self.tokens_milli as nat,
            last_update_ms: self.last_update_ms as nat,
        }
    }
}

impl RateLimiter {
    /// The bucket holds no more than it may.
    pub closed spec fn wf(&self) -> bool {
        self@.wf()
    }

    /// The last time the bucket was used, in milliseconds since the epoch; 0 while never used.
    pub fn last_update_ms(&self) -> (t: u64)
        ensures
            t == self@.last_update_ms,
    {
        self.last_update_ms
    }

    /// A full bucket that has not been used yet.
    pub fn new(requests_per_second: u32, burst_size: u32) -> (r: Self)
        ensures
            r.wf(),
            r@ == LimiterModel::fresh(requests_per_second as nat, burst_size as nat),
    {
        RateLimiter {
            requests_per_second,
            burst_size,
            tokens_milli: (burst_size as u64) * 1000,
            last_update_ms: 0,
        }
    }

    /// One request at `now_ms` (milliseconds since the epoch): refills the bucket
    /// for the time since its last use, then grants the request and spends a
    /// token when a whole one is available.
    pub fn try_acquire_at(&mut self, now_ms: u64) -> (granted: bool)
        requires
            old(self).wf(),
            old(self)@.can_advance_to(now_ms as nat),
        ensures
            final(self).wf(),
            (final(self)@, granted) == old(self)@.acquire(now_ms as nat),
    {
        let capacity: u64 = (self.burst_size as u64) * 1000;
        let avail: u64 = if self.last_update_ms == 0 {
            self.tokens_milli
        } else {
            let elapsed: u64 = now_ms - self.last_update_ms;
            let rps: u32 = self.requests_per_second;
            assert((elapsed as int) * (rps as int) <= 0xffff_ffff_ffff_ffffint * 0xffff_ffffint) by (nonlinear_arith)
                requires
                    elapsed <= 0xffff_ffff_ffff_ffffint,
                    rps <= 0xffff_ffffint,
            ;
            let refill: u128 = (elapsed as u128) * (rps as u128);
            let refilled: u128 = (self.tokens_milli as u128) + refill;
            if refilled < (capacity as u128) {
                refilled as u64
            } else {
                capacity
            }
        };
        self.last_update_ms = now_ms;
        if avail >= 1000 {
            self.tokens_milli = avail - 1000;
            true
        } else {
            self.tokens_milli = avail;
            false
        }
    }

    /// One request now, by the system clock: [`RateLimiter::try_acquire_at`] at
    /// the time read. A clock that cannot be read, or that stands before the
    /// bucket's last use, counts as no time having passed since that use: the
    /// request is then decided on the tokens already in the bucket.
    pub fn try_acquire(&mut self) -> (granted: bool)
        requires
            old(self).wf(),
        ensures
            final(self).wf(),
            exists|t: nat|
                #[trigger] old(self)@.can_advance_to(t) && (final(self)@, granted) == old(self)@.acquire(t),
            old(self)@.tokens_milli >= 1000 ==> granted,
    {
        let now_ms: u64 = match unix_time_millis() {
            Some(t) => {
                if self.last_update_ms == 0 || t >= self.last_update_ms {
                    t
                } else {
                    self.last_update_ms
                }
            },
            None => self.last_update_ms,
        };
        proof {
            lemma_refill_keeps_tokens(self@, now_ms as nat);
        }
        let granted = self.try_acquire_at(now_ms);
        assert(old(self)@.can_advance_to(now_ms as nat));
        granted
    }
}

/// Time never takes tokens away: what is available at a later time is at
/// least what the bucket holds.
pub proof fn lemma_refill_keeps_tokens(m: LimiterModel, now: nat)
    requires
        m.wf(),
        m.can_advance_to(now),
    ensures
        m.available_at(now) >= m.tokens_milli,
{
    if m.last_update_ms != 0 {
        assert((now - m.last_update_ms) * m.requests_per_second >= 0) by (nonlinear_arith)
            requires
                now >= m.last_update_ms,
        ;
    }
}

/// Every request keeps the bucket within `burst_size` tokens.
pub proof fn lemma_acquire_keeps_bound(m: LimiterModel, now: nat)
    requires
        m.wf(),
        m.can_advance_to(now),
    ensures
        m.acquire(now).0.wf(),
        m.acquire(now).0.requests_per_second == m.requests_per_second,
        m.acquire(now).0.burst_size == m.burst_size,
        m.acquire(now).0.last_update_ms == now,
{
    if m.last_update_ms != 0 {
        assert((now - m.last_update_ms) * m.requests_per_second >= 0) by (nonlinear_arith)
            requires
                now >= m.last_update_ms,
        ;
    }
}

/// Of `k` requests made at one instant, exactly `min(k, available tokens)` are
/// granted: the first ones, as long as whole tokens remain.
pub proof fn lemma_grants_at_one_instant(m: LimiterModel, now: nat, k: nat)
    requires
        m.wf(),
        m.can_advance_to(now),
    ensures
        m.grants_at(now, k) == if k < m.available_at(now) / 1000 {
            k
        } else {
            m.available_at(now) / 1000
        },
    decreases k,
{
    if k > 0 {
        let avail = m.available_at(now);
        let (next, granted) = m.acquire(now);
        lemma_acquire_keeps_bound(m, now);
        assert(next.wf());
        assert((now - next.last_update_ms) * next.requests_per_second == 0);
        assert(next.can_advance_to(now));
        assert(next.available_at(now) == next.tokens_milli);
        lemma_grants_at_one_instant(next, now, (k - 1) as nat);
        if granted {
            assert(next.tokens_milli / 1000 == avail / 1000 - 1) by (nonlinear_arith)
                requires
                    next.tokens_milli == avail - 1000,
                    avail >= 1000,
            ;
        } else {
            assert(avail / 1000 == 0) by (nonlinear_arith)
                requires
                    avail < 1000,
            ;
        }
    }
}

/// However many requests arrive at one instant, at most `burst_size` are granted.
pub proof fn lemma_burst_bound(m: LimiterModel, now: nat, k: nat)
    requires
        m.wf(),
        m.can_advance_to(now),
    ensures
        m.grants_at(now, k) <= m.burst_size,
{
    lemma_grants_at_one_instant(m, now, k);
    assert(m.available_at(now) / 1000 <= m.burst_size) by (nonlinear_arith)
        requires
            m.available_at(now) <= m.burst_size * 1000,
    ;
}

/// A fresh limiter grants exactly its first `burst_size` requests made at one instant.
pub proof fn lemma_fresh_grants_burst(requests_per_second: nat, burst_size: nat, now: nat, k: nat)
    ensures
        LimiterModel::fresh(requests_per_second, burst_size).grants_at(now, k) == if k < burst_size {
            k
        } else {
            burst_size
        },
{
    let m = LimiterModel::fresh(requests_per_second, burst_size);
    lemma_grants_at_one_instant(m, now, k);
    assert(m.available_at(now) / 1000 == burst_size) by (nonlinear_arith)
        requires
            m.available_at(now) == burst_size * 1000,
    ;
}

/// A used bucket with room for a token grants a request once enough time has
/// passed for one token to flow back in.
pub proof fn lemma_refill_grants(m: LimiterModel, now: nat)
    requires
        m.wf(),
        m.last_update_ms != 0,
        now >= m.last_update_ms,
        m.burst_size >= 1,
        (now - m.last_update_ms) * m.requests_per_second >= 1000,
    ensures
        m.acquire(now).1,
{
}

/// After a request at `earlier`, what is available at `later` is at most the
/// bucket's tokens plus the refill earned in between.
pub proof fn lemma_refill_at_most_earned(m: LimiterModel, earlier: nat, later: nat)
    requires
        m.wf(),
        m.can_advance_to(earlier),
        earlier <= later,
    ensures
        m.acquire(earlier).0.available_at(later) <= m.acquire(earlier).0.tokens_milli + m.requests_per_second * (
        later - earlier),
{
    lemma_acquire_keeps_bound(m, earlier);
    let r = m.requests_per_second;
    assert(r * (later - earlier) >= 0) by (nonlinear_arith)
        requires
            later >= earlier,
    ;
    assert((later - earlier) * r == r * (later - earlier)) by (nonlinear_arith);
}

/// Over requests at non-decreasing times, a thousand times the number granted
/// is at most what was available at the first request plus the refill earned
/// from the first request to the last.
pub proof fn lemma_grants_over_bound(m: LimiterModel, times: Seq<nat>)
    requires
        m.wf(),
        times.len() >= 1,
        nondecreasing(times),
        m.can_advance_to(times[0]),
    ensures
        1000 * m.grants_over(times) <= m.available_at(times[0]) + m.requests_per_second * (times.last() - times[0]),
    decreases times.len(),
{
    let t0 = times[0];
    let (next, granted) = m.acquire(t0);
    let avail = m.available_at(t0);
    let rest = times.drop_first();
    lemma_acquire_keeps_bound(m, t0);
    assert(times[times.len() - 1] >= t0);
    assert(m.requests_per_second * (times.last() - t0) >= 0) by (nonlinear_arith)
        requires
            times.last() >= t0,
    ;
    if times.len() == 1 {
        assert(rest.len() == 0);
        assert(next.grants_over(rest) == 0);
    } else {
        let t1 = rest[0];
        assert(times[1] == t1 && t0 <= t1);
        assert(nondecreasing(rest)) by {
            assert forall|i: int, j: int| 0 <= i <= j < rest.len() implies #[trigger] rest[i] <= #[trigger] rest[j] by {
                assert(rest[i] == times[i + 1] && rest[j] == times[j + 1]);
            }
        }
        assert(next.can_advance_to(t1));
        lemma_grants_over_bound(next, rest);
        lemma_refill_at_most_earned(m, t0, t1);
        assert(rest.last() == times.last());
        let r = m.requests_per_second;
        assert(r * (t1 - t0) + r * (times.last() - t1) == r * (times.last() - t0)) by (nonlinear_arith);
    }
}

/// The token bucket's bound over time: of requests made at non-decreasing
/// times, never more are granted than the burst plus the refill earned over
/// the time they span, `burst_size + requests_per_second * (last - first) / 1000`.
pub proof fn lemma_grants_over_time(m: LimiterModel, times: Seq<nat>)
    requires
        m.wf(),
        times.len() >= 1,
        nondecreasing(times),
        m.can_advance_to(times[0]),
    ensures
        1000 * m.grants_over(times) <= 1000 * m.burst_size + m.requests_per_second * (times.last() - times[0]),
{
    lemma_grants_over_bound(m, times);
    lemma_acquire_keeps_bound(m, times[0]);
}

} // verus!
