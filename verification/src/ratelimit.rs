//! Token-bucket rate limiter.
//!
//! One bucket guards one external endpoint class: it holds up to
//! `capacity` tokens and refills one token every `refill_interval`
//! milliseconds, measured on the lattice of instants
//! `last_refill + k * refill_interval`. Acquiring a token either succeeds
//! at the requested instant or books the next refill slot; the caller is
//! expected to sleep until the returned grant time, which makes grants
//! first-come-first-served for sequential callers.

use vstd::prelude::*;

verus! {

/// Mathematical state of a token bucket, over unbounded integers.
pub ghost struct BucketModel {
    pub capacity: int,
    pub tokens: int,
    pub interval: int,
    pub last: int,
}

impl BucketModel {
    pub open spec fn wf(self) -> bool {
        &&& self.capacity >= 1
        &&& self.interval >= 1
        &&& 0 <= self.tokens <= self.capacity
    }
}

/// State and grant time after acquiring one token at instant `now`.
///
/// First all refills due by `now` are credited (capped at the capacity),
/// then either an available token is taken at `now` itself, or the next
/// refill slot is booked and becomes the grant time.
pub open spec fn spec_acquire(m: BucketModel, now: int) -> (BucketModel, int)
    recommends
        m.wf(),
        now >= m.last,
{
    let k = (now - m.last) / m.interval;
    let credited = if m.tokens + k >= m.capacity {
        m.capacity
    } else {
        m.tokens + k
    };
    let caught_up = m.last + k * m.interval;
    if credited >= 1 {
        (BucketModel { tokens: credited - 1, last: caught_up, ..m }, now)
    } else {
        (BucketModel { tokens: 0, last: caught_up + m.interval, ..m }, caught_up + m.interval)
    }
}

/// Token bucket over millisecond timestamps.
pub struct TokenBucket {
    pub capacity: u32,
    pub tokens: u32,
    pub refill_interval: u64,
    pub last_refill: u64,
}

impl View for TokenBucket {
    type V = BucketModel;

    open spec fn view(&self) -> BucketModel {
        BucketModel {
            capacity: self.capacity as int,
            tokens: self.tokens as int,
            interval: self.refill_interval as int,
            last: self.last_refill as int,
        }
    }
}

impl TokenBucket {
    /// A freshly filled bucket created at instant `now`.
    pub fn new(capacity: u32, refill_interval: u64, now: u64) -> (r: Self)
        requires
            capacity >= 1,
            refill_interval >= 1,
        ensures
            r@ == (BucketModel {
                capacity: capacity as int,
                tokens: capacity as int,
                interval: refill_interval as int,
                last: now as int,
            }),
            r@.wf(),
    {
        TokenBucket { capacity, tokens: capacity, refill_interval, last_refill: now }
    }

    /// Acquire one token at instant `now`; the caller must not issue its
    /// request before the returned grant time.
    pub fn acquire_at(&mut self, now: u64) -> (grant: u64)
        requires
            old(self)@.wf(),
            now >= old(self).last_refill,
            now + old(self).refill_interval <= u64::MAX,
        ensures
            (final(self)@, grant as int) == spec_acquire(old(self)@, now as int),
            final(self)@.wf(),
            grant >= now,
            final(self).last_refill <= grant,
            final(self).capacity == old(self).capacity,
            final(self).refill_interval == old(self).refill_interval,
    {
        proof {
            lemma_refill_count(now - self.last_refill, self.refill_interval as int);
        }
        let k: u64 = (now - self.last_refill) / self.refill_interval;
        let caught_up: u64 = self.last_refill + k * self.refill_interval;
        let missing: u32 = self.capacity - self.tokens;
        let credited: u32 = if k >= missing as u64 {
            self.capacity
        } else {
            self.tokens + k as u32
        };
        if credited >= 1 {
            self.tokens = credited - 1;
            self.last_refill = caught_up;
            now
        } else {
            self.tokens = 0;
            self.last_refill = caught_up + self.refill_interval;
            self.last_refill
        }
    }
}

/// Grant times of a run of sequential acquisitions: each call is issued no
/// earlier than the bucket's refill mark left by the previous one.
pub open spec fn grant_times(m: BucketModel, calls: Seq<int>) -> Seq<int>
    decreases calls.len(),
{
    if calls.len() == 0 {
        Seq::empty()
    } else {
        let (m1, g) = spec_acquire(m, calls[0]);
        seq![g] + grant_times(m1, calls.drop_first())
    }
}

/// The calls of a run are admissible: each is issued no earlier than the
/// refill mark the previous acquisition left behind. A sequential caller
/// that waits for each grant before acquiring again satisfies this, since
/// the refill mark never exceeds the grant time.
pub open spec fn calls_admissible(m: BucketModel, calls: Seq<int>) -> bool
    decreases calls.len(),
{
    calls.len() == 0 || {
        &&& calls[0] >= m.last
        &&& calls_admissible(spec_acquire(m, calls[0]).0, calls.drop_first())
    }
}

/// Facts about how many whole refill intervals of length `t` fit into a
/// span of `n` milliseconds.
proof fn lemma_refill_count(n: int, t: int)
    requires
        n >= 0,
        t >= 1,
    ensures
        0 <= n / t,
        (n / t) * t <= n,
        n < ((n / t) + 1) * t,
{
    vstd::arithmetic::div_mod::lemma_fundamental_div_mod(n, t);
    vstd::arithmetic::div_mod::lemma_mod_bound(n, t);
    vstd::arithmetic::div_mod::lemma_div_pos_is_pos(n, t);
    assert((n / t) * t == t * (n / t)) by (nonlinear_arith);
    assert(((n / t) + 1) * t == t * (n / t) + t) by (nonlinear_arith);
}

proof fn lemma_acquire_step(m: BucketModel, now: int)
    requires
        m.wf(),
        now >= m.last,
    ensures
        spec_acquire(m, now).0.wf(),
        spec_acquire(m, now).1 >= now,
        spec_acquire(m, now).0.last <= spec_acquire(m, now).1,
        spec_acquire(m, now).0.capacity == m.capacity,
        spec_acquire(m, now).0.interval == m.interval,
        m.capacity == 1 ==> spec_acquire(m, now).0.tokens == 0,
        m.tokens == 0 ==> spec_acquire(m, now).1 >= m.last + m.interval,
        m.tokens == 0 ==> spec_acquire(m, now).0.last >= m.last + m.interval,
        m.last == now && m.tokens >= 1 ==> spec_acquire(m, now).0.last == now,
{
    lemma_refill_count(now - m.last, m.interval);
    let k = (now - m.last) / m.interval;
    assert((k + 1) * m.interval == k * m.interval + m.interval) by (nonlinear_arith);
    vstd::arithmetic::mul::lemma_mul_basics(m.interval);
    if k >= 1 {
        assert(k * m.interval >= m.interval) by (nonlinear_arith)
            requires
                k >= 1 && m.interval >= 1,
        ;
    }
    if m.last == now {
        assert(k == 0) by (nonlinear_arith)
            requires
                k >= 0 && m.interval >= 1 && k * m.interval <= 0,
        ;
    }
}

/// Every acquisition yields one grant.
pub proof fn lemma_grant_times_len(m: BucketModel, calls: Seq<int>)
    ensures
        grant_times(m, calls).len() == calls.len(),
    decreases calls.len(),
{
    if calls.len() > 0 {
        lemma_grant_times_len(spec_acquire(m, calls[0]).0, calls.drop_first());
    }
}

/// A bucket that is empty now grants the `i`-th of a sequential run of
/// acquisitions no earlier than `i + 1` whole refill intervals after its
/// current refill mark.
proof fn lemma_empty_bucket_spacing(m: BucketModel, calls: Seq<int>)
    requires
        m.wf(),
        m.capacity == 1,
        m.tokens == 0,
        calls_admissible(m, calls),
    ensures
        forall|i: int|
            0 <= i < calls.len() ==> #[trigger] grant_times(m, calls)[i] >= m.last + (i + 1)
                * m.interval,
    decreases calls.len(),
{
    if calls.len() > 0 {
        lemma_acquire_step(m, calls[0]);
        let (m1, g) = spec_acquire(m, calls[0]);
        let rest = calls.drop_first();
        lemma_empty_bucket_spacing(m1, rest);
        lemma_grant_times_len(m1, rest);
        let gs = grant_times(m, calls);
        assert(gs == seq![g] + grant_times(m1, rest));
        assert forall|i: int|
            0 <= i < calls.len() implies #[trigger] gs[i] >= m.last + (i + 1) * m.interval by {
            if i == 0 {
                assert(g >= m.last + m.interval);
                vstd::arithmetic::mul::lemma_mul_basics(m.interval);
            } else {
                assert(grant_times(m1, rest)[i - 1] >= m1.last + (i - 1 + 1) * m1.interval);
                assert(m1.last >= m.last + m.interval);
                assert((i + 1) * m.interval == i * m.interval + m.interval) by (nonlinear_arith);
                assert((seq![g] + grant_times(m1, rest))[i] == grant_times(m1, rest)[i - 1]);
                assert((seq![g] + grant_times(m1, rest))[i] == grant_times(m1, rest)[i - 1]);
            assert(gs[i] == grant_times(m1, rest)[i - 1]);
            }
        }
    }
}

/// A limiter of capacity one refilling every `interval` milliseconds
/// serves sequential acquisitions no faster than one per interval: when
/// the first acquisition is issued at the freshly filled bucket's creation
/// instant, the `1 + i`-th grant lies at least `i * interval` after the
/// first grant, so `n` acquisitions span at least `(n - 1) * interval`.
pub proof fn lemma_rate_limit_spacing(m: BucketModel, calls: Seq<int>)
    requires
        m.wf(),
        m.capacity == 1,
        m.tokens == 1,
        calls.len() >= 1,
        calls[0] == m.last,
        calls_admissible(m, calls),
    ensures
        grant_times(m, calls)[0] == calls[0],
        forall|i: int|
            0 <= i < calls.len() ==> #[trigger] grant_times(m, calls)[i] >= calls[0] + i
                * m.interval,
    decreases calls.len(),
{
    lemma_acquire_step(m, calls[0]);
    let (m1, g) = spec_acquire(m, calls[0]);
    assert(g == calls[0]);
    assert(m1.last == calls[0]);
    let rest = calls.drop_first();
    lemma_empty_bucket_spacing(m1, rest);
    lemma_grant_times_len(m1, rest);
    let gs = grant_times(m, calls);
    assert(gs == seq![g] + grant_times(m1, rest));
    assert forall|i: int|
        0 <= i < calls.len() implies #[trigger] gs[i] >= calls[0] + i * m.interval by {
        if i == 0 {
            vstd::arithmetic::mul::lemma_mul_basics(m.interval);
        } else {
            assert(grant_times(m1, rest)[i - 1] >= m1.last + (i - 1 + 1) * m1.interval);
            assert((seq![g] + grant_times(m1, rest))[i] == grant_times(m1, rest)[i - 1]);
            assert(gs[i] == grant_times(m1, rest)[i - 1]);
        }
    }
}

} // verus!
