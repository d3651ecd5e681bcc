//! Request rate limiting.
use vstd::prelude::*;
use core::time::Duration;
use std::time::Instant;

verus! {

/// The monotonic clock's instants (`std::time::Instant`), held opaque.
#[verifier::external_type_specification]
#[verifier::external_body]
pub struct ExInstant(Instant);

/// Wrapper of `Instant::now`: the monotonic clock's current reading.
#[verifier::external_body]
fn instant_now() -> Instant {
    Instant::now()
}

/// Wrapper of `Instant::elapsed`: the time gone by since `origin`.
#[verifier::external_body]
fn instant_elapsed(origin: &Instant) -> Duration {
    origin.elapsed()
}

/// Wrapper of `Duration::as_nanos`: whole nanoseconds of `d`.
#[verifier::external_body]
fn duration_nanos(d: &Duration) -> u128 {
    d.as_nanos()
}

/// The length of the window requests are counted in, in nanoseconds.
pub open spec fn window_ns() -> int {
    60_000_000_000
}

/// A request made at `t` still counts at `now`: it is less than a minute old.
pub open spec fn is_recent(t: u128, now: u128) -> bool {
    t > now - window_ns()
}

/// The requests that still count at `now`, in order.
pub open spec fn recent(ts: Seq<u128>, now: u128) -> Seq<u128>
    decreases ts.len(),
{
    if ts.len() == 0 {
        Seq::empty()
    } else if is_recent(ts.last(), now) {
        recent(ts.drop_last(), now).push(ts.last())
    } else {
        recent(ts.drop_last(), now)
    }
}

proof fn lemma_recent_len(ts: Seq<u128>, now: u128)
    ensures
        recent(ts, now).len() <= ts.len(),
    decreases ts.len(),
{
    if ts.len() > 0 {
        lemma_recent_len(ts.drop_last(), now);
    }
}

/// Admits at most `max_rpm` requests in any minute.
///
/// Request times are nanoseconds on the monotonic clock since the limiter
/// was made.
#[derive(Debug)]
pub struct RateLimiter {
    origin: Instant,
    requests: Vec<u128>,
    max_rpm: u32,
}

impl RateLimiter {
    /// The times of the requests held.
    pub closed spec fn requests(&self) -> Seq<u128> {
        self.requests@
    }

    /// The number of requests admitted per minute.
    pub closed spec fn limit(&self) -> u32 {
        self.max_rpm
    }

    /// The limiter never holds more requests than its limit.
    pub closed spec fn wf(&self) -> bool {
        self.requests@.len() <= self.max_rpm
    }

    /// Requests still available at `now`: the limit less the requests of the
    /// last minute, and none when those reach it.
    pub open spec fn remaining_spec(&self, now: u128) -> int {
        let used = recent(self.requests(), now).len() as int;
        if used >= self.limit() {
            0
        } else {
            self.limit() - used
        }
    }

    /// A limiter that has seen no request.
    pub fn new(max_rpm: u32) -> (r: Self)
        ensures
            r.wf(),
            r.limit() == max_rpm,
            r.requests().len() == 0,
    {
        RateLimiter { origin: instant_now(), requests: Vec::new(), max_rpm }
    }

    /// Nanoseconds on the monotonic clock since the limiter was made. The
    /// reading depends on the time of the call alone, so no clause states it;
    /// `check` and `remaining` say what holds whatever it is.
    fn now_ns(&self) -> u128 {
        let d = instant_elapsed(&self.origin);
        duration_nanos(&d)
    }

    /// Forgets requests older than a minute at `now`, then admits a request
    /// at `now` when fewer than the limit remain.
    pub fn check_at(&mut self, now: u128) -> (r: bool)
        requires
            old(self).wf(),
        ensures
            final(self).wf(),
            final(self).limit() == old(self).limit(),
            r == (recent(old(self).requests(), now).len() < old(self).limit()),
            r ==> final(self).requests() == recent(old(self).requests(), now).push(now),
            !r ==> final(self).requests() == recent(old(self).requests(), now),
    {
        let mut kept: Vec<u128> = Vec::new();
        let n = self.requests.len();
        for i in 0..n
            invariant
                n == self.requests@.len(),
                kept@ == recent(self.requests@.take(i as int), now),
        {
            let t = self.requests[i];
            let keep = if now < 60_000_000_000 { true } else { t > now - 60_000_000_000 };
            if keep {
                kept.push(t);
            }
            assert(self.requests@.take(i + 1).drop_last() =~= self.requests@.take(i as int));
        }
        assert(self.requests@.take(n as int) =~= self.requests@);
        proof {
            lemma_recent_len(self.requests@, now);
        }
        let admitted = kept.len() < self.max_rpm as usize;
        if admitted {
            kept.push(now);
        }
        self.requests = kept;
        admitted
    }

    /// Takes a request now: whether it is admitted (see [`Self::check_at`]).
    pub fn check(&mut self) -> (r: bool)
        requires
            old(self).wf(),
        ensures
            final(self).wf(),
            final(self).limit() == old(self).limit(),
            exists|now: u128|
                {
                    &&& r == (recent(old(self).requests(), now).len() < old(self).limit())
                    &&& r ==> final(self).requests() == recent(old(self).requests(), now).push(now)
                    &&& !r ==> final(self).requests() == recent(old(self).requests(), now)
                },
    {
        let now = self.now_ns();
        self.check_at(now)
    }

    /// Requests still available at `now`.
    pub fn remaining_at(&self, now: u128) -> (r: u32)
        requires
            self.wf(),
        ensures
            r == self.remaining_spec(now),
    {
        let mut count: usize = 0;
        let n = self.requests.len();
        for i in 0..n
            invariant
                n == self.requests@.len(),
                count == recent(self.requests@.take(i as int), now).len(),
                count <= i,
        {
            let t = self.requests[i];
            let keep = if now < 60_000_000_000 { true } else { t > now - 60_000_000_000 };
            if keep {
                count += 1;
            }
            assert(self.requests@.take(i + 1).drop_last() =~= self.requests@.take(i as int));
        }
        assert(self.requests@.take(n as int) =~= self.requests@);
        if count >= self.max_rpm as usize {
            0
        } else {
            self.max_rpm - count as u32
        }
    }

    /// Requests still available now (see [`Self::remaining_at`]).
    pub fn remaining(&self) -> (r: u32)
        requires
            self.wf(),
        ensures
            exists|now: u128| r == self.remaining_spec(now),
    {
        let now = self.now_ns();
        self.remaining_at(now)
    }
}

/// Admitting a request uses up one of those remaining at the same moment;
/// refusing one means none remained.
pub proof fn law_check_uses_one(before: RateLimiter, after: RateLimiter, now: u128, admitted: bool)
    requires
        before.wf(),
        after.limit() == before.limit(),
        admitted == (recent(before.requests(), now).len() < before.limit()),
        admitted ==> after.requests() == recent(before.requests(), now).push(now),
        !admitted ==> after.requests() == recent(before.requests(), now),
    ensures
        admitted ==> after.remaining_spec(now) == before.remaining_spec(now) - 1,
        !admitted ==> before.remaining_spec(now) == 0 && after.remaining_spec(now) == 0,
{
    let kept = recent(before.requests(), now);
    lemma_recent_idempotent(before.requests(), now);
    if admitted {
        assert(kept.push(now).drop_last() =~= kept);
        assert(recent(kept.push(now), now) == recent(kept, now).push(now));
    }
}

proof fn lemma_recent_idempotent(ts: Seq<u128>, now: u128)
    ensures
        recent(recent(ts, now), now) == recent(ts, now),
    decreases ts.len(),
{
    if ts.len() > 0 {
        lemma_recent_idempotent(ts.drop_last(), now);
        let r = recent(ts.drop_last(), now);
        if is_recent(ts.last(), now) {
            assert(r.push(ts.last()).drop_last() =~= r);
        }
    }
}

/// A limiter never lets more than its limit count within a minute: right
/// after taking a request at `now`, every request it holds is recent and
/// there are at most `limit` of them.
pub proof fn law_never_more_than_limit(before: RateLimiter, after: RateLimiter, now: u128, admitted: bool)
    requires
        before.wf(),
        after.wf(),
        after.limit() == before.limit(),
        admitted ==> after.requests() == recent(before.requests(), now).push(now),
        !admitted ==> after.requests() == recent(before.requests(), now),
    ensures
        recent(after.requests(), now) == after.requests(),
        recent(after.requests(), now).len() <= after.limit(),
{
    let kept = recent(before.requests(), now);
    lemma_recent_idempotent(before.requests(), now);
    if admitted {
        assert(kept.push(now).drop_last() =~= kept);
    }
}

} // verus!
