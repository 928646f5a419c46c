//! The shared token-bucket rate limiter. One bucket coordinates all workers
//! of a download: capacity is one second of tokens at the configured limit,
//! refill is proportional to elapsed time, and grants consume tokens. Over
//! any window, the bytes granted can exceed the limit times the elapsed time
//! by at most one bucket of burst.

use vstd::prelude::*;
use vstd::arithmetic::div_mod::{lemma_fundamental_div_mod, lemma_mod_bound};

verus! {

/// Token bucket shared by the workers of one download. `limit` is bytes per
/// second; a limit of 0 means unthrottled and the bucket is then unused.
/// The surrounding task owns the clock and the sleeping; this type holds the
/// accounting.
#[derive(Debug, Clone, Copy)]
pub struct SharedRateLimiter {
    /// Bytes per second; also the bucket capacity (one second of burst).
    pub limit: u64,
    /// Tokens currently available, never above `limit`.
    pub tokens: u64,
}

/// One event in the life of a bucket: time passing, or a worker asking for
/// bytes.
#[derive(Debug, Clone, Copy)]
pub enum LimiterOp {
    /// `ms` milliseconds pass before the next request.
    Elapse { ms: u64 },
    /// A worker asks to send `bytes` bytes.
    Request { bytes: u64 },
}

/// Tokens refilled for `ms` elapsed milliseconds at `limit` bytes/s.
pub open spec fn spec_refill_amount(limit: u64, ms: u64) -> int {
    (limit * ms) / 1000
}

/// The tokens left after running `ops` from a bucket holding `start`
/// tokens.
pub open spec fn spec_tokens_from(limit: u64, start: int, ops: Seq<LimiterOp>) -> int
    decreases ops.len(),
{
    if ops.len() == 0 {
        start
    } else {
        let t = spec_tokens_from(limit, start, ops.drop_last());
        match ops.last() {
            LimiterOp::Elapse { ms } => {
                if t + spec_refill_amount(limit, ms) > limit {
                    limit as int
                } else {
                    t + spec_refill_amount(limit, ms)
                }
            }
            LimiterOp::Request { bytes } => {
                if bytes <= t {
                    t - bytes
                } else {
                    0
                }
            }
        }
    }
}

/// The bytes granted while running `ops` from a bucket holding `start`
/// tokens: each request is granted up to the tokens then available.
pub open spec fn spec_granted_from(limit: u64, start: int, ops: Seq<LimiterOp>) -> int
    decreases ops.len(),
{
    if ops.len() == 0 {
        0
    } else {
        let g = spec_granted_from(limit, start, ops.drop_last());
        match ops.last() {
            LimiterOp::Elapse { ms } => g,
            LimiterOp::Request { bytes } => {
                let t = spec_tokens_from(limit, start, ops.drop_last());
                if bytes <= t {
                    g + bytes
                } else {
                    g + t
                }
            }
        }
    }
}

/// The tokens left after running `ops` from a full bucket.
pub open spec fn spec_tokens_after(limit: u64, ops: Seq<LimiterOp>) -> int {
    spec_tokens_from(limit, limit as int, ops)
}

/// The bytes granted while running `ops` from a full bucket.
pub open spec fn spec_granted(limit: u64, ops: Seq<LimiterOp>) -> int {
    spec_granted_from(limit, limit as int, ops)
}

/// Total milliseconds elapsed over `ops`.
pub open spec fn spec_elapsed_ms(ops: Seq<LimiterOp>) -> int
    decreases ops.len(),
{
    if ops.len() == 0 {
        0
    } else {
        spec_elapsed_ms(ops.drop_last()) + match ops.last() {
            LimiterOp::Elapse { ms } => ms as int,
            LimiterOp::Request { bytes } => 0,
        }
    }
}

proof fn lemma_div_superadd(x: int, y: int, d: int)
    requires
        x >= 0,
        y >= 0,
        d > 0,
    ensures
        x / d + y / d <= (x + y) / d,
{
    lemma_fundamental_div_mod(x, d);
    lemma_fundamental_div_mod(y, d);
    lemma_fundamental_div_mod(x + y, d);
    lemma_mod_bound(x, d);
    lemma_mod_bound(y, d);
    lemma_mod_bound(x + y, d);
    assert(x / d + y / d <= (x + y) / d) by (nonlinear_arith)
        requires
            x == d * (x / d) + (x % d),
            y == d * (y / d) + (y % d),
            x + y == d * ((x + y) / d) + ((x + y) % d),
            0 <= x % d < d,
            0 <= y % d < d,
            0 <= (x + y) % d < d,
            d > 0,
    ;
}

/// The bucket never holds more than its capacity, and what has been granted
/// plus what is left never exceeds the opening bucket plus all refills.
proof fn lemma_limiter_invariant(limit: u64, start: int, ops: Seq<LimiterOp>)
    requires
        0 <= start <= limit,
    ensures
        0 <= spec_tokens_from(limit, start, ops) <= limit,
        spec_granted_from(limit, start, ops) + spec_tokens_from(limit, start, ops) <= start + (
        limit * spec_elapsed_ms(ops)) / 1000,
        spec_granted_from(limit, start, ops) >= 0,
        spec_elapsed_ms(ops) >= 0,
    decreases ops.len(),
{
    if ops.len() > 0 {
        let prefix = ops.drop_last();
        lemma_limiter_invariant(limit, start, prefix);
        let e1 = spec_elapsed_ms(prefix);
        match ops.last() {
            LimiterOp::Elapse { ms } => {
                assert(limit * (e1 + ms) == limit * e1 + limit * ms) by (nonlinear_arith);
                assert(limit * e1 >= 0) by (nonlinear_arith)
                    requires
                        e1 >= 0,
                ;
                assert(limit * ms >= 0) by (nonlinear_arith);
                lemma_div_superadd(limit * e1, limit * ms, 1000);
            }
            LimiterOp::Request { bytes } => {}
        }
    }
}

/// Over any window, opened with any bucket state the limiter can be in
/// (at most one capacity of tokens), the bytes granted are at most the
/// limit times the elapsed time plus one bucket of burst:
/// `granted <= limit + limit * elapsed_ms / 1000`.
pub proof fn lemma_rate_limit_window(limit: u64, start: int, ops: Seq<LimiterOp>)
    requires
        0 <= start <= limit,
    ensures
        spec_granted_from(limit, start, ops) <= limit + (limit * spec_elapsed_ms(ops)) / 1000,
{
    lemma_limiter_invariant(limit, start, ops);
}

/// A window cut out of a longer run obeys the same bound: the bucket state
/// where the window opens is itself within capacity.
pub proof fn lemma_rate_limit_mid_trace(limit: u64, before: Seq<LimiterOp>, window: Seq<LimiterOp>)
    ensures
        spec_granted_from(limit, spec_tokens_after(limit, before), window) <= limit + (limit
            * spec_elapsed_ms(window)) / 1000,
{
    lemma_limiter_invariant(limit, limit as int, before);
    lemma_rate_limit_window(limit, spec_tokens_after(limit, before), window);
}

/// The full-bucket special case: a window starting at bucket creation.
pub proof fn lemma_rate_limit_bound(limit: u64, ops: Seq<LimiterOp>)
    ensures
        spec_granted(limit, ops) <= limit + (limit * spec_elapsed_ms(ops)) / 1000,
{
    lemma_rate_limit_window(limit, limit as int, ops);
}

impl SharedRateLimiter {
    /// A bucket starting full: one second of burst is immediately available.
    pub fn new(limit: u64) -> (s: Self)
        ensures
            s.limit == limit,
            s.tokens == limit,
            s.wf(),
    {
        SharedRateLimiter { limit, tokens: limit }
    }

    pub open spec fn wf(self) -> bool {
        self.tokens <= self.limit
    }

    /// Credits the bucket for `elapsed_ms` milliseconds, capping at one
    /// second of tokens so a pause cannot build an unbounded burst.
    pub fn refill(&mut self, elapsed_ms: u64)
        requires
            old(self).wf(),
        ensures
            final(self).limit == old(self).limit,
            final(self).wf(),
            final(self).tokens == if old(self).tokens + spec_refill_amount(
                old(self).limit,
                elapsed_ms,
            ) > old(self).limit {
                old(self).limit as int
            } else {
                old(self).tokens + spec_refill_amount(old(self).limit, elapsed_ms)
            },
    {
        proof {
            assert((self.limit as int) * (elapsed_ms as int) <= u128::MAX) by (nonlinear_arith)
                requires
                    self.limit <= u64::MAX,
                    elapsed_ms <= u64::MAX,
            ;
        }
        let add128: u128 = (self.limit as u128 * elapsed_ms as u128) / 1000;
        if add128 >= self.limit as u128 {
            self.tokens = self.limit;
        } else {
            let add: u64 = add128 as u64;
            if add > self.limit - self.tokens {
                self.tokens = self.limit;
            } else {
                self.tokens = self.tokens + add;
            }
        }
    }

    /// Grants up to `want` bytes, bounded by the tokens available, and
    /// removes the grant from the bucket.
    pub fn take(&mut self, want: u64) -> (granted: u64)
        requires
            old(self).wf(),
        ensures
            final(self).limit == old(self).limit,
            final(self).wf(),
            granted == if want <= old(self).tokens {
                want as int
            } else {
                old(self).tokens as int
            },
            final(self).tokens == old(self).tokens - granted,
    {
        if want <= self.tokens {
            self.tokens = self.tokens - want;
            want
        } else {
            let granted = self.tokens;
            self.tokens = 0;
            granted
        }
    }

    /// Runs a whole trace of elapse and request events from this bucket's
    /// current state, returning the total bytes granted: exactly
    /// `spec_granted_from` the tokens it opened with (and so exactly
    /// `spec_granted` from a fresh bucket).
    pub fn run_trace(&mut self, ops: &Vec<LimiterOp>) -> (granted: u128)
        requires
            old(self).wf(),
        ensures
            final(self).wf(),
            final(self).limit == old(self).limit,
            granted == spec_granted_from(old(self).limit, old(self).tokens as int, ops@),
            final(self).tokens == spec_tokens_from(old(self).limit, old(self).tokens as int, ops@),
    {
        let ghost limit = self.limit;
        let ghost start = self.tokens as int;
        let n = ops.len();
        let mut total: u128 = 0;
        let mut i: usize = 0;
        while i < n
            invariant
                self.wf(),
                self.limit == limit,
                n == ops@.len(),
                i <= n,
                0 <= start <= limit,
                self.tokens == spec_tokens_from(limit, start, ops@.take(i as int)),
                total == spec_granted_from(limit, start, ops@.take(i as int)),
                total <= i * (u64::MAX as int),
            decreases n - i,
        {
            proof {
                assert(ops@.take(i + 1).drop_last() =~= ops@.take(i as int));
                assert(ops@.take(i + 1).last() == ops@[i as int]);
                lemma_limiter_invariant(limit, start, ops@.take(i as int));
                assert((i + 1) * (u64::MAX as int) == i * (u64::MAX as int) + u64::MAX)
                    by (nonlinear_arith);
            }
            match ops[i] {
                LimiterOp::Elapse { ms } => {
                    self.refill(ms);
                }
                LimiterOp::Request { bytes } => {
                    let g = self.take(bytes);
                    total = total + g as u128;
                }
            }
            i = i + 1;
        }
        proof {
            assert(ops@.take(n as int) =~= ops@);
        }
        total
    }
}

} // verus!
