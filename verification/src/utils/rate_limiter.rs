//! A token-bucket rate limiter over integer time.
//!
//! The bucket is measured in fine units: one token is `interval_micros`
//! units, and one microsecond refills `max_tokens` units, so capacity
//! refills exactly once per interval with no rounding drift. The caller
//! supplies the clock reading; a reading that goes backwards refills
//! nothing.

use vstd::prelude::*;

verus! {

/// Admission control: at most `max_tokens` operations per refill interval,
/// with bursts up to `max_tokens`.
pub struct RateLimiter {
    /// Burst capacity, in tokens.
    pub max_tokens: u64,
    /// Refill interval for the full bucket, in microseconds.
    pub interval_micros: u64,
    /// Current content of the bucket, in units of one `interval_micros`-th
    /// of a token.
    pub units: u128,
    /// Clock reading at the last refill.
    pub last_refill_micros: u64,
}

impl RateLimiter {
    /// Full bucket, in fine units.
    pub open spec fn full_units(self) -> int {
        self.max_tokens as int * self.interval_micros as int
    }

    /// Bounded fields; holds from construction on.
    pub open spec fn wf(self) -> bool {
        &&& 1 <= self.max_tokens <= 1_000_000_000
        &&& 1 <= self.interval_micros <= 1_000_000_000_000_000
        &&& self.units <= self.full_units()
    }

    /// How many units a check at `now` sees after the lazy refill.
    pub open spec fn refilled_units(self, now: u64) -> int {
        let elapsed: int = if now >= self.last_refill_micros {
            now - self.last_refill_micros
        } else {
            0
        };
        let grown = self.units + elapsed * self.max_tokens;
        if grown > self.full_units() {
            self.full_units()
        } else {
            grown
        }
    }

    /// A full bucket that allows `max_tokens` operations per interval.
    pub fn new(max_tokens: u64, interval_micros: u64, now_micros: u64) -> (r: RateLimiter)
        requires
            1 <= max_tokens <= 1_000_000_000,
            1 <= interval_micros <= 1_000_000_000_000_000,
        ensures
            r.wf(),
            r.max_tokens == max_tokens,
            r.interval_micros == interval_micros,
            r.units == r.full_units(),
            r.last_refill_micros == now_micros,
    {
        proof {
            assert(max_tokens as int * interval_micros as int <= 1_000_000_000
                * 1_000_000_000_000_000) by (nonlinear_arith)
                requires
                    max_tokens <= 1_000_000_000,
                    interval_micros <= 1_000_000_000_000_000,
            ;
            assert(max_tokens as int * interval_micros as int >= 0) by (nonlinear_arith)
                requires
                    max_tokens >= 1,
                    interval_micros >= 1,
            ;
        }
        let units: u128 = (max_tokens as u128) * (interval_micros as u128);
        RateLimiter { max_tokens, interval_micros, units, last_refill_micros: now_micros }
    }

    /// Refills for the elapsed time, then admits the operation if a whole
    /// token is there, consuming it.
    pub fn check_rate_limit(&mut self, now_micros: u64) -> (r: bool)
        requires
            old(self).wf(),
        ensures
            final(self).wf(),
            final(self).max_tokens == old(self).max_tokens,
            final(self).interval_micros == old(self).interval_micros,
            final(self).last_refill_micros == if now_micros >= old(self).last_refill_micros {
                now_micros
            } else {
                old(self).last_refill_micros
            },
            r == (old(self).refilled_units(now_micros) >= old(self).interval_micros as int),
            final(self).units as int == if r {
                old(self).refilled_units(now_micros) - old(self).interval_micros as int
            } else {
                old(self).refilled_units(now_micros)
            },
    {
        self.refill(now_micros);
        if self.units >= self.interval_micros as u128 {
            self.units = self.units - self.interval_micros as u128;
            true
        } else {
            false
        }
    }

    /// How many whole tokens a check at `now` would see.
    pub fn available_tokens(&mut self, now_micros: u64) -> (r: u64)
        requires
            old(self).wf(),
        ensures
            final(self).wf(),
            final(self).max_tokens == old(self).max_tokens,
            final(self).interval_micros == old(self).interval_micros,
            final(self).units as int == old(self).refilled_units(now_micros),
            r as int == old(self).refilled_units(now_micros) / old(self).interval_micros as int,
    {
        self.refill(now_micros);
        proof {
            assert(self.units as int / self.interval_micros as int <= self.max_tokens as int)
                by (nonlinear_arith)
                requires
                    self.units as int <= self.max_tokens as int * self.interval_micros as int,
                    self.interval_micros >= 1,
                    self.units >= 0,
            ;
        }
        (self.units / self.interval_micros as u128) as u64
    }

    /// Grows the bucket for the time passed since the last refill.
    fn refill(&mut self, now_micros: u64)
        requires
            old(self).wf(),
        ensures
            final(self).wf(),
            final(self).max_tokens == old(self).max_tokens,
            final(self).interval_micros == old(self).interval_micros,
            final(self).units as int == old(self).refilled_units(now_micros),
            final(self).last_refill_micros == if now_micros >= old(self).last_refill_micros {
                now_micros
            } else {
                old(self).last_refill_micros
            },
    {
        if now_micros > self.last_refill_micros {
            let elapsed: u128 = (now_micros - self.last_refill_micros) as u128;
            proof {
                assert(elapsed as int * self.max_tokens as int <= 18_446_744_073_709_551_615
                    * 1_000_000_000 && elapsed as int * self.max_tokens as int >= 0)
                    by (nonlinear_arith)
                    requires
                        0 <= elapsed <= 18_446_744_073_709_551_615,
                        1 <= self.max_tokens <= 1_000_000_000,
                ;
                assert(self.max_tokens as int * self.interval_micros as int <= 1_000_000_000
                    * 1_000_000_000_000_000 && self.max_tokens as int * self.interval_micros as int
                    >= 0) by (nonlinear_arith)
                    requires
                        1 <= self.max_tokens <= 1_000_000_000,
                        1 <= self.interval_micros <= 1_000_000_000_000_000,
                ;
            }
            let grown: u128 = self.units + elapsed * (self.max_tokens as u128);
            let full: u128 = (self.max_tokens as u128) * (self.interval_micros as u128);
            self.units = if grown > full {
                full
            } else {
                grown
            };
            self.last_refill_micros = now_micros;
        }
    }
}

} // verus!
