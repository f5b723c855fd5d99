//! Deterministic token accounting.
//!
//! The driving number for compaction triggers is hybrid: provider-reported
//! usage for history (exact) plus a tail estimator self-calibrated each turn
//! against that same provider usage. All arithmetic is integer fixed-point,
//! so replay is byte-identical across targets.
//!
//! The estimator also tracks its own observed error bound, so compaction
//! trigger noise can be reported.

use vstd::prelude::*;

verus! {

/// Fixed-point scale for the bytes-per-token ratio.
pub const RATIO_SCALE: u64 = 1_000;

/// Fallback ratio before any calibration sample exists: 4000 milli-bytes per
/// token (bytes / 4), held only until the first provider report replaces
/// it.
pub const DEFAULT_BYTES_PER_TOKEN_MILLI: u64 = 4_000;

/// Hybrid token accounting for one session.
#[derive(Clone, Copy, Debug)]
pub struct TokenAccounting {
    /// Exact prompt tokens the provider reported for committed history.
    history_tokens: u64,
    /// Calibrated ratio: bytes per token, scaled by [`RATIO_SCALE`].
    pub bytes_per_token_milli: u64,
    /// Calibration samples observed.
    samples: u32,
    /// Worst observed relative error of pre-report estimates, in permille.
    max_error_permille: u32,
}

/// `a / b` rounded up, for `b > 0`.
pub open spec fn ceil_div(a: int, b: int) -> int {
    (a + b - 1) / b
}

/// `x` saturated to `u64`.
pub open spec fn sat_u64(x: int) -> u64 {
    if x <= u64::MAX {
        x as u64
    } else {
        u64::MAX
    }
}

/// `x` saturated to `u32`.
pub open spec fn sat_u32(x: int) -> u32 {
    if x <= u32::MAX {
        x as u32
    } else {
        u32::MAX
    }
}

/// Estimated tokens for `bytes` at `ratio` milli-bytes per token.
pub open spec fn estimate(ratio: u64, bytes: u64) -> u64 {
    let per = if ratio >= 1 {
        ratio as int
    } else {
        1
    };
    sat_u64(ceil_div(bytes * RATIO_SCALE, per))
}

/// The relative error, in permille rounded up, of `estimated` against the
/// reported `tokens > 0`.
pub open spec fn error_permille(estimated: u64, tokens: u64) -> u32 {
    let diff = if estimated >= tokens {
        estimated - tokens
    } else {
        tokens - estimated
    };
    sat_u32(ceil_div(diff * 1000, tokens as int))
}

/// The ratio after blending one observation into `samples` earlier ones.
pub open spec fn blended_ratio(ratio: u64, samples: u32, tokens: u64, bytes: u64) -> u64 {
    let observed = (bytes * RATIO_SCALE) / (tokens as int);
    let blended = sat_u64((ratio * samples + observed) / (samples + 1));
    if blended >= 1 {
        blended
    } else {
        1
    }
}

impl Default for TokenAccounting {
    fn default() -> (r: Self)
        ensures
            r.history() == 0,
            r.ratio() == DEFAULT_BYTES_PER_TOKEN_MILLI,
            r.sample_count() == 0,
            r.max_error() == 0,
    {
        TokenAccounting {
            history_tokens: 0,
            bytes_per_token_milli: DEFAULT_BYTES_PER_TOKEN_MILLI,
            samples: 0,
            max_error_permille: 0,
        }
    }
}

impl TokenAccounting {
    /// Exact history tokens.
    pub closed spec fn history(self) -> u64 {
        self.history_tokens
    }

    /// The calibrated ratio, in milli-bytes per token.
    pub closed spec fn ratio(self) -> u64 {
        self.bytes_per_token_milli
    }

    /// Calibration samples.
    pub closed spec fn sample_count(self) -> u32 {
        self.samples
    }

    /// Worst relative error seen, in permille.
    pub closed spec fn max_error(self) -> u32 {
        self.max_error_permille
    }

    /// Estimates tokens for `bytes` of not-yet-reported tail content.
    ///
    /// Products are computed in `u128` and saturated back to `u64`, so no
    /// byte count can overflow, and the result is deterministic.
    pub fn estimate_tail(&self, bytes: u64) -> (r: u64)
        ensures
            r == estimate(self.ratio(), bytes),
    {
        let scaled = (bytes as u128) * 1000;
        let per: u128 = if self.bytes_per_token_milli >= 1 {
            self.bytes_per_token_milli as u128
        } else {
            1
        };
        assert(scaled + per - 1 <= u128::MAX) by {
            assert(scaled <= 0xffff_ffff_ffff_ffff * 1000);
        }
        let q = (scaled + per - 1) / per;
        if q <= u64::MAX as u128 {
            q as u64
        } else {
            u64::MAX
        }
    }

    /// The current best window total: exact history plus estimated tail.
    pub fn window_tokens(&self, tail_bytes: u64) -> (r: u64)
        ensures
            r == sat_u64(self.history() + estimate(self.ratio(), tail_bytes)),
    {
        self.history_tokens.saturating_add(self.estimate_tail(tail_bytes))
    }

    /// Records a provider usage report covering content that measured
    /// `reported_bytes` on our side and `reported_tokens` on the provider's.
    ///
    /// Recalibrates the ratio (running mean over samples) and records the
    /// relative error the pre-report estimate would have made. Intermediate
    /// products use `u128`, so no input can overflow.
    pub fn record_provider_usage(&mut self, reported_tokens: u64, reported_bytes: u64)
        ensures
            reported_tokens == 0 ==> *final(self) == *old(self),
            reported_tokens > 0 ==> {
                let before = *old(self);
                let after = *final(self);
                let err = error_permille(
                    estimate(before.ratio(), reported_bytes),
                    reported_tokens,
                );
                &&& after.max_error() == if err > before.max_error() {
                    err
                } else {
                    before.max_error()
                }
                &&& after.ratio() == blended_ratio(
                    before.ratio(),
                    before.sample_count(),
                    reported_tokens,
                    reported_bytes,
                )
                &&& after.sample_count() == sat_u32(before.sample_count() + 1)
                &&& after.history() == sat_u64(before.history() + reported_tokens)
            },
    {
        if reported_tokens == 0 {
            return;
        }
        let estimate = self.estimate_tail(reported_bytes);
        let diff: u64 = if estimate >= reported_tokens {
            estimate - reported_tokens
        } else {
            reported_tokens - estimate
        };
        let error = diff as u128;
        let tokens = reported_tokens as u128;
        assert(error * 1000 + tokens - 1 <= u128::MAX) by {
            assert(error * 1000 <= 0xffff_ffff_ffff_ffff * 1000);
        }
        let permille_wide = (error * 1000 + tokens - 1) / tokens;
        let permille: u32 = if permille_wide <= u32::MAX as u128 {
            permille_wide as u32
        } else {
            u32::MAX
        };
        if permille > self.max_error_permille {
            self.max_error_permille = permille;
        }
        let scaled = (reported_bytes as u128) * 1000;
        let observed_milli = scaled / tokens;
        let n = self.samples as u128;
        let ratio = self.bytes_per_token_milli as u128;
        assert(ratio * n <= 0xffff_ffff_ffff_ffff * 0xffff_ffff) by (nonlinear_arith)
            requires
                ratio <= 0xffff_ffff_ffff_ffff,
                n <= 0xffff_ffff,
        ;
        assert(observed_milli <= scaled) by (nonlinear_arith)
            requires
                observed_milli == scaled / tokens,
                tokens >= 1,
        ;
        let blended = (ratio * n + observed_milli) / (n + 1);
        let narrowed: u64 = if blended <= u64::MAX as u128 {
            blended as u64
        } else {
            u64::MAX
        };
        self.bytes_per_token_milli = if narrowed >= 1 {
            narrowed
        } else {
            1
        };
        self.samples = self.samples.saturating_add(1);
        self.history_tokens = self.history_tokens.saturating_add(reported_tokens);
    }

    /// Exact provider-reported history tokens accumulated so far.
    pub fn history_tokens(&self) -> (r: u64)
        ensures
            r == self.history(),
    {
        self.history_tokens
    }

    /// Resets the exact history counter after compaction rebuilt the window
    /// (the calibrated ratio survives; it describes the model, not the
    /// window).
    pub fn reset_history(&mut self, new_history_tokens: u64)
        ensures
            final(self).history() == new_history_tokens,
            final(self).ratio() == old(self).ratio(),
            final(self).sample_count() == old(self).sample_count(),
            final(self).max_error() == old(self).max_error(),
    {
        self.history_tokens = new_history_tokens;
    }

    /// Worst observed relative estimator error, in permille.
    pub fn max_error_permille(&self) -> (r: u32)
        ensures
            r == self.max_error(),
    {
        self.max_error_permille
    }

    /// Calibration samples observed.
    pub fn samples(&self) -> (r: u32)
        ensures
            r == self.sample_count(),
    {
        self.samples
    }
}

/// The calibrated ratio never falls below one milli-byte per token, so the
/// estimator never divides by zero.
pub proof fn lemma_ratio_stays_positive(ratio: u64, samples: u32, tokens: u64, bytes: u64)
    requires
        tokens > 0,
    ensures
        blended_ratio(ratio, samples, tokens, bytes) >= 1,
{
}

/// Calibration is a running mean over samples: after a report of `tokens
/// > 0` for `bytes`, the ratio is the sample-weighted mean of the old ratio
/// (over `samples` earlier reports) and the observed `bytes * 1000 /
/// tokens`, rounded down, at least one and at most `u64::MAX`. With one or
/// more earlier samples it lies between the old ratio and the observation.
pub proof fn lemma_ratio_is_running_mean(ratio: u64, samples: u32, tokens: u64, bytes: u64)
    requires
        tokens > 0,
    ensures
        ({
            let observed = (bytes * 1000) / (tokens as int);
            let total = ratio * samples + observed;
            let r = blended_ratio(ratio, samples, tokens, bytes) as int;
            &&& r >= 1
            &&& r <= u64::MAX
            &&& (1 <= total / (samples + 1) <= u64::MAX) ==> r * (samples + 1) <= total && total
                < (r + 1) * (samples + 1)
            &&& total / (samples + 1) < 1 ==> r == 1
            &&& (samples == 0 && 1 <= observed <= u64::MAX) ==> r == observed
            &&& (samples >= 1 && observed >= 1 && observed <= u64::MAX) ==> {
                &&& (ratio <= observed ==> ratio <= r <= observed)
                &&& (observed <= ratio ==> observed <= r <= ratio)
            }
        }),
{
    let observed = (bytes * 1000) / (tokens as int);
    let total = ratio * samples + observed;
    let d = samples + 1;
    let q = total / d;
    assert(q * d <= total < (q + 1) * d) by (nonlinear_arith)
        requires
            d >= 1,
            q == total / d,
    ;
    assert(observed >= 0) by (nonlinear_arith)
        requires
            observed == (bytes * 1000) / (tokens as int),
            tokens > 0,
            bytes >= 0,
    ;
    if samples >= 1 && observed >= 1 && observed <= u64::MAX {
        if ratio <= observed {
            assert(ratio * d <= total <= observed * d) by (nonlinear_arith)
                requires
                    total == ratio * samples + observed,
                    d == samples + 1,
                    ratio <= observed,
            ;
            assert(ratio <= q <= observed) by (nonlinear_arith)
                requires
                    ratio * d <= total <= observed * d,
                    q * d <= total < (q + 1) * d,
                    d >= 1,
            ;
        } else {
            assert(observed * d <= total <= ratio * d) by (nonlinear_arith)
                requires
                    total == ratio * samples + observed,
                    d == samples + 1,
                    observed <= ratio,
            ;
            assert(observed <= q <= ratio) by (nonlinear_arith)
                requires
                    observed * d <= total <= ratio * d,
                    q * d <= total < (q + 1) * d,
                    d >= 1,
            ;
        }
    }
}

/// The estimate is the token count rounded up: the fewest tokens whose
/// bytes at the ratio (at least one milli-byte per token) cover the given
/// bytes, unless that count exceeds `u64::MAX`.
pub proof fn lemma_estimate_is_ceiling(ratio: u64, bytes: u64)
    ensures
        ({
            let per: int = if ratio >= 1 {
                ratio as int
            } else {
                1
            };
            let e = estimate(ratio, bytes) as int;
            let need = bytes * 1000;
            &&& (e < u64::MAX) ==> e * per >= need && (e >= 1 ==> (e - 1) * per < need)
            &&& (bytes == 0 <==> e == 0)
        }),
{
    let per: int = if ratio >= 1 {
        ratio as int
    } else {
        1
    };
    let need = bytes * 1000;
    let q = (need + per - 1) / per;
    assert(q * per <= need + per - 1 < (q + 1) * per) by (nonlinear_arith)
        requires
            per >= 1,
            q == (need + per - 1) / per,
            need >= 0,
    ;
    assert(q >= 0) by (nonlinear_arith)
        requires
            per >= 1,
            q == (need + per - 1) / per,
            need >= 0,
    ;
    assert(q * per >= need && (q >= 1 ==> (q - 1) * per < need)) by (nonlinear_arith)
        requires
            q * per <= need + per - 1 < (q + 1) * per,
    ;
    assert(estimate(ratio, bytes) == sat_u64(q));
    if bytes > 0 {
        assert(need >= 1000);
        assert(q >= 1) by (nonlinear_arith)
            requires
                q * per <= need + per - 1 < (q + 1) * per,
                need >= 1,
                per >= 1,
        ;
    } else {
        assert(q == 0) by (nonlinear_arith)
            requires
                q * per <= per - 1 < (q + 1) * per,
                per >= 1,
                q >= 0,
        ;
    }
}

/// The recorded relative error is the difference per mille of the
/// reported tokens, rounded up, unless it exceeds `u32::MAX`.
pub proof fn lemma_error_is_ceiling(estimated: u64, tokens: u64)
    requires
        tokens > 0,
    ensures
        ({
            let diff: int = if estimated >= tokens {
                estimated - tokens
            } else {
                tokens - estimated
            };
            let p = error_permille(estimated, tokens) as int;
            &&& p < u32::MAX ==> p * tokens >= diff * 1000 && (p >= 1 ==> (p - 1) * tokens < diff
                * 1000)
            &&& (diff == 0 <==> p == 0)
        }),
{
    let diff: int = if estimated >= tokens {
        estimated - tokens
    } else {
        tokens - estimated
    };
    let t = tokens as int;
    let need = diff * 1000;
    let q = (need + t - 1) / t;
    assert(q * t <= need + t - 1 < (q + 1) * t) by (nonlinear_arith)
        requires
            t >= 1,
            q == (need + t - 1) / t,
            need >= 0,
    ;
    assert(q >= 0) by (nonlinear_arith)
        requires
            t >= 1,
            q == (need + t - 1) / t,
            need >= 0,
    ;
    assert(q * t >= need && (q >= 1 ==> (q - 1) * t < need)) by (nonlinear_arith)
        requires
            q * t <= need + t - 1 < (q + 1) * t,
    ;
    assert(error_permille(estimated, tokens) == sat_u32(q));
    if diff > 0 {
        assert(q >= 1) by (nonlinear_arith)
            requires
                q * t <= need + t - 1 < (q + 1) * t,
                need >= 1,
                t >= 1,
        ;
    } else {
        assert(q == 0) by (nonlinear_arith)
            requires
                q * t <= t - 1 < (q + 1) * t,
                t >= 1,
                q >= 0,
        ;
    }
}

/// More tail bytes never estimate to fewer tokens.
pub proof fn lemma_estimate_is_monotone(ratio: u64, fewer: u64, more: u64)
    requires
        fewer <= more,
    ensures
        estimate(ratio, fewer) <= estimate(ratio, more),
{
    let per: int = if ratio >= 1 {
        ratio as int
    } else {
        1
    };
    vstd::arithmetic::div_mod::lemma_div_is_ordered(
        fewer * RATIO_SCALE + per - 1,
        more * RATIO_SCALE + per - 1,
        per,
    );
}

} // verus!
