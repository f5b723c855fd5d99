//! Compaction decision engine.
//!
//! Pure decision logic: given the current window pressure and its own
//! state, it says what the context engine should do next. It never touches
//! records: compaction rebuilds the window view and never deletes log
//! content. Escalation order is microcompact, then full summary, then
//! mechanical drop-oldest, with prefire scheduling (background summary
//! started below the hard trigger) and a circuit breaker that suppresses
//! repeated deterministic failure.

use vstd::prelude::*;

use crate::protocol::config::CompactionThresholds;

verus! {

/// Deterministic failures tolerated before the breaker opens.
pub const BREAKER_LIMIT: u8 = 2;

/// What the context engine should do now.
#[derive(Clone, Copy, Debug, PartialEq, Eq, Structural)]
#[non_exhaustive]
pub enum CompactionDecision {
    /// Nothing; pressure is below every threshold.
    Nothing,
    /// Start background prefire summarization (emit the sub-model effect).
    StartPrefire,
    /// Age stale tool results out of the window (cheap, cache-preserving).
    Microcompact,
    /// Apply the ready summary: rebuild the window.
    ApplySummary,
    /// No summary is ready at the hard line: drop oldest turns mechanically.
    DropOldest,
    /// The breaker is open; compaction is suppressed until config changes.
    Suppressed,
}

/// Compaction scheduling state for one session.
///
/// The booleans are independent latch bits of one scheduling protocol, not
/// a disguised enum: prefire can be in flight while a previous summary is
/// still unapplied, and the breaker is orthogonal to both.
#[derive(Clone, Copy, Debug)]
pub struct CompactionState {
    prefire_inflight: bool,
    summary_ready: bool,
    microcompact_done_at_pressure: bool,
    failures: u8,
    suppressed: bool,
}

/// The scheduling state as plain values.
#[derive(Clone, Copy, Debug, PartialEq, Eq, Structural)]
pub struct CompactionModel {
    /// A prefire summarization effect is running.
    pub prefire_inflight: bool,
    /// A finished summary waits to be applied.
    pub summary_ready: bool,
    /// The cheap microcompact tier was used at the current pressure.
    pub microcompact_done: bool,
    /// Consecutive deterministic prefire failures.
    pub failures: u8,
    /// The breaker is open.
    pub suppressed: bool,
}

impl View for CompactionState {
    type V = CompactionModel;

    closed spec fn view(&self) -> CompactionModel {
        CompactionModel {
            prefire_inflight: self.prefire_inflight,
            summary_ready: self.summary_ready,
            microcompact_done: self.microcompact_done_at_pressure,
            failures: self.failures,
            suppressed: self.suppressed,
        }
    }
}

/// The initial state: nothing in flight, nothing ready, breaker closed.
pub open spec fn initial_model() -> CompactionModel {
    CompactionModel {
        prefire_inflight: false,
        summary_ready: false,
        microcompact_done: false,
        failures: 0,
        suppressed: false,
    }
}

/// The decision for `percent` of the window in use, and the state after it.
pub open spec fn decide_model(m: CompactionModel, percent: u8, t: CompactionThresholds) -> (
    CompactionModel,
    CompactionDecision,
) {
    if m.suppressed {
        (m, CompactionDecision::Suppressed)
    } else if percent >= t.hard_percent {
        if m.summary_ready {
            (m, CompactionDecision::ApplySummary)
        } else if !m.microcompact_done {
            (CompactionModel { microcompact_done: true, ..m }, CompactionDecision::Microcompact)
        } else {
            (m, CompactionDecision::DropOldest)
        }
    } else if percent >= t.prefire_percent {
        if !m.prefire_inflight && !m.summary_ready {
            (CompactionModel { prefire_inflight: true, ..m }, CompactionDecision::StartPrefire)
        } else {
            (m, CompactionDecision::Nothing)
        }
    } else {
        (CompactionModel { microcompact_done: false, ..m }, CompactionDecision::Nothing)
    }
}

/// The state after a prefire summarization succeeded.
pub open spec fn prefire_succeeded_model(m: CompactionModel) -> CompactionModel {
    CompactionModel { prefire_inflight: false, summary_ready: true, failures: 0, ..m }
}

/// The state after a prefire summarization failed.
pub open spec fn prefire_failed_model(m: CompactionModel) -> CompactionModel {
    let failures = if m.failures < u8::MAX {
        (m.failures + 1) as u8
    } else {
        u8::MAX
    };
    CompactionModel {
        prefire_inflight: false,
        failures,
        suppressed: m.suppressed || failures >= BREAKER_LIMIT,
        ..m
    }
}

impl Default for CompactionState {
    fn default() -> (r: Self)
        ensures
            r@ == initial_model(),
    {
        CompactionState {
            prefire_inflight: false,
            summary_ready: false,
            microcompact_done_at_pressure: false,
            failures: 0,
            suppressed: false,
        }
    }
}

impl CompactionState {
    /// Decides the next action for `window_percent` of context used.
    ///
    /// Call once per turn boundary; the mid-turn hard-overflow and
    /// provider-refusal recovery paths reuse the same decisions with
    /// `window_percent = 100`.
    pub fn decide(&mut self, window_percent: u8, thresholds: &CompactionThresholds) -> (r:
        CompactionDecision)
        ensures
            (final(self)@, r) == decide_model(old(self)@, window_percent, *thresholds),
    {
        if self.suppressed {
            return CompactionDecision::Suppressed;
        }
        if window_percent >= thresholds.hard_percent {
            if self.summary_ready {
                return CompactionDecision::ApplySummary;
            }
            if !self.microcompact_done_at_pressure {
                self.microcompact_done_at_pressure = true;
                return CompactionDecision::Microcompact;
            }
            return CompactionDecision::DropOldest;
        }
        if window_percent >= thresholds.prefire_percent {
            if !self.prefire_inflight && !self.summary_ready {
                self.prefire_inflight = true;
                return CompactionDecision::StartPrefire;
            }
            return CompactionDecision::Nothing;
        }
        // Pressure receded below prefire: the next climb gets its cheap
        // tier again.
        self.microcompact_done_at_pressure = false;
        CompactionDecision::Nothing
    }

    /// The prefire summarization effect finished successfully.
    pub fn prefire_succeeded(&mut self)
        ensures
            final(self)@ == prefire_succeeded_model(old(self)@),
    {
        self.prefire_inflight = false;
        self.summary_ready = true;
        self.failures = 0;
    }

    /// The prefire summarization effect failed.
    ///
    /// Deterministic repeated failure opens the breaker.
    pub fn prefire_failed(&mut self)
        ensures
            final(self)@ == prefire_failed_model(old(self)@),
    {
        self.prefire_inflight = false;
        self.failures = self.failures.saturating_add(1);
        if self.failures >= BREAKER_LIMIT {
            self.suppressed = true;
        }
    }

    /// A summary was applied; the window was rebuilt.
    pub fn summary_applied(&mut self)
        ensures
            final(self)@ == (CompactionModel {
                summary_ready: false,
                microcompact_done: false,
                ..old(self)@
            }),
    {
        self.summary_ready = false;
        self.microcompact_done_at_pressure = false;
    }

    /// Configuration changed: close the breaker and forget failures.
    pub fn reset_breaker(&mut self)
        ensures
            final(self)@ == (CompactionModel { failures: 0, suppressed: false, ..old(self)@ }),
    {
        self.failures = 0;
        self.suppressed = false;
    }

    /// Whether the breaker is currently open (event reporting).
    pub fn is_suppressed(&self) -> (r: bool)
        ensures
            r == self@.suppressed,
    {
        self.suppressed
    }
}

/// While the breaker is open, every decision is `Suppressed` and leaves the
/// state unchanged, and prefire completions keep it open: only
/// `reset_breaker` closes it.
pub proof fn lemma_breaker_is_sticky(m: CompactionModel, percent: u8, t: CompactionThresholds)
    requires
        m.suppressed,
    ensures
        decide_model(m, percent, t) == (m, CompactionDecision::Suppressed),
        prefire_failed_model(m).suppressed,
        prefire_succeeded_model(m).suppressed,
{
}

/// Two consecutive prefire failures open the breaker, whatever the
/// pressure afterwards.
pub proof fn lemma_breaker_opens_at_limit(m: CompactionModel, percent: u8, t: CompactionThresholds)
    requires
        m.failures == 0,
    ensures
        decide_model(prefire_failed_model(prefire_failed_model(m)), percent, t).1
            == CompactionDecision::Suppressed,
{
}

/// Prefire fires at most once: right after `StartPrefire`, and until the
/// summarization completes, no decision starts another.
pub proof fn lemma_prefire_fires_once(
    m: CompactionModel,
    first: u8,
    second: u8,
    t: CompactionThresholds,
)
    requires
        decide_model(m, first, t).1 == CompactionDecision::StartPrefire,
    ensures
        decide_model(decide_model(m, first, t).0, second, t).1 != CompactionDecision::StartPrefire,
{
}

/// Below the hard line nothing is dropped: mechanical drop-oldest happens
/// only at or above the hard threshold, after microcompact was tried.
pub proof fn lemma_drop_only_at_hard_line(m: CompactionModel, percent: u8, t: CompactionThresholds)
    requires
        decide_model(m, percent, t).1 == CompactionDecision::DropOldest,
    ensures
        percent >= t.hard_percent,
        m.microcompact_done,
        !m.summary_ready,
{
}

/// Pressure receding re-arms the cheap tier: once a decision is taken
/// below both thresholds with the breaker closed, microcompact is no longer
/// marked done, so the next decision at or above the hard line with no
/// summary ready is `Microcompact`, never `DropOldest`.
pub proof fn lemma_receding_rearms_microcompact(
    m: CompactionModel,
    low: u8,
    high: u8,
    t: CompactionThresholds,
)
    requires
        !m.suppressed,
        low < t.prefire_percent,
        low < t.hard_percent,
        high >= t.hard_percent,
        !m.summary_ready,
    ensures
        decide_model(m, low, t).1 == CompactionDecision::Nothing,
        !decide_model(m, low, t).0.microcompact_done,
        decide_model(decide_model(m, low, t).0, high, t).1 == CompactionDecision::Microcompact,
{
}

/// At the hard line with no summary ready, the first decision is
/// `Microcompact` and only a second one, still at the hard line, drops the
/// oldest turns.
pub proof fn lemma_hard_line_escalates(m: CompactionModel, first: u8, second: u8, t: CompactionThresholds)
    requires
        !m.suppressed,
        !m.microcompact_done,
        !m.summary_ready,
        first >= t.hard_percent,
        second >= t.hard_percent,
    ensures
        decide_model(m, first, t).1 == CompactionDecision::Microcompact,
        decide_model(decide_model(m, first, t).0, second, t).1 == CompactionDecision::DropOldest,
{
}

} // verus!
