use kittens_code::compact::{CompactionDecision, CompactionState};
use kittens_code::protocol::config::CompactionThresholds;

fn thresholds() -> CompactionThresholds {
    CompactionThresholds::default()
}

#[test]
fn quiet_below_prefire() {
    let mut s = CompactionState::default();
    assert_eq!(s.decide(50, &thresholds()), CompactionDecision::Nothing);
}

#[test]
fn prefire_fires_once() {
    let mut s = CompactionState::default();
    assert_eq!(s.decide(76, &thresholds()), CompactionDecision::StartPrefire);
    assert_eq!(s.decide(78, &thresholds()), CompactionDecision::Nothing);
}

#[test]
fn hard_line_prefers_ready_summary() {
    let mut s = CompactionState::default();
    assert_eq!(s.decide(76, &thresholds()), CompactionDecision::StartPrefire);
    s.prefire_succeeded();
    assert_eq!(s.decide(86, &thresholds()), CompactionDecision::ApplySummary);
    s.summary_applied();
    assert_eq!(s.decide(50, &thresholds()), CompactionDecision::Nothing);
}

#[test]
fn hard_line_without_summary_escalates() {
    let mut s = CompactionState::default();
    assert_eq!(s.decide(90, &thresholds()), CompactionDecision::Microcompact);
    assert_eq!(s.decide(90, &thresholds()), CompactionDecision::DropOldest);
}

#[test]
fn breaker_opens_after_repeated_failure_and_resets() {
    let mut s = CompactionState::default();
    assert_eq!(s.decide(76, &thresholds()), CompactionDecision::StartPrefire);
    s.prefire_failed();
    assert_eq!(s.decide(76, &thresholds()), CompactionDecision::StartPrefire);
    s.prefire_failed();
    assert_eq!(s.decide(90, &thresholds()), CompactionDecision::Suppressed);
    s.reset_breaker();
    assert_eq!(s.decide(76, &thresholds()), CompactionDecision::StartPrefire);
}

#[test]
fn breaker_stays_open_at_every_pressure_until_reset() {
    let mut s = CompactionState::default();
    s.prefire_failed();
    s.prefire_failed();
    assert!(s.is_suppressed());
    for pressure in [0u8, 50, 76, 85, 100] {
        assert_eq!(s.decide(pressure, &thresholds()), CompactionDecision::Suppressed);
    }
}

#[test]
fn hard_line_drops_only_after_microcompact_without_summary() {
    let mut s = CompactionState::default();
    assert_eq!(s.decide(85, &thresholds()), CompactionDecision::Microcompact);
    assert_eq!(s.decide(85, &thresholds()), CompactionDecision::DropOldest);
    s.prefire_succeeded();
    assert_eq!(s.decide(85, &thresholds()), CompactionDecision::ApplySummary);
}
