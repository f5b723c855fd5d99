use kittens_code::tokens::TokenAccounting;

#[test]
fn default_ratio_is_bytes_over_four() {
    let acc = TokenAccounting::default();
    assert_eq!(acc.estimate_tail(4_000), 1_000);
}

#[test]
fn calibration_moves_the_ratio() {
    let mut acc = TokenAccounting::default();
    acc.record_provider_usage(1_000, 3_000);
    assert_eq!(acc.history_tokens(), 1_000);
    assert_eq!(acc.estimate_tail(3_000), 1_000);
}

#[test]
fn error_bounds_are_tracked() {
    let mut acc = TokenAccounting::default();
    acc.record_provider_usage(1_000, 3_000);
    assert_eq!(acc.max_error_permille(), 250);
}

#[test]
fn extreme_inputs_do_not_overflow() {
    let mut acc = TokenAccounting::default();
    let est = acc.estimate_tail(u64::MAX);
    assert!(est > 0);
    acc.record_provider_usage(u64::MAX, u64::MAX);
    acc.record_provider_usage(1, u64::MAX);
    acc.bytes_per_token_milli = 1;
    assert_eq!(acc.estimate_tail(u64::MAX), u64::MAX);
    let _ = acc.window_tokens(u64::MAX);
}

#[test]
fn deterministic_across_runs() {
    let mut a = TokenAccounting::default();
    let mut b = TokenAccounting::default();
    for (t, y) in [(100, 380), (220, 700), (57, 231)] {
        a.record_provider_usage(t, y);
        b.record_provider_usage(t, y);
    }
    assert_eq!(a.estimate_tail(12_345), b.estimate_tail(12_345));
    assert_eq!(a.max_error_permille(), b.max_error_permille());
}

#[test]
fn estimates_round_up_and_grow_with_bytes() {
    let acc = TokenAccounting::default();
    assert_eq!(acc.estimate_tail(0), 0);
    assert_eq!(acc.estimate_tail(1), 1);
    assert_eq!(acc.estimate_tail(5), 2);
    assert!(acc.estimate_tail(400) <= acc.estimate_tail(401));
}

#[test]
fn window_tokens_adds_history_to_the_tail_estimate() {
    let mut acc = TokenAccounting::default();
    acc.record_provider_usage(1_000, 3_000);
    assert_eq!(acc.window_tokens(3_000), 2_000);
    acc.reset_history(10);
    assert_eq!(acc.window_tokens(0), 10);
    assert_eq!(acc.samples(), 1);
}
