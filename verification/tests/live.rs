use kittens_code::driver::live::provider_error;
use kittens_code::driver::live::{
    endpoint_text, exponential_delay, jitter_draw, retry_after, retry_decision, AttemptFailure,
    CircuitBreaker,
    RetryConfig,
    RetryDecision,
};
use kittens_code::protocol::error::ErrorCode;
use kittens_code::time::{Duration, Instant};

fn retry_config() -> RetryConfig {
    RetryConfig {
        max_attempts: 4,
        base_delay: Duration::from_millis(100),
        max_delay: Duration::from_secs(2),
        max_elapsed: Duration::from_secs(20),
        breaker_failure_threshold: 3,
        breaker_cooldown: Duration::from_secs(5),
    }
}

#[test]
fn overload_retries_exponentially_and_honors_retry_after() {
    let config = retry_config();
    let overload = AttemptFailure::overloaded("busy", None);
    assert_eq!(
        retry_decision(
            &config,
            0,
            &overload,
            Duration::zero(),
            Duration::from_millis(7),
        ),
        RetryDecision::Retry(Duration::from_millis(107))
    );
    assert_eq!(
        retry_decision(&config, 2, &overload, Duration::zero(), Duration::zero()),
        RetryDecision::Retry(Duration::from_millis(400))
    );

    let rate_limited = AttemptFailure::overloaded("limited", Some(Duration::from_secs(3)));
    assert_eq!(
        retry_decision(&config, 0, &rate_limited, Duration::zero(), Duration::zero()),
        RetryDecision::Retry(Duration::from_secs(3))
    );
}

#[test]
fn terminal_failures_and_exhausted_bounds_give_up() {
    let config = retry_config();
    for code in [ErrorCode::ModelAuth, ErrorCode::ModelContextLength] {
        let failure = AttemptFailure::terminal(code, "terminal");
        assert_eq!(
            retry_decision(&config, 0, &failure, Duration::zero(), Duration::zero()),
            RetryDecision::GiveUp
        );
    }
    let overload = AttemptFailure::overloaded("busy", None);
    assert_eq!(
        retry_decision(
            &config,
            config.max_attempts - 1,
            &overload,
            Duration::zero(),
            Duration::zero(),
        ),
        RetryDecision::GiveUp
    );
}

#[test]
fn breaker_opens_at_threshold_and_resets_after_cooldown_or_success() {
    let config = retry_config();
    let mut breaker =
        CircuitBreaker::new(config.breaker_failure_threshold, config.breaker_cooldown);
    let now = Instant::from_nanos(1_000_000_000_000);
    let error = (ErrorCode::ModelOverloaded, String::from("busy"));
    breaker.record_failure(now, &error);
    breaker.record_failure(now, &error);
    assert!(breaker.before_call(now).is_none());
    breaker.record_failure(now, &error);
    assert_eq!(
        breaker.before_call(now).unwrap().0,
        ErrorCode::ModelOverloaded
    );
    assert!(breaker
        .before_call(now.checked_add(config.breaker_cooldown).unwrap())
        .is_none());

    breaker.record_failure(now, &error);
    breaker.record_success();
    assert!(breaker.before_call(now).is_none());
}

#[test]
fn open_breaker_reports_the_last_failure() {
    let mut breaker = CircuitBreaker::new(1, Duration::from_secs(5));
    let now = Instant::from_nanos(10);
    breaker.record_failure(now, &(ErrorCode::ModelAuth, String::from("bad key")));
    let (code, message) = breaker.before_call(now).unwrap();
    assert_eq!(code, ErrorCode::ModelAuth);
    assert_eq!(
        message,
        "model circuit is open after consecutive failures: bad key"
    );
}

#[test]
fn exponential_delay_doubles_then_caps() {
    let base = Duration::from_millis(100);
    let max = Duration::from_secs(2);
    assert_eq!(exponential_delay(base, 0, max), Duration::from_millis(100));
    assert_eq!(exponential_delay(base, 3, max), Duration::from_millis(800));
    assert_eq!(exponential_delay(base, 5, max), Duration::from_secs(2));
    assert_eq!(exponential_delay(base, 400, max), Duration::from_secs(2));
}

#[test]
fn elapsed_budget_bounds_the_ladder() {
    let config = retry_config();
    let overload = AttemptFailure::overloaded("busy", None);
    assert_eq!(
        retry_decision(
            &config,
            0,
            &overload,
            Duration::from_secs(20),
            Duration::zero()
        ),
        RetryDecision::GiveUp
    );
    let transport = AttemptFailure::transport("reset");
    assert_eq!(
        retry_decision(&config, 1, &transport, Duration::zero(), Duration::zero()),
        RetryDecision::Retry(Duration::from_millis(200))
    );
    assert_eq!(RetryConfig::default().max_attempts, 4);
}

#[test]
fn jitter_follows_the_xorshift_sequence_and_stays_within_its_bound() {
    let maximum = Duration::from_millis(100);
    let (state, first) = jitter_draw(0x4b43_304c_4956_4501, maximum);
    assert_eq!(state, 8_446_701_209_555_012_043);
    assert_eq!(first, Duration::from_millis(14));
    let (state, second) = jitter_draw(state, maximum);
    assert_eq!(state, 13_987_688_564_439_538_712);
    assert_eq!(second, Duration::from_millis(24));
    let (_, none) = jitter_draw(state, Duration::zero());
    assert_eq!(none, Duration::zero());
}

#[test]
fn retry_after_reads_seconds_or_an_http_date() {
    let now = Duration::from_secs(1_445_412_470);
    assert_eq!(retry_after(" 120\t", now), Some(Duration::from_secs(120)));
    assert_eq!(retry_after("+5", now), Some(Duration::from_secs(5)));
    assert_eq!(retry_after("-5", now), None);
    assert_eq!(retry_after("", now), None);
    assert_eq!(retry_after("18446744073709551616", now), None);
    assert_eq!(
        retry_after("Wed, 21 Oct 2015 07:28:00 GMT", now),
        Some(Duration::from_secs(10))
    );
    assert_eq!(
        retry_after("Wed, 21 Oct 2015 07:28:00 GMT", Duration::from_secs(1_500_000_000)),
        Some(Duration::zero())
    );
}

#[test]
fn endpoint_drops_trailing_slashes_before_the_messages_path() {
    assert_eq!(
        endpoint_text("https://api.anthropic.com//"),
        "https://api.anthropic.com/v1/messages"
    );
    assert_eq!(endpoint_text("http://h:8080"), "http://h:8080/v1/messages");
}

#[test]
fn provider_error_reads_the_error_member_or_the_body() {
    assert_eq!(
        provider_error(r#"{"type":"error","error":{"type":"overloaded_error","message":"busy"}}"#),
        (Some(String::from("overloaded_error")), Some(String::from("busy")))
    );
    assert_eq!(
        provider_error(r#"{"type":"invalid_request_error","message":"bad"}"#),
        (Some(String::from("invalid_request_error")), Some(String::from("bad")))
    );
    assert_eq!(provider_error("not json"), (None, None));
    assert_eq!(provider_error(r#"{"error":"plain"}"#), (None, None));
}

#[test]
fn a_terminal_failure_gives_up_even_at_the_last_attempt_number() {
    let failure = AttemptFailure::terminal(ErrorCode::ModelAuth, "terminal");
    assert_eq!(
        retry_decision(
            &retry_config(),
            u32::MAX,
            &failure,
            Duration::zero(),
            Duration::zero()
        ),
        RetryDecision::GiveUp
    );
}
