//! Retry, back-off, and circuit-breaker policy of the live model client,
//! and the classification of provider failures.

use vstd::prelude::*;

use crate::driver::model::ModelError;
use crate::protocol::error::ErrorCode;
use crate::reactor::syntax::{all_digits, digits_value, lemma_digits_grow};
use crate::text::{
    all_space, char_is_space, chars_of, is_space, concat, contains_chars, decimal, decimal_string, is_blank,
    lowercase_chars, lower_ascii, occurs_in, string_of,
};
use vstd::string::StrSliceExecFns;
use crate::time::{sat_nanos, Duration, Instant, NANOS_MAX};

verus! {

/// Bounds for the exponential retry ladder and failure-count breaker.
#[derive(Clone, Copy, Debug, PartialEq, Eq, Structural)]
pub struct RetryConfig {
    /// Total HTTP attempts, including the first attempt.
    pub max_attempts: u32,
    /// Delay before the first retry; later delays double from this value.
    pub base_delay: Duration,
    /// Maximum exponential delay before applying a longer `Retry-After`.
    pub max_delay: Duration,
    /// Maximum elapsed time the retry ladder may schedule across.
    pub max_elapsed: Duration,
    /// Consecutive terminally failed calls that open the breaker.
    pub breaker_failure_threshold: u32,
    /// How long an open breaker fails calls fast before permitting a probe.
    pub breaker_cooldown: Duration,
}

impl Default for RetryConfig {
    fn default() -> (r: Self)
        ensures
            r.max_attempts == 4,
            r.base_delay.ns() == 250_000_000,
            r.max_delay.ns() == 8_000_000_000,
            r.max_elapsed.ns() == 30_000_000_000,
            r.breaker_failure_threshold == 3,
            r.breaker_cooldown.ns() == 30_000_000_000,
    {
        RetryConfig {
            max_attempts: 4,
            base_delay: Duration::from_millis(250),
            max_delay: Duration::from_secs(8),
            max_elapsed: Duration::from_secs(30),
            breaker_failure_threshold: 3,
            breaker_cooldown: Duration::from_secs(30),
        }
    }
}

/// Whether a failed attempt may be retried.
#[derive(Clone, Copy, Debug, PartialEq, Eq, Structural)]
pub enum FailureClass {
    /// Transport faults, overload, and server errors.
    Retryable,
    /// Authentication, context-length, and request errors.
    NonRetryable,
}

/// One failed HTTP attempt, classified.
#[derive(Debug, PartialEq, Eq)]
pub struct AttemptFailure {
    /// The error code the engine sees if the ladder gives up.
    pub code: ErrorCode,
    /// The provider's or transport's message.
    pub message: String,
    /// Retry class.
    pub class: FailureClass,
    /// A provider-requested minimum delay.
    pub retry_after: Option<Duration>,
}

impl AttemptFailure {
    /// A retryable transport fault.
    pub fn transport(message: &str) -> (r: Self)
        ensures
            r.code == ErrorCode::ModelTransport,
            r.message@ == message@,
            r.class == FailureClass::Retryable,
            r.retry_after is None,
    {
        AttemptFailure {
            code: ErrorCode::ModelTransport,
            message: string_of(message),
            class: FailureClass::Retryable,
            retry_after: None,
        }
    }

    /// A failure no retry can fix.
    pub fn terminal(code: ErrorCode, message: &str) -> (r: Self)
        ensures
            r.code == code,
            r.message@ == message@,
            r.class == FailureClass::NonRetryable,
            r.retry_after is None,
    {
        AttemptFailure {
            code,
            message: string_of(message),
            class: FailureClass::NonRetryable,
            retry_after: None,
        }
    }

    /// A retryable overload, with the provider's requested delay.
    pub fn overloaded(message: &str, retry_after: Option<Duration>) -> (r: Self)
        ensures
            r.code == ErrorCode::ModelOverloaded,
            r.message@ == message@,
            r.class == FailureClass::Retryable,
            r.retry_after == retry_after,
    {
        AttemptFailure {
            code: ErrorCode::ModelOverloaded,
            message: string_of(message),
            class: FailureClass::Retryable,
            retry_after,
        }
    }

    /// The error the engine sees.
    pub fn into_model_error(self) -> (r: ModelError)
        ensures
            r.0 == self.code,
            r.1 == self.message,
    {
        (self.code, self.message)
    }
}

/// What to do after a failed attempt.
#[derive(Clone, Copy, Debug, PartialEq, Eq, Structural)]
pub enum RetryDecision {
    /// Sleep this long, then try again.
    Retry(Duration),
    /// Report the failure.
    GiveUp,
}

/// `2^n`.
pub open spec fn two_pow(n: nat) -> nat
    decreases n,
{
    if n == 0 {
        1
    } else {
        2 * two_pow((n - 1) as nat)
    }
}

proof fn lemma_two_pow_at_most(n: nat, k: nat)
    requires
        n <= k <= 31,
    ensures
        1 <= two_pow(n) <= two_pow(k),
        k == 30 ==> two_pow(k) == 0x4000_0000,
        k == 31 ==> two_pow(k) == 0x8000_0000,
{
    lemma_two_pow_mono(0, n);
    lemma_two_pow_mono(n, k);
    reveal_with_fuel(two_pow, 32);
}

proof fn lemma_two_pow_mono(a: nat, b: nat)
    requires
        a <= b,
    ensures
        two_pow(a) <= two_pow(b),
    decreases b - a,
{
    if a < b {
        lemma_two_pow_mono(a, (b - 1) as nat);
        assert(two_pow(b) == 2 * two_pow((b - 1) as nat));
    }
}

/// The multiplier of retry `attempt`: doubling, capped at `2^31`.
pub open spec fn ladder_multiplier(attempt: nat) -> nat {
    two_pow(if attempt > 31 {
        31
    } else {
        attempt
    })
}

/// The exponential delay of retry `attempt`, in nanoseconds: `base` times
/// the multiplier, capped at `maximum` (and `maximum` where the product
/// leaves the duration range).
pub open spec fn ladder_delay(base: nat, attempt: nat, maximum: nat) -> nat {
    let product = base * ladder_multiplier(attempt);
    if product > NANOS_MAX || product > maximum {
        maximum
    } else {
        product
    }
}

fn multiplier(attempt: u32) -> (m: u32)
    ensures
        m == ladder_multiplier(attempt as nat),
{
    let shift: u32 = if attempt > 31 {
        31
    } else {
        attempt
    };
    let mut m: u32 = 1;
    let mut i: u32 = 0;
    while i < shift
        invariant
            i <= shift <= 31,
            m == two_pow(i as nat),
        decreases shift - i,
    {
        proof {
            lemma_two_pow_at_most(i as nat, 30);
        }
        m = m * 2;
        i = i + 1;
    }
    m
}

/// The exponential delay before retry `attempt`.
pub fn exponential_delay(base: Duration, attempt: u32, maximum: Duration) -> (r: Duration)
    ensures
        r.ns() == ladder_delay(base.ns(), attempt as nat, maximum.ns()),
{
    let m = multiplier(attempt);
    let product = match base.checked_mul(m) {
        Some(d) => d,
        None => maximum,
    };
    if maximum.as_nanos() < product.as_nanos() {
        maximum
    } else {
        product
    }
}

/// The delay a retry waits, in nanoseconds: the capped exponential delay
/// plus jitter, capped at the maximum delay, then raised to any
/// `Retry-After`.
pub open spec fn retry_delay(
    config: RetryConfig,
    attempt: nat,
    retry_after: Option<Duration>,
    jitter: nat,
) -> nat {
    let backoff = ladder_delay(config.base_delay.ns(), attempt, config.max_delay.ns());
    let jittered = sat_nanos(backoff + jitter);
    let capped = if jittered > config.max_delay.ns() {
        config.max_delay.ns()
    } else {
        jittered
    };
    match retry_after {
        Some(ra) => if ra.ns() > capped {
            ra.ns()
        } else {
            capped
        },
        None => capped,
    }
}

/// The decision after failed attempt `attempt` (counting from zero).
pub open spec fn retry_verdict(
    config: RetryConfig,
    attempt: nat,
    class: FailureClass,
    retry_after: Option<Duration>,
    elapsed: nat,
    jitter: nat,
) -> Option<nat> {
    if class == FailureClass::NonRetryable || attempt + 1 >= config.max_attempts {
        None
    } else {
        let delay = retry_delay(config, attempt, retry_after, jitter);
        if sat_nanos(elapsed + delay) > config.max_elapsed.ns() {
            None
        } else {
            Some(delay)
        }
    }
}

/// The exponential delay never shrinks from one retry to a later one, and
/// never exceeds its maximum.
pub proof fn law_backoff_grows_to_its_cap(base: nat, a: nat, b: nat, maximum: nat)
    requires
        a <= b,
    ensures
        ladder_delay(base, a, maximum) <= ladder_delay(base, b, maximum) <= maximum,
{
    let ea = if a > 31 { 31 } else { a };
    let eb = if b > 31 { 31 } else { b };
    lemma_two_pow_mono(ea, eb);
    let ma = ladder_multiplier(a);
    let mb = ladder_multiplier(b);
    assert(base * ma <= base * mb) by (nonlinear_arith)
        requires
            ma <= mb,
    ;
}

/// A retry is granted only to a retryable failure with attempts left; it
/// waits no longer than the maximum delay unless the provider asked for
/// longer, and the time already spent plus the wait stays within the
/// elapsed budget.
pub proof fn law_retry_stays_within_bounds(
    config: RetryConfig,
    attempt: nat,
    class: FailureClass,
    retry_after: Option<Duration>,
    elapsed: nat,
    jitter: nat,
)
    ensures
        retry_verdict(config, attempt, class, retry_after, elapsed, jitter) matches Some(d) ==> {
            &&& class == FailureClass::Retryable
            &&& attempt + 1 < config.max_attempts
            &&& sat_nanos(elapsed + d) <= config.max_elapsed.ns()
            &&& (d <= config.max_delay.ns() || (retry_after matches Some(ra) && d == ra.ns()))
        },
{
}

/// Decides whether failed attempt `attempt` is retried, and after how long.
pub fn retry_decision(
    config: &RetryConfig,
    attempt: u32,
    failure: &AttemptFailure,
    elapsed: Duration,
    jitter: Duration,
) -> (r: RetryDecision)
    requires
        failure.class == FailureClass::NonRetryable || attempt < u32::MAX,
    ensures
        match retry_verdict(
            *config,
            attempt as nat,
            failure.class,
            failure.retry_after,
            elapsed.ns(),
            jitter.ns(),
        ) {
            Some(delay) => r matches RetryDecision::Retry(d) && d.ns() == delay,
            None => r == RetryDecision::GiveUp,
        },
{
    if failure.class == FailureClass::NonRetryable || attempt + 1 >= config.max_attempts {
        return RetryDecision::GiveUp;
    }
    let backoff = exponential_delay(config.base_delay, attempt, config.max_delay);
    let jittered = backoff.saturating_add(jitter);
    let capped = if config.max_delay.as_nanos() < jittered.as_nanos() {
        config.max_delay
    } else {
        jittered
    };
    let delay = match failure.retry_after {
        Some(ra) => if capped.as_nanos() < ra.as_nanos() {
            ra
        } else {
            capped
        },
        None => capped,
    };
    if config.max_elapsed.as_nanos() < elapsed.saturating_add(delay).as_nanos() {
        RetryDecision::GiveUp
    } else {
        RetryDecision::Retry(delay)
    }
}

/// A failure-count circuit breaker over model calls.
#[derive(Debug)]
pub struct CircuitBreaker {
    failure_threshold: u32,
    cooldown: Duration,
    consecutive_failures: u32,
    open_until: Option<Instant>,
    last_error: Option<ModelError>,
}

/// The breaker's state as plain values.
pub struct BreakerModel {
    /// Consecutive terminal failures since the last reset.
    pub consecutive_failures: nat,
    /// Until when calls fail fast.
    pub open_until: Option<nat>,
    /// The last terminal failure.
    pub last_error: Option<ModelError>,
}

impl CircuitBreaker {
    /// The state as plain values.
    pub closed spec fn view(&self) -> BreakerModel {
        BreakerModel {
            consecutive_failures: self.consecutive_failures as nat,
            open_until: match self.open_until {
                Some(t) => Some(t.ns()),
                None => None,
            },
            last_error: self.last_error,
        }
    }

    /// The failure count that opens the breaker.
    pub closed spec fn threshold(&self) -> nat {
        self.failure_threshold as nat
    }

    /// How long an open breaker stays open.
    pub closed spec fn cooldown_ns(&self) -> nat {
        self.cooldown.ns()
    }

    /// A closed breaker with no recorded failure.
    pub fn new(failure_threshold: u32, cooldown: Duration) -> (r: Self)
        ensures
            r.threshold() == failure_threshold,
            r.cooldown_ns() == cooldown.ns(),
            r@.consecutive_failures == 0,
            r@.open_until is None,
            r@.last_error is None,
    {
        CircuitBreaker {
            failure_threshold,
            cooldown,
            consecutive_failures: 0,
            open_until: None,
            last_error: None,
        }
    }

    /// Before a call: while open, the failure to report instead of calling;
    /// once the cooldown has passed, the breaker closes and forgets.
    pub fn before_call(&mut self, now: Instant) -> (r: Option<ModelError>)
        ensures
            final(self).threshold() == old(self).threshold(),
            final(self).cooldown_ns() == old(self).cooldown_ns(),
            match old(self)@.open_until {
                Some(until) => if now.ns() < until {
                    &&& final(self)@ == old(self)@
                    &&& r matches Some(e) && e.0 == (match old(self)@.last_error {
                        Some(last) => last.0,
                        None => ErrorCode::ModelTransport,
                    }) && e.1@ == "model circuit is open after consecutive failures: "@ + (
                    match old(self)@.last_error {
                        Some(last) => last.1@,
                        None => "model circuit is open"@,
                    })
                } else {
                    &&& r is None
                    &&& final(self)@.consecutive_failures == 0
                    &&& final(self)@.open_until is None
                    &&& final(self)@.last_error is None
                },
                None => r is None && final(self)@ == old(self)@,
            },
    {
        match self.open_until {
            Some(until) => {
                if now.is_before(&until) {
                    let (code, message) = match &self.last_error {
                        Some(last) => (last.0.clone(), last.1.clone()),
                        None => (ErrorCode::ModelTransport, string_of("model circuit is open")),
                    };
                    let text = concat(
                        "model circuit is open after consecutive failures: ",
                        message.as_str(),
                    );
                    return Some((code, text));
                }
                self.consecutive_failures = 0;
                self.open_until = None;
                self.last_error = None;
                None
            },
            None => None,
        }
    }

    /// A call succeeded: the breaker closes and forgets.
    pub fn record_success(&mut self)
        ensures
            final(self).threshold() == old(self).threshold(),
            final(self).cooldown_ns() == old(self).cooldown_ns(),
            final(self)@.consecutive_failures == 0,
            final(self)@.open_until is None,
            final(self)@.last_error is None,
    {
        self.consecutive_failures = 0;
        self.open_until = None;
        self.last_error = None;
    }

    /// A call failed terminally: count it, remember it, and open the
    /// breaker for the cooldown once the count reaches the threshold.
    pub fn record_failure(&mut self, now: Instant, error: &ModelError)
        requires
            now.ns() + old(self).cooldown_ns() <= u128::MAX,
        ensures
            final(self).threshold() == old(self).threshold(),
            final(self).cooldown_ns() == old(self).cooldown_ns(),
            final(self)@.consecutive_failures == (if old(self)@.consecutive_failures
                < u32::MAX {
                old(self)@.consecutive_failures + 1
            } else {
                old(self)@.consecutive_failures
            }),
            final(self)@.last_error == Some(*error),
            final(self)@.open_until == (if final(self)@.consecutive_failures >= old(
                self,
            ).threshold() {
                Some(now.ns() + old(self).cooldown_ns())
            } else {
                old(self)@.open_until
            }),
    {
        self.consecutive_failures = self.consecutive_failures.saturating_add(1);
        self.last_error = Some((error.0.clone(), error.1.clone()));
        if self.consecutive_failures >= self.failure_threshold {
            match now.checked_add(self.cooldown) {
                Some(until) => {
                    self.open_until = Some(until);
                },
                None => {},
            }
        }
    }
}

/// The longest provider error message kept, in characters.
pub const MAX_ERROR_MESSAGE_CHARS: usize = 2_048;

/// Bootstrap-only settings for an Anthropic-dialect live model endpoint.
///
/// The API key is intentionally not `Debug`.
pub struct LiveConfig {
    /// Endpoint base URL; the client appends `/v1/messages`.
    pub endpoint_base_url: String,
    /// Value sent in the `x-api-key` header.
    pub api_key: String,
    /// Exact provider model identifier.
    pub model: String,
    /// Maximum number of output tokens requested from the provider.
    pub max_output_tokens: u32,
    /// Retry and circuit-breaker settings.
    pub retry: RetryConfig,
}

/// The first reason `config` is unusable, if any.
pub open spec fn config_refusal(config: LiveConfig) -> Option<Seq<char>> {
    if all_space(config.endpoint_base_url@) {
        Some("model endpoint base URL must not be empty"@)
    } else if config.api_key@.len() == 0 {
        Some("model API key must not be empty"@)
    } else if all_space(config.model@) {
        Some("model id must not be empty"@)
    } else if config.max_output_tokens == 0 {
        Some("max output tokens must be greater than zero"@)
    } else if config.retry.max_attempts == 0 || config.retry.breaker_failure_threshold == 0 {
        Some("retry attempts and breaker threshold must be greater than zero"@)
    } else if config.retry.base_delay.ns() > config.retry.max_delay.ns() {
        Some("retry base delay must not exceed its maximum delay"@)
    } else {
        None
    }
}

/// Refuses an unusable live configuration with [`ErrorCode::ConfigInvalid`].
pub fn validate_config(config: &LiveConfig) -> (r: Result<(), ModelError>)
    ensures
        match config_refusal(*config) {
            None => r is Ok,
            Some(m) => r matches Err(e) && e.0 == ErrorCode::ConfigInvalid && e.1@ == m,
        },
{
    let message = if is_blank(config.endpoint_base_url.as_str()) {
        "model endpoint base URL must not be empty"
    } else if config.api_key.as_str().unicode_len() == 0 {
        "model API key must not be empty"
    } else if is_blank(config.model.as_str()) {
        "model id must not be empty"
    } else if config.max_output_tokens == 0 {
        "max output tokens must be greater than zero"
    } else if config.retry.max_attempts == 0 || config.retry.breaker_failure_threshold == 0 {
        "retry attempts and breaker threshold must be greater than zero"
    } else if config.retry.max_delay.as_nanos() < config.retry.base_delay.as_nanos() {
        "retry base delay must not exceed its maximum delay"
    } else {
        return Ok(());
    };
    Err((ErrorCode::ConfigInvalid, string_of(message)))
}

/// A provider message mentions an exhausted context window.
pub open spec fn mentions_context(message: Seq<char>) -> bool {
    let m = message.map_values(|c: char| lower_ascii(c));
    ||| occurs_in(m, "context window"@)
    ||| occurs_in(m, "context length"@)
    ||| occurs_in(m, "prompt is too long"@)
    ||| occurs_in(m, "too many input tokens"@)
    ||| occurs_in(m, "maximum context"@)
}

/// The provider failure is about context length.
pub open spec fn context_error(provider_type: Option<Seq<char>>, message: Seq<char>) -> bool {
    provider_type == Some("request_too_large"@) || mentions_context(message)
}

fn text_is(s: Option<&str>, lit: &str) -> (r: bool)
    ensures
        r == (s matches Some(t) && t@ == lit@),
{
    match s {
        Some(t) => crate::text::same_text(t, lit),
        None => false,
    }
}

/// The view of an optional string.
pub open spec fn opt_text(s: Option<&str>) -> Option<Seq<char>> {
    match s {
        Some(t) => Some(t@),
        None => None,
    }
}

/// Whether a provider failure is a context-length failure.
pub fn is_context_error(provider_type: Option<&str>, message: &str) -> (r: bool)
    ensures
        r == context_error(opt_text(provider_type), message@),
{
    if text_is(provider_type, "request_too_large") {
        return true;
    }
    let lowered = lowercase_chars(message);
    contains_chars(&lowered, &chars_of("context window")) || contains_chars(
        &lowered,
        &chars_of("context length"),
    ) || contains_chars(&lowered, &chars_of("prompt is too long")) || contains_chars(
        &lowered,
        &chars_of("too many input tokens"),
    ) || contains_chars(&lowered, &chars_of("maximum context"))
}

/// At most the first [`MAX_ERROR_MESSAGE_CHARS`] characters of `message`.
pub fn truncate_message(message: &str) -> (r: String)
    ensures
        r@ == message@.take(
            if message@.len() > MAX_ERROR_MESSAGE_CHARS {
                MAX_ERROR_MESSAGE_CHARS as int
            } else {
                message@.len() as int
            },
        ),
{
    let n = message.unicode_len();
    let keep = if n > MAX_ERROR_MESSAGE_CHARS {
        MAX_ERROR_MESSAGE_CHARS
    } else {
        n
    };
    message.substring_char(0, keep).to_owned()
}

/// The end of `s` once trailing `/` characters are dropped.
pub open spec fn slash_trimmed_end(s: Seq<char>, j: int) -> int
    decreases j,
{
    if j <= 0 {
        0
    } else if s[j - 1] != '/' {
        j
    } else {
        slash_trimmed_end(s, j - 1)
    }
}

/// The messages endpoint under a base URL: the base without trailing
/// slashes, then `/v1/messages`.
pub fn endpoint_text(base: &str) -> (r: String)
    ensures
        r@ == base@.take(slash_trimmed_end(base@, base@.len() as int)) + "/v1/messages"@,
{
    let cs = chars_of(base);
    let mut end: usize = cs.len();
    while end > 0
        invariant
            end <= cs@.len(),
            cs@ == base@,
            slash_trimmed_end(cs@, end as int) == slash_trimmed_end(cs@, cs@.len() as int),
        ensures
            end as int == slash_trimmed_end(cs@, cs@.len() as int),
        decreases end,
    {
        if cs[end - 1] != '/' {
            break;
        }
        end = end - 1;
    }
    let head = base.substring_char(0, end);
    concat(head, "/v1/messages")
}

/// The wire identity of tool call `effect`.
pub fn wire_tool_id(effect: u64) -> (r: String)
    ensures
        r@ == "kc0_effect_"@ + decimal(effect as nat),
{
    concat("kc0_effect_", decimal_string(effect).as_str())
}

/// How a failed HTTP response is classified: authentication first, then
/// context length, then overload, then server errors; anything else is a
/// terminal transport failure.
pub open spec fn http_verdict(
    status: u16,
    provider_type: Option<Seq<char>>,
    message: Seq<char>,
    retry_after: Option<Duration>,
) -> (ErrorCode, FailureClass, Option<Duration>) {
    if status == 401 || status == 403 || provider_type == Some("authentication_error"@)
        || provider_type == Some("permission_error"@) {
        (ErrorCode::ModelAuth, FailureClass::NonRetryable, None)
    } else if status == 413 || context_error(provider_type, message) {
        (ErrorCode::ModelContextLength, FailureClass::NonRetryable, None)
    } else if status == 429 || status == 529 || provider_type == Some("overloaded_error"@) {
        (ErrorCode::ModelOverloaded, FailureClass::Retryable, retry_after)
    } else if 500 <= status <= 599 {
        (ErrorCode::ModelTransport, FailureClass::Retryable, retry_after)
    } else {
        (ErrorCode::ModelTransport, FailureClass::NonRetryable, None)
    }
}

/// Classifies a failed HTTP response from its status, the provider's error
/// type, its (already truncated) message, and any `Retry-After` delay.
pub fn classify_http_failure(
    status: u16,
    provider_type: Option<&str>,
    message: &str,
    retry_after: Option<Duration>,
) -> (r: AttemptFailure)
    ensures
        (r.code, r.class, r.retry_after) == http_verdict(
            status,
            opt_text(provider_type),
            message@,
            retry_after,
        ),
        r.message@ == message@,
{
    if status == 401 || status == 403 || text_is(provider_type, "authentication_error") || text_is(
        provider_type,
        "permission_error",
    ) {
        AttemptFailure::terminal(ErrorCode::ModelAuth, message)
    } else if status == 413 || is_context_error(provider_type, message) {
        AttemptFailure::terminal(ErrorCode::ModelContextLength, message)
    } else if status == 429 || status == 529 || text_is(provider_type, "overloaded_error") {
        AttemptFailure::overloaded(message, retry_after)
    } else if 500 <= status && status <= 599 {
        AttemptFailure {
            code: ErrorCode::ModelTransport,
            message: string_of(message),
            class: FailureClass::Retryable,
            retry_after,
        }
    } else {
        AttemptFailure::terminal(ErrorCode::ModelTransport, message)
    }
}

/// One step of the xorshift generator behind the retry jitter.
pub open spec fn xorshift(x: u64) -> u64 {
    let a = x ^ (x << 13u64);
    let b = a ^ (a >> 7u64);
    b ^ (b << 17u64)
}

/// The whole milliseconds of `d`, saturated at `u64::MAX`.
pub open spec fn millis_cap(d: Duration) -> u64 {
    if d.ns() / 1_000_000 > u64::MAX {
        u64::MAX
    } else {
        (d.ns() / 1_000_000) as u64
    }
}

/// The jitter that generator value `next` gives: whole milliseconds, at
/// most `maximum`.
pub open spec fn jitter_millis(next: u64, maximum: Duration) -> nat {
    if millis_cap(maximum) == u64::MAX {
        next as nat
    } else {
        (next % (millis_cap(maximum) + 1) as u64) as nat
    }
}

/// Advances the jitter generator from `state`; returns the new state and
/// the jitter it draws, at most `maximum`.
pub fn jitter_draw(state: u64, maximum: Duration) -> (r: (u64, Duration))
    ensures
        r.0 == xorshift(state),
        r.1.ns() == jitter_millis(r.0, maximum) * 1_000_000,
        r.1.ns() <= maximum.ns(),
{
    let a = state ^ (state << 13u64);
    let b = a ^ (a >> 7u64);
    let next = b ^ (b << 17u64);
    let whole = maximum.as_millis();
    let cap: u64 = if whole > u64::MAX as u128 {
        u64::MAX
    } else {
        whole as u64
    };
    let millis = if cap == u64::MAX {
        next
    } else {
        next % (cap + 1)
    };
    proof {
        let n = maximum.ns();
        assert(millis <= cap);
        assert(cap <= n / 1_000_000);
        assert(millis * 1_000_000 <= n) by (nonlinear_arith)
            requires
                millis <= n / 1_000_000,
        ;
    }
    (next, Duration::from_millis(millis))
}

/// Seconds since the Unix epoch of the instant `httpdate` reads from an
/// HTTP date, or `None` when it reads none.
pub uninterp spec fn http_date_secs(text: Seq<char>) -> Option<u64>;

/// Reads an HTTP date with `httpdate::parse_http_date` and converts the
/// `SystemTime` it gives into whole seconds since the Unix epoch.
///
/// Claimed: the result is a function of the text alone.
#[verifier::external_body]
fn http_date_unix_secs(text: &str) -> (r: Option<u64>)
    ensures
        r == http_date_secs(text@),
{
    httpdate::parse_http_date(text).ok().and_then(
        |t| t.duration_since(std::time::UNIX_EPOCH).ok(),
    ).map(|d| d.as_secs())
}

/// The string `serde_json` finds at JSON pointer `pointer` in the text.
pub uninterp spec fn json_text_at(text: Seq<char>, pointer: Seq<char>) -> Option<Seq<char>>;

/// Parses the text with `serde_json::from_str` into a `serde_json::Value`,
/// then reads `Value::pointer` and `Value::as_str`.
///
/// Claimed: the result is a function of the text and the pointer alone.
#[verifier::external_body]
fn text_at_pointer(text: &str, pointer: &str) -> (r: Option<String>)
    ensures
        match r {
            Some(v) => json_text_at(text@, pointer@) == Some(v@),
            None => json_text_at(text@, pointer@) is None,
        },
{
    serde_json::from_str::<serde_json::Value>(text).ok().and_then(
        |v| v.pointer(pointer).and_then(|x| x.as_str()).map(|x| x.to_owned()),
    )
}

/// Whether `serde_json` finds member `key` in the text's top-level value.
pub uninterp spec fn json_has_key(text: Seq<char>, key: Seq<char>) -> bool;

/// Parses the text with `serde_json::from_str` into a `serde_json::Value`
/// and asks `Value::get` for the member.
///
/// Claimed: the answer is a function of the text and the key alone.
#[verifier::external_body]
fn has_json_key(text: &str, key: &str) -> (r: bool)
    ensures
        r == json_has_key(text@, key@),
{
    serde_json::from_str::<serde_json::Value>(text).map_or(false, |v| v.get(key).is_some())
}

/// The provider's error type and message in a response body: those of its
/// `error` member when it has one, else its own.
pub open spec fn provider_error_spec(body: Seq<char>) -> (Option<Seq<char>>, Option<Seq<char>>) {
    if json_has_key(body, "error"@) {
        (json_text_at(body, "/error/type"@), json_text_at(body, "/error/message"@))
    } else {
        (json_text_at(body, "/type"@), json_text_at(body, "/message"@))
    }
}

/// The text of an optional owned string.
pub open spec fn opt_string_text(o: Option<String>) -> Option<Seq<char>> {
    match o {
        Some(s) => Some(s@),
        None => None,
    }
}

/// Reads the provider's error type and message from a failed response's
/// body.
pub fn provider_error(body: &str) -> (r: (Option<String>, Option<String>))
    ensures
        (opt_string_text(r.0), opt_string_text(r.1)) == provider_error_spec(body@),
{
    if has_json_key(body, "error") {
        (text_at_pointer(body, "/error/type"), text_at_pointer(body, "/error/message"))
    } else {
        (text_at_pointer(body, "/type"), text_at_pointer(body, "/message"))
    }
}

/// The first position at or after `i` that is not white space, or the length.
pub open spec fn first_solid(s: Seq<char>, i: int) -> int
    decreases s.len() - i,
{
    if i >= s.len() {
        s.len() as int
    } else if !is_space(s[i]) {
        i
    } else {
        first_solid(s, i + 1)
    }
}

/// The end of the last character before `j` that is not white space, or 0.
pub open spec fn last_solid_end(s: Seq<char>, j: int) -> int
    decreases j,
{
    if j <= 0 {
        0
    } else if !is_space(s[j - 1]) {
        j
    } else {
        last_solid_end(s, j - 1)
    }
}

/// The text without leading and trailing white space.
pub open spec fn trim_text(s: Seq<char>) -> Seq<char> {
    let lo = first_solid(s, 0);
    let hi = last_solid_end(s, s.len() as int);
    if lo < hi {
        s.subrange(lo, hi)
    } else {
        Seq::empty()
    }
}

proof fn lemma_first_solid(s: Seq<char>, i: int)
    requires
        0 <= i <= s.len(),
    ensures
        i <= first_solid(s, i) <= s.len(),
    decreases s.len() - i,
{
    if i < s.len() && is_space(s[i]) {
        lemma_first_solid(s, i + 1);
    }
}

proof fn lemma_last_solid_end(s: Seq<char>, j: int)
    requires
        0 <= j <= s.len(),
    ensures
        0 <= last_solid_end(s, j) <= j,
    decreases j,
{
    if j > 0 && is_space(s[j - 1]) {
        lemma_last_solid_end(s, j - 1);
    }
}

/// The value `u64`'s `FromStr` reads: an optional `+`, then one or more
/// decimal digits whose value fits.
pub open spec fn seconds_value(s: Seq<char>) -> Option<u64> {
    let d = if s.len() > 0 && s[0] == '+' {
        s.drop_first()
    } else {
        s
    };
    if all_digits(d) && digits_value(d) <= u64::MAX {
        Some(digits_value(d) as u64)
    } else {
        None
    }
}

/// The delay a `Retry-After` value asks for, `now` being the time since
/// the Unix epoch: a number of seconds, or the time left until an HTTP
/// date (none once it has passed).
pub open spec fn retry_after_delay(text: Seq<char>, now: nat) -> Option<nat> {
    match seconds_value(trim_text(text)) {
        Some(secs) => Some((secs * 1_000_000_000) as nat),
        None => match http_date_secs(text) {
            Some(d) => Some(
                if d * 1_000_000_000 > now {
                    (d * 1_000_000_000 - now) as nat
                } else {
                    0
                },
            ),
            None => None,
        },
    }
}

fn digits_u64(cs: &Vec<char>, a: usize, b: usize) -> (r: Option<u64>)
    requires
        a <= b <= cs@.len(),
    ensures
        r == (if all_digits(cs@.subrange(a as int, b as int)) && digits_value(
            cs@.subrange(a as int, b as int),
        ) <= u64::MAX {
            Some(digits_value(cs@.subrange(a as int, b as int)) as u64)
        } else {
            None
        }),
{
    let ghost d = cs@.subrange(a as int, b as int);
    if a == b {
        return None;
    }
    let mut v: u64 = 0;
    let mut k: usize = a;
    while k < b
        invariant
            a <= k <= b <= cs@.len(),
            d == cs@.subrange(a as int, b as int),
            forall|j: int| a <= j < k ==> '0' <= #[trigger] cs@[j] <= '9',
            v == digits_value(d.take(k - a)),
        decreases b - k,
    {
        let c = cs[k];
        if c < '0' || c > '9' {
            assert(d[k - a] == c);
            return None;
        }
        let digit = (c as u32 - 48) as u64;
        assert(d.take(k - a + 1).drop_last() =~= d.take(k - a));
        let shifted = match v.checked_mul(10) {
            Some(x) => x,
            None => {
                proof {
                    lemma_digits_grow(d, k - a + 1);
                }
                return None;
            },
        };
        let next = match shifted.checked_add(digit) {
            Some(x) => x,
            None => {
                proof {
                    lemma_digits_grow(d, k - a + 1);
                }
                return None;
            },
        };
        v = next;
        k = k + 1;
    }
    assert(d.take(b - a) =~= d);
    Some(v)
}

/// The delay a `Retry-After` header value asks for; `now` is the time
/// since the Unix epoch.
pub fn retry_after(text: &str, now: Duration) -> (r: Option<Duration>)
    ensures
        match retry_after_delay(text@, now.ns()) {
            Some(ns) => r matches Some(d) && d.ns() == ns,
            None => r is None,
        },
{
    let cs = chars_of(text);
    let n = cs.len();
    let mut lo: usize = 0;
    while lo < n
        invariant
            lo <= n == cs@.len(),
            cs@ == text@,
            first_solid(cs@, lo as int) == first_solid(cs@, 0),
        ensures
            lo <= n,
            lo as int == first_solid(cs@, 0),
        decreases n - lo,
    {
        if !char_is_space(cs[lo]) {
            break;
        }
        lo = lo + 1;
    }
    let mut hi: usize = n;
    while hi > 0
        invariant
            hi <= n == cs@.len(),
            last_solid_end(cs@, hi as int) == last_solid_end(cs@, n as int),
        ensures
            hi as int == last_solid_end(cs@, n as int),
        decreases hi,
    {
        if !char_is_space(cs[hi - 1]) {
            break;
        }
        hi = hi - 1;
    }
    let ghost t = trim_text(text@);
    let (a, b) = if lo < hi {
        (lo, hi)
    } else {
        (0, 0)
    };
    proof {
        assert(cs@.subrange(a as int, b as int) =~= t);
    }
    let start = if a < b && cs[a] == '+' {
        a + 1
    } else {
        a
    };
    proof {
        if a < b && cs@[a as int] == '+' {
            assert(cs@.subrange(start as int, b as int) =~= t.drop_first());
        }
    }
    match digits_u64(&cs, start, b) {
        Some(secs) => Some(Duration::from_secs(secs)),
        None => match http_date_unix_secs(text) {
            Some(secs) => Some(Duration::from_secs(secs).saturating_sub(now)),
            None => None,
        },
    }
}

/// How an `error` event inside the stream is classified.
pub open spec fn stream_verdict(provider_type: Option<Seq<char>>, message: Seq<char>) -> (
    ErrorCode,
    FailureClass,
) {
    if provider_type == Some("overloaded_error"@) || provider_type == Some("rate_limit_error"@) {
        (ErrorCode::ModelOverloaded, FailureClass::Retryable)
    } else if provider_type == Some("authentication_error"@) || provider_type == Some(
        "permission_error"@,
    ) {
        (ErrorCode::ModelAuth, FailureClass::NonRetryable)
    } else if (provider_type == Some("invalid_request_error"@) || provider_type == Some(
        "request_too_large"@,
    )) && context_error(provider_type, message) {
        (ErrorCode::ModelContextLength, FailureClass::NonRetryable)
    } else if provider_type == Some("invalid_request_error"@) {
        (ErrorCode::ModelTransport, FailureClass::NonRetryable)
    } else {
        (ErrorCode::ModelTransport, FailureClass::Retryable)
    }
}

/// The message of a stream `error` event, or the default when it has none.
pub open spec fn stream_message(message: Option<Seq<char>>) -> Seq<char> {
    match message {
        Some(m) => m,
        None => "provider returned an SSE error"@,
    }
}

/// Classifies an `error` event received inside the event stream.
pub fn classify_stream_error(provider_type: Option<&str>, message: Option<&str>) -> (r:
    AttemptFailure)
    ensures
        (r.code, r.class) == stream_verdict(
            opt_text(provider_type),
            stream_message(opt_text(message)),
        ),
        r.message@ == stream_message(opt_text(message)),
        r.retry_after is None,
{
    let message = match message {
        Some(m) => m,
        None => "provider returned an SSE error",
    };
    if text_is(provider_type, "overloaded_error") || text_is(provider_type, "rate_limit_error") {
        AttemptFailure::overloaded(message, None)
    } else if text_is(provider_type, "authentication_error") || text_is(
        provider_type,
        "permission_error",
    ) {
        AttemptFailure::terminal(ErrorCode::ModelAuth, message)
    } else if (text_is(provider_type, "invalid_request_error") || text_is(
        provider_type,
        "request_too_large",
    )) && is_context_error(provider_type, message) {
        AttemptFailure::terminal(ErrorCode::ModelContextLength, message)
    } else if text_is(provider_type, "invalid_request_error") {
        AttemptFailure::terminal(ErrorCode::ModelTransport, message)
    } else {
        AttemptFailure::transport(message)
    }
}

} // verus!
