//! Retry and back-off policy.
//!
//! A failed request is either worth another attempt or it is not, and when it is, the wait is
//! either what the server asked for or a point on a jittered exponential curve. The decision is a
//! function of what went wrong, which attempt this is, what the server said, the clock and one
//! source of variation; [`RetryPolicy::decide_at`] takes all of them as arguments, and
//! [`RetryPolicy::decide`] reads the clock for its caller.
//!
//! `Retry-After` is honoured exactly, never shortened, except that an absurd value is clamped so
//! that no origin can wedge a download. Attempts are counted per origin.

use crate::text;
use crate::time;
use crate::time::{Duration, Timestamp};
use vstd::hash_map::StringHashMap;
use vstd::prelude::*;

verus! {

/// Why a request might be worth trying again.
#[derive(Clone, Copy, Debug, PartialEq, Eq, Hash, Structural)]
pub enum TransientKind {
    /// The connection was reset, refused, or dropped.
    ConnectionReset,
    /// The request or the body timed out. Also `408`.
    Timeout,
    /// `429`. Back off, and honour `Retry-After` if it is there.
    RateLimited,
    /// `503`. Same treatment as `429`; separate so logs can tell them apart.
    ServiceUnavailable,
    /// Another `5xx`.
    ServerError,
    /// The body ended before the length the response promised. It counts against the budget, or
    /// a server that truncates every response would loop forever.
    TruncatedBody,
    /// A `4xx` that retrying cannot fix.
    NotRetryable,
}

impl TransientKind {
    /// The class of a response status. Statuses that ask for a fresh URL or credential, and all
    /// that are no failure, have none.
    pub open spec fn of_status(status: u16) -> Option<TransientKind> {
        if status == 401 || status == 403 || status == 410 {
            None
        } else if status == 408 {
            Some(TransientKind::Timeout)
        } else if status == 429 {
            Some(TransientKind::RateLimited)
        } else if status == 503 {
            Some(TransientKind::ServiceUnavailable)
        } else if 500 <= status <= 599 {
            Some(TransientKind::ServerError)
        } else if 400 <= status <= 499 {
            Some(TransientKind::NotRetryable)
        } else {
            None
        }
    }

    /// Classify a response status.
    ///
    /// `None` means that retrying is not the answer: `401`, `403` and `410` go to the refresh
    /// flow, which keeps the bytes already fetched instead of retrying a URL that has expired.
    pub fn from_status(status: u16) -> (kind: Option<Self>)
        ensures
            kind == TransientKind::of_status(status),
    {
        if status == 401 || status == 403 || status == 410 {
            None
        } else if status == 408 {
            Some(TransientKind::Timeout)
        } else if status == 429 {
            Some(TransientKind::RateLimited)
        } else if status == 503 {
            Some(TransientKind::ServiceUnavailable)
        } else if 500 <= status && status <= 599 {
            Some(TransientKind::ServerError)
        } else if 400 <= status && status <= 499 {
            Some(TransientKind::NotRetryable)
        } else {
            None
        }
    }

    /// Whether this kind is worth another attempt at all, budget aside.
    pub fn is_retryable(self) -> (yes: bool)
        ensures
            yes == (self != TransientKind::NotRetryable),
    {
        self != TransientKind::NotRetryable
    }
}

/// What to do about a failure.
#[derive(Clone, Copy, Debug, PartialEq, Eq, Structural)]
pub enum RetryDecision {
    /// Wait this long, then try again.
    RetryAfter(Duration),
    /// Stop. Either the budget is spent or the failure is not the retryable kind.
    GiveUp,
}

/// The budget and the curve.
#[derive(Clone, Copy, Debug, PartialEq, Eq, Structural)]
pub struct RetryPolicy {
    /// How many retries are allowed after the first attempt.
    pub max_retries: u32,
    /// The first nominal delay.
    pub base_delay: Duration,
    /// The ceiling on a computed delay.
    pub max_delay: Duration,
    /// The ceiling on a delay a server asked for.
    pub max_server_delay: Duration,
}

/// Seconds since the epoch that an HTTP date names, in any of the three forms that
/// `httpdate::parse_http_date` reads.
pub uninterp spec fn http_date(text: Seq<char>) -> Option<u64>;

/// Two to the power of `exponent`.
pub open spec fn power_of_two(exponent: nat) -> nat
    decreases exponent,
{
    if exponent == 0 {
        1
    } else {
        2 * power_of_two((exponent - 1) as nat)
    }
}

/// The wait that a `Retry-After` value asks for: delay-seconds or an HTTP date, a past date
/// meaning no wait. Anything else asks for nothing.
pub open spec fn requested_delay(header: Seq<char>, now: Timestamp) -> Option<Duration> {
    let value = text::trimmed(header);
    if value.len() == 0 {
        None
    } else if text::all_digits(value) {
        match text::digits_u64(value) {
            Some(secs) => Some(Duration::of_secs(secs)),
            None => None,
        }
    } else {
        match http_date(value) {
            Some(secs) => Some(
                match (Timestamp { nanos: (secs * time::NANOS_PER_SEC) as u128 }).spec_since(now) {
                    Some(wait) => wait,
                    None => Duration { nanos: 0 },
                },
            ),
            None => None,
        }
    }
}

impl RetryPolicy {
    /// The nominal delay before jitter: the base doubled once per attempt, at most sixteen times,
    /// and capped.
    pub open spec fn nominal(self, attempt: u32) -> nat {
        let doublings = if attempt <= 16 {
            attempt as nat
        } else {
            16
        };
        let full = self.base_delay.nanos as nat * power_of_two(doublings);
        if full <= self.max_delay.nanos {
            full
        } else {
            self.max_delay.nanos as nat
        }
    }

    /// Half of the nominal delay, in whole milliseconds.
    pub open spec fn half_window(self, attempt: u32) -> nat {
        let millis = self.nominal(attempt) / time::NANOS_PER_MILLI as nat;
        (if millis <= u64::MAX {
            millis
        } else {
            u64::MAX as nat
        }) / 2
    }

    /// The computed wait: the half window plus a share of it picked by the source of variation,
    /// and never less than a millisecond.
    pub open spec fn computed_delay(self, attempt: u32, variation: u64) -> Duration {
        let half = self.half_window(attempt);
        let millis = half + (if half == 0 {
            0nat
        } else {
            variation as nat % half
        });
        Duration::of_millis(
            if millis == 0 {
                1
            } else {
                millis as u64
            },
        )
    }

    /// The decision about a failure, given the clock and the source of variation.
    pub open spec fn decision(
        self,
        kind: TransientKind,
        attempt: u32,
        retry_after: Option<Seq<char>>,
        now: Timestamp,
        variation: u64,
    ) -> RetryDecision {
        if kind == TransientKind::NotRetryable || attempt >= self.max_retries {
            RetryDecision::GiveUp
        } else {
            let requested = match retry_after {
                Some(header) => requested_delay(header, now),
                None => None,
            };
            match requested {
                Some(wait) => RetryDecision::RetryAfter(
                    if wait.nanos <= self.max_server_delay.nanos {
                        wait
                    } else {
                        self.max_server_delay
                    },
                ),
                None => RetryDecision::RetryAfter(self.computed_delay(attempt, variation)),
            }
        }
    }
}

impl Default for RetryPolicy {
    /// Five retries, half a second doubling up to thirty seconds, and an hour as the longest
    /// wait a server may ask for.
    fn default() -> (policy: Self)
        ensures
            policy == (RetryPolicy {
                max_retries: 5,
                base_delay: Duration::of_millis(500),
                max_delay: Duration::of_secs(30),
                max_server_delay: Duration::of_secs(3600),
            }),
    {
        RetryPolicy {
            max_retries: 5,
            base_delay: Duration::from_millis(500),
            max_delay: Duration::from_secs(30),
            max_server_delay: Duration::from_secs(3600),
        }
    }
}

impl RetryPolicy {
    /// How many retries are allowed after the first attempt.
    pub fn max_retries(&self) -> (retries: u32)
        ensures
            retries == self.max_retries,
    {
        self.max_retries
    }

    /// The first computed delay's upper end.
    pub fn base_delay(&self) -> (delay: Duration)
        ensures
            delay == self.base_delay,
    {
        self.base_delay
    }

    /// The ceiling on a computed delay.
    pub fn max_delay(&self) -> (delay: Duration)
        ensures
            delay == self.max_delay,
    {
        self.max_delay
    }

    /// The ceiling on a delay a server asked for via `Retry-After`.
    pub fn max_server_delay(&self) -> (delay: Duration)
        ensures
            delay == self.max_server_delay,
    {
        self.max_server_delay
    }

    /// Decide what to do about `kind` on attempt `attempt` (zero-based), given the response's
    /// `Retry-After` header if it carried one.
    ///
    /// The clock only matters for an HTTP-date header, and both the clock and the variation only
    /// within the stated windows.
    pub fn decide(&self, kind: TransientKind, attempt: u32, retry_after: Option<&str>) -> (decision:
        RetryDecision)
        ensures
            exists|now: Timestamp, variation: u64|
                decision == #[trigger] self.decision(
                    kind,
                    attempt,
                    text::viewed(retry_after),
                    now,
                    variation,
                ) && variation < time::NANOS_PER_SEC,
    {
        let now = match time::wall_clock() {
            Some(now) => now,
            None => Timestamp { nanos: 0 },
        };
        let variation: u64 = jitter_source();
        self.decide_at(kind, attempt, retry_after, now, variation)
    }

    /// The decision at a given moment and for a given variation.
    pub fn decide_at(
        &self,
        kind: TransientKind,
        attempt: u32,
        retry_after: Option<&str>,
        now: Timestamp,
        variation: u64,
    ) -> (decision: RetryDecision)
        ensures
            decision == self.decision(
                kind,
                attempt,
                text::viewed(retry_after),
                now,
                variation,
            ),
    {
        if !kind.is_retryable() || attempt >= self.max_retries {
            return RetryDecision::GiveUp;
        }
        if let Some(header) = retry_after {
            if let Some(requested) = parse_retry_after(header, now) {
                return RetryDecision::RetryAfter(requested.at_most(self.max_server_delay));
            }
        }
        RetryDecision::RetryAfter(self.backoff(attempt, variation))
    }

    /// Jittered exponential back-off: the base doubled once per attempt, capped, then moved within
    /// the upper half of that window, so that workers which failed together do not retry together.
    pub fn backoff(&self, attempt: u32, variation: u64) -> (delay: Duration)
        ensures
            delay == self.computed_delay(attempt, variation),
    {
        let doublings: u32 = if attempt <= 16 {
            attempt
        } else {
            16
        };
        let mut factor: u128 = 1;
        let mut index: u32 = 0;
        while index < doublings
            invariant
                index <= doublings <= 16,
                factor == power_of_two(index as nat),
            decreases doublings - index,
        {
            proof {
                lemma_power_of_two_grows((index + 1) as nat, 16);
                assert(power_of_two(16) == 65536) by {
                    reveal_with_fuel(power_of_two, 17);
                }
            }
            factor = factor * 2;
            index = index + 1;
        }
        let exponential: u128 = match self.base_delay.nanos.checked_mul(factor) {
            Some(full) => if full <= self.max_delay.nanos {
                full
            } else {
                self.max_delay.nanos
            },
            None => self.max_delay.nanos,
        };
        let millis: u128 = exponential / time::NANOS_PER_MILLI;
        let half: u64 = (if millis <= u64::MAX as u128 {
            millis as u64
        } else {
            u64::MAX
        }) / 2;
        let spread: u64 = if half == 0 {
            0
        } else {
            variation % half
        };
        let sum: u64 = half + spread;
        Duration::from_millis(
            if sum == 0 {
                1
            } else {
                sum
            },
        )
    }
}

proof fn lemma_power_of_two_grows(low: nat, high: nat)
    requires
        low <= high,
    ensures
        power_of_two(low) <= power_of_two(high),
    decreases high,
{
    if low < high {
        lemma_power_of_two_grows(low, (high - 1) as nat);
    }
}

/// A cheap source of variation: the sub-second part of the clock, whatever it reads.
pub(crate) fn jitter_source() -> (variation: u64)
    ensures
        exists|now: Option<Timestamp>| variation == #[trigger] sub_second(now),
        variation < time::NANOS_PER_SEC,
{
    variation_at(time::wall_clock())
}

/// The nanoseconds of a reading beyond its last whole second, none where there is no reading.
pub open spec fn sub_second(now: Option<Timestamp>) -> u64 {
    match now {
        Some(now) => (now.nanos % time::NANOS_PER_SEC) as u64,
        None => 0,
    }
}

/// The variation that a reading of the clock gives: its sub-second part.
pub fn variation_at(now: Option<Timestamp>) -> (variation: u64)
    ensures
        variation == sub_second(now),
        variation < time::NANOS_PER_SEC,
{
    match now {
        Some(now) => (now.nanos % time::NANOS_PER_SEC) as u64,
        None => 0,
    }
}

/// Calls `httpdate::parse_http_date` and counts its result in whole seconds from the epoch, which
/// is the precision that an HTTP date has. The accepted texts are those three date forms; which
/// second they name is left to the crate.
#[verifier::external_body]
fn parse_http_date(text: &str) -> (seconds: Option<u64>)
    ensures
        seconds == http_date(text@),
{
    let when = httpdate::parse_http_date(text).ok()?;
    when.duration_since(std::time::UNIX_EPOCH).ok().map(|span| span.as_secs())
}

/// Parse `Retry-After`: either delay-seconds or an HTTP date.
///
/// Returns `None` for anything unparseable, which the caller treats as "fall back to computed
/// back-off": a malformed header is neither an order to retry at once nor fatal.
pub fn parse_retry_after(value: &str, now: Timestamp) -> (wait: Option<Duration>)
    ensures
        wait == requested_delay(value@, now),
{
    let trimmed = text::trim(value);
    if trimmed.is_empty() {
        return None;
    }
    if text::only_digits(trimmed) {
        return match digits(trimmed) {
            Some(secs) => Some(Duration::from_secs(secs)),
            None => None,
        };
    }
    let when = parse_http_date(trimmed);
    delay_until(when, now)
}

/// The wait until a parsed HTTP date, none when it has passed.
pub fn delay_until(when: Option<u64>, now: Timestamp) -> (wait: Option<Duration>)
    ensures
        wait == (match when {
            Some(secs) => Some(
                match (Timestamp { nanos: (secs * time::NANOS_PER_SEC) as u128 }).spec_since(now) {
                    Some(wait) => wait,
                    None => Duration { nanos: 0 },
                },
            ),
            None => None::<Duration>,
        }),
{
    match when {
        Some(secs) => match Timestamp::from_secs(secs).since(now) {
            Some(wait) => Some(wait),
            None => Some(Duration::zero()),
        },
        None => None,
    }
}

/// Reads digits that are already known to be nothing else.
fn digits(value: &str) -> (number: Option<u64>)
    requires
        text::all_digits(value@),
    ensures
        number == text::digits_u64(value@),
{
    proof {
        if value@.len() > 0 {
            assert(text::is_digit(value@[0]));
        }
    }
    text::parse_u64(value)
}

/// A server that names a number of seconds is obeyed exactly: the wait is that number whatever
/// the clock and the variation, unless it exceeds the documented ceiling.
pub proof fn law_retry_after_seconds_are_honoured_exactly(
    policy: RetryPolicy,
    kind: TransientKind,
    attempt: u32,
    header: Seq<char>,
    secs: u64,
    now: Timestamp,
    variation: u64,
)
    requires
        kind != TransientKind::NotRetryable,
        attempt < policy.max_retries,
        text::digits_u64(text::trimmed(header)) == Some(secs),
    ensures
        policy.decision(kind, attempt, Some(header), now, variation) == RetryDecision::RetryAfter(
            if secs * time::NANOS_PER_SEC <= policy.max_server_delay.nanos {
                Duration::of_secs(secs)
            } else {
                policy.max_server_delay
            },
        ),
{
    assert((secs * time::NANOS_PER_SEC) as u128 == secs * time::NANOS_PER_SEC);
}

/// A header that asks for nothing readable leaves the computed back-off in place.
pub proof fn law_an_unreadable_retry_after_falls_back_to_back_off(
    policy: RetryPolicy,
    kind: TransientKind,
    attempt: u32,
    header: Seq<char>,
    now: Timestamp,
    variation: u64,
)
    requires
        requested_delay(header, now) is None,
    ensures
        policy.decision(kind, attempt, Some(header), now, variation) == policy.decision(
            kind,
            attempt,
            None,
            now,
            variation,
        ),
{
}

/// Retrying stops exactly when the failure is not the retryable kind or the budget is spent.
pub proof fn law_giving_up_is_decided_by_kind_and_budget_alone(
    policy: RetryPolicy,
    kind: TransientKind,
    attempt: u32,
    retry_after: Option<Seq<char>>,
    now: Timestamp,
    variation: u64,
)
    ensures
        policy.decision(kind, attempt, retry_after, now, variation) == RetryDecision::GiveUp <==> (
        kind == TransientKind::NotRetryable || attempt >= policy.max_retries),
{
}

/// A computed wait lies in the upper half of its nominal window, so it is at least half of the
/// nominal delay and below it, and never above the cap. Windows shorter than two milliseconds
/// leave no room and wait one millisecond.
pub proof fn law_back_off_stays_within_its_window(
    policy: RetryPolicy,
    attempt: u32,
    variation: u64,
)
    requires
        policy.half_window(attempt) > 0,
    ensures
        policy.half_window(attempt) * time::NANOS_PER_MILLI <= policy.computed_delay(
            attempt,
            variation,
        ).nanos < 2 * policy.half_window(attempt) * time::NANOS_PER_MILLI,
        policy.computed_delay(attempt, variation).nanos <= policy.nominal(attempt)
            <= policy.max_delay.nanos,
{
    let half = policy.half_window(attempt);
    assert(0 <= variation as nat % half < half) by (nonlinear_arith)
        requires
            half > 0,
    ;
    let millis = half + variation as nat % half;
    assert(millis as u64 == millis);
    assert(2 * half <= policy.nominal(attempt) / time::NANOS_PER_MILLI as nat);
}

/// The nominal window never shrinks from one attempt to the next.
pub proof fn law_back_off_grows(policy: RetryPolicy, attempt: u32)
    requires
        attempt < u32::MAX,
    ensures
        policy.nominal(attempt) <= policy.nominal((attempt + 1) as u32),
        policy.half_window(attempt) <= policy.half_window((attempt + 1) as u32),
{
    if attempt < 16 {
        lemma_power_of_two_grows(attempt as nat, (attempt + 1) as nat);
        let base = policy.base_delay.nanos as nat;
        let low = power_of_two(attempt as nat);
        let high = power_of_two((attempt + 1) as nat);
        assert(base * low <= base * high) by (nonlinear_arith)
            requires
                low <= high,
        ;
    }
    let now = policy.nominal(attempt);
    let next = policy.nominal((attempt + 1) as u32);
    assert(now <= next);
    assert(now / 1_000_000 <= next / 1_000_000);
}

/// The next count, or the largest where there is none.
pub open spec fn one_more(count: u32) -> u32 {
    if count < u32::MAX {
        (count + 1) as u32
    } else {
        u32::MAX
    }
}

/// Per-origin retry bookkeeping.
///
/// Keyed by origin, not by worker: several workers each keeping their own counter against one
/// rate-limited origin would together ask far more often than the policy allows.
pub struct RetryState {
    attempts: StringHashMap<u32>,
}

impl RetryState {
    /// The count of every origin with a recorded failure.
    pub closed spec fn view(&self) -> Map<Seq<char>, u32> {
        self.attempts@
    }

    /// How many attempts an origin has consumed.
    pub open spec fn consumed(&self, origin: Seq<char>) -> u32 {
        if self@.contains_key(origin) {
            self@[origin]
        } else {
            0
        }
    }

    /// A fresh tracker.
    pub fn new() -> (state: Self)
        ensures
            state@ == Map::<Seq<char>, u32>::empty(),
    {
        RetryState { attempts: StringHashMap::new() }
    }

    /// How many attempts this origin has already consumed.
    pub fn attempts(&self, origin: &str) -> (count: u32)
        ensures
            count == self.consumed(origin@),
    {
        match self.attempts.get(origin) {
            Some(count) => *count,
            None => 0,
        }
    }

    /// Record a failed attempt against `origin` and return the new count.
    pub fn record_failure(&mut self, origin: &str) -> (count: u32)
        ensures
            count == one_more(old(self).consumed(origin@)),
            final(self)@ == old(self)@.insert(origin@, count),
    {
        let held: u32 = self.attempts(origin);
        let count: u32 = held.saturating_add(1);
        self.attempts.insert(origin.to_owned(), count);
        count
    }

    /// Forget an origin's history, after a success.
    pub fn reset(&mut self, origin: &str)
        ensures
            final(self)@ == old(self)@.remove(origin@),
    {
        self.attempts.remove(origin);
    }
}

impl Default for RetryState {
    /// A fresh tracker.
    fn default() -> (state: Self)
        ensures
            state@ == Map::<Seq<char>, u32>::empty(),
    {
        RetryState::new()
    }
}

/// Every status has one meaning. Retrying is of use for `408`, `429` and every `5xx`; the other
/// `4xx` cannot be mended by it, but for `401`, `403` and `410`, which ask for something else; and
/// nothing outside these two hundreds is a failure.
pub proof fn law_a_status_is_worth_retrying_or_not(status: u16)
    ensures
        TransientKind::of_status(status) is None <==> (status < 400 || status >= 600 || status
            == 401 || status == 403 || status == 410),
        TransientKind::of_status(status) is Some && TransientKind::of_status(status)->0
            != TransientKind::NotRetryable <==> (status == 408 || status == 429 || 500 <= status
            < 600),
        TransientKind::of_status(status) == Some(TransientKind::Timeout) <==> status == 408,
        TransientKind::of_status(status) == Some(TransientKind::RateLimited) <==> status == 429,
        TransientKind::of_status(status) == Some(TransientKind::ServiceUnavailable) <==> status
            == 503,
        TransientKind::of_status(status) == Some(TransientKind::ServerError) <==> 500 <= status
            < 600 && status != 503,
        TransientKind::of_status(status) != Some(TransientKind::ConnectionReset),
        TransientKind::of_status(status) != Some(TransientKind::TruncatedBody),
{
}

/// The nominal wait starts at the base, doubles with each of the first sixteen attempts, stays
/// there, and is never above the cap.
pub proof fn law_the_nominal_wait_doubles_up_to_the_cap(policy: RetryPolicy, attempt: u32)
    requires
        attempt < u32::MAX,
    ensures
        policy.nominal(0) == (if policy.base_delay.nanos <= policy.max_delay.nanos {
            policy.base_delay.nanos
        } else {
            policy.max_delay.nanos
        }),
        attempt < 16 ==> policy.nominal((attempt + 1) as u32) == (if 2 * policy.nominal(attempt)
            <= policy.max_delay.nanos {
            2 * policy.nominal(attempt)
        } else {
            policy.max_delay.nanos as nat
        }),
        attempt >= 16 ==> policy.nominal((attempt + 1) as u32) == policy.nominal(attempt),
{
    let base = policy.base_delay.nanos as nat;
    let unit = power_of_two(0);
    assert(base * unit == base) by (nonlinear_arith)
        requires
            unit == 1,
    ;
    if attempt < 16 {
        let low = power_of_two(attempt as nat);
        assert(power_of_two((attempt + 1) as nat) == 2 * low);
        assert(base * (2 * low) == 2 * (base * low)) by (nonlinear_arith);
    }
}

/// Half a window is half of the nominal wait in whole milliseconds, and different shares of it are
/// picked by different variations.
pub proof fn law_the_variation_picks_the_wait(policy: RetryPolicy, attempt: u32, variation: u64)
    ensures
        policy.nominal(attempt) / 1_000_000 <= u64::MAX ==> 2 * policy.half_window(attempt)
            * 1_000_000 <= policy.nominal(attempt) < (2 * policy.half_window(attempt) + 2)
            * 1_000_000,
        variation < policy.half_window(attempt) ==> policy.computed_delay(attempt, variation).nanos
            == (policy.half_window(attempt) + variation) * 1_000_000,
        policy.half_window(attempt) == 0 ==> policy.computed_delay(attempt, variation).nanos
            == 1_000_000,
{
    let half = policy.half_window(attempt);
    if variation < half {
        assert(variation as nat % half == variation) by (nonlinear_arith)
            requires
                variation < half,
        ;
        let millis = half + variation;
        assert(millis as u64 == millis);
    }
}

/// A server that names a date is obeyed as exactly as one that names a number: the wait ends at
/// that date, or is none where the date has passed, unless it exceeds the ceiling.
pub proof fn law_retry_after_dates_are_honoured_exactly(
    policy: RetryPolicy,
    kind: TransientKind,
    attempt: u32,
    header: Seq<char>,
    secs: u64,
    now: Timestamp,
    variation: u64,
)
    requires
        kind != TransientKind::NotRetryable,
        attempt < policy.max_retries,
        text::trimmed(header).len() > 0,
        !text::all_digits(text::trimmed(header)),
        http_date(text::trimmed(header)) == Some(secs),
    ensures
        ({
            let decided = policy.decision(kind, attempt, Some(header), now, variation);
            let date = secs * 1_000_000_000;
            &&& decided is RetryAfter
            &&& date <= now.nanos ==> decided->RetryAfter_0.nanos == 0
            &&& date > now.nanos && date - now.nanos <= policy.max_server_delay.nanos
                ==> decided->RetryAfter_0.nanos + now.nanos == date
            &&& date > now.nanos && date - now.nanos > policy.max_server_delay.nanos
                ==> decided->RetryAfter_0 == policy.max_server_delay
        }),
{
    assert((secs * time::NANOS_PER_SEC) as u128 == secs * time::NANOS_PER_SEC);
}

/// Failures are counted one by one and separately for each origin, and a success forgets them.
pub proof fn law_failures_are_counted_by_origin(
    before: RetryState,
    failed: RetryState,
    settled: RetryState,
    origin: Seq<char>,
    other: Seq<char>,
)
    requires
        failed@ == before@.insert(origin, one_more(before.consumed(origin))),
        settled@ == failed@.remove(origin),
        origin != other,
    ensures
        before.consumed(origin) < u32::MAX ==> failed.consumed(origin) == before.consumed(origin)
            + 1,
        before.consumed(origin) == u32::MAX ==> failed.consumed(origin) == u32::MAX,
        failed.consumed(other) == before.consumed(other),
        settled.consumed(origin) == 0,
        settled.consumed(other) == before.consumed(other),
        !before@.contains_key(origin) ==> before.consumed(origin) == 0,
{
}

} // verus!
