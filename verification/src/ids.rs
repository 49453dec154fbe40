//! Fresh identifiers and clock readings, taken from outside the library.

use vstd::prelude::*;

verus! {

/// A reading of the monotonic clock.
#[verifier::external_type_specification]
#[verifier::external_body]
pub struct ExInstant(std::time::Instant);

/// A reading of the wall clock.
#[verifier::external_type_specification]
#[verifier::external_body]
pub struct ExSystemTime(std::time::SystemTime);

/// A random version-4 UUID in hyphenated form (`uuid::Uuid::new_v4`
/// rendered by its `Display` impl). Nothing is claimed of the digits, which
/// are random; the hyphenated form always has 36 characters.
#[verifier::external_body]
pub(crate) fn new_uuid_string() -> (r: String)
    ensures
        r@.len() == 36,
{
    uuid::Uuid::new_v4().to_string()
}

/// The current monotonic time (`std::time::Instant::now`). Nothing is
/// claimed of the reading.
#[verifier::external_body]
pub(crate) fn instant_now() -> (r: std::time::Instant) {
    std::time::Instant::now()
}

/// The current wall-clock time (`std::time::SystemTime::now`). Nothing is
/// claimed of the reading.
#[verifier::external_body]
pub(crate) fn system_time_now() -> (r: std::time::SystemTime) {
    std::time::SystemTime::now()
}

/// The time passed since `start` (`std::time::Instant::elapsed`). Nothing
/// is claimed of the reading.
#[verifier::external_body]
pub(crate) fn elapsed_since(start: &std::time::Instant) -> (r: std::time::Duration) {
    start.elapsed()
}

/// What `Instant`'s `<` answers for two clock readings.
pub uninterp spec fn instant_before(a: std::time::Instant, b: std::time::Instant) -> bool;

/// Whether one clock reading is earlier than another (`Instant`'s `<`). The
/// contract claims only that the answer is the named function of the two
/// readings; the readings themselves are opaque.
#[verifier::external_body]
pub(crate) fn earlier_than(a: &std::time::Instant, b: &std::time::Instant) -> (r: bool)
    ensures
        r == instant_before(*a, *b),
{
    *a < *b
}

/// The empty span (`std::time::Duration::ZERO`). The contract claims that
/// it is the span of zero nanoseconds, as the documentation of both gives.
#[verifier::external_body]
pub(crate) fn zero_duration() -> (r: std::time::Duration)
    ensures
        r == span_of_nanos(0),
{
    std::time::Duration::ZERO
}

/// What `end.duration_since(start)` gives for two clock readings.
pub uninterp spec fn span_between(start: std::time::Instant, end: std::time::Instant) -> std::time::Duration;

/// What `Duration::as_millis` gives for a span.
pub uninterp spec fn whole_millis(d: std::time::Duration) -> u128;

/// What `Duration::from_millis` gives for a number of milliseconds.
pub uninterp spec fn span_of_millis(n: u64) -> std::time::Duration;

/// The span from one clock reading to a later one
/// (`Instant::duration_since`, which gives zero when `end` is earlier). The
/// contract claims only that the span is the named function of the two
/// readings; the readings themselves are opaque.
#[verifier::external_body]
pub(crate) fn duration_between(start: &std::time::Instant, end: &std::time::Instant) -> (r: std::time::Duration)
    ensures
        r == span_between(*start, *end),
{
    end.duration_since(*start)
}

/// Whole milliseconds of a span (`Duration::as_millis`). The contract
/// claims only that the number is the named function of the span.
#[verifier::external_body]
pub(crate) fn duration_millis(d: &std::time::Duration) -> (r: u128)
    ensures
        r == whole_millis(*d),
{
    d.as_millis()
}

/// What `Duration::as_nanos` gives for a span.
pub uninterp spec fn whole_nanos(d: std::time::Duration) -> u128;

/// Whole nanoseconds of a span (`Duration::as_nanos`). The contract claims
/// only that the number is the named function of the span.
#[verifier::external_body]
pub(crate) fn duration_nanos(d: &std::time::Duration) -> (r: u128)
    ensures
        r == whole_nanos(*d),
{
    d.as_nanos()
}

/// What `Duration::from_secs` gives for a number of seconds.
pub uninterp spec fn span_of_secs(n: u64) -> std::time::Duration;

/// A span of so many whole seconds (`Duration::from_secs`). The contract
/// claims that the span is the named function of `n`.
#[verifier::external_body]
pub(crate) fn duration_from_secs(n: u64) -> (r: std::time::Duration)
    ensures
        r == span_of_secs(n),
{
    std::time::Duration::from_secs(n)
}

/// A span of so many milliseconds (`Duration::from_millis`). The contract
/// claims that the span is the named function of `n` and, as the
/// documentation of the two methods gives, that `as_millis` reads `n` back.
#[verifier::external_body]
pub(crate) fn duration_from_millis(n: u64) -> (r: std::time::Duration)
    ensures
        r == span_of_millis(n),
        whole_millis(r) == n,
{
    std::time::Duration::from_millis(n)
}

/// What `Duration::from_nanos` gives for a number of nanoseconds.
pub uninterp spec fn span_of_nanos(n: u64) -> std::time::Duration;

/// A span of so many nanoseconds (`Duration::from_nanos`). The contract
/// claims only that the span is the named function of `n`.
#[verifier::external_body]
pub(crate) fn duration_from_nanos(n: u64) -> (r: std::time::Duration)
    ensures
        r == span_of_nanos(n),
{
    std::time::Duration::from_nanos(n)
}

} // verus!
