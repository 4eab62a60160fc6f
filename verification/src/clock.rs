//! The time of day.

use std::time::{Duration, SystemTime, SystemTimeError};
use vstd::prelude::*;

verus! {

#[verifier::external_type_specification]
#[verifier::external_body]
pub struct ExSystemTime(SystemTime);

#[verifier::external_type_specification]
#[verifier::external_body]
pub struct ExSystemTimeError(SystemTimeError);

/// `SystemTime::now`: whatever the system's clock shows.
pub assume_specification[ SystemTime::now ]() -> SystemTime;

/// `SystemTime::duration_since` with the start of 1970: an error for times before it. How
/// long it is, is a matter of the system's clock.
#[verifier::external_body]
fn since_epoch(now: SystemTime) -> (r: Result<Duration, SystemTimeError>)
{
    now.duration_since(SystemTime::UNIX_EPOCH)
}

/// `Duration::as_secs`: the whole seconds. A duration is opaque here, so how many they
/// are is left unsaid.
pub assume_specification[ Duration::as_secs ](d: &Duration) -> (r: u64);

/// `Duration::subsec_nanos`: the nanoseconds beyond the whole seconds, which make less
/// than one second. A duration is opaque here, so how many they are is left unsaid.
pub assume_specification[ Duration::subsec_nanos ](d: &Duration) -> (r: u32)
    ensures
        r < 1_000_000_000,
;

/// A span of time.
#[derive(Debug, Clone, Copy)]
pub struct Elapsed {
    pub seconds: u64,
    pub nanos: u32,
}

/// The whole seconds; none where there is no span.
pub open spec fn seconds_in(elapsed: Option<Elapsed>) -> int {
    match elapsed {
        Some(e) => e.seconds as int,
        None => 0,
    }
}

/// The whole milliseconds; none where there is no span.
pub open spec fn millis_in(elapsed: Option<Elapsed>) -> int {
    match elapsed {
        Some(e) => e.seconds * 1000 + e.nanos as int / 1_000_000,
        None => 0,
    }
}

/// The whole seconds; none where there is no span.
pub fn whole_seconds(elapsed: Option<Elapsed>) -> (r: u64)
    ensures
        r == seconds_in(elapsed),
{
    match elapsed {
        Some(e) => e.seconds,
        None => 0,
    }
}

/// The whole milliseconds; none where there is no span.
pub fn whole_millis(elapsed: Option<Elapsed>) -> (r: u128)
    ensures
        r == millis_in(elapsed),
{
    match elapsed {
        Some(e) => (e.seconds as u128) * 1000 + (e.nanos as u128) / 1_000_000,
        None => 0,
    }
}

/// Whether the clock can have shown this much time since the start of 1970: it is what
/// `SystemTime::now` gives, less that start, in the parts that `Duration` tells; there is
/// none where the clock shows an earlier time.
pub closed spec fn is_clock_reading(elapsed: Option<Elapsed>) -> bool {
    exists|now: SystemTime, span: Result<Duration, SystemTimeError>|
        #![trigger call_ensures(since_epoch, (now,), span)]
        call_ensures(SystemTime::now, (), now) && call_ensures(since_epoch, (now,), span)
            && is_told_by(elapsed, span)
}

/// Whether these are the parts of the span, if there is one.
spec fn is_told_by(elapsed: Option<Elapsed>, span: Result<Duration, SystemTimeError>) -> bool {
    match span {
        Ok(d) => elapsed matches Some(e) && call_ensures(Duration::as_secs, (&d,), e.seconds)
            && call_ensures(Duration::subsec_nanos, (&d,), e.nanos),
        Err(_) => elapsed is None,
    }
}

/// The time since the start of 1970, unless the clock shows an earlier time.
fn elapsed_since_epoch() -> (r: Option<Elapsed>)
    ensures
        is_clock_reading(r),
        r matches Some(e) ==> e.nanos < 1_000_000_000,
{
    let now = SystemTime::now();
    let span = since_epoch(now);
    match span {
        Ok(d) => Some(Elapsed { seconds: d.as_secs(), nanos: d.subsec_nanos() }),
        Err(_) => None,
    }
}

/// The whole seconds since the start of 1970; none if the clock shows an earlier time.
pub fn epoch_seconds() -> (r: u64)
    ensures
        exists|elapsed: Option<Elapsed>| #[trigger]
            is_clock_reading(elapsed) && r == seconds_in(elapsed),
{
    whole_seconds(elapsed_since_epoch())
}

/// The whole milliseconds since the start of 1970; none if the clock shows an earlier
/// time.
pub fn epoch_millis() -> (r: u128)
    ensures
        exists|elapsed: Option<Elapsed>| #[trigger]
            is_clock_reading(elapsed) && r == millis_in(elapsed),
        r <= u64::MAX * 1000 + 999,
{
    whole_millis(elapsed_since_epoch())
}

/// What a reading of the clock tells beyond the whole seconds is less than a second.
proof fn lemma_reading_nanos(elapsed: Option<Elapsed>)
    requires
        is_clock_reading(elapsed),
    ensures
        elapsed matches Some(e) ==> e.nanos < 1_000_000_000,
{
    let (now, span) = choose|now: SystemTime, span: Result<Duration, SystemTimeError>|
        #![trigger call_ensures(since_epoch, (now,), span)]
        call_ensures(SystemTime::now, (), now) && call_ensures(since_epoch, (now,), span)
            && is_told_by(elapsed, span);
    assert(is_told_by(elapsed, span));
}

/// Whether the clock showed no later time at `a` than at `b`. Times before 1970 are not
/// told apart.
pub open spec fn is_not_later(a: Option<Elapsed>, b: Option<Elapsed>) -> bool {
    match (a, b) {
        (None, _) => true,
        (Some(_), None) => false,
        (Some(x), Some(y)) => x.seconds < y.seconds || (x.seconds == y.seconds && x.nanos
            <= y.nanos),
    }
}

/// While the clock does not go back, the seconds and milliseconds that are read one after
/// the other are in order. Before 1970 there are none.
pub proof fn law_readings_are_ordered(
    a: Option<Elapsed>,
    b: Option<Elapsed>,
    c: Option<Elapsed>,
)
    requires
        is_clock_reading(a),
        is_clock_reading(b),
        is_clock_reading(c),
        is_not_later(a, b),
        is_not_later(b, c),
    ensures
        seconds_in(a) <= millis_in(b) / 1000 <= seconds_in(c),
        millis_in(a) <= millis_in(b) <= millis_in(c),
        b is None ==> millis_in(b) == 0 && seconds_in(b) == 0,
{
    lemma_reading_nanos(a);
    lemma_reading_nanos(b);
    lemma_reading_nanos(c);
}

/// Milliseconds and seconds tell the same time.
pub proof fn law_millis_agree_with_seconds(elapsed: Option<Elapsed>)
    requires
        elapsed matches Some(e) ==> e.nanos < 1_000_000_000,
    ensures
        millis_in(elapsed) / 1000 == seconds_in(elapsed),
{
}

/// Of a span, the seconds are as they are, and the milliseconds are a thousand for each
/// second and one for each million of nanoseconds.
pub proof fn law_spans_are_counted(elapsed: Option<Elapsed>, seconds: u64, millis: u128)
    requires
        call_ensures(whole_seconds, (elapsed,), seconds),
        call_ensures(whole_millis, (elapsed,), millis),
    ensures
        match elapsed {
            Some(e) => {
                &&& seconds == e.seconds
                &&& 0 <= (e.seconds * 1_000_000_000 + e.nanos) - millis * 1_000_000 < 1_000_000
            },
            None => seconds == 0 && millis == 0,
        },
{
}

/// The seconds and the milliseconds of the day are those of a reading of the clock.
pub proof fn law_time_is_read_from_the_clock(seconds: u64, millis: u128)
    requires
        call_ensures(epoch_seconds, (), seconds),
        call_ensures(epoch_millis, (), millis),
    ensures
        exists|elapsed: Option<Elapsed>| #[trigger]
            is_clock_reading(elapsed) && match elapsed {
                Some(e) => seconds == e.seconds,
                None => seconds == 0,
            },
        exists|elapsed: Option<Elapsed>| #[trigger]
            is_clock_reading(elapsed) && match elapsed {
                Some(e) => 0 <= (e.seconds * 1_000_000_000 + e.nanos) - millis * 1_000_000
                    < 1_000_000,
                None => millis == 0,
            },
{
    let a = choose|elapsed: Option<Elapsed>| #[trigger]
        is_clock_reading(elapsed) && seconds == seconds_in(elapsed);
    let b = choose|elapsed: Option<Elapsed>| #[trigger]
        is_clock_reading(elapsed) && millis == millis_in(elapsed);
    assert(is_clock_reading(a) && is_clock_reading(b));
}

} // verus!
