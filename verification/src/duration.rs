//! Durations built from configured millisecond and second counts.
use std::time::Duration;
use vstd::prelude::*;

verus! {

/// The duration that `Duration::from_millis(ms)` returns.
pub uninterp spec fn millis_duration(ms: u64) -> Duration;

/// The duration that `Duration::from_secs(s)` returns.
pub uninterp spec fn secs_duration(s: u64) -> Duration;

/// `Duration::from_millis`: its result is determined by `ms` alone, and it is `ms`
/// whole milliseconds long.
#[verifier::external_body]
pub(crate) fn duration_from_millis(ms: u64) -> (d: Duration)
    ensures
        d == millis_duration(ms),
        duration_millis(d) == ms as u128,
{
    Duration::from_millis(ms)
}

/// `Duration::from_secs`: its result is determined by `s` alone, and it is `s`
/// seconds long.
#[verifier::external_body]
pub(crate) fn duration_from_secs(s: u64) -> (d: Duration)
    ensures
        d == secs_duration(s),
        duration_millis(d) == s as u128 * 1000,
{
    Duration::from_secs(s)
}

/// The whole milliseconds that `Duration::as_millis` gives for `d`.
pub uninterp spec fn duration_millis(d: Duration) -> u128;

/// `Duration::as_millis`: its result is determined by `d` alone.
#[verifier::external_body]
pub(crate) fn duration_as_millis(d: Duration) -> (ms: u128)
    ensures
        ms == duration_millis(d),
{
    d.as_millis()
}

} // verus!
