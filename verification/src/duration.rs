//! `std::time::Duration` seen through its whole seconds and sub-second
//! nanoseconds.

use vstd::prelude::*;
use std::time::Duration;

verus! {

/// Whole seconds of a duration (`Duration::as_secs`).
pub uninterp spec fn duration_secs(d: Duration) -> u64;

/// Fractional part of a duration in nanoseconds (`Duration::subsec_nanos`).
pub uninterp spec fn duration_subsec_nanos(d: Duration) -> u32;

/// The `Debug` text of a duration (such as `2s` or `1.5ms`).
pub uninterp spec fn duration_debug_text(d: Duration) -> Seq<char>;

/// The total length of a duration in nanoseconds.
pub open spec fn duration_nanos(d: Duration) -> nat {
    duration_secs(d) as nat * 1_000_000_000 + duration_subsec_nanos(d) as nat
}

/// `Duration::as_secs`: the whole seconds of `d`.
#[verifier::external_body]
pub(crate) fn duration_as_secs(d: &Duration) -> (r: u64)
    ensures
        r == duration_secs(*d),
{
    d.as_secs()
}

/// `Duration::subsec_nanos`: the fractional part of `d` in nanoseconds,
/// always below one second.
#[verifier::external_body]
pub(crate) fn duration_subsec(d: &Duration) -> (r: u32)
    ensures
        r == duration_subsec_nanos(*d),
        r < 1_000_000_000,
{
    d.subsec_nanos()
}

/// `Duration::from_secs`: a duration of exactly `secs` seconds.
#[verifier::external_body]
pub(crate) fn duration_from_secs(secs: u64) -> (r: Duration)
    ensures
        duration_secs(r) == secs,
        duration_subsec_nanos(r) == 0,
{
    Duration::from_secs(secs)
}

/// The `Debug` rendering of `d` (`format!("{d:?}")`).
#[verifier::external_body]
pub(crate) fn duration_debug(d: &Duration) -> (r: String)
    ensures
        r@ == duration_debug_text(*d),
{
    format!("{d:?}")
}

/// `Duration` is `Copy`: its `clone` returns the same value.
pub assume_specification[ <std::time::Duration as Clone>::clone ](d: &std::time::Duration) -> (r: std::time::Duration)
    ensures
        r == *d,
;

/// A duration's length in nanoseconds, saturated at `i64::MAX`, as the
/// Docker Engine API takes durations.
pub fn duration_to_nanos_i64(d: Duration) -> (r: i64)
    ensures
        r as int == if duration_nanos(d) > i64::MAX as nat {
            i64::MAX as int
        } else {
            duration_nanos(d) as int
        },
{
    let secs: u64 = duration_as_secs(&d);
    let nanos: u32 = duration_subsec(&d);
    let total: u128 = secs as u128 * 1_000_000_000u128 + nanos as u128;
    if total > i64::MAX as u128 {
        i64::MAX
    } else {
        total as i64
    }
}

} // verus!
