//! Durations. `std::time::Duration` is carried as it is and spoken of by its length
//! in nanoseconds.

use std::time::Duration;

use vstd::prelude::*;

verus! {

/// The length of a duration in nanoseconds, as `Duration::as_nanos` gives it.
pub uninterp spec fn nanos(duration: Duration) -> nat;

/// Nanoseconds in a millisecond.
pub const NANOS_PER_MILLI: u64 = 1_000_000;

/// Nanoseconds in a second.
pub const NANOS_PER_SEC: u64 = 1_000_000_000;

/// The longest duration there is, in nanoseconds: `u64::MAX` seconds and
/// 999_999_999 nanoseconds.
pub open spec fn max_nanos() -> nat {
    (u64::MAX * NANOS_PER_SEC + (NANOS_PER_SEC - 1)) as nat
}

/// `Duration::from_millis`: that many milliseconds.
pub assume_specification[ Duration::from_millis ](millis: u64) -> (duration: Duration)
    ensures
        nanos(duration) == millis * NANOS_PER_MILLI,
;

/// `Duration::from_secs`: that many seconds.
pub assume_specification[ Duration::from_secs ](secs: u64) -> (duration: Duration)
    ensures
        nanos(duration) == secs * NANOS_PER_SEC,
;

/// `Duration::as_millis`: the whole milliseconds of a duration.
pub assume_specification[ Duration::as_millis ](duration: &Duration) -> (millis: u128)
    ensures
        millis == nanos(*duration) / NANOS_PER_MILLI as nat,
;

/// `Duration::checked_add`: the sum, or nothing where it is longer than any
/// duration.
pub assume_specification[ Duration::checked_add ](a: Duration, b: Duration) -> (sum: Option<Duration>)
    ensures
        sum is Some <==> nanos(a) + nanos(b) <= max_nanos(),
        sum is Some ==> nanos(sum->0) == nanos(a) + nanos(b),
;

/// What 64 bits hold of a number.
pub open spec fn low_bits(n: nat) -> nat {
    n % 0x1_0000_0000_0000_0000
}

/// The lower 64 bits of a number.
pub fn low_half(n: u128) -> (low: u64)
    ensures
        low == low_bits(n as nat),
{
    assert((n as u64) as u128 == n % 0x1_0000_0000_0000_0000u128) by (bit_vector);
    n as u64
}

/// Numbers that 64 bits hold are kept as they are; larger ones wrap around.
pub proof fn law_low_bits_wrap_around(n: nat)
    ensures
        n <= u64::MAX ==> low_bits(n) == n,
        low_bits(n) <= u64::MAX,
        low_bits(n + 0x1_0000_0000_0000_0000) == low_bits(n),
{
    assert((n + 0x1_0000_0000_0000_0000) % 0x1_0000_0000_0000_0000 == n % 0x1_0000_0000_0000_0000)
        by (nonlinear_arith);
}

} // verus!
