//! The wall clock, in milliseconds since the Unix epoch.

use vstd::prelude::*;
use std::time::{Duration, SystemTime, UNIX_EPOCH};

verus! {

#[verifier::external_type_specification]
#[verifier::external_body]
pub struct ExSystemTime(SystemTime);

/// Calls `SystemTime::now`; nothing is claimed of the time it reads.
#[verifier::external_body]
fn system_time_now() -> SystemTime {
    SystemTime::now()
}

/// Calls `SystemTime::duration_since` with the Unix epoch; `None` stands
/// for its error, which it gives when `t` is earlier than the epoch.
/// Nothing is claimed of the duration or of when it fails: both rest on
/// the clock reading, which has no view here.
#[verifier::external_body]
fn duration_since_unix_epoch(t: &SystemTime) -> Option<Duration> {
    match t.duration_since(UNIX_EPOCH) {
        Ok(d) => Some(d),
        Err(_) => None,
    }
}

/// Calls `Duration::as_secs`: the whole seconds of `d`.  Nothing more is
/// claimed of the number, as `Duration` has no view here.
#[verifier::external_body]
fn duration_as_secs(d: &Duration) -> u64 {
    d.as_secs()
}

/// Calls `Duration::subsec_nanos`: the nanoseconds of `d` past its whole
/// seconds, which its documentation puts below one billion.
#[verifier::external_body]
fn duration_subsec_nanos(d: &Duration) -> (r: u32)
    ensures
        r < 1_000_000_000,
{
    d.subsec_nanos()
}

/// The whole milliseconds of a duration of `secs` seconds and `nanos`
/// nanoseconds, rounded down.
pub open spec fn spec_millis_of(secs: nat, nanos: nat) -> nat {
    secs * 1000 + nanos / 1_000_000
}

/// The whole milliseconds of a duration given as whole seconds and the
/// nanoseconds past them, as `Duration::as_millis` counts them.
pub fn millis_of(secs: u64, nanos: u32) -> (r: u128)
    requires
        nanos < 1_000_000_000,
    ensures
        r == spec_millis_of(secs as nat, nanos as nat),
{
    (secs as u128) * 1000 + (nanos / 1_000_000) as u128
}

/// The milliseconds since the Unix epoch, or `None` when the system clock
/// reads a time before it.
pub fn epoch_ms() -> (r: Option<u128>)
    ensures
        r matches Some(ms) ==> exists|secs: u64, nanos: u32|
            nanos < 1_000_000_000 && ms == spec_millis_of(secs as nat, nanos as nat),
        r matches Some(ms) ==> ms <= u64::MAX as nat * 1000 + 999,
{
    let now = system_time_now();
    match duration_since_unix_epoch(&now) {
        Some(d) => {
            let secs = duration_as_secs(&d);
            let nanos = duration_subsec_nanos(&d);
            let ms = millis_of(secs, nanos);
            assert(nanos / 1_000_000 <= 999);
            Some(ms)
        },
        None => None,
    }
}

/// The milliseconds of a duration are its nanoseconds divided by a
/// million, rounded down.
pub proof fn law_millis_round_down(secs: nat, nanos: nat)
    requires
        nanos < 1_000_000_000,
    ensures
        spec_millis_of(secs, nanos) == (secs * 1_000_000_000 + nanos) / 1_000_000,
{
    assert((secs * 1_000_000_000 + nanos) / 1_000_000 == secs * 1000 + nanos / 1_000_000)
        by (nonlinear_arith)
        requires
            nanos < 1_000_000_000,
    ;
}

/// A later clock reading gives no fewer milliseconds, and at most one more
/// than the whole milliseconds between the two readings.
pub proof fn law_millis_monotone(s1: nat, n1: nat, s2: nat, n2: nat)
    requires
        n1 < 1_000_000_000,
        n2 < 1_000_000_000,
        s1 * 1_000_000_000 + n1 <= s2 * 1_000_000_000 + n2,
    ensures
        spec_millis_of(s1, n1) <= spec_millis_of(s2, n2),
        spec_millis_of(s2, n2) - spec_millis_of(s1, n1) <= ((s2 * 1_000_000_000 + n2) - (s1
            * 1_000_000_000 + n1)) / 1_000_000 + 1,
{
    law_millis_round_down(s1, n1);
    law_millis_round_down(s2, n2);
    let a = s1 * 1_000_000_000 + n1;
    let b = s2 * 1_000_000_000 + n2;
    assert(a / 1_000_000 <= b / 1_000_000) by (nonlinear_arith)
        requires
            0 <= a <= b,
    ;
    assert(b / 1_000_000 - a / 1_000_000 <= (b - a) / 1_000_000 + 1) by (nonlinear_arith)
        requires
            0 <= a <= b,
    ;
}

} // verus!
