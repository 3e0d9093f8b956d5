//! Wall-clock instants as plain values.
use vstd::prelude::*;
use std::time::{Duration, SystemTime, SystemTimeError, UNIX_EPOCH};

verus! {

/// Nanoseconds in a second.
pub const NANOS_PER_SEC: u32 = 1_000_000_000;

/// An instant of the system clock: `secs` seconds and `nanos` nanoseconds
/// after the UNIX epoch, or before it when `before_epoch` is set.
#[derive(Clone, Copy, Debug, PartialEq, Eq, Structural)]
pub struct WallTime {
    pub before_epoch: bool,
    pub secs: u64,
    pub nanos: u32,
}

impl WallTime {
    /// A well-formed instant keeps its sub-second part below one second.
    pub open spec fn wf(self) -> bool {
        self.nanos < NANOS_PER_SEC
    }

    /// The instant as signed nanoseconds relative to the epoch.
    pub open spec fn as_nanos(self) -> int {
        let magnitude = self.secs * 1_000_000_000 + self.nanos;
        if self.before_epoch {
            -magnitude
        } else {
            magnitude
        }
    }

    /// The instant as signed nanoseconds relative to the epoch.
    pub fn to_nanos(&self) -> (n: i128)
        ensures
            n == self.as_nanos(),
    {
        let magnitude: i128 = self.secs as i128 * 1_000_000_000i128 + self.nanos as i128;
        if self.before_epoch {
            -magnitude
        } else {
            magnitude
        }
    }
}

/// The system clock's instants, carried through unopened.
#[verifier::external_type_specification]
#[verifier::external_body]
pub struct ExSystemTime(std::time::SystemTime);

/// The error `SystemTime::duration_since` gives for an earlier argument,
/// carried through unopened.
#[verifier::external_type_specification]
#[verifier::external_body]
pub struct ExSystemTimeError(std::time::SystemTimeError);

/// `std::time::SystemTime::now`: the current instant of the system clock.
/// Nothing is claimed of which instant it is.
#[verifier::external_body]
fn system_time_now() -> (t: SystemTime) {
    SystemTime::now()
}

/// `SystemTime::duration_since` with `UNIX_EPOCH` as the argument: how far
/// `t` lies after the epoch, or, as the error, that it lies before it.
/// Nothing is claimed of the outcome.
#[verifier::external_body]
fn since_unix_epoch(t: &SystemTime) -> (r: Result<Duration, SystemTimeError>) {
    t.duration_since(UNIX_EPOCH)
}

/// `SystemTimeError::duration`: how far the instant lies before the one it
/// was measured from. Nothing is claimed of the amount.
#[verifier::external_body]
fn error_duration(e: &SystemTimeError) -> (d: Duration) {
    e.duration()
}

/// `Duration::as_secs`: the whole seconds of `d`. Nothing is claimed of the
/// amount.
#[verifier::external_body]
fn whole_secs(d: &Duration) -> (secs: u64) {
    d.as_secs()
}

/// `Duration::subsec_nanos`: the part of `d` below one second, in
/// nanoseconds; the documentation states that it is less than one second.
#[verifier::external_body]
fn fraction_nanos(d: &Duration) -> (nanos: u32)
    ensures
        nanos < NANOS_PER_SEC,
{
    d.subsec_nanos()
}

/// Reads the system clock and expresses the instant relative to the UNIX
/// epoch: after it where the clock reads later, before it otherwise. Which
/// instant is read is not stated.
pub(crate) fn wall_clock_now() -> (t: WallTime)
    ensures
        t.wf(),
{
    let now = system_time_now();
    match since_unix_epoch(&now) {
        Ok(d) => WallTime { before_epoch: false, secs: whole_secs(&d), nanos: fraction_nanos(&d) },
        Err(e) => {
            let d = error_duration(&e);
            WallTime { before_epoch: true, secs: whole_secs(&d), nanos: fraction_nanos(&d) }
        },
    }
}

} // verus!
