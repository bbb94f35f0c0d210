//! Points in time, held as plain values: whole seconds since the Unix epoch
//! and the nanoseconds past them, as `chrono::DateTime<Utc>` gives them.
use chrono::{DateTime, Utc};
use std::time::{SystemTime, UNIX_EPOCH};
use vstd::prelude::*;

verus! {

/// The text that `chrono` prints for the UTC time `secs` seconds and `nanos`
/// nanoseconds after the Unix epoch, or `None` where it has no such time.
pub uninterp spec fn utc_text(secs: i64, nanos: u32) -> Option<Seq<char>>;

/// Calls `chrono::DateTime::<Utc>::from_timestamp` and prints the time it gives
/// with its `Display` impl. Claimed: the result is `utc_text` of the two
/// arguments; and, as the source of `from_timestamp` shows, there is no time
/// where the nanoseconds reach two billion. Which seconds are in range and
/// the layout of the text are left unstated.
#[verifier::external_body]
fn format_utc(secs: i64, nanos: u32) -> (r: Option<String>)
    ensures
        match r {
            Some(t) => utc_text(secs, nanos) == Some(t@),
            None => utc_text(secs, nanos) is None,
        },
        nanos >= 2_000_000_000 ==> r is None,
{
    match DateTime::<Utc>::from_timestamp(secs, nanos) {
        Some(t) => Some(t.to_string()),
        None => None,
    }
}

/// Calls `std::time::SystemTime::now` and measures the reading from
/// `UNIX_EPOCH` with `duration_since`. Returns whether the reading lies
/// before the epoch, and the whole seconds and the nanoseconds of its
/// distance from it (from the error's `duration` when it lies before).
/// Claimed: the nanoseconds are below one billion, as `Duration::subsec_nanos`
/// documents. What the clock reads is unstated.
#[verifier::external_body]
fn read_clock() -> (r: (bool, u64, u32))
    ensures
        r.2 < 1_000_000_000,
{
    match SystemTime::now().duration_since(UNIX_EPOCH) {
        Ok(d) => (false, d.as_secs(), d.subsec_nanos()),
        Err(e) => (true, e.duration().as_secs(), e.duration().subsec_nanos()),
    }
}

/// The seconds and nanoseconds since the epoch of a clock reading `secs`
/// seconds and `nanos` nanoseconds after (or, with `before_epoch`, before) it.
pub open spec fn clock_time(before_epoch: bool, secs: u64, nanos: u32) -> (int, int) {
    if !before_epoch {
        (secs as int, nanos as int)
    } else if nanos == 0 {
        (-(secs as int), 0)
    } else {
        (-(secs as int) - 1, 1_000_000_000 - nanos)
    }
}

/// Whether a clock reading denotes a time that `Timestamp` can hold.
pub open spec fn clock_representable(before_epoch: bool, secs: u64, nanos: u32) -> bool {
    let (s, n) = clock_time(before_epoch, secs, nanos);
    i64::MIN <= s <= i64::MAX && utc_text(s as i64, n as u32) is Some
}

/// A UTC time that `chrono` can represent.
#[derive(Debug, Clone, Copy, PartialEq, Eq, Structural)]
pub struct Timestamp {
    secs: i64,
    nanos: u32,
}

impl View for Timestamp {
    type V = (i64, u32);

    closed spec fn view(&self) -> (i64, u32) {
        (self.secs, self.nanos)
    }
}

impl Timestamp {
    #[verifier::type_invariant]
    spec fn representable(self) -> bool {
        utc_text(self.secs, self.nanos) is Some
    }

    /// The time `secs` seconds and `nanos` nanoseconds after the Unix epoch,
    /// where `chrono` has one.
    pub fn from_unix(secs: i64, nanos: u32) -> (r: Option<Timestamp>)
        ensures
            r is Some <==> utc_text(secs, nanos) is Some,
            r matches Some(t) ==> t@ == (secs, nanos),
    {
        match format_utc(secs, nanos) {
            Some(_) => Some(Timestamp { secs, nanos }),
            None => None,
        }
    }

    /// The time of a clock reading, where `chrono` has one.
    pub fn from_clock_reading(before_epoch: bool, secs: u64, nanos: u32) -> (r: Option<Timestamp>)
        requires
            nanos < 1_000_000_000,
        ensures
            r is Some <==> clock_representable(before_epoch, secs, nanos),
            r matches Some(t) ==> t@.0 == clock_time(before_epoch, secs, nanos).0 && t@.1
                == clock_time(before_epoch, secs, nanos).1,
    {
        let s: i128 = if !before_epoch {
            secs as i128
        } else if nanos == 0 {
            -(secs as i128)
        } else {
            -(secs as i128) - 1
        };
        let n: u32 = if before_epoch && nanos != 0 {
            1_000_000_000 - nanos
        } else {
            nanos
        };
        if s < i64::MIN as i128 || s > i64::MAX as i128 {
            return None;
        }
        Timestamp::from_unix(s as i64, n)
    }

    /// The current time, read from the system clock, where `chrono` can
    /// represent it.
    pub fn now() -> (r: Option<Timestamp>)
        ensures
            r matches Some(t) ==> utc_text(t@.0, t@.1) is Some,
    {
        let (before_epoch, secs, nanos) = read_clock();
        Timestamp::from_clock_reading(before_epoch, secs, nanos)
    }

    /// Whole seconds since the Unix epoch.
    pub fn secs(&self) -> (r: i64)
        ensures
            r == self@.0,
    {
        self.secs
    }

    /// Nanoseconds past `secs`.
    pub fn nanos(&self) -> (r: u32)
        ensures
            r == self@.1,
    {
        self.nanos
    }

    /// The time as `chrono` prints a `DateTime<Utc>`.
    pub fn to_text(&self) -> (r: String)
        ensures
            utc_text(self@.0, self@.1) == Some(r@),
    {
        proof {
            use_type_invariant(self);
        }
        match format_utc(self.secs, self.nanos) {
            Some(t) => t,
            None => String::new(),
        }
    }
}

} // verus!
