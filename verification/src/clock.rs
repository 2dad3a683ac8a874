//! Points in time as plain integers, and the system clock.

use vstd::prelude::*;

verus! {

/// Nanoseconds in one second.
pub const NANOS_PER_SEC: i128 = 1_000_000_000;

/// How a time is written out: day, month and year, then hours, minutes and
/// seconds, in the notation of `chrono`.
pub const TIME_PATTERN: &'static str = "%d/%m/%Y %H:%M:%S";

/// A point in time: whole seconds since the Unix epoch, and the nanoseconds
/// past that second. Its view is the number of nanoseconds since the epoch.
#[derive(Clone, Copy, Debug, PartialEq, Eq, Structural)]
pub struct Timestamp {
    pub secs: i64,
    pub nanos: u32,
}

impl View for Timestamp {
    type V = int;

    open spec fn view(&self) -> int {
        self.secs * NANOS_PER_SEC + self.nanos
    }
}

/// The test that keeps a recorded time: less than `window` nanoseconds have
/// passed between it and `now`.
pub open spec fn in_window(now: Timestamp, window: int) -> spec_fn(Timestamp) -> bool {
    |t: Timestamp| now@ - t@ < window
}

/// What `chrono` writes after `pattern` for the UTC time that lies `secs`
/// seconds and `nanos` nanoseconds after the Unix epoch; `None` where
/// `chrono` has no date for them.
pub uninterp spec fn utc_text(secs: i64, nanos: u32, pattern: Seq<char>) -> Option<Seq<char>>;

/// Has `chrono` write the time out: `DateTime::from_timestamp` on the two
/// numbers, then `DateTime::format` with `pattern` and `to_string`. The text
/// depends on the three arguments alone: the time is taken as UTC and the
/// pattern asks for numbers only. `None` comes back where `from_timestamp`
/// gives none. Only `TIME_PATTERN` is let in: `to_string` panics on a
/// pattern that `chrono` cannot read.
#[verifier::external_body]
fn write_utc(at: Timestamp, pattern: &str) -> (text: Option<String>)
    requires
        pattern@ == TIME_PATTERN@,
    ensures
        match text {
            Some(written) => utc_text(at.secs, at.nanos, pattern@) == Some(written@),
            None => utc_text(at.secs, at.nanos, pattern@) is None,
        },
{
    match chrono::DateTime::from_timestamp(at.secs, at.nanos) {
        Some(time) => Some(time.format(pattern).to_string()),
        None => None,
    }
}

impl Timestamp {
    /// Reads the system clock through `chrono::Utc::now` and keeps the two
    /// numbers that `DateTime::timestamp` and
    /// `DateTime::timestamp_subsec_nanos` give for it. Nothing is claimed of
    /// the value: two readings may be equal, and a later reading may be
    /// earlier than a former one. `Utc::now` panics where the system clock
    /// stands before the Unix epoch.
    #[verifier::external_body]
    pub(crate) fn now() -> Timestamp {
        let current = chrono::Utc::now();
        Timestamp { secs: current.timestamp(), nanos: current.timestamp_subsec_nanos() }
    }

    /// The time written out after `TIME_PATTERN`, as UTC; `None` where
    /// `chrono` has no date for it.
    pub fn written(self) -> (text: Option<String>)
        ensures
            match text {
                Some(written) => utc_text(self.secs, self.nanos, TIME_PATTERN@) == Some(
                    written@,
                ),
                None => utc_text(self.secs, self.nanos, TIME_PATTERN@) is None,
            },
    {
        write_utc(self, TIME_PATTERN)
    }

    /// The signed time from `earlier` to `self`, in nanoseconds.
    pub fn elapsed_since(self, earlier: Timestamp) -> (nanos: i128)
        ensures
            nanos == self@ - earlier@,
    {
        let secs: i128 = self.secs as i128 - earlier.secs as i128;
        let frac: i128 = self.nanos as i128 - earlier.nanos as i128;
        secs * NANOS_PER_SEC + frac
    }

    /// Whether `earlier` lies less than `window` nanoseconds before `self`.
    /// A time after `self` lies within every window that is not negative.
    pub fn is_within(self, earlier: Timestamp, window: i128) -> (inside: bool)
        ensures
            inside == in_window(self, window as int)(earlier),
    {
        self.elapsed_since(earlier) < window
    }
}

} // verus!
