//! Points in time and the intervals between them.

use vstd::prelude::*;

verus! {

/// A point in time: whole seconds since the Unix epoch, and nanoseconds on top of them.
#[derive(Clone, Copy, PartialEq, Eq, Structural, Debug)]
pub struct Timestamp {
    pub secs: i64,
    pub nanos: u32,
}

/// File systems may show a modification time a little before the clock that stamped a task.
pub const MTIME_TOLERANCE_SECS: i64 = 2;

impl Timestamp {
    /// The nanoseconds make less than a second.
    pub open spec fn wf(self) -> bool {
        self.nanos < 1_000_000_000
    }

    /// Milliseconds since the Unix epoch; `None` before it.
    pub open spec fn unix_ms(self) -> Option<u64> {
        if self.secs < 0 {
            None
        } else {
            Some((self.secs * 1000 + self.nanos / 1_000_000) as u64)
        }
    }

    pub open spec fn is_before(self, other: Timestamp) -> bool {
        self.secs < other.secs || (self.secs == other.secs && self.nanos < other.nanos)
    }

    /// Whether this point comes before `other`.
    pub fn before(self, other: Timestamp) -> (earlier: bool)
        ensures
            earlier == self.is_before(other),
    {
        self.secs < other.secs || (self.secs == other.secs && self.nanos < other.nanos)
    }
}

/// What the file system tells of one generation of a file.
#[derive(Clone, Copy, PartialEq, Eq, Structural, Debug)]
pub struct FileStamp {
    pub len: u64,
    pub modified: Option<Timestamp>,
}

/// The file was modified at `started_at` or later, or so shortly before that it may count.
pub open spec fn is_modified_since(stamp: FileStamp, started_at: Timestamp) -> bool {
    &&& stamp.modified matches Some(modified)
    &&& modified.secs + MTIME_TOLERANCE_SECS <= i64::MAX
    &&& !(Timestamp {
        secs: (modified.secs + MTIME_TOLERANCE_SECS) as i64,
        nanos: modified.nanos,
    }).is_before(started_at)
}

/// Whether the file was modified at `started_at` or later, within the tolerance of file systems.
pub fn modified_since(stamp: FileStamp, started_at: Timestamp) -> (modified: bool)
    ensures
        modified == is_modified_since(stamp, started_at),
{
    match stamp.modified {
        None => false,
        Some(modified) => match modified.secs.checked_add(MTIME_TOLERANCE_SECS) {
            None => false,
            Some(secs) => !(Timestamp { secs, nanos: modified.nanos }).before(started_at),
        },
    }
}

/// Milliseconds since the Unix epoch; `None` before it.
pub fn unix_time_ms(time: Timestamp) -> (millis: Option<u64>)
    ensures
        millis == time.unix_ms(),
{
    if time.secs < 0 {
        None
    } else {
        let total: u128 = time.secs as u128 * 1000 + (time.nanos / 1_000_000) as u128;
        Some(total as u64)
    }
}

/// Whole milliseconds between two readings, in nanoseconds, of a clock that never goes back.
pub open spec fn millis_between(started: u128, now: u128) -> u64 {
    if now < started {
        0
    } else {
        (((now - started) as u128) / 1_000_000) as u64
    }
}

/// Whole milliseconds from the clock reading `started` to the reading `now`.
pub fn elapsed_ms(started: u128, now: u128) -> (millis: u64)
    ensures
        millis == millis_between(started, now),
{
    if now < started {
        0
    } else {
        ((now - started) / 1_000_000) as u64
    }
}

} // verus!
