//! Errors that the table's rules give.

use vstd::prelude::*;

verus! {

/// Why a request on a table was refused.
#[derive(Debug, PartialEq, Eq, Structural)]
pub enum LakehouseError {
    /// A requested timestamp is not an RFC 3339 timestamp.
    InvalidTimestamp,
    /// The table has no committed version yet.
    NoCommittedVersions,
    /// The log file of `version` could not be read.
    MissingLogFile { version: u64 },
    /// Line `line` (counted from 0) of the log file of `version` is not a valid action.
    InvalidLogLine { version: u64, line: usize },
    /// The log file of `version` holds no commit information.
    MissingCommitInfo { version: u64 },
    /// The commit timestamp recorded in the log file of `version` is not RFC 3339.
    MalformedCommitTimestamp { version: u64 },
    /// No committed version lies at or before the requested timestamp.
    NoVersionAtOrBefore,
    /// Both an exact version and a timestamp were asked for.
    VersionAndTimestampBothSet,
    /// The snapshot at `version` holds no data file to query.
    EmptySnapshot { version: u64 },
    /// Version `version` is already committed; the log is append-only.
    VersionAlreadyCommitted { version: u64 },
    /// The system clock gives no time that can be written in RFC 3339
    /// (it reads before the Unix epoch or beyond chrono's range).
    ClockUnreadable,
}

} // verus!
