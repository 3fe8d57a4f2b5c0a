use vstd::prelude::*;

verus! {

/// Whether to append to an existing file or truncate it.
#[derive(Debug, Clone, Copy, PartialEq, Eq, Structural)]
pub enum FileMode {
    /// Create the file if missing, append to the end if it exists.
    Append,
    /// Create or overwrite the file.
    Truncate,
}

/// When to rotate the log file.
#[derive(Debug, Clone, Copy, PartialEq, Eq, Structural)]
pub enum RotationPolicy {
    /// Rotate after writing `max_bytes` to the current file.
    SizeBased { max_bytes: u64 },
    /// Rotate at regular time intervals.
    TimeBased { interval: TimeInterval },
}

/// Interval for time-based log rotation.
#[derive(Debug, Clone, Copy, PartialEq, Eq, Structural)]
pub enum TimeInterval {
    /// Rotate at the top of each hour.
    Hourly,
    /// Rotate at midnight each day.
    Daily,
}

/// Seconds in an hour, a day, and the hundred years a size-based file waits for a
/// time-based rotation that never comes.
pub const SECS_PER_HOUR: u64 = 3600;

pub const SECS_PER_DAY: u64 = 86400;

pub const SECS_FOR_NEVER: u64 = 3_153_600_000;

/// The bytes a written line adds to its file: the line and its newline.
pub open spec fn line_cost(line_len: nat) -> nat {
    line_len + 1
}

impl RotationPolicy {
    /// How long after opening a file its time-based rotation falls due.
    pub open spec fn spec_period_secs(self) -> nat {
        match self {
            RotationPolicy::SizeBased { .. } => SECS_FOR_NEVER as nat,
            RotationPolicy::TimeBased { interval: TimeInterval::Hourly } => SECS_PER_HOUR as nat,
            RotationPolicy::TimeBased { interval: TimeInterval::Daily } => SECS_PER_DAY as nat,
        }
    }

    /// Whether a file that has taken `bytes_written` bytes must rotate before a
    /// line of `line_len` bytes is written to it, `deadline_passed` telling whether
    /// its rotation time has come.
    pub open spec fn spec_due(self, bytes_written: nat, line_len: nat, deadline_passed: bool) -> bool {
        match self {
            RotationPolicy::SizeBased { max_bytes } => bytes_written + line_cost(line_len)
                > max_bytes,
            RotationPolicy::TimeBased { .. } => deadline_passed,
        }
    }

    /// The delay, in seconds, from opening a file to its next time-based rotation.
    pub fn period_secs(&self) -> (r: u64)
        ensures
            r == self.spec_period_secs(),
    {
        match self {
            RotationPolicy::SizeBased { .. } => SECS_FOR_NEVER,
            RotationPolicy::TimeBased { interval } => match interval {
                TimeInterval::Hourly => SECS_PER_HOUR,
                TimeInterval::Daily => SECS_PER_DAY,
            },
        }
    }

    /// Whether the file must rotate before the next line is written.
    pub fn due(&self, bytes_written: u64, line_len: usize, deadline_passed: bool) -> (r: bool)
        ensures
            r == self.spec_due(bytes_written as nat, line_len as nat, deadline_passed),
    {
        match self {
            RotationPolicy::SizeBased { max_bytes } => {
                (bytes_written as u128) + (line_len as u128) + 1 > (*max_bytes as u128)
            },
            RotationPolicy::TimeBased { .. } => deadline_passed,
        }
    }
}

} // verus!
