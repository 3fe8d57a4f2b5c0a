use vstd::prelude::*;

use std::time::{SystemTime, UNIX_EPOCH};

verus! {

/// `SystemTime::now().duration_since(UNIX_EPOCH)` in whole nanoseconds, 0 when the
/// clock reads before the epoch. It reads the clock, so nothing is stated of it.
#[verifier::external_body]
fn unix_epoch_nanos() -> (r: u128) {
    SystemTime::now().duration_since(UNIX_EPOCH).unwrap_or_default().as_nanos()
}

/// The current timestamp for log messages: Unix epoch nanoseconds, kept to their
/// low 64 bits.
pub fn now() -> u64 {
    timestamp_from_epoch_nanos(unix_epoch_nanos())
}

/// The timestamp of a clock reading of `n` nanoseconds since the Unix epoch: the
/// reading itself, kept to its low 64 bits, so that a reading before the year
/// 2554 keeps its whole seconds and the nanoseconds within them.
pub fn timestamp_from_epoch_nanos(n: u128) -> (r: u64)
    ensures
        r == n % 0x1_0000_0000_0000_0000,
        n < 0x1_0000_0000_0000_0000 ==> r == n,
        n < 0x1_0000_0000_0000_0000 ==> r / 1_000_000_000 == n / 1_000_000_000 && r % 1_000_000_000
            == n % 1_000_000_000,
{
    (n % 0x1_0000_0000_0000_0000u128) as u64
}

/// Timestamps are already Unix epoch nanoseconds, so they display as they are.
pub fn to_display_nanos(raw: u64) -> (r: u64)
    ensures
        r == raw,
{
    raw
}

} // verus!
