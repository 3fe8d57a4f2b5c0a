use vstd::prelude::*;

use crate::sink::Sink;

verus! {

/// A no-op sink that discards all messages.
///
/// Useful for benchmarks and tests where output is not needed.
#[derive(Debug, Clone, Copy, PartialEq, Eq, Structural)]
pub struct NullSink;

impl Default for NullSink {
    fn default() -> (r: Self)
        ensures
            r == NullSink,
    {
        NullSink
    }
}

impl Sink for NullSink {
    fn write(&self, formatted: &str) {
    }

    fn flush(&self) {
    }
}

} // verus!
