use vstd::prelude::*;

use crate::level::LogLevel;
use crate::metadata::Metadata;

verus! {

/// Runtime filter evaluated by the backend worker before dispatching to sinks.
///
/// Filters are AND-combined: a message must pass ALL filters on its logger
/// to be delivered. Filters have access to the metadata and raw argument payload.
///
/// `spec_accept` is the implementor's statement of what `accept` answers.
pub trait Filter: Send + Sync {
    spec fn spec_accept(&self, metadata: &Metadata, args_raw: Seq<u8>) -> bool;

    /// Return `true` if the message should be delivered to sinks.
    fn accept(&self, metadata: &Metadata, args_raw: &[u8]) -> (r: bool)
        ensures
            r == self.spec_accept(metadata, args_raw@),
    ;
}

/// Filters messages at or above a minimum severity level.
///
/// Example: `LevelFilter::new(LogLevel::Warning)` allows Warning, Error, and
/// Critical messages, but blocks Info and below.
pub struct LevelFilter {
    level: LogLevel,
}

impl LevelFilter {
    /// The minimum level this filter lets through.
    pub closed spec fn min_level(self) -> LogLevel {
        self.level
    }

    pub fn new(level: LogLevel) -> (r: Self)
        ensures
            r.min_level() == level,
    {
        LevelFilter { level }
    }
}

impl Filter for LevelFilter {
    open spec fn spec_accept(&self, metadata: &Metadata, args_raw: Seq<u8>) -> bool {
        metadata.level.rank() >= self.min_level().rank()
    }

    fn accept(&self, metadata: &Metadata, args_raw: &[u8]) -> (r: bool) {
        metadata.level.as_usize() >= self.level.as_usize()
    }
}

/// Whether every filter in `filters` accepts the message: the AND of their answers,
/// `true` for no filters.
pub fn all_accept(filters: &[&dyn Filter], metadata: &Metadata, args_raw: &[u8]) -> (r: bool)
    ensures
        r <==> forall|i: int|
            0 <= i < filters@.len() ==> #[trigger] filters@[i].spec_accept(metadata, args_raw@),
{
    let mut i: usize = 0;
    while i < filters.len()
        invariant
            i <= filters@.len(),
            forall|j: int| 0 <= j < i ==> #[trigger] filters@[j].spec_accept(metadata, args_raw@),
        decreases filters@.len() - i,
    {
        if !filters[i].accept(metadata, args_raw) {
            return false;
        }
        i = i + 1;
    }
    true
}

} // verus!
