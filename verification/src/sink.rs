use vstd::prelude::*;

verus! {

/// A destination for formatted log lines. Writing is output, so nothing is
/// stated of what a sink does with a line.
pub trait Sink: Send + Sync {
    fn write(&self, formatted: &str);

    fn flush(&self);
}

} // verus!
