use vstd::prelude::*;

verus! {

/// Controls overflow behavior of the per-thread SPSC queue.
#[derive(Debug, Clone, Copy, PartialEq, Eq, Structural)]
pub enum QueueMode {
    /// Grow the queue by chaining new ring buffers when full.
    /// Capacity doubles each growth up to 2 GiB. Never drops messages.
    UnboundedBlocking,
    /// Fixed-size queue that silently drops messages when full.
    BoundedDropping,
}

/// The capacity, in bytes, of a thread's first queue block.
pub const DEFAULT_START_CAPACITY: usize = 131_072;

/// The largest capacity, in bytes, that a queue block grows to.
pub const MAX_BLOCK_CAPACITY: usize = 2_147_483_648;

} // verus!
