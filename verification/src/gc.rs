//! Garbage-collector placeholder.
//!
//! The engine never allocates heap objects that would need collection, so the
//! collector is a permanent no-op. It exists as the seam where a future
//! allocator would hang.
use vstd::prelude::*;

verus! {

/// The (no-op) garbage collector.
pub struct GC {}

impl GC {
    /// Creates a collector. It owns no state.
    pub fn new() -> GC {
        GC {  }
    }

    /// Runs a collection cycle. The engine allocates nothing collectable,
    /// so this does nothing.
    pub fn collect(&self) {
    }
}

} // verus!
