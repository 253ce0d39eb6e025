//! Heap-sampler types shared with the probe-based fallback path, and the
//! compile-time capability switch.

use vstd::prelude::*;

verus! {

/// Aggregated heap statistics of one call site, as the probe-based
/// sampler reports them.
pub struct HeapStats {
    /// Bytes currently live.
    pub live_bytes: i64,
    /// Allocations seen.
    pub total_allocs: u64,
    /// Frees seen.
    pub total_frees: u64,
    /// Bytes allocated.
    pub total_alloc_bytes: u64,
    /// Bytes freed.
    pub total_free_bytes: u64,
}

/// The kind of one probe-based heap event.
#[derive(Clone, Copy, PartialEq, Eq, Structural)]
pub enum HeapEventType {
    /// An allocation.
    Alloc,
    /// A free.
    Free,
    /// A reallocation.
    Realloc,
}

/// One probe-based heap event.
pub struct HeapEvent {
    /// The sampled return address of the call site.
    pub user_addr: u64,
    /// The pointer involved.
    pub ptr: u64,
    /// The size, negative for shrinkage.
    pub size: i64,
    /// The event's kind.
    pub event_type: HeapEventType,
}

/// Whether the probe-based heap path was compiled in. This build records
/// heap activity through the shared region instead, so it never is.
pub fn heap_compiled() -> (r: bool)
    ensures
        r == false,
{
    false
}

} // verus!
