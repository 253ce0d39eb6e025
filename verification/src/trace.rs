//! The in-target trace surface: the shared ring buffer's header and event
//! layout, the plausibility rules of the frame-pointer walker, and the
//! wrapping write index.
//!
//! The buffer lives in a shared-memory object with a fixed magic and
//! version that the reader checks before attaching; events are written at
//! the wrapping write index. The stack walker only ever dereferences a
//! frame pointer that is non-null, eight-byte aligned and inside the
//! plausible user-space range, and only walks to strictly increasing frame
//! pointers, so arbitrary garbage in a racing target's memory can at worst
//! truncate a capture.

use vstd::prelude::*;

use crate::ssr::MAX_STACK_DEPTH;

verus! {

/// The shared object's magic word.
pub const TRACE_MAGIC: u64 = 0x5253_5052_4F46_5452;

/// The trace format version.
pub const TRACE_VERSION: u32 = 2;

/// Number of event slots in the ring.
pub const RING_BUFFER_SIZE: usize = 65536;

/// The kind of one trace event.
#[derive(Clone, Copy, PartialEq, Eq, Structural)]
pub enum EventType {
    /// An allocation returned this pointer.
    Alloc,
    /// This pointer was freed.
    Dealloc,
    /// The sampling timer fired.
    CpuSample,
}

/// One recorded event.
pub struct TraceEvent {
    /// The event's kind.
    pub event_type: EventType,
    /// The pointer, for heap events; 0 for CPU samples.
    pub ptr: u64,
    /// The allocation size, for heap events; 0 for CPU samples.
    pub size: u64,
    /// Nanoseconds since recording started.
    pub timestamp: u64,
    /// The captured return addresses, deepest callee first.
    pub stack: Vec<u64>,
}

/// The header at the start of the shared object.
pub struct RingBufferHeader {
    /// Identifies the format; must equal `TRACE_MAGIC`.
    pub magic: u64,
    /// The format version; must equal `TRACE_VERSION`.
    pub version: u32,
    /// Number of event slots that follow.
    pub capacity: u32,
    /// Total events ever written; the next slot is this modulo the
    /// capacity.
    pub write_index: u64,
    /// The process that created the object.
    pub pid: u32,
}

impl RingBufferHeader {
    /// A fresh header for a new recording.
    pub fn new(pid: u32, capacity: u32) -> (h: RingBufferHeader)
        ensures
            h.magic == TRACE_MAGIC,
            h.version == TRACE_VERSION,
            h.capacity == capacity,
            h.write_index == 0,
            h.pid == pid,
    {
        RingBufferHeader {
            magic: TRACE_MAGIC,
            version: TRACE_VERSION,
            capacity,
            write_index: 0,
            pid,
        }
    }

    /// May a reader attach to this header? Exactly when magic and version
    /// both match what this build writes.
    pub fn is_valid(&self) -> (r: bool)
        ensures
            r == (self.magic == TRACE_MAGIC && self.version == TRACE_VERSION),
    {
        self.magic == TRACE_MAGIC && self.version == TRACE_VERSION
    }
}

/// A frame pointer the walker may dereference: non-null, eight-byte
/// aligned, and inside the plausible user-space address range.
pub open spec fn spec_fp_plausible(fp: u64) -> bool {
    fp != 0 && fp % 8 == 0 && 0x1000 <= fp <= 0x7fff_ffff_ffff
}

/// Check a frame pointer before dereferencing it.
pub fn fp_plausible(fp: u64) -> (r: bool)
    ensures
        r == spec_fp_plausible(fp),
{
    fp != 0 && fp % 8 == 0 && 0x1000 <= fp && fp <= 0x7fff_ffff_ffff
}

/// May the walk continue from `fp` to the saved frame pointer `next`?
/// Only to a strictly greater one: stacks grow downward, so anything else
/// is a corrupted or bottom-of-stack frame.
pub fn walk_may_continue(fp: u64, next: u64) -> (r: bool)
    ensures
        r == (next > fp),
{
    next > fp
}

/// Whether one more frame may be appended to a capture of `depth` frames
/// whose next return address is `ret`: the depth cap is a hard bound and a
/// zero return address ends the walk.
pub fn walk_accepts_frame(depth: usize, ret: u64) -> (r: bool)
    ensures
        r == (depth < MAX_STACK_DEPTH && ret != 0),
{
    depth < MAX_STACK_DEPTH && ret != 0
}

/// The in-memory ring of events.
pub struct RingBuffer {
    /// The header, including the wrapping write index.
    pub header: RingBufferHeader,
    /// The event slots; length equals the header's capacity.
    pub events: Vec<TraceEvent>,
}

impl RingBuffer {
    /// Slot count matches the header and is positive.
    pub open spec fn wf(self) -> bool {
        self.events@.len() == self.header.capacity && self.header.capacity > 0
    }

    /// Write one event at the wrapping write index and advance it. The
    /// slot overwritten is exactly `write_index % capacity`; a reader that
    /// lags more than one full ring loses the overwritten events, which is
    /// the ring's deliberate trade.
    pub fn push_event(&mut self, event: TraceEvent)
        requires
            old(self).wf(),
            old(self).header.write_index < u64::MAX,
        ensures
            final(self).wf(),
            final(self).header.write_index == old(self).header.write_index + 1,
            final(self).header.magic == old(self).header.magic,
            final(self).header.version == old(self).header.version,
            final(self).header.capacity == old(self).header.capacity,
            final(self).header.pid == old(self).header.pid,
            final(self).events@ == old(self).events@.update(
                (old(self).header.write_index % (old(self).header.capacity as u64)) as int,
                event,
            ),
    {
        let slot = (self.header.write_index % (self.header.capacity as u64)) as usize;
        self.events.set(slot, event);
        self.header.write_index = self.header.write_index + 1;
    }
}

/// How many events a reader has pending, given the writer's current index
/// and its own last-read index: the difference, but never more than one
/// full ring, since older slots have been overwritten.
pub fn pending_events(current: u64, last_read: u64, ring: u64) -> (r: u64)
    requires
        ring > 0,
        last_read <= current,
    ensures
        r == if current - last_read < ring {
            (current - last_read) as u64
        } else {
            ring
        },
{
    let d = current - last_read;
    if d < ring {
        d
    } else {
        ring
    }
}

} // verus!
