//! The reader's view of the shared trace: events polled from the ring are
//! folded into per-call-site heap statistics, a live-pointer map and a
//! list of CPU samples, ready for symbolization.
//!
//! An allocation credits its stack's key and remembers the pointer with
//! its full stack; a free looks the pointer up and debits the same key; a
//! CPU sample is kept whole. Keys of heap events skip the allocator's own
//! frames, exactly as the in-target recorder folds them.

use vstd::prelude::*;

use crate::keyfold::{spec_stack_key, stack_key, HEAP_KEY_SKIP};
use crate::ssr::copy_stack;
use crate::trace::{EventType, TraceEvent};
pub use crate::trace::EventType as TraceEventType;

verus! {

/// Aggregated heap statistics of one call site, as the reader accumulates
/// them between snapshots.
pub struct HeapStats {
    /// Bytes currently live (may dip negative transiently when a free's
    /// matching allocation predates the reader).
    pub live_bytes: i64,
    /// Allocations seen.
    pub total_allocs: u64,
    /// Frees seen.
    pub total_frees: u64,
    /// Bytes allocated.
    pub total_alloc_bytes: u64,
    /// Bytes freed.
    pub total_free_bytes: u64,
}

/// One CPU sample, kept whole for symbolization.
pub struct CpuSample {
    /// Nanoseconds since recording started.
    pub timestamp: u64,
    /// The captured stack, sample site first.
    pub stack: Vec<u64>,
}

/// The reader-side aggregation state.
pub struct ShmHeapSampler {
    /// Per-key heap statistics.
    pub heap_stats: Vec<(u64, HeapStats)>,
    /// Live pointers, with the size and full stack of their allocation.
    pub live_allocs: Vec<(u64, u64, Vec<u64>)>,
    /// CPU samples collected since the last drain.
    pub cpu_samples: Vec<CpuSample>,
    /// The writer index up to which events were consumed.
    pub last_read_index: u64,
    /// The process the shared object belongs to.
    pub target_pid: u32,
}

/// The statistics a key row sequence carries for one key (zeros when
/// absent; rows are kept unique).
pub open spec fn stats_row_for(rows: Seq<(u64, HeapStats)>, key: u64, i: int) -> HeapStats
    decreases rows.len() - i,
{
    if i < 0 || i >= rows.len() {
        HeapStats {
            live_bytes: 0,
            total_allocs: 0,
            total_frees: 0,
            total_alloc_bytes: 0,
            total_free_bytes: 0,
        }
    } else if rows[i].0 == key {
        rows[i].1
    } else {
        stats_row_for(rows, key, i + 1)
    }
}

/// The index of the live entry for a pointer, if any.
pub open spec fn spec_live_lookup(rows: Seq<(u64, u64, Vec<u64>)>, ptr: u64, i: int) -> Option<int>
    decreases rows.len() - i,
{
    if i < 0 || i >= rows.len() {
        None
    } else if rows[i].0 == ptr {
        Some(i)
    } else {
        spec_live_lookup(rows, ptr, i + 1)
    }
}

/// Some statistics row carries this key.
pub open spec fn stats_has_key(rows: Seq<(u64, HeapStats)>, k: u64) -> bool {
    exists|j: int| 0 <= j < rows.len() && (#[trigger] rows[j]).0 == k
}

/// Saturating signed subtraction, as a specification value.
pub open spec fn sat_sub_i64(a: i64, b: i64) -> i64 {
    if a - b > i64::MAX {
        i64::MAX
    } else if a - b < i64::MIN {
        i64::MIN
    } else {
        (a - b) as i64
    }
}

/// An unsigned size clamped into the signed byte counters.
pub open spec fn spec_clamp_i64(v: u64) -> i64 {
    if v <= i64::MAX {
        v as i64
    } else {
        i64::MAX
    }
}

/// One snapshot's per-key statistics never fall behind an earlier one:
/// every monotonic counter of every key only grows.
pub open spec fn stats_monotonic(a: Seq<(u64, HeapStats)>, b: Seq<(u64, HeapStats)>) -> bool {
    forall|k: u64|
        {
            &&& (#[trigger] stats_row_for(b, k, 0)).total_allocs >= stats_row_for(a, k, 0).total_allocs
            &&& stats_row_for(b, k, 0).total_frees >= stats_row_for(a, k, 0).total_frees
            &&& stats_row_for(b, k, 0).total_alloc_bytes >= stats_row_for(a, k, 0).total_alloc_bytes
            &&& stats_row_for(b, k, 0).total_free_bytes >= stats_row_for(a, k, 0).total_free_bytes
        }
}

/// Some inline-stack row carries this key.
pub open spec fn inline_has_key(rows: Seq<(u64, Vec<u64>)>, k: u64) -> bool {
    exists|i: int| 0 <= i < rows.len() && (#[trigger] rows[i]).0 == k
}

/// An inline-stack row is genuine: some live allocation has exactly this
/// stack, and the row's key is that stack's heap key.
pub open spec fn inline_entry_ok(live: Seq<(u64, u64, Vec<u64>)>, e: (u64, Vec<u64>)) -> bool {
    exists|j: int|
        0 <= j < live.len() && e.0 == spec_stack_key(
            (#[trigger] live[j]).2@,
            HEAP_KEY_SKIP as int,
        ) && e.1@ == live[j].2@
}

impl ShmHeapSampler {
    /// Key rows are unique, and pointers are tracked at most once.
    pub open spec fn wf(self) -> bool {
        &&& forall|i: int, j: int|
            0 <= i < j < self.heap_stats@.len() ==> (#[trigger] self.heap_stats@[i]).0 != (
            #[trigger] self.heap_stats@[j]).0
        &&& forall|i: int, j: int|
            0 <= i < j < self.live_allocs@.len() ==> (#[trigger] self.live_allocs@[i]).0 != (
            #[trigger] self.live_allocs@[j]).0
    }

    /// An empty aggregation state, starting at the writer's current index
    /// so only new events are consumed.
    pub fn new(target_pid: u32, start_index: u64) -> (s: ShmHeapSampler)
        ensures
            s.wf(),
            s.heap_stats@.len() == 0,
            s.live_allocs@.len() == 0,
            s.cpu_samples@.len() == 0,
            s.last_read_index == start_index,
            s.target_pid == target_pid,
    {
        ShmHeapSampler {
            heap_stats: Vec::new(),
            live_allocs: Vec::new(),
            cpu_samples: Vec::new(),
            last_read_index: start_index,
            target_pid,
        }
    }

    /// Find the heap-stats row of a key.
    fn stats_index(&self, key: u64) -> (r: Option<usize>)
        ensures
            match r {
                Some(i) => i < self.heap_stats@.len() && self.heap_stats@[i as int].0 == key,
                None => forall|i: int|
                    0 <= i < self.heap_stats@.len() ==> (#[trigger] self.heap_stats@[i]).0 != key,
            },
    {
        let mut i: usize = 0;
        while i < self.heap_stats.len()
            invariant
                i <= self.heap_stats@.len(),
                forall|j: int| 0 <= j < i ==> (#[trigger] self.heap_stats@[j]).0 != key,
            decreases self.heap_stats@.len() - i,
        {
            if self.heap_stats[i].0 == key {
                return Some(i);
            }
            i += 1;
        }
        None
    }

    /// Find the live entry of a pointer.
    fn live_index(&self, ptr: u64) -> (r: Option<usize>)
        ensures
            match r {
                Some(i) => i < self.live_allocs@.len() && self.live_allocs@[i as int].0 == ptr,
                None => forall|i: int|
                    0 <= i < self.live_allocs@.len() ==> (#[trigger] self.live_allocs@[i]).0 != ptr,
            },
    {
        let mut i: usize = 0;
        while i < self.live_allocs.len()
            invariant
                i <= self.live_allocs@.len(),
                forall|j: int| 0 <= j < i ==> (#[trigger] self.live_allocs@[j]).0 != ptr,
            decreases self.live_allocs@.len() - i,
        {
            if self.live_allocs[i].0 == ptr {
                return Some(i);
            }
            i += 1;
        }
        None
    }

    /// Fold one polled event into the aggregation state.
    ///
    /// An allocation with a non-empty stack credits its heap key and
    /// remembers the pointer (an allocation of a pointer already live
    /// replaces the stale mapping, whose free was missed); a free of a
    /// tracked pointer debits the recorded size from the recorded key and
    /// forgets the pointer, while an untracked free is a no-op; a CPU
    /// sample is appended whole.
    pub fn apply_event(&mut self, event: &TraceEvent)
        requires
            old(self).wf(),
        ensures
            final(self).wf(),
            final(self).last_read_index == old(self).last_read_index,
            final(self).target_pid == old(self).target_pid,
            event.event_type is CpuSample ==> final(self).cpu_samples@.len() == old(self).cpu_samples@.len() + 1 && final(self).cpu_samples@.last().timestamp
                == event.timestamp && final(self).cpu_samples@.last().stack@ == event.stack@
                && final(self).heap_stats@ == old(self).heap_stats@ && final(self).live_allocs@
                == old(self).live_allocs@,
            !(event.event_type is CpuSample) ==> final(self).cpu_samples@ == old(self).cpu_samples@,
            event.event_type is Alloc && event.stack@.len() > 0 ==> {
                let key = spec_stack_key(event.stack@, HEAP_KEY_SKIP as int);
                &&& stats_row_for(final(self).heap_stats@, key, 0).total_allocs
                    == crate::store::sat_add_u64(
                    stats_row_for(old(self).heap_stats@, key, 0).total_allocs,
                    1,
                )
                &&& stats_row_for(final(self).heap_stats@, key, 0).total_alloc_bytes
                    == crate::store::sat_add_u64(
                    stats_row_for(old(self).heap_stats@, key, 0).total_alloc_bytes,
                    event.size,
                )
                &&& stats_row_for(final(self).heap_stats@, key, 0).live_bytes
                    == crate::store::sat_add_i64(
                    stats_row_for(old(self).heap_stats@, key, 0).live_bytes,
                    spec_clamp_i64(event.size),
                )
                &&& stats_row_for(final(self).heap_stats@, key, 0).total_frees == stats_row_for(
                    old(self).heap_stats@,
                    key,
                    0,
                ).total_frees
                &&& stats_row_for(final(self).heap_stats@, key, 0).total_free_bytes
                    == stats_row_for(old(self).heap_stats@, key, 0).total_free_bytes
                &&& (forall|k2: u64|
                    k2 != key ==> #[trigger] stats_row_for(final(self).heap_stats@, k2, 0)
                        == stats_row_for(old(self).heap_stats@, k2, 0))
                &&& spec_live_lookup(final(self).live_allocs@, event.ptr, 0) is Some
                &&& {
                    let li = spec_live_lookup(final(self).live_allocs@, event.ptr, 0)->Some_0;
                    final(self).live_allocs@[li].1 == event.size && final(self).live_allocs@[
                        li
                    ].2@ == event.stack@
                }
            },
            event.event_type is Dealloc && spec_live_lookup(old(self).live_allocs@, event.ptr, 0)
                is None ==> final(self).heap_stats@ == old(self).heap_stats@ && final(self).live_allocs@ == old(self).live_allocs@,
            event.event_type is Dealloc ==> spec_live_lookup(
                final(self).live_allocs@,
                event.ptr,
                0,
            ) is None,
            event.event_type is Dealloc && spec_live_lookup(old(self).live_allocs@, event.ptr, 0)
                is Some ==> {
                let li = spec_live_lookup(old(self).live_allocs@, event.ptr, 0)->Some_0;
                let freed = old(self).live_allocs@[li].1;
                let st = old(self).live_allocs@[li].2@;
                let key = spec_stack_key(st, HEAP_KEY_SKIP as int);
                &&& (st.len() == 0 || !stats_has_key(old(self).heap_stats@, key) ==> final(self).heap_stats@ == old(self).heap_stats@)
                &&& (st.len() > 0 && stats_has_key(old(self).heap_stats@, key) ==> {
                    &&& stats_row_for(final(self).heap_stats@, key, 0).total_frees
                        == crate::store::sat_add_u64(
                        stats_row_for(old(self).heap_stats@, key, 0).total_frees,
                        1,
                    )
                    &&& stats_row_for(final(self).heap_stats@, key, 0).total_free_bytes
                        == crate::store::sat_add_u64(
                        stats_row_for(old(self).heap_stats@, key, 0).total_free_bytes,
                        freed,
                    )
                    &&& stats_row_for(final(self).heap_stats@, key, 0).live_bytes == sat_sub_i64(
                        stats_row_for(old(self).heap_stats@, key, 0).live_bytes,
                        spec_clamp_i64(freed),
                    )
                    &&& stats_row_for(final(self).heap_stats@, key, 0).total_allocs
                        == stats_row_for(old(self).heap_stats@, key, 0).total_allocs
                    &&& stats_row_for(final(self).heap_stats@, key, 0).total_alloc_bytes
                        == stats_row_for(old(self).heap_stats@, key, 0).total_alloc_bytes
                    &&& (forall|k2: u64|
                        k2 != key ==> #[trigger] stats_row_for(final(self).heap_stats@, k2, 0)
                            == stats_row_for(old(self).heap_stats@, k2, 0))
                })
            },
            stats_monotonic(old(self).heap_stats@, final(self).heap_stats@),
    {
        match event.event_type {
            EventType::CpuSample => {
                let sample = CpuSample {
                    timestamp: event.timestamp,
                    stack: copy_stack(&event.stack),
                };
                self.cpu_samples.push(sample);
            },
            EventType::Alloc => {
                if event.stack.len() > 0 {
                    let key = stack_key(&event.stack, HEAP_KEY_SKIP);
                    let ghost pre = *self;
                    match self.stats_index(key) {
                        Some(i) => {
                            let s = &self.heap_stats[i].1;
                            let updated = HeapStats {
                                live_bytes: crate::store::i64_sat_add(
                                    s.live_bytes,
                                    clamp_to_i64(event.size),
                                ),
                                total_allocs: s.total_allocs.saturating_add(1),
                                total_frees: s.total_frees,
                                total_alloc_bytes: s.total_alloc_bytes.saturating_add(event.size),
                                total_free_bytes: s.total_free_bytes,
                            };
                            self.heap_stats.set(i, (key, updated));
                            proof {
                                lemma_stats_prefix(pre.heap_stats@, key, i as int);
                                lemma_stats_prefix(self.heap_stats@, key, i as int);
                                assert forall|a: int, b: int|
                                    0 <= a < b < self.heap_stats@.len() implies (
                                #[trigger] self.heap_stats@[a]).0 != (
                                #[trigger] self.heap_stats@[b]).0 by {
                                    assert(pre.heap_stats@[a].0 != pre.heap_stats@[b].0);
                                }
                                assert(self.heap_stats@ == pre.heap_stats@.update(
                                    i as int,
                                    (pre.heap_stats@[i as int].0, updated),
                                ));
                                assert forall|k2: u64|
                                    k2 != key implies #[trigger] stats_row_for(
                                    self.heap_stats@,
                                    k2,
                                    0,
                                ) == stats_row_for(pre.heap_stats@, k2, 0) by {
                                    lemma_stats_frame_update(
                                        pre.heap_stats@,
                                        i as int,
                                        updated,
                                        k2,
                                        0,
                                    );
                                }
                                lemma_stats_monotonic_update(
                                    pre.heap_stats@,
                                    self.heap_stats@,
                                    key,
                                );
                            }
                        },
                        None => {
                            let fresh = HeapStats {
                                live_bytes: clamp_to_i64(event.size),
                                total_allocs: 1,
                                total_frees: 0,
                                total_alloc_bytes: event.size,
                                total_free_bytes: 0,
                            };
                            let ghost hs_pre = self.heap_stats@;
                            self.heap_stats.push((key, fresh));
                            proof {
                                lemma_stats_lands_last(self.heap_stats@, key, 0);
                                lemma_stats_absent(hs_pre, key, 0);
                                assert(fresh.total_allocs == crate::store::sat_add_u64(0, 1));
                                assert(fresh.total_alloc_bytes == crate::store::sat_add_u64(
                                    0,
                                    event.size,
                                ));
                                assert(fresh.live_bytes == crate::store::sat_add_i64(
                                    0,
                                    spec_clamp_i64(event.size),
                                ));
                                assert forall|k2: u64|
                                    k2 != key implies #[trigger] stats_row_for(
                                    self.heap_stats@,
                                    k2,
                                    0,
                                ) == stats_row_for(hs_pre, k2, 0) by {
                                    lemma_stats_frame_push(hs_pre, key, fresh, k2, 0);
                                }
                                lemma_stats_monotonic_update(hs_pre, self.heap_stats@, key);
                            }
                        },
                    }
                    let stackcopy = copy_stack(&event.stack);
                    let ghost mid = *self;
                    match self.live_index(event.ptr) {
                        Some(i) => {
                            self.live_allocs.set(i, (event.ptr, event.size, stackcopy));
                            proof {
                                assert(self.live_allocs@[i as int].0 == event.ptr);
                                assert forall|a: int, b: int|
                                    0 <= a < b < self.live_allocs@.len() implies (
                                #[trigger] self.live_allocs@[a]).0 != (
                                #[trigger] self.live_allocs@[b]).0 by {
                                    assert(mid.live_allocs@[a].0 != mid.live_allocs@[b].0);
                                }
                                lemma_live_lookup_unique(self.live_allocs@, event.ptr, i as int);
                                assert(self.live_allocs@[i as int].1 == event.size
                                    && self.live_allocs@[i as int].2@ == event.stack@);
                            }
                        },
                        None => {
                            self.live_allocs.push((event.ptr, event.size, stackcopy));
                            proof {
                                assert(self.live_allocs@.last().0 == event.ptr);
                                assert forall|a: int, b: int|
                                    0 <= a < b < self.live_allocs@.len() implies (
                                #[trigger] self.live_allocs@[a]).0 != (
                                #[trigger] self.live_allocs@[b]).0 by {
                                    if b < mid.live_allocs@.len() {
                                        assert(mid.live_allocs@[a].0 != mid.live_allocs@[b].0);
                                    } else {
                                        assert(mid.live_allocs@[a].0 != event.ptr);
                                    }
                                }
                                lemma_live_lookup_unique(
                                    self.live_allocs@,
                                    event.ptr,
                                    self.live_allocs@.len() - 1,
                                );
                                assert(self.live_allocs@.last().1 == event.size
                                    && self.live_allocs@.last().2@ == event.stack@);
                            }
                        },
                    }
                }
            },
            EventType::Dealloc => {
                let ghost pre = *self;
                match self.live_index(event.ptr) {
                    Some(i) => {
                        proof {
                            lemma_live_lookup_unique(pre.live_allocs@, event.ptr, i as int);
                        }
                        let size = self.live_allocs[i].1;
                        let stack = copy_stack(&self.live_allocs[i].2);
                        self.live_allocs.remove(i);
                        proof {
                            assert forall|a: int, b: int|
                                0 <= a < b < self.live_allocs@.len() implies (
                            #[trigger] self.live_allocs@[a]).0 != (
                            #[trigger] self.live_allocs@[b]).0 by {
                                let a0 = if a < i {
                                    a
                                } else {
                                    a + 1
                                };
                                let b0 = if b < i {
                                    b
                                } else {
                                    b + 1
                                };
                                assert(self.live_allocs@[a] == pre.live_allocs@[a0]);
                                assert(self.live_allocs@[b] == pre.live_allocs@[b0]);
                                assert(pre.live_allocs@[a0].0 != pre.live_allocs@[b0].0);
                            }
                            lemma_live_gone(self.live_allocs@, pre.live_allocs@, event.ptr, i as int);
                        }
                        if stack.len() > 0 {
                            let key = stack_key(&stack, HEAP_KEY_SKIP);
                            let ghost mid = *self;
                            match self.stats_index(key) {
                                Some(si) => {
                                    let s = &self.heap_stats[si].1;
                                    let updated = HeapStats {
                                        live_bytes: i64_sat_sub(s.live_bytes, clamp_to_i64(size)),
                                        total_allocs: s.total_allocs,
                                        total_frees: s.total_frees.saturating_add(1),
                                        total_alloc_bytes: s.total_alloc_bytes,
                                        total_free_bytes: s.total_free_bytes.saturating_add(size),
                                    };
                                    self.heap_stats.set(si, (key, updated));
                                    proof {
                                        assert forall|a: int, b: int|
                                            0 <= a < b < self.heap_stats@.len() implies (
                                        #[trigger] self.heap_stats@[a]).0 != (
                                        #[trigger] self.heap_stats@[b]).0 by {
                                            assert(mid.heap_stats@[a].0 != mid.heap_stats@[b].0);
                                        }
                                        assert(mid.heap_stats@ == pre.heap_stats@);
                                        assert(stats_has_key(pre.heap_stats@, key)) by {
                                            assert(pre.heap_stats@[si as int].0 == key);
                                        }
                                        lemma_stats_prefix(pre.heap_stats@, key, si as int);
                                        lemma_stats_prefix(self.heap_stats@, key, si as int);
                                        assert(self.heap_stats@ == pre.heap_stats@.update(
                                            si as int,
                                            (pre.heap_stats@[si as int].0, updated),
                                        ));
                                        assert forall|k2: u64|
                                            k2 != key implies #[trigger] stats_row_for(
                                            self.heap_stats@,
                                            k2,
                                            0,
                                        ) == stats_row_for(pre.heap_stats@, k2, 0) by {
                                            lemma_stats_frame_update(
                                                pre.heap_stats@,
                                                si as int,
                                                updated,
                                                k2,
                                                0,
                                            );
                                        }
                                        lemma_stats_monotonic_update(
                                            pre.heap_stats@,
                                            self.heap_stats@,
                                            key,
                                        );
                                    }
                                },
                                None => {
                                    proof {
                                        assert(!stats_has_key(self.heap_stats@, key));
                                    }
                                },
                            }
                        }
                    },
                    None => {
                        proof {
                            lemma_live_none(self.live_allocs@, event.ptr, 0);
                        }
                    },
                }
            },
        }
    }

    /// Drain the collected CPU samples.
    pub fn read_cpu_samples(&mut self) -> (r: Vec<CpuSample>)
        requires
            old(self).wf(),
        ensures
            final(self).wf(),
            r@ == old(self).cpu_samples@,
            final(self).cpu_samples@.len() == 0,
            final(self).heap_stats@ == old(self).heap_stats@,
            final(self).live_allocs@ == old(self).live_allocs@,
            final(self).last_read_index == old(self).last_read_index,
    {
        let mut out: Vec<CpuSample> = Vec::new();
        core::mem::swap(&mut out, &mut self.cpu_samples);
        out
    }

    /// A copy of the per-key heap statistics.
    pub fn read_stats(&self) -> (r: Vec<(u64, HeapStats)>)
        ensures
            r@.len() == self.heap_stats@.len(),
            forall|i: int|
                0 <= i < r@.len() ==> #[trigger] r@[i] == self.heap_stats@[i],
    {
        let mut out: Vec<(u64, HeapStats)> = Vec::new();
        let mut i: usize = 0;
        while i < self.heap_stats.len()
            invariant
                i <= self.heap_stats@.len(),
                out@.len() == i,
                forall|j: int| 0 <= j < i ==> #[trigger] out@[j] == self.heap_stats@[j],
            decreases self.heap_stats@.len() - i,
        {
            let (k, s) = &self.heap_stats[i];
            out.push(
                (
                    *k,
                    HeapStats {
                        live_bytes: s.live_bytes,
                        total_allocs: s.total_allocs,
                        total_frees: s.total_frees,
                        total_alloc_bytes: s.total_alloc_bytes,
                        total_free_bytes: s.total_free_bytes,
                    },
                ),
            );
            i += 1;
        }
        out
    }

    /// The representative stacks of the live allocations: per heap key,
    /// the stack of the first live allocation that folds to it.
    pub fn read_inline_stacks(&self) -> (r: Vec<(u64, Vec<u64>)>)
        ensures
            forall|i: int, j: int|
                0 <= i < j < r@.len() ==> (#[trigger] r@[i]).0 != (#[trigger] r@[j]).0,
            forall|i: int|
                0 <= i < r@.len() ==> #[trigger] inline_entry_ok(self.live_allocs@, r@[i]),
            forall|i: int| 0 <= i < r@.len() ==> (#[trigger] r@[i]).1@.len() > 0,
            forall|j: int|
                0 <= j < self.live_allocs@.len() && (#[trigger] self.live_allocs@[j]).2@.len() > 0
                    ==> inline_has_key(
                    r@,
                    spec_stack_key(self.live_allocs@[j].2@, HEAP_KEY_SKIP as int),
                ),
    {
        let mut out: Vec<(u64, Vec<u64>)> = Vec::new();
        let mut i: usize = 0;
        while i < self.live_allocs.len()
            invariant
                i <= self.live_allocs@.len(),
                forall|a: int, b: int|
                    0 <= a < b < out@.len() ==> (#[trigger] out@[a]).0 != (#[trigger] out@[b]).0,
                forall|a: int|
                    0 <= a < out@.len() ==> #[trigger] inline_entry_ok(self.live_allocs@, out@[a]),
                forall|a: int| 0 <= a < out@.len() ==> (#[trigger] out@[a]).1@.len() > 0,
                forall|j: int|
                    0 <= j < i && (#[trigger] self.live_allocs@[j]).2@.len() > 0
                        ==> inline_has_key(
                        out@,
                        spec_stack_key(self.live_allocs@[j].2@, HEAP_KEY_SKIP as int),
                    ),
            decreases self.live_allocs@.len() - i,
        {
            let stack = &self.live_allocs[i].2;
            if stack.len() > 0 {
                let key = stack_key(stack, HEAP_KEY_SKIP);
                let mut seen = false;
                let mut a: usize = 0;
                while a < out.len()
                    invariant
                        a <= out@.len(),
                        seen == exists|b: int| 0 <= b < a && (#[trigger] out@[b]).0 == key,
                        i < self.live_allocs@.len(),
                        key == spec_stack_key(self.live_allocs@[i as int].2@, HEAP_KEY_SKIP as int),
                        stack@ == self.live_allocs@[i as int].2@,
                        forall|x: int, y: int|
                            0 <= x < y < out@.len() ==> (#[trigger] out@[x]).0 != (
                            #[trigger] out@[y]).0,
                        forall|x: int|
                            0 <= x < out@.len() ==> #[trigger] inline_entry_ok(
                                self.live_allocs@,
                                out@[x],
                            ),
                        forall|x: int| 0 <= x < out@.len() ==> (#[trigger] out@[x]).1@.len() > 0,
                        forall|j: int|
                            0 <= j < i && (#[trigger] self.live_allocs@[j]).2@.len() > 0
                                ==> inline_has_key(
                                out@,
                                spec_stack_key(self.live_allocs@[j].2@, HEAP_KEY_SKIP as int),
                            ),
                    decreases out@.len() - a,
                {
                    if out[a].0 == key {
                        proof {
                            assert(out@[a as int].0 == key);
                        }
                        seen = true;
                    }
                    a += 1;
                }
                if !seen {
                    let ghost out_pre = out@;
                    out.push((key, copy_stack(stack)));
                    proof {
                        assert(out@.last().0 == spec_stack_key(
                            self.live_allocs@[i as int].2@,
                            HEAP_KEY_SKIP as int,
                        ));
                        assert(out@.last().1@ == self.live_allocs@[i as int].2@);
                        assert forall|x: int|
                            0 <= x < out@.len() implies #[trigger] inline_entry_ok(
                            self.live_allocs@,
                            out@[x],
                        ) by {
                            if x < out_pre.len() {
                                assert(out@[x] == out_pre[x]);
                                assert(inline_entry_ok(self.live_allocs@, out_pre[x]));
                            } else {
                                assert(0 <= i < self.live_allocs@.len());
                                assert(out@[x].0 == spec_stack_key(
                                    self.live_allocs@[i as int].2@,
                                    HEAP_KEY_SKIP as int,
                                ) && out@[x].1@ == self.live_allocs@[i as int].2@);
                            }
                        }
                        assert forall|j: int|
                            0 <= j < i + 1 && (#[trigger] self.live_allocs@[j]).2@.len() > 0
                                implies inline_has_key(
                            out@,
                            spec_stack_key(self.live_allocs@[j].2@, HEAP_KEY_SKIP as int),
                        ) by {
                            if j < i {
                                let b = choose|b: int|
                                    0 <= b < out_pre.len() && (#[trigger] out_pre[b]).0
                                        == spec_stack_key(
                                        self.live_allocs@[j].2@,
                                        HEAP_KEY_SKIP as int,
                                    );
                                assert(out@[b].0 == spec_stack_key(
                                    self.live_allocs@[j].2@,
                                    HEAP_KEY_SKIP as int,
                                ));
                            } else {
                                assert(out@[out@.len() - 1].0 == spec_stack_key(
                                    self.live_allocs@[j].2@,
                                    HEAP_KEY_SKIP as int,
                                ));
                            }
                        }
                    }
                } else {
                    proof {
                        let b = choose|b: int| 0 <= b < out@.len() && (#[trigger] out@[b]).0 == key;
                        assert(inline_has_key(
                            out@,
                            spec_stack_key(self.live_allocs@[i as int].2@, HEAP_KEY_SKIP as int),
                        ));
                    }
                }
            }
            i += 1;
        }
        out
    }
}

/// Clamp an unsigned size into the signed byte counters.
pub fn clamp_to_i64(v: u64) -> (r: i64)
    ensures
        v <= i64::MAX ==> r == v,
        v > i64::MAX ==> r == i64::MAX,
{
    if v > 0x7fff_ffff_ffff_ffff {
        i64::MAX
    } else {
        v as i64
    }
}

/// Saturating `i64` subtraction.
pub fn i64_sat_sub(a: i64, b: i64) -> (r: i64)
    ensures
        r == if a - b > i64::MAX {
            i64::MAX
        } else if a - b < i64::MIN {
            i64::MIN
        } else {
            (a - b) as i64
        },
{
    if b >= 0 {
        if a < i64::MIN + b {
            i64::MIN
        } else {
            a - b
        }
    } else {
        if a > i64::MAX + b {
            i64::MAX
        } else {
            a - b
        }
    }
}

/// The lookup of a key lands on an updated row.
proof fn lemma_stats_prefix(rows: Seq<(u64, HeapStats)>, key: u64, i: int)
    requires
        0 <= i < rows.len(),
        rows[i].0 == key,
        forall|j: int, k: int| 0 <= j < k < rows.len() ==> (#[trigger] rows[j]).0 != (#[trigger] rows[k]).0,
    ensures
        stats_row_for(rows, key, 0) == rows[i].1,
{
    lemma_stats_skip(rows, key, 0, i);
}

/// Scanning past rows that miss the key does not change the lookup.
proof fn lemma_stats_skip(rows: Seq<(u64, HeapStats)>, key: u64, from: int, to: int)
    requires
        0 <= from <= to < rows.len(),
        rows[to].0 == key,
        forall|j: int, k: int| 0 <= j < k < rows.len() ==> (#[trigger] rows[j]).0 != (#[trigger] rows[k]).0,
    ensures
        stats_row_for(rows, key, from) == rows[to].1,
    decreases to - from,
{
    if from < to {
        assert(rows[from].0 != rows[to].0);
        lemma_stats_skip(rows, key, from + 1, to);
    }
}

/// A key in the last row is what the lookup finds when no earlier row has
/// it.
proof fn lemma_stats_lands_last(rows: Seq<(u64, HeapStats)>, key: u64, i: int)
    requires
        rows.len() >= 1,
        0 <= i <= rows.len() - 1,
        rows.last().0 == key,
        forall|j: int| 0 <= j < rows.len() - 1 ==> (#[trigger] rows[j]).0 != key,
    ensures
        stats_row_for(rows, key, i) == rows.last().1,
    decreases rows.len() - i,
{
    if i < rows.len() - 1 {
        lemma_stats_lands_last(rows, key, i + 1);
    }
}

/// A key in no row looks up to zeros.
proof fn lemma_stats_absent(rows: Seq<(u64, HeapStats)>, key: u64, i: int)
    requires
        0 <= i <= rows.len(),
        forall|j: int| 0 <= j < rows.len() ==> (#[trigger] rows[j]).0 != key,
    ensures
        stats_row_for(rows, key, i) == (HeapStats {
            live_bytes: 0,
            total_allocs: 0,
            total_frees: 0,
            total_alloc_bytes: 0,
            total_free_bytes: 0,
        }),
    decreases rows.len() - i,
{
    if i < rows.len() {
        lemma_stats_absent(rows, key, i + 1);
    }
}

/// A pointer at a known index is found by the lookup.
proof fn lemma_live_found(rows: Seq<(u64, u64, Vec<u64>)>, ptr: u64, i: int)
    requires
        0 <= i < rows.len(),
        rows[i].0 == ptr,
    ensures
        spec_live_lookup(rows, ptr, 0) is Some,
{
    lemma_live_found_from(rows, ptr, 0, i);
}

/// Helper: the lookup from any point at or before the index succeeds.
proof fn lemma_live_found_from(rows: Seq<(u64, u64, Vec<u64>)>, ptr: u64, from: int, i: int)
    requires
        0 <= from <= i < rows.len(),
        rows[i].0 == ptr,
    ensures
        spec_live_lookup(rows, ptr, from) is Some,
    decreases i - from,
{
    if from < i && rows[from].0 != ptr {
        lemma_live_found_from(rows, ptr, from + 1, i);
    }
}

/// Removing the unique row of a pointer leaves no row for it.
proof fn lemma_live_gone(
    rows: Seq<(u64, u64, Vec<u64>)>,
    pre: Seq<(u64, u64, Vec<u64>)>,
    ptr: u64,
    i: int,
)
    requires
        0 <= i < pre.len(),
        rows == pre.remove(i),
        pre[i].0 == ptr,
        forall|j: int, k: int| 0 <= j < k < pre.len() ==> (#[trigger] pre[j]).0 != (#[trigger] pre[k]).0,
    ensures
        spec_live_lookup(rows, ptr, 0) is None,
{
    assert forall|j: int| 0 <= j < rows.len() implies (#[trigger] rows[j]).0 != ptr by {
        if j < i {
            assert(rows[j] == pre[j]);
            assert(pre[j].0 != pre[i].0);
        } else {
            assert(rows[j] == pre[j + 1]);
            assert(pre[i].0 != pre[j + 1].0);
        }
    }
    lemma_live_none(rows, ptr, 0);
}

/// A change confined to one key's row, raising only that row's monotonic
/// counters, is a monotonic step.
proof fn lemma_stats_monotonic_update(
    pre: Seq<(u64, HeapStats)>,
    post: Seq<(u64, HeapStats)>,
    key: u64,
)
    requires
        forall|k2: u64|
            k2 != key ==> #[trigger] stats_row_for(post, k2, 0) == stats_row_for(pre, k2, 0),
        stats_row_for(post, key, 0).total_allocs >= stats_row_for(pre, key, 0).total_allocs,
        stats_row_for(post, key, 0).total_frees >= stats_row_for(pre, key, 0).total_frees,
        stats_row_for(post, key, 0).total_alloc_bytes >= stats_row_for(
            pre,
            key,
            0,
        ).total_alloc_bytes,
        stats_row_for(post, key, 0).total_free_bytes >= stats_row_for(pre, key, 0).total_free_bytes,
    ensures
        stats_monotonic(pre, post),
{
    assert forall|k: u64|
        {
            &&& (#[trigger] stats_row_for(post, k, 0)).total_allocs >= stats_row_for(
                pre,
                k,
                0,
            ).total_allocs
            &&& stats_row_for(post, k, 0).total_frees >= stats_row_for(pre, k, 0).total_frees
            &&& stats_row_for(post, k, 0).total_alloc_bytes >= stats_row_for(
                pre,
                k,
                0,
            ).total_alloc_bytes
            &&& stats_row_for(post, k, 0).total_free_bytes >= stats_row_for(
                pre,
                k,
                0,
            ).total_free_bytes
        } by {
        if k != key {
            assert(stats_row_for(post, k, 0) == stats_row_for(pre, k, 0));
        }
    }
}

/// With unique keys, changing only the value at one key's row leaves
/// every other key's lookup untouched.
proof fn lemma_stats_frame_update(
    a: Seq<(u64, HeapStats)>,
    i: int,
    v: HeapStats,
    k2: u64,
    j: int,
)
    requires
        0 <= i < a.len(),
        k2 != a[i].0,
        0 <= j <= a.len(),
    ensures
        stats_row_for(a.update(i, (a[i].0, v)), k2, j) == stats_row_for(a, k2, j),
    decreases a.len() - j,
{
    if j < a.len() {
        lemma_stats_frame_update(a, i, v, k2, j + 1);
    }
}

/// Appending a row with a fresh key leaves every other key's lookup
/// untouched.
proof fn lemma_stats_frame_push(a: Seq<(u64, HeapStats)>, k: u64, v: HeapStats, k2: u64, j: int)
    requires
        k2 != k,
        0 <= j <= a.len(),
    ensures
        stats_row_for(a.push((k, v)), k2, j) == stats_row_for(a, k2, j),
    decreases a.len() + 1 - j,
{
    let b = a.push((k, v));
    if j < a.len() {
        assert(b[j] == a[j]);
        lemma_stats_frame_push(a, k, v, k2, j + 1);
    } else {
        assert(stats_row_for(a, k2, j) == (HeapStats {
            live_bytes: 0,
            total_allocs: 0,
            total_frees: 0,
            total_alloc_bytes: 0,
            total_free_bytes: 0,
        }));
        assert(b[j].0 == k);
        assert(stats_row_for(b, k2, j) == stats_row_for(b, k2, j + 1));
        assert(stats_row_for(b, k2, j + 1) == (HeapStats {
            live_bytes: 0,
            total_allocs: 0,
            total_frees: 0,
            total_alloc_bytes: 0,
            total_free_bytes: 0,
        }));
    }
}

/// With unique pointers, the lookup of a pointer lands exactly on its row.
proof fn lemma_live_lookup_unique(rows: Seq<(u64, u64, Vec<u64>)>, ptr: u64, i: int)
    requires
        0 <= i < rows.len(),
        rows[i].0 == ptr,
        forall|a: int, b: int| 0 <= a < b < rows.len() ==> (#[trigger] rows[a]).0 != (#[trigger] rows[b]).0,
    ensures
        spec_live_lookup(rows, ptr, 0) == Some(i),
{
    lemma_live_lookup_unique_from(rows, ptr, 0, i);
}

/// Helper for the unique lookup above.
proof fn lemma_live_lookup_unique_from(rows: Seq<(u64, u64, Vec<u64>)>, ptr: u64, from: int, i: int)
    requires
        0 <= from <= i < rows.len(),
        rows[i].0 == ptr,
        forall|a: int, b: int| 0 <= a < b < rows.len() ==> (#[trigger] rows[a]).0 != (#[trigger] rows[b]).0,
    ensures
        spec_live_lookup(rows, ptr, from) == Some(i),
    decreases i - from,
{
    if from < i {
        assert(rows[from].0 != rows[i].0);
        lemma_live_lookup_unique_from(rows, ptr, from + 1, i);
    }
}

/// No row for a pointer means the lookup misses.
proof fn lemma_live_none(rows: Seq<(u64, u64, Vec<u64>)>, ptr: u64, i: int)
    requires
        0 <= i <= rows.len(),
        forall|j: int| 0 <= j < rows.len() ==> (#[trigger] rows[j]).0 != ptr,
    ensures
        spec_live_lookup(rows, ptr, i) is None,
    decreases rows.len() - i,
{
    if i < rows.len() {
        lemma_live_none(rows, ptr, i + 1);
    }
}

} // verus!
