//! The checkpoint store: a time series of symbolized aggregates.
//!
//! Samples arrive between checkpoints and are summed into per-location
//! pending maps, so that several stack keys resolving to one location
//! become one row. Flushing a checkpoint moves the pending rows, whole and
//! unchanged, into a new timestamped checkpoint; what a checkpoint holds is
//! therefore exactly what was pending at flush time. Locations are
//! registered once per distinct `(file, line, function)` triple and keyed
//! by a small integer everywhere else.

use vstd::prelude::*;

use crate::resolver::Location;

verus! {

/// The heap counters of one row.
pub struct HeapCounters {
    /// Bytes allocated in the window.
    pub alloc_bytes: i64,
    /// Bytes freed in the window.
    pub free_bytes: i64,
    /// Bytes live at the snapshot.
    pub live_bytes: i64,
    /// Allocations in the window.
    pub alloc_count: u64,
    /// Frees in the window.
    pub free_count: u64,
}

/// One committed checkpoint.
pub struct Checkpoint {
    /// Milliseconds since the recording started.
    pub timestamp_ms: u64,
    /// One CPU row per location: `(location id, samples)`.
    pub cpu: Vec<(usize, u64)>,
    /// One heap row per location.
    pub heap: Vec<(usize, HeapCounters)>,
}

/// The sum of the sample counts of a row sequence.
pub open spec fn cpu_total_of(rows: Seq<(usize, u64)>) -> int
    decreases rows.len(),
{
    if rows.len() == 0 {
        0
    } else {
        cpu_total_of(rows.drop_last()) + rows.last().1
    }
}

/// The count a row sequence carries for one location (0 when absent;
/// the first row wins, and rows are kept unique).
pub open spec fn cpu_count_for(rows: Seq<(usize, u64)>, id: int, i: int) -> u64
    decreases rows.len() - i,
{
    if i < 0 || i >= rows.len() {
        0u64
    } else if rows[i].0 == id {
        rows[i].1
    } else {
        cpu_count_for(rows, id, i + 1)
    }
}

/// The live bytes a heap row sequence carries for one location.
pub open spec fn live_for(rows: Seq<(usize, HeapCounters)>, id: int, i: int) -> i64
    decreases rows.len() - i,
{
    if i < 0 || i >= rows.len() {
        0i64
    } else if rows[i].0 == id {
        rows[i].1.live_bytes
    } else {
        live_for(rows, id, i + 1)
    }
}

/// Saturating addition on `u64`, as a specification value.
pub open spec fn sat_add_u64(a: u64, b: u64) -> u64 {
    if a + b > u64::MAX {
        u64::MAX
    } else {
        (a + b) as u64
    }
}

/// Saturating addition on `i64`, as a specification value.
pub open spec fn sat_add_i64(a: i64, b: i64) -> i64 {
    if a + b > i64::MAX {
        i64::MAX
    } else if a + b < i64::MIN {
        i64::MIN
    } else {
        (a + b) as i64
    }
}

/// Saturating `i64` addition, as executable code.
pub fn i64_sat_add(a: i64, b: i64) -> (r: i64)
    ensures
        r == sat_add_i64(a, b),
{
    if b >= 0 {
        if a > i64::MAX - b {
            i64::MAX
        } else {
            a + b
        }
    } else {
        if a < i64::MIN - b {
            i64::MIN
        } else {
            a + b
        }
    }
}

/// The store.
pub struct Storage {
    /// Registered locations; a location's id is its index here.
    pub locations: Vec<Location>,
    /// CPU samples pending for the next checkpoint.
    pub pending_cpu: Vec<(usize, u64)>,
    /// Heap rows pending for the next checkpoint.
    pub pending_heap: Vec<(usize, HeapCounters)>,
    /// Committed checkpoints, oldest first.
    pub checkpoints: Vec<Checkpoint>,
    /// Recording metadata, as key and value strings.
    pub meta: Vec<(String, String)>,
}

/// The identity of a location: its file, line and function (the column
/// does not distinguish rows).
pub open spec fn loc_key(l: Location) -> (Seq<char>, u32, Seq<char>) {
    (l.file@, l.line, l.function@)
}

impl Storage {
    /// Ids in a row sequence are in range and unique.
    pub open spec fn rows_wf<T>(self, rows: Seq<(usize, T)>) -> bool {
        &&& forall|i: int| 0 <= i < rows.len() ==> (#[trigger] rows[i]).0 < self.locations@.len()
        &&& forall|i: int, j: int|
            0 <= i < j < rows.len() ==> (#[trigger] rows[i]).0 != (#[trigger] rows[j]).0
    }

    /// Store well-formedness: pending rows are unique per location, and
    /// registered locations are distinct.
    pub open spec fn wf(self) -> bool {
        &&& self.rows_wf(self.pending_cpu@)
        &&& self.rows_wf(self.pending_heap@)
        &&& forall|i: int, j: int|
            0 <= i < j < self.locations@.len() ==> loc_key(#[trigger] self.locations@[i]) != loc_key(
                #[trigger] self.locations@[j],
            )
    }

    /// An empty store.
    pub fn new() -> (s: Storage)
        ensures
            s.wf(),
            s.locations@.len() == 0,
            s.pending_cpu@.len() == 0,
            s.pending_heap@.len() == 0,
            s.checkpoints@.len() == 0,
            s.meta@.len() == 0,
    {
        Storage {
            locations: Vec::new(),
            pending_cpu: Vec::new(),
            pending_heap: Vec::new(),
            checkpoints: Vec::new(),
            meta: Vec::new(),
        }
    }

    /// The first metadata row carrying this key.
    pub open spec fn spec_meta_lookup(meta: Seq<(String, String)>, key: Seq<char>, i: int) -> Option<int>
        decreases meta.len() - i,
    {
        if i < 0 || i >= meta.len() {
            None
        } else if meta[i].0@ == key {
            Some(i)
        } else {
            Storage::spec_meta_lookup(meta, key, i + 1)
        }
    }

    /// Record one metadata key: a present key has its value replaced in
    /// place, a fresh key is appended, and no other row moves.
    pub fn set_meta(&mut self, key: &str, value: &str)
        requires
            old(self).wf(),
        ensures
            final(self).wf(),
            final(self).locations@ == old(self).locations@,
            final(self).pending_cpu@ == old(self).pending_cpu@,
            final(self).pending_heap@ == old(self).pending_heap@,
            final(self).checkpoints@ == old(self).checkpoints@,
            match Storage::spec_meta_lookup(old(self).meta@, key@, 0) {
                Some(i) => {
                    &&& final(self).meta@.len() == old(self).meta@.len()
                    &&& final(self).meta@[i].0@ == key@
                    &&& final(self).meta@[i].1@ == value@
                    &&& forall|j: int|
                        0 <= j < old(self).meta@.len() && j != i ==> final(self).meta@[j] == old(self).meta@[j]
                },
                None => {
                    &&& final(self).meta@.len() == old(self).meta@.len() + 1
                    &&& final(self).meta@.last().0@ == key@
                    &&& final(self).meta@.last().1@ == value@
                    &&& forall|j: int|
                        0 <= j < old(self).meta@.len() ==> final(self).meta@[j] == old(self).meta@[j]
                },
            },
    {
        let mut i: usize = 0;
        while i < self.meta.len()
            invariant
                i <= self.meta@.len(),
                self == old(self),
                self.wf(),
                Storage::spec_meta_lookup(old(self).meta@, key@, 0) == Storage::spec_meta_lookup(
                    old(self).meta@,
                    key@,
                    i as int,
                ),
                forall|j: int| 0 <= j < i ==> (#[trigger] self.meta@[j]).0@ != key@,
            decreases self.meta@.len() - i,
        {
            if crate::strutil::str_eq(self.meta[i].0.as_str(), key) {
                proof {
                    assert(Storage::spec_meta_lookup(old(self).meta@, key@, i as int) == Some(
                        i as int,
                    ));
                }
                self.meta.set(i, (key.to_owned(), value.to_owned()));
                proof {
                    assert(self.meta@[i as int].0@ == key@ && self.meta@[i as int].1@ == value@);
                }
                return ;
            }
            i += 1;
        }
        proof {
            assert(Storage::spec_meta_lookup(old(self).meta@, key@, i as int) is None);
        }
        self.meta.push((key.to_owned(), value.to_owned()));
        proof {
            assert(self.meta@[self.meta@.len() - 1].0@ == key@);
        }
    }

    /// Look a metadata key up.
    pub fn get_meta(&self, key: &str) -> (r: Option<String>)
        ensures
            r is Some ==> exists|i: int|
                0 <= i < self.meta@.len() && (#[trigger] self.meta@[i]).0@ == key@
                    && self.meta@[i].1@ == r->Some_0@,
            r is None ==> forall|i: int|
                0 <= i < self.meta@.len() ==> (#[trigger] self.meta@[i]).0@ != key@,
    {
        let mut i: usize = 0;
        while i < self.meta.len()
            invariant
                i <= self.meta@.len(),
                forall|j: int| 0 <= j < i ==> (#[trigger] self.meta@[j]).0@ != key@,
            decreases self.meta@.len() - i,
        {
            if crate::strutil::str_eq(self.meta[i].0.as_str(), key) {
                return Some(self.meta[i].1.clone());
            }
            i += 1;
        }
        None
    }

    /// The id registered for a location's key, if any.
    pub open spec fn spec_loc_id(locs: Seq<Location>, k: (Seq<char>, u32, Seq<char>), i: int) -> Option<int>
        decreases locs.len() - i,
    {
        if i < 0 || i >= locs.len() {
            None
        } else if loc_key(locs[i]) == k {
            Some(i)
        } else {
            Storage::spec_loc_id(locs, k, i + 1)
        }
    }

    /// Resolve or register the id of a location: the one whose file, line
    /// and function already match, else a fresh id at the end.
    pub fn get_location_id(&mut self, location: &Location) -> (id: usize)
        requires
            old(self).wf(),
        ensures
            final(self).wf(),
            final(self).pending_cpu@ == old(self).pending_cpu@,
            final(self).pending_heap@ == old(self).pending_heap@,
            final(self).checkpoints@ == old(self).checkpoints@,
            id < final(self).locations@.len(),
            loc_key(final(self).locations@[id as int]) == loc_key(*location),
            match Storage::spec_loc_id(old(self).locations@, loc_key(*location), 0) {
                Some(i) => id == i && final(self).locations@ == old(self).locations@,
                None => id == old(self).locations@.len() && final(self).locations@.len() == old(self).locations@.len() + 1 && forall|j: int|
                    0 <= j < old(self).locations@.len() ==> final(self).locations@[j] == old(self).locations@[j],
            },
    {
        let mut i: usize = 0;
        while i < self.locations.len()
            invariant
                i <= self.locations@.len(),
                self == old(self),
                self.wf(),
                Storage::spec_loc_id(self.locations@, loc_key(*location), 0)
                    == Storage::spec_loc_id(self.locations@, loc_key(*location), i as int),
                forall|j: int|
                    0 <= j < i ==> loc_key(#[trigger] self.locations@[j]) != loc_key(*location),
            decreases self.locations@.len() - i,
        {
            if crate::strutil::str_eq(self.locations[i].file.as_str(), location.file.as_str())
                && self.locations[i].line == location.line && crate::strutil::str_eq(
                self.locations[i].function.as_str(),
                location.function.as_str(),
            ) {
                proof {
                    assert(loc_key(self.locations@[i as int]) == loc_key(*location));
                    assert(Storage::spec_loc_id(self.locations@, loc_key(*location), i as int)
                        == Some(i as int));
                }
                return i;
            }
            i += 1;
        }
        let id = self.locations.len();
        self.locations.push(location.duplicate());
        proof {
            assert(loc_key(self.locations@[id as int]) == loc_key(*location));
            assert forall|a: int, b: int|
                0 <= a < b < self.locations@.len() implies loc_key(
                #[trigger] self.locations@[a],
            ) != loc_key(#[trigger] self.locations@[b]) by {
                if b < id {
                    assert(loc_key(old(self).locations@[a]) != loc_key(old(self).locations@[b]));
                } else {
                    assert(loc_key(self.locations@[a]) != loc_key(*location));
                }
            }
        }
        id
    }

    /// Record one CPU sample for a location: its pending count rises by
    /// one. The sampled address plays no role in aggregation.
    pub fn record_cpu_sample(&mut self, _addr: u64, location: &Location) -> (id: usize)
        requires
            old(self).wf(),
        ensures
            final(self).wf(),
            final(self).checkpoints@ == old(self).checkpoints@,
            final(self).pending_heap@ == old(self).pending_heap@,
            id < final(self).locations@.len(),
            loc_key(final(self).locations@[id as int]) == loc_key(*location),
            cpu_total_of(final(self).pending_cpu@) == cpu_total_of(old(self).pending_cpu@) + (
            cpu_count_for(final(self).pending_cpu@, id as int, 0) - cpu_count_for(
                old(self).pending_cpu@,
                id as int,
                0,
            )),
            cpu_count_for(final(self).pending_cpu@, id as int, 0) == sat_add_u64(
                cpu_count_for(old(self).pending_cpu@, id as int, 0),
                1,
            ),
            forall|id2: int|
                id2 != id ==> #[trigger] cpu_count_for(final(self).pending_cpu@, id2, 0)
                    == cpu_count_for(old(self).pending_cpu@, id2, 0),
    {
        let id = self.get_location_id(location);
        let ghost mid = *self;
        let mut i: usize = 0;
        while i < self.pending_cpu.len()
            invariant
                i <= self.pending_cpu@.len(),
                *self == mid,
                mid.wf(),
                mid.checkpoints@ == old(self).checkpoints@,
                mid.pending_heap@ == old(self).pending_heap@,
                mid.pending_cpu@ == old(self).pending_cpu@,
                id < mid.locations@.len(),
                loc_key(mid.locations@[id as int]) == loc_key(*location),
                forall|j: int| 0 <= j < i ==> (#[trigger] self.pending_cpu@[j]).0 != id,
                cpu_count_for(self.pending_cpu@, id as int, 0) == cpu_count_for(
                    self.pending_cpu@,
                    id as int,
                    i as int,
                ),
            decreases self.pending_cpu@.len() - i,
        {
            if self.pending_cpu[i].0 == id {
                let c = self.pending_cpu[i].1;
                let ghost pre = self.pending_cpu@;
                self.pending_cpu.set(i, (id, c.saturating_add(1)));
                proof {
                    assert(cpu_count_for(pre, id as int, i as int) == c);
                    lemma_cpu_rows_update(pre, i as int, id as int, c.saturating_add(1));
                    lemma_cpu_count_prefix_skip(self.pending_cpu@, id as int, i as int);
                    lemma_cpu_count_prefix_skip(pre, id as int, i as int);
                    assert(self.pending_cpu@ == pre.update(
                        i as int,
                        (pre[i as int].0, c.saturating_add(1)),
                    ));
                    assert forall|id2: int|
                        id2 != id implies #[trigger] cpu_count_for(self.pending_cpu@, id2, 0)
                        == cpu_count_for(pre, id2, 0) by {
                        lemma_cpu_frame_update(pre, i as int, c.saturating_add(1), id2, 0);
                    }
                    assert forall|a: int, b: int|
                        0 <= a < b < self.pending_cpu@.len() implies (
                    #[trigger] self.pending_cpu@[a]).0 != (#[trigger] self.pending_cpu@[b]).0 by {
                        assert(pre[a].0 != pre[b].0);
                    }
                    assert forall|a: int|
                        0 <= a < self.pending_cpu@.len() implies (
                    #[trigger] self.pending_cpu@[a]).0 < self.locations@.len() by {
                        assert(pre[a].0 < mid.locations@.len());
                    }
                }
                return id;
            }
            i += 1;
        }
        let ghost pre = self.pending_cpu@;
        self.pending_cpu.push((id, 1));
        proof {
            assert(cpu_count_for(pre, id as int, 0) == cpu_count_for(pre, id as int, pre.len() as int));
            assert(cpu_count_for(pre, id as int, pre.len() as int) == 0);
            lemma_cpu_rows_push(pre, id, 1);
            assert forall|id2: int|
                id2 != id implies #[trigger] cpu_count_for(self.pending_cpu@, id2, 0)
                == cpu_count_for(pre, id2, 0) by {
                lemma_cpu_frame_push(pre, id, 1, id2, 0);
            }
            assert(cpu_total_of(self.pending_cpu@) == cpu_total_of(pre) + 1);
            assert forall|a: int, b: int|
                0 <= a < b < self.pending_cpu@.len() implies (#[trigger] self.pending_cpu@[a]).0
                != (#[trigger] self.pending_cpu@[b]).0 by {
                if b < pre.len() {
                    assert(pre[a].0 != pre[b].0);
                } else {
                    assert(self.pending_cpu@[b].0 == id);
                    assert(pre[a].0 != id);
                }
            }
        }
        id
    }

    /// Record one heap row for a location, summing into the pending row so
    /// that several stack keys resolving to one location merge.
    pub fn record_heap_sample(
        &mut self,
        location: &Location,
        alloc_bytes: i64,
        free_bytes: i64,
        live_bytes: i64,
        alloc_count: u64,
        free_count: u64,
    ) -> (id: usize)
        requires
            old(self).wf(),
        ensures
            final(self).wf(),
            final(self).checkpoints@ == old(self).checkpoints@,
            final(self).pending_cpu@ == old(self).pending_cpu@,
            id < final(self).locations@.len(),
            loc_key(final(self).locations@[id as int]) == loc_key(*location),
            exists|k: int|
                {
                    &&& 0 <= k < final(self).pending_heap@.len()
                    &&& (#[trigger] final(self).pending_heap@[k]).0 == id
                    &&& final(self).pending_heap@[k].1.alloc_bytes == sat_add_i64(
                        heap_row_for(old(self).pending_heap@, id as int, 0).alloc_bytes,
                        alloc_bytes,
                    )
                    &&& final(self).pending_heap@[k].1.free_bytes == sat_add_i64(
                        heap_row_for(old(self).pending_heap@, id as int, 0).free_bytes,
                        free_bytes,
                    )
                    &&& final(self).pending_heap@[k].1.live_bytes == sat_add_i64(
                        heap_row_for(old(self).pending_heap@, id as int, 0).live_bytes,
                        live_bytes,
                    )
                    &&& final(self).pending_heap@[k].1.alloc_count == sat_add_u64(
                        heap_row_for(old(self).pending_heap@, id as int, 0).alloc_count,
                        alloc_count,
                    )
                    &&& final(self).pending_heap@[k].1.free_count == sat_add_u64(
                        heap_row_for(old(self).pending_heap@, id as int, 0).free_count,
                        free_count,
                    )
                },
            forall|id2: int|
                id2 != id ==> #[trigger] heap_row_for(final(self).pending_heap@, id2, 0)
                    == heap_row_for(old(self).pending_heap@, id2, 0),
    {
        let id = self.get_location_id(location);
        let ghost mid = *self;
        let mut i: usize = 0;
        while i < self.pending_heap.len()
            invariant
                i <= self.pending_heap@.len(),
                *self == mid,
                mid.wf(),
                mid.checkpoints@ == old(self).checkpoints@,
                mid.pending_cpu@ == old(self).pending_cpu@,
                mid.pending_heap@ == old(self).pending_heap@,
                id < mid.locations@.len(),
                loc_key(mid.locations@[id as int]) == loc_key(*location),
                forall|j: int| 0 <= j < i ==> (#[trigger] self.pending_heap@[j]).0 != id,
                heap_row_for(self.pending_heap@, id as int, 0) == heap_row_for(
                    self.pending_heap@,
                    id as int,
                    i as int,
                ),
            decreases self.pending_heap@.len() - i,
        {
            if self.pending_heap[i].0 == id {
                let e = &self.pending_heap[i].1;
                let merged = HeapCounters {
                    alloc_bytes: i64_sat_add(e.alloc_bytes, alloc_bytes),
                    free_bytes: i64_sat_add(e.free_bytes, free_bytes),
                    live_bytes: i64_sat_add(e.live_bytes, live_bytes),
                    alloc_count: e.alloc_count.saturating_add(alloc_count),
                    free_count: e.free_count.saturating_add(free_count),
                };
                let ghost pre = self.pending_heap@;
                self.pending_heap.set(i, (id, merged));
                proof {
                    assert(self.pending_heap@[i as int].0 == id);
                    assert(heap_row_for(pre, id as int, i as int) == pre[i as int].1);
                    lemma_heap_row_prefix_skip(pre, id as int, i as int);
                    assert(self.pending_heap@ == pre.update(i as int, (pre[i as int].0, merged)));
                    assert forall|id2: int|
                        id2 != id implies #[trigger] heap_row_for(self.pending_heap@, id2, 0)
                        == heap_row_for(pre, id2, 0) by {
                        lemma_heap_frame_update(pre, i as int, merged, id2, 0);
                    }
                    assert forall|a: int, b: int|
                        0 <= a < b < self.pending_heap@.len() implies (
                    #[trigger] self.pending_heap@[a]).0 != (#[trigger] self.pending_heap@[b]).0 by {
                        assert(pre[a].0 != pre[b].0);
                    }
                    assert forall|a: int|
                        0 <= a < self.pending_heap@.len() implies (
                    #[trigger] self.pending_heap@[a]).0 < self.locations@.len() by {
                        assert(pre[a].0 < mid.locations@.len());
                    }
                }
                return id;
            }
            i += 1;
        }
        let fresh = HeapCounters {
            alloc_bytes: i64_sat_add(0, alloc_bytes),
            free_bytes: i64_sat_add(0, free_bytes),
            live_bytes: i64_sat_add(0, live_bytes),
            alloc_count: 0u64.saturating_add(alloc_count),
            free_count: 0u64.saturating_add(free_count),
        };
        let ghost pre = self.pending_heap@;
        self.pending_heap.push((id, fresh));
        proof {
            assert(heap_row_for(pre, id as int, 0) == heap_row_for(pre, id as int, pre.len() as int));
            assert(heap_row_for(pre, id as int, pre.len() as int) == zero_counters());
            assert(self.pending_heap@[pre.len() as int].0 == id);
            assert forall|id2: int|
                id2 != id implies #[trigger] heap_row_for(self.pending_heap@, id2, 0)
                == heap_row_for(pre, id2, 0) by {
                lemma_heap_frame_push(pre, id, fresh, id2, 0);
            }
            assert forall|a: int, b: int|
                0 <= a < b < self.pending_heap@.len() implies (#[trigger] self.pending_heap@[a]).0
                != (#[trigger] self.pending_heap@[b]).0 by {
                if b < pre.len() {
                    assert(pre[a].0 != pre[b].0);
                } else {
                    assert(self.pending_heap@[b].0 == id);
                    assert(pre[a].0 != id);
                }
            }
        }
        id
    }

    /// Commit the pending rows as one checkpoint. The new checkpoint holds
    /// exactly the rows that were pending — in particular, the sum of its
    /// per-location CPU counts equals the sum of the pending CPU counts at
    /// flush time — and the pending maps drain. With nothing pending the
    /// store is unchanged.
    pub fn flush_checkpoint(&mut self, timestamp_ms: u64)
        requires
            old(self).wf(),
        ensures
            final(self).wf(),
            final(self).locations@ == old(self).locations@,
            final(self).pending_cpu@.len() == 0 || final(self).checkpoints@ == old(self).checkpoints@,
            old(self).pending_cpu@.len() == 0 && old(self).pending_heap@.len() == 0 ==> final(self).checkpoints@ == old(self).checkpoints@ && final(self).pending_cpu@ == old(self).pending_cpu@ && final(self).pending_heap@ == old(self).pending_heap@,
            old(self).pending_cpu@.len() != 0 || old(self).pending_heap@.len() != 0 ==> {
                &&& final(self).checkpoints@.len() == old(self).checkpoints@.len() + 1
                &&& final(self).checkpoints@.subrange(0, old(self).checkpoints@.len() as int)
                    == old(self).checkpoints@
                &&& final(self).checkpoints@.last().timestamp_ms == timestamp_ms
                &&& final(self).checkpoints@.last().cpu@ == old(self).pending_cpu@
                &&& final(self).checkpoints@.last().heap@ == old(self).pending_heap@
                &&& cpu_total_of(final(self).checkpoints@.last().cpu@) == cpu_total_of(
                    old(self).pending_cpu@,
                )
                &&& final(self).pending_cpu@.len() == 0
                &&& final(self).pending_heap@.len() == 0
            },
    {
        if self.pending_cpu.len() == 0 && self.pending_heap.len() == 0 {
            return ;
        }
        let mut cpu: Vec<(usize, u64)> = Vec::new();
        let mut heap: Vec<(usize, HeapCounters)> = Vec::new();
        core::mem::swap(&mut cpu, &mut self.pending_cpu);
        core::mem::swap(&mut heap, &mut self.pending_heap);
        let cp = Checkpoint { timestamp_ms, cpu, heap };
        self.checkpoints.push(cp);
        proof {
            assert(self.checkpoints@.subrange(0, old(self).checkpoints@.len() as int) =~= old(self).checkpoints@);
        }
    }

    /// Number of committed checkpoints.
    pub fn checkpoint_count(&self) -> (n: usize)
        ensures
            n == self.checkpoints@.len(),
    {
        self.checkpoints.len()
    }

    /// The timestamp of the newest checkpoint.
    pub fn get_last_checkpoint_timestamp(&self) -> (r: Option<u64>)
        ensures
            match r {
                Some(t) => self.checkpoints@.len() > 0 && t == self.checkpoints@.last().timestamp_ms,
                None => self.checkpoints@.len() == 0,
            },
    {
        if self.checkpoints.len() == 0 {
            None
        } else {
            Some(self.checkpoints[self.checkpoints.len() - 1].timestamp_ms)
        }
    }

    /// The sum of all committed CPU sample counts, as long as it fits.
    pub fn total_samples(&self) -> (r: u64)
        ensures
            grand_cpu_total(self.checkpoints@) <= u64::MAX ==> r == grand_cpu_total(
                self.checkpoints@,
            ),
    {
        let mut total: u64 = 0;
        let mut i: usize = 0;
        proof {
            assert(self.checkpoints@.subrange(0, 0) =~= Seq::<Checkpoint>::empty());
            lemma_grand_prefix(self.checkpoints@, 0);
        }
        while i < self.checkpoints.len()
            invariant
                i <= self.checkpoints@.len(),
                grand_cpu_total(self.checkpoints@.subrange(0, i as int)) <= u64::MAX ==> total
                    == grand_cpu_total(self.checkpoints@.subrange(0, i as int)),
                total <= grand_cpu_total(self.checkpoints@.subrange(0, i as int)),
                grand_cpu_total(self.checkpoints@.subrange(0, i as int)) <= grand_cpu_total(
                    self.checkpoints@,
                ),
            decreases self.checkpoints@.len() - i,
        {
            let cp_total = checkpoint_cpu_total(&self.checkpoints[i]);
            proof {
                let pre = self.checkpoints@.subrange(0, i as int);
                let cur = self.checkpoints@.subrange(0, i + 1);
                assert(cur.drop_last() =~= pre);
                assert(cur.last() == self.checkpoints@[i as int]);
                lemma_grand_prefix(self.checkpoints@, i + 1);
                lemma_cpu_total_nonneg(self.checkpoints@[i as int].cpu@);
            }
            total = total.saturating_add(cp_total);
            i += 1;
        }
        proof {
            assert(self.checkpoints@.subrange(0, self.checkpoints@.len() as int)
                =~= self.checkpoints@);
        }
        total
    }
}

/// The zero heap counters.
pub open spec fn zero_counters() -> HeapCounters {
    HeapCounters { alloc_bytes: 0, free_bytes: 0, live_bytes: 0, alloc_count: 0, free_count: 0 }
}

/// The heap counters a row sequence carries for one location (zero when
/// absent; rows are kept unique).
pub open spec fn heap_row_for(rows: Seq<(usize, HeapCounters)>, id: int, i: int) -> HeapCounters
    decreases rows.len() - i,
{
    if i < 0 || i >= rows.len() {
        zero_counters()
    } else if rows[i].0 == id {
        rows[i].1
    } else {
        heap_row_for(rows, id, i + 1)
    }
}

/// The CPU total of one checkpoint, as executable code.
pub fn checkpoint_cpu_total(cp: &Checkpoint) -> (r: u64)
    ensures
        cpu_total_of(cp.cpu@) <= u64::MAX ==> r == cpu_total_of(cp.cpu@),
        r <= cpu_total_of(cp.cpu@),
{
    let mut total: u64 = 0;
    let mut i: usize = 0;
    while i < cp.cpu.len()
        invariant
            i <= cp.cpu@.len(),
            cpu_total_of(cp.cpu@.subrange(0, i as int)) <= u64::MAX ==> total == cpu_total_of(
                cp.cpu@.subrange(0, i as int),
            ),
            total <= cpu_total_of(cp.cpu@.subrange(0, i as int)),
        decreases cp.cpu@.len() - i,
    {
        proof {
            let pre = cp.cpu@.subrange(0, i as int);
            let cur = cp.cpu@.subrange(0, i + 1);
            assert(cur.drop_last() =~= pre);
            assert(cur.last() == cp.cpu@[i as int]);
            lemma_cpu_total_nonneg(pre);
        }
        total = total.saturating_add(cp.cpu[i].1);
        i += 1;
    }
    proof {
        assert(cp.cpu@.subrange(0, cp.cpu@.len() as int) =~= cp.cpu@);
    }
    total
}

/// The CPU grand total over a sequence of checkpoints.
pub open spec fn grand_cpu_total(cps: Seq<Checkpoint>) -> int
    decreases cps.len(),
{
    if cps.len() == 0 {
        0
    } else {
        grand_cpu_total(cps.drop_last()) + cpu_total_of(cps.last().cpu@)
    }
}

/// Every row's count is at most the sequence's total.
proof fn lemma_row_le_total(rows: Seq<(usize, u64)>, j: int)
    requires
        0 <= j < rows.len(),
    ensures
        rows[j].1 <= cpu_total_of(rows),
    decreases rows.len(),
{
    if j == rows.len() - 1 {
        lemma_cpu_total_nonneg(rows.drop_last());
    } else {
        assert(rows.drop_last()[j] == rows[j]);
        lemma_row_le_total(rows.drop_last(), j);
    }
}

/// A location's count never exceeds the checkpoint's total.
pub proof fn lemma_count_le_total(rows: Seq<(usize, u64)>, id: int, i: int)
    requires
        0 <= i <= rows.len(),
    ensures
        cpu_count_for(rows, id, i) <= cpu_total_of(rows),
    decreases rows.len() - i,
{
    if i < rows.len() {
        if rows[i].0 == id {
            lemma_row_le_total(rows, i);
        } else {
            lemma_count_le_total(rows, id, i + 1);
        }
    } else {
        lemma_cpu_total_nonneg(rows);
    }
}

/// Cumulative count totals are never negative.
pub proof fn lemma_count_totals_nonneg(cps: Seq<Checkpoint>, id: int)
    ensures
        loc_alloc_count_total(cps, id) >= 0,
        loc_free_count_total(cps, id) >= 0,
    decreases cps.len(),
{
    if cps.len() > 0 {
        lemma_count_totals_nonneg(cps.drop_last(), id);
    }
}

/// Row totals are never negative.
pub proof fn lemma_cpu_total_nonneg(rows: Seq<(usize, u64)>)
    ensures
        cpu_total_of(rows) >= 0,
    decreases rows.len(),
{
    if rows.len() > 0 {
        lemma_cpu_total_nonneg(rows.drop_last());
    }
}

/// Grand totals grow with more checkpoints.
pub proof fn lemma_grand_prefix(cps: Seq<Checkpoint>, i: int)
    requires
        0 <= i <= cps.len(),
    ensures
        grand_cpu_total(cps.subrange(0, i)) <= grand_cpu_total(cps),
        grand_cpu_total(cps.subrange(0, i)) >= 0,
    decreases cps.len() - i,
{
    if i < cps.len() {
        lemma_grand_prefix(cps, i + 1);
        let a = cps.subrange(0, i);
        let b = cps.subrange(0, i + 1);
        assert(b.drop_last() =~= a);
        lemma_cpu_total_nonneg(b.last().cpu@);
        lemma_grand_nonneg(a);
    } else {
        assert(cps.subrange(0, i) =~= cps);
        lemma_grand_nonneg(cps);
    }
}

/// Grand totals are never negative.
pub proof fn lemma_grand_nonneg(cps: Seq<Checkpoint>)
    ensures
        grand_cpu_total(cps) >= 0,
    decreases cps.len(),
{
    if cps.len() > 0 {
        lemma_grand_nonneg(cps.drop_last());
        lemma_cpu_total_nonneg(cps.last().cpu@);
    }
}

/// Updating a unique-id row in place moves the sequence total by exactly
/// the difference at that row.
pub proof fn lemma_cpu_rows_update(rows: Seq<(usize, u64)>, i: int, id: int, v: u64)
    requires
        0 <= i < rows.len(),
        rows[i].0 == id,
        forall|j: int, k: int| 0 <= j < k < rows.len() ==> (#[trigger] rows[j]).0 != (#[trigger] rows[k]).0,
    ensures
        cpu_total_of(rows.update(i, (rows[i].0, v))) == cpu_total_of(rows) - rows[i].1 + v,
        cpu_count_for(rows.update(i, (rows[i].0, v)), id, i) == v,
    decreases rows.len(),
{
    lemma_cpu_total_update(rows, i, v);
}

/// The total after changing one row's count.
proof fn lemma_cpu_total_update(rows: Seq<(usize, u64)>, i: int, v: u64)
    requires
        0 <= i < rows.len(),
    ensures
        cpu_total_of(rows.update(i, (rows[i].0, v))) == cpu_total_of(rows) - rows[i].1 + v,
    decreases rows.len(),
{
    let rows2 = rows.update(i, (rows[i].0, v));
    if i == rows.len() - 1 {
        assert(rows2.drop_last() =~= rows.drop_last());
        assert(rows2.last() == (rows[i].0, v));
    } else {
        assert(rows2.drop_last() =~= rows.drop_last().update(i, (rows[i].0, v)));
        assert(rows2.last() == rows.last());
        lemma_cpu_total_update(rows.drop_last(), i, v);
    }
}

/// Pushing a row adds its count to the total, and the new row is found at
/// its id.
pub proof fn lemma_cpu_rows_push(rows: Seq<(usize, u64)>, id: usize, v: u64)
    requires
        forall|j: int| 0 <= j < rows.len() ==> (#[trigger] rows[j]).0 != id,
    ensures
        cpu_total_of(rows.push((id, v))) == cpu_total_of(rows) + v,
        cpu_count_for(rows.push((id, v)), id as int, 0) == v,
{
    let rows2 = rows.push((id, v));
    assert(rows2.drop_last() =~= rows);
    assert(rows2.last() == (id, v));
    lemma_cpu_count_lands_on_new(rows2, id as int, 0);
}

/// Scanning rows whose earlier entries miss the id reaches the final row.
proof fn lemma_cpu_count_lands_on_new(rows: Seq<(usize, u64)>, id: int, i: int)
    requires
        0 <= i <= rows.len() - 1,
        rows.len() >= 1,
        rows.last().0 == id,
        forall|j: int| 0 <= j < rows.len() - 1 ==> (#[trigger] rows[j]).0 != id,
    ensures
        cpu_count_for(rows, id, i) == rows.last().1,
    decreases rows.len() - i,
{
    if i < rows.len() - 1 {
        lemma_cpu_count_lands_on_new(rows, id, i + 1);
    }
}

/// With the id kept, changing one row's count leaves every other id's
/// count untouched.
proof fn lemma_cpu_frame_update(rows: Seq<(usize, u64)>, i: int, v: u64, id2: int, j: int)
    requires
        0 <= i < rows.len(),
        id2 != rows[i].0,
        0 <= j <= rows.len(),
    ensures
        cpu_count_for(rows.update(i, (rows[i].0, v)), id2, j) == cpu_count_for(rows, id2, j),
    decreases rows.len() - j,
{
    if j < rows.len() {
        lemma_cpu_frame_update(rows, i, v, id2, j + 1);
    }
}

/// Appending a row for a fresh id leaves every other id's count untouched.
proof fn lemma_cpu_frame_push(rows: Seq<(usize, u64)>, id: usize, v: u64, id2: int, j: int)
    requires
        id2 != id,
        0 <= j <= rows.len(),
    ensures
        cpu_count_for(rows.push((id, v)), id2, j) == cpu_count_for(rows, id2, j),
    decreases rows.len() + 1 - j,
{
    let b = rows.push((id, v));
    if j < rows.len() {
        assert(b[j] == rows[j]);
        lemma_cpu_frame_push(rows, id, v, id2, j + 1);
    } else {
        assert(b[j].0 == id);
        assert(cpu_count_for(b, id2, j) == cpu_count_for(b, id2, j + 1));
    }
}

/// With the id kept, changing one heap row leaves every other id's row
/// untouched.
proof fn lemma_heap_frame_update(
    rows: Seq<(usize, HeapCounters)>,
    i: int,
    v: HeapCounters,
    id2: int,
    j: int,
)
    requires
        0 <= i < rows.len(),
        id2 != rows[i].0,
        0 <= j <= rows.len(),
    ensures
        heap_row_for(rows.update(i, (rows[i].0, v)), id2, j) == heap_row_for(rows, id2, j),
    decreases rows.len() - j,
{
    if j < rows.len() {
        lemma_heap_frame_update(rows, i, v, id2, j + 1);
    }
}

/// Appending a heap row for a fresh id leaves every other id's row
/// untouched.
proof fn lemma_heap_frame_push(
    rows: Seq<(usize, HeapCounters)>,
    id: usize,
    v: HeapCounters,
    id2: int,
    j: int,
)
    requires
        id2 != id,
        0 <= j <= rows.len(),
    ensures
        heap_row_for(rows.push((id, v)), id2, j) == heap_row_for(rows, id2, j),
    decreases rows.len() + 1 - j,
{
    let b = rows.push((id, v));
    if j < rows.len() {
        assert(b[j] == rows[j]);
        lemma_heap_frame_push(rows, id, v, id2, j + 1);
    } else {
        assert(b[j].0 == id);
        assert(heap_row_for(b, id2, j) == heap_row_for(b, id2, j + 1));
        assert(heap_row_for(b, id2, j + 1) == zero_counters());
        assert(heap_row_for(rows, id2, j) == zero_counters());
    }
}

/// Counting from the front equals counting from beyond an updated index
/// when all earlier rows miss the id.
proof fn lemma_cpu_count_prefix_skip(rows: Seq<(usize, u64)>, id: int, i: int)
    requires
        0 <= i < rows.len(),
        forall|j: int| 0 <= j < i ==> (#[trigger] rows[j]).0 != id,
    ensures
        cpu_count_for(rows, id, 0) == cpu_count_for(rows, id, i),
    decreases i,
{
    if i > 0 {
        lemma_cpu_count_skip_one(rows, id, 0, i);
    }
}

/// Counting heap rows from the front equals counting from an index when
/// all earlier rows miss the id.
proof fn lemma_heap_row_prefix_skip(rows: Seq<(usize, HeapCounters)>, id: int, i: int)
    requires
        0 <= i < rows.len(),
        forall|j: int| 0 <= j < i ==> (#[trigger] rows[j]).0 != id,
    ensures
        heap_row_for(rows, id, 0) == heap_row_for(rows, id, i),
{
    lemma_heap_row_skip(rows, id, 0, i);
}

/// Skipping heap rows that miss the id leaves the lookup unchanged.
proof fn lemma_heap_row_skip(rows: Seq<(usize, HeapCounters)>, id: int, from: int, to: int)
    requires
        0 <= from <= to < rows.len(),
        forall|j: int| from <= j < to ==> (#[trigger] rows[j]).0 != id,
    ensures
        heap_row_for(rows, id, from) == heap_row_for(rows, id, to),
    decreases to - from,
{
    if from < to {
        lemma_cpu_count_skip_one_heap(rows, id, from + 1, to);
    }
}

/// Helper for the skip above.
proof fn lemma_cpu_count_skip_one_heap(rows: Seq<(usize, HeapCounters)>, id: int, from: int, to: int)
    requires
        0 <= from <= to < rows.len(),
        forall|j: int| from <= j < to ==> (#[trigger] rows[j]).0 != id,
    ensures
        heap_row_for(rows, id, from) == heap_row_for(rows, id, to),
    decreases to - from,
{
    if from < to {
        lemma_cpu_count_skip_one_heap(rows, id, from + 1, to);
    }
}

/// Skipping rows that miss the id leaves the count unchanged.
proof fn lemma_cpu_count_skip_one(rows: Seq<(usize, u64)>, id: int, from: int, to: int)
    requires
        0 <= from <= to < rows.len(),
        forall|j: int| from <= j < to ==> (#[trigger] rows[j]).0 != id,
    ensures
        cpu_count_for(rows, id, from) == cpu_count_for(rows, id, to),
    decreases to - from,
{
    if from < to {
        lemma_cpu_count_skip_one(rows, id, from + 1, to);
    }
}


/// One row of a top-CPU query: cumulative and latest-checkpoint counts for
/// a location.
pub struct CpuEntry {
    /// The location's id.
    pub location_id: usize,
    /// The location's file.
    pub file: String,
    /// The location's line.
    pub line: u32,
    /// The location's function.
    pub function: String,
    /// Samples over the whole recording.
    pub total_samples: u64,
    /// Samples in the newest checkpoint.
    pub instant_samples: u64,
}

/// One row of a top-heap query.
pub struct HeapEntry {
    /// The location's id.
    pub location_id: usize,
    /// The location's file.
    pub file: String,
    /// The location's line.
    pub line: u32,
    /// The location's function.
    pub function: String,
    /// Bytes live at the newest checkpoint.
    pub live_bytes: i64,
    /// Bytes allocated over the whole recording.
    pub total_alloc_bytes: i64,
    /// Bytes freed over the whole recording.
    pub total_free_bytes: i64,
    /// Allocations over the whole recording.
    pub alloc_count: u64,
    /// Frees over the whole recording.
    pub free_count: u64,
}

/// A location's CPU samples summed over all checkpoints.
pub open spec fn loc_cpu_total(cps: Seq<Checkpoint>, id: int) -> int
    decreases cps.len(),
{
    if cps.len() == 0 {
        0
    } else {
        loc_cpu_total(cps.drop_last(), id) + cpu_count_for(cps.last().cpu@, id, 0)
    }
}

/// Location totals are never negative.
pub proof fn lemma_loc_cpu_total_nonneg(cps: Seq<Checkpoint>, id: int)
    ensures
        loc_cpu_total(cps, id) >= 0,
    decreases cps.len(),
{
    if cps.len() > 0 {
        lemma_loc_cpu_total_nonneg(cps.drop_last(), id);
    }
}

impl Storage {
    /// A location's cumulative CPU total, saturating only past `u64::MAX`.
    fn cpu_total_for(&self, id: usize) -> (r: u64)
        ensures
            loc_cpu_total(self.checkpoints@, id as int) <= u64::MAX ==> r == loc_cpu_total(
                self.checkpoints@,
                id as int,
            ),
            r <= loc_cpu_total(self.checkpoints@, id as int),
    {
        let mut total: u64 = 0;
        let mut i: usize = 0;
        proof {
            assert(self.checkpoints@.subrange(0, 0) =~= Seq::<Checkpoint>::empty());
        }
        while i < self.checkpoints.len()
            invariant
                i <= self.checkpoints@.len(),
                loc_cpu_total(self.checkpoints@.subrange(0, i as int), id as int) <= u64::MAX
                    ==> total == loc_cpu_total(self.checkpoints@.subrange(0, i as int), id as int),
                total <= loc_cpu_total(self.checkpoints@.subrange(0, i as int), id as int),
            decreases self.checkpoints@.len() - i,
        {
            let c = cpu_count_lookup(&self.checkpoints[i].cpu, id);
            proof {
                let pre = self.checkpoints@.subrange(0, i as int);
                let cur = self.checkpoints@.subrange(0, i + 1);
                assert(cur.drop_last() =~= pre);
                assert(cur.last() == self.checkpoints@[i as int]);
                lemma_loc_cpu_total_nonneg(pre, id as int);
            }
            total = total.saturating_add(c);
            i += 1;
        }
        proof {
            assert(self.checkpoints@.subrange(0, self.checkpoints@.len() as int)
                =~= self.checkpoints@);
        }
        total
    }

    /// The top CPU consumers, at most `limit` rows, ordered by cumulative
    /// samples, highest first. With room for every location, every
    /// location appears; any location left out has no more samples than
    /// any row shown. Each row carries the exact cumulative total (as long
    /// as it fits in the counter) and the exact newest-checkpoint count.
    pub fn query_top_cpu(&self, limit: usize) -> (r: Vec<CpuEntry>)
        requires
            self.wf(),
        ensures
            r@.len() == if limit < self.locations@.len() {
                limit as int
            } else {
                self.locations@.len() as int
            },
            forall|k: int|
                0 <= k < r@.len() ==> {
                    let e = #[trigger] r@[k];
                    &&& e.location_id < self.locations@.len()
                    &&& e.file@ == self.locations@[e.location_id as int].file@
                    &&& e.line == self.locations@[e.location_id as int].line
                    &&& e.function@ == self.locations@[e.location_id as int].function@
                    &&& (loc_cpu_total(self.checkpoints@, e.location_id as int) <= u64::MAX
                        ==> e.total_samples == loc_cpu_total(
                        self.checkpoints@,
                        e.location_id as int,
                    ))
                    &&& (self.checkpoints@.len() > 0 ==> e.instant_samples == cpu_count_for(
                        self.checkpoints@.last().cpu@,
                        e.location_id as int,
                        0,
                    ))
                },
            forall|a: int, b: int|
                0 <= a < b < r@.len() ==> (#[trigger] r@[a]).total_samples >= (
                #[trigger] r@[b]).total_samples,
            forall|a: int, b: int|
                0 <= a < b < r@.len() ==> (#[trigger] r@[a]).location_id != (
                #[trigger] r@[b]).location_id,
            limit >= self.locations@.len() ==> forall|id: int|
                0 <= id < self.locations@.len() ==> #[trigger] has_row_for(r@, id),
    {
        let n = self.locations.len();
        let mut totals: Vec<u64> = Vec::new();
        let mut id: usize = 0;
        while id < n
            invariant
                id <= n,
                n == self.locations@.len(),
                self.wf(),
                totals@.len() == id,
                forall|k: int|
                    0 <= k < id ==> (loc_cpu_total(self.checkpoints@, k) <= u64::MAX ==> (
                    #[trigger] totals@[k]) == loc_cpu_total(self.checkpoints@, k)),
            decreases n - id,
        {
            let t = self.cpu_total_for(id);
            totals.push(t);
            id += 1;
        }
        let take = if limit < n {
            limit
        } else {
            n
        };
        let mut used: Vec<bool> = Vec::new();
        let mut u: usize = 0;
        while u < n
            invariant
                u <= n,
                used@.len() == u,
                forall|j: int| 0 <= j < u ==> !(#[trigger] used@[j]),
            decreases n - u,
        {
            used.push(false);
            u += 1;
        }
        proof {
            lemma_count_zero(used@, n as int);
        }
        let mut r: Vec<CpuEntry> = Vec::new();
        let mut k: usize = 0;
        while k < take
            invariant
                k <= take,
                take == if limit < self.locations@.len() {
                    limit as int
                } else {
                    self.locations@.len() as int
                },
                take <= n,
                n == self.locations@.len(),
                self.wf(),
                totals@.len() == n,
                used@.len() == n,
                forall|j: int|
                    0 <= j < n ==> (loc_cpu_total(self.checkpoints@, j) <= u64::MAX ==> (
                    #[trigger] totals@[j]) == loc_cpu_total(self.checkpoints@, j)),
                r@.len() == k,
                count_true(used@, n as int) == k,
                forall|a: int|
                    0 <= a < k ==> {
                        let e = #[trigger] r@[a];
                        &&& e.location_id < n
                        &&& used@[e.location_id as int]
                        &&& e.total_samples == totals@[e.location_id as int]
                        &&& e.file@ == self.locations@[e.location_id as int].file@
                        &&& e.line == self.locations@[e.location_id as int].line
                        &&& e.function@ == self.locations@[e.location_id as int].function@
                        &&& (self.checkpoints@.len() > 0 ==> e.instant_samples == cpu_count_for(
                            self.checkpoints@.last().cpu@,
                            e.location_id as int,
                            0,
                        ))
                    },
                forall|id2: int| #![trigger used@[id2]]
                    0 <= id2 < n && used@[id2] ==> exists|a: int|
                        0 <= a < r@.len() && (#[trigger] r@[a]).location_id == id2,
                forall|a: int, b: int|
                    0 <= a < b < k ==> (#[trigger] r@[a]).location_id != (
                    #[trigger] r@[b]).location_id,
                forall|a: int, id2: int|
                    0 <= a < k && 0 <= id2 < n && !used@[id2] ==> (#[trigger] r@[a]).total_samples
                        >= #[trigger] totals@[id2],
                forall|a: int, b: int|
                    0 <= a < b < k ==> (#[trigger] r@[a]).total_samples >= (
                    #[trigger] r@[b]).total_samples,
            decreases take - k,
        {
            proof {
                lemma_count_true_partial(used@, n as int);
            }
            let mut best: usize = 0;
            let mut found = false;
            let mut j: usize = 0;
            while j < n
                invariant
                    j <= n,
                    n == totals@.len(),
                    n == used@.len(),
                    found ==> best < n && !used@[best as int],
                    found ==> forall|m: int|
                        0 <= m < j && !used@[m] ==> totals@[best as int] >= #[trigger] totals@[m],
                    !found ==> forall|m: int| 0 <= m < j ==> #[trigger] used@[m],
                decreases n - j,
            {
                if !used[j] {
                    if !found || totals[j] > totals[best] {
                        best = j;
                    }
                    found = true;
                }
                j += 1;
            }
            proof {
                if !found {
                    assert(count_true(used@, n as int) == n) by {
                        lemma_count_all_true(used@, n as int);
                    }
                }
            }
            let loc = &self.locations[best];
            let instant = if self.checkpoints.len() > 0 {
                cpu_count_lookup(&self.checkpoints[self.checkpoints.len() - 1].cpu, best)
            } else {
                0
            };
            let entry = CpuEntry {
                location_id: best,
                file: loc.file.clone(),
                line: loc.line,
                function: loc.function.clone(),
                total_samples: totals[best],
                instant_samples: instant,
            };
            let ghost used_pre = used@;
            let ghost r_pre = r@;
            r.push(entry);
            used.set(best, true);
            proof {
                lemma_count_true_set(used_pre, best as int, n as int);
                assert forall|id2: int| #![trigger used@[id2]]
                    0 <= id2 < n && used@[id2] implies exists|a: int|
                    0 <= a < r@.len() && (#[trigger] r@[a]).location_id == id2 by {
                    if id2 == best {
                        assert(r@[r@.len() - 1].location_id == id2);
                    } else {
                        assert(used_pre[id2]);
                        let a = choose|a: int|
                            0 <= a < r_pre.len() && (#[trigger] r_pre[a]).location_id == id2;
                        assert(r@[a].location_id == id2);
                    }
                }
            }
            k += 1;
        }
        proof {
            if limit >= self.locations@.len() {
                assert(count_true(used@, n as int) == n);
                lemma_count_true_full(used@, n as int);
                assert forall|id2: int|
                    0 <= id2 < self.locations@.len() implies #[trigger] has_row_for(r@, id2) by {
                    assert(used@[id2]);
                    let a = choose|a: int|
                        0 <= a < r@.len() && (#[trigger] r@[a]).location_id == id2;
                    assert(0 <= a < r@.len() && r@[a].location_id == id2);
                }
            }
        }
        r
    }

    /// The top CPU consumers for a live view: identical rows, including
    /// the newest checkpoint's counts.
    pub fn query_top_cpu_live(&self, limit: usize) -> (r: Vec<CpuEntry>)
        requires
            self.wf(),
        ensures
            r@.len() == if limit < self.locations@.len() {
                limit as int
            } else {
                self.locations@.len() as int
            },
            forall|a: int, b: int|
                0 <= a < b < r@.len() ==> (#[trigger] r@[a]).total_samples >= (
                #[trigger] r@[b]).total_samples,
    {
        self.query_top_cpu(limit)
    }
}

/// Look one location's count up in a checkpoint's CPU rows.
pub fn cpu_count_lookup(rows: &Vec<(usize, u64)>, id: usize) -> (r: u64)
    ensures
        r == cpu_count_for(rows@, id as int, 0),
{
    let mut i: usize = 0;
    while i < rows.len()
        invariant
            i <= rows@.len(),
            cpu_count_for(rows@, id as int, 0) == cpu_count_for(rows@, id as int, i as int),
        decreases rows@.len() - i,
    {
        if rows[i].0 == id {
            return rows[i].1;
        }
        i += 1;
    }
    0
}

/// Look one location's heap row up in a checkpoint.
pub fn heap_row_lookup(rows: &Vec<(usize, HeapCounters)>, id: usize) -> (r: HeapCounters)
    ensures
        r == heap_row_for(rows@, id as int, 0),
{
    let mut i: usize = 0;
    while i < rows.len()
        invariant
            i <= rows@.len(),
            heap_row_for(rows@, id as int, 0) == heap_row_for(rows@, id as int, i as int),
        decreases rows@.len() - i,
    {
        if rows[i].0 == id {
            let e = &rows[i].1;
            return HeapCounters {
                alloc_bytes: e.alloc_bytes,
                free_bytes: e.free_bytes,
                live_bytes: e.live_bytes,
                alloc_count: e.alloc_count,
                free_count: e.free_count,
            };
        }
        i += 1;
    }
    HeapCounters { alloc_bytes: 0, free_bytes: 0, live_bytes: 0, alloc_count: 0, free_count: 0 }
}

/// Some row names this location.
pub open spec fn has_row_for(rows: Seq<CpuEntry>, id: int) -> bool {
    exists|k: int| 0 <= k < rows.len() && (#[trigger] rows[k]).location_id == id
}

/// The live-byte lookup agrees with the whole-row lookup.
pub proof fn lemma_live_matches_row(rows: Seq<(usize, HeapCounters)>, id: int, i: int)
    ensures
        live_for(rows, id, i) == heap_row_for(rows, id, i).live_bytes,
    decreases rows.len() - i,
{
    if 0 <= i < rows.len() && rows[i].0 != id {
        lemma_live_matches_row(rows, id, i + 1);
    }
}

/// Number of set flags among the first `n`.
pub open spec fn count_true(s: Seq<bool>, n: int) -> int
    decreases n,
{
    if n <= 0 {
        0int
    } else {
        count_true(s, n - 1) + if s[n - 1] {
            1int
        } else {
            0int
        }
    }
}

/// Flag counts never exceed the prefix length and never drop below 0.
pub proof fn lemma_count_true_bounds(s: Seq<bool>, n: int)
    requires
        0 <= n <= s.len(),
    ensures
        0 <= count_true(s, n) <= n,
    decreases n,
{
    if n > 0 {
        lemma_count_true_bounds(s, n - 1);
    }
}

/// Setting one clear flag raises the count by one.
pub proof fn lemma_count_true_set(s: Seq<bool>, i: int, n: int)
    requires
        0 <= i < n <= s.len(),
        !s[i],
    ensures
        count_true(s.update(i, true), n) == count_true(s, n) + 1,
    decreases n,
{
    if i == n - 1 {
        assert(forall|j: int| 0 <= j < n - 1 ==> s.update(i, true)[j] == s[j]);
        lemma_count_same(s, s.update(i, true), n - 1);
    } else {
        lemma_count_true_set(s, i, n - 1);
    }
}

/// Prefixes with equal flags have equal counts.
proof fn lemma_count_same(a: Seq<bool>, b: Seq<bool>, n: int)
    requires
        n <= a.len(),
        n <= b.len(),
        forall|j: int| 0 <= j < n ==> a[j] == b[j],
    ensures
        count_true(a, n) == count_true(b, n),
    decreases n,
{
    if n > 0 {
        lemma_count_same(a, b, n - 1);
    }
}

/// When every flag is counted, every flag is set.
pub proof fn lemma_count_true_full(s: Seq<bool>, n: int)
    requires
        0 <= n <= s.len(),
        count_true(s, n) == n,
    ensures
        forall|j: int| 0 <= j < n ==> s[j],
    decreases n,
{
    if n > 0 {
        lemma_count_true_bounds(s, n - 1);
        lemma_count_true_full(s, n - 1);
    }
}

/// All-clear flags count to zero.
pub proof fn lemma_count_zero(s: Seq<bool>, n: int)
    requires
        n <= s.len(),
        forall|j: int| 0 <= j < n ==> !(#[trigger] s[j]),
    ensures
        count_true(s, n) == 0,
    decreases n,
{
    if n > 0 {
        lemma_count_zero(s, n - 1);
    }
}

/// All-set flags count to the prefix length.
pub proof fn lemma_count_all_true(s: Seq<bool>, n: int)
    requires
        0 <= n <= s.len(),
        forall|j: int| 0 <= j < n ==> #[trigger] s[j],
    ensures
        count_true(s, n) == n,
    decreases n,
{
    if n > 0 {
        lemma_count_all_true(s, n - 1);
    }
}

/// A short count leaves some flag clear.
pub proof fn lemma_count_true_partial(s: Seq<bool>, n: int)
    requires
        0 <= n <= s.len(),
        count_true(s, n) < n,
    ensures
        exists|j: int| 0 <= j < n && !(#[trigger] s[j]),
    decreases n,
{
    if n > 0 {
        if s[n - 1] {
            lemma_count_true_partial(s, n - 1);
            let j = choose|j: int| 0 <= j < n - 1 && !s[j];
            assert(0 <= j < n && !s[j]);
        } else {
            assert(0 <= n - 1 < n && !s[n - 1]);
        }
    }
}

/// The largest value among the first `n` points whose timestamp lies in
/// `[bs, be)`; 0 when none does.
pub open spec fn bucket_max(points: Seq<(u64, u64)>, bs: int, be: int, n: int) -> u64
    decreases n,
{
    if n <= 0 {
        0u64
    } else {
        let m = bucket_max(points, bs, be, n - 1);
        if bs <= points[n - 1].0 < be && points[n - 1].1 > m {
            points[n - 1].1
        } else {
            m
        }
    }
}

/// The largest value among the first `n` points in the bucket, as
/// executable code.
pub fn bucket_max_scan(points: &Vec<(u64, u64)>, bs: u64, be: u64) -> (r: u64)
    ensures
        r == bucket_max(points@, bs as int, be as int, points@.len() as int),
{
    let mut m: u64 = 0;
    let mut i: usize = 0;
    while i < points.len()
        invariant
            i <= points@.len(),
            m == bucket_max(points@, bs as int, be as int, i as int),
        decreases points@.len() - i,
    {
        let (ts, v) = points[i];
        if bs <= ts && ts < be && v > m {
            m = v;
        }
        i += 1;
    }
    m
}

/// Aggregate a time series into `num_buckets` equal-width buckets over
/// `[start_ms, end_ms)`, taking the largest raw value per bucket, so that
/// zoomed-out views keep their peaks.
///
/// With a positive bucket width the result has exactly `num_buckets` rows
/// (0 for a bucket no point falls into), each keyed by its bucket's
/// midpoint, and every midpoint lies inside `[start_ms, end_ms)`. A
/// degenerate request (no buckets, an empty window, or more buckets than
/// milliseconds) yields no rows.
pub fn aggregate_buckets_max(
    points: &Vec<(u64, u64)>,
    start_ms: u64,
    end_ms: u64,
    num_buckets: usize,
) -> (r: Vec<(u64, u64)>)
    ensures
        ({
            let width = if num_buckets > 0 && start_ms < end_ms {
                ((end_ms - start_ms) as u64 / (num_buckets as u64)) as int
            } else {
                0
            };
            if width > 0 {
                &&& r@.len() == num_buckets
                &&& forall|j: int|
                    0 <= j < num_buckets ==> (#[trigger] r@[j]).0 == start_ms + j * width + width
                        / 2
                &&& forall|j: int|
                    0 <= j < num_buckets ==> start_ms <= (#[trigger] r@[j]).0 < end_ms
                &&& forall|j: int|
                    0 <= j < num_buckets ==> (#[trigger] r@[j]).1 == bucket_max(
                        points@,
                        start_ms + j * width,
                        start_ms + j * width + width,
                        points@.len() as int,
                    )
            } else {
                r@.len() == 0
            }
        }),
{
    if num_buckets == 0 || start_ms >= end_ms {
        return Vec::new();
    }
    let width = (end_ms - start_ms) / (num_buckets as u64);
    if width == 0 {
        return Vec::new();
    }
    let mut r: Vec<(u64, u64)> = Vec::new();
    let mut j: usize = 0;
    proof {
        let span = (end_ms - start_ms) as int;
        let nb = num_buckets as int;
        vstd::arithmetic::div_mod::lemma_fundamental_div_mod(span, nb);
        vstd::arithmetic::div_mod::lemma_mod_division_less_than_divisor(span, nb);
        assert(span == nb * (span / nb) + span % nb);
        assert((num_buckets as u64) * width <= end_ms - start_ms);
    }
    while j < num_buckets
        invariant
            j <= num_buckets,
            0 < width,
            start_ms < end_ms,
            (num_buckets as u64) * width <= end_ms - start_ms,
            r@.len() == j,
            forall|jj: int|
                0 <= jj < j ==> (#[trigger] r@[jj]).0 == start_ms + jj * width + width / 2,
            forall|jj: int| 0 <= jj < j ==> start_ms <= (#[trigger] r@[jj]).0 < end_ms,
            forall|jj: int|
                0 <= jj < j ==> (#[trigger] r@[jj]).1 == bucket_max(
                    points@,
                    start_ms + jj * width,
                    start_ms + jj * width + width,
                    points@.len() as int,
                ),
        decreases num_buckets - j,
    {
        proof {
            assert((j as u64) * width + width <= (num_buckets as u64) * width) by (nonlinear_arith)
                requires
                    j < num_buckets,
                    0 < width,
            ;
            assert((j as u64) * width >= 0) by (nonlinear_arith)
                requires
                    0 < width,
                    0 <= j,
            ;
        }
        let bs = start_ms + (j as u64) * width;
        let be = bs + width;
        let m = bucket_max_scan(points, bs, be);
        let mid = bs + width / 2;
        proof {
            assert(mid < be);
            assert(be <= end_ms);
        }
        r.push((mid, m));
        j += 1;
    }
    r
}

impl Storage {
    /// The CPU series of one location: for every checkpoint, its
    /// timestamp, the location's count there, and the checkpoint's total
    /// (for turning counts into shares).
    pub fn query_cpu_timeseries(&self, location_id: usize) -> (r: Vec<(u64, u64, u64)>)
        ensures
            r@.len() == self.checkpoints@.len(),
            forall|i: int|
                0 <= i < r@.len() ==> {
                    let cp = self.checkpoints@[i];
                    &&& (#[trigger] r@[i]).0 == cp.timestamp_ms
                    &&& r@[i].1 == cpu_count_for(cp.cpu@, location_id as int, 0)
                    &&& (cpu_total_of(cp.cpu@) <= u64::MAX ==> r@[i].2 == cpu_total_of(cp.cpu@))
                },
    {
        let mut r: Vec<(u64, u64, u64)> = Vec::new();
        let mut i: usize = 0;
        while i < self.checkpoints.len()
            invariant
                i <= self.checkpoints@.len(),
                r@.len() == i,
                forall|k: int|
                    0 <= k < i ==> {
                        let cp = self.checkpoints@[k];
                        &&& (#[trigger] r@[k]).0 == cp.timestamp_ms
                        &&& r@[k].1 == cpu_count_for(cp.cpu@, location_id as int, 0)
                        &&& (cpu_total_of(cp.cpu@) <= u64::MAX ==> r@[k].2 == cpu_total_of(
                            cp.cpu@,
                        ))
                    },
            decreases self.checkpoints@.len() - i,
        {
            let cp = &self.checkpoints[i];
            let c = cpu_count_lookup(&cp.cpu, location_id);
            let t = checkpoint_cpu_total(cp);
            r.push((cp.timestamp_ms, c, t));
            i += 1;
        }
        r
    }

    /// Every checkpoint's CPU total fits the sample counter, so shares
    /// are computed from exact totals.
    pub open spec fn cpu_totals_fit(self) -> bool {
        forall|i: int|
            0 <= i < self.checkpoints@.len() ==> cpu_total_of(
                (#[trigger] self.checkpoints@[i]).cpu@,
            ) <= u64::MAX
    }

    /// A location's share of one checkpoint, in hundredths of a percent,
    /// the fraction truncated; a checkpoint with no samples contributes 0.
    pub open spec fn spec_cpu_share(count: int, total: int) -> u64 {
        if total <= 0 {
            0u64
        } else {
            (count * 10000 / total) as u64
        }
    }

    /// The share series of a location: per checkpoint, its timestamp and
    /// the location's share there.
    pub open spec fn spec_share_series(self, id: int) -> Seq<(u64, u64)> {
        Seq::new(
            self.checkpoints@.len(),
            |i: int|
                (
                    self.checkpoints@[i].timestamp_ms,
                    Storage::spec_cpu_share(
                        cpu_count_for(self.checkpoints@[i].cpu@, id, 0) as int,
                        cpu_total_of(self.checkpoints@[i].cpu@),
                    ),
                ),
        )
    }

    /// One location's CPU share per checkpoint, in hundredths of a
    /// percent, bucketed over `[start_ms, end_ms)` with the largest share
    /// per bucket: exactly `num_buckets` rows keyed by their bucket
    /// midpoints, each value the largest share among the checkpoints
    /// falling in its bucket (0 for a bucket with none), as long as every
    /// checkpoint's total fits the sample counter.
    pub fn query_cpu_timeseries_aggregated(
        &self,
        location_id: usize,
        start_ms: u64,
        end_ms: u64,
        num_buckets: usize,
    ) -> (r: Vec<(u64, u64)>)
        ensures
            ({
                let width = if num_buckets > 0 && start_ms < end_ms {
                    ((end_ms - start_ms) as u64 / (num_buckets as u64)) as int
                } else {
                    0
                };
                width > 0 ==> r@.len() == num_buckets && (forall|j: int|
                    0 <= j < num_buckets ==> start_ms <= (#[trigger] r@[j]).0 < end_ms) && (
                forall|j: int|
                    0 <= j < num_buckets ==> (#[trigger] r@[j]).0 == start_ms + j * width + width
                        / 2) && (self.cpu_totals_fit() ==> forall|j: int|
                    0 <= j < num_buckets ==> (#[trigger] r@[j]).1 == bucket_max(
                        self.spec_share_series(location_id as int),
                        start_ms + j * width,
                        start_ms + j * width + width,
                        self.spec_share_series(location_id as int).len() as int,
                    ))
            }),
    {
        let series = self.query_cpu_timeseries(location_id);
        let mut points: Vec<(u64, u64)> = Vec::new();
        let mut i: usize = 0;
        while i < series.len()
            invariant
                i <= series@.len(),
                points@.len() == i,
                series@.len() == self.checkpoints@.len(),
                forall|k: int|
                    0 <= k < series@.len() ==> {
                        let cp = self.checkpoints@[k];
                        &&& (#[trigger] series@[k]).0 == cp.timestamp_ms
                        &&& series@[k].1 == cpu_count_for(cp.cpu@, location_id as int, 0)
                        &&& (cpu_total_of(cp.cpu@) <= u64::MAX ==> series@[k].2 == cpu_total_of(
                            cp.cpu@,
                        ))
                    },
                self.cpu_totals_fit() ==> forall|k: int|
                    0 <= k < i ==> #[trigger] points@[k] == self.spec_share_series(
                        location_id as int,
                    )[k],
            decreases series@.len() - i,
        {
            let (ts, c, t) = series[i];
            proof {
                lemma_count_le_total(self.checkpoints@[i as int].cpu@, location_id as int, 0);
            }
            let share: u64 = if t > 0 {
                (((c as u128) * 10000u128 / (t as u128)) as u64)
            } else {
                0
            };
            points.push((ts, share));
            proof {
                if self.cpu_totals_fit() {
                    assert(points@[i as int] == self.spec_share_series(location_id as int)[
                        i as int
                    ]);
                }
            }
            i += 1;
        }
        proof {
            if self.cpu_totals_fit() {
                assert(points@ =~= self.spec_share_series(location_id as int));
            }
        }
        aggregate_buckets_max(&points, start_ms, end_ms, num_buckets)
    }

    /// One location's live heap bytes per checkpoint (clamped at zero),
    /// bucketed over `[start_ms, end_ms)` with the largest value per
    /// bucket.
    pub fn query_heap_timeseries_aggregated(
        &self,
        location_id: usize,
        start_ms: u64,
        end_ms: u64,
        num_buckets: usize,
    ) -> (r: Vec<(u64, u64)>)
        ensures
            ({
                let width = if num_buckets > 0 && start_ms < end_ms {
                    ((end_ms - start_ms) as u64 / (num_buckets as u64)) as int
                } else {
                    0
                };
                if width > 0 {
                    &&& r@.len() == num_buckets
                    &&& (forall|j: int|
                        0 <= j < num_buckets ==> start_ms <= (#[trigger] r@[j]).0 < end_ms)
                    &&& forall|j: int|
                        0 <= j < num_buckets ==> (#[trigger] r@[j]).1 == bucket_max(
                            self.spec_live_series(location_id as int),
                            start_ms + j * width,
                            start_ms + j * width + width,
                            self.checkpoints@.len() as int,
                        )
                } else {
                    r@.len() == 0
                }
            }),
    {
        let points = self.live_series(location_id);
        aggregate_buckets_max(&points, start_ms, end_ms, num_buckets)
    }

    /// The live-byte series of a location: per checkpoint, its timestamp
    /// and the location's live bytes there, clamped at zero.
    pub open spec fn spec_live_series(self, id: int) -> Seq<(u64, u64)> {
        Seq::new(
            self.checkpoints@.len(),
            |i: int|
                (
                    self.checkpoints@[i].timestamp_ms,
                    if live_for(self.checkpoints@[i].heap@, id, 0) >= 0 {
                        live_for(self.checkpoints@[i].heap@, id, 0) as u64
                    } else {
                        0u64
                    },
                ),
        )
    }

    /// Collect one location's live-byte series.
    fn live_series(&self, location_id: usize) -> (r: Vec<(u64, u64)>)
        ensures
            r@ == self.spec_live_series(location_id as int),
    {
        let mut r: Vec<(u64, u64)> = Vec::new();
        let mut i: usize = 0;
        while i < self.checkpoints.len()
            invariant
                i <= self.checkpoints@.len(),
                r@.len() == i,
                forall|k: int|
                    0 <= k < i ==> #[trigger] r@[k] == self.spec_live_series(
                        location_id as int,
                    )[k],
            decreases self.checkpoints@.len() - i,
        {
            let cp = &self.checkpoints[i];
            let row = heap_row_lookup(&cp.heap, location_id);
            let live: u64 = if row.live_bytes >= 0 {
                row.live_bytes as u64
            } else {
                0
            };
            r.push((cp.timestamp_ms, live));
            proof {
                lemma_live_matches_row(cp.heap@, location_id as int, 0);
                assert(r@[i as int] == self.spec_live_series(location_id as int)[i as int]);
            }
            i += 1;
        }
        proof {
            assert(r@ =~= self.spec_live_series(location_id as int));
        }
        r
    }

    /// Sparkline series for a set of locations: the live bytes of each
    /// location at the last `num_points` checkpoints, oldest first, zero
    /// for a checkpoint where a location has no row, so all series have
    /// the same length.
    pub fn query_heap_sparklines_for_locations(
        &self,
        num_points: usize,
        location_ids: &Vec<usize>,
    ) -> (r: Vec<Vec<i64>>)
        ensures
            r@.len() == location_ids@.len(),
            forall|k: int|
                0 <= k < r@.len() ==> (#[trigger] r@[k])@.len() == if num_points
                    < self.checkpoints@.len() {
                    num_points as int
                } else {
                    self.checkpoints@.len() as int
                },
            forall|k: int, p: int| #![trigger r@[k]@[p]]
                0 <= k < r@.len() && 0 <= p < r@[k]@.len() ==> r@[k]@[p] == live_for(
                    self.checkpoints@[self.checkpoints@.len() - r@[k]@.len() + p].heap@,
                    location_ids@[k] as int,
                    0,
                ),
    {
        let total = self.checkpoints.len();
        let m = if num_points < total {
            num_points
        } else {
            total
        };
        let first = total - m;
        let mut r: Vec<Vec<i64>> = Vec::new();
        let mut k: usize = 0;
        while k < location_ids.len()
            invariant
                k <= location_ids@.len(),
                total == self.checkpoints@.len(),
                m == if num_points < total {
                    num_points as int
                } else {
                    total as int
                },
                first == total - m,
                r@.len() == k,
                forall|kk: int| 0 <= kk < k ==> (#[trigger] r@[kk])@.len() == m,
                forall|kk: int, p: int| #![trigger r@[kk]@[p]]
                    0 <= kk < k && 0 <= p < m ==> r@[kk]@[p] == live_for(
                        self.checkpoints@[first + p].heap@,
                        location_ids@[kk] as int,
                        0,
                    ),
            decreases location_ids@.len() - k,
        {
            let id = location_ids[k];
            let mut series: Vec<i64> = Vec::new();
            let mut p: usize = 0;
            while p < m
                invariant
                    p <= m,
                    m <= total,
                    total == self.checkpoints@.len(),
                    first == total - m,
                    series@.len() == p,
                    forall|q: int|
                        0 <= q < p ==> #[trigger] series@[q] == live_for(
                            self.checkpoints@[first + q].heap@,
                            id as int,
                            0,
                        ),
                decreases m - p,
            {
                let row = heap_row_lookup(&self.checkpoints[first + p].heap, id);
                proof {
                    lemma_live_matches_row(self.checkpoints@[first + p].heap@, id as int, 0);
                }
                series.push(row.live_bytes);
                p += 1;
            }
            r.push(series);
            k += 1;
        }
        r
    }
}


/// The heap ordering key: more live bytes first, cumulative allocation
/// breaking ties.
pub open spec fn heap_key_ge(a: (i64, i64), b: (i64, i64)) -> bool {
    a.0 > b.0 || (a.0 == b.0 && a.1 >= b.1)
}

/// A location's cumulative allocated bytes over all checkpoints.
pub open spec fn loc_alloc_total(cps: Seq<Checkpoint>, id: int) -> int
    decreases cps.len(),
{
    if cps.len() == 0 {
        0
    } else {
        loc_alloc_total(cps.drop_last(), id) + heap_row_for(cps.last().heap@, id, 0).alloc_bytes
    }
}

/// A location's cumulative freed bytes over all checkpoints.
pub open spec fn loc_free_total(cps: Seq<Checkpoint>, id: int) -> int
    decreases cps.len(),
{
    if cps.len() == 0 {
        0
    } else {
        loc_free_total(cps.drop_last(), id) + heap_row_for(cps.last().heap@, id, 0).free_bytes
    }
}

/// A location's cumulative allocation count over all checkpoints.
pub open spec fn loc_alloc_count_total(cps: Seq<Checkpoint>, id: int) -> int
    decreases cps.len(),
{
    if cps.len() == 0 {
        0
    } else {
        loc_alloc_count_total(cps.drop_last(), id) + heap_row_for(cps.last().heap@, id, 0).alloc_count
    }
}

/// A location's cumulative free count over all checkpoints.
pub open spec fn loc_free_count_total(cps: Seq<Checkpoint>, id: int) -> int
    decreases cps.len(),
{
    if cps.len() == 0 {
        0
    } else {
        loc_free_count_total(cps.drop_last(), id) + heap_row_for(cps.last().heap@, id, 0).free_count
    }
}

impl Storage {
    /// Running cumulative allocation sums stay exact as long as no prefix
    /// sum leaves the counter's range.
    pub open spec fn alloc_totals_fit(self, id: int) -> bool {
        forall|i: int|
            0 <= i <= self.checkpoints@.len() ==> i64::MIN <= #[trigger] loc_alloc_total(
                self.checkpoints@.subrange(0, i),
                id,
            ) <= i64::MAX
    }

    /// All four cumulative sums of a location stay inside their counters
    /// at every prefix, so the saturating accumulation computes them
    /// exactly.
    pub open spec fn heap_totals_fit(self, id: int) -> bool {
        &&& self.alloc_totals_fit(id)
        &&& forall|i: int|
            0 <= i <= self.checkpoints@.len() ==> i64::MIN <= #[trigger] loc_free_total(
                self.checkpoints@.subrange(0, i),
                id,
            ) <= i64::MAX
        &&& forall|i: int|
            0 <= i <= self.checkpoints@.len() ==> #[trigger] loc_alloc_count_total(
                self.checkpoints@.subrange(0, i),
                id,
            ) <= u64::MAX
        &&& forall|i: int|
            0 <= i <= self.checkpoints@.len() ==> #[trigger] loc_free_count_total(
                self.checkpoints@.subrange(0, i),
                id,
            ) <= u64::MAX
    }

    /// One location's cumulative heap counters, each saturating only past
    /// its type's range; every total is exact whenever its running sums
    /// fit the counters.
    fn heap_totals_for(&self, id: usize) -> (r: (i64, i64, u64, u64))
        ensures
            self.alloc_totals_fit(id as int) ==> r.0 == loc_alloc_total(
                self.checkpoints@,
                id as int,
            ),
            self.heap_totals_fit(id as int) ==> r.1 == loc_free_total(self.checkpoints@, id as int)
                && r.2 == loc_alloc_count_total(self.checkpoints@, id as int) && r.3
                == loc_free_count_total(self.checkpoints@, id as int),
    {
        let mut alloc_b: i64 = 0;
        let mut free_b: i64 = 0;
        let mut alloc_c: u64 = 0;
        let mut free_c: u64 = 0;
        let mut i: usize = 0;
        proof {
            assert(self.checkpoints@.subrange(0, 0) =~= Seq::<Checkpoint>::empty());
        }
        while i < self.checkpoints.len()
            invariant
                i <= self.checkpoints@.len(),
                self.alloc_totals_fit(id as int) ==> alloc_b == loc_alloc_total(
                    self.checkpoints@.subrange(0, i as int),
                    id as int,
                ),
                self.heap_totals_fit(id as int) ==> {
                    &&& free_b == loc_free_total(self.checkpoints@.subrange(0, i as int), id as int)
                    &&& alloc_c == loc_alloc_count_total(
                        self.checkpoints@.subrange(0, i as int),
                        id as int,
                    )
                    &&& free_c == loc_free_count_total(
                        self.checkpoints@.subrange(0, i as int),
                        id as int,
                    )
                },
            decreases self.checkpoints@.len() - i,
        {
            let row = heap_row_lookup(&self.checkpoints[i].heap, id);
            proof {
                let pre = self.checkpoints@.subrange(0, i as int);
                let cur = self.checkpoints@.subrange(0, i + 1);
                assert(cur.drop_last() =~= pre);
                assert(cur.last() == self.checkpoints@[i as int]);
                if self.heap_totals_fit(id as int) {
                    lemma_count_totals_nonneg(pre, id as int);
                    lemma_count_totals_nonneg(cur, id as int);
                }
            }
            alloc_b = i64_sat_add(alloc_b, row.alloc_bytes);
            free_b = i64_sat_add(free_b, row.free_bytes);
            alloc_c = alloc_c.saturating_add(row.alloc_count);
            free_c = free_c.saturating_add(row.free_count);
            i += 1;
        }
        proof {
            assert(self.checkpoints@.subrange(0, self.checkpoints@.len() as int)
                =~= self.checkpoints@);
        }
        (alloc_b, free_b, alloc_c, free_c)
    }

    /// The top heap consumers, at most `limit` rows, ordered by live bytes
    /// at the newest checkpoint, cumulative allocation breaking ties. Each
    /// row's live bytes are exactly the newest checkpoint's, and its id
    /// names a registered location whose fields it carries.
    pub fn query_top_heap_live(&self, limit: usize) -> (r: Vec<HeapEntry>)
        requires
            self.wf(),
        ensures
            r@.len() == if limit < self.locations@.len() {
                limit as int
            } else {
                self.locations@.len() as int
            },
            forall|k: int|
                0 <= k < r@.len() ==> {
                    let e = #[trigger] r@[k];
                    &&& e.location_id < self.locations@.len()
                    &&& e.file@ == self.locations@[e.location_id as int].file@
                    &&& e.line == self.locations@[e.location_id as int].line
                    &&& e.function@ == self.locations@[e.location_id as int].function@
                    &&& (self.checkpoints@.len() > 0 ==> e.live_bytes == live_for(
                        self.checkpoints@.last().heap@,
                        e.location_id as int,
                        0,
                    ))
                    &&& (self.alloc_totals_fit(e.location_id as int) ==> e.total_alloc_bytes
                        == loc_alloc_total(self.checkpoints@, e.location_id as int))
                    &&& (self.heap_totals_fit(e.location_id as int) ==> e.total_free_bytes
                        == loc_free_total(self.checkpoints@, e.location_id as int)
                        && e.alloc_count == loc_alloc_count_total(
                        self.checkpoints@,
                        e.location_id as int,
                    ) && e.free_count == loc_free_count_total(
                        self.checkpoints@,
                        e.location_id as int,
                    ))
                },
            forall|a: int, b: int|
                0 <= a < b < r@.len() ==> heap_key_ge(
                    ((#[trigger] r@[a]).live_bytes, r@[a].total_alloc_bytes),
                    ((#[trigger] r@[b]).live_bytes, r@[b].total_alloc_bytes),
                ),
            forall|a: int, b: int|
                0 <= a < b < r@.len() ==> (#[trigger] r@[a]).location_id != (
                #[trigger] r@[b]).location_id,
    {
        let n = self.locations.len();
        let mut keys: Vec<(i64, i64)> = Vec::new();
        let mut totals: Vec<(i64, i64, u64, u64)> = Vec::new();
        let mut id: usize = 0;
        while id < n
            invariant
                id <= n,
                n == self.locations@.len(),
                self.wf(),
                keys@.len() == id,
                totals@.len() == id,
                forall|k: int|
                    0 <= k < id ==> (self.checkpoints@.len() > 0 ==> (#[trigger] keys@[k]).0
                        == live_for(self.checkpoints@.last().heap@, k, 0)),
                forall|k: int| 0 <= k < id ==> (#[trigger] keys@[k]).1 == totals@[k].0,
                forall|k: int|
                    0 <= k < id ==> (self.alloc_totals_fit(k) ==> (#[trigger] keys@[k]).1
                        == loc_alloc_total(self.checkpoints@, k)),
                forall|k: int|
                    0 <= k < id ==> (self.heap_totals_fit(k) ==> (#[trigger] totals@[k]).1
                        == loc_free_total(self.checkpoints@, k) && totals@[k].2
                        == loc_alloc_count_total(self.checkpoints@, k) && totals@[k].3
                        == loc_free_count_total(self.checkpoints@, k)),
            decreases n - id,
        {
            let live: i64 = if self.checkpoints.len() > 0 {
                heap_row_lookup(&self.checkpoints[self.checkpoints.len() - 1].heap, id).live_bytes
            } else {
                0
            };
            let t = self.heap_totals_for(id);
            proof {
                if self.checkpoints@.len() > 0 {
                    lemma_live_matches_row(self.checkpoints@.last().heap@, id as int, 0);
                }
            }
            keys.push((live, t.0));
            totals.push(t);
            id += 1;
        }
        let take = if limit < n {
            limit
        } else {
            n
        };
        let mut used: Vec<bool> = Vec::new();
        let mut u: usize = 0;
        while u < n
            invariant
                u <= n,
                used@.len() == u,
                forall|j: int| 0 <= j < u ==> !(#[trigger] used@[j]),
            decreases n - u,
        {
            used.push(false);
            u += 1;
        }
        proof {
            lemma_count_zero(used@, n as int);
        }
        let mut r: Vec<HeapEntry> = Vec::new();
        let mut k: usize = 0;
        while k < take
            invariant
                k <= take,
                take == if limit < self.locations@.len() {
                    limit as int
                } else {
                    self.locations@.len() as int
                },
                take <= n,
                n == self.locations@.len(),
                self.wf(),
                keys@.len() == n,
                totals@.len() == n,
                used@.len() == n,
                forall|j: int|
                    0 <= j < n ==> (self.checkpoints@.len() > 0 ==> (#[trigger] keys@[j]).0
                        == live_for(self.checkpoints@.last().heap@, j, 0)),
                forall|j: int| 0 <= j < n ==> (#[trigger] keys@[j]).1 == totals@[j].0,
                forall|j: int|
                    0 <= j < n ==> (self.alloc_totals_fit(j) ==> (#[trigger] keys@[j]).1
                        == loc_alloc_total(self.checkpoints@, j)),
                forall|j: int|
                    0 <= j < n ==> (self.heap_totals_fit(j) ==> (#[trigger] totals@[j]).1
                        == loc_free_total(self.checkpoints@, j) && totals@[j].2
                        == loc_alloc_count_total(self.checkpoints@, j) && totals@[j].3
                        == loc_free_count_total(self.checkpoints@, j)),
                r@.len() == k,
                count_true(used@, n as int) == k,
                forall|a: int|
                    0 <= a < k ==> {
                        let e = #[trigger] r@[a];
                        &&& e.location_id < n
                        &&& used@[e.location_id as int]
                        &&& e.live_bytes == keys@[e.location_id as int].0
                        &&& e.total_alloc_bytes == keys@[e.location_id as int].1
                        &&& e.total_free_bytes == totals@[e.location_id as int].1
                        &&& e.alloc_count == totals@[e.location_id as int].2
                        &&& e.free_count == totals@[e.location_id as int].3
                        &&& e.file@ == self.locations@[e.location_id as int].file@
                        &&& e.line == self.locations@[e.location_id as int].line
                        &&& e.function@ == self.locations@[e.location_id as int].function@
                    },
                forall|a: int, b: int|
                    0 <= a < b < k ==> (#[trigger] r@[a]).location_id != (
                    #[trigger] r@[b]).location_id,
                forall|a: int, id2: int|
                    0 <= a < k && 0 <= id2 < n && !used@[id2] ==> heap_key_ge(
                        ((#[trigger] r@[a]).live_bytes, r@[a].total_alloc_bytes),
                        #[trigger] keys@[id2],
                    ),
                forall|a: int, b: int|
                    0 <= a < b < k ==> heap_key_ge(
                        ((#[trigger] r@[a]).live_bytes, r@[a].total_alloc_bytes),
                        ((#[trigger] r@[b]).live_bytes, r@[b].total_alloc_bytes),
                    ),
            decreases take - k,
        {
            proof {
                lemma_count_true_partial(used@, n as int);
            }
            let mut best: usize = 0;
            let mut found = false;
            let mut j: usize = 0;
            while j < n
                invariant
                    j <= n,
                    n == keys@.len(),
                    n == used@.len(),
                    found ==> best < n && !used@[best as int],
                    found ==> forall|m: int|
                        0 <= m < j && !used@[m] ==> heap_key_ge(
                            keys@[best as int],
                            #[trigger] keys@[m],
                        ),
                    !found ==> forall|m: int| 0 <= m < j ==> #[trigger] used@[m],
            decreases n - j,
            {
                if !used[j] {
                    if !found {
                        best = j;
                    } else {
                        let kj = keys[j];
                        let kb = keys[best];
                        if kj.0 > kb.0 || (kj.0 == kb.0 && kj.1 > kb.1) {
                            best = j;
                        }
                    }
                    found = true;
                }
                j += 1;
            }
            proof {
                if !found {
                    lemma_count_all_true(used@, n as int);
                }
            }
            let loc = &self.locations[best];
            let t = totals[best];
            let key = keys[best];
            let entry = HeapEntry {
                location_id: best,
                file: loc.file.clone(),
                line: loc.line,
                function: loc.function.clone(),
                live_bytes: key.0,
                total_alloc_bytes: key.1,
                total_free_bytes: t.1,
                alloc_count: t.2,
                free_count: t.3,
            };
            let ghost used_pre = used@;
            r.push(entry);
            used.set(best, true);
            proof {
                lemma_count_true_set(used_pre, best as int, n as int);
            }
            k += 1;
        }
        r
    }
}

} // verus!
