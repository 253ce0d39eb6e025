//! The in-target recorder: turns allocator events and CPU-sample ticks into
//! call-site aggregates in the shared stats region.
//!
//! An allocation captures a stack, folds it to a key (skipping the
//! allocator's own frames), bumps the key's slot and remembers the pointer
//! in the live-allocation table. A free looks the pointer up and, when it
//! was tracked, credits the recorded size back to the same call site; a
//! pointer that was never tracked is a no-op. A CPU sample folds the whole
//! stack and bumps the slot's sample counter. No operation in here panics
//! or reports an error: lost tracking only loses fidelity.
//!
//! The recorder's invariant ties the two tables together: per occupied
//! slot, the allocation counters always cover the free counters plus
//! everything still live under that slot's key. Frees therefore can never
//! overtake allocations.

use vstd::prelude::*;

use crate::alloctab::{
    lemma_counts_nonneg, lemma_counts_zero_when_none_live, AllocTable, ALLOC_CAPACITY,
};
use crate::keyfold::{stack_key, CPU_KEY_SKIP, HEAP_KEY_SKIP};
use crate::ssr::{CallSiteTable, CALLSITE_CAPACITY, MAX_STACK_DEPTH, MAX_TABLE_CAPACITY};

verus! {

/// The recorder's whole state: both halves of the shared region and the
/// signal-handler recursion guard.
pub struct Recorder {
    /// Call-site aggregates, keyed by folded stack key.
    pub sites: CallSiteTable,
    /// Live pointers and the size and key they were allocated under.
    pub allocs: AllocTable,
    /// Set while the sampling signal handler runs; all allocator
    /// bookkeeping is skipped while it is set.
    pub in_handler: bool,
}

impl Recorder {
    /// Per-slot attribution: a slot's allocation counters always cover its
    /// free counters plus all bytes and mappings still live under its key.
    pub open spec fn slot_covered(self, i: int) -> bool {
        self.sites.occupied(i) ==> {
            &&& self.sites.alloc_counts@[i] >= self.sites.free_counts@[i]
                + self.allocs.live_count_for(self.sites.hashes@[i])
            &&& self.sites.alloc_bytes@[i] >= self.sites.free_bytes@[i]
                + self.allocs.live_bytes_for(self.sites.hashes@[i])
        }
    }

    /// Every live mapping's key is present in the call-site table, unless
    /// the table has overflowed for good (it never shrinks).
    pub open spec fn keys_bound(self) -> bool {
        forall|j: int|
            0 <= j < self.allocs.spec_cap() && self.allocs.live(j) ==> self.sites.has_key(
                #[trigger] self.allocs.keys@[j],
            ) || !self.sites.has_empty()
    }

    /// Recorder well-formedness.
    pub open spec fn wf(self) -> bool {
        &&& self.sites.wf()
        &&& self.allocs.wf()
        &&& forall|i: int| 0 <= i < self.sites.spec_cap() ==> self.slot_covered(i)
        &&& self.keys_bound()
    }

    /// Create a recorder with the given table capacities.
    pub fn new(callsite_capacity: usize, alloc_capacity: usize) -> (r: Recorder)
        requires
            1 <= callsite_capacity <= MAX_TABLE_CAPACITY,
            1 <= alloc_capacity <= MAX_TABLE_CAPACITY,
        ensures
            r.wf(),
            !r.in_handler,
            r.sites.spec_cap() == callsite_capacity,
            r.allocs.spec_cap() == alloc_capacity,
            forall|i: int| 0 <= i < callsite_capacity ==> !r.sites.occupied(i),
    {
        let r = Recorder {
            sites: CallSiteTable::new(callsite_capacity),
            allocs: AllocTable::new(alloc_capacity),
            in_handler: false,
        };
        r
    }

    /// Create a recorder with the region's default capacities.
    pub fn with_default_capacities() -> (r: Recorder)
        ensures
            r.wf(),
            !r.in_handler,
            r.sites.spec_cap() == CALLSITE_CAPACITY,
            r.allocs.spec_cap() == ALLOC_CAPACITY,
    {
        Recorder::new(CALLSITE_CAPACITY, ALLOC_CAPACITY)
    }

    /// Every slot that holds `key` still has precise headroom for one
    /// more allocation of `size` bytes; with no such slot this holds
    /// vacuously. Under this condition an allocation's counters rise
    /// exactly and the pointer gets tracked.
    pub open spec fn alloc_precise_at(sites: CallSiteTable, key: u64, size: u64) -> bool {
        forall|i: int|
            0 <= i < sites.spec_cap() && #[trigger] sites.hashes@[i] == key
                ==> sites.alloc_counts@[i] < u64::MAX && sites.alloc_bytes@[i] <= u64::MAX - size
    }

    /// Record a successful allocation: fold the captured stack to a key
    /// (skipping the allocator's own frames), attribute one allocation of
    /// `size` bytes to that key's slot — the slot holding the key, or the
    /// overflow sink when the table is full — and remember the pointer so
    /// a later free can be credited back. Skipped entirely while the
    /// signal handler runs. Never panics; when the region is saturated it
    /// only loses tracking fidelity.
    pub fn record_alloc(&mut self, ptr: u64, size: u64, stack: &Vec<u64>)
        requires
            old(self).wf(),
            crate::alloctab::is_live_ptr(ptr),
            !old(self).allocs.contains_live(ptr),
            stack@.len() <= MAX_STACK_DEPTH,
        ensures
            final(self).wf(),
            final(self).in_handler == old(self).in_handler,
            old(self).sites.evolves_to(final(self).sites),
            old(self).in_handler ==> final(self).sites.same_sites(old(self).sites) && final(self).allocs.same_entries(old(self).allocs),
            !old(self).in_handler ==> exists|i: int|
                {
                    let key = crate::keyfold::spec_stack_key(stack@, HEAP_KEY_SKIP as int);
                    &&& 0 <= i < old(self).sites.spec_cap()
                    &&& final(self).sites.alloc_counts@ == old(self).sites.alloc_counts@.update(
                        i,
                        crate::ssr::sat_add(#[trigger] old(self).sites.alloc_counts@[i], 1),
                    )
                    &&& final(self).sites.alloc_bytes@ == old(self).sites.alloc_bytes@.update(
                        i,
                        crate::ssr::sat_add(old(self).sites.alloc_bytes@[i], size),
                    )
                    &&& (final(self).sites.hashes@[i] == key || (!old(self).sites.has_key(key)
                        && !old(self).sites.has_empty()))
                },
            !old(self).in_handler ==> final(self).sites.free_counts@ == old(self).sites.free_counts@ && final(self).sites.free_bytes@ == old(self).sites.free_bytes@
                && final(self).sites.cpu_samples@ == old(self).sites.cpu_samples@,
            !old(self).in_handler && Recorder::alloc_precise_at(
                old(self).sites,
                crate::keyfold::spec_stack_key(stack@, HEAP_KEY_SKIP as int),
                size,
            ) && old(self).allocs.spec_has_room(ptr) ==> final(self).allocs.contains_live(ptr)
                && final(self).allocs.entry_size(ptr) == size && final(self).allocs.entry_key(ptr)
                == crate::keyfold::spec_stack_key(stack@, HEAP_KEY_SKIP as int),
            forall|p: u64|
                p != ptr ==> (#[trigger] final(self).allocs.contains_live(p) <==> old(self).allocs.contains_live(p)),
    {
        if self.in_handler {
            return ;
        }
        let ghost entry = *self;
        let key = stack_key(stack, HEAP_KEY_SKIP);
        let idx = self.sites.find_or_create(key, stack);
        proof {
            self.lemma_after_find_or_create(entry, key, idx as int);
        }
        let ghost mid = *self;
        proof {
            assert(mid.sites.alloc_counts@ == entry.sites.alloc_counts@);
            assert(mid.sites.alloc_bytes@ == entry.sites.alloc_bytes@);
            assert(mid.sites.free_counts@ == entry.sites.free_counts@);
            assert(mid.sites.free_bytes@ == entry.sites.free_bytes@);
            assert(mid.sites.cpu_samples@ == entry.sites.cpu_samples@);
        }
        let count_now = self.sites.alloc_counts[idx];
        let bytes_now = self.sites.alloc_bytes[idx];
        let is_key_slot = self.sites.hashes[idx] == key;
        let precise = count_now < u64::MAX && bytes_now <= u64::MAX - size;
        proof {
            if !self.sites.occupied(idx as int) {
                assert(self.sites.hashes@[idx as int] != key);
                assert(!entry.sites.has_key(key) && !entry.sites.has_empty());
                assert(entry.sites.hashes@[idx as int] == self.sites.hashes@[idx as int]);
                assert(!entry.sites.occupied(idx as int));
                assert(entry.sites.has_empty());
            }
            if !is_key_slot {
                assert(!entry.sites.has_key(key) && !entry.sites.has_empty());
            }
            if is_key_slot && Recorder::alloc_precise_at(entry.sites, key, size) {
                // precise headroom at the key slot, whether found or fresh
                if entry.sites.occupied(idx as int) {
                    assert(entry.sites.hashes@[idx as int] == mid.sites.hashes@[idx as int]);
                    assert(entry.sites.hashes@[idx as int] == key);
                    assert(count_now < u64::MAX && bytes_now <= u64::MAX - size);
                } else {
                    assert(entry.sites.slot_wf(idx as int));
                    assert(count_now == 0 && bytes_now == 0);
                }
            }
        }
        self.sites.add_alloc(idx, size);
        proof {
            self.lemma_after_add_alloc(mid, idx as int);
        }
        let ghost kept = false;
        if !is_key_slot || precise {
            let ghost before = *self;
            proof {
                assert(before.allocs == entry.allocs);
                if is_key_slot {
                    assert(before.sites.hashes@[idx as int] == key);
                    assert(before.sites.has_key(key));
                    assert(mid.slot_covered(idx as int));
                    assert(before.sites.alloc_counts@[idx as int] >= before.sites.free_counts@[
                        idx as int
                    ] + before.allocs.live_count_for(key) + 1);
                    assert(before.sites.alloc_bytes@[idx as int] >= before.sites.free_bytes@[
                        idx as int
                    ] + before.allocs.live_bytes_for(key) + size);
                } else {
                    assert forall|i2: int|
                        0 <= i2 < before.sites.spec_cap() implies #[trigger] before.sites.hashes@[
                        i2
                    ] != key && before.sites.hashes@[i2] != 0 by {
                        assert(before.sites.hashes@[i2] == entry.sites.hashes@[i2]);
                        if entry.sites.hashes@[i2] == key {
                            assert(entry.sites.has_key(key));
                        }
                        assert(entry.sites.occupied(i2));
                    }
                    assert(!before.sites.has_key(key));
                    assert(!before.sites.has_empty());
                }
            }
            let kept_now = self.allocs.track_alloc(ptr, size, key);
            proof {
                kept = kept_now;
                self.lemma_after_track(before, key, idx as int, size, kept_now);
            }
        }
        proof {
            crate::ssr::lemma_evolves_trans(entry.sites, mid.sites, self.sites);
            // the counters moved at exactly one slot, relative to entry
            assert(self.sites.alloc_counts@ == entry.sites.alloc_counts@.update(
                idx as int,
                crate::ssr::sat_add(entry.sites.alloc_counts@[idx as int], 1),
            ));
            assert(self.sites.alloc_bytes@ == entry.sites.alloc_bytes@.update(
                idx as int,
                crate::ssr::sat_add(entry.sites.alloc_bytes@[idx as int], size),
            ));
            assert(self.sites.hashes@[idx as int] == key || (!entry.sites.has_key(key)
                && !entry.sites.has_empty()));
            // tracking happened whenever the headroom was precise and the
            // window had room
            if Recorder::alloc_precise_at(entry.sites, key, size) && entry.allocs.spec_has_room(
                ptr,
            ) {
                assert(!is_key_slot || precise);
                assert(kept);
            }
            if !(!is_key_slot || precise) {
                assert(self.allocs == entry.allocs);
                assert forall|p: u64|
                    p != ptr implies (#[trigger] self.allocs.contains_live(p)
                    <==> entry.allocs.contains_live(p)) by {}
            }
        }
    }

    /// After `find_or_create` on a well-formed recorder, the recorder is
    /// still well formed: a freshly claimed slot has zero counters and,
    /// by `keys_bound`, nothing live under its key yet.
    proof fn lemma_after_find_or_create(&self, entry: Recorder, key: u64, idx: int)
        requires
            entry.wf(),
            key != 0,
            self.allocs == entry.allocs,
            self.in_handler == entry.in_handler,
            self.sites.wf(),
            entry.sites.evolves_to(self.sites),
            0 <= idx < self.sites.spec_cap(),
            entry.sites.has_key(key) ==> self.sites.same_sites(entry.sites)
                && self.sites.hashes@[idx] == key,
            !entry.sites.has_key(key) && entry.sites.has_empty() ==> {
                &&& !entry.sites.occupied(idx)
                &&& self.sites.hashes@ == entry.sites.hashes@.update(idx, key)
                &&& self.sites.alloc_counts@ == entry.sites.alloc_counts@
                &&& self.sites.alloc_bytes@ == entry.sites.alloc_bytes@
                &&& self.sites.free_counts@ == entry.sites.free_counts@
                &&& self.sites.free_bytes@ == entry.sites.free_bytes@
                &&& self.sites.cpu_samples@ == entry.sites.cpu_samples@
            },
            !entry.sites.has_key(key) && !entry.sites.has_empty() ==> self.sites.same_sites(
                entry.sites,
            ),
        ensures
            self.wf(),
    {
        let cap = entry.sites.spec_cap();
        if entry.sites.has_key(key) || (!entry.sites.has_key(key) && !entry.sites.has_empty()) {
            assert forall|i: int| 0 <= i < cap implies self.slot_covered(i) by {
                assert(entry.slot_covered(i));
            }
        } else {
            // A fresh slot was claimed for `key`.
            assert forall|j: int|
                0 <= j < entry.allocs.spec_cap() && entry.allocs.live(j) implies #[trigger] entry
                .allocs.keys@[j] != key by {
                if entry.allocs.keys@[j] == key {
                    assert(entry.sites.has_key(key) || !entry.sites.has_empty());
                }
            }
            lemma_counts_zero_when_none_live(
                entry.allocs.ptrs@,
                entry.allocs.keys@,
                entry.allocs.sizes@,
                key,
                entry.allocs.spec_cap(),
            );
            assert(entry.allocs.live_count_for(key) == 0);
            assert(entry.allocs.live_bytes_for(key) == 0);
            assert forall|i: int| 0 <= i < cap implies self.slot_covered(i) by {
                assert(entry.slot_covered(i));
                if self.sites.occupied(i) {
                    if i == idx {
                        assert(entry.sites.slot_wf(i));
                        assert(self.sites.alloc_counts@[i] == 0);
                        assert(self.sites.hashes@[i] == key);
                    } else {
                        assert(self.sites.hashes@[i] == entry.sites.hashes@[i]);
                        assert(entry.sites.occupied(i));
                    }
                }
            }
        }
        assert forall|j: int|
            0 <= j < self.allocs.spec_cap() && self.allocs.live(j) implies self.sites.has_key(
            #[trigger] self.allocs.keys@[j],
        ) || !self.sites.has_empty() by {
            assert(entry.allocs.live(j));
            if entry.sites.has_key(entry.allocs.keys@[j]) {
                lemma_has_key_monotone(entry.sites, self.sites, entry.allocs.keys@[j]);
            } else {
                lemma_full_stays_full(entry.sites, self.sites);
            }
        }
    }

    /// Bumping the allocation counters of one occupied slot preserves the
    /// recorder invariant: the covered side only grows.
    proof fn lemma_after_add_alloc(&self, mid: Recorder, idx: int)
        requires
            mid.wf(),
            self.allocs == mid.allocs,
            self.in_handler == mid.in_handler,
            self.sites.wf(),
            mid.sites.evolves_to(self.sites),
            self.sites.hashes@ == mid.sites.hashes@,
            self.sites.free_counts@ == mid.sites.free_counts@,
            self.sites.free_bytes@ == mid.sites.free_bytes@,
            0 <= idx < mid.sites.spec_cap(),
            forall|i: int|
                0 <= i < mid.sites.spec_cap() && i != idx
                    ==> #[trigger] self.sites.alloc_counts@[i] == mid.sites.alloc_counts@[i]
                    && self.sites.alloc_bytes@[i] == mid.sites.alloc_bytes@[i],
            self.sites.alloc_counts@[idx] >= mid.sites.alloc_counts@[idx],
            self.sites.alloc_bytes@[idx] >= mid.sites.alloc_bytes@[idx],
        ensures
            self.wf(),
    {
        assert forall|i: int| 0 <= i < self.sites.spec_cap() implies self.slot_covered(i) by {
            assert(mid.slot_covered(i));
        }
        assert forall|j: int|
            0 <= j < self.allocs.spec_cap() && self.allocs.live(j) implies self.sites.has_key(
            #[trigger] self.allocs.keys@[j],
        ) || !self.sites.has_empty() by {
            assert(mid.allocs.live(j));
            if mid.sites.has_key(mid.allocs.keys@[j]) {
                lemma_has_key_monotone(mid.sites, self.sites, mid.allocs.keys@[j]);
            } else {
                lemma_full_stays_full(mid.sites, self.sites);
            }
        }
    }

    /// Tracking the new pointer keeps every slot covered: the key's slot
    /// was just credited one precise allocation, and when the key fell into
    /// the overflow sink it has no slot at all, and never will, since a
    /// full table stays full.
    proof fn lemma_after_track(
        &self,
        before: Recorder,
        key: u64,
        idx: int,
        size: u64,
        kept: bool,
    )
        requires
            before.wf(),
            key != 0,
            self.sites == before.sites,
            self.in_handler == before.in_handler,
            self.allocs.wf(),
            self.allocs.spec_cap() == before.allocs.spec_cap(),
            0 <= idx < before.sites.spec_cap(),
            // when the key has a slot, it is `idx` and it has precise headroom
            before.sites.has_key(key) ==> before.sites.hashes@[idx] == key
                && before.sites.alloc_counts@[idx] >= before.sites.free_counts@[idx]
                + before.allocs.live_count_for(key) + 1 && before.sites.alloc_bytes@[idx]
                >= before.sites.free_bytes@[idx] + before.allocs.live_bytes_for(key) + size,
            // when it has none, the table is full and will stay so
            !before.sites.has_key(key) ==> !before.sites.has_empty(),
            // what track_alloc did
            !kept ==> self.allocs.same_entries(before.allocs),
            kept ==> self.allocs.live_count_for(key) == before.allocs.live_count_for(key) + 1,
            kept ==> self.allocs.live_bytes_for(key) == before.allocs.live_bytes_for(key) + size,
            forall|k: u64|
                k != key ==> #[trigger] self.allocs.live_count_for(k)
                    == before.allocs.live_count_for(k) && self.allocs.live_bytes_for(k)
                    == before.allocs.live_bytes_for(k),
            kept ==> exists|t: int|
                0 <= t < before.allocs.spec_cap() && !before.allocs.live(t) && self.allocs.ptrs@
                    == before.allocs.ptrs@.update(t, self.allocs.ptrs@[t])
                    && self.allocs.keys@ == before.allocs.keys@.update(t, key),
        ensures
            self.wf(),
    {
        let cap = before.sites.spec_cap();
        assert forall|i: int| 0 <= i < cap implies self.slot_covered(i) by {
            assert(before.slot_covered(i));
            if self.sites.occupied(i) {
                let h = self.sites.hashes@[i];
                if !kept {
                    assert(self.allocs.live_count_for(h) == before.allocs.live_count_for(h));
                    assert(self.allocs.live_bytes_for(h) == before.allocs.live_bytes_for(h));
                } else if h != key {
                    assert(self.allocs.live_count_for(h) == before.allocs.live_count_for(h));
                    assert(self.allocs.live_bytes_for(h) == before.allocs.live_bytes_for(h));
                } else {
                    assert(before.sites.has_key(key));
                    assert(i == idx) by {
                        if i != idx {
                            assert(before.sites.occupied(i) && before.sites.occupied(idx));
                            assert(before.sites.hashes@[i] != before.sites.hashes@[idx]);
                        }
                    }
                }
            }
        }
        if !kept {
            assert forall|j: int|
                0 <= j < self.allocs.spec_cap() && self.allocs.live(j) implies self.sites.has_key(
                #[trigger] self.allocs.keys@[j],
            ) || !self.sites.has_empty() by {
                assert(self.allocs.ptrs@ == before.allocs.ptrs@);
                assert(self.allocs.keys@ == before.allocs.keys@);
                assert(before.allocs.live(j));
                assert(before.sites.has_key(before.allocs.keys@[j]) || !before.sites.has_empty());
            }
        } else {
            let t = choose|t: int|
                0 <= t < before.allocs.spec_cap() && !before.allocs.live(t) && self.allocs.ptrs@
                    == before.allocs.ptrs@.update(t, self.allocs.ptrs@[t]) && self.allocs.keys@
                    == before.allocs.keys@.update(t, key);
            assert forall|j: int|
                0 <= j < self.allocs.spec_cap() && self.allocs.live(j) implies self.sites.has_key(
                #[trigger] self.allocs.keys@[j],
            ) || !self.sites.has_empty() by {
                if j == t {
                    assert(self.allocs.keys@[j] == key);
                } else {
                    assert(self.allocs.ptrs@[j] == before.allocs.ptrs@[j]);
                    assert(self.allocs.keys@[j] == before.allocs.keys@[j]);
                    assert(before.allocs.live(j));
                }
            }
        }
    }

    /// Record a deallocation. When the pointer was tracked, the recorded
    /// size is credited back to the slot of the recorded stack key; a
    /// pointer that was never tracked (for instance one allocated before
    /// recording began) is a no-op. Skipped entirely while the signal
    /// handler runs.
    pub fn record_dealloc(&mut self, ptr: u64)
        requires
            old(self).wf(),
            crate::alloctab::is_live_ptr(ptr),
        ensures
            final(self).wf(),
            final(self).in_handler == old(self).in_handler,
            old(self).sites.evolves_to(final(self).sites),
            old(self).in_handler ==> final(self).sites.same_sites(old(self).sites) && final(self).allocs.same_entries(old(self).allocs),
            !old(self).in_handler ==> !final(self).allocs.contains_live(ptr),
            !old(self).in_handler && !old(self).allocs.contains_live(ptr) ==> final(self).sites.same_sites(old(self).sites) && final(self).allocs.same_entries(
                old(self).allocs,
            ),
            forall|p: u64|
                p != ptr ==> (#[trigger] final(self).allocs.contains_live(p) <==> old(self).allocs.contains_live(p)),
            !old(self).in_handler && old(self).allocs.contains_live(ptr) && !old(self).sites.has_key(old(self).allocs.entry_key(ptr)) ==> final(self).sites.same_sites(
                old(self).sites,
            ),
            !old(self).in_handler && old(self).allocs.contains_live(ptr) && old(self).sites.has_key(old(self).allocs.entry_key(ptr)) ==> exists|i: int|
                {
                    let k = old(self).allocs.entry_key(ptr);
                    let s = old(self).allocs.entry_size(ptr);
                    &&& 0 <= i < old(self).sites.spec_cap()
                    &&& #[trigger] old(self).sites.hashes@[i] == k
                    &&& final(self).sites.free_counts@ == old(self).sites.free_counts@.update(
                        i,
                        (old(self).sites.free_counts@[i] + 1) as u64,
                    )
                    &&& final(self).sites.free_bytes@ == old(self).sites.free_bytes@.update(
                        i,
                        (old(self).sites.free_bytes@[i] + s) as u64,
                    )
                },
            final(self).sites.hashes@ == old(self).sites.hashes@,
            final(self).sites.alloc_counts@ == old(self).sites.alloc_counts@,
            final(self).sites.alloc_bytes@ == old(self).sites.alloc_bytes@,
            final(self).sites.cpu_samples@ == old(self).sites.cpu_samples@,
            forall|p: u64|
                #[trigger] old(self).allocs.spec_has_room(p) ==> final(self).allocs.spec_has_room(
                    p,
                ),
    {
        if self.in_handler {
            return ;
        }
        let ghost entry = *self;
        let r = self.allocs.untrack_alloc(ptr);
        let ghost m1 = *self;
        match r {
            None => {
                proof {
                    assert(!self.allocs.contains_live(ptr)) by {
                        if self.allocs.contains_live(ptr) {
                            let i = choose|i: int|
                                0 <= i < self.allocs.spec_cap() && self.allocs.live(i)
                                    && self.allocs.ptrs@[i] == ptr;
                            assert(entry.allocs.live(i) && entry.allocs.ptrs@[i] == ptr);
                            assert(entry.allocs.contains_live(ptr));
                        }
                    }
                    assert forall|i: int|
                        0 <= i < self.sites.spec_cap() implies self.slot_covered(i) by {
                        assert(entry.slot_covered(i));
                    }
                    assert forall|j: int|
                        0 <= j < self.allocs.spec_cap() && self.allocs.live(
                            j,
                        ) implies self.sites.has_key(#[trigger] self.allocs.keys@[j])
                        || !self.sites.has_empty() by {
                        assert(entry.allocs.live(j));
                        assert(entry.allocs.keys@[j] == self.allocs.keys@[j]);
                    }
                    assert forall|i: int|
                        0 <= i < entry.allocs.spec_cap() && !entry.allocs.live(
                            i,
                        ) implies !self.allocs.live(i) by {
                        assert(self.allocs.ptrs@[i] == entry.allocs.ptrs@[i]);
                    }
                    crate::alloctab::lemma_room_monotone(entry.allocs, self.allocs);
                }
            },
            Some((size, key)) => {
                proof {
                    self.lemma_untracked_still_wf(entry, ptr, size, key);
                    let t = choose|t: int|
                        0 <= t < entry.allocs.spec_cap() && entry.allocs.live(t)
                            && self.allocs.ptrs@ == entry.allocs.ptrs@.update(
                            t,
                            crate::alloctab::TOMBSTONE_PTR,
                        ) && self.allocs.keys@ == entry.allocs.keys@ && self.allocs.sizes@
                            == entry.allocs.sizes@;
                    assert forall|i: int|
                        0 <= i < entry.allocs.spec_cap() && !entry.allocs.live(
                            i,
                        ) implies !self.allocs.live(i) by {
                        if i != t {
                            assert(self.allocs.ptrs@[i] == entry.allocs.ptrs@[i]);
                        }
                    }
                    crate::alloctab::lemma_room_monotone(entry.allocs, self.allocs);
                }
                let found = self.sites.find(key);
                match found {
                    None => {
                        proof {
                            assert forall|i: int|
                                0 <= i < self.sites.spec_cap() implies self.slot_covered(i) by {
                                assert(m1.slot_covered(i));
                            }
                        }
                    },
                    Some(i) => {
                        proof {
                            assert(m1.slot_covered(i as int));
                            assert(m1.sites.occupied(i as int));
                            assert(entry.slot_covered(i as int)) by {
                                assert(entry.sites.hashes@[i as int] == key);
                            }
                            assert(m1.sites.free_counts@[i as int] + 1
                                <= m1.sites.alloc_counts@[i as int]) by {
                                assert(entry.allocs.live_count_for(key) >= 1);
                                assert(m1.allocs.live_count_for(key)
                                    == entry.allocs.live_count_for(key) - 1);
                                crate::alloctab::lemma_counts_nonneg(
                                    m1.allocs.ptrs@,
                                    m1.allocs.keys@,
                                    m1.allocs.sizes@,
                                    key,
                                    m1.allocs.spec_cap(),
                                );
                            }
                            assert(m1.sites.free_bytes@[i as int] + size
                                <= m1.sites.alloc_bytes@[i as int]) by {
                                assert(entry.allocs.live_bytes_for(key) >= size);
                                assert(m1.allocs.live_bytes_for(key)
                                    == entry.allocs.live_bytes_for(key) - size);
                                crate::alloctab::lemma_counts_nonneg(
                                    m1.allocs.ptrs@,
                                    m1.allocs.keys@,
                                    m1.allocs.sizes@,
                                    key,
                                    m1.allocs.spec_cap(),
                                );
                            }
                        }
                        self.sites.add_free(i, size);
                        proof {
                            self.lemma_after_add_free(m1, i as int, size, key);
                            crate::ssr::lemma_evolves_trans(entry.sites, m1.sites, self.sites);
                        }
                    },
                }
            },
        }
    }

    /// Removing a live mapping can only lower what each slot must cover.
    proof fn lemma_untracked_still_wf(&self, entry: Recorder, ptr: u64, size: u64, key: u64)
        requires
            entry.wf(),
            key != 0,
            self.sites == entry.sites,
            self.in_handler == entry.in_handler,
            self.allocs.wf(),
            self.allocs.spec_cap() == entry.allocs.spec_cap(),
            self.allocs.live_count_for(key) == entry.allocs.live_count_for(key) - 1,
            self.allocs.live_bytes_for(key) == entry.allocs.live_bytes_for(key) - size,
            forall|k: u64|
                k != key ==> #[trigger] self.allocs.live_count_for(k)
                    == entry.allocs.live_count_for(k) && self.allocs.live_bytes_for(k)
                    == entry.allocs.live_bytes_for(k),
            exists|t: int|
                0 <= t < entry.allocs.spec_cap() && entry.allocs.live(t) && self.allocs.ptrs@
                    == entry.allocs.ptrs@.update(
                    t,
                    crate::alloctab::TOMBSTONE_PTR,
                ) && self.allocs.keys@ == entry.allocs.keys@ && self.allocs.sizes@
                    == entry.allocs.sizes@,
        ensures
            self.wf(),
    {
        assert forall|i: int| 0 <= i < self.sites.spec_cap() implies self.slot_covered(i) by {
            assert(entry.slot_covered(i));
            if self.sites.occupied(i) {
                let h = self.sites.hashes@[i];
                if h == key {
                    crate::alloctab::lemma_counts_nonneg(
                        entry.allocs.ptrs@,
                        entry.allocs.keys@,
                        entry.allocs.sizes@,
                        key,
                        entry.allocs.spec_cap(),
                    );
                }
            }
        }
        let t = choose|t: int|
            0 <= t < entry.allocs.spec_cap() && entry.allocs.live(t) && self.allocs.ptrs@
                == entry.allocs.ptrs@.update(t, crate::alloctab::TOMBSTONE_PTR)
                && self.allocs.keys@ == entry.allocs.keys@ && self.allocs.sizes@
                == entry.allocs.sizes@;
        assert forall|j: int|
            0 <= j < self.allocs.spec_cap() && self.allocs.live(j) implies self.sites.has_key(
            #[trigger] self.allocs.keys@[j],
        ) || !self.sites.has_empty() by {
            assert(j != t);
            assert(self.allocs.ptrs@[j] == entry.allocs.ptrs@[j]);
            assert(entry.allocs.live(j));
            assert(self.allocs.keys@[j] == entry.allocs.keys@[j]);
        }
    }

    /// Crediting one free of `size` bytes to the slot that owns the freed
    /// mapping's key restores the recorder invariant after the mapping was
    /// removed.
    proof fn lemma_after_add_free(&self, m1: Recorder, idx: int, size: u64, key: u64)
        requires
            m1.wf(),
            key != 0,
            self.allocs == m1.allocs,
            self.in_handler == m1.in_handler,
            self.sites.wf(),
            m1.sites.evolves_to(self.sites),
            0 <= idx < m1.sites.spec_cap(),
            m1.sites.hashes@[idx] == key,
            m1.sites.alloc_counts@[idx] >= m1.sites.free_counts@[idx] + m1.allocs.live_count_for(
                key,
            ) + 1,
            m1.sites.alloc_bytes@[idx] >= m1.sites.free_bytes@[idx] + m1.allocs.live_bytes_for(
                key,
            ) + size,
            self.sites.hashes@ == m1.sites.hashes@,
            self.sites.alloc_counts@ == m1.sites.alloc_counts@,
            self.sites.alloc_bytes@ == m1.sites.alloc_bytes@,
            self.sites.free_counts@ == m1.sites.free_counts@.update(
                idx,
                crate::ssr::sat_add(m1.sites.free_counts@[idx], 1),
            ),
            self.sites.free_bytes@ == m1.sites.free_bytes@.update(
                idx,
                crate::ssr::sat_add(m1.sites.free_bytes@[idx], size),
            ),
        ensures
            self.wf(),
    {
        assert forall|i: int| 0 <= i < self.sites.spec_cap() implies self.slot_covered(i) by {
            assert(m1.slot_covered(i));
            if self.sites.occupied(i) && i != idx {
                assert(self.sites.free_counts@[i] == m1.sites.free_counts@[i]);
                assert(self.sites.free_bytes@[i] == m1.sites.free_bytes@[i]);
            }
        }
        assert forall|j: int|
            0 <= j < self.allocs.spec_cap() && self.allocs.live(j) implies self.sites.has_key(
            #[trigger] self.allocs.keys@[j],
        ) || !self.sites.has_empty() by {
            assert(m1.allocs.live(j));
            if m1.sites.has_key(m1.allocs.keys@[j]) {
                lemma_has_key_monotone(m1.sites, self.sites, m1.allocs.keys@[j]);
            } else {
                lemma_full_stays_full(m1.sites, self.sites);
            }
        }
    }

    /// Record one reallocation: the old pointer's mapping is credited
    /// back as a free against its recorded call site, and the new pointer
    /// is recorded as a fresh allocation of the new size. Skipped entirely
    /// while the signal handler runs.
    pub fn record_realloc(&mut self, old_ptr: u64, new_ptr: u64, new_size: u64, stack: &Vec<u64>)
        requires
            old(self).wf(),
            crate::alloctab::is_live_ptr(old_ptr),
            crate::alloctab::is_live_ptr(new_ptr),
            new_ptr == old_ptr || !old(self).allocs.contains_live(new_ptr),
            stack@.len() <= MAX_STACK_DEPTH,
        ensures
            final(self).wf(),
            final(self).in_handler == old(self).in_handler,
            old(self).sites.evolves_to(final(self).sites),
            old(self).in_handler ==> final(self).sites.same_sites(old(self).sites) && final(self).allocs.same_entries(old(self).allocs),
            !old(self).in_handler && new_ptr != old_ptr ==> !final(self).allocs.contains_live(
                old_ptr,
            ),
            // the free half: as a deallocation of the old pointer
            !old(self).in_handler && !old(self).allocs.contains_live(old_ptr) ==> final(self).sites.free_counts@ == old(self).sites.free_counts@ && final(self).sites.free_bytes@
                == old(self).sites.free_bytes@,
            !old(self).in_handler && old(self).allocs.contains_live(old_ptr) && !old(self).sites.has_key(old(self).allocs.entry_key(old_ptr)) ==> final(self).sites.free_counts@ == old(self).sites.free_counts@ && final(self).sites.free_bytes@
                == old(self).sites.free_bytes@,
            !old(self).in_handler && old(self).allocs.contains_live(old_ptr) && old(self).sites.has_key(old(self).allocs.entry_key(old_ptr)) ==> exists|i: int|
                {
                    let k = old(self).allocs.entry_key(old_ptr);
                    let s = old(self).allocs.entry_size(old_ptr);
                    &&& 0 <= i < old(self).sites.spec_cap()
                    &&& #[trigger] old(self).sites.hashes@[i] == k
                    &&& final(self).sites.free_counts@ == old(self).sites.free_counts@.update(
                        i,
                        (old(self).sites.free_counts@[i] + 1) as u64,
                    )
                    &&& final(self).sites.free_bytes@ == old(self).sites.free_bytes@.update(
                        i,
                        (old(self).sites.free_bytes@[i] + s) as u64,
                    )
                },
            // the alloc half: as an allocation of the new pointer
            !old(self).in_handler ==> exists|i: int|
                {
                    let key = crate::keyfold::spec_stack_key(stack@, HEAP_KEY_SKIP as int);
                    &&& 0 <= i < old(self).sites.spec_cap()
                    &&& final(self).sites.alloc_counts@ == old(self).sites.alloc_counts@.update(
                        i,
                        crate::ssr::sat_add(#[trigger] old(self).sites.alloc_counts@[i], 1),
                    )
                    &&& final(self).sites.alloc_bytes@ == old(self).sites.alloc_bytes@.update(
                        i,
                        crate::ssr::sat_add(old(self).sites.alloc_bytes@[i], new_size),
                    )
                    &&& (final(self).sites.hashes@[i] == key || (!old(self).sites.has_key(key)
                        && !old(self).sites.has_empty()))
                },
            !old(self).in_handler && Recorder::alloc_precise_at(
                old(self).sites,
                crate::keyfold::spec_stack_key(stack@, HEAP_KEY_SKIP as int),
                new_size,
            ) && old(self).allocs.spec_has_room(new_ptr) ==> final(self).allocs.contains_live(
                new_ptr,
            ) && final(self).allocs.entry_size(new_ptr) == new_size && final(self).allocs.entry_key(new_ptr) == crate::keyfold::spec_stack_key(
                stack@,
                HEAP_KEY_SKIP as int,
            ),
    {
        if self.in_handler {
            return ;
        }
        let ghost entry = *self;
        self.record_dealloc(old_ptr);
        let ghost m1 = *self;
        proof {
            crate::ssr::lemma_same_hashes_keys(entry.sites, m1.sites);
            let key = crate::keyfold::spec_stack_key(stack@, HEAP_KEY_SKIP as int);
            if Recorder::alloc_precise_at(entry.sites, key, new_size) {
                assert forall|i: int|
                    0 <= i < m1.sites.spec_cap() && #[trigger] m1.sites.hashes@[i] == key
                        implies m1.sites.alloc_counts@[i] < u64::MAX && m1.sites.alloc_bytes@[i]
                    <= u64::MAX - new_size by {
                    assert(entry.sites.hashes@[i] == key);
                }
            }
        }
        self.record_alloc(new_ptr, new_size, stack);
        proof {
            crate::ssr::lemma_evolves_trans(entry.sites, m1.sites, self.sites);
            // the second half leaves the free counters alone, so the free
            // accounting of the first half survives verbatim
            assert(self.sites.free_counts@ == m1.sites.free_counts@);
            assert(self.sites.free_bytes@ == m1.sites.free_bytes@);
        }
    }

    /// Record one CPU sample: fold the whole captured stack (the sample
    /// site is its first frame) and bump the key's sample counter. Called
    /// from the sampling signal handler, so it touches nothing but the
    /// region and never allocates.
    pub fn record_cpu_sample(&mut self, stack: &Vec<u64>)
        requires
            old(self).wf(),
            stack@.len() <= MAX_STACK_DEPTH,
        ensures
            final(self).wf(),
            final(self).in_handler == old(self).in_handler,
            final(self).allocs.same_entries(old(self).allocs),
            old(self).sites.evolves_to(final(self).sites),
            exists|i: int|
                {
                    let key = crate::keyfold::spec_stack_key(stack@, CPU_KEY_SKIP as int);
                    &&& 0 <= i < old(self).sites.spec_cap()
                    &&& final(self).sites.cpu_samples@ == old(self).sites.cpu_samples@.update(
                        i,
                        crate::ssr::sat_add(#[trigger] old(self).sites.cpu_samples@[i], 1),
                    )
                    &&& (final(self).sites.hashes@[i] == key || (!old(self).sites.has_key(key)
                        && !old(self).sites.has_empty()))
                },
    {
        let ghost entry = *self;
        let key = stack_key(stack, CPU_KEY_SKIP);
        let idx = self.sites.find_or_create(key, stack);
        proof {
            self.lemma_after_find_or_create(entry, key, idx as int);
        }
        let ghost mid = *self;
        proof {
            if !self.sites.occupied(idx as int) {
                assert(self.sites.hashes@[idx as int] != key);
                assert(!entry.sites.has_key(key) && !entry.sites.has_empty());
                assert(entry.sites.hashes@[idx as int] == self.sites.hashes@[idx as int]);
                assert(!entry.sites.occupied(idx as int));
                assert(entry.sites.has_empty());
            }
        }
        self.sites.add_cpu(idx);
        proof {
            assert forall|i: int| 0 <= i < self.sites.spec_cap() implies self.slot_covered(i) by {
                assert(mid.slot_covered(i));
            }
            assert forall|j: int|
                0 <= j < self.allocs.spec_cap() && self.allocs.live(j) implies self.sites.has_key(
                #[trigger] self.allocs.keys@[j],
            ) || !self.sites.has_empty() by {
                assert(mid.allocs.live(j));
                if mid.sites.has_key(mid.allocs.keys@[j]) {
                    lemma_has_key_monotone(mid.sites, self.sites, mid.allocs.keys@[j]);
                } else {
                    lemma_full_stays_full(mid.sites, self.sites);
                }
            }
            crate::ssr::lemma_evolves_trans(entry.sites, mid.sites, self.sites);
            if mid.sites.hashes@[idx as int] != key {
                assert(!entry.sites.has_key(key) && !entry.sites.has_empty());
                assert(mid.sites.cpu_samples@ == entry.sites.cpu_samples@);
            }
        }
    }

    /// Enter the signal handler's recursion guard. Returns false without
    /// any other effect when the guard was already held (a reentered
    /// handler bails out).
    pub fn enter_signal_handler(&mut self) -> (entered: bool)
        requires
            old(self).wf(),
        ensures
            final(self).wf(),
            entered == !old(self).in_handler,
            final(self).in_handler,
            final(self).sites.same_sites(old(self).sites),
            final(self).allocs.same_entries(old(self).allocs),
    {
        let ghost entry = *self;
        let was = self.in_handler;
        self.in_handler = true;
        proof {
            self.lemma_guard_flip_keeps_wf(entry);
        }
        !was
    }

    /// Leave the signal handler's recursion guard.
    pub fn exit_signal_handler(&mut self)
        requires
            old(self).wf(),
        ensures
            final(self).wf(),
            !final(self).in_handler,
            final(self).sites.same_sites(old(self).sites),
            final(self).allocs.same_entries(old(self).allocs),
    {
        let ghost entry = *self;
        self.in_handler = false;
        proof {
            self.lemma_guard_flip_keeps_wf(entry);
        }
    }

    /// Flipping the recursion guard touches neither table, so every
    /// invariant survives.
    proof fn lemma_guard_flip_keeps_wf(&self, entry: Recorder)
        requires
            entry.wf(),
            self.sites == entry.sites,
            self.allocs == entry.allocs,
        ensures
            self.wf(),
    {
        assert forall|i: int| 0 <= i < self.sites.spec_cap() implies self.slot_covered(i) by {
            assert(entry.slot_covered(i));
        }
        assert forall|j: int|
            0 <= j < self.allocs.spec_cap() && self.allocs.live(j) implies self.sites.has_key(
            #[trigger] self.allocs.keys@[j],
        ) || !self.sites.has_empty() by {
            assert(entry.allocs.live(j));
        }
    }

    /// Is a live mapping of `ptr` currently recorded?
    pub fn is_tracked(&self, ptr: u64) -> (r: bool)
        requires
            self.wf(),
            crate::alloctab::is_live_ptr(ptr),
        ensures
            r == self.allocs.contains_live(ptr),
    {
        self.allocs.is_tracked(ptr)
    }
}

/// In a well-formed recorder, no slot's free counters ever exceed its
/// allocation counters: every free that was credited had a live mapping
/// behind it, and live mappings only exist for allocations that were
/// counted first.
pub proof fn lemma_frees_never_exceed_allocs(r: Recorder, i: int)
    requires
        r.wf(),
        0 <= i < r.sites.spec_cap(),
    ensures
        r.sites.free_counts@[i] <= r.sites.alloc_counts@[i],
        r.sites.free_bytes@[i] <= r.sites.alloc_bytes@[i],
{
    if r.sites.occupied(i) {
        assert(r.slot_covered(i));
        lemma_counts_nonneg(
            r.allocs.ptrs@,
            r.allocs.keys@,
            r.allocs.sizes@,
            r.sites.hashes@[i],
            r.allocs.spec_cap(),
        );
    } else {
        assert(r.sites.slot_wf(i));
    }
}

/// A key present in a table stays present in any later snapshot.
pub proof fn lemma_has_key_monotone(a: CallSiteTable, b: CallSiteTable, k: u64)
    requires
        a.evolves_to(b),
        a.has_key(k),
    ensures
        b.has_key(k),
{
    let i = choose|i: int| 0 <= i < a.spec_cap() && a.hashes@[i] == k && k != 0;
    assert(a.occupied(i));
    assert(b.hashes@[i] == k);
}

/// A table with no empty slot never regains one.
pub proof fn lemma_full_stays_full(a: CallSiteTable, b: CallSiteTable)
    requires
        a.evolves_to(b),
        !a.has_empty(),
    ensures
        !b.has_empty(),
{
    assert forall|i: int| 0 <= i < b.spec_cap() implies b.occupied(i) by {
        assert(a.occupied(i));
        assert(b.hashes@[i] == a.hashes@[i]);
    }
}

} // verus!
