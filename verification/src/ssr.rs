//! The call-site half of the shared stats region: an open-addressed table
//! mapping non-zero 64-bit stack keys to per-call-site aggregates.
//!
//! Each slot carries the key itself (`hash`, 0 meaning empty), five
//! monotonic counters, and the representative stack stored once when the
//! slot is first claimed and never overwritten. Collisions are resolved by
//! linear probing; when the table is full, new keys fall back to slot 0,
//! which fuses all overflow aggregates.
//!
//! The table is modelled with one vector per field, mirroring the region's
//! column-for-column ABI; all operations preserve the invariants that
//! occupied slots keep their key and representative stack forever and that
//! counters only grow.

use vstd::prelude::*;

use crate::probe::{lemma_probe_roundtrip, lemma_slot_at_inverse, probe_dist, slot_at, wrap_slot};

verus! {

/// Hard cap on captured stack depth.
pub const MAX_STACK_DEPTH: usize = 64;

/// Default number of call-site slots in the shared region.
pub const CALLSITE_CAPACITY: usize = 8192;

/// Largest supported table capacity.
pub const MAX_TABLE_CAPACITY: usize = 0x8000_0000;

/// The call-site aggregate table.
pub struct CallSiteTable {
    /// The stack key of each slot; 0 marks an empty slot.
    pub hashes: Vec<u64>,
    /// Number of allocations attributed to each slot.
    pub alloc_counts: Vec<u64>,
    /// Bytes allocated, attributed to each slot.
    pub alloc_bytes: Vec<u64>,
    /// Number of frees attributed to each slot.
    pub free_counts: Vec<u64>,
    /// Bytes freed, attributed to each slot.
    pub free_bytes: Vec<u64>,
    /// Number of CPU samples whose stack folded to each slot's key.
    pub cpu_samples: Vec<u64>,
    /// Depth of each slot's representative stack.
    pub stack_depths: Vec<usize>,
    /// The representative stack of each slot, written once at claim time.
    pub stacks: Vec<Vec<u64>>,
}

impl CallSiteTable {
    /// Number of slots.
    pub open spec fn spec_cap(self) -> int {
        self.hashes@.len() as int
    }

    /// All field vectors have the same length.
    pub open spec fn lens_ok(self) -> bool {
        &&& self.alloc_counts@.len() == self.spec_cap()
        &&& self.alloc_bytes@.len() == self.spec_cap()
        &&& self.free_counts@.len() == self.spec_cap()
        &&& self.free_bytes@.len() == self.spec_cap()
        &&& self.cpu_samples@.len() == self.spec_cap()
        &&& self.stack_depths@.len() == self.spec_cap()
        &&& self.stacks@.len() == self.spec_cap()
    }

    /// A slot is occupied once its key is non-zero.
    pub open spec fn occupied(self, i: int) -> bool {
        self.hashes@[i] != 0
    }

    /// The home slot of a key: where its probe sequence starts.
    pub open spec fn spec_home(self, key: u64) -> int {
        key as int % self.spec_cap()
    }

    /// Per-slot shape: empty slots are fully zeroed, and every slot's
    /// recorded depth matches its stored representative stack.
    pub open spec fn slot_wf(self, i: int) -> bool {
        &&& !self.occupied(i) ==> {
            &&& self.alloc_counts@[i] == 0
            &&& self.alloc_bytes@[i] == 0
            &&& self.free_counts@[i] == 0
            &&& self.free_bytes@[i] == 0
            &&& self.cpu_samples@[i] == 0
            &&& self.stack_depths@[i] == 0
            &&& self.stacks@[i]@.len() == 0
        }
        &&& self.stack_depths@[i] == self.stacks@[i]@.len()
        &&& self.stacks@[i]@.len() <= MAX_STACK_DEPTH
    }

    /// No key appears in two slots.
    pub open spec fn keys_unique(self) -> bool {
        forall|i: int, j: int|
            0 <= i < self.spec_cap() && 0 <= j < self.spec_cap() && i != j && self.occupied(i)
                && self.occupied(j) ==> self.hashes@[i] != self.hashes@[j]
    }

    /// Every occupied slot is reachable from its key's home slot: all slots
    /// on the probe path before it are themselves occupied, so a probe for
    /// the key never stops early at an empty slot.
    pub open spec fn reach_ok(self, i: int) -> bool {
        self.occupied(i) ==> forall|d: int|
            0 <= d < probe_dist(self.spec_home(self.hashes@[i]), i, self.spec_cap())
                ==> self.occupied(#[trigger] slot_at(
                self.spec_home(self.hashes@[i]),
                d,
                self.spec_cap(),
            ))
    }

    /// Table well-formedness.
    pub open spec fn wf(self) -> bool {
        &&& 1 <= self.spec_cap() <= MAX_TABLE_CAPACITY
        &&& self.lens_ok()
        &&& forall|i: int| 0 <= i < self.spec_cap() ==> self.slot_wf(i)
        &&& self.keys_unique()
        &&& forall|i: int| 0 <= i < self.spec_cap() ==> self.reach_ok(i)
    }

    /// Some slot holds this key.
    pub open spec fn has_key(self, key: u64) -> bool {
        exists|i: int| 0 <= i < self.spec_cap() && self.hashes@[i] == key && key != 0
    }

    /// Some slot is still empty.
    pub open spec fn has_empty(self) -> bool {
        exists|i: int| 0 <= i < self.spec_cap() && !self.occupied(i)
    }

    /// Two tables hold exactly the same slots.
    pub open spec fn same_sites(self, other: CallSiteTable) -> bool {
        &&& self.hashes@ == other.hashes@
        &&& self.alloc_counts@ == other.alloc_counts@
        &&& self.alloc_bytes@ == other.alloc_bytes@
        &&& self.free_counts@ == other.free_counts@
        &&& self.free_bytes@ == other.free_bytes@
        &&& self.cpu_samples@ == other.cpu_samples@
        &&& self.stack_depths@ == other.stack_depths@
        &&& self.stacks@ == other.stacks@
    }

    /// How one reader snapshot may evolve into a later one: the capacity is
    /// fixed, an occupied slot keeps its key and representative stack
    /// forever, empty slots only ever become occupied, and every counter is
    /// monotonic.
    pub open spec fn evolves_to(self, later: CallSiteTable) -> bool {
        &&& later.spec_cap() == self.spec_cap()
        &&& forall|i: int|
            0 <= i < self.spec_cap() && self.occupied(i) ==> later.hashes@[i] == self.hashes@[i]
        &&& forall|i: int|
            0 <= i < self.spec_cap() && self.occupied(i) ==> later.stacks@[i]@ == self.stacks@[i]@
                && later.stack_depths@[i] == self.stack_depths@[i]
        &&& forall|i: int|
            0 <= i < self.spec_cap() ==> self.alloc_counts@[i] <= #[trigger] later.alloc_counts@[i]
        &&& forall|i: int|
            0 <= i < self.spec_cap() ==> self.alloc_bytes@[i] <= #[trigger] later.alloc_bytes@[i]
        &&& forall|i: int|
            0 <= i < self.spec_cap() ==> self.free_counts@[i] <= #[trigger] later.free_counts@[i]
        &&& forall|i: int|
            0 <= i < self.spec_cap() ==> self.free_bytes@[i] <= #[trigger] later.free_bytes@[i]
        &&& forall|i: int|
            0 <= i < self.spec_cap() ==> self.cpu_samples@[i] <= #[trigger] later.cpu_samples@[i]
    }

    /// Create an empty table with the given number of slots.
    pub fn new(capacity: usize) -> (t: CallSiteTable)
        requires
            1 <= capacity <= MAX_TABLE_CAPACITY,
        ensures
            t.wf(),
            t.spec_cap() == capacity,
            forall|i: int| 0 <= i < capacity ==> !t.occupied(i),
    {
        let mut hashes: Vec<u64> = Vec::new();
        let mut alloc_counts: Vec<u64> = Vec::new();
        let mut alloc_bytes: Vec<u64> = Vec::new();
        let mut free_counts: Vec<u64> = Vec::new();
        let mut free_bytes: Vec<u64> = Vec::new();
        let mut cpu_samples: Vec<u64> = Vec::new();
        let mut stack_depths: Vec<usize> = Vec::new();
        let mut stacks: Vec<Vec<u64>> = Vec::new();
        let mut i: usize = 0;
        while i < capacity
            invariant
                i <= capacity,
                hashes@.len() == i,
                alloc_counts@.len() == i,
                alloc_bytes@.len() == i,
                free_counts@.len() == i,
                free_bytes@.len() == i,
                cpu_samples@.len() == i,
                stack_depths@.len() == i,
                stacks@.len() == i,
                forall|j: int| 0 <= j < i ==> hashes@[j] == 0,
                forall|j: int| 0 <= j < i ==> alloc_counts@[j] == 0,
                forall|j: int| 0 <= j < i ==> alloc_bytes@[j] == 0,
                forall|j: int| 0 <= j < i ==> free_counts@[j] == 0,
                forall|j: int| 0 <= j < i ==> free_bytes@[j] == 0,
                forall|j: int| 0 <= j < i ==> cpu_samples@[j] == 0,
                forall|j: int| 0 <= j < i ==> stack_depths@[j] == 0,
                forall|j: int| 0 <= j < i ==> stacks@[j]@.len() == 0,
            decreases capacity - i,
        {
            hashes.push(0);
            alloc_counts.push(0);
            alloc_bytes.push(0);
            free_counts.push(0);
            free_bytes.push(0);
            cpu_samples.push(0);
            stack_depths.push(0);
            stacks.push(Vec::new());
            i += 1;
        }
        CallSiteTable { hashes, alloc_counts, alloc_bytes, free_counts, free_bytes, cpu_samples, stack_depths, stacks }
    }

    /// Number of slots, as executable code sees it.
    pub fn capacity(&self) -> (c: usize)
        ensures
            c == self.spec_cap(),
    {
        self.hashes.len()
    }

    /// The home slot a probe for `key` starts at.
    fn home(&self, key: u64) -> (h: usize)
        requires
            self.wf(),
        ensures
            h == self.spec_home(key),
            h < self.spec_cap(),
    {
        (key % (self.hashes.len() as u64)) as usize
    }

    /// Look up the slot that holds `key`, probing linearly from its home
    /// slot and stopping at the first empty slot. Returns the slot index
    /// exactly when some slot holds the key.
    pub fn find(&self, key: u64) -> (r: Option<usize>)
        requires
            self.wf(),
            key != 0,
        ensures
            match r {
                Some(i) => i < self.spec_cap() && self.hashes@[i as int] == key,
                None => !self.has_key(key),
            },
    {
        let cap = self.hashes.len();
        let h = self.home(key);
        let mut j: usize = 0;
        while j < cap
            invariant
                self.wf(),
                key != 0,
                cap == self.spec_cap(),
                h == self.spec_home(key),
                h < cap,
                j <= cap,
                forall|d: int|
                    0 <= d < j ==> {
                        let s = #[trigger] slot_at(h as int, d, cap as int);
                        self.occupied(s) && self.hashes@[s] != key
                    },
            decreases cap - j,
        {
            let idx = wrap_slot(h, j, cap);
            proof {
                lemma_slot_at_inverse(h as int, j as int, cap as int);
            }
            let slot_hash = self.hashes[idx];
            if slot_hash == key {
                return Some(idx);
            }
            if slot_hash == 0 {
                proof {
                    self.lemma_probe_miss(key, j as int);
                }
                return None;
            }
            j += 1;
        }
        proof {
            assert forall|i: int| 0 <= i < self.spec_cap() implies self.hashes@[i] != key by {
                lemma_probe_roundtrip(h as int, i, cap as int);
                let d = probe_dist(h as int, i, cap as int);
                assert(slot_at(h as int, d, cap as int) == i);
            }
        }
        None
    }

    /// If a probe for `key` has seen `j` occupied slots none of which hold
    /// the key, and the next slot is empty, then no slot holds the key.
    proof fn lemma_probe_miss(&self, key: u64, j: int)
        requires
            self.wf(),
            key != 0,
            0 <= j < self.spec_cap(),
            !self.occupied(slot_at(self.spec_home(key), j, self.spec_cap())),
            forall|d: int|
                0 <= d < j ==> {
                    let s = #[trigger] slot_at(self.spec_home(key), d, self.spec_cap());
                    self.occupied(s) && self.hashes@[s] != key
                },
        ensures
            !self.has_key(key),
    {
        let cap = self.spec_cap();
        let h = self.spec_home(key);
        assert forall|i: int| 0 <= i < cap implies self.hashes@[i] != key by {
            if self.hashes@[i] == key {
                assert(self.occupied(i));
                lemma_probe_roundtrip(h, i, cap);
                let d = probe_dist(h, i, cap);
                assert(self.reach_ok(i));
                if d < j {
                    assert(self.hashes@[slot_at(h, d, cap)] != key);
                    assert(slot_at(h, d, cap) == i);
                } else if d == j {
                    assert(!self.occupied(i));
                } else {
                    assert(self.occupied(slot_at(h, j, cap)));
                }
            }
        }
    }

    /// Find the slot for `key`, claiming a fresh slot with the given
    /// representative stack if the key is new. When the table is full and
    /// the key absent, slot 0 serves as the shared overflow sink and the
    /// table is left unchanged.
    pub fn find_or_create(&mut self, key: u64, stack: &Vec<u64>) -> (idx: usize)
        requires
            old(self).wf(),
            key != 0,
            stack@.len() <= MAX_STACK_DEPTH,
        ensures
            final(self).wf(),
            final(self).spec_cap() == old(self).spec_cap(),
            idx < final(self).spec_cap(),
            old(self).evolves_to(*final(self)),
            old(self).has_key(key) ==> final(self).same_sites(*old(self)) && final(self).hashes@[idx as int] == key,
            !old(self).has_key(key) && old(self).has_empty() ==> {
                &&& !old(self).occupied(idx as int)
                &&& final(self).hashes@ == old(self).hashes@.update(idx as int, key)
                &&& final(self).stacks@[idx as int]@ == stack@
                &&& final(self).stack_depths@[idx as int] == stack@.len()
                &&& final(self).alloc_counts@ == old(self).alloc_counts@
                &&& final(self).alloc_bytes@ == old(self).alloc_bytes@
                &&& final(self).free_counts@ == old(self).free_counts@
                &&& final(self).free_bytes@ == old(self).free_bytes@
                &&& final(self).cpu_samples@ == old(self).cpu_samples@
                &&& forall|i: int|
                    0 <= i < final(self).spec_cap() && i != idx ==> final(self).stacks@[i]@
                        == old(self).stacks@[i]@ && final(self).stack_depths@[i]
                        == old(self).stack_depths@[i]
            },
            !old(self).has_key(key) && !old(self).has_empty() ==> final(self).same_sites(
                *old(self),
            ) && idx == 0,
            final(self).has_key(key) || (!old(self).has_key(key) && !old(self).has_empty()),
            final(self).hashes@[idx as int] == key || (!old(self).has_key(key) && !old(self).has_empty()),
    {
        let cap = self.hashes.len();
        let h = self.home(key);
        let mut j: usize = 0;
        while j < cap
            invariant
                self.wf(),
                self.same_sites(*old(self)),
                key != 0,
                cap == self.spec_cap(),
                h == self.spec_home(key),
                h < cap,
                j <= cap,
                stack@.len() <= MAX_STACK_DEPTH,
                forall|d: int|
                    0 <= d < j ==> {
                        let s = #[trigger] slot_at(h as int, d, cap as int);
                        self.occupied(s) && self.hashes@[s] != key
                    },
            decreases cap - j,
        {
            let idx = wrap_slot(h, j, cap);
            proof {
                lemma_slot_at_inverse(h as int, j as int, cap as int);
            }
            let slot_hash = self.hashes[idx];
            if slot_hash == key {
                proof {
                    assert(old(self).hashes@[idx as int] == key);
                    assert(old(self).has_key(key));
                }
                return idx;
            }
            if slot_hash == 0 {
                proof {
                    self.lemma_probe_miss(key, j as int);
                    assert(old(self).hashes@ == self.hashes@);
                    assert(!old(self).has_key(key));
                    assert(!old(self).occupied(idx as int));
                    assert(old(self).has_empty());
                }
                let ghost pre = *self;
                let depth = stack.len();
                let copied = copy_stack(stack);
                self.hashes.set(idx, key);
                self.stack_depths.set(idx, depth);
                self.stacks.set(idx, copied);
                proof {
                    self.lemma_claim_preserves_wf(pre, idx as int, key, j as int);
                    assert(self.hashes@[idx as int] == key);
                    assert(self.has_key(key));
                    assert(pre.same_sites(*old(self)));
                    assert(self.hashes@ == old(self).hashes@.update(idx as int, key));
                    assert forall|i: int|
                        0 <= i < self.spec_cap() && i != idx implies self.stacks@[i]@
                            == old(self).stacks@[i]@ && self.stack_depths@[i]
                            == old(self).stack_depths@[i] by {
                        assert(self.stacks@[i] == pre.stacks@[i]);
                    }
                }
                return idx;
            }
            j += 1;
        }
        proof {
            assert forall|i: int| 0 <= i < old(self).spec_cap() implies #[trigger] old(self).hashes@[i] != key && old(self).hashes@[i] != 0 by {
                lemma_probe_roundtrip(h as int, i, cap as int);
                let d = probe_dist(h as int, i, cap as int);
                assert(slot_at(h as int, d, cap as int) == i);
                assert(self.occupied(i) && self.hashes@[i] != key);
                assert(old(self).hashes@[i] == self.hashes@[i]);
            }
            assert(!old(self).has_key(key));
            assert(!old(self).has_empty());
        }
        0
    }

    /// Claiming an empty slot on the probe path of a fresh key preserves
    /// every table invariant.
    proof fn lemma_claim_preserves_wf(&self, pre: CallSiteTable, idx: int, key: u64, j: int)
        requires
            pre.wf(),
            key != 0,
            !pre.has_key(key),
            0 <= idx < pre.spec_cap(),
            0 <= j < pre.spec_cap(),
            idx == slot_at(pre.spec_home(key), j, pre.spec_cap()),
            !pre.occupied(idx),
            forall|d: int|
                0 <= d < j ==> pre.occupied(#[trigger] slot_at(
                    pre.spec_home(key),
                    d,
                    pre.spec_cap(),
                )),
            self.hashes@ == pre.hashes@.update(idx, key),
            self.stack_depths@ == pre.stack_depths@.update(idx, self.stacks@[idx]@.len() as usize),
            self.stacks@.len() == pre.stacks@.len(),
            self.stacks@[idx]@.len() <= MAX_STACK_DEPTH,
            forall|i: int|
                0 <= i < pre.spec_cap() && i != idx ==> self.stacks@[i] == pre.stacks@[i],
            self.alloc_counts@ == pre.alloc_counts@,
            self.alloc_bytes@ == pre.alloc_bytes@,
            self.free_counts@ == pre.free_counts@,
            self.free_bytes@ == pre.free_bytes@,
            self.cpu_samples@ == pre.cpu_samples@,
        ensures
            self.wf(),
            pre.evolves_to(*self),
    {
        let cap = pre.spec_cap();
        assert forall|i: int| 0 <= i < cap implies self.slot_wf(i) by {
            assert(pre.slot_wf(i));
            if i != idx {
                assert(self.hashes@[i] == pre.hashes@[i]);
            }
        }
        assert forall|i: int, jj: int|
            0 <= i < cap && 0 <= jj < cap && i != jj && self.occupied(i) && self.occupied(
                jj,
            ) implies self.hashes@[i] != self.hashes@[jj] by {
            if i != idx && jj != idx {
                assert(pre.occupied(i) && pre.occupied(jj));
            } else if i == idx {
                assert(pre.occupied(jj));
                assert(pre.hashes@[jj] != key);
            } else {
                assert(pre.occupied(i));
                assert(pre.hashes@[i] != key);
            }
        }
        assert forall|i: int| 0 <= i < cap implies self.reach_ok(i) by {
            if self.occupied(i) {
                if i == idx {
                    lemma_slot_at_inverse(pre.spec_home(key), j, cap);
                    assert(probe_dist(self.spec_home(self.hashes@[i]), i, cap) == j);
                    assert forall|d: int|
                        0 <= d < probe_dist(self.spec_home(self.hashes@[i]), i, cap)
                            implies self.occupied(#[trigger] slot_at(
                            self.spec_home(self.hashes@[i]),
                            d,
                            cap,
                        )) by {
                        let s = slot_at(self.spec_home(key), d, cap);
                        assert(pre.occupied(s));
                        if s != idx {
                            assert(self.hashes@[s] == pre.hashes@[s]);
                        }
                    }
                } else {
                    assert(pre.occupied(i));
                    assert(pre.reach_ok(i));
                    assert(self.hashes@[i] == pre.hashes@[i]);
                    assert forall|d: int|
                        0 <= d < probe_dist(self.spec_home(self.hashes@[i]), i, cap)
                            implies self.occupied(#[trigger] slot_at(
                            self.spec_home(self.hashes@[i]),
                            d,
                            cap,
                        )) by {
                        let s = slot_at(pre.spec_home(pre.hashes@[i]), d, cap);
                        assert(pre.occupied(s));
                        if s != idx {
                            assert(self.hashes@[s] == pre.hashes@[s]);
                        }
                    }
                }
            }
        }
    }

    /// Attribute one allocation of `size` bytes to the slot `idx`.
    /// The counters saturate rather than wrap, so they never decrease.
    pub fn add_alloc(&mut self, idx: usize, size: u64)
        requires
            old(self).wf(),
            idx < old(self).spec_cap(),
            old(self).occupied(idx as int),
        ensures
            final(self).wf(),
            old(self).evolves_to(*final(self)),
            final(self).hashes@ == old(self).hashes@,
            final(self).stacks@ == old(self).stacks@,
            final(self).stack_depths@ == old(self).stack_depths@,
            final(self).free_counts@ == old(self).free_counts@,
            final(self).free_bytes@ == old(self).free_bytes@,
            final(self).cpu_samples@ == old(self).cpu_samples@,
            final(self).alloc_counts@ == old(self).alloc_counts@.update(
                idx as int,
                sat_add(old(self).alloc_counts@[idx as int], 1),
            ),
            final(self).alloc_bytes@ == old(self).alloc_bytes@.update(
                idx as int,
                sat_add(old(self).alloc_bytes@[idx as int], size),
            ),
    {
        let c = self.alloc_counts[idx];
        self.alloc_counts.set(idx, c.saturating_add(1));
        let b = self.alloc_bytes[idx];
        self.alloc_bytes.set(idx, b.saturating_add(size));
        proof {
            assert forall|i: int|
                0 <= i < old(self).spec_cap() && !old(self).occupied(i) implies {
                &&& self.alloc_counts@[i] == 0
                &&& self.alloc_bytes@[i] == 0
                &&& self.free_counts@[i] == 0
                &&& self.free_bytes@[i] == 0
                &&& self.cpu_samples@[i] == 0
            } by {
                assert(old(self).slot_wf(i));
            }
            lemma_same_layout_wf(*old(self), *self);
        }
    }

    /// Attribute one free of `size` bytes to the slot `idx`.
    pub fn add_free(&mut self, idx: usize, size: u64)
        requires
            old(self).wf(),
            idx < old(self).spec_cap(),
            old(self).occupied(idx as int),
        ensures
            final(self).wf(),
            old(self).evolves_to(*final(self)),
            final(self).hashes@ == old(self).hashes@,
            final(self).stacks@ == old(self).stacks@,
            final(self).stack_depths@ == old(self).stack_depths@,
            final(self).alloc_counts@ == old(self).alloc_counts@,
            final(self).alloc_bytes@ == old(self).alloc_bytes@,
            final(self).cpu_samples@ == old(self).cpu_samples@,
            final(self).free_counts@ == old(self).free_counts@.update(
                idx as int,
                sat_add(old(self).free_counts@[idx as int], 1),
            ),
            final(self).free_bytes@ == old(self).free_bytes@.update(
                idx as int,
                sat_add(old(self).free_bytes@[idx as int], size),
            ),
    {
        let c = self.free_counts[idx];
        self.free_counts.set(idx, c.saturating_add(1));
        let b = self.free_bytes[idx];
        self.free_bytes.set(idx, b.saturating_add(size));
        proof {
            assert forall|i: int|
                0 <= i < old(self).spec_cap() && !old(self).occupied(i) implies {
                &&& self.alloc_counts@[i] == 0
                &&& self.alloc_bytes@[i] == 0
                &&& self.free_counts@[i] == 0
                &&& self.free_bytes@[i] == 0
                &&& self.cpu_samples@[i] == 0
            } by {
                assert(old(self).slot_wf(i));
            }
            lemma_same_layout_wf(*old(self), *self);
        }
    }

    /// Attribute one CPU sample to the slot `idx`.
    pub fn add_cpu(&mut self, idx: usize)
        requires
            old(self).wf(),
            idx < old(self).spec_cap(),
            old(self).occupied(idx as int),
        ensures
            final(self).wf(),
            old(self).evolves_to(*final(self)),
            final(self).hashes@ == old(self).hashes@,
            final(self).stacks@ == old(self).stacks@,
            final(self).stack_depths@ == old(self).stack_depths@,
            final(self).alloc_counts@ == old(self).alloc_counts@,
            final(self).alloc_bytes@ == old(self).alloc_bytes@,
            final(self).free_counts@ == old(self).free_counts@,
            final(self).free_bytes@ == old(self).free_bytes@,
            final(self).cpu_samples@ == old(self).cpu_samples@.update(
                idx as int,
                sat_add(old(self).cpu_samples@[idx as int], 1),
            ),
    {
        let c = self.cpu_samples[idx];
        self.cpu_samples.set(idx, c.saturating_add(1));
        proof {
            assert forall|i: int|
                0 <= i < old(self).spec_cap() && !old(self).occupied(i) implies {
                &&& self.alloc_counts@[i] == 0
                &&& self.alloc_bytes@[i] == 0
                &&& self.free_counts@[i] == 0
                &&& self.free_bytes@[i] == 0
                &&& self.cpu_samples@[i] == 0
            } by {
                assert(old(self).slot_wf(i));
            }
            lemma_same_layout_wf(*old(self), *self);
        }
    }
}

/// One call site's counters, as a reader snapshot sees them.
pub struct SiteStats {
    /// Number of allocations attributed to the site.
    pub alloc_count: u64,
    /// Bytes allocated at the site.
    pub alloc_bytes: u64,
    /// Number of frees attributed to the site.
    pub free_count: u64,
    /// Bytes freed at the site.
    pub free_bytes: u64,
    /// CPU samples attributed to the site.
    pub cpu_samples: u64,
}

impl CallSiteTable {
    /// Read the counters of the slot holding `key`, exactly when one does.
    pub fn stats_for(&self, key: u64) -> (r: Option<SiteStats>)
        requires
            self.wf(),
            key != 0,
        ensures
            match r {
                Some(s) => exists|i: int|
                    {
                        &&& 0 <= i < self.spec_cap()
                        &&& #[trigger] self.hashes@[i] == key
                        &&& s.alloc_count == self.alloc_counts@[i]
                        &&& s.alloc_bytes == self.alloc_bytes@[i]
                        &&& s.free_count == self.free_counts@[i]
                        &&& s.free_bytes == self.free_bytes@[i]
                        &&& s.cpu_samples == self.cpu_samples@[i]
                    },
                None => !self.has_key(key),
            },
    {
        match self.find(key) {
            Some(i) => {
                let s = SiteStats {
                    alloc_count: self.alloc_counts[i],
                    alloc_bytes: self.alloc_bytes[i],
                    free_count: self.free_counts[i],
                    free_bytes: self.free_bytes[i],
                    cpu_samples: self.cpu_samples[i],
                };
                Some(s)
            },
            None => None,
        }
    }

    /// Read the representative stack stored for `key`, exactly when a slot
    /// holds the key.
    pub fn stack_for(&self, key: u64) -> (r: Option<Vec<u64>>)
        requires
            self.wf(),
            key != 0,
        ensures
            match r {
                Some(s) => exists|i: int|
                    {
                        &&& 0 <= i < self.spec_cap()
                        &&& #[trigger] self.hashes@[i] == key
                        &&& s@ == self.stacks@[i]@
                        &&& s@.len() == self.stack_depths@[i]
                    },
                None => !self.has_key(key),
            },
    {
        match self.find(key) {
            Some(i) => {
                let s = copy_stack(&self.stacks[i]);
                proof {
                    assert(self.slot_wf(i as int));
                    assert(self.hashes@[i as int] == key && s@ == self.stacks@[i as int]@
                        && s@.len() == self.stack_depths@[i as int]);
                }
                Some(s)
            },
            None => None,
        }
    }
}

/// Saturating 64-bit addition, as a specification value.
pub open spec fn sat_add(a: u64, b: u64) -> u64 {
    if a + b > u64::MAX {
        u64::MAX
    } else {
        (a + b) as u64
    }
}

/// A table whose keys, stacks and depths are unchanged, whose vectors kept
/// their lengths, and whose empty slots are still zeroed, stays well formed
/// whatever happened to the counters of occupied slots.
proof fn lemma_same_layout_wf(pre: CallSiteTable, post: CallSiteTable)
    requires
        pre.wf(),
        post.lens_ok(),
        post.hashes@ == pre.hashes@,
        post.stacks@ == pre.stacks@,
        post.stack_depths@ == pre.stack_depths@,
        forall|i: int|
            0 <= i < pre.spec_cap() && !pre.occupied(i) ==> {
                &&& post.alloc_counts@[i] == 0
                &&& post.alloc_bytes@[i] == 0
                &&& post.free_counts@[i] == 0
                &&& post.free_bytes@[i] == 0
                &&& post.cpu_samples@[i] == 0
            },
    ensures
        post.wf(),
{
    assert(post.spec_cap() == pre.spec_cap());
    let cap = pre.spec_cap();
    assert forall|i: int| 0 <= i < cap implies post.slot_wf(i) by {
        assert(pre.slot_wf(i));
    }
    assert forall|i: int, j: int|
        0 <= i < cap && 0 <= j < cap && i != j && post.occupied(i) && post.occupied(
            j,
        ) implies post.hashes@[i] != post.hashes@[j] by {
        assert(pre.occupied(i) && pre.occupied(j));
    }
    assert forall|i: int| 0 <= i < cap implies post.reach_ok(i) by {
        if post.occupied(i) {
            assert(pre.occupied(i));
            assert(pre.reach_ok(i));
            assert forall|d: int|
                0 <= d < probe_dist(post.spec_home(post.hashes@[i]), i, cap)
                    implies post.occupied(#[trigger] slot_at(
                    post.spec_home(post.hashes@[i]),
                    d,
                    cap,
                )) by {
                assert(pre.occupied(slot_at(pre.spec_home(pre.hashes@[i]), d, cap)));
            }
        }
    }
}

/// Copy a captured stack so the table can own its representative.
pub fn copy_stack(v: &Vec<u64>) -> (r: Vec<u64>)
    ensures
        r@ == v@,
{
    let mut r: Vec<u64> = Vec::new();
    let mut i: usize = 0;
    while i < v.len()
        invariant
            i <= v@.len(),
            r@ == v@.subrange(0, i as int),
        decreases v@.len() - i,
    {
        r.push(v[i]);
        proof {
            assert(r@ =~= v@.subrange(0, i + 1));
        }
        i += 1;
    }
    proof {
        assert(r@ =~= v@);
    }
    r
}

/// Whenever a reader sees an occupied slot, the slot's whole representative
/// stack is there: its stored depth equals the number of stored entries,
/// never exceeding the capture bound. This is the sequential rendering of
/// the region's publication ordering, under which the stack is written
/// before the key becomes visible.
pub proof fn lemma_published_stack(t: CallSiteTable, i: int)
    requires
        t.wf(),
        0 <= i < t.spec_cap(),
        t.occupied(i),
    ensures
        t.stacks@[i]@.len() == t.stack_depths@[i],
        t.stack_depths@[i] <= MAX_STACK_DEPTH,
{
    assert(t.slot_wf(i));
}

/// Tables with the same key words agree on which keys are present and on
/// whether an empty slot remains.
pub proof fn lemma_same_hashes_keys(a: CallSiteTable, b: CallSiteTable)
    requires
        a.hashes@ == b.hashes@,
    ensures
        forall|k: u64| #[trigger] a.has_key(k) <==> b.has_key(k),
        a.has_empty() <==> b.has_empty(),
{
    assert forall|k: u64| #[trigger] a.has_key(k) <==> b.has_key(k) by {
        if a.has_key(k) {
            let i = choose|i: int| 0 <= i < a.spec_cap() && a.hashes@[i] == k && k != 0;
            assert(b.hashes@[i] == k);
        }
        if b.has_key(k) {
            let i = choose|i: int| 0 <= i < b.spec_cap() && b.hashes@[i] == k && k != 0;
            assert(a.hashes@[i] == k);
        }
    }
    if a.has_empty() {
        let i = choose|i: int| 0 <= i < a.spec_cap() && !a.occupied(i);
        assert(!b.occupied(i));
    }
    if b.has_empty() {
        let i = choose|i: int| 0 <= i < b.spec_cap() && !b.occupied(i);
        assert(!a.occupied(i));
    }
}

/// Snapshot evolution is reflexive and transitive: across any chain of
/// recorder operations, every counter of every slot is monotonic, and keys
/// and representative stacks are stable.
pub proof fn lemma_evolves_trans(a: CallSiteTable, b: CallSiteTable, c: CallSiteTable)
    requires
        a.evolves_to(b),
        b.evolves_to(c),
    ensures
        a.evolves_to(c),
        a.evolves_to(a),
{
    assert forall|i: int|
        0 <= i < a.spec_cap() && a.occupied(i) implies c.hashes@[i] == a.hashes@[i] by {
        assert(b.hashes@[i] == a.hashes@[i]);
        assert(b.occupied(i));
    }
    assert forall|i: int|
        0 <= i < a.spec_cap() && a.occupied(i) implies c.stacks@[i]@ == a.stacks@[i]@
            && c.stack_depths@[i] == a.stack_depths@[i] by {
        assert(b.hashes@[i] == a.hashes@[i]);
        assert(b.occupied(i));
    }
}

} // verus!
