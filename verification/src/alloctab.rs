//! The live-allocation half of the shared stats region: an open-addressed
//! table mapping live pointers to the size and stack key of the allocation
//! that produced them.
//!
//! A slot's pointer word encodes its occupancy: 0 is empty, `u64::MAX` is a
//! tombstone (deleted, but probing must continue past it), anything else is
//! a live mapping. Slots are indexed by `(ptr >> 4) mod capacity` and probed
//! linearly, but only within a bounded window, so the hot path can never
//! degrade to a full-table scan: an insert that finds no slot inside the
//! window drops tracking silently.

use vstd::prelude::*;

use crate::probe::{lemma_probe_roundtrip, lemma_slot_at_inverse, probe_dist, slot_at, wrap_slot};
use crate::ssr::MAX_TABLE_CAPACITY;

verus! {

/// Default number of live-allocation slots in the shared region.
pub const ALLOC_CAPACITY: usize = 262144;

/// The tombstone marker: a deleted slot that probes must walk past.
pub const TOMBSTONE_PTR: u64 = 0xFFFF_FFFF_FFFF_FFFF;

/// Bound on how far a probe may walk from a pointer's home slot.
pub const PROBE_WINDOW: usize = 1024;

/// A pointer value that can stand for a live mapping.
pub open spec fn is_live_ptr(p: u64) -> bool {
    p != 0 && p != TOMBSTONE_PTR
}

/// 1 when this slot holds a live mapping for stack key `k`, else 0.
pub open spec fn key_contrib(ptr: u64, key: u64, k: u64) -> int {
    if is_live_ptr(ptr) && key == k {
        1
    } else {
        0
    }
}

/// Number of live mappings with stack key `k` among the first `n` slots.
pub open spec fn count_upto(ptrs: Seq<u64>, keys: Seq<u64>, k: u64, n: int) -> int
    decreases n,
{
    if n <= 0 {
        0
    } else {
        count_upto(ptrs, keys, k, n - 1) + key_contrib(ptrs[n - 1], keys[n - 1], k)
    }
}

/// Total bytes of live mappings with stack key `k` among the first `n` slots.
pub open spec fn bytes_upto(ptrs: Seq<u64>, keys: Seq<u64>, sizes: Seq<u64>, k: u64, n: int) -> int
    decreases n,
{
    if n <= 0 {
        0
    } else {
        bytes_upto(ptrs, keys, sizes, k, n - 1) + key_contrib(ptrs[n - 1], keys[n - 1], k) * sizes[
            n - 1
        ]
    }
}

/// The live-allocation table.
pub struct AllocTable {
    /// The pointer of each slot: 0 empty, `TOMBSTONE_PTR` deleted,
    /// anything else a live mapping.
    pub ptrs: Vec<u64>,
    /// The allocation size recorded for each live mapping.
    pub sizes: Vec<u64>,
    /// The stack key recorded for each live mapping.
    pub keys: Vec<u64>,
}

impl AllocTable {
    /// Number of slots.
    pub open spec fn spec_cap(self) -> int {
        self.ptrs@.len() as int
    }

    /// All field vectors have the same length.
    pub open spec fn lens_ok(self) -> bool {
        &&& self.sizes@.len() == self.spec_cap()
        &&& self.keys@.len() == self.spec_cap()
    }

    /// This slot holds a live mapping.
    pub open spec fn live(self, i: int) -> bool {
        is_live_ptr(self.ptrs@[i])
    }

    /// This slot is occupied or a tombstone: a probe walks past it.
    pub open spec fn nonempty(self, i: int) -> bool {
        self.ptrs@[i] != 0
    }

    /// The probe window: how far any mapping may sit from its home slot.
    pub open spec fn spec_window(self) -> int {
        if self.spec_cap() < PROBE_WINDOW {
            self.spec_cap()
        } else {
            PROBE_WINDOW as int
        }
    }

    /// The home slot of a pointer. The low four bits are shifted away to
    /// avoid the clustering of real allocator returns, which are aligned.
    pub open spec fn spec_home(self, ptr: u64) -> int {
        (ptr >> 4) as int % self.spec_cap()
    }

    /// Every live mapping sits within the probe window of its home slot,
    /// with no empty slot on the way, so a bounded probe always reaches it.
    pub open spec fn reach_ok(self, i: int) -> bool {
        self.live(i) ==> {
            &&& probe_dist(self.spec_home(self.ptrs@[i]), i, self.spec_cap()) < self.spec_window()
            &&& forall|d: int|
                0 <= d < probe_dist(self.spec_home(self.ptrs@[i]), i, self.spec_cap())
                    ==> self.nonempty(#[trigger] slot_at(
                    self.spec_home(self.ptrs@[i]),
                    d,
                    self.spec_cap(),
                ))
        }
    }

    /// No pointer is mapped twice.
    pub open spec fn ptrs_unique(self) -> bool {
        forall|i: int, j: int|
            0 <= i < self.spec_cap() && 0 <= j < self.spec_cap() && i != j && self.live(i)
                && self.live(j) ==> self.ptrs@[i] != self.ptrs@[j]
    }

    /// Table well-formedness.
    pub open spec fn wf(self) -> bool {
        &&& 1 <= self.spec_cap() <= MAX_TABLE_CAPACITY
        &&& self.lens_ok()
        &&& forall|i: int| 0 <= i < self.spec_cap() ==> self.reach_ok(i)
        &&& self.ptrs_unique()
        &&& forall|i: int| 0 <= i < self.spec_cap() && self.live(i) ==> self.keys@[i] != 0
    }

    /// Some slot holds a live mapping for this pointer.
    pub open spec fn contains_live(self, p: u64) -> bool {
        exists|i: int| 0 <= i < self.spec_cap() && self.live(i) && self.ptrs@[i] == p
    }

    /// Some slot within the probe window of `p`'s home slot is free to
    /// claim (empty or a tombstone). Inserting `p` succeeds exactly when
    /// this holds.
    pub open spec fn spec_has_room(self, p: u64) -> bool {
        exists|d: int|
            0 <= d < self.spec_window() && !self.live(
                #[trigger] slot_at(self.spec_home(p), d, self.spec_cap()),
            )
    }

    /// The slot holding the live mapping of `p` (meaningful only when
    /// `contains_live(p)`; unique by `ptrs_unique`).
    pub open spec fn live_index_of(self, p: u64) -> int {
        choose|i: int| 0 <= i < self.spec_cap() && self.live(i) && self.ptrs@[i] == p
    }

    /// The size recorded for the live mapping of `p`.
    pub open spec fn entry_size(self, p: u64) -> u64 {
        self.sizes@[self.live_index_of(p)]
    }

    /// The stack key recorded for the live mapping of `p`.
    pub open spec fn entry_key(self, p: u64) -> u64 {
        self.keys@[self.live_index_of(p)]
    }

    /// Number of live mappings recorded for stack key `k`.
    pub open spec fn live_count_for(self, k: u64) -> int {
        count_upto(self.ptrs@, self.keys@, k, self.spec_cap())
    }

    /// Total live bytes recorded for stack key `k`.
    pub open spec fn live_bytes_for(self, k: u64) -> int {
        bytes_upto(self.ptrs@, self.keys@, self.sizes@, k, self.spec_cap())
    }

    /// Two tables hold exactly the same slots.
    pub open spec fn same_entries(self, other: AllocTable) -> bool {
        &&& self.ptrs@ == other.ptrs@
        &&& self.sizes@ == other.sizes@
        &&& self.keys@ == other.keys@
    }

    /// Create an empty table with the given number of slots.
    pub fn new(capacity: usize) -> (t: AllocTable)
        requires
            1 <= capacity <= MAX_TABLE_CAPACITY,
        ensures
            t.wf(),
            t.spec_cap() == capacity,
            forall|i: int| 0 <= i < capacity ==> !t.live(i) && !t.nonempty(i),
            forall|k: u64| t.live_count_for(k) == 0 && t.live_bytes_for(k) == 0,
            forall|p: u64| !t.contains_live(p),
    {
        let mut ptrs: Vec<u64> = Vec::new();
        let mut sizes: Vec<u64> = Vec::new();
        let mut keys: Vec<u64> = Vec::new();
        let mut i: usize = 0;
        while i < capacity
            invariant
                i <= capacity,
                ptrs@.len() == i,
                sizes@.len() == i,
                keys@.len() == i,
                forall|j: int| 0 <= j < i ==> ptrs@[j] == 0,
            decreases capacity - i,
        {
            ptrs.push(0);
            sizes.push(0);
            keys.push(0);
            i += 1;
        }
        let t = AllocTable { ptrs, sizes, keys };
        proof {
            assert forall|k: u64| t.live_count_for(k) == 0 && t.live_bytes_for(k) == 0 by {
                lemma_counts_zero_when_none_live(t.ptrs@, t.keys@, t.sizes@, k, t.spec_cap());
            }
        }
        t
    }

    /// Number of slots, as executable code sees it.
    pub fn capacity(&self) -> (c: usize)
        ensures
            c == self.spec_cap(),
    {
        self.ptrs.len()
    }

    /// The bounded probe length, as executable code sees it.
    fn window(&self) -> (w: usize)
        requires
            self.wf(),
        ensures
            w == self.spec_window(),
            0 < w <= self.spec_cap(),
    {
        let cap = self.ptrs.len();
        if cap < PROBE_WINDOW {
            cap
        } else {
            PROBE_WINDOW
        }
    }

    /// The home slot a probe for `ptr` starts at.
    fn home(&self, ptr: u64) -> (h: usize)
        requires
            self.wf(),
        ensures
            h == self.spec_home(ptr),
            h < self.spec_cap(),
    {
        ((ptr >> 4u64) % (self.ptrs.len() as u64)) as usize
    }

    /// Probe for the slot holding a live mapping of `ptr`. The probe walks
    /// past tombstones and foreign mappings, and gives up at the first empty
    /// slot or at the window's end; the reachability invariant makes this
    /// bounded search complete.
    fn probe_find(&self, ptr: u64) -> (r: Option<usize>)
        requires
            self.wf(),
            is_live_ptr(ptr),
        ensures
            match r {
                Some(i) => i < self.spec_cap() && self.live(i as int) && self.ptrs@[i as int]
                    == ptr,
                None => !self.contains_live(ptr),
            },
    {
        let cap = self.ptrs.len();
        let h = self.home(ptr);
        let w = self.window();
        let mut j: usize = 0;
        while j < w
            invariant
                self.wf(),
                is_live_ptr(ptr),
                cap == self.spec_cap(),
                h == self.spec_home(ptr),
                h < cap,
                w == self.spec_window(),
                w <= cap,
                j <= w,
                forall|d: int|
                    0 <= d < j ==> {
                        let s = #[trigger] slot_at(h as int, d, cap as int);
                        self.nonempty(s) && self.ptrs@[s] != ptr
                    },
            decreases w - j,
        {
            let idx = wrap_slot(h, j, cap);
            proof {
                lemma_slot_at_inverse(h as int, j as int, cap as int);
            }
            let p = self.ptrs[idx];
            if p == ptr {
                return Some(idx);
            }
            if p == 0 {
                proof {
                    self.lemma_probe_absent(ptr, j as int);
                }
                return None;
            }
            j += 1;
        }
        proof {
            self.lemma_window_absent(ptr);
        }
        None
    }

    /// A probe that hit an empty slot before finding `ptr` proves that no
    /// live mapping of `ptr` exists anywhere.
    proof fn lemma_probe_absent(&self, ptr: u64, j: int)
        requires
            self.wf(),
            is_live_ptr(ptr),
            0 <= j < self.spec_window(),
            !self.nonempty(slot_at(self.spec_home(ptr), j, self.spec_cap())),
            forall|d: int|
                0 <= d < j ==> {
                    let s = #[trigger] slot_at(self.spec_home(ptr), d, self.spec_cap());
                    self.nonempty(s) && self.ptrs@[s] != ptr
                },
        ensures
            !self.contains_live(ptr),
    {
        let cap = self.spec_cap();
        let h = self.spec_home(ptr);
        assert forall|i: int| 0 <= i < cap implies !(self.live(i) && self.ptrs@[i] == ptr) by {
            if self.live(i) && self.ptrs@[i] == ptr {
                lemma_probe_roundtrip(h, i, cap);
                let d = probe_dist(h, i, cap);
                assert(self.reach_ok(i));
                if d < j {
                    assert(self.ptrs@[slot_at(h, d, cap)] != ptr);
                    assert(slot_at(h, d, cap) == i);
                } else if d == j {
                    assert(!self.nonempty(i));
                } else {
                    assert(self.nonempty(slot_at(h, j, cap)));
                }
            }
        }
    }

    /// A probe that walked the whole window without finding `ptr` proves
    /// that no live mapping of `ptr` exists anywhere.
    proof fn lemma_window_absent(&self, ptr: u64)
        requires
            self.wf(),
            is_live_ptr(ptr),
            forall|d: int|
                0 <= d < self.spec_window() ==> {
                    let s = #[trigger] slot_at(self.spec_home(ptr), d, self.spec_cap());
                    self.ptrs@[s] != ptr
                },
        ensures
            !self.contains_live(ptr),
    {
        let cap = self.spec_cap();
        let h = self.spec_home(ptr);
        assert forall|i: int| 0 <= i < cap implies !(self.live(i) && self.ptrs@[i] == ptr) by {
            if self.live(i) && self.ptrs@[i] == ptr {
                lemma_probe_roundtrip(h, i, cap);
                let d = probe_dist(h, i, cap);
                assert(self.reach_ok(i));
                assert(d < self.spec_window());
                assert(slot_at(h, d, cap) == i);
            }
        }
    }

    /// Is a live mapping of `ptr` recorded? A bounded probe answers this
    /// exactly, thanks to the reachability invariant.
    pub fn is_tracked(&self, ptr: u64) -> (r: bool)
        requires
            self.wf(),
            is_live_ptr(ptr),
        ensures
            r == self.contains_live(ptr),
    {
        match self.probe_find(ptr) {
            Some(i) => {
                proof {
                    assert(self.contains_live(ptr));
                }
                true
            },
            None => false,
        }
    }

    /// Record a live mapping `ptr -> (size, key)`. Claims the first empty
    /// or tombstone slot within the probe window of the pointer's home
    /// slot; when the window holds neither, tracking is dropped silently
    /// and `false` is returned.
    pub fn track_alloc(&mut self, ptr: u64, size: u64, key: u64) -> (ok: bool)
        requires
            old(self).wf(),
            is_live_ptr(ptr),
            key != 0,
            !old(self).contains_live(ptr),
        ensures
            final(self).wf(),
            final(self).spec_cap() == old(self).spec_cap(),
            !ok ==> final(self).same_entries(*old(self)),
            ok ==> final(self).contains_live(ptr),
            ok ==> final(self).live_count_for(key) == old(self).live_count_for(key) + 1,
            ok ==> final(self).live_bytes_for(key) == old(self).live_bytes_for(key) + size,
            forall|k: u64|
                k != key ==> #[trigger] final(self).live_count_for(k) == old(self).live_count_for(
                    k,
                ) && final(self).live_bytes_for(k) == old(self).live_bytes_for(k),
            forall|p: u64|
                p != ptr ==> (#[trigger] final(self).contains_live(p) <==> old(self).contains_live(
                    p,
                )),
            ok ==> exists|t: int|
                0 <= t < old(self).spec_cap() && !old(self).live(t) && final(self).ptrs@ == old(self).ptrs@.update(t, ptr) && final(self).keys@ == old(self).keys@.update(t, key)
                    && final(self).sizes@ == old(self).sizes@.update(t, size),
            ok ==> final(self).entry_size(ptr) == size && final(self).entry_key(ptr) == key,
            ok == old(self).spec_has_room(ptr),
    {
        let ghost entry = *self;
        let cap = self.ptrs.len();
        let h = self.home(ptr);
        let w = self.window();
        let mut j: usize = 0;
        while j < w
            invariant
                entry == *old(self),
                self.wf(),
                self.same_entries(entry),
                is_live_ptr(ptr),
                !self.contains_live(ptr),
                key != 0,
                cap == self.spec_cap(),
                h == self.spec_home(ptr),
                h < cap,
                w == self.spec_window(),
                w <= cap,
                j <= w,
                forall|d: int|
                    0 <= d < j ==> self.live(#[trigger] slot_at(h as int, d, cap as int)),
            decreases w - j,
        {
            let idx = wrap_slot(h, j, cap);
            proof {
                lemma_slot_at_inverse(h as int, j as int, cap as int);
            }
            let p = self.ptrs[idx];
            if p == 0 || p == TOMBSTONE_PTR {
                proof {
                    assert(slot_at(self.spec_home(ptr), j as int, self.spec_cap()) == slot_at(
                        h as int,
                        j as int,
                        cap as int,
                    ));
                    assert(!self.live(slot_at(self.spec_home(ptr), j as int, self.spec_cap())));
                    assert(0 <= j < self.spec_window());
                    assert(self.spec_has_room(ptr));
                    assert(entry.spec_has_room(ptr)) by {
                        assert(entry.ptrs@[idx as int] == self.ptrs@[idx as int]);
                        assert(entry.spec_home(ptr) == self.spec_home(ptr));
                        assert(entry.spec_cap() == self.spec_cap());
                        assert(entry.spec_window() == self.spec_window());
                        assert(!entry.live(slot_at(entry.spec_home(ptr), j as int, entry.spec_cap())));
                    }
                }
                let ghost pre = *self;
                self.ptrs.set(idx, ptr);
                self.sizes.set(idx, size);
                self.keys.set(idx, key);
                let ghost post = *self;
                proof {
                    assert(pre.same_entries(entry));
                    assert(pre.ptrs@ == entry.ptrs@);
                    assert(!pre.live(idx as int));
                    assert(!entry.live(idx as int)) by {
                        assert(entry.ptrs@[idx as int] == pre.ptrs@[idx as int]);
                    }
                    assert(post.ptrs@ == entry.ptrs@.update(idx as int, ptr));
                    assert(post.keys@ == entry.keys@.update(idx as int, key));
                    assert(post.sizes@ == entry.sizes@.update(idx as int, size));
                    self.lemma_claim_preserves_wf(pre, idx as int, ptr, j as int);
                    assert(post.live(idx as int) && post.ptrs@[idx as int] == ptr);
                    assert(post.contains_live(ptr));
                    lemma_count_update(pre.ptrs@, pre.keys@, pre.sizes@, idx as int, ptr, key, size);
                    assert(post.ptrs@ == pre.ptrs@.update(idx as int, ptr));
                    assert(post.keys@ == pre.keys@.update(idx as int, key));
                    assert(post.sizes@ == pre.sizes@.update(idx as int, size));
                    assert forall|p2: u64|
                        p2 != ptr implies (#[trigger] post.contains_live(p2)
                        <==> entry.contains_live(p2)) by {
                        if entry.contains_live(p2) {
                            let i = choose|i: int|
                                0 <= i < entry.spec_cap() && entry.live(i) && entry.ptrs@[i] == p2;
                            assert(i != idx);
                            assert(post.live(i) && post.ptrs@[i] == p2);
                        }
                        if post.contains_live(p2) {
                            let i = choose|i: int|
                                0 <= i < post.spec_cap() && post.live(i) && post.ptrs@[i] == p2;
                            assert(i != idx);
                            assert(entry.live(i) && entry.ptrs@[i] == p2);
                        }
                    }
                    let li = post.live_index_of(ptr);
                    assert(0 <= li < post.spec_cap() && post.live(li) && post.ptrs@[li] == ptr);
                    assert(li == idx) by {
                        if li != idx {
                            assert(post.live(li) && post.live(idx as int));
                            assert(post.ptrs@[li] != post.ptrs@[idx as int]);
                        }
                    }
                    assert(post.entry_size(ptr) == size && post.entry_key(ptr) == key);
                }
                return true;
            }
            proof {
                if p == ptr {
                    assert(self.live(idx as int) && self.ptrs@[idx as int] == ptr);
                    assert(self.contains_live(ptr));
                }
            }
            j += 1;
        }
        proof {
            assert(self.same_entries(entry));
            assert(!entry.spec_has_room(ptr)) by {
                if entry.spec_has_room(ptr) {
                    let d = choose|d: int|
                        0 <= d < entry.spec_window() && !entry.live(
                            #[trigger] slot_at(entry.spec_home(ptr), d, entry.spec_cap()),
                        );
                    assert(self.live(slot_at(h as int, d, cap as int)));
                    assert(entry.ptrs@[slot_at(h as int, d, cap as int)] == self.ptrs@[slot_at(
                        h as int,
                        d,
                        cap as int,
                    )]);
                }
            }
            assert forall|p2: u64|
                p2 != ptr implies (#[trigger] self.contains_live(p2) <==> entry.contains_live(
                p2,
            )) by {
                if entry.contains_live(p2) {
                    let i = choose|i: int|
                        0 <= i < entry.spec_cap() && entry.live(i) && entry.ptrs@[i] == p2;
                    assert(self.live(i) && self.ptrs@[i] == p2);
                }
                if self.contains_live(p2) {
                    let i = choose|i: int|
                        0 <= i < self.spec_cap() && self.live(i) && self.ptrs@[i] == p2;
                    assert(entry.live(i) && entry.ptrs@[i] == p2);
                }
            }
        }
        false
    }

    /// Claiming an empty or tombstone slot within the window, with only
    /// live foreign slots before it on the probe path, keeps the table well
    /// formed.
    proof fn lemma_claim_preserves_wf(&self, pre: AllocTable, idx: int, ptr: u64, j: int)
        requires
            pre.wf(),
            is_live_ptr(ptr),
            !pre.contains_live(ptr),
            0 <= idx < pre.spec_cap(),
            0 <= j < pre.spec_window(),
            idx == slot_at(pre.spec_home(ptr), j, pre.spec_cap()),
            !pre.live(idx),
            forall|d: int|
                0 <= d < j ==> pre.live(#[trigger] slot_at(pre.spec_home(ptr), d, pre.spec_cap())),
            self.ptrs@ == pre.ptrs@.update(idx, ptr),
            self.keys@.len() == pre.keys@.len(),
            self.sizes@.len() == pre.sizes@.len(),
            self.keys@[idx] != 0,
            forall|i: int|
                0 <= i < pre.spec_cap() && i != idx ==> self.keys@[i] == pre.keys@[i]
                    && self.sizes@[i] == pre.sizes@[i],
        ensures
            self.wf(),
    {
        let cap = pre.spec_cap();
        assert(self.spec_cap() == cap);
        assert(self.spec_window() == pre.spec_window());
        assert forall|i: int| 0 <= i < cap && self.live(i) implies self.keys@[i] != 0 by {
            if i != idx {
                assert(pre.live(i));
            }
        }
        assert forall|i: int, jj: int|
            0 <= i < cap && 0 <= jj < cap && i != jj && self.live(i) && self.live(
                jj,
            ) implies self.ptrs@[i] != self.ptrs@[jj] by {
            if i != idx && jj != idx {
                assert(pre.live(i) && pre.live(jj));
            } else if i == idx {
                assert(pre.live(jj) && pre.ptrs@[jj] == self.ptrs@[jj]);
                if self.ptrs@[jj] == ptr {
                    assert(pre.contains_live(ptr));
                }
            } else {
                assert(pre.live(i) && pre.ptrs@[i] == self.ptrs@[i]);
                if self.ptrs@[i] == ptr {
                    assert(pre.contains_live(ptr));
                }
            }
        }
        assert forall|i: int| 0 <= i < cap implies self.reach_ok(i) by {
            if self.live(i) {
                if i == idx {
                    lemma_slot_at_inverse(pre.spec_home(ptr), j, cap);
                    assert(probe_dist(self.spec_home(self.ptrs@[i]), i, cap) == j);
                    assert(probe_dist(self.spec_home(self.ptrs@[i]), i, cap)
                        < self.spec_window());
                    assert forall|d: int|
                        0 <= d < probe_dist(self.spec_home(self.ptrs@[i]), i, cap)
                            implies self.nonempty(#[trigger] slot_at(
                            self.spec_home(self.ptrs@[i]),
                            d,
                            cap,
                        )) by {
                        let s = slot_at(self.spec_home(ptr), d, cap);
                        assert(pre.live(s));
                        if s != idx {
                            assert(self.ptrs@[s] == pre.ptrs@[s]);
                        }
                    }
                } else {
                    assert(pre.live(i));
                    assert(pre.reach_ok(i));
                    assert(self.ptrs@[i] == pre.ptrs@[i]);
                    assert(probe_dist(self.spec_home(self.ptrs@[i]), i, cap)
                        < self.spec_window());
                    assert forall|d: int|
                        0 <= d < probe_dist(self.spec_home(self.ptrs@[i]), i, cap)
                            implies self.nonempty(#[trigger] slot_at(
                            self.spec_home(self.ptrs@[i]),
                            d,
                            cap,
                        )) by {
                        let s = slot_at(pre.spec_home(pre.ptrs@[i]), d, cap);
                        assert(pre.nonempty(s));
                        if s != idx {
                            assert(self.ptrs@[s] == pre.ptrs@[s]);
                        }
                    }
                }
            }
        }
    }

    /// Remove the live mapping of `ptr`, leaving a tombstone so that later
    /// probes for other pointers keep walking. Returns the recorded size
    /// and stack key exactly when such a mapping existed.
    pub fn untrack_alloc(&mut self, ptr: u64) -> (r: Option<(u64, u64)>)
        requires
            old(self).wf(),
            is_live_ptr(ptr),
        ensures
            final(self).wf(),
            final(self).spec_cap() == old(self).spec_cap(),
            r is None <==> !old(self).contains_live(ptr),
            r is None ==> final(self).same_entries(*old(self)),
            match r {
                Some((size, key)) => {
                    &&& key != 0
                    &&& !final(self).contains_live(ptr)
                    &&& final(self).live_count_for(key) == old(self).live_count_for(key) - 1
                    &&& final(self).live_bytes_for(key) == old(self).live_bytes_for(key) - size
                    &&& old(self).live_count_for(key) >= 1
                    &&& old(self).live_bytes_for(key) >= size
                    &&& forall|k: u64|
                        k != key ==> #[trigger] final(self).live_count_for(k) == old(self).live_count_for(k) && final(self).live_bytes_for(k) == old(self).live_bytes_for(k)
                },
                None => true,
            },
            forall|p: u64|
                p != ptr ==> (#[trigger] final(self).contains_live(p) <==> old(self).contains_live(
                    p,
                )),
            match r {
                Some((size, key)) => size == old(self).entry_size(ptr) && key == old(self).entry_key(ptr),
                None => true,
            },
            r is Some ==> exists|t: int|
                0 <= t < old(self).spec_cap() && old(self).live(t) && final(self).ptrs@ == old(self).ptrs@.update(t, TOMBSTONE_PTR) && final(self).keys@ == old(self).keys@ && final(self).sizes@ == old(self).sizes@,
    {
        let ghost entry = *self;
        let r = self.probe_find(ptr);
        match r {
            None => {
                proof {
                    assert(!entry.contains_live(ptr));
                }
                None
            },
            Some(idx) => {
                let ghost pre = *self;
                let size = self.sizes[idx];
                let key = self.keys[idx];
                self.ptrs.set(idx, TOMBSTONE_PTR);
                let ghost post = *self;
                proof {
                    assert(pre == entry);
                    assert(pre.live(idx as int) && pre.ptrs@[idx as int] == ptr);
                    assert(pre.contains_live(ptr));
                    self.lemma_tombstone_preserves_wf(pre, idx as int);
                    lemma_count_remove(pre.ptrs@, pre.keys@, pre.sizes@, idx as int, key);
                    lemma_count_witness(pre.ptrs@, pre.keys@, pre.sizes@, idx as int, key,
                        pre.spec_cap());
                    assert(post.ptrs@ == pre.ptrs@.update(idx as int, TOMBSTONE_PTR));
                    assert forall|p2: u64|
                        p2 != ptr implies (#[trigger] post.contains_live(p2)
                        <==> entry.contains_live(p2)) by {
                        if entry.contains_live(p2) {
                            let i = choose|i: int|
                                0 <= i < entry.spec_cap() && entry.live(i) && entry.ptrs@[i] == p2;
                            assert(i != idx);
                            assert(post.live(i) && post.ptrs@[i] == p2);
                        }
                        if post.contains_live(p2) {
                            let i = choose|i: int|
                                0 <= i < post.spec_cap() && post.live(i) && post.ptrs@[i] == p2;
                            assert(i != idx);
                            assert(entry.live(i) && entry.ptrs@[i] == p2);
                        }
                    }
                    assert forall|i: int|
                        0 <= i < post.spec_cap() implies !(post.live(i) && post.ptrs@[i]
                        == ptr) by {
                        if post.live(i) && post.ptrs@[i] == ptr {
                            assert(i != idx);
                            assert(pre.live(i) && pre.live(idx as int));
                            assert(pre.ptrs@[i] != pre.ptrs@[idx as int]);
                        }
                    }
                    let li = pre.live_index_of(ptr);
                    assert(0 <= li < pre.spec_cap() && pre.live(li) && pre.ptrs@[li] == ptr);
                    assert(li == idx) by {
                        if li != idx {
                            assert(pre.ptrs@[li] != pre.ptrs@[idx as int]);
                        }
                    }
                    assert(pre.entry_size(ptr) == size && pre.entry_key(ptr) == key);
                }
                Some((size, key))
            },
        }
    }

    /// Replacing a live slot by a tombstone keeps the table well formed:
    /// tombstones still count as non-empty on every probe path.
    proof fn lemma_tombstone_preserves_wf(&self, pre: AllocTable, idx: int)
        requires
            pre.wf(),
            0 <= idx < pre.spec_cap(),
            pre.live(idx),
            self.ptrs@ == pre.ptrs@.update(idx, TOMBSTONE_PTR),
            self.keys@ == pre.keys@,
            self.sizes@ == pre.sizes@,
        ensures
            self.wf(),
    {
        let cap = pre.spec_cap();
        assert(self.spec_cap() == cap);
        assert forall|i: int| 0 <= i < cap && self.live(i) implies self.keys@[i] != 0 by {
            assert(i != idx);
            assert(pre.live(i));
        }
        assert forall|i: int, jj: int|
            0 <= i < cap && 0 <= jj < cap && i != jj && self.live(i) && self.live(
                jj,
            ) implies self.ptrs@[i] != self.ptrs@[jj] by {
            assert(i != idx && jj != idx);
            assert(pre.live(i) && pre.live(jj));
        }
        assert forall|i: int| 0 <= i < cap implies self.reach_ok(i) by {
            if self.live(i) {
                assert(i != idx);
                assert(pre.live(i));
                assert(pre.reach_ok(i));
                assert(self.ptrs@[i] == pre.ptrs@[i]);
                assert(probe_dist(self.spec_home(self.ptrs@[i]), i, cap) < self.spec_window());
                assert forall|d: int|
                    0 <= d < probe_dist(self.spec_home(self.ptrs@[i]), i, cap)
                        implies self.nonempty(#[trigger] slot_at(
                        self.spec_home(self.ptrs@[i]),
                        d,
                        cap,
                    )) by {
                    let s = slot_at(pre.spec_home(pre.ptrs@[i]), d, cap);
                    assert(pre.nonempty(s));
                    if s != idx {
                        assert(self.ptrs@[s] == pre.ptrs@[s]);
                    }
                }
            }
        }
    }
}

/// A table that turns no slot from free to live keeps every pointer's
/// probe window at least as roomy.
pub proof fn lemma_room_monotone(pre: AllocTable, post: AllocTable)
    requires
        post.spec_cap() == pre.spec_cap(),
        forall|i: int| 0 <= i < pre.spec_cap() && !pre.live(i) ==> !post.live(i),
    ensures
        forall|p: u64| #[trigger] pre.spec_has_room(p) ==> post.spec_has_room(p),
{
    assert forall|p: u64| #[trigger] pre.spec_has_room(p) implies post.spec_has_room(p) by {
        let d = choose|d: int|
            0 <= d < pre.spec_window() && !pre.live(
                #[trigger] slot_at(pre.spec_home(p), d, pre.spec_cap()),
            );
        assert(pre.spec_window() == post.spec_window());
        assert(pre.spec_home(p) == post.spec_home(p));
        vstd::arithmetic::div_mod::lemma_mod_division_less_than_divisor(
            (p >> 4) as int,
            pre.spec_cap(),
        );
        assert(0 <= pre.spec_home(p) < pre.spec_cap()) by {
            assert(pre.spec_home(p) == (p >> 4) as int % pre.spec_cap());
        }
        lemma_slot_at_inverse(pre.spec_home(p), d, pre.spec_cap());
        assert(0 <= slot_at(pre.spec_home(p), d, pre.spec_cap()) < pre.spec_cap());
        assert(!post.live(slot_at(post.spec_home(p), d, post.spec_cap())));
    }
}

/// No live slot carries key `k` in the first `n` slots, so both counts are 0.
pub proof fn lemma_counts_zero_when_none_live(
    ptrs: Seq<u64>,
    keys: Seq<u64>,
    sizes: Seq<u64>,
    k: u64,
    n: int,
)
    requires
        forall|i: int| 0 <= i < n ==> !(is_live_ptr(#[trigger] ptrs[i]) && keys[i] == k),
    ensures
        count_upto(ptrs, keys, k, n) == 0,
        bytes_upto(ptrs, keys, sizes, k, n) == 0,
    decreases n,
{
    if n > 0 {
        lemma_counts_zero_when_none_live(ptrs, keys, sizes, k, n - 1);
    }
}

/// Changing slot `idx` changes the per-key counts by exactly the difference
/// of that one slot's contributions.
pub proof fn lemma_count_update_general(
    ptrs: Seq<u64>,
    keys: Seq<u64>,
    sizes: Seq<u64>,
    idx: int,
    p2: u64,
    k2: u64,
    s2: u64,
    k: u64,
    n: int,
)
    requires
        0 <= idx < ptrs.len(),
        keys.len() == ptrs.len(),
        sizes.len() == ptrs.len(),
        n <= ptrs.len(),
    ensures
        count_upto(ptrs.update(idx, p2), keys.update(idx, k2), k, n) == count_upto(
            ptrs,
            keys,
            k,
            n,
        ) + if idx < n {
            key_contrib(p2, k2, k) - key_contrib(ptrs[idx], keys[idx], k)
        } else {
            0
        },
        bytes_upto(ptrs.update(idx, p2), keys.update(idx, k2), sizes.update(idx, s2), k, n)
            == bytes_upto(ptrs, keys, sizes, k, n) + if idx < n {
            key_contrib(p2, k2, k) * s2 - key_contrib(ptrs[idx], keys[idx], k) * sizes[idx]
        } else {
            0
        },
    decreases n,
{
    if n > 0 {
        lemma_count_update_general(ptrs, keys, sizes, idx, p2, k2, s2, k, n - 1);
    }
}

/// Claiming slot `idx` for a fresh live mapping `(ptr, size, key)` raises
/// the key's counts by exactly one mapping of `size` bytes, and no other
/// key's counts at all.
pub proof fn lemma_count_update(
    ptrs: Seq<u64>,
    keys: Seq<u64>,
    sizes: Seq<u64>,
    idx: int,
    ptr: u64,
    key: u64,
    size: u64,
)
    requires
        0 <= idx < ptrs.len(),
        keys.len() == ptrs.len(),
        sizes.len() == ptrs.len(),
        !is_live_ptr(ptrs[idx]),
        is_live_ptr(ptr),
    ensures
        count_upto(ptrs.update(idx, ptr), keys.update(idx, key), key, ptrs.len() as int)
            == count_upto(ptrs, keys, key, ptrs.len() as int) + 1,
        bytes_upto(
            ptrs.update(idx, ptr),
            keys.update(idx, key),
            sizes.update(idx, size),
            key,
            ptrs.len() as int,
        ) == bytes_upto(ptrs, keys, sizes, key, ptrs.len() as int) + size,
        forall|k: u64|
            k != key ==> #[trigger] count_upto(
                ptrs.update(idx, ptr),
                keys.update(idx, key),
                k,
                ptrs.len() as int,
            ) == count_upto(ptrs, keys, k, ptrs.len() as int) && bytes_upto(
                ptrs.update(idx, ptr),
                keys.update(idx, key),
                sizes.update(idx, size),
                k,
                ptrs.len() as int,
            ) == bytes_upto(ptrs, keys, sizes, k, ptrs.len() as int),
{
    lemma_count_update_general(ptrs, keys, sizes, idx, ptr, key, size, key, ptrs.len() as int);
    assert forall|k: u64| k != key implies #[trigger] count_upto(
        ptrs.update(idx, ptr),
        keys.update(idx, key),
        k,
        ptrs.len() as int,
    ) == count_upto(ptrs, keys, k, ptrs.len() as int) && bytes_upto(
        ptrs.update(idx, ptr),
        keys.update(idx, key),
        sizes.update(idx, size),
        k,
        ptrs.len() as int,
    ) == bytes_upto(ptrs, keys, sizes, k, ptrs.len() as int) by {
        lemma_count_update_general(ptrs, keys, sizes, idx, ptr, key, size, k, ptrs.len() as int);
    }
}

/// Tombstoning the live slot `idx` lowers its key's counts by exactly that
/// one mapping, and no other key's counts at all. The sizes and keys
/// vectors are untouched by the tombstone.
pub proof fn lemma_count_remove(ptrs: Seq<u64>, keys: Seq<u64>, sizes: Seq<u64>, idx: int, key: u64)
    requires
        0 <= idx < ptrs.len(),
        keys.len() == ptrs.len(),
        sizes.len() == ptrs.len(),
        is_live_ptr(ptrs[idx]),
        keys[idx] == key,
    ensures
        count_upto(ptrs.update(idx, TOMBSTONE_PTR), keys, key, ptrs.len() as int) == count_upto(
            ptrs,
            keys,
            key,
            ptrs.len() as int,
        ) - 1,
        bytes_upto(ptrs.update(idx, TOMBSTONE_PTR), keys, sizes, key, ptrs.len() as int)
            == bytes_upto(ptrs, keys, sizes, key, ptrs.len() as int) - sizes[idx],
        forall|k: u64|
            k != key ==> #[trigger] count_upto(ptrs.update(idx, TOMBSTONE_PTR), keys, k, ptrs.len() as int)
                == count_upto(ptrs, keys, k, ptrs.len() as int) && bytes_upto(
                ptrs.update(idx, TOMBSTONE_PTR),
                keys,
                sizes,
                k,
                ptrs.len() as int,
            ) == bytes_upto(ptrs, keys, sizes, k, ptrs.len() as int),
{
    assert(keys.update(idx, key) =~= keys);
    assert(sizes.update(idx, sizes[idx]) =~= sizes);
    lemma_count_update_general(
        ptrs,
        keys,
        sizes,
        idx,
        TOMBSTONE_PTR,
        key,
        sizes[idx],
        key,
        ptrs.len() as int,
    );
    assert forall|k: u64| k != key implies #[trigger] count_upto(
        ptrs.update(idx, TOMBSTONE_PTR),
        keys,
        k,
        ptrs.len() as int,
    ) == count_upto(ptrs, keys, k, ptrs.len() as int) && bytes_upto(
        ptrs.update(idx, TOMBSTONE_PTR),
        keys,
        sizes,
        k,
        ptrs.len() as int,
    ) == bytes_upto(ptrs, keys, sizes, k, ptrs.len() as int) by {
        lemma_count_update_general(
            ptrs,
            keys,
            sizes,
            idx,
            TOMBSTONE_PTR,
            key,
            sizes[idx],
            k,
            ptrs.len() as int,
        );
    }
}

/// A live slot with key `k` puts at least one mapping and its size into the
/// key's counts.
pub proof fn lemma_count_witness(
    ptrs: Seq<u64>,
    keys: Seq<u64>,
    sizes: Seq<u64>,
    idx: int,
    k: u64,
    n: int,
)
    requires
        0 <= idx < n <= ptrs.len(),
        keys.len() == ptrs.len(),
        sizes.len() == ptrs.len(),
        is_live_ptr(ptrs[idx]),
        keys[idx] == k,
    ensures
        count_upto(ptrs, keys, k, n) >= 1,
        bytes_upto(ptrs, keys, sizes, k, n) >= sizes[idx],
    decreases n,
{
    lemma_counts_nonneg(ptrs, keys, sizes, k, n);
    if idx < n - 1 {
        lemma_count_witness(ptrs, keys, sizes, idx, k, n - 1);
        lemma_contrib_bytes_nonneg(ptrs, keys, sizes, k, n);
    } else {
        lemma_counts_nonneg(ptrs, keys, sizes, k, n - 1);
    }
}

/// One slot's byte contribution is never negative.
proof fn lemma_contrib_bytes_nonneg(
    ptrs: Seq<u64>,
    keys: Seq<u64>,
    sizes: Seq<u64>,
    k: u64,
    n: int,
)
    requires
        0 < n <= ptrs.len(),
        keys.len() == ptrs.len(),
        sizes.len() == ptrs.len(),
    ensures
        key_contrib(ptrs[n - 1], keys[n - 1], k) * sizes[n - 1] >= 0,
        key_contrib(ptrs[n - 1], keys[n - 1], k) >= 0,
{
}

/// Both per-key counts are never negative.
pub proof fn lemma_counts_nonneg(ptrs: Seq<u64>, keys: Seq<u64>, sizes: Seq<u64>, k: u64, n: int)
    requires
        n <= ptrs.len(),
        keys.len() == ptrs.len(),
        sizes.len() == ptrs.len(),
    ensures
        count_upto(ptrs, keys, k, n) >= 0,
        bytes_upto(ptrs, keys, sizes, k, n) >= 0,
    decreases n,
{
    if n > 0 {
        lemma_counts_nonneg(ptrs, keys, sizes, k, n - 1);
        lemma_contrib_bytes_nonneg(ptrs, keys, sizes, k, n);
    }
}

} // verus!
