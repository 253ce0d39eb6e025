//! Index arithmetic for linear probing over a circular table.
//!
//! A probe for a key starts at the key's home slot and walks forward,
//! wrapping at the table's end. These helpers name the slot reached after
//! `d` steps and the number of steps from a home slot to a given slot, and
//! prove that the two are inverses, so that a probe loop's progress can be
//! related to any slot's position.

use vstd::prelude::*;

verus! {

/// The slot reached from home slot `h` after `d` probe steps,
/// in a table of `cap` slots.
pub open spec fn slot_at(h: int, d: int, cap: int) -> int {
    if h + d < cap {
        h + d
    } else {
        h + d - cap
    }
}

/// The number of probe steps from home slot `h` to slot `i`,
/// in a table of `cap` slots.
pub open spec fn probe_dist(h: int, i: int, cap: int) -> int {
    if i >= h {
        i - h
    } else {
        i - h + cap
    }
}

/// Probing from `h` for `probe_dist(h, i, cap)` steps arrives at `i`.
pub proof fn lemma_probe_roundtrip(h: int, i: int, cap: int)
    requires
        0 <= h < cap,
        0 <= i < cap,
    ensures
        0 <= probe_dist(h, i, cap) < cap,
        slot_at(h, probe_dist(h, i, cap), cap) == i,
{
}

/// Each of the first `cap` probe steps from `h` lands on a distinct,
/// in-range slot, and the step count is recovered by `probe_dist`.
pub proof fn lemma_slot_at_inverse(h: int, d: int, cap: int)
    requires
        0 <= h < cap,
        0 <= d < cap,
    ensures
        0 <= slot_at(h, d, cap) < cap,
        probe_dist(h, slot_at(h, d, cap), cap) == d,
{
}

/// Compute the wrapped probe slot in executable code.
pub fn wrap_slot(h: usize, d: usize, cap: usize) -> (i: usize)
    requires
        h < cap,
        d < cap,
        cap <= 0x8000_0000_0000_0000,
    ensures
        i == slot_at(h as int, d as int, cap as int),
        i < cap,
{
    if d < cap - h {
        h + d
    } else {
        d - (cap - h)
    }
}

} // verus!
