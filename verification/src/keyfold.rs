//! Folding a captured stack into a 64-bit call-site key.
//!
//! A call site is identified by an FNV-style fold of six return addresses
//! taken from a window of the captured stack. Heap events skip the first
//! four frames (allocator internals); CPU samples skip none. A fold that
//! would yield 0 is coerced to 1, since 0 marks an empty table slot.

use vstd::prelude::*;

verus! {

/// Number of return addresses folded into a key.
pub const KEY_WINDOW: usize = 6;

/// Frames skipped before folding a heap event's stack.
pub const HEAP_KEY_SKIP: usize = 4;

/// Frames skipped before folding a CPU sample's stack.
pub const CPU_KEY_SKIP: usize = 0;

/// The FNV 64-bit prime used by the fold.
pub const FNV_PRIME: u64 = 0x100000001b3;

/// One fold step: mix one address into the running key.
pub open spec fn fold_step(key: u64, addr: u64) -> u64 {
    vstd::wrapping::u64_specs::wrapping_mul(key ^ addr, FNV_PRIME)
}

/// The key accumulated by folding a sequence of addresses, starting from 0.
pub open spec fn fold_addrs(addrs: Seq<u64>) -> u64
    decreases addrs.len(),
{
    if addrs.len() == 0 {
        0u64
    } else {
        fold_step(fold_addrs(addrs.drop_last()), addrs.last())
    }
}

/// The window of a stack that contributes to its key: up to `KEY_WINDOW`
/// addresses starting at `skip`, clipped to the stack's length.
pub open spec fn key_window(stack: Seq<u64>, skip: int) -> Seq<u64> {
    if skip >= stack.len() {
        Seq::empty()
    } else if skip + KEY_WINDOW >= stack.len() {
        stack.subrange(skip, stack.len() as int)
    } else {
        stack.subrange(skip, skip + KEY_WINDOW)
    }
}

/// The key of a stack: the fold of its window, with 0 coerced to 1.
pub open spec fn spec_stack_key(stack: Seq<u64>, skip: int) -> u64 {
    let raw = fold_addrs(key_window(stack, skip));
    if raw == 0 {
        1u64
    } else {
        raw
    }
}

/// Fold a captured stack into its call-site key.
///
/// The fold is a function of the window's addresses alone, so identical
/// stacks always produce identical keys, and the key is never 0.
pub fn stack_key(stack: &Vec<u64>, skip: usize) -> (key: u64)
    ensures
        key == spec_stack_key(stack@, skip as int),
        key != 0,
{
    let mut key: u64 = 0;
    let mut i: usize = 0;
    while i < KEY_WINDOW && skip < stack.len() && i < stack.len() - skip
        invariant
            0 <= i <= KEY_WINDOW,
            skip <= stack@.len() ==> skip + i <= stack@.len() && key == fold_addrs(
                stack@.subrange(skip as int, skip + i),
            ),
            skip > stack@.len() ==> i == 0 && key == 0,
        decreases KEY_WINDOW - i,
    {
        let addr = stack[skip + i];
        proof {
            let w = stack@.subrange(skip as int, skip + i);
            let w2 = stack@.subrange(skip as int, skip + i + 1);
            assert(w2.drop_last() =~= w);
            assert(w2.last() == stack@[skip + i]);
        }
        key = (key ^ addr).wrapping_mul(FNV_PRIME);
        i += 1;
    }
    proof {
        if skip >= stack@.len() {
            assert(key_window(stack@, skip as int) =~= Seq::<u64>::empty());
            assert(fold_addrs(Seq::<u64>::empty()) == 0);
            if skip <= stack@.len() {
                assert(stack@.subrange(skip as int, skip + i) =~= Seq::<u64>::empty());
            }
        } else if i == KEY_WINDOW {
            if skip + KEY_WINDOW >= stack@.len() {
                assert(skip + i == stack@.len());
                assert(key_window(stack@, skip as int) =~= stack@.subrange(
                    skip as int,
                    skip + i,
                ));
            } else {
                assert(key_window(stack@, skip as int) =~= stack@.subrange(
                    skip as int,
                    skip + i,
                ));
            }
        } else {
            assert(skip + i == stack@.len());
            assert(key_window(stack@, skip as int) =~= stack@.subrange(skip as int, skip + i));
        }
    }
    if key == 0 {
        1
    } else {
        key
    }
}

/// Stack-key folding is deterministic: two equal stacks folded with the
/// same skip always yield the same key, and that key is never 0.
pub proof fn lemma_stack_key_deterministic(s1: Seq<u64>, s2: Seq<u64>, skip: int)
    requires
        s1 == s2,
    ensures
        spec_stack_key(s1, skip) == spec_stack_key(s2, skip),
        spec_stack_key(s1, skip) != 0,
{
}

} // verus!
