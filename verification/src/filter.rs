//! Selecting the user frame of a captured stack.
//!
//! Profiles are useless when every row reads like an allocator or
//! standard-library internal, so a fixed list of internal patterns
//! (allocator entry points, collection and formatting internals, the
//! profiler's own symbols, closures and trait shims) and internal-file
//! heuristics mark the frames that never get attributed. A second, short
//! list marks utility functions — user code, but uninteresting — whose
//! samples are attributed to their caller instead. A stack none of whose
//! frames passes the filters is dropped as internal.

use vstd::prelude::*;

use crate::resolver::{loc_view, LocView, Location, SymbolResolver};
use crate::strutil::{spec_contains, spec_starts_with, str_contains, str_eq, str_starts_with};

verus! {

/// Function names that are never attribution targets: allocator entry
/// points, standard-library and collection internals, unwinding, the
/// profiler's and demangler's own frames, closures and trait shims.
pub open spec fn spec_matches_internal_function(s: Seq<char>) -> bool {
    ||| spec_contains(s, "__rust"@)
    ||| spec_contains(s, "alloc::alloc::"@)
    ||| spec_contains(s, "alloc::raw_vec::"@)
    ||| spec_contains(s, "alloc::vec::"@)
    ||| spec_contains(s, "alloc::string::"@)
    ||| spec_contains(s, "alloc::collections::"@)
    ||| spec_contains(s, "<alloc::"@)
    ||| spec_contains(s, "alloc::fmt::"@)
    ||| spec_contains(s, "alloc::ffi::"@)
    ||| spec_contains(s, "hashbrown::"@)
    ||| spec_contains(s, "std::collections::hash"@)
    ||| spec_contains(s, "core::ptr::"@)
    ||| spec_contains(s, "core::slice::"@)
    ||| spec_contains(s, "core::iter::"@)
    ||| spec_contains(s, "core::sync::"@)
    ||| spec_contains(s, "core::option::"@)
    ||| spec_contains(s, "core::result::"@)
    ||| spec_contains(s, "<core::"@)
    ||| spec_contains(s, "core::ops::function::"@)
    ||| spec_contains(s, "core::ops::drop::"@)
    ||| spec_contains(s, "core::ffi::"@)
    ||| spec_contains(s, "core::fmt::"@)
    ||| spec_contains(s, "core::num::"@)
    ||| spec_contains(s, "core::str::"@)
    ||| spec_contains(s, "core::hash::"@)
    ||| spec_contains(s, "core::mem::"@)
    ||| spec_contains(s, "std::io::"@)
    ||| spec_contains(s, "std::fmt::"@)
    ||| spec_contains(s, "std::sys::"@)
    ||| spec_contains(s, "std::thread::"@)
    ||| spec_contains(s, "std::sync::"@)
    ||| spec_contains(s, "<std::"@)
    ||| spec_contains(s, "fmt::num::"@)
    ||| spec_contains(s, "fmt::Write::"@)
    ||| spec_contains(s, " as core::fmt::"@)
    ||| spec_contains(s, " as std::fmt::"@)
    ||| spec_contains(s, " as core::hash::"@)
    ||| spec_contains(s, " as alloc::"@)
    ||| spec_contains(s, "<_>::"@)
    ||| spec_contains(s, "malloc"@)
    ||| spec_contains(s, "calloc"@)
    ||| spec_contains(s, "realloc"@)
    ||| spec_contains(s, "free"@)
    ||| spec_contains(s, "memcpy"@)
    ||| spec_contains(s, "memmove"@)
    ||| spec_contains(s, "memset"@)
    ||| spec_contains(s, "memchr"@)
    ||| spec_contains(s, "_start"@)
    ||| spec_contains(s, "__libc_start_main"@)
    ||| spec_contains(s, "_Unwind_"@)
    ||| spec_contains(s, "__cxa_"@)
    ||| spec_contains(s, "_fini"@)
    ||| spec_contains(s, "_init"@)
    ||| spec_contains(s, "rust_eh_personality"@)
    ||| spec_contains(s, "addr2line::"@)
    ||| spec_contains(s, "gimli::"@)
    ||| spec_contains(s, "object::"@)
    ||| spec_contains(s, "miniz_oxide::"@)
    ||| spec_contains(s, "rustc_demangle::"@)
    ||| spec_contains(s, "rsprof_alloc::"@)
    ||| spec_contains(s, "rsprof_trace::"@)
    ||| spec_contains(s, "profiling::"@)
    ||| spec_contains(s, "rsprof::"@)
    ||| spec_contains(s, "sort::shared::smallsort::"@)
    ||| spec_contains(s, "::{{closure}}"@)
}

/// Does this function name match an internal pattern?
pub fn matches_internal_function(s: &str) -> (r: bool)
    ensures
        r == spec_matches_internal_function(s@),
{
    str_contains(s, "__rust") || str_contains(s, "alloc::alloc::") || str_contains(
        s,
        "alloc::raw_vec::",
    ) || str_contains(s, "alloc::vec::") || str_contains(s, "alloc::string::") || str_contains(
        s,
        "alloc::collections::",
    ) || str_contains(s, "<alloc::") || str_contains(s, "alloc::fmt::") || str_contains(
        s,
        "alloc::ffi::",
    ) || str_contains(s, "hashbrown::") || str_contains(s, "std::collections::hash")
        || str_contains(s, "core::ptr::") || str_contains(s, "core::slice::") || str_contains(
        s,
        "core::iter::",
    ) || str_contains(s, "core::sync::") || str_contains(s, "core::option::") || str_contains(
        s,
        "core::result::",
    ) || str_contains(s, "<core::") || str_contains(s, "core::ops::function::") || str_contains(
        s,
        "core::ops::drop::",
    ) || str_contains(s, "core::ffi::") || str_contains(s, "core::fmt::") || str_contains(
        s,
        "core::num::",
    ) || str_contains(s, "core::str::") || str_contains(s, "core::hash::") || str_contains(
        s,
        "core::mem::",
    ) || str_contains(s, "std::io::") || str_contains(s, "std::fmt::") || str_contains(
        s,
        "std::sys::",
    ) || str_contains(s, "std::thread::") || str_contains(s, "std::sync::") || str_contains(
        s,
        "<std::",
    ) || str_contains(s, "fmt::num::") || str_contains(s, "fmt::Write::") || str_contains(
        s,
        " as core::fmt::",
    ) || str_contains(s, " as std::fmt::") || str_contains(s, " as core::hash::") || str_contains(
        s,
        " as alloc::",
    ) || str_contains(s, "<_>::") || str_contains(s, "malloc") || str_contains(s, "calloc")
        || str_contains(s, "realloc") || str_contains(s, "free") || str_contains(s, "memcpy")
        || str_contains(s, "memmove") || str_contains(s, "memset") || str_contains(s, "memchr")
        || str_contains(s, "_start") || str_contains(s, "__libc_start_main") || str_contains(
        s,
        "_Unwind_",
    ) || str_contains(s, "__cxa_") || str_contains(s, "_fini") || str_contains(s, "_init")
        || str_contains(s, "rust_eh_personality") || str_contains(s, "addr2line::")
        || str_contains(s, "gimli::") || str_contains(s, "object::") || str_contains(
        s,
        "miniz_oxide::",
    ) || str_contains(s, "rustc_demangle::") || str_contains(s, "rsprof_alloc::")
        || str_contains(s, "rsprof_trace::") || str_contains(s, "profiling::") || str_contains(
        s,
        "rsprof::",
    ) || str_contains(s, "sort::shared::smallsort::") || str_contains(s, "::{{closure}}")
}

/// File paths that belong to internal or library code: bracketed markers,
/// toolchain and dependency-cache paths, and bare library file names that
/// carry no project context.
pub open spec fn spec_is_internal_file(s: Seq<char>) -> bool {
    ||| s.len() == 0
    ||| spec_starts_with(s, "["@)
    ||| spec_starts_with(s, "<"@)
    ||| spec_contains(s, "/rustc/"@)
    ||| spec_contains(s, "/.cargo/registry/"@)
    ||| spec_contains(s, "/rust/library/"@)
    ||| spec_contains(s, "rsprof-alloc"@)
    ||| spec_contains(s, "rsprof-trace"@)
    ||| spec_contains(s, "profiling.rs"@)
    ||| s == "lib.rs"@
    ||| s == "time.rs"@
    ||| s == "unix.rs"@
    ||| spec_ends(s, "memchr.rs"@)
    ||| spec_ends(s, "maybe_uninit.rs"@)
    ||| spec_ends(s, "methods.rs"@)
    ||| (spec_ends(s, "mod.rs"@) && !spec_contains(s, "/src/"@))
}

/// Suffix test, shared with the specification above.
pub open spec fn spec_ends(s: Seq<char>, pat: Seq<char>) -> bool {
    crate::strutil::spec_ends_with(s, pat)
}

/// Does this file path look internal?
pub fn is_internal_file(s: &str) -> (r: bool)
    ensures
        r == spec_is_internal_file(s@),
{
    s.unicode_len() == 0 || str_starts_with(s, "[") || str_starts_with(s, "<") || str_contains(
        s,
        "/rustc/",
    ) || str_contains(s, "/.cargo/registry/") || str_contains(s, "/rust/library/") || str_contains(
        s,
        "rsprof-alloc",
    ) || str_contains(s, "rsprof-trace") || str_contains(s, "profiling.rs") || str_eq(s, "lib.rs") || str_eq(s, "time.rs") || str_eq(s, "unix.rs")
        || crate::strutil::str_ends_with(s, "memchr.rs") || crate::strutil::str_ends_with(
        s,
        "maybe_uninit.rs",
    ) || crate::strutil::str_ends_with(s, "methods.rs") || (crate::strutil::str_ends_with(
        s,
        "mod.rs",
    ) && !str_contains(s, "/src/"))
}

/// A location is internal when its file or its function is.
pub open spec fn spec_is_internal_location(l: LocView) -> bool {
    spec_is_internal_file(l.file) || spec_matches_internal_function(l.function)
}

/// Is this location internal (profiler or library code)?
pub fn is_internal_location(l: &Location) -> (r: bool)
    ensures
        r == spec_is_internal_location(loc_view(*l)),
{
    is_internal_file(l.file.as_str()) || matches_internal_function(l.function.as_str())
}

/// Functions that are user code but should be attributed to their caller:
/// derived trait methods, conversion and formatting helpers, and the
/// target's own utility modules.
pub open spec fn spec_is_utility_function(s: Seq<char>) -> bool {
    ||| spec_contains(s, ">::clone"@)
    ||| spec_contains(s, ">::fmt"@)
    ||| spec_contains(s, ">::hash"@)
    ||| spec_contains(s, ">::eq"@)
    ||| spec_contains(s, ">::partial_cmp"@)
    ||| spec_contains(s, ">::cmp"@)
    ||| spec_contains(s, "::utils::"@)
    ||| spec_contains(s, "::to_string"@)
    ||| spec_contains(s, "::to_owned"@)
    ||| spec_contains(s, "::into"@)
    ||| spec_contains(s, "format_bytes"@)
    ||| spec_contains(s, "format_size"@)
    ||| spec_contains(s, "sanitize_"@)
    ||| spec_contains(s, "generate_trace_id"@)
}

/// Does this function name match a utility pattern?
pub fn is_utility_function(s: &str) -> (r: bool)
    ensures
        r == spec_is_utility_function(s@),
{
    str_contains(s, ">::clone") || str_contains(s, ">::fmt") || str_contains(s, ">::hash")
        || str_contains(s, ">::eq") || str_contains(s, ">::partial_cmp") || str_contains(
        s,
        ">::cmp",
    ) || str_contains(s, "::utils::") || str_contains(s, "::to_string") || str_contains(
        s,
        "::to_owned",
    ) || str_contains(s, "::into") || str_contains(s, "format_bytes") || str_contains(
        s,
        "format_size",
    ) || str_contains(s, "sanitize_") || str_contains(s, "generate_trace_id")
}

/// A frame's resolved location is a *candidate* when it is not internal
/// and names a real function.
pub open spec fn spec_is_candidate(l: LocView) -> bool {
    !spec_is_internal_file(l.file) && !spec_is_internal_location(l) && l.function.len() > 0
        && l.function != "[unknown]"@
}

/// The first candidate frame at or after `i`.
pub open spec fn spec_first_candidate(r: SymbolResolver, stack: Seq<u64>, i: int) -> Option<int>
    decreases stack.len() - i,
{
    if i < 0 || i >= stack.len() {
        None
    } else if spec_is_candidate(r.spec_resolve(stack[i])) {
        Some(i)
    } else {
        spec_first_candidate(r, stack, i + 1)
    }
}

/// The first caller frame at or after `i`: one whose function matches no
/// internal pattern and is a real name.
pub open spec fn spec_caller_ok(l: LocView) -> bool {
    !spec_matches_internal_function(l.function) && l.function.len() > 0 && l.function
        != "[unknown]"@
}

/// The first caller frame at or after `i`.
pub open spec fn spec_first_caller(r: SymbolResolver, stack: Seq<u64>, i: int) -> Option<int>
    decreases stack.len() - i,
{
    if i < 0 || i >= stack.len() {
        None
    } else if spec_caller_ok(r.spec_resolve(stack[i])) {
        Some(i)
    } else {
        spec_first_caller(r, stack, i + 1)
    }
}

/// The first frame at or after `i` that is not internal at all.
pub open spec fn spec_first_noninternal(r: SymbolResolver, stack: Seq<u64>, i: int) -> Option<int>
    decreases stack.len() - i,
{
    if i < 0 || i >= stack.len() {
        None
    } else if !spec_is_internal_file(r.spec_resolve(stack[i]).file) && !spec_is_internal_location(
        r.spec_resolve(stack[i]),
    ) {
        Some(i)
    } else {
        spec_first_noninternal(r, stack, i + 1)
    }
}

/// The marker location of a stack with no user frame at all; it is itself
/// internal and so gets dropped.
pub open spec fn spec_internal_marker() -> LocView {
    LocView { file: "[internal]"@, line: 0, column: 0, function: "[internal]"@ }
}

/// What user-frame selection answers for a stack, outermost frame first:
/// the first candidate frame — or, when that candidate is a utility
/// function, the next caller frame beyond it, if any — else the first
/// non-internal frame, else the internal marker.
pub open spec fn spec_find_user_frame(r: SymbolResolver, stack: Seq<u64>) -> LocView {
    match spec_first_candidate(r, stack, 0) {
        Some(i) => {
            let cand = r.spec_resolve(stack[i]);
            if spec_is_utility_function(cand.function) {
                match spec_first_caller(r, stack, i + 1) {
                    Some(j) => r.spec_resolve(stack[j]),
                    None => cand,
                }
            } else {
                cand
            }
        },
        None => match spec_first_noninternal(r, stack, 0) {
            Some(i) => r.spec_resolve(stack[i]),
            None => spec_internal_marker(),
        },
    }
}

/// Find the first candidate frame.
fn first_candidate(resolver: &SymbolResolver, stack: &Vec<u64>) -> (r: Option<usize>)
    requires
        resolver.wf(),
    ensures
        match r {
            Some(c) => c < stack@.len() && spec_first_candidate(*resolver, stack@, 0) == Some(
                c as int,
            ),
            None => spec_first_candidate(*resolver, stack@, 0) is None,
        },
{
    let n = stack.len();
    let mut i: usize = 0;
    while i < n
        invariant
            resolver.wf(),
            n == stack@.len(),
            i <= n,
            spec_first_candidate(*resolver, stack@, 0) == spec_first_candidate(
                *resolver,
                stack@,
                i as int,
            ),
        decreases n - i,
    {
        let loc = resolver.resolve(stack[i]);
        let is_cand = !is_internal_file(loc.file.as_str()) && !is_internal_location(&loc)
            && loc.function.unicode_len() > 0 && !str_eq(loc.function.as_str(), "[unknown]");
        if is_cand {
            return Some(i);
        }
        i += 1;
    }
    None
}

/// Select the user frame of a stack: skip allocator, library and profiler
/// frames, attribute utility helpers to their caller, and mark stacks with
/// no user frame as internal so they are dropped.
pub fn find_user_frame(resolver: &SymbolResolver, stack: &Vec<u64>) -> (r: Location)
    requires
        resolver.wf(),
    ensures
        loc_view(r) == spec_find_user_frame(*resolver, stack@),
{
    let n = stack.len();
    let cand = first_candidate(resolver, stack);
    match cand {
        Some(c) => {
            let cand_loc = resolver.resolve(stack[c]);
            if is_utility_function(cand_loc.function.as_str()) {
                let mut j = c + 1;
                while j < n
                    invariant
                        resolver.wf(),
                        n == stack@.len(),
                        c < n,
                        c + 1 <= j <= n,
                        spec_first_candidate(*resolver, stack@, 0) == Some(c as int),
                        spec_is_utility_function(resolver.spec_resolve(stack@[c as int]).function),
                        spec_first_caller(*resolver, stack@, c + 1) == spec_first_caller(
                            *resolver,
                            stack@,
                            j as int,
                        ),
                    decreases n - j,
                {
                    let loc = resolver.resolve(stack[j]);
                    if !matches_internal_function(loc.function.as_str())
                        && loc.function.unicode_len() > 0 && !str_eq(
                        loc.function.as_str(),
                        "[unknown]",
                    ) {
                        return loc;
                    }
                    j += 1;
                }
                cand_loc
            } else {
                cand_loc
            }
        },
        None => {
            let mut k: usize = 0;
            while k < n
                invariant
                    resolver.wf(),
                    n == stack@.len(),
                    k <= n,
                    spec_first_candidate(*resolver, stack@, 0) is None,
                    spec_first_noninternal(*resolver, stack@, 0) == spec_first_noninternal(
                        *resolver,
                        stack@,
                        k as int,
                    ),
                decreases n - k,
            {
                let loc = resolver.resolve(stack[k]);
                if !is_internal_file(loc.file.as_str()) && !is_internal_location(&loc) {
                    return loc;
                }
                k += 1;
            }
            Location {
                file: "[internal]".to_owned(),
                line: 0,
                column: 0,
                function: "[internal]".to_owned(),
            }
        },
    }
}

} // verus!
