//! Resolving runtime addresses to source locations.
//!
//! An address is first corrected for the load offset, then looked up in
//! the sorted line ranges (the candidate is the last range starting at or
//! below the address) and in the function table (the function with the
//! greatest start address at or below it). Line information that points
//! into the standard library while the function is user code is replaced
//! by the function's declaration site. Finally, any location whose file
//! does not belong to the profiled program's source tree is rejected and
//! folded to the unknown location, so foreign paths that happen to appear
//! in the debug info never show up in profiles.

use vstd::prelude::*;

use crate::dwarf::{ranges_sorted, spec_decl_lookup, AddressRange, DwarfInfo, FunctionDecl};
use crate::strutil::{
    match_at,
    spec_contains, spec_dec_digits, spec_find_first, spec_starts_with, str_contains, str_eq,
    str_find, str_starts_with, substring_copy, u64_to_dec,
};

verus! {

/// A resolved source location.
pub struct Location {
    /// The (simplified) source file, or a bracketed marker.
    pub file: String,
    /// The source line (0 when unknown).
    pub line: u32,
    /// The source column (0 when unknown).
    pub column: u32,
    /// The demangled function name, or a bracketed marker.
    pub function: String,
}

/// A location's fields, as specification values.
pub struct LocView {
    /// The source file.
    pub file: Seq<char>,
    /// The source line.
    pub line: u32,
    /// The source column.
    pub column: u32,
    /// The function name.
    pub function: Seq<char>,
}

/// The specification fields of a concrete location.
pub open spec fn loc_view(l: Location) -> LocView {
    LocView { file: l.file@, line: l.line, column: l.column, function: l.function@ }
}

/// The unknown location's fields.
pub open spec fn spec_unknown() -> LocView {
    LocView { file: "[unknown]"@, line: 0, column: 0, function: "[unknown]"@ }
}

impl Location {
    /// The location that stands for anything unresolvable.
    pub fn unknown() -> (r: Location)
        ensures
            loc_view(r) == spec_unknown(),
    {
        Location {
            file: "[unknown]".to_owned(),
            line: 0,
            column: 0,
            function: "[unknown]".to_owned(),
        }
    }

    /// Render as `file:line`, or just the file when the line is unknown.
    pub fn as_file_line(&self) -> (r: String)
        ensures
            self.line > 0 ==> r@ == self.file@ + seq![':'] + spec_dec_digits(self.line as int),
            self.line == 0 ==> r@ == self.file@,
    {
        if self.line > 0 {
            proof {
                reveal_strlit(":");
            }
            let mut s = self.file.clone();
            s.append(":");
            let d = u64_to_dec(self.line as u64);
            s.append(d.as_str());
            proof {
                assert(s@ =~= self.file@ + seq![':'] + spec_dec_digits(self.line as int));
            }
            s
        } else {
            self.file.clone()
        }
    }

    /// The file path, simplified for display.
    pub fn simplified_file(&self) -> (r: String)
        ensures
            r@ == spec_simplify_path(self.file@),
    {
        simplify_path(self.file.as_str())
    }

    /// A field-for-field copy.
    pub fn duplicate(&self) -> (r: Location)
        ensures
            loc_view(r) == loc_view(*self),
    {
        Location {
            file: self.file.clone(),
            line: self.line,
            column: self.column,
            function: self.function.clone(),
        }
    }
}

/// One pass of path simplification: when `pre` occurs in `s`, drop
/// everything up to and including the path component that follows it.
pub open spec fn spec_strip_after(s: Seq<char>, pre: Seq<char>) -> Seq<char> {
    match spec_find_first(s, pre) {
        Some(i) => {
            let after = s.subrange(i + pre.len(), s.len() as int);
            match spec_find_first(after, "/"@) {
                Some(j) => after.subrange(j + 1, after.len() as int),
                None => s,
            }
        },
        None => s,
    }
}

/// A simplified path: toolchain and dependency-cache prefixes are cut down
/// to the path inside the crate, and a leading project prefix is cut at
/// its `/src/` component.
pub open spec fn spec_simplify_path(s: Seq<char>) -> Seq<char> {
    let s1 = spec_strip_after(s, "/rustc/"@);
    let s2 = spec_strip_after(s1, "/.cargo/registry/src/"@);
    let s3 = spec_strip_after(s2, "/.cargo/git/checkouts/"@);
    match spec_find_first(s3, "/src/"@) {
        Some(i) => s3.subrange(i + 1, s3.len() as int),
        None => s3,
    }
}

/// One simplification pass, as executable code.
fn strip_after(s: &str, pre: &str) -> (r: String)
    ensures
        r@ == spec_strip_after(s@, pre@),
{
    match str_find(s, pre) {
        Some(i) => {
            let slen = s.unicode_len();
            let plen = pre.unicode_len();
            proof {
                assert(match_at(s@, pre@, i as int));
                assert(i + plen <= slen);
            }
            let after = substring_copy(s, i + plen, slen);
            match str_find(after.as_str(), "/") {
                Some(j) => {
                    let alen = after.as_str().unicode_len();
                    proof {
                        assert(match_at(after@, "/"@, j as int));
                        reveal_strlit("/");
                        assert(j + 1 <= alen);
                    }
                    let r = substring_copy(after.as_str(), j + 1, alen);
                    r
                },
                None => s.to_owned(),
            }
        },
        None => s.to_owned(),
    }
}

/// Simplify a file path for display.
pub fn simplify_path(s: &str) -> (r: String)
    ensures
        r@ == spec_simplify_path(s@),
{
    let s1 = strip_after(s, "/rustc/");
    let s2 = strip_after(s1.as_str(), "/.cargo/registry/src/");
    let s3 = strip_after(s2.as_str(), "/.cargo/git/checkouts/");
    match str_find(s3.as_str(), "/src/") {
        Some(i) => {
            let slen = s3.as_str().unicode_len();
            proof {
                assert(match_at(s3@, "/src/"@, i as int));
                reveal_strlit("/src/");
                assert(i + 1 <= slen);
            }
            let r = substring_copy(s3.as_str(), i + 1, slen);
            r
        },
        None => s3,
    }
}

/// Paths that belong to the standard library or dependency caches.
pub open spec fn spec_is_stdlib_path(s: Seq<char>) -> bool {
    ||| spec_contains(s, "/rustc/"@)
    ||| spec_contains(s, "/.cargo/"@)
    ||| spec_contains(s, "/rust/library/"@)
    ||| spec_starts_with(s, "<"@)
    ||| spec_contains(s, "library/core/"@)
    ||| spec_contains(s, "library/std/"@)
    ||| spec_contains(s, "library/alloc/"@)
}

/// Does this path look like standard-library or dependency code?
pub fn is_stdlib_path(s: &str) -> (r: bool)
    ensures
        r == spec_is_stdlib_path(s@),
{
    str_contains(s, "/rustc/") || str_contains(s, "/.cargo/") || str_contains(
        s,
        "/rust/library/",
    ) || str_starts_with(s, "<") || str_contains(s, "library/core/") || str_contains(
        s,
        "library/std/",
    ) || str_contains(s, "library/alloc/")
}

/// Function names that belong to the standard library, the toolchain's
/// runtime, or the symbolization machinery itself.
pub open spec fn spec_is_stdlib_function(s: Seq<char>) -> bool {
    ||| spec_starts_with(s, "std::"@)
    ||| spec_starts_with(s, "core::"@)
    ||| spec_starts_with(s, "alloc::"@)
    ||| spec_starts_with(s, "hashbrown::"@)
    ||| spec_starts_with(s, "__rust"@)
    ||| spec_starts_with(s, "_Unwind"@)
    ||| spec_starts_with(s, "rust_eh_personality"@)
    ||| spec_starts_with(s, "addr2line::"@)
    ||| spec_starts_with(s, "gimli::"@)
    ||| spec_starts_with(s, "object::"@)
    ||| s == "[unknown]"@
    ||| spec_starts_with(s, "<std::"@)
    ||| spec_starts_with(s, "<core::"@)
    ||| spec_starts_with(s, "<alloc::"@)
    ||| spec_contains(s, " as core::"@)
    ||| spec_contains(s, " as std::"@)
    ||| spec_contains(s, " as alloc::"@)
}

/// Does this function name look like standard-library or internal code?
pub fn is_stdlib_function(s: &str) -> (r: bool)
    ensures
        r == spec_is_stdlib_function(s@),
{
    str_starts_with(s, "std::") || str_starts_with(s, "core::") || str_starts_with(s, "alloc::")
        || str_starts_with(s, "hashbrown::") || str_starts_with(s, "__rust") || str_starts_with(
        s,
        "_Unwind",
    ) || str_starts_with(s, "rust_eh_personality") || str_starts_with(s, "addr2line::")
        || str_starts_with(s, "gimli::") || str_starts_with(s, "object::") || str_eq(
        s,
        "[unknown]",
    ) || str_starts_with(s, "<std::") || str_starts_with(s, "<core::") || str_starts_with(
        s,
        "<alloc::",
    ) || str_contains(s, " as core::") || str_contains(s, " as std::") || str_contains(
        s,
        " as alloc::",
    )
}

/// The index holding the best function for `a` among the entries from `i`
/// on: the greatest start address at or below `a`, first entry winning
/// ties, continuing from the best seen so far.
pub open spec fn spec_best_function(
    fns: Seq<(u64, String)>,
    a: u64,
    i: int,
    best: Option<int>,
) -> Option<int>
    decreases fns.len() - i,
{
    if i < 0 || i >= fns.len() {
        best
    } else {
        let better = if fns[i].0 <= a {
            match best {
                None => Some(i),
                Some(b) => if fns[i].0 > fns[b].0 {
                    Some(i)
                } else {
                    best
                },
            }
        } else {
            best
        };
        spec_best_function(fns, a, i + 1, better)
    }
}

/// The resolved function name for `a`: the name at the best entry, or the
/// unknown marker.
pub open spec fn spec_function_for(fns: Seq<(u64, String)>, a: u64) -> Seq<char> {
    match spec_best_function(fns, a, 0, None) {
        Some(i) => fns[i].1@,
        None => "[unknown]"@,
    }
}

/// What the best-function scan guarantees: whenever any symbol starts at
/// or below `a`, the scan picks one of them, and none with a greater
/// start below `a` exists.
pub proof fn lemma_best_function_props(fns: Seq<(u64, String)>, a: u64, i: int, best: Option<int>)
    requires
        0 <= i <= fns.len(),
        match best {
            Some(b) => 0 <= b < fns.len() && fns[b].0 <= a && forall|j: int|
                0 <= j < i && (#[trigger] fns[j]).0 <= a ==> fns[j].0 <= fns[b].0,
            None => forall|j: int| 0 <= j < i ==> (#[trigger] fns[j]).0 > a,
        },
    ensures
        match spec_best_function(fns, a, i, best) {
            Some(b) => 0 <= b < fns.len() && fns[b].0 <= a && forall|j: int|
                0 <= j < fns.len() && (#[trigger] fns[j]).0 <= a ==> fns[j].0 <= fns[b].0,
            None => forall|j: int| 0 <= j < fns.len() ==> (#[trigger] fns[j]).0 > a,
        },
    decreases fns.len() - i,
{
    if i < fns.len() {
        let better = if fns[i].0 <= a {
            match best {
                None => Some(i),
                Some(b) => if fns[i].0 > fns[b].0 {
                    Some(i)
                } else {
                    best
                },
            }
        } else {
            best
        };
        lemma_best_function_props(fns, a, i + 1, better);
    }
}

/// Symbolization round trip: an address taken straight from the symbol
/// table resolves back to the function declared at it, as long as no other
/// name is bound to the same start address.
pub proof fn lemma_symbol_round_trip(fns: Seq<(u64, String)>, a: u64, i: int)
    requires
        0 <= i < fns.len(),
        fns[i].0 == a,
        forall|j: int| 0 <= j < fns.len() && (#[trigger] fns[j]).0 == a ==> fns[j].1@ == fns[i].1@,
    ensures
        spec_function_for(fns, a) == fns[i].1@,
{
    lemma_best_function_props(fns, a, 0, None);
    let r = spec_best_function(fns, a, 0, None);
    match r {
        Some(b) => {
            assert(fns[i].0 <= a);
            assert(fns[b].0 >= fns[i].0);
            assert(fns[b].0 == a);
        },
        None => {
            assert(fns[i].0 > a);
        },
    }
}

/// The symbol resolver: the debug tables, the load offset, the inferred
/// source-tree root, and a lookup cache.
pub struct SymbolResolver {
    /// Line ranges, sorted by start address.
    pub ranges: Vec<AddressRange>,
    /// Function starts and demangled names.
    pub functions: Vec<(u64, String)>,
    /// Function declaration sites.
    pub function_decls: Vec<FunctionDecl>,
    /// The load offset subtracted from every runtime address.
    pub aslr_offset: u64,
    /// The profiled program's source-tree root, when one was inferred.
    pub target_root: Option<String>,
    /// Relative paths known to exist under the root.
    pub rel_known: Vec<String>,
    /// Previously resolved addresses.
    pub cache: Vec<(u64, Location)>,
}

impl SymbolResolver {
    /// Is this file path inside the profiled program's source tree? With
    /// no root inferred everything is accepted; an absolute path must lie
    /// under the root; a relative path must be among those known to exist
    /// under it.
    pub open spec fn spec_is_target_path(self, path: Seq<char>) -> bool {
        match self.target_root {
            None => true,
            Some(root) => {
                if path.len() == 0 {
                    false
                } else if path[0] == '/' {
                    path == root@ || (spec_starts_with(path, root@) && path.len() > root@.len()
                        && path[root@.len() as int] == '/')
                } else {
                    exists|i: int| 0 <= i < self.rel_known@.len() && (#[trigger] self.rel_known@[i])@ == path
                }
            },
        }
    }

    /// The well-formed resolver: its ranges are sorted, and every cached
    /// location is what resolution computes.
    pub open spec fn wf(self) -> bool {
        &&& ranges_sorted(self.ranges@)
        &&& forall|i: int|
            0 <= i < self.cache@.len() ==> loc_view((#[trigger] self.cache@[i]).1)
                == self.spec_resolve(self.cache@[i].0)
    }

    /// The index of the last range starting at or below `a`, if any.
    pub open spec fn spec_candidate(ranges: Seq<AddressRange>, a: u64, i: int) -> Option<int>
        decreases ranges.len() - i,
    {
        if i < 0 || i >= ranges.len() {
            None
        } else if ranges[i].start > a {
            if i == 0 {
                None
            } else {
                Some(i - 1)
            }
        } else if i == ranges.len() - 1 {
            Some(i)
        } else {
            SymbolResolver::spec_candidate(ranges, a, i + 1)
        }
    }

    /// What resolution answers once a containing line range was found.
    pub open spec fn spec_loc_from_range(self, rv: crate::dwarf::RangeView, fname: Seq<char>) -> LocView {
        let file1 = spec_simplify_path(rv.file);
        let decl = spec_decl_lookup(self.function_decls@, fname, 0);
        if spec_is_stdlib_path(file1) && !spec_is_stdlib_function(fname) && decl is Some {
            let df = self.function_decls@[decl->Some_0].file@;
            let dl = self.function_decls@[decl->Some_0].line;
            if !self.spec_is_target_path(df) {
                spec_unknown()
            } else if !spec_is_stdlib_path(spec_simplify_path(df)) {
                LocView { file: spec_simplify_path(df), line: dl, column: 0, function: fname }
            } else if !self.spec_is_target_path(rv.file) {
                spec_unknown()
            } else {
                LocView { file: file1, line: rv.line, column: rv.column, function: fname }
            }
        } else if !self.spec_is_target_path(rv.file) {
            spec_unknown()
        } else {
            LocView { file: file1, line: rv.line, column: rv.column, function: fname }
        }
    }

    /// What resolution answers when no line range contains the address.
    pub open spec fn spec_loc_no_range(self, fname: Seq<char>) -> LocView {
        if fname != "[unknown]"@ {
            let decl = spec_decl_lookup(self.function_decls@, fname, 0);
            if decl is Some {
                let df = self.function_decls@[decl->Some_0].file@;
                let dl = self.function_decls@[decl->Some_0].line;
                if !self.spec_is_target_path(df) {
                    spec_unknown()
                } else if !spec_is_stdlib_path(spec_simplify_path(df)) {
                    LocView { file: spec_simplify_path(df), line: dl, column: 0, function: fname }
                } else {
                    LocView { file: "[no line info]"@, line: 0, column: 0, function: fname }
                }
            } else {
                LocView { file: "[no line info]"@, line: 0, column: 0, function: fname }
            }
        } else {
            spec_unknown()
        }
    }

    /// What resolving an address answers: correct for the load offset,
    /// take the candidate line range and the best function symbol, then
    /// apply the declaration substitution and the target-root filter.
    pub open spec fn spec_resolve(self, addr: u64) -> LocView {
        let a = if addr >= self.aslr_offset {
            (addr - self.aslr_offset) as u64
        } else {
            0u64
        };
        let fname = spec_function_for(self.functions@, a);
        let cand = SymbolResolver::spec_candidate(self.ranges@, a, 0);
        if cand is Some && self.ranges@[cand->Some_0].start <= a && a < self.ranges@[
            cand->Some_0
        ].end {
            self.spec_loc_from_range(crate::dwarf::range_view(self.ranges@[cand->Some_0]), fname)
        } else {
            self.spec_loc_no_range(fname)
        }
    }

    /// Assemble a resolver from parsed debug information, the load offset,
    /// and the inferred target root with its known relative paths.
    pub fn new(
        dwarf: DwarfInfo,
        aslr_offset: u64,
        target_root: Option<String>,
        rel_known: Vec<String>,
    ) -> (r: SymbolResolver)
        requires
            ranges_sorted(dwarf.ranges@),
        ensures
            r.wf(),
            r.ranges@ == dwarf.ranges@,
            r.functions@ == dwarf.functions@,
            r.function_decls@ == dwarf.function_decls@,
            r.aslr_offset == aslr_offset,
    {
        SymbolResolver {
            ranges: dwarf.ranges,
            functions: dwarf.functions,
            function_decls: dwarf.function_decls,
            aslr_offset,
            target_root,
            rel_known,
            cache: Vec::new(),
        }
    }

    /// Number of line ranges loaded.
    pub fn range_count(&self) -> (n: usize)
        ensures
            n == self.ranges@.len(),
    {
        self.ranges.len()
    }

    /// The load offset in use.
    pub fn aslr_offset(&self) -> (o: u64)
        ensures
            o == self.aslr_offset,
    {
        self.aslr_offset
    }

    /// Is this file path inside the profiled program's source tree?
    fn is_target_path(&self, path: &str) -> (r: bool)
        ensures
            r == self.spec_is_target_path(path@),
    {
        match &self.target_root {
            None => true,
            Some(root) => {
                let plen = path.unicode_len();
                if plen == 0 {
                    return false;
                }
                if path.get_char(0) == '/' {
                    if str_eq(path, root.as_str()) {
                        return true;
                    }
                    let rlen = root.as_str().unicode_len();
                    str_starts_with(path, root.as_str()) && plen > rlen && path.get_char(rlen)
                        == '/'
                } else {
                    let mut i: usize = 0;
                    while i < self.rel_known.len()
                        invariant
                            i <= self.rel_known@.len(),
                            path@.len() > 0,
                            path@[0] != '/',
                            self.target_root is Some,
                            forall|j: int|
                                0 <= j < i ==> (#[trigger] self.rel_known@[j])@ != path@,
                        decreases self.rel_known@.len() - i,
                    {
                        if str_eq(self.rel_known[i].as_str(), path) {
                            return true;
                        }
                        i += 1;
                    }
                    false
                }
            },
        }
    }

    /// The name of the function whose start address is the greatest at or
    /// below `a`; the unknown marker when no symbol starts at or below it.
    fn find_function(&self, a: u64) -> (r: String)
        ensures
            r@ == spec_function_for(self.functions@, a),
    {
        let mut best: Option<usize> = None;
        let mut i: usize = 0;
        while i < self.functions.len()
            invariant
                i <= self.functions@.len(),
                match best {
                    Some(b) => b < i && self.functions@[b as int].0 <= a,
                    None => true,
                },
                spec_best_function(self.functions@, a, 0, None) == spec_best_function(
                    self.functions@,
                    a,
                    i as int,
                    match best {
                        Some(b) => Some(b as int),
                        None => None,
                    },
                ),
            decreases self.functions@.len() - i,
        {
            let start = self.functions[i].0;
            if start <= a {
                match best {
                    None => {
                        best = Some(i);
                    },
                    Some(b) => {
                        if start > self.functions[b].0 {
                            best = Some(i);
                        }
                    },
                }
            }
            i += 1;
        }
        match best {
            Some(b) => self.functions[b].1.clone(),
            None => "[unknown]".to_owned(),
        }
    }

    /// The first declaration entry for this function name.
    fn decl_lookup(&self, name: &str) -> (r: Option<usize>)
        ensures
            match r {
                Some(i) => spec_decl_lookup(self.function_decls@, name@, 0) == Some(i as int)
                    && i < self.function_decls@.len(),
                None => spec_decl_lookup(self.function_decls@, name@, 0) is None,
            },
    {
        let mut i: usize = 0;
        while i < self.function_decls.len()
            invariant
                i <= self.function_decls@.len(),
                spec_decl_lookup(self.function_decls@, name@, 0) == spec_decl_lookup(
                    self.function_decls@,
                    name@,
                    i as int,
                ),
            decreases self.function_decls@.len() - i,
        {
            if str_eq(self.function_decls[i].name.as_str(), name) {
                proof {
                    assert(spec_decl_lookup(self.function_decls@, name@, i as int) == Some(
                        i as int,
                    ));
                }
                return Some(i);
            }
            i += 1;
        }
        None
    }

    /// The index of the last range starting at or below `a`.
    fn candidate(&self, a: u64) -> (r: Option<usize>)
        requires
            ranges_sorted(self.ranges@),
        ensures
            match r {
                Some(i) => SymbolResolver::spec_candidate(self.ranges@, a, 0) == Some(i as int)
                    && i < self.ranges@.len(),
                None => SymbolResolver::spec_candidate(self.ranges@, a, 0) is None,
            },
    {
        let n = self.ranges.len();
        if n == 0 {
            return None;
        }
        let mut i: usize = 0;
        while i < n
            invariant
                n == self.ranges@.len(),
                0 < n,
                i <= n,
                i > 0 ==> self.ranges@[i - 1].start <= a,
                i < n ==> SymbolResolver::spec_candidate(self.ranges@, a, 0)
                    == SymbolResolver::spec_candidate(self.ranges@, a, i as int),
                i == n ==> SymbolResolver::spec_candidate(self.ranges@, a, 0) == Some(i - 1),
            decreases n - i,
        {
            if self.ranges[i].start > a {
                proof {
                    if i == 0 {
                        assert(SymbolResolver::spec_candidate(self.ranges@, a, 0) is None);
                    } else {
                        assert(SymbolResolver::spec_candidate(self.ranges@, a, i as int) == Some(
                            i - 1,
                        ));
                    }
                }
                if i == 0 {
                    return None;
                }
                return Some(i - 1);
            }
            proof {
                if i + 1 < n {
                    assert(SymbolResolver::spec_candidate(self.ranges@, a, i as int)
                        == SymbolResolver::spec_candidate(self.ranges@, a, i + 1));
                } else {
                    assert(SymbolResolver::spec_candidate(self.ranges@, a, i as int) == Some(
                        i as int,
                    ));
                }
            }
            i += 1;
        }
        Some(n - 1)
    }

    /// Resolve a runtime address to a source location.
    pub fn resolve(&self, addr: u64) -> (r: Location)
        requires
            self.wf(),
        ensures
            loc_view(r) == self.spec_resolve(addr),
    {
        let a = addr.saturating_sub(self.aslr_offset);
        let function = self.find_function(a);
        let cand = self.candidate(a);
        let hit: Option<usize> = match cand {
            Some(i) => {
                if self.ranges[i].start <= a && a < self.ranges[i].end {
                    Some(i)
                } else {
                    None
                }
            },
            None => None,
        };
        match hit {
            Some(i) => {
                let file1 = simplify_path(self.ranges[i].file.as_str());
                if is_stdlib_path(file1.as_str()) && !is_stdlib_function(function.as_str()) {
                    match self.decl_lookup(function.as_str()) {
                        Some(di) => {
                            let df = &self.function_decls[di].file;
                            let dl = self.function_decls[di].line;
                            if !self.is_target_path(df.as_str()) {
                                return Location::unknown();
                            }
                            let sd = simplify_path(df.as_str());
                            if !is_stdlib_path(sd.as_str()) {
                                return Location { file: sd, line: dl, column: 0, function };
                            }
                            if !self.is_target_path(self.ranges[i].file.as_str()) {
                                return Location::unknown();
                            }
                            return Location {
                                file: file1,
                                line: self.ranges[i].line,
                                column: self.ranges[i].column,
                                function,
                            };
                        },
                        None => {},
                    }
                }
                if !self.is_target_path(self.ranges[i].file.as_str()) {
                    return Location::unknown();
                }
                Location { file: file1, line: self.ranges[i].line, column: self.ranges[i].column, function }
            },
            None => {
                if !str_eq(function.as_str(), "[unknown]") {
                    match self.decl_lookup(function.as_str()) {
                        Some(di) => {
                            let df = &self.function_decls[di].file;
                            let dl = self.function_decls[di].line;
                            if !self.is_target_path(df.as_str()) {
                                return Location::unknown();
                            }
                            let sd = simplify_path(df.as_str());
                            if !is_stdlib_path(sd.as_str()) {
                                return Location { file: sd, line: dl, column: 0, function };
                            }
                        },
                        None => {},
                    }
                    Location { file: "[no line info]".to_owned(), line: 0, column: 0, function }
                } else {
                    Location::unknown()
                }
            },
        }
    }

    /// Resolve through the cache, remembering the answer.
    pub fn resolve_cached(&mut self, addr: u64) -> (r: Location)
        requires
            old(self).wf(),
        ensures
            final(self).wf(),
            loc_view(r) == old(self).spec_resolve(addr),
            final(self).ranges@ == old(self).ranges@,
            final(self).functions@ == old(self).functions@,
            final(self).function_decls@ == old(self).function_decls@,
            final(self).aslr_offset == old(self).aslr_offset,
            final(self).target_root == old(self).target_root,
            final(self).rel_known@ == old(self).rel_known@,
            final(self).cache@.len() <= old(self).cache@.len() + 1,
            forall|j: int|
                0 <= j < old(self).cache@.len() ==> #[trigger] final(self).cache@[j] == old(
                    self,
                ).cache@[j],
    {
        let mut i: usize = 0;
        while i < self.cache.len()
            invariant
                self.wf(),
                i <= self.cache@.len(),
            decreases self.cache@.len() - i,
        {
            if self.cache[i].0 == addr {
                return self.cache[i].1.duplicate();
            }
            i += 1;
        }
        let loc = self.resolve(addr);
        let entry = (addr, loc.duplicate());
        let ghost pre = *self;
        self.cache.push(entry);
        proof {
            assert forall|x: u64| pre.spec_resolve(x) == self.spec_resolve(x) by {
                assert(pre.ranges == self.ranges && pre.functions == self.functions
                    && pre.function_decls == self.function_decls && pre.aslr_offset
                    == self.aslr_offset && pre.target_root == self.target_root && pre.rel_known
                    == self.rel_known);
                let fname = crate::resolver::spec_function_for(pre.functions@, if x
                    >= pre.aslr_offset {
                    (x - pre.aslr_offset) as u64
                } else {
                    0u64
                });
                assert(pre.spec_loc_no_range(fname) == self.spec_loc_no_range(fname));
                let cand = SymbolResolver::spec_candidate(
                    pre.ranges@,
                    if x >= pre.aslr_offset {
                        (x - pre.aslr_offset) as u64
                    } else {
                        0u64
                    },
                    0,
                );
                if cand is Some {
                    assert(pre.spec_loc_from_range(
                        crate::dwarf::range_view(pre.ranges@[cand->Some_0]),
                        fname,
                    ) == self.spec_loc_from_range(
                        crate::dwarf::range_view(pre.ranges@[cand->Some_0]),
                        fname,
                    ));
                }
            }
            assert forall|j: int|
                0 <= j < self.cache@.len() implies loc_view((#[trigger] self.cache@[j]).1)
                == self.spec_resolve(self.cache@[j].0) by {
                if j < pre.cache@.len() {
                    assert(self.cache@[j] == pre.cache@[j]);
                    assert(loc_view(pre.cache@[j].1) == pre.spec_resolve(pre.cache@[j].0));
                } else {
                    assert(self.cache@[j] == entry);
                    assert(loc_view(entry.1) == pre.spec_resolve(addr));
                }
            }
        }
        loc
    }
}

} // verus!
