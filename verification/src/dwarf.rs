//! Building symbolization tables from debug information.
//!
//! The line-number program of each compilation unit yields rows
//! `(address, file, line, column, end-of-sequence)`. Consecutive rows are
//! read as half-open ranges `[prev.addr, this.addr)` carrying the earlier
//! row's location; a row that ends a sequence emits no range and breaks the
//! chain. The ranges of all units are then sorted by start address for
//! lookup. Symbol-table entries are demangled into the function table.

use vstd::prelude::*;

use crate::strutil::{str_eq, str_ends_with, str_find, substring_copy};
use vstd::multiset::Multiset;

verus! {

/// One row of a line-number program, as plain values.
pub struct LineRow {
    /// The row's address.
    pub addr: u64,
    /// The source file the row names.
    pub file: String,
    /// The source line.
    pub line: u32,
    /// The source column.
    pub column: u32,
    /// Whether this row ends its sequence.
    pub end_sequence: bool,
}

/// An address range mapped to a source location.
pub struct AddressRange {
    /// First address covered.
    pub start: u64,
    /// One past the last address covered.
    pub end: u64,
    /// The source file.
    pub file: String,
    /// The source line.
    pub line: u32,
    /// The source column.
    pub column: u32,
}

/// An address range's fields, as specification values.
pub struct RangeView {
    /// First address covered.
    pub start: u64,
    /// One past the last address covered.
    pub end: u64,
    /// The source file.
    pub file: Seq<char>,
    /// The source line.
    pub line: u32,
    /// The source column.
    pub column: u32,
}

/// The specification fields of a concrete range.
pub open spec fn range_view(r: AddressRange) -> RangeView {
    RangeView { start: r.start, end: r.end, file: r.file@, line: r.line, column: r.column }
}

/// The ranges that the rows from position `i` on contribute, given the
/// pending previous row (by index): each row closes the pending row's range
/// when the address advanced and the pending row names a file, and a row
/// that ends its sequence leaves nothing pending.
pub open spec fn spec_collect_ranges(rows: Seq<LineRow>, i: int, prev: Option<int>) -> Seq<
    RangeView,
>
    decreases rows.len() - i,
{
    if i < 0 || i >= rows.len() {
        Seq::empty()
    } else {
        let emitted = match prev {
            Some(p) => if rows[i].addr > rows[p].addr && rows[p].file@.len() > 0 {
                seq![
                    RangeView {
                        start: rows[p].addr,
                        end: rows[i].addr,
                        file: rows[p].file@,
                        line: rows[p].line,
                        column: rows[p].column,
                    },
                ]
            } else {
                Seq::empty()
            },
            None => Seq::empty(),
        };
        let next_prev = if rows[i].end_sequence {
            None
        } else {
            Some(i)
        };
        emitted + spec_collect_ranges(rows, i + 1, next_prev)
    }
}

/// Ranges ordered by start address.
pub open spec fn ranges_sorted(s: Seq<AddressRange>) -> bool {
    forall|i: int, j: int| 0 <= i < j < s.len() ==> (#[trigger] s[i]).start <= (#[trigger] s[j]).start
}

/// Turn the rows of all line programs into unsorted ranges.
fn collect_ranges(rows: &Vec<LineRow>) -> (r: Vec<AddressRange>)
    ensures
        r@.map_values(|x: AddressRange| range_view(x)) == spec_collect_ranges(rows@, 0, None),
{
    let mut out: Vec<AddressRange> = Vec::new();
    let mut i: usize = 0;
    let mut prev: Option<usize> = None;
    while i < rows.len()
        invariant
            i <= rows@.len(),
            match prev {
                Some(p) => p < i && spec_collect_ranges(rows@, 0, None) == out@.map_values(
                    |x: AddressRange| range_view(x),
                ) + spec_collect_ranges(rows@, i as int, Some(p as int)),
                None => spec_collect_ranges(rows@, 0, None) == out@.map_values(
                    |x: AddressRange| range_view(x),
                ) + spec_collect_ranges(rows@, i as int, None),
            },
        decreases rows@.len() - i,
    {
        let ghost out_pre = out@;
        match prev {
            Some(p) => {
                if rows[i].addr > rows[p].addr && rows[p].file.unicode_len() > 0 {
                    let rng = AddressRange {
                        start: rows[p].addr,
                        end: rows[i].addr,
                        file: rows[p].file.clone(),
                        line: rows[p].line,
                        column: rows[p].column,
                    };
                    proof {
                        assert(range_view(rng) == (RangeView {
                            start: rows@[p as int].addr,
                            end: rows@[i as int].addr,
                            file: rows@[p as int].file@,
                            line: rows@[p as int].line,
                            column: rows@[p as int].column,
                        }));
                    }
                    out.push(rng);
                }
            },
            None => {},
        }
        proof {
            assert(out@.map_values(|x: AddressRange| range_view(x)) =~= out_pre.map_values(
                |x: AddressRange| range_view(x),
            ) + out@.map_values(|x: AddressRange| range_view(x)).subrange(
                out_pre.len() as int,
                out@.len() as int,
            ));
        }
        if rows[i].end_sequence {
            prev = None;
        } else {
            prev = Some(i);
        }
        i += 1;
    }
    proof {
        assert(spec_collect_ranges(rows@, i as int, None) =~= Seq::<RangeView>::empty());
        if prev is Some {
            assert(spec_collect_ranges(rows@, i as int, Some(prev->Some_0 as int)) =~= Seq::<
                RangeView,
            >::empty());
        }
        assert(out@.map_values(|x: AddressRange| range_view(x)) =~= out@.map_values(
            |x: AddressRange| range_view(x),
        ) + Seq::<RangeView>::empty());
    }
    out
}

/// Inserting anywhere into a sequence adds exactly that element to its
/// multiset.
pub proof fn lemma_insert_to_multiset<A>(s: Seq<A>, k: int, v: A)
    requires
        0 <= k <= s.len(),
    ensures
        s.insert(k, v).to_multiset() =~= s.to_multiset().insert(v),
{
    broadcast use vstd::seq_lib::group_to_multiset_ensures;

    let a = s.subrange(0, k);
    let b = s.subrange(k, s.len() as int);
    assert(s =~= a + b);
    assert(s.insert(k, v) =~= a.push(v) + b);
    vstd::seq_lib::lemma_multiset_commutative(a.push(v), b);
    vstd::seq_lib::lemma_multiset_commutative(a, b);
    assert(a.push(v).to_multiset() =~= a.to_multiset().insert(v));
    assert forall|x: A| s.insert(k, v).to_multiset().count(x) == s.to_multiset().insert(
        v,
    ).count(x) by {
        assert(s.insert(k, v).to_multiset().count(x) == a.to_multiset().insert(v).count(x)
            + b.to_multiset().count(x));
        assert(s.to_multiset().count(x) == a.to_multiset().count(x) + b.to_multiset().count(x));
    }
}

/// Sort ranges by start address; the result holds exactly the input's
/// ranges.
pub fn sort_ranges(input: Vec<AddressRange>) -> (r: Vec<AddressRange>)
    ensures
        ranges_sorted(r@),
        r@.map_values(|x: AddressRange| range_view(x)).to_multiset() == input@.map_values(
            |x: AddressRange| range_view(x),
        ).to_multiset(),
        r@.len() == input@.len(),
{
    broadcast use vstd::seq_lib::group_to_multiset_ensures;

    let mut input = input;
    let mut out: Vec<AddressRange> = Vec::new();
    proof {
        assert(input@.map_values(|x: AddressRange| range_view(x)).subrange(0, 0) =~= Seq::<
            RangeView,
        >::empty());
        assert(out@.map_values(|x: AddressRange| range_view(x)) =~= Seq::<RangeView>::empty());
        assert(Seq::<RangeView>::empty().to_multiset() =~= Multiset::<RangeView>::empty());
    }
    let mut i: usize = 0;
    while i < input.len()
        invariant
            i <= input@.len(),
            ranges_sorted(out@),
            out@.len() == i,
            out@.map_values(|x: AddressRange| range_view(x)).to_multiset() == input@.map_values(
                |x: AddressRange| range_view(x),
            ).subrange(0, i as int).to_multiset(),
        decreases input@.len() - i,
    {
        let e = AddressRange {
            start: input[i].start,
            end: input[i].end,
            file: input[i].file.clone(),
            line: input[i].line,
            column: input[i].column,
        };
        proof {
            assert(range_view(e) == range_view(input@[i as int]));
        }
        // find the first position whose start exceeds the new range's
        let mut k: usize = 0;
        while k < out.len() && out[k].start <= e.start
            invariant
                k <= out@.len(),
                forall|j: int| 0 <= j < k ==> (#[trigger] out@[j]).start <= e.start,
                ranges_sorted(out@),
            decreases out@.len() - k,
        {
            k += 1;
        }
        let ghost out_pre = out@;
        out.insert(k, e);
        proof {
            broadcast use vstd::seq_lib::group_to_multiset_ensures;

            assert forall|x: int, y: int|
                0 <= x < y < out@.len() implies (#[trigger] out@[x]).start <= (
            #[trigger] out@[y]).start by {
                if x < k && y == k {
                } else if x == k && y > k {
                    assert(out@[y] == out_pre[y - 1]);
                    assert(out_pre[y - 1].start >= out_pre[k as int].start || k >= out_pre.len());
                    if (k as int) < out_pre.len() {
                        assert(out_pre[k as int].start > e.start);
                    }
                } else if x < k && y > k {
                    assert(out@[x] == out_pre[x] && out@[y] == out_pre[y - 1]);
                } else if x > k && y > k {
                    assert(out@[x] == out_pre[x - 1] && out@[y] == out_pre[y - 1]);
                } else if x < k && y < k {
                    assert(out@[x] == out_pre[x] && out@[y] == out_pre[y]);
                }
            }
            lemma_insert_to_multiset(
                out_pre.map_values(|x: AddressRange| range_view(x)),
                k as int,
                range_view(e),
            );
            assert(out@.map_values(|x: AddressRange| range_view(x)) =~= out_pre.map_values(
                |x: AddressRange| range_view(x),
            ).insert(k as int, range_view(e)));
            let ghost iv = input@.map_values(|x: AddressRange| range_view(x));
            assert(iv.subrange(0, i + 1).drop_last() =~= iv.subrange(0, i as int));
            assert(iv.subrange(0, i + 1) =~= iv.subrange(0, i as int).push(range_view(e)));
            assert(iv.subrange(0, i as int).push(range_view(e)).to_multiset() =~= iv.subrange(
                0,
                i as int,
            ).to_multiset().insert(range_view(e)));
        }
        i += 1;
    }
    proof {
        assert(input@.map_values(|x: AddressRange| range_view(x)).subrange(
            0,
            input@.len() as int,
        ) =~= input@.map_values(|x: AddressRange| range_view(x)));
    }
    out
}

/// Build the sorted range table from the line-program rows.
pub fn build_address_ranges(rows: &Vec<LineRow>) -> (r: Vec<AddressRange>)
    ensures
        ranges_sorted(r@),
        r@.map_values(|x: AddressRange| range_view(x)).to_multiset() == spec_collect_ranges(
            rows@,
            0,
            None,
        ).to_multiset(),
{
    let unsorted = collect_ranges(rows);
    sort_ranges(unsorted)
}

/// The demangled form of a compiler-mangled symbol name. The demangler's
/// output depends on the characters of the name alone.
pub uninterp spec fn demangled_of(name: Seq<char>) -> Seq<char>;

/// Demangle one symbol name.
///
/// Relies on `rustc_demangle::demangle`, whose rendering is a pure
/// function of the mangled name; a name that does not look mangled is
/// returned unchanged.
#[verifier::external_body]
fn demangle_name(name: &str) -> (r: String)
    ensures
        r@ == demangled_of(name@),
{
    rustc_demangle::demangle(name).to_string()
}

/// One function's declaration site, from the debug entries.
pub struct FunctionDecl {
    /// The demangled function name.
    pub name: String,
    /// The file the function is declared in.
    pub file: String,
    /// The declaration line.
    pub line: u32,
}

/// Demangle a symbol table: each `(address, mangled name)` pair becomes
/// `(address, demangled name)`, in order.
pub fn build_function_table(symbols: &Vec<(u64, String)>) -> (r: Vec<(u64, String)>)
    ensures
        r@.len() == symbols@.len(),
        forall|i: int|
            0 <= i < symbols@.len() ==> (#[trigger] r@[i]).0 == symbols@[i].0 && r@[i].1@
                == demangled_of(symbols@[i].1@),
{
    let mut r: Vec<(u64, String)> = Vec::new();
    let mut i: usize = 0;
    while i < symbols.len()
        invariant
            i <= symbols@.len(),
            r@.len() == i,
            forall|j: int|
                0 <= j < i ==> (#[trigger] r@[j]).0 == symbols@[j].0 && r@[j].1@ == demangled_of(
                    symbols@[j].1@,
                ),
        decreases symbols@.len() - i,
    {
        let addr = symbols[i].0;
        let name = demangle_name(symbols[i].1.as_str());
        r.push((addr, name));
        i += 1;
    }
    r
}

/// Paths that belong to the standard library or to dependency caches, as
/// the debug-entry pass classifies them.
pub open spec fn spec_decl_is_stdlib_path(s: Seq<char>) -> bool {
    ||| crate::strutil::spec_contains(s, "/rustc/"@)
    ||| crate::strutil::spec_contains(s, "/.cargo/"@)
    ||| crate::strutil::spec_contains(s, "/rust/library/"@)
    ||| crate::strutil::spec_starts_with(s, "<"@)
}

/// Does this path belong to the standard library or a dependency cache?
pub fn decl_is_stdlib_path(s: &str) -> (r: bool)
    ensures
        r == spec_decl_is_stdlib_path(s@),
{
    crate::strutil::str_contains(s, "/rustc/") || crate::strutil::str_contains(s, "/.cargo/")
        || crate::strutil::str_contains(s, "/rust/library/") || crate::strutil::str_starts_with(
        s,
        "<",
    )
}

/// The declaration entry for a function name: the first entry that
/// carries it.
pub open spec fn spec_decl_lookup(decls: Seq<FunctionDecl>, name: Seq<char>, i: int) -> Option<
    int,
>
    decreases decls.len() - i,
{
    if i < 0 || i >= decls.len() {
        None
    } else if decls[i].name@ == name {
        Some(i)
    } else {
        spec_decl_lookup(decls, name, i + 1)
    }
}

/// Record one function declaration. A name seen for the first time is
/// appended; a name already present is replaced exactly when the stored
/// file looks like standard-library code and the new one does not, so
/// user declarations win over dependency ones and are never displaced.
pub fn insert_function_decl(decls: &mut Vec<FunctionDecl>, name: &str, file: &str, line: u32)
    ensures
        match spec_decl_lookup(old(decls)@, name@, 0) {
            Some(i) => {
                if spec_decl_is_stdlib_path(old(decls)@[i].file@) && !spec_decl_is_stdlib_path(
                    file@,
                ) {
                    &&& final(decls)@.len() == old(decls)@.len()
                    &&& final(decls)@[i].name@ == name@
                    &&& final(decls)@[i].file@ == file@
                    &&& final(decls)@[i].line == line
                    &&& forall|j: int|
                        0 <= j < old(decls)@.len() && j != i ==> final(decls)@[j] == old(
                            decls,
                        )@[j]
                } else {
                    final(decls)@ == old(decls)@
                }
            },
            None => {
                &&& final(decls)@.len() == old(decls)@.len() + 1
                &&& final(decls)@.last().name@ == name@
                &&& final(decls)@.last().file@ == file@
                &&& final(decls)@.last().line == line
                &&& forall|j: int|
                    0 <= j < old(decls)@.len() ==> final(decls)@[j] == old(decls)@[j]
            },
        },
    {
    let mut i: usize = 0;
    while i < decls.len()
        invariant
            i <= decls@.len(),
            decls@ == old(decls)@,
            spec_decl_lookup(old(decls)@, name@, 0) == spec_decl_lookup(
                old(decls)@,
                name@,
                i as int,
            ),
            forall|j: int| 0 <= j < i ==> (#[trigger] decls@[j]).name@ != name@,
        decreases decls@.len() - i,
    {
        if str_eq(decls[i].name.as_str(), name) {
            proof {
                assert(spec_decl_lookup(old(decls)@, name@, i as int) == Some(i as int));
            }
            if decl_is_stdlib_path(decls[i].file.as_str()) && !decl_is_stdlib_path(file) {
                let d = FunctionDecl { name: name.to_owned(), file: file.to_owned(), line };
                decls.set(i, d);
                proof {
                    assert(decls@[i as int].name@ == name@);
                }
            } else {
                proof {
                    assert(decls@[i as int].name@ == name@);
                }
            }
            return ;
        }
        i += 1;
    }
    proof {
        assert(spec_decl_lookup(old(decls)@, name@, i as int) is None);
    }
    let d = FunctionDecl { name: name.to_owned(), file: file.to_owned(), line };
    decls.push(d);
    proof {
        assert(decls@[decls@.len() - 1].name@ == name@);
    }
}

/// Translate a virtual address to a file offset using the program
/// segments, given as `(virtual address, size, file offset)` triples: the
/// first containing segment decides; an address in no segment is taken as
/// already being a file offset.
pub fn vaddr_to_file_offset(segments: &Vec<(u64, u64, u64)>, vaddr: u64) -> (r: u64)
    ensures
        ({
            let hit = spec_first_segment(segments@, vaddr, 0);
            match hit {
                Some(i) => r == vstd::wrapping::u64_specs::wrapping_add(
                    segments@[i].2,
                    (vaddr - segments@[i].0) as u64,
                ),
                None => r == vaddr,
            }
        }),
{
    let mut i: usize = 0;
    while i < segments.len()
        invariant
            i <= segments@.len(),
            spec_first_segment(segments@, vaddr, 0) == spec_first_segment(
                segments@,
                vaddr,
                i as int,
            ),
        decreases segments@.len() - i,
    {
        let (seg_vaddr, seg_size, seg_off) = segments[i];
        if vaddr >= seg_vaddr && seg_size <= u64::MAX - seg_vaddr && vaddr < seg_vaddr + seg_size {
            return seg_off.wrapping_add(vaddr - seg_vaddr);
        }
        proof {
            assert(spec_first_segment(segments@, vaddr, i as int) == spec_first_segment(
                segments@,
                vaddr,
                i + 1,
            ));
        }
        i += 1;
    }
    vaddr
}

/// The first segment containing `vaddr`, scanning from index `i`.
pub open spec fn spec_first_segment(segs: Seq<(u64, u64, u64)>, vaddr: u64, i: int) -> Option<int>
    decreases segs.len() - i,
{
    if i < 0 || i >= segs.len() {
        None
    } else if vaddr >= segs[i].0 && segs[i].1 <= u64::MAX - segs[i].0 && vaddr < segs[i].0
        + segs[i].1 {
        Some(i)
    } else {
        spec_first_segment(segs, vaddr, i + 1)
    }
}

/// Parsed debug information, ready for the resolver.
pub struct DwarfInfo {
    /// Address ranges, sorted by start address.
    pub ranges: Vec<AddressRange>,
    /// Function start addresses and demangled names.
    pub functions: Vec<(u64, String)>,
    /// Function declaration sites, keyed by demangled name.
    pub function_decls: Vec<FunctionDecl>,
}

impl DwarfInfo {
    /// Assemble the tables from line rows, the (mangled) symbol table, and
    /// already-collected declarations.
    pub fn from_parts(
        rows: &Vec<LineRow>,
        symbols: &Vec<(u64, String)>,
        function_decls: Vec<FunctionDecl>,
    ) -> (r: DwarfInfo)
        ensures
            ranges_sorted(r.ranges@),
            r.ranges@.map_values(|x: AddressRange| range_view(x)).to_multiset()
                == spec_collect_ranges(rows@, 0, None).to_multiset(),
            r.functions@.len() == symbols@.len(),
            forall|i: int|
                0 <= i < symbols@.len() ==> (#[trigger] r.functions@[i]).0 == symbols@[i].0
                    && r.functions@[i].1@ == demangled_of(symbols@[i].1@),
            r.function_decls == function_decls,
    {
        DwarfInfo {
            ranges: build_address_ranges(rows),
            functions: build_function_table(symbols),
            function_decls,
        }
    }
}

/// The name declares the program's entry point: `main` itself or a path
/// ending in `::main`.
pub open spec fn spec_is_main_name(s: Seq<char>) -> bool {
    s == "main"@ || crate::strutil::spec_ends_with(s, "::main"@)
}

/// The source root a declaration file yields: the prefix before the first
/// source-directory marker, when the marker exists and the prefix is
/// non-empty.
pub open spec fn spec_root_of_file(f: Seq<char>) -> Option<Seq<char>> {
    match crate::strutil::spec_find_first(f, "/src/"@) {
        Some(i) => if i > 0 {
            Some(f.subrange(0, i))
        } else {
            None
        },
        None => None,
    }
}

/// The root the declarations from position `k` onward yield: that of the
/// first entry whose name is a main name and whose file yields one.
pub open spec fn spec_root_from_decls(decls: Seq<FunctionDecl>, k: int) -> Option<Seq<char>>
    decreases decls.len() - k,
{
    if k < 0 || k >= decls.len() {
        None
    } else if spec_is_main_name(decls[k].name@) && spec_root_of_file(decls[k].file@) is Some {
        spec_root_of_file(decls[k].file@)
    } else {
        spec_root_from_decls(decls, k + 1)
    }
}

/// Infer the target's source-tree root from the declaration table: the
/// file that declares `main`, cut before its source directory.
pub fn root_from_decls(decls: &Vec<FunctionDecl>) -> (r: Option<String>)
    ensures
        match spec_root_from_decls(decls@, 0) {
            Some(root) => r is Some && r->Some_0@ == root,
            None => r is None,
        },
{
    let mut i: usize = 0;
    while i < decls.len()
        invariant
            i <= decls@.len(),
            spec_root_from_decls(decls@, 0) == spec_root_from_decls(decls@, i as int),
        decreases decls@.len() - i,
    {
        let d = &decls[i];
        let is_main = str_eq(d.name.as_str(), "main") || str_ends_with(d.name.as_str(), "::main");
        proof {
            reveal_strlit("main");
            assert(is_main == spec_is_main_name(d.name@));
        }
        if is_main {
            if let Some(idx) = str_find(d.file.as_str(), "/src/") {
                if idx > 0 {
                    proof {
                        reveal_strlit("/src/");
                        assert(crate::strutil::match_at(d.file@, "/src/"@, idx as int));
                        assert(idx + 5 <= d.file@.len());
                        assert(spec_root_of_file(d.file@) == Some(
                            d.file@.subrange(0, idx as int),
                        ));
                        assert(spec_root_from_decls(decls@, i as int) == spec_root_of_file(
                            d.file@,
                        ));
                    }
                    return Some(substring_copy(d.file.as_str(), 0, idx));
                }
            }
        }
        proof {
            assert(spec_root_of_file(d.file@) is None || !spec_is_main_name(d.name@));
            assert(spec_root_from_decls(decls@, i as int) == spec_root_from_decls(
                decls@,
                i + 1,
            ));
        }
        i += 1;
    }
    None
}

} // verus!
