//! Parsing a process's memory-map listing and computing its load offset.
//!
//! Each line of the listing has the shape
//! `start-end perms offset dev inode [pathname]`, with the addresses and
//! the file offset in hexadecimal. The load offset of the profiled
//! executable — what address-space randomization added to every address —
//! is taken from the executable's *first* mapping as `start − offset`:
//! the first mapping typically has file offset 0, while the executable
//! segment starts at a non-zero file offset and would give a wrong base.

use vstd::prelude::*;

use crate::strutil::{
    all_hex_digits, hex_val, parse_hex_range, skip_ws, spec_ends_with, spec_skip_ws,
    spec_token_end, str_contains, str_ends_with, str_eq, substring_copy, token_end,
};

verus! {

/// One parsed mapping line.
pub struct MemoryMapping {
    /// First address of the mapping.
    pub start: u64,
    /// One past the last address of the mapping.
    pub end: u64,
    /// The permission letters, as printed.
    pub perms: String,
    /// Offset of the mapping within the backing file.
    pub offset: u64,
    /// The backing path, when the line carries one.
    pub pathname: Option<String>,
}

/// The fields of a mapping line, as specification values.
pub struct MappingFields {
    /// First address of the mapping.
    pub start: u64,
    /// One past the last address of the mapping.
    pub end: u64,
    /// The permission letters.
    pub perms: Seq<char>,
    /// Offset of the mapping within the backing file.
    pub offset: u64,
    /// The backing path, when present.
    pub pathname: Option<Seq<char>>,
}

/// The first position of `c` at or after `i`, or the end of `s`.
pub open spec fn spec_find_from(s: Seq<char>, i: int, c: char) -> int
    decreases s.len() - i,
{
    if i < 0 || i >= s.len() || s[i] == c {
        i
    } else {
        spec_find_from(s, i + 1, c)
    }
}

/// Forward character search stays in range.
pub proof fn lemma_find_from_bounds(s: Seq<char>, i: int, c: char)
    requires
        0 <= i <= s.len(),
    ensures
        i <= spec_find_from(s, i, c) <= s.len(),
    decreases s.len() - i,
{
    if i < s.len() {
        lemma_find_from_bounds(s, i + 1, c);
    }
}

/// Find the first `c` at or after `i`.
pub fn find_from(s: &str, i: usize, c: char) -> (j: usize)
    requires
        i <= s@.len(),
    ensures
        j == spec_find_from(s@, i as int, c),
        i <= j <= s@.len(),
{
    let slen = s.unicode_len();
    let mut j = i;
    while j < slen && s.get_char(j) != c
        invariant
            slen == s@.len(),
            i <= j <= slen,
            spec_find_from(s@, i as int, c) == spec_find_from(s@, j as int, c),
        decreases slen - j,
    {
        j += 1;
    }
    j
}

/// One past the last non-whitespace character of `s`.
pub open spec fn spec_trim_end(s: Seq<char>) -> int
    decreases s.len(),
{
    if s.len() == 0 {
        0
    } else if crate::strutil::is_ws(s.last()) {
        spec_trim_end(s.drop_last())
    } else {
        s.len() as int
    }
}

proof fn lemma_trim_end_bounds(s: Seq<char>)
    ensures
        0 <= spec_trim_end(s) <= s.len(),
    decreases s.len(),
{
    if s.len() > 0 && crate::strutil::is_ws(s.last()) {
        lemma_trim_end_bounds(s.drop_last());
    }
}

/// Find where the trailing whitespace of `s` begins.
pub fn trim_end(s: &str) -> (j: usize)
    ensures
        j == spec_trim_end(s@),
        j <= s@.len(),
{
    let mut j = s.unicode_len();
    proof {
        assert(s@.subrange(0, s@.len() as int) =~= s@);
    }
    while j > 0 && (s.get_char(j - 1) == ' ' || s.get_char(j - 1) == '\t')
        invariant
            j <= s@.len(),
            spec_trim_end(s@) == spec_trim_end(s@.subrange(0, j as int)),
        decreases j,
    {
        proof {
            assert(s@.subrange(0, j as int).last() == s@[j - 1]);
            assert(s@.subrange(0, j as int).drop_last() =~= s@.subrange(0, j - 1));
        }
        j -= 1;
    }
    proof {
        if j > 0 {
            assert(s@.subrange(0, j as int).last() == s@[j - 1]);
        }
        assert(spec_trim_end(s@.subrange(0, j as int)) == j);
    }
    j
}

/// What a mapping line means: the deterministic decomposition into five
/// whitespace-separated tokens and an optional trailing pathname, with the
/// first token split at its dash and the numeric tokens read as hex.
/// `None` when the line does not have that shape.
pub open spec fn spec_parse_line(s: Seq<char>) -> Option<MappingFields> {
    let p0 = spec_skip_ws(s, 0);
    let e0 = spec_token_end(s, p0);
    let d = spec_find_from(s, p0, '-');
    let p1 = spec_skip_ws(s, e0);
    let e1 = spec_token_end(s, p1);
    let p2 = spec_skip_ws(s, e1);
    let e2 = spec_token_end(s, p2);
    let p3 = spec_skip_ws(s, e2);
    let e3 = spec_token_end(s, p3);
    let p4 = spec_skip_ws(s, e3);
    let e4 = spec_token_end(s, p4);
    let p5 = spec_skip_ws(s, e4);
    let t_start = s.subrange(p0, d);
    let t_end = s.subrange(d + 1, e0);
    let t_off = s.subrange(p2, e2);
    if p0 < d && d + 1 < e0 && p1 < e1 && p2 < e2 && p3 < e3 && p4 < e4 && all_hex_digits(t_start)
        && hex_val(t_start) <= u64::MAX && all_hex_digits(t_end) && hex_val(t_end) <= u64::MAX
        && all_hex_digits(t_off) && hex_val(t_off) <= u64::MAX {
        Some(
            MappingFields {
                start: hex_val(t_start) as u64,
                end: hex_val(t_end) as u64,
                perms: s.subrange(p1, e1),
                offset: hex_val(t_off) as u64,
                pathname: if p5 < spec_trim_end(s) {
                    Some(s.subrange(p5, spec_trim_end(s)))
                } else {
                    None
                },
            },
        )
    } else {
        None
    }
}

/// An executable mapping has the execute letter among its permissions.
pub open spec fn spec_is_executable(perms: Seq<char>) -> bool {
    crate::strutil::spec_contains(perms, seq!['x'])
}

impl MemoryMapping {
    /// Do the parsed fields equal these specification fields?
    pub open spec fn matches(self, f: MappingFields) -> bool {
        &&& self.start == f.start
        &&& self.end == f.end
        &&& self.perms@ == f.perms
        &&& match (self.pathname, f.pathname) {
            (Some(p), Some(q)) => p@ == q,
            (None, None) => true,
            _ => false,
        }
        &&& self.offset == f.offset
    }

    /// Is this mapping executable?
    pub fn is_executable(&self) -> (r: bool)
        ensures
            r == spec_is_executable(self.perms@),
    {
        proof {
            reveal_strlit("x");
            assert("x"@ =~= seq!['x']);
        }
        str_contains(self.perms.as_str(), "x")
    }
}

/// Parse one line of the listing.
pub fn parse_line(line: &str) -> (r: Option<MemoryMapping>)
    ensures
        match r {
            Some(m) => spec_parse_line(line@) is Some && m.matches(spec_parse_line(line@)->Some_0),
            None => spec_parse_line(line@) is None,
        },
{
    let slen = line.unicode_len();
    let p0 = skip_ws(line, 0);
    let e0 = token_end(line, p0);
    let d = find_from(line, p0, '-');
    let p1 = skip_ws(line, e0);
    let e1 = token_end(line, p1);
    let p2 = skip_ws(line, e1);
    let e2 = token_end(line, p2);
    let p3 = skip_ws(line, e2);
    let e3 = token_end(line, p3);
    let p4 = skip_ws(line, e3);
    let e4 = token_end(line, p4);
    let p5 = skip_ws(line, e4);
    if !(p0 < d && d < e0 && d + 1 < e0 && p1 < e1 && p2 < e2 && p3 < e3 && p4 < e4) {
        return None;
    }
    let start = match parse_hex_range(line, p0, d) {
        Some(v) => v,
        None => {
            return None;
        },
    };
    let end = match parse_hex_range(line, d + 1, e0) {
        Some(v) => v,
        None => {
            return None;
        },
    };
    let offset = match parse_hex_range(line, p2, e2) {
        Some(v) => v,
        None => {
            return None;
        },
    };
    let perms = substring_copy(line, p1, e1);
    let te = trim_end(line);
    let pathname = if p5 < te {
        Some(substring_copy(line, p5, te))
    } else {
        None
    };
    Some(MemoryMapping { start, end, perms, offset, pathname })
}

/// The parse results of a sequence of lines, in order, with the lines that
/// do not parse left out.
pub open spec fn spec_collect_lines(lines: Seq<Seq<char>>) -> Seq<MappingFields>
    decreases lines.len(),
{
    if lines.len() == 0 {
        Seq::empty()
    } else {
        let rest = spec_collect_lines(lines.drop_last());
        match spec_parse_line(lines.last()) {
            Some(f) => rest.push(f),
            None => rest,
        }
    }
}

/// A process's parsed memory map.
pub struct MemoryMaps {
    /// The mappings, in listing order.
    pub mappings: Vec<MemoryMapping>,
}

impl MemoryMaps {
    /// Every held mapping equals its specification fields.
    pub open spec fn matches_fields(self, fs: Seq<MappingFields>) -> bool {
        &&& self.mappings@.len() == fs.len()
        &&& forall|i: int| 0 <= i < fs.len() ==> (#[trigger] self.mappings@[i]).matches(fs[i])
    }

    /// Parse a whole listing, given line by line; lines that do not parse
    /// are skipped, as blank or truncated lines in the listing are.
    pub fn from_lines(lines: &Vec<String>) -> (r: MemoryMaps)
        ensures
            r.matches_fields(spec_collect_lines(lines@.map_values(|l: String| l@))),
    {
        let mut mappings: Vec<MemoryMapping> = Vec::new();
        let mut i: usize = 0;
        while i < lines.len()
            invariant
                i <= lines@.len(),
                (MemoryMaps { mappings }).matches_fields(
                    spec_collect_lines(
                        lines@.subrange(0, i as int).map_values(|l: String| l@),
                    ),
                ),
            decreases lines@.len() - i,
        {
            let ghost pre = lines@.subrange(0, i as int).map_values(|l: String| l@);
            let ghost cur = lines@.subrange(0, i + 1 as int).map_values(|l: String| l@);
            proof {
                assert(cur.drop_last() =~= pre);
                assert(cur.last() == lines@[i as int]@);
            }
            match parse_line(lines[i].as_str()) {
                Some(m) => {
                    mappings.push(m);
                },
                None => {},
            }
            i += 1;
        }
        proof {
            assert(lines@.subrange(0, lines@.len() as int) =~= lines@);
        }
        MemoryMaps { mappings }
    }

    /// Does this mapping belong to the executable at `exe_path`? It does
    /// when its pathname equals the path, or ends with the path's final
    /// component.
    pub open spec fn spec_matches_exe(f: MemoryMapping, exe: Seq<char>, base: Seq<char>) -> bool {
        match f.pathname {
            Some(p) => p@ == exe || spec_ends_with(p@, base),
            None => false,
        }
    }

    /// The index of the first mapping of the executable, scanning from
    /// the top of the listing.
    pub open spec fn spec_first_exe_match(
        ms: Seq<MemoryMapping>,
        exe: Seq<char>,
        base: Seq<char>,
        i: int,
    ) -> Option<int>
        decreases ms.len() - i,
    {
        if i < 0 || i >= ms.len() {
            None
        } else if MemoryMaps::spec_matches_exe(ms[i], exe, base) {
            Some(i)
        } else {
            MemoryMaps::spec_first_exe_match(ms, exe, base, i + 1)
        }
    }

    /// The load offset added by address-space randomization, from the
    /// mappings and the executable's path: the *first* matching mapping's
    /// `start − offset` (whatever its permissions; 0 floors a malformed
    /// line whose file offset exceeds its start). 0 when no mapping
    /// matches, as a non-randomized binary loads at its link address.
    pub open spec fn spec_aslr_offset(ms: Seq<MemoryMapping>, exe: Seq<char>) -> u64 {
        let base = exe.subrange(spec_find_base(exe), exe.len() as int);
        match MemoryMaps::spec_first_exe_match(ms, exe, base, 0) {
            Some(i) => if ms[i].start >= ms[i].offset {
                (ms[i].start - ms[i].offset) as u64
            } else {
                0u64
            },
            None => 0u64,
        }
    }

    /// Compute the load offset of the executable at `exe_path`.
    pub fn aslr_offset(&self, exe_path: &str) -> (r: u64)
        ensures
            r == MemoryMaps::spec_aslr_offset(self.mappings@, exe_path@),
    {
        let base_start = find_base(exe_path);
        let elen = exe_path.unicode_len();
        let base = exe_path.substring_char(base_start, elen);
        let ghost bview = exe_path@.subrange(spec_find_base(exe_path@), exe_path@.len() as int);
        let mut i: usize = 0;
        while i < self.mappings.len()
            invariant
                i <= self.mappings@.len(),
                base@ == bview,
                bview == exe_path@.subrange(spec_find_base(exe_path@), exe_path@.len() as int),
                MemoryMaps::spec_first_exe_match(self.mappings@, exe_path@, bview, 0)
                    == MemoryMaps::spec_first_exe_match(
                    self.mappings@,
                    exe_path@,
                    bview,
                    i as int,
                ),
            decreases self.mappings@.len() - i,
        {
            let m = &self.mappings[i];
            match &m.pathname {
                Some(p) => {
                    if str_eq(p.as_str(), exe_path) || str_ends_with(p.as_str(), base) {
                        proof {
                            assert(MemoryMaps::spec_matches_exe(
                                self.mappings@[i as int],
                                exe_path@,
                                bview,
                            ));
                            assert(MemoryMaps::spec_first_exe_match(
                                self.mappings@,
                                exe_path@,
                                bview,
                                i as int,
                            ) == Some(i as int));
                        }
                        let result = m.start.saturating_sub(m.offset);
                        proof {
                            assert(MemoryMaps::spec_first_exe_match(
                                self.mappings@,
                                exe_path@,
                                bview,
                                0,
                            ) == Some(i as int));
                            assert(result == MemoryMaps::spec_aslr_offset(
                                self.mappings@,
                                exe_path@,
                            ));
                        }
                        return result;
                    }
                },
                None => {},
            }
            proof {
                assert(!MemoryMaps::spec_matches_exe(self.mappings@[i as int], exe_path@, bview));
                assert(MemoryMaps::spec_first_exe_match(self.mappings@, exe_path@, bview, i as int)
                    == MemoryMaps::spec_first_exe_match(
                    self.mappings@,
                    exe_path@,
                    bview,
                    i + 1,
                ));
            }
            i += 1;
        }
        proof {
            assert(MemoryMaps::spec_first_exe_match(self.mappings@, exe_path@, bview, i as int)
                is None);
        }
        0
    }

    /// The indices of the executable mappings, in listing order.
    pub fn executable_mappings(&self) -> (r: Vec<usize>)
        ensures
            forall|k: int|
                0 <= k < r@.len() ==> (#[trigger] r@[k]) < self.mappings@.len()
                    && spec_is_executable(self.mappings@[r@[k] as int].perms@),
            forall|i: int|
                0 <= i < self.mappings@.len() && spec_is_executable(
                    (#[trigger] self.mappings@[i]).perms@,
                ) ==> r@.contains(i as usize),
            forall|a: int, b: int| 0 <= a < b < r@.len() ==> (#[trigger] r@[a]) < (#[trigger] r@[b]),
    {
        let mut r: Vec<usize> = Vec::new();
        let mut i: usize = 0;
        while i < self.mappings.len()
            invariant
                i <= self.mappings@.len(),
                forall|k: int|
                    0 <= k < r@.len() ==> (#[trigger] r@[k]) < self.mappings@.len()
                        && spec_is_executable(self.mappings@[r@[k] as int].perms@),
                forall|k: int| 0 <= k < r@.len() ==> (#[trigger] r@[k]) < i,
                forall|a: int, b: int|
                    0 <= a < b < r@.len() ==> (#[trigger] r@[a]) < (#[trigger] r@[b]),
                forall|j: int|
                    0 <= j < i && spec_is_executable((#[trigger] self.mappings@[j]).perms@)
                        ==> r@.contains(j as usize),
            decreases self.mappings@.len() - i,
        {
            let ghost r_pre = r@;
            if self.mappings[i].is_executable() {
                r.push(i);
                proof {
                    assert(r@[r@.len() - 1] == i);
                }
            }
            proof {
                assert forall|j: int|
                    0 <= j < i + 1 && spec_is_executable(
                        (#[trigger] self.mappings@[j]).perms@,
                    ) implies r@.contains(j as usize) by {
                    if j < i {
                        let k = choose|k: int| 0 <= k < r_pre.len() && r_pre[k] == j as usize;
                        assert(r@[k] == j as usize);
                    } else {
                        assert(r@[r@.len() - 1] == i);
                    }
                }
            }
            i += 1;
        }
        r
    }

    /// Is this address inside some executable mapping?
    pub fn is_executable_addr(&self, addr: u64) -> (r: bool)
        ensures
            r == exists|i: int|
                0 <= i < self.mappings@.len() && spec_is_executable(
                    (#[trigger] self.mappings@[i]).perms@,
                ) && self.mappings@[i].start <= addr < self.mappings@[i].end,
    {
        let mut i: usize = 0;
        while i < self.mappings.len()
            invariant
                i <= self.mappings@.len(),
                forall|j: int|
                    0 <= j < i ==> !(spec_is_executable((#[trigger] self.mappings@[j]).perms@)
                        && self.mappings@[j].start <= addr < self.mappings@[j].end),
            decreases self.mappings@.len() - i,
        {
            let m = &self.mappings[i];
            if m.is_executable() && m.start <= addr && addr < m.end {
                return true;
            }
            i += 1;
        }
        false
    }
}

/// The position after the last `/` of a path (the start of its final
/// component).
pub open spec fn spec_find_base(s: Seq<char>) -> int
    decreases s.len(),
{
    if s.len() == 0 {
        0
    } else if s.last() == '/' {
        s.len() as int
    } else {
        spec_find_base(s.drop_last())
    }
}

proof fn lemma_find_base_bounds(s: Seq<char>)
    ensures
        0 <= spec_find_base(s) <= s.len(),
    decreases s.len(),
{
    if s.len() > 0 && s.last() != '/' {
        lemma_find_base_bounds(s.drop_last());
    }
}

/// Find the start of a path's final component.
pub fn find_base(s: &str) -> (j: usize)
    ensures
        j == spec_find_base(s@),
        j <= s@.len(),
{
    let mut j = s.unicode_len();
    proof {
        assert(s@.subrange(0, s@.len() as int) =~= s@);
    }
    while j > 0 && s.get_char(j - 1) != '/'
        invariant
            j <= s@.len(),
            spec_find_base(s@) == spec_find_base(s@.subrange(0, j as int)),
        decreases j,
    {
        proof {
            assert(s@.subrange(0, j as int).last() == s@[j - 1]);
            assert(s@.subrange(0, j as int).drop_last() =~= s@.subrange(0, j - 1));
        }
        j -= 1;
    }
    proof {
        if j > 0 {
            assert(s@.subrange(0, j as int).last() == s@[j - 1]);
        }
        assert(spec_find_base(s@.subrange(0, j as int)) == j);
    }
    j
}

} // verus!
