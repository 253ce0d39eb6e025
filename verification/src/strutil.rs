//! Character-level string utilities: searching, prefix and suffix tests,
//! whitespace scanning, and exact decimal and hexadecimal conversions.
//!
//! Everything here is specified against `Seq<char>` views, so the path
//! heuristics, map parsing and formatting built on top can state their
//! behaviour exactly.

use vstd::prelude::*;

verus! {

/// The characters one string position must show for `pat` to match there.
pub open spec fn match_at(s: Seq<char>, pat: Seq<char>, i: int) -> bool {
    0 <= i && i + pat.len() <= s.len() && s.subrange(i, i + pat.len()) == pat
}

/// `pat` occurs somewhere in `s`.
pub open spec fn spec_contains(s: Seq<char>, pat: Seq<char>) -> bool {
    exists|i: int| match_at(s, pat, i)
}

/// `s` starts with `pat`.
pub open spec fn spec_starts_with(s: Seq<char>, pat: Seq<char>) -> bool {
    pat.len() <= s.len() && s.subrange(0, pat.len() as int) == pat
}

/// `s` ends with `pat`.
pub open spec fn spec_ends_with(s: Seq<char>, pat: Seq<char>) -> bool {
    pat.len() <= s.len() && s.subrange(s.len() - pat.len(), s.len() as int) == pat
}

/// Does `pat` match `s` at position `i`?
fn check_match_at(s: &str, pat: &str, i: usize) -> (r: bool)
    requires
        i + pat@.len() <= s@.len(),
    ensures
        r == match_at(s@, pat@, i as int),
{
    let slen = s.unicode_len();
    let plen = pat.unicode_len();
    let mut j: usize = 0;
    while j < plen
        invariant
            slen == s@.len(),
            plen == pat@.len(),
            i + plen <= slen,
            j <= plen,
            forall|k: int| 0 <= k < j ==> s@[i + k] == pat@[k],
        decreases plen - j,
    {
        if s.get_char(i + j) != pat.get_char(j) {
            proof {
                assert(s@.subrange(i as int, i + pat@.len())[j as int] == s@[i + j]);
            }
            return false;
        }
        j += 1;
    }
    proof {
        assert(s@.subrange(i as int, i + pat@.len()) =~= pat@);
    }
    true
}

/// The first position at or after `k` where `pat` matches in `s`.
pub open spec fn spec_find_first_from(s: Seq<char>, pat: Seq<char>, k: int) -> Option<int>
    decreases s.len() + 1 - k,
{
    if k < 0 || k + pat.len() > s.len() {
        None
    } else if match_at(s, pat, k) {
        Some(k)
    } else {
        spec_find_first_from(s, pat, k + 1)
    }
}

/// The first position where `pat` matches in `s`.
pub open spec fn spec_find_first(s: Seq<char>, pat: Seq<char>) -> Option<int> {
    spec_find_first_from(s, pat, 0)
}

/// Find the first position where `pat` occurs in `s`.
pub fn str_find(s: &str, pat: &str) -> (r: Option<usize>)
    ensures
        match r {
            Some(i) => match_at(s@, pat@, i as int) && (forall|j: int|
                0 <= j < i ==> !match_at(s@, pat@, j)) && spec_find_first(s@, pat@) == Some(
                i as int,
            ),
            None => !spec_contains(s@, pat@) && spec_find_first(s@, pat@) is None,
        },
{
    let slen = s.unicode_len();
    let plen = pat.unicode_len();
    if plen > slen {
        proof {
            assert forall|i: int| !match_at(s@, pat@, i) by {}
        }
        return None;
    }
    if plen == 0 {
        proof {
            assert(s@.subrange(0, 0) =~= pat@);
            assert(match_at(s@, pat@, 0));
        }
        return Some(0);
    }
    let mut i: usize = 0;
    while i <= slen - plen
        invariant
            slen == s@.len(),
            plen == pat@.len(),
            0 < plen <= slen,
            i <= slen - plen + 1,
            forall|j: int| 0 <= j < i ==> !match_at(s@, pat@, j),
            spec_find_first(s@, pat@) == spec_find_first_from(s@, pat@, i as int),
        decreases slen - i,
    {
        if check_match_at(s, pat, i) {
            return Some(i);
        }
        i += 1;
    }
    proof {
        assert forall|j: int| !match_at(s@, pat@, j) by {
            if 0 <= j && j + pat@.len() <= s@.len() {
                assert(j < i);
            }
        }
    }
    None
}

/// Does `pat` occur anywhere in `s`?
pub fn str_contains(s: &str, pat: &str) -> (r: bool)
    ensures
        r == spec_contains(s@, pat@),
{
    match str_find(s, pat) {
        Some(i) => {
            proof {
                assert(match_at(s@, pat@, i as int));
            }
            true
        },
        None => false,
    }
}

/// Does `s` start with `pat`?
pub fn str_starts_with(s: &str, pat: &str) -> (r: bool)
    ensures
        r == spec_starts_with(s@, pat@),
{
    let slen = s.unicode_len();
    let plen = pat.unicode_len();
    if plen > slen {
        return false;
    }
    check_match_at(s, pat, 0)
}

/// Does `s` end with `pat`?
pub fn str_ends_with(s: &str, pat: &str) -> (r: bool)
    ensures
        r == spec_ends_with(s@, pat@),
{
    let slen = s.unicode_len();
    let plen = pat.unicode_len();
    if plen > slen {
        return false;
    }
    check_match_at(s, pat, slen - plen)
}

/// Are two strings the same sequence of characters?
pub fn str_eq(a: &str, b: &str) -> (r: bool)
    ensures
        r == (a@ == b@),
{
    let alen = a.unicode_len();
    let blen = b.unicode_len();
    if alen != blen {
        proof {
            assert(a@.len() != b@.len());
        }
        return false;
    }
    let mut i: usize = 0;
    while i < alen
        invariant
            alen == a@.len(),
            alen == b@.len(),
            i <= alen,
            forall|k: int| 0 <= k < i ==> a@[k] == b@[k],
        decreases alen - i,
    {
        if a.get_char(i) != b.get_char(i) {
            return false;
        }
        i += 1;
    }
    proof {
        assert(a@ =~= b@);
    }
    true
}

/// A whitespace character, as a memory-map listing uses them.
pub open spec fn is_ws(c: char) -> bool {
    c == ' ' || c == '\t'
}

/// The first non-whitespace position at or after `i`.
pub open spec fn spec_skip_ws(s: Seq<char>, i: int) -> int
    decreases s.len() - i,
{
    if i < 0 || i >= s.len() || !is_ws(s[i]) {
        i
    } else {
        spec_skip_ws(s, i + 1)
    }
}

/// The first whitespace position at or after `i` (or the end).
pub open spec fn spec_token_end(s: Seq<char>, i: int) -> int
    decreases s.len() - i,
{
    if i < 0 || i >= s.len() || is_ws(s[i]) {
        i
    } else {
        spec_token_end(s, i + 1)
    }
}

/// Skip whitespace, starting at `i`.
pub fn skip_ws(s: &str, i: usize) -> (j: usize)
    requires
        i <= s@.len(),
    ensures
        j == spec_skip_ws(s@, i as int),
        i <= j <= s@.len(),
{
    let slen = s.unicode_len();
    let mut j = i;
    while j < slen && (s.get_char(j) == ' ' || s.get_char(j) == '\t')
        invariant
            slen == s@.len(),
            i <= j <= slen,
            spec_skip_ws(s@, i as int) == spec_skip_ws(s@, j as int),
        decreases slen - j,
    {
        j += 1;
    }
    j
}

/// Find the end of the token starting at `i`.
pub fn token_end(s: &str, i: usize) -> (j: usize)
    requires
        i <= s@.len(),
    ensures
        j == spec_token_end(s@, i as int),
        i <= j <= s@.len(),
{
    let slen = s.unicode_len();
    let mut j = i;
    while j < slen && s.get_char(j) != ' ' && s.get_char(j) != '\t'
        invariant
            slen == s@.len(),
            i <= j <= slen,
            spec_token_end(s@, i as int) == spec_token_end(s@, j as int),
        decreases slen - j,
    {
        j += 1;
    }
    j
}

/// A decimal digit.
pub open spec fn is_dec_digit(c: char) -> bool {
    48 <= c as u32 <= 57
}

/// A lower- or upper-case hexadecimal digit.
pub open spec fn is_hex_digit(c: char) -> bool {
    is_dec_digit(c) || (97 <= c as u32 <= 102) || (65 <= c as u32 <= 70)
}

/// The numeric value of a hexadecimal digit.
pub open spec fn hex_digit_val(c: char) -> int {
    if is_dec_digit(c) {
        c as u32 - 48
    } else if 97 <= c as u32 <= 102 {
        c as u32 - 87
    } else {
        c as u32 - 55
    }
}

/// Every character of `s` satisfies `is_dec_digit`.
pub open spec fn all_dec_digits(s: Seq<char>) -> bool {
    forall|k: int| 0 <= k < s.len() ==> is_dec_digit(#[trigger] s[k])
}

/// Every character of `s` satisfies `is_hex_digit`.
pub open spec fn all_hex_digits(s: Seq<char>) -> bool {
    forall|k: int| 0 <= k < s.len() ==> is_hex_digit(#[trigger] s[k])
}

/// The value of a decimal digit string.
pub open spec fn dec_val(s: Seq<char>) -> int
    decreases s.len(),
{
    if s.len() == 0 {
        0
    } else {
        dec_val(s.drop_last()) * 10 + (s.last() as u32 - 48)
    }
}

/// The value of a hexadecimal digit string.
pub open spec fn hex_val(s: Seq<char>) -> int
    decreases s.len(),
{
    if s.len() == 0 {
        0
    } else {
        hex_val(s.drop_last()) * 16 + hex_digit_val(s.last())
    }
}

/// Digit-string values never decrease when digits are appended, and are
/// never negative.
pub proof fn lemma_dec_val_nonneg(s: Seq<char>)
    requires
        all_dec_digits(s),
    ensures
        dec_val(s) >= 0,
    decreases s.len(),
{
    if s.len() > 0 {
        assert(all_dec_digits(s.drop_last())) by {
            assert forall|k: int| 0 <= k < s.len() - 1 implies is_dec_digit(
                #[trigger] s.drop_last()[k],
            ) by {
                assert(s.drop_last()[k] == s[k]);
            }
        }
        lemma_dec_val_nonneg(s.drop_last());
        assert(is_dec_digit(s.last()));
    }
}

/// Same for hexadecimal strings.
pub proof fn lemma_hex_val_nonneg(s: Seq<char>)
    requires
        all_hex_digits(s),
    ensures
        hex_val(s) >= 0,
    decreases s.len(),
{
    if s.len() > 0 {
        assert(all_hex_digits(s.drop_last())) by {
            assert forall|k: int| 0 <= k < s.len() - 1 implies is_hex_digit(
                #[trigger] s.drop_last()[k],
            ) by {
                assert(s.drop_last()[k] == s[k]);
            }
        }
        lemma_hex_val_nonneg(s.drop_last());
        assert(is_hex_digit(s.last()));
        assert(hex_digit_val(s.last()) >= 0);
    }
}

/// Extending a digit string can only grow its value.
proof fn lemma_dec_val_prefix(s: Seq<char>, i: int)
    requires
        all_dec_digits(s),
        0 <= i <= s.len(),
    ensures
        dec_val(s.subrange(0, i)) <= dec_val(s),
    decreases s.len() - i,
{
    if i < s.len() {
        lemma_dec_val_prefix(s, i + 1);
        let a = s.subrange(0, i);
        let b = s.subrange(0, i + 1);
        assert(b.drop_last() =~= a);
        assert(is_dec_digit(b.last()));
        assert(all_dec_digits(a)) by {
            assert forall|k: int| 0 <= k < a.len() implies is_dec_digit(#[trigger] a[k]) by {
                assert(a[k] == s[k]);
            }
        }
        lemma_dec_val_nonneg(a);
        assert(dec_val(b) == dec_val(a) * 10 + (b.last() as u32 - 48));
    } else {
        assert(s.subrange(0, i) =~= s);
    }
}

/// Same for hexadecimal strings.
proof fn lemma_hex_val_prefix(s: Seq<char>, i: int)
    requires
        all_hex_digits(s),
        0 <= i <= s.len(),
    ensures
        hex_val(s.subrange(0, i)) <= hex_val(s),
    decreases s.len() - i,
{
    if i < s.len() {
        lemma_hex_val_prefix(s, i + 1);
        let a = s.subrange(0, i);
        let b = s.subrange(0, i + 1);
        assert(b.drop_last() =~= a);
        assert(is_hex_digit(b.last()));
        assert(all_hex_digits(a)) by {
            assert forall|k: int| 0 <= k < a.len() implies is_hex_digit(#[trigger] a[k]) by {
                assert(a[k] == s[k]);
            }
        }
        lemma_hex_val_nonneg(a);
        assert(hex_val(b) == hex_val(a) * 16 + hex_digit_val(b.last()));
    } else {
        assert(s.subrange(0, i) =~= s);
    }
}

/// Parse the decimal digit string `s[from..to]` as a `u64`. Returns the
/// exact value when the range is non-empty, all digits, and fits; `None`
/// otherwise.
pub fn parse_dec_range(s: &str, from: usize, to: usize) -> (r: Option<u64>)
    requires
        from <= to <= s@.len(),
    ensures
        ({
            let w = s@.subrange(from as int, to as int);
            match r {
                Some(v) => from < to && all_dec_digits(w) && v == dec_val(w) && dec_val(w)
                    <= u64::MAX,
                None => from == to || !all_dec_digits(w) || dec_val(w) > u64::MAX,
            }
        }),
{
    if from == to {
        return None;
    }
    let ghost w = s@.subrange(from as int, to as int);
    let mut acc: u64 = 0;
    let mut i = from;
    while i < to
        invariant
            from <= i <= to <= s@.len(),
            w == s@.subrange(from as int, to as int),
            all_dec_digits(w.subrange(0, i - from)),
            acc == dec_val(w.subrange(0, i - from)),
        decreases to - i,
    {
        let c = s.get_char(i);
        let u = c as u32;
        if u < 48 || u > 57 {
            proof {
                assert(w[i - from] == c);
                assert(!is_dec_digit(w[i - from]));
            }
            return None;
        }
        let d = (u - 48) as u64;
        let ghost pre = w.subrange(0, i - from);
        let ghost cur = w.subrange(0, i + 1 - from);
        proof {
            assert(cur.drop_last() =~= pre);
            assert(cur.last() == w[i - from] && w[i - from] == c);
        }
        if acc > (u64::MAX - d) / 10 {
            proof {
                lemma_dec_val_overflow(w, i + 1 - from, acc, d);
            }
            return None;
        }
        acc = acc * 10 + d;
        i += 1;
    }
    proof {
        assert(w.subrange(0, to - from) =~= w);
    }
    Some(acc)
}

/// When the running value of a decimal prefix exceeds the safe bound, the
/// whole string's value exceeds `u64::MAX`.
proof fn lemma_dec_val_overflow(w: Seq<char>, i: int, acc: u64, d: u64)
    requires
        0 < i <= w.len(),
        all_dec_digits(w.subrange(0, i - 1)),
        is_dec_digit(w[i - 1]),
        acc == dec_val(w.subrange(0, i - 1)),
        d == w[i - 1] as u32 - 48,
        acc > (u64::MAX - d) / 10,
    ensures
        !all_dec_digits(w) || dec_val(w) > u64::MAX,
{
    if all_dec_digits(w) {
        let cur = w.subrange(0, i);
        assert(cur.drop_last() =~= w.subrange(0, i - 1));
        assert(dec_val(cur) == acc * 10 + d);
        assert(acc >= (u64::MAX - d) / 10 + 1);
        assert(acc * 10 >= ((u64::MAX - d) / 10 + 1) * 10) by (nonlinear_arith)
            requires
                acc >= (u64::MAX - d) / 10 + 1,
        ;
        assert(((u64::MAX - d) / 10 + 1) * 10 == ((u64::MAX - d) / 10) * 10 + 10);
        assert(((u64::MAX - d) / 10) * 10 > (u64::MAX - d) - 10) by (nonlinear_arith)
            requires
                d <= u64::MAX,
        ;
        assert(dec_val(cur) > u64::MAX);
        lemma_dec_val_prefix(w, i);
        assert(dec_val(w) >= dec_val(cur));
    }
}

/// Parse the hexadecimal digit string `s[from..to]` as a `u64`. Returns
/// the exact value when the range is non-empty, all hex digits, and fits;
/// `None` otherwise.
pub fn parse_hex_range(s: &str, from: usize, to: usize) -> (r: Option<u64>)
    requires
        from <= to <= s@.len(),
    ensures
        ({
            let w = s@.subrange(from as int, to as int);
            match r {
                Some(v) => from < to && all_hex_digits(w) && v == hex_val(w) && hex_val(w)
                    <= u64::MAX,
                None => from == to || !all_hex_digits(w) || hex_val(w) > u64::MAX,
            }
        }),
{
    if from == to {
        return None;
    }
    let ghost w = s@.subrange(from as int, to as int);
    let mut acc: u64 = 0;
    let mut i = from;
    while i < to
        invariant
            from <= i <= to <= s@.len(),
            w == s@.subrange(from as int, to as int),
            all_hex_digits(w.subrange(0, i - from)),
            acc == hex_val(w.subrange(0, i - from)),
        decreases to - i,
    {
        let c = s.get_char(i);
        let u = c as u32;
        let d: u64 = if u >= 48 && u <= 57 {
            (u - 48) as u64
        } else if u >= 97 && u <= 102 {
            (u - 87) as u64
        } else if u >= 65 && u <= 70 {
            (u - 55) as u64
        } else {
            proof {
                assert(w[i - from] == c);
                assert(!is_hex_digit(w[i - from]));
            }
            return None;
        };
        let ghost pre = w.subrange(0, i - from);
        let ghost cur = w.subrange(0, i + 1 - from);
        proof {
            assert(cur.drop_last() =~= pre);
            assert(cur.last() == w[i - from] && w[i - from] == c);
            assert(d == hex_digit_val(c));
        }
        if acc > (u64::MAX - d) / 16 {
            proof {
                lemma_hex_val_overflow(w, i + 1 - from, acc, d);
            }
            return None;
        }
        acc = acc * 16 + d;
        i += 1;
    }
    proof {
        assert(w.subrange(0, to - from) =~= w);
    }
    Some(acc)
}

/// When the running value of a hexadecimal prefix exceeds the safe bound,
/// the whole string's value exceeds `u64::MAX`.
proof fn lemma_hex_val_overflow(w: Seq<char>, i: int, acc: u64, d: u64)
    requires
        0 < i <= w.len(),
        all_hex_digits(w.subrange(0, i - 1)),
        is_hex_digit(w[i - 1]),
        acc == hex_val(w.subrange(0, i - 1)),
        d == hex_digit_val(w[i - 1]),
        acc > (u64::MAX - d) / 16,
    ensures
        !all_hex_digits(w) || hex_val(w) > u64::MAX,
{
    if all_hex_digits(w) {
        let cur = w.subrange(0, i);
        assert(cur.drop_last() =~= w.subrange(0, i - 1));
        assert(hex_val(cur) == acc * 16 + d);
        assert(acc >= (u64::MAX - d) / 16 + 1);
        assert(acc * 16 >= ((u64::MAX - d) / 16 + 1) * 16) by (nonlinear_arith)
            requires
                acc >= (u64::MAX - d) / 16 + 1,
        ;
        assert(((u64::MAX - d) / 16 + 1) * 16 == ((u64::MAX - d) / 16) * 16 + 16);
        assert(((u64::MAX - d) / 16) * 16 > (u64::MAX - d) - 16) by (nonlinear_arith)
            requires
                d <= u64::MAX,
        ;
        assert(hex_val(cur) > u64::MAX);
        lemma_hex_val_prefix(w, i);
        assert(hex_val(w) >= hex_val(cur));
    }
}

/// The decimal digit character for a value below ten.
pub open spec fn dec_digit_char(d: int) -> char {
    if d == 0 {
        '0'
    } else if d == 1 {
        '1'
    } else if d == 2 {
        '2'
    } else if d == 3 {
        '3'
    } else if d == 4 {
        '4'
    } else if d == 5 {
        '5'
    } else if d == 6 {
        '6'
    } else if d == 7 {
        '7'
    } else if d == 8 {
        '8'
    } else {
        '9'
    }
}

/// The lower-case hexadecimal digit character for a value below sixteen.
pub open spec fn hex_digit_char(d: int) -> char {
    if d < 10 {
        dec_digit_char(d)
    } else if d == 10 {
        'a'
    } else if d == 11 {
        'b'
    } else if d == 12 {
        'c'
    } else if d == 13 {
        'd'
    } else if d == 14 {
        'e'
    } else {
        'f'
    }
}

/// The decimal rendering of a non-negative number.
pub open spec fn spec_dec_digits(n: int) -> Seq<char>
    decreases n,
{
    if n < 10 {
        seq![dec_digit_char(n)]
    } else {
        spec_dec_digits(n / 10).push(dec_digit_char(n % 10))
    }
}

/// The lower-case hexadecimal rendering of a non-negative number.
pub open spec fn spec_hex_digits(n: int) -> Seq<char>
    decreases n,
{
    if n < 16 {
        seq![hex_digit_char(n)]
    } else {
        spec_hex_digits(n / 16).push(hex_digit_char(n % 16))
    }
}

/// A one-character string for a digit value below sixteen.
fn digit_str(d: u64) -> (r: &'static str)
    requires
        d < 16,
    ensures
        r@ =~= seq![hex_digit_char(d as int)],
{
    proof {
        reveal_strlit("0");
        reveal_strlit("1");
        reveal_strlit("2");
        reveal_strlit("3");
        reveal_strlit("4");
        reveal_strlit("5");
        reveal_strlit("6");
        reveal_strlit("7");
        reveal_strlit("8");
        reveal_strlit("9");
        reveal_strlit("a");
        reveal_strlit("b");
        reveal_strlit("c");
        reveal_strlit("d");
        reveal_strlit("e");
        reveal_strlit("f");
    }
    if d == 0 {
        "0"
    } else if d == 1 {
        "1"
    } else if d == 2 {
        "2"
    } else if d == 3 {
        "3"
    } else if d == 4 {
        "4"
    } else if d == 5 {
        "5"
    } else if d == 6 {
        "6"
    } else if d == 7 {
        "7"
    } else if d == 8 {
        "8"
    } else if d == 9 {
        "9"
    } else if d == 10 {
        "a"
    } else if d == 11 {
        "b"
    } else if d == 12 {
        "c"
    } else if d == 13 {
        "d"
    } else if d == 14 {
        "e"
    } else {
        "f"
    }
}

/// Render a number in decimal.
pub fn u64_to_dec(n: u64) -> (r: String)
    ensures
        r@ == spec_dec_digits(n as int),
    decreases n,
{
    if n < 10 {
        let s = digit_str(n).to_owned();
        proof {
            assert(s@ =~= spec_dec_digits(n as int));
        }
        s
    } else {
        let mut s = u64_to_dec(n / 10);
        s.append(digit_str(n % 10));
        proof {
            assert(s@ =~= spec_dec_digits(n as int));
        }
        s
    }
}

/// Render a number in lower-case hexadecimal.
pub fn u64_to_hex(n: u64) -> (r: String)
    ensures
        r@ == spec_hex_digits(n as int),
    decreases n,
{
    if n < 16 {
        let s = digit_str(n).to_owned();
        proof {
            assert(s@ =~= spec_hex_digits(n as int));
        }
        s
    } else {
        let mut s = u64_to_hex(n / 16);
        s.append(digit_str(n % 16));
        proof {
            assert(s@ =~= spec_hex_digits(n as int));
        }
        s
    }
}

/// Copy a character range of `s` into an owned string.
pub fn substring_copy(s: &str, from: usize, to: usize) -> (r: String)
    requires
        from <= to <= s@.len(),
    ensures
        r@ == s@.subrange(from as int, to as int),
{
    s.substring_char(from, to).to_owned()
}

} // verus!
