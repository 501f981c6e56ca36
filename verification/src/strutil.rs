//! Character-level string utilities: decimal and hexadecimal numerals,
//! line and field splitting, substring search.
//!
//! Everything here works on `&str` through its `Seq<char>` view, so the
//! parsers built on top of it can state their results exactly.

use vstd::prelude::*;

verus! {

/// A decimal digit `'0'..='9'`.
pub open spec fn is_digit(c: char) -> bool {
    48 <= c as u32 <= 57
}

/// Numeric value of a decimal digit.
pub open spec fn digit_val(c: char) -> int {
    c as u32 - 48
}

/// All characters of `s` are decimal digits.
pub open spec fn all_digits(s: Seq<char>) -> bool {
    forall|i: int| 0 <= i < s.len() ==> is_digit(#[trigger] s[i])
}

/// Value of a big-endian decimal numeral.
pub open spec fn dec_val(s: Seq<char>) -> int
    decreases s.len(),
{
    if s.len() == 0 {
        0
    } else {
        dec_val(s.drop_last()) * 10 + digit_val(s.last())
    }
}

pub proof fn lemma_dec_val_nonneg(s: Seq<char>)
    requires
        all_digits(s),
    ensures
        dec_val(s) >= 0,
    decreases s.len(),
{
    if s.len() > 0 {
        assert(all_digits(s.drop_last()));
        lemma_dec_val_nonneg(s.drop_last());
    }
}

/// A longer digit string never has a smaller value than its prefix.
proof fn lemma_dec_val_prefix(s: Seq<char>, j: int)
    requires
        all_digits(s),
        0 <= j <= s.len(),
    ensures
        dec_val(s) >= dec_val(s.subrange(0, j)),
    decreases s.len() - j,
{
    if j < s.len() {
        let t = s.subrange(0, j + 1);
        assert(t.drop_last() =~= s.subrange(0, j));
        assert(all_digits(s.subrange(0, j)));
        lemma_dec_val_nonneg(s.subrange(0, j));
        lemma_dec_val_prefix(s, j + 1);
    } else {
        assert(s.subrange(0, j) =~= s);
    }
}

/// A hexadecimal digit.
pub open spec fn is_hex_digit(c: char) -> bool {
    is_digit(c) || (65 <= c as u32 <= 70) || (97 <= c as u32 <= 102)
}

/// Numeric value of a hexadecimal digit (upper or lower case).
pub open spec fn hex_digit_val(c: char) -> int {
    if is_digit(c) {
        c as u32 - 48
    } else if 65 <= c as u32 <= 70 {
        c as u32 - 55
    } else {
        c as u32 - 87
    }
}

/// All characters of `s` are hexadecimal digits.
pub open spec fn all_hex_digits(s: Seq<char>) -> bool {
    forall|i: int| 0 <= i < s.len() ==> is_hex_digit(#[trigger] s[i])
}

/// Value of a big-endian hexadecimal numeral.
pub open spec fn hex_val(s: Seq<char>) -> int
    decreases s.len(),
{
    if s.len() == 0 {
        0
    } else {
        hex_val(s.drop_last()) * 16 + hex_digit_val(s.last())
    }
}

pub proof fn lemma_hex_val_nonneg(s: Seq<char>)
    requires
        all_hex_digits(s),
    ensures
        hex_val(s) >= 0,
    decreases s.len(),
{
    if s.len() > 0 {
        assert(all_hex_digits(s.drop_last()));
        lemma_hex_val_nonneg(s.drop_last());
    }
}

proof fn lemma_hex_val_prefix(s: Seq<char>, j: int)
    requires
        all_hex_digits(s),
        0 <= j <= s.len(),
    ensures
        hex_val(s) >= hex_val(s.subrange(0, j)),
    decreases s.len() - j,
{
    if j < s.len() {
        let t = s.subrange(0, j + 1);
        assert(t.drop_last() =~= s.subrange(0, j));
        assert(all_hex_digits(s.subrange(0, j)));
        lemma_hex_val_nonneg(s.subrange(0, j));
        lemma_hex_val_prefix(s, j + 1);
    } else {
        assert(s.subrange(0, j) =~= s);
    }
}

/// Decimal parse at the specification level: the value of a nonempty
/// all-digit numeral that fits in a `u64`.
pub open spec fn spec_parse_u64_dec(s: Seq<char>) -> Option<u64> {
    if s.len() > 0 && all_digits(s) && dec_val(s) <= u64::MAX {
        Some(dec_val(s) as u64)
    } else {
        None
    }
}

/// Hexadecimal parse at the specification level.
pub open spec fn spec_parse_u64_hex(s: Seq<char>) -> Option<u64> {
    if s.len() > 0 && all_hex_digits(s) && hex_val(s) <= u64::MAX {
        Some(hex_val(s) as u64)
    } else {
        None
    }
}

/// Parses a nonempty, all-hex-digit numeral into a `u64`.
/// Returns `None` on an empty string, a non-hex character, or overflow.
pub fn parse_u64_hex(s: &str) -> (r: Option<u64>)
    ensures
        r == spec_parse_u64_hex(s@),
{
    proof {
        if s@.len() > 0 && all_hex_digits(s@) {
            lemma_hex_val_nonneg(s@);
        }
    }
    let n = s.unicode_len();
    if n == 0 {
        return None;
    }
    let mut acc: u64 = 0;
    let mut i: usize = 0;
    while i < n
        invariant
            0 < n == s@.len(),
            0 <= i <= n,
            all_hex_digits(s@.subrange(0, i as int)),
            acc as int == hex_val(s@.subrange(0, i as int)),
        decreases n - i,
    {
        let c = s.get_char(i);
        let cv = c as u32;
        let d: u64 = if 48 <= cv && cv <= 57 {
            (cv - 48) as u64
        } else if 65 <= cv && cv <= 70 {
            (cv - 55) as u64
        } else if 97 <= cv && cv <= 102 {
            (cv - 87) as u64
        } else {
            assert(!is_hex_digit(s@[i as int]));
            return None;
        };
        proof {
            assert(s@.subrange(0, i + 1).drop_last() =~= s@.subrange(0, i as int));
        }
        if acc > (u64::MAX - d) / 16 {
            proof {
                let t = s@.subrange(0, i + 1);
                assert(hex_val(t) == acc * 16 + d);
                if all_hex_digits(s@) {
                    lemma_hex_val_prefix(s@, i + 1);
                }
            }
            return None;
        }
        acc = acc * 16 + d;
        i = i + 1;
    }
    proof {
        assert(s@.subrange(0, n as int) =~= s@);
    }
    Some(acc)
}

/// Parses a nonempty, all-digit decimal numeral into a `u64`.
/// Returns `None` on an empty string, a non-digit character, or overflow.
pub fn parse_u64_dec(s: &str) -> (r: Option<u64>)
    ensures
        r == spec_parse_u64_dec(s@),
{
    proof {
        if s@.len() > 0 && all_digits(s@) {
            lemma_dec_val_nonneg(s@);
        }
    }
    let n = s.unicode_len();
    if n == 0 {
        return None;
    }
    let mut acc: u64 = 0;
    let mut i: usize = 0;
    while i < n
        invariant
            0 < n == s@.len(),
            0 <= i <= n,
            all_digits(s@.subrange(0, i as int)),
            acc as int == dec_val(s@.subrange(0, i as int)),
        decreases n - i,
    {
        let c = s.get_char(i);
        let cv = c as u32;
        if cv < 48 || cv > 57 {
            assert(!is_digit(s@[i as int]));
            return None;
        }
        let d: u64 = (cv - 48) as u64;
        proof {
            assert(s@.subrange(0, i + 1).drop_last() =~= s@.subrange(0, i as int));
        }
        if acc > (u64::MAX - d) / 10 {
            proof {
                let t = s@.subrange(0, i + 1);
                assert(dec_val(t) == acc * 10 + d);
                assert(dec_val(t) > u64::MAX);
                if all_digits(s@) {
                    lemma_dec_val_prefix(s@, i + 1);
                }
            }
            return None;
        }
        acc = acc * 10 + d;
        i = i + 1;
    }
    proof {
        assert(s@.subrange(0, n as int) =~= s@);
    }
    Some(acc)
}

/// Index of the first occurrence of `c` in `s` at or after `from`,
/// or `s.len()` if there is none.
pub open spec fn find_ch(s: Seq<char>, c: char, from: int) -> int
    decreases s.len() - from,
{
    if from < 0 || from >= s.len() {
        s.len() as int
    } else if s[from] == c {
        from
    } else {
        find_ch(s, c, from + 1)
    }
}

pub proof fn lemma_find_ch(s: Seq<char>, c: char, from: int)
    requires
        0 <= from <= s.len(),
    ensures
        from <= find_ch(s, c, from) <= s.len(),
        find_ch(s, c, from) < s.len() ==> s[find_ch(s, c, from)] == c,
        forall|j: int| from <= j < find_ch(s, c, from) ==> s[j] != c,
    decreases s.len() - from,
{
    if from < s.len() && s[from] != c {
        lemma_find_ch(s, c, from + 1);
    }
}

/// First occurrence of `c` in `s` at or after `from`, as an executable search.
pub fn find_char_from(s: &str, c: char, from: usize) -> (r: usize)
    requires
        from <= s@.len(),
    ensures
        r == find_ch(s@, c, from as int),
{
    proof {
        lemma_find_ch(s@, c, from as int);
    }
    let n = s.unicode_len();
    let mut i: usize = from;
    while i < n
        invariant
            from <= i <= n,
            n == s@.len(),
            forall|j: int| from <= j < i ==> s@[j] != c,
            find_ch(s@, c, from as int) >= i,
        decreases n - i,
    {
        if s.get_char(i) == c {
            proof {
                lemma_find_ch(s@, c, from as int);
            }
            return i;
        }
        proof {
            lemma_find_ch(s@, c, from as int);
        }
        i = i + 1;
    }
    proof {
        lemma_find_ch(s@, c, from as int);
    }
    n
}

/// Index of the last occurrence of `c` in `s`, or `-1` if there is none.
pub open spec fn rfind_ch(s: Seq<char>, c: char) -> int
    decreases s.len(),
{
    if s.len() == 0 {
        -1
    } else if s.last() == c {
        s.len() - 1
    } else {
        rfind_ch(s.drop_last(), c)
    }
}

pub proof fn lemma_rfind_ch(s: Seq<char>, c: char)
    ensures
        -1 <= rfind_ch(s, c) < s.len(),
        rfind_ch(s, c) >= 0 ==> s[rfind_ch(s, c)] == c,
        forall|j: int| rfind_ch(s, c) < j < s.len() ==> s[j] != c,
    decreases s.len(),
{
    if s.len() > 0 && s.last() != c {
        lemma_rfind_ch(s.drop_last(), c);
        let r = rfind_ch(s, c);
        if r >= 0 {
            assert(s[r] == s.drop_last()[r]);
        }
        assert forall|j: int| r < j < s.len() implies s[j] != c by {
            if j < s.len() - 1 {
                assert(s.drop_last()[j] == s[j]);
            }
        }
    }
}

/// Last occurrence of `c` in `s`: `Some(index)` or `None`.
pub fn rfind_char(s: &str, c: char) -> (r: Option<usize>)
    ensures
        match r {
            Some(i) => i == rfind_ch(s@, c) && i < s@.len(),
            None => rfind_ch(s@, c) == -1,
        },
{
    proof {
        lemma_rfind_ch(s@, c);
    }
    let n = s.unicode_len();
    let mut i: usize = n;
    while i > 0
        invariant
            0 <= i <= n,
            n == s@.len(),
            forall|j: int| i <= j < n ==> s@[j] != c,
            rfind_ch(s@, c) < i,
        decreases i,
    {
        i = i - 1;
        if s.get_char(i) == c {
            proof {
                lemma_rfind_ch(s@, c);
            }
            return Some(i);
        }
        proof {
            lemma_rfind_ch(s@, c);
        }
    }
    None
}

/// Character-for-character string equality.
pub fn str_eq(a: &str, b: &str) -> (r: bool)
    ensures
        r == (a@ == b@),
{
    let na = a.unicode_len();
    let nb = b.unicode_len();
    if na != nb {
        return false;
    }
    let mut i: usize = 0;
    while i < na
        invariant
            0 <= i <= na,
            na == a@.len() == b@.len() == nb,
            forall|j: int| 0 <= j < i ==> a@[j] == b@[j],
        decreases na - i,
    {
        if a.get_char(i) != b.get_char(i) {
            return false;
        }
        i = i + 1;
    }
    proof {
        assert(a@ =~= b@);
    }
    true
}

/// `p` is a prefix of `s`.
pub open spec fn is_prefix(p: Seq<char>, s: Seq<char>) -> bool {
    p.len() <= s.len() && s.subrange(0, p.len() as int) == p
}

/// Prefix test, character for character.
pub fn starts_with(s: &str, p: &str) -> (r: bool)
    ensures
        r == is_prefix(p@, s@),
{
    let np = p.unicode_len();
    let ns = s.unicode_len();
    if np > ns {
        return false;
    }
    let mut i: usize = 0;
    while i < np
        invariant
            0 <= i <= np,
            np == p@.len() <= s@.len() == ns,
            forall|j: int| 0 <= j < i ==> s@[j] == p@[j],
        decreases np - i,
    {
        if s.get_char(i) != p.get_char(i) {
            assert(s@.subrange(0, np as int)[i as int] != p@[i as int]);
            return false;
        }
        i = i + 1;
    }
    proof {
        assert(s@.subrange(0, np as int) =~= p@);
    }
    true
}

/// `needle` occurs as a contiguous run inside `hay`.
pub open spec fn is_substr(needle: Seq<char>, hay: Seq<char>) -> bool {
    exists|k: int|
        0 <= k && k + needle.len() <= hay.len() && #[trigger] hay.subrange(k, k + needle.len())
            == needle
}

/// Substring search, quadratic but exact.
pub fn contains_sub(hay: &str, needle: &str) -> (r: bool)
    ensures
        r == is_substr(needle@, hay@),
{
    let nn = needle.unicode_len();
    let nh = hay.unicode_len();
    if nn > nh {
        assert(!is_substr(needle@, hay@));
        return false;
    }
    if nn == 0 {
        proof {
            assert(hay@.subrange(0, 0 + needle@.len() as int) =~= needle@);
        }
        return true;
    }
    let mut k: usize = 0;
    while k <= nh - nn
        invariant
            0 <= k <= nh - nn + 1,
            0 < nn == needle@.len() <= nh == hay@.len(),
            forall|k0: int|
                0 <= k0 < k ==> #[trigger] hay@.subrange(k0, k0 + needle@.len() as int)
                    != needle@,
        decreases nh - k,
    {
        let mut i: usize = 0;
        let mut matched = true;
        while i < nn
            invariant
                0 <= i <= nn,
                nn == needle@.len(),
                nh == hay@.len(),
                0 <= k,
                k + nn <= nh,
                matched ==> forall|j: int| 0 <= j < i ==> hay@[k + j] == needle@[j],
                !matched ==> hay@.subrange(k as int, k + needle@.len() as int) != needle@,
            decreases nn - i,
        {
            if hay.get_char(k + i) != needle.get_char(i) {
                proof {
                    assert(hay@.subrange(k as int, k + needle@.len() as int)[i as int] != needle@[
                        i as int
                    ]);
                }
                matched = false;
                i = nn;
            } else {
                i = i + 1;
            }
        }
        if matched {
            proof {
                assert(hay@.subrange(k as int, k + needle@.len() as int) =~= needle@);
            }
            return true;
        }
        k = k + 1;
    }
    proof {
        assert(forall|k0: int|
            0 <= k0 && k0 + needle@.len() <= hay@.len() ==> #[trigger] hay@.subrange(
                k0,
                k0 + needle@.len() as int,
            ) != needle@);
    }
    false
}

/// `find_ch` is the unique index with no earlier occurrence.
pub proof fn lemma_find_ch_char(s: Seq<char>, c: char, from: int, m: int)
    requires
        0 <= from <= m <= s.len(),
        forall|j: int| from <= j < m ==> s[j] != c,
        m < s.len() ==> s[m] == c,
    ensures
        find_ch(s, c, from) == m,
    decreases m - from,
{
    if from < m {
        lemma_find_ch_char(s, c, from + 1, m);
    }
}

/// The views of a sequence of owned strings.
pub open spec fn views_of(v: Seq<String>) -> Seq<Seq<char>> {
    v.map_values(|x: String| x@)
}

/// A line with a trailing carriage return removed.
pub open spec fn strip_cr(l: Seq<char>) -> Seq<char> {
    if l.len() > 0 && l.last() == '\r' {
        l.drop_last()
    } else {
        l
    }
}

/// The lines of `s`: pieces between `'\n'` separators, each with a
/// trailing `'\r'` removed; a final empty fragment is dropped.
pub open spec fn spec_lines(s: Seq<char>) -> Seq<Seq<char>>
    decreases s.len(),
    via spec_lines_decreases
{
    if s.len() == 0 {
        Seq::empty()
    } else {
        let i = find_ch(s, '\n', 0);
        if i == s.len() {
            seq![strip_cr(s)]
        } else {
            seq![strip_cr(s.subrange(0, i))] + spec_lines(s.subrange(i + 1, s.len() as int))
        }
    }
}

#[via_fn]
proof fn spec_lines_decreases(s: Seq<char>) {
    if s.len() > 0 {
        lemma_find_ch(s, '\n', 0);
    }
}

/// Splits `s` into its lines.
pub fn split_lines(s: &str) -> (r: Vec<String>)
    ensures
        views_of(r@) == spec_lines(s@),
{
    let n = s.unicode_len();
    let mut out: Vec<String> = Vec::new();
    let mut pos: usize = 0;
    proof {
        assert(s@.subrange(0, n as int) =~= s@);
        assert(views_of(out@) + spec_lines(s@) =~= spec_lines(s@));
    }
    while pos < n
        invariant
            0 <= pos <= n,
            n == s@.len(),
            spec_lines(s@) == views_of(out@) + spec_lines(s@.subrange(pos as int, n as int)),
        decreases n - pos,
    {
        let j = find_char_from(s, '\n', pos);
        proof {
            lemma_find_ch(s@, '\n', pos as int);
        }
        let piece = if j > pos && s.get_char(j - 1) == '\r' {
            s.substring_char(pos, j - 1)
        } else {
            s.substring_char(pos, j)
        };
        proof {
            let sub = s@.subrange(pos as int, n as int);
            lemma_find_ch(s@, '\n', pos as int);
            assert(forall|j2: int| 0 <= j2 < j - pos ==> sub[j2] == s@[pos + j2] && sub[j2] != '\n');
            if j < n {
                assert(sub[j - pos] == s@[j as int]);
            }
            lemma_find_ch_char(sub, '\n', 0, j - pos);
            assert(sub.subrange(0, j - pos) =~= s@.subrange(pos as int, j as int));
            assert(piece@ =~= strip_cr(s@.subrange(pos as int, j as int)));
            if j == n {
                assert(strip_cr(sub) == strip_cr(s@.subrange(pos as int, j as int)));
                assert(spec_lines(sub) =~= seq![piece@]);
            } else {
                assert(sub.subrange(j - pos + 1, sub.len() as int) =~= s@.subrange(
                    j + 1,
                    n as int,
                ));
                assert(spec_lines(sub) =~= seq![piece@] + spec_lines(
                    s@.subrange(j + 1, n as int),
                ));
            }
        }
        let owned = piece.to_owned();
        let ghost old_out = out@;
        out.push(owned);
        proof {
            assert(views_of(out@) =~= views_of(old_out).push(piece@));
        }
        if j == n {
            proof {
                assert(spec_lines(s@) =~= views_of(out@));
            }
            return out;
        }
        proof {
            assert(spec_lines(s@) =~= views_of(out@) + spec_lines(s@.subrange(j + 1, n as int)));
        }
        pos = j + 1;
    }
    proof {
        assert(s@.subrange(pos as int, n as int).len() == 0);
        assert(spec_lines(s@) =~= views_of(out@));
    }
    out
}

/// Field-separating whitespace inside a line: space, tab, carriage return.
pub open spec fn is_ws(c: char) -> bool {
    c == ' ' || c == '\t' || c == '\r'
}

/// Index of the first whitespace character at or after `from`,
/// or `s.len()` if there is none.
pub open spec fn find_ws(s: Seq<char>, from: int) -> int
    decreases s.len() - from,
{
    if from < 0 || from >= s.len() {
        s.len() as int
    } else if is_ws(s[from]) {
        from
    } else {
        find_ws(s, from + 1)
    }
}

pub proof fn lemma_find_ws(s: Seq<char>, from: int)
    requires
        0 <= from <= s.len(),
    ensures
        from <= find_ws(s, from) <= s.len(),
        find_ws(s, from) < s.len() ==> is_ws(s[find_ws(s, from)]),
        forall|j: int| from <= j < find_ws(s, from) ==> !is_ws(s[j]),
    decreases s.len() - from,
{
    if from < s.len() && !is_ws(s[from]) {
        lemma_find_ws(s, from + 1);
    }
}

/// First whitespace character at or after `from`, as an executable search.
pub fn find_ws_from(s: &str, from: usize) -> (r: usize)
    requires
        from <= s@.len(),
    ensures
        r == find_ws(s@, from as int),
{
    proof {
        lemma_find_ws(s@, from as int);
    }
    let n = s.unicode_len();
    let mut i: usize = from;
    while i < n
        invariant
            from <= i <= n,
            n == s@.len(),
            forall|j: int| from <= j < i ==> !is_ws(s@[j]),
            find_ws(s@, from as int) >= i,
        decreases n - i,
    {
        let c = s.get_char(i);
        if c == ' ' || c == '\t' || c == '\r' {
            proof {
                lemma_find_ws(s@, from as int);
            }
            return i;
        }
        proof {
            lemma_find_ws(s@, from as int);
        }
        i = i + 1;
    }
    proof {
        lemma_find_ws(s@, from as int);
    }
    n
}

pub proof fn lemma_find_ws_char(s: Seq<char>, from: int, m: int)
    requires
        0 <= from <= m <= s.len(),
        forall|j: int| from <= j < m ==> !is_ws(s[j]),
        m < s.len() ==> is_ws(s[m]),
    ensures
        find_ws(s, from) == m,
    decreases m - from,
{
    if from < m {
        lemma_find_ws_char(s, from + 1, m);
    }
}

/// The maximal whitespace-free runs of `s`, in order.
pub open spec fn spec_fields(s: Seq<char>) -> Seq<Seq<char>>
    decreases s.len(),
    via spec_fields_decreases
{
    if s.len() == 0 {
        Seq::empty()
    } else if is_ws(s[0]) {
        spec_fields(s.subrange(1, s.len() as int))
    } else {
        let j = find_ws(s, 0);
        seq![s.subrange(0, j)] + spec_fields(s.subrange(j, s.len() as int))
    }
}

#[via_fn]
proof fn spec_fields_decreases(s: Seq<char>) {
    if s.len() > 0 && !is_ws(s[0]) {
        lemma_find_ws(s, 0);
    }
}

/// Splits a line into whitespace-separated fields.
pub fn split_fields(s: &str) -> (r: Vec<String>)
    ensures
        views_of(r@) == spec_fields(s@),
{
    let n = s.unicode_len();
    let mut out: Vec<String> = Vec::new();
    let mut pos: usize = 0;
    proof {
        assert(s@.subrange(0, n as int) =~= s@);
        assert(views_of(out@) + spec_fields(s@) =~= spec_fields(s@));
    }
    while pos < n
        invariant
            0 <= pos <= n,
            n == s@.len(),
            spec_fields(s@) == views_of(out@) + spec_fields(s@.subrange(pos as int, n as int)),
        decreases n - pos,
    {
        let c = s.get_char(pos);
        if c == ' ' || c == '\t' || c == '\r' {
            proof {
                let sub = s@.subrange(pos as int, n as int);
                assert(is_ws(sub[0]));
                assert(sub.subrange(1, sub.len() as int) =~= s@.subrange(pos + 1, n as int));
            }
            pos = pos + 1;
        } else {
            let j = find_ws_from(s, pos);
            proof {
                lemma_find_ws(s@, pos as int);
            }
            let piece = s.substring_char(pos, j);
            proof {
                let sub = s@.subrange(pos as int, n as int);
                assert(forall|j2: int|
                    0 <= j2 < j - pos ==> sub[j2] == s@[pos + j2] && !is_ws(sub[j2]));
                if j < n {
                    assert(sub[j - pos] == s@[j as int]);
                }
                lemma_find_ws_char(sub, 0, j - pos);
                assert(sub.subrange(0, j - pos) =~= piece@);
                assert(sub.subrange(j - pos, sub.len() as int) =~= s@.subrange(j as int, n as int));
                assert(spec_fields(sub) =~= seq![piece@] + spec_fields(
                    s@.subrange(j as int, n as int),
                ));
            }
            let ghost old_out = out@;
            out.push(piece.to_owned());
            proof {
                assert(views_of(out@) =~= views_of(old_out).push(piece@));
                assert(views_of(old_out) + spec_fields(s@.subrange(pos as int, n as int))
                    =~= views_of(out@) + spec_fields(s@.subrange(j as int, n as int)));
            }
            pos = j;
        }
    }
    proof {
        assert(s@.subrange(pos as int, n as int).len() == 0);
        assert(spec_fields(s@) =~= views_of(out@));
    }
    out
}

/// Relies on `String::push`: appends one character at the end.
pub assume_specification[ String::push ](s: &mut String, c: char)
    ensures
        final(s)@ == old(s)@.push(c),
;

/// What `str::to_lowercase` returns for a given character sequence.
pub uninterp spec fn lower_of(s: Seq<char>) -> Seq<char>;

/// Relies on `str::to_lowercase`: the result depends on the characters alone.
#[verifier::external_body]
pub fn lowercase(s: &str) -> (r: String)
    ensures
        r@ == lower_of(s@),
        s@.len() == 0 ==> r@.len() == 0,
{
    s.to_lowercase()
}

/// The character for a value in `0..16`: `'0'..='9'` then `'A'..='F'`.
pub open spec fn hex_digit_char(d: int) -> char {
    if d < 10 {
        ((48 + d) as u8) as char
    } else {
        ((55 + d) as u8) as char
    }
}

/// The character for a value in `0..10`.
pub open spec fn dec_digit_char(d: int) -> char {
    ((48 + d) as u8) as char
}

/// `16^k`.
pub open spec fn pow16(k: nat) -> int
    decreases k,
{
    if k == 0 {
        1
    } else {
        16 * pow16((k - 1) as nat)
    }
}

/// The `k`-digit big-endian uppercase hexadecimal numeral of `v % 16^k`.
pub open spec fn spec_hex_str(v: int, k: nat) -> Seq<char>
    decreases k,
{
    if k == 0 {
        Seq::empty()
    } else {
        spec_hex_str(v / 16, (k - 1) as nat).push(hex_digit_char(v % 16))
    }
}

/// Rendering a value below `16^k` and reading the numeral back is the identity.
pub proof fn lemma_hex_str_val(v: int, k: nat)
    requires
        0 <= v < pow16(k),
    ensures
        spec_hex_str(v, k).len() == k,
        all_hex_digits(spec_hex_str(v, k)),
        hex_val(spec_hex_str(v, k)) == v,
    decreases k,
{
    if k == 0 {
    } else {
        let p = pow16((k - 1) as nat);
        assert(pow16(k) == 16 * p);
        assert(v / 16 < p) by {
            assert(v <= 16 * p - 1);
        }
        lemma_hex_str_val(v / 16, (k - 1) as nat);
        let prev = spec_hex_str(v / 16, (k - 1) as nat);
        let d = v % 16;
        let c = hex_digit_char(d);
        assert(0 <= d < 16);
        assert(is_hex_digit(c) && hex_digit_val(c) == d);
        let whole = prev.push(c);
        assert(whole.drop_last() =~= prev);
        assert(whole.last() == c);
        assert(hex_val(whole) == hex_val(prev) * 16 + d);
        assert(hex_val(prev) == v / 16);
        assert((v / 16) * 16 + v % 16 == v);
        assert(forall|i: int| 0 <= i < whole.len() ==> is_hex_digit(#[trigger] whole[i]));
    }
}

/// Renders `v` as exactly `k` uppercase hexadecimal digits (big-endian),
/// truncating to the low `4 * k` bits.
pub fn hex_string(v: u64, k: usize) -> (r: String)
    ensures
        r@ == spec_hex_str(v as int, k as nat),
    decreases k,
{
    if k == 0 {
        String::new()
    } else {
        let mut s = hex_string(v / 16, k - 1);
        let d = (v % 16) as u8;
        let c: char = if d < 10 {
            (48 + d) as char
        } else {
            (55 + d) as char
        };
        s.push(c);
        s
    }
}

/// The big-endian decimal numeral of `v`, with no leading zeros.
pub open spec fn spec_dec_str(v: int) -> Seq<char>
    decreases v,
{
    if v <= 0 {
        seq![dec_digit_char(0)]
    } else if v < 10 {
        seq![dec_digit_char(v)]
    } else {
        spec_dec_str(v / 10).push(dec_digit_char(v % 10))
    }
}

/// Renders `v` in decimal.
pub fn u64_to_string(v: u64) -> (r: String)
    ensures
        r@ == spec_dec_str(v as int),
    decreases v,
{
    if v < 10 {
        let mut s = String::new();
        s.push((48 + (v as u8)) as char);
        s
    } else {
        let mut s = u64_to_string(v / 10);
        s.push((48 + ((v % 10) as u8)) as char);
        s
    }
}

/// Appends every character of `tail` to `dst`.
pub fn append_str(dst: &mut String, tail: &str)
    ensures
        final(dst)@ == old(dst)@ + tail@,
{
    let n = tail.unicode_len();
    let mut i: usize = 0;
    while i < n
        invariant
            0 <= i <= n,
            n == tail@.len(),
            dst@ == old(dst)@ + tail@.subrange(0, i as int),
        decreases n - i,
    {
        let c = tail.get_char(i);
        dst.push(c);
        proof {
            assert(old(dst)@ + tail@.subrange(0, i + 1) =~= (old(dst)@ + tail@.subrange(
                0,
                i as int,
            )).push(tail@[i as int]));
        }
        i = i + 1;
    }
    proof {
        assert(tail@.subrange(0, n as int) =~= tail@);
    }
}

/// Index of the first occurrence of `needle` in `hay` at or after `k`,
/// or `-1` if there is none.
pub open spec fn find_sub_at(hay: Seq<char>, needle: Seq<char>, k: int) -> int
    decreases hay.len() - k,
    via find_sub_at_decreases
{
    if k < 0 || k + needle.len() > hay.len() {
        -1
    } else if hay.subrange(k, k + needle.len()) == needle {
        k
    } else {
        find_sub_at(hay, needle, k + 1)
    }
}

#[via_fn]
proof fn find_sub_at_decreases(hay: Seq<char>, needle: Seq<char>, k: int) {
    if 0 <= k && k + needle.len() <= hay.len() && needle.len() == 0 {
        assert(hay.subrange(k, k + needle.len()) =~= needle);
    }
}

/// First occurrence of `needle` in `hay`, if any.
pub fn find_substr(hay: &str, needle: &str) -> (r: Option<usize>)
    ensures
        match r {
            Some(i) => i == find_sub_at(hay@, needle@, 0) && i + needle@.len() <= hay@.len(),
            None => find_sub_at(hay@, needle@, 0) == -1,
        },
{
    let nn = needle.unicode_len();
    let nh = hay.unicode_len();
    if nn > nh {
        return None;
    }
    if nn == 0 {
        proof {
            assert(hay@.subrange(0, 0 + needle@.len() as int) =~= needle@);
        }
        return Some(0);
    }
    let mut k: usize = 0;
    loop
        invariant
            0 <= k <= nh - nn + 1,
            0 < nn == needle@.len() <= nh == hay@.len(),
            find_sub_at(hay@, needle@, 0) == find_sub_at(hay@, needle@, k as int),
        decreases nh - k,
    {
        if k > nh - nn {
            return None;
        }
        let mut i: usize = 0;
        let mut matched = true;
        while i < nn
            invariant
                0 <= i <= nn,
                nn == needle@.len(),
                nh == hay@.len(),
                0 <= k,
                k + nn <= nh,
                matched ==> forall|j: int| 0 <= j < i ==> hay@[k + j] == needle@[j],
                !matched ==> hay@.subrange(k as int, k + needle@.len() as int) != needle@,
            decreases nn - i,
        {
            if hay.get_char(k + i) != needle.get_char(i) {
                proof {
                    assert(hay@.subrange(k as int, k + needle@.len() as int)[i as int] != needle@[
                        i as int
                    ]);
                }
                matched = false;
                i = nn;
            } else {
                i = i + 1;
            }
        }
        if matched {
            proof {
                assert(hay@.subrange(k as int, k + needle@.len() as int) =~= needle@);
            }
            return Some(k);
        }
        k = k + 1;
    }
}

/// Everything after the last `'/'` of `s` (all of `s` if it has none).
pub fn last_segment(s: &str) -> (r: String)
    ensures
        r@ == s@.subrange(rfind_ch(s@, '/') + 1, s@.len() as int),
{
    proof {
        lemma_rfind_ch(s@, '/');
    }
    let n = s.unicode_len();
    match rfind_char(s, '/') {
        Some(i) => s.substring_char(i + 1, n).to_owned(),
        None => {
            proof {
                assert(s@.subrange(0, n as int) =~= s@);
            }
            s.to_owned()
        },
    }
}

/// A filter that rejects every element yields the empty sequence.
pub proof fn lemma_filter_none<T>(s: Seq<T>, pred: spec_fn(T) -> bool)
    requires
        forall|i: int| 0 <= i < s.len() ==> !pred(#[trigger] s[i]),
    ensures
        s.filter(pred).len() == 0,
    decreases s.len(),
{
    reveal(Seq::filter);
    if s.len() > 0 {
        assert(forall|i: int| 0 <= i < s.drop_last().len() ==> !pred(#[trigger] s.drop_last()[i]));
        lemma_filter_none(s.drop_last(), pred);
    }
}

/// Pushing extends membership by exactly the pushed element.
pub proof fn lemma_push_contains<T>(s: Seq<T>, x: T)
    ensures
        forall|v: T| #[trigger] s.push(x).contains(v) <==> (s.contains(v) || v == x),
{
    assert forall|v: T| #[trigger] s.push(x).contains(v) implies (s.contains(v) || v == x) by {
        let i = choose|i: int| 0 <= i < s.push(x).len() && s.push(x)[i] == v;
        if i < s.len() {
            assert(s[i] == v);
        }
    }
    assert forall|v: T| (s.contains(v) || v == x) implies #[trigger] s.push(x).contains(v) by {
        if s.contains(v) {
            let i = choose|i: int| 0 <= i < s.len() && s[i] == v;
            assert(s.push(x)[i] == v);
        } else {
            assert(s.push(x)[s.len() as int] == v);
        }
    }
}

/// Filtering after a push keeps the element exactly when the predicate
/// holds of it.
pub proof fn lemma_filter_push<T>(s: Seq<T>, pred: spec_fn(T) -> bool, x: T)
    ensures
        s.push(x).filter(pred) == if pred(x) {
            s.filter(pred).push(x)
        } else {
            s.filter(pred)
        },
{
    reveal(Seq::filter);
    assert(s.push(x).drop_last() =~= s);
    assert(s.push(x).last() == x);
}

/// Splits at the first occurrence of `c`: the text before it and the
/// text after it.
pub fn split_once_char(s: &str, c: char) -> (r: Option<(String, String)>)
    ensures
        match r {
            Some(pair) => find_ch(s@, c, 0) < s@.len() && pair.0@ == s@.subrange(
                0,
                find_ch(s@, c, 0),
            ) && pair.1@ == s@.subrange(find_ch(s@, c, 0) + 1, s@.len() as int),
            None => find_ch(s@, c, 0) == s@.len(),
        },
{
    proof {
        lemma_find_ch(s@, c, 0);
    }
    let n = s.unicode_len();
    let i = find_char_from(s, c, 0);
    if i == n {
        None
    } else {
        let before = s.substring_char(0, i).to_owned();
        let after = s.substring_char(i + 1, n).to_owned();
        Some((before, after))
    }
}

/// Index of the first non-whitespace character at or after `from`, or
/// `s.len()` if there is none.
pub open spec fn find_nonws(s: Seq<char>, from: int) -> int
    decreases s.len() - from,
{
    if from < 0 || from >= s.len() {
        s.len() as int
    } else if !is_ws(s[from]) {
        from
    } else {
        find_nonws(s, from + 1)
    }
}

pub proof fn lemma_find_nonws(s: Seq<char>, from: int)
    requires
        0 <= from <= s.len(),
    ensures
        from <= find_nonws(s, from) <= s.len(),
        find_nonws(s, from) < s.len() ==> !is_ws(s[find_nonws(s, from)]),
        forall|j: int| from <= j < find_nonws(s, from) ==> is_ws(s[j]),
    decreases s.len() - from,
{
    if from < s.len() && is_ws(s[from]) {
        lemma_find_nonws(s, from + 1);
    }
}

/// Index of the last non-whitespace character, or `-1` if there is
/// none.
pub open spec fn rfind_nonws(s: Seq<char>) -> int
    decreases s.len(),
{
    if s.len() == 0 {
        -1
    } else if !is_ws(s.last()) {
        s.len() - 1
    } else {
        rfind_nonws(s.drop_last())
    }
}

pub proof fn lemma_rfind_nonws(s: Seq<char>)
    ensures
        -1 <= rfind_nonws(s) < s.len(),
        rfind_nonws(s) >= 0 ==> !is_ws(s[rfind_nonws(s)]),
        forall|j: int| rfind_nonws(s) < j < s.len() ==> is_ws(s[j]),
    decreases s.len(),
{
    if s.len() > 0 && is_ws(s.last()) {
        lemma_rfind_nonws(s.drop_last());
        let r = rfind_nonws(s);
        if r >= 0 {
            assert(s[r] == s.drop_last()[r]);
        }
        assert forall|j: int| r < j < s.len() implies is_ws(s[j]) by {
            if j < s.len() - 1 {
                assert(s.drop_last()[j] == s[j]);
            }
        }
    }
}

/// `s` with leading and trailing whitespace removed.
pub open spec fn spec_trim(s: Seq<char>) -> Seq<char> {
    if rfind_nonws(s) < 0 {
        Seq::empty()
    } else {
        s.subrange(find_nonws(s, 0), rfind_nonws(s) + 1)
    }
}

/// First non-whitespace position at or after `from`.
fn skip_leading_ws(s: &str, from: usize) -> (r: usize)
    requires
        from <= s@.len(),
    ensures
        r == find_nonws(s@, from as int),
{
    proof {
        lemma_find_nonws(s@, from as int);
    }
    let n = s.unicode_len();
    let mut i: usize = from;
    while i < n
        invariant
            from <= i <= n,
            n == s@.len(),
            forall|j: int| from <= j < i ==> is_ws(s@[j]),
            find_nonws(s@, from as int) >= i,
        decreases n - i,
    {
        let c = s.get_char(i);
        if !(c == ' ' || c == '\t' || c == '\r') {
            proof {
                lemma_find_nonws(s@, from as int);
            }
            return i;
        }
        proof {
            lemma_find_nonws(s@, from as int);
        }
        i = i + 1;
    }
    proof {
        lemma_find_nonws(s@, from as int);
    }
    n
}

/// One past the last non-whitespace position.
fn after_trailing_ws(s: &str) -> (r: usize)
    ensures
        r == rfind_nonws(s@) + 1,
{
    proof {
        lemma_rfind_nonws(s@);
    }
    let n = s.unicode_len();
    let mut i: usize = n;
    while i > 0
        invariant
            0 <= i <= n,
            n == s@.len(),
            forall|j: int| i <= j < n ==> is_ws(s@[j]),
            rfind_nonws(s@) < i,
        decreases i,
    {
        let c = s.get_char(i - 1);
        if !(c == ' ' || c == '\t' || c == '\r') {
            proof {
                lemma_rfind_nonws(s@);
            }
            return i;
        }
        proof {
            lemma_rfind_nonws(s@);
        }
        i = i - 1;
    }
    proof {
        lemma_rfind_nonws(s@);
    }
    0
}

/// Strips leading and trailing whitespace.
pub fn trim_str(s: &str) -> (r: &str)
    ensures
        r@ == spec_trim(s@),
{
    proof {
        lemma_find_nonws(s@, 0);
        lemma_rfind_nonws(s@);
    }
    let a = skip_leading_ws(s, 0);
    let b = after_trailing_ws(s);
    if a >= b {
        proof {
            if rfind_nonws(s@) >= 0 {
                assert(!is_ws(s@[rfind_nonws(s@)]));
                assert(false);
            }
            reveal_strlit("");
            assert(""@ =~= spec_trim(s@));
        }
        ""
    } else {
        s.substring_char(a, b)
    }
}

/// Signed decimal parse at the specification level: an optional
/// leading minus sign before an unsigned numeral, within `i64` range.
pub open spec fn spec_parse_i64_dec(s: Seq<char>) -> Option<i64> {
    if s.len() > 0 && s[0] == '-' {
        let rest = s.subrange(1, s.len() as int);
        if spec_parse_u64_dec(rest) is Some && spec_parse_u64_dec(rest)->Some_0 <= 0x8000_0000_0000_0000u64 {
            Some((-(spec_parse_u64_dec(rest)->Some_0 as int)) as i64)
        } else {
            None
        }
    } else {
        if spec_parse_u64_dec(s) is Some && spec_parse_u64_dec(s)->Some_0 <= i64::MAX as u64 {
            Some(spec_parse_u64_dec(s)->Some_0 as i64)
        } else {
            None
        }
    }
}

/// Parses a decimal numeral with an optional leading minus sign.
pub fn parse_i64_dec(s: &str) -> (r: Option<i64>)
    ensures
        r == spec_parse_i64_dec(s@),
{
    let n = s.unicode_len();
    if n > 0 && s.get_char(0) == '-' {
        let rest = s.substring_char(1, n);
        match parse_u64_dec(rest) {
            Some(v) => {
                if v <= 0x8000_0000_0000_0000u64 {
                    if v == 0x8000_0000_0000_0000u64 {
                        Some(i64::MIN)
                    } else {
                        Some(-(v as i64))
                    }
                } else {
                    None
                }
            },
            None => None,
        }
    } else {
        match parse_u64_dec(s) {
            Some(v) => {
                if v <= 0x7FFF_FFFF_FFFF_FFFFu64 {
                    Some(v as i64)
                } else {
                    None
                }
            },
            None => None,
        }
    }
}

/// Lexicographic order on character sequences, by character code; a
/// strict prefix comes first.
pub open spec fn lex_lt(a: Seq<char>, b: Seq<char>) -> bool
    decreases a.len(),
{
    if b.len() == 0 {
        false
    } else if a.len() == 0 {
        true
    } else if a[0] != b[0] {
        (a[0] as u32) < (b[0] as u32)
    } else {
        lex_lt(a.subrange(1, a.len() as int), b.subrange(1, b.len() as int))
    }
}

/// Strict lexicographic comparison of two strings.
pub fn str_lt(a: &str, b: &str) -> (r: bool)
    ensures
        r == lex_lt(a@, b@),
    decreases a@.len(),
{
    let na = a.unicode_len();
    let nb = b.unicode_len();
    if nb == 0 {
        false
    } else if na == 0 {
        true
    } else {
        let ca = a.get_char(0);
        let cb = b.get_char(0);
        if ca != cb {
            (ca as u32) < (cb as u32)
        } else {
            let ta = a.substring_char(1, na);
            let tb = b.substring_char(1, nb);
            str_lt(ta, tb)
        }
    }
}

/// The order is trichotomous: unequal sequences compare one way or
/// the other.
pub proof fn lemma_lex_trichotomy(a: Seq<char>, b: Seq<char>)
    ensures
        a == b || lex_lt(a, b) || lex_lt(b, a),
    decreases a.len(),
{
    if a.len() > 0 && b.len() > 0 && a[0] != b[0] {
        vstd::utf8::char_u32_cast(a[0], a[0] as u32);
        vstd::utf8::char_u32_cast(b[0], b[0] as u32);
        assert(a[0] as u32 != b[0] as u32);
    }
    if a.len() == 0 || b.len() == 0 {
        if a.len() == b.len() {
            assert(a =~= b);
        }
    } else if a[0] == b[0] {
        let ta = a.subrange(1, a.len() as int);
        let tb = b.subrange(1, b.len() as int);
        lemma_lex_trichotomy(ta, tb);
        if ta == tb {
            assert forall|j: int| 0 <= j < a.len() implies a[j] == b[j] by {
                if j >= 1 {
                    assert(a[j] == ta[j - 1]);
                    assert(b[j] == tb[j - 1]);
                }
            }
            assert(a =~= b);
        }
    }
}

/// The order is transitive.
pub proof fn lemma_lex_transitive(a: Seq<char>, b: Seq<char>, c: Seq<char>)
    requires
        lex_lt(a, b),
        lex_lt(b, c),
    ensures
        lex_lt(a, c),
    decreases a.len() + b.len() + c.len(),
{
    if a.len() > 0 && b.len() > 0 && c.len() > 0 {
        vstd::utf8::char_u32_cast(a[0], a[0] as u32);
        vstd::utf8::char_u32_cast(b[0], b[0] as u32);
        vstd::utf8::char_u32_cast(c[0], c[0] as u32);
        if a[0] == b[0] && b[0] == c[0] {
            lemma_lex_transitive(
                a.subrange(1, a.len() as int),
                b.subrange(1, b.len() as int),
                c.subrange(1, c.len() as int),
            );
        }
    }
}

} // verus!
