use vstd::prelude::*;

verus! {

// ---------------------------------------------------------------------------
// Lexicographic order on character sequences
// ---------------------------------------------------------------------------

/// Strict lexicographic order on character sequences, comparing characters by
/// their scalar values; a proper prefix is smaller than the longer sequence.
pub open spec fn lex_lt(a: Seq<char>, b: Seq<char>) -> bool
    decreases a.len(),
{
    if b.len() == 0 {
        false
    } else if a.len() == 0 {
        true
    } else if a[0] != b[0] {
        a[0] < b[0]
    } else {
        lex_lt(a.drop_first(), b.drop_first())
    }
}

pub proof fn lemma_lex_lt_irreflexive(a: Seq<char>)
    ensures
        !lex_lt(a, a),
    decreases a.len(),
{
    if a.len() > 0 {
        lemma_lex_lt_irreflexive(a.drop_first());
    }
}

/// Two sequences are either ordered one way, the other way, or equal.
pub proof fn lemma_lex_lt_trichotomy(a: Seq<char>, b: Seq<char>)
    ensures
        lex_lt(a, b) || lex_lt(b, a) || a == b,
    decreases a.len(),
{
    if a.len() == 0 {
        if b.len() == 0 {
            assert(a =~= b);
        }
    } else if b.len() == 0 {
    } else if a[0] == b[0] {
        lemma_lex_lt_trichotomy(a.drop_first(), b.drop_first());
        if !lex_lt(a, b) && !lex_lt(b, a) {
            assert(a.drop_first() =~= b.drop_first());
            assert forall|i: int| 0 <= i < a.len() implies a[i] == b[i] by {
                if i >= 1 {
                    assert(a.drop_first()[i - 1] == b.drop_first()[i - 1]);
                }
            }
            assert(a =~= b);
        }
    }
}

pub proof fn lemma_lex_lt_transitive(a: Seq<char>, b: Seq<char>, c: Seq<char>)
    requires
        lex_lt(a, b),
        lex_lt(b, c),
    ensures
        lex_lt(a, c),
    decreases a.len(),
{
    if a.len() > 0 && b.len() > 0 && c.len() > 0 {
        if a[0] == b[0] && b[0] == c[0] {
            lemma_lex_lt_transitive(a.drop_first(), b.drop_first(), c.drop_first());
        }
    }
}

/// The strict order is asymmetric.
pub proof fn lemma_lex_lt_asymmetric(a: Seq<char>, b: Seq<char>)
    ensures
        !(lex_lt(a, b) && lex_lt(b, a)),
{
    if lex_lt(a, b) && lex_lt(b, a) {
        lemma_lex_lt_transitive(a, b, a);
        lemma_lex_lt_irreflexive(a);
    }
}

// ---------------------------------------------------------------------------
// Substring occurrence
// ---------------------------------------------------------------------------

/// `needle` occurs in `hay` starting at position `at`.
pub open spec fn matches_at(hay: Seq<char>, needle: Seq<char>, at: int) -> bool {
    0 <= at && at + needle.len() <= hay.len() && hay.subrange(at, at + needle.len()) == needle
}

/// `needle` occurs somewhere in `hay`.
pub open spec fn seq_has(hay: Seq<char>, needle: Seq<char>) -> bool {
    exists|at: int| matches_at(hay, needle, at)
}

// ---------------------------------------------------------------------------
// Executable operations on string slices
// ---------------------------------------------------------------------------

/// Character-wise equality of two string slices.
pub fn str_eq_str(a: &str, b: &str) -> (r: bool)
    ensures
        r == (a@ == b@),
{
    let alen: usize = a.unicode_len();
    let blen: usize = b.unicode_len();
    if alen != blen {
        assert(a@ != b@);
        return false;
    }
    let mut i: usize = 0;
    while i < alen
        invariant
            alen == a@.len(),
            blen == b@.len(),
            alen == blen,
            0 <= i <= alen,
            forall|k: int| 0 <= k < i ==> a@[k] == b@[k],
        decreases alen - i,
    {
        if a.get_char(i) != b.get_char(i) {
            return false;
        }
        i = i + 1;
    }
    assert(a@ =~= b@);
    true
}

/// Decides the strict lexicographic order between two string slices.
pub fn str_lex_lt(a: &str, b: &str) -> (r: bool)
    ensures
        r == lex_lt(a@, b@),
{
    let alen: usize = a.unicode_len();
    let blen: usize = b.unicode_len();
    let min: usize = if alen < blen { alen } else { blen };
    assert(a@.skip(0) =~= a@);
    assert(b@.skip(0) =~= b@);
    let mut i: usize = 0;
    while i < min
        invariant
            alen == a@.len(),
            blen == b@.len(),
            min == if alen < blen { alen } else { blen },
            0 <= i <= min,
            lex_lt(a@, b@) == lex_lt(a@.skip(i as int), b@.skip(i as int)),
        decreases min - i,
    {
        let ca = a.get_char(i);
        let cb = b.get_char(i);
        assert(a@.skip(i as int)[0] == ca && b@.skip(i as int)[0] == cb);
        if ca != cb {
            return ca < cb;
        }
        assert(a@.skip(i as int).drop_first() =~= a@.skip(i + 1));
        assert(b@.skip(i as int).drop_first() =~= b@.skip(i + 1));
        i = i + 1;
    }
    assert(a@.skip(i as int).len() == alen - i && b@.skip(i as int).len() == blen - i);
    alen < blen
}

/// Tests whether `needle` occurs in `hay` starting exactly at `at`.
pub(crate) fn occurs_at(hay: &str, needle: &str, at: usize) -> (r: bool)
    requires
        at + needle@.len() <= hay@.len(),
    ensures
        r == matches_at(hay@, needle@, at as int),
{
    let nlen: usize = needle.unicode_len();
    let hlen: usize = hay.unicode_len();
    let mut k: usize = 0;
    while k < nlen
        invariant
            nlen == needle@.len(),
            hlen == hay@.len(),
            at + nlen <= hlen,
            0 <= k <= nlen,
            forall|j: int| 0 <= j < k ==> hay@[at + j] == needle@[j],
        decreases nlen - k,
    {
        if hay.get_char(at + k) != needle.get_char(k) {
            assert(hay@.subrange(at as int, at + nlen) != needle@) by {
                assert(hay@.subrange(at as int, at + nlen)[k as int] == hay@[at + k]);
            }
            return false;
        }
        k = k + 1;
    }
    assert(hay@.subrange(at as int, at + nlen) =~= needle@);
    true
}

/// Tests whether `needle` occurs anywhere in `hay`.
pub fn str_has(hay: &str, needle: &str) -> (r: bool)
    ensures
        r == seq_has(hay@, needle@),
{
    let hlen: usize = hay.unicode_len();
    let nlen: usize = needle.unicode_len();
    if nlen > hlen {
        assert(forall|at: int| !matches_at(hay@, needle@, at));
        return false;
    }
    if nlen == 0 {
        assert(hay@.subrange(0, 0) =~= needle@);
        assert(matches_at(hay@, needle@, 0));
        return true;
    }
    let mut i: usize = 0;
    while i <= hlen - nlen
        invariant
            hlen == hay@.len(),
            nlen == needle@.len(),
            1 <= nlen <= hlen,
            0 <= i <= hlen - nlen + 1,
            forall|at: int| 0 <= at < i ==> !matches_at(hay@, needle@, at),
        decreases hlen - nlen + 1 - i,
    {
        if occurs_at(hay, needle, i) {
            assert(matches_at(hay@, needle@, i as int));
            return true;
        }
        i = i + 1;
    }
    assert(forall|at: int| !matches_at(hay@, needle@, at));
    false
}

// ---------------------------------------------------------------------------
// Whitespace trimming
// ---------------------------------------------------------------------------

/// The whitespace characters, as the Unicode White_Space property lists
/// them.
pub open spec fn is_ws(c: char) -> bool {
    ||| c == '\t'
    ||| c == '\n'
    ||| c == '\u{B}'
    ||| c == '\u{C}'
    ||| c == '\r'
    ||| c == ' '
    ||| c == '\u{85}'
    ||| c == '\u{A0}'
    ||| c == '\u{1680}'
    ||| ('\u{2000}' <= c && c <= '\u{200A}')
    ||| c == '\u{2028}'
    ||| c == '\u{2029}'
    ||| c == '\u{202F}'
    ||| c == '\u{205F}'
    ||| c == '\u{3000}'
}

/// How many whitespace characters the sequence starts with.
pub open spec fn leading_ws(s: Seq<char>) -> int
    decreases s.len(),
{
    if s.len() > 0 && is_ws(s[0]) {
        1 + leading_ws(s.drop_first())
    } else {
        0
    }
}

/// How many whitespace characters the sequence ends with.
pub open spec fn trailing_ws(s: Seq<char>) -> int
    decreases s.len(),
{
    if s.len() > 0 && is_ws(s.last()) {
        1 + trailing_ws(s.drop_last())
    } else {
        0
    }
}

/// The sequence with leading and trailing whitespace removed.
pub open spec fn spec_trim(s: Seq<char>) -> Seq<char> {
    let t = s.skip(leading_ws(s));
    t.take(t.len() - trailing_ws(t))
}

proof fn lemma_leading_ws_at(s: Seq<char>, a: int)
    requires
        0 <= a <= s.len(),
        forall|k: int| 0 <= k < a ==> is_ws(s[k]),
        a == s.len() || !is_ws(s[a]),
    ensures
        leading_ws(s) == a,
    decreases a,
{
    if a == 0 {
    } else {
        lemma_leading_ws_at(s.drop_first(), a - 1);
    }
}

proof fn lemma_trailing_ws_at(s: Seq<char>, b: int)
    requires
        0 <= b <= s.len(),
        forall|k: int| b <= k < s.len() ==> is_ws(s[k]),
        b == 0 || !is_ws(s[b - 1]),
    ensures
        trailing_ws(s) == s.len() - b,
    decreases s.len() - b,
{
    if b == s.len() {
    } else {
        lemma_trailing_ws_at(s.drop_last(), b);
    }
}

/// Decides whether a character is whitespace.
pub fn ws_char(c: char) -> (r: bool)
    ensures
        r == is_ws(c),
{
    c == '\t' || c == '\n' || c == '\u{B}' || c == '\u{C}' || c == '\r' || c == ' ' || c
        == '\u{85}' || c == '\u{A0}' || c == '\u{1680}' || ('\u{2000}' <= c && c <= '\u{200A}')
        || c == '\u{2028}' || c == '\u{2029}' || c == '\u{202F}' || c == '\u{205F}' || c
        == '\u{3000}'
}

/// Removes leading and trailing whitespace.
pub fn str_trim<'a>(s: &'a str) -> (r: &'a str)
    ensures
        r@ == spec_trim(s@),
{
    let len: usize = s.unicode_len();
    let mut a: usize = 0;
    while a < len && ws_char(s.get_char(a))
        invariant
            len == s@.len(),
            0 <= a <= len,
            forall|k: int| 0 <= k < a ==> is_ws(s@[k]),
        decreases len - a,
    {
        a = a + 1;
    }
    let mut b: usize = len;
    while b > a && ws_char(s.get_char(b - 1))
        invariant
            len == s@.len(),
            a <= b <= len,
            forall|k: int| b <= k < len ==> is_ws(s@[k]),
        decreases b,
    {
        b = b - 1;
    }
    proof {
        lemma_leading_ws_at(s@, a as int);
        if b == a {
            assert(spec_trim(s@) =~= s@.subrange(a as int, b as int)) by {
                lemma_trailing_ws_at(s@.skip(a as int), 0);
            }
        } else {
            assert(spec_trim(s@) =~= s@.subrange(a as int, b as int)) by {
                lemma_trailing_ws_at(s@.skip(a as int), b - a);
            }
        }
    }
    let r = s.substring_char(a, b);
    assert(r@ =~= s@.subrange(a as int, b as int));
    r
}

// ---------------------------------------------------------------------------
// Line extraction
// ---------------------------------------------------------------------------

/// Position of the first newline at or after `from`, or the length when
/// there is none.
pub open spec fn find_newline(s: Seq<char>, from: int) -> int
    decreases s.len() - from,
{
    if from < 0 {
        0
    } else if from >= s.len() {
        s.len() as int
    } else if s[from] == '\n' {
        from
    } else {
        find_newline(s, from + 1)
    }
}

/// Start position of the line with the given 0-based row number; one past
/// the length when there are fewer lines.
pub open spec fn line_start(s: Seq<char>, row: int) -> int
    decreases row,
{
    if row <= 0 {
        0
    } else {
        let prev = line_start(s, row - 1);
        if prev > s.len() {
            prev
        } else {
            let e = find_newline(s, prev);
            if e >= s.len() {
                s.len() as int + 1
            } else {
                e + 1
            }
        }
    }
}

/// A final carriage return removed, the way line splitting treats a CRLF
/// line ending.
pub open spec fn strip_cr(t: Seq<char>) -> Seq<char> {
    if t.len() > 0 && t.last() == '\r' {
        t.drop_last()
    } else {
        t
    }
}

/// The line with the given 0-based row number, empty when the text has
/// fewer lines.
pub open spec fn spec_line_at(s: Seq<char>, row: int) -> Seq<char> {
    let st = line_start(s, row);
    if st > s.len() {
        Seq::empty()
    } else {
        strip_cr(s.subrange(st, find_newline(s, st)))
    }
}

/// Position of the first newline at or after `from`.
fn find_nl(s: &str, from: usize) -> (r: usize)
    requires
        from <= s@.len(),
    ensures
        r == find_newline(s@, from as int),
        from <= r <= s@.len(),
{
    let len: usize = s.unicode_len();
    let mut i: usize = from;
    while i < len
        invariant
            len == s@.len(),
            from <= i <= len,
            find_newline(s@, from as int) == find_newline(s@, i as int),
        decreases len - i,
    {
        if s.get_char(i) == '\n' {
            return i;
        }
        i = i + 1;
    }
    i
}

/// The line with the given 0-based row number, trimmed of a final carriage
/// return; empty when the text has fewer lines.
pub fn str_line_at<'a>(s: &'a str, row: usize) -> (r: &'a str)
    ensures
        r@ == spec_line_at(s@, row as int),
{
    let len: usize = s.unicode_len();
    let mut st: usize = 0;
    let mut r: usize = 0;
    while r < row
        invariant
            len == s@.len(),
            0 <= st <= len,
            r <= row,
            st == line_start(s@, r as int),
        decreases row - r,
    {
        let e = find_nl(s, st);
        if e >= len {
            let empty = s.substring_char(0, 0);
            assert(line_start(s@, r + 1) > s@.len());
            proof {
                lemma_line_start_monotone(s@, r + 1, row as int);
            }
            assert(empty@ =~= spec_line_at(s@, row as int));
            return empty;
        }
        st = e + 1;
        r = r + 1;
    }
    let e = find_nl(s, st);
    if e > st && s.get_char(e - 1) == '\r' {
        let out = s.substring_char(st, e - 1);
        assert(out@ =~= spec_line_at(s@, row as int)) by {
            assert(s@.subrange(st as int, e as int).last() == '\r');
            assert(s@.subrange(st as int, e as int).drop_last() =~= s@.subrange(
                st as int,
                e - 1,
            ));
        }
        out
    } else {
        let out = s.substring_char(st, e);
        assert(out@ =~= spec_line_at(s@, row as int)) by {
            if e > st {
                assert(s@.subrange(st as int, e as int).last() == s@[e - 1]);
            }
        }
        out
    }
}

// ---------------------------------------------------------------------------
// Decimal digits
// ---------------------------------------------------------------------------

/// An ASCII decimal digit.
pub open spec fn is_digit(c: char) -> bool {
    '0' <= c && c <= '9'
}

/// Decides whether a character is an ASCII decimal digit.
pub fn digit_char(c: char) -> (r: bool)
    ensures
        r == is_digit(c),
{
    '0' <= c && c <= '9'
}

/// How many decimal digits the sequence starts with.
pub open spec fn leading_digits(s: Seq<char>) -> int
    decreases s.len(),
{
    if s.len() > 0 && is_digit(s[0]) {
        1 + leading_digits(s.drop_first())
    } else {
        0
    }
}

/// The number a sequence of decimal digits denotes.
pub open spec fn dec_value(s: Seq<char>) -> int
    decreases s.len(),
{
    if s.len() == 0 {
        0
    } else {
        dec_value(s.drop_last()) * 10 + (s.last() as int - '0' as int)
    }
}

pub proof fn lemma_leading_digits_at(s: Seq<char>, a: int)
    requires
        0 <= a <= s.len(),
        forall|k: int| 0 <= k < a ==> is_digit(s[k]),
        a == s.len() || !is_digit(s[a]),
    ensures
        leading_digits(s) == a,
    decreases a,
{
    if a > 0 {
        lemma_leading_digits_at(s.drop_first(), a - 1);
    }
}

/// The number a digit sequence denotes is nonnegative, and no shorter than
/// what any prefix of it denotes.
pub proof fn lemma_dec_value_monotone(s: Seq<char>, n: int)
    requires
        0 <= n <= s.len(),
        forall|k: int| 0 <= k < s.len() ==> is_digit(s[k]),
    ensures
        0 <= dec_value(s.take(n)) <= dec_value(s),
    decreases s.len() - n,
{
    if n == s.len() {
        assert(s.take(n) =~= s);
        lemma_dec_value_nonneg(s);
    } else {
        lemma_dec_value_monotone(s, n + 1);
        lemma_dec_value_nonneg(s.take(n));
        assert(s.take(n + 1).drop_last() =~= s.take(n));
        assert(dec_value(s.take(n)) <= dec_value(s.take(n + 1))) by (nonlinear_arith)
            requires
                dec_value(s.take(n + 1)) == dec_value(s.take(n)) * 10 + (s.take(n + 1).last()
                    as int - '0' as int),
                dec_value(s.take(n)) >= 0,
                is_digit(s.take(n + 1).last()),
        ;
    }
}

pub proof fn lemma_dec_value_nonneg(s: Seq<char>)
    requires
        forall|k: int| 0 <= k < s.len() ==> is_digit(s[k]),
    ensures
        dec_value(s) >= 0,
    decreases s.len(),
{
    if s.len() > 0 {
        lemma_dec_value_nonneg(s.drop_last());
        assert(dec_value(s) >= 0) by (nonlinear_arith)
            requires
                dec_value(s) == dec_value(s.drop_last()) * 10 + (s.last() as int - '0' as int),
                dec_value(s.drop_last()) >= 0,
                is_digit(s.last()),
        ;
    }
}

/// Position of the last occurrence of `pat` at or below `from`, or -1 when
/// there is none.
pub open spec fn last_occurrence_from(hay: Seq<char>, pat: Seq<char>, from: int) -> int
    decreases from + 1,
{
    if from < 0 {
        -1
    } else if matches_at(hay, pat, from) {
        from
    } else {
        last_occurrence_from(hay, pat, from - 1)
    }
}

/// Position of the last occurrence of `pat` in `hay`, if any.
pub fn str_last_occurrence(hay: &str, pat: &str) -> (r: Option<usize>)
    ensures
        match r {
            Some(at) => at as int == last_occurrence_from(hay@, pat@, hay@.len() - pat@.len())
                && matches_at(hay@, pat@, at as int),
            None => last_occurrence_from(hay@, pat@, hay@.len() - pat@.len()) == -1,
        },
{
    let hlen: usize = hay.unicode_len();
    let plen: usize = pat.unicode_len();
    if plen > hlen {
        assert(hay@.len() - pat@.len() < 0);
        return None;
    }
    let mut at: usize = hlen - plen;
    loop
        invariant
            hlen == hay@.len(),
            plen == pat@.len(),
            plen <= hlen,
            0 <= at <= hlen - plen,
            last_occurrence_from(hay@, pat@, hay@.len() - pat@.len()) == last_occurrence_from(
                hay@,
                pat@,
                at as int,
            ),
        decreases at,
    {
        if occurs_at(hay, pat, at) {
            return Some(at);
        }
        if at == 0 {
            assert(last_occurrence_from(hay@, pat@, 0) == last_occurrence_from(hay@, pat@, -1));
            assert(last_occurrence_from(hay@, pat@, -1) == -1);
            return None;
        }
        at = at - 1;
    }
}

/// Once past the end of the text, every later line start stays past it.
proof fn lemma_line_start_monotone(s: Seq<char>, r1: int, r2: int)
    requires
        0 <= r1 <= r2,
        line_start(s, r1) > s.len(),
    ensures
        line_start(s, r2) > s.len(),
    decreases r2 - r1,
{
    if r1 < r2 {
        lemma_line_start_monotone(s, r1 + 1, r2);
    }
}

} // verus!
