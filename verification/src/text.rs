//! Verified text utilities.
//!
//! The supervisor's rules are written over short strings: process names,
//! trigger keywords, size suffixes, message templates.  This module holds the
//! character-level operations those rules need, each specified over the
//! `Seq<char>` view of a string.
use vstd::prelude::*;

verus! {

// ---------------------------------------------------------------------------
// Substring search
// ---------------------------------------------------------------------------
/// `needle` occurs in `hay` starting at position `i`.
pub open spec fn occurs_at(hay: Seq<char>, needle: Seq<char>, i: int) -> bool {
    0 <= i && i + needle.len() <= hay.len() && hay.subrange(i, i + needle.len()) == needle
}

/// `needle` occurs somewhere in `hay`.
pub open spec fn seq_has(hay: Seq<char>, needle: Seq<char>) -> bool {
    exists|i: int| occurs_at(hay, needle, i)
}

/// `hay` begins with `needle`.
pub open spec fn seq_starts_with(hay: Seq<char>, needle: Seq<char>) -> bool {
    needle.len() <= hay.len() && hay.subrange(0, needle.len() as int) == needle
}

/// Whether the characters of `hay` and `needle` agree over the whole of
/// `needle` when `hay` is read from offset `at`.
fn matches_at(hay: &str, hay_len: usize, needle: &str, needle_len: usize, at: usize) -> (r: bool)
    requires
        hay_len == hay@.len(),
        needle_len == needle@.len(),
        at + needle_len <= hay_len,
    ensures
        r == occurs_at(hay@, needle@, at as int),
{
    let mut j: usize = 0;
    while j < needle_len
        invariant
            hay_len == hay@.len(),
            needle_len == needle@.len(),
            at + needle_len <= hay_len,
            0 <= j <= needle_len,
            forall|k: int| 0 <= k < j ==> hay@[at + k] == needle@[k],
        decreases needle_len - j,
    {
        if hay.get_char(at + j) != needle.get_char(j) {
            assert(hay@.subrange(at as int, at + needle_len)[j as int] != needle@[j as int]);
            return false;
        }
        j = j + 1;
    }
    assert(hay@.subrange(at as int, at + needle_len) =~= needle@);
    true
}

/// Substring test: does `needle` occur anywhere in `hay`?
pub fn str_has(hay: &str, needle: &str) -> (r: bool)
    ensures
        r == seq_has(hay@, needle@),
{
    let hay_len = hay.unicode_len();
    let needle_len = needle.unicode_len();
    if needle_len > hay_len {
        return false;
    }
    if needle_len == 0 {
        assert(occurs_at(hay@, needle@, 0)) by {
            assert(hay@.subrange(0, 0) =~= needle@);
        }
        return true;
    }
    let bound = hay_len - needle_len;
    let mut i: usize = 0;
    while i <= bound
        invariant
            hay_len == hay@.len(),
            needle_len == needle@.len(),
            0 < needle_len <= hay_len,
            bound == hay_len - needle_len,
            0 <= i <= bound + 1,
            forall|k: int| 0 <= k < i ==> !occurs_at(hay@, needle@, k),
        decreases bound + 1 - i,
    {
        if matches_at(hay, hay_len, needle, needle_len, i) {
            return true;
        }
        i = i + 1;
    }
    false
}

/// Prefix test.
pub fn str_starts_with(hay: &str, needle: &str) -> (r: bool)
    ensures
        r == seq_starts_with(hay@, needle@),
{
    let hay_len = hay.unicode_len();
    let needle_len = needle.unicode_len();
    if needle_len > hay_len {
        return false;
    }
    matches_at(hay, hay_len, needle, needle_len, 0)
}

/// Character-for-character string equality.
pub fn str_eq(a: &str, b: &str) -> (r: bool)
    ensures
        r == (a@ == b@),
{
    let a_len = a.unicode_len();
    let b_len = b.unicode_len();
    if a_len != b_len {
        return false;
    }
    let mut i: usize = 0;
    while i < a_len
        invariant
            a_len == a@.len(),
            b_len == b@.len(),
            a_len == b_len,
            0 <= i <= a_len,
            forall|k: int| 0 <= k < i ==> a@[k] == b@[k],
        decreases a_len - i,
    {
        if a.get_char(i) != b.get_char(i) {
            return false;
        }
        i = i + 1;
    }
    assert(a@ =~= b@);
    true
}

// ---------------------------------------------------------------------------
// Decimal digits
// ---------------------------------------------------------------------------
/// The character for one decimal digit.
pub open spec fn digit_char(d: int) -> char {
    if d == 0 {
        '0'
    } else if d == 1 {
        '1'
    } else if d == 2 {
        '2'
    } else if d == 3 {
        '3'
    } else if d == 4 {
        '4'
    } else if d == 5 {
        '5'
    } else if d == 6 {
        '6'
    } else if d == 7 {
        '7'
    } else if d == 8 {
        '8'
    } else {
        '9'
    }
}

/// The decimal rendering of a natural number, most significant digit first.
pub open spec fn dec_digits(n: int) -> Seq<char>
    decreases n,
{
    if n < 10 {
        seq![digit_char(n)]
    } else {
        dec_digits(n / 10) + seq![digit_char(n % 10)]
    }
}

fn digit_str(d: u64) -> (s: &'static str)
    requires
        d < 10,
    ensures
        s@ =~= seq![digit_char(d as int)],
{
    match d {
        0 => {
            proof {
                reveal_strlit("0");
            }
            "0"
        },
        1 => {
            proof {
                reveal_strlit("1");
            }
            "1"
        },
        2 => {
            proof {
                reveal_strlit("2");
            }
            "2"
        },
        3 => {
            proof {
                reveal_strlit("3");
            }
            "3"
        },
        4 => {
            proof {
                reveal_strlit("4");
            }
            "4"
        },
        5 => {
            proof {
                reveal_strlit("5");
            }
            "5"
        },
        6 => {
            proof {
                reveal_strlit("6");
            }
            "6"
        },
        7 => {
            proof {
                reveal_strlit("7");
            }
            "7"
        },
        8 => {
            proof {
                reveal_strlit("8");
            }
            "8"
        },
        _ => {
            proof {
                reveal_strlit("9");
            }
            "9"
        },
    }
}

/// The characters of a digit list read back to front: last digit's character
/// first.
pub open spec fn rev_digit_chars(ds: Seq<u64>) -> Seq<char>
    decreases ds.len(),
{
    if ds.len() == 0 {
        Seq::empty()
    } else {
        seq![digit_char(ds.last() as int)] + rev_digit_chars(ds.drop_last())
    }
}

proof fn lemma_rev_digit_chars_prepend(ds: Seq<u64>, x: u64)
    ensures
        rev_digit_chars(seq![x] + ds) =~= rev_digit_chars(ds) + seq![digit_char(x as int)],
    decreases ds.len(),
{
    let s = seq![x] + ds;
    assert(s.len() == 1 + ds.len());
    if ds.len() == 0 {
        assert(s.last() == x);
        assert(s.drop_last() =~= Seq::<u64>::empty());
        assert(rev_digit_chars(s.drop_last()) =~= Seq::<char>::empty());
        assert(rev_digit_chars(s) =~= seq![digit_char(x as int)]);
        assert(rev_digit_chars(ds) + seq![digit_char(x as int)] =~= seq![
            digit_char(x as int),
        ]);
    } else {
        assert(s.last() == ds.last());
        assert(s.drop_last() =~= seq![x] + ds.drop_last());
        lemma_rev_digit_chars_prepend(ds.drop_last(), x);
        assert(rev_digit_chars(s.drop_last()) =~= rev_digit_chars(ds.drop_last()) + seq![
            digit_char(x as int),
        ]);
        assert(rev_digit_chars(s) =~= seq![digit_char(ds.last() as int)] + rev_digit_chars(
            ds.drop_last(),
        ) + seq![digit_char(x as int)]);
        assert(rev_digit_chars(ds) =~= seq![digit_char(ds.last() as int)] + rev_digit_chars(
            ds.drop_last(),
        ));
    }
}

/// Render a number in decimal.
pub fn u64_to_string(n: u64) -> (r: String)
    ensures
        r@ == dec_digits(n as int),
{
    if n < 10 {
        let mut r = String::new();
        r.append(digit_str(n));
        assert(r@ =~= dec_digits(n as int));
        return r;
    }
    let mut digits: Vec<u64> = Vec::new();
    let mut cur: u64 = n;
    while cur > 0
        invariant
            cur >= 0,
            forall|k: int| 0 <= k < digits@.len() ==> 0 <= #[trigger] digits@[k] < 10,
            cur > 0 ==> dec_digits(n as int) == dec_digits(cur as int) + rev_digit_chars(
                digits@,
            ),
            cur == 0 ==> digits@.len() > 0 && dec_digits(n as int) == rev_digit_chars(digits@),
        decreases cur,
    {
        let d = cur % 10;
        let ghost old_digits = digits@;
        digits.push(d);
        proof {
            assert(digits@.last() == d);
            assert(digits@.drop_last() =~= old_digits);
            assert(rev_digit_chars(digits@) =~= seq![digit_char(d as int)] + rev_digit_chars(
                old_digits,
            ));
            if cur >= 10 {
                assert(dec_digits(cur as int) == dec_digits(cur as int / 10) + seq![
                    digit_char(cur as int % 10),
                ]);
                assert(dec_digits(n as int) =~= dec_digits(cur as int / 10) + rev_digit_chars(
                    digits@,
                ));
            } else {
                assert(dec_digits(cur as int) =~= seq![digit_char(d as int)]);
                assert(dec_digits(n as int) =~= rev_digit_chars(digits@));
            }
        }
        cur = cur / 10;
    }
    let mut r = String::new();
    let mut i: usize = digits.len();
    while i > 0
        invariant
            forall|k: int| 0 <= k < digits@.len() ==> 0 <= #[trigger] digits@[k] < 10,
            0 <= i <= digits@.len(),
            r@ == rev_digit_chars(digits@.skip(i as int)),
            dec_digits(n as int) == rev_digit_chars(digits@),
        decreases i,
    {
        i = i - 1;
        r.append(digit_str(digits[i]));
        proof {
            assert(digits@.skip(i as int) =~= seq![digits@[i as int]] + digits@.skip(
                i as int + 1,
            ));
            lemma_rev_digit_chars_prepend(digits@.skip(i as int + 1), digits@[i as int]);
        }
    }
    assert(digits@.skip(0) =~= digits@);
    r
}

// ---------------------------------------------------------------------------
// Decimal parsing
// ---------------------------------------------------------------------------
/// Whether every character of `s` is a decimal digit.
pub open spec fn all_digits(s: Seq<char>) -> bool {
    forall|i: int| 0 <= i < s.len() ==> '0' <= #[trigger] s[i] <= '9'
}

/// The value of a digit string.
pub open spec fn digits_val(s: Seq<char>) -> int
    decreases s.len(),
{
    if s.len() == 0 {
        0
    } else {
        digits_val(s.drop_last()) * 10 + (s.last() as int - '0' as int)
    }
}

/// Parse an unsigned decimal number.  Returns `None` unless the whole string
/// is one or more digits whose value fits in a `u64`.
pub fn parse_u64(s: &str) -> (r: Option<u64>)
    ensures
        r is Some <==> s@.len() > 0 && all_digits(s@) && digits_val(s@) <= u64::MAX,
        r matches Some(v) ==> v == digits_val(s@),
{
    let len = s.unicode_len();
    if len == 0 {
        return None;
    }
    let mut acc: u128 = 0;
    let mut i: usize = 0;
    while i < len
        invariant
            len == s@.len(),
            0 <= i <= len,
            all_digits(s@.subrange(0, i as int)),
            acc == digits_val(s@.subrange(0, i as int)),
            acc <= u64::MAX,
        decreases len - i,
    {
        let c = s.get_char(i);
        let u = c as u32;
        if u < 48 || u > 57 {
            assert('0' <= s@[i as int] <= '9' ==> 48 <= s@[i as int] as u32 <= 57);
            assert(!all_digits(s@));
            return None;
        }
        assert('0' <= s@[i as int] <= '9');
        let d: u128 = (u - 48) as u128;
        let next: u128 = acc * 10 + d;
        proof {
            assert(s@.subrange(0, i + 1).drop_last() =~= s@.subrange(0, i as int));
            assert(s@.subrange(0, i + 1).last() == s@[i as int]);
            assert(digit_value_matches(s@[i as int], d as int));
        }
        if next > u64::MAX as u128 {
            proof {
                if all_digits(s@) {
                    assert(s@.subrange(0, len as int) =~= s@);
                    lemma_digits_val_monotone(s@, i + 1, len as int);
                }
            }
            return None;
        }
        acc = next;
        i = i + 1;
    }
    assert(s@.subrange(0, len as int) =~= s@);
    Some(acc as u64)
}

/// Relates a digit character's code point to its numeric value.
spec fn digit_value_matches(c: char, d: int) -> bool {
    c as int - '0' as int == d
}

proof fn lemma_digits_val_nonneg(s: Seq<char>)
    requires
        all_digits(s),
    ensures
        digits_val(s) >= 0,
    decreases s.len(),
{
    if s.len() > 0 {
        assert(all_digits(s.drop_last())) by {
            assert(forall|i: int|
                0 <= i < s.len() - 1 ==> s.drop_last()[i] == #[trigger] s[i]);
        }
        lemma_digits_val_nonneg(s.drop_last());
    }
}

/// A longer digit prefix never has a smaller value.
proof fn lemma_digits_val_monotone(s: Seq<char>, a: int, b: int)
    requires
        all_digits(s),
        0 <= a <= b <= s.len(),
    ensures
        digits_val(s.subrange(0, a)) <= digits_val(s.subrange(0, b)),
    decreases b - a,
{
    if a < b {
        lemma_digits_val_monotone(s, a, b - 1);
        let p = s.subrange(0, b);
        assert(p.drop_last() =~= s.subrange(0, b - 1));
        assert(all_digits(p.drop_last())) by {
            assert(forall|i: int| 0 <= i < b - 1 ==> s.subrange(0, b - 1)[i] == #[trigger] s[i]);
        }
        lemma_digits_val_nonneg(p.drop_last());
        assert('0' <= p.last() <= '9');
        assert(p.last() as int - '0' as int >= 0);
    }
}

// ---------------------------------------------------------------------------
// Trimming
// ---------------------------------------------------------------------------
/// The characters with the Unicode White_Space property, as `str::trim`
/// and `split_whitespace` recognize them.
pub open spec fn is_trim_space(c: char) -> bool {
    let u = c as u32;
    ||| u == 0x9
    ||| u == 0xA
    ||| u == 0xB
    ||| u == 0xC
    ||| u == 0xD
    ||| u == 0x20
    ||| u == 0x85
    ||| u == 0xA0
    ||| u == 0x1680
    ||| (0x2000 <= u && u <= 0x200A)
    ||| u == 0x2028
    ||| u == 0x2029
    ||| u == 0x202F
    ||| u == 0x205F
    ||| u == 0x3000
}

/// The first index that is not leading whitespace.
pub open spec fn trim_start_idx(s: Seq<char>) -> int
    decreases s.len(),
{
    if s.len() == 0 || !is_trim_space(s.first()) {
        0
    } else {
        1 + trim_start_idx(s.drop_first())
    }
}

/// One past the last index that is not trailing whitespace.
pub open spec fn trim_end_idx(s: Seq<char>) -> int
    decreases s.len(),
{
    if s.len() == 0 || !is_trim_space(s.last()) {
        s.len() as int
    } else {
        trim_end_idx(s.drop_last())
    }
}

/// The trimmed view of a string: whitespace stripped from both ends.
pub open spec fn trimmed(s: Seq<char>) -> Seq<char> {
    if trim_start_idx(s) <= trim_end_idx(s) {
        s.subrange(trim_start_idx(s), trim_end_idx(s))
    } else {
        Seq::empty()
    }
}

/// Whether a character counts as whitespace.
pub fn char_is_space(c: char) -> (r: bool)
    ensures
        r == is_trim_space(c),
{
    let u = c as u32;
    u == 0x9 || u == 0xA || u == 0xB || u == 0xC || u == 0xD || u == 0x20 || u == 0x85
        || u == 0xA0 || u == 0x1680 || (0x2000 <= u && u <= 0x200A) || u == 0x2028 || u == 0x2029
        || u == 0x202F || u == 0x205F || u == 0x3000
}

proof fn lemma_trim_start_idx_step(s: Seq<char>, i: int)
    requires
        0 <= i < s.len(),
        forall|k: int| 0 <= k < i ==> is_trim_space(#[trigger] s[k]),
        !is_trim_space(s[i]),
    ensures
        trim_start_idx(s) == i,
    decreases s.len(),
{
    if s.len() > 0 && is_trim_space(s.first()) {
        let t = s.drop_first();
        assert(i > 0);
        assert(!is_trim_space(t[i - 1])) by {
            assert(t[i - 1] == s[i]);
        }
        assert forall|k: int| 0 <= k < i - 1 implies is_trim_space(#[trigger] t[k]) by {
            assert(t[k] == s[k + 1]);
        }
        lemma_trim_start_idx_step(t, i - 1);
    }
}

proof fn lemma_trim_start_idx_all(s: Seq<char>)
    requires
        forall|k: int| 0 <= k < s.len() ==> is_trim_space(#[trigger] s[k]),
    ensures
        trim_start_idx(s) == s.len(),
    decreases s.len(),
{
    if s.len() > 0 {
        let t = s.drop_first();
        assert(forall|k: int| 0 <= k < t.len() ==> is_trim_space(#[trigger] t[k]));
        lemma_trim_start_idx_all(t);
    }
}

proof fn lemma_trim_end_idx_step(s: Seq<char>, j: int)
    requires
        0 <= j < s.len(),
        forall|k: int| j < k < s.len() ==> is_trim_space(#[trigger] s[k]),
        !is_trim_space(s[j]),
    ensures
        trim_end_idx(s) == j + 1,
    decreases s.len(),
{
    if s.len() > 0 && is_trim_space(s.last()) {
        let t = s.drop_last();
        assert(!is_trim_space(t[j])) by {
            assert(t[j] == s[j]);
        }
        assert forall|k: int| j < k < t.len() implies is_trim_space(#[trigger] t[k]) by {
            assert(t[k] == s[k]);
        }
        lemma_trim_end_idx_step(t, j);
    }
}

/// Strip leading and trailing whitespace.
pub fn str_trim(s: &str) -> (r: &str)
    ensures
        r@ == trimmed(s@),
{
    let len = s.unicode_len();
    let mut a: usize = 0;
    while a < len && char_is_space(s.get_char(a))
        invariant
            len == s@.len(),
            0 <= a <= len,
            forall|k: int| 0 <= k < a ==> is_trim_space(#[trigger] s@[k]),
        decreases len - a,
    {
        a = a + 1;
    }
    if a == len {
        proof {
            lemma_trim_start_idx_all(s@);
        }
        let r = s.substring_char(len, len);
        assert(trim_start_idx(s@) == len);
        assert(trim_end_idx(s@) <= s@.len()) by {
            lemma_trim_end_le_len(s@);
        }
        proof {
            if trim_end_idx(s@) >= trim_start_idx(s@) {
                assert(r@ =~= trimmed(s@));
            } else {
                assert(r@ =~= trimmed(s@));
            }
        }
        return r;
    }
    proof {
        lemma_trim_start_idx_step(s@, a as int);
    }
    let mut b: usize = len;
    while b > a + 1 && char_is_space(s.get_char(b - 1))
        invariant
            len == s@.len(),
            0 <= a < b <= len,
            !is_trim_space(s@[a as int]),
            forall|k: int| b <= k < len ==> is_trim_space(#[trigger] s@[k]),
        decreases b,
    {
        b = b - 1;
    }
    if char_is_space(s.get_char(b - 1)) {
        // Only possible when b == a + 1, which contradicts s[a] not being space.
        assert(b == a + 1);
        assert(false);
    }
    proof {
        lemma_trim_end_idx_step(s@, b - 1);
    }
    let r = s.substring_char(a, b);
    assert(r@ =~= trimmed(s@));
    r
}

proof fn lemma_trim_end_le_len(s: Seq<char>)
    ensures
        0 <= trim_end_idx(s) <= s.len(),
    decreases s.len(),
{
    if s.len() > 0 && is_trim_space(s.last()) {
        lemma_trim_end_le_len(s.drop_last());
    }
}

// ---------------------------------------------------------------------------
// Line splitting
// ---------------------------------------------------------------------------
/// Index of the first newline in `s`, or `s.len()` if there is none.
pub open spec fn first_nl(s: Seq<char>) -> int
    decreases s.len(),
{
    if s.len() == 0 {
        0
    } else if s.first() == '\n' {
        0
    } else {
        1 + first_nl(s.drop_first())
    }
}

pub proof fn lemma_first_nl_bounds(s: Seq<char>)
    ensures
        0 <= first_nl(s) <= s.len(),
        first_nl(s) < s.len() ==> s[first_nl(s)] == '\n',
        forall|k: int| 0 <= k < first_nl(s) ==> s[k] != '\n',
    decreases s.len(),
{
    if s.len() > 0 && s.first() != '\n' {
        lemma_first_nl_bounds(s.drop_first());
        let t = s.drop_first();
        assert forall|k: int| 0 <= k < first_nl(s) implies s[k] != '\n' by {
            if k > 0 {
                assert(t[k - 1] != '\n');
            }
        }
    }
}

/// A line with a trailing carriage return removed.
pub open spec fn strip_cr(l: Seq<char>) -> Seq<char> {
    if l.len() > 0 && l.last() == '\r' {
        l.drop_last()
    } else {
        l
    }
}

/// The lines of a text, split at newlines, each without a trailing
/// carriage return; a trailing newline ends the last line without opening
/// a new one.
pub open spec fn lines_of(s: Seq<char>) -> Seq<Seq<char>>
    decreases s.len(),
    via lines_of_decreases
{
    if s.len() == 0 {
        Seq::empty()
    } else {
        let i = first_nl(s);
        let line = strip_cr(s.subrange(0, i));
        if i >= s.len() {
            seq![line]
        } else {
            seq![line] + lines_of(s.skip(i + 1))
        }
    }
}

#[via_fn]
proof fn lines_of_decreases(s: Seq<char>) {
    lemma_first_nl_bounds(s);
}

proof fn lemma_first_nl_at(s: Seq<char>, i: int)
    requires
        0 <= i <= s.len(),
        forall|k: int| 0 <= k < i ==> s[k] != '\n',
        i < s.len() ==> s[i] == '\n',
    ensures
        first_nl(s) == i,
    decreases s.len(),
{
    if s.len() > 0 && s.first() != '\n' {
        let t = s.drop_first();
        assert forall|k: int| 0 <= k < i - 1 implies t[k] != '\n' by {
            assert(t[k] == s[k + 1]);
        }
        assert(i > 0);
        lemma_first_nl_at(t, i - 1);
    }
}

/// Split a text into its lines.
pub fn split_lines(s: &str) -> (r: Vec<String>)
    ensures
        r@.map_values(|l: String| l@) == lines_of(s@),
{
    let len = s.unicode_len();
    let mut r: Vec<String> = Vec::new();
    let mut pos: usize = 0;
    proof {
        assert(s@.skip(0) =~= s@);
        assert(r@.map_values(|l: String| l@) =~= Seq::<Seq<char>>::empty());
    }
    while pos < len
        invariant
            len == s@.len(),
            0 <= pos <= len,
            r@.map_values(|l: String| l@) + lines_of(s@.skip(pos as int)) =~= lines_of(s@),
        decreases len - pos,
    {
        let mut nl: usize = pos;
        while nl < len && s.get_char(nl) != '\n'
            invariant
                len == s@.len(),
                pos <= nl <= len,
                forall|k: int| pos <= k < nl ==> s@[k] != '\n',
            decreases len - nl,
        {
            nl = nl + 1;
        }
        let tail_end = if nl > pos && s.get_char(nl - 1) == '\r' {
            nl - 1
        } else {
            nl
        };
        let line = s.substring_char(pos, tail_end);
        let ghost before = r@;
        r.push(String::from_str(line));
        proof {
            let tail = s@.skip(pos as int);
            assert forall|k: int| 0 <= k < nl - pos implies tail[k] != '\n' by {
                assert(tail[k] == s@[pos + k]);
            }
            if nl < len {
                assert(tail[nl - pos] == s@[nl as int]);
            }
            lemma_first_nl_at(tail, nl - pos);
            assert(tail.subrange(0, nl - pos) =~= s@.subrange(pos as int, nl as int));
            assert(strip_cr(s@.subrange(pos as int, nl as int)) =~= s@.subrange(
                pos as int,
                tail_end as int,
            ));
            assert(line@ =~= strip_cr(tail.subrange(0, first_nl(tail))));
            if nl < len {
                assert(tail.skip(nl - pos + 1) =~= s@.skip(nl + 1));
                assert(lines_of(tail) =~= seq![line@] + lines_of(s@.skip(nl + 1)));
            } else {
                assert(lines_of(tail) =~= seq![line@]);
            }
            assert(r@.map_values(|l: String| l@) =~= before.map_values(|l: String| l@) + seq![
                line@,
            ]);
            if nl < len {
            } else {
                assert(lines_of(s@.skip(len as int)) =~= Seq::<Seq<char>>::empty());
            }
        }
        pos = if nl < len {
            nl + 1
        } else {
            len
        };
    }
    proof {
        assert(lines_of(s@.skip(len as int)) =~= Seq::<Seq<char>>::empty());
    }
    r
}

// ---------------------------------------------------------------------------
// Replacement
// ---------------------------------------------------------------------------
/// `s` with every occurrence of `from` replaced by `to`, leftmost first,
/// without overlap.  An empty `from` leaves the text unchanged.
pub open spec fn replace_all(s: Seq<char>, from: Seq<char>, to: Seq<char>) -> Seq<char>
    decreases s.len(),
{
    if from.len() == 0 || s.len() < from.len() {
        s
    } else if seq_starts_with(s, from) {
        to + replace_all(s.skip(from.len() as int), from, to)
    } else {
        seq![s[0]] + replace_all(s.drop_first(), from, to)
    }
}

proof fn lemma_replace_nomatch_region(s: Seq<char>, from: Seq<char>, to: Seq<char>, i: int, j: int)
    requires
        from.len() > 0,
        0 <= i <= j <= s.len(),
        forall|k: int| i <= k < j ==> !occurs_at(s, from, k),
    ensures
        replace_all(s.skip(i), from, to) == s.subrange(i, j) + replace_all(s.skip(j), from, to),
    decreases j - i,
{
    if i == j {
        assert(s.subrange(i, j) =~= Seq::<char>::empty());
        assert(s.subrange(i, j) + replace_all(s.skip(j), from, to) =~= replace_all(
            s.skip(j),
            from,
            to,
        ));
    } else {
        let t = s.skip(i);
        assert(!occurs_at(s, from, i));
        if t.len() >= from.len() {
            assert(!seq_starts_with(t, from)) by {
                if seq_starts_with(t, from) {
                    assert(s.subrange(i, i + from.len()) =~= t.subrange(0, from.len() as int));
                    assert(occurs_at(s, from, i));
                }
            }
            assert(replace_all(t, from, to) == seq![t[0]] + replace_all(t.drop_first(), from, to));
        } else {
            // Too little text remains for any further match; both sides are
            // the raw tail.
            assert(j == s.len() || j - i < from.len());
            assert forall|k: int| i <= k < s.len() implies !occurs_at(s, from, k) by {
                if k < j {
                } else {
                    assert(k + from.len() > s.len());
                }
            }
            lemma_replace_tail_short(s, from, to, i);
            lemma_replace_tail_short(s, from, to, j);
            assert(s.subrange(i, j) + s.skip(j) =~= s.skip(i));
            return;
        }
        assert(t.drop_first() =~= s.skip(i + 1));
        assert(t[0] == s[i]);
        lemma_replace_nomatch_region(s, from, to, i + 1, j);
        assert(seq![s[i]] + (s.subrange(i + 1, j) + replace_all(s.skip(j), from, to)) =~= s.subrange(
            i,
            j,
        ) + replace_all(s.skip(j), from, to));
    }
}

proof fn lemma_replace_tail_short(s: Seq<char>, from: Seq<char>, to: Seq<char>, i: int)
    requires
        from.len() > 0,
        0 <= i <= s.len(),
        forall|k: int| i <= k < s.len() ==> !occurs_at(s, from, k),
    ensures
        replace_all(s.skip(i), from, to) == s.skip(i),
    decreases s.len() - i,
{
    let t = s.skip(i);
    if t.len() >= from.len() {
        assert(!seq_starts_with(t, from)) by {
            if seq_starts_with(t, from) {
                assert(s.subrange(i, i + from.len()) =~= t.subrange(0, from.len() as int));
                assert(occurs_at(s, from, i));
            }
        }
        assert(t.drop_first() =~= s.skip(i + 1));
        lemma_replace_tail_short(s, from, to, i + 1);
        assert(seq![t[0]] + s.skip(i + 1) =~= t);
    }
}

/// Replace every occurrence of `from` in `s` by `to`, leftmost first.
pub fn str_replace(s: &str, from: &str, to: &str) -> (r: String)
    ensures
        r@ == replace_all(s@, from@, to@),
{
    let s_len = s.unicode_len();
    let from_len = from.unicode_len();
    if from_len == 0 || from_len > s_len {
        return String::from_str(s);
    }
    let mut r = String::new();
    let mut i: usize = 0;
    proof {
        assert(s@.skip(0) =~= s@);
        assert(r@ + replace_all(s@, from@, to@) =~= replace_all(s@, from@, to@));
    }
    while i < s_len
        invariant
            s_len == s@.len(),
            from_len == from@.len(),
            0 < from_len <= s_len,
            0 <= i <= s_len,
            r@ + replace_all(s@.skip(i as int), from@, to@) =~= replace_all(s@, from@, to@),
        decreases s_len - i,
    {
        // Find the next occurrence at or after i.
        let mut j: usize = i;
        let mut found = false;
        while j <= s_len - from_len && !found
            invariant
                s_len == s@.len(),
                from_len == from@.len(),
                0 < from_len <= s_len,
                i <= j,
                j <= s_len,
                !found ==> forall|k: int| i <= k < j ==> !occurs_at(s@, from@, k),
                found ==> j + from_len <= s_len && occurs_at(s@, from@, j as int) && forall|
                    k: int,
                |
                    i <= k < j ==> !occurs_at(s@, from@, k),
            decreases s_len - j + (if found {
                0int
            } else {
                1int
            }),
        {
            if matches_at(s, s_len, from, from_len, j) {
                found = true;
            } else {
                j = j + 1;
            }
        }
        if found {
            let chunk = s.substring_char(i, j);
            r = r.concat(chunk).concat(to);
            proof {
                lemma_replace_nomatch_region(s@, from@, to@, i as int, j as int);
                let tail = s@.skip(j as int);
                assert(seq_starts_with(tail, from@)) by {
                    assert(tail.subrange(0, from@.len() as int) =~= s@.subrange(
                        j as int,
                        j + from@.len(),
                    ));
                }
                assert(tail.skip(from@.len() as int) =~= s@.skip(j + from_len));
                assert(replace_all(tail, from@, to@) == to@ + replace_all(
                    s@.skip(j + from_len),
                    from@,
                    to@,
                ));
            }
            i = j + from_len;
        } else {
            proof {
                assert forall|k: int| i <= k < s@.len() implies !occurs_at(s@, from@, k) by {
                    if k + from@.len() <= s@.len() {
                        assert(k < j);
                    }
                }
                lemma_replace_tail_short(s@, from@, to@, i as int);
            }
            let chunk = s.substring_char(i, s_len);
            r = r.concat(chunk);
            proof {
                assert(chunk@ =~= s@.skip(i as int));
            }
            i = s_len;
        }
    }
    proof {
        assert(replace_all(s@.skip(s_len as int), from@, to@) =~= Seq::<char>::empty());
        assert(r@ =~= replace_all(s@, from@, to@));
    }
    r
}

// ---------------------------------------------------------------------------
// Ordering
// ---------------------------------------------------------------------------
/// Lexicographic order on character sequences, by code point, shorter
/// prefixes first.
pub open spec fn lex_lt(a: Seq<char>, b: Seq<char>) -> bool
    decreases a.len(),
{
    if b.len() == 0 {
        false
    } else if a.len() == 0 {
        true
    } else if a.first() != b.first() {
        (a.first() as u32) < (b.first() as u32)
    } else {
        lex_lt(a.drop_first(), b.drop_first())
    }
}

/// The order is asymmetric: two sequences never precede each other.
pub proof fn lemma_lex_lt_asym(a: Seq<char>, b: Seq<char>)
    requires
        lex_lt(a, b),
    ensures
        !lex_lt(b, a),
    decreases a.len(),
{
    if b.len() > 0 && a.len() > 0 && a.first() == b.first() {
        lemma_lex_lt_asym(a.drop_first(), b.drop_first());
    }
}

/// Compare two strings lexicographically.
pub fn str_lt(a: &str, b: &str) -> (r: bool)
    ensures
        r == lex_lt(a@, b@),
{
    let a_len = a.unicode_len();
    let b_len = b.unicode_len();
    let mut i: usize = 0;
    proof {
        assert(a@.skip(0) =~= a@);
        assert(b@.skip(0) =~= b@);
    }
    while i < a_len && i < b_len
        invariant
            a_len == a@.len(),
            b_len == b@.len(),
            0 <= i <= a_len,
            0 <= i <= b_len,
            lex_lt(a@, b@) == lex_lt(a@.skip(i as int), b@.skip(i as int)),
        decreases a_len - i,
    {
        let ca = a.get_char(i);
        let cb = b.get_char(i);
        if ca != cb {
            return (ca as u32) < (cb as u32);
        }
        proof {
            assert(a@.skip(i as int).drop_first() =~= a@.skip(i + 1));
            assert(b@.skip(i as int).drop_first() =~= b@.skip(i + 1));
        }
        i = i + 1;
    }
    proof {
        if i >= a_len {
            assert(a@.skip(i as int) =~= Seq::<char>::empty());
        } else {
            assert(b@.skip(i as int) =~= Seq::<char>::empty());
        }
    }
    a_len < b_len
}

} // verus!
