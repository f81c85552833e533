//! Character-level text operations shared by the whole crate: decimal
//! rendering, Unicode whitespace trimming, substring search and replacement,
//! and bounded prefixes.  Everything here works on `Seq<char>` views.
use vstd::prelude::*;
use vstd::utf8::{encode_scalar, encode_utf8};

verus! {

// ---------------------------------------------------------------------------
// Building strings
// ---------------------------------------------------------------------------

/// Appends one character to a string (`String::push`).
#[verifier::external_body]
pub(crate) fn push_char(s: &mut String, c: char)
    ensures
        final(s)@ == old(s)@.push(c),
{
    s.push(c);
}

/// The characters of a string slice, in order.
pub fn char_vec(s: &str) -> (v: Vec<char>)
    ensures
        v@ == s@,
{
    let mut v: Vec<char> = Vec::new();
    for c in it: s.chars()
        invariant
            v@ == it.seq().take(it.index() as int),
    {
        v.push(c);
    }
    v
}

/// Appends a run of characters to a string.
pub fn push_chars(s: &mut String, cs: &[char])
    ensures
        final(s)@ == old(s)@ + cs@,
{
    let n = cs.len();
    for i in 0..n
        invariant
            n == cs@.len(),
            s@ == old(s)@ + cs@.take(i as int),
    {
        push_char(s, cs[i]);
        assert(cs@.take(i + 1) =~= cs@.take(i as int).push(cs@[i as int]));
    }
    assert(cs@.take(n as int) =~= cs@);
}

/// A string holding exactly the given characters.
pub fn string_of(cs: &[char]) -> (s: String)
    ensures
        s@ == cs@,
{
    let mut s = String::new();
    push_chars(&mut s, cs);
    s
}

// ---------------------------------------------------------------------------
// Decimal rendering (as `{}` prints integers)
// ---------------------------------------------------------------------------

/// The ASCII digit for `d` (0..=9).
pub open spec fn digit_char(d: nat) -> char {
    (d + 48) as char
}

/// Decimal digits of a natural number, most significant first, no padding.
pub open spec fn dec_nat(n: nat) -> Seq<char>
    decreases n,
{
    if n < 10 {
        seq![digit_char(n)]
    } else {
        dec_nat(n / 10).push(digit_char(n % 10))
    }
}

/// Decimal rendering of an integer, with a leading `-` when negative.
pub open spec fn dec(n: int) -> Seq<char> {
    if n < 0 {
        seq!['-'] + dec_nat((-n) as nat)
    } else {
        dec_nat(n as nat)
    }
}

fn push_dec_nat(s: &mut String, m: u128)
    ensures
        final(s)@ == old(s)@ + dec_nat(m as nat),
    decreases m,
{
    if m >= 10 {
        push_dec_nat(s, m / 10);
    }
    let d: u8 = (m % 10) as u8;
    let c = (d + 48u8) as char;
    assert(c == digit_char((m % 10) as nat));
    push_char(s, c);
}

/// Appends the decimal rendering of `n`.
pub fn push_int(s: &mut String, n: i128)
    ensures
        final(s)@ == old(s)@ + dec(n as int),
{
    if n < 0 {
        push_char(s, '-');
        let m: u128 = ((-(n + 1)) as u128) + 1;
        push_dec_nat(s, m);
        assert(s@ =~= old(s)@ + dec(n as int));
    } else {
        push_dec_nat(s, n as u128);
    }
}

/// The decimal rendering of `n` as a new string.
pub fn int_text(n: i128) -> (s: String)
    ensures
        s@ == dec(n as int),
{
    let mut s = String::new();
    push_int(&mut s, n);
    assert(s@ =~= dec(n as int));
    s
}

// ---------------------------------------------------------------------------
// Unicode whitespace (`char::is_whitespace`, the White_Space property)
// ---------------------------------------------------------------------------

/// Unicode `White_Space`: the characters that `char::is_whitespace` accepts.
pub open spec fn is_ws(c: char) -> bool {
    ||| ('\t' <= c && c <= '\r')
    ||| c == ' '
    ||| c == '\u{85}'
    ||| c == '\u{A0}'
    ||| c == '\u{1680}'
    ||| ('\u{2000}' <= c && c <= '\u{200A}')
    ||| c == '\u{2028}'
    ||| c == '\u{2029}'
    ||| c == '\u{202F}'
    ||| c == '\u{205F}'
    ||| c == '\u{3000}'
}

pub fn is_ws_exec(c: char) -> (b: bool)
    ensures
        b == is_ws(c),
{
    ('\t' <= c && c <= '\r') || c == ' ' || c == '\u{85}' || c == '\u{A0}' || c == '\u{1680}'
        || ('\u{2000}' <= c && c <= '\u{200A}') || c == '\u{2028}' || c == '\u{2029}' || c
        == '\u{202F}' || c == '\u{205F}' || c == '\u{3000}'
}

/// Leading whitespace removed (`str::trim_start`).
pub open spec fn trim_start(s: Seq<char>) -> Seq<char>
    decreases s.len(),
{
    if s.len() > 0 && is_ws(s[0]) {
        trim_start(s.drop_first())
    } else {
        s
    }
}

/// Trailing whitespace removed (`str::trim_end`).
pub open spec fn trim_end(s: Seq<char>) -> Seq<char>
    decreases s.len(),
{
    if s.len() > 0 && is_ws(s.last()) {
        trim_end(s.drop_last())
    } else {
        s
    }
}

/// Whitespace removed at both ends (`str::trim`).
pub open spec fn trim(s: Seq<char>) -> Seq<char> {
    trim_end(trim_start(s))
}

/// Characters `s[lo..hi]` with surrounding whitespace removed.
pub fn trim_range(s: &[char], lo: usize, hi: usize) -> (r: (usize, usize))
    requires
        lo <= hi <= s@.len(),
    ensures
        lo <= r.0 <= r.1 <= hi,
        s@.subrange(r.0 as int, r.1 as int) == trim(s@.subrange(lo as int, hi as int)),
{
    let mut i = lo;
    while i < hi && is_ws_exec(s[i])
        invariant
            lo <= i <= hi <= s@.len(),
            trim_start(s@.subrange(lo as int, hi as int)) == trim_start(
                s@.subrange(i as int, hi as int),
            ),
        decreases hi - i,
    {
        assert(s@.subrange(i as int, hi as int).drop_first() =~= s@.subrange(
            i + 1,
            hi as int,
        ));
        i = i + 1;
    }
    let mut j = hi;
    while j > i && is_ws_exec(s[j - 1])
        invariant
            lo <= i <= j <= hi <= s@.len(),
            trim_start(s@.subrange(lo as int, hi as int)) == s@.subrange(i as int, hi as int),
            trim(s@.subrange(lo as int, hi as int)) == trim_end(s@.subrange(i as int, j as int)),
        decreases j - i,
    {
        assert(s@.subrange(i as int, j as int).drop_last() =~= s@.subrange(
            i as int,
            j - 1,
        ));
        j = j - 1;
    }
    (i, j)
}

/// `str::trim`, as an owned string.
pub fn trimmed(s: &str) -> (r: String)
    ensures
        r@ == trim(s@),
{
    let cs = char_vec(s);
    let (i, j) = trim_range(&cs, 0, cs.len());
    assert(cs@.subrange(0, cs@.len() as int) =~= cs@);
    string_of(&cs.as_slice()[i..j])
}

// ---------------------------------------------------------------------------
// Prefixes, comparison and search
// ---------------------------------------------------------------------------

/// The first `n` characters (all of them when there are fewer).
pub open spec fn prefix(s: Seq<char>, n: nat) -> Seq<char> {
    if s.len() <= n {
        s
    } else {
        s.take(n as int)
    }
}

/// `s.chars().take(n).collect::<String>()`.
pub fn take_chars(s: &str, n: usize) -> (r: String)
    ensures
        r@ == prefix(s@, n as nat),
{
    let cs = char_vec(s);
    if cs.len() <= n {
        string_of(&cs)
    } else {
        string_of(&cs.as_slice()[0..n])
    }
}

/// `a == b` on character sequences.
pub fn chars_eq(a: &[char], b: &[char]) -> (r: bool)
    ensures
        r == (a@ == b@),
{
    if a.len() != b.len() {
        return false;
    }
    let n = a.len();
    for i in 0..n
        invariant
            n == a@.len() == b@.len(),
            forall|k: int| 0 <= k < i ==> a@[k] == b@[k],
    {
        if a[i] != b[i] {
            return false;
        }
    }
    assert(a@ =~= b@);
    true
}

/// String equality (`&str == &str`).
pub fn str_eq(a: &str, b: &str) -> (r: bool)
    ensures
        r == (a@ == b@),
{
    let x = char_vec(a);
    let y = char_vec(b);
    chars_eq(&x, &y)
}

/// `needle` occurs in `s` starting at position `i`.
pub open spec fn occurs_at(s: Seq<char>, needle: Seq<char>, i: int) -> bool {
    0 <= i && i + needle.len() <= s.len() && s.subrange(i, i + needle.len()) == needle
}

/// `str::contains` with a string pattern.
pub open spec fn contains_seq(s: Seq<char>, needle: Seq<char>) -> bool {
    exists|i: int| occurs_at(s, needle, i)
}

/// Whether `needle` occurs in `s` at position `i`.
pub fn matches_at(s: &[char], needle: &[char], i: usize) -> (r: bool)
    ensures
        r == occurs_at(s@, needle@, i as int),
{
    if i > s.len() || needle.len() > s.len() - i {
        return false;
    }
    let n = needle.len();
    for k in 0..n
        invariant
            n == needle@.len(),
            k <= n,
            i + n <= s.len(),
            forall|t: int| 0 <= t < k ==> s@[i + t] == needle@[t],
    {
        assert(i + k < s@.len());
        if s[i + k] != needle[k] {
            assert(s@.subrange(i as int, i + n)[k as int] != needle@[k as int]);
            return false;
        }
    }
    assert(s@.subrange(i as int, i + n) =~= needle@);
    true
}

/// `s.contains(needle)`.
pub fn contains_chars(s: &[char], needle: &[char]) -> (r: bool)
    ensures
        r == contains_seq(s@, needle@),
{
    if needle.len() > s.len() {
        return false;
    }
    let last = s.len() - needle.len();
    let mut i: usize = 0;
    loop
        invariant
            last + needle@.len() == s@.len(),
            i <= last,
            forall|t: int| 0 <= t < i ==> !occurs_at(s@, needle@, t),
        ensures
            forall|t: int| 0 <= t <= last ==> !occurs_at(s@, needle@, t),
        decreases last - i,
    {
        if matches_at(s, needle, i) {
            return true;
        }
        if i == last {
            break;
        }
        i = i + 1;
    }
    assert forall|t: int| !occurs_at(s@, needle@, t) by {
        if 0 <= t && t + needle@.len() <= s@.len() {
            assert(t <= last);
        }
    }
    false
}

/// `s.contains(needle)` for string slices.
pub fn str_contains(s: &str, needle: &str) -> (r: bool)
    ensures
        r == contains_seq(s@, needle@),
{
    let x = char_vec(s);
    let y = char_vec(needle);
    contains_chars(&x, &y)
}

/// `s.starts_with(p)`.
pub open spec fn starts_with(s: Seq<char>, p: Seq<char>) -> bool {
    p.len() <= s.len() && s.take(p.len() as int) == p
}

pub fn str_starts_with(s: &str, p: &str) -> (r: bool)
    ensures
        r == starts_with(s@, p@),
{
    let x = char_vec(s);
    let y = char_vec(p);
    let r = matches_at(&x, &y, 0);
    assert(x@.subrange(0, y@.len() as int) =~= x@.take(y@.len() as int));
    r
}

// ---------------------------------------------------------------------------
// Replacement (`str::replace`)
// ---------------------------------------------------------------------------

/// Left-to-right replacement of every non-overlapping occurrence of a
/// non-empty `pat` by `rep`, as `str::replace` does.
pub open spec fn replace_all(s: Seq<char>, pat: Seq<char>, rep: Seq<char>) -> Seq<char>
    recommends
        pat.len() > 0,
    decreases s.len(),
{
    if pat.len() == 0 || s.len() == 0 {
        s
    } else if occurs_at(s, pat, 0) {
        rep + replace_all(s.skip(pat.len() as int), pat, rep)
    } else {
        seq![s[0]] + replace_all(s.drop_first(), pat, rep)
    }
}

/// Replaces every occurrence of the non-empty `pat` in `s` by `rep`.
pub fn replace_chars(s: &[char], pat: &[char], rep: &[char]) -> (r: Vec<char>)
    requires
        pat@.len() > 0,
    ensures
        r@ == replace_all(s@, pat@, rep@),
{
    let mut out: Vec<char> = Vec::new();
    let mut i: usize = 0;
    let n = s.len();
    assert(s@.skip(0) =~= s@);
    assert(out@ + replace_all(s@, pat@, rep@) =~= replace_all(s@, pat@, rep@));
    while i < n
        invariant
            n == s@.len(),
            i <= n,
            pat@.len() > 0,
            out@ + replace_all(s@.skip(i as int), pat@, rep@) == replace_all(s@, pat@, rep@),
        decreases n - i,
    {
        let ghost rest = s@.skip(i as int);
        if matches_at(s, pat, i) {
            assert(occurs_at(rest, pat@, 0)) by {
                assert(rest.subrange(0, pat@.len() as int) =~= s@.subrange(
                    i as int,
                    i + pat@.len(),
                ));
            }
            assert(rest.skip(pat@.len() as int) =~= s@.skip(i + pat@.len()));
            let ghost before = out@;
            let mut k: usize = 0;
            while k < rep.len()
                invariant
                    k <= rep@.len(),
                    out@ == before + rep@.take(k as int),
                decreases rep@.len() - k,
            {
                out.push(rep[k]);
                assert(rep@.take(k + 1) =~= rep@.take(k as int).push(rep@[k as int]));
                k = k + 1;
            }
            assert(rep@.take(rep@.len() as int) =~= rep@);
            assert(out@ + replace_all(s@.skip(i + pat@.len()), pat@, rep@) =~= before + (rep@
                + replace_all(rest.skip(pat@.len() as int), pat@, rep@)));
            i = i + pat.len();
        } else {
            assert(!occurs_at(rest, pat@, 0)) by {
                if occurs_at(rest, pat@, 0) {
                    assert(rest.subrange(0, pat@.len() as int) =~= s@.subrange(
                        i as int,
                        i + pat@.len(),
                    ));
                }
            }
            assert(rest.drop_first() =~= s@.skip(i + 1));
            let ghost before = out@;
            out.push(s[i]);
            assert(out@ + replace_all(s@.skip(i + 1), pat@, rep@) =~= before + (seq![rest[0]]
                + replace_all(rest.drop_first(), pat@, rep@)));
            i = i + 1;
        }
    }
    assert(s@.skip(n as int) =~= Seq::<char>::empty());
    assert(out@ + replace_all(s@.skip(n as int), pat@, rep@) =~= out@);
    out
}

/// `s.replace(pat, rep)` for a non-empty pattern.
pub fn str_replace(s: &str, pat: &str, rep: &str) -> (r: String)
    requires
        pat@.len() > 0,
    ensures
        r@ == replace_all(s@, pat@, rep@),
{
    let x = char_vec(s);
    let p = char_vec(pat);
    let q = char_vec(rep);
    let out = replace_chars(&x, &p, &q);
    string_of(&out)
}

} // verus!

verus! {

// ---------------------------------------------------------------------------
// Integer parsing (`str::parse` for integer types)
// ---------------------------------------------------------------------------

/// Whether `c` is an ASCII decimal digit.
pub open spec fn is_digit(c: char) -> bool {
    '0' <= c && c <= '9'
}

/// The value of a non-empty all-digit sequence, or `None`.
pub open spec fn digits_value(s: Seq<char>) -> Option<nat>
    decreases s.len(),
{
    if s.len() == 0 || !is_digit(s.last()) {
        None
    } else if s.len() == 1 {
        Some((s.last() as nat - 48) as nat)
    } else {
        match digits_value(s.drop_last()) {
            Some(v) => Some(v * 10 + (s.last() as nat - 48) as nat),
            None => None,
        }
    }
}

proof fn lemma_digits_value_grows(s: Seq<char>)
    requires
        s.len() > 1,
        digits_value(s) is Some,
    ensures
        digits_value(s.drop_last()) is Some,
        digits_value(s.drop_last())->0 <= digits_value(s)->0,
{
}

/// Unsigned parse as `u*::from_str` does it: an optional `+`, then one or
/// more ASCII digits, and a value of at most `max`.
pub open spec fn parse_unsigned(s: Seq<char>, max: nat) -> Option<nat> {
    let body = if s.len() > 0 && s[0] == '+' {
        s.drop_first()
    } else {
        s
    };
    match digits_value(body) {
        Some(v) => if v <= max {
            Some(v)
        } else {
            None
        },
        None => None,
    }
}

/// Signed parse as `i*::from_str` does it: an optional `+` or `-`, then one or
/// more ASCII digits, and a value within `[min, max]`.
pub open spec fn parse_signed(s: Seq<char>, min: int, max: int) -> Option<int> {
    if s.len() > 0 && s[0] == '-' {
        match digits_value(s.drop_first()) {
            Some(v) => if -v >= min {
                Some(-v)
            } else {
                None
            },
            None => None,
        }
    } else {
        match parse_unsigned(s, max as nat) {
            Some(v) => if max >= 0 {
                Some(v as int)
            } else {
                None
            },
            None => None,
        }
    }
}

/// Value of the digits `s[lo..hi]` when they are all digits, non-empty and at
/// most `max`.
fn digits_upto(s: &[char], lo: usize, hi: usize, max: u128) -> (r: Option<u128>)
    requires
        lo <= hi <= s@.len(),
        max <= 0x1_0000_0000_0000_0000u128,
    ensures
        r == (match digits_value(s@.subrange(lo as int, hi as int)) {
            Some(v) => if v <= max {
                Some(v as u128)
            } else {
                None
            },
            None => None,
        }),
{
    if lo == hi {
        return None;
    }
    let mut acc: u128 = 0;
    let mut big = false;
    let mut i = lo;
    while i < hi
        invariant
            lo <= i <= hi <= s@.len(),
            i == lo ==> acc == 0 && !big,
            i > lo ==> (digits_value(s@.subrange(lo as int, i as int)) is Some),
            i > lo && !big ==> acc as nat == digits_value(s@.subrange(lo as int, i as int))->0
                && acc <= max,
            i > lo && big ==> digits_value(s@.subrange(lo as int, i as int))->0 > max,
            max <= 0x1_0000_0000_0000_0000u128,
        decreases hi - i,
    {
        let c = s[i];
        if !('0' <= c && c <= '9') {
            assert(!is_digit(s@.subrange(lo as int, i + 1).last()));
            assert forall|j: int| i + 1 <= j <= hi implies !(digits_value(
                s@.subrange(lo as int, j),
            ) is Some) by {
                lemma_digits_none_extends(s@, lo as int, i + 1, j);
            }
            return None;
        }
        let d: u128 = ((c as u32) - 48) as u128;
        let ghost p = s@.subrange(lo as int, i + 1);
        assert(p.drop_last() =~= s@.subrange(lo as int, i as int));
        if i > lo {
            proof {
                lemma_digits_value_grows(p);
            }
        }
        if !big {
            assert(acc * 10 + d <= 0xA_0000_0000_0000_0009u128) by (nonlinear_arith)
                requires
                    acc <= 0x1_0000_0000_0000_0000u128,
                    d <= 9,
            {
            }
            let next = acc * 10 + d;
            if next > max {
                big = true;
            } else {
                acc = next;
            }
        }
        i = i + 1;
    }
    if big {
        None
    } else {
        Some(acc)
    }
}

proof fn lemma_digits_none_extends(s: Seq<char>, lo: int, i: int, j: int)
    requires
        0 <= lo < i <= j <= s.len(),
        !(digits_value(s.subrange(lo, i)) is Some),
    ensures
        !(digits_value(s.subrange(lo, j)) is Some),
    decreases j - i,
{
    if j > i {
        lemma_digits_none_extends(s, lo, i, j - 1);
        assert(s.subrange(lo, j).drop_last() =~= s.subrange(lo, j - 1));
    }
}

/// `u64::from_str` / `u8::from_str` on `s[lo..hi]`, bounded by `max`.
pub fn parse_unsigned_range(s: &[char], lo: usize, hi: usize, max: u64) -> (r: Option<u64>)
    requires
        lo <= hi <= s@.len(),
    ensures
        r == (match parse_unsigned(s@.subrange(lo as int, hi as int), max as nat) {
            Some(v) => Some(v as u64),
            None => None,
        }),
{
    let ghost t = s@.subrange(lo as int, hi as int);
    let start = if lo < hi && s[lo] == '+' {
        lo + 1
    } else {
        lo
    };
    assert(start > lo ==> t.drop_first() =~= s@.subrange(start as int, hi as int));
    assert(start == lo ==> t =~= s@.subrange(start as int, hi as int));
    match digits_upto(s, start, hi, max as u128) {
        Some(v) => Some(v as u64),
        None => None,
    }
}

/// `i64::from_str` on `s[lo..hi]`.
pub fn parse_i64_range(s: &[char], lo: usize, hi: usize) -> (r: Option<i64>)
    requires
        lo <= hi <= s@.len(),
    ensures
        r == (match parse_signed(s@.subrange(lo as int, hi as int), i64::MIN as int, i64::MAX as int) {
            Some(v) => Some(v as i64),
            None => None,
        }),
{
    let ghost t = s@.subrange(lo as int, hi as int);
    if lo < hi && s[lo] == '-' {
        assert(t.drop_first() =~= s@.subrange(lo + 1, hi as int));
        match digits_upto(s, lo + 1, hi, 0x8000_0000_0000_0000u128) {
            Some(v) => {
                if v == 0x8000_0000_0000_0000u128 {
                    Some(i64::MIN)
                } else {
                    Some(-(v as i64))
                }
            },
            None => None,
        }
    } else {
        match parse_unsigned_range(s, lo, hi, i64::MAX as u64) {
            Some(v) => Some(v as i64),
            None => None,
        }
    }
}

// ---------------------------------------------------------------------------
// ASCII case
// ---------------------------------------------------------------------------

/// `char::to_ascii_lowercase`.
pub open spec fn ascii_lower(c: char) -> char {
    if 'A' <= c && c <= 'Z' {
        ((c as u32) + 32) as char
    } else {
        c
    }
}

pub fn ascii_lower_exec(c: char) -> (r: char)
    ensures
        r == ascii_lower(c),
{
    if 'A' <= c && c <= 'Z' {
        (((c as u32) + 32) as u8) as char
    } else {
        c
    }
}

/// `str::to_ascii_lowercase`.
pub open spec fn lower_ascii(s: Seq<char>) -> Seq<char> {
    s.map_values(|c: char| ascii_lower(c))
}

/// `str::eq_ignore_ascii_case`.
pub open spec fn eq_ignore_ascii_case(a: Seq<char>, b: Seq<char>) -> bool {
    lower_ascii(a) == lower_ascii(b)
}

pub fn lower_ascii_chars(s: &[char]) -> (r: Vec<char>)
    ensures
        r@ == lower_ascii(s@),
{
    let mut out: Vec<char> = Vec::new();
    let n = s.len();
    for i in 0..n
        invariant
            n == s@.len(),
            out@ == lower_ascii(s@.take(i as int)),
    {
        out.push(ascii_lower_exec(s[i]));
        assert(lower_ascii(s@.take(i + 1)) =~= lower_ascii(s@.take(i as int)).push(
            ascii_lower(s@[i as int]),
        ));
    }
    assert(s@.take(n as int) =~= s@);
    out
}

pub fn str_eq_ignore_ascii_case(a: &str, b: &str) -> (r: bool)
    ensures
        r == eq_ignore_ascii_case(a@, b@),
{
    let x = lower_ascii_chars(&char_vec(a));
    let y = lower_ascii_chars(&char_vec(b));
    chars_eq(&x, &y)
}

// ---------------------------------------------------------------------------
// Character search
// ---------------------------------------------------------------------------

/// Number of occurrences of `c` in `s`.
pub open spec fn count_char(s: Seq<char>, c: char) -> nat
    decreases s.len(),
{
    if s.len() == 0 {
        0
    } else {
        count_char(s.drop_last(), c) + if s.last() == c {
            1nat
        } else {
            0nat
        }
    }
}

/// Index of the first `c` in `s` (the length when absent).
pub open spec fn first_index(s: Seq<char>, c: char) -> int
    decreases s.len(),
{
    if s.len() == 0 {
        0
    } else if s[0] == c {
        0
    } else {
        1 + first_index(s.drop_first(), c)
    }
}

pub proof fn lemma_first_index(s: Seq<char>, c: char, i: int)
    requires
        0 <= i <= s.len(),
        forall|k: int| 0 <= k < i ==> s[k] != c,
        i == s.len() || s[i] == c,
    ensures
        first_index(s, c) == i,
    decreases s.len(),
{
    if s.len() > 0 && s[0] != c {
        assert forall|k: int| 0 <= k < i - 1 implies s.drop_first()[k] != c by {
            assert(s[k + 1] != c);
        }
        lemma_first_index(s.drop_first(), c, i - 1);
    }
}

pub fn first_index_exec(s: &[char], lo: usize, hi: usize, c: char) -> (r: usize)
    requires
        lo <= hi <= s@.len(),
    ensures
        lo <= r <= hi,
        r - lo == first_index(s@.subrange(lo as int, hi as int), c),
{
    let mut i = lo;
    while i < hi && s[i] != c
        invariant
            lo <= i <= hi <= s@.len(),
            forall|k: int| lo <= k < i ==> s@[k] != c,
        decreases hi - i,
    {
        i = i + 1;
    }
    proof {
        let t = s@.subrange(lo as int, hi as int);
        assert forall|k: int| 0 <= k < i - lo implies t[k] != c by {
            assert(s@[lo + k] != c);
        }
        lemma_first_index(t, c, i - lo);
    }
    i
}

pub proof fn lemma_first_index_props(s: Seq<char>, c: char)
    ensures
        0 <= first_index(s, c) <= s.len(),
        forall|k: int| 0 <= k < first_index(s, c) ==> s[k] != c,
        first_index(s, c) < s.len() ==> s[first_index(s, c)] == c,
    decreases s.len(),
{
    if s.len() > 0 && s[0] != c {
        lemma_first_index_props(s.drop_first(), c);
        assert forall|k: int| 0 <= k < first_index(s, c) implies s[k] != c by {
            if k > 0 {
                assert(s[k] == s.drop_first()[k - 1]);
            }
        }
    }
}

} // verus!

verus! {

/// The characters of an optional string slice.
pub open spec fn opt_str_view(o: Option<&str>) -> Option<Seq<char>> {
    match o {
        Some(s) => Some(s@),
        None => None,
    }
}

/// The characters of an optional string.
pub open spec fn opt_string_view(o: Option<String>) -> Option<Seq<char>> {
    match o {
        Some(s) => Some(s@),
        None => None,
    }
}

} // verus!

verus! {

// ---------------------------------------------------------------------------
// Lexicographic order (`Ord` for `String`/`str`: by code point, which is the
// UTF-8 byte order)
// ---------------------------------------------------------------------------

/// `a < b` in lexicographic order.
pub open spec fn lex_lt(a: Seq<char>, b: Seq<char>) -> bool
    decreases a.len(),
{
    if a.len() == 0 {
        b.len() > 0
    } else if b.len() == 0 {
        false
    } else if a[0] != b[0] {
        (a[0] as int) < (b[0] as int)
    } else {
        lex_lt(a.drop_first(), b.drop_first())
    }
}

pub proof fn lemma_lex_irrefl(a: Seq<char>)
    ensures
        !lex_lt(a, a),
    decreases a.len(),
{
    if a.len() > 0 {
        lemma_lex_irrefl(a.drop_first());
    }
}

pub proof fn lemma_lex_asym(a: Seq<char>, b: Seq<char>)
    ensures
        lex_lt(a, b) ==> !lex_lt(b, a),
    decreases a.len(),
{
    if a.len() > 0 && b.len() > 0 && a[0] == b[0] {
        lemma_lex_asym(a.drop_first(), b.drop_first());
    }
}

pub proof fn lemma_lex_trans(a: Seq<char>, b: Seq<char>, c: Seq<char>)
    requires
        lex_lt(a, b),
        lex_lt(b, c),
    ensures
        lex_lt(a, c),
    decreases a.len(),
{
    if a.len() > 0 && b.len() > 0 && c.len() > 0 && a[0] == b[0] && b[0] == c[0] {
        lemma_lex_trans(a.drop_first(), b.drop_first(), c.drop_first());
    }
}

pub proof fn lemma_lex_total(a: Seq<char>, b: Seq<char>)
    requires
        a != b,
    ensures
        lex_lt(a, b) || lex_lt(b, a),
    decreases a.len(),
{
    if a.len() > 0 && b.len() > 0 && a[0] == b[0] {
        if a.drop_first() == b.drop_first() {
            assert(a =~= seq![a[0]] + a.drop_first());
            assert(b =~= seq![b[0]] + b.drop_first());
        }
        lemma_lex_total(a.drop_first(), b.drop_first());
    } else if a.len() == 0 && b.len() == 0 {
        assert(a =~= b);
    } else if a.len() > 0 && b.len() > 0 {
        assert((a[0] as int) != (b[0] as int));
    }
}

/// Lexicographic `a < b` on character slices.
pub fn lex_less(a: &[char], b: &[char]) -> (r: bool)
    ensures
        r == lex_lt(a@, b@),
{
    let mut i: usize = 0;
    proof {
        assert(a@.skip(0) =~= a@);
        assert(b@.skip(0) =~= b@);
    }
    while i < a.len() && i < b.len() && a[i] == b[i]
        invariant
            i <= a@.len(),
            i <= b@.len(),
            lex_lt(a@, b@) == lex_lt(a@.skip(i as int), b@.skip(i as int)),
        decreases a@.len() - i,
    {
        assert(a@.skip(i as int).drop_first() =~= a@.skip(i + 1));
        assert(b@.skip(i as int).drop_first() =~= b@.skip(i + 1));
        i = i + 1;
    }
    if i == a.len() {
        i < b.len()
    } else if i == b.len() {
        false
    } else {
        assert(a@.skip(i as int)[0] == a@[i as int]);
        assert(b@.skip(i as int)[0] == b@[i as int]);
        a[i] < b[i]
    }
}

// ---------------------------------------------------------------------------
// Decimal renderings are distinct for distinct numbers
// ---------------------------------------------------------------------------

pub proof fn lemma_dec_nat_shape(n: nat)
    ensures
        dec_nat(n).len() >= 1,
        is_digit(dec_nat(n)[0]),
        n >= 10 ==> dec_nat(n).len() >= 2,
    decreases n,
{
    if n >= 10 {
        lemma_dec_nat_shape(n / 10);
    }
}

pub proof fn lemma_dec_nat_inj(n: nat, m: nat)
    requires
        dec_nat(n) == dec_nat(m),
    ensures
        n == m,
    decreases n,
{
    lemma_dec_nat_shape(n);
    lemma_dec_nat_shape(m);
    if n >= 10 && m >= 10 {
        let a = dec_nat(n);
        assert(a.drop_last() == dec_nat(n / 10));
        assert(dec_nat(m).drop_last() == dec_nat(m / 10));
        assert(dec_nat(m) == dec_nat(m / 10).push(digit_char(m % 10)));
        assert(a.last() == digit_char(n % 10));
        assert(digit_char(n % 10) == digit_char(m % 10));
        assert(((n % 10) + 48) as char as int == (n % 10) + 48);
        assert(((m % 10) + 48) as char as int == (m % 10) + 48);
        lemma_dec_nat_inj(n / 10, m / 10);
    } else if n < 10 && m < 10 {
        assert(digit_char(n) == dec_nat(n)[0]);
        assert(digit_char(m) == dec_nat(m)[0]);
        assert((n + 48) as char as int == n + 48);
        assert((m + 48) as char as int == m + 48);
    }
}

pub proof fn lemma_dec_inj(a: int, b: int)
    requires
        dec(a) == dec(b),
    ensures
        a == b,
{
    if a < 0 && b < 0 {
        assert(dec_nat((-a) as nat) =~= dec(a).drop_first());
        assert(dec_nat((-b) as nat) =~= dec(b).drop_first());
        lemma_dec_nat_inj((-a) as nat, (-b) as nat);
    } else if a >= 0 && b >= 0 {
        lemma_dec_nat_inj(a as nat, b as nat);
    } else if a < 0 {
        lemma_dec_nat_shape(b as nat);
        assert(dec(a)[0] == '-');
    } else {
        lemma_dec_nat_shape(a as nat);
        assert(dec(b)[0] == '-');
    }
}

} // verus!

verus! {

// ---------------------------------------------------------------------------
// UTF-8 byte length and byte-bounded truncation
// ---------------------------------------------------------------------------

/// The number of bytes `c` takes in UTF-8.
pub open spec fn utf8_width(c: char) -> nat {
    if (c as int) < 0x80 {
        1
    } else if (c as int) < 0x800 {
        2
    } else if (c as int) < 0x10000 {
        3
    } else {
        4
    }
}

pub proof fn lemma_encode_scalar_len(c: char)
    ensures
        encode_utf8(seq![c]).len() == utf8_width(c),
{
    vstd::utf8::char_is_scalar(c);
    let u = c as u32;
    assert(u as int == c as int);
    assert(seq![c].drop_first() =~= Seq::<char>::empty());
    assert(encode_utf8(Seq::<char>::empty()) =~= Seq::<u8>::empty());
    assert(encode_utf8(seq![c]) == encode_scalar(u) + encode_utf8(seq![c].drop_first()));
}

pub proof fn lemma_encode_utf8_append(a: Seq<char>, b: Seq<char>)
    ensures
        encode_utf8(a + b) == encode_utf8(a) + encode_utf8(b),
    decreases a.len(),
{
    if a.len() == 0 {
        assert(a + b =~= b);
        assert(encode_utf8(a) =~= Seq::<u8>::empty());
        assert(encode_utf8(a) + encode_utf8(b) =~= encode_utf8(b));
    } else {
        lemma_encode_utf8_append(a.drop_first(), b);
        assert((a + b).drop_first() =~= a.drop_first() + b);
        assert((a + b)[0] == a[0]);
        assert(encode_utf8(a + b) =~= encode_utf8(a) + encode_utf8(b));
    }
}

/// The longest prefix of `s` whose UTF-8 encoding fits in `max` bytes (what
/// truncating at the last char boundary at or below `max` keeps).
pub open spec fn truncate_bytes(s: Seq<char>, max: nat) -> Seq<char>
    decreases s.len(),
{
    if s.len() == 0 || encode_utf8(s).len() <= max {
        s
    } else {
        truncate_bytes(s.drop_last(), max)
    }
}

proof fn lemma_truncate_prefix(s: Seq<char>, max: nat, i: int, j: int)
    requires
        0 <= i < j <= s.len(),
        encode_utf8(s.take(i)).len() <= max,
        forall|k: int| i < k <= s.len() ==> encode_utf8(#[trigger] s.take(k)).len() > max,
    ensures
        truncate_bytes(s.take(j), max) == s.take(i),
    decreases j - i,
{
    assert(s.take(j).drop_last() =~= s.take(j - 1));
    assert(encode_utf8(s.take(j)).len() > max);
    assert(truncate_bytes(s.take(j), max) == truncate_bytes(s.take(j - 1), max));
    if j - 1 > i {
        lemma_truncate_prefix(s, max, i, j - 1);
    } else {
        assert(truncate_bytes(s.take(i), max) == s.take(i));
    }
}

/// The UTF-8 width of one character.
pub fn utf8_width_exec(c: char) -> (w: usize)
    ensures
        w == utf8_width(c),
{
    let u = c as u32;
    if u < 0x80 {
        1
    } else if u < 0x800 {
        2
    } else if u < 0x10000 {
        3
    } else {
        4
    }
}

/// Cuts `value` to at most `max_bytes` UTF-8 bytes on a character boundary.
pub fn truncate(value: String, max_bytes: usize) -> (r: String)
    ensures
        r@ == truncate_bytes(value@, max_bytes as nat),
{
    let cs = char_vec(value.as_str());
    let n = cs.len();
    let mut i: usize = 0;
    let mut total: usize = 0;
    proof {
        assert(cs@.take(0) =~= Seq::<char>::empty());
    }
    while i < n && utf8_width_exec(cs[i]) <= max_bytes - total
        invariant
            n == cs@.len(),
            i <= n,
            total <= max_bytes,
            total == encode_utf8(cs@.take(i as int)).len(),
        decreases n - i,
    {
        proof {
            assert(cs@.take(i + 1) =~= cs@.take(i as int) + seq![cs@[i as int]]);
            lemma_encode_utf8_append(cs@.take(i as int), seq![cs@[i as int]]);
            lemma_encode_scalar_len(cs@[i as int]);
        }
        total = total + utf8_width_exec(cs[i]);
        i = i + 1;
    }
    proof {
        if i < n {
            assert forall|k: int| i < k <= cs@.len() implies encode_utf8(
                #[trigger] cs@.take(k),
            ).len() > max_bytes by {
                assert(cs@.take(k) =~= cs@.take(i + 1) + cs@.subrange(i + 1, k));
                lemma_encode_utf8_append(cs@.take(i + 1), cs@.subrange(i + 1, k));
                assert(cs@.take(i + 1) =~= cs@.take(i as int) + seq![cs@[i as int]]);
                lemma_encode_utf8_append(cs@.take(i as int), seq![cs@[i as int]]);
                lemma_encode_scalar_len(cs@[i as int]);
            }
            lemma_truncate_prefix(cs@, max_bytes as nat, i as int, n as int);
            assert(cs@.take(n as int) =~= cs@);
        } else {
            assert(cs@.take(n as int) =~= cs@);
        }
    }
    string_of(&cs.as_slice()[0..i])
}

} // verus!

verus! {

/// Whether the UTF-8 encoding of `s` is longer than `max` bytes.
pub fn exceeds_bytes(s: &str, max: usize) -> (r: bool)
    ensures
        r == (encode_utf8(s@).len() > max),
{
    let cs = char_vec(s);
    let n = cs.len();
    let mut total: usize = 0;
    proof {
        assert(cs@.take(0) =~= Seq::<char>::empty());
    }
    for i in 0..n
        invariant
            n == cs@.len(),
            cs@ == s@,
            total <= max,
            total == encode_utf8(cs@.take(i as int)).len(),
    {
        proof {
            assert(cs@.take(i + 1) =~= cs@.take(i as int) + seq![cs@[i as int]]);
            lemma_encode_utf8_append(cs@.take(i as int), seq![cs@[i as int]]);
            lemma_encode_scalar_len(cs@[i as int]);
        }
        let w = utf8_width_exec(cs[i]);
        if w > max - total {
            proof {
                assert(cs@ =~= cs@.take(i + 1) + cs@.skip(i + 1));
                lemma_encode_utf8_append(cs@.take(i + 1), cs@.skip(i + 1));
            }
            return true;
        }
        total = total + w;
    }
    assert(cs@.take(n as int) =~= cs@);
    false
}

} // verus!

verus! {

// ---------------------------------------------------------------------------
// Joining (`[String]::join`)
// ---------------------------------------------------------------------------

/// The parts, in order, with `sep` between consecutive ones.
pub open spec fn join(parts: Seq<Seq<char>>, sep: Seq<char>) -> Seq<char>
    decreases parts.len(),
{
    if parts.len() == 0 {
        Seq::empty()
    } else if parts.len() == 1 {
        parts[0]
    } else {
        join(parts.drop_last(), sep) + sep + parts.last()
    }
}

/// `parts.join(sep)`.
pub fn join_strings(parts: &Vec<String>, sep: &str) -> (r: String)
    ensures
        r@ == join(parts@.map_values(|p: String| p@), sep@),
{
    let ghost views = parts@.map_values(|p: String| p@);
    let mut out = String::new();
    let n = parts.len();
    let mut i: usize = 0;
    while i < n
        invariant
            n == parts@.len(),
            views == parts@.map_values(|p: String| p@),
            i <= n,
            out@ == join(views.take(i as int), sep@),
        decreases n - i,
    {
        assert(views.take(i + 1).drop_last() =~= views.take(i as int));
        if i > 0 {
            out.append(sep);
        }
        out.append(parts[i].as_str());
        proof {
            if i == 0 {
                assert(out@ =~= join(views.take(1), sep@));
            } else {
                assert(out@ =~= join(views.take(i + 1), sep@));
            }
        }
        i = i + 1;
    }
    assert(views.take(n as int) =~= views);
    out
}

} // verus!
