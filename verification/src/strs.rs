//! Character-level text helpers shared by the parsers of the library.
//!
//! All helpers work on `Seq<char>` models: `&str` and `String` are seen
//! through their views.
use vstd::prelude::*;

verus! {

/// Unicode `White_Space` property, which is what `char::is_whitespace` tests.
pub open spec fn is_ws(c: char) -> bool {
    ||| ('\u{9}' <= c && c <= '\u{d}')
    ||| c == ' '
    ||| c == '\u{85}'
    ||| c == '\u{a0}'
    ||| c == '\u{1680}'
    ||| ('\u{2000}' <= c && c <= '\u{200a}')
    ||| c == '\u{2028}'
    ||| c == '\u{2029}'
    ||| c == '\u{202f}'
    ||| c == '\u{205f}'
    ||| c == '\u{3000}'
}

/// Drops leading whitespace (`str::trim_start`).
pub open spec fn trim_start(s: Seq<char>) -> Seq<char>
    decreases s.len(),
{
    if s.len() > 0 && is_ws(s[0]) {
        trim_start(s.drop_first())
    } else {
        s
    }
}

/// Drops trailing whitespace (`str::trim_end`).
pub open spec fn trim_end(s: Seq<char>) -> Seq<char>
    decreases s.len(),
{
    if s.len() > 0 && is_ws(s.last()) {
        trim_end(s.drop_last())
    } else {
        s
    }
}

/// `str::trim`.
pub open spec fn trim(s: Seq<char>) -> Seq<char> {
    trim_end(trim_start(s))
}

/// Drops every trailing occurrence of `c` (`str::trim_end_matches` with a char).
pub open spec fn trim_end_char(s: Seq<char>, c: char) -> Seq<char>
    decreases s.len(),
{
    if s.len() > 0 && s.last() == c {
        trim_end_char(s.drop_last(), c)
    } else {
        s
    }
}

/// Drops every leading occurrence of `c` (`str::trim_start_matches` with a char).
pub open spec fn trim_start_char(s: Seq<char>, c: char) -> Seq<char>
    decreases s.len(),
{
    if s.len() > 0 && s[0] == c {
        trim_start_char(s.drop_first(), c)
    } else {
        s
    }
}

/// Replaces every occurrence of the character `from` by the text `to`.
pub open spec fn replace_char(s: Seq<char>, from: char, to: Seq<char>) -> Seq<char>
    decreases s.len(),
{
    if s.len() == 0 {
        s
    } else {
        let rest = replace_char(s.drop_first(), from, to);
        if s[0] == from {
            to + rest
        } else {
            seq![s[0]] + rest
        }
    }
}

/// Replaces every non-overlapping occurrence of the non-empty text `pat`,
/// scanning from the left, by `to` (`str::replace`).
pub open spec fn replace_all(s: Seq<char>, pat: Seq<char>, to: Seq<char>) -> Seq<char>
    recommends
        pat.len() > 0,
    decreases s.len(),
{
    if s.len() == 0 || pat.len() == 0 {
        s
    } else if pat.len() <= s.len() && s.subrange(0, pat.len() as int) == pat {
        to + replace_all(s.subrange(pat.len() as int, s.len() as int), pat, to)
    } else {
        seq![s[0]] + replace_all(s.drop_first(), pat, to)
    }
}

/// True when `s` begins with `p`.
pub open spec fn starts_with(s: Seq<char>, p: Seq<char>) -> bool {
    p.len() <= s.len() && s.subrange(0, p.len() as int) == p
}

/// True when `s` ends with `p`.
pub open spec fn ends_with(s: Seq<char>, p: Seq<char>) -> bool {
    p.len() <= s.len() && s.subrange(s.len() - p.len(), s.len() as int) == p
}

/// The value of a decimal digit.
pub open spec fn digit_value(c: char) -> int {
    (c as int) - ('0' as int)
}

pub open spec fn is_digit(c: char) -> bool {
    '0' <= c && c <= '9'
}

/// Why `str::parse` refused a text as an unsigned integer (the kinds of
/// `std::num::IntErrorKind` that unsigned types can give).
#[derive(Clone, Copy, Debug, PartialEq, Eq)]
pub enum IntFailure {
    /// The text is empty.
    Empty,
    /// A character that is not a decimal digit.
    InvalidDigit,
    /// The number is larger than the type's largest value.
    PosOverflow,
}

/// Reads the decimal digits of `d` from the left onto `acc`, failing at the
/// first character that is not a digit or at the first step that goes over
/// `max`.
pub open spec fn scan_digits(d: Seq<char>, acc: int, max: int) -> Result<int, IntFailure>
    decreases d.len(),
{
    if d.len() == 0 {
        Ok(acc)
    } else if !is_digit(d[0]) {
        Err(IntFailure::InvalidDigit)
    } else if acc * 10 + digit_value(d[0]) > max {
        Err(IntFailure::PosOverflow)
    } else {
        scan_digits(d.drop_first(), acc * 10 + digit_value(d[0]), max)
    }
}

/// What `str::parse` gives for an unsigned integer type whose largest value
/// is `max`: an optional `+`, then one or more decimal digits.
pub open spec fn parse_uint(s: Seq<char>, max: int) -> Result<int, IntFailure> {
    if s.len() == 0 {
        Err(IntFailure::Empty)
    } else if s[0] == '+' && s.len() == 1 {
        Err(IntFailure::InvalidDigit)
    } else if s[0] == '+' {
        scan_digits(s.drop_first(), 0, max)
    } else {
        scan_digits(s, 0, max)
    }
}

/// Position of the first occurrence of `c` in `s`, if any.
pub open spec fn find_char(s: Seq<char>, c: char) -> Option<int>
    decreases s.len(),
{
    if s.len() == 0 {
        None
    } else if s[0] == c {
        Some(0)
    } else {
        match find_char(s.drop_first(), c) {
            Some(i) => Some(i + 1),
            None => None,
        }
    }
}

/// `str::splitn(n, c)`: at most `n` pieces, the last one holding the rest.
pub open spec fn splitn_char(s: Seq<char>, n: nat, c: char) -> Seq<Seq<char>>
    decreases n,
{
    if n == 0 {
        seq![]
    } else if n == 1 {
        seq![s]
    } else {
        match find_char(s, c) {
            None => seq![s],
            Some(i) => seq![s.subrange(0, i)] + splitn_char(
                s.subrange(i + 1, s.len() as int),
                (n - 1) as nat,
                c,
            ),
        }
    }
}

/// `str::split(c)`: every piece between occurrences of `c`.
pub open spec fn split_char(s: Seq<char>, c: char) -> Seq<Seq<char>>
    decreases s.len(),
{
    match find_char(s, c) {
        None => seq![s],
        Some(i) => {
            proof {
                lemma_find_char(s, c);
            }
            seq![s.subrange(0, i)] + split_char(s.subrange(i + 1, s.len() as int), c)
        },
    }
}

pub proof fn lemma_find_char(s: Seq<char>, c: char)
    ensures
        match find_char(s, c) {
            Some(i) => 0 <= i < s.len() && s[i] == c && forall|j: int|
                0 <= j < i ==> s[j] != c,
            None => forall|j: int| 0 <= j < s.len() ==> s[j] != c,
        },
    decreases s.len(),
{
    if s.len() > 0 {
        lemma_find_char(s.drop_first(), c);
        if s[0] != c {
            match find_char(s.drop_first(), c) {
                Some(i) => {
                    assert forall|j: int| 0 <= j < i + 1 implies s[j] != c by {
                        if j > 0 {
                            assert(s[j] == s.drop_first()[j - 1]);
                        }
                    }
                },
                None => {
                    assert forall|j: int| 0 <= j < s.len() implies s[j] != c by {
                        if j > 0 {
                            assert(s[j] == s.drop_first()[j - 1]);
                        }
                    }
                },
            }
        }
    }
}

pub proof fn lemma_find_char_at(s: Seq<char>, c: char, i: int)
    requires
        0 <= i < s.len(),
        s[i] == c,
        forall|j: int| 0 <= j < i ==> s[j] != c,
    ensures
        find_char(s, c) == Some(i),
{
    lemma_find_char(s, c);
}

pub proof fn lemma_find_char_none(s: Seq<char>, c: char)
    requires
        forall|j: int| 0 <= j < s.len() ==> s[j] != c,
    ensures
        find_char(s, c) is None,
{
    lemma_find_char(s, c);
}


/// `char::is_whitespace`.
pub fn is_whitespace(c: char) -> (r: bool)
    ensures
        r == is_ws(c),
{
    ('\u{9}' <= c && c <= '\u{d}') || c == ' ' || c == '\u{85}' || c == '\u{a0}' || c
        == '\u{1680}' || ('\u{2000}' <= c && c <= '\u{200a}') || c == '\u{2028}' || c
        == '\u{2029}' || c == '\u{202f}' || c == '\u{205f}' || c == '\u{3000}'
}

pub proof fn lemma_trim_start_skip(s: Seq<char>, k: int)
    requires
        0 <= k <= s.len(),
        forall|j: int| 0 <= j < k ==> is_ws(#[trigger] s[j]),
    ensures
        trim_start(s) == trim_start(s.subrange(k, s.len() as int)),
    decreases k,
{
    if k > 0 {
        assert(s.drop_first() == s.subrange(1, s.len() as int));
        let t = s.drop_first();
        assert forall|j: int| 0 <= j < k - 1 implies is_ws(#[trigger] t[j]) by {
            assert(t[j] == s[j + 1]);
        }
        lemma_trim_start_skip(t, k - 1);
        assert(t.subrange(k - 1, t.len() as int) == s.subrange(k, s.len() as int));
    } else {
        assert(s.subrange(0, s.len() as int) == s);
    }
}

pub proof fn lemma_trim_end_skip(s: Seq<char>, k: int)
    requires
        0 <= k <= s.len(),
        forall|j: int| k <= j < s.len() ==> is_ws(#[trigger] s[j]),
    ensures
        trim_end(s) == trim_end(s.subrange(0, k)),
    decreases s.len() - k,
{
    if k < s.len() {
        let t = s.drop_last();
        assert forall|j: int| k <= j < t.len() implies is_ws(#[trigger] t[j]) by {
            assert(t[j] == s[j]);
        }
        assert(is_ws(s[s.len() - 1]));
        lemma_trim_end_skip(t, k);
        assert(t.subrange(0, k) == s.subrange(0, k));
    } else {
        assert(s.subrange(0, k) == s);
    }
}

pub proof fn lemma_trim_end_char_skip(s: Seq<char>, c: char, k: int)
    requires
        0 <= k <= s.len(),
        forall|j: int| k <= j < s.len() ==> #[trigger] s[j] == c,
    ensures
        trim_end_char(s, c) == trim_end_char(s.subrange(0, k), c),
    decreases s.len() - k,
{
    if k < s.len() {
        let t = s.drop_last();
        assert forall|j: int| k <= j < t.len() implies #[trigger] t[j] == c by {
            assert(t[j] == s[j]);
        }
        assert(s[s.len() - 1] == c);
        lemma_trim_end_char_skip(t, c, k);
        assert(t.subrange(0, k) == s.subrange(0, k));
    } else {
        assert(s.subrange(0, k) == s);
    }
}

/// Bounds `[lo, hi)` such that `v[lo..hi]` is `v[from..to]` without leading
/// and trailing whitespace.
pub fn trim_range(v: &Vec<char>, from: usize, to: usize) -> (r: (usize, usize))
    requires
        from <= to <= v.len(),
    ensures
        from <= r.0 <= r.1 <= to,
        v@.subrange(r.0 as int, r.1 as int) == trim(v@.subrange(from as int, to as int)),
{
    let ghost s = v@.subrange(from as int, to as int);
    let mut lo = from;
    while lo < to && is_whitespace(v[lo])
        invariant
            from <= lo <= to <= v.len(),
            s == v@.subrange(from as int, to as int),
            forall|j: int| from <= j < lo ==> is_ws(#[trigger] v@[j]),
        decreases to - lo,
    {
        lo += 1;
    }
    proof {
        assert forall|j: int| 0 <= j < lo - from implies is_ws(#[trigger] s[j]) by {
            assert(s[j] == v@[from + j]);
        }
        lemma_trim_start_skip(s, lo - from);
        let t = s.subrange(lo - from, s.len() as int);
        assert(t == v@.subrange(lo as int, to as int));
        if t.len() > 0 {
            assert(t[0] == v@[lo as int]);
        }
        assert(trim_start(t) == t);
    }
    let mut hi = to;
    while hi > lo && is_whitespace(v[hi - 1])
        invariant
            from <= lo <= hi <= to <= v.len(),
            forall|j: int| hi <= j < to ==> is_ws(#[trigger] v@[j]),
        decreases hi - lo,
    {
        hi -= 1;
    }
    proof {
        let t = v@.subrange(lo as int, to as int);
        assert forall|j: int| hi - lo <= j < t.len() implies is_ws(#[trigger] t[j]) by {
            assert(t[j] == v@[lo + j]);
        }
        lemma_trim_end_skip(t, hi - lo);
        let u = t.subrange(0, hi - lo);
        assert(u == v@.subrange(lo as int, hi as int));
        if u.len() > 0 {
            assert(u.last() == v@[hi - 1]);
        }
        assert(trim_end(u) == u);
    }
    (lo, hi)
}

/// Bounds such that `v[lo..r]` is `v[lo..hi]` without trailing copies of `c`.
pub fn trim_end_char_range(v: &Vec<char>, lo: usize, hi: usize, c: char) -> (r: usize)
    requires
        lo <= hi <= v.len(),
    ensures
        lo <= r <= hi,
        v@.subrange(lo as int, r as int) == trim_end_char(v@.subrange(lo as int, hi as int), c),
{
    let mut k = hi;
    while k > lo && v[k - 1] == c
        invariant
            lo <= k <= hi <= v.len(),
            forall|j: int| k <= j < hi ==> #[trigger] v@[j] == c,
        decreases k - lo,
    {
        k -= 1;
    }
    proof {
        let t = v@.subrange(lo as int, hi as int);
        assert forall|j: int| k - lo <= j < t.len() implies #[trigger] t[j] == c by {
            assert(t[j] == v@[lo + j]);
        }
        lemma_trim_end_char_skip(t, c, k - lo);
        let u = t.subrange(0, k - lo);
        assert(u == v@.subrange(lo as int, k as int));
        if u.len() > 0 {
            assert(u.last() == v@[k - 1]);
        }
    }
    k
}

/// Bounds such that `v[lo..r]` is `v[lo..hi]` without trailing whitespace.
pub fn trim_end_range(v: &Vec<char>, lo: usize, hi: usize) -> (r: usize)
    requires
        lo <= hi <= v.len(),
    ensures
        lo <= r <= hi,
        v@.subrange(lo as int, r as int) == trim_end(v@.subrange(lo as int, hi as int)),
{
    let mut k = hi;
    while k > lo && is_whitespace(v[k - 1])
        invariant
            lo <= k <= hi <= v.len(),
            forall|j: int| k <= j < hi ==> is_ws(#[trigger] v@[j]),
        decreases k - lo,
    {
        k -= 1;
    }
    proof {
        let t = v@.subrange(lo as int, hi as int);
        assert forall|j: int| k - lo <= j < t.len() implies is_ws(#[trigger] t[j]) by {
            assert(t[j] == v@[lo + j]);
        }
        lemma_trim_end_skip(t, k - lo);
        let u = t.subrange(0, k - lo);
        assert(u == v@.subrange(lo as int, k as int));
        if u.len() > 0 {
            assert(u.last() == v@[k - 1]);
        }
    }
    k
}

/// `str::trim` of a text, as a new text.
pub fn trim_string(s: &str) -> (r: String)
    ensures
        r@ == trim(s@),
{
    let v = chars_of(s);
    let (lo, hi) = trim_range(&v, 0, v.len());
    assert(v@.subrange(0, v@.len() as int) == v@);
    string_from(&v, lo, hi)
}

/// Parses `v[from..to]` as an unsigned decimal number no larger than `max`,
/// as `str::parse` does for the unsigned integer types.
pub fn parse_uint_range(v: &Vec<char>, from: usize, to: usize, max: u64) -> (r: Result<u64, IntFailure>)
    requires
        from <= to <= v.len(),
    ensures
        match parse_uint(v@.subrange(from as int, to as int), max as int) {
            Ok(n) => r == Ok::<u64, IntFailure>(n as u64),
            Err(e) => r == Err::<u64, IntFailure>(e),
        },
{
    let ghost s = v@.subrange(from as int, to as int);
    if from == to {
        return Err(IntFailure::Empty);
    }
    let mut i = from;
    if v[i] == '+' {
        if to - from == 1 {
            return Err(IntFailure::InvalidDigit);
        }
        i += 1;
    }
    let ghost d = v@.subrange(i as int, to as int);
    proof {
        if s[0] == '+' {
            assert(d == s.drop_first());
        } else {
            assert(d == s);
        }
    }
    let mut value: u64 = 0;
    while i < to
        invariant
            from <= i <= to <= v.len(),
            value <= max,
            s == v@.subrange(from as int, to as int),
            parse_uint(s, max as int) == scan_digits(d, 0, max as int),
            scan_digits(d, 0, max as int) == scan_digits(
                v@.subrange(i as int, to as int),
                value as int,
                max as int,
            ),
        decreases to - i,
    {
        let ghost rest = v@.subrange(i as int, to as int);
        assert(rest[0] == v@[i as int]);
        assert(rest.drop_first() == v@.subrange(i + 1, to as int));
        let c = v[i];
        if !('0' <= c && c <= '9') {
            return Err(IntFailure::InvalidDigit);
        }
        let dv: u64 = (c as u32 - 48u32) as u64;
        assert(dv == digit_value(c));
        if dv > max || value > (max - dv) / 10 {
            proof {
                if dv <= max {
                    assert(value * 10 + dv > max) by (nonlinear_arith)
                        requires
                            value > (max - dv) / 10,
                            dv <= max,
                    ;
                }
            }
            return Err(IntFailure::PosOverflow);
        }
        assert(value * 10 + dv <= max) by (nonlinear_arith)
            requires
                value <= (max - dv) / 10,
                dv <= max,
        ;
        value = value * 10 + dv;
        i += 1;
    }
    assert(v@.subrange(to as int, to as int).len() == 0);
    Ok(value)
}

/// `String::push`.
#[verifier::external_body]
pub(crate) fn push_char(s: &mut String, c: char)
    ensures
        final(s)@ == old(s)@.push(c),
{
    s.push(c)
}

/// The characters of a text.
pub fn chars_of(s: &str) -> (v: Vec<char>)
    ensures
        v@ == s@,
{
    let mut v: Vec<char> = Vec::new();
    for c in it: s.chars()
        invariant
            v@ == it.seq().take(it.index() as int),
            it.seq() == s@,
    {
        v.push(c);
    }
    v
}

/// A text made of the characters `v[from..to]`.
pub fn string_from(v: &Vec<char>, from: usize, to: usize) -> (s: String)
    requires
        from <= to <= v.len(),
    ensures
        s@ == v@.subrange(from as int, to as int),
{
    let mut s = String::new();
    let mut i = from;
    while i < to
        invariant
            from <= i <= to <= v.len(),
            s@ == v@.subrange(from as int, i as int),
        decreases to - i,
    {
        push_char(&mut s, v[i]);
        assert(v@.subrange(from as int, i + 1) == v@.subrange(from as int, i as int).push(v@[i as int]));
        i += 1;
    }
    s
}

/// A text made of all the characters of `v`.
pub fn string_of(v: &Vec<char>) -> (s: String)
    ensures
        s@ == v@,
{
    let s = string_from(v, 0, v.len());
    assert(v@.subrange(0, v@.len() as int) == v@);
    s
}

/// A copy of a text.
pub fn str_to_string(s: &str) -> (r: String)
    ensures
        r@ == s@,
{
    <String as vstd::string::StringExecFns>::from_str(s)
}

/// Appends `t` to `s`.
pub fn append_str(s: &mut String, t: &str)
    ensures
        final(s)@ == old(s)@ + t@,
{
    <String as vstd::string::StringExecFns>::append(s, t);
}

/// Text equality.
pub fn str_eq(a: &str, b: &str) -> (r: bool)
    ensures
        r == (a@ == b@),
{
    let x = str_to_string(a);
    let y = str_to_string(b);
    x == y
}


/// The decimal digit for `d < 10`.
pub open spec fn digit_char(d: nat) -> char {
    ((d + ('0' as nat)) as u32) as char
}

/// The decimal text of `n`, as `Display` prints unsigned integers.
pub open spec fn decimal(n: nat) -> Seq<char>
    decreases n,
{
    if n < 10 {
        seq![digit_char(n)]
    } else {
        decimal(n / 10).push(digit_char(n % 10))
    }
}

/// Appends the decimal text of `n` to `s`.
pub fn push_decimal(s: &mut String, n: u64)
    ensures
        final(s)@ == old(s)@ + decimal(n as nat),
    decreases n,
{
    if n >= 10 {
        push_decimal(s, n / 10);
    }
    let d: u8 = (n % 10) as u8;
    let c: char = (d + 48u8) as char;
    assert(c == digit_char((n % 10) as nat));
    push_char(s, c);
    proof {
        if n >= 10 {
            assert(decimal(n as nat) == decimal((n / 10) as nat).push(digit_char((n % 10) as nat)));
        }
    }
}

/// The decimal text of `n`.
pub fn decimal_text(n: u64) -> (r: String)
    ensures
        r@ == decimal(n as nat),
{
    let mut s = String::new();
    push_decimal(&mut s, n);
    assert(s@ == Seq::<char>::empty() + decimal(n as nat));
    s
}


/// The text before the first `c` of `s`, and the text after it if there is one.
pub open spec fn split_first(s: Seq<char>, c: char) -> (Seq<char>, Option<Seq<char>>) {
    match find_char(s, c) {
        Some(i) => (s.subrange(0, i), Some(s.subrange(i + 1, s.len() as int))),
        None => (s, None),
    }
}

/// The position of the first `c` in `v[from..to]`, if any.
pub fn find_char_in(v: &Vec<char>, from: usize, to: usize, c: char) -> (r: Option<usize>)
    requires
        from <= to <= v.len(),
    ensures
        match find_char(v@.subrange(from as int, to as int), c) {
            Some(i) => r == Some((from + i) as usize),
            None => r is None,
        },
{
    let ghost s = v@.subrange(from as int, to as int);
    let mut i = from;
    while i < to
        invariant
            from <= i <= to <= v.len(),
            s == v@.subrange(from as int, to as int),
            forall|j: int| 0 <= j < i - from ==> s[j] != c,
        decreases to - i,
    {
        if v[i] == c {
            proof {
                lemma_find_char_at(s, c, i - from);
            }
            return Some(i);
        }
        i += 1;
    }
    proof {
        lemma_find_char_none(s, c);
    }
    None
}


pub proof fn lemma_scan_digits_bound(d: Seq<char>, acc: int, max: int)
    requires
        0 <= acc <= max,
    ensures
        scan_digits(d, acc, max) matches Ok(n) ==> 0 <= n <= max,
    decreases d.len(),
{
    if d.len() > 0 && is_digit(d[0]) && acc * 10 + digit_value(d[0]) <= max {
        assert(acc * 10 + digit_value(d[0]) >= 0) by (nonlinear_arith)
            requires
                acc >= 0,
                digit_value(d[0]) >= 0,
        ;
        lemma_scan_digits_bound(d.drop_first(), acc * 10 + digit_value(d[0]), max);
    }
}

/// A number that `parse_uint` reads lies between 0 and `max`.
pub proof fn lemma_parse_uint_bound(s: Seq<char>, max: int)
    requires
        0 <= max,
    ensures
        parse_uint(s, max) matches Ok(n) ==> 0 <= n <= max,
{
    if s.len() > 0 {
        lemma_scan_digits_bound(s, 0, max);
        lemma_scan_digits_bound(s.drop_first(), 0, max);
    }
}


pub proof fn lemma_digit_char(d: nat)
    requires
        d < 10,
    ensures
        is_digit(digit_char(d)),
        digit_value(digit_char(d)) == d,
        digit_char(d) != '+',
{
    assert((d + 48) as u32 == d + 48);
    assert(digit_char(d) as int == d + 48);
}

pub proof fn lemma_decimal_digits(n: nat)
    ensures
        decimal(n).len() > 0,
        forall|i: int| 0 <= i < decimal(n).len() ==> #[trigger] is_digit(decimal(n)[i]),
    decreases n,
{
    lemma_digit_char(n % 10);
    if n >= 10 {
        lemma_decimal_digits(n / 10);
        assert forall|i: int| 0 <= i < decimal(n).len() implies #[trigger] is_digit(
            decimal(n)[i],
        ) by {
            if i < decimal(n / 10).len() {
                assert(decimal(n)[i] == decimal(n / 10)[i]);
            }
        }
    }
}

pub proof fn lemma_scan_digits_push(a: Seq<char>, c: char, acc: int, max: int)
    ensures
        scan_digits(a.push(c), acc, max) == (match scan_digits(a, acc, max) {
            Ok(m) => scan_digits(seq![c], m, max),
            Err(e) => Err(e),
        }),
    decreases a.len(),
{
    if a.len() > 0 {
        assert(a.push(c).drop_first() =~= a.drop_first().push(c));
        assert(a.push(c)[0] == a[0]);
        if is_digit(a[0]) && acc * 10 + digit_value(a[0]) <= max {
            lemma_scan_digits_push(a.drop_first(), c, acc * 10 + digit_value(a[0]), max);
        }
    } else {
        assert(a.push(c) =~= seq![c]);
    }
}

/// The decimal text of a number no larger than `max` reads back as that number.
pub proof fn lemma_parse_decimal(n: nat, max: int)
    requires
        n <= max,
    ensures
        scan_digits(decimal(n), 0, max) == Ok::<int, IntFailure>(n as int),
        parse_uint(decimal(n), max) == Ok::<int, IntFailure>(n as int),
    decreases n,
{
    lemma_digit_char(n % 10);
    let c = digit_char(n % 10);
    let one = seq![c];
    assert(one.drop_first() =~= Seq::<char>::empty());
    if n < 10 {
        assert(n % 10 == n);
        assert(decimal(n) == one);
        assert(0 * 10 + digit_value(c) == n);
        assert(scan_digits(one.drop_first(), n as int, max) == Ok::<int, IntFailure>(n as int));
        assert(scan_digits(one, 0, max) == Ok::<int, IntFailure>(n as int));
    } else {
        lemma_parse_decimal(n / 10, max);
        lemma_scan_digits_push(decimal(n / 10), c, 0, max);
        assert((n / 10) * 10 + (n % 10) == n);
        assert(scan_digits(one.drop_first(), n as int, max) == Ok::<int, IntFailure>(n as int));
        assert(scan_digits(one, (n / 10) as int, max) == Ok::<int, IntFailure>(n as int));
        assert(decimal(n) == decimal(n / 10).push(c));
    }
    lemma_decimal_digits(n);
    assert(is_digit(decimal(n)[0]));
    assert(decimal(n)[0] != '+');
}

/// A text of decimal digits has no `c` unless `c` is a digit.
pub proof fn lemma_find_in_decimal(n: nat, rest: Seq<char>, c: char)
    requires
        !is_digit(c),
    ensures
        find_char(decimal(n) + seq![c] + rest, c) == Some(decimal(n).len() as int),
        split_first(decimal(n) + seq![c] + rest, c) == (decimal(n), Some(rest)),
{
    lemma_decimal_digits(n);
    let s = decimal(n) + seq![c] + rest;
    assert forall|j: int| 0 <= j < decimal(n).len() implies s[j] != c by {
        assert(s[j] == decimal(n)[j]);
        assert(is_digit(decimal(n)[j]));
    }
    lemma_find_char_at(s, c, decimal(n).len() as int);
    assert(s.subrange(0, decimal(n).len() as int) =~= decimal(n));
    assert(s.subrange(decimal(n).len() as int + 1, s.len() as int) =~= rest);
}

/// A text of decimal digits has no whitespace to trim.
pub proof fn lemma_trim_decimal(n: nat)
    ensures
        trim(decimal(n)) == decimal(n),
{
    lemma_decimal_digits(n);
    let d = decimal(n);
    assert(is_digit(d[0]));
    assert(!is_ws(d[0]));
    assert(trim_start(d) == d);
    assert(is_digit(d.last()));
    assert(trim_end(d) == d);
}


/// `s.replace(from, to)` for a character `from`.
pub fn replace_char_text(s: &str, from: char, to: &str) -> (r: String)
    ensures
        r@ == replace_char(s@, from, to@),
{
    let v = chars_of(s);
    let mut out = String::new();
    let mut i: usize = 0;
    assert(v@.subrange(0, v@.len() as int) == v@);
    while i < v.len()
        invariant
            i <= v.len(),
            v@ == s@,
            replace_char(s@, from, to@) == out@ + replace_char(v@.subrange(i as int, v@.len() as int), from, to@),
        decreases v.len() - i,
    {
        let ghost rest = v@.subrange(i as int, v@.len() as int);
        assert(rest.drop_first() == v@.subrange(i + 1, v@.len() as int));
        assert(rest[0] == v@[i as int]);
        if v[i] == from {
            append_str(&mut out, to);
        } else {
            push_char(&mut out, v[i]);
        }
        assert(replace_char(s@, from, to@) == out@ + replace_char(v@.subrange(i + 1, v@.len() as int), from, to@));
        i += 1;
    }
    assert(replace_char(v@.subrange(v@.len() as int, v@.len() as int), from, to@) == Seq::<char>::empty());
    assert(out@ + Seq::<char>::empty() == out@);
    out
}

/// Whether `v[i..]` begins with `p`.
fn starts_at(v: &Vec<char>, i: usize, p: &Vec<char>) -> (r: bool)
    requires
        i <= v.len(),
    ensures
        r == starts_with(v@.subrange(i as int, v@.len() as int), p@),
{
    if p.len() > v.len() - i {
        return false;
    }
    let ghost t = v@.subrange(i as int, v@.len() as int);
    let mut k: usize = 0;
    while k < p.len()
        invariant
            k <= p.len(),
            p.len() <= v.len() - i,
            i <= v.len(),
            t == v@.subrange(i as int, v@.len() as int),
            forall|j: int| 0 <= j < k ==> v@[i + j] == p@[j],
        decreases p.len() - k,
    {
        if v[i + k] != p[k] {
            assert(t.subrange(0, p@.len() as int)[k as int] != p@[k as int]);
            return false;
        }
        k += 1;
    }
    assert(t.subrange(0, p@.len() as int) =~= p@);
    true
}

/// Whether the text `s` begins with `p` (`str::starts_with`).
pub fn text_starts_with(s: &str, p: &str) -> (r: bool)
    ensures
        r == starts_with(s@, p@),
{
    let v = chars_of(s);
    let w = chars_of(p);
    assert(v@.subrange(0, v@.len() as int) == v@);
    starts_at(&v, 0, &w)
}

/// `s.replace(pat, to)` for a non-empty text `pat`.
pub fn replace_text(s: &str, pat: &str, to: &str) -> (r: String)
    requires
        pat@.len() > 0,
    ensures
        r@ == replace_all(s@, pat@, to@),
{
    let v = chars_of(s);
    let p = chars_of(pat);
    let mut out = String::new();
    let mut i: usize = 0;
    assert(v@.subrange(0, v@.len() as int) == v@);
    while i < v.len()
        invariant
            i <= v.len(),
            v@ == s@,
            p@ == pat@,
            p@.len() > 0,
            replace_all(s@, pat@, to@) == out@ + replace_all(v@.subrange(i as int, v@.len() as int), pat@, to@),
        decreases v.len() - i,
    {
        let ghost rest = v@.subrange(i as int, v@.len() as int);
        if starts_at(&v, i, &p) {
            assert(rest.subrange(p@.len() as int, rest.len() as int) == v@.subrange(i + p@.len(), v@.len() as int));
            append_str(&mut out, to);
            i += p.len();
        } else {
            assert(rest.drop_first() == v@.subrange(i + 1, v@.len() as int));
            assert(rest[0] == v@[i as int]);
            push_char(&mut out, v[i]);
            i += 1;
        }
    }
    assert(replace_all(v@.subrange(v@.len() as int, v@.len() as int), pat@, to@) == Seq::<char>::empty());
    assert(out@ + Seq::<char>::empty() == out@);
    out
}

/// Whether `s` ends with the character `c`.
pub fn ends_with_char(s: &str, c: char) -> (r: bool)
    ensures
        r == (s@.len() > 0 && s@.last() == c),
{
    let v = chars_of(s);
    v.len() > 0 && v[v.len() - 1] == c
}


/// `s.splitn(n, c)`, the pieces as texts.
pub fn splitn_text(s: &str, n: usize, c: char) -> (r: Vec<String>)
    ensures
        r@.map_values(|t: String| t@) == splitn_char(s@, n as nat, c),
{
    let v = chars_of(s);
    let len = v.len();
    let mut out: Vec<String> = Vec::new();
    if n == 0 {
        assert(out@.map_values(|t: String| t@) =~= splitn_char(s@, 0, c));
        return out;
    }
    let mut pos: usize = 0;
    assert(v@.subrange(0, len as int) == v@);
    while out.len() + 1 < n
        invariant
            pos <= len,
            len == v@.len(),
            v@ == s@,
            out.len() < n,
            splitn_char(s@, n as nat, c) == out@.map_values(|t: String| t@) + splitn_char(
                v@.subrange(pos as int, len as int),
                (n - out.len()) as nat,
                c,
            ),
        ensures
            pos <= len,
            len == v@.len(),
            v@ == s@,
            out.len() < n,
            splitn_char(s@, n as nat, c) == out@.map_values(|t: String| t@) + splitn_char(
                v@.subrange(pos as int, len as int),
                (n - out.len()) as nat,
                c,
            ),
            out.len() + 1 >= n || find_char(v@.subrange(pos as int, len as int), c) is None,
        decreases n - out.len(),
    {
        let ghost t = v@.subrange(pos as int, len as int);
        let found = find_char_in(&v, pos, len, c);
        proof {
            lemma_find_char(t, c);
        }
        match found {
            None => {
                break;
            },
            Some(i) => {
                let piece = string_from(&v, pos, i);
                let ghost before = out@;
                out.push(piece);
                proof {
                    assert(t.subrange(0, i - pos) =~= v@.subrange(pos as int, i as int));
                    assert(t.subrange(i - pos + 1, t.len() as int) =~= v@.subrange(i + 1, len as int));
                    assert(out@.map_values(|x: String| x@) =~= before.map_values(|x: String| x@).push(v@.subrange(pos as int, i as int)));
                }
                pos = i + 1;
            },
        }
    }
    let rest = string_from(&v, pos, len);
    let ghost before = out@;
    out.push(rest);
    proof {
        let t = v@.subrange(pos as int, len as int);
        let k = (n - before.len()) as nat;
        if k == 1 {
            assert(splitn_char(t, k, c) =~= seq![t]);
        } else {
            assert(splitn_char(t, k, c) =~= seq![t]);
        }
        assert(out@.map_values(|x: String| x@) =~= before.map_values(|x: String| x@).push(t));
    }
    out
}


/// `str::split(c)` into new texts.
pub fn split_text(s: &str, c: char) -> (r: Vec<String>)
    ensures
        r@.map_values(|t: String| t@) == split_char(s@, c),
{
    let v = chars_of(s);
    let len = v.len();
    let mut out: Vec<String> = Vec::new();
    let mut pos: usize = 0;
    assert(v@.subrange(0, len as int) == v@);
    assert(out@.map_values(|t: String| t@) =~= Seq::<Seq<char>>::empty());
    loop
        invariant
            pos <= len,
            len == v@.len(),
            v@ == s@,
            split_char(s@, c) == out@.map_values(|t: String| t@) + split_char(
                v@.subrange(pos as int, len as int),
                c,
            ),
        decreases len - pos,
    {
        let ghost t = v@.subrange(pos as int, len as int);
        let found = find_char_in(&v, pos, len, c);
        proof {
            lemma_find_char(t, c);
        }
        match found {
            None => {
                let rest = string_from(&v, pos, len);
                let ghost before = out@;
                out.push(rest);
                proof {
                    assert(split_char(t, c) =~= seq![t]);
                    assert(out@.map_values(|x: String| x@) =~= before.map_values(|x: String| x@).push(t));
                    assert(before.map_values(|x: String| x@) + seq![t] =~= before.map_values(
                        |x: String| x@,
                    ).push(t));
                }
                return out;
            },
            Some(i) => {
                let piece = string_from(&v, pos, i);
                let ghost before = out@;
                out.push(piece);
                proof {
                    assert(t.subrange(0, i - pos) =~= v@.subrange(pos as int, i as int));
                    assert(t.subrange(i - pos + 1, t.len() as int) =~= v@.subrange(i + 1, len as int));
                    assert(out@.map_values(|x: String| x@) =~= before.map_values(|x: String| x@).push(
                        v@.subrange(pos as int, i as int),
                    ));
                    assert(split_char(t, c) == seq![t.subrange(0, i - pos)] + split_char(
                        t.subrange(i - pos + 1, t.len() as int),
                        c,
                    ));
                    assert(before.map_values(|x: String| x@) + split_char(t, c) =~= out@.map_values(
                        |x: String| x@,
                    ) + split_char(v@.subrange(i + 1, len as int), c));
                }
                pos = i + 1;
            },
        }
    }
}


/// A split gives at least one piece.
pub proof fn lemma_split_char_len(s: Seq<char>, c: char)
    ensures
        split_char(s, c).len() >= 1,
    decreases s.len(),
{
    lemma_find_char(s, c);
    match find_char(s, c) {
        None => {},
        Some(i) => {
            lemma_split_char_len(s.subrange(i + 1, s.len() as int), c);
        },
    }
}

} // verus!
