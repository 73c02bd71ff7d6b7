//! Revisions of Android SDK packages: `major.minor.micro.preview`.
use vstd::prelude::*;
use vstd::std_specs::cmp::PartialOrdSpecImpl;
use std::cmp::Ordering;
use crate::strs::{
    append_str, chars_of, decimal, decimal_text, digit_char, find_char, find_char_in, is_digit,
    is_ws, lemma_find_char, lemma_find_char_none, parse_uint, parse_uint_range, scan_digits,
    split_first, trim, trim_range, IntFailure,
};

verus! {

/// A full revision, with a major.minor.micro and an optional preview
/// number. The major number is mandatory.
#[derive(Clone, Copy, Debug, PartialEq, Eq, Hash, Structural)]
pub struct Revision {
    pub major: u32,
    pub minor: u32,
    pub micro: u32,
    pub preview: u32,
}

/// The revision with the given numbers.
pub open spec fn rev(major: int, minor: int, micro: int, preview: int) -> Revision {
    Revision {
        major: major as u32,
        minor: minor as u32,
        micro: micro as u32,
        preview: preview as u32,
    }
}

impl Default for Revision {
    fn default() -> (r: Self)
        ensures
            r == rev(0, 0, 0, 0),
    {
        Revision { major: 0, minor: 0, micro: 0, preview: 0 }
    }
}

/// Why a text is not a revision.
#[derive(Clone, Copy, Debug, PartialEq, Eq)]
pub enum RevisionParseErrorKind {
    /// An empty string was provided
    Empty,
    /// Major version was not provided
    MissingMajor,
    /// A number is not an unsigned 32-bit integer
    InvalidUnsignedInt(IntFailure),
}

/// A text that is not a revision.
#[derive(Clone, Copy, Debug, PartialEq, Eq)]
pub struct RevisionParseError {
    pub kind: RevisionParseErrorKind,
}

impl RevisionParseError {
    pub fn new(kind: RevisionParseErrorKind) -> (r: Self)
        ensures
            r.kind == kind,
    {
        Self { kind }
    }

    /// The message that describes the error.
    pub fn to_string(&self) -> (r: String)
        ensures
            r@ == revision_error_text(self.kind),
    {
        match self.kind {
            RevisionParseErrorKind::Empty => crate::strs::str_to_string("The provided string is empty"),
            RevisionParseErrorKind::MissingMajor => crate::strs::str_to_string(
                "Missing major version int which is required",
            ),
            RevisionParseErrorKind::InvalidUnsignedInt(e) => {
                let mut s = crate::strs::str_to_string("failed to parse unsigned int: ");
                append_str(&mut s, int_failure_text(e));
                s
            },
        }
    }
}

/// The message of `std::num::ParseIntError` for each kind.
pub open spec fn int_failure_message(e: IntFailure) -> Seq<char> {
    match e {
        IntFailure::Empty => "cannot parse integer from empty string"@,
        IntFailure::InvalidDigit => "invalid digit found in string"@,
        IntFailure::PosOverflow => "number too large to fit in target type"@,
    }
}

pub fn int_failure_text(e: IntFailure) -> (r: &'static str)
    ensures
        r@ == int_failure_message(e),
{
    match e {
        IntFailure::Empty => "cannot parse integer from empty string",
        IntFailure::InvalidDigit => "invalid digit found in string",
        IntFailure::PosOverflow => "number too large to fit in target type",
    }
}

pub open spec fn revision_error_text(k: RevisionParseErrorKind) -> Seq<char> {
    match k {
        RevisionParseErrorKind::Empty => "The provided string is empty"@,
        RevisionParseErrorKind::MissingMajor => "Missing major version int which is required"@,
        RevisionParseErrorKind::InvalidUnsignedInt(e) => "failed to parse unsigned int: "@
            + int_failure_message(e),
    }
}

pub open spec fn u32_max() -> int {
    0xffff_ffff
}

/// A number of a revision, or why it is not one.
pub open spec fn revision_number(s: Seq<char>) -> Result<int, RevisionParseErrorKind> {
    match parse_uint(s, u32_max()) {
        Ok(n) => Ok(n),
        Err(e) => Err(RevisionParseErrorKind::InvalidUnsignedInt(e)),
    }
}

/// What a text reads as: up to four numbers separated by `.`; the first one
/// may have whitespace around it, and the last one read takes the rest of
/// the text.
pub open spec fn revision_from_text(s: Seq<char>) -> Result<Revision, RevisionParseErrorKind> {
    let (p0, r0) = split_first(s, '.');
    match revision_number(trim(p0)) {
        Err(e) => Err(e),
        Ok(major) => match r0 {
            None => Ok(rev(major, 0, 0, 0)),
            Some(s1) => {
                let (p1, r1) = split_first(s1, '.');
                match revision_number(p1) {
                    Err(e) => Err(e),
                    Ok(minor) => match r1 {
                        None => Ok(rev(major, minor, 0, 0)),
                        Some(s2) => {
                            let (p2, r2) = split_first(s2, '.');
                            match revision_number(p2) {
                                Err(e) => Err(e),
                                Ok(micro) => match r2 {
                                    None => Ok(rev(major, minor, micro, 0)),
                                    Some(s3) => match revision_number(s3) {
                                        Err(e) => Err(e),
                                        Ok(preview) => Ok(rev(major, minor, micro, preview)),
                                    },
                                },
                            }
                        },
                    },
                }
            },
        },
    }
}

/// `major.minor.micro.preview`, each number in decimal.
pub open spec fn revision_text(r: Revision) -> Seq<char> {
    decimal(r.major as nat) + "."@ + decimal(r.minor as nat) + "."@ + decimal(r.micro as nat)
        + "."@ + decimal(r.preview as nat)
}

/// The order of two revisions: by major, then minor, then micro, then
/// preview number.
pub open spec fn revision_order(a: Revision, b: Revision) -> Ordering {
    if a.major != b.major {
        if a.major < b.major {
            Ordering::Less
        } else {
            Ordering::Greater
        }
    } else if a.minor != b.minor {
        if a.minor < b.minor {
            Ordering::Less
        } else {
            Ordering::Greater
        }
    } else if a.micro != b.micro {
        if a.micro < b.micro {
            Ordering::Less
        } else {
            Ordering::Greater
        }
    } else if a.preview != b.preview {
        if a.preview < b.preview {
            Ordering::Less
        } else {
            Ordering::Greater
        }
    } else {
        Ordering::Equal
    }
}

/// Reads `v[from..to]` as a number of a revision.
fn read_number(v: &Vec<char>, from: usize, to: usize) -> (r: Result<u32, RevisionParseErrorKind>)
    requires
        from <= to <= v.len(),
    ensures
        match revision_number(v@.subrange(from as int, to as int)) {
            Ok(n) => r == Ok::<u32, RevisionParseErrorKind>(n as u32),
            Err(e) => r == Err::<u32, RevisionParseErrorKind>(e),
        },
{
    proof {
        crate::strs::lemma_parse_uint_bound(v@.subrange(from as int, to as int), u32_max());
    }
    match parse_uint_range(v, from, to, 0xffff_ffffu64) {
        Ok(n) => Ok(n as u32),
        Err(e) => Err(RevisionParseErrorKind::InvalidUnsignedInt(e)),
    }
}

/// Reads the number before the first `.` of `v[from..]` (trimmed of
/// whitespace when `trimmed`), and finds where the text after that `.` begins.
fn read_piece(v: &Vec<char>, from: usize, trimmed: bool) -> (r: (
    Result<u32, RevisionParseErrorKind>,
    Option<usize>,
))
    requires
        from <= v.len(),
    ensures
        ({
            let (p, rest) = split_first(v@.subrange(from as int, v.len() as int), '.');
            let q = if trimmed {
                trim(p)
            } else {
                p
            };
            &&& match revision_number(q) {
                Ok(n) => r.0 == Ok::<u32, RevisionParseErrorKind>(n as u32),
                Err(e) => r.0 == Err::<u32, RevisionParseErrorKind>(e),
            }
            &&& match rest {
                Some(t) => r.1 matches Some(k) && from < k <= v.len() && t == v@.subrange(
                    k as int,
                    v.len() as int,
                ),
                None => r.1 is None,
            }
        }),
{
    let len = v.len();
    let ghost t = v@.subrange(from as int, len as int);
    let d = find_char_in(v, from, len, '.');
    proof {
        lemma_find_char(t, '.');
    }
    let end = match d {
        Some(i) => i,
        None => len,
    };
    proof {
        if let Some(i) = d {
            assert(t.subrange(0, i - from) =~= v@.subrange(from as int, i as int));
            assert(t.subrange(i - from + 1, t.len() as int) =~= v@.subrange(i + 1, len as int));
        } else {
            assert(t =~= v@.subrange(from as int, end as int));
        }
    }
    let n = if trimmed {
        let (lo, hi) = trim_range(v, from, end);
        read_number(v, lo, hi)
    } else {
        read_number(v, from, end)
    };
    let rest = match d {
        Some(i) => Some(i + 1),
        None => None,
    };
    (n, rest)
}

impl Revision {
    /// The revision `major.0.0.0`.
    pub fn new(major: u32) -> (r: Self)
        ensures
            r == rev(major as int, 0, 0, 0),
    {
        Self { major, minor: 0, micro: 0, preview: 0 }
    }

    /// Reads a revision from a text such as `33.0.2`; missing numbers are 0.
    pub fn from_str(value: &str) -> (r: Result<Revision, RevisionParseError>)
        ensures
            match revision_from_text(value@) {
                Ok(v) => r == Ok::<Revision, RevisionParseError>(v),
                Err(k) => r == Err::<Revision, RevisionParseError>(RevisionParseError { kind: k }),
            },
    {
        let v = chars_of(value);
        assert(v@.subrange(0, v@.len() as int) == v@);
        let (m0, r0) = read_piece(&v, 0, true);
        let major = match m0 {
            Ok(n) => n,
            Err(k) => {
                return Err(RevisionParseError::new(k));
            },
        };
        let mut revision = Revision::new(major);
        let k1 = match r0 {
            None => {
                return Ok(revision);
            },
            Some(k) => k,
        };
        let (m1, r1) = read_piece(&v, k1, false);
        revision.minor = match m1 {
            Ok(n) => n,
            Err(k) => {
                return Err(RevisionParseError::new(k));
            },
        };
        let k2 = match r1 {
            None => {
                return Ok(revision);
            },
            Some(k) => k,
        };
        let (m2, r2) = read_piece(&v, k2, false);
        revision.micro = match m2 {
            Ok(n) => n,
            Err(k) => {
                return Err(RevisionParseError::new(k));
            },
        };
        let k3 = match r2 {
            None => {
                return Ok(revision);
            },
            Some(k) => k,
        };
        revision.preview = match read_number(&v, k3, v.len()) {
            Ok(n) => n,
            Err(k) => {
                return Err(RevisionParseError::new(k));
            },
        };
        Ok(revision)
    }

    /// `major.minor.micro.preview`.
    pub fn to_string(&self) -> (r: String)
        ensures
            r@ == revision_text(*self),
    {
        let mut s = decimal_text(self.major as u64);
        crate::strs::push_char(&mut s, '.');
        crate::strs::push_decimal(&mut s, self.minor as u64);
        crate::strs::push_char(&mut s, '.');
        crate::strs::push_decimal(&mut s, self.micro as u64);
        crate::strs::push_char(&mut s, '.');
        crate::strs::push_decimal(&mut s, self.preview as u64);
        proof {
            reveal_strlit(".");
            assert(s@ =~= revision_text(*self));
        }
        s
    }
}

impl core::str::FromStr for Revision {
    type Err = RevisionParseError;

    fn from_str(value: &str) -> (r: Result<Revision, RevisionParseError>)
        ensures
            match revision_from_text(value@) {
                Ok(v) => r == Ok::<Revision, RevisionParseError>(v),
                Err(k) => r == Err::<Revision, RevisionParseError>(RevisionParseError { kind: k }),
            },
    {
        Revision::from_str(value)
    }
}

impl PartialOrd for Revision {
    fn partial_cmp(&self, other: &Self) -> (r: Option<Ordering>) {
        if self.major != other.major {
            if self.major < other.major {
                Some(Ordering::Less)
            } else {
                Some(Ordering::Greater)
            }
        } else if self.minor != other.minor {
            if self.minor < other.minor {
                Some(Ordering::Less)
            } else {
                Some(Ordering::Greater)
            }
        } else if self.micro != other.micro {
            if self.micro < other.micro {
                Some(Ordering::Less)
            } else {
                Some(Ordering::Greater)
            }
        } else if self.preview != other.preview {
            if self.preview < other.preview {
                Some(Ordering::Less)
            } else {
                Some(Ordering::Greater)
            }
        } else {
            Some(Ordering::Equal)
        }
    }
}

impl PartialOrdSpecImpl for Revision {
    open spec fn obeys_partial_cmp_spec() -> bool {
        true
    }

    open spec fn partial_cmp_spec(&self, other: &Self) -> Option<Ordering> {
        Some(revision_order(*self, *other))
    }
}


/// Reading back the text of a revision gives that revision.
pub proof fn lemma_revision_text_round_trip(r: Revision)
    ensures
        revision_from_text(revision_text(r)) == Ok::<Revision, RevisionParseErrorKind>(r),
{
    reveal_strlit(".");
    let a = decimal(r.major as nat);
    let b = decimal(r.minor as nat);
    let c = decimal(r.micro as nat);
    let d = decimal(r.preview as nat);
    let t3 = d;
    let t2 = c + seq!['.'] + t3;
    let t1 = b + seq!['.'] + t2;
    let t0 = a + seq!['.'] + t1;
    assert(revision_text(r) =~= t0);
    assert(!is_digit('.'));
    crate::strs::lemma_find_in_decimal(r.major as nat, t1, '.');
    crate::strs::lemma_find_in_decimal(r.minor as nat, t2, '.');
    crate::strs::lemma_find_in_decimal(r.micro as nat, t3, '.');
    crate::strs::lemma_trim_decimal(r.major as nat);
    crate::strs::lemma_parse_decimal(r.major as nat, u32_max());
    crate::strs::lemma_parse_decimal(r.minor as nat, u32_max());
    crate::strs::lemma_parse_decimal(r.micro as nat, u32_max());
    crate::strs::lemma_parse_decimal(r.preview as nat, u32_max());
}

/// Revisions are totally ordered: two revisions are equal exactly when
/// neither comes first, and one comes first exactly when the other comes
/// after it.
pub proof fn lemma_revision_order_total(a: Revision, b: Revision)
    ensures
        (revision_order(a, b) == Ordering::Equal) == (a == b),
        (revision_order(a, b) == Ordering::Less) == (revision_order(b, a) == Ordering::Greater),
{
}

/// The order of revisions is transitive.
pub proof fn lemma_revision_order_transitive(a: Revision, b: Revision, c: Revision)
    requires
        revision_order(a, b) == Ordering::Less,
        revision_order(b, c) == Ordering::Less,
    ensures
        revision_order(a, c) == Ordering::Less,
{
}

} // verus!
