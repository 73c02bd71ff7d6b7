//! Maven version ranges and version requirements: their parsers and the
//! text they print to.
use vstd::prelude::*;
use crate::strs::{
    append_str, chars_of, str_to_string, string_from, string_of, trim, trim_end, trim_end_char,
    trim_end_char_range, trim_end_range, trim_range, is_ws, trim_start,
};

verus! {

/// The inequality of a version range.
#[derive(Clone, Copy, PartialEq, Eq, Debug)]
pub enum RangeKind {
    Gt,
    Ge,
    Lt,
    Le,
    Eq,
}

/// An inequality on versions: `>v`, `>=v`, `<v`, `<=v` or `=v`.
#[derive(Debug, PartialEq, Eq)]
pub enum VersionRange {
    Gt(String),
    Ge(String),
    Lt(String),
    Le(String),
    Eq(String),
}

impl View for VersionRange {
    type V = (RangeKind, Seq<char>);

    open spec fn view(&self) -> (RangeKind, Seq<char>) {
        match self {
            VersionRange::Gt(v) => (RangeKind::Gt, v@),
            VersionRange::Ge(v) => (RangeKind::Ge, v@),
            VersionRange::Lt(v) => (RangeKind::Lt, v@),
            VersionRange::Le(v) => (RangeKind::Le, v@),
            VersionRange::Eq(v) => (RangeKind::Eq, v@),
        }
    }
}

impl Clone for VersionRange {
    fn clone(&self) -> (r: Self)
        ensures
            r == *self,
    {
        match self {
            VersionRange::Gt(v) => VersionRange::Gt(v.clone()),
            VersionRange::Ge(v) => VersionRange::Ge(v.clone()),
            VersionRange::Lt(v) => VersionRange::Lt(v.clone()),
            VersionRange::Le(v) => VersionRange::Le(v.clone()),
            VersionRange::Eq(v) => VersionRange::Eq(v.clone()),
        }
    }
}

/// The views of a list of ranges.
pub open spec fn ranges_view(rs: Seq<VersionRange>) -> Seq<(RangeKind, Seq<char>)> {
    rs.map_values(|r: VersionRange| r@)
}

/// Why a text is not a version range.
#[derive(Debug, PartialEq, Eq, Clone, Copy)]
pub enum RangeParseError {
    /// Only whitespace follows the inequality symbol.
    EmptyVersion,
    /// Nothing at all follows the inequality symbol.
    MissingVersion,
}

/// States of the version range scanner.
#[derive(Clone, Copy, PartialEq, Eq, Debug)]
pub enum RangeScan {
    Start,
    Gt,
    Lt,
    Ge,
    Le,
    Eq,
}

/// One step of the version range scanner over the character `c` at `i`.
pub open spec fn range_step(st: RangeScan, start: int, c: char, i: int) -> (RangeScan, int) {
    match st {
        RangeScan::Start => if c == ' ' {
            (RangeScan::Start, start)
        } else if c == '>' {
            (RangeScan::Gt, i + 1)
        } else if c == '<' {
            (RangeScan::Lt, i + 1)
        } else if c == '=' {
            (RangeScan::Eq, i + 1)
        } else {
            (RangeScan::Eq, i)
        },
        RangeScan::Gt => if c == '=' {
            (RangeScan::Ge, i + 1)
        } else {
            (RangeScan::Gt, start)
        },
        RangeScan::Lt => if c == '=' {
            (RangeScan::Le, i + 1)
        } else {
            (RangeScan::Lt, start)
        },
        _ => (st, start),
    }
}

/// Scanner state and version start after the first `n` characters.
pub open spec fn range_scan(s: Seq<char>, n: int) -> (RangeScan, int)
    decreases n,
{
    if n <= 0 {
        (RangeScan::Start, 0)
    } else {
        let prev = range_scan(s, n - 1);
        range_step(prev.0, prev.1, s[n - 1], n - 1)
    }
}

/// What parsing `s` as a version range gives.
pub open spec fn spec_parse_range(s: Seq<char>) -> Result<(RangeKind, Seq<char>), RangeParseError> {
    let (st, start) = range_scan(s, s.len() as int);
    if start < s.len() {
        let v = trim(s.subrange(start, s.len() as int));
        if v.len() == 0 {
            Err(RangeParseError::EmptyVersion)
        } else {
            match st {
                RangeScan::Gt => Ok((RangeKind::Gt, v)),
                RangeScan::Ge => Ok((RangeKind::Ge, v)),
                RangeScan::Lt => Ok((RangeKind::Lt, v)),
                RangeScan::Le => Ok((RangeKind::Le, v)),
                _ => Ok((RangeKind::Eq, v)),
            }
        }
    } else {
        Err(RangeParseError::MissingVersion)
    }
}

proof fn lemma_range_scan_bounds(s: Seq<char>, n: int)
    requires
        0 <= n <= s.len(),
    ensures
        0 <= range_scan(s, n).1 <= n,
        range_scan(s, n).0 == RangeScan::Start ==> range_scan(s, n).1 == 0 && forall|j: int|
            0 <= j < n ==> s[j] == ' ',
    decreases n,
{
    if n > 0 {
        lemma_range_scan_bounds(s, n - 1);
    }
}

/// The text of a range: `>v`, `>=v`, `<v`, `<=v` or just `v`.
pub open spec fn range_text(r: (RangeKind, Seq<char>)) -> Seq<char> {
    match r.0 {
        RangeKind::Gt => seq!['>'] + r.1,
        RangeKind::Ge => seq!['>', '='] + r.1,
        RangeKind::Lt => seq!['<'] + r.1,
        RangeKind::Le => seq!['<', '='] + r.1,
        RangeKind::Eq => r.1,
    }
}

/// A version that reads back as itself wherever it is printed: it is not
/// empty and neither starts nor ends with whitespace.
pub open spec fn bare_version(v: Seq<char>) -> bool {
    v.len() > 0 && !is_ws(v[0]) && !is_ws(v.last())
}

/// A range whose text reads back as the range: its version is bare, and
/// the text does not read as another inequality (`=v` that starts with an
/// inequality symbol, or `>v` and `<v` whose version holds `=`).
pub open spec fn range_reads_back(r: (RangeKind, Seq<char>)) -> bool {
    &&& bare_version(r.1)
    &&& match r.0 {
        RangeKind::Eq => r.1[0] != '>' && r.1[0] != '<' && r.1[0] != '=',
        RangeKind::Gt | RangeKind::Lt => !r.1.contains('='),
        _ => true,
    }
}

pub proof fn lemma_bare_trim(v: Seq<char>)
    requires
        bare_version(v),
    ensures
        trim(v) == v,
{
    assert(trim_start(v) == v);
}

/// Once the scanner has settled on an inequality, the rest of the text
/// does not move it: `>=`, `<=` and `=` are final, and `>`, `<` stay while
/// no `=` comes.
proof fn lemma_range_scan_settled(s: Seq<char>, k: int, n: int)
    requires
        0 <= k <= n <= s.len(),
        range_scan(s, k).0 != RangeScan::Start,
        range_scan(s, k).0 == RangeScan::Gt || range_scan(s, k).0 == RangeScan::Lt ==> forall|j: int|
            k <= j < n ==> s[j] != '=',
    ensures
        range_scan(s, n) == range_scan(s, k),
    decreases n - k,
{
    if n > k {
        lemma_range_scan_settled(s, k, n - 1);
    }
}

/// Printing a range and parsing the text gives the range back.
pub proof fn lemma_range_text_round_trip(r: (RangeKind, Seq<char>))
    requires
        range_reads_back(r),
    ensures
        spec_parse_range(range_text(r)) == Ok::<(RangeKind, Seq<char>), RangeParseError>(r),
{
    let v = r.1;
    let t = range_text(r);
    lemma_bare_trim(v);
    let k: int = match r.0 {
        RangeKind::Ge | RangeKind::Le => 2,
        RangeKind::Gt | RangeKind::Lt => 1,
        RangeKind::Eq => 1,
    };
    let start: int = match r.0 {
        RangeKind::Eq => 0,
        _ => k,
    };
    assert(t.len() == start + v.len());
    assert forall|j: int| start <= j < t.len() implies t[j] == v[j - start] by {}
    assert(range_scan(t, 0) == (RangeScan::Start, 0int));
    assert(range_scan(t, 1) == range_step(RangeScan::Start, 0, t[0], 0));
    if k == 2 {
        assert(range_scan(t, 2) == range_step(range_scan(t, 1).0, range_scan(t, 1).1, t[1], 1));
    }
    if r.0 == RangeKind::Gt || r.0 == RangeKind::Lt {
        assert forall|j: int| k <= j < t.len() implies t[j] != '=' by {
            assert(t[j] == v[j - start]);
            if t[j] == '=' {
                assert(v.contains('='));
            }
        }
    }
    lemma_range_scan_settled(t, k, t.len() as int);
    assert(t.subrange(start, t.len() as int) =~= v);
}

impl VersionRange {
    /// Builds a range of the given kind on `v`.
    pub fn with_kind(kind: RangeKind, v: String) -> (r: VersionRange)
        ensures
            r@ == (kind, v@),
    {
        match kind {
            RangeKind::Gt => VersionRange::Gt(v),
            RangeKind::Ge => VersionRange::Ge(v),
            RangeKind::Lt => VersionRange::Lt(v),
            RangeKind::Le => VersionRange::Le(v),
            RangeKind::Eq => VersionRange::Eq(v),
        }
    }

    /// The inequality of this range.
    pub fn kind(&self) -> (k: RangeKind)
        ensures
            k == self@.0,
    {
        match self {
            VersionRange::Gt(_) => RangeKind::Gt,
            VersionRange::Ge(_) => RangeKind::Ge,
            VersionRange::Lt(_) => RangeKind::Lt,
            VersionRange::Le(_) => RangeKind::Le,
            VersionRange::Eq(_) => RangeKind::Eq,
        }
    }

    /// The version this range is bounded by.
    pub fn version(&self) -> (v: &String)
        ensures
            v@ == self@.1,
    {
        match self {
            VersionRange::Gt(v) => v,
            VersionRange::Ge(v) => v,
            VersionRange::Lt(v) => v,
            VersionRange::Le(v) => v,
            VersionRange::Eq(v) => v,
        }
    }

    /// Parses `>v`, `>=v`, `<v`, `<=v`, `=v` or `v`, with spaces allowed
    /// before the symbol and around the version. Positions are counted in
    /// characters, not bytes, so text that is not ASCII is sliced by its
    /// characters.
    pub fn from_str(s: &str) -> (r: Result<VersionRange, RangeParseError>)
        ensures
            match (r, spec_parse_range(s@)) {
                (Ok(x), Ok(y)) => x@ == y,
                (Err(x), Err(y)) => x == y,
                _ => false,
            },
    {
        let v = chars_of(s);
        let mut st = RangeScan::Start;
        let mut start: usize = 0;
        let mut i: usize = 0;
        while i < v.len()
            invariant
                i <= v.len(),
                v@ == s@,
                (st, start as int) == range_scan(v@, i as int),
            decreases v.len() - i,
        {
            let c = v[i];
            proof {
                lemma_range_scan_bounds(v@, i as int);
            }
            match st {
                RangeScan::Start => {
                    if c == ' ' {
                    } else if c == '>' {
                        st = RangeScan::Gt;
                        start = i + 1;
                    } else if c == '<' {
                        st = RangeScan::Lt;
                        start = i + 1;
                    } else if c == '=' {
                        st = RangeScan::Eq;
                        start = i + 1;
                    } else {
                        st = RangeScan::Eq;
                        start = i;
                    }
                },
                RangeScan::Gt => {
                    if c == '=' {
                        st = RangeScan::Ge;
                        start = i + 1;
                    }
                },
                RangeScan::Lt => {
                    if c == '=' {
                        st = RangeScan::Le;
                        start = i + 1;
                    }
                },
                _ => {},
            }
            i += 1;
        }
        proof {
            lemma_range_scan_bounds(v@, v.len() as int);
        }
        if start < v.len() {
            let (lo, hi) = trim_range(&v, start, v.len());
            if lo == hi {
                return Err(RangeParseError::EmptyVersion);
            }
            let version = string_from(&v, lo, hi);
            let kind = match st {
                RangeScan::Gt => RangeKind::Gt,
                RangeScan::Ge => RangeKind::Ge,
                RangeScan::Lt => RangeKind::Lt,
                RangeScan::Le => RangeKind::Le,
                _ => RangeKind::Eq,
            };
            Ok(VersionRange::with_kind(kind, version))
        } else {
            Err(RangeParseError::MissingVersion)
        }
    }

    /// The text of this range: `>v`, `>=v`, `<v`, `<=v` or `v`.
    pub fn to_string(&self) -> (s: String)
        ensures
            s@ == range_text(self@),
    {
        let (mut s, v) = match self {
            VersionRange::Gt(v) => (str_to_string(">"), v),
            VersionRange::Ge(v) => (str_to_string(">="), v),
            VersionRange::Lt(v) => (str_to_string("<"), v),
            VersionRange::Le(v) => (str_to_string("<="), v),
            VersionRange::Eq(v) => (String::new(), v),
        };
        proof {
            reveal_strlit(">");
            reveal_strlit(">=");
            reveal_strlit("<");
            reveal_strlit("<=");
        }
        append_str(&mut s, v.as_str());
        s
    }
}

/// A version requirement of a dependency.
///
/// `1.0` is a soft requirement (a recommendation), `[1.0]` a hard one,
/// `[1.2,1.3]`, `[1.0,2.0)`, `[1.5,)`, `(,1.0],[1.2,)` and `(,1.1),(1.1,)`
/// are sets of inequalities that all hold, and an empty text leaves the
/// version unset.
#[derive(Debug, PartialEq, Eq)]
pub enum VersionRequirement {
    /// A preferred version that other requirements may override.
    Soft(String),
    /// Inequalities the version must meet.
    Hard(Vec<VersionRange>),
    /// No version was given.
    Unset,
}

/// The mathematical model of a version requirement.
pub enum RequirementView {
    Soft(Seq<char>),
    Hard(Seq<(RangeKind, Seq<char>)>),
    Unset,
}

impl View for VersionRequirement {
    type V = RequirementView;

    open spec fn view(&self) -> RequirementView {
        match self {
            VersionRequirement::Soft(v) => RequirementView::Soft(v@),
            VersionRequirement::Hard(rs) => RequirementView::Hard(ranges_view(rs@)),
            VersionRequirement::Unset => RequirementView::Unset,
        }
    }
}

/// A copy of a list of ranges.
pub fn clone_ranges(rs: &Vec<VersionRange>) -> (r: Vec<VersionRange>)
    ensures
        r@ == rs@,
{
    let mut out: Vec<VersionRange> = Vec::new();
    let mut i: usize = 0;
    while i < rs.len()
        invariant
            i <= rs.len(),
            out@ == rs@.take(i as int),
        decreases rs.len() - i,
    {
        out.push(rs[i].clone());
        assert(rs@.take(i + 1) == rs@.take(i as int).push(rs@[i as int]));
        i += 1;
    }
    assert(rs@.take(rs.len() as int) == rs@);
    out
}

impl Clone for VersionRequirement {
    fn clone(&self) -> (r: Self)
        ensures
            r@ == self@,
    {
        match self {
            VersionRequirement::Soft(v) => VersionRequirement::Soft(v.clone()),
            VersionRequirement::Hard(rs) => {
                let c = clone_ranges(rs);
                proof {
                    assert(c@ == rs@);
                }
                VersionRequirement::Hard(c)
            },
            VersionRequirement::Unset => VersionRequirement::Unset,
        }
    }
}

/// States of the version requirement scanner.
#[derive(Clone, Copy, PartialEq, Eq, Debug)]
pub enum RequirementScan {
    InequalityStart,
    EqualityStart,
    Lt,
    Gt,
    Eq,
    Start,
}

/// A version text cut out of a requirement: trimmed, without trailing
/// commas, and trimmed at the end once more.
pub open spec fn clean_version(x: Seq<char>) -> Seq<char> {
    trim_end(trim_end_char(trim(x), ','))
}

/// The first character at or after `j` that is not a space.
pub open spec fn next_non_space(s: Seq<char>, j: int) -> Option<char>
    decreases s.len() - j,
{
    if j < 0 || j >= s.len() {
        None
    } else if s[j] == ' ' {
        next_non_space(s, j + 1)
    } else {
        Some(s[j])
    }
}

/// Scanner state: state, start of the current version, ranges found.
pub type ReqScanState = (RequirementScan, int, Seq<(RangeKind, Seq<char>)>);

/// One step of the requirement scanner over `s[i]`.
pub open spec fn req_step(s: Seq<char>, i: int, acc: ReqScanState) -> ReqScanState {
    let (st, start, found) = acc;
    let c = s[i];
    match st {
        RequirementScan::Start => if c == '(' {
            (RequirementScan::InequalityStart, start, found)
        } else if c == '[' {
            (RequirementScan::EqualityStart, start, found)
        } else {
            acc
        },
        RequirementScan::InequalityStart => if c == ',' {
            (RequirementScan::Lt, i + 1, found)
        } else if c == ' ' {
            acc
        } else {
            (RequirementScan::Gt, i, found)
        },
        RequirementScan::EqualityStart => if c == ' ' {
            acc
        } else {
            (RequirementScan::Eq, i, found)
        },
        RequirementScan::Eq => if c == ',' {
            match next_non_space(s, i + 1) {
                None => acc,
                Some(n) => (
                    if n == ')' {
                        RequirementScan::Start
                    } else {
                        RequirementScan::Lt
                    },
                    i + 1,
                    found.push((RangeKind::Ge, clean_version(s.subrange(start, i)))),
                ),
            }
        } else if c == ')' {
            (
                RequirementScan::Start,
                start,
                found.push((RangeKind::Ge, clean_version(s.subrange(start, i - 1)))),
            )
        } else if c == ']' {
            (
                RequirementScan::Start,
                start,
                found.push((RangeKind::Eq, clean_version(s.subrange(start, i)))),
            )
        } else {
            acc
        },
        RequirementScan::Lt => if c == ')' {
            (
                RequirementScan::Start,
                start,
                found.push((RangeKind::Lt, clean_version(s.subrange(start, i)))),
            )
        } else if c == ']' {
            (
                RequirementScan::Start,
                start,
                found.push((RangeKind::Le, clean_version(s.subrange(start, i)))),
            )
        } else {
            acc
        },
        RequirementScan::Gt => if c == ',' {
            match next_non_space(s, i + 1) {
                None => acc,
                Some(n) => (
                    if n == ')' {
                        RequirementScan::Start
                    } else {
                        RequirementScan::Lt
                    },
                    i + 1,
                    found.push((RangeKind::Gt, clean_version(s.subrange(start, i)))),
                ),
            }
        } else if c == ')' {
            (
                RequirementScan::Start,
                start,
                found.push((RangeKind::Gt, clean_version(s.subrange(start, i - 1)))),
            )
        } else if c == ']' {
            (
                RequirementScan::Start,
                start,
                found.push((RangeKind::Ge, clean_version(s.subrange(start, i)))),
            )
        } else {
            acc
        },
    }
}

/// The requirement scanner after the first `n` characters of `s`.
pub open spec fn req_scan(s: Seq<char>, n: int) -> ReqScanState
    decreases n,
{
    if n <= 0 {
        (RequirementScan::Start, 0, Seq::empty())
    } else {
        req_step(s, n - 1, req_scan(s, n - 1))
    }
}

/// What parsing a requirement text gives. The text is read character by
/// character; positions are character positions, not byte offsets.
pub open spec fn spec_parse_requirement(s: Seq<char>) -> RequirementView {
    let t = trim(s);
    if t.len() == 0 {
        RequirementView::Unset
    } else if t[0] != '(' && t[0] != '[' {
        RequirementView::Soft(t)
    } else {
        RequirementView::Hard(req_scan(t, t.len() as int).2)
    }
}

proof fn lemma_req_scan_bounds(s: Seq<char>, n: int)
    requires
        0 <= n <= s.len(),
    ensures
        0 <= req_scan(s, n).1 <= n,
        (req_scan(s, n).0 == RequirementScan::Eq || req_scan(s, n).0 == RequirementScan::Gt)
            ==> req_scan(s, n).1 < n,
    decreases n,
{
    if n > 0 {
        lemma_req_scan_bounds(s, n - 1);
    }
}

/// A cleaned version cut out of `v[from..to]`.
fn clean_version_of(v: &Vec<char>, from: usize, to: usize) -> (r: String)
    requires
        from <= to <= v.len(),
    ensures
        r@ == clean_version(v@.subrange(from as int, to as int)),
{
    let (lo, hi) = trim_range(v, from, to);
    let hi2 = trim_end_char_range(v, lo, hi, ',');
    let hi3 = trim_end_range(v, lo, hi2);
    string_from(v, lo, hi3)
}

/// The first character at or after `j` that is not a space.
fn next_non_space_exec(v: &Vec<char>, j: usize) -> (r: Option<char>)
    requires
        j <= v.len(),
    ensures
        r == next_non_space(v@, j as int),
{
    let mut k = j;
    while k < v.len() && v[k] == ' '
        invariant
            j <= k <= v.len(),
            next_non_space(v@, j as int) == next_non_space(v@, k as int),
        decreases v.len() - k,
    {
        k += 1;
    }
    if k < v.len() {
        Some(v[k])
    } else {
        None
    }
}

/// The characters `v[from..to]` as a vector.
pub fn sub_chars(v: &Vec<char>, from: usize, to: usize) -> (r: Vec<char>)
    requires
        from <= to <= v.len(),
    ensures
        r@ == v@.subrange(from as int, to as int),
{
    let mut r: Vec<char> = Vec::new();
    let mut i = from;
    while i < to
        invariant
            from <= i <= to <= v.len(),
            r@ == v@.subrange(from as int, i as int),
        decreases to - i,
    {
        r.push(v[i]);
        assert(v@.subrange(from as int, i + 1) == v@.subrange(from as int, i as int).push(
            v@[i as int],
        ));
        i += 1;
    }
    r
}

impl VersionRequirement {
    pub fn is_soft(&self) -> (r: bool)
        ensures
            r == (self@ is Soft),
    {
        match self {
            VersionRequirement::Soft(_) => true,
            _ => false,
        }
    }

    pub fn is_hard(&self) -> (r: bool)
        ensures
            r == (self@ is Hard),
    {
        match self {
            VersionRequirement::Hard(_) => true,
            _ => false,
        }
    }

    pub fn is_unset(&self) -> (r: bool)
        ensures
            r == (self@ is Unset),
    {
        match self {
            VersionRequirement::Unset => true,
            _ => false,
        }
    }

    /// Parses a requirement text, slicing it by characters (not bytes).
    pub fn from_text(s: &str) -> (r: VersionRequirement)
        ensures
            r@ == spec_parse_requirement(s@),
    {
        let all = chars_of(s);
        let (lo, hi) = trim_range(&all, 0, all.len());
        assert(all@.subrange(0, all@.len() as int) == all@);
        let t = sub_chars(&all, lo, hi);
        if t.len() == 0 {
            return VersionRequirement::Unset;
        }
        if t[0] != '(' && t[0] != '[' {
            return VersionRequirement::Soft(string_of(&t));
        }
        let mut versions: Vec<VersionRange> = Vec::new();
        let mut st = RequirementScan::Start;
        let mut start: usize = 0;
        let mut i: usize = 0;
        while i < t.len()
            invariant
                i <= t.len(),
                (st, start as int, ranges_view(versions@)) == req_scan(t@, i as int),
            decreases t.len() - i,
        {
            proof {
                lemma_req_scan_bounds(t@, i as int);
            }
            let c = t[i];
            let ghost prev = versions@;
            match st {
                RequirementScan::Start => {
                    if c == '(' {
                        st = RequirementScan::InequalityStart;
                    } else if c == '[' {
                        st = RequirementScan::EqualityStart;
                    }
                },
                RequirementScan::InequalityStart => {
                    if c == ',' {
                        st = RequirementScan::Lt;
                        start = i + 1;
                    } else if c != ' ' {
                        st = RequirementScan::Gt;
                        start = i;
                    }
                },
                RequirementScan::EqualityStart => {
                    if c != ' ' {
                        st = RequirementScan::Eq;
                        start = i;
                    }
                },
                RequirementScan::Eq | RequirementScan::Gt => {
                    let is_eq = match st {
                        RequirementScan::Eq => true,
                        _ => false,
                    };
                    if c == ',' {
                        match next_non_space_exec(&t, i + 1) {
                            None => {},
                            Some(n) => {
                                let ver = clean_version_of(&t, start, i);
                                let kind = if is_eq {
                                    RangeKind::Ge
                                } else {
                                    RangeKind::Gt
                                };
                                versions.push(VersionRange::with_kind(kind, ver));
                                st =
                                if n == ')' {
                                    RequirementScan::Start
                                } else {
                                    RequirementScan::Lt
                                };
                                start = i + 1;
                            },
                        }
                    } else if c == ')' {
                        let ver = clean_version_of(&t, start, i - 1);
                        let kind = if is_eq {
                            RangeKind::Ge
                        } else {
                            RangeKind::Gt
                        };
                        versions.push(VersionRange::with_kind(kind, ver));
                        st = RequirementScan::Start;
                    } else if c == ']' {
                        let ver = clean_version_of(&t, start, i);
                        let kind = if is_eq {
                            RangeKind::Eq
                        } else {
                            RangeKind::Ge
                        };
                        versions.push(VersionRange::with_kind(kind, ver));
                        st = RequirementScan::Start;
                    }
                },
                RequirementScan::Lt => {
                    if c == ')' {
                        let ver = clean_version_of(&t, start, i);
                        versions.push(VersionRange::Lt(ver));
                        st = RequirementScan::Start;
                    } else if c == ']' {
                        let ver = clean_version_of(&t, start, i);
                        versions.push(VersionRange::Le(ver));
                        st = RequirementScan::Start;
                    }
                },
            }
            proof {
                if versions@.len() == prev.len() + 1 {
                    assert(ranges_view(versions@) == ranges_view(prev).push(versions@.last()@));
                } else {
                    assert(versions@ == prev);
                }
            }
            i += 1;
        }
        VersionRequirement::Hard(versions)
    }
}

/// The text one range takes inside a requirement: `(v,)`, `[v,)`, `(,v)`,
/// `(,v]` or `[v]`.
pub open spec fn group_text(r: (RangeKind, Seq<char>)) -> Seq<char> {
    match r.0 {
        RangeKind::Gt => seq!['('] + r.1 + seq![',', ')'],
        RangeKind::Ge => seq!['['] + r.1 + seq![',', ')'],
        RangeKind::Lt => seq!['(', ','] + r.1 + seq![')'],
        RangeKind::Le => seq!['(', ','] + r.1 + seq![']'],
        RangeKind::Eq => seq!['['] + r.1 + seq![']'],
    }
}

/// The parts joined by commas.
pub open spec fn join_comma(ps: Seq<Seq<char>>) -> Seq<char>
    decreases ps.len(),
{
    if ps.len() == 0 {
        Seq::empty()
    } else if ps.len() == 1 {
        ps[0]
    } else {
        join_comma(ps.drop_last()) + seq![','] + ps.last()
    }
}

/// The version of the first `=` range, if there is one.
pub open spec fn first_eq(rs: Seq<(RangeKind, Seq<char>)>) -> Option<Seq<char>>
    decreases rs.len(),
{
    if rs.len() == 0 {
        None
    } else if rs[0].0 == RangeKind::Eq {
        Some(rs[0].1)
    } else {
        first_eq(rs.drop_first())
    }
}

/// The text a requirement prints to. A hard requirement holding an `=`
/// range prints only the first such range.
pub open spec fn requirement_text(r: RequirementView) -> Seq<char> {
    match r {
        RequirementView::Soft(v) => v,
        RequirementView::Unset => Seq::empty(),
        RequirementView::Hard(rs) => match first_eq(rs) {
            Some(v) => seq!['['] + v + seq![']'],
            None => join_comma(rs.map_values(|x: (RangeKind, Seq<char>)| group_text(x))),
        },
    }
}

proof fn lemma_first_eq_at(rs: Seq<(RangeKind, Seq<char>)>, i: int)
    requires
        0 <= i < rs.len(),
        rs[i].0 == RangeKind::Eq,
        forall|j: int| 0 <= j < i ==> rs[j].0 != RangeKind::Eq,
    ensures
        first_eq(rs) == Some(rs[i].1),
    decreases i,
{
    if i > 0 {
        let t = rs.drop_first();
        assert forall|j: int| 0 <= j < i - 1 implies t[j].0 != RangeKind::Eq by {
            assert(t[j] == rs[j + 1]);
        }
        lemma_first_eq_at(t, i - 1);
    }
}

proof fn lemma_first_eq_none(rs: Seq<(RangeKind, Seq<char>)>)
    requires
        forall|j: int| 0 <= j < rs.len() ==> rs[j].0 != RangeKind::Eq,
    ensures
        first_eq(rs) is None,
    decreases rs.len(),
{
    if rs.len() > 0 {
        let t = rs.drop_first();
        assert forall|j: int| 0 <= j < t.len() implies t[j].0 != RangeKind::Eq by {
            assert(t[j] == rs[j + 1]);
        }
        lemma_first_eq_none(t);
    }
}

/// The text one range takes inside a requirement.
fn group_string(r: &VersionRange) -> (s: String)
    ensures
        s@ == group_text(r@),
{
    proof {
        reveal_strlit("(");
        reveal_strlit("[");
        reveal_strlit("(,");
        reveal_strlit(",)");
        reveal_strlit(")");
        reveal_strlit("]");
    }
    let (open, v, close) = match r {
        VersionRange::Gt(v) => ("(", v, ",)"),
        VersionRange::Ge(v) => ("[", v, ",)"),
        VersionRange::Lt(v) => ("(,", v, ")"),
        VersionRange::Le(v) => ("(,", v, "]"),
        VersionRange::Eq(v) => ("[", v, "]"),
    };
    let mut s = str_to_string(open);
    append_str(&mut s, v.as_str());
    append_str(&mut s, close);
    s
}

impl VersionRange {
    /// The range that holds exactly where this one fails, for one-sided
    /// ranges; `=v` stays as it is.
    pub fn flip_range(range: VersionRange) -> (r: VersionRange)
        ensures
            r@ == flip_view(range@),
    {
        match range {
            VersionRange::Eq(v) => VersionRange::Eq(v),
            VersionRange::Gt(v) => VersionRange::Le(v),
            VersionRange::Ge(v) => VersionRange::Lt(v),
            VersionRange::Lt(v) => VersionRange::Ge(v),
            VersionRange::Le(v) => VersionRange::Gt(v),
        }
    }
}

/// `>v` becomes `<=v`, `>=v` becomes `<v` and back; `=v` is kept.
pub open spec fn flip_view(r: (RangeKind, Seq<char>)) -> (RangeKind, Seq<char>) {
    match r.0 {
        RangeKind::Eq => r,
        RangeKind::Gt => (RangeKind::Le, r.1),
        RangeKind::Ge => (RangeKind::Lt, r.1),
        RangeKind::Lt => (RangeKind::Ge, r.1),
        RangeKind::Le => (RangeKind::Gt, r.1),
    }
}

impl VersionRequirement {
    /// The text of this requirement, which `from_str` reads back.
    pub fn to_string(&self) -> (s: String)
        ensures
            s@ == requirement_text(self@),
    {
        match self {
            VersionRequirement::Soft(v) => v.clone(),
            VersionRequirement::Unset => String::new(),
            VersionRequirement::Hard(rs) => {
                let ghost view = ranges_view(rs@);
                let ghost groups = view.map_values(|x: (RangeKind, Seq<char>)| group_text(x));
                let mut out = String::new();
                let mut i: usize = 0;
                while i < rs.len()
                    invariant
                        i <= rs.len(),
                        view == ranges_view(rs@),
                        self@ == RequirementView::Hard(view),
                        groups == view.map_values(|x: (RangeKind, Seq<char>)| group_text(x)),
                        forall|j: int| 0 <= j < i ==> view[j].0 != RangeKind::Eq,
                        out@ == join_comma(groups.take(i as int)),
                    decreases rs.len() - i,
                {
                    let r = &rs[i];
                    if let VersionRange::Eq(v) = r {
                        proof {
                            assert(view[i as int] == rs@[i as int]@);
                            lemma_first_eq_at(view, i as int);
                            reveal_strlit("[");
                            reveal_strlit("]");
                        }
                        let mut e = str_to_string("[");
                        append_str(&mut e, v.as_str());
                        append_str(&mut e, "]");
                        return e;
                    }
                    let g = group_string(r);
                    proof {
                        reveal_strlit(",");
                        assert(groups.take(i + 1).drop_last() == groups.take(i as int));
                    }
                    if i > 0 {
                        append_str(&mut out, ",");
                    }
                    append_str(&mut out, g.as_str());
                    i += 1;
                }
                proof {
                    lemma_first_eq_none(view);
                    assert(groups.take(rs.len() as int) == groups);
                }
                out
            },
        }
    }
}


impl core::str::FromStr for VersionRequirement {
    type Err = core::convert::Infallible;

    /// Every text is a requirement: parsing never fails.
    fn from_str(s: &str) -> (r: Result<VersionRequirement, core::convert::Infallible>)
        ensures
            r matches Ok(x) && x@ == spec_parse_requirement(s@),
    {
        Ok(VersionRequirement::from_text(s))
    }
}

impl core::str::FromStr for VersionRange {
    type Err = RangeParseError;

    fn from_str(s: &str) -> (r: Result<VersionRange, RangeParseError>)
        ensures
            match (r, spec_parse_range(s@)) {
                (Ok(x), Ok(y)) => x@ == y,
                (Err(x), Err(y)) => x == y,
                _ => false,
            },
    {
        VersionRange::from_str(s)
    }
}

/// A version that can stand inside a bracketed range: bare, and without
/// `,`, `)` or `]`.
pub open spec fn group_version(v: Seq<char>) -> bool {
    &&& bare_version(v)
    &&& forall|j: int| 0 <= j < v.len() ==> #[trigger] v[j] != ',' && v[j] != ')' && v[j] != ']'
}

/// A requirement whose text reads back: a soft version that is bare and
/// does not open a bracket, or a hard requirement of at least one range,
/// each on a version that can stand inside brackets.
pub open spec fn requirement_reads_back(r: RequirementView) -> bool {
    match r {
        RequirementView::Unset => true,
        RequirementView::Soft(v) => bare_version(v) && v[0] != '(' && v[0] != '[',
        RequirementView::Hard(rs) => rs.len() > 0 && forall|k: int|
            0 <= k < rs.len() ==> group_version(#[trigger] rs[k].1),
    }
}

/// What a requirement reads back as from its text: itself, but a hard
/// requirement holding an `=` range keeps only the first such range.
pub open spec fn requirement_read_back(r: RequirementView) -> RequirementView {
    match r {
        RequirementView::Hard(rs) => match first_eq(rs) {
            Some(v) => RequirementView::Hard(seq![(RangeKind::Eq, v)]),
            None => r,
        },
        _ => r,
    }
}

proof fn lemma_clean_group_version(v: Seq<char>)
    requires
        group_version(v),
    ensures
        clean_version(v) == v,
{
    lemma_bare_trim(v);
    assert(v.last() == v[v.len() - 1]);
    assert(trim_end_char(v, ',') == v);
    assert(trim_end(v) == v);
}

proof fn lemma_first_eq_member(rs: Seq<(RangeKind, Seq<char>)>)
    requires
        first_eq(rs) is Some,
    ensures
        exists|i: int| 0 <= i < rs.len() && rs[i].0 == RangeKind::Eq && rs[i].1 == first_eq(rs)->Some_0,
    decreases rs.len(),
{
    if rs[0].0 != RangeKind::Eq {
        lemma_first_eq_member(rs.drop_first());
        let i = choose|i: int|
            0 <= i < rs.drop_first().len() && rs.drop_first()[i].0 == RangeKind::Eq
                && rs.drop_first()[i].1 == first_eq(rs.drop_first())->Some_0;
        assert(rs[i + 1] == rs.drop_first()[i]);
    } else {
        assert(rs[0].1 == first_eq(rs)->Some_0);
    }
}

/// Inside a version the scanner keeps its state.
proof fn lemma_req_scan_inside(s: Seq<char>, a: int, b: int)
    requires
        0 <= a <= b <= s.len(),
        req_scan(s, a).0 == RequirementScan::Eq || req_scan(s, a).0 == RequirementScan::Gt
            || req_scan(s, a).0 == RequirementScan::Lt,
        forall|j: int| a <= j < b ==> #[trigger] s[j] != ',' && s[j] != ')' && s[j] != ']',
    ensures
        req_scan(s, b) == req_scan(s, a),
    decreases b - a,
{
    if b > a {
        lemma_req_scan_inside(s, a, b - 1);
        assert(req_scan(s, b) == req_step(s, b - 1, req_scan(s, b - 1)));
        assert(s[b - 1] != ',' && s[b - 1] != ')' && s[b - 1] != ']');
    }
}

/// Scanning one range's text from the start state adds the range.
proof fn lemma_req_scan_group(s: Seq<char>, k: int, r: (RangeKind, Seq<char>))
    requires
        0 <= k,
        k + group_text(r).len() <= s.len(),
        s.subrange(k, k + group_text(r).len()) == group_text(r),
        req_scan(s, k).0 == RequirementScan::Start,
        group_version(r.1),
    ensures
        req_scan(s, k + group_text(r).len()).0 == RequirementScan::Start,
        req_scan(s, k + group_text(r).len()).2 == req_scan(s, k).2.push(r),
{
    let g = group_text(r);
    let v = r.1;
    let n: int = v.len() as int;
    let found = req_scan(s, k).2;
    lemma_clean_group_version(v);
    assert forall|j: int| 0 <= j < g.len() implies s[k + j] == g[j] by {
        assert(s.subrange(k, k + g.len())[j] == s[k + j]);
    }
    assert(!is_ws(v[0]));
    assert(v[0] != ' ');
    assert forall|j: int| 0 <= j < n implies #[trigger] v[j] != ',' && v[j] != ')' && v[j] != ']' by {
        assert(group_version(v));
    }
    match r.0 {
        RangeKind::Gt | RangeKind::Ge => {
            // `(v,)` or `[v,)`
            assert(g.len() == n + 3);
            assert(g[1] == v[0]);
            assert(s[k] == g[0]);
            assert(s[k + 1] == g[1]);
            assert(v[0] != ',');
            assert(req_scan(s, k + 1) == req_step(s, k, req_scan(s, k)));
            assert(req_scan(s, k + 2) == req_step(s, k + 1, req_scan(s, k + 1)));
            let st = if r.0 == RangeKind::Gt { RequirementScan::Gt } else { RequirementScan::Eq };
            assert(req_scan(s, k + 2) == (st, k + 1, found));
            assert forall|j: int| k + 2 <= j < k + 1 + n implies #[trigger] s[j] != ',' && s[j] != ')' && s[j] != ']' by {
                assert(s[j] == g[j - k]);
                assert(g[j - k] == v[j - k - 1]);
            }
            lemma_req_scan_inside(s, k + 2, k + 1 + n);
            assert(g[n + 1] == ',' && g[n + 2] == ')');
            assert(s[k + 1 + n] == g[n + 1]);
            assert(s[k + 2 + n] == g[n + 2]);
            assert(next_non_space(s, k + 2 + n) == Some(')'));
            assert(s.subrange(k + 1, k + 1 + n) =~= v) by {
                assert forall|j: int| 0 <= j < n implies s.subrange(k + 1, k + 1 + n)[j] == v[j] by {
                    assert(s[k + 1 + j] == g[1 + j]);
                }
            }
            assert(req_scan(s, k + 2 + n) == req_step(s, k + 1 + n, req_scan(s, k + 1 + n)));
            assert(req_scan(s, k + 3 + n) == req_step(s, k + 2 + n, req_scan(s, k + 2 + n)));
        },
        RangeKind::Lt | RangeKind::Le => {
            // `(,v)` or `(,v]`
            assert(g.len() == n + 3);
            assert(g[0] == '(' && g[1] == ',');
            assert(s[k] == g[0] && s[k + 1] == g[1]);
            assert(g[n + 2] == (if r.0 == RangeKind::Lt { ')' } else { ']' }));
            assert(s[k + 2 + n] == g[n + 2]);
            assert(req_scan(s, k + 1) == req_step(s, k, req_scan(s, k)));
            assert(req_scan(s, k + 2) == req_step(s, k + 1, req_scan(s, k + 1)));
            assert(req_scan(s, k + 2) == (RequirementScan::Lt, k + 2, found));
            assert forall|j: int| k + 2 <= j < k + 2 + n implies #[trigger] s[j] != ',' && s[j] != ')' && s[j] != ']' by {
                assert(s[j] == g[j - k]);
                assert(g[j - k] == v[j - k - 2]);
            }
            lemma_req_scan_inside(s, k + 2, k + 2 + n);
            assert(s.subrange(k + 2, k + 2 + n) =~= v) by {
                assert forall|j: int| 0 <= j < n implies s.subrange(k + 2, k + 2 + n)[j] == v[j] by {
                    assert(s[k + 2 + j] == g[2 + j]);
                }
            }
            assert(req_scan(s, k + 3 + n) == req_step(s, k + 2 + n, req_scan(s, k + 2 + n)));
        },
        RangeKind::Eq => {
            // `[v]`
            assert(g.len() == n + 2);
            assert(g[1] == v[0]);
            assert(s[k] == g[0]);
            assert(s[k + 1] == g[1]);
            assert(req_scan(s, k + 1) == req_step(s, k, req_scan(s, k)));
            assert(req_scan(s, k + 2) == req_step(s, k + 1, req_scan(s, k + 1)));
            assert(req_scan(s, k + 2) == (RequirementScan::Eq, k + 1, found));
            assert forall|j: int| k + 2 <= j < k + 1 + n implies #[trigger] s[j] != ',' && s[j] != ')' && s[j] != ']' by {
                assert(s[j] == g[j - k]);
                assert(g[j - k] == v[j - k - 1]);
            }
            lemma_req_scan_inside(s, k + 2, k + 1 + n);
            assert(s.subrange(k + 1, k + 1 + n) =~= v) by {
                assert forall|j: int| 0 <= j < n implies s.subrange(k + 1, k + 1 + n)[j] == v[j] by {
                    assert(s[k + 1 + j] == g[1 + j]);
                }
            }
            assert(g[n + 1] == ']');
            assert(s[k + 1 + n] == g[n + 1]);
            assert(req_scan(s, k + 2 + n) == req_step(s, k + 1 + n, req_scan(s, k + 1 + n)));
        },
    }
}

proof fn lemma_join_comma_step(gs: Seq<Seq<char>>, m: int)
    requires
        1 <= m < gs.len(),
    ensures
        join_comma(gs.take(m + 1)) == join_comma(gs.take(m)) + seq![','] + gs[m],
{
    assert(gs.take(m + 1).drop_last() =~= gs.take(m));
}

proof fn lemma_join_comma_prefix(gs: Seq<Seq<char>>, m: int)
    requires
        1 <= m <= gs.len(),
    ensures
        join_comma(gs.take(m)).len() <= join_comma(gs).len(),
        join_comma(gs).subrange(0, join_comma(gs.take(m)).len() as int) == join_comma(gs.take(m)),
    decreases gs.len() - m,
{
    if m == gs.len() {
        assert(gs.take(m) =~= gs);
        assert(join_comma(gs).subrange(0, join_comma(gs).len() as int) =~= join_comma(gs));
    } else {
        lemma_join_comma_prefix(gs, m + 1);
        lemma_join_comma_step(gs, m);
        let a = join_comma(gs.take(m));
        let b = join_comma(gs.take(m + 1));
        let s = join_comma(gs);
        assert(s.subrange(0, a.len() as int) =~= b.subrange(0, a.len() as int));
        assert(b.subrange(0, a.len() as int) =~= a);
    }
}

proof fn lemma_req_scan_joined(rs: Seq<(RangeKind, Seq<char>)>, m: int)
    requires
        1 <= m <= rs.len(),
        forall|k: int| 0 <= k < rs.len() ==> group_version(#[trigger] rs[k].1),
    ensures
        ({
            let gs = rs.map_values(|x: (RangeKind, Seq<char>)| group_text(x));
            let s = join_comma(gs);
            let p = join_comma(gs.take(m)).len() as int;
            req_scan(s, p).0 == RequirementScan::Start && req_scan(s, p).2 == rs.take(m)
        }),
    decreases m,
{
    let gs = rs.map_values(|x: (RangeKind, Seq<char>)| group_text(x));
    let s = join_comma(gs);
    lemma_join_comma_prefix(gs, m);
    assert(group_version(rs[m - 1].1));
    if m == 1 {
        assert(join_comma(gs.take(1)) == gs[0]);
        assert(gs[0] == group_text(rs[0]));
        assert(req_scan(s, 0) == (RequirementScan::Start, 0int, Seq::<(RangeKind, Seq<char>)>::empty()));
        lemma_req_scan_group(s, 0, rs[0]);
        assert(rs.take(1) =~= seq![rs[0]]);
    } else {
        lemma_req_scan_joined(rs, m - 1);
        lemma_join_comma_step(gs, m - 1);
        lemma_join_comma_prefix(gs, m - 1);
        let q = join_comma(gs.take(m - 1)).len() as int;
        let whole = join_comma(gs.take(m));
        assert(whole == join_comma(gs.take(m - 1)) + seq![','] + gs[m - 1]);
        assert(s[q] == whole[q]);
        assert(s[q] == ',');
        assert(req_scan(s, q + 1) == req_step(s, q, req_scan(s, q)));
        assert(gs[m - 1] == group_text(rs[m - 1]));
        let gm = gs[m - 1];
        let sub = s.subrange(q + 1, q + 1 + gm.len());
        assert(sub =~= gm) by {
            assert forall|j: int| 0 <= j < gm.len() implies #[trigger] sub[j] == gm[j] by {
                assert(s[q + 1 + j] == whole[q + 1 + j]);
            }
        }
        lemma_req_scan_group(s, q + 1, rs[m - 1]);
        assert(rs.take(m) =~= rs.take(m - 1).push(rs[m - 1]));
    }
}

proof fn lemma_trim_framed(s: Seq<char>)
    requires
        s.len() > 0,
        !is_ws(s[0]),
        !is_ws(s.last()),
    ensures
        trim(s) == s,
{
    assert(trim_start(s) == s);
    assert(trim_end(s) == s);
}

/// Printing a requirement and parsing the text gives the requirement back,
/// but for a hard requirement holding an `=` range, which prints, and so
/// reads back as, its first such range alone.
pub proof fn lemma_requirement_text_round_trip(r: RequirementView)
    requires
        requirement_reads_back(r),
    ensures
        spec_parse_requirement(requirement_text(r)) == requirement_read_back(r),
{
    match r {
        RequirementView::Unset => {
            assert(trim(Seq::<char>::empty()) =~= Seq::<char>::empty());
        },
        RequirementView::Soft(v) => {
            lemma_bare_trim(v);
        },
        RequirementView::Hard(rs) => match first_eq(rs) {
            Some(v) => {
                lemma_first_eq_member(rs);
                let i = choose|i: int| 0 <= i < rs.len() && rs[i].0 == RangeKind::Eq && rs[i].1 == v;
                assert(group_version(rs[i].1));
                let t = seq!['['] + v + seq![']'];
                assert(t == group_text((RangeKind::Eq, v)));
                lemma_trim_framed(t);
                assert(req_scan(t, 0) == (RequirementScan::Start, 0int, Seq::<(RangeKind, Seq<char>)>::empty()));
                assert(t.subrange(0, t.len() as int) =~= t);
                lemma_req_scan_group(t, 0, (RangeKind::Eq, v));
                assert(Seq::<(RangeKind, Seq<char>)>::empty().push((RangeKind::Eq, v)) =~= seq![(RangeKind::Eq, v)]);
            },
            None => {
                let gs = rs.map_values(|x: (RangeKind, Seq<char>)| group_text(x));
                let s = join_comma(gs);
                lemma_req_scan_joined(rs, rs.len() as int);
                assert(gs.take(rs.len() as int) =~= gs);
                assert(rs.take(rs.len() as int) =~= rs);
                lemma_join_comma_prefix(gs, 1);
                assert(join_comma(gs.take(1)) == gs[0]);
                assert(gs[0] == group_text(rs[0]));
                assert(s[0] == gs[0][0]);
                assert(group_version(rs[rs.len() - 1].1));
                if rs.len() > 1 {
                    lemma_join_comma_step(gs, rs.len() - 1);
                    assert(gs.take(rs.len() as int) =~= gs);
                }
                assert(s.last() == gs[rs.len() - 1].last());
                assert(gs[rs.len() - 1] == group_text(rs[rs.len() - 1]));
                lemma_trim_framed(s);
            },
        },
    }
}

} // verus!
