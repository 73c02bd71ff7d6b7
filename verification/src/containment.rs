//! Shrinking a constraint so that it also holds a hard version requirement.
//!
//! The ranges of the requirement and the bounds of the constraint are laid on
//! a number line, sorted, paired into intervals, and the intervals give the
//! new bounds, the excluded regions between them and any exact version.
use vstd::prelude::*;
use vstd::std_specs::cmp::PartialOrdSpecImpl;
use std::cmp::Ordering;
use crate::constraint::{
    clone_bound, clone_opt_string, fits_bounds, within_range_defined, spec_within_range,
    Constraint, ConstraintView, RangeV, VersionCompareError,
};
use crate::verorder::{
    compare_versions, compare_versions_to, spec_version_compare, spec_version_compare_to,
    VersionRel,
};
use crate::version::{
    clone_ranges, flip_view, ranges_view, RangeKind, RequirementView, VersionRange,
    VersionRequirement,
};

verus! {

/// The outcome of comparing two ranges on the number line.
#[derive(Clone, Copy, PartialEq, Eq, Debug)]
pub enum RelOrder {
    Less,
    Equal,
    Greater,
}

/// The order of two ranges on the number line: by version, and for equal
/// versions `>v` lies right of `>=v` and `<=v` right of `<v`.
pub open spec fn range_order(a: RangeV, b: RangeV) -> RelOrder {
    match spec_version_compare(a.1, b.1) {
        Some(VersionRel::Lt) => RelOrder::Less,
        Some(VersionRel::Gt) => RelOrder::Greater,
        _ => if a.0 == RangeKind::Gt && b.0 == RangeKind::Ge {
            RelOrder::Greater
        } else if a.0 == RangeKind::Ge && b.0 == RangeKind::Gt {
            RelOrder::Less
        } else if a.0 == RangeKind::Le && b.0 == RangeKind::Lt {
            RelOrder::Greater
        } else if a.0 == RangeKind::Lt && b.0 == RangeKind::Le {
            RelOrder::Less
        } else {
            RelOrder::Equal
        },
    }
}

/// Where a stable insertion puts `x` into `s`: after every element that is
/// not greater than it, counting from the right.
pub open spec fn insert_pos(s: Seq<RangeV>, x: RangeV) -> int
    decreases s.len(),
{
    if s.len() == 0 {
        0
    } else if range_order(s.last(), x) == RelOrder::Greater {
        insert_pos(s.drop_last(), x)
    } else {
        s.len() as int
    }
}

/// Stable insertion sort of ranges by `range_order`.
pub open spec fn sort_ranges(s: Seq<RangeV>) -> Seq<RangeV>
    decreases s.len(),
{
    if s.len() == 0 {
        s
    } else {
        let t = sort_ranges(s.drop_last());
        t.insert(insert_pos(t, s.last()), s.last())
    }
}

/// An end of an interval on the number line.
pub enum EdgeV {
    Infinity,
    Bound(RangeV),
}

/// Ranges still open, intervals found, and exact versions met, while
/// walking the sorted number line.
pub type Collected = (Seq<RangeV>, Seq<(EdgeV, EdgeV)>, Seq<Seq<char>>);

pub open spec fn collect_step(acc: Collected, x: RangeV) -> Collected {
    let (stack, pairs, exacts) = acc;
    match x.0 {
        RangeKind::Ge | RangeKind::Gt => (stack.push(x), pairs, exacts),
        RangeKind::Le | RangeKind::Lt => if stack.len() > 0 {
            (stack.drop_last(), pairs.push((EdgeV::Bound(stack.last()), EdgeV::Bound(x))), exacts)
        } else {
            (stack, pairs.push((EdgeV::Infinity, EdgeV::Bound(x))), exacts)
        },
        RangeKind::Eq => (stack, pairs, exacts.push(x.1)),
    }
}

pub open spec fn collect(s: Seq<RangeV>, n: int) -> Collected
    decreases n,
{
    if n <= 0 {
        (Seq::empty(), Seq::empty(), Seq::empty())
    } else {
        collect_step(collect(s, n - 1), s[n - 1])
    }
}

/// Lower bound, upper bound and excluded regions while walking the intervals.
pub type MinMax = (Option<EdgeV>, Option<EdgeV>, Seq<(RangeV, RangeV)>);

/// One interval: when it starts right of the lower bound and an upper bound
/// is known, the gap between that upper bound and this start is excluded and
/// the interval's end becomes the upper bound.
pub open spec fn pair_step(acc: MinMax, p: (EdgeV, EdgeV)) -> MinMax {
    let (min, max, ex) = acc;
    let (start, end) = p;
    let gap = match start {
        EdgeV::Infinity => false,
        EdgeV::Bound(c) => match min {
            Some(EdgeV::Infinity) => true,
            Some(EdgeV::Bound(mb)) => range_order(c, mb) == RelOrder::Greater,
            None => false,
        },
    };
    if gap && max matches Some(EdgeV::Bound(r)) {
        let c = start->Bound_0;
        let r = max->Some_0->Bound_0;
        (min, Some(end), ex.push((flip_view(r), flip_view(c))))
    } else {
        let min2 = if min is None {
            Some(start)
        } else {
            min
        };
        let max2 = if max is None {
            Some(end)
        } else {
            max
        };
        (min2, max2, ex)
    }
}

pub open spec fn pair_fold(pairs: Seq<(EdgeV, EdgeV)>, n: int, init: MinMax) -> MinMax
    decreases n,
{
    if n <= 0 {
        init
    } else {
        pair_step(pair_fold(pairs, n - 1, init), pairs[n - 1])
    }
}

/// Why a constraint cannot hold a requirement.
#[derive(Debug, PartialEq, Eq, Clone, Copy)]
pub enum ContainError {
    /// The new lower bound lies below the previous one.
    MinMoved,
    /// The new upper bound lies above the previous one.
    MaxMoved,
    /// Two different exact versions were required.
    ConflictingExact,
    /// An exact version could not be compared with the bounds.
    Compare,
    /// An exact version lies outside the bounds.
    ExactOutOfRange,
    /// The exact version lies in an excluded region.
    ExactExcluded,
    /// Both bounds lie in one excluded region.
    BoundsExcluded,
}

pub open spec fn is_inclusive(k: RangeKind) -> bool {
    k == RangeKind::Ge || k == RangeKind::Le
}

pub open spec fn range_of_min(b: Option<(bool, Seq<char>)>) -> Seq<RangeV> {
    match b {
        Some((inc, v)) => seq![(if inc { RangeKind::Ge } else { RangeKind::Gt }, v)],
        None => Seq::empty(),
    }
}

pub open spec fn range_of_max(b: Option<(bool, Seq<char>)>) -> Seq<RangeV> {
    match b {
        Some((inc, v)) => seq![(if inc { RangeKind::Le } else { RangeKind::Lt }, v)],
        None => Seq::empty(),
    }
}

/// The number line: the current bounds, then the requirement's ranges.
pub open spec fn number_line(c: ConstraintView, hs: Seq<RangeV>) -> Seq<RangeV> {
    range_of_min(c.min) + range_of_max(c.max) + hs
}

/// Sets the new lower bound, refusing one left of the previous bound.
pub open spec fn settle_min(c: ConstraintView, min: Option<EdgeV>, old: Option<(bool, Seq<char>)>) -> (
    ConstraintView,
    Result<(), ContainError>,
) {
    match min {
        Some(EdgeV::Bound(r)) => {
            let set = ConstraintView { min: Some((is_inclusive(r.0), r.1)), ..c };
            match old {
                Some(_) => if range_order(r, range_of_min(old)[0]) != RelOrder::Less {
                    (set, Ok(()))
                } else {
                    (c, Err(ContainError::MinMoved))
                },
                None => (set, Ok(())),
            }
        },
        _ => (c, Ok(())),
    }
}

/// Sets the new upper bound, refusing one right of the previous bound.
pub open spec fn settle_max(c: ConstraintView, max: Option<EdgeV>, old: Option<(bool, Seq<char>)>) -> (
    ConstraintView,
    Result<(), ContainError>,
) {
    match max {
        Some(EdgeV::Bound(r)) => {
            let set = ConstraintView { max: Some((is_inclusive(r.0), r.1)), ..c };
            match old {
                Some(_) => if range_order(range_of_max(old)[0], r) != RelOrder::Less {
                    (set, Ok(()))
                } else {
                    (c, Err(ContainError::MaxMoved))
                },
                None => (set, Ok(())),
            }
        },
        _ => (c, Ok(())),
    }
}

/// Takes the exact versions one by one.
pub open spec fn settle_exacts(c: ConstraintView, exacts: Seq<Seq<char>>, n: int) -> (
    ConstraintView,
    Result<(), ContainError>,
)
    decreases n,
{
    if n <= 0 {
        (c, Ok(()))
    } else {
        let (c1, r) = settle_exacts(c, exacts, n - 1);
        if r is Err {
            (c1, r)
        } else {
            let v = exacts[n - 1];
            match c1.exact {
                Some(e) => if spec_version_compare_to(v, e, VersionRel::Eq) == Some(true) {
                    (c1, Ok(()))
                } else {
                    (c1, Err(ContainError::ConflictingExact))
                },
                None => match fits_bounds(c1, v) {
                    None => (c1, Err(ContainError::Compare)),
                    Some(false) => (c1, Err(ContainError::ExactOutOfRange)),
                    Some(true) => (ConstraintView { exact: Some(v), ..c1 }, Ok(())),
                },
            }
        }
    }
}

/// The first excluded region that holds the exact version or both bounds.
pub open spec fn exclusion_conflict(c: ConstraintView, n: int) -> Option<ContainError>
    decreases n,
{
    if n <= 0 {
        None
    } else {
        match exclusion_conflict(c, n - 1) {
            Some(e) => Some(e),
            None => {
                let (s, e) = c.exclusions[n - 1];
                if c.exact matches Some(x) && spec_within_range(x, s, e) {
                    Some(ContainError::ExactExcluded)
                } else if c.min is Some && c.max is Some && spec_within_range(
                    c.min->Some_0.1,
                    s,
                    e,
                ) && spec_within_range(c.max->Some_0.1, s, e) {
                    Some(ContainError::BoundsExcluded)
                } else {
                    None
                }
            },
        }
    }
}

/// What containing the requirement `r` does to the constraint `c`: the
/// constraint afterwards (also when it fails part way) and the outcome.
pub open spec fn spec_contain(c: ConstraintView, r: RequirementView) -> (
    ConstraintView,
    Result<(), ContainError>,
) {
    match r {
        RequirementView::Hard(hs) => {
            let line = sort_ranges(number_line(c, hs));
            let (stack, pairs0, exacts) = collect(line, line.len() as int);
            let straggler_min = if stack.len() > 0 && pairs0.len() == 0 {
                Some((is_inclusive(stack.last().0), stack.last().1))
            } else {
                None
            };
            let pairs = if stack.len() > 0 && pairs0.len() > 0 {
                pairs0.push((EdgeV::Bound(stack.last()), EdgeV::Infinity))
            } else {
                pairs0
            };
            let (min, max, ex) = pair_fold(pairs, pairs.len() as int, (None, None, c.exclusions));
            let base = ConstraintView {
                min: straggler_min,
                max: None,
                exact: c.exact,
                exclusions: ex,
            };
            let (c1, r1) = settle_min(base, min, c.min);
            if r1 is Err {
                (c1, r1)
            } else {
                let (c2, r2) = settle_max(c1, max, c.max);
                if r2 is Err {
                    (c2, r2)
                } else {
                    let (c3, r3) = settle_exacts(c2, exacts, exacts.len() as int);
                    if r3 is Err {
                        (c3, r3)
                    } else {
                        match exclusion_conflict(c3, c3.exclusions.len() as int) {
                            Some(e) => (c3, Err(e)),
                            None => (c3, Ok(())),
                        }
                    }
                }
            }
        },
        _ => (c, Ok(())),
    }
}

/// Every version the constraint and the requirement mention.
pub open spec fn versions_of(c: ConstraintView, r: RequirementView) -> Seq<Seq<char>> {
    let hs = match r {
        RequirementView::Hard(hs) => hs,
        _ => Seq::empty(),
    };
    number_line(c, hs).map_values(|x: RangeV| x.1) + (match c.exact {
        Some(e) => seq![e],
        None => Seq::empty(),
    }) + c.exclusions.map_values(|p: (RangeV, RangeV)| p.0.1) + c.exclusions.map_values(
        |p: (RangeV, RangeV)| p.1.1,
    )
}

/// Any two of the versions can be compared.
pub open spec fn comparable(s: Seq<Seq<char>>) -> bool {
    forall|a: Seq<char>, b: Seq<char>|
        s.contains(a) && s.contains(b) ==> (#[trigger] spec_version_compare(a, b)) is Some
}

/// An end of an interval on the number line.
pub enum Edge {
    Infinity,
    Bound(VersionRange),
}

impl View for Edge {
    type V = EdgeV;

    open spec fn view(&self) -> EdgeV {
        match self {
            Edge::Infinity => EdgeV::Infinity,
            Edge::Bound(r) => EdgeV::Bound(r@),
        }
    }
}

pub open spec fn pairs_view(p: Seq<(Edge, Edge)>) -> Seq<(EdgeV, EdgeV)> {
    p.map_values(|x: (Edge, Edge)| (x.0@, x.1@))
}

pub open spec fn strings_view(p: Seq<String>) -> Seq<Seq<char>> {
    p.map_values(|x: String| x@)
}

/// The order of two ranges on the number line.
pub fn order_of(a: &VersionRange, b: &VersionRange) -> (r: RelOrder)
    ensures
        r == range_order(a@, b@),
{
    match compare_versions(a.version().as_str(), b.version().as_str()) {
        Some(VersionRel::Lt) => RelOrder::Less,
        Some(VersionRel::Gt) => RelOrder::Greater,
        _ => match (a, b) {
            (VersionRange::Gt(_), VersionRange::Ge(_)) => RelOrder::Greater,
            (VersionRange::Ge(_), VersionRange::Gt(_)) => RelOrder::Less,
            (VersionRange::Le(_), VersionRange::Lt(_)) => RelOrder::Greater,
            (VersionRange::Lt(_), VersionRange::Le(_)) => RelOrder::Less,
            _ => RelOrder::Equal,
        },
    }
}

/// How two ranges are ordered on the number line: by their versions, and
/// for equal versions `>v` after `>=v` and `<=v` after `<v`; unordered where
/// the versions cannot be compared.
pub open spec fn range_partial_order(a: RangeV, b: RangeV) -> Option<Ordering> {
    match spec_version_compare(a.1, b.1) {
        Some(VersionRel::Lt) => Some(Ordering::Less),
        Some(VersionRel::Gt) => Some(Ordering::Greater),
        Some(VersionRel::Eq) => match range_order(a, b) {
            RelOrder::Less => Some(Ordering::Less),
            RelOrder::Greater => Some(Ordering::Greater),
            RelOrder::Equal => Some(Ordering::Equal),
        },
        _ => None,
    }
}

impl PartialOrd for VersionRange {
    fn partial_cmp(&self, other: &Self) -> (r: Option<Ordering>) {
        match compare_versions(self.version().as_str(), other.version().as_str()) {
            Some(VersionRel::Lt) => Some(Ordering::Less),
            Some(VersionRel::Gt) => Some(Ordering::Greater),
            Some(VersionRel::Eq) => match order_of(self, other) {
                RelOrder::Less => Some(Ordering::Less),
                RelOrder::Greater => Some(Ordering::Greater),
                RelOrder::Equal => Some(Ordering::Equal),
            },
            _ => None,
        }
    }
}

impl PartialOrdSpecImpl for VersionRange {
    open spec fn obeys_partial_cmp_spec() -> bool {
        true
    }

    open spec fn partial_cmp_spec(&self, other: &Self) -> Option<Ordering> {
        range_partial_order(self@, other@)
    }
}

proof fn lemma_insert_pos_bounds(s: Seq<RangeV>, x: RangeV)
    ensures
        0 <= insert_pos(s, x) <= s.len(),
    decreases s.len(),
{
    if s.len() > 0 {
        lemma_insert_pos_bounds(s.drop_last(), x);
    }
}

/// Every element of the sorted sequence comes from the input.
pub proof fn lemma_sort_members(s: Seq<RangeV>)
    ensures
        sort_ranges(s).len() == s.len(),
        forall|y: RangeV| sort_ranges(s).contains(y) ==> s.contains(y),
    decreases s.len(),
{
    if s.len() > 0 {
        let t = sort_ranges(s.drop_last());
        let x = s.last();
        lemma_sort_members(s.drop_last());
        lemma_insert_pos_bounds(t, x);
        let p = insert_pos(t, x);
        let u = t.insert(p, x);
        assert forall|y: RangeV| u.contains(y) implies s.contains(y) by {
            let k = choose|k: int| 0 <= k < u.len() && u[k] == y;
            if k == p {
                assert(s[s.len() - 1] == y);
            } else {
                let m = if k < p { k } else { k - 1 };
                assert(u[k] == t[m]);
                assert(t.contains(y));
                assert(s.drop_last().contains(y));
                let j = choose|j: int| 0 <= j < s.drop_last().len() && s.drop_last()[j] == y;
                assert(s[j] == y);
            }
        }
    }
}

/// Sorts the number line with a stable insertion sort.
pub fn sort_line(v: &Vec<VersionRange>) -> (out: Vec<VersionRange>)
    ensures
        ranges_view(out@) == sort_ranges(ranges_view(v@)),
{
    let mut out: Vec<VersionRange> = Vec::new();
    let mut i: usize = 0;
    while i < v.len()
        invariant
            i <= v.len(),
            ranges_view(out@) == sort_ranges(ranges_view(v@).take(i as int)),
        decreases v.len() - i,
    {
        let x = v[i].clone();
        let ghost s = ranges_view(out@);
        let mut j = out.len();
        assert(s.take(j as int) == s);
        while j > 0 && matches!(order_of(&out[j - 1], &x), RelOrder::Greater)
            invariant
                j <= out.len(),
                s == ranges_view(out@),
                insert_pos(s, x@) == insert_pos(s.take(j as int), x@),
            decreases j,
        {
            proof {
                assert(s.take(j as int).drop_last() == s.take(j - 1));
                assert(s.take(j as int).last() == out@[j - 1]@);
            }
            j -= 1;
        }
        proof {
            if j > 0 {
                assert(s.take(j as int).last() == out@[j - 1]@);
                assert(s.take(j as int).len() == j);
            }
            assert(ranges_view(v@).take(i + 1).drop_last() == ranges_view(v@).take(i as int));
            assert(ranges_view(v@).take(i + 1).last() == v@[i as int]@);
        }
        out.insert(j, x);
        proof {
            assert(ranges_view(out@) =~= s.insert(j as int, x@));
        }
        i += 1;
    }
    proof {
        assert(ranges_view(v@).take(v.len() as int) == ranges_view(v@));
    }
    out
}

/// Walks the sorted number line, pairing each upper range with the last
/// open lower range.
pub fn collect_line(line: &Vec<VersionRange>) -> (r: (Vec<VersionRange>, Vec<(Edge, Edge)>, Vec<String>))
    ensures
        (ranges_view(r.0@), pairs_view(r.1@), strings_view(r.2@)) == collect(
            ranges_view(line@),
            line.len() as int,
        ),
{
    let ghost lv = ranges_view(line@);
    let mut stack: Vec<VersionRange> = Vec::new();
    let mut pairs: Vec<(Edge, Edge)> = Vec::new();
    let mut exacts: Vec<String> = Vec::new();
    let mut i: usize = 0;
    while i < line.len()
        invariant
            i <= line.len(),
            lv == ranges_view(line@),
            (ranges_view(stack@), pairs_view(pairs@), strings_view(exacts@)) == collect(
                lv,
                i as int,
            ),
        decreases line.len() - i,
    {
        let ghost (s0, p0, e0) = (stack@, pairs@, exacts@);
        let c = line[i].clone();
        proof {
            assert(lv[i as int] == c@);
        }
        match c {
            VersionRange::Ge(_) | VersionRange::Gt(_) => {
                stack.push(c);
                proof {
                    assert(ranges_view(stack@) =~= ranges_view(s0).push(c@));
                }
            },
            VersionRange::Le(_) | VersionRange::Lt(_) => {
                let ghost cv = c@;
                match stack.pop() {
                    Some(open) => {
                        proof {
                            assert(ranges_view(stack@) =~= ranges_view(s0).drop_last());
                            assert(open@ == ranges_view(s0).last());
                        }
                        pairs.push((Edge::Bound(open), Edge::Bound(c)));
                        proof {
                            assert(pairs_view(pairs@) =~= pairs_view(p0).push(
                                (EdgeV::Bound(ranges_view(s0).last()), EdgeV::Bound(cv)),
                            ));
                        }
                    },
                    None => {
                        pairs.push((Edge::Infinity, Edge::Bound(c)));
                        proof {
                            assert(pairs_view(pairs@) =~= pairs_view(p0).push(
                                (EdgeV::Infinity, EdgeV::Bound(cv)),
                            ));
                        }
                    },
                }
            },
            VersionRange::Eq(v) => {
                exacts.push(v);
                proof {
                    assert(strings_view(exacts@) =~= strings_view(e0).push(c@.1));
                }
            },
        }
        i += 1;
    }
    (stack, pairs, exacts)
}

/// Every region's ends have versions in `s`.
pub open spec fn exclusions_in(s: Seq<Seq<char>>, ex: Seq<(RangeV, RangeV)>) -> bool {
    forall|i: int| 0 <= i < ex.len() ==> s.contains(#[trigger] ex[i].0.1) && s.contains(ex[i].1.1)
}

/// Every range has its version in `s`.
pub open spec fn ranges_in(s: Seq<Seq<char>>, rs: Seq<RangeV>) -> bool {
    forall|i: int| 0 <= i < rs.len() ==> s.contains(#[trigger] rs[i].1)
}

pub open spec fn edge_in(s: Seq<Seq<char>>, e: EdgeV) -> bool {
    match e {
        EdgeV::Infinity => true,
        EdgeV::Bound(r) => s.contains(r.1),
    }
}

pub proof fn lemma_collect_members(vs: Seq<Seq<char>>, line: Seq<RangeV>, n: int)
    requires
        0 <= n <= line.len(),
        ranges_in(vs, line),
    ensures
        ranges_in(vs, collect(line, n).0),
        forall|i: int|
            0 <= i < collect(line, n).1.len() ==> edge_in(vs, (#[trigger] collect(line, n).1[i]).0)
                && edge_in(vs, collect(line, n).1[i].1),
        forall|i: int| 0 <= i < collect(line, n).2.len() ==> vs.contains(#[trigger] collect(line, n).2[i]),
    decreases n,
{
    if n > 0 {
        lemma_collect_members(vs, line, n - 1);
        let (stack, pairs, exacts) = collect(line, n - 1);
        let x = line[n - 1];
        assert(vs.contains(x.1));
        let r = collect(line, n);
        assert forall|i: int| 0 <= i < r.0.len() implies vs.contains(#[trigger] r.0[i].1) by {
            if i < stack.len() {
                assert(r.0[i] == stack[i]);
            }
        }
        assert forall|i: int| 0 <= i < r.1.len() implies edge_in(vs, (#[trigger] r.1[i]).0) && edge_in(
            vs,
            r.1[i].1,
        ) by {
            if i < pairs.len() {
                assert(r.1[i] == pairs[i]);
            } else if stack.len() > 0 {
                assert(vs.contains(stack[stack.len() - 1].1));
            }
        }
        assert forall|i: int| 0 <= i < r.2.len() implies vs.contains(#[trigger] r.2[i]) by {
            if i < exacts.len() {
                assert(r.2[i] == exacts[i]);
            }
        }
    }
}

fn clone_edge(e: &Edge) -> (r: Edge)
    ensures
        r == *e,
{
    match e {
        Edge::Infinity => Edge::Infinity,
        Edge::Bound(r) => Edge::Bound(r.clone()),
    }
}

fn bound_of_range(r: &VersionRange) -> (b: (bool, String))
    ensures
        b.0 == is_inclusive(r@.0),
        b.1@ == r@.1,
{
    let inc = match r {
        VersionRange::Ge(_) | VersionRange::Le(_) => true,
        _ => false,
    };
    (inc, r.version().clone())
}

pub open spec fn opt_edge(e: Option<Edge>) -> Option<EdgeV> {
    match e {
        Some(x) => Some(x@),
        None => None,
    }
}

proof fn lemma_settle_exacts_stops(c: ConstraintView, e: Seq<Seq<char>>, k: int, n: int)
    requires
        0 <= k <= n,
        settle_exacts(c, e, k).1 is Err,
    ensures
        settle_exacts(c, e, n) == settle_exacts(c, e, k),
    decreases n - k,
{
    if n > k {
        lemma_settle_exacts_stops(c, e, k, n - 1);
    }
}

proof fn lemma_exclusion_conflict_stops(c: ConstraintView, k: int, n: int)
    requires
        0 <= k <= n,
        exclusion_conflict(c, k) is Some,
    ensures
        exclusion_conflict(c, n) == exclusion_conflict(c, k),
    decreases n - k,
{
    if n > k {
        lemma_exclusion_conflict_stops(c, k, n - 1);
    }
}

impl Constraint {
    /// The sorted number line for containing the ranges `hard`.
    fn line_for(&self, hard: &Vec<VersionRange>) -> (line: Vec<VersionRange>)
        ensures
            ranges_view(line@) == sort_ranges(number_line(self@, ranges_view(hard@))),
    {
        let ghost c = self@;
        let ghost hs = ranges_view(hard@);
        let mut line0: Vec<VersionRange> = Vec::new();
        if let Some((inc, min)) = &self.min {
            line0.push(
                if *inc {
                    VersionRange::Ge(min.clone())
                } else {
                    VersionRange::Gt(min.clone())
                },
            );
        }
        if let Some((inc, max)) = &self.max {
            line0.push(
                if *inc {
                    VersionRange::Le(max.clone())
                } else {
                    VersionRange::Lt(max.clone())
                },
            );
        }
        proof {
            assert(ranges_view(line0@) =~= range_of_min(c.min) + range_of_max(c.max) + hs.take(0));
        }
        let mut k: usize = 0;
        while k < hard.len()
            invariant
                k <= hard.len(),
                hs == ranges_view(hard@),
                ranges_view(line0@) == range_of_min(c.min) + range_of_max(c.max) + hs.take(k as int),
            decreases hard.len() - k,
        {
            let x = hard[k].clone();
            line0.push(x);
            proof {
                assert(hs.take(k + 1) == hs.take(k as int).push(hs[k as int]));
                assert(ranges_view(line0@) =~= (range_of_min(c.min) + range_of_max(c.max) + hs.take(
                    k as int,
                )).push(hs[k as int]));
            }
            k += 1;
        }
        proof {
            assert(hs.take(hard.len() as int) == hs);
        }
        sort_line(&line0)
    }

    /// Walks the intervals, recording the gaps between them as excluded
    /// regions, and gives the lower and upper bound edges found.
    fn walk_pairs(&mut self, pairs: &Vec<(Edge, Edge)>, Ghost(vs): Ghost<Seq<Seq<char>>>) -> (r: (
        Option<Edge>,
        Option<Edge>,
    ))
        requires
            forall|j: int|
                0 <= j < pairs@.len() ==> edge_in(vs, (#[trigger] pairs_view(pairs@)[j]).0) && edge_in(
                    vs,
                    pairs_view(pairs@)[j].1,
                ),
            exclusions_in(vs, old(self)@.exclusions),
        ensures
            (opt_edge(r.0), opt_edge(r.1), final(self)@.exclusions) == pair_fold(
                pairs_view(pairs@),
                pairs@.len() as int,
                (None, None, old(self)@.exclusions),
            ),
            final(self)@.min == old(self)@.min,
            final(self)@.max == old(self)@.max,
            final(self)@.exact == old(self)@.exact,
            exclusions_in(vs, final(self)@.exclusions),
            r.0 matches Some(e) ==> edge_in(vs, e@),
            r.1 matches Some(e) ==> edge_in(vs, e@),
    {
        let ghost pv = pairs_view(pairs@);
        let ghost c = self@;
        let mut min: Option<Edge> = None;
        let mut max: Option<Edge> = None;
        let mut i: usize = 0;
        while i < pairs.len()
            invariant
                i <= pairs.len(),
                pv == pairs_view(pairs@),
                (opt_edge(min), opt_edge(max), self@.exclusions) == pair_fold(
                    pv,
                    i as int,
                    (None, None, c.exclusions),
                ),
                self@.min == c.min,
                self@.max == c.max,
                self@.exact == c.exact,
                forall|j: int| 0 <= j < pv.len() ==> edge_in(vs, (#[trigger] pv[j]).0) && edge_in(vs, pv[j].1),
                exclusions_in(vs, self@.exclusions),
                min matches Some(e) ==> edge_in(vs, e@),
                max matches Some(e) ==> edge_in(vs, e@),
            decreases pairs.len() - i,
        {
            let ghost ex0 = self@.exclusions;
            let start = clone_edge(&pairs[i].0);
            let end = clone_edge(&pairs[i].1);
            proof {
                assert(pv[i as int] == (start@, end@));
            }
            let gap = match &start {
                Edge::Infinity => false,
                Edge::Bound(c) => match &min {
                    Some(Edge::Infinity) => true,
                    Some(Edge::Bound(mb)) => matches!(order_of(c, mb), RelOrder::Greater),
                    None => false,
                },
            };
            let mut gap_region: Option<(VersionRange, VersionRange)> = None;
            if gap {
                if let Some(Edge::Bound(range)) = &max {
                    if let Edge::Bound(c) = &start {
                        let exclusion_start = VersionRange::flip_range(range.clone());
                        let exclusion_end = VersionRange::flip_range(c.clone());
                        gap_region = Some((exclusion_start, exclusion_end));
                    }
                }
            }
            match gap_region {
                Some(region) => {
                    let ghost rv = (region.0@, region.1@);
                    self.exclusions.push(region);
                    proof {
                        assert(self@.exclusions =~= ex0.push(rv));
                        assert forall|q: int| 0 <= q < self@.exclusions.len() implies vs.contains(
                            #[trigger] self@.exclusions[q].0.1,
                        ) && vs.contains(self@.exclusions[q].1.1) by {
                            if q < ex0.len() {
                                assert(self@.exclusions[q] == ex0[q]);
                            }
                        }
                    }
                    max = Some(end);
                },
                None => {
                    if min.is_none() {
                        min = Some(start);
                    }
                    if max.is_none() {
                        max = Some(end);
                    }
                },
            }
            i += 1;
        }
        (min, max)
    }

    /// Sets the new lower bound from its edge.
    fn settle_lower(&mut self, min: &Option<Edge>, old_min: &Option<(bool, String)>) -> (r: Result<(), ContainError>)
        ensures
            (final(self)@, r) == settle_min(old(self)@, opt_edge(*min), crate::constraint::bound_view(*old_min)),
    {
        if let Some(Edge::Bound(range)) = min {
            let b = bound_of_range(range);
            match old_min {
                Some((inc, om)) => {
                    let old_range = if *inc {
                        VersionRange::Ge(om.clone())
                    } else {
                        VersionRange::Gt(om.clone())
                    };
                    if matches!(order_of(range, &old_range), RelOrder::Less) {
                        return Err(ContainError::MinMoved);
                    }
                    self.min = Some(b);
                },
                None => {
                    self.min = Some(b);
                },
            }
        }
        Ok(())
    }

    /// Sets the new upper bound from its edge.
    fn settle_upper(&mut self, max: &Option<Edge>, old_max: &Option<(bool, String)>) -> (r: Result<(), ContainError>)
        ensures
            (final(self)@, r) == settle_max(old(self)@, opt_edge(*max), crate::constraint::bound_view(*old_max)),
    {
        if let Some(Edge::Bound(range)) = max {
            let b = bound_of_range(range);
            match old_max {
                Some((inc, om)) => {
                    let old_range = if *inc {
                        VersionRange::Le(om.clone())
                    } else {
                        VersionRange::Lt(om.clone())
                    };
                    if matches!(order_of(&old_range, range), RelOrder::Less) {
                        return Err(ContainError::MaxMoved);
                    }
                    self.max = Some(b);
                },
                None => {
                    self.max = Some(b);
                },
            }
        }
        Ok(())
    }

    /// Takes the exact versions one by one.
    fn take_exacts(&mut self, exacts: &Vec<String>, Ghost(vs): Ghost<Seq<Seq<char>>>) -> (r: Result<(), ContainError>)
        requires
            comparable(vs),
            forall|q: int| 0 <= q < exacts@.len() ==> vs.contains(#[trigger] exacts@[q]@),
            exclusions_in(vs, old(self)@.exclusions),
            old(self)@.exact matches Some(e) ==> vs.contains(e),
        ensures
            (final(self)@, r) == settle_exacts(old(self)@, strings_view(exacts@), exacts@.len() as int),
            final(self)@.exact matches Some(e) ==> vs.contains(e),
            final(self)@.exclusions == old(self)@.exclusions,
            final(self)@.min == old(self)@.min,
            final(self)@.max == old(self)@.max,
    {
        let ghost ev = strings_view(exacts@);
        let ghost c2 = self@;
        let mut j: usize = 0;
        while j < exacts.len()
            invariant
                j <= exacts.len(),
                ev == strings_view(exacts@),
                forall|q: int| 0 <= q < exacts@.len() ==> vs.contains(#[trigger] exacts@[q]@),
                comparable(vs),
                exclusions_in(vs, self@.exclusions),
                self@.exact matches Some(e) ==> vs.contains(e),
                self@.exclusions == c2.exclusions,
                self@.min == c2.min,
                self@.max == c2.max,
                c2 == old(self)@,
                (self@, Ok::<(), ContainError>(())) == settle_exacts(c2, ev, j as int),
            decreases exacts.len() - j,
        {
            let v = &exacts[j];
            proof {
                assert(ev[j as int] == v@);
                assert(vs.contains(v@));
            }
            let current = clone_opt_string(&self.exact);
            match current {
                Some(e) => {
                    proof {
                        assert(spec_version_compare(v@, e@) is Some);
                    }
                    let same = compare_versions_to(v.as_str(), e.as_str(), VersionRel::Eq);
                    match same {
                        Some(true) => {},
                        _ => {
                            proof {
                                lemma_settle_exacts_stops(c2, ev, j + 1, exacts@.len() as int);
                            }
                            return Err(ContainError::ConflictingExact);
                        },
                    }
                },
                None => {
                    let mut probe_ranges: Vec<VersionRange> = Vec::new();
                    probe_ranges.push(VersionRange::Eq(v.clone()));
                    proof {
                        assert(ranges_view(probe_ranges@) =~= seq![(RangeKind::Eq, v@)]);
                        let ex = self@.exclusions;
                        assert forall|q: int| 0 <= q < ex.len() implies within_range_defined(
                            v@,
                            #[trigger] ex[q].0,
                            ex[q].1,
                        ) by {
                            assert(vs.contains(ex[q].0.1));
                            assert(vs.contains(ex[q].1.1));
                            assert(spec_version_compare(v@, ex[q].0.1) is Some);
                            assert(spec_version_compare(v@, ex[q].1.1) is Some);
                        }
                    }
                    let probe = VersionRequirement::Hard(probe_ranges);
                    let w = self.within(&probe);
                    match w {
                        Err(_) => {
                            proof {
                                assert(self@.exclusions == c2.exclusions);
                                assert(settle_exacts(c2, ev, j as int) == (self@, Ok::<(), ContainError>(())));
                                assert(fits_bounds(self@, v@) is None);
                                assert(settle_exacts(c2, ev, j + 1) == (self@, Err::<(), ContainError>(ContainError::Compare)));
                                lemma_settle_exacts_stops(c2, ev, j + 1, exacts@.len() as int);
                            }
                            return Err(ContainError::Compare);
                        },
                        Ok(false) => {
                            proof {
                                lemma_settle_exacts_stops(c2, ev, j + 1, exacts@.len() as int);
                            }
                            return Err(ContainError::ExactOutOfRange);
                        },
                        Ok(true) => {},
                    }
                    self.exact = Some(v.clone());
                },
            }
            j += 1;
        }
        Ok(())
    }

    /// Refuses an exact version, or both bounds, inside an excluded region.
    fn check_exclusions(&self, Ghost(vs): Ghost<Seq<Seq<char>>>) -> (r: Result<(), ContainError>)
        requires
            comparable(vs),
            exclusions_in(vs, self@.exclusions),
            self@.exact matches Some(e) ==> vs.contains(e),
            self@.min matches Some(b) ==> vs.contains(b.1),
            self@.max matches Some(b) ==> vs.contains(b.1),
        ensures
            r == (match exclusion_conflict(self@, self@.exclusions.len() as int) {
                Some(e) => Err(e),
                None => Ok::<(), ContainError>(()),
            }),
    {
        let ghost c3 = self@;
        let mut q: usize = 0;
        while q < self.exclusions.len()
            invariant
                q <= self.exclusions.len(),
                c3 == self@,
                comparable(vs),
                exclusions_in(vs, c3.exclusions),
                c3.exact matches Some(e) ==> vs.contains(e),
                c3.min matches Some(b) ==> vs.contains(b.1),
                c3.max matches Some(b) ==> vs.contains(b.1),
                exclusion_conflict(c3, q as int) is None,
            decreases self.exclusions.len() - q,
        {
            let (s, e) = &self.exclusions[q];
            proof {
                assert(c3.exclusions[q as int] == (s@, e@));
                assert(vs.contains(c3.exclusions[q as int].0.1));
                assert(vs.contains(s@.1) && vs.contains(e@.1));
            }
            if let Some(exact) = &self.exact {
                proof {
                    assert(spec_version_compare(exact@, s@.1) is Some);
                    assert(spec_version_compare(exact@, e@.1) is Some);
                }
                if Self::within_range(exact, s, e) {
                    proof {
                        lemma_exclusion_conflict_stops(c3, q + 1, c3.exclusions.len() as int);
                    }
                    return Err(ContainError::ExactExcluded);
                }
            }
            if let (Some((_, min)), Some((_, max))) = (&self.min, &self.max) {
                proof {
                    assert(spec_version_compare(min@, s@.1) is Some);
                    assert(spec_version_compare(min@, e@.1) is Some);
                    assert(spec_version_compare(max@, s@.1) is Some);
                    assert(spec_version_compare(max@, e@.1) is Some);
                }
                if Self::within_range(min, s, e) && Self::within_range(max, s, e) {
                    proof {
                        lemma_exclusion_conflict_stops(c3, q + 1, c3.exclusions.len() as int);
                    }
                    return Err(ContainError::BoundsExcluded);
                }
            }
            q += 1;
        }
        Ok(())
    }

    /// Shrinks this constraint so that it also holds `versions`. Soft and
    /// unset requirements leave it as it is. A conflict is an error; the
    /// constraint may then be left part way changed.
    pub fn contain_mut(&mut self, versions: &VersionRequirement) -> (r: Result<(), ContainError>)
        requires
            comparable(versions_of(old(self)@, versions@)),
        ensures
            (final(self)@, r) == spec_contain(old(self)@, versions@),
    {
        let hard = match versions {
            VersionRequirement::Hard(h) => h,
            _ => return Ok(()),
        };
        let ghost c = self@;
        let ghost hs = ranges_view(hard@);
        let ghost vs = versions_of(c, versions@);
        let ghost nl = number_line(c, hs);
        let line = self.line_for(hard);
        let ghost lv = ranges_view(line@);
        proof {
            assert forall|i: int| 0 <= i < nl.len() implies vs.contains(#[trigger] nl[i].1) by {
                let m = nl.map_values(|x: RangeV| x.1);
                assert(m[i] == nl[i].1);
                assert(vs[i] == m[i]);
            }
            lemma_sort_members(nl);
            assert forall|i: int| 0 <= i < lv.len() implies vs.contains(#[trigger] lv[i].1) by {
                assert(lv.contains(lv[i]));
                assert(nl.contains(lv[i]));
                let j = choose|j: int| 0 <= j < nl.len() && nl[j] == lv[i];
                assert(vs.contains(nl[j].1));
            }
            lemma_collect_members(vs, lv, lv.len() as int);
            assert forall|i: int| 0 <= i < c.exclusions.len() implies vs.contains(
                #[trigger] c.exclusions[i].0.1,
            ) && vs.contains(c.exclusions[i].1.1) by {
                let a = c.exclusions.map_values(|p: (RangeV, RangeV)| p.0.1);
                let b = c.exclusions.map_values(|p: (RangeV, RangeV)| p.1.1);
                let pre = nl.map_values(|x: RangeV| x.1) + (match c.exact {
                    Some(e) => seq![e],
                    None => Seq::empty(),
                });
                assert(vs == pre + a + b);
                assert(vs[pre.len() + i] == a[i]);
                assert(vs[pre.len() + a.len() + i] == b[i]);
            }
            if let Some(e) = c.exact {
                let pre = nl.map_values(|x: RangeV| x.1);
                assert(vs[pre.len() as int] == e);
            }
        }
        let (stack, mut pairs, exacts) = collect_line(&line);
        let ghost stack_v = ranges_view(stack@);
        let ghost pairs0 = pairs_view(pairs@);
        let ghost exacts_v = strings_view(exacts@);
        let old_min = clone_bound(&self.min);
        let old_max = clone_bound(&self.max);
        self.min = None;
        self.max = None;
        if stack.len() > 0 {
            let last = &stack[stack.len() - 1];
            proof {
                assert(stack_v.last() == last@);
                assert(vs.contains(stack_v[stack_v.len() - 1].1));
            }
            if pairs.len() == 0 {
                let b = bound_of_range(last);
                self.min = Some(b);
            } else {
                pairs.push((Edge::Bound(last.clone()), Edge::Infinity));
                proof {
                    assert(pairs_view(pairs@) =~= pairs0.push(
                        (EdgeV::Bound(stack_v.last()), EdgeV::Infinity),
                    ));
                }
            }
        }
        let ghost pv = pairs_view(pairs@);
        proof {
            assert forall|i: int| 0 <= i < pv.len() implies edge_in(vs, (#[trigger] pv[i]).0)
                && edge_in(vs, pv[i].1) by {
                if i < pairs0.len() {
                    assert(pv[i] == pairs0[i]);
                }
            }
        }
        let ghost base = self@;
        let (min, max) = self.walk_pairs(&pairs, Ghost(vs));
        let r1 = self.settle_lower(&min, &old_min);
        if r1.is_err() {
            return r1;
        }
        let r2 = self.settle_upper(&max, &old_max);
        if r2.is_err() {
            return r2;
        }
        proof {
            assert forall|q: int| 0 <= q < exacts@.len() implies vs.contains(#[trigger] exacts@[q]@) by {
                assert(exacts_v[q] == exacts@[q]@);
            }
        }
        let r3 = self.take_exacts(&exacts, Ghost(vs));
        if r3.is_err() {
            return r3;
        }
        self.check_exclusions(Ghost(vs))
    }

    /// A copy of this constraint shrunk to also hold `versions`.
    pub fn contain(&self, versions: &VersionRequirement) -> (r: Result<Constraint, ContainError>)
        requires
            comparable(versions_of(self@, versions@)),
        ensures
            match r {
                Ok(c) => spec_contain(self@, versions@) == (c@, Ok::<(), ContainError>(())),
                Err(e) => spec_contain(self@, versions@).1 == Err::<(), ContainError>(e),
            },
    {
        let mut c = self.clone();
        match c.contain_mut(versions) {
            Ok(()) => Ok(c),
            Err(e) => Err(e),
        }
    }
}

/// Whether any two of the versions can be compared.
pub fn all_comparable(v: &Vec<String>) -> (r: bool)
    ensures
        r == comparable(strings_view(v@)),
{
    let ghost sv = strings_view(v@);
    let mut i: usize = 0;
    while i < v.len()
        invariant
            i <= v.len(),
            sv == strings_view(v@),
            forall|a: int, b: int|
                0 <= a < i && 0 <= b < v.len() ==> (#[trigger] spec_version_compare(sv[a], sv[b])) is Some,
        decreases v.len() - i,
    {
        let mut j: usize = 0;
        while j < v.len()
            invariant
                i < v.len(),
                j <= v.len(),
                sv == strings_view(v@),
                forall|a: int, b: int|
                    0 <= a < i && 0 <= b < v.len() ==> (#[trigger] spec_version_compare(sv[a], sv[b])) is Some,
                forall|b: int| 0 <= b < j ==> (#[trigger] spec_version_compare(sv[i as int], sv[b])) is Some,
            decreases v.len() - j,
        {
            proof {
                assert(sv[i as int] == v@[i as int]@);
                assert(sv[j as int] == v@[j as int]@);
            }
            if compare_versions(v[i].as_str(), v[j].as_str()).is_none() {
                proof {
                    assert(sv.contains(sv[i as int]));
                    assert(sv.contains(sv[j as int]));
                }
                return false;
            }
            j += 1;
        }
        i += 1;
    }
    proof {
        assert forall|a: Seq<char>, b: Seq<char>| sv.contains(a) && sv.contains(b) implies (
        #[trigger] spec_version_compare(a, b)) is Some by {
            let x = choose|x: int| 0 <= x < sv.len() && sv[x] == a;
            let y = choose|y: int| 0 <= y < sv.len() && sv[y] == b;
            assert(spec_version_compare(sv[x], sv[y]) is Some);
        }
    }
    true
}

fn push_all_versions(out: &mut Vec<String>, rs: &Vec<VersionRange>)
    ensures
        strings_view(final(out)@) == strings_view(old(out)@) + ranges_view(rs@).map_values(
            |x: RangeV| x.1,
        ),
{
    let ghost start = strings_view(out@);
    let ghost m = ranges_view(rs@).map_values(|x: RangeV| x.1);
    let mut i: usize = 0;
    while i < rs.len()
        invariant
            i <= rs.len(),
            m == ranges_view(rs@).map_values(|x: RangeV| x.1),
            strings_view(out@) == start + m.take(i as int),
        decreases rs.len() - i,
    {
        let ghost pre = out@;
        out.push(rs[i].version().clone());
        proof {
            assert(m[i as int] == rs@[i as int]@.1);
            assert(m.take(i + 1) == m.take(i as int).push(m[i as int]));
            assert(strings_view(out@) =~= strings_view(pre).push(m[i as int]));
        }
        i += 1;
    }
    proof {
        assert(m.take(rs.len() as int) == m);
    }
}

impl Constraint {
    /// Every version this constraint and the requirement mention.
    fn versions_list(&self, versions: &VersionRequirement) -> (v: Vec<String>)
        ensures
            strings_view(v@) == versions_of(self@, versions@),
    {
        let hard = match versions {
            VersionRequirement::Hard(h) => clone_ranges(h),
            _ => Vec::new(),
        };
        proof {
            let hs = match versions@ {
                RequirementView::Hard(hs) => hs,
                _ => Seq::empty(),
            };
            assert(ranges_view(hard@) =~= hs);
        }
        let line = {
            let mut l: Vec<VersionRange> = Vec::new();
            if let Some((inc, min)) = &self.min {
                l.push(if *inc { VersionRange::Ge(min.clone()) } else { VersionRange::Gt(min.clone()) });
            }
            if let Some((inc, max)) = &self.max {
                l.push(if *inc { VersionRange::Le(max.clone()) } else { VersionRange::Lt(max.clone()) });
            }
            proof {
                assert(ranges_view(l@) =~= range_of_min(self@.min) + range_of_max(self@.max));
            }
            l
        };
        let mut out: Vec<String> = Vec::new();
        push_all_versions(&mut out, &line);
        push_all_versions(&mut out, &hard);
        proof {
            let hs = ranges_view(hard@);
            let f = |x: RangeV| x.1;
            assert((range_of_min(self@.min) + range_of_max(self@.max) + hs).map_values(f) =~= (
            range_of_min(self@.min) + range_of_max(self@.max)).map_values(f) + hs.map_values(f));
            assert(strings_view(out@) =~= Seq::<Seq<char>>::empty() + (range_of_min(self@.min) + range_of_max(self@.max)).map_values(f) + hs.map_values(f));
        }
        let ghost p1 = strings_view(out@);
        if let Some(e) = &self.exact {
            out.push(e.clone());
        }
        let ghost p2 = strings_view(out@);
        proof {
            assert(p2 =~= p1 + (match self@.exact {
                Some(e) => seq![e],
                None => Seq::empty(),
            }));
        }
        let ghost ex = self@.exclusions;
        let mut starts: Vec<VersionRange> = Vec::new();
        let mut ends: Vec<VersionRange> = Vec::new();
        let mut i: usize = 0;
        while i < self.exclusions.len()
            invariant
                i <= self.exclusions.len(),
                ex == self@.exclusions,
                ranges_view(starts@).map_values(|x: RangeV| x.1) == ex.take(i as int).map_values(
                    |p: (RangeV, RangeV)| p.0.1,
                ),
                ranges_view(ends@).map_values(|x: RangeV| x.1) == ex.take(i as int).map_values(
                    |p: (RangeV, RangeV)| p.1.1,
                ),
            decreases self.exclusions.len() - i,
        {
            let (a, b) = &self.exclusions[i];
            proof {
                assert(ex[i as int] == (a@, b@));
            }
            let ghost s0 = starts@;
            let ghost e0 = ends@;
            starts.push(a.clone());
            ends.push(b.clone());
            proof {
                assert(ex.take(i + 1) == ex.take(i as int).push(ex[i as int]));
                assert(ranges_view(starts@).map_values(|x: RangeV| x.1) =~= ranges_view(s0).map_values(
                    |x: RangeV| x.1,
                ).push(a@.1));
                assert(ranges_view(ends@).map_values(|x: RangeV| x.1) =~= ranges_view(e0).map_values(
                    |x: RangeV| x.1,
                ).push(b@.1));
                assert(ex.take(i + 1).map_values(|p: (RangeV, RangeV)| p.0.1) =~= ex.take(
                    i as int,
                ).map_values(|p: (RangeV, RangeV)| p.0.1).push(a@.1));
                assert(ex.take(i + 1).map_values(|p: (RangeV, RangeV)| p.1.1) =~= ex.take(
                    i as int,
                ).map_values(|p: (RangeV, RangeV)| p.1.1).push(b@.1));
            }
            i += 1;
        }
        proof {
            assert(ex.take(ex.len() as int) == ex);
        }
        push_all_versions(&mut out, &starts);
        push_all_versions(&mut out, &ends);
        out
    }

    /// `contain`, or `None` when two of the versions involved cannot be
    /// compared.
    pub fn try_contain(&self, versions: &VersionRequirement) -> (r: Option<Result<Constraint, ContainError>>)
        ensures
            r is None <==> !comparable(versions_of(self@, versions@)),
            r matches Some(Ok(c)) ==> spec_contain(self@, versions@) == (c@, Ok::<(), ContainError>(())),
            r matches Some(Err(e)) ==> spec_contain(self@, versions@).1 == Err::<(), ContainError>(e),
    {
        let all = self.versions_list(versions);
        if all_comparable(&all) {
            Some(self.contain(versions))
        } else {
            None
        }
    }

    /// `contain_mut`, or `None` with the constraint unchanged when two of the
    /// versions involved cannot be compared.
    pub fn try_contain_mut(&mut self, versions: &VersionRequirement) -> (r: Option<Result<(), ContainError>>)
        ensures
            r is None <==> !comparable(versions_of(old(self)@, versions@)),
            r is None ==> final(self)@ == old(self)@,
            r matches Some(x) ==> (final(self)@, x) == spec_contain(old(self)@, versions@),
    {
        let all = self.versions_list(versions);
        if all_comparable(&all) {
            Some(self.contain_mut(versions))
        } else {
            None
        }
    }
}

} // verus!
