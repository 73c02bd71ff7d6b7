//! Version constraints: the summary of all requirements met so far on one
//! dependency, used to detect and settle version conflicts.
use vstd::prelude::*;
use crate::strs::{append_str, str_to_string};
use crate::verorder::{
    compare_versions, compare_versions_to, spec_version_compare, spec_version_compare_to,
    VersionRel,
};
use crate::version::{
    flip_view, range_text, ranges_view, RangeKind, RequirementView, VersionRange,
    VersionRequirement,
};

verus! {

pub type RangeV = (RangeKind, Seq<char>);

/// The model of a constraint.
pub struct ConstraintView {
    pub min: Option<(bool, Seq<char>)>,
    pub max: Option<(bool, Seq<char>)>,
    pub exact: Option<Seq<char>>,
    pub exclusions: Seq<(RangeV, RangeV)>,
}

/// A summary of all version requirements met on one dependency: an
/// optional lower and upper bound (with whether each is inclusive), an
/// optional exact version, and ranges of excluded versions.
#[derive(Debug, PartialEq, Eq)]
pub struct Constraint {
    /// The minimum allowed version, and whether it is allowed itself.
    pub min: Option<(bool, String)>,
    /// The maximum allowed version, and whether it is allowed itself.
    pub max: Option<(bool, String)>,
    /// An exact version.
    pub exact: Option<String>,
    /// Excluded regions, each between a start and an end range.
    pub exclusions: Vec<(VersionRange, VersionRange)>,
}

pub open spec fn bound_view(b: Option<(bool, String)>) -> Option<(bool, Seq<char>)> {
    match b {
        Some((inc, v)) => Some((inc, v@)),
        None => None,
    }
}

pub open spec fn opt_view(b: Option<String>) -> Option<Seq<char>> {
    match b {
        Some(v) => Some(v@),
        None => None,
    }
}

pub open spec fn exclusions_view(e: Seq<(VersionRange, VersionRange)>) -> Seq<(RangeV, RangeV)> {
    e.map_values(|p: (VersionRange, VersionRange)| (p.0@, p.1@))
}

impl View for Constraint {
    type V = ConstraintView;

    open spec fn view(&self) -> ConstraintView {
        ConstraintView {
            min: bound_view(self.min),
            max: bound_view(self.max),
            exact: opt_view(self.exact),
            exclusions: exclusions_view(self.exclusions@),
        }
    }
}

pub fn clone_bound(b: &Option<(bool, String)>) -> (r: Option<(bool, String)>)
    ensures
        r == *b,
{
    match b {
        Some((inc, v)) => Some((*inc, v.clone())),
        None => None,
    }
}

pub fn clone_opt_string(b: &Option<String>) -> (r: Option<String>)
    ensures
        r == *b,
{
    match b {
        Some(v) => Some(v.clone()),
        None => None,
    }
}

pub fn clone_exclusions(e: &Vec<(VersionRange, VersionRange)>) -> (r: Vec<(VersionRange, VersionRange)>)
    ensures
        r@ == e@,
{
    let mut out: Vec<(VersionRange, VersionRange)> = Vec::new();
    let mut i: usize = 0;
    while i < e.len()
        invariant
            i <= e.len(),
            out@ == e@.take(i as int),
        decreases e.len() - i,
    {
        let (a, b) = &e[i];
        out.push((a.clone(), b.clone()));
        assert(e@.take(i + 1) == e@.take(i as int).push(e@[i as int]));
        i += 1;
    }
    assert(e@.take(e.len() as int) == e@);
    out
}

impl Clone for Constraint {
    fn clone(&self) -> (r: Self)
        ensures
            r@ == self@,
    {
        let e = clone_exclusions(&self.exclusions);
        Constraint {
            min: clone_bound(&self.min),
            max: clone_bound(&self.max),
            exact: clone_opt_string(&self.exact),
            exclusions: e,
        }
    }
}

impl Default for Constraint {
    fn default() -> (r: Self)
        ensures
            r@ == empty_constraint(),
    {
        let r = Constraint { min: None, max: None, exact: None, exclusions: Vec::new() };
        assert(exclusions_view(r.exclusions@) =~= Seq::empty());
        r
    }
}

/// The constraint that allows every version.
pub open spec fn empty_constraint() -> ConstraintView {
    ConstraintView { min: None, max: None, exact: None, exclusions: Seq::empty() }
}

/// The comparison operator that a range tests.
pub open spec fn range_op(k: RangeKind) -> VersionRel {
    match k {
        RangeKind::Gt => VersionRel::Gt,
        RangeKind::Ge => VersionRel::Ge,
        RangeKind::Lt => VersionRel::Lt,
        RangeKind::Le => VersionRel::Le,
        RangeKind::Eq => VersionRel::Eq,
    }
}

/// Whether the version comparisons that `within_range` makes can be made.
pub open spec fn within_range_defined(t: Seq<char>, start: RangeV, end: RangeV) -> bool {
    &&& spec_version_compare_to(t, start.1, range_op(start.0)) is Some
    &&& spec_version_compare_to(t, start.1, range_op(start.0)) == Some(true)
        ==> spec_version_compare_to(t, end.1, range_op(end.0)) is Some
}

/// `t` lies past `start` and before `end`.
pub open spec fn spec_within_range(t: Seq<char>, start: RangeV, end: RangeV) -> bool {
    spec_version_compare_to(t, start.1, range_op(start.0)) == Some(true)
        && spec_version_compare_to(t, end.1, range_op(end.0)) == Some(true)
}

/// The comparisons of `t` with every exclusion can be made.
pub open spec fn exclusions_defined(t: Seq<char>, ex: Seq<(RangeV, RangeV)>) -> bool {
    forall|i: int| 0 <= i < ex.len() ==> within_range_defined(t, #[trigger] ex[i].0, ex[i].1)
}

/// `t` lies in one of the excluded regions.
pub open spec fn spec_excluded(t: Seq<char>, ex: Seq<(RangeV, RangeV)>) -> bool {
    exists|i: int| 0 <= i < ex.len() && spec_within_range(t, #[trigger] ex[i].0, ex[i].1)
}

/// Tests `v` against a lower bound.
pub open spec fn check_min(v: Seq<char>, min: Option<(bool, Seq<char>)>) -> Option<bool> {
    match min {
        None => Some(true),
        Some((inc, m)) => spec_version_compare_to(
            v,
            m,
            if inc {
                VersionRel::Ge
            } else {
                VersionRel::Gt
            },
        ),
    }
}

/// Tests `v` against an upper bound.
pub open spec fn check_max(v: Seq<char>, max: Option<(bool, Seq<char>)>) -> Option<bool> {
    match max {
        None => Some(true),
        Some((inc, m)) => spec_version_compare_to(
            v,
            m,
            if inc {
                VersionRel::Le
            } else {
                VersionRel::Lt
            },
        ),
    }
}

/// Whether one exact version `v` fits the constraint: bounds first, then
/// exclusions. `None` when a comparison cannot be made.
pub open spec fn fits_bounds(c: ConstraintView, v: Seq<char>) -> Option<bool> {
    match check_min(v, c.min) {
        None => None,
        Some(false) => Some(false),
        Some(true) => match check_max(v, c.max) {
            None => None,
            Some(false) => Some(false),
            Some(true) => Some(!spec_excluded(v, c.exclusions)),
        },
    }
}

/// Whether the hard ranges `hs` fall within the constraint, once no exact
/// version is set.
pub open spec fn spec_within_hard(c: ConstraintView, hs: Seq<RangeV>) -> Option<bool>
    decreases hs.len(),
{
    if hs.len() == 0 {
        Some(true)
    } else {
        let (k, v) = hs[0];
        let rest = spec_within_hard(c, hs.drop_first());
        match k {
            RangeKind::Ge => match check_max(v, c.max) {
                None => None,
                Some(false) => Some(false),
                Some(true) => rest,
            },
            RangeKind::Gt => match c.max {
                None => rest,
                Some((_, m)) => match spec_version_compare_to(v, m, VersionRel::Lt) {
                    None => None,
                    Some(false) => Some(false),
                    Some(true) => rest,
                },
            },
            RangeKind::Lt => match c.min {
                None => rest,
                Some((_, m)) => match spec_version_compare_to(v, m, VersionRel::Gt) {
                    None => None,
                    Some(false) => Some(false),
                    Some(true) => rest,
                },
            },
            RangeKind::Le => match check_min(v, c.min) {
                None => None,
                Some(false) => Some(false),
                Some(true) => rest,
            },
            RangeKind::Eq => fits_bounds(c, v),
        }
    }
}

/// Whether a requirement falls within the constraint; `None` when two
/// versions cannot be compared.
pub open spec fn spec_within(c: ConstraintView, r: RequirementView) -> Option<bool> {
    match r {
        RequirementView::Unset => Some(true),
        RequirementView::Soft(v) => match c.exact {
            Some(e) => spec_version_compare_to(v, e, VersionRel::Eq),
            None => fits_bounds(c, v),
        },
        RequirementView::Hard(hs) => match c.exact {
            Some(e) => if hs.len() == 0 {
                Some(true)
            } else {
                spec_version_compare_to(hs[0].1, e, VersionRel::Eq)
            },
            None => spec_within_hard(c, hs),
        },
    }
}

/// The exclusion tests of `within` can be made for every version they may
/// be made for.
pub open spec fn within_defined(c: ConstraintView, r: RequirementView) -> bool {
    match r {
        RequirementView::Soft(v) => exclusions_defined(v, c.exclusions),
        RequirementView::Hard(hs) => forall|i: int|
            0 <= i < hs.len() && (#[trigger] hs[i]).0 == RangeKind::Eq ==> exclusions_defined(
                hs[i].1,
                c.exclusions,
            ),
        RequirementView::Unset => true,
    }
}

/// Two versions could not be compared; one of them is not a version.
#[derive(Debug, PartialEq, Eq, Clone, Copy)]
pub struct VersionCompareError;

/// Compares `a` with `b` under `op`, or fails when they cannot be compared.
fn compare_under(a: &String, b: &String, op: VersionRel) -> (r: Result<bool, VersionCompareError>)
    ensures
        match spec_version_compare_to(a@, b@, op) {
            Some(x) => r == Ok::<bool, VersionCompareError>(x),
            None => r is Err,
        },
{
    match compare_versions_to(a.as_str(), b.as_str(), op) {
        Some(x) => Ok(x),
        None => Err(VersionCompareError),
    }
}

pub(crate) fn range_op_exec(k: RangeKind) -> (op: VersionRel)
    ensures
        op == range_op(k),
{
    match k {
        RangeKind::Gt => VersionRel::Gt,
        RangeKind::Ge => VersionRel::Ge,
        RangeKind::Lt => VersionRel::Lt,
        RangeKind::Le => VersionRel::Le,
        RangeKind::Eq => VersionRel::Eq,
    }
}

impl Constraint {
    /// Whether `target` lies past `start` and before `end`.
    pub fn within_range(target: &String, start: &VersionRange, end: &VersionRange) -> (r: bool)
        requires
            within_range_defined(target@, start@, end@),
        ensures
            r == spec_within_range(target@, start@, end@),
    {
        let a = compare_versions_to(target.as_str(), start.version().as_str(), range_op_exec(start.kind()));
        match a {
            Some(true) => {},
            _ => return false,
        }
        let b = compare_versions_to(target.as_str(), end.version().as_str(), range_op_exec(end.kind()));
        match b {
            Some(true) => true,
            _ => false,
        }
    }

    /// `within_range`, or `None` when the versions cannot be compared.
    pub fn within_range_checked(target: &String, start: &VersionRange, end: &VersionRange) -> (r: Option<bool>)
        ensures
            r == (if within_range_defined(target@, start@, end@) {
                Some(spec_within_range(target@, start@, end@))
            } else {
                None::<bool>
            }),
    {
        let a = compare_versions_to(target.as_str(), start.version().as_str(), range_op_exec(start.kind()));
        match a {
            None => return None,
            Some(true) => {
                let b = compare_versions_to(target.as_str(), end.version().as_str(), range_op_exec(end.kind()));
                if b.is_none() {
                    return None;
                }
            },
            Some(false) => {},
        }
        Some(Self::within_range(target, start, end))
    }

    /// Whether `v` lies in one of the excluded regions.
    fn is_excluded(&self, v: &String) -> (r: bool)
        requires
            exclusions_defined(v@, self@.exclusions),
        ensures
            r == spec_excluded(v@, self@.exclusions),
    {
        let ghost ex = self@.exclusions;
        let mut i: usize = 0;
        while i < self.exclusions.len()
            invariant
                i <= self.exclusions.len(),
                ex == self@.exclusions,
                exclusions_defined(v@, ex),
                forall|j: int| 0 <= j < i ==> !spec_within_range(v@, #[trigger] ex[j].0, ex[j].1),
            decreases self.exclusions.len() - i,
        {
            let (s, e) = &self.exclusions[i];
            proof {
                assert(ex[i as int] == (self.exclusions@[i as int].0@, self.exclusions@[i as int].1@));
                assert(within_range_defined(v@, ex[i as int].0, ex[i as int].1));
            }
            if Self::within_range(v, s, e) {
                assert(spec_within_range(v@, ex[i as int].0, ex[i as int].1));
                return true;
            }
            i += 1;
        }
        false
    }

    /// Whether one exact version fits the bounds and is not excluded.
    fn fits(&self, v: &String) -> (r: Result<bool, VersionCompareError>)
        requires
            exclusions_defined(v@, self@.exclusions),
        ensures
            match fits_bounds(self@, v@) {
                Some(x) => r == Ok::<bool, VersionCompareError>(x),
                None => r is Err,
            },
    {
        if let Some((inclusive, min)) = &self.min {
            let op = if *inclusive {
                VersionRel::Ge
            } else {
                VersionRel::Gt
            };
            if !compare_under(v, min, op)? {
                return Ok(false);
            }
        }
        if let Some((inclusive, max)) = &self.max {
            let op = if *inclusive {
                VersionRel::Le
            } else {
                VersionRel::Lt
            };
            if !compare_under(v, max, op)? {
                return Ok(false);
            }
        }
        Ok(!self.is_excluded(v))
    }

    /// Checks whether a version requirement falls within this constraint.
    pub fn within(&self, versions: &VersionRequirement) -> (r: Result<bool, VersionCompareError>)
        requires
            within_defined(self@, versions@),
        ensures
            match spec_within(self@, versions@) {
                Some(x) => r == Ok::<bool, VersionCompareError>(x),
                None => r is Err,
            },
    {
        match versions {
            VersionRequirement::Unset => Ok(true),
            VersionRequirement::Soft(version) => {
                if let Some(exact) = &self.exact {
                    return compare_under(version, exact, VersionRel::Eq);
                }
                self.fits(version)
            },
            VersionRequirement::Hard(hard) => {
                if let Some(exact) = &self.exact {
                    if hard.len() == 0 {
                        return Ok(true);
                    }
                    proof {
                        assert(ranges_view(hard@)[0] == hard@[0]@);
                    }
                    return compare_under(hard[0].version(), exact, VersionRel::Eq);
                }
                let ghost hs = ranges_view(hard@);
                assert(hs.subrange(0, hs.len() as int) == hs);
                let mut i: usize = 0;
                while i < hard.len()
                    invariant
                        i <= hard.len(),
                        hs == ranges_view(hard@),
                        self@.exact is None,
                        versions@ == RequirementView::Hard(hs),
                        within_defined(self@, versions@),
                        spec_within_hard(self@, hs) == spec_within_hard(
                            self@,
                            hs.subrange(i as int, hs.len() as int),
                        ),
                    decreases hard.len() - i,
                {
                    let ghost sub = hs.subrange(i as int, hs.len() as int);
                    proof {
                        assert(sub[0] == hs[i as int]);
                        assert(hs[i as int] == hard@[i as int]@);
                        assert(sub.drop_first() == hs.subrange(i + 1, hs.len() as int));
                    }
                    let c = &hard[i];
                    let v = c.version();
                    match c {
                        VersionRange::Ge(_) => {
                            if let Some((inclusive, max)) = &self.max {
                                let op = if *inclusive {
                                    VersionRel::Le
                                } else {
                                    VersionRel::Lt
                                };
                                if !compare_under(v, max, op)? {
                                    return Ok(false);
                                }
                            }
                        },
                        VersionRange::Gt(_) => {
                            if let Some((_, max)) = &self.max {
                                if !compare_under(v, max, VersionRel::Lt)? {
                                    return Ok(false);
                                }
                            }
                        },
                        VersionRange::Lt(_) => {
                            if let Some((_, min)) = &self.min {
                                if !compare_under(v, min, VersionRel::Gt)? {
                                    return Ok(false);
                                }
                            }
                        },
                        VersionRange::Le(_) => {
                            if let Some((inclusive, min)) = &self.min {
                                let op = if *inclusive {
                                    VersionRel::Ge
                                } else {
                                    VersionRel::Gt
                                };
                                if !compare_under(v, min, op)? {
                                    return Ok(false);
                                }
                            }
                        },
                        VersionRange::Eq(_) => {
                            return self.fits(v);
                        },
                    }
                    i += 1;
                }
                Ok(true)
            },
        }
    }
}

impl Constraint {
    /// Whether the comparisons with every excluded region can be made for `v`.
    pub fn exclusions_defined_for(&self, v: &String) -> (r: bool)
        ensures
            r == exclusions_defined(v@, self@.exclusions),
    {
        let ghost ex = self@.exclusions;
        let mut i: usize = 0;
        while i < self.exclusions.len()
            invariant
                i <= self.exclusions.len(),
                ex == self@.exclusions,
                forall|j: int| 0 <= j < i ==> within_range_defined(v@, #[trigger] ex[j].0, ex[j].1),
            decreases self.exclusions.len() - i,
        {
            let (s, e) = &self.exclusions[i];
            proof {
                assert(ex[i as int] == (self.exclusions@[i as int].0@, self.exclusions@[i as int].1@));
            }
            if Self::within_range_checked(v, s, e).is_none() {
                assert(!within_range_defined(v@, ex[i as int].0, ex[i as int].1));
                return false;
            }
            i += 1;
        }
        true
    }

    /// `within`, or `None` when a comparison it makes cannot be made.
    pub fn within_checked(&self, versions: &VersionRequirement) -> (r: Option<Result<bool, VersionCompareError>>)
        ensures
            match r {
                None => !within_defined(self@, versions@),
                Some(x) => within_defined(self@, versions@) && match spec_within(self@, versions@) {
                    Some(b) => x == Ok::<bool, VersionCompareError>(b),
                    None => x is Err,
                },
            },
    {
        match versions {
            VersionRequirement::Unset => {},
            VersionRequirement::Soft(v) => {
                if !self.exclusions_defined_for(v) {
                    return None;
                }
            },
            VersionRequirement::Hard(hard) => {
                let ghost hs = ranges_view(hard@);
                let mut i: usize = 0;
                while i < hard.len()
                    invariant
                        i <= hard.len(),
                        hs == ranges_view(hard@),
                        versions@ == RequirementView::Hard(hs),
                        forall|j: int|
                            0 <= j < i && (#[trigger] hs[j]).0 == RangeKind::Eq ==> exclusions_defined(
                                hs[j].1,
                                self@.exclusions,
                            ),
                    decreases hard.len() - i,
                {
                    proof {
                        assert(hs[i as int] == hard@[i as int]@);
                    }
                    if let VersionRange::Eq(v) = &hard[i] {
                        if !self.exclusions_defined_for(v) {
                            assert(hs[i as int].0 == RangeKind::Eq);
                            assert(!exclusions_defined(hs[i as int].1, self@.exclusions));
                            return None;
                        }
                    }
                    i += 1;
                }
            },
        }
        Some(self.within(versions))
    }

    /// The text of the excluded regions.
    fn exclusions_string(&self) -> (s: String)
        ensures
            s@ == exclusions_text(self@.exclusions),
    {
        proof {
            reveal_strlit("(");
            reveal_strlit(", ");
            reveal_strlit("), ");
        }
        let mut s = String::new();
        let ghost ex = self@.exclusions;
        let mut i: usize = 0;
        while i < self.exclusions.len()
            invariant
                i <= self.exclusions.len(),
                ex == self@.exclusions,
                s@ == exclusions_text(ex.take(i as int)),
            decreases self.exclusions.len() - i,
        {
            let (a, b) = &self.exclusions[i];
            proof {
                assert(ex[i as int] == (a@, b@));
                assert(ex.take(i + 1).drop_last() == ex.take(i as int));
            }
            let ta = a.to_string();
            let tb = b.to_string();
            let ghost s0 = s@;
            append_str(&mut s, "(");
            append_str(&mut s, ta.as_str());
            append_str(&mut s, ", ");
            append_str(&mut s, tb.as_str());
            append_str(&mut s, "), ");
            proof {
                reveal_strlit("(");
                reveal_strlit(", ");
                reveal_strlit("), ");
                assert(s@ =~= s0 + seq!['('] + range_text(a@) + seq![',', ' '] + range_text(b@) + seq![')', ',', ' ']);
            }
            i += 1;
        }
        proof {
            assert(ex.take(ex.len() as int) == ex);
        }
        s
    }

    /// The text of this constraint, such as `1.0>=v<2.0` or `v=1.5`, with the
    /// excluded regions listed after ` with exclusions.`.
    pub fn to_string(&self) -> (s: String)
        ensures
            s@ == constraint_text(self@),
    {
        proof {
            reveal_strlit(">=");
            reveal_strlit(">");
            reveal_strlit("v");
            reveal_strlit("<=");
            reveal_strlit("<");
            reveal_strlit("=");
            reveal_strlit(" with exclusions.");
        }
        let mut s = String::new();
        if let Some((inclusive, min)) = &self.min {
            append_str(&mut s, min.as_str());
            append_str(&mut s, if *inclusive { ">=" } else { ">" });
        }
        let ghost p1 = s@;
        append_str(&mut s, "v");
        let ghost p2 = s@;
        if let Some((inclusive, max)) = &self.max {
            append_str(&mut s, if *inclusive { "<=" } else { "<" });
            append_str(&mut s, max.as_str());
        }
        let ghost p3 = s@;
        if let Some(exact) = &self.exact {
            append_str(&mut s, "=");
            append_str(&mut s, exact.as_str());
        }
        let ghost p4 = s@;
        if self.exclusions.len() > 0 {
            append_str(&mut s, " with exclusions.");
            let t = self.exclusions_string();
            append_str(&mut s, t.as_str());
        }
        proof {
            let c = self@;
            let a = match c.min {
                Some((inc, m)) => m + (if inc { seq!['>', '='] } else { seq!['>'] }),
                None => Seq::<char>::empty(),
            };
            let b = match c.max {
                Some((inc, m)) => (if inc { seq!['<', '='] } else { seq!['<'] }) + m,
                None => Seq::<char>::empty(),
            };
            let d = match c.exact {
                Some(e) => seq!['='] + e,
                None => Seq::<char>::empty(),
            };
            assert(p1 =~= a);
            assert(p2 =~= a + seq!['v']);
            assert(p3 =~= a + seq!['v'] + b);
            assert(p4 =~= a + seq!['v'] + b + d);
        }
        s
    }
}

/// The text of the excluded regions: `(start, end), ` for each.
pub open spec fn exclusions_text(ex: Seq<(RangeV, RangeV)>) -> Seq<char>
    decreases ex.len(),
{
    if ex.len() == 0 {
        Seq::empty()
    } else {
        exclusions_text(ex.drop_last()) + seq!['('] + range_text(ex.last().0) + seq![',', ' ']
            + range_text(ex.last().1) + seq![')', ',', ' ']
    }
}

/// The text of a constraint.
pub open spec fn constraint_text(c: ConstraintView) -> Seq<char> {
    (match c.min {
        Some((inc, m)) => m + (if inc { seq!['>', '='] } else { seq!['>'] }),
        None => Seq::empty(),
    }) + seq!['v'] + (match c.max {
        Some((inc, m)) => (if inc { seq!['<', '='] } else { seq!['<'] }) + m,
        None => Seq::empty(),
    }) + (match c.exact {
        Some(e) => seq!['='] + e,
        None => Seq::empty(),
    }) + (if c.exclusions.len() > 0 {
        seq![' ', 'w', 'i', 't', 'h', ' ', 'e', 'x', 'c', 'l', 'u', 's', 'i', 'o', 'n', 's', '.']
            + exclusions_text(c.exclusions)
    } else {
        Seq::empty()
    })
}

/// The requirement that a constraint stands for: its bounds (or its exact
/// version alone), followed by both ends of each excluded region flipped.
pub open spec fn requirement_of(c: ConstraintView) -> RequirementView {
    let bounds = (match c.min {
        Some((inc, m)) => seq![(if inc { RangeKind::Ge } else { RangeKind::Gt }, m)],
        None => Seq::empty(),
    }) + (match c.max {
        Some((inc, m)) => seq![(if inc { RangeKind::Le } else { RangeKind::Lt }, m)],
        None => Seq::empty(),
    });
    let head = match c.exact {
        Some(e) => seq![(RangeKind::Eq, e)],
        None => bounds,
    };
    let all = head + flipped_exclusions(c.exclusions);
    if all.len() == 0 {
        RequirementView::Unset
    } else {
        RequirementView::Hard(all)
    }
}

/// Both ends of each excluded region, flipped.
pub open spec fn flipped_exclusions(ex: Seq<(RangeV, RangeV)>) -> Seq<RangeV>
    decreases ex.len(),
{
    if ex.len() == 0 {
        Seq::empty()
    } else {
        flipped_exclusions(ex.drop_last()) + seq![flip_view(ex.last().0), flip_view(ex.last().1)]
    }
}

impl VersionRequirement {
    /// The requirement that a constraint stands for.
    pub fn from_constraint(value: &Constraint) -> (r: VersionRequirement)
        ensures
            r@ == requirement_of(value@),
    {
        let mut v: Vec<VersionRange> = Vec::new();
        if let Some((inclusive, min)) = &value.min {
            v.push(
                if *inclusive {
                    VersionRange::Ge(min.clone())
                } else {
                    VersionRange::Gt(min.clone())
                },
            );
        }
        if let Some((inclusive, max)) = &value.max {
            v.push(
                if *inclusive {
                    VersionRange::Le(max.clone())
                } else {
                    VersionRange::Lt(max.clone())
                },
            );
        }
        if let Some(exact) = &value.exact {
            v = Vec::new();
            v.push(VersionRange::Eq(exact.clone()));
        }
        let ghost c = value@;
        let ghost head = ranges_view(v@);
        proof {
            let bounds = (match c.min {
                Some((inc, m)) => seq![(if inc { RangeKind::Ge } else { RangeKind::Gt }, m)],
                None => Seq::empty(),
            }) + (match c.max {
                Some((inc, m)) => seq![(if inc { RangeKind::Le } else { RangeKind::Lt }, m)],
                None => Seq::empty(),
            });
            let h = match c.exact {
                Some(e) => seq![(RangeKind::Eq, e)],
                None => bounds,
            };
            assert(head =~= h);
        }
        let ghost ex = c.exclusions;
        let mut i: usize = 0;
        while i < value.exclusions.len()
            invariant
                i <= value.exclusions.len(),
                ex == value@.exclusions,
                ranges_view(v@) == head + flipped_exclusions(ex.take(i as int)),
            decreases value.exclusions.len() - i,
        {
            let (start, end) = &value.exclusions[i];
            proof {
                assert(ex[i as int] == (start@, end@));
                assert(ex.take(i + 1).drop_last() == ex.take(i as int));
            }
            let ghost pre = v@;
            v.push(VersionRange::flip_range(start.clone()));
            v.push(VersionRange::flip_range(end.clone()));
            proof {
                assert(ranges_view(v@) =~= ranges_view(pre) + seq![flip_view(start@), flip_view(end@)]);
            }
            i += 1;
        }
        proof {
            assert(ex.take(ex.len() as int) == ex);
        }
        if v.len() == 0 {
            VersionRequirement::Unset
        } else {
            VersionRequirement::Hard(v)
        }
    }
}

} // verus!
