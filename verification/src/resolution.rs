//! The decisions of the dependency tree walk: which dependencies of a
//! project are followed, what they inherit from the dependency management of
//! a parent, what a version conflict with an earlier resolution comes to,
//! and what the answers of the resolvers come to.
use vstd::prelude::*;
use crate::assoc::{assoc_get, find_key, lemma_key_index};
use crate::pom::{exclusion_view, projects_view, Exclusion, Project, ProjectView, ScopeView};
use crate::strs::{append_str, str_eq};
use crate::resolvers::{ResolverError, ResolverErrorKind};
use crate::constraint::{empty_constraint, spec_within, within_defined, Constraint, ConstraintView, VersionCompareError};
use crate::containment::{all_comparable, comparable, spec_contain, versions_of, ContainError};
use crate::resolve::{ProjectDep, ProjectDepView};
use crate::verorder::{compare_versions, compare_versions_to, spec_version_compare, spec_version_compare_to, VersionRel};
use crate::version::{RequirementView, VersionRequirement};

verus! {

/// Whether an exclusion `(group, artifact)` excludes the dependency
/// `group:artifact`: `*` as group excludes everything, `*` as artifact
/// every artifact of the group.
pub open spec fn excludes(e: (Seq<char>, Seq<char>), group: Seq<char>, artifact: Seq<char>) -> bool {
    e.0 == "*"@ || (group == e.0 && (e.1 == "*"@ || artifact == e.1))
}

/// Whether a dependency is followed: it is of compile scope, not optional,
/// and no exclusion excludes it.
pub open spec fn followed(d: ProjectView, ex: Seq<(Seq<char>, Seq<char>)>) -> bool {
    &&& d.scope == ScopeView::Compile
    &&& !d.optional
    &&& forall|k: int| 0 <= k < ex.len() ==> !excludes(#[trigger] ex[k], d.group_id, d.artifact_id)
}

/// The dependencies that are followed, in their order.
pub open spec fn followed_deps(ds: Seq<ProjectView>, ex: Seq<(Seq<char>, Seq<char>)>) -> Seq<ProjectView>
    decreases ds.len(),
{
    if ds.len() == 0 {
        Seq::empty()
    } else {
        let rest = followed_deps(ds.drop_last(), ex);
        if followed(ds.last(), ex) {
            rest.push(ds.last())
        } else {
            rest
        }
    }
}

/// The dependencies that are followed are those of compile scope that are
/// not optional and that no exclusion names (an exclusion of group `*`
/// names everything, one of artifact `*` its whole group), in the order
/// they are declared: each one followed is declared and meets all that, and
/// each declared one that meets it is followed.
pub proof fn lemma_followed_deps(ds: Seq<ProjectView>, ex: Seq<(Seq<char>, Seq<char>)>)
    ensures
        followed_deps(ds, ex).len() <= ds.len(),
        forall|i: int|
            0 <= i < followed_deps(ds, ex).len() ==> {
                let d = #[trigger] followed_deps(ds, ex)[i];
                &&& ds.contains(d)
                &&& ScopeView::Compile == d.scope
                &&& !d.optional
                &&& forall|k: int|
                    0 <= k < ex.len() ==> ex[k].0 != "*"@ && !(ex[k].0 == d.group_id && (ex[k].1 == "*"@
                        || ex[k].1 == d.artifact_id))
            },
        forall|j: int|
            0 <= j < ds.len() && ScopeView::Compile == ds[j].scope && !ds[j].optional && (forall|k: int|
                0 <= k < ex.len() ==> ex[k].0 != "*"@ && !(ex[k].0 == ds[j].group_id && (ex[k].1 == "*"@
                    || ex[k].1 == ds[j].artifact_id))) ==> followed_deps(ds, ex).contains(#[trigger] ds[j]),
    decreases ds.len(),
{
    if ds.len() > 0 {
        let rest = ds.drop_last();
        lemma_followed_deps(rest, ex);
        let r = followed_deps(rest, ex);
        let d = ds.last();
        assert forall|i: int| 0 <= i < r.len() implies ds.contains(#[trigger] r[i]) by {
            let x = r[i];
            assert(rest.contains(x));
            let k = choose|k: int| 0 <= k < rest.len() && rest[k] == x;
            assert(ds[k] == x);
        }
        assert(ds.contains(d)) by {
            assert(ds[ds.len() - 1] == d);
        }
        assert forall|j: int|
            0 <= j < ds.len() && ScopeView::Compile == ds[j].scope && !ds[j].optional && (forall|k: int|
                0 <= k < ex.len() ==> ex[k].0 != "*"@ && !(ex[k].0 == ds[j].group_id && (ex[k].1 == "*"@
                    || ex[k].1 == ds[j].artifact_id))) implies followed_deps(ds, ex).contains(#[trigger] ds[j]) by {
            if j < ds.len() - 1 {
                assert(ds[j] == rest[j]);
                assert(r.contains(rest[j]));
                let k = choose|k: int| 0 <= k < r.len() && r[k] == rest[j];
                if followed(d, ex) {
                    assert(r.push(d)[k] == r[k]);
                }
            } else {
                assert(ds[j] == d);
                assert forall|k: int| 0 <= k < ex.len() implies !excludes(#[trigger] ex[k], d.group_id, d.artifact_id) by {}
                assert(followed(d, ex));
                assert(r.push(d)[r.len() as int] == d);
            }
        }
        if followed(d, ex) {
            assert forall|k: int| 0 <= k < ex.len() implies ex[k].0 != "*"@ && !(ex[k].0 == d.group_id && (ex[k].1 == "*"@
                || ex[k].1 == d.artifact_id)) by {
                assert(!excludes(ex[k], d.group_id, d.artifact_id));
            }
        }
    }
}

pub open spec fn exclusions_view(s: Seq<Exclusion>) -> Seq<(Seq<char>, Seq<char>)> {
    s.map_values(|e: Exclusion| exclusion_view(e))
}

/// Whether `dep` is followed under the exclusions `ex`.
pub fn is_followed(dep: &Project, ex: &Vec<Exclusion>) -> (r: bool)
    ensures
        r == followed(dep@, exclusions_view(ex@)),
{
    proof {
        reveal_strlit("*");
    }
    let scope = dep.get_scope();
    let compile = match scope {
        crate::pom::Scope::COMPILE => true,
        _ => false,
    };
    if !compile || dep.is_optional() {
        return false;
    }
    let group = dep.get_group_id();
    let artifact = dep.get_artifact_id();
    let ghost ev = exclusions_view(ex@);
    let mut k: usize = 0;
    while k < ex.len()
        invariant
            k <= ex.len(),
            ev == exclusions_view(ex@),
            group@ == dep@.group_id,
            artifact@ == dep@.artifact_id,
            forall|j: int| 0 <= j < k ==> !excludes(#[trigger] ev[j], group@, artifact@),
        decreases ex.len() - k,
    {
        let e = &ex[k];
        proof {
            assert(ev[k as int] == (e.group_id@, e.artifact_id@));
        }
        if str_eq(e.group_id.as_str(), "*") {
            return false;
        }
        if str_eq(group.as_str(), e.group_id.as_str()) {
            if str_eq(e.artifact_id.as_str(), "*") || str_eq(artifact.as_str(), e.artifact_id.as_str()) {
                return false;
            }
        }
        k += 1;
    }
    true
}

/// Keeps the dependencies of `deps` that are followed under the exclusions
/// `ex`, in their order.
pub fn retain_followed(deps: &mut Vec<Project>, ex: &Vec<Exclusion>)
    ensures
        projects_view(final(deps)@) == followed_deps(projects_view(old(deps)@), exclusions_view(ex@)),
{
    let mut rest: Vec<Project> = Vec::new();
    std::mem::swap(&mut rest, deps);
    let ghost all = projects_view(rest@);
    let ghost n = rest@.len();
    let len = rest.len();
    assert(n == len);
    let mut i: usize = 0;
    assert(all.take(0) =~= Seq::<ProjectView>::empty());
    assert(projects_view(deps@) =~= Seq::<ProjectView>::empty());
    assert(rest@.skip(0) =~= rest@);
    let ghost orig = rest@;
    while rest.len() > 0
        invariant
            i + rest.len() == n,
            n <= usize::MAX,
            all == projects_view(orig),
            orig.len() == n,
            rest@ == orig.skip(i as int),
            projects_view(deps@) == followed_deps(all.take(i as int), exclusions_view(ex@)),
        decreases rest.len(),
    {
        let d = rest.remove(0);
        proof {
            assert(d == orig[i as int]);
            assert(rest@ =~= orig.skip(i + 1));
            assert(all.take(i + 1).drop_last() == all.take(i as int));
            assert(all.take(i + 1).last() == d@);
        }
        if is_followed(&d, ex) {
            let ghost before = deps@;
            deps.push(d);
            proof {
                assert(projects_view(deps@) =~= projects_view(before).push(d@));
            }
        }
        i += 1;
    }
    proof {
        assert(all.take(n as int) == all);
    }
}

/// The key of a dependency in a dependency management table:
/// `group:artifact`.
pub open spec fn management_key(d: ProjectView) -> Seq<char> {
    d.group_id + ":"@ + d.artifact_id
}

/// A dependency after taking over what the managed dependency of its key
/// holds, where there is one.
pub open spec fn managed(d: ProjectView, m: Seq<(Seq<char>, ProjectView)>) -> ProjectView {
    match assoc_get(m, management_key(d)) {
        Some(p) => ProjectView {
            version: match p.selected_version {
                Some(v) => crate::version::RequirementView::Soft(v),
                None => d.version,
            },
            selected_version: p.selected_version,
            excludes: d.excludes + p.excludes,
            scope: p.scope,
            ..d
        },
        None => d,
    }
}

/// Lets each dependency take over what the dependency management `m` of a
/// parent holds for it.
pub fn apply_management(deps: &mut Vec<Project>, m: &Vec<(String, Project)>)
    ensures
        projects_view(final(deps)@) == projects_view(old(deps)@).map_values(
            |d: ProjectView| managed(d, crate::assoc::pairs_view(m@)),
        ),
{
    let ghost mv = crate::assoc::pairs_view(m@);
    let ghost start = projects_view(deps@);
    let mut i: usize = 0;
    while i < deps.len()
        invariant
            i <= deps.len(),
            mv == crate::assoc::pairs_view(m@),
            start.len() == deps@.len(),
            forall|j: int| 0 <= j < i ==> #[trigger] projects_view(deps@)[j] == managed(start[j], mv),
            forall|j: int| i <= j < deps@.len() ==> #[trigger] projects_view(deps@)[j] == start[j],
        decreases deps.len() - i,
    {
        let mut key = deps[i].get_group_id();
        append_str(&mut key, ":");
        append_str(&mut key, deps[i].get_artifact_id().as_str());
        proof {
            assert(projects_view(deps@)[i as int] == start[i as int]);
            assert(projects_view(deps@)[i as int] == deps@[i as int]@);
            assert(key@ == management_key(start[i as int]));
            lemma_key_index(mv, key@);
        }
        match find_key(m, key.as_str()) {
            Some(k) => {
                let ghost before = deps@;
                let mut d = deps.remove(i);
                d.copy_parent(&m[k].1);
                deps.insert(i, d);
                proof {
                    assert(deps@ =~= before.update(i as int, d));
                    assert(mv[k as int] == (m@[k as int].0@, m@[k as int].1@));
                    assert(assoc_get(mv, key@) == Some(m@[k as int].1@));
                    assert(projects_view(deps@)[i as int] == d@);
                    assert(d@ == managed(start[i as int], mv));
                    assert forall|j: int| 0 <= j < deps@.len() && j != i implies #[trigger] projects_view(
                        deps@,
                    )[j] == projects_view(before)[j] by {
                        assert(deps@[j] == before[j]);
                    }
                }
            },
            None => {
                proof {
                    assert(assoc_get(mv, key@) is None);
                    assert(managed(start[i as int], mv) == start[i as int]);
                }
            },
        }
        i += 1;
    }
    proof {
        assert(projects_view(deps@) =~= start.map_values(|d: ProjectView| managed(d, mv)));
    }
}


/// What the walk makes of the answer of one resolver, asked in turn.
#[derive(Debug, PartialEq, Eq)]
pub enum ResolverStep {
    /// Ask the next resolver.
    Next,
    /// The answer: the url (or version) found, and whether the cache gave it.
    Found(String, bool),
    /// The walk fails with this error of the resolver.
    Fail(ResolverError),
}

/// What the answer of resolver `name` to a fetch comes to: a project it
/// does not have sends the walk on to the next resolver; any other failure
/// ends it; a url ends the search, from the cache where the resolver is
/// the cache.
pub fn fetch_step(name: &str, result: Result<String, ResolverError>) -> (r: ResolverStep)
    ensures
        match result {
            Err(e) => if e.kind_view() == ResolverErrorKind::NotFound {
                r == ResolverStep::Next
            } else {
                r == ResolverStep::Fail(e)
            },
            Ok(u) => r == ResolverStep::Found(u, name@ == "cache"@),
        },
{
    match result {
        Err(e) => match e.kind() {
            ResolverErrorKind::NotFound => ResolverStep::Next,
            _ => ResolverStep::Fail(e),
        },
        Ok(url) => ResolverStep::Found(url, str_eq(name, "cache")),
    }
}

/// What the answer of resolver `name` to a version query comes to: a
/// project it does not have, or (from the cache, which may be stale) one
/// with no fitting version, sends the walk on to the next resolver; any
/// other failure ends it; a version ends the search.
pub fn version_step(name: &str, result: Result<String, ResolverError>) -> (r: ResolverStep)
    ensures
        match result {
            Err(e) => if e.kind_view() == ResolverErrorKind::NotFound || (e.kind_view()
                == ResolverErrorKind::NoSelectedVersion && name@ == "cache"@) {
                r == ResolverStep::Next
            } else {
                r == ResolverStep::Fail(e)
            },
            Ok(v) => r == ResolverStep::Found(v, name@ == "cache"@),
        },
{
    match result {
        Err(e) => match e.kind() {
            ResolverErrorKind::NotFound => ResolverStep::Next,
            ResolverErrorKind::NoSelectedVersion => if str_eq(name, "cache") {
                ResolverStep::Next
            } else {
                ResolverStep::Fail(e)
            },
            _ => ResolverStep::Fail(e),
        },
        Ok(v) => ResolverStep::Found(v, str_eq(name, "cache")),
    }
}


/// What a version conflict with an earlier resolution of the same package
/// comes to.
#[derive(Debug)]
pub enum ConflictAction {
    /// The earlier resolution stands; this branch of the tree is left.
    Skip,
    /// Not a conflict: the package is fetched as usual.
    Proceed,
    /// The earlier resolution takes this version, and this constraint where
    /// one is given; the package is then fetched as resolved earlier.
    Replace(String, Option<Constraint>),
    /// The earlier resolution takes this constraint and a version that the
    /// resolvers choose for it; the package is then fetched as resolved
    /// earlier.
    Compute(Constraint),
}

/// The model of an action.
pub enum ActionView {
    Skip,
    Proceed,
    Replace(Seq<char>, Option<ConstraintView>),
    Compute(ConstraintView),
}

impl View for ConflictAction {
    type V = ActionView;

    open spec fn view(&self) -> ActionView {
        match self {
            ConflictAction::Skip => ActionView::Skip,
            ConflictAction::Proceed => ActionView::Proceed,
            ConflictAction::Replace(v, c) => ActionView::Replace(
                v@,
                match c {
                    Some(x) => Some(x@),
                    None => None,
                },
            ),
            ConflictAction::Compute(c) => ActionView::Compute(c@),
        }
    }
}

/// Why a version conflict cannot be settled.
#[derive(Debug, Clone, Copy, PartialEq, Eq)]
pub enum ConflictError {
    /// One of the two versions is not a version.
    InvalidVersions,
    /// The hard requirement could not be compared with the earlier constraint.
    Within(VersionCompareError),
    /// The hard requirement could not be made a constraint.
    Contain(ContainError),
    /// The hard requirement does not fit the earlier constraint.
    HardConflict,
}

/// Whether the version relation of a conflict is one that needs settling.
pub open spec fn conflicting(rel: VersionRel) -> bool {
    rel != VersionRel::Eq && rel != VersionRel::Ne
}

/// The action for a package whose earlier resolution `res` has another
/// version than `version`, the version selected now under requirement
/// `req`: the same version stands; under the earlier constraint, a soft
/// version within it replaces an older one, no version leaves the earlier
/// one, and hard ranges within it narrow it (to its exact version, or to a
/// version the resolvers choose) while hard ranges outside it are a
/// conflict; with no earlier constraint, a newer soft version replaces the
/// earlier one and hard ranges replace it with their own constraint.
pub open spec fn conflict_action(res: ProjectDepView, req: RequirementView, version: Seq<char>) -> Result<ActionView, ConflictError> {
    match spec_version_compare(res.version, version) {
        None => Err(ConflictError::InvalidVersions),
        Some(VersionRel::Eq) => Ok(ActionView::Skip),
        Some(VersionRel::Ne) => Ok(ActionView::Proceed),
        Some(_) => match res.constraints {
            Some(c) => match req {
                RequirementView::Soft(v) => if spec_within(c, req) == Some(true) && spec_version_compare_to(
                    version,
                    res.version,
                    VersionRel::Gt,
                ) == Some(true) {
                    Ok(ActionView::Replace(v, None))
                } else {
                    Ok(ActionView::Skip)
                },
                RequirementView::Unset => Ok(ActionView::Skip),
                RequirementView::Hard(_) => match spec_within(c, req) {
                    None => Err(ConflictError::Within(VersionCompareError)),
                    Some(false) => Err(ConflictError::HardConflict),
                    Some(true) => {
                        let c2 = spec_contain(c, req).0;
                        match c2.exact {
                            Some(e) => Ok(ActionView::Replace(e, Some(c2))),
                            None => Ok(ActionView::Compute(c2)),
                        }
                    },
                },
            },
            None => match req {
                RequirementView::Unset => Ok(ActionView::Skip),
                RequirementView::Soft(v) => match spec_version_compare(v, res.version) {
                    Some(VersionRel::Ge) | Some(VersionRel::Gt) => Ok(ActionView::Replace(v, None)),
                    Some(_) => Ok(ActionView::Skip),
                    None => Ok(ActionView::Proceed),
                },
                RequirementView::Hard(_) => match spec_contain(empty_constraint(), req) {
                    (c2, Ok(())) => Ok(ActionView::Replace(version, Some(c2))),
                    (_, Err(e)) => Err(ConflictError::Contain(e)),
                },
            },
        },
    }
}

/// Whether settling a conflict only makes comparisons that can be made.
pub open spec fn conflict_defined(res: ProjectDepView, req: RequirementView, version: Seq<char>) -> bool {
    match spec_version_compare(res.version, version) {
        Some(rel) => conflicting(rel) ==> match res.constraints {
            Some(c) => match req {
                RequirementView::Soft(v) => within_defined(c, req) && spec_within(c, req) is Some && (
                spec_within(c, req) == Some(true) ==> spec_version_compare_to(
                    version,
                    res.version,
                    VersionRel::Gt,
                ) is Some),
                RequirementView::Hard(_) => within_defined(c, req) && (spec_within(c, req) == Some(true)
                    ==> comparable(versions_of(c, req)) && spec_contain(c, req).1 is Ok),
                RequirementView::Unset => true,
            },
            None => match req {
                RequirementView::Soft(v) => spec_version_compare(v, res.version) != Some(VersionRel::Ne),
                RequirementView::Hard(_) => comparable(versions_of(empty_constraint(), req)),
                RequirementView::Unset => true,
            },
        },
        None => true,
    }
}

/// Settles a version conflict between the earlier resolution `res` of a
/// package and `version`, selected now under requirement `req`.
pub fn settle_conflict(res: &ProjectDep, req: &VersionRequirement, version: &String) -> (r: Result<ConflictAction, ConflictError>)
    requires
        conflict_defined(res@, req@, version@),
    ensures
        match conflict_action(res@, req@, version@) {
            Ok(a) => r matches Ok(x) && x@ == a,
            Err(ConflictError::Within(_)) => r matches Err(ConflictError::Within(_)),
            Err(e) => r == Err::<ConflictAction, ConflictError>(e),
        },
{
    let rel = match compare_versions(res.version.as_str(), version.as_str()) {
        None => {
            return Err(ConflictError::InvalidVersions);
        },
        Some(rel) => rel,
    };
    match rel {
        VersionRel::Eq => {
            return Ok(ConflictAction::Skip);
        },
        VersionRel::Ne => {
            return Ok(ConflictAction::Proceed);
        },
        _ => {},
    }
    match &res.constraints {
        Some(c) => match req {
            VersionRequirement::Soft(v) => {
                let inside = c.within(req);
                match inside {
                    Ok(true) => {
                        match compare_versions_to(version.as_str(), res.version.as_str(), VersionRel::Gt) {
                            Some(true) => Ok(ConflictAction::Replace(v.clone(), None)),
                            _ => Ok(ConflictAction::Skip),
                        }
                    },
                    _ => Ok(ConflictAction::Skip),
                }
            },
            VersionRequirement::Unset => Ok(ConflictAction::Skip),
            VersionRequirement::Hard(_) => match c.within(req) {
                Err(e) => Err(ConflictError::Within(e)),
                Ok(false) => Err(ConflictError::HardConflict),
                Ok(true) => match c.contain(req) {
                    Err(e) => Err(ConflictError::Contain(e)),
                    Ok(c2) => match &c2.exact {
                        Some(e) => {
                            let e = e.clone();
                            Ok(ConflictAction::Replace(e, Some(c2)))
                        },
                        None => Ok(ConflictAction::Compute(c2)),
                    },
                },
            },
        },
        None => match req {
            VersionRequirement::Unset => Ok(ConflictAction::Skip),
            VersionRequirement::Soft(v) => match compare_versions(v.as_str(), res.version.as_str()) {
                Some(VersionRel::Ge) | Some(VersionRel::Gt) => Ok(ConflictAction::Replace(v.clone(), None)),
                Some(_) => Ok(ConflictAction::Skip),
                None => Ok(ConflictAction::Proceed),
            },
            VersionRequirement::Hard(_) => {
                let mut c2 = Constraint::default();
                match c2.contain_mut(req) {
                    Ok(()) => Ok(ConflictAction::Replace(version.clone(), Some(c2))),
                    Err(e) => Err(ConflictError::Contain(e)),
                }
            },
        },
    }
}


/// `settle_conflict`, or `None` where settling would make a comparison that
/// cannot be made.
pub fn try_settle_conflict(res: &ProjectDep, req: &VersionRequirement, version: &String) -> (r: Option<Result<ConflictAction, ConflictError>>)
    ensures
        r is None <==> !conflict_defined(res@, req@, version@),
        r matches Some(x) ==> match conflict_action(res@, req@, version@) {
            Ok(a) => x matches Ok(y) && y@ == a,
            Err(ConflictError::Within(_)) => x matches Err(ConflictError::Within(_)),
            Err(e) => x == Err::<ConflictAction, ConflictError>(e),
        },
{
    let rel = match compare_versions(res.version.as_str(), version.as_str()) {
        None => {
            return Some(settle_conflict(res, req, version));
        },
        Some(rel) => rel,
    };
    if rel == VersionRel::Eq || rel == VersionRel::Ne {
        return Some(settle_conflict(res, req, version));
    }
    let defined = match &res.constraints {
        Some(c) => match req {
            VersionRequirement::Soft(_) => match c.within_checked(req) {
                Some(Ok(true)) => compare_versions_to(version.as_str(), res.version.as_str(), VersionRel::Gt).is_some(),
                Some(Ok(false)) => true,
                _ => false,
            },
            VersionRequirement::Hard(_) => match c.within_checked(req) {
                None => false,
                Some(Ok(true)) => match c.try_contain(req) {
                    Some(Ok(_)) => true,
                    _ => false,
                },
                Some(_) => true,
            },
            VersionRequirement::Unset => true,
        },
        None => match req {
            VersionRequirement::Soft(v) => !matches!(
                compare_versions(v.as_str(), res.version.as_str()),
                Some(VersionRel::Ne)
            ),
            VersionRequirement::Hard(_) => Constraint::default().try_contain(req).is_some(),
            VersionRequirement::Unset => true,
        },
    };
    if defined {
        Some(settle_conflict(res, req, version))
    } else {
        None
    }
}


/// How a version conflict is settled: the same version stands as it is;
/// versions that cannot be compared are an error; no requirement never
/// changes the earlier resolution; an earlier resolution is replaced by a
/// bare version only for a soft requirement of that version that is newer
/// (than the earlier version, or, under an earlier constraint, with the
/// selected version newer than the earlier one); hard ranges outside an
/// earlier constraint are a conflict; and hard ranges with no earlier
/// constraint replace the earlier resolution with the selected version and
/// the constraint the ranges make.
pub proof fn lemma_conflict_settlement(res: ProjectDepView, req: RequirementView, version: Seq<char>)
    ensures
        spec_version_compare(res.version, version) == Some(VersionRel::Eq) ==> conflict_action(res, req, version)
            == Ok::<ActionView, ConflictError>(ActionView::Skip),
        spec_version_compare(res.version, version) is None ==> conflict_action(res, req, version) == Err::<
            ActionView,
            ConflictError,
        >(ConflictError::InvalidVersions),
        req is Unset && conflict_action(res, req, version) is Ok ==> (conflict_action(res, req, version)->Ok_0 is Skip
            || conflict_action(res, req, version)->Ok_0 is Proceed),
        conflict_action(res, req, version) matches Ok(ActionView::Replace(v, None)) ==> req
            == RequirementView::Soft(v) && (spec_version_compare(v, res.version) == Some(VersionRel::Ge)
                || spec_version_compare(v, res.version) == Some(VersionRel::Gt) || spec_version_compare_to(
                version,
                res.version,
                VersionRel::Gt,
            ) == Some(true)),
        req is Hard && res.constraints is Some && spec_within(res.constraints->0, req) == Some(false)
            && spec_version_compare(res.version, version) is Some && conflicting(
            spec_version_compare(res.version, version)->0,
        ) ==> conflict_action(res, req, version) == Err::<ActionView, ConflictError>(ConflictError::HardConflict),
        req is Hard && res.constraints is None && spec_contain(empty_constraint(), req).1 is Ok
            && spec_version_compare(res.version, version) is Some && conflicting(
            spec_version_compare(res.version, version)->0,
        ) ==> conflict_action(res, req, version) == Ok::<ActionView, ConflictError>(
            ActionView::Replace(version, Some(spec_contain(empty_constraint(), req).0)),
        ),
{
}

} // verus!
