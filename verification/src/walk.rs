//! The walk of the dependency tree as a state machine. Each step takes the
//! answer to the last request (the fetched pom of a project, or the version
//! the resolvers chose for one) and decides what to visit next, what to skip
//! (versions resolved earlier, conflicts settled, exclusions, circular
//! dependencies) and what to record, until it needs the next answer.
use vstd::prelude::*;
use crate::constraint::{empty_constraint, requirement_of, Constraint, ConstraintView};
use crate::containment::{comparable, spec_contain, versions_of, ContainError};
use crate::pom::{default_project, initial_selection, projects_view, Exclusion, ParentView, Project, ProjectView};
use crate::resolution::{
    apply_management, conflict_action, conflict_defined, exclusions_view, followed_deps, management_key,
    managed, retain_followed, try_settle_conflict, ActionView, ConflictAction, ConflictError,
};
use crate::resolve::{all_selected, dep_of_project, texts_view, ProjectDep, ProjectDepError, ProjectDepView};
use crate::lock::deps_view;
use crate::strs::{append_str, str_eq};
use crate::version::{spec_parse_requirement, VersionRequirement};

verus! {

/// How a project came to be walked, which says what becomes of it when its
/// walk ends.
#[derive(Debug, Clone, Copy, PartialEq, Eq, Structural)]
pub enum Role {
    /// A project asked for directly.
    Root,
    /// The parent pom of the project below it.
    Parent,
    /// A dependency of the project below it.
    Dep,
}

/// What the walk of a project waits for.
#[derive(Debug, Clone, Copy, PartialEq, Eq, Structural)]
pub enum Phase {
    /// The version the resolvers choose for an earlier resolution, to settle
    /// a version conflict.
    ConflictVersion,
    /// The project's fetched pom.
    Fetch,
    /// The end of the walk of its parent pom.
    Parent,
    /// The version the resolvers choose for the dependency at hand.
    DepVersion,
    /// The end of the walk of the dependency at hand.
    Dep,
}

/// The walk of one project.
pub struct Frame {
    /// The project; away while it is being fetched
    pub project: Option<Project>,
    pub role: Role,
    pub phase: Phase,
    /// Whether the project was resolved earlier, and that resolution updated
    pub earlier: bool,
    /// The earlier resolution, by position, and the constraint it takes
    /// while a version for it is chosen
    pub conflict: Option<(usize, Constraint)>,
    /// Where the project was fetched from, and whether the cache gave it
    pub url: String,
    pub cache_hit: bool,
    /// The dependencies walked or skipped, in their order
    pub done: Vec<Project>,
    /// The dependencies still to walk, in their order
    pub todo: Vec<Project>,
}

pub struct FrameView {
    pub project: Option<ProjectView>,
    pub role: Role,
    pub phase: Phase,
    pub earlier: bool,
    pub conflict: Option<(int, ConstraintView)>,
    pub url: Seq<char>,
    pub cache_hit: bool,
    pub done: Seq<ProjectView>,
    pub todo: Seq<ProjectView>,
}

impl View for Frame {
    type V = FrameView;

    open spec fn view(&self) -> FrameView {
        FrameView {
            project: match self.project {
                Some(p) => Some(p@),
                None => None,
            },
            role: self.role,
            phase: self.phase,
            earlier: self.earlier,
            conflict: match self.conflict {
                Some((i, c)) => Some((i as int, c@)),
                None => None,
            },
            url: self.url@,
            cache_hit: self.cache_hit,
            done: projects_view(self.done@),
            todo: projects_view(self.todo@),
        }
    }
}

/// The state of the walk: what is resolved so far, the `group:artifact` of
/// the projects being walked, and the walks in progress, innermost last.
pub struct WalkState {
    pub resolved: Vec<ProjectDep>,
    pub unresolved: Vec<String>,
    pub stack: Vec<Frame>,
}

pub struct WalkStateView {
    pub resolved: Seq<ProjectDepView>,
    pub unresolved: Seq<Seq<char>>,
    pub stack: Seq<FrameView>,
}

pub open spec fn frames_view(s: Seq<Frame>) -> Seq<FrameView> {
    s.map_values(|f: Frame| f@)
}

impl View for WalkState {
    type V = WalkStateView;

    open spec fn view(&self) -> WalkStateView {
        WalkStateView {
            resolved: deps_view(self.resolved@),
            unresolved: texts_view(self.unresolved@),
            stack: frames_view(self.stack@),
        }
    }
}

/// What the walk is told.
pub enum WalkEvent {
    /// Walk this project, asked for directly.
    Begin(Project),
    /// The project asked for, fetched: where from and whether the cache gave
    /// it, or why it could not be fetched.
    Fetched(Project, Result<(String, bool), String>),
    /// The project whose version was asked for, and the version the
    /// resolvers chose, or why none was.
    Versioned(Project, Result<String, String>),
}

pub enum WalkEventView {
    Begin(ProjectView),
    Fetched(ProjectView, Result<(Seq<char>, bool), Seq<char>>),
    Versioned(ProjectView, Result<Seq<char>, Seq<char>>),
}

impl View for WalkEvent {
    type V = WalkEventView;

    open spec fn view(&self) -> WalkEventView {
        match self {
            WalkEvent::Begin(p) => WalkEventView::Begin(p@),
            WalkEvent::Fetched(p, r) => WalkEventView::Fetched(
                p@,
                match r {
                    Ok((u, h)) => Ok((u@, *h)),
                    Err(m) => Err(m@),
                },
            ),
            WalkEvent::Versioned(p, r) => WalkEventView::Versioned(
                p@,
                match r {
                    Ok(v) => Ok(v@),
                    Err(m) => Err(m@),
                },
            ),
        }
    }
}

/// Why the walk stops.
#[derive(Debug, PartialEq, Eq)]
pub enum WalkError {
    /// A project to walk has no version selected.
    NoSelectedVersion,
    /// Two versions that the walk compares cannot be compared.
    Incomparable,
    /// A version conflict that cannot be settled.
    Conflict(ConflictError),
    /// A project could not be fetched.
    FetchFailed(String),
    /// No version could be chosen.
    VersionFailed(String),
    /// A walked project has a dependency without a version.
    Unresolved,
    /// A walked project's requirement does not make a constraint.
    Constraint(ContainError),
    /// A walked project has no version selected.
    VersionNotSet,
    /// An answer came that the walk did not ask for.
    Unexpected,
}

pub enum WalkErrorView {
    NoSelectedVersion,
    Incomparable,
    Conflict(ConflictError),
    FetchFailed(Seq<char>),
    VersionFailed(Seq<char>),
    Unresolved,
    Constraint(ContainError),
    VersionNotSet,
    Unexpected,
}

impl View for WalkError {
    type V = WalkErrorView;

    open spec fn view(&self) -> WalkErrorView {
        match self {
            WalkError::NoSelectedVersion => WalkErrorView::NoSelectedVersion,
            WalkError::Incomparable => WalkErrorView::Incomparable,
            WalkError::Conflict(e) => WalkErrorView::Conflict(*e),
            WalkError::FetchFailed(m) => WalkErrorView::FetchFailed(m@),
            WalkError::VersionFailed(m) => WalkErrorView::VersionFailed(m@),
            WalkError::Unresolved => WalkErrorView::Unresolved,
            WalkError::Constraint(e) => WalkErrorView::Constraint(*e),
            WalkError::VersionNotSet => WalkErrorView::VersionNotSet,
            WalkError::Unexpected => WalkErrorView::Unexpected,
        }
    }
}

/// What the walk asks for next.
pub enum WalkAction {
    /// Fetch the pom of this project and hand it back.
    Fetch(Project),
    /// Have the resolvers choose a version for this project and hand it back.
    ComputeVersion(Project),
    /// The walk of the project asked for is over; here it is, walked.
    Done(Project),
    /// The walk cannot go on.
    Fail(WalkError),
}

pub enum WalkActionView {
    Fetch(ProjectView),
    ComputeVersion(ProjectView),
    Done(ProjectView),
    Fail(WalkErrorView),
}

impl View for WalkAction {
    type V = WalkActionView;

    open spec fn view(&self) -> WalkActionView {
        match self {
            WalkAction::Fetch(p) => WalkActionView::Fetch(p@),
            WalkAction::ComputeVersion(p) => WalkActionView::ComputeVersion(p@),
            WalkAction::Done(p) => WalkActionView::Done(p@),
            WalkAction::Fail(e) => WalkActionView::Fail(e@),
        }
    }
}

/// `u` without its last text, where it has one.
pub open spec fn pop_text(u: Seq<Seq<char>>) -> Seq<Seq<char>> {
    if u.len() > 0 {
        u.drop_last()
    } else {
        u
    }
}

pub open spec fn fail(s: WalkStateView, e: WalkErrorView) -> (WalkStateView, WalkActionView) {
    (s, WalkActionView::Fail(e))
}

/// The position of the first resolved dependency `group:artifact`.
pub open spec fn dep_index(rs: Seq<ProjectDepView>, group: Seq<char>, artifact: Seq<char>) -> Option<int>
    decreases rs.len(),
{
    if rs.len() == 0 {
        None
    } else if rs[0].group_id == group && rs[0].artifact_id == artifact {
        Some(0)
    } else {
        match dep_index(rs.drop_first(), group, artifact) {
            Some(i) => Some(i + 1),
            None => None,
        }
    }
}

/// The walk of a project that has just begun, waiting for its pom.
pub open spec fn fresh_frame(role: Role, earlier: bool) -> FrameView {
    FrameView {
        project: None,
        role,
        phase: Phase::Fetch,
        earlier,
        conflict: None,
        url: Seq::empty(),
        cache_hit: false,
        done: Seq::empty(),
        todo: Seq::empty(),
    }
}

/// An earlier resolution that takes version `v`, and constraint `c` where
/// one is given.
pub open spec fn replaced(d: ProjectDepView, v: Seq<char>, c: Option<ConstraintView>) -> ProjectDepView {
    ProjectDepView {
        version: v,
        constraints: match c {
            Some(x) => Some(x),
            None => d.constraints,
        },
        ..d
    }
}

/// The project whose version the resolvers choose for an earlier
/// resolution under constraint `c`.
pub open spec fn probe(d: ProjectDepView, c: ConstraintView) -> ProjectView {
    ProjectView {
        group_id: d.group_id,
        artifact_id: d.artifact_id,
        version: requirement_of(c),
        selected_version: initial_selection(spec_parse_requirement(""@)),
        ..default_project()
    }
}

/// The project that stands for a parent pom.
pub open spec fn parent_project(pp: ParentView) -> ProjectView {
    ProjectView {
        group_id: pp.group_id,
        artifact_id: pp.artifact_id,
        version: spec_parse_requirement(pp.version),
        selected_version: initial_selection(spec_parse_requirement(pp.version)),
        ..default_project()
    }
}

/// What the walk of a project ends in: nothing where the requirement's
/// versions cannot be compared, the error that recording it gives, or the
/// resolved dependency that records it.
pub open spec fn spec_record(p: ProjectView) -> Option<Result<ProjectDepView, WalkErrorView>> {
    if !comparable(versions_of(empty_constraint(), p.version)) {
        None
    } else if !all_selected(p.dependencies) {
        Some(Err(WalkErrorView::Unresolved))
    } else {
        match spec_contain(empty_constraint(), p.version) {
            (_, Err(e)) => Some(Err(WalkErrorView::Constraint(e))),
            (c, Ok(())) => match p.selected_version {
                None => Some(Err(WalkErrorView::VersionNotSet)),
                Some(_) => Some(Ok(dep_of_project(p, c))),
            },
        }
    }
}

/// Begins the walk of project `p` on top of the walks in `s`: a project
/// without a selected version fails; a project resolved earlier settles the
/// version conflict first (and is left where the earlier resolution
/// stands); otherwise its pom is asked for.
pub open spec fn spec_start(s: WalkStateView, p: ProjectView, role: Role) -> (WalkStateView, WalkActionView) {
    match p.selected_version {
        None => fail(s, WalkErrorView::NoSelectedVersion),
        Some(version) => {
            let s1 = WalkStateView { unresolved: s.unresolved.push(management_key(p)), ..s };
            match dep_index(s.resolved, p.group_id, p.artifact_id) {
                None => (
                    WalkStateView { stack: s.stack.push(fresh_frame(role, false)), ..s1 },
                    WalkActionView::Fetch(p),
                ),
                Some(i) => if !conflict_defined(s.resolved[i], p.version, version) {
                    fail(s1, WalkErrorView::Incomparable)
                } else {
                    match conflict_action(s.resolved[i], p.version, version) {
                        Err(e) => fail(s1, WalkErrorView::Conflict(e)),
                        Ok(ActionView::Skip) => spec_hand_back(s, p, role),
                        Ok(ActionView::Proceed) => (
                            WalkStateView { stack: s.stack.push(fresh_frame(role, false)), ..s1 },
                            WalkActionView::Fetch(p),
                        ),
                        Ok(ActionView::Replace(v, c)) => (
                            WalkStateView {
                                resolved: s.resolved.update(i, replaced(s.resolved[i], v, c)),
                                stack: s.stack.push(fresh_frame(role, true)),
                                ..s1
                            },
                            WalkActionView::Fetch(p),
                        ),
                        Ok(ActionView::Compute(c)) => (
                            WalkStateView {
                                stack: s.stack.push(
                                    FrameView {
                                        project: Some(p),
                                        phase: Phase::ConflictVersion,
                                        conflict: Some((i, c)),
                                        ..fresh_frame(role, false)
                                    },
                                ),
                                ..s1
                            },
                            WalkActionView::ComputeVersion(probe(s.resolved[i], c)),
                        ),
                    }
                },
            }
        },
    }
}

/// Hands the walked project `p` back to the walk below it (the top of
/// `s.stack`): a parent pom passes its managed versions to the dependencies
/// of its child and adds its own; a dependency joins the walked ones.
pub open spec fn spec_hand_back(s: WalkStateView, p: ProjectView, role: Role) -> (WalkStateView, WalkActionView)
    decreases s.stack.len(), 4int,
{
    match role {
        Role::Root => (s, WalkActionView::Done(p)),
        Role::Parent => if s.stack.len() == 0 {
            fail(s, WalkErrorView::Unexpected)
        } else {
            let below = s.stack.last();
            match below.project {
                None => fail(s, WalkErrorView::Unexpected),
                Some(bp) => {
                    let merged = ProjectView {
                        dependencies: bp.dependencies.map_values(
                            |d: ProjectView| managed(d, p.dependency_management),
                        ) + p.dependencies,
                        ..bp
                    };
                    spec_proceed(WalkStateView { stack: s.stack.drop_last(), ..s }, below, merged)
                },
            }
        },
        Role::Dep => if s.stack.len() == 0 {
            fail(s, WalkErrorView::Unexpected)
        } else {
            let below = s.stack.last();
            spec_next_dep(
                WalkStateView { stack: s.stack.drop_last(), ..s },
                FrameView { done: below.done.push(p), ..below },
            )
        },
    }
}

/// Goes on with the walk `f` of the fetched project `p`, whose parent (if
/// any) is walked: the dependencies that are followed are walked in turn.
pub open spec fn spec_proceed(s: WalkStateView, f: FrameView, p: ProjectView) -> (WalkStateView, WalkActionView)
    decreases s.stack.len() + 1, 3int,
{
    spec_next_dep(
        s,
        FrameView {
            project: Some(ProjectView { dependencies: Seq::empty(), ..p }),
            done: Seq::empty(),
            todo: followed_deps(p.dependencies, p.excludes),
            ..f
        },
    )
}

/// Takes up the next dependency of the walk `f`, asking for its version,
/// or ends the walk where none is left.
pub open spec fn spec_next_dep(s: WalkStateView, f: FrameView) -> (WalkStateView, WalkActionView)
    decreases s.stack.len() + 1, 2int,
{
    if f.todo.len() == 0 {
        spec_finish(s, f)
    } else {
        (
            WalkStateView {
                stack: s.stack.push(FrameView { phase: Phase::DepVersion, todo: f.todo.drop_first(), ..f }),
                ..s
            },
            WalkActionView::ComputeVersion(f.todo[0]),
        )
    }
}

/// Ends the walk `f`: the project, with the dependencies walked, is
/// recorded as resolved (unless it was resolved earlier, or is only a pom)
/// and handed back to the walk below.
pub open spec fn spec_finish(s: WalkStateView, f: FrameView) -> (WalkStateView, WalkActionView)
    decreases s.stack.len() + 1, 1int,
{
    match f.project {
        None => fail(s, WalkErrorView::Unexpected),
        Some(p0) => {
            let p = ProjectView { dependencies: f.done, ..p0 };
            let s1 = WalkStateView { unresolved: pop_text(s.unresolved), ..s };
            match spec_record(p) {
                None => fail(s1, WalkErrorView::Incomparable),
                Some(Err(e)) => fail(s1, e),
                Some(Ok(d)) => {
                    let d2 = ProjectDepView { base_url: f.url, cache_hit: f.cache_hit, ..d };
                    let s2 = if !f.earlier && d.packaging != "pom"@ {
                        WalkStateView { resolved: s1.resolved.push(d2), ..s1 }
                    } else {
                        s1
                    };
                    spec_hand_back(s2, p, f.role)
                },
            }
        },
    }
}

/// One step of the walk: what the state becomes on `ev`, and what the walk
/// asks for next.
pub open spec fn spec_walk_step(s: WalkStateView, ev: WalkEventView) -> (WalkStateView, WalkActionView) {
    match ev {
        WalkEventView::Begin(p) => if s.stack.len() == 0 {
            spec_start(s, p, Role::Root)
        } else {
            fail(s, WalkErrorView::Unexpected)
        },
        WalkEventView::Fetched(p, res) => if s.stack.len() == 0 || s.stack.last().phase != Phase::Fetch {
            fail(s, WalkErrorView::Unexpected)
        } else {
            let f = s.stack.last();
            let rest = WalkStateView { stack: s.stack.drop_last(), ..s };
            match res {
                Err(m) => fail(s, WalkErrorView::FetchFailed(m)),
                Ok((url, hit)) => {
                    let f2 = FrameView { project: Some(p), url, cache_hit: hit, ..f };
                    match p.parent {
                        Some(pp) => spec_start(
                            WalkStateView { stack: rest.stack.push(FrameView { phase: Phase::Parent, ..f2 }), ..rest },
                            parent_project(pp),
                            Role::Parent,
                        ),
                        None => spec_proceed(rest, f2, p),
                    }
                },
            }
        },
        WalkEventView::Versioned(d, res) => if s.stack.len() == 0 {
            fail(s, WalkErrorView::Unexpected)
        } else {
            let f = s.stack.last();
            let rest = WalkStateView { stack: s.stack.drop_last(), ..s };
            match res {
                Err(m) => fail(s, WalkErrorView::VersionFailed(m)),
                Ok(v) => match f.phase {
                    Phase::ConflictVersion => match (f.conflict, f.project) {
                        (Some((i, c)), Some(p)) => if 0 <= i < s.resolved.len() {
                            (
                                WalkStateView {
                                    resolved: s.resolved.update(i, replaced(s.resolved[i], v, Some(c))),
                                    stack: rest.stack.push(
                                        FrameView { project: None, phase: Phase::Fetch, earlier: true, conflict: None, ..f },
                                    ),
                                    ..s
                                },
                                WalkActionView::Fetch(p),
                            )
                        } else {
                            fail(s, WalkErrorView::Unexpected)
                        },
                        _ => fail(s, WalkErrorView::Unexpected),
                    },
                    Phase::DepVersion => {
                        let d2 = ProjectView { selected_version: Some(v), ..d };
                        if s.unresolved.contains(management_key(d2)) {
                            spec_next_dep(rest, FrameView { done: f.done.push(d2), ..f })
                        } else {
                            spec_start(
                                WalkStateView { stack: rest.stack.push(FrameView { phase: Phase::Dep, ..f }), ..rest },
                                d2,
                                Role::Dep,
                            )
                        }
                    },
                    _ => fail(s, WalkErrorView::Unexpected),
                },
            }
        },
    }
}

proof fn lemma_dep_index_at(rs: Seq<ProjectDepView>, group: Seq<char>, artifact: Seq<char>, i: int)
    requires
        0 <= i <= rs.len(),
        forall|j: int| 0 <= j < i ==> !((#[trigger] rs[j]).group_id == group && rs[j].artifact_id == artifact),
    ensures
        i < rs.len() && rs[i].group_id == group && rs[i].artifact_id == artifact ==> dep_index(rs, group, artifact)
            == Some(i),
        i == rs.len() ==> dep_index(rs, group, artifact) is None,
    decreases i,
{
    if i > 0 {
        let t = rs.drop_first();
        assert forall|j: int| 0 <= j < i - 1 implies !((#[trigger] t[j]).group_id == group && t[j].artifact_id
            == artifact) by {
            assert(t[j] == rs[j + 1]);
        }
        lemma_dep_index_at(t, group, artifact, i - 1);
        if i < rs.len() {
            assert(t[i - 1] == rs[i]);
        }
        assert(!(rs[0].group_id == group && rs[0].artifact_id == artifact));
    }
}

/// The position of the first resolved dependency `group:artifact`.
fn find_resolved(rs: &Vec<ProjectDep>, group: &str, artifact: &str) -> (r: Option<usize>)
    ensures
        match r {
            Some(i) => i < rs.len() && dep_index(deps_view(rs@), group@, artifact@) == Some(i as int),
            None => dep_index(deps_view(rs@), group@, artifact@) is None,
        },
{
    let ghost v = deps_view(rs@);
    let mut i: usize = 0;
    while i < rs.len()
        invariant
            i <= rs.len(),
            v == deps_view(rs@),
            forall|j: int| 0 <= j < i ==> !((#[trigger] v[j]).group_id == group@ && v[j].artifact_id == artifact@),
        decreases rs.len() - i,
    {
        if str_eq(rs[i].group_id.as_str(), group) && str_eq(rs[i].artifact_id.as_str(), artifact) {
            proof {
                lemma_dep_index_at(v, group@, artifact@, i as int);
            }
            return Some(i);
        }
        i += 1;
    }
    proof {
        lemma_dep_index_at(v, group@, artifact@, i as int);
    }
    None
}

/// Whether `k` is one of the texts of `v`.
fn contains_text(v: &Vec<String>, k: &str) -> (r: bool)
    ensures
        r == texts_view(v@).contains(k@),
{
    let ghost t = texts_view(v@);
    let mut i: usize = 0;
    while i < v.len()
        invariant
            i <= v.len(),
            t == texts_view(v@),
            forall|j: int| 0 <= j < i ==> t[j] != k@,
        decreases v.len() - i,
    {
        if str_eq(v[i].as_str(), k) {
            assert(t[i as int] == k@);
            return true;
        }
        i += 1;
    }
    false
}

/// `group:artifact` of a project.
fn key_of(p: &Project) -> (r: String)
    ensures
        r@ == management_key(p@),
{
    let mut k = p.get_group_id();
    append_str(&mut k, ":");
    let a = p.get_artifact_id();
    append_str(&mut k, a.as_str());
    k
}

fn copy_excludes(e: &Vec<Exclusion>) -> (r: Vec<Exclusion>)
    ensures
        r@ == e@,
{
    let mut out: Vec<Exclusion> = Vec::new();
    let mut i: usize = 0;
    while i < e.len()
        invariant
            i <= e.len(),
            out@ == e@.take(i as int),
        decreases e.len() - i,
    {
        out.push(e[i].clone());
        assert(e@.take(i + 1) == e@.take(i as int).push(e@[i as int]));
        i += 1;
    }
    assert(e@.take(e.len() as int) == e@);
    out
}

fn fresh(role: Role, earlier: bool) -> (r: Frame)
    ensures
        r@ == fresh_frame(role, earlier),
{
    let r = Frame {
        project: None,
        role,
        phase: Phase::Fetch,
        earlier,
        conflict: None,
        url: String::new(),
        cache_hit: false,
        done: Vec::new(),
        todo: Vec::new(),
    };
    assert(projects_view(r.done@) =~= Seq::<ProjectView>::empty());
    assert(projects_view(r.todo@) =~= Seq::<ProjectView>::empty());
    r
}

proof fn lemma_frames_push(s: Seq<Frame>, f: Frame)
    ensures
        frames_view(s.push(f)) == frames_view(s).push(f@),
{
    assert(frames_view(s.push(f)) =~= frames_view(s).push(f@));
}

proof fn lemma_frames_pop(s: Seq<Frame>)
    requires
        s.len() > 0,
    ensures
        frames_view(s.drop_last()) == frames_view(s).drop_last(),
        frames_view(s).last() == s.last()@,
{
    assert(frames_view(s.drop_last()) =~= frames_view(s).drop_last());
}

proof fn lemma_texts_push(s: Seq<String>, t: String)
    ensures
        texts_view(s.push(t)) == texts_view(s).push(t@),
{
    assert(texts_view(s.push(t)) =~= texts_view(s).push(t@));
}

impl WalkState {
    /// The walk that starts from the dependencies resolved earlier.
    pub fn new(resolved: Vec<ProjectDep>) -> (r: Self)
        ensures
            r@.resolved == deps_view(resolved@),
            r@.unresolved.len() == 0,
            r@.stack.len() == 0,
    {
        let r = WalkState { resolved, unresolved: Vec::new(), stack: Vec::new() };
        assert(texts_view(r.unresolved@) =~= Seq::<Seq<char>>::empty());
        assert(frames_view(r.stack@) =~= Seq::<FrameView>::empty());
        r
    }
}

/// Hands the walked project `p` back to the walk below it.
fn hand_back(s: WalkState, p: Project, role: Role) -> (r: (WalkState, WalkAction))
    ensures
        (r.0@, r.1@) == spec_hand_back(s@, p@, role),
    decreases s.stack@.len(), 4int,
{
    let ghost s0 = s@;
    match role {
        Role::Root => (s, WalkAction::Done(p)),
        Role::Parent => {
            if s.stack.len() == 0 {
                return (s, WalkAction::Fail(WalkError::Unexpected));
            }
            let mut s = s;
            let ghost stack0 = s.stack@;
            let below = match s.stack.pop() {
                Some(f) => f,
                None => {
                    proof {
                        assert(false);
                    }
                    return (s, WalkAction::Fail(WalkError::Unexpected));
                },
            };
            proof {
                lemma_frames_pop(stack0);
            }
            let Frame { project, role: brole, phase, earlier, conflict, url, cache_hit, done, todo } = below;
            match project {
                None => {
                    let f = Frame { project: None, role: brole, phase, earlier, conflict, url, cache_hit, done, todo };
                    let ghost before = s.stack@;
                    s.stack.push(f);
                    proof {
                        lemma_frames_push(before, f);
                        assert(s.stack@ =~= stack0);
                    }
                    (s, WalkAction::Fail(WalkError::Unexpected))
                },
                Some(bp) => {
                    let mut bp = bp;
                    let ghost bv = bp@;
                    let ghost pv = p@;
                    apply_management(bp.get_dependencies_mut(), p.get_dependency_management());
                    let mut inherited = p.get_dependencies_owned();
                    let ghost mid = bp@;
                    let ghost added = projects_view(inherited@);
                    let target = bp.get_dependencies_mut();
                    let ghost start = target@;
                    target.append(&mut inherited);
                    proof {
                        assert(projects_view(target@) =~= projects_view(start) + added);
                    }
                    proof {
                        let merged = ProjectView {
                            dependencies: bv.dependencies.map_values(
                                |d: ProjectView| managed(d, pv.dependency_management),
                            ) + pv.dependencies,
                            ..bv
                        };
                        assert(bp@.dependencies =~= merged.dependencies);
                        assert(bp@ == merged);
                    }
                    let f = Frame { project: None, role: brole, phase, earlier, conflict, url, cache_hit, done, todo };
                    proceed(s, f, bp)
                },
            }
        },
        Role::Dep => {
            if s.stack.len() == 0 {
                return (s, WalkAction::Fail(WalkError::Unexpected));
            }
            let mut s = s;
            let ghost stack0 = s.stack@;
            let mut below = match s.stack.pop() {
                Some(f) => f,
                None => {
                    proof {
                        assert(false);
                    }
                    return (s, WalkAction::Fail(WalkError::Unexpected));
                },
            };
            proof {
                lemma_frames_pop(stack0);
            }
            let ghost done0 = below.done@;
            below.done.push(p);
            proof {
                assert(projects_view(below.done@) =~= projects_view(done0).push(p@));
            }
            next_dep(s, below)
        },
    }
}

/// Goes on with the walk `f` of the fetched project `p`.
fn proceed(s: WalkState, f: Frame, p: Project) -> (r: (WalkState, WalkAction))
    ensures
        (r.0@, r.1@) == spec_proceed(s@, f@, p@),
    decreases s.stack@.len() + 1, 3int,
{
    let mut p = p;
    let ghost pv = p@;
    let ex = copy_excludes(p.get_excludes());
    assert(exclusions_view(ex@) == pv.excludes);
    retain_followed(p.get_dependencies_mut(), &ex);
    let mut todo: Vec<Project> = Vec::new();
    let target = p.get_dependencies_mut();
    std::mem::swap(&mut todo, target);
    proof {
        assert(projects_view(Seq::<Project>::empty()) =~= Seq::<ProjectView>::empty());
        assert(p@ == ProjectView { dependencies: Seq::empty(), ..pv });
    }
    let Frame { project: _, role, phase, earlier, conflict, url, cache_hit, done: _, todo: _ } = f;
    let f2 = Frame { project: Some(p), role, phase, earlier, conflict, url, cache_hit, done: Vec::new(), todo };
    proof {
        assert(projects_view(f2.done@) =~= Seq::<ProjectView>::empty());
    }
    next_dep(s, f2)
}

/// Takes up the next dependency of the walk `f`, or ends it.
fn next_dep(s: WalkState, f: Frame) -> (r: (WalkState, WalkAction))
    ensures
        (r.0@, r.1@) == spec_next_dep(s@, f@),
    decreases s.stack@.len() + 1, 2int,
{
    if f.todo.len() == 0 {
        finish(s, f)
    } else {
        let mut f = f;
        let ghost todo0 = f.todo@;
        let d = f.todo.remove(0);
        proof {
            assert(projects_view(f.todo@) =~= projects_view(todo0).drop_first());
        }
        f.phase = Phase::DepVersion;
        let mut s = s;
        let ghost before = s.stack@;
        s.stack.push(f);
        proof {
            lemma_frames_push(before, f);
        }
        (s, WalkAction::ComputeVersion(d))
    }
}

/// Ends the walk `f`, recording its project.
fn finish(s: WalkState, f: Frame) -> (r: (WalkState, WalkAction))
    ensures
        (r.0@, r.1@) == spec_finish(s@, f@),
    decreases s.stack@.len() + 1, 1int,
{
    let ghost fv = f@;
    let Frame { project, role, phase: _, earlier, conflict: _, url, cache_hit, done, todo: _ } = f;
    match project {
        None => (s, WalkAction::Fail(WalkError::Unexpected)),
        Some(p) => {
            let mut p = p;
            let ghost p0 = p@;
            let mut done = done;
            let target = p.get_dependencies_mut();
            std::mem::swap(target, &mut done);
            proof {
                assert(p@ == ProjectView { dependencies: fv.done, ..p0 });
            }
            let mut s = s;
            let ghost u0 = s.unresolved@;
            s.unresolved.pop();
            proof {
                if u0.len() > 0 {
                    assert(texts_view(s.unresolved@) =~= texts_view(u0).drop_last());
                }
            }
            match ProjectDep::try_from_project(&p) {
                None => (s, WalkAction::Fail(WalkError::Incomparable)),
                Some(Err(ProjectDepError::UnresolvedDependency(_))) => (s, WalkAction::Fail(WalkError::Unresolved)),
                Some(Err(ProjectDepError::Constraint(e))) => (s, WalkAction::Fail(WalkError::Constraint(e))),
                Some(Err(ProjectDepError::VersionNotSet)) => (s, WalkAction::Fail(WalkError::VersionNotSet)),
                Some(Ok(d)) => {
                    let mut d = d;
                    d.base_url = url;
                    d.cache_hit = cache_hit;
                    if !earlier && !str_eq(d.packaging.as_str(), "pom") {
                        let ghost before = s.resolved@;
                        s.resolved.push(d);
                        proof {
                            assert(deps_view(s.resolved@) =~= deps_view(before).push(d@));
                        }
                    }
                    hand_back(s, p, role)
                },
            }
        },
    }
}

/// Begins the walk of project `p` on top of the walks in `s`.
fn start(s: WalkState, p: Project, role: Role) -> (r: (WalkState, WalkAction))
    ensures
        (r.0@, r.1@) == spec_start(s@, p@, role),
{
    let version = match p.get_selected_version() {
        None => {
            return (s, WalkAction::Fail(WalkError::NoSelectedVersion));
        },
        Some(v) => v.clone(),
    };
    let ghost s0 = s@;
    let mut s = s;
    let key = key_of(&p);
    let g = p.get_group_id();
    let a = p.get_artifact_id();
    match find_resolved(&s.resolved, g.as_str(), a.as_str()) {
        None => {
            push_key(&mut s, key);
            push_frame(&mut s, fresh(role, false));
            (s, WalkAction::Fetch(p))
        },
        Some(i) => {
            proof {
                assert(deps_view(s.resolved@)[i as int] == s.resolved@[i as int]@);
            }
            match try_settle_conflict(&s.resolved[i], p.get_version(), &version) {
                None => {
                    push_key(&mut s, key);
                    (s, WalkAction::Fail(WalkError::Incomparable))
                },
                Some(Err(e)) => {
                    push_key(&mut s, key);
                    (s, WalkAction::Fail(WalkError::Conflict(e)))
                },
                Some(Ok(ConflictAction::Skip)) => hand_back(s, p, role),
                Some(Ok(ConflictAction::Proceed)) => {
                    push_key(&mut s, key);
                    push_frame(&mut s, fresh(role, false));
                    (s, WalkAction::Fetch(p))
                },
                Some(Ok(ConflictAction::Replace(v, c))) => {
                    let ghost before = s.resolved@;
                    let mut d = s.resolved.remove(i);
                    let ghost dv = d@;
                    d.version = v;
                    match c {
                        Some(c) => {
                            d.constraints = Some(c);
                        },
                        None => {},
                    }
                    s.resolved.insert(i, d);
                    proof {
                        assert(s.resolved@ =~= before.update(i as int, d));
                        assert(deps_view(s.resolved@) =~= deps_view(before).update(i as int, d@));
                    }
                    push_key(&mut s, key);
                    push_frame(&mut s, fresh(role, true));
                    (s, WalkAction::Fetch(p))
                },
                Some(Ok(ConflictAction::Compute(c))) => {
                    let mut probe = Project::new(s.resolved[i].group_id.as_str(), s.resolved[i].artifact_id.as_str(), "");
                    probe.set_version(VersionRequirement::from_constraint(&c));
                    push_key(&mut s, key);
                    let mut f = fresh(role, false);
                    f.project = Some(p);
                    f.phase = Phase::ConflictVersion;
                    f.conflict = Some((i, c));
                    push_frame(&mut s, f);
                    (s, WalkAction::ComputeVersion(probe))
                },
            }
        },
    }
}

fn push_key(s: &mut WalkState, key: String)
    ensures
        final(s)@ == (WalkStateView { unresolved: old(s)@.unresolved.push(key@), ..old(s)@ }),
{
    let ghost before = s.unresolved@;
    s.unresolved.push(key);
    proof {
        lemma_texts_push(before, key);
    }
}

fn push_frame(s: &mut WalkState, f: Frame)
    ensures
        final(s)@ == (WalkStateView { stack: old(s)@.stack.push(f@), ..old(s)@ }),
{
    let ghost before = s.stack@;
    s.stack.push(f);
    proof {
        lemma_frames_push(before, f);
    }
}

/// One step of the walk: takes what the walk was told, and hands back the
/// state it leaves and what it asks for next.
pub fn walk_step(state: WalkState, event: WalkEvent) -> (r: (WalkState, WalkAction))
    ensures
        (r.0@, r.1@) == spec_walk_step(state@, event@),
{
    let ghost s0 = state@;
    match event {
        WalkEvent::Begin(p) => {
            if state.stack.len() == 0 {
                start(state, p, Role::Root)
            } else {
                (state, WalkAction::Fail(WalkError::Unexpected))
            }
        },
        WalkEvent::Fetched(p, res) => {
            let n = state.stack.len();
            if n == 0 {
                return (state, WalkAction::Fail(WalkError::Unexpected));
            }
            proof {
                lemma_frames_pop(state.stack@);
            }
            if state.stack[n - 1].phase != Phase::Fetch {
                return (state, WalkAction::Fail(WalkError::Unexpected));
            }
            match res {
                Err(m) => (state, WalkAction::Fail(WalkError::FetchFailed(m))),
                Ok((url, hit)) => {
                    let mut s = state;
                    let f = match s.stack.pop() {
                        Some(f) => f,
                        None => {
                            proof {
                                assert(false);
                            }
                            return (s, WalkAction::Fail(WalkError::Unexpected));
                        },
                    };
                    let parent = match p.get_parent() {
                        Some(pp) => Some(Project::new(pp.group_id.as_str(), pp.artifact_id.as_str(), pp.version.as_str())),
                        None => None,
                    };
                    let Frame { project: _, role, phase: _, earlier, conflict, url: _, cache_hit: _, done, todo } = f;
                    match parent {
                        Some(parent) => {
                            let f2 = Frame {
                                project: Some(p),
                                role,
                                phase: Phase::Parent,
                                earlier,
                                conflict,
                                url,
                                cache_hit: hit,
                                done,
                                todo,
                            };
                            push_frame(&mut s, f2);
                            start(s, parent, Role::Parent)
                        },
                        None => {
                            let f2 = Frame {
                                project: None,
                                role,
                                phase: Phase::Fetch,
                                earlier,
                                conflict,
                                url,
                                cache_hit: hit,
                                done,
                                todo,
                            };
                            proceed(s, f2, p)
                        },
                    }
                },
            }
        },
        WalkEvent::Versioned(d, res) => {
            let n = state.stack.len();
            if n == 0 {
                return (state, WalkAction::Fail(WalkError::Unexpected));
            }
            proof {
                lemma_frames_pop(state.stack@);
            }
            let v = match res {
                Err(m) => {
                    return (state, WalkAction::Fail(WalkError::VersionFailed(m)));
                },
                Ok(v) => v,
            };
            match state.stack[n - 1].phase {
                Phase::ConflictVersion => {
                    let ok = match (&state.stack[n - 1].conflict, &state.stack[n - 1].project) {
                        (Some((i, _)), Some(_)) => *i < state.resolved.len(),
                        _ => false,
                    };
                    if !ok {
                        return (state, WalkAction::Fail(WalkError::Unexpected));
                    }
                    let mut s = state;
                    let f = match s.stack.pop() {
                        Some(f) => f,
                        None => {
                            proof {
                                assert(false);
                            }
                            return (s, WalkAction::Fail(WalkError::Unexpected));
                        },
                    };
                    let Frame { project, role, phase: _, earlier: _, conflict, url, cache_hit, done, todo } = f;
                    match (conflict, project) {
                        (Some((i, c)), Some(p)) => {
                            let ghost before = s.resolved@;
                            let mut dd = s.resolved.remove(i);
                            dd.version = v;
                            dd.constraints = Some(c);
                            s.resolved.insert(i, dd);
                            proof {
                                assert(s.resolved@ =~= before.update(i as int, dd));
                                assert(deps_view(s.resolved@) =~= deps_view(before).update(i as int, dd@));
                            }
                            let f2 = Frame {
                                project: None,
                                role,
                                phase: Phase::Fetch,
                                earlier: true,
                                conflict: None,
                                url,
                                cache_hit,
                                done,
                                todo,
                            };
                            push_frame(&mut s, f2);
                            (s, WalkAction::Fetch(p))
                        },
                        _ => {
                            proof {
                                assert(false);
                            }
                            (s, WalkAction::Fail(WalkError::Unexpected))
                        },
                    }
                },
                Phase::DepVersion => {
                    let mut d2 = d;
                    d2.set_selected_version(Some(v));
                    let key = key_of(&d2);
                    let mut s = state;
                    let mut f = match s.stack.pop() {
                        Some(f) => f,
                        None => {
                            proof {
                                assert(false);
                            }
                            return (s, WalkAction::Fail(WalkError::Unexpected));
                        },
                    };
                    if contains_text(&s.unresolved, key.as_str()) {
                        let ghost done0 = f.done@;
                        f.done.push(d2);
                        proof {
                            assert(projects_view(f.done@) =~= projects_view(done0).push(d2@));
                        }
                        next_dep(s, f)
                    } else {
                        f.phase = Phase::Dep;
                        push_frame(&mut s, f);
                        start(s, d2, Role::Dep)
                    }
                },
                _ => (state, WalkAction::Fail(WalkError::Unexpected)),
            }
        },
    }
}

/// `b` holds the resolved dependencies of `a` where `a` has them, with the
/// same group and artifact, and perhaps more after them.
pub open spec fn keeps_resolved(a: Seq<ProjectDepView>, b: Seq<ProjectDepView>) -> bool {
    &&& a.len() <= b.len()
    &&& forall|i: int|
        0 <= i < a.len() ==> (#[trigger] b[i]).group_id == a[i].group_id && b[i].artifact_id == a[i].artifact_id
}

proof fn lemma_keeps_trans(a: Seq<ProjectDepView>, b: Seq<ProjectDepView>, c: Seq<ProjectDepView>)
    requires
        keeps_resolved(a, b),
        keeps_resolved(b, c),
    ensures
        keeps_resolved(a, c),
{
    assert forall|i: int| 0 <= i < a.len() implies (#[trigger] c[i]).group_id == a[i].group_id && c[i].artifact_id
        == a[i].artifact_id by {
        assert(b[i].group_id == a[i].group_id);
    }
}

proof fn lemma_hand_back_keeps(s: WalkStateView, p: ProjectView, role: Role)
    ensures
        keeps_resolved(s.resolved, spec_hand_back(s, p, role).0.resolved),
    decreases s.stack.len(), 4int,
{
    match role {
        Role::Root => {},
        Role::Parent => if s.stack.len() > 0 {
            let below = s.stack.last();
            match below.project {
                None => {},
                Some(bp) => {
                    let merged = ProjectView {
                        dependencies: bp.dependencies.map_values(
                            |d: ProjectView| managed(d, p.dependency_management),
                        ) + p.dependencies,
                        ..bp
                    };
                    lemma_proceed_keeps(WalkStateView { stack: s.stack.drop_last(), ..s }, below, merged);
                },
            }
        },
        Role::Dep => if s.stack.len() > 0 {
            let below = s.stack.last();
            lemma_next_dep_keeps(
                WalkStateView { stack: s.stack.drop_last(), ..s },
                FrameView { done: below.done.push(p), ..below },
            );
        },
    }
}

proof fn lemma_proceed_keeps(s: WalkStateView, f: FrameView, p: ProjectView)
    ensures
        keeps_resolved(s.resolved, spec_proceed(s, f, p).0.resolved),
    decreases s.stack.len() + 1, 3int,
{
    lemma_next_dep_keeps(
        s,
        FrameView {
            project: Some(ProjectView { dependencies: Seq::empty(), ..p }),
            done: Seq::empty(),
            todo: followed_deps(p.dependencies, p.excludes),
            ..f
        },
    );
}

proof fn lemma_next_dep_keeps(s: WalkStateView, f: FrameView)
    ensures
        keeps_resolved(s.resolved, spec_next_dep(s, f).0.resolved),
    decreases s.stack.len() + 1, 2int,
{
    if f.todo.len() == 0 {
        lemma_finish_keeps(s, f);
    }
}

proof fn lemma_finish_keeps(s: WalkStateView, f: FrameView)
    ensures
        keeps_resolved(s.resolved, spec_finish(s, f).0.resolved),
    decreases s.stack.len() + 1, 1int,
{
    match f.project {
        None => {},
        Some(p0) => {
            let p = ProjectView { dependencies: f.done, ..p0 };
            let s1 = WalkStateView { unresolved: pop_text(s.unresolved), ..s };
            match spec_record(p) {
                Some(Ok(d)) => {
                    let d2 = ProjectDepView { base_url: f.url, cache_hit: f.cache_hit, ..d };
                    let s2 = if !f.earlier && d.packaging != "pom"@ {
                        WalkStateView { resolved: s1.resolved.push(d2), ..s1 }
                    } else {
                        s1
                    };
                    lemma_hand_back_keeps(s2, p, f.role);
                    lemma_keeps_trans(s.resolved, s2.resolved, spec_hand_back(s2, p, f.role).0.resolved);
                },
                _ => {},
            }
        },
    }
}

proof fn lemma_dep_index_bounds(rs: Seq<ProjectDepView>, group: Seq<char>, artifact: Seq<char>)
    ensures
        dep_index(rs, group, artifact) matches Some(i) ==> 0 <= i < rs.len(),
    decreases rs.len(),
{
    if rs.len() > 0 {
        lemma_dep_index_bounds(rs.drop_first(), group, artifact);
    }
}

proof fn lemma_start_keeps(s: WalkStateView, p: ProjectView, role: Role)
    ensures
        keeps_resolved(s.resolved, spec_start(s, p, role).0.resolved),
{
    lemma_dep_index_bounds(s.resolved, p.group_id, p.artifact_id);
    match p.selected_version {
        None => {},
        Some(version) => match dep_index(s.resolved, p.group_id, p.artifact_id) {
            None => {},
            Some(i) => if conflict_defined(s.resolved[i], p.version, version) {
                match conflict_action(s.resolved[i], p.version, version) {
                    Ok(ActionView::Skip) => lemma_hand_back_keeps(s, p, role),
                    _ => {},
                }
            },
        },
    }
}

/// A step of the walk never loses a resolved dependency: each one recorded
/// before the step stays where it was, with the same group and artifact
/// (only its version and constraint may be settled anew), and the step
/// records new ones only after them.
pub proof fn lemma_walk_step_keeps_resolved(s: WalkStateView, ev: WalkEventView)
    ensures
        keeps_resolved(s.resolved, spec_walk_step(s, ev).0.resolved),
{
    match ev {
        WalkEventView::Begin(p) => if s.stack.len() == 0 {
            lemma_start_keeps(s, p, Role::Root);
        },
        WalkEventView::Fetched(p, res) => if !(s.stack.len() == 0 || s.stack.last().phase != Phase::Fetch) {
            let f = s.stack.last();
            let rest = WalkStateView { stack: s.stack.drop_last(), ..s };
            match res {
                Err(_) => {},
                Ok((url, hit)) => {
                    let f2 = FrameView { project: Some(p), url, cache_hit: hit, ..f };
                    match p.parent {
                        Some(pp) => lemma_start_keeps(
                            WalkStateView { stack: rest.stack.push(FrameView { phase: Phase::Parent, ..f2 }), ..rest },
                            parent_project(pp),
                            Role::Parent,
                        ),
                        None => lemma_proceed_keeps(rest, f2, p),
                    }
                },
            }
        },
        WalkEventView::Versioned(d, res) => if s.stack.len() > 0 {
            let f = s.stack.last();
            let rest = WalkStateView { stack: s.stack.drop_last(), ..s };
            match res {
                Err(_) => {},
                Ok(v) => match f.phase {
                    Phase::DepVersion => {
                        let d2 = ProjectView { selected_version: Some(v), ..d };
                        if s.unresolved.contains(management_key(d2)) {
                            lemma_next_dep_keeps(rest, FrameView { done: f.done.push(d2), ..f });
                        } else {
                            lemma_start_keeps(
                                WalkStateView { stack: rest.stack.push(FrameView { phase: Phase::Dep, ..f }), ..rest },
                                d2,
                                Role::Dep,
                            );
                        }
                    },
                    _ => {},
                },
            }
        },
    }
}

} // verus!
