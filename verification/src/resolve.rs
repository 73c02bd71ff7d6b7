//! Resolved dependencies, as the lock file records them.
use vstd::prelude::*;
use vstd::std_specs::cmp::PartialOrdSpecImpl;
use std::cmp::Ordering;
use crate::constraint::{Constraint, ConstraintView};
use crate::verorder::{compare_versions, spec_version_compare, VersionRel};
use crate::pom::{projects_view, Project, ProjectView, Scope, ScopeView};
use crate::containment::{comparable, spec_contain, versions_of, ContainError};
use crate::constraint::empty_constraint;
use crate::strs::{
    append_str, ends_with_char, push_char, replace_all, replace_char, replace_char_text,
    replace_text, str_eq,
};

verus! {

/// The model of a resolved dependency.
pub struct ProjectDepView {
    pub artifact_id: Seq<char>,
    pub group_id: Seq<char>,
    pub version: Seq<char>,
    pub scope: ScopeView,
    pub dependencies: Seq<Seq<char>>,
    pub base_url: Seq<char>,
    pub packaging: Seq<char>,
    pub cache_hit: bool,
    pub constraints: Option<ConstraintView>,
}

/// A resolved dependency: its coordinates, the repository it comes from,
/// its own dependencies (as `group:artifact:version`), and the constraint
/// its version was chosen under.
#[derive(Debug)]
pub struct ProjectDep {
    pub artifact_id: String,
    pub group_id: String,
    pub version: String,
    pub scope: Scope,
    pub dependencies: Vec<String>,
    pub base_url: String,
    pub packaging: String,
    pub cache_hit: bool,
    pub constraints: Option<Constraint>,
}

pub open spec fn texts_view(s: Seq<String>) -> Seq<Seq<char>> {
    s.map_values(|t: String| t@)
}

pub open spec fn opt_constraint(c: Option<Constraint>) -> Option<ConstraintView> {
    match c {
        Some(c) => Some(c@),
        None => None,
    }
}

impl View for ProjectDep {
    type V = ProjectDepView;

    open spec fn view(&self) -> ProjectDepView {
        ProjectDepView {
            artifact_id: self.artifact_id@,
            group_id: self.group_id@,
            version: self.version@,
            scope: self.scope@,
            dependencies: texts_view(self.dependencies@),
            base_url: self.base_url@,
            packaging: self.packaging@,
            cache_hit: self.cache_hit,
            constraints: opt_constraint(self.constraints),
        }
    }
}

/// The dependency with nothing set.
pub open spec fn empty_dep() -> ProjectDepView {
    ProjectDepView {
        artifact_id: Seq::empty(),
        group_id: Seq::empty(),
        version: Seq::empty(),
        scope: ScopeView::Compile,
        dependencies: Seq::empty(),
        base_url: Seq::empty(),
        packaging: Seq::empty(),
        cache_hit: false,
        constraints: None,
    }
}

/// A copy of a list of texts.
pub fn clone_texts(v: &Vec<String>) -> (r: Vec<String>)
    ensures
        r@ == v@,
{
    let mut out: Vec<String> = Vec::new();
    let mut i: usize = 0;
    while i < v.len()
        invariant
            i <= v.len(),
            out@ == v@.take(i as int),
        decreases v.len() - i,
    {
        out.push(v[i].clone());
        assert(v@.take(i + 1) == v@.take(i as int).push(v@[i as int]));
        i += 1;
    }
    assert(v@.take(v.len() as int) == v@);
    out
}

impl Default for ProjectDep {
    fn default() -> (r: Self)
        ensures
            r@ == empty_dep(),
    {
        let r = ProjectDep {
            artifact_id: String::new(),
            group_id: String::new(),
            version: String::new(),
            scope: Scope::COMPILE,
            dependencies: Vec::new(),
            base_url: String::new(),
            packaging: String::new(),
            cache_hit: false,
            constraints: None,
        };
        assert(texts_view(r.dependencies@) =~= Seq::<Seq<char>>::empty());
        r
    }
}

impl Clone for ProjectDep {
    fn clone(&self) -> (r: Self)
        ensures
            r@ == self@,
    {
        ProjectDep {
            artifact_id: self.artifact_id.clone(),
            group_id: self.group_id.clone(),
            version: self.version.clone(),
            scope: self.scope.clone(),
            dependencies: clone_texts(&self.dependencies),
            base_url: self.base_url.clone(),
            packaging: self.packaging.clone(),
            cache_hit: self.cache_hit,
            constraints: match &self.constraints {
                Some(c) => Some(c.clone()),
                None => None,
            },
        }
    }
}

/// Two resolved dependencies are the same package when their group,
/// artifact and version agree.
pub open spec fn same_package(a: ProjectDepView, b: ProjectDepView) -> bool {
    a.group_id == b.group_id && a.artifact_id == b.artifact_id && a.version == b.version
}

impl PartialEq for ProjectDep {
    fn eq(&self, other: &Self) -> (r: bool) {
        str_eq(self.group_id.as_str(), other.group_id.as_str()) && str_eq(
            self.artifact_id.as_str(),
            other.artifact_id.as_str(),
        ) && str_eq(self.version.as_str(), other.version.as_str())
    }
}

impl vstd::std_specs::cmp::PartialEqSpecImpl for ProjectDep {
    open spec fn obeys_eq_spec() -> bool {
        true
    }

    open spec fn eq_spec(&self, other: &Self) -> bool {
        same_package(self@, other@)
    }
}

/// How two resolved dependencies are ordered: only versions of one package
/// are ordered, and then by their versions; any other pair is unordered.
pub open spec fn dep_order(a: ProjectDepView, b: ProjectDepView) -> Option<Ordering> {
    if a.group_id != b.group_id || a.artifact_id != b.artifact_id {
        None
    } else {
        match spec_version_compare(a.version, b.version) {
            Some(VersionRel::Lt) => Some(Ordering::Less),
            Some(VersionRel::Eq) => Some(Ordering::Equal),
            Some(VersionRel::Gt) => Some(Ordering::Greater),
            _ => None,
        }
    }
}

impl PartialOrd for ProjectDep {
    fn partial_cmp(&self, other: &Self) -> (r: Option<Ordering>) {
        if !str_eq(self.group_id.as_str(), other.group_id.as_str()) {
            return None;
        }
        if !str_eq(self.artifact_id.as_str(), other.artifact_id.as_str()) {
            return None;
        }
        match compare_versions(self.version.as_str(), other.version.as_str()) {
            Some(VersionRel::Lt) => Some(Ordering::Less),
            Some(VersionRel::Eq) => Some(Ordering::Equal),
            Some(VersionRel::Gt) => Some(Ordering::Greater),
            _ => None,
        }
    }
}

impl PartialOrdSpecImpl for ProjectDep {
    open spec fn obeys_partial_cmp_spec() -> bool {
        true
    }

    open spec fn partial_cmp_spec(&self, other: &Self) -> Option<Ordering> {
        dep_order(self@, other@)
    }
}

/// The path of a package under a repository: its group with `.` turned to
/// `/`, its artifact and its version, separated by `/`.
pub open spec fn package_path(d: ProjectDepView) -> Seq<char> {
    replace_char(d.group_id, '.', "/"@) + "/"@ + d.artifact_id + "/"@ + d.version
}

/// The url of the directory that holds a package's files.
pub open spec fn root_url(d: ProjectDepView) -> Seq<char> {
    if d.base_url.len() > 0 && d.base_url.last() == '/' {
        d.base_url + package_path(d) + "/"@
    } else {
        d.base_url + "/"@ + package_path(d) + "/"@
    }
}

/// The base url left when the package path is taken out of `url`.
pub open spec fn base_url_of(d: ProjectDepView, url: Seq<char>) -> Seq<char> {
    let path = if url.len() > 0 && url.last() == '/' {
        package_path(d) + "/"@
    } else {
        package_path(d)
    };
    replace_all(url, path, Seq::empty())
}

impl ProjectDep {
    /// Gets the root url for this dependency
    /// e.g. https://maven.example.com/maven2/groupId/artifactId/version/
    /// This is just ready to append a required file type from the repo
    pub fn get_root_url(&self) -> (r: String)
        ensures
            r@ == root_url(self@),
    {
        let mut s = self.base_url.clone();
        if !ends_with_char(self.base_url.as_str(), '/') {
            push_char(&mut s, '/');
        }
        let g = replace_char_text(self.group_id.as_str(), '.', "/");
        append_str(&mut s, g.as_str());
        push_char(&mut s, '/');
        append_str(&mut s, self.artifact_id.as_str());
        push_char(&mut s, '/');
        append_str(&mut s, self.version.as_str());
        push_char(&mut s, '/');
        proof {
            reveal_strlit("/");
            assert(s@ =~= root_url(self@));
        }
        s
    }

    /// Tries to obtain base url from root url
    /// e.g. https://maven.example.com/maven2/groupId/artifactId/version/
    /// resolves https://maven.example.com/maven2/
    /// likely very unstablesince it uses string replace internally
    pub fn set_base_url_from_root(&mut self, url: String)
        ensures
            final(self)@ == (ProjectDepView { base_url: base_url_of(old(self)@, url@), ..old(self)@ }),
    {
        let mut path = replace_char_text(self.group_id.as_str(), '.', "/");
        push_char(&mut path, '/');
        append_str(&mut path, self.artifact_id.as_str());
        push_char(&mut path, '/');
        append_str(&mut path, self.version.as_str());
        if ends_with_char(url.as_str(), '/') {
            push_char(&mut path, '/');
        }
        proof {
            reveal_strlit("/");
            if url@.len() > 0 && url@.last() == '/' {
                assert(path@ =~= package_path(self@) + "/"@);
            } else {
                assert(path@ =~= package_path(self@));
            }
        }
        proof {
            reveal_strlit("");
            assert(""@ =~= Seq::<char>::empty());
        }
        self.base_url = replace_text(url.as_str(), path.as_str(), "");
    }
}

/// Why a project cannot be recorded as a resolved dependency.
#[derive(Debug, PartialEq, Eq)]
pub enum ProjectDepError {
    /// A dependency of the project, named `group:artifact`, has no version
    /// selected yet.
    UnresolvedDependency(String),
    /// The project's own version requirement does not fit a constraint.
    Constraint(ContainError),
    /// The project has no version selected.
    VersionNotSet,
}

/// `group:artifact:version` of a project whose version is selected.
pub open spec fn coordinates_of(p: ProjectView) -> Seq<char> {
    p.group_id + ":"@ + p.artifact_id + ":"@ + p.selected_version.unwrap()
}

/// Every one of the projects has a version selected.
pub open spec fn all_selected(deps: Seq<ProjectView>) -> bool {
    forall|k: int| 0 <= k < deps.len() ==> (#[trigger] deps[k]).selected_version is Some
}

/// `k` is the first of the projects without a selected version.
pub open spec fn first_unselected(deps: Seq<ProjectView>, k: int) -> bool {
    &&& 0 <= k < deps.len()
    &&& deps[k].selected_version is None
    &&& forall|j: int| 0 <= j < k ==> (#[trigger] deps[j]).selected_version is Some
}

/// The resolved dependency recorded for a project whose version and whose
/// dependencies' versions are selected, under the constraint `c`.
pub open spec fn dep_of_project(p: ProjectView, c: ConstraintView) -> ProjectDepView {
    ProjectDepView {
        artifact_id: p.artifact_id,
        group_id: p.group_id,
        version: p.selected_version.unwrap(),
        scope: p.scope,
        dependencies: p.dependencies.map_values(|d: ProjectView| coordinates_of(d)),
        base_url: Seq::empty(),
        packaging: p.packaging,
        cache_hit: false,
        constraints: Some(c),
    }
}

impl ProjectDep {
    /// The resolved dependency that records `project`: its coordinates and
    /// selected version, its dependencies as `group:artifact:version`, and
    /// the constraint its version requirement makes.
    pub fn from_project(project: &Project) -> (r: Result<ProjectDep, ProjectDepError>)
        requires
            comparable(versions_of(empty_constraint(), project@.version)),
        ensures
            !all_selected(project@.dependencies) <==> r is Err && r->Err_0 is UnresolvedDependency,
            r matches Err(ProjectDepError::UnresolvedDependency(name)) ==> exists|k: int|
                first_unselected(project@.dependencies, k) && name@ == project@.dependencies[k].group_id
                    + ":"@ + project@.dependencies[k].artifact_id,
            all_selected(project@.dependencies) ==> match spec_contain(empty_constraint(), project@.version) {
                (c, Err(e)) => r == Err::<ProjectDep, ProjectDepError>(ProjectDepError::Constraint(e)),
                (c, Ok(())) => match project@.selected_version {
                    None => r == Err::<ProjectDep, ProjectDepError>(ProjectDepError::VersionNotSet),
                    Some(_) => r matches Ok(d) && d@ == dep_of_project(project@, c),
                },
            },
    {
        let deps = project.get_dependencies();
        let ghost dv = project@.dependencies;
        let mut names: Vec<String> = Vec::new();
        let mut i: usize = 0;
        while i < deps.len()
            invariant
                i <= deps.len(),
                dv == projects_view(deps@),
                dv == project@.dependencies,
                all_selected(dv.take(i as int)),
                texts_view(names@) == dv.take(i as int).map_values(|d: ProjectView| coordinates_of(d)),
            decreases deps.len() - i,
        {
            assert(deps@[i as int]@ == dv[i as int]);
            let ghost before = names@;
            match deps[i].qualified_name() {
                Ok(n) => {
                    names.push(n);
                    proof {
                        assert(dv[i as int].selected_version is Some);
                        assert(texts_view(names@) =~= texts_view(before).push(coordinates_of(dv[i as int])));
                        assert(dv.take(i + 1) =~= dv.take(i as int).push(dv[i as int]));
                        assert(texts_view(names@) =~= dv.take(i + 1).map_values(
                            |d: ProjectView| coordinates_of(d),
                        ));
                    }
                },
                Err(_) => {
                    let mut name = deps[i].get_group_id();
                    push_char(&mut name, ':');
                    append_str(&mut name, deps[i].get_artifact_id().as_str());
                    proof {
                        reveal_strlit(":");
                        assert forall|j: int| 0 <= j < i implies (#[trigger] dv[j]).selected_version is Some by {
                            assert(dv.take(i as int)[j] == dv[j]);
                        }
                        assert(dv[i as int].selected_version is None);
                        assert(first_unselected(dv, i as int));
                        assert(!all_selected(dv));
                        assert(name@ =~= dv[i as int].group_id + ":"@ + dv[i as int].artifact_id);
                    }
                    return Err(ProjectDepError::UnresolvedDependency(name));
                },
            }
            i += 1;
        }
        proof {
            assert(dv.take(deps.len() as int) =~= dv);
            assert forall|k: int| !first_unselected(dv, k) by {}
        }
        let base = Constraint::default();
        let c = match base.contain(project.get_version()) {
            Ok(c) => c,
            Err(e) => {
                return Err(ProjectDepError::Constraint(e));
            },
        };
        let version = match project.get_selected_version() {
            Some(v) => v.clone(),
            None => {
                return Err(ProjectDepError::VersionNotSet);
            },
        };
        let r = ProjectDep {
            artifact_id: project.get_artifact_id(),
            group_id: project.get_group_id(),
            version,
            scope: project.get_scope(),
            dependencies: names,
            base_url: String::new(),
            packaging: project.get_packaging(),
            cache_hit: false,
            constraints: Some(c),
        };
        proof {
            reveal_strlit("");
        }
        Ok(r)
    }

    /// `from_project`, or `None` when two of the versions the project's
    /// requirement mentions cannot be compared.
    pub fn try_from_project(project: &Project) -> (r: Option<Result<ProjectDep, ProjectDepError>>)
        ensures
            r is None <==> !comparable(versions_of(empty_constraint(), project@.version)),
            r matches Some(x) ==> {
                &&& !all_selected(project@.dependencies) <==> x is Err && x->Err_0 is UnresolvedDependency
                &&& all_selected(project@.dependencies) ==> match spec_contain(empty_constraint(), project@.version) {
                    (c, Err(e)) => x == Err::<ProjectDep, ProjectDepError>(ProjectDepError::Constraint(e)),
                    (c, Ok(())) => match project@.selected_version {
                        None => x == Err::<ProjectDep, ProjectDepError>(ProjectDepError::VersionNotSet),
                        Some(_) => x matches Ok(d) && d@ == dep_of_project(project@, c),
                    },
                }
            },
    {
        let base = Constraint::default();
        match base.try_contain(project.get_version()) {
            None => None,
            Some(_) => Some(ProjectDep::from_project(project)),
        }
    }
}

/// `p` occurs in `s` at `i`.
pub open spec fn occurs_at(s: Seq<char>, p: Seq<char>, i: int) -> bool {
    0 <= i && i + p.len() <= s.len() && s.subrange(i, i + p.len()) == p
}

/// A base url that the root url gives back: it ends with `/` and the
/// package path followed by `/` does not start inside it.
pub open spec fn base_url_reads_back(d: ProjectDepView) -> bool {
    &&& d.base_url.len() > 0 && d.base_url.last() == '/'
    &&& forall|i: int| 0 <= i < d.base_url.len() ==> !occurs_at(root_url(d), package_path(d) + "/"@, i)
}

proof fn lemma_replace_all_suffix(a: Seq<char>, p: Seq<char>)
    requires
        p.len() > 0,
        forall|i: int| 0 <= i < a.len() ==> !occurs_at(a + p, p, i),
    ensures
        replace_all(a + p, p, Seq::empty()) == a,
    decreases a.len(),
{
    let s = a + p;
    if a.len() == 0 {
        assert(s =~= p);
        assert(s.subrange(0, p.len() as int) =~= p);
        assert(s.subrange(p.len() as int, s.len() as int) =~= Seq::<char>::empty());
        assert(replace_all(Seq::<char>::empty(), p, Seq::empty()) == Seq::<char>::empty());
        assert(replace_all(s, p, Seq::empty()) == Seq::<char>::empty() + replace_all(
            s.subrange(p.len() as int, s.len() as int),
            p,
            Seq::empty(),
        ));
        assert(a =~= Seq::<char>::empty());
    } else {
        assert(!occurs_at(s, p, 0));
        let t = a.drop_first();
        assert(s.drop_first() =~= t + p);
        assert forall|i: int| 0 <= i < t.len() implies !occurs_at(t + p, p, i) by {
            assert((t + p).subrange(i, i + p.len()) =~= s.subrange(i + 1, i + 1 + p.len()));
            assert(!occurs_at(s, p, i + 1));
        }
        lemma_replace_all_suffix(t, p);
        assert(!(p.len() <= s.len() && s.subrange(0, p.len() as int) == p));
        assert(replace_all(s, p, Seq::empty()) == seq![s[0]] + replace_all(
            s.drop_first(),
            p,
            Seq::empty(),
        ));
        assert(seq![s[0]] + t =~= a);
    }
}

/// Taking the package path out of the root url of a dependency gives back
/// its base url.
pub proof fn lemma_base_url_round_trip(d: ProjectDepView)
    requires
        base_url_reads_back(d),
    ensures
        base_url_of(d, root_url(d)) == d.base_url,
{
    reveal_strlit("/");
    let path = package_path(d) + "/"@;
    assert(root_url(d) =~= d.base_url + path);
    lemma_replace_all_suffix(d.base_url, path);
}

} // verus!
