//! Maven project descriptions (POM): scopes, exclusions, parents and
//! projects with their dependencies and properties.
use vstd::prelude::*;
use crate::assoc::{assoc_get, assoc_insert, find_key, insert_key, lemma_key_index, pairs_view};
use crate::strs::{
    append_str, chars_of, find_char, find_char_in, is_whitespace, is_ws, lemma_find_char, push_char,
    str_eq, str_to_string, string_from, trim, trim_range,
};
use crate::xml::{
    events_view, is_end_of, lemma_event_view, some_events, start_name, xml_events, xml_events_of, XmlEvent,
    XmlEventView, XmlReadError, XmlTag,
};
use crate::version::{
    requirement_text, spec_parse_requirement, RangeKind, RequirementView, VersionRange,
    VersionRequirement,
};

verus! {

/// The scope of a dependency.
#[derive(Debug, PartialEq, Eq)]
pub enum Scope {
    COMPILE,
    TEST,
    RUNTIME,
    SYSTEM,
    PROVIDED,
    IMPORT,
    UNKOWN(String),
}

/// The model of a scope.
pub enum ScopeView {
    Compile,
    Test,
    Runtime,
    System,
    Provided,
    Import,
    Unknown(Seq<char>),
}

impl View for Scope {
    type V = ScopeView;

    open spec fn view(&self) -> ScopeView {
        match self {
            Scope::COMPILE => ScopeView::Compile,
            Scope::TEST => ScopeView::Test,
            Scope::RUNTIME => ScopeView::Runtime,
            Scope::SYSTEM => ScopeView::System,
            Scope::PROVIDED => ScopeView::Provided,
            Scope::IMPORT => ScopeView::Import,
            Scope::UNKOWN(s) => ScopeView::Unknown(s@),
        }
    }
}

/// The scope a name stands for: the six scope names, the empty name for
/// `compile`, any other name as an unknown scope.
pub open spec fn scope_from_text(s: Seq<char>) -> ScopeView {
    if s == "compile"@ {
        ScopeView::Compile
    } else if s == "test"@ {
        ScopeView::Test
    } else if s == "provided"@ {
        ScopeView::Provided
    } else if s == "import"@ {
        ScopeView::Import
    } else if s == "system"@ {
        ScopeView::System
    } else if s == "runtime"@ {
        ScopeView::Runtime
    } else if s.len() == 0 {
        ScopeView::Compile
    } else {
        ScopeView::Unknown(s)
    }
}

/// The name of a scope.
pub open spec fn scope_text(s: ScopeView) -> Seq<char> {
    match s {
        ScopeView::Compile => "compile"@,
        ScopeView::Test => "test"@,
        ScopeView::Provided => "provided"@,
        ScopeView::Import => "import"@,
        ScopeView::System => "system"@,
        ScopeView::Runtime => "runtime"@,
        ScopeView::Unknown(t) => t,
    }
}

impl Clone for Scope {
    fn clone(&self) -> (r: Self)
        ensures
            r == *self,
    {
        match self {
            Scope::COMPILE => Scope::COMPILE,
            Scope::TEST => Scope::TEST,
            Scope::RUNTIME => Scope::RUNTIME,
            Scope::SYSTEM => Scope::SYSTEM,
            Scope::PROVIDED => Scope::PROVIDED,
            Scope::IMPORT => Scope::IMPORT,
            Scope::UNKOWN(s) => Scope::UNKOWN(s.clone()),
        }
    }
}

impl Default for Scope {
    fn default() -> (r: Self)
        ensures
            r == Scope::COMPILE,
    {
        Scope::COMPILE
    }
}

impl Scope {
    /// The scope a name stands for.
    pub fn from_str(s: &str) -> (r: Scope)
        ensures
            r@ == scope_from_text(s@),
    {
        if str_eq(s, "compile") {
            Scope::COMPILE
        } else if str_eq(s, "test") {
            Scope::TEST
        } else if str_eq(s, "provided") {
            Scope::PROVIDED
        } else if str_eq(s, "import") {
            Scope::IMPORT
        } else if str_eq(s, "system") {
            Scope::SYSTEM
        } else if str_eq(s, "runtime") {
            Scope::RUNTIME
        } else if s.unicode_len() == 0 {
            Scope::COMPILE
        } else {
            Scope::UNKOWN(str_to_string(s))
        }
    }

    /// The name of the scope.
    pub fn to_string(&self) -> (r: String)
        ensures
            r@ == scope_text(self@),
    {
        match self {
            Scope::COMPILE => str_to_string("compile"),
            Scope::TEST => str_to_string("test"),
            Scope::PROVIDED => str_to_string("provided"),
            Scope::IMPORT => str_to_string("import"),
            Scope::SYSTEM => str_to_string("system"),
            Scope::RUNTIME => str_to_string("runtime"),
            Scope::UNKOWN(s) => s.clone(),
        }
    }
}

/// A dependency that a project leaves out of its dependency's tree.
#[derive(Debug, PartialEq, Eq)]
pub struct Exclusion {
    /// The actual project name
    pub artifact_id: String,
    /// The organization name/package name
    pub group_id: String,
}

impl Clone for Exclusion {
    fn clone(&self) -> (r: Self)
        ensures
            r == *self,
    {
        Exclusion { artifact_id: self.artifact_id.clone(), group_id: self.group_id.clone() }
    }
}

impl Default for Exclusion {
    fn default() -> (r: Self)
        ensures
            r.artifact_id@ == Seq::<char>::empty(),
            r.group_id@ == Seq::<char>::empty(),
    {
        Exclusion { artifact_id: String::new(), group_id: String::new() }
    }
}

impl Exclusion {
    pub fn new(group_id: &str, artifact_id: &str) -> (r: Self)
        ensures
            r.artifact_id@ == artifact_id@,
            r.group_id@ == group_id@,
    {
        Exclusion { artifact_id: str_to_string(artifact_id), group_id: str_to_string(group_id) }
    }

    /// `group_id:artifact_id`.
    pub fn qualified_name(&self) -> (r: String)
        ensures
            r@ == self.group_id@ + ":"@ + self.artifact_id@,
    {
        let mut s = self.group_id.clone();
        push_char(&mut s, ':');
        append_str(&mut s, self.artifact_id.as_str());
        proof {
            reveal_strlit(":");
        }
        s
    }
}

/// The parent of a project.
#[derive(Debug, PartialEq, Eq)]
pub struct ParentPom {
    /// The organization name/package name
    pub group_id: String,
    /// The actual project name
    pub artifact_id: String,
    /// The project version number
    pub version: String,
    /// Relative path
    pub relative_path: Option<String>,
}

impl Clone for ParentPom {
    fn clone(&self) -> (r: Self)
        ensures
            r == *self,
    {
        ParentPom {
            group_id: self.group_id.clone(),
            artifact_id: self.artifact_id.clone(),
            version: self.version.clone(),
            relative_path: match &self.relative_path {
                Some(p) => Some(p.clone()),
                None => None,
            },
        }
    }
}


/// The model of an exclusion: its group and artifact.
pub open spec fn exclusion_view(e: Exclusion) -> (Seq<char>, Seq<char>) {
    (e.group_id@, e.artifact_id@)
}

/// The model of a parent.
pub struct ParentView {
    pub group_id: Seq<char>,
    pub artifact_id: Seq<char>,
    pub version: Seq<char>,
    pub relative_path: Option<Seq<char>>,
}

pub open spec fn parent_view(p: Option<ParentPom>) -> Option<ParentView> {
    match p {
        Some(p) => Some(
            ParentView {
                group_id: p.group_id@,
                artifact_id: p.artifact_id@,
                version: p.version@,
                relative_path: match p.relative_path {
                    Some(r) => Some(r@),
                    None => None,
                },
            },
        ),
        None => None,
    }
}

/// The model of a project.
pub struct ProjectView {
    pub artifact_id: Seq<char>,
    pub version: RequirementView,
    pub selected_version: Option<Seq<char>>,
    pub group_id: Seq<char>,
    pub dependencies: Seq<ProjectView>,
    /// Managed dependencies by `group:artifact`.
    pub dependency_management: Seq<(Seq<char>, ProjectView)>,
    /// Exclusions, each `(group, artifact)`.
    pub excludes: Seq<(Seq<char>, Seq<char>)>,
    pub scope: ScopeView,
    pub packaging: Seq<char>,
    /// Properties by name.
    pub properties: Seq<(Seq<char>, Seq<char>)>,
    pub optional: bool,
    pub parent: Option<ParentView>,
}

/// A Maven project: its coordinates, version requirement and the version
/// selected for it, its dependencies, managed dependencies, exclusions,
/// scope, packaging, properties and parent.
#[derive(Debug, PartialEq, Eq)]
pub struct Project {
    /// The actual project name
    artifact_id: String,
    /// The project version number
    version: VersionRequirement,
    /// The selected version. This was what was resolved
    selected_version: Option<String>,
    /// The organization name/package name
    group_id: String,
    /// The project main dependencies
    dependencies: Vec<Project>,
    /// This project's dependencyManagement section, by `group:artifact`
    dependency_management: Vec<(String, Project)>,
    /// This module excludes
    excludes: Vec<Exclusion>,
    /// The scope of the project
    scope: Scope,
    /// The packaging of the project
    packaging: String,
    /// Properties of the project, by name
    properties: Vec<(String, String)>,
    /// Is Optional
    optional: bool,
    /// Parent pom
    pub parent: Option<ParentPom>,
}

pub closed spec fn project_view(p: Project) -> ProjectView
    decreases p,
{
    ProjectView {
        artifact_id: p.artifact_id@,
        version: p.version@,
        selected_version: opt_text(p.selected_version),
        group_id: p.group_id@,
        dependencies: Seq::new(
            p.dependencies@.len(),
            |i: int|
                if 0 <= i < p.dependencies@.len() {
                    project_view(p.dependencies@[i])
                } else {
                    empty_project()
                },
        ),
        dependency_management: Seq::new(
            p.dependency_management@.len(),
            |i: int|
                if 0 <= i < p.dependency_management@.len() {
                    (p.dependency_management@[i].0@, project_view(p.dependency_management@[i].1))
                } else {
                    (Seq::empty(), empty_project())
                },
        ),
        excludes: p.excludes@.map_values(|e: Exclusion| exclusion_view(e)),
        scope: p.scope@,
        packaging: p.packaging@,
        properties: pairs_view(p.properties@),
        optional: p.optional,
        parent: parent_view(p.parent),
    }
}

impl View for Project {
    type V = ProjectView;

    open spec fn view(&self) -> ProjectView {
        project_view(*self)
    }
}

pub open spec fn opt_text(o: Option<String>) -> Option<Seq<char>> {
    match o {
        Some(s) => Some(s@),
        None => None,
    }
}

pub open spec fn projects_view(s: Seq<Project>) -> Seq<ProjectView> {
    s.map_values(|p: Project| p@)
}

/// A project with nothing in it.
pub open spec fn empty_project() -> ProjectView {
    ProjectView {
        artifact_id: Seq::empty(),
        version: RequirementView::Unset,
        selected_version: None,
        group_id: Seq::empty(),
        dependencies: Seq::empty(),
        dependency_management: Seq::empty(),
        excludes: Seq::empty(),
        scope: ScopeView::Compile,
        packaging: Seq::empty(),
        properties: Seq::empty(),
        optional: false,
        parent: None,
    }
}

/// The project a default project starts as.
pub open spec fn default_project() -> ProjectView {
    ProjectView {
        artifact_id: "my_app"@,
        group_id: "com.my_organization.name"@,
        packaging: "jar"@,
        ..empty_project()
    }
}

/// The version first selected for a requirement: a soft version, or the
/// version of a requirement that is a single `=` range.
pub open spec fn initial_selection(r: RequirementView) -> Option<Seq<char>> {
    match r {
        RequirementView::Soft(v) => Some(v),
        RequirementView::Unset => None,
        RequirementView::Hard(h) => if h.len() == 1 && h[0].0 == RangeKind::Eq {
            Some(h[0].1)
        } else {
            None
        },
    }
}

/// Whether two projects agree in everything but their dependencies.
pub open spec fn same_but_dependencies(a: ProjectView, b: ProjectView) -> bool {
    &&& a.artifact_id == b.artifact_id
    &&& a.version == b.version
    &&& a.selected_version == b.selected_version
    &&& a.group_id == b.group_id
    &&& a.dependency_management == b.dependency_management
    &&& a.excludes == b.excludes
    &&& a.scope == b.scope
    &&& a.packaging == b.packaging
    &&& a.properties == b.properties
    &&& a.optional == b.optional
    &&& a.parent == b.parent
}

broadcast proof fn lemma_dependencies_view(p: Project)
    ensures
        #[trigger] project_view(p).dependencies == projects_view(p.dependencies@),
{
    assert(project_view(p).dependencies =~= projects_view(p.dependencies@));
}

broadcast proof fn lemma_management_view(p: Project)
    ensures
        #[trigger] project_view(p).dependency_management == pairs_view(p.dependency_management@),
{
    assert(project_view(p).dependency_management =~= pairs_view(p.dependency_management@));
}

proof fn lemma_project_view(p: Project)
    ensures
        p@.dependencies == projects_view(p.dependencies@),
        p@.dependency_management == pairs_view(p.dependency_management@),
{
    assert(p@.dependencies =~= projects_view(p.dependencies@));
    assert(p@.dependency_management =~= pairs_view(p.dependency_management@));
}

impl Default for Project {
    fn default() -> (r: Self)
        ensures
            r@ == default_project(),
    {
        let r = Project {
            artifact_id: str_to_string("my_app"),
            version: VersionRequirement::Unset,
            selected_version: None,
            group_id: str_to_string("com.my_organization.name"),
            dependencies: Vec::new(),
            dependency_management: Vec::new(),
            excludes: Vec::new(),
            scope: Scope::COMPILE,
            packaging: str_to_string("jar"),
            properties: Vec::new(),
            parent: None,
            optional: false,
        };
        proof {
            lemma_project_view(r);
            assert(r@.dependencies =~= Seq::<ProjectView>::empty());
            assert(r@.dependency_management =~= Seq::<(Seq<char>, ProjectView)>::empty());
            assert(r@.excludes =~= Seq::<(Seq<char>, Seq<char>)>::empty());
            assert(r@.properties =~= Seq::<(Seq<char>, Seq<char>)>::empty());
        }
        r
    }
}

impl Project {
    /// Initializes a new project with the provided arguments
    pub fn new(group_id: &str, artifact_id: &str, version: &str) -> (r: Self)
        ensures
            r@ == (ProjectView {
                group_id: group_id@,
                artifact_id: artifact_id@,
                version: spec_parse_requirement(version@),
                selected_version: initial_selection(spec_parse_requirement(version@)),
                ..default_project()
            }),
    {
        let version = VersionRequirement::from_text(version);
        let selected = match &version {
            VersionRequirement::Soft(v) => Some(v.clone()),
            VersionRequirement::Unset => None,
            VersionRequirement::Hard(hard) => {
                if hard.len() == 1 {
                    match &hard[0] {
                        VersionRange::Eq(v) => Some(v.clone()),
                        _ => None,
                    }
                } else {
                    None
                }
            },
        };
        let mut p = Project::default();
        p.group_id = str_to_string(group_id);
        p.artifact_id = str_to_string(artifact_id);
        p.version = version;
        p.selected_version = selected;
        p
    }

    /// Returns the artifact id of the project
    pub fn get_artifact_id(&self) -> (r: String)
        ensures
            r@ == self@.artifact_id,
    {
        self.artifact_id.clone()
    }

    /// Returns the version of the project
    pub fn get_version(&self) -> (r: &VersionRequirement)
        ensures
            r@ == self@.version,
    {
        &self.version
    }

    /// Sets the version requirement of the project; the project itself is
    /// handed back, for further calls.
    pub fn set_version(&mut self, version: VersionRequirement) -> (r: &mut Self)
        ensures
            r@ == (ProjectView { version: version@, ..old(self)@ }),
            *final(self) == *final(r),
    {
        proof {
            lemma_project_view(*self);
        }
        self.version = version;
        proof {
            lemma_project_view(*self);
        }
        self
    }

    /// Returns the version of the project
    pub fn get_selected_version(&self) -> (r: &Option<String>)
        ensures
            opt_text(*r) == self@.selected_version,
    {
        &self.selected_version
    }

    /// Selects a version calculated from version requirements
    pub fn set_selected_version(&mut self, version: Option<String>)
        ensures
            final(self)@ == (ProjectView { selected_version: opt_text(version), ..old(self)@ }),
    {
        proof {
            lemma_project_view(*self);
        }
        self.selected_version = version;
        proof {
            lemma_project_view(*self);
        }
    }

    /// Returns the group id of the project
    pub fn get_group_id(&self) -> (r: String)
        ensures
            r@ == self@.group_id,
    {
        self.group_id.clone()
    }

    /// Adds a dependency to this project
    pub fn add_dependency(&mut self, dep: Project)
        ensures
            final(self)@ == (ProjectView {
                dependencies: old(self)@.dependencies.push(dep@),
                ..old(self)@
            }),
    {
        proof {
            lemma_project_view(*self);
        }
        self.dependencies.push(dep);
        proof {
            lemma_project_view(*self);
            assert(projects_view(self.dependencies@) =~= old(self)@.dependencies.push(dep@));
        }
    }

    /// Adds a dependency to the managed dependencies, under `group:artifact`;
    /// it replaces one already there under that name.
    pub fn add_to_dependency_management(&mut self, dep: Project)
        ensures
            final(self)@ == (ProjectView {
                dependency_management: assoc_insert(
                    old(self)@.dependency_management,
                    dep@.group_id + ":"@ + dep@.artifact_id,
                    dep@,
                ),
                ..old(self)@
            }),
    {
        proof {
            lemma_project_view(*self);
        }
        let mut key = dep.group_id.clone();
        push_char(&mut key, ':');
        append_str(&mut key, dep.artifact_id.as_str());
        proof {
            reveal_strlit(":");
            assert(key@ =~= dep@.group_id + ":"@ + dep@.artifact_id);
        }
        insert_key(&mut self.dependency_management, key, dep);
        proof {
            lemma_project_view(*self);
        }
    }

    pub fn get_dependencies(&self) -> (r: &Vec<Project>)
        ensures
            projects_view(r@) == self@.dependencies,
    {
        proof {
            lemma_project_view(*self);
        }
        &self.dependencies
    }

    /// The dependencies, to change them in place; the project is otherwise
    /// left as it was.
    pub fn get_dependencies_mut(&mut self) -> (r: &mut Vec<Project>)
        ensures
            projects_view(r@) == old(self)@.dependencies,
            final(self)@.dependencies == projects_view(final(r)@),
            same_but_dependencies(final(self)@, old(self)@),
    {
        broadcast use lemma_dependencies_view, lemma_management_view;

        &mut self.dependencies
    }

    /// The managed dependencies, by `group:artifact`.
    pub fn get_dependency_management(&self) -> (r: &Vec<(String, Project)>)
        ensures
            pairs_view(r@) == self@.dependency_management,
    {
        proof {
            lemma_project_view(*self);
        }
        &self.dependency_management
    }

    pub fn get_dependencies_owned(self) -> (r: Vec<Project>)
        ensures
            projects_view(r@) == self@.dependencies,
    {
        proof {
            lemma_project_view(self);
        }
        self.dependencies
    }

    /// Takes over what a dependency inherits from the project that pulled it
    /// in: the version selected for it (as a soft requirement), its
    /// exclusions and its scope.
    pub fn copy_parent(&mut self, parent: &Project)
        ensures
            final(self)@ == (ProjectView {
                version: match parent@.selected_version {
                    Some(v) => RequirementView::Soft(v),
                    None => old(self)@.version,
                },
                selected_version: parent@.selected_version,
                excludes: old(self)@.excludes + parent@.excludes,
                scope: parent@.scope,
                ..old(self)@
            }),
    {
        proof {
            lemma_project_view(*self);
        }
        if let Some(version) = &parent.selected_version {
            self.version = VersionRequirement::Soft(version.clone());
        }
        self.selected_version = match &parent.selected_version {
            Some(v) => Some(v.clone()),
            None => None,
        };
        let mut added: Vec<Exclusion> = Vec::new();
        let mut i: usize = 0;
        while i < parent.excludes.len()
            invariant
                i <= parent.excludes.len(),
                added@ == parent.excludes@.take(i as int),
            decreases parent.excludes.len() - i,
        {
            added.push(parent.excludes[i].clone());
            assert(parent.excludes@.take(i + 1) == parent.excludes@.take(i as int).push(parent.excludes@[i as int]));
            i += 1;
        }
        assert(parent.excludes@.take(parent.excludes.len() as int) == parent.excludes@);
        self.excludes.append(&mut added);
        self.scope = parent.scope.clone();
        proof {
            lemma_project_view(*self);
            assert(self@.excludes =~= old(self)@.excludes + parent@.excludes);
        }
    }

    /// `group:artifact:version` of the selected version, or an error when
    /// no version is selected.
    pub fn qualified_name(&self) -> (r: Result<String, UnresolvedVersion>)
        ensures
            match self@.selected_version {
                Some(v) => r matches Ok(s) && s@ == self@.group_id + ":"@ + self@.artifact_id + ":"@ + v,
                None => r is Err,
            },
    {
        match &self.selected_version {
            None => Err(UnresolvedVersion),
            Some(v) => {
                let mut s = self.group_id.clone();
                push_char(&mut s, ':');
                append_str(&mut s, self.artifact_id.as_str());
                push_char(&mut s, ':');
                append_str(&mut s, v.as_str());
                proof {
                    reveal_strlit(":");
                    assert(s@ =~= self@.group_id + ":"@ + self@.artifact_id + ":"@ + v@);
                }
                Ok(s)
            },
        }
    }

    /// The parent pom of the project.
    pub fn get_parent(&self) -> (r: &Option<ParentPom>)
        ensures
            parent_view(*r) == self@.parent,
    {
        &self.parent
    }

    /// The exclusions of the project.
    pub fn get_excludes(&self) -> (r: &Vec<Exclusion>)
        ensures
            r@.map_values(|e: Exclusion| exclusion_view(e)) == self@.excludes,
    {
        &self.excludes
    }

    pub fn add_exclusion(&mut self, exclude: Exclusion)
        ensures
            final(self)@ == (ProjectView {
                excludes: old(self)@.excludes.push(exclusion_view(exclude)),
                ..old(self)@
            }),
    {
        proof {
            lemma_project_view(*self);
        }
        self.excludes.push(exclude);
        proof {
            lemma_project_view(*self);
            assert(self@.excludes =~= old(self)@.excludes.push(exclusion_view(exclude)));
        }
    }

    pub fn get_scope(&self) -> (r: Scope)
        ensures
            r@ == self@.scope,
    {
        self.scope.clone()
    }

    pub fn get_packaging(&self) -> (r: String)
        ensures
            r@ == self@.packaging,
    {
        self.packaging.clone()
    }

    pub fn set_packaging(&mut self, packaging: String)
        ensures
            final(self)@ == (ProjectView { packaging: packaging@, ..old(self)@ }),
    {
        proof {
            lemma_project_view(*self);
        }
        self.packaging = packaging;
        proof {
            lemma_project_view(*self);
        }
    }

    /// Sets the property `name` to `value`, replacing the value it had.
    pub fn insert_property(&mut self, name: String, value: String)
        ensures
            final(self)@ == (ProjectView {
                properties: assoc_insert(old(self)@.properties, name@, value@),
                ..old(self)@
            }),
    {
        proof {
            lemma_project_view(*self);
        }
        insert_key(&mut self.properties, name, value);
        proof {
            lemma_project_view(*self);
        }
    }

    pub fn is_optional(&self) -> (r: bool)
        ensures
            r == self@.optional,
    {
        self.optional
    }
}

/// A project has no selected version.
#[derive(Clone, Copy, Debug, PartialEq, Eq)]
pub struct UnresolvedVersion;


/// What the property `key` of a project stands for: a property of its own;
/// else, for `env.NAME`, the environment variable `NAME`; for
/// `project.version`, `project.artifactId`, `project.groupId`,
/// `project.scope` and `project.packaging`, that part of the project.
pub open spec fn property_of(p: ProjectView, key: Seq<char>, env: Seq<(Seq<char>, Seq<char>)>) -> Option<Seq<char>> {
    match assoc_get(p.properties, key) {
        Some(v) => Some(v),
        None => match find_char(key, '.') {
            None => None,
            Some(i) => {
                let group = key.subrange(0, i);
                let item = key.subrange(i + 1, key.len() as int);
                if group == "env"@ {
                    assoc_get(env, item)
                } else if group == "project"@ {
                    if item == "version"@ {
                        Some(requirement_text(p.version))
                    } else if item == "artifactId"@ {
                        Some(p.artifact_id)
                    } else if item == "groupId"@ {
                        Some(p.group_id)
                    } else if item == "scope"@ {
                        Some(scope_text(p.scope))
                    } else if item == "packaging"@ {
                        Some(p.packaging)
                    } else {
                        None
                    }
                } else {
                    None
                }
            },
        },
    }
}

/// States of the placeholder scanner.
#[derive(Clone, Copy, Debug, PartialEq, Eq)]
pub enum SubState {
    Normal,
    PlaceholderDollar,
    PlaceholderBody,
}

/// One character of placeholder substitution: outside a placeholder a
/// character is copied, `$` starts one (and is dropped); after `$`,
/// whitespace is skipped, `{` opens the body, anything else is copied and
/// ends the placeholder; in the body, `}` closes it and puts in the value
/// of the trimmed name between the braces, if it has one.
pub open spec fn subst_step(
    p: ProjectView,
    data: Seq<char>,
    env: Seq<(Seq<char>, Seq<char>)>,
    acc: (SubState, int, Seq<char>),
    i: int,
) -> (SubState, int, Seq<char>) {
    let c = data[i];
    match acc.0 {
        SubState::Normal => if c == '$' {
            (SubState::PlaceholderDollar, acc.1, acc.2)
        } else {
            (SubState::Normal, acc.1, acc.2.push(c))
        },
        SubState::PlaceholderDollar => if c == '{' {
            (SubState::PlaceholderBody, i, acc.2)
        } else if is_ws(c) {
            acc
        } else {
            (SubState::Normal, acc.1, acc.2.push(c))
        },
        SubState::PlaceholderBody => if c == '}' {
            let key = trim(data.subrange(acc.1 + 1, i));
            (
                SubState::Normal,
                acc.1,
                match property_of(p, key, env) {
                    Some(v) => acc.2 + v,
                    None => acc.2,
                },
            )
        } else {
            acc
        },
    }
}

pub open spec fn subst_scan(
    p: ProjectView,
    data: Seq<char>,
    env: Seq<(Seq<char>, Seq<char>)>,
    n: int,
) -> (SubState, int, Seq<char>)
    decreases n,
{
    if n <= 0 {
        (SubState::Normal, 0, Seq::empty())
    } else {
        subst_step(p, data, env, subst_scan(p, data, env, n - 1), n - 1)
    }
}

/// The text with its `${name}` placeholders replaced by the values of the
/// properties they name. The text is scanned character by character; on
/// text that is not ASCII this differs from a scan that takes character
/// counts as byte offsets (such as for `é${a}`).
pub open spec fn substituted(p: ProjectView, data: Seq<char>, env: Seq<(Seq<char>, Seq<char>)>) -> Seq<char> {
    subst_scan(p, data, env, data.len() as int).2
}

proof fn lemma_subst_start(p: ProjectView, data: Seq<char>, env: Seq<(Seq<char>, Seq<char>)>, n: int)
    requires
        0 <= n <= data.len(),
    ensures
        0 <= subst_scan(p, data, env, n).1 <= n,
        subst_scan(p, data, env, n).0 == SubState::PlaceholderBody ==> subst_scan(p, data, env, n).1 < n,
    decreases n,
{
    if n > 0 {
        lemma_subst_start(p, data, env, n - 1);
    }
}

impl Project {
    /// The value of the property `key`; `env` holds the environment
    /// variables by name.
    pub fn get_property(&self, key: &str, env: &Vec<(String, String)>) -> (r: Option<String>)
        ensures
            opt_text(r) == property_of(self@, key@, pairs_view(env@)),
    {
        proof {
            assert(self@.properties == pairs_view(self.properties@));
            lemma_key_index(self@.properties, key@);
        }
        if let Some(k) = find_key(&self.properties, key) {
            return Some(self.properties[k].1.clone());
        }
        let v = chars_of(key);
        let len = v.len();
        assert(v@.subrange(0, len as int) == v@);
        let dot = find_char_in(&v, 0, len, '.');
        proof {
            lemma_find_char(v@, '.');
        }
        let i = match dot {
            None => {
                return None;
            },
            Some(i) => i,
        };
        let group = string_from(&v, 0, i);
        let item = string_from(&v, i + 1, len);
        if str_eq(group.as_str(), "env") {
            proof {
                lemma_key_index(pairs_view(env@), item@);
            }
            match find_key(env, item.as_str()) {
                Some(k) => Some(env[k].1.clone()),
                None => None,
            }
        } else if str_eq(group.as_str(), "project") {
            let it = item.as_str();
            if str_eq(it, "version") {
                Some(self.version.to_string())
            } else if str_eq(it, "artifactId") {
                Some(self.get_artifact_id())
            } else if str_eq(it, "groupId") {
                Some(self.get_group_id())
            } else if str_eq(it, "scope") {
                Some(self.get_scope().to_string())
            } else if str_eq(it, "packaging") {
                Some(self.get_packaging())
            } else {
                None
            }
        } else {
            None
        }
    }

    /// Replaces the `${name}` placeholders of `data` by the values of the
    /// properties they name (see `get_property`); a placeholder without a
    /// value is dropped. Positions are counted in characters, not bytes.
    pub fn substitute_string(&self, data: &str, env: &Vec<(String, String)>) -> (r: String)
        ensures
            r@ == substituted(self@, data@, pairs_view(env@)),
    {
        let v = chars_of(data);
        let mut result = String::new();
        let mut state = SubState::Normal;
        let mut start: usize = 0;
        let mut i: usize = 0;
        while i < v.len()
            invariant
                i <= v.len(),
                v@ == data@,
                subst_scan(self@, data@, pairs_view(env@), i as int) == (state, start as int, result@),
            decreases v.len() - i,
        {
            proof {
                lemma_subst_start(self@, data@, pairs_view(env@), i as int);
            }
            let c = v[i];
            match state {
                SubState::Normal => {
                    if c == '$' {
                        state = SubState::PlaceholderDollar;
                    } else {
                        push_char(&mut result, c);
                    }
                },
                SubState::PlaceholderDollar => {
                    if c == '{' {
                        state = SubState::PlaceholderBody;
                        start = i;
                    } else if is_whitespace(c) {
                    } else {
                        push_char(&mut result, c);
                        state = SubState::Normal;
                    }
                },
                SubState::PlaceholderBody => {
                    if c == '}' {
                        let (lo, hi) = trim_range(&v, start + 1, i);
                        let key = string_from(&v, lo, hi);
                        if let Some(property) = self.get_property(key.as_str(), env) {
                            append_str(&mut result, property.as_str());
                        }
                        state = SubState::Normal;
                    }
                },
            }
            i += 1;
        }
        result
    }
}


/// Where the exclusions reader is; an exclusion being read is carried as
/// `(group, artifact)`.
#[derive(Debug)]
pub enum ExclusionsState {
    Exclusions,
    Exclusion(Exclusion),
    ReadArtifactId(Exclusion),
    ReadGroupId(Exclusion),
}

/// Where the dependency reader is.
#[derive(Debug)]
pub enum DependencyState {
    Dependencies,
    Dependency,
    ReadArtifactId,
    ReadGroupId,
    ReadVersion,
    Exclusions(ExclusionsState),
    ReadScope,
    ReadOptional,
}

/// Where the parent reader is.
#[derive(Clone, Copy, Debug, PartialEq, Eq, Structural)]
pub enum ParentState {
    Parent,
    ReadArtifactId,
    ReadGroupId,
    ReadVersion,
}

/// Where the properties reader is.
#[derive(Clone, Copy, Debug, PartialEq, Eq, Structural)]
pub enum PropertiesState {
    Properties,
    ReadEntry,
}

/// Where the POM parser is.
#[derive(Debug)]
pub enum ParserState {
    Project,
    ReadArtifactId,
    ReadGroupId,
    ReadVersion,
    Dependencies(DependencyState),
    DependencyManagement(DependencyState),
    Parent(ParentState),
    ReadPackaging,
    Properties(PropertiesState),
    /// Inside a tag of no interest, at the given depth below the project.
    Other(usize),
}

pub enum ExclusionsStateView {
    Exclusions,
    Exclusion(Seq<char>, Seq<char>),
    ReadArtifactId(Seq<char>, Seq<char>),
    ReadGroupId(Seq<char>, Seq<char>),
}

pub enum DependencyStateView {
    Dependencies,
    Dependency,
    ReadArtifactId,
    ReadGroupId,
    ReadVersion,
    Exclusions(ExclusionsStateView),
    ReadScope,
    ReadOptional,
}

pub enum PomStateView {
    Project,
    ReadArtifactId,
    ReadGroupId,
    ReadVersion,
    Dependencies(DependencyStateView),
    DependencyManagement(DependencyStateView),
    Parent(ParentState),
    ReadPackaging,
    Properties(PropertiesState),
    Other(usize),
}

pub open spec fn exclusions_state_view(s: ExclusionsState) -> ExclusionsStateView {
    match s {
        ExclusionsState::Exclusions => ExclusionsStateView::Exclusions,
        ExclusionsState::Exclusion(x) => ExclusionsStateView::Exclusion(x.group_id@, x.artifact_id@),
        ExclusionsState::ReadArtifactId(x) => ExclusionsStateView::ReadArtifactId(x.group_id@, x.artifact_id@),
        ExclusionsState::ReadGroupId(x) => ExclusionsStateView::ReadGroupId(x.group_id@, x.artifact_id@),
    }
}

pub open spec fn dependency_state_view(s: DependencyState) -> DependencyStateView {
    match s {
        DependencyState::Dependencies => DependencyStateView::Dependencies,
        DependencyState::Dependency => DependencyStateView::Dependency,
        DependencyState::ReadArtifactId => DependencyStateView::ReadArtifactId,
        DependencyState::ReadGroupId => DependencyStateView::ReadGroupId,
        DependencyState::ReadVersion => DependencyStateView::ReadVersion,
        DependencyState::Exclusions(e) => DependencyStateView::Exclusions(exclusions_state_view(e)),
        DependencyState::ReadScope => DependencyStateView::ReadScope,
        DependencyState::ReadOptional => DependencyStateView::ReadOptional,
    }
}

pub open spec fn pom_state_view(s: ParserState) -> PomStateView {
    match s {
        ParserState::Project => PomStateView::Project,
        ParserState::ReadArtifactId => PomStateView::ReadArtifactId,
        ParserState::ReadGroupId => PomStateView::ReadGroupId,
        ParserState::ReadVersion => PomStateView::ReadVersion,
        ParserState::Dependencies(d) => PomStateView::Dependencies(dependency_state_view(d)),
        ParserState::DependencyManagement(d) => PomStateView::DependencyManagement(dependency_state_view(d)),
        ParserState::Parent(p) => PomStateView::Parent(p),
        ParserState::ReadPackaging => PomStateView::ReadPackaging,
        ParserState::Properties(p) => PomStateView::Properties(p),
        ParserState::Other(l) => PomStateView::Other(l),
    }
}

/// A text of the document has an entity that could not be resolved.
#[derive(Clone, Copy, Debug, PartialEq, Eq)]
pub struct PomTextError;

/// The model of the POM parser.
pub struct PomParserView {
    pub state: PomStateView,
    pub project: ProjectView,
    /// The dependency being read.
    pub dependency: Option<ProjectView>,
    /// The name of the property being read.
    pub property_tag: Seq<char>,
    /// The texts of the property being read.
    pub property_value: Seq<Seq<char>>,
}

/// Reads a POM document, one event at a time, into a project.
pub struct Parser {
    state: ParserState,
    project: Project,
    /// Used to keep track of a dependency while parsing xml
    current_dependency: Option<Project>,
    /// Used to store the currently processed property tag
    current_property_tag: String,
    /// Used to carry the current property tag value
    current_property_value: Vec<String>,
}

pub open spec fn opt_project(p: Option<Project>) -> Option<ProjectView> {
    match p {
        Some(p) => Some(p@),
        None => None,
    }
}

impl View for Parser {
    type V = PomParserView;

    closed spec fn view(&self) -> PomParserView {
        PomParserView {
            state: pom_state_view(self.state),
            project: self.project@,
            dependency: opt_project(self.current_dependency),
            property_tag: self.current_property_tag@,
            property_value: self.current_property_value@.map_values(|t: String| t@),
        }
    }
}

/// The text of `ev`, if it is a text event: `Some(None)` where its
/// entities could not be resolved.
pub open spec fn ev_text(ev: XmlEvent) -> Option<Option<Seq<char>>> {
    match ev {
        XmlEvent::Text(Some(t)) => Some(Some(t@)),
        XmlEvent::Text(None) => Some(None),
        _ => None,
    }
}

/// One step inside `<exclusions>`.
pub open spec fn exclusions_step(p: PomParserView, st: ExclusionsStateView, ev: XmlEvent) -> (PomParserView, Result<ExclusionsStateView, PomTextError>) {
    match st {
        ExclusionsStateView::Exclusions => if start_name(ev) == Some("exclusion"@) {
            (p, Ok(ExclusionsStateView::Exclusion(Seq::empty(), Seq::empty())))
        } else {
            (p, Ok(st))
        },
        ExclusionsStateView::Exclusion(g, a) => if is_end_of(ev, "exclusion"@) {
            (
                match p.dependency {
                    Some(d) => PomParserView {
                        dependency: Some(ProjectView { excludes: d.excludes.push((g, a)), ..d }),
                        ..p
                    },
                    None => p,
                },
                Ok(ExclusionsStateView::Exclusions),
            )
        } else if start_name(ev) == Some("artifactId"@) {
            (p, Ok(ExclusionsStateView::ReadArtifactId(g, a)))
        } else if start_name(ev) == Some("groupId"@) {
            (p, Ok(ExclusionsStateView::ReadGroupId(g, a)))
        } else {
            (p, Ok(st))
        },
        ExclusionsStateView::ReadArtifactId(g, a) => if is_end_of(ev, "artifactId"@) {
            (p, Ok(ExclusionsStateView::Exclusion(g, a)))
        } else {
            match ev_text(ev) {
                Some(None) => (p, Err(PomTextError)),
                Some(Some(t)) => (p, Ok(ExclusionsStateView::ReadArtifactId(g, t))),
                None => (p, Ok(st)),
            }
        },
        ExclusionsStateView::ReadGroupId(g, a) => if is_end_of(ev, "groupId"@) {
            (p, Ok(ExclusionsStateView::Exclusion(g, a)))
        } else {
            match ev_text(ev) {
                Some(None) => (p, Err(PomTextError)),
                Some(Some(t)) => (p, Ok(ExclusionsStateView::ReadGroupId(t, a))),
                None => (p, Ok(st)),
            }
        },
    }
}

/// Which field of the dependency being read a text goes to.
pub open spec fn dep_with_text(d: ProjectView, st: DependencyStateView, t: Seq<char>) -> ProjectView {
    match st {
        DependencyStateView::ReadArtifactId => ProjectView { artifact_id: t, ..d },
        DependencyStateView::ReadGroupId => ProjectView { group_id: t, ..d },
        DependencyStateView::ReadVersion => ProjectView { selected_version: Some(t), ..d },
        DependencyStateView::ReadScope => ProjectView { scope: scope_from_text(t), ..d },
        _ => if trim(t) == "true"@ {
            ProjectView { optional: true, ..d }
        } else {
            d
        },
    }
}

/// The element a reading state of a dependency is inside.
pub open spec fn dep_element(st: DependencyStateView) -> Seq<char> {
    match st {
        DependencyStateView::ReadArtifactId => "artifactId"@,
        DependencyStateView::ReadGroupId => "groupId"@,
        DependencyStateView::ReadVersion => "version"@,
        DependencyStateView::ReadScope => "scope"@,
        _ => "optional"@,
    }
}

/// One step inside `<dependencies>` (or `<dependencyManagement>` when
/// `managed`).
pub open spec fn deps_step(p: PomParserView, st: DependencyStateView, ev: XmlEvent, managed: bool) -> (PomParserView, Result<DependencyStateView, PomTextError>) {
    match st {
        DependencyStateView::Dependencies => if start_name(ev) == Some("dependency"@) {
            (PomParserView { dependency: Some(default_project()), ..p }, Ok(DependencyStateView::Dependency))
        } else {
            (p, Ok(st))
        },
        DependencyStateView::Dependency => if start_name(ev) == Some("artifactId"@) {
            (p, Ok(DependencyStateView::ReadArtifactId))
        } else if start_name(ev) == Some("groupId"@) {
            (p, Ok(DependencyStateView::ReadGroupId))
        } else if start_name(ev) == Some("version"@) {
            (p, Ok(DependencyStateView::ReadVersion))
        } else if !managed && start_name(ev) == Some("exclusions"@) {
            (p, Ok(DependencyStateView::Exclusions(ExclusionsStateView::Exclusions)))
        } else if start_name(ev) == Some("scope"@) {
            (p, Ok(DependencyStateView::ReadScope))
        } else if managed && start_name(ev) == Some("exclusions"@) {
            (p, Ok(DependencyStateView::Exclusions(ExclusionsStateView::Exclusions)))
        } else if !managed && start_name(ev) == Some("optional"@) {
            (p, Ok(DependencyStateView::ReadOptional))
        } else if is_end_of(ev, "dependency"@) {
            (
                match p.dependency {
                    Some(d) => PomParserView {
                        project: if managed {
                            ProjectView {
                                dependency_management: assoc_insert(
                                    p.project.dependency_management,
                                    d.group_id + ":"@ + d.artifact_id,
                                    d,
                                ),
                                ..p.project
                            }
                        } else {
                            ProjectView { dependencies: p.project.dependencies.push(d), ..p.project }
                        },
                        dependency: None,
                        ..p
                    },
                    None => p,
                },
                Ok(DependencyStateView::Dependencies),
            )
        } else {
            (p, Ok(st))
        },
        DependencyStateView::Exclusions(es) => if is_end_of(ev, "exclusions"@) {
            (p, Ok(DependencyStateView::Dependency))
        } else {
            let (q, r) = exclusions_step(p, es, ev);
            match r {
                Ok(e) => (q, Ok(DependencyStateView::Exclusions(e))),
                Err(e) => (q, Err(e)),
            }
        },
        _ => if is_end_of(ev, dep_element(st)) {
            (p, Ok(DependencyStateView::Dependency))
        } else {
            match (ev_text(ev), p.dependency) {
                (Some(None), Some(_)) => (p, Err(PomTextError)),
                (Some(Some(t)), Some(d)) => (
                    PomParserView { dependency: Some(dep_with_text(d, st, t)), ..p },
                    Ok(st),
                ),
                _ => (p, Ok(st)),
            }
        },
    }
}

/// One step inside `<properties>`.
pub open spec fn props_step(p: PomParserView, st: PropertiesState, ev: XmlEvent) -> (PomParserView, Result<PropertiesState, PomTextError>) {
    match st {
        PropertiesState::Properties => match ev {
            XmlEvent::End(n) => if n@ == "properties"@ {
                (p, Ok(st))
            } else {
                (PomParserView { property_tag: n@, ..p }, Ok(PropertiesState::ReadEntry))
            },
            XmlEvent::Start(t) => (PomParserView { property_tag: t.name@, ..p }, Ok(PropertiesState::ReadEntry)),
            _ => (p, Ok(st)),
        },
        PropertiesState::ReadEntry => if is_end_of(ev, p.property_tag) {
            (
                PomParserView {
                    project: ProjectView {
                        properties: assoc_insert(
                            p.project.properties,
                            p.property_tag,
                            concat_texts(p.property_value),
                        ),
                        ..p.project
                    },
                    property_value: Seq::empty(),
                    ..p
                },
                Ok(PropertiesState::Properties),
            )
        } else {
            match ev_text(ev) {
                Some(None) => (p, Err(PomTextError)),
                Some(Some(t)) => (PomParserView { property_value: p.property_value.push(t), ..p }, Ok(st)),
                None => (p, Ok(st)),
            }
        },
    }
}

/// The texts joined together.
pub open spec fn concat_texts(s: Seq<Seq<char>>) -> Seq<char>
    decreases s.len(),
{
    if s.len() == 0 {
        Seq::empty()
    } else {
        concat_texts(s.drop_last()) + s.last()
    }
}

/// The parent after a text read inside it.
pub open spec fn parent_with(p: PomParserView, f: ParentState, t: Seq<char>) -> PomParserView {
    match p.project.parent {
        Some(par) => PomParserView {
            project: ProjectView {
                parent: Some(
                    match f {
                        ParentState::ReadArtifactId => ParentView { artifact_id: t, ..par },
                        ParentState::ReadGroupId => ParentView { group_id: t, ..par },
                        _ => ParentView { version: t, ..par },
                    },
                ),
                ..p.project
            },
            ..p
        },
        None => p,
    }
}

/// One step inside `<parent>`.
pub open spec fn parent_step(p: PomParserView, st: ParentState, ev: XmlEvent) -> (PomParserView, Result<ParentState, PomTextError>) {
    match st {
        ParentState::Parent => if start_name(ev) == Some("artifactId"@) {
            (p, Ok(ParentState::ReadArtifactId))
        } else if start_name(ev) == Some("groupId"@) {
            (p, Ok(ParentState::ReadGroupId))
        } else if start_name(ev) == Some("version"@) {
            (p, Ok(ParentState::ReadVersion))
        } else {
            (p, Ok(st))
        },
        _ => {
            let name = match st {
                ParentState::ReadArtifactId => "artifactId"@,
                ParentState::ReadGroupId => "groupId"@,
                _ => "version"@,
            };
            if is_end_of(ev, name) {
                (p, Ok(ParentState::Parent))
            } else {
                match (ev_text(ev), p.project.parent) {
                    (Some(None), Some(_)) => (p, Err(PomTextError)),
                    (Some(Some(t)), _) => (
                        parent_with(p, st, t),
                        Ok(
                            if st == ParentState::ReadArtifactId {
                                ParentState::Parent
                            } else {
                                st
                            },
                        ),
                    ),
                    _ => (p, Ok(if st == ParentState::ReadArtifactId {
                        ParentState::Parent
                    } else {
                        st
                    })),
                }
            }
        },
    }
}

/// Whether processing `ev` would overflow the depth counter.
pub open spec fn pom_step_overflows(p: PomParserView, ev: XmlEvent) -> bool {
    p.state matches PomStateView::Other(l) && l == usize::MAX && ev is Start
}

/// The parser states that can be reached: the depth inside ignored tags is
/// at least one.
pub open spec fn pom_wf(p: PomParserView) -> bool {
    p.state matches PomStateView::Other(l) ==> l >= 1
}

/// The parser after one event.
pub open spec fn pom_step(p: PomParserView, ev: XmlEvent) -> (PomParserView, Result<(), PomTextError>) {
    match p.state {
        PomStateView::Project => match start_name(ev) {
            Some(n) => (
                if n == "parent"@ {
                    PomParserView {
                        project: ProjectView {
                            parent: Some(
                                ParentView {
                                    group_id: Seq::empty(),
                                    artifact_id: Seq::empty(),
                                    version: Seq::empty(),
                                    relative_path: None,
                                },
                            ),
                            ..p.project
                        },
                        state: PomStateView::Parent(ParentState::Parent),
                        ..p
                    }
                } else {
                    PomParserView {
                        state: if n == "project"@ {
                            PomStateView::Project
                        } else if n == "dependencies"@ {
                            PomStateView::Dependencies(DependencyStateView::Dependencies)
                        } else if n == "dependencyManagement"@ {
                            PomStateView::DependencyManagement(DependencyStateView::Dependencies)
                        } else if n == "artifactId"@ {
                            PomStateView::ReadArtifactId
                        } else if n == "groupId"@ {
                            PomStateView::ReadGroupId
                        } else if n == "version"@ {
                            PomStateView::ReadVersion
                        } else if n == "packaging"@ {
                            PomStateView::ReadPackaging
                        } else if n == "properties"@ {
                            PomStateView::Properties(PropertiesState::Properties)
                        } else {
                            PomStateView::Other(1)
                        },
                        ..p
                    }
                },
                Ok(()),
            ),
            None => (p, Ok(())),
        },
        PomStateView::Other(level) => (
            PomParserView {
                state: match ev {
                    XmlEvent::Start(_) => PomStateView::Other((level + 1) as usize),
                    XmlEvent::End(_) => if level == 1 {
                        PomStateView::Project
                    } else {
                        PomStateView::Other((level - 1) as usize)
                    },
                    _ => PomStateView::Other(level),
                },
                ..p
            },
            Ok(()),
        ),
        PomStateView::ReadArtifactId | PomStateView::ReadGroupId | PomStateView::ReadVersion
        | PomStateView::ReadPackaging => {
            let name = match p.state {
                PomStateView::ReadArtifactId => "artifactId"@,
                PomStateView::ReadGroupId => "groupId"@,
                PomStateView::ReadVersion => "version"@,
                _ => "packaging"@,
            };
            if is_end_of(ev, name) {
                (PomParserView { state: PomStateView::Project, ..p }, Ok(()))
            } else {
                match ev_text(ev) {
                    Some(None) => (p, Err(PomTextError)),
                    Some(Some(t)) => (
                        PomParserView {
                            project: match p.state {
                                PomStateView::ReadArtifactId => ProjectView { artifact_id: t, ..p.project },
                                PomStateView::ReadGroupId => ProjectView { group_id: t, ..p.project },
                                PomStateView::ReadVersion => ProjectView { selected_version: Some(t), ..p.project },
                                _ => ProjectView { packaging: t, ..p.project },
                            },
                            ..p
                        },
                        Ok(()),
                    ),
                    None => (p, Ok(())),
                }
            }
        },
        PomStateView::Dependencies(ds) => if is_end_of(ev, "dependencies"@) {
            (PomParserView { state: PomStateView::Project, ..p }, Ok(()))
        } else {
            let (q, r) = deps_step(p, ds, ev, false);
            match r {
                Ok(d) => (PomParserView { state: PomStateView::Dependencies(d), ..q }, Ok(())),
                Err(e) => (q, Err(e)),
            }
        },
        PomStateView::DependencyManagement(ds) => if is_end_of(ev, "dependencyManagement"@) {
            (PomParserView { state: PomStateView::Project, ..p }, Ok(()))
        } else {
            let (q, r) = deps_step(p, ds, ev, true);
            match r {
                Ok(d) => (PomParserView { state: PomStateView::DependencyManagement(d), ..q }, Ok(())),
                Err(e) => (q, Err(e)),
            }
        },
        PomStateView::Properties(ps) => if is_end_of(ev, "properties"@) {
            (PomParserView { state: PomStateView::Project, ..p }, Ok(()))
        } else {
            let (q, r) = props_step(p, ps, ev);
            match r {
                Ok(d) => (PomParserView { state: PomStateView::Properties(d), ..q }, Ok(())),
                Err(e) => (q, Err(e)),
            }
        },
        PomStateView::Parent(ps) => if is_end_of(ev, "parent"@) {
            (PomParserView { state: PomStateView::Project, ..p }, Ok(()))
        } else {
            let (q, r) = parent_step(p, ps, ev);
            match r {
                Ok(d) => (PomParserView { state: PomStateView::Parent(d), ..q }, Ok(())),
                Err(e) => (q, Err(e)),
            }
        },
    }
}


/// Whether `ev` is the start tag `<name ...>`.
fn is_start(ev: &XmlEvent, name: &str) -> (r: bool)
    ensures
        r == (start_name(*ev) == Some(name@)),
{
    crate::xml::starts(ev, name)
}

/// Whether `ev` is the end tag `</name>`.
fn is_end(ev: &XmlEvent, name: &str) -> (r: bool)
    ensures
        r == is_end_of(*ev, name@),
{
    crate::xml::ends(ev, name)
}

proof fn lemma_concat_push(s: Seq<Seq<char>>, t: Seq<char>)
    ensures
        concat_texts(s.push(t)) == concat_texts(s) + t,
{
    assert(s.push(t).drop_last() =~= s);
}

fn clone_dependency_state(s: &DependencyState) -> (r: DependencyState)
    ensures
        dependency_state_view(r) == dependency_state_view(*s),
{
    match s {
        DependencyState::Dependencies => DependencyState::Dependencies,
        DependencyState::Dependency => DependencyState::Dependency,
        DependencyState::ReadArtifactId => DependencyState::ReadArtifactId,
        DependencyState::ReadGroupId => DependencyState::ReadGroupId,
        DependencyState::ReadVersion => DependencyState::ReadVersion,
        DependencyState::ReadScope => DependencyState::ReadScope,
        DependencyState::ReadOptional => DependencyState::ReadOptional,
        DependencyState::Exclusions(e) => DependencyState::Exclusions(
            match e {
                ExclusionsState::Exclusions => ExclusionsState::Exclusions,
                ExclusionsState::Exclusion(x) => ExclusionsState::Exclusion(x.clone()),
                ExclusionsState::ReadArtifactId(x) => ExclusionsState::ReadArtifactId(x.clone()),
                ExclusionsState::ReadGroupId(x) => ExclusionsState::ReadGroupId(x.clone()),
            },
        ),
    }
}

impl Parser {
    /// A parser that reads into `project`.
    pub fn new(project: Project) -> (r: Self)
        ensures
            r@ == (PomParserView {
                state: PomStateView::Project,
                project: project@,
                dependency: None,
                property_tag: Seq::empty(),
                property_value: Seq::empty(),
            }),
            pom_wf(r@),
    {
        let r = Parser {
            state: ParserState::Project,
            project,
            current_dependency: None,
            current_property_tag: String::new(),
            current_property_value: Vec::new(),
        };
        assert(r@.property_value =~= Seq::<Seq<char>>::empty());
        r
    }

    /// The project read so far.
    pub fn project(&self) -> (r: &Project)
        ensures
            r@ == self@.project,
    {
        &self.project
    }

    /// The project read, taking the parser apart.
    pub fn into_project(self) -> (r: Project)
        ensures
            r@ == self@.project,
    {
        self.project
    }

    fn parse_exclusions(&mut self, event: XmlEvent, state: ExclusionsState) -> (r: Result<ExclusionsState, PomTextError>)
        ensures
            (final(self)@, match r {
                Ok(x) => Ok(exclusions_state_view(x)),
                Err(e) => Err(e),
            }) == exclusions_step(old(self)@, exclusions_state_view(state), event),
    {
        match state {
            ExclusionsState::Exclusions => {
                if is_start(&event, "exclusion") {
                    Ok(ExclusionsState::Exclusion(Exclusion::default()))
                } else {
                    Ok(ExclusionsState::Exclusions)
                }
            },
            ExclusionsState::Exclusion(exclusion) => {
                if is_end(&event, "exclusion") {
                    match self.current_dependency.take() {
                        Some(mut dependency) => {
                            dependency.add_exclusion(exclusion);
                            self.current_dependency = Some(dependency);
                        },
                        None => {},
                    }
                    Ok(ExclusionsState::Exclusions)
                } else if is_start(&event, "artifactId") {
                    Ok(ExclusionsState::ReadArtifactId(exclusion))
                } else if is_start(&event, "groupId") {
                    Ok(ExclusionsState::ReadGroupId(exclusion))
                } else {
                    Ok(ExclusionsState::Exclusion(exclusion))
                }
            },
            ExclusionsState::ReadArtifactId(mut exclusion) => {
                if is_end(&event, "artifactId") {
                    return Ok(ExclusionsState::Exclusion(exclusion));
                }
                match event {
                    XmlEvent::Text(None) => Err(PomTextError),
                    XmlEvent::Text(Some(t)) => {
                        exclusion.artifact_id = t;
                        Ok(ExclusionsState::ReadArtifactId(exclusion))
                    },
                    _ => Ok(ExclusionsState::ReadArtifactId(exclusion)),
                }
            },
            ExclusionsState::ReadGroupId(mut exclusion) => {
                if is_end(&event, "groupId") {
                    return Ok(ExclusionsState::Exclusion(exclusion));
                }
                match event {
                    XmlEvent::Text(None) => Err(PomTextError),
                    XmlEvent::Text(Some(t)) => {
                        exclusion.group_id = t;
                        Ok(ExclusionsState::ReadGroupId(exclusion))
                    },
                    _ => Ok(ExclusionsState::ReadGroupId(exclusion)),
                }
            },
        }
    }

    /// Puts a text into the dependency being read, as the field `state`
    /// reads.
    fn set_dep_text(&mut self, state: &DependencyState, t: String)
        requires
            old(self)@.dependency is Some,
            !(dependency_state_view(*state) is Dependencies),
            !(dependency_state_view(*state) is Dependency),
            !(dependency_state_view(*state) is Exclusions),
        ensures
            final(self)@ == (PomParserView {
                dependency: Some(dep_with_text(old(self)@.dependency.unwrap(), dependency_state_view(*state), t@)),
                ..old(self)@
            }),
    {
        let mut d = self.current_dependency.take().unwrap();
        proof {
            lemma_project_view(d);
        }
        match state {
            DependencyState::ReadArtifactId => {
                d.artifact_id = t;
            },
            DependencyState::ReadGroupId => {
                d.group_id = t;
            },
            DependencyState::ReadVersion => {
                d.selected_version = Some(t);
            },
            DependencyState::ReadScope => {
                d.scope = Scope::from_str(t.as_str());
            },
            _ => {
                let v = chars_of(t.as_str());
                assert(v@.subrange(0, v@.len() as int) == v@);
                let (lo, hi) = trim_range(&v, 0, v.len());
                let tt = string_from(&v, lo, hi);
                if str_eq(tt.as_str(), "true") {
                    d.optional = true;
                }
            },
        }
        proof {
            lemma_project_view(d);
        }
        self.current_dependency = Some(d);
    }

    fn parse_deps(&mut self, event: XmlEvent, state: DependencyState, managed: bool) -> (r: Result<DependencyState, PomTextError>)
        ensures
            (final(self)@, match r {
                Ok(x) => Ok(dependency_state_view(x)),
                Err(e) => Err(e),
            }) == deps_step(old(self)@, dependency_state_view(state), event, managed),
    {
        match state {
            DependencyState::Dependencies => {
                if is_start(&event, "dependency") {
                    self.current_dependency = Some(Project::default());
                    Ok(DependencyState::Dependency)
                } else {
                    Ok(DependencyState::Dependencies)
                }
            },
            DependencyState::Dependency => {
                if is_start(&event, "artifactId") {
                    Ok(DependencyState::ReadArtifactId)
                } else if is_start(&event, "groupId") {
                    Ok(DependencyState::ReadGroupId)
                } else if is_start(&event, "version") {
                    Ok(DependencyState::ReadVersion)
                } else if !managed && is_start(&event, "exclusions") {
                    Ok(DependencyState::Exclusions(ExclusionsState::Exclusions))
                } else if is_start(&event, "scope") {
                    Ok(DependencyState::ReadScope)
                } else if managed && is_start(&event, "exclusions") {
                    Ok(DependencyState::Exclusions(ExclusionsState::Exclusions))
                } else if !managed && is_start(&event, "optional") {
                    Ok(DependencyState::ReadOptional)
                } else if is_end(&event, "dependency") {
                    if let Some(dep) = self.current_dependency.take() {
                        if managed {
                            self.project.add_to_dependency_management(dep);
                        } else {
                            self.project.add_dependency(dep);
                        }
                    }
                    Ok(DependencyState::Dependencies)
                } else {
                    Ok(DependencyState::Dependency)
                }
            },
            DependencyState::Exclusions(es) => {
                if is_end(&event, "exclusions") {
                    return Ok(DependencyState::Dependency);
                }
                let e = self.parse_exclusions(event, es)?;
                Ok(DependencyState::Exclusions(e))
            },
            _ => {
                let name = match &state {
                    DependencyState::ReadArtifactId => "artifactId",
                    DependencyState::ReadGroupId => "groupId",
                    DependencyState::ReadVersion => "version",
                    DependencyState::ReadScope => "scope",
                    _ => "optional",
                };
                assert(name@ == dep_element(dependency_state_view(state)));
                if is_end(&event, name) {
                    return Ok(DependencyState::Dependency);
                }
                if self.current_dependency.is_none() {
                    return Ok(state);
                }
                match event {
                    XmlEvent::Text(None) => Err(PomTextError),
                    XmlEvent::Text(Some(t)) => {
                        self.set_dep_text(&state, t);
                        Ok(state)
                    },
                    _ => Ok(state),
                }
            },
        }
    }

    fn parse_props(&mut self, event: XmlEvent, state: PropertiesState) -> (r: Result<PropertiesState, PomTextError>)
        ensures
            (final(self)@, r) == props_step(old(self)@, state, event),
    {
        match state {
            PropertiesState::Properties => match event {
                XmlEvent::End(n) => {
                    if str_eq(n.as_str(), "properties") {
                        Ok(PropertiesState::Properties)
                    } else {
                        self.current_property_tag = n;
                        Ok(PropertiesState::ReadEntry)
                    }
                },
                XmlEvent::Start(t) => {
                    self.current_property_tag = t.name;
                    Ok(PropertiesState::ReadEntry)
                },
                _ => Ok(PropertiesState::Properties),
            },
            PropertiesState::ReadEntry => {
                if is_end(&event, self.current_property_tag.as_str()) {
                    let mut value = String::new();
                    let mut i: usize = 0;
                    while i < self.current_property_value.len()
                        invariant
                            i <= self.current_property_value.len(),
                            value@ == concat_texts(self.current_property_value@.map_values(|t: String| t@).take(i as int)),
                        decreases self.current_property_value.len() - i,
                    {
                        proof {
                            let vs = self.current_property_value@.map_values(|t: String| t@);
                            assert(vs.take(i + 1) =~= vs.take(i as int).push(vs[i as int]));
                            lemma_concat_push(vs.take(i as int), vs[i as int]);
                        }
                        append_str(&mut value, self.current_property_value[i].as_str());
                        i += 1;
                    }
                    proof {
                        let vs = self.current_property_value@.map_values(|t: String| t@);
                        assert(vs.take(vs.len() as int) == vs);
                        lemma_project_view(self.project);
                    }
                    let tag = self.current_property_tag.clone();
                    insert_key(&mut self.project.properties, tag, value);
                    self.current_property_value = Vec::new();
                    proof {
                        lemma_project_view(self.project);
                        assert(self@.property_value =~= Seq::<Seq<char>>::empty());
                    }
                    return Ok(PropertiesState::Properties);
                }
                match event {
                    XmlEvent::Text(None) => Err(PomTextError),
                    XmlEvent::Text(Some(t)) => {
                        self.current_property_value.push(t);
                        assert(self@.property_value =~= old(self)@.property_value.push(t@));
                        Ok(PropertiesState::ReadEntry)
                    },
                    _ => Ok(PropertiesState::ReadEntry),
                }
            },
        }
    }

    fn parse_parent(&mut self, event: XmlEvent, state: ParentState) -> (r: Result<ParentState, PomTextError>)
        ensures
            (final(self)@, r) == parent_step(old(self)@, state, event),
    {
        match state {
            ParentState::Parent => {
                if is_start(&event, "artifactId") {
                    Ok(ParentState::ReadArtifactId)
                } else if is_start(&event, "groupId") {
                    Ok(ParentState::ReadGroupId)
                } else if is_start(&event, "version") {
                    Ok(ParentState::ReadVersion)
                } else {
                    Ok(ParentState::Parent)
                }
            },
            _ => {
                let name = match state {
                    ParentState::ReadArtifactId => "artifactId",
                    ParentState::ReadGroupId => "groupId",
                    _ => "version",
                };
                let next = if state == ParentState::ReadArtifactId {
                    ParentState::Parent
                } else {
                    state
                };
                if is_end(&event, name) {
                    return Ok(ParentState::Parent);
                }
                if self.project.parent.is_none() {
                    return Ok(next);
                }
                match event {
                    XmlEvent::Text(None) => Err(PomTextError),
                    XmlEvent::Text(Some(t)) => {
                        proof {
                            lemma_project_view(self.project);
                        }
                        let mut par = self.project.parent.take().unwrap();
                        match state {
                            ParentState::ReadArtifactId => {
                                par.artifact_id = t;
                            },
                            ParentState::ReadGroupId => {
                                par.group_id = t;
                            },
                            _ => {
                                par.version = t;
                            },
                        }
                        self.project.parent = Some(par);
                        proof {
                            lemma_project_view(self.project);
                        }
                        Ok(next)
                    },
                    _ => Ok(next),
                }
            },
        }
    }

    /// Whether processing `event` would overflow the depth counter.
    pub fn would_overflow(&self, event: &XmlEvent) -> (r: bool)
        ensures
            r == pom_step_overflows(self@, *event),
    {
        match self.state {
            ParserState::Other(l) => l == usize::MAX && matches!(event, XmlEvent::Start(_)),
            _ => false,
        }
    }

    /// Processes one event of the document.
    pub fn process(&mut self, event: XmlEvent) -> (r: Result<(), PomTextError>)
        requires
            pom_wf(old(self)@),
            !pom_step_overflows(old(self)@, event),
        ensures
            (final(self)@, r) == pom_step(old(self)@, event),
            pom_wf(final(self)@),
    {
        let mut state = ParserState::Project;
        std::mem::swap(&mut state, &mut self.state);
        assert(self@ == PomParserView { state: PomStateView::Project, ..old(self)@ });
        let r: Result<(), PomTextError> = match state {
            ParserState::Project => {
                match &event {
                    XmlEvent::Start(t) => {
                        let n = t.name.as_str();
                        if str_eq(n, "parent") {
                            proof {
                                lemma_project_view(self.project);
                            }
                            self.project.parent = Some(ParentPom {
                                group_id: String::new(),
                                artifact_id: String::new(),
                                version: String::new(),
                                relative_path: None,
                            });
                            proof {
                                lemma_project_view(self.project);
                            }
                            self.state = ParserState::Parent(ParentState::Parent);
                        } else if str_eq(n, "project") {
                            self.state = ParserState::Project;
                        } else if str_eq(n, "dependencies") {
                            self.state = ParserState::Dependencies(DependencyState::Dependencies);
                        } else if str_eq(n, "dependencyManagement") {
                            self.state = ParserState::DependencyManagement(DependencyState::Dependencies);
                        } else if str_eq(n, "artifactId") {
                            self.state = ParserState::ReadArtifactId;
                        } else if str_eq(n, "groupId") {
                            self.state = ParserState::ReadGroupId;
                        } else if str_eq(n, "version") {
                            self.state = ParserState::ReadVersion;
                        } else if str_eq(n, "packaging") {
                            self.state = ParserState::ReadPackaging;
                        } else if str_eq(n, "properties") {
                            self.state = ParserState::Properties(PropertiesState::Properties);
                        } else {
                            self.state = ParserState::Other(1);
                        }
                    },
                    _ => {},
                }
                Ok(())
            },
            ParserState::Other(level) => {
                self.state = match &event {
                    XmlEvent::Start(_) => ParserState::Other(level + 1),
                    XmlEvent::End(_) => if level == 1 {
                        ParserState::Project
                    } else {
                        ParserState::Other(level - 1)
                    },
                    _ => ParserState::Other(level),
                };
                Ok(())
            },
            ParserState::ReadArtifactId | ParserState::ReadGroupId | ParserState::ReadVersion
            | ParserState::ReadPackaging => {
                let name = match &state {
                    ParserState::ReadArtifactId => "artifactId",
                    ParserState::ReadGroupId => "groupId",
                    ParserState::ReadVersion => "version",
                    _ => "packaging",
                };
                if is_end(&event, name) {
                    self.state = ParserState::Project;
                    Ok(())
                } else {
                    match event {
                        XmlEvent::Text(None) => {
                            self.state = state;
                            Err(PomTextError)
                        },
                        XmlEvent::Text(Some(t)) => {
                            proof {
                                lemma_project_view(self.project);
                            }
                            match &state {
                                ParserState::ReadArtifactId => {
                                    self.project.artifact_id = t;
                                },
                                ParserState::ReadGroupId => {
                                    self.project.group_id = t;
                                },
                                ParserState::ReadVersion => {
                                    self.project.selected_version = Some(t);
                                },
                                _ => {
                                    self.project.packaging = t;
                                },
                            }
                            proof {
                                lemma_project_view(self.project);
                            }
                            self.state = state;
                            Ok(())
                        },
                        _ => {
                            self.state = state;
                            Ok(())
                        },
                    }
                }
            },
            ParserState::Dependencies(ds) => {
                if is_end(&event, "dependencies") {
                    Ok(())
                } else {
                    let saved = clone_dependency_state(&ds);
                    match self.parse_deps(event, ds, false) {
                        Ok(d) => {
                            self.state = ParserState::Dependencies(d);
                            Ok(())
                        },
                        Err(e) => {
                            self.state = ParserState::Dependencies(saved);
                            Err(e)
                        },
                    }
                }
            },
            ParserState::DependencyManagement(ds) => {
                if is_end(&event, "dependencyManagement") {
                    Ok(())
                } else {
                    let saved = clone_dependency_state(&ds);
                    match self.parse_deps(event, ds, true) {
                        Ok(d) => {
                            self.state = ParserState::DependencyManagement(d);
                            Ok(())
                        },
                        Err(e) => {
                            self.state = ParserState::DependencyManagement(saved);
                            Err(e)
                        },
                    }
                }
            },
            ParserState::Properties(ps) => {
                if is_end(&event, "properties") {
                    Ok(())
                } else {
                    match self.parse_props(event, ps) {
                        Ok(d) => {
                            self.state = ParserState::Properties(d);
                            Ok(())
                        },
                        Err(e) => {
                            self.state = ParserState::Properties(ps);
                            Err(e)
                        },
                    }
                }
            },
            ParserState::Parent(ps) => {
                if is_end(&event, "parent") {
                    Ok(())
                } else {
                    match self.parse_parent(event, ps) {
                        Ok(d) => {
                            self.state = ParserState::Parent(d);
                            Ok(())
                        },
                        Err(e) => {
                            self.state = ParserState::Parent(ps);
                            Err(e)
                        },
                    }
                }
            },
        };
        r
    }
}


/// Two projects agree on everything a placeholder can read.
pub open spec fn same_lookup(p: ProjectView, q: ProjectView) -> bool {
    &&& p.properties == q.properties
    &&& p.version == q.version
    &&& p.artifact_id == q.artifact_id
    &&& p.group_id == q.group_id
    &&& p.scope == q.scope
    &&& p.packaging == q.packaging
}

proof fn lemma_subst_same(p: ProjectView, q: ProjectView, data: Seq<char>, env: Seq<(Seq<char>, Seq<char>)>, n: int)
    requires
        same_lookup(p, q),
    ensures
        subst_scan(p, data, env, n) == subst_scan(q, data, env, n),
    decreases n,
{
    if n > 0 {
        lemma_subst_same(p, q, data, env, n - 1);
        let acc = subst_scan(p, data, env, n - 1);
        if acc.0 == SubState::PlaceholderBody && data[n - 1] == '}' {
            let key = trim(data.subrange(acc.1 + 1, n - 1));
            assert(property_of(p, key, env) == property_of(q, key, env));
        }
    }
}

/// A managed dependency with placeholders substituted: its artifact and
/// group, and its version, which becomes its requirement too.
pub open spec fn subst_managed(p: ProjectView, d: ProjectView, env: Seq<(Seq<char>, Seq<char>)>) -> ProjectView {
    let a = substituted(p, d.artifact_id, env);
    let g = substituted(p, d.group_id, env);
    match d.selected_version {
        Some(v) => ProjectView {
            artifact_id: a,
            group_id: g,
            version: spec_parse_requirement(substituted(p, v, env)),
            selected_version: Some(substituted(p, v, env)),
            ..d
        },
        None => ProjectView { artifact_id: a, group_id: g, ..d },
    }
}

/// A dependency with placeholders substituted: its artifact and group, and
/// its requirement from its version (which itself is kept as it was).
pub open spec fn subst_dep(p: ProjectView, d: ProjectView, env: Seq<(Seq<char>, Seq<char>)>) -> ProjectView {
    ProjectView {
        artifact_id: substituted(p, d.artifact_id, env),
        group_id: substituted(p, d.group_id, env),
        version: match d.selected_version {
            Some(v) => spec_parse_requirement(substituted(p, v, env)),
            None => d.version,
        },
        ..d
    }
}

/// A project after substituting placeholders: when it has properties, its
/// group, then its artifact, then its version; then those of its managed
/// dependencies and of its dependencies.
pub open spec fn substitute_vars(p: ProjectView, env: Seq<(Seq<char>, Seq<char>)>) -> ProjectView {
    let p1 = if p.properties.len() > 0 {
        let pg = ProjectView { group_id: substituted(p, p.group_id, env), ..p };
        let pa = ProjectView { artifact_id: substituted(pg, p.artifact_id, env), ..pg };
        ProjectView {
            selected_version: match p.selected_version {
                Some(v) => Some(substituted(pa, v, env)),
                None => None,
            },
            ..pa
        }
    } else {
        p
    };
    ProjectView {
        dependency_management: p1.dependency_management.map_values(
            |e: (Seq<char>, ProjectView)| (e.0, subst_managed(p1, e.1, env)),
        ),
        dependencies: p1.dependencies.map_values(|d: ProjectView| subst_dep(p1, d, env)),
        ..p1
    }
}

/// Substitutes the `${name}` placeholders of a parsed project (see
/// `substitute_vars`); `env` holds the environment variables by name.
pub fn substitute_properties_vars(project: &mut Project, env: &Vec<(String, String)>)
    ensures
        final(project)@ == substitute_vars(old(project)@, pairs_view(env@)),
{
    let ghost e = pairs_view(env@);
    proof {
        lemma_project_view(*project);
    }
    if project.properties.len() > 0 {
        let g = project.substitute_string(project.group_id.as_str(), env);
        project.group_id = g;
        proof {
            lemma_project_view(*project);
        }
        let a = project.substitute_string(project.artifact_id.as_str(), env);
        project.artifact_id = a;
        proof {
            lemma_project_view(*project);
        }
        let nv = match &project.selected_version {
            Some(v) => Some(project.substitute_string(v.as_str(), env)),
            None => None,
        };
        if nv.is_some() {
            project.selected_version = nv;
        }
        proof {
            lemma_project_view(*project);
        }
    }
    let ghost p1 = project@;
    let mut dm: Vec<(String, Project)> = Vec::new();
    std::mem::swap(&mut dm, &mut project.dependency_management);
    proof {
        lemma_project_view(*project);
        assert(project@.dependency_management =~= Seq::<(Seq<char>, ProjectView)>::empty());
        assert(project@ == (ProjectView { dependency_management: Seq::empty(), ..p1 }));
        assert(same_lookup(project@, p1));
    }
    let ghost dm0 = pairs_view(dm@);
    let mut out: Vec<(String, Project)> = Vec::new();
    let ghost n = dm.len();
    while dm.len() > 0
        invariant
            e == pairs_view(env@),
            dm0 == p1.dependency_management,
            out@.len() + dm@.len() == n,
            n == dm0.len(),
            pairs_view(dm@) == dm0.skip(out@.len() as int),
            same_lookup(project@, p1),
            project@ == (ProjectView { dependency_management: Seq::empty(), ..p1 }),
            forall|j: int| 0 <= j < out@.len() ==> #[trigger] pairs_view(out@)[j] == (dm0[j].0, subst_managed(p1, dm0[j].1, e)),
        decreases dm.len(),
    {
        let ghost k = out@.len() as int;
        proof {
            assert(pairs_view(dm@)[0] == dm0[k]);
        }
        let ghost before = dm@;
        let (id, mut dep) = dm.remove(0);
        proof {
            assert forall|j: int| 0 <= j < dm@.len() implies #[trigger] pairs_view(dm@)[j] == dm0.skip(k + 1)[j] by {
                assert(dm@[j] == before[j + 1]);
                assert(pairs_view(before)[j + 1] == dm0.skip(k)[j + 1]);
            }
            assert(pairs_view(dm@) =~= dm0.skip(k + 1));
            lemma_project_view(dep);
            lemma_subst_same(project@, p1, dep@.artifact_id, e, dep@.artifact_id.len() as int);
            lemma_subst_same(project@, p1, dep@.group_id, e, dep@.group_id.len() as int);
            if let Some(v) = dep@.selected_version {
                lemma_subst_same(project@, p1, v, e, v.len() as int);
            }
        }
        let ghost d0 = dep@;
        let artifact_id = project.substitute_string(dep.artifact_id.as_str(), env);
        let group_id = project.substitute_string(dep.group_id.as_str(), env);
        let version = match &dep.selected_version {
            Some(v) => Some(project.substitute_string(v.as_str(), env)),
            None => None,
        };
        dep.artifact_id = artifact_id;
        dep.group_id = group_id;
        if let Some(v) = version {
            dep.version = VersionRequirement::from_text(v.as_str());
            dep.selected_version = Some(v);
        }
        proof {
            lemma_project_view(dep);
            assert(dep@ == subst_managed(p1, d0, e));
            assert(before[0].1@ == d0);
            assert(d0 == dm0[k].1);
        }
        let ghost out_before = out@;
        out.push((id, dep));
        proof {
            assert forall|j: int| 0 <= j < out@.len() implies #[trigger] pairs_view(out@)[j] == (dm0[j].0, subst_managed(p1, dm0[j].1, e)) by {
                if j < k {
                    assert(pairs_view(out@)[j] == pairs_view(out_before)[j]);
                }
            }
        }
    }
    project.dependency_management = out;
    proof {
        lemma_project_view(*project);
        assert(project@.dependency_management =~= p1.dependency_management.map_values(
            |x: (Seq<char>, ProjectView)| (x.0, subst_managed(p1, x.1, e)),
        ));
    }
    let ghost p2 = project@;
    let mut deps: Vec<Project> = Vec::new();
    std::mem::swap(&mut deps, &mut project.dependencies);
    proof {
        lemma_project_view(*project);
        assert(project@.dependencies =~= Seq::<ProjectView>::empty());
        assert(project@ == (ProjectView { dependencies: Seq::empty(), ..p2 }));
        assert(same_lookup(project@, p1));
    }
    let ghost ds0 = projects_view(deps@);
    let mut done: Vec<Project> = Vec::new();
    let ghost m = deps.len();
    while deps.len() > 0
        invariant
            e == pairs_view(env@),
            ds0 == p1.dependencies,
            done@.len() + deps@.len() == m,
            m == ds0.len(),
            projects_view(deps@) == ds0.skip(done@.len() as int),
            same_lookup(project@, p1),
            project@ == (ProjectView { dependencies: Seq::empty(), ..p2 }),
            forall|j: int| 0 <= j < done@.len() ==> #[trigger] projects_view(done@)[j] == subst_dep(p1, ds0[j], e),
        decreases deps.len(),
    {
        let ghost k = done@.len() as int;
        proof {
            assert(projects_view(deps@)[0] == ds0[k]);
        }
        let ghost before = deps@;
        let mut dep = deps.remove(0);
        proof {
            assert forall|j: int| 0 <= j < deps@.len() implies #[trigger] projects_view(deps@)[j] == ds0.skip(k + 1)[j] by {
                assert(deps@[j] == before[j + 1]);
                assert(projects_view(before)[j + 1] == ds0.skip(k)[j + 1]);
            }
            assert(projects_view(deps@) =~= ds0.skip(k + 1));
            lemma_project_view(dep);
            lemma_subst_same(project@, p1, dep@.artifact_id, e, dep@.artifact_id.len() as int);
            lemma_subst_same(project@, p1, dep@.group_id, e, dep@.group_id.len() as int);
            if let Some(v) = dep@.selected_version {
                lemma_subst_same(project@, p1, v, e, v.len() as int);
            }
        }
        let ghost d0 = dep@;
        let artifact_id = project.substitute_string(dep.artifact_id.as_str(), env);
        let group_id = project.substitute_string(dep.group_id.as_str(), env);
        let version = match &dep.selected_version {
            Some(v) => Some(project.substitute_string(v.as_str(), env)),
            None => None,
        };
        dep.artifact_id = artifact_id;
        dep.group_id = group_id;
        if let Some(v) = version {
            dep.version = VersionRequirement::from_text(v.as_str());
        }
        proof {
            lemma_project_view(dep);
            assert(dep@ == subst_dep(p1, d0, e));
            assert(before[0]@ == d0);
            assert(d0 == ds0[k]);
        }
        let ghost done_before = done@;
        done.push(dep);
        proof {
            assert forall|j: int| 0 <= j < done@.len() implies #[trigger] projects_view(done@)[j] == subst_dep(p1, ds0[j], e) by {
                if j < k {
                    assert(projects_view(done@)[j] == projects_view(done_before)[j]);
                }
            }
        }
    }
    project.dependencies = done;
    proof {
        lemma_project_view(*project);
        assert(project@.dependencies =~= p1.dependencies.map_values(|x: ProjectView| subst_dep(p1, x, e)));
    }
}

proof fn lemma_pom_step_view(p: PomParserView, a: XmlEvent, b: XmlEvent)
    requires
        a@ == b@,
    ensures
        pom_step(p, a) == pom_step(p, b),
        pom_step_overflows(p, a) == pom_step_overflows(p, b),
{
    lemma_event_view(a, b);
    assert(ev_text(a) == ev_text(b));
    match p.state {
        PomStateView::Dependencies(st) => {
            match st {
                DependencyStateView::Exclusions(x) => assert(exclusions_step(p, x, a) == exclusions_step(p, x, b)),
                _ => {},
            }
            assert(deps_step(p, st, a, false) == deps_step(p, st, b, false));
        },
        PomStateView::DependencyManagement(st) => {
            match st {
                DependencyStateView::Exclusions(x) => assert(exclusions_step(p, x, a) == exclusions_step(p, x, b)),
                _ => {},
            }
            assert(deps_step(p, st, a, true) == deps_step(p, st, b, true));
        },
        PomStateView::Parent(st) => assert(parent_step(p, st, a) == parent_step(p, st, b)),
        PomStateView::Properties(st) => assert(props_step(p, st, a) == props_step(p, st, b)),
        _ => {},
    }
}

/// Why reading a pom's events stopped.
#[derive(Clone, Copy, Debug, PartialEq, Eq)]
pub enum PomRunError {
    /// Tags nest deeper than the depth counter can count.
    TooDeep,
    /// A text could not be read.
    Text(PomTextError),
}

/// The parser after the events `evs`, one after the other, or why it
/// stopped.
pub open spec fn pom_run(p: PomParserView, evs: Seq<XmlEvent>) -> Result<PomParserView, PomRunError>
    decreases evs.len(),
{
    if evs.len() == 0 {
        Ok(p)
    } else if pom_step_overflows(p, evs[0]) {
        Err(PomRunError::TooDeep)
    } else {
        match pom_step(p, evs[0]) {
            (np, Ok(())) => pom_run(np, evs.drop_first()),
            (_, Err(e)) => Err(PomRunError::Text(e)),
        }
    }
}

/// Two runs over events with the same models end alike.
pub proof fn lemma_pom_run_view(p: PomParserView, a: Seq<XmlEvent>, b: Seq<XmlEvent>)
    requires
        events_view(a) == events_view(b),
    ensures
        pom_run(p, a) == pom_run(p, b),
    decreases a.len(),
{
    assert(a.len() == events_view(a).len());
    assert(b.len() == events_view(b).len());
    if a.len() > 0 {
        assert(events_view(a)[0] == a[0]@);
        assert(events_view(b)[0] == b[0]@);
        lemma_pom_step_view(p, a[0], b[0]);
        assert(events_view(a.drop_first()) =~= events_view(a).drop_first());
        assert(events_view(b.drop_first()) =~= events_view(b).drop_first());
        match pom_step(p, a[0]) {
            (np, Ok(())) => lemma_pom_run_view(np, a.drop_first(), b.drop_first()),
            _ => {},
        }
    }
}

/// Why a pom document could not be read.
#[derive(Clone, Debug, PartialEq, Eq)]
pub enum PomReadError {
    /// The document is not well-formed XML.
    Xml(XmlReadError),
    /// Reading its events stopped.
    Pom(PomRunError),
}

/// What reading a pom whose events are `evs` into `project` gives, with the
/// `${...}` placeholders substituted under the environment `env`; an XML
/// error where the document could not be read as XML.
pub open spec fn spec_pom_text(
    evs: Result<Seq<XmlEventView>, ()>,
    project: ProjectView,
    env: Seq<(Seq<char>, Seq<char>)>,
) -> Result<ProjectView, Option<PomRunError>> {
    match evs {
        Err(()) => Err(None),
        Ok(e) => match pom_run(
            PomParserView {
                state: PomStateView::Project,
                project,
                dependency: None,
                property_tag: Seq::empty(),
                property_value: Seq::empty(),
            },
            some_events(e),
        ) {
            Ok(p) => Ok(substitute_vars(p.project, env)),
            Err(x) => Err(Some(x)),
        },
    }
}

/// Reads the events of a pom document into `project`, in document order,
/// and then substitutes its `${...}` placeholders (`env` holds the
/// environment variables by name).
pub fn parse_pom_events(events: Vec<XmlEvent>, project: Project, env: &Vec<(String, String)>) -> (r: Result<
    Project,
    PomRunError,
>)
    ensures
        match pom_run(
            PomParserView {
                state: PomStateView::Project,
                project: project@,
                dependency: None,
                property_tag: Seq::empty(),
                property_value: Seq::empty(),
            },
            events@,
        ) {
            Ok(p) => r matches Ok(x) && x@ == substitute_vars(p.project, pairs_view(env@)),
            Err(e) => r == Err::<Project, PomRunError>(e),
        },
{
    let ghost pv = project@;
    let mut parser = Parser::new(project);
    let ghost start = parser@;
    let ghost all = events@;
    let mut rest = events;
    let ghost mut i: int = 0;
    assert(all.skip(0) == all);
    while rest.len() > 0
        invariant
            0 <= i <= all.len(),
            rest@ == all.skip(i),
            pom_wf(parser@),
            pom_run(start, all) == pom_run(parser@, all.skip(i)),
            pv == project@,
            all == events@,
            start == (PomParserView {
                state: PomStateView::Project,
                project: pv,
                dependency: None,
                property_tag: Seq::empty(),
                property_value: Seq::empty(),
            }),
        decreases rest.len(),
    {
        proof {
            assert(all.skip(i)[0] == all[i]);
            assert(all.skip(i).drop_first() == all.skip(i + 1));
        }
        let ev = rest.remove(0);
        assert(ev == all.skip(i)[0]);
        if parser.would_overflow(&ev) {
            assert(pom_run(parser@, all.skip(i)) == Err::<PomParserView, PomRunError>(PomRunError::TooDeep));
            return Err(PomRunError::TooDeep);
        }
        let ghost before = parser@;
        match parser.process(ev) {
            Ok(()) => {},
            Err(e) => {
                assert(pom_step(before, all.skip(i)[0]).1 == Err::<(), PomTextError>(e));
                assert(pom_run(before, all.skip(i)) == Err::<PomParserView, PomRunError>(PomRunError::Text(e)));
                return Err(PomRunError::Text(e));
            },
        }
        proof {
            i = i + 1;
        }
    }
    let mut project = parser.into_project();
    substitute_properties_vars(&mut project, env);
    Ok(project)
}

/// Reads the text of a pom document into `project`: its events, read by
/// `quick_xml`, processed in document order, and then its `${...}`
/// placeholders substituted (`env` holds the environment variables by
/// name).
pub fn parse_pom_text(text: &str, project: Project, env: &Vec<(String, String)>) -> (r: Result<Project, PomReadError>)
    ensures
        match spec_pom_text(xml_events_of(text@), project@, pairs_view(env@)) {
            Ok(p) => r matches Ok(x) && x@ == p,
            Err(None) => r matches Err(PomReadError::Xml(_)),
            Err(Some(e)) => r == Err::<Project, PomReadError>(PomReadError::Pom(e)),
        },
{
    match xml_events(text) {
        Err(e) => Err(PomReadError::Xml(e)),
        Ok(events) => {
            proof {
                let evs = events_view(events@);
                assert(events_view(some_events(evs)) == evs);
                lemma_pom_run_view(
                    PomParserView {
                        state: PomStateView::Project,
                        project: project@,
                        dependency: None,
                        property_tag: Seq::empty(),
                        property_value: Seq::empty(),
                    },
                    some_events(evs),
                    events@,
                );
            }
            match parse_pom_events(events, project, env) {
                Ok(p) => Ok(p),
                Err(e) => Err(PomReadError::Pom(e)),
            }
        },
    }
}

proof fn lemma_pom_names_distinct()
    ensures
        "packaging"@ != "parent"@,
        "packaging"@ != "project"@,
        "packaging"@ != "dependencies"@,
        "packaging"@ != "dependencyManagement"@,
        "packaging"@ != "artifactId"@,
        "packaging"@ != "groupId"@,
        "packaging"@ != "version"@,
        "artifactId"@ != "parent"@,
        "artifactId"@ != "project"@,
        "artifactId"@ != "dependencies"@,
        "artifactId"@ != "dependencyManagement"@,
        "artifactId"@ != "groupId"@,
        "artifactId"@ != "version"@,
        "groupId"@ != "parent"@,
        "groupId"@ != "project"@,
        "groupId"@ != "dependencies"@,
        "groupId"@ != "dependencyManagement"@,
        "groupId"@ != "version"@,
        "version"@ != "parent"@,
        "version"@ != "project"@,
        "version"@ != "dependencies"@,
        "version"@ != "dependencyManagement"@,
{
    reveal_strlit("packaging");
    reveal_strlit("parent");
    reveal_strlit("project");
    reveal_strlit("dependencies");
    reveal_strlit("dependencyManagement");
    reveal_strlit("artifactId");
    reveal_strlit("groupId");
    reveal_strlit("version");
    assert("packaging"@.len() != "parent"@.len());
    assert("packaging"@.len() != "project"@.len());
    assert("packaging"@[0] != "dependencies"@[0]);
    assert("packaging"@[0] != "dependencyManagement"@[0]);
    assert("packaging"@[0] != "artifactId"@[0]);
    assert("packaging"@[0] != "groupId"@[0]);
    assert("packaging"@[0] != "version"@[0]);
    assert("artifactId"@[0] != "parent"@[0]);
    assert("artifactId"@[0] != "project"@[0]);
    assert("artifactId"@[0] != "dependencies"@[0]);
    assert("artifactId"@[0] != "dependencyManagement"@[0]);
    assert("artifactId"@[0] != "groupId"@[0]);
    assert("artifactId"@[0] != "version"@[0]);
    assert("groupId"@[0] != "parent"@[0]);
    assert("groupId"@[0] != "project"@[0]);
    assert("groupId"@[0] != "dependencies"@[0]);
    assert("groupId"@[0] != "dependencyManagement"@[0]);
    assert("groupId"@[0] != "version"@[0]);
    assert("version"@[0] != "parent"@[0]);
    assert("version"@[0] != "project"@[0]);
    assert("version"@[0] != "dependencies"@[0]);
    assert("version"@[0] != "dependencyManagement"@[0]);
}

/// A top-level `<packaging>` element whose text is `t` makes `t` the
/// project's packaging and leaves the rest of the project as it was.
pub proof fn lemma_pom_packaging(p: PomParserView, tag: XmlTag, t: String, end: String)
    requires
        p.state == PomStateView::Project,
        tag.name@ == "packaging"@,
        end@ == "packaging"@,
    ensures
        pom_run(p, seq![XmlEvent::Start(tag), XmlEvent::Text(Some(t)), XmlEvent::End(end)]) == Ok::<
            PomParserView,
            PomRunError,
        >(PomParserView { project: ProjectView { packaging: t@, ..p.project }, ..p }),
{
    lemma_pom_names_distinct();
    let evs = seq![XmlEvent::Start(tag), XmlEvent::Text(Some(t)), XmlEvent::End(end)];
    let p1 = pom_step(p, evs[0]).0;
    let p2 = pom_step(p1, evs.drop_first()[0]).0;
    assert(evs.drop_first() =~= seq![XmlEvent::Text(Some(t)), XmlEvent::End(end)]);
    assert(evs.drop_first().drop_first() =~= seq![XmlEvent::End(end)]);
    assert(evs.drop_first().drop_first().drop_first() =~= Seq::<XmlEvent>::empty());
    assert(evs[0] == XmlEvent::Start(tag));
    assert(evs.drop_first()[0] == XmlEvent::Text(Some(t)));
    assert(evs.drop_first().drop_first()[0] == XmlEvent::End(end));
    assert(pom_step(p, evs[0]).1 is Ok);
    assert(pom_step(p1, evs.drop_first()[0]).1 is Ok);
    assert(pom_step(p2, evs.drop_first().drop_first()[0]).1 is Ok);
    let p3 = pom_step(p2, evs.drop_first().drop_first()[0]).0;
    assert(pom_run(p3, evs.drop_first().drop_first().drop_first()) == Ok::<PomParserView, PomRunError>(p3));
    assert(pom_run(p2, evs.drop_first().drop_first()) == Ok::<PomParserView, PomRunError>(p3));
    assert(pom_run(p1, evs.drop_first()) == Ok::<PomParserView, PomRunError>(p3));
}

/// A top-level `<artifactId>` element whose text is `t` makes `t` the
/// project's artifact id and leaves the rest of the project as it was.
pub proof fn lemma_pom_artifact_id(p: PomParserView, tag: XmlTag, t: String, end: String)
    requires
        p.state == PomStateView::Project,
        tag.name@ == "artifactId"@,
        end@ == "artifactId"@,
    ensures
        pom_run(p, seq![XmlEvent::Start(tag), XmlEvent::Text(Some(t)), XmlEvent::End(end)]) == Ok::<
            PomParserView,
            PomRunError,
        >(PomParserView { project: ProjectView { artifact_id: t@, ..p.project }, ..p }),
{
    lemma_pom_names_distinct();
    let evs = seq![XmlEvent::Start(tag), XmlEvent::Text(Some(t)), XmlEvent::End(end)];
    let p1 = pom_step(p, evs[0]).0;
    let p2 = pom_step(p1, evs.drop_first()[0]).0;
    assert(evs.drop_first() =~= seq![XmlEvent::Text(Some(t)), XmlEvent::End(end)]);
    assert(evs.drop_first().drop_first() =~= seq![XmlEvent::End(end)]);
    assert(evs.drop_first().drop_first().drop_first() =~= Seq::<XmlEvent>::empty());
    assert(evs[0] == XmlEvent::Start(tag));
    assert(evs.drop_first()[0] == XmlEvent::Text(Some(t)));
    assert(evs.drop_first().drop_first()[0] == XmlEvent::End(end));
    assert(pom_step(p, evs[0]).1 is Ok);
    assert(pom_step(p1, evs.drop_first()[0]).1 is Ok);
    assert(pom_step(p2, evs.drop_first().drop_first()[0]).1 is Ok);
    let p3 = pom_step(p2, evs.drop_first().drop_first()[0]).0;
    assert(pom_run(p3, evs.drop_first().drop_first().drop_first()) == Ok::<PomParserView, PomRunError>(p3));
    assert(pom_run(p2, evs.drop_first().drop_first()) == Ok::<PomParserView, PomRunError>(p3));
    assert(pom_run(p1, evs.drop_first()) == Ok::<PomParserView, PomRunError>(p3));
}

/// A top-level `<groupId>` element whose text is `t` makes `t` the
/// project's group id and leaves the rest of the project as it was.
pub proof fn lemma_pom_group_id(p: PomParserView, tag: XmlTag, t: String, end: String)
    requires
        p.state == PomStateView::Project,
        tag.name@ == "groupId"@,
        end@ == "groupId"@,
    ensures
        pom_run(p, seq![XmlEvent::Start(tag), XmlEvent::Text(Some(t)), XmlEvent::End(end)]) == Ok::<
            PomParserView,
            PomRunError,
        >(PomParserView { project: ProjectView { group_id: t@, ..p.project }, ..p }),
{
    lemma_pom_names_distinct();
    let evs = seq![XmlEvent::Start(tag), XmlEvent::Text(Some(t)), XmlEvent::End(end)];
    let p1 = pom_step(p, evs[0]).0;
    let p2 = pom_step(p1, evs.drop_first()[0]).0;
    assert(evs.drop_first() =~= seq![XmlEvent::Text(Some(t)), XmlEvent::End(end)]);
    assert(evs.drop_first().drop_first() =~= seq![XmlEvent::End(end)]);
    assert(evs.drop_first().drop_first().drop_first() =~= Seq::<XmlEvent>::empty());
    assert(evs[0] == XmlEvent::Start(tag));
    assert(evs.drop_first()[0] == XmlEvent::Text(Some(t)));
    assert(evs.drop_first().drop_first()[0] == XmlEvent::End(end));
    assert(pom_step(p, evs[0]).1 is Ok);
    assert(pom_step(p1, evs.drop_first()[0]).1 is Ok);
    assert(pom_step(p2, evs.drop_first().drop_first()[0]).1 is Ok);
    let p3 = pom_step(p2, evs.drop_first().drop_first()[0]).0;
    assert(pom_run(p3, evs.drop_first().drop_first().drop_first()) == Ok::<PomParserView, PomRunError>(p3));
    assert(pom_run(p2, evs.drop_first().drop_first()) == Ok::<PomParserView, PomRunError>(p3));
    assert(pom_run(p1, evs.drop_first()) == Ok::<PomParserView, PomRunError>(p3));
}

/// A top-level `<version>` element whose text is `t` makes `t` the
/// project's selected version and leaves the rest of the project as it was.
pub proof fn lemma_pom_version(p: PomParserView, tag: XmlTag, t: String, end: String)
    requires
        p.state == PomStateView::Project,
        tag.name@ == "version"@,
        end@ == "version"@,
    ensures
        pom_run(p, seq![XmlEvent::Start(tag), XmlEvent::Text(Some(t)), XmlEvent::End(end)]) == Ok::<
            PomParserView,
            PomRunError,
        >(PomParserView { project: ProjectView { selected_version: Some(t@), ..p.project }, ..p }),
{
    lemma_pom_names_distinct();
    let evs = seq![XmlEvent::Start(tag), XmlEvent::Text(Some(t)), XmlEvent::End(end)];
    let p1 = pom_step(p, evs[0]).0;
    let p2 = pom_step(p1, evs.drop_first()[0]).0;
    assert(evs.drop_first() =~= seq![XmlEvent::Text(Some(t)), XmlEvent::End(end)]);
    assert(evs.drop_first().drop_first() =~= seq![XmlEvent::End(end)]);
    assert(evs.drop_first().drop_first().drop_first() =~= Seq::<XmlEvent>::empty());
    assert(evs[0] == XmlEvent::Start(tag));
    assert(evs.drop_first()[0] == XmlEvent::Text(Some(t)));
    assert(evs.drop_first().drop_first()[0] == XmlEvent::End(end));
    assert(pom_step(p, evs[0]).1 is Ok);
    assert(pom_step(p1, evs.drop_first()[0]).1 is Ok);
    assert(pom_step(p2, evs.drop_first().drop_first()[0]).1 is Ok);
    let p3 = pom_step(p2, evs.drop_first().drop_first()[0]).0;
    assert(pom_run(p3, evs.drop_first().drop_first().drop_first()) == Ok::<PomParserView, PomRunError>(p3));
    assert(pom_run(p2, evs.drop_first().drop_first()) == Ok::<PomParserView, PomRunError>(p3));
    assert(pom_run(p1, evs.drop_first()) == Ok::<PomParserView, PomRunError>(p3));
}


/// Running the parser over two runs of events one after the other is
/// running it over the first, then over the second from where it stopped.
pub proof fn lemma_pom_run_append(p: PomParserView, a: Seq<XmlEvent>, b: Seq<XmlEvent>)
    ensures
        pom_run(p, a) is Err ==> pom_run(p, a + b) == pom_run(p, a),
        pom_run(p, a) is Ok ==> pom_run(p, a + b) == pom_run(pom_run(p, a)->Ok_0, b),
    decreases a.len(),
{
    if a.len() > 0 {
        assert((a + b)[0] == a[0]);
        assert((a + b).drop_first() =~= a.drop_first() + b);
        match pom_step(p, a[0]) {
            (np, Ok(())) => lemma_pom_run_append(np, a.drop_first(), b),
            _ => {},
        }
    } else {
        assert(a + b =~= b);
    }
}

proof fn lemma_dependency_names_distinct()
    ensures
        "artifactId"@ != "groupId"@,
        "artifactId"@ != "version"@,
        "artifactId"@ != "scope"@,
        "artifactId"@ != "exclusions"@,
        "artifactId"@ != "dependencies"@,
        "artifactId"@ != "dependency"@,
        "groupId"@ != "version"@,
        "groupId"@ != "scope"@,
        "groupId"@ != "exclusions"@,
        "groupId"@ != "dependencies"@,
        "groupId"@ != "dependency"@,
        "version"@ != "scope"@,
        "version"@ != "exclusions"@,
        "version"@ != "dependencies"@,
        "version"@ != "dependency"@,
        "scope"@ != "exclusions"@,
        "scope"@ != "dependencies"@,
        "scope"@ != "dependency"@,
        "dependency"@ != "dependencies"@,
        "dependency"@ != "artifactId"@,
        "dependency"@ != "groupId"@,
        "dependency"@ != "version"@,
        "dependency"@ != "scope"@,
        "dependency"@ != "exclusions"@,
        "dependency"@ != "optional"@,
{
    reveal_strlit("artifactId");
    reveal_strlit("groupId");
    reveal_strlit("version");
    reveal_strlit("scope");
    reveal_strlit("exclusions");
    reveal_strlit("dependencies");
    reveal_strlit("dependency");
    reveal_strlit("optional");
    assert("artifactId"@[0] != "groupId"@[0]);
    assert("artifactId"@[0] != "version"@[0]);
    assert("artifactId"@[0] != "scope"@[0]);
    assert("artifactId"@[0] != "exclusions"@[0]);
    assert("artifactId"@[0] != "dependencies"@[0]);
    assert("artifactId"@[0] != "dependency"@[0]);
    assert("groupId"@[0] != "version"@[0]);
    assert("groupId"@[0] != "scope"@[0]);
    assert("groupId"@[0] != "exclusions"@[0]);
    assert("groupId"@[0] != "dependencies"@[0]);
    assert("groupId"@[0] != "dependency"@[0]);
    assert("version"@[0] != "scope"@[0]);
    assert("version"@[0] != "exclusions"@[0]);
    assert("version"@[0] != "dependencies"@[0]);
    assert("version"@[0] != "dependency"@[0]);
    assert("scope"@[0] != "exclusions"@[0]);
    assert("scope"@[0] != "dependencies"@[0]);
    assert("scope"@[0] != "dependency"@[0]);
    assert("dependency"@.len() != "dependencies"@.len());
    assert("dependency"@[0] != "exclusions"@[0]);
    assert("dependency"@[0] != "optional"@[0]);
}

/// Inside a `<dependency>` of `<dependencies>`, one of its `<groupId>`,
/// `<artifactId>`, `<version>` or `<scope>` elements with text `t` gives
/// that field of the dependency being read the value `t` stands for.
proof fn lemma_dependency_field(
    p: PomParserView,
    d: ProjectView,
    st: DependencyStateView,
    tag: XmlTag,
    t: String,
    end: String,
)
    requires
        p.state == PomStateView::Dependencies(DependencyStateView::Dependency),
        p.dependency == Some(d),
        st == DependencyStateView::ReadGroupId || st == DependencyStateView::ReadArtifactId
            || st == DependencyStateView::ReadVersion || st == DependencyStateView::ReadScope,
        tag.name@ == dep_element(st),
        end@ == dep_element(st),
    ensures
        pom_run(p, seq![XmlEvent::Start(tag), XmlEvent::Text(Some(t)), XmlEvent::End(end)]) == Ok::<
            PomParserView,
            PomRunError,
        >(PomParserView { dependency: Some(dep_with_text(d, st, t@)), ..p }),
{
    lemma_dependency_names_distinct();
    let evs = seq![XmlEvent::Start(tag), XmlEvent::Text(Some(t)), XmlEvent::End(end)];
    assert(evs[0] == XmlEvent::Start(tag));
    assert(evs.drop_first()[0] == XmlEvent::Text(Some(t)));
    assert(evs.drop_first().drop_first()[0] == XmlEvent::End(end));
    assert(evs.drop_first().drop_first().drop_first() =~= Seq::<XmlEvent>::empty());
    let p1 = pom_step(p, evs[0]).0;
    assert(pom_step(p, evs[0]).1 is Ok);
    assert(p1 == PomParserView { state: PomStateView::Dependencies(st), ..p });
    let p2 = pom_step(p1, evs.drop_first()[0]).0;
    assert(pom_step(p1, evs.drop_first()[0]).1 is Ok);
    let p3 = pom_step(p2, evs.drop_first().drop_first()[0]).0;
    assert(pom_step(p2, evs.drop_first().drop_first()[0]).1 is Ok);
    assert(p3 == PomParserView { dependency: Some(dep_with_text(d, st, t@)), ..p });
    assert(pom_run(p3, evs.drop_first().drop_first().drop_first()) == Ok::<PomParserView, PomRunError>(p3));
    assert(pom_run(p2, evs.drop_first().drop_first()) == Ok::<PomParserView, PomRunError>(p3));
    assert(pom_run(p1, evs.drop_first()) == Ok::<PomParserView, PomRunError>(p3));
}

/// Inside a `<dependency>` of `<dependencies>`, a `<scope>` element with
/// text `t` gives the dependency being read the scope that `t` names
/// (`test` the test scope, `compile` or nothing the compile scope, and so
/// on) and changes nothing else.
pub proof fn lemma_dependency_scope(p: PomParserView, d: ProjectView, tag: XmlTag, t: String, end: String)
    requires
        p.state == PomStateView::Dependencies(DependencyStateView::Dependency),
        p.dependency == Some(d),
        tag.name@ == "scope"@,
        end@ == "scope"@,
    ensures
        pom_run(p, seq![XmlEvent::Start(tag), XmlEvent::Text(Some(t)), XmlEvent::End(end)]) == Ok::<
            PomParserView,
            PomRunError,
        >(PomParserView { dependency: Some(ProjectView { scope: scope_from_text(t@), ..d }), ..p }),
        t@ == "test"@ ==> scope_from_text(t@) == ScopeView::Test,
        t@ == "compile"@ || t@.len() == 0 ==> scope_from_text(t@) == ScopeView::Compile,
        t@ == "provided"@ ==> scope_from_text(t@) == ScopeView::Provided,
        t@ == "runtime"@ ==> scope_from_text(t@) == ScopeView::Runtime,
        t@ == "system"@ ==> scope_from_text(t@) == ScopeView::System,
        t@ == "import"@ ==> scope_from_text(t@) == ScopeView::Import,
{
    reveal_strlit("test");
    reveal_strlit("compile");
    reveal_strlit("provided");
    reveal_strlit("runtime");
    reveal_strlit("system");
    reveal_strlit("import");
    assert("system"@[0] != "compile"@[0] && "system"@[0] != "test"@[0] && "system"@[0] != "provided"@[0]
        && "system"@[0] != "import"@[0]);
    assert("runtime"@[0] != "compile"@[0] && "runtime"@[0] != "test"@[0] && "runtime"@[0] != "provided"@[0]
        && "runtime"@[0] != "import"@[0] && "runtime"@[0] != "system"@[0]);
    lemma_dependency_field(p, d, DependencyStateView::ReadScope, tag, t, end);
}

/// A `<dependency>` element inside `<dependencies>` whose `<groupId>`,
/// `<artifactId>` and `<version>` hold `g`, `a` and `v` adds, at the end of
/// the project's dependencies, a dependency with that group, artifact and
/// version, of compile scope, not optional, with no exclusions.
pub proof fn lemma_pom_dependency(
    p: PomParserView,
    open_dep: XmlTag,
    gs: XmlTag,
    g: String,
    ge: String,
    a_s: XmlTag,
    a: String,
    ae: String,
    vs: XmlTag,
    v: String,
    ve: String,
    close_dep: String,
)
    requires
        p.state == PomStateView::Dependencies(DependencyStateView::Dependencies),
        open_dep.name@ == "dependency"@,
        close_dep@ == "dependency"@,
        gs.name@ == "groupId"@,
        ge@ == "groupId"@,
        a_s.name@ == "artifactId"@,
        ae@ == "artifactId"@,
        vs.name@ == "version"@,
        ve@ == "version"@,
    ensures
        pom_run(
            p,
            seq![XmlEvent::Start(open_dep)] + seq![XmlEvent::Start(gs), XmlEvent::Text(Some(g)), XmlEvent::End(ge)]
                + seq![XmlEvent::Start(a_s), XmlEvent::Text(Some(a)), XmlEvent::End(ae)]
                + seq![XmlEvent::Start(vs), XmlEvent::Text(Some(v)), XmlEvent::End(ve)]
                + seq![XmlEvent::End(close_dep)],
        ) == Ok::<PomParserView, PomRunError>(
            PomParserView {
                dependency: None,
                project: ProjectView {
                    dependencies: p.project.dependencies.push(
                        ProjectView { group_id: g@, artifact_id: a@, selected_version: Some(v@), ..default_project() },
                    ),
                    ..p.project
                },
                ..p
            },
        ),
        default_project().scope == ScopeView::Compile,
        !default_project().optional,
        default_project().excludes.len() == 0,
{
    lemma_dependency_names_distinct();
    let s0 = seq![XmlEvent::Start(open_dep)];
    let sg = seq![XmlEvent::Start(gs), XmlEvent::Text(Some(g)), XmlEvent::End(ge)];
    let sa = seq![XmlEvent::Start(a_s), XmlEvent::Text(Some(a)), XmlEvent::End(ae)];
    let sv = seq![XmlEvent::Start(vs), XmlEvent::Text(Some(v)), XmlEvent::End(ve)];
    let s4 = seq![XmlEvent::End(close_dep)];
    let d0 = default_project();
    // `<dependency>`
    let p1 = PomParserView {
        state: PomStateView::Dependencies(DependencyStateView::Dependency),
        dependency: Some(d0),
        ..p
    };
    assert(s0.drop_first() =~= Seq::<XmlEvent>::empty());
    assert(pom_step(p, s0[0]) == (p1, Ok::<(), PomTextError>(())));
    assert(pom_run(p1, s0.drop_first()) == Ok::<PomParserView, PomRunError>(p1));
    assert(pom_run(p, s0) == Ok::<PomParserView, PomRunError>(p1));
    // `<groupId>`
    lemma_dependency_field(p1, d0, DependencyStateView::ReadGroupId, gs, g, ge);
    let d1 = ProjectView { group_id: g@, ..d0 };
    let p2 = PomParserView { dependency: Some(d1), ..p1 };
    lemma_pom_run_append(p, s0, sg);
    // `<artifactId>`
    lemma_dependency_field(p2, d1, DependencyStateView::ReadArtifactId, a_s, a, ae);
    let d2 = ProjectView { artifact_id: a@, ..d1 };
    let p3 = PomParserView { dependency: Some(d2), ..p1 };
    lemma_pom_run_append(p, s0 + sg, sa);
    // `<version>`
    lemma_dependency_field(p3, d2, DependencyStateView::ReadVersion, vs, v, ve);
    let d3 = ProjectView { selected_version: Some(v@), ..d2 };
    let p4 = PomParserView { dependency: Some(d3), ..p1 };
    lemma_pom_run_append(p, s0 + sg + sa, sv);
    // `</dependency>`
    let p5 = PomParserView {
        state: p.state,
        dependency: None,
        project: ProjectView { dependencies: p.project.dependencies.push(d3), ..p.project },
        ..p
    };
    assert(s4.drop_first() =~= Seq::<XmlEvent>::empty());
    assert(pom_step(p4, s4[0]) == (p5, Ok::<(), PomTextError>(())));
    assert(pom_run(p5, s4.drop_first()) == Ok::<PomParserView, PomRunError>(p5));
    assert(pom_run(p4, s4) == Ok::<PomParserView, PomRunError>(p5));
    lemma_pom_run_append(p, s0 + sg + sa + sv, s4);
    assert(d3 == ProjectView { group_id: g@, artifact_id: a@, selected_version: Some(v@), ..default_project() });
}

} // verus!
