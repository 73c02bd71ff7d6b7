//! Resolvers: where the projects of a dependency tree are fetched from.
//! This module holds their errors and what the cache resolver makes of the
//! cached properties of a project.
use vstd::prelude::*;
use crate::cache::{properties_error_text, PropertiesError};
use crate::pom::{
    default_project, initial_selection, opt_text, projects_view, same_but_dependencies, Project, ProjectView,
};
use crate::resolve::{texts_view, ProjectDep, ProjectDepView};
use crate::strs::{append_str, splitn_char, splitn_text, str_to_string};
use crate::version::spec_parse_requirement;

verus! {

/// The kind of failure of a resolver.
#[derive(Debug, Clone, Copy, PartialEq, Eq)]
pub enum ResolverErrorKind {
    /// The resolver does not have the project.
    NotFound,
    Internal,
    ParseError,
    ResponseError,
    /// The project was found but no version of it meets the requirement.
    NoSelectedVersion,
}

/// A failure of a resolver: its message and its kind.
#[derive(Debug, Clone, PartialEq, Eq)]
pub struct ResolverError {
    message: String,
    kind: ResolverErrorKind,
    /// The message of the error that caused this one, where there was one
    source: Option<String>,
}

impl ResolverError {
    pub fn new(message: &str, kind: ResolverErrorKind, source: Option<String>) -> (r: Self)
        ensures
            r.message_view() == message@,
            r.kind_view() == kind,
            r.source_view() == opt_text(source),
    {
        ResolverError { message: str_to_string(message), kind, source }
    }

    pub closed spec fn message_view(&self) -> Seq<char> {
        self.message@
    }

    pub closed spec fn kind_view(&self) -> ResolverErrorKind {
        self.kind
    }

    pub closed spec fn source_view(&self) -> Option<Seq<char>> {
        opt_text(self.source)
    }

    /// The message of the error that caused this one.
    pub fn source(&self) -> (r: &Option<String>)
        ensures
            opt_text(*r) == self.source_view(),
    {
        &self.source
    }

    pub fn kind(&self) -> (r: ResolverErrorKind)
        ensures
            r == self.kind_view(),
    {
        self.kind
    }

    pub fn message(&self) -> (r: &String)
        ensures
            r@ == self.message_view(),
    {
        &self.message
    }

    /// The message, on a line of its own.
    pub fn to_string(&self) -> (r: String)
        ensures
            r@ == self.message_view() + "\n"@,
    {
        let mut s = self.message.clone();
        append_str(&mut s, "\n");
        s
    }
}

/// The resolver of the local cache of fetched projects.
#[derive(Debug, Default)]
pub struct CacheResolver {}

/// The project a cached dependency `group:artifact:version` stands for.
pub open spec fn cached_dependency(d: Seq<char>) -> ProjectView {
    let parts = splitn_char(d, 3, ':');
    ProjectView {
        group_id: parts[0],
        artifact_id: parts[1],
        version: spec_parse_requirement(parts[2]),
        selected_version: initial_selection(spec_parse_requirement(parts[2])),
        ..default_project()
    }
}

/// Whether every cached dependency names a group, an artifact and a version.
pub open spec fn dependencies_well_named(ds: Seq<Seq<char>>) -> bool {
    forall|i: int| 0 <= i < ds.len() ==> #[trigger] splitn_char(ds[i], 3, ':').len() == 3
}

/// The message and kind of the resolver error for a failed read of cached
/// properties.
pub open spec fn cache_failure(e: PropertiesError) -> (Seq<char>, ResolverErrorKind) {
    match e {
        PropertiesError::IOError(msg) => (msg@, ResolverErrorKind::NotFound),
        PropertiesError::ParseError => ("Failed to parse cache properties file"@, ResolverErrorKind::ParseError),
        PropertiesError::LabtHomeError => ("Failed to fetch from cache dir"@, ResolverErrorKind::Internal),
        PropertiesError::LabtVersionError => ("Failed to resolve from cache"@, ResolverErrorKind::NotFound),
    }
}

impl CacheResolver {
    pub fn new() -> (r: Self) {
        CacheResolver {  }
    }

    pub fn get_name(&self) -> (r: String)
        ensures
            r@ == "cache"@,
    {
        str_to_string("cache")
    }

    /// What the cache resolver makes of the cached properties of `project`,
    /// as read: the url the project was fetched from, with its packaging and
    /// dependencies taken over into `project`; or the error the failed read
    /// stands for, with `project` left as it was.
    pub fn fetch_cached(&self, project: &mut Project, read: Result<ProjectDep, PropertiesError>) -> (r: Result<String, ResolverError>)
        requires
            read matches Ok(d) ==> dependencies_well_named(d@.dependencies),
        ensures
            match read {
                Err(e) => r matches Err(x) && x.message_view() == cache_failure(e).0 && x.kind_view()
                    == cache_failure(e).1 && x.source_view() == Some(properties_error_text(e))
                    && final(project)@ == old(project)@,
                Ok(d) => r matches Ok(u) && u@ == d@.base_url && final(project)@.packaging == d@.packaging
                    && final(project)@.dependencies == old(project)@.dependencies + d@.dependencies.map_values(
                    |x: Seq<char>| cached_dependency(x),
                ) && same_but_dependencies(
                    final(project)@,
                    ProjectView { packaging: d@.packaging, ..old(project)@ },
                ),
            },
    {
        match read {
            Err(e) => {
                let source = Some(e.to_string());
                let err = match &e {
                    PropertiesError::IOError(msg) => ResolverError::new(msg.as_str(), ResolverErrorKind::NotFound, source),
                    PropertiesError::ParseError => ResolverError::new(
                        "Failed to parse cache properties file",
                        ResolverErrorKind::ParseError,
                        source,
                    ),
                    PropertiesError::LabtHomeError => ResolverError::new(
                        "Failed to fetch from cache dir",
                        ResolverErrorKind::Internal,
                        source,
                    ),
                    PropertiesError::LabtVersionError => ResolverError::new(
                        "Failed to resolve from cache",
                        ResolverErrorKind::NotFound,
                        source,
                    ),
                };
                Err(err)
            },
            Ok(project_dep) => {
                let mut deps: Vec<Project> = Vec::new();
                let mut i: usize = 0;
                while i < project_dep.dependencies.len()
                    invariant
                        i <= project_dep.dependencies.len(),
                        dependencies_well_named(project_dep@.dependencies),
                        projects_view(deps@) == project_dep@.dependencies.take(i as int).map_values(
                            |x: Seq<char>| cached_dependency(x),
                        ),
                    decreases project_dep.dependencies.len() - i,
                {
                    let split = splitn_text(project_dep.dependencies[i].as_str(), 3, ':');
                    proof {
                        assert(project_dep@.dependencies[i as int] == project_dep.dependencies@[i as int]@);
                        assert(splitn_char(project_dep@.dependencies[i as int], 3, ':').len() == 3);
                        assert(split@.map_values(|t: String| t@).len() == 3);
                    }
                    let p = Project::new(split[0].as_str(), split[1].as_str(), split[2].as_str());
                    let ghost before = deps@;
                    deps.push(p);
                    proof {
                        assert(split@.map_values(|t: String| t@)[0] == split@[0]@);
                        assert(split@.map_values(|t: String| t@)[1] == split@[1]@);
                        assert(split@.map_values(|t: String| t@)[2] == split@[2]@);
                        assert(projects_view(deps@) =~= projects_view(before).push(p@));
                        assert(project_dep@.dependencies.take(i + 1) =~= project_dep@.dependencies.take(
                            i as int,
                        ).push(project_dep@.dependencies[i as int]));
                        assert(project_dep@.dependencies.take(i + 1).map_values(
                            |x: Seq<char>| cached_dependency(x),
                        ) =~= project_dep@.dependencies.take(i as int).map_values(
                            |x: Seq<char>| cached_dependency(x),
                        ).push(cached_dependency(project_dep@.dependencies[i as int])));
                    }
                    i += 1;
                }
                proof {
                    assert(project_dep@.dependencies.take(project_dep.dependencies.len() as int)
                        == project_dep@.dependencies);
                }
                project.set_packaging(project_dep.packaging.clone());
                let ghost mid = project@;
                let target = project.get_dependencies_mut();
                let ghost start = target@;
                let ghost added = deps@;
                target.append(&mut deps);
                proof {
                    assert(projects_view(target@) =~= projects_view(start) + projects_view(added));
                }
                Ok(project_dep.base_url)
            },
        }
    }
}

} // verus!
