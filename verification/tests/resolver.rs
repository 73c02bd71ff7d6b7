//! The dependency walk driven over a repository of made-up poms and
//! `maven-metadata.xml` documents, read by the library's own readers.

use labt::constraint::Constraint;
use labt::maven_metadata::parse_maven_metadata_text;
use labt::pom::{parse_pom_text, Exclusion, Project};
use labt::resolve::ProjectDep;
use labt::version::VersionRange;
use labt::walk::{walk_step, WalkAction, WalkError, WalkEvent, WalkState};

struct MetadataEntry {
    latest: &'static str,
    release: &'static str,
    versions: Vec<&'static str>,
}

fn metadata_of(group_id: &str, artifact_id: &str) -> Option<MetadataEntry> {
    if group_id != "com.example" {
        return None;
    }
    let (latest, versions) = match artifact_id {
        "module-a" => ("1.5.0", vec!["1.0.0", "1.1.0", "1.2.0", "1.3.0", "1.4.0", "1.5.0"]),
        "module-b" => ("2.1.0", vec!["1.0.0", "1.1.0", "1.2.0", "1.3.0", "1.4.1", "1.5.0", "2.0.0", "2.1.0"]),
        "module-c" => ("3.0.0", vec!["1.0.0", "2.0.0", "2.1.0", "2.2.0", "3.0.0"]),
        "module-d" => ("1.2.0", vec!["1.0.0", "1.1.0", "1.2.0"]),
        "module-e" => (
            "4.0.0",
            vec!["1.0.0", "1.5.0", "1.6.0", "1.7.0", "2.0.0", "2.1.0", "2.2.0", "2.3.0", "2.4.0", "3.0.0", "4.0.0"],
        ),
        _ => return None,
    };
    Some(MetadataEntry { latest, release: latest, versions })
}

#[derive(Default, Debug, Clone)]
struct ParentEntry {
    artifact_id: String,
    group_id: String,
    version: String,
}

#[derive(Default, Debug, Clone)]
struct ProjectEntry {
    artifact_id: String,
    group_id: String,
    version: String,
    dependencies: Vec<ProjectEntry>,
    dependency_management: Vec<ProjectEntry>,
    exclusions: Vec<(&'static str, &'static str)>,
    optional: bool,
    parent: Option<ParentEntry>,
}

impl ProjectEntry {
    fn new(group_id: &str, artifact_id: &str, version: &str) -> Self {
        Self {
            group_id: group_id.to_string(),
            artifact_id: artifact_id.to_string(),
            version: version.to_string(),
            ..Default::default()
        }
    }
    fn get_id(&self) -> String {
        format!("{}:{}:{}", self.group_id, self.artifact_id, self.version)
    }
    fn add_dependency(mut self, dep: ProjectEntry) -> Self {
        self.dependencies.push(dep);
        self
    }
    fn add_dependency_management(mut self, dep: ProjectEntry) -> Self {
        self.dependency_management.push(dep);
        self
    }
    fn add_exclusion(mut self, group_id: &'static str, artifact_id: &'static str) -> Self {
        self.exclusions.push((group_id, artifact_id));
        self
    }
    fn set_parent(mut self, parent: ParentEntry) -> Self {
        self.parent = Some(parent);
        self
    }
    fn set_optional(mut self, value: bool) -> Self {
        self.optional = value;
        self
    }
}

/// The made-up repository: its projects and properties.
#[derive(Default)]
struct PomServer {
    repo: Vec<ProjectEntry>,
    properties: Vec<(String, String)>,
}

fn dependency_xml(body: &mut String, dep: &ProjectEntry) {
    body.push_str("    <dependency>\n");
    body.push_str(&format!("      <groupId>{}</groupId>\n", dep.group_id));
    body.push_str(&format!("      <artifactId>{}</artifactId>\n", dep.artifact_id));
    body.push_str(&format!("      <version>{}</version>\n", dep.version));
    body.push_str("      <scope>compile</scope>\n");
    if dep.optional {
        body.push_str("      <optional>true</optional>\n");
    }
    if !dep.exclusions.is_empty() {
        body.push_str("      <exclusions>\n");
        for (group_id, artifact_id) in &dep.exclusions {
            body.push_str("        <exclusion>\n");
            body.push_str(&format!("         <groupId>{}</groupId>\n", group_id));
            body.push_str(&format!("         <artifactId>{}</artifactId>\n", artifact_id));
            body.push_str("        </exclusion>\n");
        }
        body.push_str("      </exclusions>\n");
    }
    body.push_str("    </dependency>\n");
}

impl PomServer {
    fn new() -> Self {
        Self::default()
    }
    fn add_project(&mut self, project: ProjectEntry) {
        self.repo.retain(|p| p.get_id() != project.get_id());
        self.repo.push(project);
    }
    fn add_property(&mut self, key: &str, value: &str) {
        self.properties.push((key.to_string(), value.to_string()));
    }

    /// The pom of `group_id:artifact_id:version`, if the repository has it.
    fn create_pom(&self, group_id: &str, artifact_id: &str, version: &str) -> Option<String> {
        let id = ProjectEntry::new(group_id, artifact_id, version).get_id();
        let proj = match self.repo.iter().find(|p| p.get_id() == id) {
            Some(p) => p.clone(),
            None => match metadata_of(group_id, artifact_id) {
                Some(meta) if meta.versions.contains(&version) => ProjectEntry::new(group_id, artifact_id, version),
                _ => return None,
            },
        };
        let mut body = String::new();
        body.push_str("<?xml version=\"1.0\" encoding=\"UTF-8\"?>\n");
        body.push_str("<project xmlns=\"http://maven.apache.org/POM/4.0.0\">\n");
        body.push_str(" <modelVersion>4.0.0</modelVersion>\n");
        if let Some(parent) = &proj.parent {
            body.push_str("  <parent>\n");
            body.push_str(&format!("    <groupId>{}</groupId>\n", parent.group_id));
            body.push_str(&format!("    <artifactId>{}</artifactId>\n", parent.artifact_id));
            body.push_str(&format!("    <version>{}</version>\n", parent.version));
            body.push_str("  </parent>\n");
        }
        if !proj.dependency_management.is_empty() {
            body.push_str("  <dependencyManagement>\n    <dependencies>\n");
            for dep in &proj.dependency_management {
                dependency_xml(&mut body, dep);
            }
            body.push_str("    </dependencies>\n  </dependencyManagement>\n");
        }
        body.push_str(&format!(" <groupId>{}</groupId>\n", group_id));
        body.push_str(&format!(" <artifactId>{}</artifactId>\n", artifact_id));
        body.push_str(&format!(" <version>{}</version>\n", version));
        body.push_str(&format!(" <name>{}:{}</name>\n", group_id, artifact_id));
        if !self.properties.is_empty() {
            body.push_str("  <properties>\n");
            for (k, v) in &self.properties {
                body.push_str(&format!("<{0}>{1}</{0}>\n", k, v));
            }
            body.push_str("  </properties>\n");
        }
        body.push_str("  <dependencies>\n");
        for dep in &proj.dependencies {
            dependency_xml(&mut body, dep);
        }
        body.push_str("  </dependencies>\n</project>");
        Some(body)
    }

    fn create_metadata(&self, group_id: &str, artifact_id: &str) -> Option<String> {
        let meta = metadata_of(group_id, artifact_id)?;
        let mut body = String::new();
        body.push_str("<?xml version=\"1.0\" encoding=\"UTF-8\"?>\n<metadata modelVersion=\"1.1.0\">");
        body.push_str(&format!("\n<groupId>{}</groupId>\n", group_id));
        body.push_str(&format!("<artifactId>{}</artifactId>\n", artifact_id));
        body.push_str(&format!("<version>{}</version>\n", meta.latest));
        body.push_str("<versioning>\n");
        body.push_str(&format!("\t<latest>{}</latest>\n", meta.latest));
        body.push_str(&format!("\t<release>{}</release>\n", meta.release));
        body.push_str("\t\t<versions>\n");
        for v in &meta.versions {
            body.push_str(&format!("\t\t  <version>{}</version>\n", v));
        }
        body.push_str("\t\t</versions>\n\t</versioning>\n</metadata>");
        Some(body)
    }

    /// Fetches the pom of `project` and takes over what it declares.
    fn fetch(&self, project: &mut Project) -> Result<(String, bool), String> {
        let version = project.get_selected_version().clone().unwrap_or_default();
        let (g, a) = (project.get_group_id(), project.get_artifact_id());
        let text = self.create_pom(&g, &a, &version).ok_or_else(|| format!("{}:{} not found", g, a))?;
        let mut fresh = Project::new(&g, &a, &version);
        fresh.set_selected_version(Some(version.clone()));
        let parsed = parse_pom_text(&text, fresh, &Vec::new()).map_err(|e| format!("{:?}", e))?;
        project.set_packaging(parsed.get_packaging());
        project.parent = parsed.parent.clone();
        for (_, m) in parsed.get_dependency_management() {
            project.add_to_dependency_management(Project::new(
                &m.get_group_id(),
                &m.get_artifact_id(),
                &m.get_version().to_string(),
            ));
        }
        for e in parsed.get_excludes() {
            project.add_exclusion(Exclusion::new(&e.group_id, &e.artifact_id));
        }
        project.get_dependencies_mut().extend(parsed.get_dependencies_owned());
        Ok((format!("http://localhost/{}/{}/{}/", g.replace('.', "/"), a, version), false))
    }

    /// The version of `project` that the repository's metadata selects.
    fn compute_version(&self, project: &Project) -> Result<String, String> {
        let (g, a) = (project.get_group_id(), project.get_artifact_id());
        let text = self.create_metadata(&g, &a).ok_or_else(|| format!("no metadata for {}:{}", g, a))?;
        let metadata = parse_maven_metadata_text(&text).map_err(|e| format!("{:?}", e))?;
        match metadata.choose_version(project.get_version()) {
            Some(Ok(v)) => Ok(v),
            Some(Err(e)) => Err(format!("{:?}", e)),
            None => Err("incomparable versions".to_string()),
        }
    }
}

/// Walks each of `dependencies` in turn over the repository; the projects
/// walked.
fn resolve(dependencies: Vec<Project>, resolved: &mut Vec<ProjectDep>, server: &PomServer) -> Result<Vec<Project>, WalkError> {
    let mut state = WalkState::new(std::mem::take(resolved));
    let mut walked = Vec::new();
    for project in dependencies {
        let (mut s, mut action) = walk_step(state, WalkEvent::Begin(project));
        loop {
            match action {
                WalkAction::Done(p) => {
                    walked.push(p);
                    break;
                }
                WalkAction::Fail(e) => {
                    *resolved = s.resolved;
                    return Err(e);
                }
                WalkAction::Fetch(mut p) => {
                    let res = server.fetch(&mut p);
                    let (s2, a) = walk_step(s, WalkEvent::Fetched(p, res));
                    s = s2;
                    action = a;
                }
                WalkAction::ComputeVersion(p) => {
                    let res = server.compute_version(&p);
                    let (s2, a) = walk_step(s, WalkEvent::Versioned(p, res));
                    s = s2;
                    action = a;
                }
            }
        }
        state = s;
    }
    *resolved = state.resolved;
    Ok(walked)
}

fn dep(group_id: &str, artifact_id: &str, version: &str) -> ProjectDep {
    ProjectDep {
        group_id: group_id.to_string(),
        artifact_id: artifact_id.to_string(),
        version: version.to_string(),
        ..Default::default()
    }
}

#[test]
fn some_test() {
    let mut server = PomServer::new();
    server.add_project(
        ProjectEntry::new("com.example", "module-a", "1.0.0")
            .add_dependency(ProjectEntry::new("com.example", "module-a", "1.0.0")),
    );
    let pom = server.create_pom("com.example", "module-a", "1.0.0");
    assert!(pom.is_some());
    assert!(parse_pom_text(&pom.unwrap(), Project::new("com.example", "module-a", "1.0.0"), &Vec::new()).is_ok());
}

#[test]
fn resolver_single_dependency() {
    let mut server = PomServer::new();
    server.add_project(ProjectEntry::new("com.example", "module-a", "1.0.0"));
    let dependencies = vec![Project::new("com.example", "module-a", "1.0.0")];
    let resolved = resolve(dependencies, &mut Vec::new(), &server).unwrap();
    let mut iter = resolved.iter();
    let project = iter.next();
    assert_eq!(project, Some(&Project::new("com.example", "module-a", "1.0.0")));
}

#[test]
fn resolver_multiple_dependencies() {
    let mut server = PomServer::new();
    server.add_project(ProjectEntry::new("com.example", "module-a", "1.0.0"));
    server.add_project(ProjectEntry::new("com.example", "module-b", "2.0.0"));
    let dependencies = vec![
        Project::new("com.example", "module-a", "1.0.0"),
        Project::new("com.example", "module-b", "2.0.0"),
    ];
    let mut resolved = Vec::new();
    resolve(dependencies, &mut resolved, &server).unwrap();
    assert_eq!(resolved.len(), 2);
    let mut iter = resolved.iter();
    assert_eq!(iter.next(), Some(&dep("com.example", "module-a", "1.0.0")));
    assert_eq!(iter.next(), Some(&dep("com.example", "module-b", "2.0.0")));
}

#[test]
fn direct_version_conflict() {
    let mut server = PomServer::new();
    server.add_project(ProjectEntry::new("com.example", "module-a", "1.0.0"));
    server.add_project(ProjectEntry::new("com.example", "module-a", "2.0.0"));
    let dependencies = vec![
        Project::new("com.example", "module-a", "1.0.0"),
        Project::new("com.example", "module-a", "2.0.0"),
    ];
    let mut resolved = Vec::new();
    resolve(dependencies, &mut resolved, &server).unwrap();
    assert_eq!(resolved.len(), 1);
    let module_a = &resolved[0];
    assert_eq!(module_a.group_id, "com.example".to_string());
    assert_eq!(module_a.artifact_id, "module-a".to_string());
    assert_eq!(module_a.version, "2.0.0".to_string());
}

#[test]
fn transitive_version_conflict() {
    let mut server = PomServer::new();
    let lib_a1 = ProjectEntry::new("com.example", "module-a", "1.0.0");
    let lib_a2 = ProjectEntry::new("com.example", "module-a", "2.0.0");
    server.add_project(lib_a1.clone());
    server.add_project(lib_a2.clone());
    server.add_project(ProjectEntry::new("com.example", "module-b", "1.0.0").add_dependency(lib_a1));
    server.add_project(ProjectEntry::new("com.example", "module-c", "1.0.0").add_dependency(lib_a2));
    let dependencies = vec![
        Project::new("com.example", "module-b", "1.0.0"),
        Project::new("com.example", "module-c", "1.0.0"),
    ];
    let mut resolved = Vec::new();
    resolve(dependencies, &mut resolved, &server).unwrap();
    assert_eq!(resolved.len(), 3);
    assert_eq!(resolved[0], dep("com.example", "module-a", "2.0.0"));
    assert_eq!(resolved[1], dep("com.example", "module-b", "1.0.0"));
    assert_eq!(resolved[2], dep("com.example", "module-c", "1.0.0"));
}

#[test]
fn overlapping_version_range() {
    let mut server = PomServer::new();
    let lib_b1 = ProjectEntry::new("com.example", "module-b", "[1.0, 2.0)");
    let lib_b2 = ProjectEntry::new("com.example", "module-b", "[1.5, 2.1)");
    server.add_project(ProjectEntry::new("com.example", "module-a", "1.0.0").add_dependency(lib_b1));
    server.add_project(ProjectEntry::new("com.example", "module-c", "1.0.0").add_dependency(lib_b2));
    let dependencies = vec![
        Project::new("com.example", "module-a", "1.0.0"),
        Project::new("com.example", "module-c", "1.0.0"),
    ];
    let mut resolved = Vec::new();
    resolve(dependencies, &mut resolved, &server).unwrap();
    assert_eq!(resolved.len(), 3);
    let module_b = &resolved[0];
    assert_eq!(module_b.group_id, String::from("com.example"));
    assert_eq!(module_b.artifact_id, String::from("module-b"));
    assert_eq!(
        module_b.constraints,
        Some(Constraint {
            min: Some((true, String::from("1.5"))),
            max: Some((false, String::from("2.0"))),
            ..Default::default()
        })
    );
    assert_eq!(module_b.version, String::from("1.5.0"));
}

#[test]
fn non_overlapping_version_range() {
    let mut server = PomServer::new();
    let lib_e1 = ProjectEntry::new("com.example", "module-e", "[1.0, 1.5)");
    let lib_e2 = ProjectEntry::new("com.example", "module-e", "[2.0, 2.5)");
    server.add_project(ProjectEntry::new("com.example", "module-a", "1.0.0").add_dependency(lib_e1));
    server.add_project(ProjectEntry::new("com.example", "module-b", "1.0.0").add_dependency(lib_e2));
    let dependencies = vec![
        Project::new("com.example", "module-a", "1.0.0"),
        Project::new("com.example", "module-b", "1.0.0"),
    ];
    let mut resolved = Vec::new();
    assert!(resolve(dependencies, &mut resolved, &server).is_err());
}

#[test]
fn exclusion_ignored() {
    let mut server = PomServer::new();
    server.add_project(
        ProjectEntry::new("com.example", "module-a", "1.0.0")
            .add_dependency(ProjectEntry::new("com.example", "module-d", "[1.0, 2.0)"))
            .add_dependency(ProjectEntry::new("com.example", "module-b", "(,1.5.0),(1.5.0,)")),
    );
    server.add_project(
        ProjectEntry::new("com.example", "module-c", "1.0.0")
            .add_dependency(ProjectEntry::new("com.example", "module-b", "1.5.0")),
    );
    let dependencies = vec![
        Project::new("com.example", "module-a", "1.0.0"),
        Project::new("com.example", "module-c", "1.0.0"),
    ];
    let mut resolved = Vec::new();
    resolve(dependencies, &mut resolved, &server).unwrap();
    assert_eq!(resolved.len(), 4);
    let module_b = &resolved[1];
    assert_eq!(module_b.group_id, String::from("com.example"));
    assert_eq!(module_b.artifact_id, String::from("module-b"));
    assert_eq!(
        module_b.constraints,
        Some(Constraint {
            exclusions: vec![(VersionRange::Ge("1.5.0".to_string()), VersionRange::Le("1.5.0".to_string()))],
            ..Default::default()
        })
    );
    assert_eq!(module_b.version, String::from("2.1.0"));

    let mut server = PomServer::new();
    server.add_project(
        ProjectEntry::new("com.example", "module-a", "1.0.0")
            .add_dependency(ProjectEntry::new("com.example", "module-d", "[1.0, 2.0)"))
            .add_dependency(ProjectEntry::new("com.example", "module-b", "(,1.5.0),(1.5.0,)")),
    );
    server.add_project(
        ProjectEntry::new("com.example", "module-c", "1.0.0")
            .add_dependency(ProjectEntry::new("com.example", "module-b", "[1.5.0]")),
    );
    let dependencies = vec![
        Project::new("com.example", "module-a", "1.0.0"),
        Project::new("com.example", "module-c", "1.0.0"),
    ];
    let mut resolved = Vec::new();
    assert!(resolve(dependencies, &mut resolved, &server).is_err());
}

#[test]
fn circular_dependency() {
    let mut server = PomServer::new();
    server.add_project(
        ProjectEntry::new("com.example", "module-a", "1.0.0")
            .add_dependency(ProjectEntry::new("com.example", "module-b", "1.0.0")),
    );
    server.add_project(
        ProjectEntry::new("com.example", "module-b", "1.0.0")
            .add_dependency(ProjectEntry::new("com.example", "module-c", "1.0.0"))
            .add_dependency(ProjectEntry::new("com.example", "module-a", "1.0.0")),
    );
    let dependencies = vec![Project::new("com.example", "module-a", "1.0.0")];
    let mut resolved = Vec::new();
    resolve(dependencies, &mut resolved, &server).unwrap();
    assert_eq!(resolved.len(), 3);

    let mut server = PomServer::new();
    server.add_project(
        ProjectEntry::new("com.example", "module-a", "1.0.0")
            .add_dependency(ProjectEntry::new("com.example", "module-b", "1.0.0")),
    );
    server.add_project(
        ProjectEntry::new("com.example", "module-b", "1.0.0")
            .add_dependency(ProjectEntry::new("com.example", "module-c", "1.0.0")),
    );
    server.add_project(
        ProjectEntry::new("com.example", "module-c", "1.0.0")
            .add_dependency(ProjectEntry::new("com.example", "module-a", "1.0.0")),
    );
    let dependencies = vec![Project::new("com.example", "module-a", "1.0.0")];
    let mut resolved = Vec::new();
    resolve(dependencies, &mut resolved, &server).unwrap();
    assert_eq!(resolved.len(), 3);

    let mut server = PomServer::new();
    server.add_project(
        ProjectEntry::new("com.example", "module-a", "1.0.0")
            .add_dependency(ProjectEntry::new("com.example", "module-b", "1.0.0")),
    );
    server.add_project(
        ProjectEntry::new("com.example", "module-b", "1.0.0")
            .add_dependency(ProjectEntry::new("com.example", "module-c", "1.0.0")),
    );
    server.add_project(
        ProjectEntry::new("com.example", "module-c", "1.0.0")
            .add_dependency(ProjectEntry::new("com.example", "module-a", "1.2.0")),
    );
    let dependencies = vec![Project::new("com.example", "module-a", "1.0.0")];
    let mut resolved = Vec::new();
    resolve(dependencies, &mut resolved, &server).unwrap();
    assert_eq!(resolved.len(), 3);
}

#[test]
fn dependency_exclusion() {
    let mut server = PomServer::new();
    server.add_project(
        ProjectEntry::new("com.example", "module-a", "1.0.0").add_dependency(
            ProjectEntry::new("com.example", "module-b", "1.0.0").add_exclusion("com.example", "module-c"),
        ),
    );
    let dependencies = vec![Project::new("com.example", "module-a", "1.0.0")];
    let mut resolved = Vec::new();
    resolve(dependencies, &mut resolved, &server).unwrap();
    assert_eq!(resolved.len(), 2);
}

#[test]
fn dynamic_version_selection_latest() {
    let mut server = PomServer::new();
    server.add_project(
        ProjectEntry::new("com.example", "module-a", "1.0.0")
            .add_dependency(ProjectEntry::new("com.example", "module-b", "LATEST")),
    );
    let dependencies = vec![Project::new("com.example", "module-a", "1.0.0")];
    let mut resolved = Vec::new();
    resolve(dependencies, &mut resolved, &server).unwrap();
    assert_eq!(resolved.len(), 2);
    let module_b = &resolved[0];
    assert_eq!(module_b.group_id, String::from("com.example"));
    assert_eq!(module_b.artifact_id, String::from("module-b"));
    assert_eq!(module_b.version, String::from("2.1.0"));
}

#[test]
fn dynamic_version_selection_release() {
    let mut server = PomServer::new();
    server.add_project(
        ProjectEntry::new("com.example", "module-a", "1.0.0")
            .add_dependency(ProjectEntry::new("com.example", "module-b", "RELEASE")),
    );
    let dependencies = vec![Project::new("com.example", "module-a", "1.0.0")];
    let mut resolved = Vec::new();
    resolve(dependencies, &mut resolved, &server).unwrap();
    assert_eq!(resolved.len(), 2);
    let module_b = &resolved[0];
    assert_eq!(module_b.group_id, String::from("com.example"));
    assert_eq!(module_b.artifact_id, String::from("module-b"));
    assert_eq!(module_b.version, String::from("2.1.0"));
}

#[test]
fn properties_check_if_parsed() {
    let mut server = PomServer::new();
    server.add_project(
        ProjectEntry::new("com.example", "module-a", "1.0.0")
            .add_dependency(ProjectEntry::new("com.example", "module-b", "RELEASE")),
    );
    server.add_property("my_version", "5.0.0");
    let dependencies = vec![Project::new("com.example", "module-a", "1.0.0")];
    let mut resolved = Vec::new();
    resolve(dependencies, &mut resolved, &server).unwrap();
    assert_eq!(resolved.len(), 2);
    let module_b = &resolved[0];
    assert_eq!(module_b.group_id, String::from("com.example"));
    assert_eq!(module_b.artifact_id, String::from("module-b"));
    assert_eq!(module_b.version, String::from("2.1.0"));
}

#[test]
fn parent_pom() {
    let mut server = PomServer::new();
    server.add_project(
        ProjectEntry::new("com.example", "module-a", "1.0.0")
            .add_dependency(ProjectEntry::new("com.example", "module-b", "RELEASE"))
            .add_dependency(ProjectEntry::new("com.example", "module-e", ""))
            .set_parent(ParentEntry {
                artifact_id: String::from("module-c"),
                group_id: String::from("com.example"),
                version: String::from("3.0.0"),
            }),
    );
    server.add_project(
        ProjectEntry::new("com.example", "module-c", "3.0.0")
            .add_dependency(ProjectEntry::new("com.example", "module-d", "RELEASE"))
            .add_dependency_management(ProjectEntry::new("com.example", "module-e", "2.0.0")),
    );
    let dependencies = vec![Project::new("com.example", "module-a", "1.0.0")];
    let mut resolved = Vec::new();
    resolve(dependencies, &mut resolved, &server).unwrap();
    assert_eq!(resolved.len(), 5);
    let expected = [("module-d", "1.2.0"), ("module-c", "3.0.0"), ("module-b", "2.1.0"), ("module-e", "2.0.0"), ("module-a", "1.0.0")];
    for (i, (artifact, version)) in expected.iter().enumerate() {
        assert_eq!(resolved[i].group_id, String::from("com.example"));
        assert_eq!(resolved[i].artifact_id, String::from(*artifact));
        assert_eq!(resolved[i].version, String::from(*version));
    }
}

#[test]
fn optional_dependency() {
    let mut server = PomServer::new();
    server.add_project(
        ProjectEntry::new("com.example", "module-a", "1.0.0")
            .add_dependency(ProjectEntry::new("com.example", "module-b", "RELEASE").set_optional(true)),
    );
    server.add_project(
        ProjectEntry::new("com.example", "module-c", "3.0.0")
            .add_dependency(ProjectEntry::new("com.example", "module-d", "RELEASE")),
    );
    let dependencies = vec![
        Project::new("com.example", "module-a", "1.0.0"),
        Project::new("com.example", "module-c", "3.0.0"),
    ];
    let mut resolved = Vec::new();
    resolve(dependencies, &mut resolved, &server).unwrap();
    assert_eq!(resolved.len(), 3);
    let module_a = &resolved[0];
    assert_eq!(module_a.artifact_id, String::from("module-a"));
    assert_eq!(module_a.version, String::from("1.0.0"));
    let module_d = &resolved[1];
    assert_eq!(module_d.artifact_id, String::from("module-d"));
    assert_eq!(module_d.version, String::from("1.2.0"));
    let module_c = &resolved[2];
    assert_eq!(module_c.artifact_id, String::from("module-c"));
    assert_eq!(module_c.version, String::from("3.0.0"));
}
