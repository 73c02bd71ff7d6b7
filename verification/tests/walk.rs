use labt::pom::{Exclusion, Project};
use labt::resolve::ProjectDep;
use labt::walk::{walk_step, WalkAction, WalkError, WalkEvent, WalkState};

fn fetched(p: Project, url: &str) -> WalkEvent {
    WalkEvent::Fetched(p, Ok((url.to_string(), false)))
}

fn expect_fetch(a: WalkAction) -> Project {
    match a {
        WalkAction::Fetch(p) => p,
        _ => panic!("expected a fetch"),
    }
}

fn expect_version(a: WalkAction) -> Project {
    match a {
        WalkAction::ComputeVersion(p) => p,
        _ => panic!("expected a version request"),
    }
}

#[test]
fn walk_records_a_project_without_dependencies() {
    let (s, a) = walk_step(WalkState::new(Vec::new()), WalkEvent::Begin(Project::new("com.a", "lib", "1.0")));
    let p = expect_fetch(a);
    assert_eq!(p.get_artifact_id(), "lib");
    let (s, a) = walk_step(s, fetched(p, "https://repo/com/a/lib/1.0/"));
    assert!(matches!(a, WalkAction::Done(_)));
    assert_eq!(s.resolved.len(), 1);
    assert_eq!(s.resolved[0].artifact_id, "lib");
    assert_eq!(s.resolved[0].version, "1.0");
    assert_eq!(s.resolved[0].base_url, "https://repo/com/a/lib/1.0/");
    assert!(s.unresolved.is_empty());
    assert!(s.stack.is_empty());
}

#[test]
fn walk_visits_dependencies_before_recording_their_dependent() {
    let (s, a) = walk_step(WalkState::new(Vec::new()), WalkEvent::Begin(Project::new("com.a", "lib", "1.0")));
    let mut p = expect_fetch(a);
    p.add_dependency(Project::new("com.b", "x", "[2.0,3.0)"));
    let (s, a) = walk_step(s, fetched(p, "https://repo/a/"));
    let d = expect_version(a);
    assert_eq!(d.get_artifact_id(), "x");
    let (s, a) = walk_step(s, WalkEvent::Versioned(d, Ok("2.5".to_string())));
    let d = expect_fetch(a);
    assert_eq!(d.get_selected_version(), &Some("2.5".to_string()));
    let (s, a) = walk_step(s, fetched(d, "https://repo/b/"));
    assert!(matches!(a, WalkAction::Done(_)));
    let names: Vec<&str> = s.resolved.iter().map(|d| d.artifact_id.as_str()).collect();
    assert_eq!(names, vec!["x", "lib"]);
    assert_eq!(s.resolved[1].dependencies, vec!["com.b:x:2.5".to_string()]);
}

#[test]
fn walk_skips_a_version_resolved_earlier() {
    let earlier = ProjectDep {
        group_id: "com.a".to_string(),
        artifact_id: "lib".to_string(),
        version: "1.0".to_string(),
        ..Default::default()
    };
    let (s, a) = walk_step(WalkState::new(vec![earlier]), WalkEvent::Begin(Project::new("com.a", "lib", "1.0")));
    assert!(matches!(a, WalkAction::Done(_)));
    assert_eq!(s.resolved.len(), 1);
}

#[test]
fn walk_leaves_excluded_and_circular_dependencies() {
    let (s, a) = walk_step(WalkState::new(Vec::new()), WalkEvent::Begin(Project::new("com.a", "lib", "1.0")));
    let mut p = expect_fetch(a);
    p.add_exclusion(Exclusion::new("com.ex", "*"));
    p.add_dependency(Project::new("com.ex", "gone", "1.0"));
    p.add_dependency(Project::new("com.a", "lib", "1.0"));
    let (s, a) = walk_step(s, fetched(p, "https://repo/a/"));
    let d = expect_version(a);
    assert_eq!(d.get_artifact_id(), "lib");
    let (s, a) = walk_step(s, WalkEvent::Versioned(d, Ok("1.0".to_string())));
    assert!(matches!(a, WalkAction::Done(_)));
    assert_eq!(s.resolved.len(), 1);
    assert_eq!(s.resolved[0].dependencies, vec!["com.a:lib:1.0".to_string()]);
}

#[test]
fn walk_fails_on_a_failed_fetch() {
    let (s, a) = walk_step(WalkState::new(Vec::new()), WalkEvent::Begin(Project::new("com.a", "lib", "1.0")));
    let p = expect_fetch(a);
    let (_, a) = walk_step(s, WalkEvent::Fetched(p, Err("offline".to_string())));
    assert!(matches!(a, WalkAction::Fail(WalkError::FetchFailed(m)) if m == "offline"));
}

#[test]
fn walk_refuses_an_answer_it_did_not_ask_for() {
    let (_, a) = walk_step(
        WalkState::new(Vec::new()),
        WalkEvent::Versioned(Project::new("com.a", "lib", "1.0"), Ok("1.0".to_string())),
    );
    assert!(matches!(a, WalkAction::Fail(WalkError::Unexpected)));
}
