use labt::constraint::Constraint;
use labt::lock::LabtLock;
use labt::pom::Scope;
use labt::resolve::ProjectDep;
use labt::version::VersionRange;

#[test]
fn labt_lock_from_string() {
    let lock_str = r#"
[[project]]
artifact_id = "grpc-stub"
group_id = "io.grpc"
version = "1.66.0"
scope = "compile"
url = "https://repo1.maven.org/maven2/io/grpc/grpc-stub/1.66.0/"
constraints = { exact = "1.66.0" }
packaging = "jar"
dependencies = []


[[project]]
artifact_id = "javax.annotation-api"
group_id = "javax.annotation"
version = "1.3.2"
scope = "compile"
constraints = { min = "1.0.0", max = "=1.3.2"}
url = "https://repo1.maven.org/maven2/javax/annotation/javax.annotation-api/1.3.2/"
packaging = "jar"
dependencies = []


[[project]]
artifact_id = "annotation"
group_id = "androidx.annotation"
version = "1.1.0"
scope = "compile"
url = "https://maven.google.com/androidx/annotation/annotation/1.1.0/"
packaging = "jar"
constraints = { min = "=1.0.0", max = "1.5.0", excludes = [">1.2.0,<=1.3.0", ">=1.4,<=1.4"]}
dependencies = []


[[project]]
artifact_id = "cardview"
group_id = "androidx.cardview"
version = "1.0.0"
scope = "compile"
url = "https://maven.google.com/androidx/cardview/cardview/1.0.0/"
packaging = "aar"
dependencies = ["androidx.annotation:annotation:1.0.0"]
"#;
    let lock: LabtLock = lock_str.parse().unwrap();
    let mut deps = lock.resolved.iter();
    let project = deps.next().unwrap();
    assert_eq!(project.artifact_id, "grpc-stub".to_string());
    assert_eq!(project.group_id, "io.grpc".to_string());
    assert_eq!(project.version, "1.66.0".to_string());
    assert_eq!(project.scope, Scope::COMPILE);
    assert_eq!(
        project.base_url,
        "https://repo1.maven.org/maven2/".to_string()
    );
    assert_eq!(project.packaging, "jar".to_string());
    assert_eq!(
        project.constraints,
        Some(Constraint {
            exact: Some(String::from("1.66.0")),
            ..Default::default()
        })
    );

    // must be correct on all other fields so i am not testing everything
    let project = deps.next().unwrap();
    assert_eq!(
        project.constraints,
        Some(Constraint {
            min: Some((false, "1.0.0".to_string())),
            max: Some((true, "1.3.2".to_string())),
            ..Default::default()
        })
    );
    let project = deps.next().unwrap();
    assert_eq!(
        project.constraints,
        Some(Constraint {
            min: Some((true, "1.0.0".to_string())),
            max: Some((false, "1.5.0".to_string())),
            exclusions: vec![
                (
                    VersionRange::Gt("1.2.0".to_string()),
                    VersionRange::Le("1.3.0".to_string())
                ),
                (
                    VersionRange::Ge("1.4".to_string()),
                    VersionRange::Le("1.4".to_string())
                )
            ],
            ..Default::default()
        })
    );
    let project = deps.next().unwrap();
    assert_eq!(
        project.dependencies,
        vec!["androidx.annotation:annotation:1.0.0"]
    );
}
#[test]
fn labt_lock_to_string() {
    let expected = r#"[[project]]
artifact_id = "grpc-stub"
group_id = "io.grpc"
version = "1.66.0"
scope = "compile"
url = "https://repo1.maven.org/maven2/io/grpc/grpc-stub/1.66.0/"
packaging = "jar"
constraints = { exact = "1.66.0" }
dependencies = []


[[project]]
artifact_id = "javax.annotation-api"
group_id = "javax.annotation"
version = "1.3.2"
scope = "compile"
url = "https://repo1.maven.org/maven2/javax/annotation/javax.annotation-api/1.3.2/"
packaging = "jar"
constraints = { min = "1.0.0", max = "=1.3.2" }
dependencies = []


[[project]]
artifact_id = "annotation"
group_id = "androidx.annotation"
version = "1.1.0"
scope = "compile"
url = "https://maven.google.com/androidx/annotation/annotation/1.1.0/"
packaging = "jar"
constraints = { min = "=1.0.0", max = "1.5.0", excludes = [">1.2.0,<=1.3.0", ">=1.4,<=1.4"] }
dependencies = []


[[project]]
artifact_id = "cardview"
group_id = "androidx.cardview"
version = "1.0.0"
scope = "compile"
url = "https://maven.google.com/androidx/cardview/cardview/1.0.0/"
packaging = "aar"
dependencies = ["androidx.annotation:annotation:1.0.0"]

"#;

    let lock = LabtLock {
        resolved: vec![
            ProjectDep {
                artifact_id: "grpc-stub".to_string(),
                group_id: "io.grpc".to_string(),
                version: "1.66.0".to_string(),
                scope: Scope::COMPILE,
                base_url: "https://repo1.maven.org/maven2/".to_string(),
                constraints: Some(Constraint {
                    exact: Some("1.66.0".to_string()),
                    ..Default::default()
                }),
                packaging: "jar".to_string(),
                ..Default::default()
            },
            ProjectDep {
                artifact_id: "javax.annotation-api".to_string(),
                group_id: "javax.annotation".to_string(),
                version: "1.3.2".to_string(),
                scope: Scope::COMPILE,
                base_url: "https://repo1.maven.org/maven2/".to_string(),
                constraints: Some(Constraint {
                    min: Some((false, "1.0.0".to_string())),
                    max: Some((true, "1.3.2".to_string())),
                    ..Default::default()
                }),
                packaging: "jar".to_string(),
                ..Default::default()
            },
            ProjectDep {
                artifact_id: "annotation".to_string(),
                group_id: "androidx.annotation".to_string(),
                version: "1.1.0".to_string(),
                scope: Scope::COMPILE,
                base_url: "https://maven.google.com/".to_string(),
                constraints: Some(Constraint {
                    min: Some((true, "1.0.0".to_string())),
                    max: Some((false, "1.5.0".to_string())),
                    exclusions: vec![
                        (
                            VersionRange::Gt("1.2.0".to_string()),
                            VersionRange::Le("1.3.0".to_string()),
                        ),
                        (
                            VersionRange::Ge("1.4".to_string()),
                            VersionRange::Le("1.4".to_string()),
                        ),
                    ],
                    ..Default::default()
                }),
                packaging: "jar".to_string(),
                ..Default::default()
            },
            ProjectDep {
                artifact_id: "cardview".to_string(),
                group_id: "androidx.cardview".to_string(),
                version: "1.0.0".to_string(),
                scope: Scope::COMPILE,
                base_url: "https://maven.google.com/".to_string(),
                dependencies: vec!["androidx.annotation:annotation:1.0.0".to_string()],
                packaging: "aar".to_string(),
                ..Default::default()
            },
        ],
    };
    // println!("<<<Generated>>>\n{}<<expected>>\n{}", lock, expected);

    assert_eq!(lock.to_string(), expected.to_string());
}
