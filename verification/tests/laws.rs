use labt::installed_list::{InstalledList, InstalledPackage};
use labt::lock::LabtLock;
use labt::plugin_config::{PluginStage, PluginToml, RepositoryInfo, SdkEntry, Step};
use labt::repository::ChannelType;
use labt::resolve::ProjectDep;
use labt::revision::Revision;
use labt::version::{VersionRange, VersionRequirement};

#[test]
fn ranges_read_back_from_their_text() {
    for r in [
        VersionRange::Gt("1.0".to_string()),
        VersionRange::Ge("1.0".to_string()),
        VersionRange::Lt("2.0-beta".to_string()),
        VersionRange::Le("2.0".to_string()),
        VersionRange::Eq("3.1.4".to_string()),
    ] {
        assert_eq!(r.to_string().parse::<VersionRange>().unwrap(), r);
    }
    // `>` on a version holding `=` reads back as another range
    let odd = VersionRange::Gt("=1".to_string());
    assert_ne!(odd.to_string().parse::<VersionRange>().unwrap(), odd);
}

#[test]
fn requirements_read_back_from_their_text() {
    let hard = VersionRequirement::Hard(vec![
        VersionRange::Ge("1.0".to_string()),
        VersionRange::Lt("2.0".to_string()),
        VersionRange::Gt("1.5".to_string()),
    ]);
    assert_eq!(hard.to_string().parse::<VersionRequirement>().unwrap(), hard);
    let soft = VersionRequirement::Soft("4.0".to_string());
    assert_eq!(soft.to_string().parse::<VersionRequirement>().unwrap(), soft);
    assert_eq!(VersionRequirement::Unset.to_string().parse::<VersionRequirement>().unwrap(), VersionRequirement::Unset);
    // a requirement holding an exact version prints only that version
    let exact = VersionRequirement::Hard(vec![VersionRange::Ge("1.0".to_string()), VersionRange::Eq("1.2".to_string())]);
    assert_eq!(exact.to_string(), "[1.2]");
    assert_eq!(
        exact.to_string().parse::<VersionRequirement>().unwrap(),
        VersionRequirement::Hard(vec![VersionRange::Eq("1.2".to_string())])
    );
}

#[test]
fn lock_reads_back_what_it_wrote() {
    let mut c = labt::constraint::Constraint::default();
    c.min = Some((true, "1.0".to_string()));
    c.exclusions = vec![(VersionRange::Ge("1.1".to_string()), VersionRange::Le("1.1".to_string()))];
    let dep = ProjectDep {
        group_id: "com.example".to_string(),
        artifact_id: "lib".to_string(),
        version: "1.2".to_string(),
        base_url: "https://repo.example.com/maven2/".to_string(),
        packaging: "aar".to_string(),
        dependencies: vec!["com.example:core:1.0".to_string()],
        constraints: Some(c),
        ..Default::default()
    };
    let lock = LabtLock { resolved: vec![dep] };
    let back = LabtLock::from_str(&lock.to_string()).unwrap();
    assert_eq!(back.resolved.len(), 1);
    let d = &back.resolved[0];
    let o = &lock.resolved[0];
    assert_eq!(d, o);
    assert_eq!(d.base_url, o.base_url);
    assert_eq!(d.packaging, o.packaging);
    assert_eq!(d.dependencies, o.dependencies);
    assert_eq!(d.constraints, o.constraints);
    assert_eq!(d.cache_hit, o.cache_hit);
}

#[test]
fn installed_list_reads_back_what_it_wrote() {
    let mut list = InstalledList::new();
    list.repositories.push((
        "google".to_string(),
        RepositoryInfo {
            url: "https://dl.google.com/android/repository/repository2-1.xml".to_string(),
            accepted_licenses: vec!["b-license".to_string(), "a-license".to_string()],
            path: "/sdk/google".to_string(),
        },
    ));
    list.add_installed_package(InstalledPackage::new(
        "platform-tools".to_string(),
        Revision { major: 34, minor: 0, micro: 5, preview: 0 },
        ChannelType::Stable,
        "google".to_string(),
    ));
    let back = InstalledList::from_str(&list.to_string()).unwrap();
    assert_eq!(back.packages, list.packages);
    assert_eq!(back.repositories.len(), 1);
    assert_eq!(back.repositories[0].0, "google");
    assert_eq!(
        back.repositories[0].1.accepted_licenses,
        vec!["a-license".to_string(), "b-license".to_string()]
    );
}

#[test]
fn plugin_toml_reads_back_what_it_wrote() {
    let plugin = PluginToml {
        name: "labt-java".to_string(),
        version: "0.1.0".to_string(),
        stages: vec![
            (
                Step::PRE,
                PluginStage { file: "pre.lua".to_string(), priority: 1, inputs: None, outputs: None, enable_unsafe: false },
            ),
            (
                Step::COMPILE,
                PluginStage { file: "compile.lua".to_string(), priority: -3, inputs: None, outputs: None, enable_unsafe: true },
            ),
        ],
        sdk_repo: Vec::new(),
        sdk: vec![SdkEntry {
            repo: "google".to_string(),
            name: "build".to_string(),
            path: "build-tools;34.0.0".to_string(),
            version: Revision { major: 34, minor: 0, micro: 0, preview: 0 },
            channel: ChannelType::Stable,
        }],
        init: None,
        path: String::new(),
        package_paths: None,
        enable_unsafe: false,
        labt: None,
    };
    let back = PluginToml::from_str(&plugin.to_string()).unwrap();
    assert_eq!(back.name, plugin.name);
    assert_eq!(back.version, plugin.version);
    assert_eq!(back.stages, plugin.stages);
    assert_eq!(back.sdk, plugin.sdk);
    assert!(back.sdk_repo.is_empty() && back.init.is_none() && back.labt.is_none());
}

#[test]
fn installed_packages_insert_find_and_remove() {
    let mut list = InstalledList::new();
    let p = InstalledPackage::new(
        "platforms;android-34".to_string(),
        Revision { major: 3, minor: 0, micro: 0, preview: 0 },
        ChannelType::Stable,
        "google".to_string(),
    );
    list.insert_installed_package(p.copy());
    assert_eq!(list.contains_id(&p), Some(&p));
    let mut newer = p.copy();
    newer.version = Revision { major: 4, minor: 0, micro: 0, preview: 0 };
    list.insert_installed_package(newer.copy());
    assert_eq!(list.packages.len(), 2);
    list.insert_installed_package(p.copy());
    assert_eq!(list.packages.len(), 2);
    list.remove_installed_package(&p);
    assert_eq!(list.packages, vec![newer]);
}

#[test]
fn accepted_license_is_reported_accepted() {
    let mut list = InstalledList::new();
    list.repositories.push((
        "google".to_string(),
        RepositoryInfo { url: "u".to_string(), accepted_licenses: Vec::new(), path: "p".to_string() },
    ));
    assert_eq!(list.has_accepted("google", &"android-sdk-license".to_string()), Some(false));
    list.accept_license("google", "android-sdk-license".to_string());
    assert_eq!(list.has_accepted("google", &"android-sdk-license".to_string()), Some(true));
    assert_eq!(list.has_accepted("other", &"android-sdk-license".to_string()), None);
}
