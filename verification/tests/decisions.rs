use std::cmp::Ordering;

use labt::cache::{properties_text, read_properties, Cache, CacheType, NoCacheDir, PropertiesError};
use labt::config::{
    fetch_plugins_from_config, get_resolvers, LabToml, PluginFetch, PluginTable, Project as ProjectTable,
    ResolverSource,
};
use labt::containment::ContainError;
use labt::paths::{get_home, home_candidate, joined, HomeError, HomeLocation};
use labt::plugin::{build_plugin_path, build_plugin_path_from, plugin_paths, plugin_paths_from, Executable, PluginSource};
use labt::pom::Project;
use labt::resolution::{fetch_step, version_step, ResolverStep};
use labt::resolve::{ProjectDep, ProjectDepError};
use labt::resolvers::{CacheResolver, ResolverError, ResolverErrorKind};
use labt::sdk_module::{sdk_command, sdk_file_path, sdk_module_dir, sdk_module_entry};
use labt::sdk::{archive_url, calculate_checksum, verify_checksum, InstallerError, SdkLock, SdkLockReleaseErrorBehaviour};
use labt::submodules::{parse_plugin_id, Add, AddArgs, AddArgsError};
use labt::installed_list::{InstalledListErr, InstalledListErrKind};
use labt::plugin_toml::{PluginTomlError, PluginTomlErrorKind};
use labt::version::{VersionRange, VersionRequirement};

fn dep(group: &str, artifact: &str, version: &str) -> ProjectDep {
    ProjectDep {
        group_id: group.to_string(),
        artifact_id: artifact.to_string(),
        version: version.to_string(),
        ..Default::default()
    }
}

fn empty_config() -> LabToml {
    LabToml {
        project: ProjectTable {
            name: "app".to_string(),
            description: String::new(),
            version_number: 1,
            version: "1.0".to_string(),
            package: "com.example.app".to_string(),
        },
        dependencies: None,
        resolvers: None,
        plugins: None,
    }
}

#[test]
fn joined_paths_follow_unix_rules() {
    assert_eq!(joined("/home/user", ".labt"), "/home/user/.labt");
    assert_eq!(joined("/home/user/", ".labt"), "/home/user/.labt");
    assert_eq!(joined("", "cache"), "cache");
    assert_eq!(joined("/home/user", "/etc"), "/etc");
}

#[test]
fn home_prefers_labt_home() {
    assert_eq!(
        home_candidate(Some("/opt/labt".to_string()), Some("/home/u".to_string())),
        Ok(HomeLocation::Configured("/opt/labt".to_string()))
    );
    assert_eq!(
        home_candidate(None, Some("/home/u".to_string())),
        Ok(HomeLocation::UnderHome("/home/u/.labt".to_string()))
    );
    assert_eq!(home_candidate(None, None), Err(HomeError::NotDetected));
    assert_eq!(
        get_home(Some("/opt/labt".to_string()), Some("/home/u".to_string()), false),
        Ok("/opt/labt".to_string())
    );
    assert_eq!(get_home(None, Some("/home/u".to_string()), true), Ok("/home/u/.labt".to_string()));
    assert_eq!(get_home(None, None, false), Err(HomeError::NotDetected));
}

#[test]
fn home_without_labt_dir_is_not_found() {
    assert_eq!(get_home(None, Some("/home/u".to_string()), false), Err(HomeError::NotFound));
}

#[test]
fn cache_paths_lay_out_group_artifact_version() {
    let mut cache = Cache::new(
        "com.example".to_string(),
        "lib".to_string(),
        "1.2".to_string(),
        CacheType::AAR,
    );
    assert_eq!(cache.get_path(), Err(NoCacheDir));
    cache.use_labt_home("/home/u/.labt");
    assert_eq!(cache.get_name_from_type(), "lib-1.2.aar");
    assert_eq!(
        cache.get_path(),
        Ok("/home/u/.labt/cache/com.example/lib/1.2/lib-1.2.aar".to_string())
    );
    let source = Cache::new("g".to_string(), "a".to_string(), "3".to_string(), CacheType::SOURCE);
    assert_eq!(source.get_name_from_type(), "a-3-source.jar");
    let other = Cache::new(
        "g".to_string(),
        "a".to_string(),
        "3".to_string(),
        CacheType::from_packaging("zip".to_string()),
    );
    assert_eq!(other.get_name_from_type(), "a-3.zip");
}

#[test]
fn cached_properties_read_back() {
    let mut cached = dep("com.example", "lib", "1.2");
    cached.base_url = "https://repo.example.com/maven2".to_string();
    cached.packaging = "aar".to_string();
    cached.dependencies = vec!["com.example:core:1.0".to_string()];
    let text = properties_text(&cached, "0.3.0");

    let mut fresh = dep("com.example", "lib", "1.2");
    assert_eq!(read_properties(&mut fresh, &text, "0.3.0"), Ok(()));
    assert_eq!(fresh.base_url, "https://repo.example.com/maven2");
    assert_eq!(fresh.packaging, "aar");
    assert_eq!(fresh.dependencies, vec!["com.example:core:1.0".to_string()]);

    let mut other = dep("com.example", "lib", "1.2");
    assert_eq!(
        read_properties(&mut other, &text, "0.4.0"),
        Err(PropertiesError::LabtVersionError)
    );
    assert_eq!(other.base_url, "");
    assert_eq!(
        read_properties(&mut other, "not = [toml", "0.3.0"),
        Err(PropertiesError::ParseError)
    );
}

#[test]
fn cache_resolver_maps_failed_reads() {
    let resolver = CacheResolver::new();
    assert_eq!(resolver.get_name(), "cache");
    let mut project = Project::new("com.example", "lib", "1.2");
    let err = resolver
        .fetch_cached(&mut project, Err(PropertiesError::ParseError))
        .unwrap_err();
    assert!(matches!(err.kind(), ResolverErrorKind::ParseError));

    let mut cached = dep("com.example", "lib", "1.2");
    cached.base_url = "https://repo.example.com".to_string();
    cached.packaging = "aar".to_string();
    cached.dependencies = vec!["com.example:core:1.0".to_string()];
    let url = resolver.fetch_cached(&mut project, Ok(cached)).unwrap();
    assert_eq!(url, "https://repo.example.com");
    assert_eq!(project.get_packaging(), "aar");
    assert_eq!(project.get_dependencies().len(), 1);
    assert_eq!(project.get_dependencies()[0].get_artifact_id(), "core");
}

#[test]
fn resolver_steps_move_on_only_when_not_found() {
    let not_found = ResolverError::new("missing", ResolverErrorKind::NotFound, None);
    assert_eq!(fetch_step("google", Err(not_found)), ResolverStep::Next);
    let broken = ResolverError::new("bad", ResolverErrorKind::ParseError, None);
    assert!(matches!(fetch_step("google", Err(broken)), ResolverStep::Fail(_)));
    assert_eq!(
        fetch_step("cache", Ok("u".to_string())),
        ResolverStep::Found("u".to_string(), true)
    );
    let stale = ResolverError::new("none", ResolverErrorKind::NoSelectedVersion, None);
    assert_eq!(version_step("cache", Err(stale)), ResolverStep::Next);
    let none = ResolverError::new("none", ResolverErrorKind::NoSelectedVersion, None);
    assert!(matches!(version_step("central", Err(none)), ResolverStep::Fail(_)));
}

#[test]
fn resolvers_come_from_the_read_configuration() {
    let r = get_resolvers::<String>(Ok(empty_config())).unwrap();
    let names: Vec<&str> = r.iter().map(|e| e.name.as_str()).collect();
    assert_eq!(names, vec!["cache", "google", "central"]);
    assert_eq!(r[0].source, ResolverSource::Cache);
    assert_eq!(
        get_resolvers::<String>(Err("unreadable".to_string())),
        Err("unreadable".to_string())
    );
}

#[test]
fn plugins_fetch_from_home_without_location() {
    let mut config = empty_config();
    assert_eq!(
        fetch_plugins_from_config::<String>(&config, Err("no home".to_string())),
        Ok(Vec::new())
    );
    config.plugins = Some(vec![
        (
            "core".to_string(),
            PluginTable { location: Some("https://git.example.com/core".to_string()), version: "0.1".to_string() },
        ),
        ("local".to_string(), PluginTable { location: None, version: "0.2".to_string() }),
    ]);
    assert_eq!(
        fetch_plugins_from_config::<String>(&config, Ok("/home/u/.labt".to_string())),
        Ok(vec![
            PluginFetch {
                name: "core".to_string(),
                location: "https://git.example.com/core".to_string(),
                version: "0.1".to_string(),
            },
            PluginFetch {
                name: "local".to_string(),
                location: "/home/u/.labt".to_string(),
                version: "0.2".to_string(),
            },
        ])
    );
    assert_eq!(
        fetch_plugins_from_config::<String>(&config, Err("no home".to_string())),
        Err("no home".to_string())
    );
}

#[test]
fn plugins_with_locations_need_no_home() {
    let mut config = empty_config();
    config.plugins = Some(vec![(
        "core".to_string(),
        PluginTable { location: Some("https://git.example.com/core".to_string()), version: "0.1".to_string() },
    )]);
    assert_eq!(
        fetch_plugins_from_config::<String>(&config, Err("no home".to_string())),
        Ok(vec![PluginFetch {
            name: "core".to_string(),
            location: "https://git.example.com/core".to_string(),
            version: "0.1".to_string(),
        }])
    );
}

#[test]
fn executable_plugin_runs() {
    assert_eq!(Executable {}.main(), Ok(()));
}

#[test]
fn project_deps_order_by_version_of_one_package() {
    let a = dep("com.example", "lib", "1.0");
    let b = dep("com.example", "lib", "1.2");
    assert_eq!(a.partial_cmp(&b), Some(Ordering::Less));
    assert_eq!(b.partial_cmp(&a), Some(Ordering::Greater));
    assert_eq!(a.partial_cmp(&dep("com.example", "lib", "1.0")), Some(Ordering::Equal));
    assert!(a < b);
    assert_eq!(a.partial_cmp(&dep("com.example", "other", "1.0")), None);
    assert_eq!(a.partial_cmp(&dep("org.example", "lib", "1.0")), None);
}

#[test]
fn project_dep_records_a_resolved_project() {
    let mut project = Project::new("com.example", "app", "[1.0,2.0)");
    let mut child = Project::new("com.example", "core", "1.1");
    child.set_selected_version(Some("1.1".to_string()));
    project.add_dependency(child);
    project.set_selected_version(Some("1.5".to_string()));
    let d = ProjectDep::from_project(&project).unwrap();
    assert_eq!(d.version, "1.5");
    assert_eq!(d.dependencies, vec!["com.example:core:1.1".to_string()]);
    assert_eq!(d.base_url, "");
    let c = d.constraints.unwrap();
    assert_eq!(c.min, Some((true, "1.0".to_string())));
    assert_eq!(c.max, Some((false, "2.0".to_string())));

    let mut unresolved = Project::new("com.example", "app", "1.0");
    unresolved.add_dependency(Project::new("com.example", "core", "[1.1,)"));
    unresolved.set_selected_version(Some("1.0".to_string()));
    assert_eq!(
        ProjectDep::from_project(&unresolved),
        Err(ProjectDepError::UnresolvedDependency("com.example:core".to_string()))
    );

    let unselected = Project::new("com.example", "app", "[1.0,)");
    assert_eq!(ProjectDep::from_project(&unselected), Err(ProjectDepError::VersionNotSet));

    let mut conflicting = Project::new("com.example", "app", "[1.0],[2.0]");
    conflicting.set_selected_version(Some("1.0".to_string()));
    assert_eq!(
        ProjectDep::from_project(&conflicting),
        Err(ProjectDepError::Constraint(ContainError::ConflictingExact))
    );
    assert!(ProjectDep::try_from_project(&conflicting).is_some());
    let _ = VersionRequirement::Unset;
}

#[test]
fn sha1_checksum_is_lower_hex() {
    assert_eq!(calculate_checksum(b"abc"), "a9993e364706816aba3e25717850c26c9cd0d89d");
    assert_eq!(calculate_checksum(b""), "da39a3ee5e6b4b0d3255bfef95601890afd80709");
    assert_eq!(
        verify_checksum("f.zip", "a9993e364706816aba3e25717850c26c9cd0d89d", b"abc"),
        Ok(())
    );
    assert_eq!(
        verify_checksum("f.zip", "0000", b"abc"),
        Err(InstallerError::ChecksumMismatch {
            path: "f.zip".to_string(),
            expected: "0000".to_string(),
            calculated: "a9993e364706816aba3e25717850c26c9cd0d89d".to_string(),
        })
    );
}

#[test]
fn sdk_lock_belongs_to_its_process() {
    let mut lock = SdkLock::new("/sdk/platforms", 4242);
    assert_eq!(lock.lock_file(), "/sdk/platforms/.lock");
    assert_eq!(lock.pid(), 4242);
    assert!(lock.owns("4242"));
    assert!(!lock.owns("4243"));
    assert!(!lock.owns("4242\n"));
    assert_eq!(lock.release_err_behaviour(), SdkLockReleaseErrorBehaviour::LogPanic);
    assert!(lock.release_err_behaviour().logs() && lock.release_err_behaviour().panics());
    lock.set_release_err_behaviour(SdkLockReleaseErrorBehaviour::Ignore);
    assert!(!lock.release_err_behaviour().logs() && !lock.release_err_behaviour().panics());
}

#[test]
fn plugin_ids_split_at_the_version() {
    assert_eq!(
        parse_plugin_id("https://git.example.com/p@v0.1"),
        ("https://git.example.com/p".to_string(), Some("v0.1".to_string()))
    );
    assert_eq!(
        parse_plugin_id("https://git.example.com/p"),
        ("https://git.example.com/p".to_string(), None)
    );
}

#[test]
fn add_arguments_name_a_dependency() {
    let args = AddArgs {
        group_id: None,
        artifact_id: None,
        version: None,
        dependency: Some("com.example:lib:1.0".to_string()),
    };
    assert_eq!(
        Add::new(&args).parse_dependency(),
        Ok(("com.example".to_string(), "lib".to_string(), "1.0".to_string()))
    );
    let bad = AddArgs { dependency: Some("com.example".to_string()), ..args.clone() };
    assert_eq!(Add::new(&bad).parse_dependency(), Err(AddArgsError::InvalidDependency));
    let apart = AddArgs {
        group_id: Some("g".to_string()),
        artifact_id: Some("a".to_string()),
        version: None,
        dependency: None,
    };
    assert_eq!(Add::new(&apart).parse_dependency(), Err(AddArgsError::MissingVersion));
    let no_artifact = AddArgs { artifact_id: None, ..apart.clone() };
    assert_eq!(Add::new(&no_artifact).parse_dependency(), Err(AddArgsError::MissingArtifactId));
}

#[test]
fn ranges_order_on_the_number_line() {
    let v = |s: &str| s.to_string();
    assert_eq!(VersionRange::Gt(v("1.0")).partial_cmp(&VersionRange::Ge(v("1.0"))), Some(Ordering::Greater));
    assert_eq!(VersionRange::Lt(v("1.0")).partial_cmp(&VersionRange::Le(v("1.0"))), Some(Ordering::Less));
    assert_eq!(VersionRange::Ge(v("1.0")).partial_cmp(&VersionRange::Le(v("2.0"))), Some(Ordering::Less));
    assert_eq!(VersionRange::Eq(v("1.0")).partial_cmp(&VersionRange::Ge(v("1.0"))), Some(Ordering::Equal));
    assert!(VersionRange::Ge(v("2.0")) > VersionRange::Lt(v("1.5")));
}

#[test]
fn error_messages_name_what_went_wrong() {
    let e = InstalledListErr::new(InstalledListErrKind::MissingKey("path", 2), Some("installed.toml".to_string()));
    assert_eq!(e.to_string(), "installed.toml: Missing path in table at position 2");
    let e = InstalledListErr::new(InstalledListErrKind::LicenseIdStrError("accepted_licenses", 10), None);
    assert_eq!(e.to_string(), "[unknown]: Failed to parse accepted_licenses value as string at index 10");
    let e = PluginTomlError::new(PluginTomlErrorKind::MissingTableKey("file", "pre".to_string(), Some(3)));
    assert_eq!(e.to_string(), "Missing file for array table \"pre\" at position 3 which is required");
    let e = PluginTomlError::new(PluginTomlErrorKind::MissingKey("name"));
    assert_eq!(e.to_string(), "Missing name which is required!");
    let e = PluginTomlError::new(PluginTomlErrorKind::ToStringErr("file", Some("stage"), None));
    assert_eq!(e.to_string(), "Unhandled error occured while parsing plugin.toml");
}

#[test]
fn sdk_modules_name_entries_files_and_commands() {
    assert_eq!(sdk_module_entry("sdk:build/tools"), Some("build".to_string()));
    assert_eq!(sdk_module_entry("sdk:build"), Some("build".to_string()));
    assert_eq!(sdk_module_entry("json"), None);
    assert_eq!(sdk_module_dir("/sdk/build-tools", "sdk:build/..bin../lib"), "/sdk/build-tools/bin/lib");
    assert_eq!(sdk_module_dir("/sdk/build-tools", "sdk:build"), "/sdk/build-tools");
    assert_eq!(sdk_file_path("/sdk/bin", "..aapt2."), Some("/sdk/bin/aapt2".to_string()));
    assert_eq!(sdk_file_path("/sdk/bin", "../etc"), None);
    assert_eq!(sdk_command("get_version"), Some(("version".to_string(), true)));
    assert_eq!(sdk_command("aapt2"), Some(("aapt2".to_string(), false)));
    assert_eq!(sdk_command("a\\b"), None);
}

#[test]
fn plugin_url_is_cloned_under_home_by_domain_and_path() {
    assert_eq!(
        plugin_paths::<String>(Ok("/home/u/.labt".to_string()), "https://github.com/owner/lua-plugin.git", "v0.1.0"),
        Ok(PluginSource::Remote {
            git_dir: "/home/u/.labt/plugins/github.com/owner/lua-plugin/git".to_string(),
            versions_dir: "/home/u/.labt/plugins/github.com/owner/lua-plugin/versions".to_string(),
            worktree_dir: "/home/u/.labt/plugins/github.com/owner/lua-plugin/versions/v0.1.0".to_string(),
        })
    );
    assert_eq!(
        plugin_paths::<String>(Err("no home".to_string()), "https://github.com/owner/p", "v1"),
        Err("no home".to_string())
    );
}

#[test]
fn plugin_directory_needs_no_home() {
    assert_eq!(
        plugin_paths::<String>(Err("no home".to_string()), "plugins/local", "v1"),
        Ok(PluginSource::Local("plugins/local".to_string()))
    );
}

#[test]
fn plugin_url_without_domain_goes_under_example_com() {
    assert_eq!(
        plugin_paths::<String>(Ok("/h".to_string()), "https://127.0.0.1/a/b", "v2"),
        Ok(PluginSource::Remote {
            git_dir: "/h/plugins/example.com/a/b/git".to_string(),
            versions_dir: "/h/plugins/example.com/a/b/versions".to_string(),
            worktree_dir: "/h/plugins/example.com/a/b/versions/v2".to_string(),
        })
    );
}

#[test]
fn build_loads_url_plugins_from_home() {
    assert_eq!(
        build_plugin_path("/h", "core", "0.1", &Some("https://example.com/core.git".to_string())),
        "/h/plugins/core-0.1"
    );
    assert_eq!(build_plugin_path("/h", "core", "0.1", &None), "/h/plugins/core-0.1");
    assert_eq!(build_plugin_path("/h", "core", "0.1", &Some("local/dir".to_string())), "local/dir");
}

#[test]
fn archive_url_joins_relative_names_to_the_base() {
    assert_eq!(
        archive_url("https://dl.google.com/android/repository/", "platform-tools.zip"),
        Ok("https://dl.google.com/android/repository/platform-tools.zip".to_string())
    );
    assert_eq!(
        archive_url("https://dl.google.com/android/repository/", "https://example.com/a.zip"),
        Ok("https://example.com/a.zip".to_string())
    );
    assert_eq!(archive_url("https://dl.google.com/", "http://[bad"), Err(()));
    assert_eq!(archive_url("not a url", "a.zip"), Err(()));
}

#[test]
fn set_version_hands_back_the_project() {
    let mut p = Project::new("g", "a", "1.0");
    p.set_version(labt::version::VersionRequirement::Unset).set_selected_version(Some("2.0".to_string()));
    assert!(matches!(p.get_version(), labt::version::VersionRequirement::Unset));
    assert_eq!(p.get_selected_version(), &Some("2.0".to_string()));
}

#[test]
fn resolver_error_keeps_its_source() {
    let e = ResolverError::new("m", ResolverErrorKind::Internal, Some("io".to_string()));
    assert_eq!(e.source(), &Some("io".to_string()));
    assert_eq!(e.to_string(), "m\n");
}

#[test]
fn plugin_paths_follow_the_parsed_url() {
    let parsed = Some((
        "https://gitlab.com/g/sub/p.git".to_string(),
        Some("gitlab.com".to_string()),
        "/g/sub/p.git".to_string(),
    ));
    assert_eq!(
        plugin_paths_from("/h", parsed, "https://gitlab.com/g/sub/p.git", "v3"),
        PluginSource::Remote {
            git_dir: "/h/plugins/gitlab.com/g/sub/p/git".to_string(),
            versions_dir: "/h/plugins/gitlab.com/g/sub/p/versions".to_string(),
            worktree_dir: "/h/plugins/gitlab.com/g/sub/p/versions/v3".to_string(),
        }
    );
    assert_eq!(plugin_paths_from("/h", None, "dir/p", "v3"), PluginSource::Local("dir/p".to_string()));
    assert_eq!(build_plugin_path_from("/h", "p", "1", &Some("x".to_string()), true), "/h/plugins/p-1");
}

#[test]
fn labt_home_stays_once_found() {
    let mut cache = None;
    assert_eq!(
        labt::paths::get_home_cached(&mut cache, None, Some("/home/u".to_string()), true),
        Ok("/home/u/.labt".to_string())
    );
    assert_eq!(
        labt::paths::get_home_cached(&mut cache, Some("/other".to_string()), None, false),
        Ok("/home/u/.labt".to_string())
    );
    let mut empty = None;
    assert_eq!(labt::paths::get_home_cached(&mut empty, None, None, false), Err(HomeError::NotDetected));
    assert_eq!(empty, None);
}
