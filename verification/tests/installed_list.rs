use labt::installed_list::{
    InstalledList, InstalledListErrKind, InstalledListError, InstalledPackage,
};
use labt::package_id::ToId;
use labt::plugin_config::RepositoryInfo;
use labt::repository::ChannelType;
use labt::revision::Revision;

fn package(path: &str, url: &str) -> InstalledPackage {
    InstalledPackage {
        repository_name: "google".to_string(),
        path: path.to_string(),
        version: Revision::new(1),
        channel: ChannelType::Stable,
        url: url.to_string(),
        directory: None,
    }
}

#[test]
fn add_package() {
    let package_1: InstalledPackage = InstalledPackage {
        repository_name: "google".to_string(),
        path: "sdk:package1".to_string(),
        version: Revision::new(1),
        channel: ChannelType::Stable,
        url: "gitlab.com".to_string(),
        directory: None,
    };

    let mut list = InstalledList::new();
    list.add_installed_package(package_1.clone());

    assert!(list.packages.contains(&package_1));
}

#[test]
fn insert_package() {
    let package_1 = package("sdk:package1", "gitlab.com");
    let package_2 = package("sdk:package2", "gitlab.com");

    let mut list = InstalledList::new();
    list.add_installed_package(package_1.clone());
    list.add_installed_package(package_2.clone());

    // insert a package not available in list
    let package_3 = package("sdk:package3", "gitlab.com");

    list.insert_installed_package(package_3);
    assert!(list.packages.len().eq(&3), "List length is not equal to 3");

    // try to re update package 1
    let package_1 = InstalledPackage {
        url: "example.com".to_string(),
        ..package_1
    };

    list.insert_installed_package(package_1.clone());
    assert!(list.packages.len().eq(&3), "List length is not equal to 3");

    assert_eq!(list.packages[0].url, package_1.url);
}

#[test]
fn installed_package_list_from_str() {
    let toml = r#"
[[repository]]
name = "google"
url = "https://repo.google.com"
path = ".labt/sdk/google"
accepted_licenses = []

[[package]]
repository_name = "google"
path = "extras;google;auto"
version = "2.0.0.0"
channel = "stable"
url = "http://example.com"
"#;

    let result: InstalledList = toml.parse().unwrap();
    let mut iter = result.packages.iter();
    let value: &InstalledPackage = iter.next().unwrap();

    let package = InstalledPackage {
        repository_name: "google".to_string(),
        path: "extras;google;auto".to_string(),
        version: "2.0.0.0".parse().unwrap(),
        channel: ChannelType::Stable,
        url: "http://example.com".to_string(),
        directory: None,
    };

    assert_eq!(value.to_id(), package.to_id());
    assert_eq!(value, &package);

    let repo = RepositoryInfo {
        url: "https://repo.google.com".to_string(),
        accepted_licenses: Vec::new(),
        path: ".labt/sdk/google".into(),
    };

    assert_eq!(result.repositories.len(), 1);
    let google_repo = &result.repositories[0].1;
    assert_eq!(result.repositories[0].0, "google".to_string());

    assert_eq!(google_repo.url, repo.url);
    assert_eq!(google_repo.path, repo.path);
    assert_eq!(google_repo.accepted_licenses, repo.accepted_licenses);
}

#[test]
fn installed_package_list_to_toml() {
    let mut list = InstalledList::new();

    list.repositories.push((
        "google".to_string(),
        RepositoryInfo {
            url: "https://repo.google.com".to_string(),
            accepted_licenses: Vec::new(),
            path: ".labt/sdk/google".into(),
        },
    ));

    let package = InstalledPackage {
        repository_name: "google".to_string(),
        path: "extras;google;auto".to_string(),
        version: "2.0.0.0".parse().unwrap(),
        channel: ChannelType::Stable,
        url: "http://example.com".to_string(),
        directory: None,
    };

    list.add_installed_package(package.clone());

    let toml = r#"
[[repository]]
name = "google"
url = "https://repo.google.com"
path = ".labt/sdk/google"
accepted_licenses = []

[[package]]
repository_name = "google"
path = "extras;google;auto"
version = "2.0.0.0"
channel = "stable"
url = "http://example.com"
"#;
    assert_eq!(list.to_string(), toml.trim_start());
}

#[test]
fn package_id_joins_path_version_and_channel() {
    let p = package("platforms;android-33", "u");
    assert_eq!(p.to_id(), "platforms;android-33:1.0.0.0:stable".to_string());
}

#[test]
fn remove_and_find_packages() {
    let mut list = InstalledList::new();
    list.add_installed_package(package("a", "1"));
    list.add_installed_package(package("b", "2"));
    list.add_installed_package(package("a", "3"));
    assert_eq!(list.contains_path(&"a".to_string()).unwrap().url, "1");
    assert_eq!(list.contains_paths(&"a".to_string()).len(), 2);
    assert!(list.contains_path(&"c".to_string()).is_none());
    assert_eq!(list.contains_id(&package("a", "x")).unwrap().url, "1");
    list.contains_id_mut(&package("b", "x")).unwrap().url = "changed".to_string();
    assert_eq!(list.packages[1].url, "changed");
    assert_eq!(list.get_hash_map().len(), 2);
    list.remove_installed_package(&package("a", "x"));
    assert_eq!(list.packages.len(), 2);
    assert_eq!(list.packages[1].url, "3");
    assert!(!list.contains(&package("a", "1")));
    assert!(list.contains(&package("a", "3")));
}

#[test]
fn licenses_are_accepted_once_and_written_in_order() {
    let mut list = InstalledList::new();
    assert_eq!(list.has_accepted("google", &"l1".to_string()), None);
    list.repositories.push((
        "google".to_string(),
        RepositoryInfo {
            url: "u".to_string(),
            accepted_licenses: Vec::new(),
            path: "p".to_string(),
        },
    ));
    assert_eq!(list.has_accepted("google", &"l1".to_string()), Some(false));
    list.accept_license("google", "zeta".to_string());
    list.accept_license("google", "alpha".to_string());
    list.accept_license("google", "zeta".to_string());
    assert_eq!(list.has_accepted("google", &"zeta".to_string()), Some(true));
    assert_eq!(list.repositories[0].1.accepted_licenses.len(), 2);
    assert!(list
        .to_string()
        .contains("accepted_licenses = [\"alpha\", \"zeta\"]"));
}

#[test]
fn installed_list_errors() {
    let missing = "[[package]]\npath = \"a\"\n";
    match InstalledList::from_str(missing) {
        Err(InstalledListError::List(e)) => {
            assert!(matches!(e.get_kind(), InstalledListErrKind::MissingKey("path", _)))
        }
        other => panic!("unexpected {:?}", other),
    }
    let bad_version = "[[package]]\npath = \"a\"\nrepository_name = \"g\"\nurl = \"u\"\nversion = \"x\"\nchannel = \"stable\"\n";
    assert!(matches!(
        InstalledList::from_str(bad_version),
        Err(InstalledListError::Version(_))
    ));
    let bad_license = "[[repository]]\nname = \"g\"\npath = \"p\"\nurl = \"u\"\naccepted_licenses = [1]\n";
    match InstalledList::from_str(bad_license) {
        Err(InstalledListError::List(e)) => assert_eq!(
            e.get_kind(),
            InstalledListErrKind::LicenseIdStrError("accepted_licenses", 0)
        ),
        other => panic!("unexpected {:?}", other),
    }
    assert!(matches!(
        InstalledList::from_str("= nope"),
        Err(InstalledListError::Toml(_))
    ));
}
