use labt::repository::{Archive, BitSizeType, ChannelType, RemotePackage, RepositoryXml};
use labt::repository_toml::{
    parse_repository_toml, repository_toml_text, try_parse_repository_toml, RepositoryTomlError,
};
use labt::revision::Revision;

fn sample() -> RepositoryXml {
    let mut repo = RepositoryXml::new();
    repo.set_name("google".to_string());
    repo.set_url("https://dl.google.com/android/repository/repository2-3.xml".to_string());
    let mut package = RemotePackage::new();
    package.set_path("platform-tools".to_string());
    package.set_revision(Revision { major: 35, minor: 0, micro: 1, preview: 0 });
    package.set_display_name("Android SDK Platform-Tools".to_string());
    package.set_license("android-sdk-license".to_string());
    package.set_channel(ChannelType::Stable);
    let mut archive = Archive::default();
    archive.set_url("platform-tools_r35.0.1-linux.zip".to_string());
    archive.set_checksum("abc".to_string());
    archive.set_size(7036502);
    archive.set_host_os("linux".to_string());
    archive.set_host_bits(BitSizeType::Bit64);
    package.add_archive(archive);
    package.set_obsolete(true);
    repo.add_remote_package(package);
    repo
}

#[test]
fn repository_toml_round_trip() {
    let repo = sample();
    let text = repository_toml_text(&repo);
    assert!(text.contains("name = \"google\""));
    assert!(text.contains("[[remote_package.archive]]"));
    let back = parse_repository_toml(&text).unwrap();
    assert_eq!(back.get_name(), repo.get_name());
    assert_eq!(back.get_url(), repo.get_url());
    assert_eq!(back.get_remote_packages(), repo.get_remote_packages());
}

#[test]
fn repository_toml_missing_keys() {
    assert_eq!(
        parse_repository_toml("url = \"u\"\n").unwrap_err(),
        RepositoryTomlError::Missing("name", 0)
    );
    assert_eq!(
        parse_repository_toml("name = \"n\"\n").unwrap_err(),
        RepositoryTomlError::Missing("path", 0)
    );
    let no_version = "name = \"n\"\nurl = \"u\"\n[[remote_package]]\npath = \"p\"\n";
    assert!(matches!(
        parse_repository_toml(no_version),
        Err(RepositoryTomlError::Missing("version", _))
    ));
    let bad_version =
        "name = \"n\"\nurl = \"u\"\n[[remote_package]]\npath = \"p\"\nversion = \"x\"\ndisplay_name = \"d\"\n";
    assert!(matches!(
        parse_repository_toml(bad_version),
        Err(RepositoryTomlError::Version(_))
    ));
}

#[test]
fn repository_toml_values_of_the_wrong_type() {
    assert!(try_parse_repository_toml("name = 1\nurl = \"u\"\n").is_none());
    let size = "name = \"n\"\nurl = \"u\"\n[[remote_package]]\npath = \"p\"\nversion = \"1\"\ndisplay_name = \"d\"\n[[remote_package.archive]]\nsize = \"big\"\n";
    assert!(try_parse_repository_toml(size).is_none());
    let fine = "name = \"n\"\nurl = \"u\"\n";
    let repo = try_parse_repository_toml(fine).unwrap().unwrap();
    assert_eq!(repo.get_name(), "n");
    assert!(repo.get_remote_packages().is_empty());
    assert!(matches!(
        try_parse_repository_toml("= x"),
        Some(Err(RepositoryTomlError::Toml(_)))
    ));
}
