use labt::maven_metadata::{parse_maven_metadata_text, MavenMetadata, MetadataError, Parser};
use labt::version::VersionRequirement;
use labt::xml::{xml_events, XmlEvent};

#[test]
fn maven_metadata_parsing() {
    let file = r#"
<?xml version="1.0" encoding="UTF-8"?>
<metadata modelVersion="1.1.0">
  <groupId>com.gitlab.labt</groupId>
  <artifactId>labt</artifactId>
  <version>6.9.0</version>
  <versioning>
    <latest>6.9.0</latest>
    <release>6.9.0</release>
    <versions>
      <version>6.9.0</version>
      <version>6.8.4</version>
      <version>6.8.2</version>
      <version>6.8.0</version>
      <version>6.7.0</version>
      <version>6.6.0</version>
    </versions>
  </versioning>
</metadata>
"#;
    let metadata = parse_maven_metadata_text(file).unwrap();

    let expected = MavenMetadata {
        group_id: "com.gitlab.labt".to_string(),
        artifact_id: "labt".to_string(),
        version: Some("6.9.0".to_string()),
        latest: Some("6.9.0".to_string()),
        release: Some("6.9.0".to_string()),
        versions: vec![
            "6.9.0".to_string(),
            "6.8.4".to_string(),
            "6.8.2".to_string(),
            "6.8.0".to_string(),
            "6.7.0".to_string(),
            "6.6.0".to_string(),
        ],
    };

    assert_eq!(metadata, expected);
}

#[test]
fn maven_metadata_select_version() {
    let metadata = MavenMetadata {
        group_id: "com.gitlab.labt".to_string(),
        artifact_id: "labt".to_string(),
        version: Some("6.9.0".to_string()),
        latest: Some("6.9.1-SNAPSHOT".to_string()),
        release: Some("6.9.0".to_string()),
        versions: vec![
            "6.9.1-SNAPSHOT".to_string(),
            "6.9.0".to_string(),
            "6.8.4".to_string(),
            "6.8.2".to_string(),
            "6.8.0".to_string(),
            "6.7.0".to_string(),
            "6.6.0".to_string(),
            "5.9.0".to_string(),
            "5.8.4".to_string(),
            "5.8.2".to_string(),
            "5.8.0".to_string(),
            "5.7.0".to_string(),
            "5.6.0".to_string(),
            "4.9.0".to_string(),
            "4.8.4".to_string(),
            "4.8.2".to_string(),
            "4.8.0".to_string(),
            "4.7.0".to_string(),
            "4.6.0".to_string(),
        ],
    };

    assert_eq!(
        metadata
            .select_version(&"5.9".parse::<VersionRequirement>().unwrap())
            .unwrap(),
        "5.9".to_string()
    );
    // eq
    assert_eq!(
        metadata
            .select_version(&"[5.9]".parse::<VersionRequirement>().unwrap())
            .unwrap(),
        "5.9.0".to_string()
    );
    // Le
    assert_eq!(
        metadata
            .select_version(&"(,5.9]".parse::<VersionRequirement>().unwrap())
            .unwrap(),
        "5.9.0".to_string()
    );
    // Lt
    assert_eq!(
        metadata
            .select_version(&"(,5.9)".parse::<VersionRequirement>().unwrap())
            .unwrap(),
        "5.8.4".to_string()
    );
    // Ge
    assert_eq!(
        metadata
            .select_version(&"[5.9,)".parse::<VersionRequirement>().unwrap())
            .unwrap(),
        "6.9.1-SNAPSHOT".to_string()
    );

    // Gt
    assert_eq!(
        metadata
            .select_version(&"(5.9,)".parse::<VersionRequirement>().unwrap())
            .unwrap(),
        "6.9.1-SNAPSHOT".to_string()
    );
    // impossible
    assert!(metadata
        .select_version(&"(6.9.1,)".parse::<VersionRequirement>().unwrap())
        .is_err());

    assert_eq!(
        metadata.select_version(&VersionRequirement::Unset).unwrap(),
        "6.9.0".to_string()
    );
}

#[test]
fn select_version_falls_back_to_latest_then_newest() {
    let mut metadata = MavenMetadata::new("g".to_string(), "a".to_string());
    assert_eq!(
        metadata.select_version(&VersionRequirement::Unset),
        Err(MetadataError::NoSelectableVersion)
    );
    metadata.versions = vec!["1.2".to_string(), "1.10".to_string(), "1.9".to_string()];
    assert_eq!(
        metadata.select_version(&VersionRequirement::Unset).unwrap(),
        "1.10".to_string()
    );
    metadata.latest = Some("2.0".to_string());
    assert_eq!(
        metadata.select_version(&VersionRequirement::Unset).unwrap(),
        "2.0".to_string()
    );
}

#[test]
fn try_select_version_refuses_incomparable_versions() {
    let mut metadata = MavenMetadata::new("g".to_string(), "a".to_string());
    metadata.versions = vec!["abc".to_string(), "1.0".to_string()];
    assert_eq!(metadata.try_select_version(&VersionRequirement::Unset), None);
    assert_eq!(
        metadata.try_select_version(&"[1.0,)".parse::<VersionRequirement>().unwrap()),
        Some(Ok("1.0".to_string()))
    );
}

#[test]
fn metadata_parser_rejects_unresolved_text() {
    let mut parser = Parser::new(MavenMetadata::default());
    let events = xml_events("<metadata><groupId>").unwrap();
    for e in &events {
        parser.process(e).unwrap();
    }
    assert_eq!(parser.process(&XmlEvent::Text(None)), Err(MetadataError::Text));
    parser.process(&XmlEvent::Text(Some("g".to_string()))).unwrap();
    assert_eq!(parser.metadata().group_id, "g".to_string());
}

#[test]
fn metadata_text_that_is_not_xml_is_refused() {
    assert!(matches!(
        parse_maven_metadata_text("<metadata><groupId>g</artifactId></metadata>"),
        Err(labt::maven_metadata::MetadataReadError::Xml(_))
    ));
}

#[test]
fn chosen_version_of_joined_ranges_admits_either_range() {
    let mut metadata = MavenMetadata::new("g".to_string(), "a".to_string());
    metadata.versions = vec!["1.0.0".to_string(), "1.5.0".to_string(), "2.1.0".to_string()];
    let req = "(,1.5.0),(1.5.0,)".parse::<VersionRequirement>().unwrap();
    assert_eq!(metadata.choose_version(&req), Some(Ok("2.1.0".to_string())));
    let only = "[1.5.0]".parse::<VersionRequirement>().unwrap();
    assert_eq!(metadata.choose_version(&only), Some(Ok("1.5.0".to_string())));
    metadata.release = Some("1.5.0".to_string());
    let release = "RELEASE".parse::<VersionRequirement>().unwrap();
    assert_eq!(metadata.choose_version(&release), Some(Ok("1.5.0".to_string())));
}
