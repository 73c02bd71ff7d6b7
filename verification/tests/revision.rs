use labt::revision::{Revision, RevisionParseError};

#[test]
fn test_revision_from_string() {
    let version = "1.0.0.0";
    let revision: Revision = version.parse().unwrap();

    assert_eq!(
        revision,
        Revision {
            major: 1,
            minor: 0,
            micro: 0,
            preview: 0
        }
    );

    let version = "1";
    let revision: Revision = version.parse().unwrap();
    assert_eq!(
        revision,
        Revision {
            major: 1,
            minor: 0,
            micro: 0,
            preview: 0,
        }
    );

    let version = "1.69";
    let revision: Revision = version.parse().unwrap();
    assert_eq!(
        revision,
        Revision {
            major: 1,
            minor: 69,
            micro: 0,
            preview: 0,
        }
    );

    let version = "0.1.22";
    let revision: Revision = version.parse().unwrap();
    assert_eq!(
        revision,
        Revision {
            major: 0,
            minor: 1,
            micro: 22,
            preview: 0,
        }
    );
    let version = "invalid";
    let revision: Result<Revision, RevisionParseError> = version.parse();
    assert!(revision.is_err());
}

#[test]
fn revision_to_string() {
    let revision = Revision {
        major: 6,
        minor: 78,
        ..Default::default()
    };
    assert_eq!(revision.to_string(), String::from("6.78.0.0"));
    let revision = Revision::default();
    assert_eq!(revision.to_string(), String::from("0.0.0.0"));
    let revision = Revision {
        preview: 9999999,
        ..Default::default()
    };
    assert_eq!(revision.to_string(), String::from("0.0.0.9999999"));
}

#[test]
fn revision_version_compare() {
    // Equal revisions
    assert_eq!(
        Revision {
            major: 1,
            minor: 2,
            micro: 3,
            preview: 0
        },
        Revision {
            major: 1,
            minor: 2,
            micro: 3,
            preview: 0
        }
    );
    assert_eq!(
        Revision {
            major: 1,
            minor: 2,
            micro: 3,
            preview: 1
        },
        Revision {
            major: 1,
            minor: 2,
            micro: 3,
            preview: 1
        }
    );

    // Major version differences
    assert!(
        Revision {
            major: 1,
            minor: 2,
            micro: 3,
            preview: 0
        } < Revision {
            major: 2,
            minor: 2,
            micro: 3,
            preview: 0
        }
    );
    assert!(
        Revision {
            major: 2,
            minor: 2,
            micro: 3,
            preview: 0
        } > Revision {
            major: 1,
            minor: 2,
            micro: 3,
            preview: 0
        }
    );

    // Minor version differences
    assert!(
        Revision {
            major: 1,
            minor: 1,
            micro: 3,
            preview: 0
        } < Revision {
            major: 1,
            minor: 2,
            micro: 3,
            preview: 0
        }
    );
    assert!(
        Revision {
            major: 1,
            minor: 2,
            micro: 3,
            preview: 0
        } > Revision {
            major: 1,
            minor: 1,
            micro: 3,
            preview: 0
        }
    );

    // Micro version differences
    assert!(
        Revision {
            major: 1,
            minor: 2,
            micro: 2,
            preview: 0
        } < Revision {
            major: 1,
            minor: 2,
            micro: 3,
            preview: 0
        }
    );
    assert!(
        Revision {
            major: 1,
            minor: 2,
            micro: 3,
            preview: 0
        } > Revision {
            major: 1,
            minor: 2,
            micro: 2,
            preview: 0
        }
    );

    // Preview version differences
    assert!(
        Revision {
            major: 1,
            minor: 2,
            micro: 3,
            preview: 0
        } < Revision {
            major: 1,
            minor: 2,
            micro: 3,
            preview: 1
        }
    );
    assert!(
        Revision {
            major: 1,
            minor: 2,
            micro: 3,
            preview: 1
        } > Revision {
            major: 1,
            minor: 2,
            micro: 3,
            preview: 0
        }
    );

    // Mixed version differences
    assert!(
        Revision {
            major: 1,
            minor: 1,
            micro: 2,
            preview: 0
        } < Revision {
            major: 1,
            minor: 2,
            micro: 3,
            preview: 1
        }
    );
    assert!(
        Revision {
            major: 1,
            minor: 2,
            micro: 3,
            preview: 1
        } > Revision {
            major: 1,
            minor: 1,
            micro: 2,
            preview: 0
        }
    );
}
