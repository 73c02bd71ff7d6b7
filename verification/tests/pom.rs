use labt::constraint::Constraint;
use labt::pom::Project;
use labt::version::{VersionRange, VersionRequirement};

#[test]
fn project_substitute_property_string() {
    let mut project = Project::new("com.example", "artifact_1", "22.0.0");
    project.insert_property("glorious".to_string(), "bustard".to_string());
    let env: Vec<(String, String)> = Vec::new();

    assert_eq!(
        project.substitute_string("${glorious}", &env),
        "bustard".to_string()
    );
    assert_eq!(
        project.substitute_string("${   glorious}", &env),
        "bustard".to_string()
    );
    assert_eq!(
        project.substitute_string("${   glorious   }", &env),
        "bustard".to_string()
    );
    assert_eq!(
        project.substitute_string("${glorious   }", &env),
        "bustard".to_string()
    );
    assert_eq!(
        project.substitute_string("$   {glorious}", &env),
        "bustard".to_string()
    );
    assert_eq!(
        project.substitute_string("$x{glorious}", &env),
        "x{glorious}".to_string()
    );
    assert_eq!(
        project.substitute_string("${project.groupId}", &env),
        "com.example".to_string()
    );
    assert_eq!(
        project.substitute_string("${project.artifactId}", &env),
        "artifact_1".to_string()
    );
    assert_eq!(
        project.substitute_string("${project.version}", &env),
        "22.0.0".to_string()
    );
    assert_eq!(
        project.substitute_string("${project.groupId}:${project.artifactId}:${project.version}", &env),
        "com.example:artifact_1:22.0.0".to_string()
    );
    assert_eq!(project.substitute_string("pro", &env), "pro".to_string());
}

#[test]
fn parse_pom_version_requirements() {
    let soft = "1.0";
    let lt = "(,1.0)";
    let ltlt = "(,1.0),(,2.0)";
    let le = "(,1.0]";
    let lele = "(,1.0],(,2.0]";
    let gt = "(1.0,)";
    let gtgt = "(1.0,),(2.0,)";
    let ge = "[1.0,)";
    let gege = "[1.0,),[2.0,)";
    let eq = "[1.0]";
    let eqeq = "[1.0],[2.0]";
    let incle = "[1.0,2.0]";
    let inc2 = "[1.0,2.0)";
    let inc3 = "(1.0,2.0]";
    let incl = "(1.0,2.0)";
    let or = "(,1.0],[1.2,)";
    let not = "(,1.1),(1.1,)";

    assert_eq!(
        "".parse::<VersionRequirement>().unwrap(),
        VersionRequirement::Unset
    );
    assert_eq!(
        "  ".parse::<VersionRequirement>().unwrap(),
        VersionRequirement::Unset
    );

    assert_eq!(
        soft.parse::<VersionRequirement>().unwrap(),
        VersionRequirement::Soft(String::from("1.0"))
    );

    assert_eq!(
        lt.parse::<VersionRequirement>().unwrap(),
        VersionRequirement::Hard(vec![VersionRange::Lt(String::from("1.0"))])
    );
    assert_eq!(
        ltlt.parse::<VersionRequirement>().unwrap(),
        VersionRequirement::Hard(vec![
            VersionRange::Lt(String::from("1.0")),
            VersionRange::Lt(String::from("2.0"))
        ])
    );
    assert_eq!(
        le.parse::<VersionRequirement>().unwrap(),
        VersionRequirement::Hard(vec![VersionRange::Le(String::from("1.0"))])
    );
    assert_eq!(
        lele.parse::<VersionRequirement>().unwrap(),
        VersionRequirement::Hard(vec![
            VersionRange::Le(String::from("1.0")),
            VersionRange::Le(String::from("2.0"))
        ])
    );
    assert_eq!(
        gt.parse::<VersionRequirement>().unwrap(),
        VersionRequirement::Hard(vec![VersionRange::Gt(String::from("1.0"))])
    );
    assert_eq!(
        gtgt.parse::<VersionRequirement>().unwrap(),
        VersionRequirement::Hard(vec![
            VersionRange::Gt(String::from("1.0")),
            VersionRange::Gt(String::from("2.0"))
        ])
    );
    assert_eq!(
        ge.parse::<VersionRequirement>().unwrap(),
        VersionRequirement::Hard(vec![VersionRange::Ge(String::from("1.0"))])
    );
    assert_eq!(
        gege.parse::<VersionRequirement>().unwrap(),
        VersionRequirement::Hard(vec![
            VersionRange::Ge(String::from("1.0")),
            VersionRange::Ge(String::from("2.0"))
        ])
    );
    assert_eq!(
        eq.parse::<VersionRequirement>().unwrap(),
        VersionRequirement::Hard(vec![VersionRange::Eq(String::from("1.0"))])
    );
    assert_eq!(
        eqeq.parse::<VersionRequirement>().unwrap(),
        VersionRequirement::Hard(vec![
            VersionRange::Eq(String::from("1.0")),
            VersionRange::Eq(String::from("2.0"))
        ])
    );
    assert_eq!(
        incle.parse::<VersionRequirement>().unwrap(),
        VersionRequirement::Hard(vec![
            VersionRange::Ge(String::from("1.0")),
            VersionRange::Le(String::from("2.0"))
        ])
    );
    assert_eq!(
        incl.parse::<VersionRequirement>().unwrap(),
        VersionRequirement::Hard(vec![
            VersionRange::Gt(String::from("1.0")),
            VersionRange::Lt(String::from("2.0"))
        ])
    );
    assert_eq!(
        inc2.parse::<VersionRequirement>().unwrap(),
        VersionRequirement::Hard(vec![
            VersionRange::Ge(String::from("1.0")),
            VersionRange::Lt(String::from("2.0"))
        ])
    );
    assert_eq!(
        inc3.parse::<VersionRequirement>().unwrap(),
        VersionRequirement::Hard(vec![
            VersionRange::Gt(String::from("1.0")),
            VersionRange::Le(String::from("2.0"))
        ])
    );
    assert_eq!(
        or.parse::<VersionRequirement>().unwrap(),
        VersionRequirement::Hard(vec![
            VersionRange::Le(String::from("1.0")),
            VersionRange::Ge(String::from("1.2"))
        ])
    );
    assert_eq!(
        not.parse::<VersionRequirement>().unwrap(),
        VersionRequirement::Hard(vec![
            VersionRange::Lt(String::from("1.1")),
            VersionRange::Gt(String::from("1.1"))
        ])
    );

    // with spaces
    let inc2 = "[1.0,2.0)";
    let inc3 = "(1.0,2.0]";
    let incl = "(1.0,2.0)";
    let or = "( , 1.0] , [1.2 , )";
    let not = "( , 1.1) , (1.1 , )";

    // softies
    let soft = "   1.0";
    let soft2 = "1.0   ";
    let soft3 = "   1.0   ";

    assert_eq!(
        soft.parse::<VersionRequirement>().unwrap(),
        VersionRequirement::Soft(String::from("1.0"))
    );
    assert_eq!(
        soft2.parse::<VersionRequirement>().unwrap(),
        VersionRequirement::Soft(String::from("1.0"))
    );
    assert_eq!(
        soft3.parse::<VersionRequirement>().unwrap(),
        VersionRequirement::Soft(String::from("1.0"))
    );

    // lt
    let lt = "(, 1.0)";
    let lt2 = "(,1.0  )";
    let lt3 = "(  ,1.0  )";
    assert_eq!(
        lt.parse::<VersionRequirement>().unwrap(),
        VersionRequirement::Hard(vec![VersionRange::Lt(String::from("1.0"))])
    );
    assert_eq!(
        lt2.parse::<VersionRequirement>().unwrap(),
        VersionRequirement::Hard(vec![VersionRange::Lt(String::from("1.0"))])
    );
    assert_eq!(
        lt3.parse::<VersionRequirement>().unwrap(),
        VersionRequirement::Hard(vec![VersionRange::Lt(String::from("1.0"))])
    );

    // le
    let le = "(, 1.0]";
    let le2 = "(,1.0 ] ";
    let le3 = "(  ,1.0  ]";

    assert_eq!(
        le.parse::<VersionRequirement>().unwrap(),
        VersionRequirement::Hard(vec![VersionRange::Le(String::from("1.0"))])
    );
    assert_eq!(
        le2.parse::<VersionRequirement>().unwrap(),
        VersionRequirement::Hard(vec![VersionRange::Le(String::from("1.0"))])
    );
    assert_eq!(
        le3.parse::<VersionRequirement>().unwrap(),
        VersionRequirement::Hard(vec![VersionRange::Le(String::from("1.0"))])
    );

    // gt
    let gt = "( 1.0,)";
    let gt2 = "(1.0,  )";
    let gt3 = "(  1.0 , )";

    assert_eq!(
        gt.parse::<VersionRequirement>().unwrap(),
        VersionRequirement::Hard(vec![VersionRange::Gt(String::from("1.0"))])
    );
    assert_eq!(
        gt2.parse::<VersionRequirement>().unwrap(),
        VersionRequirement::Hard(vec![VersionRange::Gt(String::from("1.0"))])
    );
    assert_eq!(
        gt3.parse::<VersionRequirement>().unwrap(),
        VersionRequirement::Hard(vec![VersionRange::Gt(String::from("1.0"))])
    );

    // ge
    let ge = "[  1.0,)  ";

    assert_eq!(
        ge.parse::<VersionRequirement>().unwrap(),
        VersionRequirement::Hard(vec![VersionRange::Ge(String::from("1.0"))])
    );
    let ge = "[1.0,  )";
    assert_eq!(
        ge.parse::<VersionRequirement>().unwrap(),
        VersionRequirement::Hard(vec![VersionRange::Ge(String::from("1.0"))])
    );
    let ge = "[  1.0,  )";
    assert_eq!(
        ge.parse::<VersionRequirement>().unwrap(),
        VersionRequirement::Hard(vec![VersionRange::Ge(String::from("1.0"))])
    );

    // eq
    let eq = "[ 1.0]";
    assert_eq!(
        eq.parse::<VersionRequirement>().unwrap(),
        VersionRequirement::Hard(vec![VersionRange::Eq(String::from("1.0"))])
    );
    let eq = "[1.0  ]";
    assert_eq!(
        eq.parse::<VersionRequirement>().unwrap(),
        VersionRequirement::Hard(vec![VersionRange::Eq(String::from("1.0"))])
    );
    let eq = "[  1.0  ]";
    assert_eq!(
        eq.parse::<VersionRequirement>().unwrap(),
        VersionRequirement::Hard(vec![VersionRange::Eq(String::from("1.0"))])
    );

    let incle = "[  1.0,2.0]";
    assert_eq!(
        incle.parse::<VersionRequirement>().unwrap(),
        VersionRequirement::Hard(vec![
            VersionRange::Ge(String::from("1.0")),
            VersionRange::Le(String::from("2.0"))
        ])
    );
    let incle = "[  1.0,  2.0]";
    assert_eq!(
        incle.parse::<VersionRequirement>().unwrap(),
        VersionRequirement::Hard(vec![
            VersionRange::Ge(String::from("1.0")),
            VersionRange::Le(String::from("2.0"))
        ])
    );
    let incle = "[  1.0,  2.0  ]";
    assert_eq!(
        incle.parse::<VersionRequirement>().unwrap(),
        VersionRequirement::Hard(vec![
            VersionRange::Ge(String::from("1.0")),
            VersionRange::Le(String::from("2.0"))
        ])
    );
    let incle = "[  1.0,2.0  ]";
    assert_eq!(
        incle.parse::<VersionRequirement>().unwrap(),
        VersionRequirement::Hard(vec![
            VersionRange::Ge(String::from("1.0")),
            VersionRange::Le(String::from("2.0"))
        ])
    );
    assert_eq!(
        incl.parse::<VersionRequirement>().unwrap(),
        VersionRequirement::Hard(vec![
            VersionRange::Gt(String::from("1.0")),
            VersionRange::Lt(String::from("2.0"))
        ])
    );

    assert_eq!(
        inc2.parse::<VersionRequirement>().unwrap(),
        VersionRequirement::Hard(vec![
            VersionRange::Ge(String::from("1.0")),
            VersionRange::Lt(String::from("2.0"))
        ])
    );
    assert_eq!(
        inc3.parse::<VersionRequirement>().unwrap(),
        VersionRequirement::Hard(vec![
            VersionRange::Gt(String::from("1.0")),
            VersionRange::Le(String::from("2.0"))
        ])
    );
    assert_eq!(
        or.parse::<VersionRequirement>().unwrap(),
        VersionRequirement::Hard(vec![
            VersionRange::Le(String::from("1.0")),
            VersionRange::Ge(String::from("1.2"))
        ])
    );
    assert_eq!(
        not.parse::<VersionRequirement>().unwrap(),
        VersionRequirement::Hard(vec![
            VersionRange::Lt(String::from("1.1")),
            VersionRange::Gt(String::from("1.1"))
        ])
    );
}

/// Tests conversion between version requirement and string. Remember we dont
/// care about the various syntatic sugars. What we care about is if the parser
/// can reproduce the same result regardless of what the to_string produces
#[test]
fn version_requirement_to_string() {
    assert_eq!(
        VersionRequirement::Soft("4.0".to_string()).to_string(),
        String::from("4.0")
    );

    assert_eq!(VersionRequirement::Unset.to_string(), String::new());

    // Now the complicated stuff.
    // The test plan:
    //  - Convert to string
    //  - Convert the resulting string back to VersionRequirement.
    //  - Compare if the resulting VersionRequirement is identical

    // Eq
    let version = VersionRequirement::Hard(vec![VersionRange::Eq("4.0".to_string())]);
    assert_eq!(
        version.to_string().parse::<VersionRequirement>().unwrap(),
        version
    );

    // Gt
    let version = VersionRequirement::Hard(vec![VersionRange::Gt("4.0".to_string())]);
    assert_eq!(
        version.to_string().parse::<VersionRequirement>().unwrap(),
        version
    );

    // Ge
    let version = VersionRequirement::Hard(vec![VersionRange::Ge("4.0".to_string())]);
    assert_eq!(
        version.to_string().parse::<VersionRequirement>().unwrap(),
        version
    );

    // Lt
    let version = VersionRequirement::Hard(vec![VersionRange::Lt("4.0".to_string())]);
    assert_eq!(
        version.to_string().parse::<VersionRequirement>().unwrap(),
        version
    );

    // Le
    let version = VersionRequirement::Hard(vec![VersionRange::Lt("4.0".to_string())]);
    assert_eq!(
        version.to_string().parse::<VersionRequirement>().unwrap(),
        version
    );

    // more complex stuff
    // [1.0, 2.0]
    let version = VersionRequirement::Hard(vec![
        VersionRange::Ge(String::from("1.0")),
        VersionRange::Le(String::from("2.0")),
    ]);
    assert_eq!(
        version.to_string().parse::<VersionRequirement>().unwrap(),
        version
    );
    // [1.0,2.0)
    let version = VersionRequirement::Hard(vec![
        VersionRange::Ge(String::from("1.0")),
        VersionRange::Lt(String::from("2.0")),
    ]);
    assert_eq!(
        version.to_string().parse::<VersionRequirement>().unwrap(),
        version
    );
    // (1.0,2.0)
    let version = VersionRequirement::Hard(vec![
        VersionRange::Gt(String::from("1.0")),
        VersionRange::Lt(String::from("2.0")),
    ]);
    assert_eq!(
        version.to_string().parse::<VersionRequirement>().unwrap(),
        version
    );
    // (,1.0],[1.2,)
    let version = VersionRequirement::Hard(vec![
        VersionRange::Le(String::from("1.0")),
        VersionRange::Ge(String::from("1.2")),
    ]);
    assert_eq!(
        version.to_string().parse::<VersionRequirement>().unwrap(),
        version
    );
    // (,1.1),(1.1,)
    let version = VersionRequirement::Hard(vec![
        VersionRange::Lt(String::from("1.1")),
        VersionRange::Gt(String::from("1.1")),
    ]);
    assert_eq!(
        version.to_string().parse::<VersionRequirement>().unwrap(),
        version
    );
}

#[test]
fn version_range_from_string() {
    assert_eq!(
        ">20.0".parse::<VersionRange>().unwrap(),
        VersionRange::Gt("20.0".to_string())
    );
    assert_eq!(
        ">=20.0".parse::<VersionRange>().unwrap(),
        VersionRange::Ge("20.0".to_string())
    );
    assert_eq!(
        "<20.0".parse::<VersionRange>().unwrap(),
        VersionRange::Lt("20.0".to_string())
    );
    assert_eq!(
        "<=20.0".parse::<VersionRange>().unwrap(),
        VersionRange::Le("20.0".to_string())
    );
    assert_eq!(
        "=20.0".parse::<VersionRange>().unwrap(),
        VersionRange::Eq("20.0".to_string())
    );
    assert_eq!(
        "20.0".parse::<VersionRange>().unwrap(),
        VersionRange::Eq("20.0".to_string())
    );
    assert!(">".parse::<VersionRange>().is_err(),);
    assert!(">=".parse::<VersionRange>().is_err(),);
    assert!("<".parse::<VersionRange>().is_err(),);
    assert!("<=".parse::<VersionRange>().is_err(),);
    assert!("   ".parse::<VersionRange>().is_err(),);
}
#[test]
fn version_range_to_string() {
    assert_eq!(
        VersionRange::Eq("2.0".to_string()).to_string().as_str(),
        "2.0"
    );
    assert_eq!(
        VersionRange::Gt("2.0".to_string()).to_string().as_str(),
        ">2.0"
    );
    assert_eq!(
        VersionRange::Ge("2.0".to_string()).to_string().as_str(),
        ">=2.0"
    );
    assert_eq!(
        VersionRange::Lt("2.0".to_string()).to_string().as_str(),
        "<2.0"
    );
    assert_eq!(
        VersionRange::Le("2.0".to_string()).to_string().as_str(),
        "<=2.0"
    );
}
#[test]
fn version_requirement_from_constraint() {
    let c = Constraint::default();
    assert!(VersionRequirement::from_constraint(&c).is_unset());

    let c = Constraint {
        min: Some((true, "1.0".to_string())),
        max: Some((true, "3.0".to_string())),
        ..Default::default()
    };

    let vr = VersionRequirement::from_constraint(&c);
    assert!(vr.is_hard());
    assert_eq!(
        vr,
        VersionRequirement::Hard(vec![
            VersionRange::Ge("1.0".to_string()),
            VersionRange::Le("3.0".to_string())
        ])
    );
    let c = Constraint {
        exact: Some("2.0".to_string()),
        ..Default::default()
    };

    let vr = VersionRequirement::from_constraint(&c);
    assert!(vr.is_hard());
    assert_eq!(
        vr,
        VersionRequirement::Hard(vec![VersionRange::Eq("2.0".to_string())])
    );

    let c = Constraint {
        // exclude version 1
        exclusions: vec![(
            VersionRange::Ge("1.0".to_string()),
            VersionRange::Le("1.0".to_string()),
        )],
        ..Default::default()
    };

    let vr = VersionRequirement::from_constraint(&c);
    assert!(vr.is_hard());
    assert_eq!(
        vr,
        VersionRequirement::Hard(vec![
            VersionRange::Lt("1.0".to_string()),
            VersionRange::Gt("1.0".to_string()),
        ])
    );
}

#[test]
fn pom_text_substitutes_its_properties() {
    let text = "<project><groupId>com.x</groupId><artifactId>a</artifactId><version>1.0</version>\
        <properties><lib.version>2.5</lib.version></properties>\
        <dependencies><dependency><groupId>com.y</groupId><artifactId>b</artifactId>\
        <version>${lib.version}</version></dependency></dependencies></project>";
    let p = labt::pom::parse_pom_text(text, Project::new("com.x", "a", "1.0"), &Vec::new()).unwrap();
    assert!(matches!(
        p.get_dependencies()[0].get_version(),
        labt::version::VersionRequirement::Soft(v) if v == "2.5"
    ));
}

#[test]
fn repository_text_is_read() {
    let text = "<sdk:sdk-repository xmlns:sdk=\"x\"><channel id=\"channel-0\">stable</channel>\
        <remotePackage path=\"platform-tools\"><display-name>Tools</display-name><channelRef ref=\"channel-0\"/>\
        </remotePackage></sdk:sdk-repository>";
    let repo = labt::repository_xml::parse_repository_xml_text(text).unwrap();
    assert_eq!(repo.get_remote_packages().len(), 1);
    assert_eq!(repo.get_remote_packages()[0].get_path(), "platform-tools");
}
