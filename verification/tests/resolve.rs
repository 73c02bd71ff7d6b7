use labt::constraint::Constraint;
use labt::resolve::ProjectDep;
use labt::version::{VersionRange, VersionRequirement};

#[test]
fn check_base_url_conversion() {
    let base = String::from("https://maven.example.com/maven2/");
    let mut dep = ProjectDep {
        artifact_id: "labt".to_string(),
        group_id: "com.gitlab.labtool".to_string(),
        version: "6.9.0".to_string(),
        base_url: base.clone(),
        ..Default::default()
    };

    let expected = String::from("https://maven.example.com/maven2/com/gitlab/labtool/labt/6.9.0/");

    assert_eq!(expected, dep.get_root_url());

    dep.base_url = String::new();
    dep.set_base_url_from_root(expected);

    assert_eq!(dep.base_url, base);
}

#[test]
fn constraint_check_version_ranges() {
    let constraint = Constraint {
        min: Some((true, String::from("1.5.0"))),
        max: Some((true, String::from("5.8.0"))),
        exact: None,
        exclusions: Vec::new(),
    };

    assert!(constraint.within(&VersionRequirement::Unset).unwrap());

    assert!(constraint
        .within(&VersionRequirement::Soft(String::from("4.0")))
        .unwrap());

    assert!(!constraint
        .within(&VersionRequirement::Soft(String::from("1.0")))
        .unwrap());

    assert!(constraint
        .within(&"[1.5]".parse::<VersionRequirement>().unwrap())
        .unwrap());

    assert!(!constraint
        .within(&"[1.0]".parse::<VersionRequirement>().unwrap())
        .unwrap());

    assert!(constraint
        .within(&"[1.5,)".parse::<VersionRequirement>().unwrap())
        .unwrap());

    assert!(constraint
        .within(&"(1.5,)".parse::<VersionRequirement>().unwrap())
        .unwrap());

    assert!(constraint
        .within(&"[1.0,)".parse::<VersionRequirement>().unwrap())
        .unwrap());

    assert!(constraint
        .within(&"(1.0,)".parse::<VersionRequirement>().unwrap())
        .unwrap());

    assert!(!constraint
        .within(&"(,1.5)".parse::<VersionRequirement>().unwrap())
        .unwrap());

    assert!(constraint
        .within(&"(,1.5]".parse::<VersionRequirement>().unwrap())
        .unwrap());

    assert!(constraint
        .within(&"(,5.8)".parse::<VersionRequirement>().unwrap())
        .unwrap());

    assert!(constraint
        .within(&"(,5.8]".parse::<VersionRequirement>().unwrap())
        .unwrap());

    assert!(constraint
        .within(&"(,6.8]".parse::<VersionRequirement>().unwrap())
        .unwrap());

    assert!(constraint
        .within(&"(1.5,6.8]".parse::<VersionRequirement>().unwrap())
        .unwrap());

    assert!(!constraint
        .within(&"(,1.5),(1.5,)".parse::<VersionRequirement>().unwrap())
        .unwrap());

    assert!(!constraint
        .within(&"(,5.8),(5.8,)".parse::<VersionRequirement>().unwrap())
        .unwrap());

    // makes sense from logical standpoint where v5 is within limits
    assert!(constraint
        .within(&"(,5.0),(5.0)".parse::<VersionRequirement>().unwrap())
        .unwrap());

    let constraint = Constraint {
        min: Some((false, String::from("1.5.0"))),
        max: Some((false, String::from("5.8.0"))),
        exact: Some(String::from("5.5")), // anything that is not this should fail
        exclusions: Vec::new(),
    };
    assert!(constraint.within(&VersionRequirement::Unset).unwrap());

    assert!(!constraint
        .within(&VersionRequirement::Soft(String::from("4.0")))
        .unwrap());

    assert!(constraint
        .within(&VersionRequirement::Soft(String::from("5.5")))
        .unwrap());

    assert!(!constraint
        .within(&VersionRequirement::Soft(String::from("1.0")))
        .unwrap());

    assert!(!constraint
        .within(&"[1.5]".parse::<VersionRequirement>().unwrap())
        .unwrap());

    assert!(constraint
        .within(&"[5.5]".parse::<VersionRequirement>().unwrap())
        .unwrap());

    assert!(!constraint
        .within(&"[1.0]".parse::<VersionRequirement>().unwrap())
        .unwrap());

    assert!(!constraint
        .within(&"[1.5,)".parse::<VersionRequirement>().unwrap())
        .unwrap());

    assert!(!constraint
        .within(&"(1.5,)".parse::<VersionRequirement>().unwrap())
        .unwrap());

    assert!(!constraint
        .within(&"[1.0,)".parse::<VersionRequirement>().unwrap())
        .unwrap());

    assert!(!constraint
        .within(&"(1.0,)".parse::<VersionRequirement>().unwrap())
        .unwrap());

    assert!(!constraint
        .within(&"(,1.5)".parse::<VersionRequirement>().unwrap())
        .unwrap());

    assert!(!constraint
        .within(&"(,1.5]".parse::<VersionRequirement>().unwrap())
        .unwrap());

    assert!(!constraint
        .within(&"(,5.8)".parse::<VersionRequirement>().unwrap())
        .unwrap());

    assert!(!constraint
        .within(&"(,5.8]".parse::<VersionRequirement>().unwrap())
        .unwrap());

    assert!(!constraint
        .within(&"(,6.8]".parse::<VersionRequirement>().unwrap())
        .unwrap());

    assert!(!constraint
        .within(&"(1.5,6.8]".parse::<VersionRequirement>().unwrap())
        .unwrap());

    assert!(!constraint
        .within(&"(,1.5),(1.5,)".parse::<VersionRequirement>().unwrap())
        .unwrap());

    assert!(!constraint
        .within(&"(,5.8),(5.8,)".parse::<VersionRequirement>().unwrap())
        .unwrap());

    // makes sense from logical standpoint where v5 is within limits
    assert!(!constraint
        .within(&"(,5.0),(5.0,)".parse::<VersionRequirement>().unwrap())
        .unwrap());

    // Exclusions
    let mut c = constraint.clone();
    c.exclusions.push((
        VersionRange::Gt(String::from("2.0")),
        VersionRange::Lt(String::from("3.0")),
    )); // 2.0>x<3.0

    assert!(!constraint
        .within(&"2.1".parse::<VersionRequirement>().unwrap())
        .unwrap());

    assert!(!constraint
        .within(&"[2.1]".parse::<VersionRequirement>().unwrap())
        .unwrap());
}

#[test]
fn constraint_contain_version_ranges() {
    let constraint = Constraint {
        min: Some((true, String::from("1.5.0"))),
        max: Some((true, String::from("5.8.0"))),
        exact: None,
        exclusions: Vec::new(),
    };

    // min exclusive
    let constraint2 = Constraint {
        min: Some((false, String::from("1.5.0"))),
        max: Some((true, String::from("5.8.0"))),
        exact: None,
        exclusions: Vec::new(),
    };
    // max exclusive
    let constraint3 = Constraint {
        min: Some((true, String::from("1.5.0"))),
        max: Some((false, String::from("5.8.0"))),
        exact: None,
        exclusions: Vec::new(),
    };

    // soft
    assert_eq!(
        constraint
            .contain(&"1.2".parse::<VersionRequirement>().unwrap())
            .unwrap(),
        constraint
    );
    // unset
    assert_eq!(
        constraint
            .contain(&"".parse::<VersionRequirement>().unwrap())
            .unwrap(),
        constraint
    );

    // exact version
    let c = constraint
        .contain(&"[2.0]".parse::<VersionRequirement>().unwrap())
        .unwrap();

    assert_eq!(c.exact, Some("2.0".to_string()));

    // exact version that is out of bounds
    let c = constraint.contain(&"[5.9]".parse::<VersionRequirement>().unwrap());
    assert!(c.is_err());

    let c = constraint.contain(&"[1.5]".parse::<VersionRequirement>().unwrap());
    assert!(c.is_ok());

    let c = constraint2.contain(&"[1.5]".parse::<VersionRequirement>().unwrap());
    assert!(c.is_err());

    let c = constraint3.contain(&"[5.8]".parse::<VersionRequirement>().unwrap());
    assert!(c.is_err());

    let c = constraint.contain(&"[5.5],[1.5]".parse::<VersionRequirement>().unwrap()); // an incorrect conflicting input
    assert!(c.is_err());

    // Exact was already set
    let mut c = constraint.clone();
    c.exact = Some(String::from("4.0"));
    assert!(c
        .contain(&"[5.8]".parse::<VersionRequirement>().unwrap())
        .is_err());

    // Shrink the min max boundary
    let c = constraint
        .contain(&"[2.0, 3.0]".parse::<VersionRequirement>().unwrap())
        .unwrap();

    assert_eq!(c.min, Some((true, String::from("2.0"))));
    assert_eq!(c.max, Some((true, String::from("3.0"))));

    // Shrink the min max boundary
    let c = constraint
        .contain(&"(2.0, 3.0)".parse::<VersionRequirement>().unwrap())
        .unwrap();

    assert_eq!(c.min, Some((false, String::from("2.0"))));
    assert_eq!(c.max, Some((false, String::from("3.0"))));

    let c = constraint
        .contain(&"[2.0, 6.0]".parse::<VersionRequirement>().unwrap())
        .unwrap();

    assert_eq!(c.min, Some((true, String::from("2.0"))));
    assert_eq!(c.max, Some((true, String::from("5.8.0"))));

    let c = constraint
        .contain(&"(2.0, 6.0)".parse::<VersionRequirement>().unwrap())
        .unwrap();

    assert_eq!(c.min, Some((false, String::from("2.0"))));
    assert_eq!(c.max, Some((true, String::from("5.8.0"))));

    let c = constraint
        .contain(&"(,6.0]".parse::<VersionRequirement>().unwrap())
        .unwrap();

    assert_eq!(c.min, Some((true, String::from("1.5.0"))));
    assert_eq!(c.max, Some((true, String::from("5.8.0"))));

    let c = constraint
        .contain(&"(,6.0)".parse::<VersionRequirement>().unwrap())
        .unwrap();

    assert_eq!(c.min, Some((true, String::from("1.5.0"))));
    assert_eq!(c.max, Some((true, String::from("5.8.0"))));
    // double move
    let c = constraint
        .contain(&"(,6.0),(,5.5.0)".parse::<VersionRequirement>().unwrap())
        .unwrap();

    assert_eq!(c.min, Some((true, String::from("1.5.0"))));
    assert_eq!(c.max, Some((false, String::from("5.5.0"))));

    // moves the max bound by making them exclusive
    let c = constraint
        .contain(&"(,5.8)".parse::<VersionRequirement>().unwrap())
        .unwrap();

    assert_eq!(c.min, Some((true, String::from("1.5.0"))));
    assert_eq!(c.max, Some((false, String::from("5.8"))));

    // Push the min up
    let c = constraint
        .contain(&"[2.0,)".parse::<VersionRequirement>().unwrap())
        .unwrap();

    assert_eq!(c.min, Some((true, String::from("2.0"))));
    assert_eq!(c.max, Some((true, String::from("5.8.0"))));

    let c = constraint
        .contain(&"(3.0,)".parse::<VersionRequirement>().unwrap())
        .unwrap();

    assert_eq!(c.min, Some((false, String::from("3.0"))));
    assert_eq!(c.max, Some((true, String::from("5.8.0"))));

    // moves the max bound by making them exclusive
    let c = constraint
        .contain(&"(1.5,)".parse::<VersionRequirement>().unwrap())
        .unwrap();

    assert_eq!(c.min, Some((false, String::from("1.5"))));
    assert_eq!(c.max, Some((true, String::from("5.8.0"))));
    // Double move
    let c = constraint
        .contain(&"(1.5,),(1.8,)".parse::<VersionRequirement>().unwrap())
        .unwrap();

    assert_eq!(c.min, Some((false, String::from("1.8"))));
    assert_eq!(c.max, Some((true, String::from("5.8.0"))));

    // Excludes
    let c = constraint
        .contain(&"(,2.0),(2.0,)".parse::<VersionRequirement>().unwrap())
        .unwrap();

    assert_eq!(c.min, Some((true, String::from("1.5.0"))));
    assert_eq!(c.max, Some((true, String::from("5.8.0"))));
    assert_eq!(
        c.exclusions,
        vec![(
            VersionRange::Ge(String::from("2.0")),
            VersionRange::Le(String::from("2.0"))
        )]
    );
    let c = constraint
        .contain(&"(,2.0],[2.0,)".parse::<VersionRequirement>().unwrap())
        .unwrap();

    assert_eq!(c.min, Some((true, String::from("1.5.0"))));
    assert_eq!(c.max, Some((true, String::from("5.8.0"))));
    assert_eq!(
        c.exclusions,
        vec![(
            VersionRange::Gt(String::from("2.0")),
            VersionRange::Lt(String::from("2.0"))
        )]
    );

    let c = constraint
        .contain(
            &"[1.8, 3.0],(,2.0),(2.0,)"
                .parse::<VersionRequirement>()
                .unwrap(),
        )
        .unwrap();

    assert_eq!(c.min, Some((true, String::from("1.8"))));
    assert_eq!(c.max, Some((true, String::from("3.0"))));
    assert_eq!(
        c.exclusions,
        vec![(
            VersionRange::Ge(String::from("2.0")),
            VersionRange::Le(String::from("2.0"))
        )]
    );

    let c = constraint
        .contain(
            &"[1.8,),(,2.0),(2.0,)"
                .parse::<VersionRequirement>()
                .unwrap(),
        )
        .unwrap();

    assert_eq!(c.min, Some((true, String::from("1.8"))));
    assert_eq!(c.max, Some((true, String::from("5.8.0"))));
    assert_eq!(
        c.exclusions,
        vec![(
            VersionRange::Ge(String::from("2.0")),
            VersionRange::Le(String::from("2.0"))
        )]
    );
    let c = constraint
        .contain(
            &"[1.8,),(,2.0),(2.0,)(,4.0),(5.0,)"
                .parse::<VersionRequirement>()
                .unwrap(),
        )
        .unwrap();

    assert_eq!(c.min, Some((true, String::from("1.8"))));
    assert_eq!(c.max, Some((true, String::from("5.8.0"))));
    assert_eq!(
        c.exclusions,
        vec![
            (
                VersionRange::Ge(String::from("2.0")),
                VersionRange::Le(String::from("2.0"))
            ),
            (
                VersionRange::Ge(String::from("4.0")),
                VersionRange::Le(String::from("5.0"))
            )
        ]
    );
    assert!(constraint
        .contain(&"[2.0],(,2.0),(2.0,)".parse::<VersionRequirement>().unwrap(),)
        .is_err());

    assert!(constraint
        .contain(&"[2.1],(,2.0),(3.0,)".parse::<VersionRequirement>().unwrap(),)
        .is_err());

    // set new min or max
    let constraint = Constraint::default();

    let c = constraint
        .contain(&"(5.9,)".parse::<VersionRequirement>().unwrap())
        .unwrap();

    assert_eq!(
        c,
        Constraint {
            min: Some((false, "5.9".to_string())),
            ..Default::default()
        }
    );
    let c = constraint
        .contain(&"[5.9,)".parse::<VersionRequirement>().unwrap())
        .unwrap();

    assert_eq!(
        c,
        Constraint {
            min: Some((true, "5.9".to_string())),
            ..Default::default()
        }
    );
    let c = constraint
        .contain(&"(,5.9)".parse::<VersionRequirement>().unwrap())
        .unwrap();

    assert_eq!(
        c,
        Constraint {
            max: Some((false, "5.9".to_string())),
            ..Default::default()
        }
    );
    let c = constraint
        .contain(
            &"(,5.9),(,5.6),(,5.1)"
                .parse::<VersionRequirement>()
                .unwrap(),
        )
        .unwrap();

    assert_eq!(
        c,
        Constraint {
            max: Some((false, "5.1".to_string())),
            ..Default::default()
        }
    );
    let c = constraint
        .contain(&"(,5.9]".parse::<VersionRequirement>().unwrap())
        .unwrap();

    assert_eq!(
        c,
        Constraint {
            max: Some((true, "5.9".to_string())),
            ..Default::default()
        }
    );
    let c = constraint
        .contain(&"(,5.9),(5.9,)".parse::<VersionRequirement>().unwrap())
        .unwrap();

    assert_eq!(
        c,
        Constraint {
            exclusions: vec![(
                VersionRange::Ge("5.9".to_string()),
                VersionRange::Le("5.9".to_string())
            )],
            ..Default::default()
        }
    );
}

#[test]
fn constraint_within_range() {
    assert!(Constraint::within_range(
        &String::from("2.0"),
        &VersionRange::Ge(String::from("2.0")),
        &VersionRange::Le(String::from("2.0"))
    ));
    assert!(!Constraint::within_range(
        &String::from("2.0"),
        &VersionRange::Gt(String::from("2.0")),
        &VersionRange::Le(String::from("2.0"))
    ));
    assert!(!Constraint::within_range(
        &String::from("2.0"),
        &VersionRange::Ge(String::from("2.0")),
        &VersionRange::Lt(String::from("2.0"))
    ));
    assert!(!Constraint::within_range(
        &String::from("2.0"),
        &VersionRange::Gt(String::from("2.0")),
        &VersionRange::Lt(String::from("2.0"))
    ));

    assert!(!Constraint::within_range(
        &String::from("3.0"),
        &VersionRange::Ge(String::from("2.0")),
        &VersionRange::Le(String::from("2.0"))
    ));

    assert!(Constraint::within_range(
        &String::from("1.0"),
        &VersionRange::Lt(String::from("2.0")),
        &VersionRange::Le(String::from("3.0"))
    ));
    assert!(!Constraint::within_range(
        &String::from("1.0"),
        &VersionRange::Lt(String::from("2.0")),
        &VersionRange::Ge(String::from("3.0"))
    ));
    assert!(Constraint::within_range(
        &String::from("7.0"),
        &VersionRange::Gt(String::from("2.0")),
        &VersionRange::Ge(String::from("3.0"))
    ));
    assert!(!Constraint::within_range(
        &String::from("7.0"),
        &VersionRange::Lt(String::from("2.0")),
        &VersionRange::Ge(String::from("3.0"))
    ));
    assert!(!Constraint::within_range(
        &String::from("1.0"),
        &VersionRange::Gt(String::from("2.0")),
        &VersionRange::Ge(String::from("3.0"))
    ));
}
