use labt::config::{
    default_resolvers, get_resolvers_from_config, LabToml, Project, ResolverSource, ResolverTable,
};

fn project() -> Project {
    Project {
        name: String::from("labt"),
        description: String::new(),
        version_number: 0,
        version: String::from("0.0"),
        package: String::from("com.gitlab.labtool"),
    }
}

#[test]
fn get_resolvers_from_config_test() {
    let config = LabToml {
        dependencies: None,
        project: project(),
        resolvers: Some(Vec::from([
            (
                String::from("local"),
                ResolverTable {
                    url: String::from("http://localhost/maven2"),
                    priority: 99,
                },
            ),
            (
                String::from("repo1"),
                ResolverTable {
                    url: String::from("http://example.com/maven2"),
                    priority: 2,
                },
            ),
            // ovveride internal resolver
            (
                String::from("google"),
                ResolverTable {
                    // change the url
                    url: String::from("https://maven.google.com/new-url"),
                    // above cache resolver
                    priority: 11,
                },
            ),
        ])),
        plugins: None,
    };

    let resolvers = get_resolvers_from_config(&config);

    // local should be at top
    assert_eq!(resolvers[0].name, String::from("local"));
    // followed by google resolver
    assert_eq!(resolvers[1].name, String::from("google"));
    assert_eq!(resolvers[2].name, String::from("cache"));
    assert_eq!(resolvers[3].name, String::from("repo1"));
    assert_eq!(resolvers[4].name, String::from("central"));

    // check priorities
    assert_eq!(
        resolvers
            .iter()
            .map(|res| res.priority)
            .collect::<Vec<i32>>(),
        vec![99, 11, 10, 2, 1]
    );
    assert_eq!(
        resolvers[1].source,
        ResolverSource::Net(String::from("https://maven.google.com/new-url"))
    );
}

#[test]
fn resolvers_without_configuration_are_the_defaults() {
    let config = LabToml {
        dependencies: None,
        project: project(),
        resolvers: None,
        plugins: None,
    };
    let resolvers = get_resolvers_from_config(&config);
    assert_eq!(resolvers, default_resolvers());
    assert_eq!(resolvers[0].source, ResolverSource::Cache);
    assert_eq!(resolvers.len(), 3);
}

#[test]
fn resolvers_of_equal_priority_keep_their_order() {
    let config = LabToml {
        dependencies: None,
        project: project(),
        resolvers: Some(vec![
            (
                String::from("b"),
                ResolverTable { url: String::from("http://b"), priority: 1 },
            ),
            (
                String::from("a"),
                ResolverTable { url: String::from("http://a"), priority: 1 },
            ),
        ]),
        plugins: None,
    };
    let names: Vec<String> = get_resolvers_from_config(&config)
        .into_iter()
        .map(|r| r.name)
        .collect();
    assert_eq!(names, vec!["cache", "google", "central", "b", "a"]);
}
