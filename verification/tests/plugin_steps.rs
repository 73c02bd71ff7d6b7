use labt::plugin::{load_package_paths, load_plugins, plugin_is_stale, Plugin};
use labt::plugin_config::{PluginToml, Step};

fn description() -> PluginToml {
    let text = r#"
name = "example"
version = "0.1.0"
package_paths = ["lib", "/usr/share/lua"]

[stage.compile]
file = "compile.lua"
priority = 3
inputs = ["src/*.java"]
outputs = ["build/*.class"]

[stage.pre]
file = "pre.lua"
priority = 1
unsafe = true
"#;
    let mut plugin: PluginToml = text.parse().unwrap();
    plugin.path = "/home/u/.labt/plugins/example".to_string();
    plugin
}

#[test]
fn package_paths_are_rooted_at_the_plugin() {
    let paths = load_package_paths(
        &["lib".to_string(), "/abs".to_string()],
        "/plugins/p",
    );
    assert_eq!(
        paths,
        vec![
            "/plugins/p/lib".to_string(),
            "/abs".to_string(),
            "/plugins/p/?.lua".to_string(),
            "/plugins/p/?/init.lua".to_string(),
        ]
    );
    assert_eq!(
        load_package_paths(&[], "root/"),
        vec!["root/?.lua".to_string(), "root/?/init.lua".to_string()]
    );
}

#[test]
fn get_steps_runs_stages_in_step_order() {
    let steps = description().get_steps();
    assert_eq!(steps.len(), 2);
    assert_eq!(steps[0].step, Step::PRE);
    assert_eq!(steps[0].path, "/home/u/.labt/plugins/example/pre.lua");
    assert!(steps[0].unsafe_mode);
    assert_eq!(steps[0].priority, 1);
    assert!(steps[0].dependents.is_none());
    assert_eq!(steps[1].step, Step::COMPILE);
    assert_eq!(steps[1].priority, 3);
    assert!(!steps[1].unsafe_mode);
    // array entries are kept as the TOML text of each value
    assert_eq!(
        steps[1].dependents,
        Some((
            vec!["\"src/*.java\"".to_string()],
            vec!["\"build/*.class\"".to_string()]
        ))
    );
    assert_eq!(steps[1].package_paths.len(), 4);
    assert_eq!(
        steps[1].package_paths[2],
        "/home/u/.labt/plugins/example/?.lua".to_string()
    );
    assert_eq!(
        steps[1].package_paths[3],
        "/home/u/.labt/plugins/example/?/init.lua".to_string()
    );
}

#[test]
fn load_plugins_groups_by_step() {
    let groups = load_plugins(vec![description(), description()]);
    assert_eq!(groups.len(), 2);
    assert_eq!(groups[0].0, Step::PRE);
    assert_eq!(groups[0].1.len(), 2);
    assert_eq!(groups[1].0, Step::COMPILE);
    assert_eq!(groups[1].1.len(), 2);
    let p = Plugin::new("n".to_string(), "v".to_string(), "f".to_string(), Step::DEX);
    assert_eq!(p.priority, 0);
    assert!(p.package_paths.is_empty());
}

fn plugin_at(name: &str, step: Step, priority: i32) -> Plugin {
    let mut p = Plugin::new(name.to_string(), "1".to_string(), format!("{}.lua", name), step);
    p.priority = priority;
    p
}

#[test]
fn build_plan_runs_steps_in_order_by_priority() {
    let groups = vec![
        (Step::COMPILE, vec![plugin_at("c1", Step::COMPILE, 1), plugin_at("c2", Step::COMPILE, 5), plugin_at("c3", Step::COMPILE, 1)]),
        (Step::PRE, vec![plugin_at("p1", Step::PRE, 0)]),
        (Step::POST, vec![plugin_at("z1", Step::POST, 2)]),
    ];
    let names: Vec<String> = labt::plugin::build_plan(&groups, None).iter().map(|p| p.name.clone()).collect();
    assert_eq!(names, vec!["p1", "c2", "c1", "c3", "z1"]);
    let only: Vec<String> = labt::plugin::build_plan(&groups, Some(Step::COMPILE)).iter().map(|p| p.name.clone()).collect();
    assert_eq!(only, vec!["c2", "c1", "c3"]);
    assert!(labt::plugin::build_plan(&groups, Some(Step::DEX)).is_empty());
}

#[test]
fn stale_plugins_have_a_newer_input_for_every_output() {
    assert!(plugin_is_stale(&vec![Some(5)], &vec![Some(3)]));
    assert!(!plugin_is_stale(&vec![Some(5)], &vec![Some(5)]));
    assert!(!plugin_is_stale(&vec![Some(5)], &vec![Some(3), Some(9)]));
    assert!(plugin_is_stale(&vec![None], &vec![None]));
    assert!(!plugin_is_stale(&vec![None], &vec![Some(1)]));
    assert!(plugin_is_stale(&vec![], &vec![]));
    assert!(!plugin_is_stale(&vec![], &vec![Some(1)]));
}
