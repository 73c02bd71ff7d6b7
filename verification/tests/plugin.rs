use labt::plugin_config::{PluginInit, PluginStage, PluginToml, SdkEntry, Step};
use labt::repository::ChannelType;
use labt::version::VersionRange;

#[test]
fn parse_plugin_toml_from_string() {
    let toml = r#"
name="example"
version="0.1.0"
author="omentum"
labt=">=0.3.4"

[sdk]
build = "build-tools:33.0.2:stable"
platform = {path = "platform-tools", version="35.0.2.0",  channel="stable"}

[sdk.cmd]
path = "cmdline-tools;latest"
version = "16.0.0.1"
channel = "stable"

[init]
file = "template.lua"
templates = "my-templates"

# pre build
[stage.pre]
file="pre.lua"
priority=1
unsafe = true

# android asset packaging tool step.
[stage.aapt]
file="aapt.lua"
priority=1

# java compilation
[stage.compile]
file="compile.lua"
priority=1

# dexing
[stage.dex]
file="dex.lua"
priority=1

# bundling
[stage.bundle]
file="bundle.lua"
priority=1

# post build
[stage.post]
file="post.lua"
priority=1       
"#;

    let plugin: PluginToml = toml.parse().unwrap();
    assert_eq!(plugin.name, String::from("example"));
    assert_eq!(plugin.version, String::from("0.1.0"));
    assert_eq!(plugin.path, String::new());
    assert_eq!(plugin.labt, Some(VersionRange::Ge(String::from("0.3.4"))));
    assert_eq!(plugin.sdk.len(), 3);

    assert_eq!(
        plugin.init,
        Some(PluginInit {
            file: String::from("template.lua"),
            templates: Some(String::from("my-templates"))
        })
    );

    let mut sdks = plugin.sdk.iter();
    assert_eq!(
        sdks.next(),
        Some(&SdkEntry {
            name: String::from("build"),
            path: String::from("build-tools"),
            version: "33.0.2".parse().unwrap(),
            channel: ChannelType::Stable,
            ..Default::default()
        })
    );
    assert_eq!(
        sdks.next(),
        Some(&SdkEntry {
            name: String::from("platform"),
            path: String::from("platform-tools"),
            version: "35.0.2.0".parse().unwrap(),
            channel: ChannelType::Stable,
            ..Default::default()
        })
    );
    assert_eq!(
        sdks.next(),
        Some(&SdkEntry {
            name: String::from("cmd"),
            path: String::from("cmdline-tools;latest"),
            version: "16.0.0.1".parse().unwrap(),
            channel: ChannelType::Stable,
            ..Default::default()
        })
    );
    assert_eq!(sdks.next(), None);

    assert_eq!(
        plugin.stage(Step::AAPT),
        Some(&PluginStage {
            file: String::from("aapt.lua"),
            priority: 1,
            inputs: None,
            outputs: None,
            enable_unsafe: false,
        })
    );
    assert_eq!(
        plugin.stage(Step::PRE),
        Some(&PluginStage {
            file: String::from("pre.lua"),
            priority: 1,
            inputs: None,
            outputs: None,
            enable_unsafe: true,
        })
    );
    assert_eq!(
        plugin.stage(Step::COMPILE),
        Some(&PluginStage {
            file: String::from("compile.lua"),
            priority: 1,
            inputs: None,
            outputs: None,
            enable_unsafe: false,
        })
    );
    assert_eq!(
        plugin.stage(Step::DEX),
        Some(&PluginStage {
            file: String::from("dex.lua"),
            priority: 1,
            inputs: None,
            outputs: None,
            enable_unsafe: false,
        })
    );
    assert_eq!(
        plugin.stage(Step::BUNDLE),
        Some(&PluginStage {
            file: String::from("bundle.lua"),
            priority: 1,
            inputs: None,
            outputs: None,
            enable_unsafe: false,
        })
    );
    assert_eq!(
        plugin.stage(Step::POST),
        Some(&PluginStage {
            file: String::from("post.lua"),
            priority: 1,
            inputs: None,
            outputs: None,
            enable_unsafe: false,
        })
    );
}

#[test]
fn plugin_toml_to_string() {
    let mut plugin: PluginToml = PluginToml {
        name: String::from("example"),
        version: String::from("0.1.0"),
        stages: Vec::new(),
        sdk: Vec::new(),
        path: String::new(),
        package_paths: None,
        enable_unsafe: false,
        labt: None,
        sdk_repo: Vec::new(),
        init: None,
    };

    plugin.sdk.push(SdkEntry {
        name: String::from("build"),
        path: String::from("build-tools"),
        version: "33.0.2".parse().unwrap(),
        channel: ChannelType::Stable,
        ..Default::default()
    });
    plugin.sdk.push(SdkEntry {
        name: String::from("platform"),
        path: String::from("platform-tools"),
        version: "35.0.2.0".parse().unwrap(),
        channel: ChannelType::Stable,
        ..Default::default()
    });
    plugin.sdk.push(SdkEntry {
        name: String::from("cmd"),
        path: String::from("cmdline-tools;latest"),
        version: "16.0.0.1".parse().unwrap(),
        channel: ChannelType::Stable,
        ..Default::default()
    });

    plugin.insert_stage(Step::AAPT,
        PluginStage {
            file: String::from("aapt.lua"),
            priority: 1,
            inputs: Some(vec![String::from("**/*.xml")]),
            outputs: Some(vec![String::from("build/res.apk")]),
            enable_unsafe: false,
        },
    );

    plugin.insert_stage(Step::PRE,
        PluginStage {
            file: String::from("pre.lua"),
            priority: 1,
            inputs: None,
            outputs: None,
            enable_unsafe: false,
        },
    );

    plugin.insert_stage(Step::COMPILE,
        PluginStage {
            file: String::from("compile.lua"),
            priority: 1,
            inputs: None,
            outputs: None,
            enable_unsafe: false,
        },
    );

    plugin.insert_stage(Step::DEX,
        PluginStage {
            file: String::from("dex.lua"),
            priority: 1,
            inputs: None,
            outputs: None,
            enable_unsafe: false,
        },
    );

    plugin.insert_stage(Step::BUNDLE,
        PluginStage {
            file: String::from("bundle.lua"),
            priority: 1,
            inputs: None,
            outputs: None,
            enable_unsafe: false,
        },
    );

    plugin.insert_stage(Step::POST,
        PluginStage {
            file: String::from("post.lua"),
            priority: 1,
            inputs: None,
            outputs: None,
            enable_unsafe: true,
        },
    );
    let toml = r#"name = "example"
version = "0.1.0"

[sdk]
build = { path = "build-tools", version = "33.0.2.0", channel = "stable" }
platform = { path = "platform-tools", version = "35.0.2.0", channel = "stable" }
cmd = { path = "cmdline-tools;latest", version = "16.0.0.1", channel = "stable" }

[stage]

[stage.pre]
file = "pre.lua"
priority = 1

[stage.aapt]
file = "aapt.lua"
priority = 1
inputs = ["**/*.xml"]
outputs = ["build/res.apk"]

[stage.compile]
file = "compile.lua"
priority = 1

[stage.dex]
file = "dex.lua"
priority = 1

[stage.bundle]
file = "bundle.lua"
priority = 1

[stage.post]
file = "post.lua"
priority = 1
unsafe = true
"#;
    assert_eq!(toml, plugin.to_string().as_str());
}
