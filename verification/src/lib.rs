//! Dependency-management core of an Android build tool: Maven version
//! requirements and constraints, POM, maven-metadata and Android SDK
//! repository descriptions, lock files and plugin descriptions.
pub mod strs;
pub mod assoc;
pub mod xml;
pub mod tomldoc;
pub mod revision;
pub mod repository;
pub mod repository_xml;
pub mod verorder;
pub mod version;
pub mod pom;
pub mod constraint;
pub mod containment;
pub mod resolve;
pub mod lock;
pub mod plugin_config;
pub mod plugin_toml;
pub mod maven_metadata;
pub mod config;
pub mod package_id;
pub mod installed_list;
pub mod repository_toml;
pub mod paths;
pub mod cache;
pub mod resolvers;
pub mod templating;
pub mod filters;
pub mod plugin;
pub mod resolution;
pub mod sdk;
pub mod submodules;
pub mod sdk_module;
pub mod urls;
pub mod walk;
